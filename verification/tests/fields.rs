use expander_rs::field::exp_by_squaring;
use expander_rs::field::m31::{reduce_i32, reduce_u32, M31_MOD};
use expander_rs::field::msn61_ext::{msn61_mod, msn61_mod_u64, msn61_try_sub, MSN61_MOD};
use expander_rs::{mod_reduce_i32, Field, FieldArith, FieldSerde, M31Ext3, Msn61, M31};
use rand::rngs::StdRng;
use rand::SeedableRng;

fn ext(a: u32, b: u32, c: u32) -> M31Ext3 {
    M31Ext3 { v: [M31 { v: a }, M31 { v: b }, M31 { v: c }] }
}

#[test]
fn mersenne_31_reduction_folds_once() {
    assert_eq!(mod_reduce_i32(0), 0);
    assert_eq!(mod_reduce_i32(5), 5);
    assert_eq!(mod_reduce_i32(i32::MAX), i32::MAX);
    assert_eq!(mod_reduce_i32(-1), i32::MAX - 1);
    assert_eq!(mod_reduce_i32(i32::MIN), -1);
    assert_eq!(mod_reduce_i32(i32::MIN + 1), 0);
    // twice, and the result is canonical
    assert_eq!(reduce_i32(i32::MIN), M31 { v: M31_MOD - 1 });
    assert_eq!(reduce_i32(i32::MAX), M31 { v: 0 });
    assert_eq!(reduce_i32(-1), M31 { v: M31_MOD - 1 });
    assert_eq!(reduce_i32(-2), M31 { v: M31_MOD - 2 });
    assert_eq!(reduce_u32(u32::MAX), M31 { v: 1 });
    assert_eq!(reduce_u32(M31_MOD), M31 { v: 0 });
}

#[test]
fn mersenne_31_exact_values() {
    let a = M31 { v: M31_MOD - 1 };
    assert_eq!(a.add(&M31 { v: 1 }), M31 { v: 0 });
    assert_eq!(a.add(&a), M31 { v: M31_MOD - 2 });
    assert_eq!(a.mul(&a), M31 { v: 1 });
    assert_eq!(M31 { v: 0 }.neg(), M31 { v: 0 });
    assert_eq!(M31 { v: 1 }.neg(), a);
    assert_eq!(M31 { v: 3 }.sub(&M31 { v: 5 }), M31 { v: M31_MOD - 2 });
    assert_eq!(M31::inv_2(), M31 { v: 1 << 30 });
    assert_eq!(M31 { v: 5 }.inv(), Some(M31 { v: 858993459 }));
    assert_eq!(M31 { v: 0 }.inv(), None);
    assert_eq!(M31 { v: 2 }.exp(31), M31 { v: 1 });
    assert_eq!(M31::from_u32(u32::MAX), M31 { v: 1 });
    assert_eq!(M31::size(), 4);
}

#[test]
fn mersenne_31_bytes() {
    let mut buffer = vec![9u8];
    M31 { v: 0x0403_0201 }.serialize_into(&mut buffer);
    assert_eq!(buffer, vec![9, 1, 2, 3, 4]);
    assert_eq!(M31::deserialize_from(&[1, 2, 3, 4, 99]), M31 { v: 0x0403_0201 });
    // the modulus and beyond: reduced by the lenient form, refused by the strict one
    assert_eq!(M31::deserialize_from(&[0xff, 0xff, 0xff, 0x7f]), M31 { v: 0 });
    assert_eq!(M31::deserialize_from(&[0xff, 0xff, 0xff, 0xff]), M31 { v: 1 });
    assert_eq!(M31::decode(&[0xff, 0xff, 0xff, 0x7f]), None);
    assert_eq!(M31::decode(&[0xfe, 0xff, 0xff, 0x7f]), Some(M31 { v: M31_MOD - 1 }));
    assert_eq!(M31::decode(&[1, 2, 3]), None);
    // uniform bytes are read big-endian, as a signed word
    let mut bytes = [0u8; 32];
    bytes[3] = 7;
    assert_eq!(M31::from_uniform_bytes(&bytes), M31 { v: 7 });
    bytes[0] = 0x80;
    assert_eq!(M31::from_uniform_bytes(&bytes), M31 { v: 6 });
    assert_eq!(M31::from_uniform_bytes(&[0xff; 32]), M31 { v: M31_MOD - 1 });
}

#[test]
fn mersenne_61_reduction_steps() {
    assert_eq!(msn61_mod_u64(u64::MAX), MSN61_MOD + 7);
    assert_eq!(msn61_mod_u64(MSN61_MOD), MSN61_MOD);
    assert_eq!(msn61_mod_u64(5), 5);
    assert_eq!(msn61_try_sub(MSN61_MOD), 0);
    assert_eq!(msn61_try_sub(MSN61_MOD + 7), 7);
    assert_eq!(msn61_try_sub(MSN61_MOD - 1), MSN61_MOD - 1);
    let p = MSN61_MOD as u128;
    // one fold leaves a value below 2p that is congruent to the product
    assert_eq!(msn61_mod((p - 1) * (p - 1)), MSN61_MOD + 1);
    assert_eq!(msn61_try_sub(msn61_mod((p - 1) * (p - 1))), 1);
    assert_eq!(msn61_mod(p), MSN61_MOD);
    assert_eq!(msn61_mod(1 << 61), 1);
    assert_eq!(Msn61::from_u64(u64::MAX), Msn61 { v: 7 });
    assert_eq!(Msn61::from(u64::MAX), Msn61 { v: 7 });
    assert_eq!(Msn61::from(9u32), Msn61 { v: 9 });
}

#[test]
fn mersenne_61_exact_values() {
    let a = Msn61 { v: MSN61_MOD - 1 };
    assert_eq!(a.mul(&a), Msn61 { v: 1 });
    assert_eq!(a.add(&Msn61 { v: 2 }), Msn61 { v: 1 });
    assert_eq!(Msn61 { v: 1 }.neg(), a);
    assert_eq!(Msn61 { v: 0 }.neg(), Msn61 { v: 0 });
    assert_eq!(Msn61 { v: 3 }.inv(), Some(Msn61 { v: 1537228672809129301 }));
    assert_eq!(Msn61 { v: 0 }.inv(), None);
    assert_eq!(Msn61::inv_2(), Msn61 { v: 1 << 60 });
    assert_eq!(Msn61 { v: 2 }.exp(61), Msn61 { v: 1 });
    assert_eq!(Msn61 { v: 0x1_0000_0007 }.as_u32_unchecked(), 7);
    let mut buffer = Vec::new();
    Msn61 { v: 0x0807_0605_0403_0201 }.serialize_into(&mut buffer);
    assert_eq!(buffer, vec![1, 2, 3, 4, 5, 6, 7, 8]);
    assert_eq!(Msn61::decode(&[0xff; 8]), None);
    assert_eq!(Msn61::deserialize_from(&[0xff; 8]), Msn61 { v: 7 });
    assert_eq!(Msn61::from_uniform_bytes(&[0xff; 32]), Msn61 { v: 7 });
    assert_eq!(Msn61::decode(&[1, 0, 0, 0, 0, 0, 0]), None);
}

#[test]
fn extension_multiplies_modulo_x_cubed_minus_five() {
    let a = ext(1, 2, 3);
    let b = ext(4, 5, 6);
    // r0 = a0 b0 + 5 (a1 b2 + a2 b1), r1 = a0 b1 + a1 b0 + 5 a2 b2, r2 = a0 b2 + a1 b1 + a2 b0
    assert!(a.mul(&b).equals(&ext(139, 103, 28)));
    // x * x^2 = 5
    assert!(ext(0, 1, 0).mul(&ext(0, 0, 1)).equals(&ext(5, 0, 0)));
    assert!(ext(0, 0, 1).square().equals(&ext(0, 5, 0)));
    assert!(a.square().equals(&a.mul(&a)));
    assert!(a.add(&b).equals(&ext(5, 7, 9)));
    assert!(a.sub(&b).equals(&ext(M31_MOD - 3, M31_MOD - 3, M31_MOD - 3)));
    assert!(a.neg().equals(&ext(M31_MOD - 1, M31_MOD - 2, M31_MOD - 3)));
    assert!(ext(0, 1, 0).exp(3).equals(&ext(5, 0, 0)));
    assert!(M31Ext3::inv_2().double().equals(&M31Ext3::one()));
}

#[test]
fn extension_and_base_field() {
    let a = ext(1, 2, 3);
    let seven = M31 { v: 7 };
    assert!(a.mul_base_elem(&seven).equals(&ext(7, 14, 21)));
    assert!(a.add_base_elem(&seven).equals(&ext(8, 2, 3)));
    assert!(a.mul_base_elem(&seven).equals(&a.mul(&M31Ext3::from_base(&seven))));
    assert!(M31Ext3::from_base(&seven).equals(&ext(7, 0, 0)));
    assert_eq!(ext(7, 0, 0).to_base_field(), seven);
    assert_eq!(a.to_base_field_unsafe(), M31 { v: 1 });
    assert_eq!(a.as_u32_array(), [1, 2, 3]);
    assert_eq!(a.as_u32_unchecked(), 1);
    assert!(M31Ext3::from_u32(u32::MAX).equals(&ext(1, 0, 0)));
    assert!(M31Ext3::from_random_words(u32::MAX, M31_MOD, 5).equals(&ext(1, 0, 5)));
}

#[test]
fn extension_bytes() {
    let a = ext(1, 0x0102, M31_MOD - 1);
    let mut buffer = Vec::new();
    a.serialize_into(&mut buffer);
    assert_eq!(buffer.len(), M31Ext3::size());
    assert_eq!(buffer.len(), 24);
    let expected: Vec<u8> = vec![
        1, 0, 0, 0, 2, 1, 0, 0, 0xfe, 0xff, 0xff, 0x7f, 0, 0, 0, 0, 0, 0, 0, 0, 0, 0, 0, 0,
    ];
    assert_eq!(buffer, expected);
    assert!(M31Ext3::decode(&buffer).unwrap().equals(&a));
    // a coefficient out of range, or a padding byte that is not zero
    let mut bad = buffer.clone();
    bad[8] = 0xff;
    assert!(M31Ext3::decode(&bad).is_none());
    assert!(M31Ext3::deserialize_from(&bad).equals(&ext(1, 0x0102, 0)));
    let mut padded = buffer.clone();
    padded[23] = 1;
    assert!(M31Ext3::decode(&padded).is_none());
    assert!(M31Ext3::decode(&buffer[..23]).is_none());
    // three big-endian chunks
    let mut bytes = [0u8; 32];
    bytes[3] = 1;
    bytes[7] = 2;
    bytes[8] = 0xff;
    bytes[9] = 0xff;
    bytes[10] = 0xff;
    bytes[11] = 0xff;
    assert!(M31Ext3::from_uniform_bytes(&bytes).equals(&ext(1, 2, M31_MOD - 1)));
}

#[test]
fn exponentiation_by_squaring() {
    let three = Msn61 { v: 3 };
    assert_eq!(exp_by_squaring(&three, 0), Msn61 { v: 1 });
    assert_eq!(exp_by_squaring(&three, 1), three);
    assert_eq!(exp_by_squaring(&three, 13), Msn61 { v: 1594323 });
    assert_eq!(three.exp(MSN61_MOD - 1), Msn61 { v: 1 });
    let mut rng = StdRng::seed_from_u64(0x6578_7021);
    for _ in 0..100 {
        let a = M31::random_unsafe(&mut rng);
        let b = M31::random_unsafe(&mut rng);
        // (a b)^(p-1) = 1 away from zero
        if !a.is_zero() && !b.is_zero() {
            assert_eq!(a.mul(&b).exp(M31_MOD as u64 - 1), M31 { v: 1 });
        }
    }
}

#[test]
fn random_elements_are_canonical() {
    let mut rng = StdRng::seed_from_u64(0x7261_6e64);
    for _ in 0..1000 {
        assert!(M31::random_unsafe(&mut rng).v < M31_MOD);
        assert!(Msn61::random_unsafe(&mut rng).v < MSN61_MOD);
        assert!(M31::random_bool_unsafe(&mut rng).v < 2);
        assert!(Msn61::random_bool_unsafe(&mut rng).v < 2);
        let e = M31Ext3::random_bool_unsafe(&mut rng);
        assert!(e.v[0].v < 2 && e.v[1].v < 2 && e.v[2].v < 2);
    }
    assert_eq!(M31::from_random_word(u32::MAX), M31 { v: 1 });
    assert_eq!(Msn61::from_random_word(u64::MAX), Msn61 { v: 7 });
}
