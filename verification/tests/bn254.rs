use expander_rs::field::bn254::MODULUS_LIMBS;
use expander_rs::{Field, FieldArith, FieldSerde, Fr, Radix2Group, TwoAdicField};
use halo2curves::ff::{Field as FfField, PrimeField};
use rand::rngs::StdRng;
use rand::SeedableRng;

fn random_field_tests<F: Field>(field_name: String) {
    let mut rng = StdRng::seed_from_u64(0x626e_3235_3421);
    for _ in 0..1000 {
        let a = F::random_unsafe(&mut rng);
        let b = F::random_unsafe(&mut rng);
        let c = F::random_unsafe(&mut rng);
        assert!(a.add(&b).equals(&b.add(&a)), "{}", field_name);
        assert!(a.add(&b).add(&c).equals(&a.add(&b.add(&c))), "{}", field_name);
        assert!(a.mul(&b).equals(&b.mul(&a)), "{}", field_name);
        assert!(a.mul(&b).mul(&c).equals(&a.mul(&b.mul(&c))), "{}", field_name);
        assert!(a.mul(&b.add(&c)).equals(&a.mul(&b).add(&a.mul(&c))), "{}", field_name);
        assert!(a.add(&a.neg()).equals(&F::zero()), "{}", field_name);
        assert!(a.mul(&F::one()).equals(&a), "{}", field_name);
        assert!(a.sub(&b).add(&b).equals(&a), "{}", field_name);
    }
}

fn random_inversion_tests<F: Field>(field_name: String) {
    let mut rng = StdRng::seed_from_u64(0x626e_696e_7621);
    assert!(F::zero().inv().is_none(), "{}", field_name);
    for _ in 0..1000 {
        let mut a = F::random_unsafe(&mut rng);
        if a.is_zero() {
            a = F::one();
        }
        assert!(a.mul(&a.inv().unwrap()).equals(&F::one()), "{}", field_name);
    }
}

fn random_small_field_tests<F: Field>(field_name: String) {
    let mut rng = StdRng::seed_from_u64(0x626e_736d_6c21);
    for _ in 0..1000 {
        let a = F::random_unsafe(&mut rng);
        assert!(a.exp(5).equals(&a.mul(&a).mul(&a).mul(&a).mul(&a)), "{}", field_name);
        assert!(a.mul(&F::from_u32(2)).equals(&a.double()), "{}", field_name);
        assert!(a.mul(&F::inv_2()).double().equals(&a), "{}", field_name);
    }
}

fn random_serdes_tests<F: Field>(field_name: String) {
    let mut rng = StdRng::seed_from_u64(0x626e_7365_7221);
    for _ in 0..1000 {
        let a = F::random_unsafe(&mut rng);
        let mut buffer: Vec<u8> = Vec::new();
        a.serialize_into(&mut buffer);
        assert_eq!(buffer.len(), F::size(), "{}", field_name);
        assert!(a.equals(&F::deserialize_from(&buffer)), "{}", field_name);
        assert!(a.equals(&F::decode(&buffer).unwrap()), "{}", field_name);
    }
}

fn test_basic_field_op<F: Field>() {
    let zero = F::zero();
    let one = F::one();
    let two = F::from_u32(2);
    let three = F::from_u32(3);
    let six = F::from_u32(6);
    assert!(zero.is_zero());
    assert!(!one.is_zero());
    assert!(one.add(&one).equals(&two));
    assert!(two.add(&one).equals(&three));
    assert!(two.mul(&three).equals(&six));
    assert!(six.sub(&three).equals(&three));
    assert!(three.double().equals(&six));
    assert!(three.square().equals(&F::from_u32(9)));
    assert!(two.exp(10).equals(&F::from_u32(1024)));
    assert!(three.neg().add(&three).equals(&zero));
    assert!(F::inv_2().mul(&two).equals(&one));
    assert!(two.inv().unwrap().equals(&F::inv_2()));
    assert_eq!(six.as_u32_unchecked(), 6);
}

fn fft_field_tests<F: TwoAdicField>() {
    for log_order in 1..6u32 {
        let root = F::root_of_unity(log_order as usize);
        let order = 1u64 << log_order;
        // a primitive root: order 2^k, and not of half that order
        assert!(root.exp(order).equals(&F::one()));
        assert!(!root.exp(order / 2).equals(&F::one()));
        let group = Radix2Group::<F>::new(log_order);
        assert_eq!(group.size(), order as usize);
        for i in 0..order as usize {
            assert!(group.element_at(i).equals(&root.exp(i as u64)));
            assert!(group.element_at(i).mul(&group.element_inv_at(i)).equals(&F::one()));
        }
        let half = group.exp(2);
        assert_eq!(half.size(), order as usize / 2);
        if half.size() > 1 {
            assert!(half.element_at(1).equals(&root.mul(&root)));
        }
    }
}

#[test]
fn bn254_test_field() {
    random_field_tests::<Fr>("bn254::Fr".to_string());
    random_inversion_tests::<Fr>("bn254::Fr".to_string());
    random_small_field_tests::<Fr>("bn254::Fr".to_string());

    random_serdes_tests::<Fr>("Vectorized M31".to_string());
}

#[test]
fn test_bn254_basic_field_op() {
    test_basic_field_op::<Fr>();
}

#[test]
fn test_packed_bn254_basic_field_op() {
    test_basic_field_op::<Fr>();
}

#[test]
fn test_vectorize_bn254_basic_field_op() {
    test_basic_field_op::<Fr>();
}

#[test]
fn test_vectorize_bn254_root() {
    fft_field_tests::<Fr>();
}

#[test]
fn test_custom_serde_vectorize_bn254() {
    let a = Fr::from_u32(256u32 + 2);
    let mut buffer: Vec<u8> = Vec::new();
    a.serialize_into(&mut buffer);
    let b = Fr::deserialize_from(&buffer);
    assert_eq!(a, b);
    let mut expected = vec![0u8; 32];
    expected[0] = 2;
    expected[1] = 1;
    assert_eq!(buffer, expected);
}

fn to_outside(a: &Fr) -> halo2curves::bn256::Fr {
    halo2curves::bn256::Fr::from_raw([a.l0, a.l1, a.l2, a.l3])
}

fn from_outside(x: &halo2curves::bn256::Fr) -> Fr {
    let repr = x.to_repr();
    let bytes: &[u8] = repr.as_ref();
    Fr::decode(bytes).unwrap()
}

#[test]
fn arithmetic_agrees_with_halo2curves() {
    let mut rng = StdRng::seed_from_u64(0x6861_6c6f_3221);
    for _ in 0..200 {
        let a = Fr::random_unsafe(&mut rng);
        let b = Fr::random_unsafe(&mut rng);
        let (x, y) = (to_outside(&a), to_outside(&b));
        assert_eq!(a.add(&b), from_outside(&(x + y)));
        assert_eq!(a.sub(&b), from_outside(&(x - y)));
        assert_eq!(a.mul(&b), from_outside(&(x * y)));
        assert_eq!(a.neg(), from_outside(&(-x)));
        assert_eq!(a.square(), from_outside(&x.square()));
        assert_eq!(a.double(), from_outside(&x.double()));
        if !a.is_zero() {
            assert_eq!(a.inv().unwrap(), from_outside(&x.invert().unwrap()));
        }
        assert_eq!(from_outside(&x), a);
    }
}

#[test]
fn constants_agree_with_halo2curves() {
    assert_eq!(Fr::inv_2(), from_outside(&halo2curves::bn256::Fr::TWO_INV));
    assert_eq!(Fr::two_adic_generator(), from_outside(&halo2curves::bn256::Fr::ROOT_OF_UNITY));
    assert_eq!(Fr::two_adicity(), halo2curves::bn256::Fr::S as usize);
    assert_eq!(Fr::one(), from_outside(&halo2curves::bn256::Fr::ONE));
    assert_eq!(Fr::zero(), from_outside(&halo2curves::bn256::Fr::ZERO));
    // the modulus is one more than the negation of one
    let minus_one = Fr::one().neg();
    assert_eq!(
        [minus_one.l0 + 1, minus_one.l1, minus_one.l2, minus_one.l3],
        MODULUS_LIMBS
    );
}

#[test]
fn exact_values() {
    let two = Fr::from_u32(2);
    let three = Fr::from_u32(3);
    assert_eq!(two.add(&three), Fr { l0: 5, l1: 0, l2: 0, l3: 0 });
    assert_eq!(two.mul(&three), Fr { l0: 6, l1: 0, l2: 0, l3: 0 });
    assert_eq!(
        two.sub(&three),
        Fr {
            l0: 0x43e1f593f0000000,
            l1: 0x2833e84879b97091,
            l2: 0xb85045b68181585d,
            l3: 0x30644e72e131a029
        }
    );
    assert_eq!(
        two.inv(),
        Some(Fr {
            l0: 0xa1f0fac9f8000001,
            l1: 0x9419f4243cdcb848,
            l2: 0xdc2822db40c0ac2e,
            l3: 0x183227397098d014
        })
    );
    assert_eq!(Fr::zero().inv(), None);
}

#[test]
fn uniform_bytes_are_reduced() {
    let all_ones = [0xffu8; 32];
    assert_eq!(
        Fr::from_uniform_bytes(&all_ones),
        Fr {
            l0: 0xac96341c4ffffffa,
            l1: 0x36fc76959f60cd29,
            l2: 0x666ea36f7879462e,
            l3: 0x0e0a77c19a07df2f
        }
    );
    let mut small = [0u8; 32];
    small[0] = 9;
    small[8] = 1;
    assert_eq!(Fr::from_uniform_bytes(&small), Fr { l0: 9, l1: 1, l2: 0, l3: 0 });
    assert_eq!(Fr::deserialize_from(&all_ones), Fr::from_uniform_bytes(&all_ones));
}

#[test]
fn strict_decoding_rejects_what_is_out_of_range() {
    assert_eq!(Fr::decode(&[0xffu8; 32]), None);
    // the modulus itself
    let mut modulus = Vec::new();
    for limb in MODULUS_LIMBS {
        modulus.extend_from_slice(&limb.to_le_bytes());
    }
    assert_eq!(Fr::decode(&modulus), None);
    assert_eq!(Fr::deserialize_from(&modulus), Fr::zero());
    // one less is the largest element
    modulus[0] -= 1;
    assert_eq!(Fr::decode(&modulus), Some(Fr::one().neg()));
    // a short buffer
    assert_eq!(Fr::decode(&modulus[..31]), None);
    assert!(!Fr { l0: 0, l1: 0, l2: 0, l3: u64::MAX }.is_canonical());
    assert!(Fr { l0: u64::MAX, l1: 0, l2: 0, l3: 0 }.is_canonical());
}

#[test]
fn random_words_are_reduced() {
    let r = Fr::from_random_words(u64::MAX, u64::MAX, u64::MAX, u64::MAX);
    assert_eq!(r, Fr::from_uniform_bytes(&[0xffu8; 32]));
    assert_eq!(Fr::from_random_words(7, 0, 0, 0), Fr::from_u32(7));
    let mut rng = StdRng::seed_from_u64(1);
    for _ in 0..100 {
        let bit = Fr::random_bool_unsafe(&mut rng);
        assert!(bit.equals(&Fr::zero()) || bit.equals(&Fr::one()));
        assert!(Fr::random_unsafe(&mut rng).is_canonical());
    }
}
