use expander_rs::field::m31::M31;
use expander_rs::field::m31_ext::M31Ext3;
use expander_rs::field::msn61_ext::Msn61;
use expander_rs::field::{Field, FieldArith, FieldSerde};
use rand::rngs::StdRng;
use rand::SeedableRng;

fn random_field_tests<F: Field>(field_name: String) {
    let mut rng = StdRng::seed_from_u64(0x6d65_7273_656e_6e65);
    for _ in 0..1000 {
        let a = F::random_unsafe(&mut rng);
        let b = F::random_unsafe(&mut rng);
        let c = F::random_unsafe(&mut rng);
        // commutativity and associativity of addition
        assert!(a.add(&b).equals(&b.add(&a)), "{}", field_name);
        assert!(a.add(&b).add(&c).equals(&a.add(&b.add(&c))), "{}", field_name);
        // commutativity and associativity of multiplication
        assert!(a.mul(&b).equals(&b.mul(&a)), "{}", field_name);
        assert!(a.mul(&b).mul(&c).equals(&a.mul(&b.mul(&c))), "{}", field_name);
        // distributivity
        assert!(a.mul(&b.add(&c)).equals(&a.mul(&b).add(&a.mul(&c))), "{}", field_name);
        // identities
        assert!(a.add(&a.neg()).equals(&F::zero()), "{}", field_name);
        assert!(a.mul(&F::one()).equals(&a), "{}", field_name);
        assert!(a.sub(&b).add(&b).equals(&a), "{}", field_name);
        assert!(a.double().equals(&a.add(&a)), "{}", field_name);
        assert!(a.square().equals(&a.mul(&a)), "{}", field_name);
        assert!(a.mul(&F::inv_2()).double().equals(&a), "{}", field_name);
    }
}

fn random_inversion_tests<F: Field>(field_name: String) {
    let mut rng = StdRng::seed_from_u64(0x696e_7665_7273_6521);
    assert!(F::zero().inv().is_none(), "{}", field_name);
    for _ in 0..1000 {
        let mut a = F::random_unsafe(&mut rng);
        if a.is_zero() {
            a = F::one();
        }
        let inv = a.inv().unwrap();
        assert!(a.mul(&inv).equals(&F::one()), "{}", field_name);
    }
}

fn random_small_field_tests<F: Field>(field_name: String) {
    let mut rng = StdRng::seed_from_u64(0x736d_616c_6c21);
    for _ in 0..1000 {
        let a = F::random_unsafe(&mut rng);
        // a^3 by exponentiation and by multiplication
        assert!(a.exp(3).equals(&a.mul(&a).mul(&a)), "{}", field_name);
        assert!(a.exp(0).equals(&F::one()), "{}", field_name);
        assert!(a.exp(1).equals(&a), "{}", field_name);
        let t = F::from_u32(2);
        assert!(a.mul(&t).equals(&a.double()), "{}", field_name);
    }
    assert!(F::from_u32(0).equals(&F::zero()), "{}", field_name);
    assert!(F::from_u32(1).equals(&F::one()), "{}", field_name);
}

fn random_serdes_tests<F: Field>(field_name: String) {
    let mut rng = StdRng::seed_from_u64(0x7365_7264_6521);
    for _ in 0..1000 {
        let a = F::random_unsafe(&mut rng);
        let mut buffer: Vec<u8> = Vec::new();
        a.serialize_into(&mut buffer);
        assert_eq!(buffer.len(), F::size(), "{}", field_name);
        let b = F::deserialize_from(&buffer);
        assert!(a.equals(&b), "{}", field_name);
        let c = F::decode(&buffer).unwrap();
        assert!(a.equals(&c), "{}", field_name);
    }
}

#[test]
fn msn61_test_field() {
    random_field_tests::<Msn61>("Mersenne_61".to_string());
    random_inversion_tests::<Msn61>("Mersenne_61".to_string());
    random_small_field_tests::<Msn61>("Mersenne_61".to_string());
    random_serdes_tests::<Msn61>("Mersenne_61".to_string());
}

#[test]
fn m31_field_laws() {
    random_field_tests::<M31>("Mersenne_31".to_string());
    random_inversion_tests::<M31>("Mersenne_31".to_string());
    random_small_field_tests::<M31>("Mersenne_31".to_string());
    random_serdes_tests::<M31>("Mersenne_31".to_string());
}

#[test]
fn m31_ext3_field_laws() {
    random_field_tests::<M31Ext3>("Mersenne 31 Extension 3".to_string());
    random_small_field_tests::<M31Ext3>("Mersenne 31 Extension 3".to_string());
    random_serdes_tests::<M31Ext3>("Mersenne 31 Extension 3".to_string());
}

#[test]
fn m31_ext3_inversion_is_not_offered() {
    let one = M31Ext3::one();
    assert!(one.inv().is_none());
}
