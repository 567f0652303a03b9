use expander_rs::mul_group::evaluate;
use expander_rs::poly::{fold_in_place, fold_in_place_base};
use expander_rs::{Field, FieldArith, Fr, M31Ext3, Msn61, MultiLinearPoly, Radix2Group, M31};
use rand::rngs::StdRng;
use rand::SeedableRng;

fn msn(v: u64) -> Msn61 {
    Msn61 { v }
}

#[test]
fn evaluation_on_the_hypercube_gives_the_stored_values() {
    let evals: Vec<Msn61> = (0..8).map(|i| msn(100 + i)).collect();
    for index in 0..8u64 {
        // variable 0 is the least significant bit
        let x = vec![msn(index & 1), msn((index >> 1) & 1), msn((index >> 2) & 1)];
        assert_eq!(MultiLinearPoly::<Msn61>::eval_multilinear(&evals, &x), msn(100 + index));
        assert_eq!(MultiLinearPoly::<Msn61>::eval_multilinear_ext(&evals, &x), msn(100 + index));
    }
}

#[test]
fn evaluation_exact_values() {
    // f(x0, x1) = 1 + 2 x0 + 4 x1 + 10 x0 x1 at (3, 5)
    let evals = vec![msn(1), msn(3), msn(5), msn(17)];
    let x = vec![msn(3), msn(5)];
    assert_eq!(MultiLinearPoly::<Msn61>::eval_multilinear(&evals, &x), msn(1 + 6 + 20 + 150));
    // no variable: the constant
    assert_eq!(MultiLinearPoly::<Msn61>::eval_multilinear(&[msn(9)], &[]), msn(9));
    // one variable: the line through the two values
    assert_eq!(MultiLinearPoly::<Msn61>::eval_multilinear(&[msn(2), msn(5)], &[msn(4)]), msn(14));
}

#[test]
fn evaluation_is_linear_in_each_coordinate() {
    let mut rng = StdRng::seed_from_u64(0x6d6c_6521);
    let evals: Vec<Fr> = (0..16).map(|_| Fr::random_unsafe(&mut rng)).collect();
    for coordinate in 0..4 {
        let mut x: Vec<Fr> = (0..4).map(|_| Fr::random_unsafe(&mut rng)).collect();
        let t = Fr::random_unsafe(&mut rng);
        x[coordinate] = Fr::zero();
        let at_zero = MultiLinearPoly::<Fr>::eval_multilinear_ext(&evals, &x);
        x[coordinate] = Fr::one();
        let at_one = MultiLinearPoly::<Fr>::eval_multilinear_ext(&evals, &x);
        x[coordinate] = t;
        let at_t = MultiLinearPoly::<Fr>::eval_multilinear_ext(&evals, &x);
        assert_eq!(at_t, at_zero.add(&at_one.sub(&at_zero).mul(&t)));
    }
}

#[test]
fn base_and_extension_points_agree() {
    let mut rng = StdRng::seed_from_u64(0x6578_7421);
    let evals: Vec<M31Ext3> = (0..8).map(|_| M31Ext3::random_unsafe(&mut rng)).collect();
    let x: Vec<M31> = (0..3).map(|_| M31::random_unsafe(&mut rng)).collect();
    let embedded: Vec<M31Ext3> = x.iter().map(M31Ext3::from_base).collect();
    let a = MultiLinearPoly::<M31Ext3>::eval_multilinear(&evals, &x);
    let b = MultiLinearPoly::<M31Ext3>::eval_multilinear_ext(&evals, &embedded);
    assert!(a.equals(&b));
}

#[test]
fn folding_fixes_the_first_variable() {
    let mut table = vec![msn(1), msn(3), msn(5), msn(17), msn(99)];
    fold_in_place(&mut table, 2, &msn(3));
    // 1 + (3 - 1) * 3 and 5 + (17 - 5) * 3; the rest stays
    assert_eq!(table, vec![msn(7), msn(41), msn(5), msn(17), msn(99)]);
    let mut table = vec![msn(1), msn(3)];
    fold_in_place_base::<Msn61>(&mut table, 1, &msn(0));
    assert_eq!(table[0], msn(1));
    let mut table = vec![msn(1), msn(3)];
    fold_in_place_base::<Msn61>(&mut table, 0, &msn(5));
    assert_eq!(table, vec![msn(1), msn(3)]);
    let poly = MultiLinearPoly { var_num: 1, evals: vec![msn(4), msn(6)] };
    let copy = poly.duplicate();
    assert_eq!(copy.var_num, 1);
    assert_eq!(copy.evals, poly.evals);
}

#[test]
fn codeword_is_the_polynomial_on_the_subgroup() {
    let group = Radix2Group::<Fr>::new(3);
    let coeff = vec![Fr::from_u32(3), Fr::from_u32(1), Fr::from_u32(4), Fr::from_u32(1)];
    let values = group.fft(coeff.clone());
    assert_eq!(values.len(), 8);
    // at omega^0 = 1: the sum of the coefficients
    assert_eq!(values[0], Fr::from_u32(9));
    // at omega^4 = -1: the alternating sum
    assert_eq!(values[4], Fr::from_u32(5));
    for i in 0..8 {
        let x = group.element_at(i);
        let direct = coeff[0]
            .add(&coeff[1].mul(&x))
            .add(&coeff[2].mul(&x.square()))
            .add(&coeff[3].mul(&x.square().mul(&x)));
        assert_eq!(values[i], direct);
        assert_eq!(values[i], evaluate(&coeff, &x));
    }
    // nothing to evaluate: zero everywhere
    assert_eq!(group.fft(vec![]), vec![Fr::zero(); 8]);
    assert_eq!(evaluate::<Fr>(&[], &Fr::from_u32(5)), Fr::zero());
}

#[test]
fn inverse_transform_undoes_the_transform() {
    let mut rng = StdRng::seed_from_u64(0x6966_6674);
    for log_order in 0..6u32 {
        let group = Radix2Group::<Fr>::new(log_order);
        let order = group.size();
        for len in [0, 1, order / 2, order] {
            let coeff: Vec<Fr> = (0..len).map(|_| Fr::random_unsafe(&mut rng)).collect();
            let values = group.fft(coeff.clone());
            let back = group.ifft(values).unwrap();
            let mut padded = coeff.clone();
            padded.resize(order, Fr::zero());
            assert_eq!(back, padded, "order {} length {}", order, len);
        }
    }
    // the constant polynomial takes its value everywhere
    let group = Radix2Group::<Fr>::new(2);
    assert_eq!(group.fft(vec![Fr::from_u32(7)]), vec![Fr::from_u32(7); 4]);
    assert_eq!(
        group.ifft(vec![Fr::from_u32(7); 4]).unwrap(),
        vec![Fr::from_u32(7), Fr::zero(), Fr::zero(), Fr::zero()]
    );
}
