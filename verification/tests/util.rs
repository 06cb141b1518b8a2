use bulletproofs_r1cs::curve::Fr;
use bulletproofs_r1cs::util::{
    checked_next_power_of_two, clear_scalar, clear_scalars, clear_secrets, exp_iter, inner_product,
    powers, secret_inner_product, secret_zeros, zeros, Poly6, SecretScalar, VecPoly3,
};

fn fr(v: u64) -> Fr {
    Fr::from(v)
}

fn frs(values: &[u64]) -> Vec<Fr> {
    values.iter().map(|v| Fr::from(*v)).collect()
}

fn secrets(values: &[u64]) -> Vec<SecretScalar> {
    values.iter().map(|v| SecretScalar { value: Fr::from(*v) }).collect()
}

#[test]
fn exp_2_is_powers_of_2() {
    let exp_2: Vec<_> = exp_iter(Fr::from(2u64)).take(4);

    assert_eq!(exp_2[0], Fr::from(1u64));
    assert_eq!(exp_2[1], Fr::from(2u64));
    assert_eq!(exp_2[2], Fr::from(4u64));
    assert_eq!(exp_2[3], Fr::from(8u64));
}

#[test]
fn test_inner_product() {
    let a = vec![
        Fr::from(1u64),
        Fr::from(2u64),
        Fr::from(3u64),
        Fr::from(4u64),
    ];
    let b = vec![
        Fr::from(2u64),
        Fr::from(3u64),
        Fr::from(4u64),
        Fr::from(5u64),
    ];
    assert_eq!(Fr::from(40u64), inner_product(&a, &b));
}

#[test]
fn vec_of_scalars_clear_on_drop() {
    let mut v = vec![Fr::from(24u64), Fr::from(42u64)];

    clear_scalars(&mut v);

    let mut flat: Vec<u8> = vec![];
    for e in v.iter() {
        for limb in e.limbs() {
            flat.extend(limb.to_le_bytes());
        }
    }
    assert_eq!(flat, vec![0u8; 64]);
    assert_eq!(v[0], Fr::zero());
    assert_eq!(v[1], Fr::zero());
}

#[test]
fn clearing_one_scalar_leaves_zero() {
    let mut e = Fr::from(24u64);
    clear_scalar(&mut e);
    assert_eq!(e, Fr::zero());
    assert!(e.is_zero());
}

#[test]
fn inner_product_of_nothing_is_zero() {
    assert_eq!(inner_product(&[], &[]), Fr::zero());
}

#[test]
fn powers_start_at_one() {
    assert_eq!(powers(fr(3), 0), vec![]);
    assert_eq!(powers(fr(3), 5), frs(&[1, 3, 9, 27, 81]));
    assert_eq!(powers(fr(0), 3), frs(&[1, 0, 0]));
}

#[test]
fn exp_iter_hands_out_one_power_at_a_time() {
    let mut it = exp_iter(fr(5));
    assert_eq!(it.size_hint(), (usize::MAX, None));
    assert_eq!(it.next(), Some(fr(1)));
    assert_eq!(it.next(), Some(fr(5)));
    assert_eq!(it.next(), Some(fr(25)));
    // what is left goes on from there
    assert_eq!(it.take(2), frs(&[125, 625]));
}

#[test]
fn next_power_of_two_rounds_up() {
    assert_eq!(checked_next_power_of_two(0), Some(1));
    assert_eq!(checked_next_power_of_two(1), Some(1));
    assert_eq!(checked_next_power_of_two(2), Some(2));
    assert_eq!(checked_next_power_of_two(3), Some(4));
    assert_eq!(checked_next_power_of_two(9), Some(16));
    assert_eq!(checked_next_power_of_two(16), Some(16));
    assert_eq!(checked_next_power_of_two(17), Some(32));
    for n in 0..2000usize {
        assert_eq!(checked_next_power_of_two(n), Some(n.next_power_of_two()));
    }
}

#[test]
fn next_power_of_two_knows_when_it_does_not_fit() {
    let top = 1usize << (usize::BITS - 1);
    assert_eq!(checked_next_power_of_two(top), Some(top));
    assert_eq!(checked_next_power_of_two(top + 1), None);
    assert_eq!(checked_next_power_of_two(usize::MAX), None);
}

#[test]
fn zeros_are_zero() {
    assert_eq!(zeros(0), vec![]);
    assert_eq!(zeros(3), frs(&[0, 0, 0]));
}

#[test]
fn poly6_is_evaluated_without_a_constant_term() {
    let p = Poly6 { t1: fr(1), t2: fr(2), t3: fr(3), t4: fr(4), t5: fr(5), t6: fr(6) };
    // 1*2 + 2*4 + 3*8 + 4*16 + 5*32 + 6*64
    assert_eq!(p.eval(fr(2)), fr(642));
    assert_eq!(p.eval(fr(0)), fr(0));
    assert_eq!(p.eval(fr(1)), fr(21));
}

#[test]
fn poly6_is_wiped() {
    let mut p = Poly6 { t1: fr(1), t2: fr(2), t3: fr(3), t4: fr(4), t5: fr(5), t6: fr(6) };
    p.clear();
    assert_eq!([p.t1, p.t2, p.t3, p.t4, p.t5, p.t6], [fr(0); 6]);
}

#[test]
fn vec_poly3_zero_has_four_vectors_of_zeros() {
    let p = VecPoly3::zero(3);
    assert_eq!(p.0, secrets(&[0, 0, 0]));
    assert_eq!(p.1, secrets(&[0, 0, 0]));
    assert_eq!(p.2, secrets(&[0, 0, 0]));
    assert_eq!(p.3, secrets(&[0, 0, 0]));
    assert!(VecPoly3::zero(0).0.is_empty());
}

#[test]
fn vec_poly3_is_evaluated_entry_by_entry() {
    let p = VecPoly3(secrets(&[1, 0]), secrets(&[2, 1]), secrets(&[3, 0]), secrets(&[4, 1]));
    // 1 + 2*3 + 3*9 + 4*27 and 0 + 3 + 0 + 27
    assert_eq!(p.eval(fr(3)), frs(&[142, 30]));
    assert_eq!(p.eval(fr(0)), frs(&[1, 0]));
}

#[test]
fn special_inner_product_gathers_by_degree() {
    // l = b x + c x^2 + d x^3 and r = a' + b' x + d' x^3, with vectors of two entries
    let l = VecPoly3(secrets(&[0, 0]), secrets(&[1, 2]), secrets(&[3, 4]), secrets(&[5, 6]));
    let r = VecPoly3(secrets(&[7, 8]), secrets(&[9, 10]), secrets(&[0, 0]), secrets(&[11, 12]));
    let t = VecPoly3::special_inner_product(&l, &r);
    assert_eq!(t.t1, fr(1 * 7 + 2 * 8));
    assert_eq!(t.t2, fr((1 * 9 + 2 * 10) + (3 * 7 + 4 * 8)));
    assert_eq!(t.t3, fr((3 * 9 + 4 * 10) + (5 * 7 + 6 * 8)));
    assert_eq!(t.t4, fr((1 * 11 + 2 * 12) + (5 * 9 + 6 * 10)));
    assert_eq!(t.t5, fr(3 * 11 + 4 * 12));
    assert_eq!(t.t6, fr(5 * 11 + 6 * 12));
    // the product of the values is the value of the product
    let x = fr(5);
    assert_eq!(inner_product(&l.eval(x), &r.eval(x)), t.eval(x));
}

#[test]
fn vec_poly3_is_wiped() {
    let mut p = VecPoly3(secrets(&[1, 0]), secrets(&[2, 1]), secrets(&[3, 0]), secrets(&[4, 1]));
    p.clear();
    assert_eq!(p.0, secrets(&[0, 0]));
    assert_eq!(p.1, secrets(&[0, 0]));
    assert_eq!(p.2, secrets(&[0, 0]));
    assert_eq!(p.3, secrets(&[0, 0]));
}

#[test]
fn secret_scalars() {
    assert_eq!(secret_zeros(2), secrets(&[0, 0]));
    assert!(secret_zeros(0).is_empty());
    assert_eq!(secret_inner_product(&secrets(&[1, 2, 3, 4]), &secrets(&[2, 3, 4, 5])), fr(40));
    assert_eq!(secret_inner_product(&vec![], &vec![]), fr(0));
    let mut v = secrets(&[24, 42]);
    clear_secrets(&mut v);
    assert_eq!(v, secrets(&[0, 0]));
}
