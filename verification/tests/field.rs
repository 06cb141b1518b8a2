use ark_std::rand::rngs::StdRng;
use ark_std::rand::SeedableRng;
use bulletproofs_r1cs::curve::{Fq, Fr, G1Affine};
use bulletproofs_r1cs::limbs::U256;

const MODULUS: [u64; 4] = [0x8c46eb2100000001, 0x224698fc0994a8dd, 0, 0x4000000000000000];
const BASE_MODULUS: [u64; 4] = [0x992d30ed00000001, 0x224698fc094cf91b, 0, 0x4000000000000000];

fn minus_one() -> Fr {
    Fr::from_limbs([MODULUS[0] - 1, MODULUS[1], MODULUS[2], MODULUS[3]]).unwrap()
}

#[test]
fn small_scalars() {
    assert_eq!(Fr::zero().limbs(), [0, 0, 0, 0]);
    assert_eq!(Fr::one().limbs(), [1, 0, 0, 0]);
    assert_eq!(Fr::from_u64(77).limbs(), [77, 0, 0, 0]);
    assert_eq!(Fr::from(u64::MAX).limbs(), [u64::MAX, 0, 0, 0]);
    assert_eq!(Fr::default(), Fr::zero());
    assert!(Fr::zero().is_zero());
    assert!(!Fr::one().is_zero());
}

#[test]
fn limbs_below_the_modulus_are_scalars() {
    assert_eq!(Fr::from_limbs(MODULUS), None);
    assert_eq!(Fr::from_limbs([u64::MAX; 4]), None);
    assert_eq!(Fr::from_limbs([MODULUS[0], MODULUS[1], MODULUS[2] + 1, MODULUS[3]]), None);
    let top = [MODULUS[0] - 1, MODULUS[1], MODULUS[2], MODULUS[3]];
    assert_eq!(Fr::from_limbs(top).unwrap().limbs(), top);
    let mixed = [5, u64::MAX, 9, 0x3fffffffffffffff];
    assert_eq!(Fr::from_limbs(mixed).unwrap().limbs(), mixed);
}

#[test]
fn limbs_below_the_base_modulus_are_coordinates() {
    assert!(Fq::from_limbs(BASE_MODULUS).is_none());
    let top = [BASE_MODULUS[0] - 1, BASE_MODULUS[1], BASE_MODULUS[2], BASE_MODULUS[3]];
    assert_eq!(Fq::from_limbs(top).unwrap().limbs(), top);
    // between the two moduli: a scalar and no coordinate
    let between = [MODULUS[0] - 1, MODULUS[1], MODULUS[2], MODULUS[3]];
    assert!(Fq::from_limbs(between).is_none());
    assert!(Fr::from_limbs(between).is_some());
    assert!(Fr::from_limbs(BASE_MODULUS).is_some());
}

#[test]
fn addition_wraps_at_the_modulus() {
    assert_eq!(Fr::from(3u64).add(Fr::from(4u64)), Fr::from(7u64));
    assert_eq!(minus_one().add(Fr::one()), Fr::zero());
    assert_eq!(minus_one().add(Fr::from(2u64)), Fr::one());
    assert_eq!(Fr::from(u64::MAX).add(Fr::one()).limbs(), [0, 1, 0, 0]);
}

#[test]
fn subtraction_wraps_at_zero() {
    assert_eq!(Fr::from(7u64).sub(Fr::from(4u64)), Fr::from(3u64));
    assert_eq!(Fr::zero().sub(Fr::one()), minus_one());
    assert_eq!(Fr::from(3u64).sub(Fr::from(5u64)).limbs(), [MODULUS[0] - 2, MODULUS[1], 0, MODULUS[3]]);
    assert_eq!(Fr::from(5u64).sub(Fr::from(5u64)), Fr::zero());
}

#[test]
fn multiplication_is_modular() {
    assert_eq!(Fr::from(6u64).mul(Fr::from(7u64)), Fr::from(42u64));
    assert_eq!(Fr::from(6u64).mul(Fr::zero()), Fr::zero());
    assert_eq!(minus_one().mul(minus_one()), Fr::one());
    assert_eq!(minus_one().mul(Fr::from(2u64)), Fr::zero().sub(Fr::from(2u64)));
    assert_eq!(Fr::from(1u64 << 32).mul(Fr::from(1u64 << 32)).limbs(), [0, 1, 0, 0]);
}

#[test]
fn negation() {
    assert_eq!(Fr::zero().neg(), Fr::zero());
    assert_eq!(Fr::one().neg(), minus_one());
    assert_eq!(minus_one().neg(), Fr::one());
    assert_eq!(Fr::from(5u64).neg().add(Fr::from(5u64)), Fr::zero());
}

#[test]
fn inverse_of_all_but_zero() {
    assert_eq!(Fr::zero().inverse(), None);
    assert_eq!(Fr::one().inverse(), Some(Fr::one()));
    assert_eq!(minus_one().inverse(), Some(minus_one()));
    let half = Fr::from(2u64).inverse().unwrap();
    assert_eq!(half.mul(Fr::from(2u64)), Fr::one());
    // (p + 1) / 2
    assert_eq!(half.limbs(), [0xc623759080000001, 0x11234c7e04ca546e, 0, 0x2000000000000000]);
    let x = Fr::from(123456789u64);
    assert_eq!(x.inverse().unwrap().mul(x), Fr::one());
}

#[test]
fn equality_is_that_of_values() {
    assert!(Fr::from(5u64).equals(&Fr::from(2u64).add(Fr::from(3u64))));
    assert!(!Fr::from(5u64).equals(&Fr::from(6u64)));
    assert!(U256::new(1, 2, 3, 4).equals(&U256::new(1, 2, 3, 4)));
    assert!(!U256::new(1, 2, 3, 4).equals(&U256::new(1, 2, 3, 5)));
}

#[test]
fn limbs_are_compared_from_the_top() {
    assert!(U256::new(9, 9, 9, 1).lt(&U256::new(0, 0, 0, 2)));
    assert!(!U256::new(0, 0, 0, 2).lt(&U256::new(9, 9, 9, 1)));
    assert!(U256::new(1, 0, 0, 0).lt(&U256::new(2, 0, 0, 0)));
    assert!(!U256::new(2, 0, 0, 0).lt(&U256::new(2, 0, 0, 0)));
    assert!(U256::new(u64::MAX, 0, 0, 0).lt(&U256::new(0, 1, 0, 0)));
}

#[test]
fn wide_bytes_are_reduced() {
    let mut bytes = [0u8; 64];
    assert_eq!(Fr::from_wide_bytes(&bytes), Fr::zero());
    bytes[0] = 1;
    assert_eq!(Fr::from_wide_bytes(&bytes), Fr::one());
    bytes[1] = 2;
    assert_eq!(Fr::from_wide_bytes(&bytes), Fr::from(513u64));
    // 2^256 and 2^504, each by squaring 2^64
    let two_64 = Fr::from_limbs([0, 1, 0, 0]).unwrap();
    let two_128 = two_64.mul(two_64);
    let two_256 = two_128.mul(two_128);
    let mut bytes = [0u8; 64];
    bytes[32] = 1;
    assert_eq!(Fr::from_wide_bytes(&bytes), two_256);
    let two_504 = two_256.mul(two_128).mul(two_64).mul(Fr::from(1u64 << 56));
    let mut bytes = [0u8; 64];
    bytes[63] = 1;
    assert_eq!(Fr::from_wide_bytes(&bytes), two_504);
    // all bytes set: 2^512 - 1
    let two_512 = two_256.mul(two_256);
    assert_eq!(Fr::from_wide_bytes(&[0xff; 64]), two_512.sub(Fr::one()));
}

#[test]
fn random_scalars_differ() {
    let mut rng = StdRng::seed_from_u64(1);
    let a = Fr::random(&mut rng);
    let b = Fr::random(&mut rng);
    assert_ne!(a, b);
    assert_eq!(Fr::from_limbs(a.limbs()), Some(a));
    let mut again = StdRng::seed_from_u64(1);
    assert_eq!(Fr::random(&mut again), a);
}

#[test]
fn scalars_are_written_little_endian() {
    let mut out = vec![9u8];
    Fr::from(0x0102u64).append_bytes(&mut out);
    let mut expected = vec![9u8, 2, 1];
    expected.extend(vec![0u8; 30]);
    assert_eq!(out, expected);

    let mut out = vec![];
    Fr::from_limbs([0x0807060504030201, 0x100f0e0d0c0b0a09, 0x1817161514131211, 0x201f1e1d1c1b1a19])
        .unwrap()
        .append_bytes(&mut out);
    let expected: Vec<u8> = (1..=32).collect();
    assert_eq!(out, expected);
}

#[test]
fn points_are_written_as_coordinates_and_flag() {
    let mut out = vec![];
    G1Affine::identity().append_bytes(&mut out);
    let mut expected = vec![0u8; 32];
    expected.push(1);
    expected.extend(vec![0u8; 31]);
    expected.push(1);
    assert_eq!(out, expected);
    assert!(G1Affine::identity().is_identity());

    let p = G1Affine::new(Fq::from_limbs([3, 0, 0, 0]).unwrap(), Fq::from_limbs([0, 4, 0, 0]).unwrap(), false);
    assert!(!p.is_identity());
    let mut out = vec![];
    p.append_bytes(&mut out);
    assert_eq!(out.len(), 65);
    assert_eq!(out[0], 3);
    assert_eq!(out[32 + 8], 4);
    assert_eq!(out[64], 0);
    assert_eq!(out.iter().filter(|b| **b != 0).count(), 2);
}
