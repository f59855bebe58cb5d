use ark_bn254::{Fr as ArkFr, G1Affine, G2Affine};
use ark_ec::{AffineRepr, CurveGroup};
use ark_ff::{Field, PrimeField};
use zkblocks::bn254::{
    fq_to_decimal, fr_to_decimal, string_to_fq, string_to_fr, Fr, G1Point, ParseError,
};
use zkblocks::groth16::{parse_g1, parse_g2, verify_groth16, Groth16Error, Proof, VerificationKey};

fn dec(x: ark_bn254::Fq) -> String {
    x.into_bigint().to_string()
}

fn g1_coords(p: G1Affine) -> [String; 3] {
    [dec(p.x), dec(p.y), "1".to_string()]
}

fn g2_coords(p: G2Affine) -> [[String; 2]; 3] {
    [
        [dec(p.x.c1), dec(p.x.c0)],
        [dec(p.y.c1), dec(p.y.c0)],
        ["0".to_string(), "1".to_string()],
    ]
}

fn g1_times(k: u64) -> G1Affine {
    (G1Affine::generator() * ArkFr::from(k)).into_affine()
}

fn g1_times_fr(k: ArkFr) -> G1Affine {
    (G1Affine::generator() * k).into_affine()
}

fn g2_times(k: u64) -> G2Affine {
    (G2Affine::generator() * ArkFr::from(k)).into_affine()
}

fn fr(v: u64) -> Fr {
    string_to_fr(&v.to_string()).unwrap()
}

/// A proof and key built in the exponent: with A = a, B = b, alpha, beta,
/// gamma, delta and IC[i] = k[i] times the generators, the pairing equation
/// holds when c = (a b - alpha beta - acc gamma) / delta.
fn instance(ic_scalars: &[u64], inputs: &[u64]) -> (Proof, VerificationKey) {
    let (a, b, alpha, beta, gamma, delta) = (5u64, 7u64, 3u64, 4u64, 11u64, 13u64);
    let mut acc = ArkFr::from(ic_scalars[0]);
    for (k, x) in ic_scalars[1..].iter().zip(inputs.iter()) {
        acc += ArkFr::from(*k) * ArkFr::from(*x);
    }
    let c = (ArkFr::from(a) * ArkFr::from(b)
        - ArkFr::from(alpha) * ArkFr::from(beta)
        - acc * ArkFr::from(gamma))
        * ArkFr::from(delta).inverse().unwrap();
    let proof = Proof {
        pi_a: g1_coords(g1_times(a)),
        pi_b: g2_coords(g2_times(b)),
        pi_c: g1_coords(g1_times_fr(c)),
    };
    let vk = VerificationKey {
        n_public: ic_scalars.len() - 1,
        vk_alpha_1: g1_coords(g1_times(alpha)),
        vk_beta_2: g2_coords(g2_times(beta)),
        vk_gamma_2: g2_coords(g2_times(gamma)),
        vk_delta_2: g2_coords(g2_times(delta)),
        ic: ic_scalars.iter().map(|k| g1_coords(g1_times(*k))).collect(),
    };
    (proof, vk)
}

#[test]
fn valid_proof_verifies() {
    let (proof, vk) = instance(&[2, 9, 17], &[21, 33]);
    let inputs = vec![fr(21), fr(33)];
    assert_eq!(verify_groth16(&proof, &vk, &inputs), Ok(true));
}

#[test]
fn valid_proof_without_public_inputs_verifies() {
    let (proof, vk) = instance(&[6], &[]);
    assert_eq!(verify_groth16(&proof, &vk, &[]), Ok(true));
}

#[test]
fn wrong_public_input_is_rejected() {
    let (proof, vk) = instance(&[2, 9, 17], &[21, 33]);
    let inputs = vec![fr(21), fr(34)];
    assert_eq!(verify_groth16(&proof, &vk, &inputs), Ok(false));
}

#[test]
fn zero_public_input_contributes_identity() {
    let (proof, vk) = instance(&[2, 9, 17], &[0, 33]);
    let inputs = vec![fr(0), fr(33)];
    assert_eq!(verify_groth16(&proof, &vk, &inputs), Ok(true));
}

#[test]
fn replaced_proof_points_are_rejected() {
    let (proof, vk) = instance(&[2, 9, 17], &[21, 33]);
    let inputs = vec![fr(21), fr(33)];
    let mut p = proof.clone();
    p.pi_a = g1_coords(g1_times(6));
    assert_eq!(verify_groth16(&p, &vk, &inputs), Ok(false));
    let mut p = proof.clone();
    p.pi_b = g2_coords(g2_times(8));
    assert_eq!(verify_groth16(&p, &vk, &inputs), Ok(false));
    let mut p = proof.clone();
    p.pi_c = g1_coords(g1_times(1));
    assert_eq!(verify_groth16(&p, &vk, &inputs), Ok(false));
}

#[test]
fn perturbed_coordinate_is_not_on_curve() {
    let (proof, vk) = instance(&[2, 9, 17], &[21, 33]);
    let inputs = vec![fr(21), fr(33)];
    let bump = |s: &String| {
        let v: num_bigint::BigUint = s.parse().unwrap();
        (v + 1u32).to_string()
    };
    let mut p = proof.clone();
    p.pi_a[0] = bump(&p.pi_a[0]);
    assert_eq!(verify_groth16(&p, &vk, &inputs), Err(Groth16Error::PointNotOnCurve));
    let mut p = proof.clone();
    p.pi_b[1][1] = bump(&p.pi_b[1][1]);
    assert_eq!(verify_groth16(&p, &vk, &inputs), Err(Groth16Error::PointNotOnCurve));
    let mut p = proof.clone();
    p.pi_c[1] = bump(&p.pi_c[1]);
    assert_eq!(verify_groth16(&p, &vk, &inputs), Err(Groth16Error::PointNotOnCurve));
}

#[test]
fn input_count_mismatch_is_an_error() {
    let (proof, vk) = instance(&[2, 9, 17], &[21, 33]);
    assert_eq!(
        verify_groth16(&proof, &vk, &[fr(21)]),
        Err(Groth16Error::InputCountMismatch)
    );
    assert_eq!(
        verify_groth16(&proof, &vk, &[fr(21), fr(33), fr(1)]),
        Err(Groth16Error::InputCountMismatch)
    );
    let mut short_ic = vk.clone();
    short_ic.ic.pop();
    assert_eq!(
        verify_groth16(&proof, &short_ic, &[fr(21), fr(33)]),
        Err(Groth16Error::InputCountMismatch)
    );
}

#[test]
fn commitment_ignores_order_of_pairs() {
    let (proof, vk) = instance(&[2, 9, 17], &[21, 33]);
    let mut swapped = vk.clone();
    swapped.ic.swap(1, 2);
    assert_eq!(verify_groth16(&proof, &vk, &[fr(21), fr(33)]), Ok(true));
    assert_eq!(verify_groth16(&proof, &swapped, &[fr(33), fr(21)]), Ok(true));
    assert_eq!(verify_groth16(&proof, &swapped, &[fr(21), fr(33)]), Ok(false));
}

#[test]
fn malformed_coordinates_are_errors() {
    let (proof, vk) = instance(&[2, 9, 17], &[21, 33]);
    let inputs = vec![fr(21), fr(33)];
    let mut p = proof.clone();
    p.pi_a[1] = "12a".to_string();
    assert_eq!(verify_groth16(&p, &vk, &inputs), Err(Groth16Error::Parse));
    let mut p = proof.clone();
    p.pi_a[2] = "2".to_string();
    assert_eq!(verify_groth16(&p, &vk, &inputs), Err(Groth16Error::NotAffine));
    let mut p = proof.clone();
    p.pi_b[2] = ["1".to_string(), "1".to_string()];
    assert_eq!(verify_groth16(&p, &vk, &inputs), Err(Groth16Error::NotAffine));
    let mut k = vk.clone();
    k.ic[2][0] = "".to_string();
    assert_eq!(verify_groth16(&proof, &k, &inputs), Err(Groth16Error::Parse));
}

#[test]
fn g2_coefficients_are_read_high_first() {
    let p = g2_times(3);
    let good = g2_coords(p);
    let point = parse_g2(&good).unwrap();
    assert_eq!(fq_to_decimal(&point.x.c0), dec(p.x.c0));
    assert_eq!(fq_to_decimal(&point.x.c1), dec(p.x.c1));
    let swapped = [
        [good[0][1].clone(), good[0][0].clone()],
        [good[1][1].clone(), good[1][0].clone()],
        good[2].clone(),
    ];
    assert_eq!(parse_g2(&swapped), Err(Groth16Error::PointNotOnCurve));
}

#[test]
fn g1_generator_parses() {
    let p = parse_g1(&["1".to_string(), "2".to_string(), "1".to_string()]).unwrap();
    assert_eq!(fq_to_decimal(&p.x), "1");
    assert_eq!(fq_to_decimal(&p.y), "2");
    assert!(!p.infinity);
    assert_eq!(
        parse_g1(&["1".to_string(), "3".to_string(), "1".to_string()]),
        Err(Groth16Error::PointNotOnCurve)
    );
    let one = string_to_fq("1").unwrap();
    let two = string_to_fq("2").unwrap();
    assert_eq!(G1Point::new(one, two), Some(p));
    assert_eq!(G1Point::new(two, one), None);
}

#[test]
fn decimal_parsing_reduces_modulo_the_field() {
    let q = "21888242871839275222246405745257275088696311157297823662689037894645226208583";
    let r = "21888242871839275222246405745257275088548364400416034343698204186575808495617";
    assert_eq!(fq_to_decimal(&string_to_fq(q).unwrap()), "0");
    let q_plus_5 = "21888242871839275222246405745257275088696311157297823662689037894645226208588";
    assert_eq!(fq_to_decimal(&string_to_fq(q_plus_5).unwrap()), "5");
    assert_eq!(fr_to_decimal(&string_to_fr(r).unwrap()), "0");
    assert_eq!(fr_to_decimal(&string_to_fr(q).unwrap()), "147946756881789318990833708069417712966");
}

#[test]
fn decimal_round_trip() {
    let s = "12345678901234567890123456789012345678901234567890";
    assert_eq!(fq_to_decimal(&string_to_fq(s).unwrap()), s);
    assert_eq!(fq_to_decimal(&string_to_fq("0007").unwrap()), "7");
    assert_eq!(fr_to_decimal(&string_to_fr("0").unwrap()), "0");
    let big = "99999999999999999999999999999999999999999999999999999999999999999999999999999";
    let once = fq_to_decimal(&string_to_fq(big).unwrap());
    assert_eq!(string_to_fq(&once), string_to_fq(big));
}

#[test]
fn non_decimal_strings_are_refused() {
    assert_eq!(string_to_fq(""), Err(ParseError::NotDecimal));
    assert_eq!(string_to_fq("-5"), Err(ParseError::NotDecimal));
    assert_eq!(string_to_fq("+5"), Err(ParseError::NotDecimal));
    assert_eq!(string_to_fq("1_000"), Err(ParseError::NotDecimal));
    assert_eq!(string_to_fr("1e5"), Err(ParseError::NotDecimal));
    assert_eq!(string_to_fr("١٢"), Err(ParseError::NotDecimal));
}

/// A point on the twisted curve outside its subgroup of order r.
fn g2_off_subgroup() -> G2Affine {
    let mut c0 = 1u64;
    loop {
        let x = ark_bn254::Fq2::new(ark_bn254::Fq::from(c0), ark_bn254::Fq::from(1u64));
        if let Some(p) = G2Affine::get_point_from_x_unchecked(x, true) {
            if !p.is_in_correct_subgroup_assuming_on_curve() {
                return p;
            }
        }
        c0 += 1;
    }
}

#[test]
fn g2_point_outside_subgroup_is_refused() {
    let p = g2_off_subgroup();
    assert!(p.is_on_curve());
    assert_eq!(parse_g2(&g2_coords(p)), Err(Groth16Error::NotInSubgroup));
    let (proof, vk) = instance(&[2, 9, 17], &[21, 33]);
    let inputs = vec![fr(21), fr(33)];
    let mut bad = proof.clone();
    bad.pi_b = g2_coords(p);
    assert_eq!(verify_groth16(&bad, &vk, &inputs), Err(Groth16Error::NotInSubgroup));
    let mut bad_key = vk.clone();
    bad_key.vk_delta_2 = g2_coords(p);
    assert_eq!(verify_groth16(&proof, &bad_key, &inputs), Err(Groth16Error::NotInSubgroup));
    assert!(parse_g2(&g2_coords(g2_times(3))).is_ok());
}
