//! Groth16 proof verification over BN254: points are decoded from decimal
//! coordinates, the public inputs are folded into one point of G1 with the
//! verifying key's IC points, and the pairing equation
//! e(A, B) * e(-alpha, beta) * e(-acc, gamma) * e(-C, delta) = 1 is checked.

use vstd::prelude::*;
use crate::decimal::{decimal_value, is_decimal};
use crate::bn254::{
    fq_is_one, fq_is_zero, fq_modulus, g1_add, g1_equation, g1_mul, g1_neg,
    g1_neg_spec, g1_sum, g1_times, g2_equation, g2_in_subgroup, g2_is_in_subgroup, pairing_check,
    pairing_product_is_one, string_to_fq, Fq, Fq2, Fq2Model, Fr, G1Model, G1Point, G2Model, G2Point,
};

verus! {

/// Why a verification could not be evaluated. A proof that was evaluated
/// and failed the pairing equation is `Ok(false)`, never one of these.
#[derive(Clone, Copy, Debug, PartialEq, Eq)]
pub enum Groth16Error {
    /// A coordinate is not a decimal numeral.
    Parse,
    /// The projective z coordinate of a point is not the field's one.
    NotAffine,
    /// The coordinates do not satisfy the curve equation.
    PointNotOnCurve,
    /// A point of G2 lies on the curve but outside the subgroup of order r.
    NotInSubgroup,
    /// The number of public inputs differs from the verifying key's count,
    /// or the key's IC points are not one more than that count.
    InputCountMismatch,
}

/// A proof: A and C in G1 as [x, y, z], B in G2 as [[x1, x0], [y1, y0], [z1, z0]]
/// with the coefficient of u first.
#[derive(Clone, Debug)]
pub struct Proof {
    pub pi_a: [String; 3],
    pub pi_b: [[String; 2]; 3],
    pub pi_c: [String; 3],
}

/// A verifying key, with its points in the same encodings as a proof.
#[derive(Clone, Debug)]
pub struct VerificationKey {
    pub n_public: usize,
    pub vk_alpha_1: [String; 3],
    pub vk_beta_2: [[String; 2]; 3],
    pub vk_gamma_2: [[String; 2]; 3],
    pub vk_delta_2: [[String; 2]; 3],
    pub ic: Vec<[String; 3]>,
}

/// The element of Fq that a numeral denotes.
pub open spec fn fq_of(s: Seq<char>) -> nat {
    decimal_value(s) % fq_modulus()
}

/// The element of Fq2 that a pair [c1, c0] of numerals denotes.
pub open spec fn fq2_of(c: [String; 2]) -> Fq2Model {
    Fq2Model { c0: fq_of(c[1]@), c1: fq_of(c[0]@) }
}

/// Decoding of a G1 point given as [x, y, z].
pub open spec fn decode_g1(c: [String; 3]) -> Result<G1Model, Groth16Error> {
    if !is_decimal(c[0]@) || !is_decimal(c[1]@) || !is_decimal(c[2]@) {
        Err(Groth16Error::Parse)
    } else if fq_of(c[2]@) != 1 {
        Err(Groth16Error::NotAffine)
    } else if !g1_equation(fq_of(c[0]@), fq_of(c[1]@)) {
        Err(Groth16Error::PointNotOnCurve)
    } else {
        Ok(G1Model { x: fq_of(c[0]@), y: fq_of(c[1]@), infinity: false })
    }
}

/// Decoding of a G2 point given as [[x1, x0], [y1, y0], [z1, z0]].
pub open spec fn decode_g2(c: [[String; 2]; 3]) -> Result<G2Model, Groth16Error> {
    if !(forall|i: int, j: int| 0 <= i < 3 && 0 <= j < 2 ==> is_decimal(#[trigger] c[i][j]@)) {
        Err(Groth16Error::Parse)
    } else if fq2_of(c[2]) != (Fq2Model { c0: 1, c1: 0 }) {
        Err(Groth16Error::NotAffine)
    } else if !g2_equation(fq2_of(c[0]), fq2_of(c[1])) {
        Err(Groth16Error::PointNotOnCurve)
    } else if !g2_in_subgroup(G2Model { x: fq2_of(c[0]), y: fq2_of(c[1]), infinity: false }) {
        Err(Groth16Error::NotInSubgroup)
    } else {
        Ok(G2Model { x: fq2_of(c[0]), y: fq2_of(c[1]), infinity: false })
    }
}

/// Decoding of a list of G1 points; the first failure in the list is reported.
pub open spec fn decode_g1_list(s: Seq<[String; 3]>) -> Result<Seq<G1Model>, Groth16Error>
    decreases s.len(),
{
    if s.len() == 0 {
        Ok(seq![])
    } else {
        match decode_g1_list(s.drop_last()) {
            Err(e) => Err(e),
            Ok(ps) => match decode_g1(s.last()) {
                Err(e) => Err(e),
                Ok(p) => Ok(ps.push(p)),
            },
        }
    }
}

/// IC[0] + inputs[0] * IC[1] + ... + inputs[n-1] * IC[n], accumulated from the left.
pub open spec fn commitment(ic: Seq<G1Model>, inputs: Seq<Fr>, n: nat) -> G1Model
    decreases n,
{
    if n == 0 {
        ic[0]
    } else {
        g1_sum(
            commitment(ic, inputs, (n - 1) as nat),
            g1_times(ic[n as int], inputs[n - 1].value()),
        )
    }
}

/// The whole outcome of a verification.
pub open spec fn verify_spec(proof: Proof, vk: VerificationKey, inputs: Seq<Fr>) -> Result<
    bool,
    Groth16Error,
> {
    let a = decode_g1(proof.pi_a);
    let b = decode_g2(proof.pi_b);
    let c = decode_g1(proof.pi_c);
    let alpha = decode_g1(vk.vk_alpha_1);
    let beta = decode_g2(vk.vk_beta_2);
    let gamma = decode_g2(vk.vk_gamma_2);
    let delta = decode_g2(vk.vk_delta_2);
    let ic = decode_g1_list(vk.ic@);
    if inputs.len() != vk.n_public || vk.ic@.len() != vk.n_public + 1 {
        Err(Groth16Error::InputCountMismatch)
    } else if a is Err {
        Err(a->Err_0)
    } else if b is Err {
        Err(b->Err_0)
    } else if c is Err {
        Err(c->Err_0)
    } else if alpha is Err {
        Err(alpha->Err_0)
    } else if beta is Err {
        Err(beta->Err_0)
    } else if gamma is Err {
        Err(gamma->Err_0)
    } else if delta is Err {
        Err(delta->Err_0)
    } else if ic is Err {
        Err(ic->Err_0)
    } else {
        let acc = commitment(ic->Ok_0, inputs, inputs.len());
        Ok(
            pairing_product_is_one(
                seq![a->Ok_0, g1_neg_spec(alpha->Ok_0), g1_neg_spec(acc), g1_neg_spec(c->Ok_0)],
                seq![b->Ok_0, beta->Ok_0, gamma->Ok_0, delta->Ok_0],
            ),
        )
    }
}

fn fq_or_err(s: &String) -> (r: Result<Fq, Groth16Error>)
    ensures
        match r {
            Ok(f) => is_decimal(s@) && f.wf() && f.value() == fq_of(s@),
            Err(e) => !is_decimal(s@) && e == Groth16Error::Parse,
        },
{
    match string_to_fq(s.as_str()) {
        Ok(f) => Ok(f),
        Err(_) => Err(Groth16Error::Parse),
    }
}

/// Decodes a G1 point from [x, y, z]; z must be one, and (x, y) must lie on
/// the curve.
pub fn parse_g1(coords: &[String; 3]) -> (r: Result<G1Point, Groth16Error>)
    ensures
        match r {
            Ok(p) => p.wf() && decode_g1(*coords) == Ok::<G1Model, Groth16Error>(p@),
            Err(e) => decode_g1(*coords) == Err::<G1Model, Groth16Error>(e),
        },
{
    let x = fq_or_err(&coords[0]);
    let y = fq_or_err(&coords[1]);
    let z = fq_or_err(&coords[2]);
    match (x, y, z) {
        (Ok(x), Ok(y), Ok(z)) => {
            if !fq_is_one(&z) {
                Err(Groth16Error::NotAffine)
            } else {
                match G1Point::new(x, y) {
                    Some(p) => Ok(p),
                    None => Err(Groth16Error::PointNotOnCurve),
                }
            }
        },
        _ => Err(Groth16Error::Parse),
    }
}

fn fq2_or_err(c: &[String; 2]) -> (r: Result<Fq2, Groth16Error>)
    ensures
        match r {
            Ok(f) => is_decimal(c[0]@) && is_decimal(c[1]@) && f.wf() && f@ == fq2_of(*c),
            Err(e) => !(is_decimal(c[0]@) && is_decimal(c[1]@)) && e == Groth16Error::Parse,
        },
{
    let hi = fq_or_err(&c[0]);
    let lo = fq_or_err(&c[1]);
    match (lo, hi) {
        (Ok(c0), Ok(c1)) => Ok(Fq2 { c0, c1 }),
        _ => Err(Groth16Error::Parse),
    }
}

/// Decodes a G2 point from [[x1, x0], [y1, y0], [z1, z0]]; each pair is
/// read with the coefficient of u first, z must be one, (x, y) must lie
/// on the twisted curve and in its subgroup of order r.
pub fn parse_g2(coords: &[[String; 2]; 3]) -> (r: Result<G2Point, Groth16Error>)
    ensures
        match r {
            Ok(p) => p.wf() && g2_in_subgroup(p@) && decode_g2(*coords) == Ok::<G2Model, Groth16Error>(
                p@,
            ),
            Err(e) => decode_g2(*coords) == Err::<G2Model, Groth16Error>(e),
        },
{
    let x = fq2_or_err(&coords[0]);
    let y = fq2_or_err(&coords[1]);
    let z = fq2_or_err(&coords[2]);
    match (x, y, z) {
        (Ok(x), Ok(y), Ok(z)) => {
            assert(forall|i: int, j: int| 0 <= i < 3 && 0 <= j < 2 ==> is_decimal(#[trigger] coords[i][j]@)) by {
                assert forall|i: int, j: int| 0 <= i < 3 && 0 <= j < 2 implies is_decimal(#[trigger] coords[i][j]@) by {
                    if i == 0 {} else if i == 1 {} else {}
                }
            }
            if !fq_is_one(&z.c0) || !fq_is_zero(&z.c1) {
                Err(Groth16Error::NotAffine)
            } else {
                match G2Point::new(x, y) {
                    Some(p) => if g2_is_in_subgroup(&p) {
                        Ok(p)
                    } else {
                        Err(Groth16Error::NotInSubgroup)
                    },
                    None => Err(Groth16Error::PointNotOnCurve),
                }
            }
        },
        _ => {
            assert(!(forall|i: int, j: int| 0 <= i < 3 && 0 <= j < 2 ==> is_decimal(#[trigger] coords[i][j]@)));
            Err(Groth16Error::Parse)
        }
    }
}

/// Once a prefix of a list fails to decode, the whole list fails the same way.
proof fn lemma_decode_prefix_error(s: Seq<[String; 3]>, k: int)
    requires
        0 <= k <= s.len(),
        decode_g1_list(s.take(k)) is Err,
    ensures
        decode_g1_list(s) == decode_g1_list(s.take(k)),
    decreases s.len() - k,
{
    if k < s.len() {
        assert(s.take(k + 1).drop_last() =~= s.take(k));
        lemma_decode_prefix_error(s, k + 1);
    } else {
        assert(s.take(k) =~= s);
    }
}

/// Decodes the IC points of a verifying key, in order.
fn parse_g1_list(ic: &Vec<[String; 3]>) -> (r: Result<Vec<G1Point>, Groth16Error>)
    ensures
        match r {
            Ok(ps) => decode_g1_list(ic@) == Ok::<Seq<G1Model>, Groth16Error>(
                ps@.map_values(|p: G1Point| p@),
            ) && ps@.len() == ic@.len() && forall|i: int| 0 <= i < ps@.len() ==> (
            #[trigger] ps@[i]).wf(),
            Err(e) => decode_g1_list(ic@) == Err::<Seq<G1Model>, Groth16Error>(e),
        },
{
    let mut out: Vec<G1Point> = Vec::new();
    let mut i: usize = 0;
    assert(ic@.take(0) =~= seq![]);
    assert(out@.map_values(|p: G1Point| p@) =~= seq![]);
    assert(decode_g1_list(ic@.take(0)) == Ok::<Seq<G1Model>, Groth16Error>(seq![]));
    while i < ic.len()
        invariant
            i <= ic@.len(),
            out@.len() == i,
            decode_g1_list(ic@.take(i as int)) == Ok::<Seq<G1Model>, Groth16Error>(
                out@.map_values(|p: G1Point| p@),
            ),
            forall|j: int| 0 <= j < out@.len() ==> (#[trigger] out@[j]).wf(),
        decreases ic@.len() - i,
    {
        let ghost prev = out@;
        assert(ic@.take(i + 1).drop_last() =~= ic@.take(i as int));
        assert(ic@.take(i + 1).last() == ic@[i as int]);
        match parse_g1(&ic[i]) {
            Ok(p) => {
                out.push(p);
                assert(out@.map_values(|p: G1Point| p@) =~= prev.map_values(|p: G1Point| p@).push(
                    p@,
                ));
            },
            Err(e) => {
                proof {
                    lemma_decode_prefix_error(ic@, i + 1);
                }
                return Err(e);
            },
        }
        i = i + 1;
    }
    assert(ic@.take(i as int) =~= ic@);
    Ok(out)
}

/// Verifies a Groth16 proof against a verifying key and public inputs.
/// Decoding or count failures are errors; a proof that fails the pairing
/// equation gives `Ok(false)`.
pub fn verify_groth16(proof: &Proof, vk: &VerificationKey, public_inputs: &[Fr]) -> (r: Result<
    bool,
    Groth16Error,
>)
    requires
        forall|i: int| 0 <= i < public_inputs@.len() ==> (#[trigger] public_inputs@[i]).wf(),
    ensures
        r == verify_spec(*proof, *vk, public_inputs@),
        public_inputs@.len() != vk.n_public ==> r == Err::<bool, Groth16Error>(
            Groth16Error::InputCountMismatch,
        ),
{
    if public_inputs.len() != vk.n_public || vk.ic.len() == 0 || vk.ic.len() - 1 != vk.n_public {
        return Err(Groth16Error::InputCountMismatch);
    }
    let a = match parse_g1(&proof.pi_a) {
        Ok(p) => p,
        Err(e) => return Err(e),
    };
    let b = match parse_g2(&proof.pi_b) {
        Ok(p) => p,
        Err(e) => return Err(e),
    };
    let c = match parse_g1(&proof.pi_c) {
        Ok(p) => p,
        Err(e) => return Err(e),
    };
    let alpha = match parse_g1(&vk.vk_alpha_1) {
        Ok(p) => p,
        Err(e) => return Err(e),
    };
    let beta = match parse_g2(&vk.vk_beta_2) {
        Ok(p) => p,
        Err(e) => return Err(e),
    };
    let gamma = match parse_g2(&vk.vk_gamma_2) {
        Ok(p) => p,
        Err(e) => return Err(e),
    };
    let delta = match parse_g2(&vk.vk_delta_2) {
        Ok(p) => p,
        Err(e) => return Err(e),
    };
    let ic = match parse_g1_list(&vk.ic) {
        Ok(ps) => ps,
        Err(e) => return Err(e),
    };
    let ghost icm = ic@.map_values(|p: G1Point| p@);
    assert(ic@.len() == public_inputs@.len() + 1);
    let mut acc = ic[0];
    let mut i: usize = 0;
    while i < public_inputs.len()
        invariant
            i <= public_inputs@.len(),
            ic@.len() == public_inputs@.len() + 1,
            icm == ic@.map_values(|p: G1Point| p@),
            forall|j: int| 0 <= j < ic@.len() ==> (#[trigger] ic@[j]).wf(),
            forall|j: int| 0 <= j < public_inputs@.len() ==> (#[trigger] public_inputs@[j]).wf(),
            acc.wf(),
            acc@ == commitment(icm, public_inputs@, i as nat),
        decreases public_inputs@.len() - i,
    {
        let scaled = g1_mul(&ic[i + 1], &public_inputs[i]);
        acc = g1_add(&acc, &scaled);
        i = i + 1;
    }
    let g1s = vec![a, g1_neg(&alpha), g1_neg(&acc), g1_neg(&c)];
    let g2s = vec![b, beta, gamma, delta];
    assert(forall|i: int| 0 <= i < g2s@.len() ==> (#[trigger] g2s@[i]).wf() && g2_in_subgroup(g2s@[i]@)) by {
        assert forall|i: int| 0 <= i < g2s@.len() implies (#[trigger] g2s@[i]).wf() && g2_in_subgroup(
            g2s@[i]@,
        ) by {
            if i == 0 {
            } else if i == 1 {
            } else if i == 2 {
            } else {
            }
        }
    }
    assert(forall|i: int| 0 <= i < g1s@.len() ==> (#[trigger] g1s@[i]).wf()) by {
        assert forall|i: int| 0 <= i < g1s@.len() implies (#[trigger] g1s@[i]).wf() by {
            if i == 0 {
            } else if i == 1 {
            } else if i == 2 {
            } else {
            }
        }
    }
    let ok = pairing_check(&g1s, &g2s);
    assert(g1s@.map_values(|p: G1Point| p@) =~= seq![a@, g1_neg_spec(alpha@), g1_neg_spec(acc@), g1_neg_spec(c@)]);
    assert(g2s@.map_values(|p: G2Point| p@) =~= seq![b@, beta@, gamma@, delta@]);
    Ok(ok)
}

} // verus!
