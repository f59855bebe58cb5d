//! Field elements of BN254: the base field Fq, the scalar field Fr and the
//! quadratic extension Fq2, held as canonical little-endian limbs.

use vstd::prelude::*;
use crate::decimal::{be_value, decimal_string, decimal_value, is_decimal, is_decimal_str};
use ark_ec::pairing::Pairing;
use ark_ec::short_weierstrass::Affine;
use ark_ec::AffineRepr;
use ark_ff::{BigInt, PrimeField, Zero};

verus! {

/// 2^64, the base of the limbs.
pub open spec fn limb_base() -> nat {
    0x1_0000_0000_0000_0000
}

/// The modulus of the base field Fq,
/// 21888242871839275222246405745257275088696311157297823662689037894645226208583.
pub open spec fn fq_modulus() -> nat {
    0x3c208c16d87cfd47 + limb_base() * (0x97816a916871ca8d + limb_base() * (0xb85045b68181585d
        + limb_base() * 0x30644e72e131a029))
}

/// The modulus of the scalar field Fr (the order of the curve groups),
/// 21888242871839275222246405745257275088548364400416034343698204186575808495617.
pub open spec fn fr_modulus() -> nat {
    0x43e1f593f0000001 + limb_base() * (0x2833e84879b97091 + limb_base() * (0xb85045b68181585d
        + limb_base() * 0x30644e72e131a029))
}

/// The number held by little-endian 64-bit limbs.
pub open spec fn limbs_value(l: Seq<u64>) -> nat
    decreases l.len(),
{
    if l.len() == 0 {
        0
    } else {
        l[0] as nat + limb_base() * limbs_value(l.drop_first())
    }
}

/// An element of the base field, by its canonical representative.
#[derive(Clone, Copy, Debug, PartialEq, Eq)]
pub struct Fq {
    pub limbs: [u64; 4],
}

/// An element of the scalar field, by its canonical representative.
#[derive(Clone, Copy, Debug, PartialEq, Eq)]
pub struct Fr {
    pub limbs: [u64; 4],
}

impl Fq {
    pub open spec fn value(&self) -> nat {
        limbs_value(self.limbs@)
    }

    pub open spec fn wf(&self) -> bool {
        self.value() < fq_modulus()
    }
}

impl Fr {
    pub open spec fn value(&self) -> nat {
        limbs_value(self.limbs@)
    }

    pub open spec fn wf(&self) -> bool {
        self.value() < fr_modulus()
    }
}

/// Why a decimal string could not be read as a field element.
#[derive(Clone, Copy, Debug, PartialEq, Eq)]
pub enum ParseError {
    NotDecimal,
}

/// Relies on num_bigint's `BigUint::parse_bytes` in radix 10, and on
/// `BigUint::to_bytes_be`: a numeral of ASCII digits is read as its value,
/// handed back as big-endian bytes.
#[verifier::external_body]
fn decimal_to_be_bytes(s: &str) -> (r: Option<Vec<u8>>)
    ensures
        is_decimal(s@) ==> r.is_some() && be_value(r.unwrap()@) == decimal_value(s@),
{
    num_bigint::BigUint::parse_bytes(s.as_bytes(), 10).map(|n| n.to_bytes_be())
}

/// Relies on ark_ff's `PrimeField::from_be_bytes_mod_order` for BN254's Fq:
/// big-endian bytes reduced modulo the field's modulus.
#[verifier::external_body]
fn fq_from_be_bytes_mod_order(b: &Vec<u8>) -> (r: Fq)
    ensures
        r.wf(),
        r.value() == be_value(b@) % fq_modulus(),
{
    Fq { limbs: ark_bn254::Fq::from_be_bytes_mod_order(b).into_bigint().0 }
}

/// Relies on ark_ff's `PrimeField::from_be_bytes_mod_order` for BN254's Fr:
/// big-endian bytes reduced modulo the field's modulus.
#[verifier::external_body]
fn fr_from_be_bytes_mod_order(b: &Vec<u8>) -> (r: Fr)
    ensures
        r.wf(),
        r.value() == be_value(b@) % fr_modulus(),
{
    Fr { limbs: ark_bn254::Fr::from_be_bytes_mod_order(b).into_bigint().0 }
}

/// Reads a decimal numeral as an element of Fq; values at or above the
/// modulus are reduced, not refused.
pub fn string_to_fq(s: &str) -> (r: Result<Fq, ParseError>)
    ensures
        r.is_ok() <==> is_decimal(s@),
        r.is_ok() ==> r.unwrap().wf() && r.unwrap().value() == decimal_value(s@) % fq_modulus(),
{
    if !is_decimal_str(s) {
        return Err(ParseError::NotDecimal);
    }
    match decimal_to_be_bytes(s) {
        Some(b) => Ok(fq_from_be_bytes_mod_order(&b)),
        None => Err(ParseError::NotDecimal),
    }
}

/// Reads a decimal numeral as an element of Fr; values at or above the
/// modulus are reduced, not refused.
pub fn string_to_fr(s: &str) -> (r: Result<Fr, ParseError>)
    ensures
        r.is_ok() <==> is_decimal(s@),
        r.is_ok() ==> r.unwrap().wf() && r.unwrap().value() == decimal_value(s@) % fr_modulus(),
{
    if !is_decimal_str(s) {
        return Err(ParseError::NotDecimal);
    }
    match decimal_to_be_bytes(s) {
        Some(b) => Ok(fr_from_be_bytes_mod_order(&b)),
        None => Err(ParseError::NotDecimal),
    }
}

impl G1Point {
    /// The affine point (x, y), if it lies on the curve y^2 = x^3 + 3.
    pub fn new(x: Fq, y: Fq) -> (r: Option<G1Point>)
        requires
            x.wf(),
            y.wf(),
        ensures
            r is Some <==> g1_equation(x.value(), y.value()),
            r is Some ==> r.unwrap().wf() && r.unwrap() == (G1Point { x, y, infinity: false }),
    {
        if g1_is_on_curve(&x, &y) {
            Some(G1Point { x, y, infinity: false })
        } else {
            None
        }
    }
}

impl G2Point {
    /// The affine point (x, y), if it lies on the twisted curve
    /// y^2 = x^3 + 3 / (9 + u).
    pub fn new(x: Fq2, y: Fq2) -> (r: Option<G2Point>)
        requires
            x.wf(),
            y.wf(),
        ensures
            r is Some <==> g2_equation(x@, y@),
            r is Some ==> r.unwrap().wf() && r.unwrap() == (G2Point { x, y, infinity: false }),
    {
        if g2_is_on_curve(&x, &y) {
            Some(G2Point { x, y, infinity: false })
        } else {
            None
        }
    }
}

/// Relies on ark_ff's `Display` for `BigInt`, which writes the number through
/// num_bigint in base 10, without leading zeros.
#[verifier::external_body]
fn limbs_to_decimal(l: &[u64; 4]) -> (r: String)
    ensures
        r@ == decimal_string(limbs_value(l@)),
{
    BigInt(*l).to_string()
}

/// The canonical decimal numeral of an element of Fq.
pub fn fq_to_decimal(a: &Fq) -> (r: String)
    ensures
        r@ == decimal_string(a.value()),
{
    limbs_to_decimal(&a.limbs)
}

/// The canonical decimal numeral of an element of Fr.
pub fn fr_to_decimal(a: &Fr) -> (r: String)
    ensures
        r@ == decimal_string(a.value()),
{
    limbs_to_decimal(&a.limbs)
}

/// Whether an element of Fq is the multiplicative identity.
pub fn fq_is_one(a: &Fq) -> (r: bool)
    ensures
        r == (a.value() == 1),
{
    proof {
        lemma_limbs_value_is_one(a.limbs@);
    }
    a.limbs[0] == 1 && a.limbs[1] == 0 && a.limbs[2] == 0 && a.limbs[3] == 0
}

/// Whether an element of Fq is zero.
pub fn fq_is_zero(a: &Fq) -> (r: bool)
    ensures
        r == (a.value() == 0),
{
    proof {
        lemma_limbs_value_is_one(a.limbs@);
    }
    a.limbs[0] == 0 && a.limbs[1] == 0 && a.limbs[2] == 0 && a.limbs[3] == 0
}

/// Four limbs hold 0 or 1 exactly when the higher three are zero.
pub proof fn lemma_limbs_value_is_one(l: Seq<u64>)
    requires
        l.len() == 4,
    ensures
        limbs_value(l) == 1 <==> (l[0] == 1 && l[1] == 0 && l[2] == 0 && l[3] == 0),
        limbs_value(l) == 0 <==> (l[0] == 0 && l[1] == 0 && l[2] == 0 && l[3] == 0),
{
    reveal_with_fuel(limbs_value, 5);
    let t3 = limbs_value(l.drop_first().drop_first().drop_first());
    let t2 = limbs_value(l.drop_first().drop_first());
    let t1 = limbs_value(l.drop_first());
    assert(t3 == l[3] as nat + limb_base() * 0);
    assert(t2 == l[2] as nat + limb_base() * t3);
    assert(t1 == l[1] as nat + limb_base() * t2);
    assert(t1 > 0 ==> limb_base() * t1 >= limb_base()) by (nonlinear_arith);
    assert(t2 > 0 ==> limb_base() * t2 >= limb_base()) by (nonlinear_arith);
    assert(t3 > 0 ==> limb_base() * t3 >= limb_base()) by (nonlinear_arith);
}

/// An element of the quadratic extension Fq2 = Fq[u] / (u^2 + 1), as c0 + c1 * u.
#[derive(Clone, Copy, Debug, PartialEq, Eq)]
pub struct Fq2 {
    pub c0: Fq,
    pub c1: Fq,
}

impl Fq2 {
    pub open spec fn wf(&self) -> bool {
        self.c0.wf() && self.c1.wf()
    }
}

/// An element of Fq2 by the values of its two coefficients.
pub struct Fq2Model {
    pub c0: nat,
    pub c1: nat,
}

impl View for Fq2 {
    type V = Fq2Model;

    open spec fn view(&self) -> Fq2Model {
        Fq2Model { c0: self.c0.value(), c1: self.c1.value() }
    }
}

/// Schoolbook product in Fq2, with u^2 = -1.
pub open spec fn fq2_mul(a: Fq2Model, b: Fq2Model) -> Fq2Model {
    let q = fq_modulus() as int;
    Fq2Model {
        c0: (((a.c0 * b.c0) as int - (a.c1 * b.c1) as int) % q) as nat,
        c1: (a.c0 * b.c1 + a.c1 * b.c0) % fq_modulus(),
    }
}

pub open spec fn fq2_add(a: Fq2Model, b: Fq2Model) -> Fq2Model {
    Fq2Model { c0: (a.c0 + b.c0) % fq_modulus(), c1: (a.c1 + b.c1) % fq_modulus() }
}

/// The constant b of the twisted curve y^2 = x^3 + b, that is 3 / (9 + u), with
/// c0 = 19485874751759354771024239261021720505790618469301721065564631296452457478373 and
/// c1 = 266929791119991161246907387137283842545076965332900288569378510910307636690.
pub open spec fn g2_coeff_b() -> Fq2Model {
    Fq2Model {
        c0: 0x3267e6dc24a138e5 + limb_base() * (0xb5b4c5e559dbefa3 + limb_base() * (0x81be18991be06ac3
            + limb_base() * 0x2b149d40ceb8aaae)),
        c1: 0xe4a2bd0685c315d2 + limb_base() * (0xa74fa084e52d1852 + limb_base() * (0xcd2cafadeed8fdf4
            + limb_base() * 0x9713b03af0fed4)),
    }
}

/// The base curve y^2 = x^3 + 3 over Fq.
pub open spec fn g1_equation(x: nat, y: nat) -> bool {
    (y * y) % fq_modulus() == (x * x * x + 3) % fq_modulus()
}

/// The twisted curve y^2 = x^3 + b over Fq2.
pub open spec fn g2_equation(x: Fq2Model, y: Fq2Model) -> bool {
    fq2_mul(y, y) == fq2_add(fq2_mul(fq2_mul(x, x), x), g2_coeff_b())
}

/// A point of the base group in affine form, by coordinate values.
pub struct G1Model {
    pub x: nat,
    pub y: nat,
    pub infinity: bool,
}

/// A point of the twisted group in affine form, by coordinate values.
pub struct G2Model {
    pub x: Fq2Model,
    pub y: Fq2Model,
    pub infinity: bool,
}

/// A point of the base group G1 in affine form; the point at infinity has
/// zero coordinates.
#[derive(Clone, Copy, Debug, PartialEq, Eq)]
pub struct G1Point {
    pub x: Fq,
    pub y: Fq,
    pub infinity: bool,
}

/// A point of the twisted group G2 in affine form; the point at infinity has
/// zero coordinates.
#[derive(Clone, Copy, Debug, PartialEq, Eq)]
pub struct G2Point {
    pub x: Fq2,
    pub y: Fq2,
    pub infinity: bool,
}

impl View for G1Point {
    type V = G1Model;

    open spec fn view(&self) -> G1Model {
        G1Model { x: self.x.value(), y: self.y.value(), infinity: self.infinity }
    }
}

impl View for G2Point {
    type V = G2Model;

    open spec fn view(&self) -> G2Model {
        G2Model { x: self.x@, y: self.y@, infinity: self.infinity }
    }
}

pub open spec fn g1_model_wf(p: G1Model) -> bool {
    &&& p.x < fq_modulus()
    &&& p.y < fq_modulus()
    &&& p.infinity ==> p.x == 0 && p.y == 0
    &&& !p.infinity ==> g1_equation(p.x, p.y)
}

pub open spec fn g2_model_wf(p: G2Model) -> bool {
    &&& p.x.c0 < fq_modulus() && p.x.c1 < fq_modulus()
    &&& p.y.c0 < fq_modulus() && p.y.c1 < fq_modulus()
    &&& p.infinity ==> p.x == Fq2Model { c0: 0, c1: 0 } && p.y == Fq2Model { c0: 0, c1: 0 }
    &&& !p.infinity ==> g2_equation(p.x, p.y)
}

impl G1Point {
    pub open spec fn wf(&self) -> bool {
        self.x.wf() && self.y.wf() && g1_model_wf(self@)
    }
}

impl G2Point {
    pub open spec fn wf(&self) -> bool {
        self.x.wf() && self.y.wf() && g2_model_wf(self@)
    }
}

/// The identity of G1.
pub open spec fn g1_identity() -> G1Model {
    G1Model { x: 0, y: 0, infinity: true }
}

/// Affine negation: the y coordinate changes sign.
pub open spec fn g1_neg_spec(p: G1Model) -> G1Model {
    G1Model { x: p.x, y: ((fq_modulus() - p.y) % fq_modulus() as int) as nat, infinity: p.infinity }
}

/// The sum of two points of G1 under the curve's group law.
pub uninterp spec fn g1_sum(p: G1Model, q: G1Model) -> G1Model;

/// `k` copies of `p` added up: the scalar multiple k * p.
pub open spec fn g1_times(p: G1Model, k: nat) -> G1Model
    decreases k,
{
    if k == 0 {
        g1_identity()
    } else {
        g1_sum(g1_times(p, (k - 1) as nat), p)
    }
}

/// Whether the product e(g1[0], g2[0]) * ... * e(g1[n-1], g2[n-1]) of
/// optimal-ate pairings is the identity of the target group.
pub uninterp spec fn pairing_product_is_one(g1: Seq<G1Model>, g2: Seq<G2Model>) -> bool;

/// Whether a point of the twisted curve lies in the subgroup of prime order
/// r (the modulus of Fr): r times the point is the identity.
pub uninterp spec fn g2_in_subgroup(p: G2Model) -> bool;

/// Relies on ark_ec's `Affine::is_in_correct_subgroup_assuming_on_curve` for
/// BN254's G2, which multiplies the point by r and tests for the identity.
#[verifier::external_body]
pub(crate) fn g2_is_in_subgroup(p: &G2Point) -> (r: bool)
    requires
        p.wf(),
    ensures
        r == g2_in_subgroup(p@),
{
    let fq = |a: &Fq| ark_bn254::Fq::new(BigInt(a.limbs));
    let f2 = |a: &Fq2| ark_bn254::Fq2::new(fq(&a.c0), fq(&a.c1));
    let a: ark_bn254::G2Affine = Affine { x: f2(&p.x), y: f2(&p.y), infinity: p.infinity };
    a.is_in_correct_subgroup_assuming_on_curve()
}

/// Relies on ark_ec's `Affine::is_on_curve` for BN254's G1: y^2 = x^3 + 3.
#[verifier::external_body]
pub(crate) fn g1_is_on_curve(x: &Fq, y: &Fq) -> (r: bool)
    requires
        x.wf(),
        y.wf(),
    ensures
        r == g1_equation(x.value(), y.value()),
{
    let p = ark_bn254::G1Affine::new_unchecked(ark_bn254::Fq::new(BigInt(x.limbs)), ark_bn254::Fq::new(BigInt(y.limbs)));
    p.is_on_curve()
}

/// Relies on ark_ec's `Affine::is_on_curve` for BN254's G2: y^2 = x^3 + 3 / (9 + u).
#[verifier::external_body]
pub(crate) fn g2_is_on_curve(x: &Fq2, y: &Fq2) -> (r: bool)
    requires
        x.wf(),
        y.wf(),
    ensures
        r == g2_equation(x@, y@),
{
    let fq = |a: &Fq| ark_bn254::Fq::new(BigInt(a.limbs));
    let p = ark_bn254::G2Affine::new_unchecked(ark_bn254::Fq2::new(fq(&x.c0), fq(&x.c1)), ark_bn254::Fq2::new(fq(&y.c0), fq(&y.c1)));
    p.is_on_curve()
}

/// Relies on ark_ec's `Neg` for BN254's affine G1 points: (x, y) becomes (x, -y).
#[verifier::external_body]
pub(crate) fn g1_neg(p: &G1Point) -> (r: G1Point)
    requires
        p.wf(),
    ensures
        r.wf(),
        r@ == g1_neg_spec(p@),
{
    let a = Affine { x: ark_bn254::Fq::new(BigInt(p.x.limbs)), y: ark_bn254::Fq::new(BigInt(p.y.limbs)), infinity: p.infinity };
    let n: ark_bn254::G1Affine = -a;
    G1Point { x: Fq { limbs: n.x.into_bigint().0 }, y: Fq { limbs: n.y.into_bigint().0 }, infinity: n.infinity }
}

/// Relies on ark_ec's `Add` of BN254's G1 points and the conversion back to
/// affine form: the group sum.
#[verifier::external_body]
pub(crate) fn g1_add(p: &G1Point, q: &G1Point) -> (r: G1Point)
    requires
        p.wf(),
        q.wf(),
    ensures
        r.wf(),
        r@ == g1_sum(p@, q@),
{
    let a = |p: &G1Point| Affine { x: ark_bn254::Fq::new(BigInt(p.x.limbs)), y: ark_bn254::Fq::new(BigInt(p.y.limbs)), infinity: p.infinity };
    let s: ark_bn254::G1Affine = (a(p) + a(q)).into();
    G1Point { x: Fq { limbs: s.x.into_bigint().0 }, y: Fq { limbs: s.y.into_bigint().0 }, infinity: s.infinity }
}

/// Relies on ark_ec's `AffineRepr::mul_bigint` for BN254's G1 and the
/// conversion back to affine form: the scalar multiple k * p.
#[verifier::external_body]
pub(crate) fn g1_mul(p: &G1Point, k: &Fr) -> (r: G1Point)
    requires
        p.wf(),
        k.wf(),
    ensures
        r.wf(),
        r@ == g1_times(p@, k.value()),
{
    let a: ark_bn254::G1Affine = Affine { x: ark_bn254::Fq::new(BigInt(p.x.limbs)), y: ark_bn254::Fq::new(BigInt(p.y.limbs)), infinity: p.infinity };
    let s: ark_bn254::G1Affine = a.mul_bigint(k.limbs).into();
    G1Point { x: Fq { limbs: s.x.into_bigint().0 }, y: Fq { limbs: s.y.into_bigint().0 }, infinity: s.infinity }
}

/// Relies on ark_ec's `Pairing::multi_pairing` for BN254 and `is_zero` of its
/// output: whether the product of the pairings of matching entries is the
/// identity of the target group. The points lie on their curves, and those
/// of G2 in the subgroup of order r, so that no Miller-loop value vanishes.
#[verifier::external_body]
pub(crate) fn pairing_check(g1: &Vec<G1Point>, g2: &Vec<G2Point>) -> (r: bool)
    requires
        g1.len() == g2.len(),
        forall|i: int| 0 <= i < g1@.len() ==> (#[trigger] g1@[i]).wf(),
        forall|i: int|
            0 <= i < g2@.len() ==> (#[trigger] g2@[i]).wf() && g2_in_subgroup(g2@[i]@),
    ensures
        r == pairing_product_is_one(g1@.map_values(|p: G1Point| p@), g2@.map_values(|p: G2Point| p@)),
{
    let fq = |a: &Fq| ark_bn254::Fq::new(BigInt(a.limbs));
    let f2 = |a: &Fq2| ark_bn254::Fq2::new(fq(&a.c0), fq(&a.c1));
    let a: Vec<ark_bn254::G1Affine> = g1.iter().map(|p| Affine { x: fq(&p.x), y: fq(&p.y), infinity: p.infinity }).collect();
    let b: Vec<ark_bn254::G2Affine> = g2.iter().map(|p| Affine { x: f2(&p.x), y: f2(&p.y), infinity: p.infinity }).collect();
    ark_bn254::Bn254::multi_pairing(a, b).is_zero()
}

} // verus!
