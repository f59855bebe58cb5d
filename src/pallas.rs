//! Elements of the Pallas base field, held as canonical little-endian bytes,
//! with the field operations and the Poseidon hash that the circuit uses.

use vstd::prelude::*;
use crate::bn254::limb_base;
use ff::{Field, PrimeField};
use halo2_gadgets::poseidon::primitives as poseidon;
use halo2_gadgets::poseidon::primitives::{ConstantLength, P128Pow5T3};

verus! {

/// The modulus of the Pallas base field,
/// 0x40000000000000000000000000000000224698fc094cf91b992d30ed00000001.
pub open spec fn fp_modulus() -> nat {
    0x992d30ed00000001 + limb_base() * (0x224698fc094cf91b + limb_base() * (0 + limb_base()
        * 0x4000000000000000))
}

/// The number held by little-endian bytes.
pub open spec fn le_value(b: Seq<u8>) -> nat
    decreases b.len(),
{
    if b.len() == 0 {
        0
    } else {
        b[0] as nat + 256 * le_value(b.drop_first())
    }
}

/// An element of the Pallas base field, by the little-endian bytes of its
/// canonical representative.
#[derive(Clone, Copy, Debug, PartialEq, Eq)]
pub struct Fp {
    pub repr: [u8; 32],
}

impl Fp {
    pub open spec fn value(&self) -> nat {
        le_value(self.repr@)
    }

    pub open spec fn wf(&self) -> bool {
        self.value() < fp_modulus()
    }
}

/// Poseidon (P128Pow5T3, width 3, rate 2) over one field element.
pub uninterp spec fn poseidon_hash_1(x: nat) -> nat;

/// Poseidon (P128Pow5T3, width 3, rate 2) over two field elements.
pub uninterp spec fn poseidon_hash_2(x: nat, y: nat) -> nat;

/// Relies on pasta_curves' `From<u64>` for the Pallas base field and
/// `PrimeField::to_repr`: the element whose value is `v`.
#[verifier::external_body]
pub(crate) fn fp_from_u64(v: u64) -> (r: Fp)
    ensures
        r.wf(),
        r.value() == v,
{
    Fp { repr: pasta_curves::pallas::Base::from(v).to_repr() }
}

/// Relies on pasta_curves' `Add` for the Pallas base field.
#[verifier::external_body]
pub(crate) fn fp_add(a: &Fp, b: &Fp) -> (r: Fp)
    requires
        a.wf(),
        b.wf(),
    ensures
        r.wf(),
        r.value() == (a.value() + b.value()) % fp_modulus(),
{
    let x = pasta_curves::pallas::Base::from_repr(a.repr).unwrap();
    let y = pasta_curves::pallas::Base::from_repr(b.repr).unwrap();
    Fp { repr: (x + y).to_repr() }
}

/// Relies on pasta_curves' `Mul` for the Pallas base field.
#[verifier::external_body]
pub(crate) fn fp_mul(a: &Fp, b: &Fp) -> (r: Fp)
    requires
        a.wf(),
        b.wf(),
    ensures
        r.wf(),
        r.value() == (a.value() * b.value()) % fp_modulus(),
{
    let x = pasta_curves::pallas::Base::from_repr(a.repr).unwrap();
    let y = pasta_curves::pallas::Base::from_repr(b.repr).unwrap();
    Fp { repr: (x * y).to_repr() }
}

/// Relies on pasta_curves' `Neg` for the Pallas base field.
#[verifier::external_body]
pub(crate) fn fp_neg(a: &Fp) -> (r: Fp)
    requires
        a.wf(),
    ensures
        r.wf(),
        r.value() == (fp_modulus() - a.value()) as nat % fp_modulus(),
{
    let x = pasta_curves::pallas::Base::from_repr(a.repr).unwrap();
    Fp { repr: (-x).to_repr() }
}

/// Relies on halo2_gadgets' `poseidon::primitives::Hash` with P128Pow5T3 and
/// `ConstantLength<1>` over the Pallas base field.
#[verifier::external_body]
pub(crate) fn poseidon_hash1(a: &Fp) -> (r: Fp)
    requires
        a.wf(),
    ensures
        r.wf(),
        r.value() == poseidon_hash_1(a.value()),
{
    let x = pasta_curves::pallas::Base::from_repr(a.repr).unwrap();
    let h = poseidon::Hash::<_, P128Pow5T3, ConstantLength<1>, 3, 2>::init().hash([x]);
    Fp { repr: h.to_repr() }
}

/// Relies on halo2_gadgets' `poseidon::primitives::Hash` with P128Pow5T3 and
/// `ConstantLength<2>` over the Pallas base field.
#[verifier::external_body]
pub(crate) fn poseidon_hash2(a: &Fp, b: &Fp) -> (r: Fp)
    requires
        a.wf(),
        b.wf(),
    ensures
        r.wf(),
        r.value() == poseidon_hash_2(a.value(), b.value()),
{
    let x = pasta_curves::pallas::Base::from_repr(a.repr).unwrap();
    let y = pasta_curves::pallas::Base::from_repr(b.repr).unwrap();
    let h = poseidon::Hash::<_, P128Pow5T3, ConstantLength<2>, 3, 2>::init().hash([x, y]);
    Fp { repr: h.to_repr() }
}

/// Bytes hold zero exactly when each of them is zero.
pub proof fn lemma_le_value_zero(b: Seq<u8>)
    ensures
        le_value(b) == 0 <==> forall|i: int| 0 <= i < b.len() ==> b[i] == 0,
    decreases b.len(),
{
    if b.len() > 0 {
        lemma_le_value_zero(b.drop_first());
        if le_value(b) == 0 {
            assert forall|i: int| 0 <= i < b.len() implies b[i] == 0 by {
                if i > 0 {
                    assert(b[i] == b.drop_first()[i - 1]);
                }
            }
        }
        if forall|i: int| 0 <= i < b.len() ==> b[i] == 0 {
            assert forall|i: int| 0 <= i < b.len() - 1 implies b.drop_first()[i] == 0 by {
                assert(b.drop_first()[i] == b[i + 1]);
            }
        }
    }
}

/// A non-zero byte makes the value non-zero.
pub proof fn lemma_le_value_nonzero(b: Seq<u8>, i: int)
    requires
        0 <= i < b.len(),
        b[i] != 0,
    ensures
        le_value(b) != 0,
    decreases i,
{
    if i > 0 {
        assert(b.drop_first()[i - 1] == b[i]);
        lemma_le_value_nonzero(b.drop_first(), i - 1);
    }
}

/// Whether an element is zero.
pub fn fp_is_zero(a: &Fp) -> (r: bool)
    ensures
        r == (a.value() == 0),
{
    proof {
        lemma_le_value_zero(a.repr@);
    }
    let mut i: usize = 0;
    while i < 32
        invariant
            i <= 32,
            a.repr@.len() == 32,
            forall|j: int| 0 <= j < i ==> a.repr@[j] == 0,
        decreases 32 - i,
    {
        if a.repr[i] != 0 {
            proof {
                lemma_le_value_nonzero(a.repr@, i as int);
            }
            return false;
        }
        i = i + 1;
    }
    true
}

/// Whether two elements are equal, decided on their difference.
pub fn fp_equal(a: &Fp, b: &Fp) -> (r: bool)
    requires
        a.wf(),
        b.wf(),
    ensures
        r == (a.value() == b.value()),
{
    let d = fp_add(a, &fp_neg(b));
    let r = fp_is_zero(&d);
    proof {
        let p = fp_modulus();
        let nb = (p - b.value()) as nat % p;
        if b.value() == 0 {
            assert(nb == 0) by (nonlinear_arith) requires nb == (p - 0) as nat % p, p > 0;
        } else {
            vstd::arithmetic::div_mod::lemma_small_mod((p - b.value()) as nat, p);
        }
        assert((a.value() + nb) % p == 0 <==> a.value() == b.value()) by (nonlinear_arith)
            requires
                a.value() < p,
                b.value() < p,
                nb == (if b.value() == 0 { 0 } else { p - b.value() }),
        {
            if a.value() + nb == 0 {
            } else if a.value() + nb == p {
            } else {
            }
        }
    }
    r
}

} // verus!
