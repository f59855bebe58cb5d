//! A small constraint-system model: polynomial expressions over the advice
//! cells of one row and the row's selectors, gates made of such
//! expressions, and their evaluation in the Pallas base field.

use vstd::prelude::*;
use crate::pallas::{fp_add, fp_from_u64, fp_is_zero, fp_modulus, fp_mul, fp_neg, Fp};

verus! {

/// A polynomial expression over the cells of the current row.
#[derive(Debug)]
pub enum Expression {
    /// A field constant.
    Constant(Fp),
    /// The selector with this index: one where it is enabled, else zero.
    Selector(usize),
    /// The advice cell in this column of the current row.
    Advice(usize),
    Negated(Box<Expression>),
    Sum(Box<Expression>, Box<Expression>),
    Product(Box<Expression>, Box<Expression>),
}

/// A named set of expressions, each of which must vanish on every row.
#[derive(Debug)]
pub struct Gate {
    pub name: String,
    pub polys: Vec<Expression>,
}

/// Whether an expression reads only columns below `width` and selectors
/// below `n_selectors`, and its constants are canonical.
pub open spec fn expr_wf(e: Expression, width: nat, n_selectors: nat) -> bool
    decreases e,
{
    match e {
        Expression::Constant(c) => c.wf(),
        Expression::Selector(i) => i < n_selectors,
        Expression::Advice(c) => c < width,
        Expression::Negated(a) => expr_wf(*a, width, n_selectors),
        Expression::Sum(a, b) => expr_wf(*a, width, n_selectors) && expr_wf(*b, width, n_selectors),
        Expression::Product(a, b) => expr_wf(*a, width, n_selectors) && expr_wf(
            *b,
            width,
            n_selectors,
        ),
    }
}

/// The value of an expression on a row of cell values and selector flags.
pub open spec fn eval(e: Expression, row: Seq<nat>, sel: Seq<bool>) -> nat
    decreases e,
{
    let p = fp_modulus();
    match e {
        Expression::Constant(c) => c.value() % p,
        Expression::Selector(i) => if i < sel.len() && sel[i as int] {
            1
        } else {
            0
        },
        Expression::Advice(c) => if c < row.len() {
            row[c as int] % p
        } else {
            0
        },
        Expression::Negated(a) => (p - eval(*a, row, sel)) as nat % p,
        Expression::Sum(a, b) => (eval(*a, row, sel) + eval(*b, row, sel)) % p,
        Expression::Product(a, b) => (eval(*a, row, sel) * eval(*b, row, sel)) % p,
    }
}

/// The value of an expression over the integers, before reduction.
pub open spec fn int_eval(e: Expression, row: Seq<nat>, sel: Seq<bool>) -> int
    decreases e,
{
    match e {
        Expression::Constant(c) => c.value() as int,
        Expression::Selector(i) => if i < sel.len() && sel[i as int] {
            1
        } else {
            0
        },
        Expression::Advice(c) => if c < row.len() {
            row[c as int] as int
        } else {
            0
        },
        Expression::Negated(a) => -int_eval(*a, row, sel),
        Expression::Sum(a, b) => int_eval(*a, row, sel) + int_eval(*b, row, sel),
        Expression::Product(a, b) => int_eval(*a, row, sel) * int_eval(*b, row, sel),
    }
}

/// Evaluating in the field is evaluating over the integers, then reducing.
pub proof fn lemma_eval_is_reduced_int_eval(e: Expression, row: Seq<nat>, sel: Seq<bool>)
    ensures
        eval(e, row, sel) as int == int_eval(e, row, sel) % (fp_modulus() as int),
    decreases e,
{
    let p = fp_modulus() as int;
    match e {
        Expression::Constant(c) => {},
        Expression::Selector(i) => {
            vstd::arithmetic::div_mod::lemma_small_mod(1, p as nat);
            vstd::arithmetic::div_mod::lemma_small_mod(0, p as nat);
        },
        Expression::Advice(c) => {
            vstd::arithmetic::div_mod::lemma_small_mod(0, p as nat);
        },
        Expression::Negated(a) => {
            lemma_eval_is_reduced_int_eval(*a, row, sel);
            let x = int_eval(*a, row, sel);
            vstd::arithmetic::div_mod::lemma_sub_mod_noop(p, x, p);
            vstd::arithmetic::div_mod::lemma_mod_add_multiples_vanish(-x, p);
            vstd::arithmetic::div_mod::lemma_mod_add_multiples_vanish(-(x % p), p);
            vstd::arithmetic::div_mod::lemma_mod_self_0(p);
        },
        Expression::Sum(a, b) => {
            lemma_eval_is_reduced_int_eval(*a, row, sel);
            lemma_eval_is_reduced_int_eval(*b, row, sel);
            vstd::arithmetic::div_mod::lemma_add_mod_noop(
                int_eval(*a, row, sel),
                int_eval(*b, row, sel),
                p,
            );
        },
        Expression::Product(a, b) => {
            lemma_eval_is_reduced_int_eval(*a, row, sel);
            lemma_eval_is_reduced_int_eval(*b, row, sel);
            vstd::arithmetic::div_mod::lemma_mul_mod_noop(
                int_eval(*a, row, sel),
                int_eval(*b, row, sel),
                p,
            );
        },
    }
}

/// The values of a row of cells.
pub open spec fn row_values(row: Seq<Fp>) -> Seq<nat> {
    row.map_values(|f: Fp| f.value())
}

pub open spec fn row_wf(row: Seq<Fp>) -> bool {
    forall|i: int| 0 <= i < row.len() ==> (#[trigger] row[i]).wf()
}

/// The index of the first expression that does not vanish, if any.
pub open spec fn first_nonzero(polys: Seq<Expression>, row: Seq<nat>, sel: Seq<bool>) -> Option<
    nat,
>
    decreases polys.len(),
{
    if polys.len() == 0 {
        None
    } else {
        match first_nonzero(polys.drop_last(), row, sel) {
            Some(i) => Some(i),
            None => if eval(polys.last(), row, sel) != 0 {
                Some((polys.len() - 1) as nat)
            } else {
                None
            },
        }
    }
}

/// Whether every expression of a list vanishes.
pub open spec fn all_vanish(polys: Seq<Expression>, row: Seq<nat>, sel: Seq<bool>) -> bool {
    forall|i: int| 0 <= i < polys.len() ==> eval(#[trigger] polys[i], row, sel) == 0
}

/// Evaluates an expression on a row.
pub fn evaluate(e: &Expression, row: &Vec<Fp>, sel: &Vec<bool>) -> (r: Fp)
    requires
        expr_wf(*e, row@.len(), sel@.len()),
        row_wf(row@),
    ensures
        r.wf(),
        r.value() == eval(*e, row_values(row@), sel@),
    decreases e,
{
    let ghost p = fp_modulus();
    match e {
        Expression::Constant(c) => {
            proof {
                vstd::arithmetic::div_mod::lemma_small_mod(c.value(), p);
            }
            *c
        },
        Expression::Selector(i) => {
            if sel[*i] {
                fp_from_u64(1)
            } else {
                fp_from_u64(0)
            }
        },
        Expression::Advice(c) => {
            let f = row[*c];
            proof {
                assert(row_values(row@)[*c as int] == f.value());
                vstd::arithmetic::div_mod::lemma_small_mod(f.value(), p);
            }
            f
        },
        Expression::Negated(a) => {
            let x = evaluate(a, row, sel);
            fp_neg(&x)
        },
        Expression::Sum(a, b) => {
            let x = evaluate(a, row, sel);
            let y = evaluate(b, row, sel);
            fp_add(&x, &y)
        },
        Expression::Product(a, b) => {
            let x = evaluate(a, row, sel);
            let y = evaluate(b, row, sel);
            fp_mul(&x, &y)
        },
    }
}

/// Checks a gate on one row: `Err(i)` names the first expression that
/// does not vanish.
pub fn check_gate(gate: &Gate, row: &Vec<Fp>, sel: &Vec<bool>) -> (r: Result<(), usize>)
    requires
        forall|i: int|
            0 <= i < gate.polys@.len() ==> expr_wf(#[trigger] gate.polys@[i], row@.len(), sel@.len()),
        row_wf(row@),
    ensures
        match r {
            Ok(()) => first_nonzero(gate.polys@, row_values(row@), sel@) is None,
            Err(i) => first_nonzero(gate.polys@, row_values(row@), sel@) == Some(i as nat),
        },
        r is Ok <==> all_vanish(gate.polys@, row_values(row@), sel@),
{
    let ghost vals = row_values(row@);
    let mut i: usize = 0;
    assert(gate.polys@.take(0) =~= seq![]);
    while i < gate.polys.len()
        invariant
            i <= gate.polys@.len(),
            forall|k: int|
                0 <= k < gate.polys@.len() ==> expr_wf(
                    #[trigger] gate.polys@[k],
                    row@.len(),
                    sel@.len(),
                ),
            row_wf(row@),
            vals == row_values(row@),
            first_nonzero(gate.polys@.take(i as int), vals, sel@) is None,
            forall|k: int| 0 <= k < i ==> eval(#[trigger] gate.polys@[k], vals, sel@) == 0,
        decreases gate.polys@.len() - i,
    {
        let v = evaluate(&gate.polys[i], row, sel);
        assert(gate.polys@.take(i + 1).drop_last() =~= gate.polys@.take(i as int));
        if !fp_is_zero(&v) {
            proof {
                lemma_first_nonzero_prefix(gate.polys@, i as int + 1, vals, sel@);
            }
            return Err(i);
        }
        i = i + 1;
    }
    assert(gate.polys@.take(i as int) =~= gate.polys@);
    Ok(())
}

/// A failure found in a prefix is the first failure of the whole list.
pub proof fn lemma_first_nonzero_prefix(polys: Seq<Expression>, k: int, row: Seq<nat>, sel: Seq<bool>)
    requires
        0 <= k <= polys.len(),
        first_nonzero(polys.take(k), row, sel) is Some,
    ensures
        first_nonzero(polys, row, sel) == first_nonzero(polys.take(k), row, sel),
    decreases polys.len() - k,
{
    if k < polys.len() {
        assert(polys.take(k + 1).drop_last() =~= polys.take(k));
        lemma_first_nonzero_prefix(polys, k + 1, row, sel);
    } else {
        assert(polys.take(k) =~= polys);
    }
}

} // verus!
