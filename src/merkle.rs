//! The Merkle-membership circuit of fixed depth: a secret leaf, its path of
//! siblings and left/right bits, a swap gate per level and Poseidon hashing up
//! to a public root, with a public nullifier.

use vstd::prelude::*;
use crate::constraint::{
    all_vanish, check_gate, eval, expr_wf, int_eval, lemma_eval_is_reduced_int_eval, row_values,
    row_wf, Expression, Gate,
};
use crate::pallas::{
    fp_equal, fp_from_u64, fp_modulus, poseidon_hash1, poseidon_hash2, poseidon_hash_1,
    poseidon_hash_2, Fp,
};

verus! {

/// Depth of the tree: the number of levels between leaf and root.
pub const DEPTH: usize = 3;

/// Columns of a swap row.
pub const CURRENT: usize = 0;

pub const SIBLING: usize = 1;

pub const PATH_INDEX: usize = 2;

pub const LEFT: usize = 3;

pub const RIGHT: usize = 4;

/// Number of advice cells in a swap row.
pub const ROW_WIDTH: usize = 5;

/// Index of the selector that switches the swap gate on.
pub const SWAP_SELECTOR: usize = 0;

/// The boolean constraint: path_index * (1 - path_index).
pub open spec fn bool_constraint(pi: int) -> int {
    pi * (1 - pi)
}

/// left - (current * (1 - path_index) + sibling * path_index).
pub open spec fn left_constraint(cur: int, sib: int, pi: int, left: int) -> int {
    left - (cur * (1 - pi) + sib * pi)
}

/// right - (sibling * (1 - path_index) + current * path_index).
pub open spec fn right_constraint(cur: int, sib: int, pi: int, right: int) -> int {
    right - (sib * (1 - pi) + cur * pi)
}

/// Whether a swap row [current, sibling, path_index, left, right] meets the
/// three constraints of the swap gate in the field.
pub open spec fn swap_gate_holds(row: Seq<nat>) -> bool {
    let p = fp_modulus() as int;
    &&& row.len() == ROW_WIDTH
    &&& bool_constraint(row[2] as int) % p == 0
    &&& left_constraint(row[0] as int, row[1] as int, row[2] as int, row[3] as int) % p == 0
    &&& right_constraint(row[0] as int, row[1] as int, row[2] as int, row[4] as int) % p == 0
}

fn boxed(e: Expression) -> (r: Box<Expression>)
    ensures
        *r == e,
{
    Box::new(e)
}

fn minus(a: Expression, b: Expression) -> (r: Expression)
    ensures
        r == Expression::Sum(Box::new(a), Box::new(Expression::Negated(Box::new(b)))),
{
    Expression::Sum(boxed(a), boxed(Expression::Negated(boxed(b))))
}

fn plus(a: Expression, b: Expression) -> (r: Expression)
    ensures
        r == Expression::Sum(Box::new(a), Box::new(b)),
{
    Expression::Sum(boxed(a), boxed(b))
}

fn times(a: Expression, b: Expression) -> (r: Expression)
    ensures
        r == Expression::Product(Box::new(a), Box::new(b)),
{
    Expression::Product(boxed(a), boxed(b))
}

fn one_minus(e: Expression) -> (r: Expression)
    ensures
        exists|one: Fp|
            one.wf() && one.value() == 1 && r == Expression::Sum(
                Box::new(Expression::Constant(one)),
                Box::new(Expression::Negated(Box::new(e))),
            ),
{
    let one = fp_from_u64(1);
    minus(Expression::Constant(one), e)
}

fn cell(c: usize) -> (r: Expression)
    ensures
        r == Expression::Advice(c),
{
    Expression::Advice(c)
}

/// The swap gate: under its selector, path_index is a bit, and (left, right)
/// is (current, sibling) when it is zero and (sibling, current) when it is one.
pub fn configure_swap_gate() -> (r: Gate)
    ensures
        r.name@ == "swap"@,
        r.polys@.len() == 3,
        forall|row: Seq<nat>, sel: Seq<bool>|
            row.len() == ROW_WIDTH ==> {
                let p = fp_modulus() as int;
                let s: int = if sel.len() > 0 && sel[SWAP_SELECTOR as int] {
                    1
                } else {
                    0
                };
                &&& #[trigger] eval(r.polys@[0], row, sel) as int == (s * bool_constraint(
                    row[PATH_INDEX as int] as int,
                )) % p
                &&& eval(r.polys@[1], row, sel) as int == (s * left_constraint(
                    row[CURRENT as int] as int,
                    row[SIBLING as int] as int,
                    row[PATH_INDEX as int] as int,
                    row[LEFT as int] as int,
                )) % p
                &&& eval(r.polys@[2], row, sel) as int == (s * right_constraint(
                    row[CURRENT as int] as int,
                    row[SIBLING as int] as int,
                    row[PATH_INDEX as int] as int,
                    row[RIGHT as int] as int,
                )) % p
            },
        forall|k: int| 0 <= k < 3 ==> expr_wf(#[trigger] r.polys@[k], ROW_WIDTH as nat, 1),
        forall|row: Seq<nat>|
            row.len() == ROW_WIDTH ==> (all_vanish(r.polys@, row, seq![true])
                <==> #[trigger] swap_gate_holds(row)),
        forall|row: Seq<nat>|
            row.len() == ROW_WIDTH ==> #[trigger] all_vanish(r.polys@, row, seq![false]),
{
    let s0 = Expression::Selector(SWAP_SELECTOR);
    let s1 = Expression::Selector(SWAP_SELECTOR);
    let s2 = Expression::Selector(SWAP_SELECTOR);
    let bool_check = times(s0, times(cell(PATH_INDEX), one_minus(cell(PATH_INDEX))));
    let expected_left = plus(
        times(cell(CURRENT), one_minus(cell(PATH_INDEX))),
        times(cell(SIBLING), cell(PATH_INDEX)),
    );
    let expected_right = plus(
        times(cell(SIBLING), one_minus(cell(PATH_INDEX))),
        times(cell(CURRENT), cell(PATH_INDEX)),
    );
    let left_check = times(s1, minus(cell(LEFT), expected_left));
    let right_check = times(s2, minus(cell(RIGHT), expected_right));
    let ghost p = fp_modulus() as int;
    proof {
        assert forall|row: Seq<nat>, sel: Seq<bool>| row.len() == ROW_WIDTH implies {
            let s: int = if sel.len() > 0 && sel[0] {
                1
            } else {
                0
            };
            &&& #[trigger] int_eval(bool_check, row, sel) == s * bool_constraint(row[2] as int)
            &&& int_eval(left_check, row, sel) == s * left_constraint(
                row[0] as int,
                row[1] as int,
                row[2] as int,
                row[3] as int,
            )
            &&& int_eval(right_check, row, sel) == s * right_constraint(
                row[0] as int,
                row[1] as int,
                row[2] as int,
                row[4] as int,
            )
        } by {
            reveal_with_fuel(int_eval, 10);
        }
        assert(expr_wf(bool_check, ROW_WIDTH as nat, 1) && expr_wf(left_check, ROW_WIDTH as nat, 1)
            && expr_wf(right_check, ROW_WIDTH as nat, 1)) by {
            reveal_with_fuel(expr_wf, 10);
        }
        assert forall|row: Seq<nat>, sel: Seq<bool>| true implies {
            &&& #[trigger] eval(bool_check, row, sel) as int == int_eval(bool_check, row, sel) % p
            &&& eval(left_check, row, sel) as int == int_eval(left_check, row, sel) % p
            &&& eval(right_check, row, sel) as int == int_eval(right_check, row, sel) % p
        } by {
            lemma_eval_is_reduced_int_eval(bool_check, row, sel);
            lemma_eval_is_reduced_int_eval(left_check, row, sel);
            lemma_eval_is_reduced_int_eval(right_check, row, sel);
        }
        assert(0int % p == 0) by {
            vstd::arithmetic::div_mod::lemma_small_mod(0, p as nat);
        }
    }
    let polys = vec![bool_check, left_check, right_check];
    proof {
        assert forall|row: Seq<nat>, sel: Seq<bool>| row.len() == ROW_WIDTH implies {
            let s: int = if sel.len() > 0 && sel[SWAP_SELECTOR as int] {
                1
            } else {
                0
            };
            &&& #[trigger] eval(polys@[0], row, sel) as int == (s * bool_constraint(
                row[PATH_INDEX as int] as int,
            )) % p
            &&& eval(polys@[1], row, sel) as int == (s * left_constraint(
                row[CURRENT as int] as int,
                row[SIBLING as int] as int,
                row[PATH_INDEX as int] as int,
                row[LEFT as int] as int,
            )) % p
            &&& eval(polys@[2], row, sel) as int == (s * right_constraint(
                row[CURRENT as int] as int,
                row[SIBLING as int] as int,
                row[PATH_INDEX as int] as int,
                row[RIGHT as int] as int,
            )) % p
        } by {
            assert(eval(bool_check, row, sel) as int == int_eval(bool_check, row, sel) % p);
            assert(int_eval(bool_check, row, sel) == int_eval(bool_check, row, sel));
        }
        assert forall|k: int| 0 <= k < 3 implies expr_wf(#[trigger] polys@[k], ROW_WIDTH as nat, 1) by {
            if k == 0 {
            } else if k == 1 {
            } else {
            }
        }
        assert forall|row: Seq<nat>|
            row.len() == ROW_WIDTH implies (all_vanish(polys@, row, seq![true])
            <==> #[trigger] swap_gate_holds(row)) by {
            let t = seq![true];
            assert(t.len() > 0 && t[0]);
            assert(eval(polys@[0], row, t) as int == int_eval(bool_check, row, t) % p);
            assert(eval(polys@[1], row, t) as int == int_eval(left_check, row, t) % p);
            assert(eval(polys@[2], row, t) as int == int_eval(right_check, row, t) % p);
            if swap_gate_holds(row) {
                assert forall|i: int| 0 <= i < polys@.len() implies eval(
                    #[trigger] polys@[i],
                    row,
                    t,
                ) == 0 by {
                    if i == 0 {
                    } else if i == 1 {
                    } else {
                    }
                }
            }
            if all_vanish(polys@, row, t) {
                assert(eval(polys@[0], row, t) == 0);
                assert(eval(polys@[1], row, t) == 0);
                assert(eval(polys@[2], row, t) == 0);
            }
        }
        assert forall|row: Seq<nat>| row.len() == ROW_WIDTH implies #[trigger] all_vanish(
            polys@,
            row,
            seq![false],
        ) by {
            let f = seq![false];
            assert(!(f.len() > 0 && f[0]));
            assert(eval(polys@[0], row, f) as int == int_eval(bool_check, row, f) % p);
            assert(eval(polys@[1], row, f) as int == int_eval(left_check, row, f) % p);
            assert(eval(polys@[2], row, f) as int == int_eval(right_check, row, f) % p);
            assert forall|i: int| 0 <= i < polys@.len() implies eval(
                #[trigger] polys@[i],
                row,
                f,
            ) == 0 by {
                if i == 0 {
                } else if i == 1 {
                } else {
                }
            }
        }
    }
    let name = String::from_str("swap");
    Gate { name, polys }
}

/// A multiple of the modulus strictly between -p and p is zero.
pub proof fn lemma_small_multiple_of_modulus(x: int)
    requires
        -(fp_modulus() as int) < x < fp_modulus() as int,
    ensures
        x % (fp_modulus() as int) == 0 <==> x == 0,
{
    let p = fp_modulus() as int;
    if x >= 0 {
        vstd::arithmetic::div_mod::lemma_small_mod(x as nat, p as nat);
    } else {
        vstd::arithmetic::div_mod::lemma_mod_add_multiples_vanish(x, p);
        vstd::arithmetic::div_mod::lemma_small_mod((p + x) as nat, p as nat);
    }
}

/// With path_index one, the swap gate holds exactly when (left, right) is
/// (sibling, current), and each select constraint vanishes exactly when its
/// own cell is right; a row that keeps them in the order (current, sibling)
/// leaves current - sibling and sibling - current, and fails unless the two
/// are equal.
pub proof fn lemma_swap_gate_index_one(cur: nat, sib: nat, left: nat, right: nat)
    requires
        cur < fp_modulus(),
        sib < fp_modulus(),
        left < fp_modulus(),
        right < fp_modulus(),
    ensures
        swap_gate_holds(seq![cur, sib, 1, left, right]) <==> (left == sib && right == cur),
        cur != sib ==> !swap_gate_holds(seq![cur, sib, 1, cur, sib]),
        left_constraint(cur as int, sib as int, 1, left as int) % (fp_modulus() as int) == 0
            <==> left == sib,
        right_constraint(cur as int, sib as int, 1, right as int) % (fp_modulus() as int) == 0
            <==> right == cur,
        left_constraint(cur as int, sib as int, 1, cur as int) == cur - sib,
        right_constraint(cur as int, sib as int, 1, sib as int) == sib - cur,
{
    let p = fp_modulus() as int;
    let row = seq![cur, sib, 1, left, right];
    assert(bool_constraint(1) == 0);
    assert(left_constraint(cur as int, sib as int, 1, left as int) == left - sib);
    assert(right_constraint(cur as int, sib as int, 1, right as int) == right - cur);
    vstd::arithmetic::div_mod::lemma_small_mod(0, p as nat);
    lemma_small_multiple_of_modulus(left - sib);
    lemma_small_multiple_of_modulus(right - cur);
    lemma_small_multiple_of_modulus(cur - sib);
    lemma_small_multiple_of_modulus(sib - cur);
    assert(left_constraint(cur as int, sib as int, 1, cur as int) == cur - sib);
    assert(right_constraint(cur as int, sib as int, 1, sib as int) == sib - cur);
}

/// With path_index zero, the swap gate holds exactly when (left, right) is
/// (current, sibling), and each select constraint vanishes exactly when its
/// own cell is right.
pub proof fn lemma_swap_gate_index_zero(cur: nat, sib: nat, left: nat, right: nat)
    requires
        cur < fp_modulus(),
        sib < fp_modulus(),
        left < fp_modulus(),
        right < fp_modulus(),
    ensures
        swap_gate_holds(seq![cur, sib, 0, left, right]) <==> (left == cur && right == sib),
        left_constraint(cur as int, sib as int, 0, left as int) % (fp_modulus() as int) == 0
            <==> left == cur,
        right_constraint(cur as int, sib as int, 0, right as int) % (fp_modulus() as int) == 0
            <==> right == sib,
{
    let p = fp_modulus() as int;
    assert(bool_constraint(0) == 0);
    assert(left_constraint(cur as int, sib as int, 0, left as int) == left - cur);
    assert(right_constraint(cur as int, sib as int, 0, right as int) == right - sib);
    vstd::arithmetic::div_mod::lemma_small_mod(0, p as nat);
    lemma_small_multiple_of_modulus(left - cur);
    lemma_small_multiple_of_modulus(right - sib);
}

/// A path_index with a value from 2 up to 2^126 fails the boolean constraint,
/// whatever the other cells of the row hold. (Every value other than 0 and 1
/// fails it, as the modulus is prime; this states the part proved here.)
pub proof fn lemma_bool_constraint_rejects(row: Seq<nat>)
    requires
        row.len() == ROW_WIDTH,
        2 <= row[2] < 0x4000_0000_0000_0000_0000_0000_0000_0000,
    ensures
        !swap_gate_holds(row),
{
    let v = row[2] as int;
    let x = v * (v - 1);
    assert(0 < x < 0x4000_0000_0000_0000_0000_0000_0000_0000 * 0x4000_0000_0000_0000_0000_0000_0000_0000)
        by (nonlinear_arith)
        requires
            2 <= v < 0x4000_0000_0000_0000_0000_0000_0000_0000,
            x == v * (v - 1),
    ;
    assert(bool_constraint(v) == -x) by (nonlinear_arith)
        requires
            x == v * (v - 1),
    ;
    lemma_small_multiple_of_modulus(-x);
}

/// The left input of a level's hash: the sibling when the path goes right.
pub open spec fn select_left(cur: nat, sib: nat, bit: bool) -> nat {
    if bit {
        sib
    } else {
        cur
    }
}

/// The right input of a level's hash: the current node when the path goes right.
pub open spec fn select_right(cur: nat, sib: nat, bit: bool) -> nat {
    if bit {
        cur
    } else {
        sib
    }
}

/// The node reached after climbing `i` levels from `leaf`.
pub open spec fn node_at(leaf: nat, sibs: Seq<nat>, bits: Seq<bool>, i: nat) -> nat
    decreases i,
{
    if i == 0 {
        leaf
    } else {
        let c = node_at(leaf, sibs, bits, (i - 1) as nat);
        let k = i - 1;
        poseidon_hash_2(select_left(c, sibs[k], bits[k]), select_right(c, sibs[k], bits[k]))
    }
}

/// The swap row of one level.
pub open spec fn level_row(cur: nat, sib: nat, bit: bool) -> Seq<nat> {
    seq![cur, sib, if bit { 1 } else { 0 }, select_left(cur, sib, bit), select_right(cur, sib, bit)]
}

/// The public root of a secret's path.
pub open spec fn merkle_root(secret: nat, sibs: Seq<nat>, bits: Seq<bool>) -> nat {
    node_at(poseidon_hash_1(secret), sibs, bits, DEPTH as nat)
}

/// The public nullifier of a secret.
pub open spec fn merkle_nullifier(secret: nat) -> nat {
    poseidon_hash_1(secret)
}

/// The advice values of one run of the circuit.
pub struct WitnessModel {
    pub secret: nat,
    pub leaf: nat,
    pub nullifier: nat,
    pub levels: Seq<Seq<nat>>,
    pub root: nat,
}

/// The values an honest prover assigns.
pub open spec fn witness_spec(secret: nat, sibs: Seq<nat>, bits: Seq<bool>) -> WitnessModel {
    let leaf = poseidon_hash_1(secret);
    WitnessModel {
        secret,
        leaf,
        nullifier: poseidon_hash_1(secret),
        levels: Seq::new(
            DEPTH as nat,
            |i: int| level_row(node_at(leaf, sibs, bits, i as nat), sibs[i], bits[i]),
        ),
        root: node_at(leaf, sibs, bits, DEPTH as nat),
    }
}

/// Number of regions that the checker goes through: leaf, nullifier, one per
/// level, root, and the two public values.
pub open spec fn num_regions() -> nat {
    DEPTH as nat + 5
}

/// The region that binds the root to the first public value.
pub open spec fn root_instance_region() -> nat {
    DEPTH as nat + 3
}

/// Whether the constraints of region `k` hold.
pub open spec fn region_holds(w: WitnessModel, instance: Seq<nat>, k: nat) -> bool {
    if k == 0 {
        w.leaf == poseidon_hash_1(w.secret)
    } else if k == 1 {
        w.nullifier == poseidon_hash_1(w.secret)
    } else if k < 2 + DEPTH {
        let i = k - 2;
        let row = w.levels[i];
        &&& swap_gate_holds(row)
        &&& row[CURRENT as int] == if i == 0 {
            w.leaf
        } else {
            poseidon_hash_2(w.levels[i - 1][LEFT as int], w.levels[i - 1][RIGHT as int])
        }
    } else if k == 2 + DEPTH {
        w.root == poseidon_hash_2(
            w.levels[DEPTH - 1][LEFT as int],
            w.levels[DEPTH - 1][RIGHT as int],
        )
    } else if k == 3 + DEPTH {
        instance[0] == w.root
    } else {
        instance[1] == w.nullifier
    }
}

/// The first region from `k` on whose constraints fail.
pub open spec fn first_failing(w: WitnessModel, instance: Seq<nat>, k: nat) -> Option<nat>
    decreases num_regions() - k,
{
    if k >= num_regions() {
        None
    } else if !region_holds(w, instance, k) {
        Some(k)
    } else {
        first_failing(w, instance, k + 1)
    }
}

/// Why a witness does not satisfy the circuit.
#[derive(Clone, Copy, Debug, PartialEq, Eq)]
pub enum CircuitError {
    /// The witness or the public values do not have the circuit's shape.
    Malformed,
    /// The constraints of this region fail.
    ConstraintUnsatisfied(usize),
}

pub open spec fn shape_ok(w: WitnessModel, instance: Seq<nat>) -> bool {
    &&& w.levels.len() == DEPTH
    &&& forall|i: int| 0 <= i < DEPTH ==> (#[trigger] w.levels[i]).len() == ROW_WIDTH
    &&& instance.len() == 2
}

/// The outcome of checking a witness against public values.
pub open spec fn check_spec(w: WitnessModel, instance: Seq<nat>) -> Result<(), CircuitError> {
    if !shape_ok(w, instance) {
        Err(CircuitError::Malformed)
    } else {
        match first_failing(w, instance, 0) {
            None => Ok(()),
            Some(k) => Err(CircuitError::ConstraintUnsatisfied(k as usize)),
        }
    }
}

/// An honest witness satisfies the circuit against its own root and
/// nullifier, and against any other root value the root region fails.
pub proof fn lemma_honest_witness(secret: nat, sibs: Seq<nat>, bits: Seq<bool>, wrong_root: nat)
    requires
        sibs.len() == DEPTH,
        bits.len() == DEPTH,
        wrong_root != merkle_root(secret, sibs, bits),
    ensures
        check_spec(
            witness_spec(secret, sibs, bits),
            seq![merkle_root(secret, sibs, bits), merkle_nullifier(secret)],
        ) == Ok::<(), CircuitError>(()),
        check_spec(
            witness_spec(secret, sibs, bits),
            seq![wrong_root, merkle_nullifier(secret)],
        ) == Err::<(), CircuitError>(CircuitError::ConstraintUnsatisfied((DEPTH + 3) as usize)),
{
    let w = witness_spec(secret, sibs, bits);
    let good = seq![merkle_root(secret, sibs, bits), merkle_nullifier(secret)];
    let bad = seq![wrong_root, merkle_nullifier(secret)];
    let p = fp_modulus() as int;
    vstd::arithmetic::div_mod::lemma_small_mod(0, p as nat);
    assert forall|i: int| 0 <= i < DEPTH implies swap_gate_holds(#[trigger] w.levels[i]) && w.levels[i][CURRENT as int] == if i == 0 {
        w.leaf
    } else {
        poseidon_hash_2(w.levels[i - 1][LEFT as int], w.levels[i - 1][RIGHT as int])
    } by {
        let c = node_at(w.leaf, sibs, bits, i as nat) as int;
        let sb = sibs[i] as int;
        if bits[i] {
            assert(bool_constraint(1) == 0);
            assert(left_constraint(c, sb, 1, sb) == 0);
            assert(right_constraint(c, sb, 1, c) == 0);
        } else {
            assert(bool_constraint(0) == 0);
            assert(left_constraint(c, sb, 0, c) == 0);
            assert(right_constraint(c, sb, 0, sb) == 0);
        }
    }
    assert(shape_ok(w, good));
    assert(shape_ok(w, bad));
    assert forall|k: nat| k < num_regions() implies #[trigger] region_holds(w, good, k) by {
        if 2 <= k < 2 + DEPTH {
            assert(swap_gate_holds(w.levels[k - 2]));
        }
    }
    assert(first_failing(w, good, 0) is None) by {
        reveal_with_fuel(first_failing, 10);
    }
    assert forall|k: nat| k < root_instance_region() implies #[trigger] region_holds(w, bad, k) by {
        if 2 <= k < 2 + DEPTH {
            assert(swap_gate_holds(w.levels[k - 2]));
        }
    }
    assert(!region_holds(w, bad, root_instance_region()));
    assert(first_failing(w, bad, 0) == Some(root_instance_region())) by {
        reveal_with_fuel(first_failing, 10);
    }
}

/// The values of the siblings.
pub open spec fn sibling_values(s: [Fp; 3]) -> Seq<nat> {
    s@.map_values(|f: Fp| f.value())
}

/// The witnesses of the circuit; `None` stands for a value not known yet,
/// as in a pass that only lays out the circuit.
#[derive(Clone, Copy, Debug)]
pub struct MerkleCircuit {
    pub secret: Option<Fp>,
    pub siblings: Option<[Fp; 3]>,
    pub path_indices: Option<[bool; 3]>,
}

/// The advice values of one run of the circuit.
#[derive(Clone, Debug)]
pub struct MerkleWitness {
    pub secret: Fp,
    pub leaf: Fp,
    pub nullifier: Fp,
    /// One swap row [current, sibling, path_index, left, right] per level.
    pub levels: Vec<Vec<Fp>>,
    pub root: Fp,
}

impl View for MerkleWitness {
    type V = WitnessModel;

    open spec fn view(&self) -> WitnessModel {
        WitnessModel {
            secret: self.secret.value(),
            leaf: self.leaf.value(),
            nullifier: self.nullifier.value(),
            levels: self.levels@.map_values(|r: Vec<Fp>| row_values(r@)),
            root: self.root.value(),
        }
    }
}

impl MerkleWitness {
    pub open spec fn wf(&self) -> bool {
        &&& self.secret.wf()
        &&& self.leaf.wf()
        &&& self.nullifier.wf()
        &&& self.root.wf()
        &&& forall|i: int| 0 <= i < self.levels@.len() ==> row_wf((#[trigger] self.levels@[i])@)
    }
}

impl MerkleCircuit {
    pub open spec fn wf(&self) -> bool {
        &&& self.secret is Some ==> self.secret.unwrap().wf()
        &&& self.siblings is Some ==> forall|i: int|
            0 <= i < 3 ==> (#[trigger] self.siblings.unwrap()[i]).wf()
    }

    /// The same circuit with every witness unknown.
    pub fn without_witnesses(&self) -> (r: Self)
        ensures
            r.secret is None,
            r.siblings is None,
            r.path_indices is None,
    {
        MerkleCircuit { secret: None, siblings: None, path_indices: None }
    }

    /// The advice values of a run: the leaf and nullifier hashed from the
    /// secret, a swap row per level, and the root. `None` when a witness is
    /// unknown.
    pub fn synthesize(&self) -> (r: Option<MerkleWitness>)
        requires
            self.wf(),
        ensures
            r is Some <==> (self.secret is Some && self.siblings is Some
                && self.path_indices is Some),
            r is Some ==> r.unwrap().wf() && r.unwrap()@ == witness_spec(
                self.secret.unwrap().value(),
                sibling_values(self.siblings.unwrap()),
                self.path_indices.unwrap()@,
            ),
    {
        let secret = match self.secret {
            Some(s) => s,
            None => return None,
        };
        let siblings = match self.siblings {
            Some(s) => s,
            None => return None,
        };
        let bits = match self.path_indices {
            Some(b) => b,
            None => return None,
        };
        let ghost sv = sibling_values(siblings);
        let leaf = poseidon_hash1(&secret);
        let nullifier = poseidon_hash1(&secret);
        let mut levels: Vec<Vec<Fp>> = Vec::new();
        let mut current = leaf;
        let mut i: usize = 0;
        while i < DEPTH
            invariant
                i <= DEPTH,
                levels@.len() == i,
                current.wf(),
                leaf.wf(),
                forall|j: int| 0 <= j < 3 ==> (#[trigger] siblings[j]).wf(),
                sv == sibling_values(siblings),
                current.value() == node_at(leaf.value(), sv, bits@, i as nat),
                forall|j: int|
                    0 <= j < i ==> row_wf((#[trigger] levels@[j])@) && row_values(levels@[j]@)
                        == level_row(node_at(leaf.value(), sv, bits@, j as nat), sv[j], bits@[j]),
            decreases DEPTH - i,
        {
            let sib = siblings[i];
            let bit = bits[i];
            let pi = if bit {
                fp_from_u64(1)
            } else {
                fp_from_u64(0)
            };
            let (left, right) = if bit {
                (sib, current)
            } else {
                (current, sib)
            };
            let row = vec![current, sib, pi, left, right];
            assert(row_values(row@) =~= level_row(current.value(), sv[i as int], bits@[i as int]));
            assert(sv[i as int] == sib.value());
            current = poseidon_hash2(&left, &right);
            levels.push(row);
            i = i + 1;
        }
        let w = MerkleWitness { secret, leaf, nullifier, levels, root: current };
        assert(w@.levels =~= witness_spec(secret.value(), sv, bits@).levels);
        Some(w)
    }
}

/// The public root and nullifier of a secret and its path.
pub fn compute_public(secret: &Fp, siblings: &[Fp; 3], path_indices: &[bool; 3]) -> (r: (Fp, Fp))
    requires
        secret.wf(),
        forall|i: int| 0 <= i < 3 ==> (#[trigger] siblings[i]).wf(),
    ensures
        r.0.wf(),
        r.1.wf(),
        r.0.value() == merkle_root(secret.value(), sibling_values(*siblings), path_indices@),
        r.1.value() == merkle_nullifier(secret.value()),
{
    let circuit = MerkleCircuit {
        secret: Some(*secret),
        siblings: Some(*siblings),
        path_indices: Some(*path_indices),
    };
    let w = circuit.synthesize().unwrap();
    (w.root, w.nullifier)
}

/// Regions before `k` hold, so the search for a failing one may start at `k`.
proof fn lemma_first_failing_skip(w: WitnessModel, instance: Seq<nat>, k: nat)
    requires
        k <= num_regions(),
        forall|j: nat| j < k ==> #[trigger] region_holds(w, instance, j),
    ensures
        first_failing(w, instance, 0) == first_failing(w, instance, k),
    decreases k,
{
    if k > 0 {
        lemma_first_failing_skip(w, instance, (k - 1) as nat);
        assert(region_holds(w, instance, (k - 1) as nat));
    }
}

fn check_region(
    w: &MerkleWitness,
    instance: &Vec<Fp>,
    gate: &Gate,
    sel: &Vec<bool>,
    k: usize,
) -> (r: bool)
    requires
        w.wf(),
        row_wf(instance@),
        shape_ok(w@, row_values(instance@)),
        k < num_regions(),
        sel@ == seq![true],
        forall|i: int| 0 <= i < gate.polys@.len() ==> expr_wf(#[trigger] gate.polys@[i], ROW_WIDTH as nat, 1),
        forall|row: Seq<nat>|
            row.len() == ROW_WIDTH ==> (all_vanish(gate.polys@, row, seq![true])
                <==> #[trigger] swap_gate_holds(row)),
    ensures
        r == region_holds(w@, row_values(instance@), k as nat),
{
    let ghost inst = row_values(instance@);
    assert(w@.levels.len() == w.levels@.len());
    if k == 0 {
        let h = poseidon_hash1(&w.secret);
        fp_equal(&w.leaf, &h)
    } else if k == 1 {
        let h = poseidon_hash1(&w.secret);
        fp_equal(&w.nullifier, &h)
    } else if k < 2 + DEPTH {
        let i = k - 2;
        let row = &w.levels[i];
        assert(w@.levels[i as int] == row_values(row@));
        assert(row@.len() == ROW_WIDTH);
        assert(row_wf(row@));
        let gate_ok = check_gate(gate, row, sel).is_ok();
        assert(row_values(row@)[CURRENT as int] == row@[CURRENT as int].value());
        let copy_ok = if i == 0 {
            fp_equal(&row[CURRENT], &w.leaf)
        } else {
            let prev = &w.levels[i - 1];
            assert(w@.levels[i - 1] == row_values(prev@));
            assert(prev@.len() == ROW_WIDTH);
            assert(row_wf(prev@));
            assert(row_values(prev@)[LEFT as int] == prev@[LEFT as int].value());
            assert(row_values(prev@)[RIGHT as int] == prev@[RIGHT as int].value());
            let h = poseidon_hash2(&prev[LEFT], &prev[RIGHT]);
            fp_equal(&row[CURRENT], &h)
        };
        gate_ok && copy_ok
    } else if k == 2 + DEPTH {
        let last = &w.levels[DEPTH - 1];
        assert(w@.levels[DEPTH - 1] == row_values(last@));
        assert(last@.len() == ROW_WIDTH);
        assert(row_wf(last@));
        assert(row_values(last@)[LEFT as int] == last@[LEFT as int].value());
        assert(row_values(last@)[RIGHT as int] == last@[RIGHT as int].value());
        let h = poseidon_hash2(&last[LEFT], &last[RIGHT]);
        fp_equal(&w.root, &h)
    } else if k == 3 + DEPTH {
        assert(inst[0] == instance@[0].value());
        fp_equal(&instance[0], &w.root)
    } else {
        assert(inst[1] == instance@[1].value());
        fp_equal(&instance[1], &w.nullifier)
    }
}

/// Checks a witness against the public values [root, nullifier]: the
/// hashes, the swap gate and the copies between levels, and the two public
/// bindings. An error names the first region whose constraints fail.
pub fn check_witness(w: &MerkleWitness, instance: &Vec<Fp>) -> (r: Result<(), CircuitError>)
    requires
        w.wf(),
        row_wf(instance@),
    ensures
        r == check_spec(w@, row_values(instance@)),
{
    let ghost inst = row_values(instance@);
    if w.levels.len() != DEPTH || instance.len() != 2 {
        return Err(CircuitError::Malformed);
    }
    let mut i: usize = 0;
    while i < DEPTH
        invariant
            i <= DEPTH,
            w.levels@.len() == DEPTH,
            forall|j: int| 0 <= j < i ==> (#[trigger] w@.levels[j]).len() == ROW_WIDTH,
        decreases DEPTH - i,
    {
        if w.levels[i].len() != ROW_WIDTH {
            assert(w@.levels[i as int].len() != ROW_WIDTH);
            return Err(CircuitError::Malformed);
        }
        i = i + 1;
    }
    assert(shape_ok(w@, inst));
    let gate = configure_swap_gate();
    let sel = vec![true];
    let mut k: usize = 0;
    while k < DEPTH + 5
        invariant
            k <= num_regions(),
            w.wf(),
            row_wf(instance@),
            inst == row_values(instance@),
            shape_ok(w@, inst),
            sel@ == seq![true],
            forall|i: int| 0 <= i < gate.polys@.len() ==> expr_wf(#[trigger] gate.polys@[i], ROW_WIDTH as nat, 1),
            forall|row: Seq<nat>|
                row.len() == ROW_WIDTH ==> (all_vanish(gate.polys@, row, seq![true])
                    <==> #[trigger] swap_gate_holds(row)),
            forall|j: nat| j < k ==> #[trigger] region_holds(w@, inst, j),
        decreases num_regions() - k,
    {
        if !check_region(w, instance, &gate, &sel, k) {
            proof {
                lemma_first_failing_skip(w@, inst, k as nat);
            }
            return Err(CircuitError::ConstraintUnsatisfied(k));
        }
        k = k + 1;
    }
    proof {
        lemma_first_failing_skip(w@, inst, k as nat);
    }
    Ok(())
}

/// A path_index of p - k, that is -k in the field, with k from 1 up to 2^126,
/// fails the boolean constraint whatever the other cells of the row hold.
pub proof fn lemma_bool_constraint_rejects_negatives(row: Seq<nat>, k: nat)
    requires
        row.len() == ROW_WIDTH,
        1 <= k < 0x4000_0000_0000_0000_0000_0000_0000_0000,
        row[2] == fp_modulus() - k,
    ensures
        !swap_gate_holds(row),
{
    let p = fp_modulus() as int;
    let v = row[2] as int;
    let x = k * (k + 1);
    assert(0 < x < 0x4000_0000_0000_0000_0000_0000_0000_0000 * 0x4000_0000_0000_0000_0000_0000_0000_0000 + 0x4000_0000_0000_0000_0000_0000_0000_0000)
        by (nonlinear_arith)
        requires
            1 <= k < 0x4000_0000_0000_0000_0000_0000_0000_0000,
            x == k * (k + 1),
    ;
    assert(bool_constraint(v) == p * (1 - p + 2 * k) + (-x)) by (nonlinear_arith)
        requires
            v == p - k,
            x == k * (k + 1),
    ;
    vstd::arithmetic::div_mod::lemma_mod_multiples_vanish(1 - p + 2 * k, -x, p);
    lemma_small_multiple_of_modulus(-x);
}

} // verus!
