use ff::{Field, PrimeField};
use halo2_gadgets::poseidon::primitives as poseidon;
use halo2_gadgets::poseidon::primitives::{ConstantLength, P128Pow5T3};
use pasta_curves::pallas::Base;
use zkblocks::constraint::{check_gate, evaluate, Expression};
use zkblocks::merkle::{
    check_witness, compute_public, configure_swap_gate, CircuitError, MerkleCircuit,
};
use zkblocks::pallas::{fp_equal, fp_is_zero, Fp};

fn lib(x: Base) -> Fp {
    Fp { repr: x.to_repr() }
}

fn fp_from_u64(v: u64) -> Fp {
    lib(Base::from(v))
}

fn hash1(x: Base) -> Base {
    poseidon::Hash::<_, P128Pow5T3, ConstantLength<1>, 3, 2>::init().hash([x])
}

fn hash2(x: Base, y: Base) -> Base {
    poseidon::Hash::<_, P128Pow5T3, ConstantLength<2>, 3, 2>::init().hash([x, y])
}

fn expected_root(secret: Base, siblings: [Base; 3], path_indices: [bool; 3]) -> Base {
    let mut current = hash1(secret);
    for i in 0..3 {
        let (left, right) = if path_indices[i] {
            (siblings[i], current)
        } else {
            (current, siblings[i])
        };
        current = hash2(left, right);
    }
    current
}

fn run(secret: Base, siblings: [Base; 3], path_indices: [bool; 3]) -> Result<(), CircuitError> {
    let root = expected_root(secret, siblings, path_indices);
    let nullifier = hash1(secret);
    let circuit = MerkleCircuit {
        secret: Some(lib(secret)),
        siblings: Some(siblings.map(lib)),
        path_indices: Some(path_indices),
    };
    let witness = circuit.synthesize().unwrap();
    check_witness(&witness, &vec![lib(root), lib(nullifier)])
}

#[test]
fn test_merkle_left_path() {
    let secret = Base::from(12345);
    let siblings = [Base::zero(); 3];
    let path_indices = [false; 3];
    assert_eq!(run(secret, siblings, path_indices), Ok(()));
}

#[test]
fn test_merkle_right_path() {
    let secret = Base::from(67890);
    let siblings = [Base::from(111), Base::from(222), Base::from(333)];
    let path_indices = [true; 3];
    assert_eq!(run(secret, siblings, path_indices), Ok(()));
}

#[test]
fn test_merkle_mixed_path() {
    let secret = Base::from(99999);
    let siblings = [Base::from(10), Base::from(20), Base::from(30)];
    let path_indices = [false, true, false];
    assert_eq!(run(secret, siblings, path_indices), Ok(()));
}

#[test]
fn public_values_match_poseidon() {
    let secret = Base::from(12345);
    let siblings = [Base::zero(); 3];
    let (root, nullifier) = compute_public(&lib(secret), &siblings.map(lib), &[false; 3]);
    let leaf = hash1(secret);
    let by_hand = hash2(hash2(hash2(leaf, Base::zero()), Base::zero()), Base::zero());
    assert_eq!(root, lib(by_hand));
    assert_eq!(nullifier, lib(leaf));
    assert_ne!(nullifier, lib(secret));
    let (right_root, _) = compute_public(&lib(secret), &siblings.map(lib), &[true, false, false]);
    let by_hand = hash2(hash2(hash2(Base::zero(), leaf), Base::zero()), Base::zero());
    assert_eq!(right_root, lib(by_hand));
    assert_ne!(right_root, root);
}

#[test]
fn root_off_by_one_fails() {
    let secret = Base::from(12345);
    let siblings = [Base::zero(); 3];
    let circuit = MerkleCircuit {
        secret: Some(lib(secret)),
        siblings: Some(siblings.map(lib)),
        path_indices: Some([false; 3]),
    };
    let witness = circuit.synthesize().unwrap();
    let root = expected_root(secret, siblings, [false; 3]);
    let nullifier = hash1(secret);
    let good = vec![lib(root), lib(nullifier)];
    assert_eq!(check_witness(&witness, &good), Ok(()));
    let bad = vec![lib(root + Base::one()), lib(nullifier)];
    assert_eq!(check_witness(&witness, &bad), Err(CircuitError::ConstraintUnsatisfied(6)));
    let bad_nullifier = vec![lib(root), lib(nullifier + Base::one())];
    assert_eq!(
        check_witness(&witness, &bad_nullifier),
        Err(CircuitError::ConstraintUnsatisfied(7))
    );
}

#[test]
fn reversed_swap_fails() {
    let secret = Base::from(67890);
    let siblings = [Base::from(111), Base::from(222), Base::from(333)];
    let circuit = MerkleCircuit {
        secret: Some(lib(secret)),
        siblings: Some(siblings.map(lib)),
        path_indices: Some([true; 3]),
    };
    let mut witness = circuit.synthesize().unwrap();
    let row = &mut witness.levels[1];
    row.swap(3, 4);
    let root = expected_root(secret, siblings, [true; 3]);
    let instance = vec![lib(root), lib(hash1(secret))];
    assert_eq!(check_witness(&witness, &instance), Err(CircuitError::ConstraintUnsatisfied(3)));
}

#[test]
fn non_boolean_path_index_fails() {
    let gate = configure_swap_gate();
    assert_eq!(gate.name, "swap");
    assert_eq!(gate.polys.len(), 3);
    // The boolean constraint alone is -2 at path_index 2.
    let row = vec![fp_from_u64(0), fp_from_u64(0), fp_from_u64(2), fp_from_u64(0), fp_from_u64(0)];
    assert_eq!(evaluate(&gate.polys[0], &row, &vec![true]), lib(-Base::from(2)));
    assert_eq!(evaluate(&gate.polys[1], &row, &vec![true]), lib(Base::zero()));
    // Reversed cells at path_index 1 leave current - sibling and sibling - current.
    let rev = vec![fp_from_u64(5), fp_from_u64(9), fp_from_u64(1), fp_from_u64(5), fp_from_u64(9)];
    assert_eq!(evaluate(&gate.polys[1], &rev, &vec![true]), lib(Base::from(5) - Base::from(9)));
    assert_eq!(evaluate(&gate.polys[2], &rev, &vec![true]), lib(Base::from(9) - Base::from(5)));
    let cur = fp_from_u64(5);
    let sib = fp_from_u64(9);
    let two = fp_from_u64(2);
    // With path_index 2 the select constraints alone would accept
    // left = 2 * sibling - current, right = 2 * current - sibling.
    let left = lib(Base::from(18) - Base::from(5));
    let right = lib(Base::from(10) - Base::from(9));
    let row = vec![cur, sib, two, left, right];
    assert_eq!(check_gate(&gate, &row, &vec![true]), Err(0));
    assert_eq!(check_gate(&gate, &row, &vec![false]), Ok(()));
    let ok_row = vec![cur, sib, fp_from_u64(1), sib, cur];
    assert_eq!(check_gate(&gate, &ok_row, &vec![true]), Ok(()));
    let reversed = vec![cur, sib, fp_from_u64(1), cur, sib];
    assert_eq!(check_gate(&gate, &reversed, &vec![true]), Err(1));
    let minus_one = lib(-Base::one());
    let row = vec![cur, sib, minus_one, fp_from_u64(0), fp_from_u64(0)];
    assert_eq!(check_gate(&gate, &row, &vec![true]), Err(0));
}

#[test]
fn non_boolean_witness_fails_in_circuit() {
    let secret = Base::from(12345);
    let siblings = [Base::zero(); 3];
    let circuit = MerkleCircuit {
        secret: Some(lib(secret)),
        siblings: Some(siblings.map(lib)),
        path_indices: Some([false; 3]),
    };
    let mut witness = circuit.synthesize().unwrap();
    witness.levels[0][2] = fp_from_u64(2);
    let root = expected_root(secret, siblings, [false; 3]);
    let instance = vec![lib(root), lib(hash1(secret))];
    assert_eq!(check_witness(&witness, &instance), Err(CircuitError::ConstraintUnsatisfied(2)));
}

#[test]
fn unknown_witnesses_give_no_assignment() {
    let circuit = MerkleCircuit {
        secret: Some(fp_from_u64(1)),
        siblings: Some([fp_from_u64(0); 3]),
        path_indices: Some([false; 3]),
    };
    let blank = circuit.without_witnesses();
    assert!(blank.secret.is_none() && blank.siblings.is_none() && blank.path_indices.is_none());
    assert!(blank.synthesize().is_none());
    assert!(circuit.synthesize().is_some());
}

#[test]
fn malformed_witness_is_reported() {
    let circuit = MerkleCircuit {
        secret: Some(fp_from_u64(1)),
        siblings: Some([fp_from_u64(0); 3]),
        path_indices: Some([false; 3]),
    };
    let mut witness = circuit.synthesize().unwrap();
    assert_eq!(check_witness(&witness, &vec![fp_from_u64(0)]), Err(CircuitError::Malformed));
    witness.levels.pop();
    let instance = vec![fp_from_u64(0), fp_from_u64(0)];
    assert_eq!(check_witness(&witness, &instance), Err(CircuitError::Malformed));
}

#[test]
fn field_operations_match_pasta() {
    let a = Base::from(123456789);
    let b = -Base::from(987654321);
    let e = Expression::Product(
        Box::new(Expression::Sum(
            Box::new(Expression::Advice(0)),
            Box::new(Expression::Negated(Box::new(Expression::Advice(1)))),
        )),
        Box::new(Expression::Constant(lib(Base::from(7)))),
    );
    let v = evaluate(&e, &vec![lib(a), lib(b)], &vec![]);
    assert_eq!(v, lib((a - b) * Base::from(7)));
    assert!(fp_is_zero(&fp_from_u64(0)));
    assert!(!fp_is_zero(&lib(b)));
    assert!(fp_equal(&lib(b), &lib(b)));
    assert!(!fp_equal(&lib(a), &lib(b)));
    let one = Expression::Constant(lib(Base::one()));
    let selected = Expression::Product(Box::new(Expression::Selector(0)), Box::new(one));
    assert_eq!(evaluate(&selected, &vec![], &vec![true]), lib(Base::one()));
    assert_eq!(evaluate(&selected, &vec![], &vec![false]), lib(Base::zero()));
}
