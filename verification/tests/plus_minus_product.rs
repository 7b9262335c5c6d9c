use std::collections::HashMap;
use std::cmp::Ordering;
use struqture_spins::{
    DecoherenceProduct, PauliProduct, Phase, PlusMinusProduct, Prefactor, SinglePlusMinusOperator,
    StruqtureError,
};

fn pf(phase: Phase, halvings: usize) -> Prefactor {
    Prefactor { phase, halvings }
}

#[test]
fn plus_minus_product_build_and_read() {
    let pm = PlusMinusProduct::new().plus(0).minus(2).z(3);
    assert_eq!(pm.to_string(), "0+2-3Z");
    assert_eq!(pm.get(&2), Some(&SinglePlusMinusOperator::Minus));
    assert_eq!(pm.get(&1), None);
    assert_eq!(pm.len(), 3);
    assert_eq!(pm.current_number_spins(), 3);
    assert_eq!(PlusMinusProduct::new().plus(3).minus(1).current_number_spins(), 3);
    assert_eq!(PlusMinusProduct::new().current_number_spins(), 0);
    assert!(PlusMinusProduct::new().is_empty());
    assert_eq!(PlusMinusProduct::new().to_string(), "I");
    assert_eq!(PlusMinusProduct::default(), PlusMinusProduct::with_capacity(9));
    let changed = pm.clone().set_pauli(0, SinglePlusMinusOperator::Z);
    assert_eq!(changed.to_string(), "0Z2-3Z");
}

#[test]
fn plus_minus_product_hermitian_conjugate() {
    let pm = PlusMinusProduct::new().plus(0).minus(1).z(2);
    let (conj, prefactor) = pm.hermitian_conjugate();
    assert_eq!(conj.to_string(), "0-1+2Z");
    assert_eq!(prefactor, 1);
    assert_eq!(conj.hermitian_conjugate().0, pm);
    assert!(!pm.is_natural_hermitian());
    assert!(PlusMinusProduct::new().z(0).z(4).is_natural_hermitian());
    assert!(PlusMinusProduct::new().is_natural_hermitian());
}

#[test]
fn plus_minus_product_from_str() {
    assert_eq!(
        PlusMinusProduct::from_str("0+1-25Z").unwrap(),
        PlusMinusProduct::new().plus(0).minus(1).z(25)
    );
    assert_eq!(PlusMinusProduct::from_str("I").unwrap(), PlusMinusProduct::new());
    assert_eq!(PlusMinusProduct::from_str("").unwrap(), PlusMinusProduct::new());
    assert_eq!(PlusMinusProduct::from_str("2Z0+").unwrap().to_string(), "0+2Z");
    assert_eq!(
        PlusMinusProduct::from_str("+0"),
        Err(StruqtureError::FromStringFailed {
            msg: "Missing spin index in the following PlusMinusProduct: +0".to_string()
        })
    );
    assert_eq!(
        PlusMinusProduct::from_str("0X"),
        Err(StruqtureError::IncorrectPauliEntry { pauli: "X".to_string() })
    );
    assert_eq!(
        PlusMinusProduct::from_str("1+1-"),
        Err(StruqtureError::FromStringFailed {
            msg: "At least one spin index is used more than once.".to_string()
        })
    );
    let parsed: PlusMinusProduct = "3-".parse().unwrap();
    assert_eq!(parsed, PlusMinusProduct::new().minus(3));
}

#[test]
fn plus_minus_product_string_roundtrip() {
    for pm in [
        PlusMinusProduct::new(),
        PlusMinusProduct::new().minus(0),
        PlusMinusProduct::new().plus(1).z(11).minus(111),
    ] {
        assert_eq!(PlusMinusProduct::from_str(&pm.to_string()).unwrap(), pm);
    }
}

#[test]
fn plus_minus_product_concatenate_remap_order() {
    let a = PlusMinusProduct::new().plus(0);
    let b = PlusMinusProduct::new().minus(1);
    let joined = a.concatenate(b).unwrap();
    assert_eq!(joined.to_string(), "0+1-");
    assert_eq!(
        joined.concatenate(PlusMinusProduct::new().z(1)),
        Err(StruqtureError::ProductIndexAlreadyOccupied { index: 1 })
    );
    let mut mapping: HashMap<usize, usize> = HashMap::new();
    mapping.insert(0, 7);
    assert_eq!(joined.remap_qubits(&mapping).to_string(), "1-7+");
    assert_eq!(a.compare(&joined), Ordering::Less);
    assert_eq!(a.compare(&PlusMinusProduct::new().minus(0)), Ordering::Less);
    assert_eq!(joined.compare(&joined.clone()), Ordering::Equal);
}

#[test]
fn plus_minus_product_from_pauli_product() {
    // 0X 1Y = (0+ + 0-)(-i 1+ + i 1-)
    let terms = PlusMinusProduct::from_pauli_product(PauliProduct::new().x(0).y(1));
    assert_eq!(
        terms,
        vec![
            (PlusMinusProduct::new().plus(0).plus(1), pf(Phase::MinusI, 0)),
            (PlusMinusProduct::new().minus(0).plus(1), pf(Phase::MinusI, 0)),
            (PlusMinusProduct::new().plus(0).minus(1), pf(Phase::I, 0)),
            (PlusMinusProduct::new().minus(0).minus(1), pf(Phase::I, 0)),
        ]
    );
    let z = PlusMinusProduct::from_pauli_product(PauliProduct::new().z(2));
    assert_eq!(z, vec![(PlusMinusProduct::new().z(2), pf(Phase::One, 0))]);
    let identity = PlusMinusProduct::from_pauli_product(PauliProduct::new());
    assert_eq!(identity, vec![(PlusMinusProduct::new(), pf(Phase::One, 0))]);
}

#[test]
fn plus_minus_product_from_decoherence_product() {
    // 0iY = 0+ - 0-
    let terms = PlusMinusProduct::from_decoherence_product(DecoherenceProduct::new().iy(0));
    assert_eq!(
        terms,
        vec![
            (PlusMinusProduct::new().plus(0), pf(Phase::One, 0)),
            (PlusMinusProduct::new().minus(0), pf(Phase::MinusOne, 0)),
        ]
    );
}

#[test]
fn plus_minus_product_to_pauli_products() {
    // 0+ 1- = (X + iY)/2 (X - iY)/2
    let terms = PlusMinusProduct::new().plus(0).minus(1).to_pauli_products();
    assert_eq!(
        terms,
        vec![
            (PauliProduct::new().x(0).x(1), pf(Phase::One, 2)),
            (PauliProduct::new().y(0).x(1), pf(Phase::I, 2)),
            (PauliProduct::new().x(0).y(1), pf(Phase::MinusI, 2)),
            (PauliProduct::new().y(0).y(1), pf(Phase::One, 2)),
        ]
    );
}

#[test]
fn plus_minus_product_to_decoherence_products() {
    // 0- = (X - iY)/2
    let terms = PlusMinusProduct::new().minus(0).to_decoherence_products();
    assert_eq!(
        terms,
        vec![
            (DecoherenceProduct::new().x(0), pf(Phase::One, 1)),
            (DecoherenceProduct::new().iy(0), pf(Phase::MinusOne, 1)),
        ]
    );
}

#[test]
fn plus_minus_product_from_iter_and_extend() {
    let pm = PlusMinusProduct::from_iter(vec![(3, SinglePlusMinusOperator::Plus), (1, SinglePlusMinusOperator::Z)]);
    assert_eq!(pm.to_string(), "1Z3+");
    let mut ext = pm.clone();
    ext.extend(vec![(3, SinglePlusMinusOperator::Minus)]);
    assert_eq!(ext.to_string(), "1Z3-");
    assert_ne!(ext, pm);
}

#[test]
fn plus_minus_product_iter() {
    let pm = PlusMinusProduct::new().plus(0).z(5);
    let entries: Vec<(usize, SinglePlusMinusOperator)> = pm.iter().cloned().collect();
    assert_eq!(entries, vec![(0, SinglePlusMinusOperator::Plus), (5, SinglePlusMinusOperator::Z)]);
    assert_eq!(PlusMinusProduct::new().iter().count(), 0);
    let pp = PauliProduct::new().y(2);
    assert_eq!(pp.iter().next(), Some(&(2, struqture_spins::SinglePauliOperator::Y)));
    let dp = DecoherenceProduct::new().iy(1).x(3);
    assert_eq!(dp.iter().map(|(k, _)| *k).collect::<Vec<usize>>(), vec![1, 3]);
}
