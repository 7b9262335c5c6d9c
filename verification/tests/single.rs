use struqture_spins::{
    Phase, Prefactor, SingleDecoherenceOperator, SinglePauliOperator, SinglePlusMinusOperator,
    StruqtureError,
};

type P = SinglePauliOperator;
type D = SingleDecoherenceOperator;
type M = SinglePlusMinusOperator;

fn pf(phase: Phase, halvings: usize) -> Prefactor {
    Prefactor { phase, halvings }
}

#[test]
fn single_pauli_multiplication_table() {
    assert_eq!(SinglePauliOperator::multiply(P::Identity, P::Y), (P::Y, Phase::One));
    assert_eq!(SinglePauliOperator::multiply(P::Z, P::Identity), (P::Z, Phase::One));
    assert_eq!(SinglePauliOperator::multiply(P::X, P::X), (P::Identity, Phase::One));
    assert_eq!(SinglePauliOperator::multiply(P::X, P::Y), (P::Z, Phase::I));
    assert_eq!(SinglePauliOperator::multiply(P::Y, P::X), (P::Z, Phase::MinusI));
    assert_eq!(SinglePauliOperator::multiply(P::Y, P::Z), (P::X, Phase::I));
    assert_eq!(SinglePauliOperator::multiply(P::Z, P::Y), (P::X, Phase::MinusI));
    assert_eq!(SinglePauliOperator::multiply(P::Z, P::X), (P::Y, Phase::I));
    assert_eq!(SinglePauliOperator::multiply(P::X, P::Z), (P::Y, Phase::MinusI));
}

#[test]
fn single_pauli_string_form() {
    assert_eq!(SinglePauliOperator::from_str("X"), Ok(SinglePauliOperator::X));
    assert_eq!(SinglePauliOperator::from_str("I"), Ok(SinglePauliOperator::Identity));
    assert_eq!(
        SinglePauliOperator::from_str("x"),
        Err(StruqtureError::IncorrectPauliEntry { pauli: "x".to_string() })
    );
    assert_eq!(SinglePauliOperator::Y.to_string(), "Y");
    assert_eq!(SinglePauliOperator::Identity.to_string(), "I");
    let parsed: SinglePauliOperator = "Z".parse().unwrap();
    assert_eq!(parsed, SinglePauliOperator::Z);
    assert_eq!(SinglePauliOperator::default(), SinglePauliOperator::Identity);
}

#[test]
fn single_decoherence_multiplication_table() {
    assert_eq!(SingleDecoherenceOperator::multiply(D::Identity, D::IY), (D::IY, 1));
    assert_eq!(SingleDecoherenceOperator::multiply(D::X, D::X), (D::Identity, 1));
    assert_eq!(SingleDecoherenceOperator::multiply(D::X, D::IY), (D::Z, -1));
    assert_eq!(SingleDecoherenceOperator::multiply(D::X, D::Z), (D::IY, -1));
    assert_eq!(SingleDecoherenceOperator::multiply(D::IY, D::X), (D::Z, 1));
    assert_eq!(SingleDecoherenceOperator::multiply(D::IY, D::IY), (D::Identity, -1));
    assert_eq!(SingleDecoherenceOperator::multiply(D::IY, D::Z), (D::X, -1));
    assert_eq!(SingleDecoherenceOperator::multiply(D::Z, D::X), (D::IY, 1));
    assert_eq!(SingleDecoherenceOperator::multiply(D::Z, D::IY), (D::X, 1));
    assert_eq!(SingleDecoherenceOperator::multiply(D::Z, D::Z), (D::Identity, 1));
}

#[test]
fn single_decoherence_conversions() {
    assert_eq!(SingleDecoherenceOperator::decoherence_to_spin(D::IY), (SinglePauliOperator::Y, Phase::I));
    assert_eq!(SingleDecoherenceOperator::decoherence_to_spin(D::X), (SinglePauliOperator::X, Phase::One));
    assert_eq!(SingleDecoherenceOperator::spin_to_decoherence(SinglePauliOperator::Y), (D::IY, Phase::MinusI));
    assert_eq!(SingleDecoherenceOperator::spin_to_decoherence(SinglePauliOperator::Z), (D::Z, Phase::One));
    assert_eq!(D::IY.hermitian_conjugate(), (D::IY, -1));
    assert_eq!(D::X.hermitian_conjugate(), (D::X, 1));
    assert_eq!(SingleDecoherenceOperator::from_str("iY"), Ok(D::IY));
    assert_eq!(
        SingleDecoherenceOperator::from_str("Y"),
        Err(StruqtureError::IncorrectPauliEntry { pauli: "Y".to_string() })
    );
    assert_eq!(D::IY.to_string(), "iY");
}

#[test]
fn single_plus_minus_multiplication_table() {
    assert_eq!(SinglePlusMinusOperator::multiply(M::Plus, M::Plus), vec![]);
    assert_eq!(SinglePlusMinusOperator::multiply(M::Minus, M::Minus), vec![]);
    assert_eq!(
        SinglePlusMinusOperator::multiply(M::Plus, M::Minus),
        vec![(M::Z, pf(Phase::One, 1)), (M::Identity, pf(Phase::One, 1))]
    );
    assert_eq!(
        SinglePlusMinusOperator::multiply(M::Minus, M::Plus),
        vec![(M::Z, pf(Phase::MinusOne, 1)), (M::Identity, pf(Phase::One, 1))]
    );
    assert_eq!(SinglePlusMinusOperator::multiply(M::Plus, M::Z), vec![(M::Plus, pf(Phase::MinusOne, 0))]);
    assert_eq!(SinglePlusMinusOperator::multiply(M::Z, M::Plus), vec![(M::Plus, pf(Phase::One, 0))]);
    assert_eq!(SinglePlusMinusOperator::multiply(M::Minus, M::Z), vec![(M::Minus, pf(Phase::One, 0))]);
    assert_eq!(SinglePlusMinusOperator::multiply(M::Z, M::Minus), vec![(M::Minus, pf(Phase::MinusOne, 0))]);
    assert_eq!(SinglePlusMinusOperator::multiply(M::Z, M::Z), vec![(M::Identity, pf(Phase::One, 0))]);
    assert_eq!(SinglePlusMinusOperator::multiply(M::Identity, M::Minus), vec![(M::Minus, pf(Phase::One, 0))]);
}

#[test]
fn single_plus_minus_conversions() {
    assert_eq!(
        M::Plus.to_pauli_terms(),
        vec![(SinglePauliOperator::X, pf(Phase::One, 1)), (SinglePauliOperator::Y, pf(Phase::I, 1))]
    );
    assert_eq!(
        M::Minus.to_pauli_terms(),
        vec![(SinglePauliOperator::X, pf(Phase::One, 1)), (SinglePauliOperator::Y, pf(Phase::MinusI, 1))]
    );
    assert_eq!(
        SinglePlusMinusOperator::from_pauli(SinglePauliOperator::Y),
        vec![(M::Plus, pf(Phase::MinusI, 0)), (M::Minus, pf(Phase::I, 0))]
    );
    assert_eq!(
        M::Minus.to_decoherence_terms(),
        vec![(SingleDecoherenceOperator::X, pf(Phase::One, 1)), (SingleDecoherenceOperator::IY, pf(Phase::MinusOne, 1))]
    );
    assert_eq!(
        SinglePlusMinusOperator::from_decoherence(SingleDecoherenceOperator::X),
        vec![(M::Plus, pf(Phase::One, 0)), (M::Minus, pf(Phase::One, 0))]
    );
    assert_eq!(M::Z.to_pauli_terms(), vec![(SinglePauliOperator::Z, pf(Phase::One, 0))]);
    assert_eq!(SinglePlusMinusOperator::from_str("+"), Ok(M::Plus));
    assert_eq!(SinglePlusMinusOperator::from_str("-"), Ok(M::Minus));
    assert_eq!(
        SinglePlusMinusOperator::from_str("X"),
        Err(StruqtureError::IncorrectPauliEntry { pauli: "X".to_string() })
    );
    assert_eq!(M::Minus.to_string(), "-");
}

#[test]
fn phase_and_prefactor_arithmetic() {
    assert_eq!(Phase::I.mul(Phase::I), Phase::MinusOne);
    assert_eq!(Phase::I.mul(Phase::MinusI), Phase::One);
    assert_eq!(Phase::MinusOne.mul(Phase::MinusI), Phase::I);
    assert_eq!(Phase::I.conj(), Phase::MinusI);
    assert_eq!(Phase::MinusOne.conj(), Phase::MinusOne);
    assert_eq!(Phase::from_sign(-1), Phase::MinusOne);
    assert_eq!(Phase::from_sign(1), Phase::One);
    assert_eq!(Phase::MinusI.parts(), (0, -1));
    assert_eq!(Phase::MinusOne.parts(), (-1, 0));
    assert_eq!(pf(Phase::I, 1).mul(pf(Phase::I, 2)), pf(Phase::MinusOne, 3));
    assert_eq!(Prefactor::one(), pf(Phase::One, 0));
}

fn plus_minus_matrix(op: SinglePlusMinusOperator) -> [[i32; 2]; 2] {
    match op {
        SinglePlusMinusOperator::Identity => [[1, 0], [0, 1]],
        SinglePlusMinusOperator::Plus => [[0, 1], [0, 0]],
        SinglePlusMinusOperator::Minus => [[0, 0], [1, 0]],
        SinglePlusMinusOperator::Z => [[1, 0], [0, -1]],
    }
}

#[test]
fn plus_minus_table_is_matrix_product() {
    let ops = [
        SinglePlusMinusOperator::Identity,
        SinglePlusMinusOperator::Plus,
        SinglePlusMinusOperator::Minus,
        SinglePlusMinusOperator::Z,
    ];
    for a in ops {
        for b in ops {
            let (ma, mb) = (plus_minus_matrix(a), plus_minus_matrix(b));
            let terms = SinglePlusMinusOperator::multiply(a, b);
            for r in 0..2 {
                for c in 0..2 {
                    let product = 2 * (ma[r][0] * mb[0][c] + ma[r][1] * mb[1][c]);
                    let mut sum = 0;
                    for (op, pf) in &terms {
                        let (re, im) = pf.phase.parts();
                        assert_eq!(im, 0);
                        let scale = if pf.halvings == 0 { 2 } else { 1 };
                        sum += re as i32 * scale * plus_minus_matrix(*op)[r][c];
                    }
                    assert_eq!(sum, product);
                }
            }
        }
    }
}
