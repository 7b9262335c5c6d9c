//! The single-site operators: Pauli matrices, decoherence matrices and the
//! plus/minus (raising/lowering) basis, with their multiplication tables and
//! the conversions between the bases.

use vstd::prelude::*;
use crate::items::{MultiplicativeOperator, SingleOperator};
use crate::phase::{Phase, Prefactor};
use crate::error::StruqtureError;
use crate::text::{parse_single, push_char, single_to_string};

verus! {

/// A single Pauli matrix: identity, X, Y or Z.
#[derive(Clone, Copy, PartialEq, Eq, Structural, Debug, Hash, PartialOrd, Ord)]
pub enum SinglePauliOperator {
    Identity,
    X,
    Y,
    Z,
}

/// A single decoherence matrix: identity, X, iY (= i times Y) or Z.
#[derive(Clone, Copy, PartialEq, Eq, Structural, Debug, Hash, PartialOrd, Ord)]
pub enum SingleDecoherenceOperator {
    Identity,
    X,
    IY,
    Z,
}

/// A single operator of the plus/minus basis: identity, sigma+, sigma- or Z.
#[derive(Clone, Copy, PartialEq, Eq, Structural, Debug, Hash, PartialOrd, Ord)]
pub enum SinglePlusMinusOperator {
    Identity,
    Plus,
    Minus,
    Z,
}

impl Default for SinglePauliOperator {
    fn default() -> (r: Self)
        ensures
            r == SinglePauliOperator::Identity,
    {
        SinglePauliOperator::Identity
    }
}

impl Default for SingleDecoherenceOperator {
    fn default() -> (r: Self)
        ensures
            r == SingleDecoherenceOperator::Identity,
    {
        SingleDecoherenceOperator::Identity
    }
}

impl Default for SinglePlusMinusOperator {
    fn default() -> (r: Self)
        ensures
            r == SinglePlusMinusOperator::Identity,
    {
        SinglePlusMinusOperator::Identity
    }
}

impl SingleOperator for SinglePauliOperator {
    open spec fn spec_is_identity(self) -> bool {
        self == SinglePauliOperator::Identity
    }

    fn is_identity(&self) -> (r: bool) {
        *self == SinglePauliOperator::Identity
    }

    open spec fn symbol(self) -> Seq<char> {
        match self {
            SinglePauliOperator::Identity => seq!['I'],
            SinglePauliOperator::X => seq!['X'],
            SinglePauliOperator::Y => seq!['Y'],
            SinglePauliOperator::Z => seq!['Z'],
        }
    }

    open spec fn parse_symbol(s: Seq<char>) -> Option<Self> {
        if s =~= seq!['I'] {
            Some(SinglePauliOperator::Identity)
        } else if s =~= seq!['X'] {
            Some(SinglePauliOperator::X)
        } else if s =~= seq!['Y'] {
            Some(SinglePauliOperator::Y)
        } else if s =~= seq!['Z'] {
            Some(SinglePauliOperator::Z)
        } else {
            None
        }
    }

    open spec fn rank(self) -> int {
        match self {
            SinglePauliOperator::Identity => 0,
            SinglePauliOperator::X => 1,
            SinglePauliOperator::Y => 2,
            SinglePauliOperator::Z => 3,
        }
    }

    fn same_as(&self, other: &Self) -> (r: bool) {
        *self == *other
    }

    fn rank_of(&self) -> (r: u8) {
        match self {
            SinglePauliOperator::Identity => 0,
            SinglePauliOperator::X => 1,
            SinglePauliOperator::Y => 2,
            SinglePauliOperator::Z => 3,
        }
    }

    fn push_symbol(&self, s: &mut String) {
        match self {
            SinglePauliOperator::Identity => {
                push_char(s, 'I');
            },
            SinglePauliOperator::X => {
                push_char(s, 'X');
            },
            SinglePauliOperator::Y => {
                push_char(s, 'Y');
            },
            SinglePauliOperator::Z => {
                push_char(s, 'Z');
            },
        }
    }

    fn from_symbol(s: &[char]) -> (r: Option<Self>) {
        let r = if s.len() == 1 {
            if s[0] == 'I' {
                Some(SinglePauliOperator::Identity)
            } else if s[0] == 'X' {
                Some(SinglePauliOperator::X)
            } else if s[0] == 'Y' {
                Some(SinglePauliOperator::Y)
            } else if s[0] == 'Z' {
                Some(SinglePauliOperator::Z)
            } else {
                None
            }
        } else {
            None
        };
        proof {
            if s@.len() == 1 {
                assert(s@ =~= seq!['I'] ==> s@[0] == 'I');
                assert(s@ =~= seq!['X'] ==> s@[0] == 'X');
                assert(s@ =~= seq!['Y'] ==> s@[0] == 'Y');
                assert(s@ =~= seq!['Z'] ==> s@[0] == 'Z');
            }
        }
        r
    }

    proof fn lemma_symbol(self, other: Self) {
        match self {
            SinglePauliOperator::Identity => {
                assert(seq!['I'][0] != seq!['X'][0]);
                assert(seq!['I'][0] != seq!['Y'][0]);
                assert(seq!['I'][0] != seq!['Z'][0]);
            },
            SinglePauliOperator::X => {
                assert(seq!['X'][0] != seq!['I'][0]);
                assert(seq!['X'][0] != seq!['Y'][0]);
                assert(seq!['X'][0] != seq!['Z'][0]);
            },
            SinglePauliOperator::Y => {
                assert(seq!['Y'][0] != seq!['I'][0]);
                assert(seq!['Y'][0] != seq!['X'][0]);
                assert(seq!['Y'][0] != seq!['Z'][0]);
            },
            SinglePauliOperator::Z => {
                assert(seq!['Z'][0] != seq!['I'][0]);
                assert(seq!['Z'][0] != seq!['X'][0]);
                assert(seq!['Z'][0] != seq!['Y'][0]);
            },
        }
    }
}

impl SingleOperator for SingleDecoherenceOperator {
    open spec fn spec_is_identity(self) -> bool {
        self == SingleDecoherenceOperator::Identity
    }

    fn is_identity(&self) -> (r: bool) {
        *self == SingleDecoherenceOperator::Identity
    }

    open spec fn symbol(self) -> Seq<char> {
        match self {
            SingleDecoherenceOperator::Identity => seq!['I'],
            SingleDecoherenceOperator::X => seq!['X'],
            SingleDecoherenceOperator::IY => seq!['i', 'Y'],
            SingleDecoherenceOperator::Z => seq!['Z'],
        }
    }

    open spec fn parse_symbol(s: Seq<char>) -> Option<Self> {
        if s =~= seq!['I'] {
            Some(SingleDecoherenceOperator::Identity)
        } else if s =~= seq!['X'] {
            Some(SingleDecoherenceOperator::X)
        } else if s =~= seq!['i', 'Y'] {
            Some(SingleDecoherenceOperator::IY)
        } else if s =~= seq!['Z'] {
            Some(SingleDecoherenceOperator::Z)
        } else {
            None
        }
    }

    open spec fn rank(self) -> int {
        match self {
            SingleDecoherenceOperator::Identity => 0,
            SingleDecoherenceOperator::X => 1,
            SingleDecoherenceOperator::IY => 2,
            SingleDecoherenceOperator::Z => 3,
        }
    }

    fn same_as(&self, other: &Self) -> (r: bool) {
        *self == *other
    }

    fn rank_of(&self) -> (r: u8) {
        match self {
            SingleDecoherenceOperator::Identity => 0,
            SingleDecoherenceOperator::X => 1,
            SingleDecoherenceOperator::IY => 2,
            SingleDecoherenceOperator::Z => 3,
        }
    }

    fn push_symbol(&self, s: &mut String) {
        match self {
            SingleDecoherenceOperator::Identity => {
                push_char(s, 'I');
            },
            SingleDecoherenceOperator::X => {
                push_char(s, 'X');
            },
            SingleDecoherenceOperator::IY => {
                push_char(s, 'i');
                push_char(s, 'Y');
            },
            SingleDecoherenceOperator::Z => {
                push_char(s, 'Z');
            },
        }
    }

    fn from_symbol(s: &[char]) -> (r: Option<Self>) {
        let r = if s.len() == 1 {
            if s[0] == 'I' {
                Some(SingleDecoherenceOperator::Identity)
            } else if s[0] == 'X' {
                Some(SingleDecoherenceOperator::X)
            } else if s[0] == 'Z' {
                Some(SingleDecoherenceOperator::Z)
            } else {
                None
            }
        } else if s.len() == 2 && s[0] == 'i' && s[1] == 'Y' {
            Some(SingleDecoherenceOperator::IY)
        } else {
            None
        };
        proof {
            if s@.len() == 1 {
                assert(s@ =~= seq!['I'] ==> s@[0] == 'I');
                assert(s@ =~= seq!['X'] ==> s@[0] == 'X');
                assert(s@ =~= seq!['Z'] ==> s@[0] == 'Z');
            }
        }
        r
    }

    proof fn lemma_symbol(self, other: Self) {
        match self {
            SingleDecoherenceOperator::Identity => {
                assert(seq!['I'][0] != seq!['X'][0]);
                assert(seq!['I'].len() != seq!['i', 'Y'].len());
                assert(seq!['I'][0] != seq!['Z'][0]);
            },
            SingleDecoherenceOperator::X => {
                assert(seq!['X'][0] != seq!['I'][0]);
                assert(seq!['X'].len() != seq!['i', 'Y'].len());
                assert(seq!['X'][0] != seq!['Z'][0]);
            },
            SingleDecoherenceOperator::IY => {
                assert(seq!['i', 'Y'].len() != seq!['I'].len());
                assert(seq!['i', 'Y'].len() != seq!['X'].len());
                assert(seq!['i', 'Y'].len() != seq!['Z'].len());
            },
            SingleDecoherenceOperator::Z => {
                assert(seq!['Z'][0] != seq!['I'][0]);
                assert(seq!['Z'][0] != seq!['X'][0]);
                assert(seq!['Z'].len() != seq!['i', 'Y'].len());
            },
        }
    }
}

impl SingleOperator for SinglePlusMinusOperator {
    open spec fn spec_is_identity(self) -> bool {
        self == SinglePlusMinusOperator::Identity
    }

    fn is_identity(&self) -> (r: bool) {
        *self == SinglePlusMinusOperator::Identity
    }

    open spec fn symbol(self) -> Seq<char> {
        match self {
            SinglePlusMinusOperator::Identity => seq!['I'],
            SinglePlusMinusOperator::Plus => seq!['+'],
            SinglePlusMinusOperator::Minus => seq!['-'],
            SinglePlusMinusOperator::Z => seq!['Z'],
        }
    }

    open spec fn parse_symbol(s: Seq<char>) -> Option<Self> {
        if s =~= seq!['I'] {
            Some(SinglePlusMinusOperator::Identity)
        } else if s =~= seq!['+'] {
            Some(SinglePlusMinusOperator::Plus)
        } else if s =~= seq!['-'] {
            Some(SinglePlusMinusOperator::Minus)
        } else if s =~= seq!['Z'] {
            Some(SinglePlusMinusOperator::Z)
        } else {
            None
        }
    }

    open spec fn rank(self) -> int {
        match self {
            SinglePlusMinusOperator::Identity => 0,
            SinglePlusMinusOperator::Plus => 1,
            SinglePlusMinusOperator::Minus => 2,
            SinglePlusMinusOperator::Z => 3,
        }
    }

    fn same_as(&self, other: &Self) -> (r: bool) {
        *self == *other
    }

    fn rank_of(&self) -> (r: u8) {
        match self {
            SinglePlusMinusOperator::Identity => 0,
            SinglePlusMinusOperator::Plus => 1,
            SinglePlusMinusOperator::Minus => 2,
            SinglePlusMinusOperator::Z => 3,
        }
    }

    fn push_symbol(&self, s: &mut String) {
        match self {
            SinglePlusMinusOperator::Identity => {
                push_char(s, 'I');
            },
            SinglePlusMinusOperator::Plus => {
                push_char(s, '+');
            },
            SinglePlusMinusOperator::Minus => {
                push_char(s, '-');
            },
            SinglePlusMinusOperator::Z => {
                push_char(s, 'Z');
            },
        }
    }

    fn from_symbol(s: &[char]) -> (r: Option<Self>) {
        let r = if s.len() == 1 {
            if s[0] == 'I' {
                Some(SinglePlusMinusOperator::Identity)
            } else if s[0] == '+' {
                Some(SinglePlusMinusOperator::Plus)
            } else if s[0] == '-' {
                Some(SinglePlusMinusOperator::Minus)
            } else if s[0] == 'Z' {
                Some(SinglePlusMinusOperator::Z)
            } else {
                None
            }
        } else {
            None
        };
        proof {
            if s@.len() == 1 {
                assert(s@ =~= seq!['I'] ==> s@[0] == 'I');
                assert(s@ =~= seq!['+'] ==> s@[0] == '+');
                assert(s@ =~= seq!['-'] ==> s@[0] == '-');
                assert(s@ =~= seq!['Z'] ==> s@[0] == 'Z');
            }
        }
        r
    }

    proof fn lemma_symbol(self, other: Self) {
        match self {
            SinglePlusMinusOperator::Identity => {
                assert(seq!['I'][0] != seq!['+'][0]);
                assert(seq!['I'][0] != seq!['-'][0]);
                assert(seq!['I'][0] != seq!['Z'][0]);
            },
            SinglePlusMinusOperator::Plus => {
                assert(seq!['+'][0] != seq!['I'][0]);
                assert(seq!['+'][0] != seq!['-'][0]);
                assert(seq!['+'][0] != seq!['Z'][0]);
            },
            SinglePlusMinusOperator::Minus => {
                assert(seq!['-'][0] != seq!['I'][0]);
                assert(seq!['-'][0] != seq!['+'][0]);
                assert(seq!['-'][0] != seq!['Z'][0]);
            },
            SinglePlusMinusOperator::Z => {
                assert(seq!['Z'][0] != seq!['I'][0]);
                assert(seq!['Z'][0] != seq!['+'][0]);
                assert(seq!['Z'][0] != seq!['-'][0]);
            },
        }
    }
}

// ----------------------------------------------------------------------------
// Pauli matrices
// ----------------------------------------------------------------------------

/// Whether `(a, b)` is one of the cyclic pairs (X, Y), (Y, Z), (Z, X).
pub open spec fn pauli_cyclic(a: SinglePauliOperator, b: SinglePauliOperator) -> bool {
    ||| a == SinglePauliOperator::X && b == SinglePauliOperator::Y
    ||| a == SinglePauliOperator::Y && b == SinglePauliOperator::Z
    ||| a == SinglePauliOperator::Z && b == SinglePauliOperator::X
}

/// The Pauli matrix that is neither `a` nor `b` (for two different non-identity matrices).
pub open spec fn pauli_third(a: SinglePauliOperator, b: SinglePauliOperator) -> SinglePauliOperator {
    if a != SinglePauliOperator::X && b != SinglePauliOperator::X {
        SinglePauliOperator::X
    } else if a != SinglePauliOperator::Y && b != SinglePauliOperator::Y {
        SinglePauliOperator::Y
    } else {
        SinglePauliOperator::Z
    }
}

/// The Pauli algebra: `s_a s_b = delta_ab + i epsilon_abc s_c`, with the identity as the unit.
pub open spec fn pauli_product_spec(
    a: SinglePauliOperator,
    b: SinglePauliOperator,
) -> (SinglePauliOperator, Phase) {
    if a == SinglePauliOperator::Identity {
        (b, Phase::One)
    } else if b == SinglePauliOperator::Identity {
        (a, Phase::One)
    } else if a == b {
        (SinglePauliOperator::Identity, Phase::One)
    } else if pauli_cyclic(a, b) {
        (pauli_third(a, b), Phase::I)
    } else {
        (pauli_third(a, b), Phase::MinusI)
    }
}

impl SinglePauliOperator {
    /// Multiplies two Pauli matrices: the resulting matrix and its phase.
    pub fn multiply(left: SinglePauliOperator, right: SinglePauliOperator) -> (r: (Self, Phase))
        ensures
            r == pauli_product_spec(left, right),
    {
        match (left, right) {
            (SinglePauliOperator::Identity, x) => (x, Phase::One),
            (x, SinglePauliOperator::Identity) => (x, Phase::One),
            (SinglePauliOperator::X, SinglePauliOperator::X) => (SinglePauliOperator::Identity, Phase::One),
            (SinglePauliOperator::X, SinglePauliOperator::Y) => (SinglePauliOperator::Z, Phase::I),
            (SinglePauliOperator::X, SinglePauliOperator::Z) => (SinglePauliOperator::Y, Phase::MinusI),
            (SinglePauliOperator::Y, SinglePauliOperator::X) => (SinglePauliOperator::Z, Phase::MinusI),
            (SinglePauliOperator::Y, SinglePauliOperator::Y) => (SinglePauliOperator::Identity, Phase::One),
            (SinglePauliOperator::Y, SinglePauliOperator::Z) => (SinglePauliOperator::X, Phase::I),
            (SinglePauliOperator::Z, SinglePauliOperator::X) => (SinglePauliOperator::Y, Phase::I),
            (SinglePauliOperator::Z, SinglePauliOperator::Y) => (SinglePauliOperator::X, Phase::MinusI),
            (SinglePauliOperator::Z, SinglePauliOperator::Z) => (SinglePauliOperator::Identity, Phase::One),
        }
    }
}

impl MultiplicativeOperator for SinglePauliOperator {
    open spec fn spec_times(self, other: Self) -> (Self, Phase) {
        pauli_product_spec(self, other)
    }

    fn times_op(self, other: Self) -> (r: (Self, Phase)) {
        SinglePauliOperator::multiply(self, other)
    }

    open spec fn spec_identity() -> Self {
        SinglePauliOperator::Identity
    }

    proof fn lemma_times_group(a: Self, b: Self, c: Self) {
        lemma_pauli_algebra(a, b, c);
    }
}

/// Pauli matrices square to the identity, anticommute pairwise, and multiply
/// associatively once the phases are taken along.
pub proof fn lemma_pauli_algebra(a: SinglePauliOperator, b: SinglePauliOperator, c: SinglePauliOperator)
    ensures
        pauli_product_spec(a, a) == (SinglePauliOperator::Identity, Phase::One),
        a != SinglePauliOperator::Identity && b != SinglePauliOperator::Identity && a != b ==> {
            &&& pauli_product_spec(a, b).0 == pauli_product_spec(b, a).0
            &&& pauli_product_spec(a, b).1 == pauli_product_spec(b, a).1.times(Phase::MinusOne)
        },
        ({
            let (ab, p1) = pauli_product_spec(a, b);
            let (ab_c, p2) = pauli_product_spec(ab, c);
            let (bc, q1) = pauli_product_spec(b, c);
            let (a_bc, q2) = pauli_product_spec(a, bc);
            ab_c == a_bc && p1.times(p2) == q1.times(q2)
        }),
{
}

// ----------------------------------------------------------------------------
// Decoherence matrices
// ----------------------------------------------------------------------------

/// The multiplication table of the decoherence matrices: the product and its real sign.
pub open spec fn decoherence_product_spec(
    a: SingleDecoherenceOperator,
    b: SingleDecoherenceOperator,
) -> (SingleDecoherenceOperator, i8) {
    match (a, b) {
        (SingleDecoherenceOperator::Identity, x) => (x, 1i8),
        (x, SingleDecoherenceOperator::Identity) => (x, 1i8),
        (SingleDecoherenceOperator::X, SingleDecoherenceOperator::X) => (SingleDecoherenceOperator::Identity, 1i8),
        (SingleDecoherenceOperator::X, SingleDecoherenceOperator::IY) => (SingleDecoherenceOperator::Z, -1i8),
        (SingleDecoherenceOperator::X, SingleDecoherenceOperator::Z) => (SingleDecoherenceOperator::IY, -1i8),
        (SingleDecoherenceOperator::IY, SingleDecoherenceOperator::X) => (SingleDecoherenceOperator::Z, 1i8),
        (SingleDecoherenceOperator::IY, SingleDecoherenceOperator::IY) => (SingleDecoherenceOperator::Identity, -1i8),
        (SingleDecoherenceOperator::IY, SingleDecoherenceOperator::Z) => (SingleDecoherenceOperator::X, -1i8),
        (SingleDecoherenceOperator::Z, SingleDecoherenceOperator::X) => (SingleDecoherenceOperator::IY, 1i8),
        (SingleDecoherenceOperator::Z, SingleDecoherenceOperator::IY) => (SingleDecoherenceOperator::X, 1i8),
        (SingleDecoherenceOperator::Z, SingleDecoherenceOperator::Z) => (SingleDecoherenceOperator::Identity, 1i8),
    }
}

/// The Pauli matrix and phase that a decoherence matrix stands for (iY is i times Y).
pub open spec fn decoherence_to_spin_spec(d: SingleDecoherenceOperator) -> (SinglePauliOperator, Phase) {
    match d {
        SingleDecoherenceOperator::Identity => (SinglePauliOperator::Identity, Phase::One),
        SingleDecoherenceOperator::X => (SinglePauliOperator::X, Phase::One),
        SingleDecoherenceOperator::IY => (SinglePauliOperator::Y, Phase::I),
        SingleDecoherenceOperator::Z => (SinglePauliOperator::Z, Phase::One),
    }
}

/// The decoherence matrix and phase that a Pauli matrix stands for (Y is -i times iY).
pub open spec fn spin_to_decoherence_spec(p: SinglePauliOperator) -> (SingleDecoherenceOperator, Phase) {
    match p {
        SinglePauliOperator::Identity => (SingleDecoherenceOperator::Identity, Phase::One),
        SinglePauliOperator::X => (SingleDecoherenceOperator::X, Phase::One),
        SinglePauliOperator::Y => (SingleDecoherenceOperator::IY, Phase::MinusI),
        SinglePauliOperator::Z => (SingleDecoherenceOperator::Z, Phase::One),
    }
}

impl SingleDecoherenceOperator {
    /// Multiplies two decoherence matrices: the resulting matrix and its real sign.
    pub fn multiply(left: SingleDecoherenceOperator, right: SingleDecoherenceOperator) -> (r: (Self, i8))
        ensures
            r == decoherence_product_spec(left, right),
    {
        match (left, right) {
            (SingleDecoherenceOperator::Identity, x) => (x, 1),
            (x, SingleDecoherenceOperator::Identity) => (x, 1),
            (SingleDecoherenceOperator::X, SingleDecoherenceOperator::X) => (SingleDecoherenceOperator::Identity, 1),
            (SingleDecoherenceOperator::X, SingleDecoherenceOperator::IY) => (SingleDecoherenceOperator::Z, -1),
            (SingleDecoherenceOperator::X, SingleDecoherenceOperator::Z) => (SingleDecoherenceOperator::IY, -1),
            (SingleDecoherenceOperator::IY, SingleDecoherenceOperator::X) => (SingleDecoherenceOperator::Z, 1),
            (SingleDecoherenceOperator::IY, SingleDecoherenceOperator::IY) => (SingleDecoherenceOperator::Identity, -1),
            (SingleDecoherenceOperator::IY, SingleDecoherenceOperator::Z) => (SingleDecoherenceOperator::X, -1),
            (SingleDecoherenceOperator::Z, SingleDecoherenceOperator::X) => (SingleDecoherenceOperator::IY, 1),
            (SingleDecoherenceOperator::Z, SingleDecoherenceOperator::IY) => (SingleDecoherenceOperator::X, 1),
            (SingleDecoherenceOperator::Z, SingleDecoherenceOperator::Z) => (SingleDecoherenceOperator::Identity, 1),
        }
    }

    /// The Pauli matrix that a decoherence matrix stands for, with its phase.
    pub fn decoherence_to_spin(decoherence: SingleDecoherenceOperator) -> (r: (SinglePauliOperator, Phase))
        ensures
            r == decoherence_to_spin_spec(decoherence),
    {
        match decoherence {
            SingleDecoherenceOperator::Identity => (SinglePauliOperator::Identity, Phase::One),
            SingleDecoherenceOperator::X => (SinglePauliOperator::X, Phase::One),
            SingleDecoherenceOperator::IY => (SinglePauliOperator::Y, Phase::I),
            SingleDecoherenceOperator::Z => (SinglePauliOperator::Z, Phase::One),
        }
    }

    /// The decoherence matrix that a Pauli matrix stands for, with its phase.
    pub fn spin_to_decoherence(spin: SinglePauliOperator) -> (r: (SingleDecoherenceOperator, Phase))
        ensures
            r == spin_to_decoherence_spec(spin),
    {
        match spin {
            SinglePauliOperator::Identity => (SingleDecoherenceOperator::Identity, Phase::One),
            SinglePauliOperator::X => (SingleDecoherenceOperator::X, Phase::One),
            SinglePauliOperator::Y => (SingleDecoherenceOperator::IY, Phase::MinusI),
            SinglePauliOperator::Z => (SingleDecoherenceOperator::Z, Phase::One),
        }
    }

    /// The hermitian conjugate: the same matrix, with sign -1 for iY (which is
    /// anti-hermitian) and +1 otherwise.
    pub fn hermitian_conjugate(&self) -> (r: (Self, i8))
        ensures
            r.0 == *self,
            r.1 == if *self == SingleDecoherenceOperator::IY { -1i8 } else { 1i8 },
    {
        match self {
            SingleDecoherenceOperator::Identity => (SingleDecoherenceOperator::Identity, 1),
            SingleDecoherenceOperator::Z => (SingleDecoherenceOperator::Z, 1),
            SingleDecoherenceOperator::X => (SingleDecoherenceOperator::X, 1),
            SingleDecoherenceOperator::IY => (SingleDecoherenceOperator::IY, -1),
        }
    }
}

impl MultiplicativeOperator for SingleDecoherenceOperator {
    open spec fn spec_times(self, other: Self) -> (Self, Phase) {
        let (d, sign) = decoherence_product_spec(self, other);
        (d, Phase::of_sign(sign))
    }

    fn times_op(self, other: Self) -> (r: (Self, Phase)) {
        let (d, sign) = SingleDecoherenceOperator::multiply(self, other);
        (d, Phase::from_sign(sign))
    }

    open spec fn spec_identity() -> Self {
        SingleDecoherenceOperator::Identity
    }

    proof fn lemma_times_group(a: Self, b: Self, c: Self) {
    }
}

/// Decoherence matrices multiply as the Pauli matrices they stand for, and the
/// two conversions undo each other.
pub proof fn lemma_decoherence_is_pauli(a: SingleDecoherenceOperator, b: SingleDecoherenceOperator, p: SinglePauliOperator)
    ensures
        ({
            let (pa, fa) = decoherence_to_spin_spec(a);
            let (pb, fb) = decoherence_to_spin_spec(b);
            let (pab, fab) = pauli_product_spec(pa, pb);
            let (d, sign) = decoherence_product_spec(a, b);
            let (pd, fd) = decoherence_to_spin_spec(d);
            pd == pab && fa.times(fb).times(fab) == Phase::of_sign(sign).times(fd)
        }),
        spin_to_decoherence_spec(decoherence_to_spin_spec(a).0).0 == a,
        decoherence_to_spin_spec(a).1.times(spin_to_decoherence_spec(decoherence_to_spin_spec(a).0).1) == Phase::One,
        decoherence_to_spin_spec(spin_to_decoherence_spec(p).0).0 == p,
        spin_to_decoherence_spec(p).1.times(decoherence_to_spin_spec(spin_to_decoherence_spec(p).0).1) == Phase::One,
{
}

// ----------------------------------------------------------------------------
// Plus/minus basis
// ----------------------------------------------------------------------------

/// The prefactor `phase / 2^halvings`.
pub open spec fn pf(phase: Phase, halvings: usize) -> Prefactor {
    Prefactor { phase, halvings }
}

/// The multiplication table of the plus/minus basis: the product as a sum of terms.
pub open spec fn plus_minus_product_spec(
    a: SinglePlusMinusOperator,
    b: SinglePlusMinusOperator,
) -> Seq<(SinglePlusMinusOperator, Prefactor)> {
    match (a, b) {
        (SinglePlusMinusOperator::Identity, x) => seq![(x, pf(Phase::One, 0))],
        (x, SinglePlusMinusOperator::Identity) => seq![(x, pf(Phase::One, 0))],
        (SinglePlusMinusOperator::Plus, SinglePlusMinusOperator::Plus) => seq![],
        (SinglePlusMinusOperator::Plus, SinglePlusMinusOperator::Minus) => seq![
            (SinglePlusMinusOperator::Z, pf(Phase::One, 1)),
            (SinglePlusMinusOperator::Identity, pf(Phase::One, 1)),
        ],
        (SinglePlusMinusOperator::Plus, SinglePlusMinusOperator::Z) => seq![(SinglePlusMinusOperator::Plus, pf(Phase::MinusOne, 0))],
        (SinglePlusMinusOperator::Minus, SinglePlusMinusOperator::Plus) => seq![
            (SinglePlusMinusOperator::Z, pf(Phase::MinusOne, 1)),
            (SinglePlusMinusOperator::Identity, pf(Phase::One, 1)),
        ],
        (SinglePlusMinusOperator::Minus, SinglePlusMinusOperator::Minus) => seq![],
        (SinglePlusMinusOperator::Minus, SinglePlusMinusOperator::Z) => seq![(SinglePlusMinusOperator::Minus, pf(Phase::One, 0))],
        (SinglePlusMinusOperator::Z, SinglePlusMinusOperator::Plus) => seq![(SinglePlusMinusOperator::Plus, pf(Phase::One, 0))],
        (SinglePlusMinusOperator::Z, SinglePlusMinusOperator::Minus) => seq![(SinglePlusMinusOperator::Minus, pf(Phase::MinusOne, 0))],
        (SinglePlusMinusOperator::Z, SinglePlusMinusOperator::Z) => seq![(SinglePlusMinusOperator::Identity, pf(Phase::One, 0))],
    }
}

/// A plus/minus operator written in Pauli matrices: sigma+ = (X + iY)/2, sigma- = (X - iY)/2.
pub open spec fn plus_minus_to_pauli_spec(op: SinglePlusMinusOperator) -> Seq<(SinglePauliOperator, Prefactor)> {
    match op {
        SinglePlusMinusOperator::Identity => seq![(SinglePauliOperator::Identity, pf(Phase::One, 0))],
        SinglePlusMinusOperator::Plus => seq![(SinglePauliOperator::X, pf(Phase::One, 1)), (SinglePauliOperator::Y, pf(Phase::I, 1))],
        SinglePlusMinusOperator::Minus => seq![(SinglePauliOperator::X, pf(Phase::One, 1)), (SinglePauliOperator::Y, pf(Phase::MinusI, 1))],
        SinglePlusMinusOperator::Z => seq![(SinglePauliOperator::Z, pf(Phase::One, 0))],
    }
}

/// A Pauli matrix written in the plus/minus basis: X = sigma+ + sigma-, Y = -i sigma+ + i sigma-.
pub open spec fn pauli_to_plus_minus_spec(op: SinglePauliOperator) -> Seq<(SinglePlusMinusOperator, Prefactor)> {
    match op {
        SinglePauliOperator::Identity => seq![(SinglePlusMinusOperator::Identity, pf(Phase::One, 0))],
        SinglePauliOperator::X => seq![(SinglePlusMinusOperator::Plus, pf(Phase::One, 0)), (SinglePlusMinusOperator::Minus, pf(Phase::One, 0))],
        SinglePauliOperator::Y => seq![(SinglePlusMinusOperator::Plus, pf(Phase::MinusI, 0)), (SinglePlusMinusOperator::Minus, pf(Phase::I, 0))],
        SinglePauliOperator::Z => seq![(SinglePlusMinusOperator::Z, pf(Phase::One, 0))],
    }
}

/// A plus/minus operator written in decoherence matrices: sigma+ = (X + iY)/2, sigma- = (X - iY)/2.
pub open spec fn plus_minus_to_decoherence_spec(op: SinglePlusMinusOperator) -> Seq<(SingleDecoherenceOperator, Prefactor)> {
    match op {
        SinglePlusMinusOperator::Identity => seq![(SingleDecoherenceOperator::Identity, pf(Phase::One, 0))],
        SinglePlusMinusOperator::Plus => seq![(SingleDecoherenceOperator::X, pf(Phase::One, 1)), (SingleDecoherenceOperator::IY, pf(Phase::One, 1))],
        SinglePlusMinusOperator::Minus => seq![(SingleDecoherenceOperator::X, pf(Phase::One, 1)), (SingleDecoherenceOperator::IY, pf(Phase::MinusOne, 1))],
        SinglePlusMinusOperator::Z => seq![(SingleDecoherenceOperator::Z, pf(Phase::One, 0))],
    }
}

/// A decoherence matrix written in the plus/minus basis: X = sigma+ + sigma-, iY = sigma+ - sigma-.
pub open spec fn decoherence_to_plus_minus_spec(op: SingleDecoherenceOperator) -> Seq<(SinglePlusMinusOperator, Prefactor)> {
    match op {
        SingleDecoherenceOperator::Identity => seq![(SinglePlusMinusOperator::Identity, pf(Phase::One, 0))],
        SingleDecoherenceOperator::X => seq![(SinglePlusMinusOperator::Plus, pf(Phase::One, 0)), (SinglePlusMinusOperator::Minus, pf(Phase::One, 0))],
        SingleDecoherenceOperator::IY => seq![(SinglePlusMinusOperator::Plus, pf(Phase::One, 0)), (SinglePlusMinusOperator::Minus, pf(Phase::MinusOne, 0))],
        SingleDecoherenceOperator::Z => seq![(SinglePlusMinusOperator::Z, pf(Phase::One, 0))],
    }
}

impl SinglePlusMinusOperator {
    /// Multiplies two plus/minus operators: the product as a list of terms
    /// (empty when the product vanishes).
    pub fn multiply(left: SinglePlusMinusOperator, right: SinglePlusMinusOperator) -> (r: Vec<(Self, Prefactor)>)
        ensures
            r@ == plus_minus_product_spec(left, right),
    {
        let one = Prefactor { phase: Phase::One, halvings: 0 };
        let minus_one = Prefactor { phase: Phase::MinusOne, halvings: 0 };
        let half = Prefactor { phase: Phase::One, halvings: 1 };
        let minus_half = Prefactor { phase: Phase::MinusOne, halvings: 1 };
        let r = match (left, right) {
            (SinglePlusMinusOperator::Identity, x) => vec![(x, one)],
            (x, SinglePlusMinusOperator::Identity) => vec![(x, one)],
            (SinglePlusMinusOperator::Plus, SinglePlusMinusOperator::Plus) => vec![],
            (SinglePlusMinusOperator::Plus, SinglePlusMinusOperator::Minus) => vec![
                (SinglePlusMinusOperator::Z, half),
                (SinglePlusMinusOperator::Identity, half),
            ],
            (SinglePlusMinusOperator::Plus, SinglePlusMinusOperator::Z) => vec![(SinglePlusMinusOperator::Plus, minus_one)],
            (SinglePlusMinusOperator::Minus, SinglePlusMinusOperator::Plus) => vec![
                (SinglePlusMinusOperator::Z, minus_half),
                (SinglePlusMinusOperator::Identity, half),
            ],
            (SinglePlusMinusOperator::Minus, SinglePlusMinusOperator::Minus) => vec![],
            (SinglePlusMinusOperator::Minus, SinglePlusMinusOperator::Z) => vec![(SinglePlusMinusOperator::Minus, one)],
            (SinglePlusMinusOperator::Z, SinglePlusMinusOperator::Plus) => vec![(SinglePlusMinusOperator::Plus, one)],
            (SinglePlusMinusOperator::Z, SinglePlusMinusOperator::Minus) => vec![(SinglePlusMinusOperator::Minus, minus_one)],
            (SinglePlusMinusOperator::Z, SinglePlusMinusOperator::Z) => vec![(SinglePlusMinusOperator::Identity, one)],
        };
        assert(r@ =~= plus_minus_product_spec(left, right));
        r
    }

    /// This operator written in Pauli matrices.
    pub fn to_pauli_terms(self) -> (r: Vec<(SinglePauliOperator, Prefactor)>)
        ensures
            r@ == plus_minus_to_pauli_spec(self),
    {
        let one = Prefactor { phase: Phase::One, halvings: 0 };
        let r = match self {
            SinglePlusMinusOperator::Identity => vec![(SinglePauliOperator::Identity, one)],
            SinglePlusMinusOperator::Plus => vec![
                (SinglePauliOperator::X, Prefactor { phase: Phase::One, halvings: 1 }),
                (SinglePauliOperator::Y, Prefactor { phase: Phase::I, halvings: 1 }),
            ],
            SinglePlusMinusOperator::Minus => vec![
                (SinglePauliOperator::X, Prefactor { phase: Phase::One, halvings: 1 }),
                (SinglePauliOperator::Y, Prefactor { phase: Phase::MinusI, halvings: 1 }),
            ],
            SinglePlusMinusOperator::Z => vec![(SinglePauliOperator::Z, one)],
        };
        assert(r@ =~= plus_minus_to_pauli_spec(self));
        r
    }

    /// A Pauli matrix written in the plus/minus basis.
    pub fn from_pauli(op: SinglePauliOperator) -> (r: Vec<(SinglePlusMinusOperator, Prefactor)>)
        ensures
            r@ == pauli_to_plus_minus_spec(op),
    {
        let one = Prefactor { phase: Phase::One, halvings: 0 };
        let r = match op {
            SinglePauliOperator::Identity => vec![(SinglePlusMinusOperator::Identity, one)],
            SinglePauliOperator::X => vec![(SinglePlusMinusOperator::Plus, one), (SinglePlusMinusOperator::Minus, one)],
            SinglePauliOperator::Y => vec![
                (SinglePlusMinusOperator::Plus, Prefactor { phase: Phase::MinusI, halvings: 0 }),
                (SinglePlusMinusOperator::Minus, Prefactor { phase: Phase::I, halvings: 0 }),
            ],
            SinglePauliOperator::Z => vec![(SinglePlusMinusOperator::Z, one)],
        };
        assert(r@ =~= pauli_to_plus_minus_spec(op));
        r
    }

    /// This operator written in decoherence matrices.
    pub fn to_decoherence_terms(self) -> (r: Vec<(SingleDecoherenceOperator, Prefactor)>)
        ensures
            r@ == plus_minus_to_decoherence_spec(self),
    {
        let one = Prefactor { phase: Phase::One, halvings: 0 };
        let r = match self {
            SinglePlusMinusOperator::Identity => vec![(SingleDecoherenceOperator::Identity, one)],
            SinglePlusMinusOperator::Plus => vec![
                (SingleDecoherenceOperator::X, Prefactor { phase: Phase::One, halvings: 1 }),
                (SingleDecoherenceOperator::IY, Prefactor { phase: Phase::One, halvings: 1 }),
            ],
            SinglePlusMinusOperator::Minus => vec![
                (SingleDecoherenceOperator::X, Prefactor { phase: Phase::One, halvings: 1 }),
                (SingleDecoherenceOperator::IY, Prefactor { phase: Phase::MinusOne, halvings: 1 }),
            ],
            SinglePlusMinusOperator::Z => vec![(SingleDecoherenceOperator::Z, one)],
        };
        assert(r@ =~= plus_minus_to_decoherence_spec(self));
        r
    }

    /// A decoherence matrix written in the plus/minus basis.
    pub fn from_decoherence(op: SingleDecoherenceOperator) -> (r: Vec<(SinglePlusMinusOperator, Prefactor)>)
        ensures
            r@ == decoherence_to_plus_minus_spec(op),
    {
        let one = Prefactor { phase: Phase::One, halvings: 0 };
        let r = match op {
            SingleDecoherenceOperator::Identity => vec![(SinglePlusMinusOperator::Identity, one)],
            SingleDecoherenceOperator::X => vec![(SinglePlusMinusOperator::Plus, one), (SinglePlusMinusOperator::Minus, one)],
            SingleDecoherenceOperator::IY => vec![
                (SinglePlusMinusOperator::Plus, one),
                (SinglePlusMinusOperator::Minus, Prefactor { phase: Phase::MinusOne, halvings: 0 }),
            ],
            SingleDecoherenceOperator::Z => vec![(SinglePlusMinusOperator::Z, one)],
        };
        assert(r@ =~= decoherence_to_plus_minus_spec(op));
        r
    }
}


impl SinglePauliOperator {
    /// Reads the operator from its symbol: `I`, `X`, `Y` or `Z`.
    pub fn from_str(s: &str) -> (r: Result<Self, StruqtureError>)
        ensures
            match Self::parse_symbol(s@) {
                Some(op) => r == Ok::<Self, StruqtureError>(op),
                None => r matches Err(StruqtureError::IncorrectPauliEntry { pauli }) && pauli@ == s@,
            },
    {
        parse_single::<Self>(s)
    }

    /// The symbol of the operator: `I`, `X`, `Y` or `Z`.
    pub fn to_string(&self) -> (r: String)
        ensures
            r@ == self.symbol(),
    {
        single_to_string(self)
    }
}

impl std::str::FromStr for SinglePauliOperator {
    type Err = StruqtureError;

    /// Reads a single-site operator from its symbol; see the inherent `from_str`.
    fn from_str(s: &str) -> (r: Result<Self, Self::Err>)
        ensures
            match Self::parse_symbol(s@) {
                Some(op) => r == Ok::<Self, StruqtureError>(op),
                None => r matches Err(StruqtureError::IncorrectPauliEntry { pauli }) && pauli@ == s@,
            },
    {
        SinglePauliOperator::from_str(s)
    }
}

impl SingleDecoherenceOperator {
    /// Reads the operator from its symbol: `I`, `X`, `iY` or `Z`.
    pub fn from_str(s: &str) -> (r: Result<Self, StruqtureError>)
        ensures
            match Self::parse_symbol(s@) {
                Some(op) => r == Ok::<Self, StruqtureError>(op),
                None => r matches Err(StruqtureError::IncorrectPauliEntry { pauli }) && pauli@ == s@,
            },
    {
        parse_single::<Self>(s)
    }

    /// The symbol of the operator: `I`, `X`, `iY` or `Z`.
    pub fn to_string(&self) -> (r: String)
        ensures
            r@ == self.symbol(),
    {
        single_to_string(self)
    }
}

impl std::str::FromStr for SingleDecoherenceOperator {
    type Err = StruqtureError;

    /// Reads a single-site operator from its symbol; see the inherent `from_str`.
    fn from_str(s: &str) -> (r: Result<Self, Self::Err>)
        ensures
            match Self::parse_symbol(s@) {
                Some(op) => r == Ok::<Self, StruqtureError>(op),
                None => r matches Err(StruqtureError::IncorrectPauliEntry { pauli }) && pauli@ == s@,
            },
    {
        SingleDecoherenceOperator::from_str(s)
    }
}

impl SinglePlusMinusOperator {
    /// Reads the operator from its symbol: `I`, `+`, `-` or `Z`.
    pub fn from_str(s: &str) -> (r: Result<Self, StruqtureError>)
        ensures
            match Self::parse_symbol(s@) {
                Some(op) => r == Ok::<Self, StruqtureError>(op),
                None => r matches Err(StruqtureError::IncorrectPauliEntry { pauli }) && pauli@ == s@,
            },
    {
        parse_single::<Self>(s)
    }

    /// The symbol of the operator: `I`, `+`, `-` or `Z`.
    pub fn to_string(&self) -> (r: String)
        ensures
            r@ == self.symbol(),
    {
        single_to_string(self)
    }
}

impl std::str::FromStr for SinglePlusMinusOperator {
    type Err = StruqtureError;

    /// Reads a single-site operator from its symbol; see the inherent `from_str`.
    fn from_str(s: &str) -> (r: Result<Self, Self::Err>)
        ensures
            match Self::parse_symbol(s@) {
                Some(op) => r == Ok::<Self, StruqtureError>(op),
                None => r matches Err(StruqtureError::IncorrectPauliEntry { pauli }) && pauli@ == s@,
            },
    {
        SinglePlusMinusOperator::from_str(s)
    }
}

} // verus!
