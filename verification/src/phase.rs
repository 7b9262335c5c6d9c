//! Exact unit phases (powers of `i`) and prefactors (phases times powers of one half).

use vstd::prelude::*;

verus! {

/// A power of the imaginary unit: `1`, `i`, `-1` or `-i`.
#[derive(Clone, Copy, PartialEq, Eq, Structural, Debug, Hash)]
pub enum Phase {
    One,
    I,
    MinusOne,
    MinusI,
}

impl Phase {
    /// The exponent `k` in `i^k`, taken in `0..4`.
    pub open spec fn exponent(self) -> int {
        match self {
            Phase::One => 0,
            Phase::I => 1,
            Phase::MinusOne => 2,
            Phase::MinusI => 3,
        }
    }

    /// The phase `i^e`, for any integer `e`.
    pub open spec fn from_exponent(e: int) -> Phase {
        let r = e % 4;
        if r == 0 {
            Phase::One
        } else if r == 1 {
            Phase::I
        } else if r == 2 {
            Phase::MinusOne
        } else {
            Phase::MinusI
        }
    }

    /// The product of two phases.
    pub open spec fn times(self, other: Phase) -> Phase {
        Phase::from_exponent(self.exponent() + other.exponent())
    }

    /// The phase that a real sign `+1` or `-1` stands for.
    pub open spec fn of_sign(sign: i8) -> Phase {
        if sign < 0 {
            Phase::MinusOne
        } else {
            Phase::One
        }
    }

    /// The product of two phases.
    pub fn mul(self, other: Phase) -> (r: Phase)
        ensures
            r == self.times(other),
            r.exponent() == (self.exponent() + other.exponent()) % 4,
    {
        match (self, other) {
            (Phase::One, x) => x,
            (x, Phase::One) => x,
            (Phase::I, Phase::I) => Phase::MinusOne,
            (Phase::I, Phase::MinusOne) => Phase::MinusI,
            (Phase::I, Phase::MinusI) => Phase::One,
            (Phase::MinusOne, Phase::I) => Phase::MinusI,
            (Phase::MinusOne, Phase::MinusOne) => Phase::One,
            (Phase::MinusOne, Phase::MinusI) => Phase::I,
            (Phase::MinusI, Phase::I) => Phase::One,
            (Phase::MinusI, Phase::MinusOne) => Phase::I,
            (Phase::MinusI, Phase::MinusI) => Phase::MinusOne,
        }
    }

    /// The phase of a real sign: `-1` for a negative sign, `1` otherwise.
    pub fn from_sign(sign: i8) -> (r: Phase)
        ensures
            r == Phase::of_sign(sign),
    {
        if sign < 0 {
            Phase::MinusOne
        } else {
            Phase::One
        }
    }

    /// The complex conjugate of a phase.
    pub fn conj(self) -> (r: Phase)
        ensures
            r.exponent() == (4 - self.exponent()) % 4,
            self.times(r) == Phase::One,
    {
        match self {
            Phase::One => Phase::One,
            Phase::I => Phase::MinusI,
            Phase::MinusOne => Phase::MinusOne,
            Phase::MinusI => Phase::I,
        }
    }

    /// The real and imaginary parts of the phase, as integers.
    pub fn parts(self) -> (r: (i8, i8))
        ensures
            self == Phase::One ==> r == (1i8, 0i8),
            self == Phase::I ==> r == (0i8, 1i8),
            self == Phase::MinusOne ==> r == (-1i8, 0i8),
            self == Phase::MinusI ==> r == (0i8, -1i8),
    {
        match self {
            Phase::One => (1, 0),
            Phase::I => (0, 1),
            Phase::MinusOne => (-1, 0),
            Phase::MinusI => (0, -1),
        }
    }
}

/// Phases multiply as the powers of `i` they stand for: the product is
/// associative and commutative, and `1` is its unit.
pub proof fn lemma_phase_group(a: Phase, b: Phase, c: Phase)
    ensures
        a.times(b).times(c) == a.times(b.times(c)),
        a.times(b) == b.times(a),
        a.times(Phase::One) == a,
        Phase::One.times(a) == a,
{
}

/// Products of four phases can be regrouped: `(p a)(q b) = (p q)(a b)`.
pub proof fn lemma_phase_interchange(p: Phase, a: Phase, q: Phase, b: Phase)
    ensures
        p.times(a).times(q.times(b)) == p.times(q).times(a.times(b)),
{
}

/// A prefactor `i^k / 2^h`: a phase times a power of one half.
#[derive(Clone, Copy, PartialEq, Eq, Structural, Debug, Hash)]
pub struct Prefactor {
    /// The unit phase `i^k`.
    pub phase: Phase,
    /// The number `h` of halvings.
    pub halvings: usize,
}

impl Prefactor {
    /// The prefactor `phase / 2^halvings`.
    pub open spec fn spec_new(phase: Phase, halvings: usize) -> Prefactor {
        Prefactor { phase, halvings }
    }

    /// The product of two prefactors, where the halvings fit in a `usize`.
    pub open spec fn times(self, other: Prefactor) -> Prefactor {
        Prefactor { phase: self.phase.times(other.phase), halvings: (self.halvings + other.halvings) as usize }
    }

    /// The prefactor `1`.
    pub fn one() -> (r: Prefactor)
        ensures
            r == (Prefactor { phase: Phase::One, halvings: 0 }),
    {
        Prefactor { phase: Phase::One, halvings: 0 }
    }

    /// The product of two prefactors.
    pub fn mul(self, other: Prefactor) -> (r: Prefactor)
        requires
            self.halvings + other.halvings <= usize::MAX,
        ensures
            r == self.times(other),
            r.halvings == self.halvings + other.halvings,
    {
        Prefactor { phase: self.phase.mul(other.phase), halvings: self.halvings + other.halvings }
    }
}

} // verus!
