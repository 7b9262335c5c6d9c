//! Matrix elements of products in the computational basis, spin `k` being
//! bit `k` of the basis index (little endian). A product of single-site
//! matrices maps each basis state to one other basis state with a phase, so
//! every row of its matrix holds a single entry.

use vstd::prelude::*;
use vstd::arithmetic::power2::pow2;
use crate::items::{has_index, index_increasing, lemma_lookup_increasing, lemma_lookup_none, lookup, SingleOperator};
use crate::phase::{lemma_phase_group, lemma_phase_interchange, Phase};
use crate::single::{SingleDecoherenceOperator, SinglePauliOperator};

verus! {

/// Single-site operators with one nonzero entry per row.
pub trait MatrixOperator: SingleOperator {
    /// Whether the operator flips the spin (maps |0> to |1> and back).
    spec fn flips(self) -> bool;

    /// The matrix entry on the row of the basis state with the given bit.
    spec fn element_phase(self, bit_set: bool) -> Phase;

    /// The sign that transposing the matrix multiplies its entries with.
    spec fn transpose_sign(self) -> Phase;

    /// The entry of the operator's 2x2 matrix in the given row and column
    /// (`false` for |0>, `true` for |1>); `None` for a zero entry.
    spec fn entry(self, row: bool, col: bool) -> Option<Phase>;

    /// Each row of the matrix holds one nonzero entry, `element_phase`, in
    /// the column of the flipped bit when the operator flips the spin and in
    /// the row's own column otherwise; in the transpose that entry is
    /// `element_phase` times `transpose_sign`.
    proof fn lemma_entry(self, row: bool, col: bool)
        ensures
            self.entry(row, col) == if col == (if self.flips() { !row } else { row }) {
                Some(self.element_phase(row))
            } else {
                None
            },
            self.entry(col, row) == if col == (if self.flips() { !row } else { row }) {
                Some(self.element_phase(row).times(self.transpose_sign()))
            } else {
                None
            },
    ;

    /// Whether the operator flips the spin.
    fn flips_exec(&self) -> (r: bool)
        ensures
            r == self.flips(),
    ;

    /// The matrix entry on the row of the basis state with the given bit.
    fn element_phase_exec(&self, bit_set: bool) -> (r: Phase)
        ensures
            r == self.element_phase(bit_set),
    ;

    /// The sign that transposing the matrix multiplies its entries with.
    fn transpose_sign_exec(&self) -> (r: Phase)
        ensures
            r == self.transpose_sign(),
    ;
}

impl MatrixOperator for SinglePauliOperator {
    open spec fn flips(self) -> bool {
        self == SinglePauliOperator::X || self == SinglePauliOperator::Y
    }

    open spec fn element_phase(self, bit_set: bool) -> Phase {
        match self {
            SinglePauliOperator::Y => if bit_set { Phase::I } else { Phase::MinusI },
            SinglePauliOperator::Z => if bit_set { Phase::MinusOne } else { Phase::One },
            _ => Phase::One,
        }
    }

    open spec fn transpose_sign(self) -> Phase {
        if self == SinglePauliOperator::Y { Phase::MinusOne } else { Phase::One }
    }

    /// I = [[1, 0], [0, 1]], X = [[0, 1], [1, 0]], Y = [[0, -i], [i, 0]],
    /// Z = [[1, 0], [0, -1]].
    open spec fn entry(self, row: bool, col: bool) -> Option<Phase> {
        match (self, row, col) {
            (SinglePauliOperator::Identity, false, false) => Some(Phase::One),
            (SinglePauliOperator::Identity, true, true) => Some(Phase::One),
            (SinglePauliOperator::X, false, true) => Some(Phase::One),
            (SinglePauliOperator::X, true, false) => Some(Phase::One),
            (SinglePauliOperator::Y, false, true) => Some(Phase::MinusI),
            (SinglePauliOperator::Y, true, false) => Some(Phase::I),
            (SinglePauliOperator::Z, false, false) => Some(Phase::One),
            (SinglePauliOperator::Z, true, true) => Some(Phase::MinusOne),
            _ => None,
        }
    }

    proof fn lemma_entry(self, row: bool, col: bool) {
    }

    fn flips_exec(&self) -> (r: bool) {
        *self == SinglePauliOperator::X || *self == SinglePauliOperator::Y
    }

    fn element_phase_exec(&self, bit_set: bool) -> (r: Phase) {
        match self {
            SinglePauliOperator::Y => if bit_set { Phase::I } else { Phase::MinusI },
            SinglePauliOperator::Z => if bit_set { Phase::MinusOne } else { Phase::One },
            _ => Phase::One,
        }
    }

    fn transpose_sign_exec(&self) -> (r: Phase) {
        if *self == SinglePauliOperator::Y { Phase::MinusOne } else { Phase::One }
    }
}

impl MatrixOperator for SingleDecoherenceOperator {
    open spec fn flips(self) -> bool {
        self == SingleDecoherenceOperator::X || self == SingleDecoherenceOperator::IY
    }

    open spec fn element_phase(self, bit_set: bool) -> Phase {
        match self {
            SingleDecoherenceOperator::IY => if bit_set { Phase::MinusOne } else { Phase::One },
            SingleDecoherenceOperator::Z => if bit_set { Phase::MinusOne } else { Phase::One },
            _ => Phase::One,
        }
    }

    open spec fn transpose_sign(self) -> Phase {
        if self == SingleDecoherenceOperator::IY { Phase::MinusOne } else { Phase::One }
    }

    /// I = [[1, 0], [0, 1]], X = [[0, 1], [1, 0]], iY = [[0, 1], [-1, 0]],
    /// Z = [[1, 0], [0, -1]].
    open spec fn entry(self, row: bool, col: bool) -> Option<Phase> {
        match (self, row, col) {
            (SingleDecoherenceOperator::Identity, false, false) => Some(Phase::One),
            (SingleDecoherenceOperator::Identity, true, true) => Some(Phase::One),
            (SingleDecoherenceOperator::X, false, true) => Some(Phase::One),
            (SingleDecoherenceOperator::X, true, false) => Some(Phase::One),
            (SingleDecoherenceOperator::IY, false, true) => Some(Phase::One),
            (SingleDecoherenceOperator::IY, true, false) => Some(Phase::MinusOne),
            (SingleDecoherenceOperator::Z, false, false) => Some(Phase::One),
            (SingleDecoherenceOperator::Z, true, true) => Some(Phase::MinusOne),
            _ => None,
        }
    }

    proof fn lemma_entry(self, row: bool, col: bool) {
    }

    fn flips_exec(&self) -> (r: bool) {
        *self == SingleDecoherenceOperator::X || *self == SingleDecoherenceOperator::IY
    }

    fn element_phase_exec(&self, bit_set: bool) -> (r: Phase) {
        match self {
            SingleDecoherenceOperator::IY => if bit_set { Phase::MinusOne } else { Phase::One },
            SingleDecoherenceOperator::Z => if bit_set { Phase::MinusOne } else { Phase::One },
            _ => Phase::One,
        }
    }

    fn transpose_sign_exec(&self) -> (r: Phase) {
        if *self == SingleDecoherenceOperator::IY { Phase::MinusOne } else { Phase::One }
    }
}

/// Whether bit `k` of `x` is set.
pub open spec fn bit_set(x: int, k: nat) -> bool {
    (x / pow2(k) as int) % 2 == 1
}

/// Walks the entries of a product from column `col`: each spin-flipping
/// entry on spin `k` moves the column by `2^(k + shift)`, up when bit `k` of
/// `row_bits` is clear and down when it is set, and every entry multiplies the
/// phase by its matrix element (transposed when `transpose`). `None` when a
/// spin lies beyond the bits of a `usize` or the column leaves its range.
pub open spec fn row_walk<T: MatrixOperator>(
    s: Seq<(usize, T)>,
    row_bits: int,
    col: int,
    shift: int,
    transpose: bool,
) -> Option<(int, Phase)>
    decreases s.len(),
{
    if s.len() == 0 {
        Some((col, Phase::One))
    } else {
        match row_walk(s.drop_last(), row_bits, col, shift, transpose) {
            None => None,
            Some((c, ph)) => {
                let (k, op) = s.last();
                if k >= usize::BITS {
                    None
                } else {
                    let b = bit_set(row_bits, k as nat);
                    let f = if transpose {
                        op.element_phase(b).times(op.transpose_sign())
                    } else {
                        op.element_phase(b)
                    };
                    if op.flips() {
                        if k + shift >= usize::BITS {
                            None
                        } else {
                            let c2 = if b { c - pow2((k + shift) as nat) } else { c + pow2((k + shift) as nat) };
                            if 0 <= c2 <= usize::MAX {
                                Some((c2, ph.times(f)))
                            } else {
                                None
                            }
                        }
                    } else {
                        Some((c, ph.times(f)))
                    }
                }
            },
        }
    }
}

/// `2^k`.
pub fn pow2_usize(k: usize) -> (r: usize)
    requires
        k < usize::BITS,
    ensures
        r == pow2(k as nat),
{
    proof {
        vstd::bits::lemma_usize_pow2_no_overflow(k as nat);
        vstd::bits::lemma_usize_shl_is_mul(1, k);
    }
    1usize << k
}

/// Walks the entries of a product; see `row_walk`.
pub fn walk_row<T: MatrixOperator>(s: &[(usize, T)], row_bits: usize, col: usize, shift: usize, transpose: bool) -> (r: (usize, Phase))
    requires
        row_walk(s@, row_bits as int, col as int, shift as int, transpose) is Some,
    ensures
        row_walk(s@, row_bits as int, col as int, shift as int, transpose) == Some((r.0 as int, r.1)),
{
    let mut column = col;
    let mut prefac = Phase::One;
    let mut i: usize = 0;
    assert(s@.take(0) =~= Seq::<(usize, T)>::empty());
    proof {
        lemma_row_walk_prefix(s@, row_bits as int, col as int, shift as int, transpose, 0);
    }
    while i < s.len()
        invariant
            0 <= i <= s@.len(),
            row_walk(s@, row_bits as int, col as int, shift as int, transpose) is Some,
            row_walk(s@.take(i as int), row_bits as int, col as int, shift as int, transpose) == Some((column as int, prefac)),
        decreases s.len() - i,
    {
        proof {
            lemma_row_walk_prefix(s@, row_bits as int, col as int, shift as int, transpose, i + 1);
        }
        assert(s@.take(i + 1).drop_last() =~= s@.take(i as int));
        assert(s@.take(i + 1).last() == s@[i as int]);
        let (k, op) = s[i];
        let p = pow2_usize(k);
        proof {
            vstd::arithmetic::power2::lemma_pow2_pos(k as nat);
        }
        let b = (row_bits / p) % 2 == 1;
        let mut f = op.element_phase_exec(b);
        if transpose {
            f = f.mul(op.transpose_sign_exec());
        }
        if op.flips_exec() {
            let q = pow2_usize(k + shift);
            if b {
                column = column - q;
            } else {
                column = column + q;
            }
        }
        prefac = prefac.mul(f);
        i = i + 1;
    }
    assert(s@.take(s@.len() as int) =~= s@);
    (column, prefac)
}

/// Walks the entries of a product, reporting `None` where the walk fails
/// (a spin beyond the bits of a `usize`, or a column out of range); see `row_walk`.
pub fn try_walk_row<T: MatrixOperator>(s: &[(usize, T)], row_bits: usize, col: usize, shift: usize, transpose: bool) -> (r: Option<(usize, Phase)>)
    ensures
        match r {
            Some((c, p)) => row_walk(s@, row_bits as int, col as int, shift as int, transpose) == Some((c as int, p)),
            None => row_walk(s@, row_bits as int, col as int, shift as int, transpose) is None,
        },
{
    let mut column = col;
    let mut prefac = Phase::One;
    let mut i: usize = 0;
    assert(s@.take(0) =~= Seq::<(usize, T)>::empty());
    while i < s.len()
        invariant
            0 <= i <= s@.len(),
            row_walk(s@.take(i as int), row_bits as int, col as int, shift as int, transpose) == Some((column as int, prefac)),
        decreases s.len() - i,
    {
        assert(s@.take(i + 1).drop_last() =~= s@.take(i as int));
        assert(s@.take(i + 1).last() == s@[i as int]);
        let (k, op) = s[i];
        if k >= usize::BITS as usize {
            proof {
                lemma_row_walk_none_extends(s@, row_bits as int, col as int, shift as int, transpose, i + 1);
            }
            return None;
        }
        let p = pow2_usize(k);
        proof {
            vstd::arithmetic::power2::lemma_pow2_pos(k as nat);
        }
        let b = (row_bits / p) % 2 == 1;
        let mut f = op.element_phase_exec(b);
        if transpose {
            f = f.mul(op.transpose_sign_exec());
        }
        if op.flips_exec() {
            if shift >= usize::BITS as usize - k {
                proof {
                    lemma_row_walk_none_extends(s@, row_bits as int, col as int, shift as int, transpose, i + 1);
                }
                return None;
            }
            let q = pow2_usize(k + shift);
            let next = if b { column.checked_sub(q) } else { column.checked_add(q) };
            match next {
                Some(c2) => {
                    column = c2;
                },
                None => {
                    proof {
                        lemma_row_walk_none_extends(s@, row_bits as int, col as int, shift as int, transpose, i + 1);
                    }
                    return None;
                },
            }
        }
        prefac = prefac.mul(f);
        i = i + 1;
    }
    assert(s@.take(s@.len() as int) =~= s@);
    Some((column, prefac))
}

/// A walk that fails over a prefix fails over the whole product.
proof fn lemma_row_walk_none_extends<T: MatrixOperator>(
    s: Seq<(usize, T)>,
    row_bits: int,
    col: int,
    shift: int,
    transpose: bool,
    n: int,
)
    requires
        0 <= n <= s.len(),
        row_walk(s.take(n), row_bits, col, shift, transpose) is None,
    ensures
        row_walk(s, row_bits, col, shift, transpose) is None,
{
    if row_walk(s, row_bits, col, shift, transpose) is Some {
        lemma_row_walk_prefix(s, row_bits, col, shift, transpose, n);
    }
}

/// A walk that succeeds over all entries succeeds over every prefix.
pub proof fn lemma_row_walk_prefix<T: MatrixOperator>(
    s: Seq<(usize, T)>,
    row_bits: int,
    col: int,
    shift: int,
    transpose: bool,
    n: int,
)
    requires
        0 <= n <= s.len(),
        row_walk(s, row_bits, col, shift, transpose) is Some,
    ensures
        row_walk(s.take(n), row_bits, col, shift, transpose) is Some,
    decreases s.len() - n,
{
    if n < s.len() {
        lemma_row_walk_prefix(s, row_bits, col, shift, transpose, n + 1);
        assert(s.take(n + 1).drop_last() =~= s.take(n));
    } else {
        assert(s.take(n) =~= s);
    }
}

// ----------------------------------------------------------------------------
// Bits of the basis index
// ----------------------------------------------------------------------------

/// A set bit `p` of `x` means `x` is at least `2^p`, and clearing it keeps
/// `x` below `2^n`.
proof fn lemma_clear_bit_bv(x: u64, p: u64, n: u64)
    by (bit_vector)
    requires
        p < n,
        n < 64,
        x < (1u64 << n),
        ((x >> p) & 1u64) == 1u64,
    ensures
        x >= (1u64 << p),
{
}

/// Setting a clear bit `p < n` of a number below `2^n` keeps it below `2^n`.
proof fn lemma_set_bit_bv(x: u64, p: u64, n: u64)
    by (bit_vector)
    requires
        p < n,
        n < 64,
        x < (1u64 << n),
        ((x >> p) & 1u64) != 1u64,
    ensures
        x + (1u64 << p) < (1u64 << n),
{
}

/// Clearing the set bit `p` keeps the bits above `p`.
proof fn lemma_clear_bit_high_bv(x: u64, y: u64, p: u64, j: u64)
    by (bit_vector)
    requires
        p < j,
        j < 64,
        ((x >> p) & 1u64) == 1u64,
        y == x - (1u64 << p),
    ensures
        (y >> j) == (x >> j),
{
}

/// Setting the clear bit `p` keeps the bits above `p`.
proof fn lemma_set_bit_high_bv(x: u64, y: u64, p: u64, j: u64)
    by (bit_vector)
    requires
        p < j,
        j < 64,
        ((x >> p) & 1u64) != 1u64,
        y == x + (1u64 << p),
    ensures
        (y >> j) == (x >> j),
{
}

/// Bit `p` of `x`, read off the shifted number.
proof fn lemma_bit_bv(y: u64)
    by (bit_vector)
    ensures
        ((y & 1u64) == 1u64) == (y % 2 == 1),
{
}

/// `2^n` as a shift, below `2^64`.
proof fn lemma_pow2_shl(n: nat)
    requires
        n < 64,
    ensures
        (1u64 << (n as u64)) == pow2(n),
        pow2(n) < u64::MAX,
{
    vstd::bits::lemma_u64_pow2_no_overflow(n);
    vstd::bits::lemma_u64_shl_is_mul(1u64, n as u64);
}

/// Division by `2^j` and remainder by `2^j` of a number below `2^64`, as shifts.
proof fn lemma_div_shr(x: int, j: nat)
    requires
        0 <= x <= u64::MAX,
        j < 64,
    ensures
        x / pow2(j) as int == ((x as u64) >> (j as u64)) as int,
        x % pow2(j) as int == ((x as u64) % (1u64 << (j as u64))) as int,
        bit_set(x, j) == ((((x as u64) >> (j as u64)) & 1u64) == 1u64),
{
    vstd::bits::lemma_u64_shr_is_div(x as u64, j as u64);
    lemma_pow2_shl(j);
    lemma_bit_bv((x as u64) >> (j as u64));
}

/// One step of a walk: flipping bit `p` of `c` as the walk does it stays
/// below `2^n` and keeps the bits above `p` and below `sh`.
proof fn lemma_flip(c: int, c2: int, p: nat, n: nat, sh: nat)
    requires
        p < n < 64,
        sh <= p,
        0 <= c < pow2(n),
        c2 == if bit_set(c, p) { c - pow2(p) } else { c + pow2(p) },
    ensures
        0 <= c2 < pow2(n),
        c2 % pow2(sh) as int == c % pow2(sh) as int,
        forall|j: nat| p < j < 64 ==> #[trigger] (c2 / pow2(j) as int) == c / pow2(j) as int,
{
    lemma_pow2_shl(n);
    lemma_pow2_shl(p);
    lemma_div_shr(c, p);
    let x = c as u64;
    if bit_set(c, p) {
        lemma_clear_bit_bv(x, p as u64, n as u64);
    } else {
        lemma_set_bit_bv(x, p as u64, n as u64);
    }
    let y = c2 as u64;
    assert forall|j: nat| p < j < 64 implies #[trigger] (c2 / pow2(j) as int) == c / pow2(j) as int by {
        if bit_set(c, p) {
            lemma_clear_bit_high_bv(x, y, p as u64, j as u64);
        } else {
            lemma_set_bit_high_bv(x, y, p as u64, j as u64);
        }
        lemma_div_shr(c, j);
        lemma_div_shr(c2, j);
    }
    // the bits below sh: 2^p is a multiple of 2^sh
    vstd::arithmetic::power2::lemma_pow2_adds((p - sh) as nat, sh);
    vstd::arithmetic::power2::lemma_pow2_pos(sh);
    let m = pow2((p - sh) as nat) as int;
    assert(pow2(p) as int == m * pow2(sh) as int);
    if bit_set(c, p) {
        vstd::arithmetic::div_mod::lemma_mod_multiples_vanish(-m, c, pow2(sh) as int);
        assert(c2 == pow2(sh) as int * (-m) + c) by (nonlinear_arith)
            requires
                c2 == c - pow2(p),
                pow2(p) as int == m * pow2(sh) as int;
    } else {
        vstd::arithmetic::div_mod::lemma_mod_multiples_vanish(m, c, pow2(sh) as int);
        assert(c2 == pow2(sh) as int * m + c) by (nonlinear_arith)
            requires
                c2 == c + pow2(p),
                pow2(p) as int == m * pow2(sh) as int;
    }
}

/// The bits of a number below bit `n` are those of its remainder by `2^n`.
proof fn lemma_low_bit_bv(x: u64, mask: u64, n: u64, k: u64)
    by (bit_vector)
    requires
        k < n,
        n < 64,
        mask == (1u64 << n) - 1u64,
    ensures
        (((x & mask) >> k) & 1u64) == ((x >> k) & 1u64),
{
}

/// Bit `k < n` of `x` is bit `k` of `x % 2^n`.
pub(crate) proof fn lemma_bit_of_mod(x: int, n: nat, k: nat)
    requires
        0 <= x <= u64::MAX,
        k < n < 64,
    ensures
        bit_set(x % pow2(n) as int, k) == bit_set(x, k),
{
    lemma_pow2_shl(n);
    vstd::arithmetic::power2::lemma_pow2_pos(n);
    let mask = vstd::bits::low_bits_mask(n) as u64;
    let m = (x as u64) & mask;
    vstd::bits::lemma_u64_low_bits_mask_is_mod(x as u64, n);
    assert(m == (x as u64) % (pow2(n) as u64));
    assert(m as int == x % pow2(n) as int);
    lemma_div_shr(x, k);
    lemma_div_shr(m as int, k);
    lemma_low_bit_bv(x as u64, mask, n as u64, k as u64);
}

/// Bit `k` of `x / 2^n` is bit `k + n` of `x`.
pub(crate) proof fn lemma_bit_of_div(x: int, n: nat, k: nat)
    requires
        0 <= x,
    ensures
        bit_set(x / pow2(n) as int, k) == bit_set(x, k + n),
{
    vstd::arithmetic::power2::lemma_pow2_pos(n);
    vstd::arithmetic::power2::lemma_pow2_pos(k);
    vstd::arithmetic::power2::lemma_pow2_adds(n, k);
    vstd::arithmetic::div_mod::lemma_div_denominator(x, pow2(n) as int, pow2(k) as int);
    assert(k + n == n + k);
}

// ----------------------------------------------------------------------------
// The walk finds the one nonzero entry of a row of the tensor-product matrix
// ----------------------------------------------------------------------------

/// The factor that bit `k` of the basis index contributes to the element in
/// row `row` and column `col` of the matrix of a product whose spin `j` sits
/// on bit `j + shift`: the entry of the matrix of the operator on that spin
/// (of its transpose, where `transpose`), or of the identity on the bits
/// where no operator acts.
pub open spec fn embedded_entry<T: MatrixOperator>(
    s: Seq<(usize, T)>,
    shift: nat,
    transpose: bool,
    row: int,
    col: int,
    k: nat,
) -> Option<Phase> {
    let r = bit_set(row, k);
    let c = bit_set(col, k);
    let identity = if r == c { Some(Phase::One) } else { None };
    if k >= shift {
        match lookup(s, (k - shift) as usize) {
            Some(op) => if transpose { op.entry(c, r) } else { op.entry(r, c) },
            None => identity,
        }
    } else {
        identity
    }
}

/// The product of the factors of bits `0 .. n`; `None` (a zero) as soon as
/// one factor is zero.
pub open spec fn sites_product(f: spec_fn(nat) -> Option<Phase>, n: nat) -> Option<Phase>
    decreases n,
{
    if n == 0 {
        Some(Phase::One)
    } else {
        match (sites_product(f, (n - 1) as nat), f((n - 1) as nat)) {
            (Some(a), Some(b)) => Some(a.times(b)),
            _ => None,
        }
    }
}

/// The element in row `row` and column `col` of the matrix on `m` bits of a
/// product whose spin `j` sits on bit `j + shift`: the tensor product, over
/// bits `0 .. m`, of the matrices of the operators (transposed, where
/// `transpose`) and of identities. `None` for a zero element.
pub open spec fn embedded_element<T: MatrixOperator>(
    s: Seq<(usize, T)>,
    m: nat,
    shift: nat,
    transpose: bool,
    row: int,
    col: int,
) -> Option<Phase> {
    sites_product(|k: nat| embedded_entry(s, shift, transpose, row, col, k), m)
}

/// The element in row `row` and column `col` of the matrix of a product on
/// `n` spins, spin `k` being bit `k` of the basis index: the tensor product
/// of the matrices of its operators and of identities.
pub open spec fn matrix_element<T: MatrixOperator>(s: Seq<(usize, T)>, n: nat, row: int, col: int) -> Option<Phase> {
    embedded_element(s, n, 0, false, row, col)
}

/// Bit `k` of the column of the one nonzero element in row `row`: the row's
/// bit, flipped where the operator on that bit flips the spin.
spec fn walked_bit<T: MatrixOperator>(s: Seq<(usize, T)>, shift: nat, row: int, k: nat) -> bool {
    if k >= shift {
        match lookup(s, (k - shift) as usize) {
            Some(op) => if op.flips() { !bit_set(row, k) } else { bit_set(row, k) },
            None => bit_set(row, k),
        }
    } else {
        bit_set(row, k)
    }
}

/// A product with a zero factor is zero.
proof fn lemma_sites_product_zero(f: spec_fn(nat) -> Option<Phase>, n: nat, k: nat)
    requires
        k < n,
        f(k) is None,
    ensures
        sites_product(f, n) is None,
    decreases n,
{
    if k < n - 1 {
        lemma_sites_product_zero(f, (n - 1) as nat, k);
    }
}

/// A product of ones is one.
proof fn lemma_sites_product_one(f: spec_fn(nat) -> Option<Phase>, n: nat)
    requires
        forall|k: nat| k < n ==> #[trigger] f(k) == Some(Phase::One),
    ensures
        sites_product(f, n) == Some(Phase::One),
    decreases n,
{
    if n > 0 {
        lemma_sites_product_one(f, (n - 1) as nat);
    }
}

/// Products of factors that agree are equal.
proof fn lemma_sites_product_same(f: spec_fn(nat) -> Option<Phase>, g: spec_fn(nat) -> Option<Phase>, n: nat)
    requires
        forall|k: nat| k < n ==> #[trigger] f(k) == g(k),
    ensures
        sites_product(f, n) == sites_product(g, n),
    decreases n,
{
    if n > 0 {
        lemma_sites_product_same(f, g, (n - 1) as nat);
    }
}

/// Replacing a factor one by `x` multiplies the product by `x`.
proof fn lemma_sites_product_change(f: spec_fn(nat) -> Option<Phase>, g: spec_fn(nat) -> Option<Phase>, n: nat, k0: nat, x: Phase)
    requires
        k0 < n,
        forall|k: nat| k < n && k != k0 ==> #[trigger] f(k) == g(k),
        g(k0) == Some(Phase::One),
        f(k0) == Some(x),
    ensures
        sites_product(f, n) == match sites_product(g, n) {
            Some(a) => Some(a.times(x)),
            None => None::<Phase>,
        },
    decreases n,
{
    let m = (n - 1) as nat;
    if m == k0 {
        lemma_sites_product_same(f, g, m);
        if let Some(a) = sites_product(g, m) {
            lemma_phase_group(a, x, Phase::One);
        }
    } else {
        lemma_sites_product_change(f, g, m, k0, x);
        if let (Some(a), Some(b)) = (sites_product(g, m), g(m)) {
            lemma_phase_group(a, x, b);
            lemma_phase_group(a, b, x);
            lemma_phase_group(x, b, a);
        }
    }
}

/// The product of factors that are products is the product of the products.
proof fn lemma_sites_product_mul(
    f: spec_fn(nat) -> Option<Phase>,
    g: spec_fn(nat) -> Option<Phase>,
    h: spec_fn(nat) -> Option<Phase>,
    n: nat,
)
    requires
        forall|k: nat| k < n ==> #[trigger] h(k) == match (f(k), g(k)) {
            (Some(a), Some(b)) => Some(a.times(b)),
            _ => None::<Phase>,
        },
    ensures
        sites_product(h, n) == match (sites_product(f, n), sites_product(g, n)) {
            (Some(a), Some(b)) => Some(a.times(b)),
            _ => None::<Phase>,
        },
    decreases n,
{
    if n > 0 {
        let m = (n - 1) as nat;
        lemma_sites_product_mul(f, g, h, m);
        if let (Some(a), Some(b), Some(x), Some(y)) = (sites_product(f, m), sites_product(g, m), f(m), g(m)) {
            lemma_phase_interchange(a, b, x, y);
        }
    }
}

/// Clearing the set bit `p` clears it.
proof fn lemma_clear_bit_self_bv(x: u64, y: u64, p: u64)
    by (bit_vector)
    requires
        p < 64,
        ((x >> p) & 1u64) == 1u64,
        y == x - (1u64 << p),
    ensures
        ((y >> p) & 1u64) != 1u64,
{
}

/// Setting the clear bit `p` sets it.
proof fn lemma_set_bit_self_bv(x: u64, y: u64, p: u64)
    by (bit_vector)
    requires
        p < 64,
        ((x >> p) & 1u64) != 1u64,
        y == x + (1u64 << p),
    ensures
        ((y >> p) & 1u64) == 1u64,
{
}

/// Flipping bit `p` of a number below `2^n` flips that bit, keeps every other
/// bit, and stays below `2^n`.
proof fn lemma_flip_bits(c: int, c2: int, p: nat, n: nat)
    requires
        p < n < 64,
        0 <= c < pow2(n),
        c2 == if bit_set(c, p) { c - pow2(p) } else { c + pow2(p) },
    ensures
        0 <= c2 < pow2(n),
        bit_set(c2, p) == !bit_set(c, p),
        forall|k: nat| k < 64 && k != p ==> #[trigger] bit_set(c2, k) == bit_set(c, k),
{
    lemma_flip(c, c2, p, n, p);
    lemma_pow2_shl(n);
    lemma_pow2_shl(p);
    lemma_div_shr(c, p);
    lemma_div_shr(c2, p);
    if bit_set(c, p) {
        lemma_clear_bit_self_bv(c as u64, c2 as u64, p as u64);
    } else {
        lemma_set_bit_self_bv(c as u64, c2 as u64, p as u64);
    }
    assert forall|k: nat| k < 64 && k != p implies #[trigger] bit_set(c2, k) == bit_set(c, k) by {
        if k < p {
            lemma_bit_of_mod(c, p, k);
            lemma_bit_of_mod(c2, p, k);
        } else {
            assert(c2 / pow2(k) as int == c / pow2(k) as int);
        }
    }
}

/// Two numbers below `2^n` with the same bits below `n` are equal.
proof fn lemma_bits_determine(x: int, y: int, n: nat)
    requires
        0 <= x < pow2(n),
        0 <= y < pow2(n),
        forall|k: nat| k < n ==> #[trigger] bit_set(x, k) == bit_set(y, k),
    ensures
        x == y,
    decreases n,
{
    if n == 0 {
        vstd::arithmetic::power2::lemma2_to64();
    } else {
        let m = (n - 1) as nat;
        vstd::arithmetic::power2::lemma_pow2_unfold(n);
        vstd::arithmetic::power2::lemma2_to64();
        assert(bit_set(x, 0) == bit_set(y, 0));
        assert(x % 2 == y % 2);
        assert forall|k: nat| k < m implies #[trigger] bit_set(x / 2, k) == bit_set(y / 2, k) by {
            lemma_bit_of_div(x, 1, k);
            lemma_bit_of_div(y, 1, k);
            assert(bit_set(x, k + 1) == bit_set(y, k + 1));
        }
        lemma_bits_determine(x / 2, y / 2, m);
    }
}

/// What a spin reads in a product with each spin named once, against what it
/// reads without the last entry.
proof fn lemma_lookup_last<T>(s: Seq<(usize, T)>, j: usize)
    requires
        index_increasing(s),
        s.len() > 0,
    ensures
        lookup(s, j) == if j == s.last().0 { Some(s.last().1) } else { lookup(s.drop_last(), j) },
        lookup(s.drop_last(), s.last().0) is None,
{
    let u = s.drop_last();
    lemma_lookup_increasing(s, j);
    lemma_lookup_increasing(u, j);
    if j == s.last().0 {
        assert(s[s.len() - 1].0 == j);
    } else if has_index(u, j) {
        let i = choose|i: int| 0 <= i < u.len() && (#[trigger] u[i]).0 == j;
        assert(s[i] == u[i]);
    } else {
        assert forall|i: int| 0 <= i < s.len() implies (#[trigger] s[i]).0 != j by {
            if i < s.len() - 1 {
                assert(s[i] == u[i]);
            }
        }
    }
    lemma_lookup_none(u, s.last().0);
    if has_index(u, s.last().0) {
        let i = choose|i: int| 0 <= i < u.len() && (#[trigger] u[i]).0 == s.last().0;
        assert(u[i] == s[i]);
    }
}

/// The walk over a product with each spin named once, spin `j` on bit
/// `j + shift` below `m`, from column `row` (whose bits at the spins' bits
/// are the row bits the walk reads) ends in the column whose bits are
/// `walked_bit`, and its phase is the matrix element there.
proof fn lemma_row_walk_embedded<T: MatrixOperator>(
    s: Seq<(usize, T)>,
    row_bits: int,
    row: int,
    shift: nat,
    transpose: bool,
    m: nat,
)
    requires
        index_increasing(s),
        m < usize::BITS,
        forall|i: int| 0 <= i < s.len() ==> (#[trigger] s[i]).0 + shift < m,
        forall|i: int| 0 <= i < s.len() ==> bit_set(row_bits, (#[trigger] s[i]).0 as nat) == bit_set(row, (s[i].0 + shift) as nat),
        0 <= row < pow2(m),
    ensures
        row_walk(s, row_bits, row, shift as int, transpose) matches Some((c, ph)) && {
            &&& 0 <= c < pow2(m)
            &&& forall|k: nat| k < m ==> #[trigger] bit_set(c, k) == walked_bit(s, shift, row, k)
            &&& embedded_element(s, m, shift, transpose, row, c) == Some(ph)
        },
    decreases s.len(),
{
    vstd::bits::lemma_usize_pow2_no_overflow(m);
    if s.len() == 0 {
        assert forall|k: nat| k < m implies #[trigger] embedded_entry(s, shift, transpose, row, row, k) == Some(Phase::One) by {
            if k >= shift {
                lemma_lookup_none(s, (k - shift) as usize);
            }
        }
        assert forall|k: nat| k < m implies #[trigger] bit_set(row, k) == walked_bit(s, shift, row, k) by {
            if k >= shift {
                lemma_lookup_none(s, (k - shift) as usize);
            }
        }
        lemma_sites_product_one(|k: nat| embedded_entry(s, shift, transpose, row, row, k), m);
    } else {
        let u = s.drop_last();
        assert forall|i: int, j: int| 0 <= i < j < u.len() implies u[i].0 < u[j].0 by {
            assert(u[i] == s[i] && u[j] == s[j]);
        }
        assert forall|i: int| 0 <= i < u.len() implies (#[trigger] u[i]).0 + shift < m by {
            assert(u[i] == s[i]);
        }
        assert forall|i: int| 0 <= i < u.len() implies bit_set(row_bits, (#[trigger] u[i]).0 as nat) == bit_set(row, (u[i].0 + shift) as nat) by {
            assert(u[i] == s[i]);
        }
        lemma_row_walk_embedded(u, row_bits, row, shift, transpose, m);
        let (cu, phu) = row_walk(u, row_bits, row, shift as int, transpose).unwrap();
        let (k0, op) = s.last();
        let p = (k0 + shift) as nat;
        assert(s[s.len() - 1].0 + shift < m);
        assert(bit_set(row_bits, k0 as nat) == bit_set(row, p));
        assert forall|k: nat| k < m && k >= shift implies #[trigger] lookup(s, (k - shift) as usize) == if k == p {
            Some(op)
        } else {
            lookup(u, (k - shift) as usize)
        } by {
            lemma_lookup_last(s, (k - shift) as usize);
        }
        lemma_lookup_last(s, k0);
        let b = bit_set(row, p);
        assert(bit_set(cu, p) == b);
        let f_op = if transpose { op.element_phase(b).times(op.transpose_sign()) } else { op.element_phase(b) };
        let c = if op.flips() { if b { cu - pow2(p) } else { cu + pow2(p) } } else { cu };
        let ph = phu.times(f_op);
        if op.flips() {
            lemma_flip_bits(cu, c, p, m);
        }
        assert(row_walk(s, row_bits, row, shift as int, transpose) == Some((c, ph)));
        assert forall|k: nat| k < m implies #[trigger] bit_set(c, k) == walked_bit(s, shift, row, k) by {
            if k != p {
                assert(bit_set(cu, k) == walked_bit(u, shift, row, k));
            }
        }
        let f = |k: nat| embedded_entry(s, shift, transpose, row, c, k);
        let g = |k: nat| embedded_entry(u, shift, transpose, row, cu, k);
        assert forall|k: nat| k < m && k != p implies #[trigger] f(k) == g(k) by {
            assert(bit_set(c, k) == bit_set(cu, k));
        }
        op.lemma_entry(b, bit_set(c, p));
        lemma_sites_product_change(f, g, m, p, f_op);
    }
}

/// A factor is zero where the column's bit is not the walked bit.
proof fn lemma_embedded_entry_zero<T: MatrixOperator>(
    s: Seq<(usize, T)>,
    shift: nat,
    transpose: bool,
    row: int,
    col: int,
    k: nat,
)
    requires
        bit_set(col, k) != walked_bit(s, shift, row, k),
    ensures
        embedded_entry(s, shift, transpose, row, col, k) is None,
{
    if k >= shift {
        match lookup(s, (k - shift) as usize) {
            Some(op) => {
                op.lemma_entry(bit_set(row, k), bit_set(col, k));
            },
            None => {},
        }
    }
}

/// Two numbers below `2^m` that differ differ in a bit below `m`.
proof fn lemma_differing_bit(x: int, y: int, m: nat) -> (k: nat)
    requires
        m < 64,
        0 <= x < pow2(m),
        0 <= y < pow2(m),
        x != y,
    ensures
        k < m,
        bit_set(x, k) != bit_set(y, k),
{
    if forall|k: nat| k < m ==> #[trigger] bit_set(x, k) == bit_set(y, k) {
        lemma_bits_determine(x, y, m);
    }
    choose|k: nat| k < m && #[trigger] bit_set(x, k) != bit_set(y, k)
}

/// Every element of row `row` but the one in the column with the bits
/// `walked_bit` is zero.
proof fn lemma_embedded_row_zero<T: MatrixOperator>(
    s: Seq<(usize, T)>,
    m: nat,
    shift: nat,
    transpose: bool,
    row: int,
    c: int,
    col: int,
)
    requires
        m < 64,
        0 <= c < pow2(m),
        0 <= col < pow2(m),
        col != c,
        forall|k: nat| k < m ==> #[trigger] bit_set(c, k) == walked_bit(s, shift, row, k),
    ensures
        embedded_element(s, m, shift, transpose, row, col) is None,
{
    let k = lemma_differing_bit(col, c, m);
    lemma_embedded_entry_zero(s, shift, transpose, row, col, k);
    lemma_sites_product_zero(|j: nat| embedded_entry(s, shift, transpose, row, col, j), m, k);
}

/// Every row of the matrix of a product has exactly one nonzero element, and
/// the walk finds it: for a product with each spin named once, all spins
/// below `n`, and a row below `2^n`, the walk from the row ends in a column
/// below `2^n` whose matrix element is the walk's phase, and every other
/// element of the row is zero.
pub proof fn lemma_row_walk_matrix_element<T: MatrixOperator>(s: Seq<(usize, T)>, row: int, n: nat)
    requires
        index_increasing(s),
        n < usize::BITS,
        forall|i: int| 0 <= i < s.len() ==> (#[trigger] s[i]).0 < n,
        0 <= row < pow2(n),
    ensures
        row_walk(s, row, row, 0, false) matches Some((c, ph)) && {
            &&& 0 <= c < pow2(n)
            &&& matrix_element(s, n, row, c) == Some(ph)
            &&& forall|col: int| 0 <= col < pow2(n) && col != c ==> matrix_element(s, n, row, col) is None
        },
{
    assert forall|i: int| 0 <= i < s.len() implies (#[trigger] s[i]).0 + 0nat < n by {}
    assert forall|i: int| 0 <= i < s.len() implies bit_set(row, (#[trigger] s[i]).0 as nat) == bit_set(row, (s[i].0 + 0nat) as nat) by {}
    lemma_row_walk_embedded(s, row, row, 0, false, n);
    let (c, ph) = row_walk(s, row, row, 0, false).unwrap();
    assert forall|col: int| 0 <= col < pow2(n) && col != c implies matrix_element(s, n, row, col) is None by {
        lemma_embedded_row_zero(s, n, 0, false, row, c, col);
    }
}

/// The walks of the superoperators of a product `H` on `n` spins (dimension
/// `2^(2n)`, `p` flattened row-major, so that `H p` is `H (x) 1` and `p H`
/// is `1 (x) H^T`) find the one nonzero element of row `row` of `H (x) 1`
/// (spin `j` on bit `j + n`), of `1 (x) H^T` (spin `j` on bit `j`,
/// transposed) and of `1 (x) H`: every other element of those rows is zero.
pub proof fn lemma_superoperator_matrix_elements<T: MatrixOperator>(s: Seq<(usize, T)>, row: int, n: nat)
    requires
        index_increasing(s),
        2 * n < usize::BITS,
        forall|i: int| 0 <= i < s.len() ==> (#[trigger] s[i]).0 < n,
        0 <= row < pow2(2 * n),
    ensures
        row_walk(s, row / pow2(n) as int, row, n as int, false) matches Some((c, ph)) && {
            &&& 0 <= c < pow2(2 * n)
            &&& embedded_element(s, 2 * n, n, false, row, c) == Some(ph)
            &&& forall|col: int| 0 <= col < pow2(2 * n) && col != c ==> (#[trigger] embedded_element(s, 2 * n, n, false, row, col)) is None
        },
        forall|transpose: bool| #[trigger] row_walk(s, row % pow2(n) as int, row, 0, transpose) matches Some((c, ph)) && {
            &&& 0 <= c < pow2(2 * n)
            &&& embedded_element(s, 2 * n, 0, transpose, row, c) == Some(ph)
            &&& forall|col: int| 0 <= col < pow2(2 * n) && col != c ==> (#[trigger] embedded_element(s, 2 * n, 0, transpose, row, col)) is None
        },
{
    let m = (2 * n) as nat;
    vstd::arithmetic::power2::lemma_pow2_pos(n);
    assert forall|i: int| 0 <= i < s.len() implies (#[trigger] s[i]).0 + n < m by {}
    assert forall|i: int| 0 <= i < s.len() implies
        bit_set(row / pow2(n) as int, (#[trigger] s[i]).0 as nat) == bit_set(row, (s[i].0 + n) as nat) by {
        lemma_bit_of_div(row, n, s[i].0 as nat);
    }
    lemma_row_walk_embedded(s, row / pow2(n) as int, row, n, false, m);
    let (c1, _) = row_walk(s, row / pow2(n) as int, row, n as int, false).unwrap();
    assert forall|col: int| 0 <= col < pow2(m) && col != c1 implies (#[trigger] embedded_element(s, m, n, false, row, col)) is None by {
        lemma_embedded_row_zero(s, m, n, false, row, c1, col);
    }
    assert forall|i: int| 0 <= i < s.len() implies (#[trigger] s[i]).0 + 0nat < m by {}
    assert forall|i: int| 0 <= i < s.len() implies
        bit_set(row % pow2(n) as int, (#[trigger] s[i]).0 as nat) == bit_set(row, (s[i].0 + 0nat) as nat) by {
        vstd::bits::lemma_u64_pow2_no_overflow(m);
        lemma_bit_of_mod(row, n, s[i].0 as nat);
    }
    assert forall|transpose: bool| #[trigger] row_walk(s, row % pow2(n) as int, row, 0, transpose) matches Some((c, ph)) && {
        &&& 0 <= c < pow2(m)
        &&& embedded_element(s, m, 0, transpose, row, c) == Some(ph)
        &&& forall|col: int| 0 <= col < pow2(m) && col != c ==> (#[trigger] embedded_element(s, m, 0, transpose, row, col)) is None
    } by {
        lemma_row_walk_embedded(s, row % pow2(n) as int, row, 0, transpose, m);
        let (c2, _) = row_walk(s, row % pow2(n) as int, row, 0, transpose).unwrap();
        assert forall|col: int| 0 <= col < pow2(m) && col != c2 implies (#[trigger] embedded_element(s, m, 0, transpose, row, col)) is None by {
            lemma_embedded_row_zero(s, m, 0, transpose, row, c2, col);
        }
    }
}

/// The element in row `row` and column `col` of the tensor product, on `2n`
/// bits, of the matrix of `left` on the high `n` bits (spin `j` on bit
/// `j + n`) and the matrix of `right` on the low `n` bits.
pub open spec fn kron_element<T: MatrixOperator>(
    left: Seq<(usize, T)>,
    right: Seq<(usize, T)>,
    n: nat,
    row: int,
    col: int,
) -> Option<Phase> {
    sites_product(
        |k: nat| if k >= n { embedded_entry(left, n, false, row, col, k) } else { embedded_entry(right, 0, false, row, col, k) },
        2 * n,
    )
}

/// Walking `left` on the high half of the row index and then `right` on the
/// low half finds the one nonzero element of row `row` of the tensor product
/// of their matrices: for products with each spin named once, all spins
/// below `n`, and a row below `2^(2n)`, both walks succeed, the second ends
/// in a column below `2^(2n)` whose element is the product of their phases,
/// and every other element of the row is zero.
pub proof fn lemma_kron_walk_element<T: MatrixOperator>(left: Seq<(usize, T)>, right: Seq<(usize, T)>, row: int, n: nat)
    requires
        index_increasing(left),
        index_increasing(right),
        2 * n < usize::BITS,
        forall|i: int| 0 <= i < left.len() ==> (#[trigger] left[i]).0 < n,
        forall|i: int| 0 <= i < right.len() ==> (#[trigger] right[i]).0 < n,
        0 <= row < pow2(2 * n),
    ensures
        row_walk(left, row / pow2(n) as int, row, n as int, false) matches Some((c1, p1))
            && row_walk(right, row % pow2(n) as int, c1, 0, false) matches Some((c2, p2)) && {
            &&& 0 <= c2 < pow2(2 * n)
            &&& kron_element(left, right, n, row, c2) == Some(p1.times(p2))
            &&& forall|col: int| 0 <= col < pow2(2 * n) && col != c2 ==> (#[trigger] kron_element(left, right, n, row, col)) is None
        },
{
    let m = (2 * n) as nat;
    vstd::arithmetic::power2::lemma_pow2_pos(n);
    vstd::bits::lemma_u64_pow2_no_overflow(m);
    // the walk of `left` on the high half
    assert forall|i: int| 0 <= i < left.len() implies (#[trigger] left[i]).0 + n < m by {}
    assert forall|i: int| 0 <= i < left.len() implies
        bit_set(row / pow2(n) as int, (#[trigger] left[i]).0 as nat) == bit_set(row, (left[i].0 + n) as nat) by {
        lemma_bit_of_div(row, n, left[i].0 as nat);
    }
    lemma_row_walk_embedded(left, row / pow2(n) as int, row, n, false, m);
    let (c1, p1) = row_walk(left, row / pow2(n) as int, row, n as int, false).unwrap();
    // the walk of `right` on the low half, from where the first one ended
    assert forall|i: int| 0 <= i < right.len() implies (#[trigger] right[i]).0 + 0nat < m by {}
    assert forall|i: int| 0 <= i < right.len() implies
        bit_set(row % pow2(n) as int, (#[trigger] right[i]).0 as nat) == bit_set(c1, (right[i].0 + 0nat) as nat) by {
        lemma_bit_of_mod(row, n, right[i].0 as nat);
        assert(bit_set(c1, right[i].0 as nat) == walked_bit(left, n, row, right[i].0 as nat));
    }
    lemma_row_walk_embedded(right, row % pow2(n) as int, c1, 0, false, m);
    let (c2, p2) = row_walk(right, row % pow2(n) as int, c1, 0, false).unwrap();
    // each bit is moved by one of the two products, the other one leaves it
    let a = |k: nat| embedded_entry(left, n, false, row, c1, k);
    let b = |k: nat| embedded_entry(right, 0, false, c1, c2, k);
    let h = |k: nat| if k >= n { embedded_entry(left, n, false, row, c2, k) } else { embedded_entry(right, 0, false, row, c2, k) };
    assert forall|k: nat| k < m implies #[trigger] h(k) == match (a(k), b(k)) {
        (Some(x), Some(y)) => Some(x.times(y)),
        _ => None::<Phase>,
    } by {
        if k >= n {
            assert(bit_set(c2, k) == walked_bit(right, 0, c1, k));
            assert forall|i: int| 0 <= i < right.len() implies (#[trigger] right[i]).0 != k as usize by {}
            lemma_lookup_none(right, k as usize);
            assert(b(k) == Some(Phase::One));
            if let Some(x) = a(k) {
                lemma_phase_group(x, Phase::One, Phase::One);
            }
        } else {
            assert(bit_set(c1, k) == walked_bit(left, n, row, k));
            assert(a(k) == Some(Phase::One));
            if let Some(y) = b(k) {
                lemma_phase_group(y, Phase::One, Phase::One);
            }
        }
    }
    lemma_sites_product_mul(a, b, h, m);
    // every other column of the row holds a zero
    assert forall|col: int| 0 <= col < pow2(m) && col != c2 implies (#[trigger] kron_element(left, right, n, row, col)) is None by {
        let k = lemma_differing_bit(col, c2, m);
        if k >= n {
            assert(bit_set(c2, k) == walked_bit(right, 0, c1, k));
            lemma_lookup_none(right, k as usize);
            assert forall|i: int| 0 <= i < right.len() implies (#[trigger] right[i]).0 != k as usize by {}
            assert(bit_set(c1, k) == walked_bit(left, n, row, k));
            lemma_embedded_entry_zero(left, n, false, row, col, k);
        } else {
            assert(bit_set(c1, k) == walked_bit(left, n, row, k));
            assert(bit_set(c2, k) == walked_bit(right, 0, c1, k));
            lemma_embedded_entry_zero(right, 0, false, c1, col, k);
            assert(embedded_entry(right, 0, false, row, col, k) == embedded_entry(right, 0, false, c1, col, k));
        }
        lemma_sites_product_zero(
            |j: nat| if j >= n { embedded_entry(left, n, false, row, col, j) } else { embedded_entry(right, 0, false, row, col, j) },
            m,
            k,
        );
    }
}

/// The product, over the entries of a product, of the signs that
/// transposing their matrices multiplies the entries with.
pub open spec fn transpose_signs<T: MatrixOperator>(s: Seq<(usize, T)>) -> Phase
    decreases s.len(),
{
    if s.len() == 0 {
        Phase::One
    } else {
        transpose_signs(s.drop_last()).times(s.last().1.transpose_sign())
    }
}

/// The walk over the transposed matrices ends in the same column, with its
/// phase multiplied by `transpose_signs`.
pub proof fn lemma_row_walk_transpose<T: MatrixOperator>(s: Seq<(usize, T)>, row_bits: int, col: int, shift: int)
    ensures
        row_walk(s, row_bits, col, shift, true) == match row_walk(s, row_bits, col, shift, false) {
            Some((c, ph)) => Some((c, ph.times(transpose_signs(s)))),
            None => None::<(int, Phase)>,
        },
    decreases s.len(),
{
    if s.len() > 0 {
        let u = s.drop_last();
        lemma_row_walk_transpose(u, row_bits, col, shift);
        if let Some((c, ph)) = row_walk(u, row_bits, col, shift, false) {
            let (k, op) = s.last();
            if k < usize::BITS {
                let e = op.element_phase(bit_set(row_bits, k as nat));
                lemma_phase_interchange(ph, transpose_signs(u), e, op.transpose_sign());
            }
        }
    }
}

} // verus!
