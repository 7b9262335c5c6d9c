//! The sequence model shared by the three product types: a product is a
//! sequence of `(spin index, single-site operator)` pairs, kept in order of
//! the index and free of identities.

use vstd::prelude::*;

verus! {

/// What the product types need to know of a single-site operator.
pub trait SingleOperator: Copy + Sized {
    /// Whether the operator is the identity.
    spec fn spec_is_identity(self) -> bool;

    /// Whether the operator is the identity.
    fn is_identity(&self) -> (r: bool)
        ensures
            r == self.spec_is_identity(),
    ;

    /// The symbol the operator is written with.
    spec fn symbol(self) -> Seq<char>;

    /// The operator a symbol stands for, if any.
    spec fn parse_symbol(s: Seq<char>) -> Option<Self>;

    /// The position of the operator in the order of its variants.
    spec fn rank(self) -> int;

    /// Whether two operators are the same.
    fn same_as(&self, other: &Self) -> (r: bool)
        ensures
            r == (*self == *other),
    ;

    /// The position of the operator in the order of its variants.
    fn rank_of(&self) -> (r: u8)
        ensures
            r as int == self.rank(),
    ;

    /// Appends the symbol of the operator to `s`.
    fn push_symbol(&self, s: &mut String)
        ensures
            final(s)@ == old(s)@ + self.symbol(),
    ;

    /// The operator a symbol stands for, if any.
    fn from_symbol(s: &[char]) -> (r: Option<Self>)
        ensures
            r == Self::parse_symbol(s@),
    ;

    /// A symbol is read back as the operator it was written for; different
    /// operators have different ranks; symbols are short runs of ASCII
    /// letters, `+` and `-`.
    proof fn lemma_symbol(self, other: Self)
        ensures
            Self::parse_symbol(self.symbol()) == Some(self),
            self.rank() == other.rank() <==> self == other,
            0 <= self.rank() < 4,
            1 <= self.symbol().len() <= 2,
            forall|i: int| 0 <= i < self.symbol().len() ==> crate::text::symbol_char(#[trigger] self.symbol()[i]),
    ;
}

/// Single-site operators that form a product with a phase.
pub trait MultiplicativeOperator: SingleOperator {
    /// The product of two single-site operators and its phase.
    spec fn spec_times(self, other: Self) -> (Self, crate::phase::Phase);

    /// The product of two single-site operators and its phase.
    fn times_op(self, other: Self) -> (r: (Self, crate::phase::Phase))
        ensures
            r == self.spec_times(other),
    ;

    /// The identity operator.
    spec fn spec_identity() -> Self;

    /// The single-site operators with their phases form a group: the product
    /// is associative (phases included), the identity is its unit with phase
    /// 1, and the identity is the one operator that is the identity.
    proof fn lemma_times_group(a: Self, b: Self, c: Self)
        ensures
            Self::spec_identity().spec_is_identity(),
            a.spec_is_identity() ==> a == Self::spec_identity(),
            Self::spec_identity().spec_times(a) == (a, crate::phase::Phase::One),
            a.spec_times(Self::spec_identity()) == (a, crate::phase::Phase::One),
            a.spec_times(b).0.spec_times(c).0 == a.spec_times(b.spec_times(c).0).0,
            a.spec_times(b).1.times(a.spec_times(b).0.spec_times(c).1)
                == b.spec_times(c).1.times(a.spec_times(b.spec_times(c).0).1),
    ;
}

/// The indices never decrease along the sequence.
pub open spec fn index_nondecreasing<T>(s: Seq<(usize, T)>) -> bool {
    forall|i: int, j: int| 0 <= i < j < s.len() ==> s[i].0 <= s[j].0
}

/// The indices strictly increase along the sequence: no spin appears twice.
pub open spec fn index_increasing<T>(s: Seq<(usize, T)>) -> bool {
    forall|i: int, j: int| 0 <= i < j < s.len() ==> s[i].0 < s[j].0
}

/// No entry of the sequence is an identity.
pub open spec fn no_identity<T: SingleOperator>(s: Seq<(usize, T)>) -> bool {
    forall|i: int| 0 <= i < s.len() ==> !(#[trigger] s[i]).1.spec_is_identity()
}

/// What a well-formed product holds: no identities, indices in order.
pub open spec fn items_wf<T: SingleOperator>(s: Seq<(usize, T)>) -> bool {
    no_identity(s) && index_nondecreasing(s)
}

/// Whether some entry acts on spin `k`.
pub open spec fn has_index<T>(s: Seq<(usize, T)>, k: usize) -> bool {
    exists|i: int| 0 <= i < s.len() && (#[trigger] s[i]).0 == k
}

/// The operator of the first entry on spin `k`, if there is one.
pub open spec fn lookup<T>(s: Seq<(usize, T)>, k: usize) -> Option<T>
    decreases s.len(),
{
    if s.len() == 0 {
        None
    } else if s[0].0 == k {
        Some(s[0].1)
    } else {
        lookup(s.drop_first(), k)
    }
}

/// The position of the first entry whose index is at least `k` (the length if there is none).
pub open spec fn first_at_least<T>(s: Seq<(usize, T)>, k: usize) -> int
    decreases s.len(),
{
    if s.len() == 0 {
        0
    } else if s[0].0 >= k {
        0
    } else {
        1 + first_at_least(s.drop_first(), k)
    }
}

/// The entries after setting spin `k` to `op`: the first entry at or past
/// `k` is replaced (or dropped, for the identity) when it acts on `k`;
/// otherwise a new entry is put before it (nothing, for the identity).
pub open spec fn set_items<T: SingleOperator>(s: Seq<(usize, T)>, k: usize, op: T) -> Seq<(usize, T)> {
    let p = first_at_least(s, k);
    if p < s.len() && s[p].0 == k {
        if op.spec_is_identity() {
            s.remove(p)
        } else {
            s.update(p, (k, op))
        }
    } else if op.spec_is_identity() {
        s
    } else {
        s.insert(p, (k, op))
    }
}

/// How many entries have an index of at most `k`.
pub open spec fn count_at_most<T>(s: Seq<(usize, T)>, k: usize) -> nat
    decreases s.len(),
{
    if s.len() == 0 {
        0
    } else {
        count_at_most(s.drop_last(), k) + if s.last().0 <= k { 1nat } else { 0nat }
    }
}

/// `x` put into the ordered sequence `t` after every entry whose index is at most its own.
pub open spec fn insert_sorted<T>(t: Seq<(usize, T)>, x: (usize, T)) -> Seq<(usize, T)> {
    t.insert(count_at_most(t, x.0) as int, x)
}

/// The entries ordered by index, entries with equal index kept in their order (a stable sort).
pub open spec fn sort_by_index<T>(s: Seq<(usize, T)>) -> Seq<(usize, T)>
    decreases s.len(),
{
    if s.len() == 0 {
        s
    } else {
        insert_sorted(sort_by_index(s.drop_last()), s.last())
    }
}

/// The spin indices of the entries, in order.
pub open spec fn indices<T>(s: Seq<(usize, T)>) -> Seq<usize> {
    s.map_values(|e: (usize, T)| e.0)
}

/// The first `n` entries of `l` multiplied into an empty product, in order:
/// each entry of `l` is set on the result, multiplied by the entry of `r` on
/// the same spin where there is one; the phases of those products multiply up.
pub open spec fn mul_left_fold<T: MultiplicativeOperator>(
    l: Seq<(usize, T)>,
    r: Seq<(usize, T)>,
    n: nat,
) -> (Seq<(usize, T)>, crate::phase::Phase)
    decreases n,
{
    if n == 0 || n > l.len() {
        (Seq::empty(), crate::phase::Phase::One)
    } else {
        let (acc, ph) = mul_left_fold(l, r, (n - 1) as nat);
        let (k, lo) = l[n - 1];
        match lookup(r, k) {
            Some(ro) => {
                let (p, f) = lo.spec_times(ro);
                (set_items(acc, k, p), ph.times(f))
            },
            None => (set_items(acc, k, lo), ph),
        }
    }
}

/// The first `n` entries of `r` that act on spins `l` leaves free, set on `acc` in order.
pub open spec fn mul_right_fold<T: SingleOperator>(
    l: Seq<(usize, T)>,
    r: Seq<(usize, T)>,
    acc: Seq<(usize, T)>,
    n: nat,
) -> Seq<(usize, T)>
    decreases n,
{
    if n == 0 || n > r.len() {
        acc
    } else {
        let a = mul_right_fold(l, r, acc, (n - 1) as nat);
        let (k, ro) = r[n - 1];
        if lookup(l, k) is None {
            set_items(a, k, ro)
        } else {
            a
        }
    }
}

/// The entries of the product `l * r`.
pub open spec fn mul_items<T: MultiplicativeOperator>(l: Seq<(usize, T)>, r: Seq<(usize, T)>) -> Seq<(usize, T)> {
    mul_right_fold(l, r, mul_left_fold(l, r, l.len()).0, r.len())
}

/// The phase of the product `l * r`.
pub open spec fn mul_phase<T: MultiplicativeOperator>(l: Seq<(usize, T)>, r: Seq<(usize, T)>) -> crate::phase::Phase {
    mul_left_fold(l, r, l.len()).1
}

/// What the product of two products holds on one spin, given what each factor holds there.
pub open spec fn mul_site<T: MultiplicativeOperator>(a: Option<T>, b: Option<T>) -> Option<T> {
    match (a, b) {
        (Some(x), Some(y)) => if x.spec_times(y).0.spec_is_identity() { None } else { Some(x.spec_times(y).0) },
        (Some(x), None) => Some(x),
        (None, Some(y)) => Some(y),
        (None, None) => None,
    }
}

/// `s` with the entries of `e` set on it one after the other.
pub open spec fn set_all<T: SingleOperator>(s: Seq<(usize, T)>, e: Seq<(usize, T)>) -> Seq<(usize, T)>
    decreases e.len(),
{
    if e.len() == 0 {
        s
    } else {
        let (k, op) = e.last();
        set_items(set_all(s, e.drop_last()), k, op)
    }
}

/// The first spin of `o` that is already taken, scanning `o` in order and
/// counting the spins of `s` and of the entries of `o` before it.
pub open spec fn first_conflict<T>(s: Seq<(usize, T)>, o: Seq<(usize, T)>) -> Option<usize>
    decreases o.len(),
{
    if o.len() == 0 {
        None
    } else if has_index(s, o[0].0) {
        Some(o[0].0)
    } else {
        first_conflict(s.push(o[0]), o.drop_first())
    }
}

/// The entries with each spin renamed by `m` (spins `m` does not name stay), then sorted stably by spin.
pub open spec fn remap_items<T>(s: Seq<(usize, T)>, m: Map<usize, usize>) -> Seq<(usize, T)> {
    sort_by_index(rename_items(s, m))
}

/// The entries with each spin renamed by `m` (spins `m` does not name stay), in their order.
pub open spec fn rename_items<T>(s: Seq<(usize, T)>, m: Map<usize, usize>) -> Seq<(usize, T)> {
    s.map_values(|e: (usize, T)| (if m.contains_key(e.0) { m[e.0] } else { e.0 }, e.1))
}

/// The number of iY entries of a decoherence product.
pub open spec fn count_iy(s: Seq<(usize, crate::single::SingleDecoherenceOperator)>) -> nat
    decreases s.len(),
{
    if s.len() == 0 {
        0
    } else {
        count_iy(s.drop_last()) + if s.last().1 == crate::single::SingleDecoherenceOperator::IY { 1nat } else { 0nat }
    }
}

/// The sign a decoherence product picks up under hermitian conjugation: -1
/// for an odd number of iY, +1 otherwise.
pub open spec fn hermitian_sign(s: Seq<(usize, crate::single::SingleDecoherenceOperator)>) -> i8 {
    if count_iy(s) % 2 == 1 {
        -1i8
    } else {
        1i8
    }
}

/// The conjugate of a plus/minus operator: sigma+ and sigma- trade places.
pub open spec fn conjugate_single(op: crate::single::SinglePlusMinusOperator) -> crate::single::SinglePlusMinusOperator {
    match op {
        crate::single::SinglePlusMinusOperator::Plus => crate::single::SinglePlusMinusOperator::Minus,
        crate::single::SinglePlusMinusOperator::Minus => crate::single::SinglePlusMinusOperator::Plus,
        other => other,
    }
}

/// The entries of a plus/minus product with each operator conjugated.
pub open spec fn conjugate_items(
    s: Seq<(usize, crate::single::SinglePlusMinusOperator)>,
) -> Seq<(usize, crate::single::SinglePlusMinusOperator)> {
    s.map_values(|e: (usize, crate::single::SinglePlusMinusOperator)| (e.0, conjugate_single(e.1)))
}

// ----------------------------------------------------------------------------
// Lemmas on the model
// ----------------------------------------------------------------------------

/// `first_at_least` is the position of the first entry at or past `k`.
pub proof fn lemma_first_at_least<T>(s: Seq<(usize, T)>, k: usize)
    ensures
        0 <= first_at_least(s, k) <= s.len(),
        forall|i: int| 0 <= i < first_at_least(s, k) ==> (#[trigger] s[i]).0 < k,
        first_at_least(s, k) < s.len() ==> s[first_at_least(s, k)].0 >= k,
    decreases s.len(),
{
    if s.len() > 0 && s[0].0 < k {
        lemma_first_at_least(s.drop_first(), k);
        assert forall|i: int| 0 <= i < first_at_least(s, k) implies (#[trigger] s[i]).0 < k by {
            if i > 0 {
                assert(s[i] == s.drop_first()[i - 1]);
            }
        }
    }
}

/// The first entry on `k` decides `lookup`.
pub proof fn lemma_lookup_first<T>(s: Seq<(usize, T)>, k: usize, i: int)
    requires
        0 <= i < s.len(),
        s[i].0 == k,
        forall|j: int| 0 <= j < i ==> (#[trigger] s[j]).0 != k,
    ensures
        lookup(s, k) == Some(s[i].1),
    decreases s.len(),
{
    if i > 0 {
        assert(s[0].0 != k);
        assert forall|j: int| 0 <= j < i - 1 implies (#[trigger] s.drop_first()[j]).0 != k by {
            assert(s.drop_first()[j] == s[j + 1]);
        }
        lemma_lookup_first(s.drop_first(), k, i - 1);
    }
}

/// Without an entry on `k`, `lookup` finds nothing; with one, it finds something.
pub proof fn lemma_lookup_none<T>(s: Seq<(usize, T)>, k: usize)
    ensures
        lookup(s, k) is None <==> !has_index(s, k),
        lookup(s, k) is Some ==> exists|i: int|
            0 <= i < s.len() && (#[trigger] s[i]).0 == k && lookup(s, k) == Some(s[i].1),
    decreases s.len(),
{
    if s.len() > 0 {
        lemma_lookup_none(s.drop_first(), k);
        if s[0].0 != k {
            if has_index(s, k) {
                let i = choose|i: int| 0 <= i < s.len() && (#[trigger] s[i]).0 == k;
                assert(s.drop_first()[i - 1] == s[i]);
            }
            if has_index(s.drop_first(), k) {
                let i = choose|i: int| 0 <= i < s.drop_first().len() && (#[trigger] s.drop_first()[i]).0 == k;
                assert(s[i + 1] == s.drop_first()[i]);
            }
            if lookup(s, k) is Some {
                let i = choose|i: int|
                    0 <= i < s.drop_first().len() && (#[trigger] s.drop_first()[i]).0 == k
                        && lookup(s.drop_first(), k) == Some(s.drop_first()[i].1);
                assert(s[i + 1] == s.drop_first()[i]);
            }
        } else {
            assert(s[0].0 == k);
        }
    }
}

/// In a sequence with strictly increasing indices, `lookup` finds the one entry on `k`.
pub proof fn lemma_lookup_increasing<T>(s: Seq<(usize, T)>, k: usize)
    requires
        index_increasing(s),
    ensures
        forall|i: int| 0 <= i < s.len() && (#[trigger] s[i]).0 == k ==> lookup(s, k) == Some(s[i].1),
        !has_index(s, k) ==> lookup(s, k) is None,
{
    assert forall|i: int| 0 <= i < s.len() && (#[trigger] s[i]).0 == k implies lookup(s, k) == Some(s[i].1) by {
        lemma_lookup_first(s, k, i);
    }
    lemma_lookup_none(s, k);
}

/// Setting a spin keeps a well-formed sequence well-formed.
pub proof fn lemma_set_items_wf<T: SingleOperator>(s: Seq<(usize, T)>, k: usize, op: T)
    requires
        items_wf(s),
    ensures
        items_wf(set_items(s, k, op)),
        index_increasing(s) ==> index_increasing(set_items(s, k, op)),
{
    lemma_first_at_least(s, k);
    let p = first_at_least(s, k);
    let r = set_items(s, k, op);
    if p < s.len() && s[p].0 == k {
        if op.spec_is_identity() {
            assert forall|i: int| 0 <= i < r.len() implies !(#[trigger] r[i]).1.spec_is_identity() by {
                if i < p { assert(r[i] == s[i]); } else { assert(r[i] == s[i + 1]); }
            }
            assert forall|i: int, j: int| 0 <= i < j < r.len() implies r[i].0 <= r[j].0 by {
                let ii = if i < p { i } else { i + 1 };
                let jj = if j < p { j } else { j + 1 };
                assert(r[i] == s[ii]);
                assert(r[j] == s[jj]);
            }
            if index_increasing(s) {
                assert forall|i: int, j: int| 0 <= i < j < r.len() implies r[i].0 < r[j].0 by {
                    let ii = if i < p { i } else { i + 1 };
                    let jj = if j < p { j } else { j + 1 };
                    assert(r[i] == s[ii]);
                    assert(r[j] == s[jj]);
                }
            }
        } else {
            assert forall|i: int| 0 <= i < r.len() implies !(#[trigger] r[i]).1.spec_is_identity() by {
                if i != p { assert(r[i] == s[i]); }
            }
            assert forall|i: int, j: int| 0 <= i < j < r.len() implies r[i].0 <= r[j].0 by {
                assert(s[i].0 <= s[j].0);
            }
            if index_increasing(s) {
                assert forall|i: int, j: int| 0 <= i < j < r.len() implies r[i].0 < r[j].0 by {
                    assert(s[i].0 < s[j].0);
                }
            }
        }
    } else if !op.spec_is_identity() {
        assert forall|i: int| 0 <= i < r.len() implies !(#[trigger] r[i]).1.spec_is_identity() by {
            if i < p { assert(r[i] == s[i]); } else if i > p { assert(r[i] == s[i - 1]); }
        }
        assert forall|i: int, j: int| 0 <= i < j < r.len() implies r[i].0 <= r[j].0 by {
            if j < p {
                assert(r[i] == s[i] && r[j] == s[j]);
            } else if j == p {
                assert(r[i] == s[i]);
            } else if i < p {
                assert(r[i] == s[i] && r[j] == s[j - 1]);
                assert(s[p].0 >= k);
                assert(s[p].0 <= s[j - 1].0);
            } else if i == p {
                assert(r[j] == s[j - 1]);
                assert(s[p].0 <= s[j - 1].0);
            } else {
                assert(r[i] == s[i - 1] && r[j] == s[j - 1]);
            }
        }
        if index_increasing(s) {
            assert forall|i: int, j: int| 0 <= i < j < r.len() implies r[i].0 < r[j].0 by {
                if j < p {
                    assert(r[i] == s[i] && r[j] == s[j]);
                } else if j == p {
                    assert(r[i] == s[i]);
                } else if i < p {
                    assert(r[i] == s[i] && r[j] == s[j - 1]);
                    assert(s[p].0 != k);
                    assert(s[p].0 <= s[j - 1].0);
                } else if i == p {
                    assert(r[j] == s[j - 1]);
                    assert(s[p].0 != k);
                    assert(s[p].0 <= s[j - 1].0);
                } else {
                    assert(r[i] == s[i - 1] && r[j] == s[j - 1]);
                }
            }
        }
    }
}

/// What setting a spin puts in place of the entry it replaces: nothing for
/// the identity, the new entry otherwise.
pub open spec fn set_middle<T: SingleOperator>(k: usize, op: T) -> Seq<(usize, T)> {
    if op.spec_is_identity() {
        Seq::empty()
    } else {
        seq![(k, op)]
    }
}

/// The position of the first entry that setting spin `k` keeps after the new
/// one: past the entry it replaces, if the first entry at or past `k` acts on `k`.
pub open spec fn set_end<T>(s: Seq<(usize, T)>, k: usize) -> int {
    let p = first_at_least(s, k);
    if p < s.len() && s[p].0 == k {
        p + 1
    } else {
        p
    }
}

/// A position before which every entry is below `k`, and at which the entry
/// (if any) is at least `k`, is `first_at_least`.
pub proof fn lemma_first_at_least_unique<T>(s: Seq<(usize, T)>, k: usize, p: int)
    requires
        0 <= p <= s.len(),
        forall|i: int| 0 <= i < p ==> (#[trigger] s[i]).0 < k,
        p < s.len() ==> s[p].0 >= k,
    ensures
        first_at_least(s, k) == p,
    decreases s.len(),
{
    if p > 0 {
        assert(s[0].0 < k);
        assert forall|i: int| 0 <= i < p - 1 implies (#[trigger] s.drop_first()[i]).0 < k by {
            assert(s.drop_first()[i] == s[i + 1]);
        }
        if p - 1 < s.drop_first().len() {
            assert(s.drop_first()[p - 1] == s[p]);
        }
        lemma_first_at_least_unique(s.drop_first(), k, p - 1);
    }
}

/// Setting spin `k` keeps the entries before `first_at_least` and from
/// `set_end` on, and puts `set_middle` between them.
pub proof fn lemma_set_items_split<T: SingleOperator>(s: Seq<(usize, T)>, k: usize, op: T)
    ensures
        0 <= first_at_least(s, k) <= set_end(s, k) <= s.len(),
        set_items(s, k, op) == s.take(first_at_least(s, k)) + set_middle(k, op) + s.skip(set_end(s, k)),
{
    lemma_first_at_least(s, k);
    let p = first_at_least(s, k);
    let r = set_items(s, k, op);
    let q = set_end(s, k);
    let m = set_middle(k, op);
    assert(r =~= s.take(p) + m + s.skip(q));
}

/// Setting an operator on a spin past all spins of the product appends it.
pub proof fn lemma_set_items_append<T: SingleOperator>(s: Seq<(usize, T)>, k: usize, op: T)
    requires
        forall|i: int| 0 <= i < s.len() ==> (#[trigger] s[i]).0 < k,
        !op.spec_is_identity(),
    ensures
        set_items(s, k, op) == s.push((k, op)),
{
    lemma_first_at_least(s, k);
    let p = first_at_least(s, k);
    if p < s.len() {
        assert(s[p].0 < k);
    }
    assert(s.insert(s.len() as int, (k, op)) =~= s.push((k, op)));
}

/// Reading a spin back after setting it: on a product where no spin appears
/// twice, setting spin `k` to `op` makes spin `k` read `op` (nothing for the
/// identity) and leaves every other spin as it was.
pub proof fn lemma_lookup_set_items<T: SingleOperator>(s: Seq<(usize, T)>, k: usize, op: T, j: usize)
    requires
        items_wf(s),
        index_increasing(s),
    ensures
        lookup(set_items(s, k, op), j) == if j == k {
            if op.spec_is_identity() { None } else { Some(op) }
        } else {
            lookup(s, j)
        },
{
    lemma_set_items_wf(s, k, op);
    lemma_first_at_least(s, k);
    let r = set_items(s, k, op);
    let p = first_at_least(s, k);
    lemma_lookup_increasing(s, j);
    lemma_lookup_increasing(r, j);
    if p < s.len() && s[p].0 == k {
        if op.spec_is_identity() {
            if has_index(r, j) {
                let i = choose|i: int| 0 <= i < r.len() && (#[trigger] r[i]).0 == j;
                if i < p { assert(r[i] == s[i]); } else { assert(r[i] == s[i + 1]); }
            }
            if j != k && has_index(s, j) {
                let i = choose|i: int| 0 <= i < s.len() && (#[trigger] s[i]).0 == j;
                if i < p { assert(r[i] == s[i]); } else { assert(r[i - 1] == s[i]); }
            }
        } else {
            assert(r[p] == (k, op));
            if has_index(r, j) {
                let i = choose|i: int| 0 <= i < r.len() && (#[trigger] r[i]).0 == j;
                if i != p { assert(r[i] == s[i]); }
            }
            if j != k && has_index(s, j) {
                let i = choose|i: int| 0 <= i < s.len() && (#[trigger] s[i]).0 == j;
                assert(r[i] == s[i]);
            }
        }
    } else {
        assert(!has_index(s, k)) by {
            if has_index(s, k) {
                let i = choose|i: int| 0 <= i < s.len() && (#[trigger] s[i]).0 == k;
                if i < p {
                } else if i > p {
                    assert(s[p].0 < s[i].0);
                }
            }
        }
        if !op.spec_is_identity() {
            assert(r[p] == (k, op));
            if has_index(r, j) {
                let i = choose|i: int| 0 <= i < r.len() && (#[trigger] r[i]).0 == j;
                if i < p { assert(r[i] == s[i]); } else if i > p { assert(r[i] == s[i - 1]); }
            }
            if j != k && has_index(s, j) {
                let i = choose|i: int| 0 <= i < s.len() && (#[trigger] s[i]).0 == j;
                if i < p { assert(r[i] == s[i]); } else { assert(r[i + 1] == s[i]); }
            }
        }
    }
}

// ----------------------------------------------------------------------------
// Executable helpers on slices and vectors
// ----------------------------------------------------------------------------

/// The position of the first entry whose index is at least `k`.
pub fn find_slot<T: Copy>(items: &[(usize, T)], k: usize) -> (p: usize)
    ensures
        p == first_at_least(items@, k),
{
    proof {
        lemma_first_at_least(items@, k);
    }
    let mut i: usize = 0;
    while i < items.len()
        invariant
            0 <= i <= items.len(),
            forall|j: int| 0 <= j < i ==> (#[trigger] items@[j]).0 < k,
            0 <= first_at_least(items@, k) <= items@.len(),
            forall|j: int| 0 <= j < first_at_least(items@, k) ==> (#[trigger] items@[j]).0 < k,
            first_at_least(items@, k) < items@.len() ==> items@[first_at_least(items@, k)].0 >= k,
        decreases items.len() - i,
    {
        if items[i].0 >= k {
            return i;
        }
        i = i + 1;
    }
    i
}

/// The operator of the first entry on spin `k`.
pub fn lookup_slice<T: Copy>(items: &[(usize, T)], k: usize) -> (r: Option<T>)
    ensures
        r == lookup(items@, k),
{
    let mut i: usize = 0;
    assert(items@.skip(0) =~= items@);
    while i < items.len()
        invariant
            0 <= i <= items.len(),
            lookup(items@, k) == lookup(items@.skip(i as int), k),
        decreases items.len() - i,
    {
        assert(items@.skip(i as int).drop_first() =~= items@.skip(i + 1));
        if items[i].0 == k {
            return Some(items[i].1);
        }
        i = i + 1;
    }
    None
}

/// Whether some entry acts on spin `k`.
pub fn has_index_slice<T: Copy>(items: &[(usize, T)], k: usize) -> (r: bool)
    ensures
        r == has_index(items@, k),
{
    let mut i: usize = 0;
    while i < items.len()
        invariant
            0 <= i <= items.len(),
            forall|j: int| 0 <= j < i ==> (#[trigger] items@[j]).0 != k,
        decreases items.len() - i,
    {
        if items[i].0 == k {
            return true;
        }
        i = i + 1;
    }
    false
}

/// The number of entries with an index of at most `k`, in an ordered sequence.
proof fn lemma_count_at_most_prefix<T>(t: Seq<(usize, T)>, k: usize)
    requires
        index_nondecreasing(t),
    ensures
        count_at_most(t, k) <= t.len(),
        forall|i: int| 0 <= i < count_at_most(t, k) ==> (#[trigger] t[i]).0 <= k,
        forall|i: int| count_at_most(t, k) <= i < t.len() ==> (#[trigger] t[i]).0 > k,
    decreases t.len(),
{
    if t.len() > 0 {
        let u = t.drop_last();
        assert forall|i: int, j: int| 0 <= i < j < u.len() implies u[i].0 <= u[j].0 by {
            assert(u[i] == t[i] && u[j] == t[j]);
        }
        lemma_count_at_most_prefix(u, k);
        assert forall|i: int| 0 <= i < count_at_most(t, k) implies (#[trigger] t[i]).0 <= k by {
            if i < u.len() {
                assert(t[i] == u[i]);
            }
        }
        assert forall|i: int| count_at_most(t, k) <= i < t.len() implies (#[trigger] t[i]).0 > k by {
            if i < u.len() {
                assert(t[i] == u[i]);
                assert(t[i].0 <= t.last().0);
            }
        }
    }
}

/// Putting an entry into an ordered sequence keeps it ordered.
proof fn lemma_insert_sorted<T>(t: Seq<(usize, T)>, x: (usize, T))
    requires
        index_nondecreasing(t),
    ensures
        index_nondecreasing(insert_sorted(t, x)),
        insert_sorted(t, x).to_multiset() =~= t.to_multiset().insert(x),
{
    lemma_count_at_most_prefix(t, x.0);
    let c = count_at_most(t, x.0) as int;
    let r = insert_sorted(t, x);
    assert forall|i: int, j: int| 0 <= i < j < r.len() implies r[i].0 <= r[j].0 by {
        if j < c {
            assert(r[i] == t[i] && r[j] == t[j]);
        } else if j == c {
            assert(r[i] == t[i]);
        } else if i < c {
            assert(r[i] == t[i] && r[j] == t[j - 1]);
        } else if i == c {
            assert(r[j] == t[j - 1]);
        } else {
            assert(r[i] == t[i - 1] && r[j] == t[j - 1]);
        }
    }
    t.to_multiset_ensures();
    assert(r =~= t.subrange(0, c).push(x) + t.subrange(c, t.len() as int));
    vstd::seq_lib::lemma_multiset_commutative(t.subrange(0, c).push(x), t.subrange(c, t.len() as int));
    vstd::seq_lib::lemma_multiset_commutative(t.subrange(0, c), t.subrange(c, t.len() as int));
    assert(t =~= t.subrange(0, c) + t.subrange(c, t.len() as int));
    t.subrange(0, c).to_multiset_ensures();
}

/// The stable sort orders the entries and keeps each of them.
pub proof fn lemma_sort_by_index<T>(s: Seq<(usize, T)>)
    ensures
        index_nondecreasing(sort_by_index(s)),
        sort_by_index(s).to_multiset() =~= s.to_multiset(),
        sort_by_index(s).len() == s.len(),
    decreases s.len(),
{
    if s.len() > 0 {
        lemma_sort_by_index(s.drop_last());
        lemma_insert_sorted(sort_by_index(s.drop_last()), s.last());
        s.drop_last().to_multiset_ensures();
        assert(s =~= s.drop_last().push(s.last()));
        sort_by_index(s).to_multiset_ensures();
        sort_by_index(s.drop_last()).to_multiset_ensures();
    }
}

/// Every entry of `s` is in `t` when the two hold the same entries.
pub proof fn lemma_multiset_in<T>(s: Seq<T>, t: Seq<T>, i: int)
    requires
        s.to_multiset() =~= t.to_multiset(),
        0 <= i < s.len(),
    ensures
        exists|j: int| 0 <= j < t.len() && t[j] == s[i],
{
    s.to_multiset_ensures();
    t.to_multiset_ensures();
    assert(s.contains(s[i]));
    assert(s.to_multiset().count(s[i]) > 0);
    assert(t.to_multiset().count(s[i]) > 0);
    assert(t.contains(s[i]));
}

/// The stable sort keeps the identity-free property.
pub proof fn lemma_sort_no_identity<T: SingleOperator>(s: Seq<(usize, T)>)
    requires
        no_identity(s),
    ensures
        items_wf(sort_by_index(s)),
{
    lemma_sort_by_index(s);
    let r = sort_by_index(s);
    assert forall|i: int| 0 <= i < r.len() implies !(#[trigger] r[i]).1.spec_is_identity() by {
        lemma_multiset_in(r, s, i);
    }
}

/// Sorts entries by index, keeping entries with equal index in their order.
pub fn sort_items<T: Copy>(v: Vec<(usize, T)>) -> (r: Vec<(usize, T)>)
    ensures
        r@ == sort_by_index(v@),
{
    let mut out: Vec<(usize, T)> = Vec::with_capacity(v.len());
    let mut i: usize = 0;
    while i < v.len()
        invariant
            0 <= i <= v.len(),
            out@ == sort_by_index(v@.subrange(0, i as int)),
        decreases v.len() - i,
    {
        let x = v[i];
        proof {
            lemma_sort_by_index(v@.subrange(0, i as int));
            lemma_count_at_most_prefix(out@, x.0);
        }
        // count the entries of `out` with index at most x.0: they form a prefix
        let mut c: usize = 0;
        while c < out.len() && out[c].0 <= x.0
            invariant
                0 <= c <= out.len(),
                out@ == sort_by_index(v@.subrange(0, i as int)),
                forall|j: int| 0 <= j < c ==> (#[trigger] out@[j]).0 <= x.0,
                c <= count_at_most(out@, x.0),
                forall|j: int| 0 <= j < count_at_most(out@, x.0) ==> (#[trigger] out@[j]).0 <= x.0,
                forall|j: int| count_at_most(out@, x.0) <= j < out@.len() ==> (#[trigger] out@[j]).0 > x.0,
                count_at_most(out@, x.0) <= out@.len(),
            decreases out.len() - c,
        {
            c = c + 1;
        }
        assert(c == count_at_most(out@, x.0));
        out.insert(c, x);
        assert(v@.subrange(0, i + 1).drop_last() =~= v@.subrange(0, i as int));
        assert(v@.subrange(0, i + 1).last() == x);
        i = i + 1;
    }
    assert(v@.subrange(0, v.len() as int) =~= v@);
    out
}

/// Sorting a sequence that is already ordered changes nothing.
pub proof fn lemma_sort_sorted<T>(s: Seq<(usize, T)>)
    requires
        index_nondecreasing(s),
    ensures
        sort_by_index(s) == s,
    decreases s.len(),
{
    if s.len() > 0 {
        let u = s.drop_last();
        assert forall|i: int, j: int| 0 <= i < j < u.len() implies u[i].0 <= u[j].0 by {
            assert(u[i] == s[i] && u[j] == s[j]);
        }
        lemma_sort_sorted(u);
        lemma_count_at_most_all(u, s.last().0);
        assert(insert_sorted(u, s.last()) =~= s);
    }
}

/// When every index is at most `k`, all entries count.
proof fn lemma_count_at_most_all<T>(t: Seq<(usize, T)>, k: usize)
    requires
        forall|i: int| 0 <= i < t.len() ==> (#[trigger] t[i]).0 <= k,
    ensures
        count_at_most(t, k) == t.len(),
    decreases t.len(),
{
    if t.len() > 0 {
        let u = t.drop_last();
        assert forall|i: int| 0 <= i < u.len() implies (#[trigger] u[i]).0 <= k by {
            assert(u[i] == t[i]);
        }
        lemma_count_at_most_all(u, k);
    }
}


/// Looking up a spin in two sequences one after the other: the first one
/// decides where it acts on the spin.
pub proof fn lemma_lookup_append<T>(a: Seq<(usize, T)>, b: Seq<(usize, T)>, k: usize)
    ensures
        lookup(a + b, k) == if has_index(a, k) { lookup(a, k) } else { lookup(b, k) },
        has_index(a + b, k) == (has_index(a, k) || has_index(b, k)),
    decreases a.len(),
{
    if a.len() == 0 {
        assert(a + b =~= b);
    } else {
        lemma_lookup_append(a.drop_first(), b, k);
        assert((a + b).drop_first() =~= a.drop_first() + b);
        assert((a + b)[0] == a[0]);
        if has_index(a + b, k) {
            let i = choose|i: int| 0 <= i < (a + b).len() && (#[trigger] (a + b)[i]).0 == k;
            if i > 0 {
                assert((a + b)[i] == (a.drop_first() + b)[i - 1]);
            }
        }
        if has_index(a.drop_first(), k) {
            let i = choose|i: int| 0 <= i < a.drop_first().len() && (#[trigger] a.drop_first()[i]).0 == k;
            assert(a[i + 1] == a.drop_first()[i]);
        }
        if has_index(a.drop_first() + b, k) {
            let i = choose|i: int| 0 <= i < (a.drop_first() + b).len() && (#[trigger] (a.drop_first() + b)[i]).0 == k;
            assert((a + b)[i + 1] == (a.drop_first() + b)[i]);
        }
        if has_index(a, k) && a[0].0 != k {
            let i = choose|i: int| 0 <= i < a.len() && (#[trigger] a[i]).0 == k;
            assert(a.drop_first()[i - 1] == a[i]);
        }
    }
}

/// A single entry reads its operator on its own spin and nothing elsewhere.
proof fn lemma_lookup_single<T>(x: (usize, T), k: usize)
    ensures
        lookup(seq![x], k) == if x.0 == k { Some(x.1) } else { None::<T> },
        has_index(seq![x], k) == (x.0 == k),
{
    assert(seq![x].drop_first() =~= Seq::<(usize, T)>::empty());
    assert(lookup(Seq::<(usize, T)>::empty(), k) is None);
    if x.0 == k {
        assert(seq![x][0].0 == k);
    }
}

/// Putting an entry into an ordered sequence after every entry whose index
/// is at most its own: the spins the sequence acts on read as before, and
/// the new entry is read only where the sequence does not act.
proof fn lemma_lookup_insert_sorted<T>(t: Seq<(usize, T)>, x: (usize, T), k: usize)
    requires
        index_nondecreasing(t),
    ensures
        lookup(insert_sorted(t, x), k) == if has_index(t, k) {
            lookup(t, k)
        } else if x.0 == k {
            Some(x.1)
        } else {
            None::<T>
        },
        has_index(insert_sorted(t, x), k) == (has_index(t, k) || x.0 == k),
{
    lemma_count_at_most_prefix(t, x.0);
    let c = count_at_most(t, x.0) as int;
    let p = t.take(c);
    let q = t.skip(c);
    assert(insert_sorted(t, x) =~= p + (seq![x] + q));
    assert(t =~= p + q);
    lemma_lookup_append(p, seq![x] + q, k);
    lemma_lookup_append(seq![x], q, k);
    lemma_lookup_append(p, q, k);
    lemma_lookup_none(q, k);
    lemma_lookup_none(t, k);
    if x.0 == k && has_index(q, k) {
        let i = choose|i: int| 0 <= i < q.len() && (#[trigger] q[i]).0 == k;
        assert(q[i] == t[c + i]);
    }
    lemma_lookup_single(x, k);
}

/// The stable sort keeps what each spin reads: the first entry on a spin
/// stays the first one.
pub proof fn lemma_sort_lookup<T>(s: Seq<(usize, T)>, k: usize)
    ensures
        lookup(sort_by_index(s), k) == lookup(s, k),
        has_index(sort_by_index(s), k) == has_index(s, k),
    decreases s.len(),
{
    if s.len() > 0 {
        let u = s.drop_last();
        let x = s.last();
        lemma_sort_lookup(u, k);
        lemma_sort_by_index(u);
        lemma_lookup_insert_sorted(sort_by_index(u), x, k);
        assert(s =~= u + seq![x]);
        lemma_lookup_append(u, seq![x], k);
        lemma_lookup_none(u, k);
        lemma_lookup_single(x, k);
    }
}

/// Sorting entries that name each spin at most once orders them strictly.
pub proof fn lemma_sort_increasing<T>(s: Seq<(usize, T)>)
    requires
        forall|i: int, j: int| 0 <= i < j < s.len() ==> s[i].0 != s[j].0,
    ensures
        index_increasing(sort_by_index(s)),
    decreases s.len(),
{
    if s.len() > 0 {
        let u = s.drop_last();
        let x = s.last();
        assert forall|i: int, j: int| 0 <= i < j < u.len() implies u[i].0 != u[j].0 by {
            assert(u[i] == s[i] && u[j] == s[j]);
        }
        lemma_sort_increasing(u);
        lemma_sort_by_index(u);
        lemma_sort_lookup(u, x.0);
        let t = sort_by_index(u);
        assert(!has_index(u, x.0)) by {
            if has_index(u, x.0) {
                let i = choose|i: int| 0 <= i < u.len() && (#[trigger] u[i]).0 == x.0;
                assert(s[i] == u[i]);
            }
        }
        lemma_count_at_most_prefix(t, x.0);
        let c = count_at_most(t, x.0) as int;
        let r = insert_sorted(t, x);
        assert forall|i: int, j: int| 0 <= i < j < r.len() implies r[i].0 < r[j].0 by {
            if j < c {
                assert(r[i] == t[i] && r[j] == t[j]);
            } else if j == c {
                assert(r[i] == t[i]);
                assert(t[i].0 != x.0);
            } else if i < c {
                assert(r[i] == t[i] && r[j] == t[j - 1]);
            } else if i == c {
                assert(r[j] == t[j - 1]);
            } else {
                assert(r[i] == t[i - 1] && r[j] == t[j - 1]);
            }
        }
    }
}

/// Scanning `o` for its first spin already taken, when `o` names each spin
/// once: there is none exactly when no spin of `o` is a spin of `s`, and a
/// spin found is a spin of both.
pub proof fn lemma_first_conflict<T>(s: Seq<(usize, T)>, o: Seq<(usize, T)>)
    requires
        index_increasing(o),
    ensures
        first_conflict(s, o) is None <==> forall|j: int| 0 <= j < o.len() ==> !has_index(s, (#[trigger] o[j]).0),
        first_conflict(s, o) matches Some(k) ==> has_index(s, k) && has_index(o, k),
    decreases o.len(),
{
    if o.len() > 0 {
        let x = o[0];
        let o1 = o.drop_first();
        assert forall|i: int, j: int| 0 <= i < j < o1.len() implies o1[i].0 < o1[j].0 by {
            assert(o1[i] == o[i + 1] && o1[j] == o[j + 1]);
        }
        if !has_index(s, x.0) {
            lemma_first_conflict(s.push(x), o1);
            assert forall|j: int| 0 <= j < o1.len() implies
                has_index(s.push(x), (#[trigger] o1[j]).0) == has_index(s, o1[j].0) by {
                assert(o1[j] == o[j + 1]);
                assert(o[0].0 < o[j + 1].0);
                lemma_lookup_append(s, seq![x], o1[j].0);
                assert(s.push(x) =~= s + seq![x]);
                assert(!has_index(seq![x], o1[j].0)) by {
                    if has_index(seq![x], o1[j].0) {
                        let i = choose|i: int| 0 <= i < 1 && (#[trigger] seq![x][i]).0 == o1[j].0;
                    }
                }
            }
            if forall|j: int| 0 <= j < o1.len() ==> !has_index(s.push(x), (#[trigger] o1[j]).0) {
                assert forall|j: int| 0 <= j < o.len() implies !has_index(s, (#[trigger] o[j]).0) by {
                    if j > 0 {
                        assert(o[j] == o1[j - 1]);
                    }
                }
            } else {
                let j = choose|j: int| 0 <= j < o1.len() && has_index(s.push(x), (#[trigger] o1[j]).0);
                assert(o1[j] == o[j + 1]);
            }
            if let Some(k) = first_conflict(s, o) {
                let i = choose|i: int| 0 <= i < o1.len() && (#[trigger] o1[i]).0 == k;
                assert(o1[i] == o[i + 1]);
                lemma_lookup_append(s, seq![x], k);
                assert(s.push(x) =~= s + seq![x]);
                assert(o[0].0 < o[i + 1].0);
                assert(!has_index(seq![x], k)) by {
                    if has_index(seq![x], k) {
                        let i = choose|i: int| 0 <= i < 1 && (#[trigger] seq![x][i]).0 == k;
                    }
                }
            }
        } else {
            assert(o[0].0 == x.0);
        }
    }
}

/// What the left fold of a multiplication holds on each spin.
proof fn lemma_mul_left_fold<T: MultiplicativeOperator>(l: Seq<(usize, T)>, r: Seq<(usize, T)>, n: nat, k: usize)
    requires
        items_wf(l),
        index_increasing(l),
        n <= l.len(),
    ensures
        items_wf(mul_left_fold(l, r, n).0),
        index_increasing(mul_left_fold(l, r, n).0),
        lookup(mul_left_fold(l, r, n).0, k) == if has_index(l.take(n as int), k) {
            mul_site(lookup(l, k), lookup(r, k))
        } else {
            None
        },
    decreases n,
{
    let acc = mul_left_fold(l, r, n).0;
    if n == 0 {
        assert(!has_index(l.take(0), k));
    } else {
        let prev = mul_left_fold(l, r, (n - 1) as nat).0;
        lemma_mul_left_fold(l, r, (n - 1) as nat, k);
        let (key, lo) = l[n - 1];
        let op = match lookup(r, key) {
            Some(ro) => lo.spec_times(ro).0,
            None => lo,
        };
        assert(acc == set_items(prev, key, op));
        lemma_set_items_wf(prev, key, op);
        lemma_lookup_set_items(prev, key, op, k);
        lemma_lookup_increasing(l, key);
        assert(l[n - 1].0 == key);
        assert(lookup(l, key) == Some(lo));
        assert(!lo.spec_is_identity());
        if k == key {
            assert(l.take(n as int)[n - 1] == l[n - 1]);
        } else {
            assert(has_index(l.take(n as int), k) == has_index(l.take(n - 1), k)) by {
                if has_index(l.take(n as int), k) {
                    let i = choose|i: int| 0 <= i < l.take(n as int).len() && (#[trigger] l.take(n as int)[i]).0 == k;
                    assert(l.take(n - 1)[i] == l.take(n as int)[i]);
                }
                if has_index(l.take(n - 1), k) {
                    let i = choose|i: int| 0 <= i < l.take(n - 1).len() && (#[trigger] l.take(n - 1)[i]).0 == k;
                    assert(l.take(n - 1)[i] == l.take(n as int)[i]);
                }
            }
        }
    }
}

/// What the right fold of a multiplication holds on each spin.
proof fn lemma_mul_right_fold<T: MultiplicativeOperator>(
    l: Seq<(usize, T)>,
    r: Seq<(usize, T)>,
    acc: Seq<(usize, T)>,
    n: nat,
    k: usize,
)
    requires
        items_wf(r),
        index_increasing(r),
        items_wf(acc),
        index_increasing(acc),
        n <= r.len(),
    ensures
        items_wf(mul_right_fold(l, r, acc, n)),
        index_increasing(mul_right_fold(l, r, acc, n)),
        lookup(mul_right_fold(l, r, acc, n), k) == if has_index(r.take(n as int), k) && lookup(l, k) is None {
            lookup(r, k)
        } else {
            lookup(acc, k)
        },
    decreases n,
{
    if n == 0 {
        assert(!has_index(r.take(0), k));
    } else {
        let prev = mul_right_fold(l, r, acc, (n - 1) as nat);
        lemma_mul_right_fold(l, r, acc, (n - 1) as nat, k);
        let (key, ro) = r[n - 1];
        lemma_lookup_increasing(r, key);
        assert(r[n - 1].0 == key);
        assert(lookup(r, key) == Some(ro));
        assert(!ro.spec_is_identity());
        if lookup(l, key) is None {
            lemma_set_items_wf(prev, key, ro);
            lemma_lookup_set_items(prev, key, ro, k);
        }
        if k == key {
            assert(r.take(n as int)[n - 1] == r[n - 1]);
        } else {
            assert(has_index(r.take(n as int), k) == has_index(r.take(n - 1), k)) by {
                if has_index(r.take(n as int), k) {
                    let i = choose|i: int| 0 <= i < r.take(n as int).len() && (#[trigger] r.take(n as int)[i]).0 == k;
                    assert(r.take(n - 1)[i] == r.take(n as int)[i]);
                }
                if has_index(r.take(n - 1), k) {
                    let i = choose|i: int| 0 <= i < r.take(n - 1).len() && (#[trigger] r.take(n - 1)[i]).0 == k;
                    assert(r.take(n - 1)[i] == r.take(n as int)[i]);
                }
            }
        }
    }
}

/// Multiplying two products acts spin by spin: where both factors act, the
/// result holds the product of their operators (nothing, if that is the
/// identity); where one acts, the result holds its operator; elsewhere
/// nothing. The result is again a product with no identities and no spin
/// twice.
pub proof fn lemma_mul_items_pointwise<T: MultiplicativeOperator>(l: Seq<(usize, T)>, r: Seq<(usize, T)>, k: usize)
    requires
        items_wf(l),
        index_increasing(l),
        items_wf(r),
        index_increasing(r),
    ensures
        items_wf(mul_items(l, r)),
        index_increasing(mul_items(l, r)),
        lookup(mul_items(l, r), k) == mul_site(lookup(l, k), lookup(r, k)),
{
    let acc = mul_left_fold(l, r, l.len()).0;
    lemma_mul_left_fold(l, r, l.len(), k);
    lemma_mul_right_fold(l, r, acc, r.len(), k);
    assert(l.take(l.len() as int) =~= l);
    assert(r.take(r.len() as int) =~= r);
    lemma_lookup_none(l, k);
    lemma_lookup_none(r, k);
}


/// The operator an optional entry stands for: the identity when there is none.
pub open spec fn ext<T: MultiplicativeOperator>(o: Option<T>) -> T {
    match o {
        Some(x) => x,
        None => T::spec_identity(),
    }
}

/// An optional entry holds no identity.
pub open spec fn non_identity<T: SingleOperator>(o: Option<T>) -> bool {
    match o {
        Some(x) => !x.spec_is_identity(),
        None => true,
    }
}

/// The phase that multiplying the entries of two products on one spin picks up.
pub open spec fn site_phase<T: MultiplicativeOperator>(a: Option<T>, b: Option<T>) -> crate::phase::Phase {
    match (a, b) {
        (Some(x), Some(y)) => x.spec_times(y).1,
        _ => crate::phase::Phase::One,
    }
}

/// The per-spin product and phase in terms of the operators the entries stand for.
proof fn lemma_mul_site_ext<T: MultiplicativeOperator>(a: Option<T>, b: Option<T>)
    requires
        non_identity(a),
        non_identity(b),
    ensures
        non_identity(mul_site(a, b)),
        ext(mul_site(a, b)) == ext(a).spec_times(ext(b)).0,
        site_phase(a, b) == ext(a).spec_times(ext(b)).1,
{
    T::lemma_times_group(ext(a), ext(b), ext(b));
    T::lemma_times_group(ext(b), ext(a), ext(a));
    T::lemma_times_group(ext(a).spec_times(ext(b)).0, ext(b), ext(b));
}

/// Per spin, multiplication is associative, phases included.
proof fn lemma_mul_site_assoc<T: MultiplicativeOperator>(a: Option<T>, b: Option<T>, c: Option<T>)
    requires
        non_identity(a),
        non_identity(b),
        non_identity(c),
    ensures
        mul_site(mul_site(a, b), c) == mul_site(a, mul_site(b, c)),
        site_phase(a, b).times(site_phase(mul_site(a, b), c)) == site_phase(b, c).times(site_phase(a, mul_site(b, c))),
{
    lemma_mul_site_ext(a, b);
    lemma_mul_site_ext(b, c);
    lemma_mul_site_ext(mul_site(a, b), c);
    lemma_mul_site_ext(a, mul_site(b, c));
    T::lemma_times_group(ext(a), ext(b), ext(c));
    let l = mul_site(mul_site(a, b), c);
    let r = mul_site(a, mul_site(b, c));
    T::lemma_times_group(ext(l), ext(l), ext(l));
    T::lemma_times_group(ext(r), ext(r), ext(r));
}

/// Every entry a lookup finds in a product without identities is no identity.
pub(crate) proof fn lemma_lookup_non_identity<T: SingleOperator>(s: Seq<(usize, T)>, k: usize)
    requires
        no_identity(s),
    ensures
        non_identity(lookup(s, k)),
{
    lemma_lookup_none(s, k);
    if lookup(s, k) is Some {
        let i = choose|i: int| 0 <= i < s.len() && (#[trigger] s[i]).0 == k && lookup(s, k) == Some(s[i].1);
        assert(!s[i].1.spec_is_identity());
    }
}

/// Two products with strictly increasing spins that hold the same operator
/// on every spin are equal.
pub proof fn lemma_increasing_ext<T>(a: Seq<(usize, T)>, b: Seq<(usize, T)>)
    requires
        index_increasing(a),
        index_increasing(b),
        forall|k: usize| lookup(a, k) == lookup(b, k),
    ensures
        a == b,
    decreases a.len() + b.len(),
{
    if a.len() == 0 && b.len() == 0 {
        assert(a =~= b);
    } else if a.len() == 0 {
        lemma_lookup_increasing(b, b[0].0);
        lemma_lookup_increasing(a, b[0].0);
    } else if b.len() == 0 {
        lemma_lookup_increasing(a, a[0].0);
        lemma_lookup_increasing(b, a[0].0);
    } else {
        let ka = a[0].0;
        let kb = b[0].0;
        lemma_lookup_increasing(a, ka);
        lemma_lookup_increasing(b, ka);
        lemma_lookup_increasing(a, kb);
        lemma_lookup_increasing(b, kb);
        lemma_lookup_none(a, kb);
        lemma_lookup_none(b, ka);
        if ka != kb {
            if ka < kb {
                let j = choose|i: int| 0 <= i < b.len() && (#[trigger] b[i]).0 == ka && lookup(b, ka) == Some(b[i].1);
                assert(b[0].0 <= b[j].0);
            } else {
                let j = choose|i: int| 0 <= i < a.len() && (#[trigger] a[i]).0 == kb && lookup(a, kb) == Some(a[i].1);
                assert(a[0].0 <= a[j].0);
            }
        }
        assert(ka == kb);
        assert(a[0].1 == b[0].1);
        let a2 = a.drop_first();
        let b2 = b.drop_first();
        assert forall|i: int, j: int| 0 <= i < j < a2.len() implies a2[i].0 < a2[j].0 by {
            assert(a2[i] == a[i + 1] && a2[j] == a[j + 1]);
        }
        assert forall|i: int, j: int| 0 <= i < j < b2.len() implies b2[i].0 < b2[j].0 by {
            assert(b2[i] == b[i + 1] && b2[j] == b[j + 1]);
        }
        assert forall|k: usize| lookup(a2, k) == lookup(b2, k) by {
            if k != ka {
                assert(lookup(a, k) == lookup(a2, k));
                assert(lookup(b, k) == lookup(b2, k));
            } else {
                lemma_lookup_none(a2, k);
                lemma_lookup_none(b2, k);
                if has_index(a2, k) {
                    let i = choose|i: int| 0 <= i < a2.len() && (#[trigger] a2[i]).0 == k;
                    assert(a2[i] == a[i + 1]);
                }
                if has_index(b2, k) {
                    let i = choose|i: int| 0 <= i < b2.len() && (#[trigger] b2[i]).0 == k;
                    assert(b2[i] == b[i + 1]);
                }
            }
        }
        lemma_increasing_ext(a2, b2);
        assert(a =~= seq![a[0]] + a2);
        assert(b =~= seq![b[0]] + b2);
    }
}

/// Multiplying products is associative: `(a b) c` and `a (b c)` hold the same entries.
pub proof fn lemma_mul_items_assoc<T: MultiplicativeOperator>(a: Seq<(usize, T)>, b: Seq<(usize, T)>, c: Seq<(usize, T)>)
    requires
        items_wf(a),
        index_increasing(a),
        items_wf(b),
        index_increasing(b),
        items_wf(c),
        index_increasing(c),
    ensures
        mul_items(mul_items(a, b), c) == mul_items(a, mul_items(b, c)),
{
    let ab = mul_items(a, b);
    let bc = mul_items(b, c);
    lemma_mul_items_pointwise(a, b, 0);
    lemma_mul_items_pointwise(b, c, 0);
    lemma_mul_items_pointwise(ab, c, 0);
    lemma_mul_items_pointwise(a, bc, 0);
    assert forall|k: usize| lookup(mul_items(ab, c), k) == lookup(mul_items(a, bc), k) by {
        lemma_mul_items_pointwise(a, b, k);
        lemma_mul_items_pointwise(b, c, k);
        lemma_mul_items_pointwise(ab, c, k);
        lemma_mul_items_pointwise(a, bc, k);
        lemma_lookup_non_identity(a, k);
        lemma_lookup_non_identity(b, k);
        lemma_lookup_non_identity(c, k);
        lemma_mul_site_assoc(lookup(a, k), lookup(b, k), lookup(c, k));
    }
    lemma_increasing_ext(mul_items(ab, c), mul_items(a, bc));
}


/// The product of the phases `f(k)` over the spins `0 <= k < n`.
pub open spec fn phase_product(f: spec_fn(int) -> crate::phase::Phase, n: nat) -> crate::phase::Phase
    decreases n,
{
    if n == 0 {
        crate::phase::Phase::One
    } else {
        phase_product(f, (n - 1) as nat).times(f(n - 1))
    }
}

/// The phases `f(k)` of the spins of `s`, multiplied in order.
pub open spec fn seq_phase<T>(f: spec_fn(int) -> crate::phase::Phase, s: Seq<(usize, T)>) -> crate::phase::Phase
    decreases s.len(),
{
    if s.len() == 0 {
        crate::phase::Phase::One
    } else {
        seq_phase(f, s.drop_last()).times(f(s.last().0 as int))
    }
}

/// The phase that multiplying `l` by `r` picks up on each spin.
pub open spec fn site_phases<T: MultiplicativeOperator>(l: Seq<(usize, T)>, r: Seq<(usize, T)>) -> spec_fn(int) -> crate::phase::Phase {
    |k: int| site_phase(lookup(l, k as usize), lookup(r, k as usize))
}

/// The number of spins a `usize` can name.
pub open spec fn all_spins() -> nat {
    (usize::MAX + 1) as nat
}

/// Over a sequence with strictly increasing spins below `n`, the phases of
/// its spins multiply to the product over all spins below `n`, when every
/// other spin has phase 1.
pub(crate) proof fn lemma_seq_phase_range<T>(f: spec_fn(int) -> crate::phase::Phase, s: Seq<(usize, T)>, n: nat)
    requires
        index_increasing(s),
        n <= all_spins(),
        forall|i: int| 0 <= i < s.len() ==> (#[trigger] s[i]).0 < n,
        forall|k: int| 0 <= k < n && !has_index(s, k as usize) ==> #[trigger] f(k) == crate::phase::Phase::One,
    ensures
        seq_phase(f, s) == phase_product(f, n),
    decreases n,
{
    if n == 0 {
        if s.len() > 0 {
            assert(s[0].0 < 0);
        }
    } else if s.len() > 0 && s.last().0 == n - 1 {
        let t = s.drop_last();
        assert forall|i: int, j: int| 0 <= i < j < t.len() implies t[i].0 < t[j].0 by {
            assert(t[i] == s[i] && t[j] == s[j]);
        }
        assert forall|i: int| 0 <= i < t.len() implies (#[trigger] t[i]).0 < n - 1 by {
            assert(t[i] == s[i]);
            assert(s[i].0 < s[s.len() - 1].0);
        }
        assert forall|k: int| 0 <= k < n - 1 && !has_index(t, k as usize) implies #[trigger] f(k) == crate::phase::Phase::One by {
            if has_index(s, k as usize) {
                let i = choose|i: int| 0 <= i < s.len() && (#[trigger] s[i]).0 == k as usize;
                if i < t.len() {
                    assert(t[i] == s[i]);
                }
            }
        }
        lemma_seq_phase_range(f, t, (n - 1) as nat);
    } else {
        assert forall|i: int| 0 <= i < s.len() implies (#[trigger] s[i]).0 < n - 1 by {
            if s[i].0 == n - 1 {
                assert(s[i].0 <= s.last().0);
            }
        }
        assert(!has_index(s, (n - 1) as usize));
        lemma_seq_phase_range(f, s, (n - 1) as nat);
        crate::phase::lemma_phase_group(phase_product(f, (n - 1) as nat), crate::phase::Phase::One, crate::phase::Phase::One);
    }
}

/// The phase of a multiplication is the product over the spins of the left
/// factor of the phases picked up there.
proof fn lemma_mul_phase_seq<T: MultiplicativeOperator>(l: Seq<(usize, T)>, r: Seq<(usize, T)>, n: nat)
    requires
        items_wf(l),
        index_increasing(l),
        n <= l.len(),
    ensures
        mul_left_fold(l, r, n).1 == seq_phase(site_phases(l, r), l.take(n as int)),
    decreases n,
{
    if n > 0 {
        lemma_mul_phase_seq(l, r, (n - 1) as nat);
        assert(l.take(n as int).drop_last() =~= l.take(n - 1));
        let (key, lo) = l[n - 1];
        assert(l.take(n as int).last() == l[n - 1]);
        lemma_lookup_increasing(l, key);
        assert(lookup(l, key) == Some(lo));
        let prev = mul_left_fold(l, r, (n - 1) as nat).1;
        crate::phase::lemma_phase_group(prev, crate::phase::Phase::One, crate::phase::Phase::One);
    }
}

/// Multiplying the phase products of two functions multiplies the functions.
pub(crate) proof fn lemma_phase_product_mul(f: spec_fn(int) -> crate::phase::Phase, g: spec_fn(int) -> crate::phase::Phase, h: spec_fn(int) -> crate::phase::Phase, n: nat)
    requires
        forall|k: int| 0 <= k < n ==> #[trigger] h(k) == f(k).times(g(k)),
    ensures
        phase_product(f, n).times(phase_product(g, n)) == phase_product(h, n),
    decreases n,
{
    if n > 0 {
        lemma_phase_product_mul(f, g, h, (n - 1) as nat);
        crate::phase::lemma_phase_interchange(
            phase_product(f, (n - 1) as nat),
            f(n - 1),
            phase_product(g, (n - 1) as nat),
            g(n - 1),
        );
    }
}

/// The phase of a multiplication as a product over all spins.
pub(crate) proof fn lemma_mul_phase_all<T: MultiplicativeOperator>(l: Seq<(usize, T)>, r: Seq<(usize, T)>)
    requires
        items_wf(l),
        index_increasing(l),
    ensures
        mul_phase(l, r) == phase_product(site_phases(l, r), all_spins()),
{
    lemma_mul_phase_seq(l, r, l.len());
    assert(l.take(l.len() as int) =~= l);
    assert forall|k: int| 0 <= k < all_spins() && !has_index(l, k as usize) implies #[trigger] site_phases(l, r)(k) == crate::phase::Phase::One by {
        lemma_lookup_none(l, k as usize);
    }
    lemma_seq_phase_range(site_phases(l, r), l, all_spins());
}

/// Multiplying products is associative with the phases included: the phases
/// picked up by `(a b) c` and by `a (b c)` are the same.
pub proof fn lemma_mul_phase_assoc<T: MultiplicativeOperator>(a: Seq<(usize, T)>, b: Seq<(usize, T)>, c: Seq<(usize, T)>)
    requires
        items_wf(a),
        index_increasing(a),
        items_wf(b),
        index_increasing(b),
        items_wf(c),
        index_increasing(c),
    ensures
        mul_phase(a, b).times(mul_phase(mul_items(a, b), c)) == mul_phase(b, c).times(mul_phase(a, mul_items(b, c))),
{
    let ab = mul_items(a, b);
    let bc = mul_items(b, c);
    lemma_mul_items_pointwise(a, b, 0);
    lemma_mul_items_pointwise(b, c, 0);
    lemma_mul_phase_all(a, b);
    lemma_mul_phase_all(b, c);
    lemma_mul_phase_all(ab, c);
    lemma_mul_phase_all(a, bc);
    let h = |k: int| site_phases(a, b)(k).times(site_phases(ab, c)(k));
    assert forall|k: int| 0 <= k < all_spins() implies #[trigger] h(k) == site_phases(b, c)(k).times(site_phases(a, bc)(k)) by {
        let u = k as usize;
        lemma_mul_items_pointwise(a, b, u);
        lemma_mul_items_pointwise(b, c, u);
        lemma_lookup_non_identity(a, u);
        lemma_lookup_non_identity(b, u);
        lemma_lookup_non_identity(c, u);
        lemma_mul_site_assoc(lookup(a, u), lookup(b, u), lookup(c, u));
    }
    lemma_phase_product_mul(site_phases(a, b), site_phases(ab, c), h, all_spins());
    lemma_phase_product_mul(site_phases(b, c), site_phases(a, bc), h, all_spins());
}

} // verus!
