//! Products of decoherence matrices (X, iY, Z) on distinct spins.

use vstd::prelude::*;
use vstd::std_specs::iter::IteratorSpec;
use tinyvec::TinyVec;
use std::collections::HashMap;
use crate::error::StruqtureError;
use crate::items::{
    count_iy, hermitian_sign, find_slot, first_at_least, MultiplicativeOperator, first_conflict, has_index_slice, items_wf, lemma_first_at_least,
    lemma_set_items_wf, lemma_sort_no_identity, lookup, lookup_slice, mul_items, mul_left_fold,
    mul_phase, mul_right_fold, remap_items, rename_items, set_all, set_items, sort_by_index, sort_items,
    SingleOperator,
};
use crate::phase::Phase;
use crate::order::{order_items, ordering_is, ordering_of, product_order, items_equal};
use crate::single::{decoherence_to_spin_spec, spin_to_decoherence_spec, SingleDecoherenceOperator, SinglePauliOperator};
use crate::pauli_product::PauliProduct;
use crate::phase::Prefactor;
use crate::matrix::{row_walk, walk_row, pow2_usize};
use vstd::arithmetic::power2::pow2;
use crate::text::{error_for, items_to_string, lemma_parse_items_wf, parse_items, parse_items_spec, print_items};
use core::cmp::Ordering;

verus! {

/// The storage of a product: a small vector of `(spin, operator)` pairs.
#[verifier::external_body]
#[derive(Debug, Hash)]
pub struct DecoherenceItems {
    tv: TinyVec<[(usize, SingleDecoherenceOperator); 5]>,
}

/// What the storage of a product holds, in order.
pub uninterp spec fn decoherence_items(v: DecoherenceItems) -> Seq<(usize, SingleDecoherenceOperator)>;

/// `TinyVec::with_capacity`: an empty vector (the capacity is not part of the contents).
#[verifier::external_body]
fn decoherence_items_new(cap: usize) -> (r: DecoherenceItems)
    ensures
        decoherence_items(r) == Seq::<(usize, SingleDecoherenceOperator)>::empty(),
{
    DecoherenceItems { tv: TinyVec::with_capacity(cap) }
}

/// `TinyVec::as_slice`: the contents as a slice.
#[verifier::external_body]
fn decoherence_items_slice(v: &DecoherenceItems) -> (r: &[(usize, SingleDecoherenceOperator)])
    ensures
        r@ == decoherence_items(*v),
{
    v.tv.as_slice()
}

/// `TinyVec::push`: appends an entry.
#[verifier::external_body]
fn decoherence_items_push(v: &mut DecoherenceItems, x: (usize, SingleDecoherenceOperator))
    ensures
        decoherence_items(*final(v)) == decoherence_items(*old(v)).push(x),
{
    v.tv.push(x)
}

/// `TinyVec::insert`: puts an entry at position `i`, moving the rest back.
#[verifier::external_body]
fn decoherence_items_insert(v: &mut DecoherenceItems, i: usize, x: (usize, SingleDecoherenceOperator))
    requires
        i <= decoherence_items(*old(v)).len(),
    ensures
        decoherence_items(*final(v)) == decoherence_items(*old(v)).insert(i as int, x),
{
    v.tv.insert(i, x)
}

/// `TinyVec::remove`: takes out the entry at position `i`, moving the rest forward.
#[verifier::external_body]
fn decoherence_items_remove(v: &mut DecoherenceItems, i: usize) -> (r: (usize, SingleDecoherenceOperator))
    requires
        i < decoherence_items(*old(v)).len(),
    ensures
        r == decoherence_items(*old(v))[i as int],
        decoherence_items(*final(v)) == decoherence_items(*old(v)).remove(i as int),
{
    v.tv.remove(i)
}

/// Indexing `TinyVec` mutably: overwrites the entry at position `i`.
#[verifier::external_body]
fn decoherence_items_set(v: &mut DecoherenceItems, i: usize, x: (usize, SingleDecoherenceOperator))
    requires
        i < decoherence_items(*old(v)).len(),
    ensures
        decoherence_items(*final(v)) == decoherence_items(*old(v)).update(i as int, x),
{
    v.tv[i] = x;
}

impl Clone for DecoherenceItems {
    /// `TinyVec::clone`: a vector with the same contents.
    #[verifier::external_body]
    fn clone(&self) -> (r: Self)
        ensures
            decoherence_items(r) == decoherence_items(*self),
    {
        DecoherenceItems { tv: self.tv.clone() }
    }
}

/// Fills a new storage with the given entries, in order.
fn decoherence_items_from_vec(v: &Vec<(usize, SingleDecoherenceOperator)>) -> (r: DecoherenceItems)
    ensures
        decoherence_items(r) == v@,
{
    let mut out = decoherence_items_new(v.len());
    let mut i: usize = 0;
    while i < v.len()
        invariant
            0 <= i <= v.len(),
            decoherence_items(out) == v@.subrange(0, i as int),
        decreases v.len() - i,
    {
        decoherence_items_push(&mut out, v[i]);
        assert(v@.subrange(0, i + 1) =~= v@.subrange(0, i as int).push(v@[i as int]));
        i = i + 1;
    }
    assert(v@.subrange(0, v.len() as int) =~= v@);
    out
}

/// A product of decoherence matrices on spins, such as `0X2iY` (X on spin 0
/// times iY on spin 2), its entries listed in order of the spin (normally one
/// per spin). The empty product is the identity.
#[derive(Debug, Hash)]
pub struct DecoherenceProduct {
    items: DecoherenceItems,
}

impl View for DecoherenceProduct {
    type V = Seq<(usize, SingleDecoherenceOperator)>;

    /// The `(spin, operator)` entries of the product, in order of the spin.
    closed spec fn view(&self) -> Seq<(usize, SingleDecoherenceOperator)> {
        decoherence_items(self.items)
    }
}

impl DecoherenceProduct {
    /// A product holds no identities and lists its spins in order.
    #[verifier::type_invariant]
    spec fn inv(self) -> bool {
        items_wf(decoherence_items(self.items))
    }

    /// The entries of the product as a slice.
    pub fn as_slice(&self) -> (r: &[(usize, SingleDecoherenceOperator)])
        ensures
            r@ == self@,
            items_wf(self@),
    {
        proof {
            use_type_invariant(self);
        }
        decoherence_items_slice(&self.items)
    }

    /// An iterator over the entries of the product, in order of the spin.
    pub fn iter(&self) -> (r: std::slice::Iter<'_, (usize, SingleDecoherenceOperator)>)
        ensures
            r.remaining() == self@.as_ref(),
    {
        broadcast use vstd::std_specs::slice::axiom_spec_slice_iter;
        self.as_slice().iter()
    }

    /// The empty product (the identity).
    pub fn new() -> (r: Self)
        ensures
            r@ == Seq::<(usize, SingleDecoherenceOperator)>::empty(),
    {
        DecoherenceProduct { items: decoherence_items_new(5) }
    }

    /// The empty product, with room for `cap` entries.
    pub fn with_capacity(cap: usize) -> (r: Self)
        ensures
            r@ == Seq::<(usize, SingleDecoherenceOperator)>::empty(),
    {
        DecoherenceProduct { items: decoherence_items_new(cap) }
    }

    /// The product with the given entries, which must be well-formed.
    fn from_items(v: &Vec<(usize, SingleDecoherenceOperator)>) -> (r: Self)
        requires
            items_wf(v@),
        ensures
            r@ == v@,
    {
        DecoherenceProduct { items: decoherence_items_from_vec(v) }
    }

    /// Sets spin `index` to `pauli`, consuming the product: an existing entry
    /// on that spin is replaced (removed, for the identity), otherwise a new
    /// entry is put in its place in spin order.
    pub fn set_pauli(self, index: usize, pauli: SingleDecoherenceOperator) -> (r: Self)
        ensures
            r@ == set_items(self@, index, pauli),
    {
        proof {
            use_type_invariant(&self);
            lemma_set_items_wf(self@, index, pauli);
            lemma_first_at_least(self@, index);
        }
        let mut items = self.items;
        let p = find_slot(decoherence_items_slice(&items), index);
        let len = decoherence_items_slice(&items).len();
        if p < len && decoherence_items_slice(&items)[p].0 == index {
            if pauli == SingleDecoherenceOperator::Identity {
                let _removed = decoherence_items_remove(&mut items, p);
            } else {
                decoherence_items_set(&mut items, p, (index, pauli));
            }
        } else if pauli != SingleDecoherenceOperator::Identity {
            decoherence_items_insert(&mut items, p, (index, pauli));
        }
        DecoherenceProduct { items }
    }

    /// Sets spin `index` to X.
    pub fn x(self, index: usize) -> (r: Self)
        ensures
            r@ == set_items(self@, index, SingleDecoherenceOperator::X),
    {
        self.set_pauli(index, SingleDecoherenceOperator::X)
    }

    /// Sets spin `index` to iY.
    pub fn iy(self, index: usize) -> (r: Self)
        ensures
            r@ == set_items(self@, index, SingleDecoherenceOperator::IY),
    {
        self.set_pauli(index, SingleDecoherenceOperator::IY)
    }

    /// Sets spin `index` to Z.
    pub fn z(self, index: usize) -> (r: Self)
        ensures
            r@ == set_items(self@, index, SingleDecoherenceOperator::Z),
    {
        self.set_pauli(index, SingleDecoherenceOperator::Z)
    }

    /// The operator on spin `index`, if the product acts on it.
    pub fn get(&self, index: &usize) -> (r: Option<&SingleDecoherenceOperator>)
        ensures
            match r {
                Some(x) => lookup(self@, *index) == Some(*x),
                None => lookup(self@, *index) is None,
            },
    {
        let s = self.as_slice();
        let mut i: usize = 0;
        assert(s@.skip(0) =~= s@);
        while i < s.len()
            invariant
                0 <= i <= s.len(),
                s@ == self@,
                lookup(s@, *index) == lookup(s@.skip(i as int), *index),
            decreases s.len() - i,
        {
            assert(s@.skip(i as int).drop_first() =~= s@.skip(i + 1));
            if s[i].0 == *index {
                return Some(&s[i].1);
            }
            i = i + 1;
        }
        None
    }

    /// The number of entries (spins the product acts on).
    pub fn len(&self) -> (r: usize)
        ensures
            r == self@.len(),
    {
        self.as_slice().len()
    }

    /// Whether the product is the identity.
    pub fn is_empty(&self) -> (r: bool)
        ensures
            r == (self@.len() == 0),
    {
        self.as_slice().len() == 0
    }

    /// One more than the largest spin the product acts on (0 for the identity).
    pub fn current_number_spins(&self) -> (r: usize)
        requires
            self@.len() > 0 ==> self@.last().0 < usize::MAX,
        ensures
            r == if self@.len() == 0 { 0 } else { self@.last().0 + 1 },
    {
        let s = self.as_slice();
        if s.len() == 0 {
            0
        } else {
            s[s.len() - 1].0 + 1
        }
    }

    /// Renames the spins by `mapping` (spins it does not name stay), then
    /// sorts the entries by spin, keeping entries with equal spin in order.
    pub fn remap_qubits(&self, mapping: &HashMap<usize, usize>) -> (r: Self)
        ensures
            r@ == remap_items(self@, mapping@),
    {
        broadcast use vstd::std_specs::hash::group_hash_axioms;
        let s = self.as_slice();
        let mut mapped: Vec<(usize, SingleDecoherenceOperator)> = Vec::with_capacity(s.len());
        let mut i: usize = 0;
        while i < s.len()
            invariant
                0 <= i <= s.len(),
                s@ == self@,
                items_wf(s@),
                mapped@ == rename_items(s@.subrange(0, i as int), mapping@),
            decreases s.len() - i,
        {
            let (key, val) = s[i];
            let new_key = match mapping.get(&key) {
                Some(x) => *x,
                None => key,
            };
            assert(new_key == (if mapping@.contains_key(key) { mapping@[key] } else { key }));
            mapped.push((new_key, val));
            assert(rename_items(s@.subrange(0, i + 1), mapping@) =~= rename_items(s@.subrange(0, i as int), mapping@).push((new_key, val)));
            i = i + 1;
        }
        assert(s@.subrange(0, s.len() as int) =~= s@);
        let sorted = sort_items(mapped);
        proof {
            assert forall|j: int| 0 <= j < mapped@.len() implies !(#[trigger] mapped@[j]).1.spec_is_identity() by {
                assert(mapped@[j].1 == s@[j].1);
            }
            lemma_sort_no_identity(mapped@);
        }
        DecoherenceProduct::from_items(&sorted)
    }

    /// Multiplies two products: the product of the matrices on each spin,
    /// with the phase that these single products pick up.
    pub fn multiply(left: DecoherenceProduct, right: DecoherenceProduct) -> (r: (Self, Phase))
        ensures
            r.0@ == mul_items(left@, right@),
            r.1 == mul_phase(left@, right@),
    {
        let ls = left.as_slice();
        let rs = right.as_slice();
        let mut factor = Phase::One;
        let mut result = DecoherenceProduct::new();
        let mut i: usize = 0;
        while i < ls.len()
            invariant
                0 <= i <= ls.len(),
                ls@ == left@,
                rs@ == right@,
                (result@, factor) == mul_left_fold(left@, right@, i as nat),
            decreases ls.len() - i,
        {
            let (key, lop) = ls[i];
            match lookup_slice(rs, key) {
                Some(rop) => {
                    let (p, f) = lop.times_op(rop);
                    factor = factor.mul(f);
                    result = result.set_pauli(key, p);
                },
                None => {
                    result = result.set_pauli(key, lop);
                },
            }
            i = i + 1;
        }
        let ghost acc = result@;
        let mut j: usize = 0;
        while j < rs.len()
            invariant
                0 <= j <= rs.len(),
                ls@ == left@,
                rs@ == right@,
                acc == mul_left_fold(left@, right@, left@.len()).0,
                result@ == mul_right_fold(left@, right@, acc, j as nat),
            decreases rs.len() - j,
        {
            let (key, rop) = rs[j];
            if lookup_slice(ls, key).is_none() {
                result = result.set_pauli(key, rop);
            }
            j = j + 1;
        }
        (result, factor)
    }

    /// Joins two products on disjoint spins, sorting the entries by spin.
    /// Fails with the first spin of `other` that is already taken.
    pub fn concatenate(&self, other: DecoherenceProduct) -> (r: Result<DecoherenceProduct, StruqtureError>)
        ensures
            match first_conflict(self@, other@) {
                Some(k) => r == Err::<DecoherenceProduct, StruqtureError>(StruqtureError::ProductIndexAlreadyOccupied { index: k }),
                None => r is Ok && r->Ok_0@ == sort_by_index(self@ + other@),
            },
    {
        let s = self.as_slice();
        let o = other.as_slice();
        let mut return_list: Vec<(usize, SingleDecoherenceOperator)> = Vec::with_capacity(s.len());
        let mut i: usize = 0;
        while i < s.len()
            invariant
                0 <= i <= s.len(),
                return_list@ == s@.subrange(0, i as int),
            decreases s.len() - i,
        {
            return_list.push(s[i]);
            assert(s@.subrange(0, i + 1) =~= s@.subrange(0, i as int).push(s@[i as int]));
            i = i + 1;
        }
        assert(s@.subrange(0, s.len() as int) =~= s@);
        assert(o@.subrange(0, 0) =~= Seq::<(usize, SingleDecoherenceOperator)>::empty());
        assert(s@ + o@.subrange(0, 0) =~= s@);
        assert(o@.skip(0) =~= o@);
        let mut j: usize = 0;
        while j < o.len()
            invariant
                0 <= j <= o.len(),
                s@ == self@,
                o@ == other@,
                items_wf(s@),
                items_wf(o@),
                return_list@ == s@ + o@.subrange(0, j as int),
                first_conflict(self@, other@) == first_conflict(return_list@, o@.skip(j as int)),
            decreases o.len() - j,
        {
            let (key, val) = o[j];
            assert(o@.skip(j as int).drop_first() =~= o@.skip(j + 1));
            assert(o@.skip(j as int)[0] == o@[j as int]);
            if has_index_slice(return_list.as_slice(), key) {
                return Err(StruqtureError::ProductIndexAlreadyOccupied { index: key });
            }
            return_list.push((key, val));
            assert(o@.subrange(0, j + 1) =~= o@.subrange(0, j as int).push(o@[j as int]));
            j = j + 1;
        }
        assert(o@.subrange(0, o.len() as int) =~= o@);
        proof {
            assert forall|k: int| 0 <= k < return_list@.len() implies !(#[trigger] return_list@[k]).1.spec_is_identity() by {
                if k >= s@.len() {
                    assert(return_list@[k] == o@[k - s@.len()]);
                }
            }
            lemma_sort_no_identity(return_list@);
        }
        let sorted = sort_items(return_list);
        Ok(DecoherenceProduct::from_items(&sorted))
    }

    /// The hermitian conjugate: X and Z are hermitian and iY is
    /// anti-hermitian, so the product stays as it is and picks up the sign
    /// -1 when it holds an odd number of iY.
    pub fn hermitian_conjugate(&self) -> (r: (Self, i8))
        ensures
            r.0@ == self@,
            r.1 == hermitian_sign(self@),
    {
        let s = self.as_slice();
        let mut odd = false;
        let mut i: usize = 0;
        assert(s@.take(0) =~= Seq::<(usize, SingleDecoherenceOperator)>::empty());
        while i < s.len()
            invariant
                0 <= i <= s@.len(),
                odd == (count_iy(s@.take(i as int)) % 2 == 1),
            decreases s.len() - i,
        {
            assert(s@.take(i + 1).drop_last() =~= s@.take(i as int));
            if s[i].1 == SingleDecoherenceOperator::IY {
                odd = !odd;
            }
            i = i + 1;
        }
        assert(s@.take(s@.len() as int) =~= s@);
        (self.clone(), if odd { -1 } else { 1 })
    }

    /// Whether the product is hermitian as it stands: whether conjugation
    /// leaves its sign positive.
    pub fn is_natural_hermitian(&self) -> (r: bool)
        ensures
            r == (hermitian_sign(self@) > 0),
    {
        let (_, a) = self.hermitian_conjugate();
        a > 0
    }

    /// The product built by setting the given entries one after the other.
    pub fn from_iter(entries: Vec<(usize, SingleDecoherenceOperator)>) -> (r: Self)
        ensures
            r@ == set_all(Seq::empty(), entries@),
    {
        let mut pp = DecoherenceProduct::new();
        pp.extend(entries);
        pp
    }

    /// Sets the given entries on the product, one after the other.
    pub fn extend(&mut self, entries: Vec<(usize, SingleDecoherenceOperator)>)
        ensures
            final(self)@ == set_all(old(self)@, entries@),
    {
        let mut i: usize = 0;
        let ghost start = self@;
        assert(entries@.subrange(0, 0) =~= Seq::<(usize, SingleDecoherenceOperator)>::empty());
        while i < entries.len()
            invariant
                0 <= i <= entries.len(),
                self@ == set_all(start, entries@.subrange(0, i as int)),
            decreases entries.len() - i,
        {
            let (index, pauli) = entries[i];
            let pp = self.clone();
            *self = pp.set_pauli(index, pauli);
            assert(entries@.subrange(0, i + 1).drop_last() =~= entries@.subrange(0, i as int));
            i = i + 1;
        }
        assert(entries@.subrange(0, entries.len() as int) =~= entries@);
    }
}

impl DecoherenceProduct {
    /// Reads a product from its string form: spins in decimal, each followed
    /// by `X`, `iY`, `Z` (or `I`, which is skipped), such as `0X12iY`; `I` and
    /// the empty string stand for the identity. Fails when an index is not a
    /// number, a symbol is unknown or a spin is given twice. The entries are
    /// sorted by spin.
    pub fn from_str(s: &str) -> (r: Result<DecoherenceProduct, StruqtureError>)
        ensures
            match parse_items_spec::<SingleDecoherenceOperator>(s@, false, false) {
                Ok(v) => r is Ok && r->Ok_0@ == v,
                Err(f) => r is Err && error_for(r->Err_0, f, "DecoherenceProduct"@, s@),
            },
    {
        proof {
            lemma_parse_items_wf::<SingleDecoherenceOperator>(s@, false, false);
        }
        match parse_items::<SingleDecoherenceOperator>(s, false, false, "DecoherenceProduct") {
            Ok(v) => Ok(DecoherenceProduct::from_items(&v)),
            Err(e) => Err(e),
        }
    }

    /// The string form of the product: `I` for the identity, otherwise each
    /// spin in decimal followed by its symbol, such as `0X12Z`.
    pub fn to_string(&self) -> (r: String)
        ensures
            r@ == print_items(self@),
    {
        items_to_string(self.as_slice())
    }

    /// Orders products: fewer entries first; equal numbers of entries compared
    /// entry by entry, by spin and then by operator (I < X < iY < Z).
    pub fn compare(&self, other: &Self) -> (r: Ordering)
        ensures
            ordering_is(r, product_order(self@, other@)),
    {
        order_items(self.as_slice(), other.as_slice())
    }
}

impl Default for DecoherenceProduct {
    fn default() -> (r: Self)
        ensures
            r@ == Seq::<(usize, SingleDecoherenceOperator)>::empty(),
    {
        DecoherenceProduct::new()
    }
}

impl PartialEq for DecoherenceProduct {
    fn eq(&self, other: &Self) -> (r: bool) {
        items_equal(self.as_slice(), other.as_slice())
    }
}

impl vstd::std_specs::cmp::PartialEqSpecImpl for DecoherenceProduct {
    open spec fn obeys_eq_spec() -> bool {
        true
    }

    open spec fn eq_spec(&self, other: &Self) -> bool {
        self@ == other@
    }
}

impl Eq for DecoherenceProduct {}

impl PartialOrd for DecoherenceProduct {
    fn partial_cmp(&self, other: &Self) -> (r: Option<Ordering>) {
        Some(self.compare(other))
    }
}

impl vstd::std_specs::cmp::PartialOrdSpecImpl for DecoherenceProduct {
    open spec fn obeys_partial_cmp_spec() -> bool {
        true
    }

    open spec fn partial_cmp_spec(&self, other: &Self) -> Option<Ordering> {
        Some(ordering_of(product_order(self@, other@)))
    }
}

impl core::ops::Mul for DecoherenceProduct {
    type Output = (DecoherenceProduct, Phase);

    /// Multiplies two products; see `multiply`.
    fn mul(self, rhs: DecoherenceProduct) -> (r: (DecoherenceProduct, Phase))
        ensures
            r.0@ == mul_items(self@, rhs@),
            r.1 == mul_phase(self@, rhs@),
    {
        DecoherenceProduct::multiply(self, rhs)
    }
}

impl vstd::std_specs::ops::MulSpecImpl for DecoherenceProduct {
    open spec fn obeys_mul_spec() -> bool {
        false
    }

    open spec fn mul_req(self, rhs: DecoherenceProduct) -> bool {
        true
    }

    /// Not used: `obeys_mul_spec` is false, and `mul` states its result itself.
    open spec fn mul_spec(self, rhs: DecoherenceProduct) -> (DecoherenceProduct, Phase) {
        (self, Phase::One)
    }
}


impl std::str::FromStr for DecoherenceProduct {
    type Err = StruqtureError;

    /// Reads a product from its string form; see the inherent `from_str`.
    fn from_str(s: &str) -> (r: Result<Self, Self::Err>)
        ensures
            match parse_items_spec::<SingleDecoherenceOperator>(s@, false, false) {
                Ok(v) => r is Ok && r->Ok_0@ == v,
                Err(f) => r is Err && error_for(r->Err_0, f, "DecoherenceProduct"@, s@),
            },
    {
        DecoherenceProduct::from_str(s)
    }
}

impl Clone for DecoherenceProduct {
    fn clone(&self) -> (r: Self)
        ensures
            r@ == self@,
    {
        proof {
            use_type_invariant(self);
        }
        DecoherenceProduct { items: self.items.clone() }
    }
}


/// The first `n` entries of a decoherence product turned into Pauli matrices
/// and set one after the other on an empty Pauli product, with the product
/// of the phases this picks up (iY is i times Y).
pub open spec fn decoherence_to_spin_fold(s: Seq<(usize, SingleDecoherenceOperator)>, n: nat) -> (Seq<(usize, SinglePauliOperator)>, Phase)
    decreases n,
{
    if n == 0 || n > s.len() {
        (Seq::empty(), Phase::One)
    } else {
        let (acc, ph) = decoherence_to_spin_fold(s, (n - 1) as nat);
        let (k, op) = s[n - 1];
        let (p, c) = decoherence_to_spin_spec(op);
        (set_items(acc, k, p), ph.times(c))
    }
}

/// The first `n` entries of a Pauli product turned into decoherence matrices
/// and set one after the other on an empty decoherence product, with the
/// product of the phases this picks up (Y is -i times iY).
pub open spec fn spin_to_decoherence_fold(s: Seq<(usize, SinglePauliOperator)>, n: nat) -> (Seq<(usize, SingleDecoherenceOperator)>, Phase)
    decreases n,
{
    if n == 0 || n > s.len() {
        (Seq::empty(), Phase::One)
    } else {
        let (acc, ph) = spin_to_decoherence_fold(s, (n - 1) as nat);
        let (k, op) = s[n - 1];
        let (d, c) = spin_to_decoherence_spec(op);
        (set_items(acc, k, d), ph.times(c))
    }
}

/// The spins and phase that a Lindblad term (left, right) walks row `row` of
/// the superoperator to: left acts on the high half of the row index, right
/// on the low half.
pub open spec fn lindblad_walk(
    left: Seq<(usize, SingleDecoherenceOperator)>,
    right: Seq<(usize, SingleDecoherenceOperator)>,
    row: int,
    number_spins: int,
) -> Option<(int, Phase)> {
    let dim = pow2(number_spins as nat) as int;
    match row_walk(left, row / dim, row, number_spins, false) {
        None => None,
        Some((c, p)) => match row_walk(right, row % dim, c, 0, false) {
            None => None,
            Some((c2, p2)) => Some((c2, p.times(p2))),
        },
    }
}

impl DecoherenceProduct {
    /// The single entry on row `row` of the matrix of the product: its column
    /// and its value (+1 or -1).
    fn sparse_matrix_entries_on_row(&self, row: usize) -> (r: Result<(usize, Phase), StruqtureError>)
        requires
            row_walk(self@, row as int, row as int, 0, false) is Some,
        ensures
            r matches Ok(e) && row_walk(self@, row as int, row as int, 0, false) == Some((e.0 as int, e.1)),
    {
        Ok(walk_row(self.as_slice(), row, row, 0, false))
    }

    /// The matrix of the product on `number_spins` spins in COO form: for
    /// each row in order, its one entry as (value, (row, column)).
    pub fn to_coo(&self, number_spins: usize) -> (r: Result<(Vec<Phase>, (Vec<usize>, Vec<usize>)), StruqtureError>)
        requires
            number_spins < usize::BITS,
            forall|row: int| 0 <= row < pow2(number_spins as nat) ==> (#[trigger] row_walk(self@, row, row, 0, false)) is Some,
        ensures
            r matches Ok((values, (rows, columns))) && {
                &&& values@.len() == pow2(number_spins as nat)
                &&& rows@.len() == values@.len()
                &&& columns@.len() == values@.len()
                &&& forall|i: int| 0 <= i < values@.len() ==> rows@[i] == i
                    && row_walk(self@, i, i, 0, false) == Some((#[trigger] columns@[i] as int, values@[i]))
            },
    {
        let dimension = pow2_usize(number_spins);
        let mut values: Vec<Phase> = Vec::with_capacity(dimension);
        let mut rows: Vec<usize> = Vec::with_capacity(dimension);
        let mut columns: Vec<usize> = Vec::with_capacity(dimension);
        let mut row: usize = 0;
        while row < dimension
            invariant
                dimension == pow2(number_spins as nat),
                0 <= row <= dimension,
                forall|r: int| 0 <= r < pow2(number_spins as nat) ==> (#[trigger] row_walk(self@, r, r, 0, false)) is Some,
                values@.len() == row,
                rows@.len() == row,
                columns@.len() == row,
                forall|i: int| 0 <= i < row ==> #[trigger] rows@[i] == i,
                forall|i: int| 0 <= i < row ==> row_walk(self@, i, i, 0, false) == Some((#[trigger] columns@[i] as int, values@[i])),
            decreases dimension - row,
        {
            assert(row_walk(self@, row as int, row as int, 0, false) is Some);
            let (col, val) = match self.sparse_matrix_entries_on_row(row) {
                Ok(e) => e,
                Err(e) => {
                    return Err(e);
                },
            };
            assert(row_walk(self@, row as int, row as int, 0, false) == Some((col as int, val)));
            let ghost old_rows = rows@;
            let ghost old_columns = columns@;
            let ghost old_values = values@;
            rows.push(row);
            columns.push(col);
            values.push(val);
            assert forall|i: int| 0 <= i < row + 1 implies #[trigger] rows@[i] == i by {
                if i < row {
                    assert(rows@[i] == old_rows[i]);
                }
            }
            assert forall|i: int| 0 <= i < row + 1 implies row_walk(self@, i, i, 0, false) == Some((#[trigger] columns@[i] as int, values@[i])) by {
                if i < row {
                    assert(columns@[i] == old_columns[i] && values@[i] == old_values[i]);
                }
            }
            row = row + 1;
        }
        Ok((values, (rows, columns)))
    }

    /// The Pauli product a decoherence product stands for, with its phase: iY
    /// becomes Y with a factor i.
    pub fn decoherence_to_spin(dp: DecoherenceProduct) -> (r: (PauliProduct, Phase))
        ensures
            (r.0@, r.1) == decoherence_to_spin_fold(dp@, dp@.len()),
    {
        let s = dp.as_slice();
        let mut coeff = Phase::One;
        let mut new_pp = PauliProduct::with_capacity(if s.len() > 5 { s.len() } else { 5 });
        let mut i: usize = 0;
        while i < s.len()
            invariant
                0 <= i <= s@.len(),
                s@ == dp@,
                (new_pp@, coeff) == decoherence_to_spin_fold(dp@, i as nat),
            decreases s.len() - i,
        {
            let (site, op) = s[i];
            let (pp, newcoeff) = SingleDecoherenceOperator::decoherence_to_spin(op);
            coeff = coeff.mul(newcoeff);
            new_pp = new_pp.set_pauli(site, pp);
            i = i + 1;
        }
        (new_pp, coeff)
    }

    /// The decoherence product a Pauli product stands for, with its phase: Y
    /// becomes iY with a factor -i.
    pub fn spin_to_decoherence(pp: PauliProduct) -> (r: (DecoherenceProduct, Phase))
        ensures
            (r.0@, r.1) == spin_to_decoherence_fold(pp@, pp@.len()),
    {
        let s = pp.as_slice();
        let mut coeff = Phase::One;
        let mut new_dp = DecoherenceProduct::with_capacity(if s.len() > 5 { s.len() } else { 5 });
        let mut i: usize = 0;
        while i < s.len()
            invariant
                0 <= i <= s@.len(),
                s@ == pp@,
                (new_dp@, coeff) == spin_to_decoherence_fold(pp@, i as nat),
            decreases s.len() - i,
        {
            let (site, op) = s[i];
            let (dp, newcoeff) = SingleDecoherenceOperator::spin_to_decoherence(op);
            coeff = coeff.mul(newcoeff);
            new_dp = new_dp.set_pauli(site, dp);
            i = i + 1;
        }
        (new_dp, coeff)
    }
}

/// The entry that the Lindblad term `left p right^dagger` of a noise
/// operator adds to row `row` of its superoperator on `number_spins` spins:
/// its column and sign.
pub fn lindblad_term_entry(left: &DecoherenceProduct, right: &DecoherenceProduct, row: usize, number_spins: usize) -> (r: (usize, Phase))
    requires
        number_spins < usize::BITS,
        lindblad_walk(left@, right@, row as int, number_spins as int) is Some,
    ensures
        lindblad_walk(left@, right@, row as int, number_spins as int) == Some((r.0 as int, r.1)),
{
    let dimension = pow2_usize(number_spins);
    proof {
        vstd::arithmetic::power2::lemma_pow2_pos(number_spins as nat);
    }
    let (column, prefac) = walk_row(left.as_slice(), row / dimension, row, number_spins, false);
    let (column, prefac2) = walk_row(right.as_slice(), row % dimension, column, 0, false);
    (column, prefac.mul(prefac2))
}

/// The two entries that the anti-commutator part `-1/2 {right^dagger left, p}`
/// of a Lindblad term adds to row `row` of the superoperator on
/// `number_spins` spins: the product `right^dagger left` acting on the high
/// half of the row index, and its conjugate on the low half.
pub fn anti_commutator_entries(left: &DecoherenceProduct, right: &DecoherenceProduct, row: usize, number_spins: usize) -> (r: Vec<(usize, Prefactor)>)
    requires
        number_spins < usize::BITS,
        row_walk(mul_items(right@, left@), row as int / pow2(number_spins as nat) as int, row as int, number_spins as int, false) is Some,
        row_walk(mul_items(right@, left@), row as int % pow2(number_spins as nat) as int, row as int, 0, false) is Some,
    ensures
        ({
            let product = mul_items(right@, left@);
            let dim = pow2(number_spins as nat) as int;
            let base = Phase::of_sign(hermitian_sign(right@)).times(mul_phase(right@, left@)).times(Phase::MinusOne);
            let (c1, p1) = row_walk(product, row as int / dim, row as int, number_spins as int, false).unwrap();
            let (c2, p2) = row_walk(product, row as int % dim, row as int, 0, false).unwrap();
            r@ == seq![
                (c1 as usize, Prefactor { phase: p1.times(base), halvings: 1 }),
                (c2 as usize, Prefactor { phase: p2.times(Phase::of_sign(hermitian_sign(product))).times(base), halvings: 1 }),
            ]
        }),
{
    let dimension = pow2_usize(number_spins);
    proof {
        vstd::arithmetic::power2::lemma_pow2_pos(number_spins as nat);
    }
    let (right_conj, conjugate_prefactor) = right.hermitian_conjugate();
    let (product, product_prefactor) = DecoherenceProduct::multiply(right_conj, left.clone());
    let (_, transpose_prefactor) = product.hermitian_conjugate();
    let base = Phase::from_sign(conjugate_prefactor).mul(product_prefactor).mul(Phase::MinusOne);
    let (c1, p1) = walk_row(product.as_slice(), row / dimension, row, number_spins, false);
    let (c2, p2) = walk_row(product.as_slice(), row % dimension, row, 0, false);
    let first = (c1, Prefactor { phase: p1.mul(base), halvings: 1 });
    let second = (c2, Prefactor { phase: p2.mul(Phase::from_sign(transpose_prefactor)).mul(base), halvings: 1 });
    let r = vec![first, second];
    assert(r@ =~= seq![first, second]);
    r
}

} // verus!
