//! Products of plus/minus operators (sigma+, sigma-, Z) on distinct spins.

use vstd::prelude::*;
use vstd::std_specs::iter::IteratorSpec;
use tinyvec::TinyVec;
use std::collections::HashMap;
use crate::error::StruqtureError;
use crate::items::{
    conjugate_items, conjugate_single, find_slot, first_at_least, first_conflict, has_index_slice, items_wf, lemma_first_at_least,
    lemma_set_items_wf, lemma_sort_no_identity, lookup, lookup_slice,
    remap_items, rename_items, set_all, set_items, sort_by_index, sort_items,
    SingleOperator,
};
use crate::order::{order_items, ordering_is, ordering_of, product_order, items_equal};
use crate::single::{SingleDecoherenceOperator, SinglePauliOperator, SinglePlusMinusOperator};
use crate::phase::Prefactor;
use crate::pauli_product::PauliProduct;
use crate::decoherence_product::DecoherenceProduct;
use crate::expand::{expand_product, expand_terms, terms_view};
use crate::text::{error_for, items_to_string, lemma_parse_items_wf, parse_items, parse_items_spec, print_items};
use core::cmp::Ordering;

verus! {

/// The storage of a product: a small vector of `(spin, operator)` pairs.
#[verifier::external_body]
#[derive(Debug, Hash)]
pub struct PlusMinusItems {
    tv: TinyVec<[(usize, SinglePlusMinusOperator); 5]>,
}

/// What the storage of a product holds, in order.
pub uninterp spec fn plus_minus_items(v: PlusMinusItems) -> Seq<(usize, SinglePlusMinusOperator)>;

/// `TinyVec::with_capacity`: an empty vector (the capacity is not part of the contents).
#[verifier::external_body]
fn plus_minus_items_new(cap: usize) -> (r: PlusMinusItems)
    ensures
        plus_minus_items(r) == Seq::<(usize, SinglePlusMinusOperator)>::empty(),
{
    PlusMinusItems { tv: TinyVec::with_capacity(cap) }
}

/// `TinyVec::as_slice`: the contents as a slice.
#[verifier::external_body]
fn plus_minus_items_slice(v: &PlusMinusItems) -> (r: &[(usize, SinglePlusMinusOperator)])
    ensures
        r@ == plus_minus_items(*v),
{
    v.tv.as_slice()
}

/// `TinyVec::push`: appends an entry.
#[verifier::external_body]
fn plus_minus_items_push(v: &mut PlusMinusItems, x: (usize, SinglePlusMinusOperator))
    ensures
        plus_minus_items(*final(v)) == plus_minus_items(*old(v)).push(x),
{
    v.tv.push(x)
}

/// `TinyVec::insert`: puts an entry at position `i`, moving the rest back.
#[verifier::external_body]
fn plus_minus_items_insert(v: &mut PlusMinusItems, i: usize, x: (usize, SinglePlusMinusOperator))
    requires
        i <= plus_minus_items(*old(v)).len(),
    ensures
        plus_minus_items(*final(v)) == plus_minus_items(*old(v)).insert(i as int, x),
{
    v.tv.insert(i, x)
}

/// `TinyVec::remove`: takes out the entry at position `i`, moving the rest forward.
#[verifier::external_body]
fn plus_minus_items_remove(v: &mut PlusMinusItems, i: usize) -> (r: (usize, SinglePlusMinusOperator))
    requires
        i < plus_minus_items(*old(v)).len(),
    ensures
        r == plus_minus_items(*old(v))[i as int],
        plus_minus_items(*final(v)) == plus_minus_items(*old(v)).remove(i as int),
{
    v.tv.remove(i)
}

/// Indexing `TinyVec` mutably: overwrites the entry at position `i`.
#[verifier::external_body]
fn plus_minus_items_set(v: &mut PlusMinusItems, i: usize, x: (usize, SinglePlusMinusOperator))
    requires
        i < plus_minus_items(*old(v)).len(),
    ensures
        plus_minus_items(*final(v)) == plus_minus_items(*old(v)).update(i as int, x),
{
    v.tv[i] = x;
}

impl Clone for PlusMinusItems {
    /// `TinyVec::clone`: a vector with the same contents.
    #[verifier::external_body]
    fn clone(&self) -> (r: Self)
        ensures
            plus_minus_items(r) == plus_minus_items(*self),
    {
        PlusMinusItems { tv: self.tv.clone() }
    }
}

/// Fills a new storage with the given entries, in order.
fn plus_minus_items_from_vec(v: &Vec<(usize, SinglePlusMinusOperator)>) -> (r: PlusMinusItems)
    ensures
        plus_minus_items(r) == v@,
{
    let mut out = plus_minus_items_new(v.len());
    let mut i: usize = 0;
    while i < v.len()
        invariant
            0 <= i <= v.len(),
            plus_minus_items(out) == v@.subrange(0, i as int),
        decreases v.len() - i,
    {
        plus_minus_items_push(&mut out, v[i]);
        assert(v@.subrange(0, i + 1) =~= v@.subrange(0, i as int).push(v@[i as int]));
        i = i + 1;
    }
    assert(v@.subrange(0, v.len() as int) =~= v@);
    out
}

/// A product of plus/minus operators on spins, such as `0+2-` (sigma+ on
/// spin 0 times sigma- on spin 2), its entries listed in order of the spin
/// (normally one per spin). The empty product is the identity.
#[derive(Debug, Hash)]
pub struct PlusMinusProduct {
    items: PlusMinusItems,
}

impl View for PlusMinusProduct {
    type V = Seq<(usize, SinglePlusMinusOperator)>;

    /// The `(spin, operator)` entries of the product, in order of the spin.
    closed spec fn view(&self) -> Seq<(usize, SinglePlusMinusOperator)> {
        plus_minus_items(self.items)
    }
}

impl PlusMinusProduct {
    /// A product holds no identities and lists its spins in order.
    #[verifier::type_invariant]
    spec fn inv(self) -> bool {
        items_wf(plus_minus_items(self.items))
    }

    /// The entries of the product as a slice.
    pub fn as_slice(&self) -> (r: &[(usize, SinglePlusMinusOperator)])
        ensures
            r@ == self@,
            items_wf(self@),
    {
        proof {
            use_type_invariant(self);
        }
        plus_minus_items_slice(&self.items)
    }

    /// An iterator over the entries of the product, in order of the spin.
    pub fn iter(&self) -> (r: std::slice::Iter<'_, (usize, SinglePlusMinusOperator)>)
        ensures
            r.remaining() == self@.as_ref(),
    {
        broadcast use vstd::std_specs::slice::axiom_spec_slice_iter;
        self.as_slice().iter()
    }

    /// The empty product (the identity).
    pub fn new() -> (r: Self)
        ensures
            r@ == Seq::<(usize, SinglePlusMinusOperator)>::empty(),
    {
        PlusMinusProduct { items: plus_minus_items_new(5) }
    }

    /// The empty product, with room for `cap` entries.
    pub fn with_capacity(cap: usize) -> (r: Self)
        ensures
            r@ == Seq::<(usize, SinglePlusMinusOperator)>::empty(),
    {
        PlusMinusProduct { items: plus_minus_items_new(cap) }
    }

    /// The product with the given entries, which must be well-formed.
    fn from_items(v: &Vec<(usize, SinglePlusMinusOperator)>) -> (r: Self)
        requires
            items_wf(v@),
        ensures
            r@ == v@,
    {
        PlusMinusProduct { items: plus_minus_items_from_vec(v) }
    }

    /// Sets spin `index` to `pauli`, consuming the product: an existing entry
    /// on that spin is replaced (removed, for the identity), otherwise a new
    /// entry is put in its place in spin order.
    pub fn set_pauli(self, index: usize, pauli: SinglePlusMinusOperator) -> (r: Self)
        ensures
            r@ == set_items(self@, index, pauli),
    {
        proof {
            use_type_invariant(&self);
            lemma_set_items_wf(self@, index, pauli);
            lemma_first_at_least(self@, index);
        }
        let mut items = self.items;
        let p = find_slot(plus_minus_items_slice(&items), index);
        let len = plus_minus_items_slice(&items).len();
        if p < len && plus_minus_items_slice(&items)[p].0 == index {
            if pauli == SinglePlusMinusOperator::Identity {
                let _removed = plus_minus_items_remove(&mut items, p);
            } else {
                plus_minus_items_set(&mut items, p, (index, pauli));
            }
        } else if pauli != SinglePlusMinusOperator::Identity {
            plus_minus_items_insert(&mut items, p, (index, pauli));
        }
        PlusMinusProduct { items }
    }

    /// Sets spin `index` to sigma+.
    pub fn plus(self, index: usize) -> (r: Self)
        ensures
            r@ == set_items(self@, index, SinglePlusMinusOperator::Plus),
    {
        self.set_pauli(index, SinglePlusMinusOperator::Plus)
    }

    /// Sets spin `index` to sigma-.
    pub fn minus(self, index: usize) -> (r: Self)
        ensures
            r@ == set_items(self@, index, SinglePlusMinusOperator::Minus),
    {
        self.set_pauli(index, SinglePlusMinusOperator::Minus)
    }

    /// Sets spin `index` to Z.
    pub fn z(self, index: usize) -> (r: Self)
        ensures
            r@ == set_items(self@, index, SinglePlusMinusOperator::Z),
    {
        self.set_pauli(index, SinglePlusMinusOperator::Z)
    }

    /// The operator on spin `index`, if the product acts on it.
    pub fn get(&self, index: &usize) -> (r: Option<&SinglePlusMinusOperator>)
        ensures
            match r {
                Some(x) => lookup(self@, *index) == Some(*x),
                None => lookup(self@, *index) is None,
            },
    {
        let s = self.as_slice();
        let mut i: usize = 0;
        assert(s@.skip(0) =~= s@);
        while i < s.len()
            invariant
                0 <= i <= s.len(),
                s@ == self@,
                lookup(s@, *index) == lookup(s@.skip(i as int), *index),
            decreases s.len() - i,
        {
            assert(s@.skip(i as int).drop_first() =~= s@.skip(i + 1));
            if s[i].0 == *index {
                return Some(&s[i].1);
            }
            i = i + 1;
        }
        None
    }

    /// The number of entries (spins the product acts on).
    pub fn len(&self) -> (r: usize)
        ensures
            r == self@.len(),
    {
        self.as_slice().len()
    }

    /// Whether the product is the identity.
    pub fn is_empty(&self) -> (r: bool)
        ensures
            r == (self@.len() == 0),
    {
        self.as_slice().len() == 0
    }

    /// The largest spin the product acts on (0 for the identity).
    pub fn current_number_spins(&self) -> (r: usize)
        ensures
            r == if self@.len() == 0 { 0 } else { self@.last().0 },
            forall|i: int| 0 <= i < self@.len() ==> (#[trigger] self@[i]).0 <= r,
    {
        proof {
            use_type_invariant(self);
        }
        let s = self.as_slice();
        if s.len() == 0 {
            0
        } else {
            s[s.len() - 1].0
        }
    }

    /// Renames the spins by `mapping` (spins it does not name stay), then
    /// sorts the entries by spin, keeping entries with equal spin in order.
    pub fn remap_qubits(&self, mapping: &HashMap<usize, usize>) -> (r: Self)
        ensures
            r@ == remap_items(self@, mapping@),
    {
        broadcast use vstd::std_specs::hash::group_hash_axioms;
        let s = self.as_slice();
        let mut mapped: Vec<(usize, SinglePlusMinusOperator)> = Vec::with_capacity(s.len());
        let mut i: usize = 0;
        while i < s.len()
            invariant
                0 <= i <= s.len(),
                s@ == self@,
                items_wf(s@),
                mapped@ == rename_items(s@.subrange(0, i as int), mapping@),
            decreases s.len() - i,
        {
            let (key, val) = s[i];
            let new_key = match mapping.get(&key) {
                Some(x) => *x,
                None => key,
            };
            assert(new_key == (if mapping@.contains_key(key) { mapping@[key] } else { key }));
            mapped.push((new_key, val));
            assert(rename_items(s@.subrange(0, i + 1), mapping@) =~= rename_items(s@.subrange(0, i as int), mapping@).push((new_key, val)));
            i = i + 1;
        }
        assert(s@.subrange(0, s.len() as int) =~= s@);
        let sorted = sort_items(mapped);
        proof {
            assert forall|j: int| 0 <= j < mapped@.len() implies !(#[trigger] mapped@[j]).1.spec_is_identity() by {
                assert(mapped@[j].1 == s@[j].1);
            }
            lemma_sort_no_identity(mapped@);
        }
        PlusMinusProduct::from_items(&sorted)
    }

    /// Joins two products on disjoint spins, sorting the entries by spin.
    /// Fails with the first spin of `other` that is already taken.
    pub fn concatenate(&self, other: PlusMinusProduct) -> (r: Result<PlusMinusProduct, StruqtureError>)
        ensures
            match first_conflict(self@, other@) {
                Some(k) => r == Err::<PlusMinusProduct, StruqtureError>(StruqtureError::ProductIndexAlreadyOccupied { index: k }),
                None => r is Ok && r->Ok_0@ == sort_by_index(self@ + other@),
            },
    {
        let s = self.as_slice();
        let o = other.as_slice();
        let mut return_list: Vec<(usize, SinglePlusMinusOperator)> = Vec::with_capacity(s.len());
        let mut i: usize = 0;
        while i < s.len()
            invariant
                0 <= i <= s.len(),
                return_list@ == s@.subrange(0, i as int),
            decreases s.len() - i,
        {
            return_list.push(s[i]);
            assert(s@.subrange(0, i + 1) =~= s@.subrange(0, i as int).push(s@[i as int]));
            i = i + 1;
        }
        assert(s@.subrange(0, s.len() as int) =~= s@);
        assert(o@.subrange(0, 0) =~= Seq::<(usize, SinglePlusMinusOperator)>::empty());
        assert(s@ + o@.subrange(0, 0) =~= s@);
        assert(o@.skip(0) =~= o@);
        let mut j: usize = 0;
        while j < o.len()
            invariant
                0 <= j <= o.len(),
                s@ == self@,
                o@ == other@,
                items_wf(s@),
                items_wf(o@),
                return_list@ == s@ + o@.subrange(0, j as int),
                first_conflict(self@, other@) == first_conflict(return_list@, o@.skip(j as int)),
            decreases o.len() - j,
        {
            let (key, val) = o[j];
            assert(o@.skip(j as int).drop_first() =~= o@.skip(j + 1));
            assert(o@.skip(j as int)[0] == o@[j as int]);
            if has_index_slice(return_list.as_slice(), key) {
                return Err(StruqtureError::ProductIndexAlreadyOccupied { index: key });
            }
            return_list.push((key, val));
            assert(o@.subrange(0, j + 1) =~= o@.subrange(0, j as int).push(o@[j as int]));
            j = j + 1;
        }
        assert(o@.subrange(0, o.len() as int) =~= o@);
        proof {
            assert forall|k: int| 0 <= k < return_list@.len() implies !(#[trigger] return_list@[k]).1.spec_is_identity() by {
                if k >= s@.len() {
                    assert(return_list@[k] == o@[k - s@.len()]);
                }
            }
            lemma_sort_no_identity(return_list@);
        }
        let sorted = sort_items(return_list);
        Ok(PlusMinusProduct::from_items(&sorted))
    }

    /// The hermitian conjugate: sigma+ and sigma- trade places, Z stays;
    /// the prefactor is 1.
    pub fn hermitian_conjugate(&self) -> (r: (Self, i8))
        ensures
            r.0@ == conjugate_items(self@),
            r.1 == 1,
    {
        let s = self.as_slice();
        let mut out: Vec<(usize, SinglePlusMinusOperator)> = Vec::with_capacity(s.len());
        let mut i: usize = 0;
        assert(s@.take(0) =~= Seq::<(usize, SinglePlusMinusOperator)>::empty());
        while i < s.len()
            invariant
                0 <= i <= s@.len(),
                out@ == conjugate_items(s@.take(i as int)),
            decreases s.len() - i,
        {
            let (index, single) = s[i];
            let conj = match single {
                SinglePlusMinusOperator::Identity => SinglePlusMinusOperator::Identity,
                SinglePlusMinusOperator::Plus => SinglePlusMinusOperator::Minus,
                SinglePlusMinusOperator::Minus => SinglePlusMinusOperator::Plus,
                SinglePlusMinusOperator::Z => SinglePlusMinusOperator::Z,
            };
            out.push((index, conj));
            assert(conjugate_items(s@.take(i + 1)) =~= conjugate_items(s@.take(i as int)).push((index, conj)));
            i = i + 1;
        }
        assert(s@.take(s@.len() as int) =~= s@);
        proof {
            assert forall|k: int| 0 <= k < out@.len() implies !(#[trigger] out@[k]).1.spec_is_identity() by {
                assert(out@[k].1 == conjugate_single(s@[k].1));
            }
            assert forall|a: int, b: int| 0 <= a < b < out@.len() implies out@[a].0 <= out@[b].0 by {
                assert(out@[a].0 == s@[a].0 && out@[b].0 == s@[b].0);
            }
        }
        (PlusMinusProduct::from_items(&out), 1)
    }

    /// Whether the product is hermitian as it stands: whether it holds only Z.
    pub fn is_natural_hermitian(&self) -> (r: bool)
        ensures
            r == (forall|k: int| 0 <= k < self@.len() ==> (#[trigger] self@[k]).1 == SinglePlusMinusOperator::Z
                || self@[k].1 == SinglePlusMinusOperator::Identity),
    {
        let s = self.as_slice();
        let mut i: usize = 0;
        while i < s.len()
            invariant
                0 <= i <= s@.len(),
                s@ == self@,
                forall|k: int| 0 <= k < i ==> (#[trigger] s@[k]).1 == SinglePlusMinusOperator::Z
                    || s@[k].1 == SinglePlusMinusOperator::Identity,
            decreases s.len() - i,
        {
            match s[i].1 {
                SinglePlusMinusOperator::Plus => {
                    return false;
                },
                SinglePlusMinusOperator::Minus => {
                    return false;
                },
                _ => {},
            }
            i = i + 1;
        }
        true
    }

    /// The product built by setting the given entries one after the other.
    pub fn from_iter(entries: Vec<(usize, SinglePlusMinusOperator)>) -> (r: Self)
        ensures
            r@ == set_all(Seq::empty(), entries@),
    {
        let mut pp = PlusMinusProduct::new();
        pp.extend(entries);
        pp
    }

    /// Sets the given entries on the product, one after the other.
    pub fn extend(&mut self, entries: Vec<(usize, SinglePlusMinusOperator)>)
        ensures
            final(self)@ == set_all(old(self)@, entries@),
    {
        let mut i: usize = 0;
        let ghost start = self@;
        assert(entries@.subrange(0, 0) =~= Seq::<(usize, SinglePlusMinusOperator)>::empty());
        while i < entries.len()
            invariant
                0 <= i <= entries.len(),
                self@ == set_all(start, entries@.subrange(0, i as int)),
            decreases entries.len() - i,
        {
            let (index, pauli) = entries[i];
            let pp = self.clone();
            *self = pp.set_pauli(index, pauli);
            assert(entries@.subrange(0, i + 1).drop_last() =~= entries@.subrange(0, i as int));
            i = i + 1;
        }
        assert(entries@.subrange(0, entries.len() as int) =~= entries@);
    }
}

impl PlusMinusProduct {
    /// Reads a product from its string form: spins in decimal, each followed
    /// by `+`, `-`, `Z` (or `I`, which is skipped), such as `0+12-`; `I` and
    /// the empty string stand for the identity. Fails when the string does not
    /// start with a number, an index is not a number, a symbol is unknown, or a
    /// spin is given twice.
    pub fn from_str(s: &str) -> (r: Result<PlusMinusProduct, StruqtureError>)
        ensures
            match parse_items_spec::<SinglePlusMinusOperator>(s@, true, true) {
                Ok(v) => r is Ok && r->Ok_0@ == v,
                Err(f) => r is Err && error_for(r->Err_0, f, "PlusMinusProduct"@, s@),
            },
    {
        proof {
            lemma_parse_items_wf::<SinglePlusMinusOperator>(s@, true, true);
        }
        match parse_items::<SinglePlusMinusOperator>(s, true, true, "PlusMinusProduct") {
            Ok(v) => Ok(PlusMinusProduct::from_items(&v)),
            Err(e) => Err(e),
        }
    }

    /// The string form of the product: `I` for the identity, otherwise each
    /// spin in decimal followed by its symbol, such as `0X12Z`.
    pub fn to_string(&self) -> (r: String)
        ensures
            r@ == print_items(self@),
    {
        items_to_string(self.as_slice())
    }

    /// Orders products: fewer entries first; equal numbers of entries compared
    /// entry by entry, by spin and then by operator (I < + < - < Z).
    pub fn compare(&self, other: &Self) -> (r: Ordering)
        ensures
            ordering_is(r, product_order(self@, other@)),
    {
        order_items(self.as_slice(), other.as_slice())
    }
}

impl Default for PlusMinusProduct {
    fn default() -> (r: Self)
        ensures
            r@ == Seq::<(usize, SinglePlusMinusOperator)>::empty(),
    {
        PlusMinusProduct::new()
    }
}

impl PartialEq for PlusMinusProduct {
    fn eq(&self, other: &Self) -> (r: bool) {
        items_equal(self.as_slice(), other.as_slice())
    }
}

impl vstd::std_specs::cmp::PartialEqSpecImpl for PlusMinusProduct {
    open spec fn obeys_eq_spec() -> bool {
        true
    }

    open spec fn eq_spec(&self, other: &Self) -> bool {
        self@ == other@
    }
}

impl Eq for PlusMinusProduct {}

impl PartialOrd for PlusMinusProduct {
    fn partial_cmp(&self, other: &Self) -> (r: Option<Ordering>) {
        Some(self.compare(other))
    }
}

impl vstd::std_specs::cmp::PartialOrdSpecImpl for PlusMinusProduct {
    open spec fn obeys_partial_cmp_spec() -> bool {
        true
    }

    open spec fn partial_cmp_spec(&self, other: &Self) -> Option<Ordering> {
        Some(ordering_of(product_order(self@, other@)))
    }
}


impl std::str::FromStr for PlusMinusProduct {
    type Err = StruqtureError;

    /// Reads a product from its string form; see the inherent `from_str`.
    fn from_str(s: &str) -> (r: Result<Self, Self::Err>)
        ensures
            match parse_items_spec::<SinglePlusMinusOperator>(s@, true, true) {
                Ok(v) => r is Ok && r->Ok_0@ == v,
                Err(f) => r is Err && error_for(r->Err_0, f, "PlusMinusProduct"@, s@),
            },
    {
        PlusMinusProduct::from_str(s)
    }
}

impl Clone for PlusMinusProduct {
    fn clone(&self) -> (r: Self)
        ensures
            r@ == self@,
    {
        proof {
            use_type_invariant(self);
        }
        PlusMinusProduct { items: self.items.clone() }
    }
}


impl PlusMinusProduct {
    /// A Pauli product written in the plus/minus basis: it is the sum of the
    /// returned terms (X = sigma+ + sigma-, Y = -i sigma+ + i sigma-).
    pub fn from_pauli_product(value: PauliProduct) -> (r: Vec<(PlusMinusProduct, Prefactor)>)
        ensures
            terms_view::<SinglePlusMinusOperator, PlusMinusProduct>(r@) == expand_terms::<SinglePauliOperator, SinglePlusMinusOperator>(value@),
    {
        expand_product::<SinglePauliOperator, SinglePlusMinusOperator, PlusMinusProduct>(value.as_slice())
    }

    /// A decoherence product written in the plus/minus basis: it is the sum of
    /// the returned terms (X = sigma+ + sigma-, iY = sigma+ - sigma-).
    pub fn from_decoherence_product(value: DecoherenceProduct) -> (r: Vec<(PlusMinusProduct, Prefactor)>)
        ensures
            terms_view::<SinglePlusMinusOperator, PlusMinusProduct>(r@) == expand_terms::<SingleDecoherenceOperator, SinglePlusMinusOperator>(value@),
    {
        expand_product::<SingleDecoherenceOperator, SinglePlusMinusOperator, PlusMinusProduct>(value.as_slice())
    }

    /// The product written in Pauli matrices: it is the sum of the returned
    /// terms (sigma+ = (X + iY)/2, sigma- = (X - iY)/2).
    pub fn to_pauli_products(self) -> (r: Vec<(PauliProduct, Prefactor)>)
        ensures
            terms_view::<SinglePauliOperator, PauliProduct>(r@) == expand_terms::<SinglePlusMinusOperator, SinglePauliOperator>(self@),
    {
        expand_product::<SinglePlusMinusOperator, SinglePauliOperator, PauliProduct>(self.as_slice())
    }

    /// The product written in decoherence matrices: it is the sum of the
    /// returned terms (sigma+ = (X + iY)/2, sigma- = (X - iY)/2).
    pub fn to_decoherence_products(self) -> (r: Vec<(DecoherenceProduct, Prefactor)>)
        ensures
            terms_view::<SingleDecoherenceOperator, DecoherenceProduct>(r@) == expand_terms::<SinglePlusMinusOperator, SingleDecoherenceOperator>(self@),
    {
        expand_product::<SinglePlusMinusOperator, SingleDecoherenceOperator, DecoherenceProduct>(self.as_slice())
    }
}

} // verus!
