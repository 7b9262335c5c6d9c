//! Products of Pauli matrices on distinct spins.

use vstd::prelude::*;
use vstd::std_specs::iter::IteratorSpec;
use tinyvec::TinyVec;
use std::collections::HashMap;
use crate::error::StruqtureError;
use crate::items::{
    find_slot, first_at_least, MultiplicativeOperator, first_conflict, has_index_slice, items_wf, lemma_first_at_least,
    lemma_set_items_wf, lemma_sort_no_identity, lookup, lookup_slice, mul_items, mul_left_fold,
    mul_phase, mul_right_fold, remap_items, rename_items, set_all, set_items, sort_by_index, sort_items,
    SingleOperator,
};
use crate::phase::Phase;
use crate::order::{order_items, ordering_is, ordering_of, product_order, items_equal};
use crate::single::SinglePauliOperator;
use crate::text::{error_for, items_to_string, lemma_parse_items_wf, parse_items, parse_items_spec, print_items};
use core::cmp::Ordering;
use crate::matrix::{row_walk, walk_row, pow2_usize};
use vstd::arithmetic::power2::pow2;

verus! {

/// The storage of a product: a small vector of `(spin, operator)` pairs.
#[verifier::external_body]
#[derive(Debug, Hash)]
pub struct PauliItems {
    tv: TinyVec<[(usize, SinglePauliOperator); 5]>,
}

/// What the storage of a product holds, in order.
pub uninterp spec fn pauli_items(v: PauliItems) -> Seq<(usize, SinglePauliOperator)>;

/// `TinyVec::with_capacity`: an empty vector (the capacity is not part of the contents).
#[verifier::external_body]
fn pauli_items_new(cap: usize) -> (r: PauliItems)
    ensures
        pauli_items(r) == Seq::<(usize, SinglePauliOperator)>::empty(),
{
    PauliItems { tv: TinyVec::with_capacity(cap) }
}

/// `TinyVec::as_slice`: the contents as a slice.
#[verifier::external_body]
fn pauli_items_slice(v: &PauliItems) -> (r: &[(usize, SinglePauliOperator)])
    ensures
        r@ == pauli_items(*v),
{
    v.tv.as_slice()
}

/// `TinyVec::push`: appends an entry.
#[verifier::external_body]
fn pauli_items_push(v: &mut PauliItems, x: (usize, SinglePauliOperator))
    ensures
        pauli_items(*final(v)) == pauli_items(*old(v)).push(x),
{
    v.tv.push(x)
}

/// `TinyVec::insert`: puts an entry at position `i`, moving the rest back.
#[verifier::external_body]
fn pauli_items_insert(v: &mut PauliItems, i: usize, x: (usize, SinglePauliOperator))
    requires
        i <= pauli_items(*old(v)).len(),
    ensures
        pauli_items(*final(v)) == pauli_items(*old(v)).insert(i as int, x),
{
    v.tv.insert(i, x)
}

/// `TinyVec::remove`: takes out the entry at position `i`, moving the rest forward.
#[verifier::external_body]
fn pauli_items_remove(v: &mut PauliItems, i: usize) -> (r: (usize, SinglePauliOperator))
    requires
        i < pauli_items(*old(v)).len(),
    ensures
        r == pauli_items(*old(v))[i as int],
        pauli_items(*final(v)) == pauli_items(*old(v)).remove(i as int),
{
    v.tv.remove(i)
}

/// Indexing `TinyVec` mutably: overwrites the entry at position `i`.
#[verifier::external_body]
fn pauli_items_set(v: &mut PauliItems, i: usize, x: (usize, SinglePauliOperator))
    requires
        i < pauli_items(*old(v)).len(),
    ensures
        pauli_items(*final(v)) == pauli_items(*old(v)).update(i as int, x),
{
    v.tv[i] = x;
}

impl Clone for PauliItems {
    /// `TinyVec::clone`: a vector with the same contents.
    #[verifier::external_body]
    fn clone(&self) -> (r: Self)
        ensures
            pauli_items(r) == pauli_items(*self),
    {
        PauliItems { tv: self.tv.clone() }
    }
}

/// Fills a new storage with the given entries, in order.
fn pauli_items_from_vec(v: &Vec<(usize, SinglePauliOperator)>) -> (r: PauliItems)
    ensures
        pauli_items(r) == v@,
{
    let mut out = pauli_items_new(v.len());
    let mut i: usize = 0;
    while i < v.len()
        invariant
            0 <= i <= v.len(),
            pauli_items(out) == v@.subrange(0, i as int),
        decreases v.len() - i,
    {
        pauli_items_push(&mut out, v[i]);
        assert(v@.subrange(0, i + 1) =~= v@.subrange(0, i as int).push(v@[i as int]));
        i = i + 1;
    }
    assert(v@.subrange(0, v.len() as int) =~= v@);
    out
}

/// A product of Pauli matrices on spins, such as `0X2Z` (X on spin 0 times Z
/// on spin 2), its entries listed in order of the spin (normally one per
/// spin). The empty product is the identity.
#[derive(Debug, Hash)]
pub struct PauliProduct {
    items: PauliItems,
}

impl View for PauliProduct {
    type V = Seq<(usize, SinglePauliOperator)>;

    /// The `(spin, operator)` entries of the product, in order of the spin.
    closed spec fn view(&self) -> Seq<(usize, SinglePauliOperator)> {
        pauli_items(self.items)
    }
}

impl PauliProduct {
    /// A product holds no identities and lists its spins in order.
    #[verifier::type_invariant]
    spec fn inv(self) -> bool {
        items_wf(pauli_items(self.items))
    }

    /// The entries of the product as a slice.
    pub fn as_slice(&self) -> (r: &[(usize, SinglePauliOperator)])
        ensures
            r@ == self@,
            items_wf(self@),
    {
        proof {
            use_type_invariant(self);
        }
        pauli_items_slice(&self.items)
    }

    /// An iterator over the entries of the product, in order of the spin.
    pub fn iter(&self) -> (r: std::slice::Iter<'_, (usize, SinglePauliOperator)>)
        ensures
            r.remaining() == self@.as_ref(),
    {
        broadcast use vstd::std_specs::slice::axiom_spec_slice_iter;
        self.as_slice().iter()
    }

    /// The empty product (the identity).
    pub fn new() -> (r: Self)
        ensures
            r@ == Seq::<(usize, SinglePauliOperator)>::empty(),
    {
        PauliProduct { items: pauli_items_new(5) }
    }

    /// The empty product, with room for `cap` entries.
    pub fn with_capacity(cap: usize) -> (r: Self)
        ensures
            r@ == Seq::<(usize, SinglePauliOperator)>::empty(),
    {
        PauliProduct { items: pauli_items_new(cap) }
    }

    /// The product with the given entries, which must be well-formed.
    fn from_items(v: &Vec<(usize, SinglePauliOperator)>) -> (r: Self)
        requires
            items_wf(v@),
        ensures
            r@ == v@,
    {
        PauliProduct { items: pauli_items_from_vec(v) }
    }

    /// Sets spin `index` to `pauli`, consuming the product: an existing entry
    /// on that spin is replaced (removed, for the identity), otherwise a new
    /// entry is put in its place in spin order.
    pub fn set_pauli(self, index: usize, pauli: SinglePauliOperator) -> (r: Self)
        ensures
            r@ == set_items(self@, index, pauli),
    {
        proof {
            use_type_invariant(&self);
            lemma_set_items_wf(self@, index, pauli);
            lemma_first_at_least(self@, index);
        }
        let mut items = self.items;
        let p = find_slot(pauli_items_slice(&items), index);
        let len = pauli_items_slice(&items).len();
        if p < len && pauli_items_slice(&items)[p].0 == index {
            if pauli == SinglePauliOperator::Identity {
                let _removed = pauli_items_remove(&mut items, p);
            } else {
                pauli_items_set(&mut items, p, (index, pauli));
            }
        } else if pauli != SinglePauliOperator::Identity {
            pauli_items_insert(&mut items, p, (index, pauli));
        }
        PauliProduct { items }
    }

    /// Sets spin `index` to X.
    pub fn x(self, index: usize) -> (r: Self)
        ensures
            r@ == set_items(self@, index, SinglePauliOperator::X),
    {
        self.set_pauli(index, SinglePauliOperator::X)
    }

    /// Sets spin `index` to Y.
    pub fn y(self, index: usize) -> (r: Self)
        ensures
            r@ == set_items(self@, index, SinglePauliOperator::Y),
    {
        self.set_pauli(index, SinglePauliOperator::Y)
    }

    /// Sets spin `index` to Z.
    pub fn z(self, index: usize) -> (r: Self)
        ensures
            r@ == set_items(self@, index, SinglePauliOperator::Z),
    {
        self.set_pauli(index, SinglePauliOperator::Z)
    }

    /// The operator on spin `index`, if the product acts on it.
    pub fn get(&self, index: &usize) -> (r: Option<&SinglePauliOperator>)
        ensures
            match r {
                Some(x) => lookup(self@, *index) == Some(*x),
                None => lookup(self@, *index) is None,
            },
    {
        let s = self.as_slice();
        let mut i: usize = 0;
        assert(s@.skip(0) =~= s@);
        while i < s.len()
            invariant
                0 <= i <= s.len(),
                s@ == self@,
                lookup(s@, *index) == lookup(s@.skip(i as int), *index),
            decreases s.len() - i,
        {
            assert(s@.skip(i as int).drop_first() =~= s@.skip(i + 1));
            if s[i].0 == *index {
                return Some(&s[i].1);
            }
            i = i + 1;
        }
        None
    }

    /// The number of entries (spins the product acts on).
    pub fn len(&self) -> (r: usize)
        ensures
            r == self@.len(),
    {
        self.as_slice().len()
    }

    /// Whether the product is the identity.
    pub fn is_empty(&self) -> (r: bool)
        ensures
            r == (self@.len() == 0),
    {
        self.as_slice().len() == 0
    }

    /// One more than the largest spin the product acts on (0 for the identity).
    pub fn current_number_spins(&self) -> (r: usize)
        requires
            self@.len() > 0 ==> self@.last().0 < usize::MAX,
        ensures
            r == if self@.len() == 0 { 0 } else { self@.last().0 + 1 },
    {
        let s = self.as_slice();
        if s.len() == 0 {
            0
        } else {
            s[s.len() - 1].0 + 1
        }
    }

    /// Renames the spins by `mapping` (spins it does not name stay), then
    /// sorts the entries by spin, keeping entries with equal spin in order.
    pub fn remap_qubits(&self, mapping: &HashMap<usize, usize>) -> (r: Self)
        ensures
            r@ == remap_items(self@, mapping@),
    {
        broadcast use vstd::std_specs::hash::group_hash_axioms;
        let s = self.as_slice();
        let mut mapped: Vec<(usize, SinglePauliOperator)> = Vec::with_capacity(s.len());
        let mut i: usize = 0;
        while i < s.len()
            invariant
                0 <= i <= s.len(),
                s@ == self@,
                items_wf(s@),
                mapped@ == rename_items(s@.subrange(0, i as int), mapping@),
            decreases s.len() - i,
        {
            let (key, val) = s[i];
            let new_key = match mapping.get(&key) {
                Some(x) => *x,
                None => key,
            };
            assert(new_key == (if mapping@.contains_key(key) { mapping@[key] } else { key }));
            mapped.push((new_key, val));
            assert(rename_items(s@.subrange(0, i + 1), mapping@) =~= rename_items(s@.subrange(0, i as int), mapping@).push((new_key, val)));
            i = i + 1;
        }
        assert(s@.subrange(0, s.len() as int) =~= s@);
        let sorted = sort_items(mapped);
        proof {
            assert forall|j: int| 0 <= j < mapped@.len() implies !(#[trigger] mapped@[j]).1.spec_is_identity() by {
                assert(mapped@[j].1 == s@[j].1);
            }
            lemma_sort_no_identity(mapped@);
        }
        PauliProduct::from_items(&sorted)
    }

    /// Multiplies two products: the product of the matrices on each spin,
    /// with the phase that these single products pick up.
    pub fn multiply(left: PauliProduct, right: PauliProduct) -> (r: (Self, Phase))
        ensures
            r.0@ == mul_items(left@, right@),
            r.1 == mul_phase(left@, right@),
    {
        let ls = left.as_slice();
        let rs = right.as_slice();
        let mut factor = Phase::One;
        let mut result = PauliProduct::new();
        let mut i: usize = 0;
        while i < ls.len()
            invariant
                0 <= i <= ls.len(),
                ls@ == left@,
                rs@ == right@,
                (result@, factor) == mul_left_fold(left@, right@, i as nat),
            decreases ls.len() - i,
        {
            let (key, lop) = ls[i];
            match lookup_slice(rs, key) {
                Some(rop) => {
                    let (p, f) = lop.times_op(rop);
                    factor = factor.mul(f);
                    result = result.set_pauli(key, p);
                },
                None => {
                    result = result.set_pauli(key, lop);
                },
            }
            i = i + 1;
        }
        let ghost acc = result@;
        let mut j: usize = 0;
        while j < rs.len()
            invariant
                0 <= j <= rs.len(),
                ls@ == left@,
                rs@ == right@,
                acc == mul_left_fold(left@, right@, left@.len()).0,
                result@ == mul_right_fold(left@, right@, acc, j as nat),
            decreases rs.len() - j,
        {
            let (key, rop) = rs[j];
            if lookup_slice(ls, key).is_none() {
                result = result.set_pauli(key, rop);
            }
            j = j + 1;
        }
        (result, factor)
    }

    /// Joins two products on disjoint spins, sorting the entries by spin.
    /// Fails with the first spin of `other` that is already taken.
    pub fn concatenate(&self, other: PauliProduct) -> (r: Result<PauliProduct, StruqtureError>)
        ensures
            match first_conflict(self@, other@) {
                Some(k) => r == Err::<PauliProduct, StruqtureError>(StruqtureError::ProductIndexAlreadyOccupied { index: k }),
                None => r is Ok && r->Ok_0@ == sort_by_index(self@ + other@),
            },
    {
        let s = self.as_slice();
        let o = other.as_slice();
        let mut return_list: Vec<(usize, SinglePauliOperator)> = Vec::with_capacity(s.len());
        let mut i: usize = 0;
        while i < s.len()
            invariant
                0 <= i <= s.len(),
                return_list@ == s@.subrange(0, i as int),
            decreases s.len() - i,
        {
            return_list.push(s[i]);
            assert(s@.subrange(0, i + 1) =~= s@.subrange(0, i as int).push(s@[i as int]));
            i = i + 1;
        }
        assert(s@.subrange(0, s.len() as int) =~= s@);
        assert(o@.subrange(0, 0) =~= Seq::<(usize, SinglePauliOperator)>::empty());
        assert(s@ + o@.subrange(0, 0) =~= s@);
        assert(o@.skip(0) =~= o@);
        let mut j: usize = 0;
        while j < o.len()
            invariant
                0 <= j <= o.len(),
                s@ == self@,
                o@ == other@,
                items_wf(s@),
                items_wf(o@),
                return_list@ == s@ + o@.subrange(0, j as int),
                first_conflict(self@, other@) == first_conflict(return_list@, o@.skip(j as int)),
            decreases o.len() - j,
        {
            let (key, val) = o[j];
            assert(o@.skip(j as int).drop_first() =~= o@.skip(j + 1));
            assert(o@.skip(j as int)[0] == o@[j as int]);
            if has_index_slice(return_list.as_slice(), key) {
                return Err(StruqtureError::ProductIndexAlreadyOccupied { index: key });
            }
            return_list.push((key, val));
            assert(o@.subrange(0, j + 1) =~= o@.subrange(0, j as int).push(o@[j as int]));
            j = j + 1;
        }
        assert(o@.subrange(0, o.len() as int) =~= o@);
        proof {
            assert forall|k: int| 0 <= k < return_list@.len() implies !(#[trigger] return_list@[k]).1.spec_is_identity() by {
                if k >= s@.len() {
                    assert(return_list@[k] == o@[k - s@.len()]);
                }
            }
            lemma_sort_no_identity(return_list@);
        }
        let sorted = sort_items(return_list);
        Ok(PauliProduct::from_items(&sorted))
    }

    /// The hermitian conjugate: Pauli matrices are hermitian, so the product
    /// is its own conjugate, with prefactor 1.
    pub fn hermitian_conjugate(&self) -> (r: (Self, i8))
        ensures
            r.0@ == self@,
            r.1 == 1,
    {
        (self.clone(), 1)
    }

    /// Whether the product is hermitian as it stands (always, for Pauli products).
    pub fn is_natural_hermitian(&self) -> (r: bool)
        ensures
            r,
    {
        true
    }

    /// The product built by setting the given entries one after the other.
    pub fn from_iter(entries: Vec<(usize, SinglePauliOperator)>) -> (r: Self)
        ensures
            r@ == set_all(Seq::empty(), entries@),
    {
        let mut pp = PauliProduct::new();
        pp.extend(entries);
        pp
    }

    /// Sets the given entries on the product, one after the other.
    pub fn extend(&mut self, entries: Vec<(usize, SinglePauliOperator)>)
        ensures
            final(self)@ == set_all(old(self)@, entries@),
    {
        let mut i: usize = 0;
        let ghost start = self@;
        assert(entries@.subrange(0, 0) =~= Seq::<(usize, SinglePauliOperator)>::empty());
        while i < entries.len()
            invariant
                0 <= i <= entries.len(),
                self@ == set_all(start, entries@.subrange(0, i as int)),
            decreases entries.len() - i,
        {
            let (index, pauli) = entries[i];
            let pp = self.clone();
            *self = pp.set_pauli(index, pauli);
            assert(entries@.subrange(0, i + 1).drop_last() =~= entries@.subrange(0, i as int));
            i = i + 1;
        }
        assert(entries@.subrange(0, entries.len() as int) =~= entries@);
    }
}

impl PauliProduct {
    /// Reads a product from its string form: spins in decimal, each followed
    /// by `X`, `Y`, `Z` (or `I`, which is skipped), such as `0X12Z`; `I` and
    /// the empty string stand for the identity. Fails when the string does not
    /// start with a number, an index is not a number, a symbol is unknown, or a
    /// spin is given twice.
    pub fn from_str(s: &str) -> (r: Result<PauliProduct, StruqtureError>)
        ensures
            match parse_items_spec::<SinglePauliOperator>(s@, true, false) {
                Ok(v) => r is Ok && r->Ok_0@ == v,
                Err(f) => r is Err && error_for(r->Err_0, f, "PauliProduct"@, s@),
            },
    {
        proof {
            lemma_parse_items_wf::<SinglePauliOperator>(s@, true, false);
        }
        match parse_items::<SinglePauliOperator>(s, true, false, "PauliProduct") {
            Ok(v) => Ok(PauliProduct::from_items(&v)),
            Err(e) => Err(e),
        }
    }

    /// The string form of the product: `I` for the identity, otherwise each
    /// spin in decimal followed by its symbol, such as `0X12Z`.
    pub fn to_string(&self) -> (r: String)
        ensures
            r@ == print_items(self@),
    {
        items_to_string(self.as_slice())
    }

    /// Orders products: fewer entries first; equal numbers of entries compared
    /// entry by entry, by spin and then by operator (I < X < Y < Z).
    pub fn compare(&self, other: &Self) -> (r: Ordering)
        ensures
            ordering_is(r, product_order(self@, other@)),
    {
        order_items(self.as_slice(), other.as_slice())
    }
}

impl Default for PauliProduct {
    fn default() -> (r: Self)
        ensures
            r@ == Seq::<(usize, SinglePauliOperator)>::empty(),
    {
        PauliProduct::new()
    }
}

impl PartialEq for PauliProduct {
    fn eq(&self, other: &Self) -> (r: bool) {
        items_equal(self.as_slice(), other.as_slice())
    }
}

impl vstd::std_specs::cmp::PartialEqSpecImpl for PauliProduct {
    open spec fn obeys_eq_spec() -> bool {
        true
    }

    open spec fn eq_spec(&self, other: &Self) -> bool {
        self@ == other@
    }
}

impl Eq for PauliProduct {}

impl PartialOrd for PauliProduct {
    fn partial_cmp(&self, other: &Self) -> (r: Option<Ordering>) {
        Some(self.compare(other))
    }
}

impl vstd::std_specs::cmp::PartialOrdSpecImpl for PauliProduct {
    open spec fn obeys_partial_cmp_spec() -> bool {
        true
    }

    open spec fn partial_cmp_spec(&self, other: &Self) -> Option<Ordering> {
        Some(ordering_of(product_order(self@, other@)))
    }
}

impl core::ops::Mul for PauliProduct {
    type Output = (PauliProduct, Phase);

    /// Multiplies two products; see `multiply`.
    fn mul(self, rhs: PauliProduct) -> (r: (PauliProduct, Phase))
        ensures
            r.0@ == mul_items(self@, rhs@),
            r.1 == mul_phase(self@, rhs@),
    {
        PauliProduct::multiply(self, rhs)
    }
}

impl vstd::std_specs::ops::MulSpecImpl for PauliProduct {
    open spec fn obeys_mul_spec() -> bool {
        false
    }

    open spec fn mul_req(self, rhs: PauliProduct) -> bool {
        true
    }

    /// Not used: `obeys_mul_spec` is false, and `mul` states its result itself.
    open spec fn mul_spec(self, rhs: PauliProduct) -> (PauliProduct, Phase) {
        (self, Phase::One)
    }
}



impl std::str::FromStr for PauliProduct {
    type Err = StruqtureError;

    /// Reads a product from its string form; see the inherent `from_str`.
    fn from_str(s: &str) -> (r: Result<Self, Self::Err>)
        ensures
            match parse_items_spec::<SinglePauliOperator>(s@, true, false) {
                Ok(v) => r is Ok && r->Ok_0@ == v,
                Err(f) => r is Err && error_for(r->Err_0, f, "PauliProduct"@, s@),
            },
    {
        PauliProduct::from_str(s)
    }
}

impl Clone for PauliProduct {
    fn clone(&self) -> (r: Self)
        ensures
            r@ == self@,
    {
        proof {
            use_type_invariant(self);
        }
        PauliProduct { items: self.items.clone() }
    }
}


impl PauliProduct {
    /// The single entry on row `row` of the matrix of the product: its column
    /// and its phase (`lemma_row_walk_matrix_element`: this is the one nonzero
    /// element of the row of the tensor product of the operators' matrices).
    pub fn matrix_entry_on_row(&self, row: usize) -> (r: (usize, Phase))
        requires
            row_walk(self@, row as int, row as int, 0, false) is Some,
        ensures
            row_walk(self@, row as int, row as int, 0, false) == Some((r.0 as int, r.1)),
    {
        walk_row(self.as_slice(), row, row, 0, false)
    }

    /// The two entries that the product `H` adds to row `row` of the
    /// superoperator `p -> -i [H, p]` on `number_spins` spins (with `p`
    /// flattened row-major): `-i H (x) 1`, acting on the high half of the row
    /// index, and `i 1 (x) H^T`, acting on the low half.
    pub fn superoperator_entries_on_row(&self, row: usize, number_spins: usize) -> (r: Vec<(usize, Phase)>)
        requires
            number_spins < usize::BITS,
            row_walk(self@, row as int / pow2(number_spins as nat) as int, row as int, number_spins as int, false) is Some,
            row_walk(self@, row as int % pow2(number_spins as nat) as int, row as int, 0, true) is Some,
        ensures
            ({
                let dim = pow2(number_spins as nat) as int;
                let (c1, p1) = row_walk(self@, row as int / dim, row as int, number_spins as int, false).unwrap();
                let (c2, p2) = row_walk(self@, row as int % dim, row as int, 0, true).unwrap();
                r@ == seq![(c1 as usize, p1.times(Phase::MinusI)), (c2 as usize, p2.times(Phase::I))]
            }),
    {
        let dimension = pow2_usize(number_spins);
        proof {
            vstd::arithmetic::power2::lemma_pow2_pos(number_spins as nat);
        }
        let (c1, p1) = walk_row(self.as_slice(), row / dimension, row, number_spins, false);
        let (c2, p2) = walk_row(self.as_slice(), row % dimension, row, 0, true);
        let first = (c1, p1.mul(Phase::MinusI));
        let second = (c2, p2.mul(Phase::I));
        let r = vec![first, second];
        assert(r@ =~= seq![first, second]);
        r
    }
}

} // verus!
