//! Rewriting a product in another single-site basis: every single-site
//! operator becomes a short sum of operators of the other basis, and the
//! product becomes the sum of all products of those terms.

use vstd::prelude::*;
use crate::items::{set_items, SingleOperator};
use crate::phase::{Phase, Prefactor};
use crate::single::{
    decoherence_to_plus_minus_spec, pauli_to_plus_minus_spec, plus_minus_to_decoherence_spec,
    plus_minus_to_pauli_spec, SingleDecoherenceOperator, SinglePauliOperator, SinglePlusMinusOperator,
};
use crate::pauli_product::PauliProduct;
use crate::decoherence_product::DecoherenceProduct;
use crate::plus_minus_product::PlusMinusProduct;

verus! {

/// A single-site operator that can be written as a sum of operators of the basis `T`.
pub trait SingleConversion<T: SingleOperator>: SingleOperator {
    /// The terms of the sum.
    spec fn conversion_terms(self) -> Seq<(T, Prefactor)>;

    /// The terms of the sum.
    fn conversion_terms_exec(self) -> (r: Vec<(T, Prefactor)>)
        ensures
            r@ == self.conversion_terms(),
    ;

    /// Each term carries at most one halving, and an operator that is not
    /// the identity is written without the identity.
    proof fn lemma_conversion_halvings(self)
        ensures
            forall|i: int| 0 <= i < self.conversion_terms().len() ==> (#[trigger] self.conversion_terms()[i]).1.halvings <= 1,
            !self.spec_is_identity() ==> forall|i: int| 0 <= i < self.conversion_terms().len()
                ==> !(#[trigger] self.conversion_terms()[i]).0.spec_is_identity(),
    ;
}

/// A product type over the single-site operators `T`.
pub trait SpinProduct<T: SingleOperator>: Sized {
    /// The entries of the product.
    spec fn entries(&self) -> Seq<(usize, T)>;

    /// The empty product.
    fn empty_product() -> (r: Self)
        ensures
            r.entries() == Seq::<(usize, T)>::empty(),
    ;

    /// A copy of the product with spin `index` set to `op`.
    fn with_site(&self, index: usize, op: T) -> (r: Self)
        ensures
            r.entries() == set_items(self.entries(), index, op),
    ;
}

/// The terms after rewriting one more spin `k`: for each term of that spin's
/// sum in order, every term of `list` with spin `k` set to it and its
/// prefactor multiplied in.
pub open spec fn step_terms<T: SingleOperator>(
    list: Seq<(Seq<(usize, T)>, Prefactor)>,
    k: usize,
    opts: Seq<(T, Prefactor)>,
) -> Seq<(Seq<(usize, T)>, Prefactor)>
    decreases opts.len(),
{
    if opts.len() == 0 {
        Seq::empty()
    } else {
        step_terms(list, k, opts.drop_last()) + list.map_values(
            |e: (Seq<(usize, T)>, Prefactor)| (set_items(e.0, k, opts.last().0), opts.last().1.times(e.1)),
        )
    }
}

/// The terms of a product rewritten spin by spin in the basis `T`, starting
/// from the empty product with prefactor 1.
pub open spec fn expand_terms<S: SingleConversion<T>, T: SingleOperator>(s: Seq<(usize, S)>) -> Seq<(Seq<(usize, T)>, Prefactor)>
    decreases s.len(),
{
    if s.len() == 0 {
        seq![(Seq::<(usize, T)>::empty(), Prefactor { phase: Phase::One, halvings: 0 })]
    } else {
        step_terms(expand_terms::<S, T>(s.drop_last()), s.last().0, s.last().1.conversion_terms())
    }
}

/// The entries and prefactors of a list of terms.
pub open spec fn terms_view<T: SingleOperator, P: SpinProduct<T>>(v: Seq<(P, Prefactor)>) -> Seq<(Seq<(usize, T)>, Prefactor)> {
    v.map_values(|e: (P, Prefactor)| (e.0.entries(), e.1))
}

/// Rewrites a product in the basis `T`; see `expand_terms`.
pub fn expand_product<S: SingleConversion<T>, T: SingleOperator, P: SpinProduct<T>>(s: &[(usize, S)]) -> (r: Vec<(P, Prefactor)>)
    ensures
        terms_view::<T, P>(r@) == expand_terms::<S, T>(s@),
{
    let mut new_vec: Vec<(P, Prefactor)> = Vec::new();
    new_vec.push((P::empty_product(), Prefactor { phase: Phase::One, halvings: 0 }));
    assert(s@.take(0) =~= Seq::<(usize, S)>::empty());
    assert(terms_view::<T, P>(new_vec@) =~= expand_terms::<S, T>(s@.take(0)));
    let mut i: usize = 0;
    while i < s.len()
        invariant
            0 <= i <= s@.len(),
            terms_view::<T, P>(new_vec@) == expand_terms::<S, T>(s@.take(i as int)),
            forall|j: int| 0 <= j < new_vec@.len() ==> (#[trigger] new_vec@[j]).1.halvings <= i,
        decreases s.len() - i,
    {
        let (index, single) = s[i];
        let temp_vec = single.conversion_terms_exec();
        proof {
            single.lemma_conversion_halvings();
        }
        let ghost list = terms_view::<T, P>(new_vec@);
        let mut temp_new_vec: Vec<(P, Prefactor)> = Vec::new();
        let mut a: usize = 0;
        assert(temp_vec@.take(0) =~= Seq::<(T, Prefactor)>::empty());
        assert(terms_view::<T, P>(temp_new_vec@) =~= step_terms(list, index, temp_vec@.take(0)));
        while a < temp_vec.len()
            invariant
                0 <= a <= temp_vec@.len(),
                i < s@.len(),
                i < usize::MAX,
                list == terms_view::<T, P>(new_vec@),
                forall|j: int| 0 <= j < new_vec@.len() ==> (#[trigger] new_vec@[j]).1.halvings <= i,
                forall|j: int| 0 <= j < temp_vec@.len() ==> (#[trigger] temp_vec@[j]).1.halvings <= 1,
                terms_view::<T, P>(temp_new_vec@) == step_terms(list, index, temp_vec@.take(a as int)),
                forall|j: int| 0 <= j < temp_new_vec@.len() ==> (#[trigger] temp_new_vec@[j]).1.halvings <= i + 1,
            decreases temp_vec.len() - a,
        {
            let (new_op, new_prefactor) = temp_vec[a];
            let ghost before = terms_view::<T, P>(temp_new_vec@);
            let ghost f = |e: (Seq<(usize, T)>, Prefactor)| (set_items(e.0, index, new_op), new_prefactor.times(e.1));
            let mut b: usize = 0;
            assert(list.take(0).map_values(f) =~= Seq::<(Seq<(usize, T)>, Prefactor)>::empty());
            assert(before + list.take(0).map_values(f) =~= before);
            while b < new_vec.len()
                invariant
                    0 <= b <= new_vec@.len(),
                    i < s@.len(),
                    i < usize::MAX,
                    list == terms_view::<T, P>(new_vec@),
                    forall|j: int| 0 <= j < new_vec@.len() ==> (#[trigger] new_vec@[j]).1.halvings <= i,
                    new_prefactor.halvings <= 1,
                    f == (|e: (Seq<(usize, T)>, Prefactor)| (set_items(e.0, index, new_op), new_prefactor.times(e.1))),
                    terms_view::<T, P>(temp_new_vec@) == before + list.take(b as int).map_values(f),
                    forall|j: int| 0 <= j < temp_new_vec@.len() ==> (#[trigger] temp_new_vec@[j]).1.halvings <= i + 1,
                decreases new_vec.len() - b,
            {
                let product = new_vec[b].0.with_site(index, new_op);
                let prefactor = new_prefactor.mul(new_vec[b].1);
                let ghost old_temp = temp_new_vec@;
                temp_new_vec.push((product, prefactor));
                proof {
                    assert(list[b as int] == (new_vec@[b as int].0.entries(), new_vec@[b as int].1));
                    assert(list.take(b + 1).map_values(f) =~= list.take(b as int).map_values(f).push(f(list[b as int])));
                    assert(terms_view::<T, P>(temp_new_vec@) =~= terms_view::<T, P>(old_temp).push((product.entries(), prefactor)));
                    assert forall|j: int| 0 <= j < temp_new_vec@.len() implies (#[trigger] temp_new_vec@[j]).1.halvings <= i + 1 by {
                        if j < old_temp.len() {
                            assert(temp_new_vec@[j] == old_temp[j]);
                        }
                    }
                }
                b = b + 1;
            }
            proof {
                assert(list.take(list.len() as int) =~= list);
                assert(temp_vec@.take(a + 1).drop_last() =~= temp_vec@.take(a as int));
                assert(temp_vec@.take(a + 1).last() == (new_op, new_prefactor));
                assert(list.map_values(f) =~= list.map_values(
                    |e: (Seq<(usize, T)>, Prefactor)| (set_items(e.0, index, temp_vec@.take(a + 1).last().0), temp_vec@.take(a + 1).last().1.times(e.1)),
                ));
            }
            a = a + 1;
        }
        proof {
            assert(temp_vec@.take(temp_vec@.len() as int) =~= temp_vec@);
            assert(s@.take(i + 1).drop_last() =~= s@.take(i as int));
            assert(s@.take(i + 1).last() == (index, single));
        }
        new_vec = temp_new_vec;
        i = i + 1;
    }
    assert(s@.take(s@.len() as int) =~= s@);
    new_vec
}


impl SingleConversion<SinglePlusMinusOperator> for SinglePauliOperator {
    open spec fn conversion_terms(self) -> Seq<(SinglePlusMinusOperator, Prefactor)> {
        pauli_to_plus_minus_spec(self)
    }

    fn conversion_terms_exec(self) -> (r: Vec<(SinglePlusMinusOperator, Prefactor)>) {
        SinglePlusMinusOperator::from_pauli(self)
    }

    proof fn lemma_conversion_halvings(self) {
    }
}

impl SingleConversion<SinglePlusMinusOperator> for SingleDecoherenceOperator {
    open spec fn conversion_terms(self) -> Seq<(SinglePlusMinusOperator, Prefactor)> {
        decoherence_to_plus_minus_spec(self)
    }

    fn conversion_terms_exec(self) -> (r: Vec<(SinglePlusMinusOperator, Prefactor)>) {
        SinglePlusMinusOperator::from_decoherence(self)
    }

    proof fn lemma_conversion_halvings(self) {
    }
}

impl SingleConversion<SinglePauliOperator> for SinglePlusMinusOperator {
    open spec fn conversion_terms(self) -> Seq<(SinglePauliOperator, Prefactor)> {
        plus_minus_to_pauli_spec(self)
    }

    fn conversion_terms_exec(self) -> (r: Vec<(SinglePauliOperator, Prefactor)>) {
        self.to_pauli_terms()
    }

    proof fn lemma_conversion_halvings(self) {
    }
}

impl SingleConversion<SingleDecoherenceOperator> for SinglePlusMinusOperator {
    open spec fn conversion_terms(self) -> Seq<(SingleDecoherenceOperator, Prefactor)> {
        plus_minus_to_decoherence_spec(self)
    }

    fn conversion_terms_exec(self) -> (r: Vec<(SingleDecoherenceOperator, Prefactor)>) {
        self.to_decoherence_terms()
    }

    proof fn lemma_conversion_halvings(self) {
    }
}

impl SpinProduct<SinglePauliOperator> for PauliProduct {
    open spec fn entries(&self) -> Seq<(usize, SinglePauliOperator)> {
        self@
    }

    fn empty_product() -> (r: Self) {
        PauliProduct::new()
    }

    fn with_site(&self, index: usize, op: SinglePauliOperator) -> (r: Self) {
        self.clone().set_pauli(index, op)
    }
}

impl SpinProduct<SingleDecoherenceOperator> for DecoherenceProduct {
    open spec fn entries(&self) -> Seq<(usize, SingleDecoherenceOperator)> {
        self@
    }

    fn empty_product() -> (r: Self) {
        DecoherenceProduct::new()
    }

    fn with_site(&self, index: usize, op: SingleDecoherenceOperator) -> (r: Self) {
        self.clone().set_pauli(index, op)
    }
}

impl SpinProduct<SinglePlusMinusOperator> for PlusMinusProduct {
    open spec fn entries(&self) -> Seq<(usize, SinglePlusMinusOperator)> {
        self@
    }

    fn empty_product() -> (r: Self) {
        PlusMinusProduct::new()
    }

    fn with_site(&self, index: usize, op: SinglePlusMinusOperator) -> (r: Self) {
        self.clone().set_pauli(index, op)
    }
}

} // verus!
