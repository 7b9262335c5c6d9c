//! Laws that relate the operations on products to each other.

use vstd::prelude::*;
use crate::items::{
    conjugate_items, conjugate_single, count_iy, has_index, hermitian_sign, index_increasing,
    items_wf, lemma_increasing_ext, lemma_lookup_none, lemma_mul_items_pointwise, lookup,
    mul_items, mul_left_fold, mul_phase, mul_site, set_items, first_at_least,
    lemma_first_at_least, MultiplicativeOperator, SingleOperator, first_conflict, sort_by_index,
    lemma_first_conflict, lemma_sort_increasing, lemma_sort_lookup, lemma_sort_no_identity,
    lemma_lookup_append, lemma_set_items_append, set_all, remap_items, phase_product, seq_phase, site_phases, all_spins,
    lemma_seq_phase_range, lemma_phase_product_mul, lemma_mul_phase_all, lemma_lookup_non_identity,
    lemma_lookup_increasing, non_identity, site_phase, rename_items, lemma_sort_sorted,
    lemma_first_at_least_unique, lemma_set_items_split, set_end, set_middle,
};
use crate::order::{lex_order, product_order};
use crate::phase::{Phase, lemma_phase_interchange, lemma_phase_group};
use crate::single::{
    decoherence_to_spin_spec, spin_to_decoherence_spec, lemma_decoherence_is_pauli,
    SingleDecoherenceOperator, SinglePauliOperator, SinglePlusMinusOperator,
};
use crate::decoherence_product::{decoherence_to_spin_fold, spin_to_decoherence_fold};
use crate::matrix::{
    embedded_element, kron_element, lemma_kron_walk_element, lemma_row_walk_transpose,
    lemma_superoperator_matrix_elements, row_walk, transpose_signs,
};
use crate::decoherence_product::lindblad_walk;
use vstd::arithmetic::power2::pow2;
use crate::text::{lemma_parse_print, parse_items_spec, print_items, separates, ParseFailure, Separator};

verus! {

/// The empty product is the unit of multiplication on either side, with phase 1.
pub proof fn lemma_mul_identity<T: MultiplicativeOperator>(s: Seq<(usize, T)>)
    requires
        items_wf(s),
        index_increasing(s),
    ensures
        mul_items(Seq::<(usize, T)>::empty(), s) == s,
        mul_phase(Seq::<(usize, T)>::empty(), s) == Phase::One,
        mul_items(s, Seq::<(usize, T)>::empty()) == s,
        mul_phase(s, Seq::<(usize, T)>::empty()) == Phase::One,
{
    let e = Seq::<(usize, T)>::empty();
    lemma_mul_items_pointwise(e, s, 0);
    lemma_mul_items_pointwise(s, e, 0);
    assert forall|k: usize| lookup(mul_items(e, s), k) == lookup(s, k) by {
        lemma_mul_items_pointwise(e, s, k);
    }
    assert forall|k: usize| lookup(mul_items(s, e), k) == lookup(s, k) by {
        lemma_mul_items_pointwise(s, e, k);
    }
    lemma_increasing_ext(mul_items(e, s), s);
    lemma_increasing_ext(mul_items(s, e), s);
    lemma_mul_phase_empty_right(s, s.len());
}

proof fn lemma_mul_phase_empty_right<T: MultiplicativeOperator>(s: Seq<(usize, T)>, n: nat)
    requires
        n <= s.len(),
    ensures
        mul_left_fold(s, Seq::<(usize, T)>::empty(), n).1 == Phase::One,
    decreases n,
{
    if n > 0 {
        lemma_mul_phase_empty_right(s, (n - 1) as nat);
    }
}

/// Conjugating a decoherence product twice gives it back with prefactor 1;
/// it is hermitian as it stands exactly when it holds an even number of iY.
pub proof fn lemma_decoherence_hermitian(s: Seq<(usize, SingleDecoherenceOperator)>)
    ensures
        hermitian_sign(s) == 1 || hermitian_sign(s) == -1,
        hermitian_sign(s) * hermitian_sign(s) == 1,
        (hermitian_sign(s) > 0) == (count_iy(s) % 2 == 0),
{
    if hermitian_sign(s) == 1 {
        assert(hermitian_sign(s) * hermitian_sign(s) == 1);
    } else {
        assert(hermitian_sign(s) == -1);
        assert((-1i8) * (-1i8) == 1);
    }
}

/// Conjugating a plus/minus product twice gives it back; conjugation keeps
/// a product well-formed; a well-formed product is its own conjugate exactly
/// when it holds no sigma+ or sigma-.
pub proof fn lemma_plus_minus_hermitian(s: Seq<(usize, SinglePlusMinusOperator)>)
    ensures
        conjugate_items(conjugate_items(s)) == s,
        items_wf(s) ==> items_wf(conjugate_items(s)),
        index_increasing(s) ==> index_increasing(conjugate_items(s)),
        items_wf(s) ==> ((conjugate_items(s) == s) == (forall|k: int| 0 <= k < s.len() ==> (#[trigger] s[k]).1 == SinglePlusMinusOperator::Z)),
{
    let c = conjugate_items(s);
    assert(conjugate_items(c) =~= s);
    if items_wf(s) {
        assert forall|i: int| 0 <= i < c.len() implies !(#[trigger] c[i]).1.spec_is_identity() by {
            assert(c[i].1 == conjugate_single(s[i].1));
        }
        if c == s {
            assert forall|k: int| 0 <= k < s.len() implies (#[trigger] s[k]).1 == SinglePlusMinusOperator::Z by {
                assert(c[k] == s[k]);
                assert(!s[k].1.spec_is_identity());
            }
        }
        if forall|k: int| 0 <= k < s.len() ==> (#[trigger] s[k]).1 == SinglePlusMinusOperator::Z {
            assert(c =~= s);
        }
    }
}

/// The entries of a decoherence product turned into Pauli matrices one by one.
pub open spec fn decoherence_as_spin(s: Seq<(usize, SingleDecoherenceOperator)>) -> Seq<(usize, SinglePauliOperator)> {
    s.map_values(|e: (usize, SingleDecoherenceOperator)| (e.0, decoherence_to_spin_spec(e.1).0))
}

proof fn lemma_decoherence_to_spin_map(s: Seq<(usize, SingleDecoherenceOperator)>, n: nat)
    requires
        items_wf(s),
        index_increasing(s),
        n <= s.len(),
    ensures
        decoherence_to_spin_fold(s, n).0 == decoherence_as_spin(s.take(n as int)),
    decreases n,
{
    if n > 0 {
        lemma_decoherence_to_spin_map(s, (n - 1) as nat);
        let prev = decoherence_as_spin(s.take(n - 1));
        let (k, op) = s[n - 1];
        assert forall|i: int| 0 <= i < prev.len() implies (#[trigger] prev[i]).0 < k by {
            assert(prev[i].0 == s[i].0);
        }
        assert(!op.spec_is_identity());
        lemma_set_items_append(prev, k, decoherence_to_spin_spec(op).0);
        assert(decoherence_as_spin(s.take(n as int)) =~= prev.push((k, decoherence_to_spin_spec(op).0)));
    }
}

proof fn lemma_spin_to_decoherence_back(s: Seq<(usize, SingleDecoherenceOperator)>, n: nat)
    requires
        items_wf(s),
        index_increasing(s),
        n <= s.len(),
    ensures
        spin_to_decoherence_fold(decoherence_as_spin(s), n).0 == s.take(n as int),
        decoherence_to_spin_fold(s, n).1.times(spin_to_decoherence_fold(decoherence_as_spin(s), n).1) == Phase::One,
    decreases n,
{
    let p = decoherence_as_spin(s);
    if n > 0 {
        lemma_spin_to_decoherence_back(s, (n - 1) as nat);
        let prev = s.take(n - 1);
        let (k, op) = s[n - 1];
        assert(p[n - 1] == (k, decoherence_to_spin_spec(op).0));
        lemma_decoherence_is_pauli(op, op, SinglePauliOperator::Identity);
        assert forall|i: int| 0 <= i < prev.len() implies (#[trigger] prev[i]).0 < k by {
            assert(prev[i] == s[i]);
        }
        assert(!op.spec_is_identity());
        lemma_set_items_append(prev, k, op);
        assert(s.take(n as int) =~= prev.push((k, op)));
        let a = decoherence_to_spin_fold(s, (n - 1) as nat).1;
        let b = spin_to_decoherence_fold(p, (n - 1) as nat).1;
        let c = decoherence_to_spin_spec(op).1;
        let d = spin_to_decoherence_spec(decoherence_to_spin_spec(op).0).1;
        lemma_phase_interchange(a, c, b, d);
    }
}

/// Turning a decoherence product into a Pauli product and back gives the
/// decoherence product again, and the two phases cancel.
pub proof fn lemma_decoherence_spin_roundtrip(s: Seq<(usize, SingleDecoherenceOperator)>)
    requires
        items_wf(s),
        index_increasing(s),
    ensures
        ({
            let (p, ph) = decoherence_to_spin_fold(s, s.len());
            let (d, ph2) = spin_to_decoherence_fold(p, p.len());
            d == s && ph.times(ph2) == Phase::One
        }),
{
    lemma_decoherence_to_spin_map(s, s.len());
    lemma_spin_to_decoherence_back(s, s.len());
    assert(s.take(s.len() as int) =~= s);
}

/// The order of products is antisymmetric and holds two products equal
/// exactly when they have the same entries.
pub proof fn lemma_product_order<T: SingleOperator>(a: Seq<(usize, T)>, b: Seq<(usize, T)>)
    ensures
        product_order(a, b) == -product_order(b, a),
        (product_order(a, b) == 0) == (a == b),
{
    if a.len() == b.len() {
        lemma_lex_order(a, b);
    }
}

/// The order of products is transitive.
pub proof fn lemma_product_order_transitive<T: SingleOperator>(a: Seq<(usize, T)>, b: Seq<(usize, T)>, c: Seq<(usize, T)>)
    requires
        product_order(a, b) < 0,
        product_order(b, c) < 0,
    ensures
        product_order(a, c) < 0,
{
    if a.len() == b.len() && b.len() == c.len() {
        lemma_lex_order_transitive(a, b, c);
    }
}

proof fn lemma_lex_order_transitive<T: SingleOperator>(a: Seq<(usize, T)>, b: Seq<(usize, T)>, c: Seq<(usize, T)>)
    requires
        a.len() == b.len(),
        b.len() == c.len(),
        lex_order(a, b) < 0,
        lex_order(b, c) < 0,
    ensures
        lex_order(a, c) < 0,
    decreases a.len(),
{
    if a.len() > 0 && a[0].0 == b[0].0 && b[0].0 == c[0].0 && a[0].1.rank() == b[0].1.rank() && b[0].1.rank() == c[0].1.rank() {
        lemma_lex_order_transitive(a.drop_first(), b.drop_first(), c.drop_first());
    }
}

proof fn lemma_lex_order<T: SingleOperator>(a: Seq<(usize, T)>, b: Seq<(usize, T)>)
    requires
        a.len() == b.len(),
    ensures
        lex_order(a, b) == -lex_order(b, a),
        (lex_order(a, b) == 0) == (a == b),
    decreases a.len(),
{
    if a.len() == 0 {
        assert(a =~= b);
    } else {
        a[0].1.lemma_symbol(b[0].1);
        lemma_lex_order(a.drop_first(), b.drop_first());
        if a[0] == b[0] && a.drop_first() == b.drop_first() {
            assert(a =~= seq![a[0]] + a.drop_first());
            assert(b =~= seq![b[0]] + b.drop_first());
        }
        if a == b {
            assert(a.drop_first() =~= b.drop_first());
        }
    }
}

/// The symbols of Pauli matrices are letters.
proof fn lemma_pauli_symbols(s: Seq<(usize, SinglePauliOperator)>)
    ensures
        forall|i: int, j: int| 0 <= i < s.len() && 0 <= j < s[i].1.symbol().len() ==>
            separates(Separator::Alphabetic, #[trigger] s[i].1.symbol()[j]),
{
    assert forall|i: int, j: int| 0 <= i < s.len() && 0 <= j < s[i].1.symbol().len() implies
        separates(Separator::Alphabetic, #[trigger] s[i].1.symbol()[j]) by {
        assert(j == 0);
    }
}

/// The symbols of decoherence matrices are letters.
proof fn lemma_decoherence_symbols(s: Seq<(usize, SingleDecoherenceOperator)>)
    ensures
        forall|i: int, j: int| 0 <= i < s.len() && 0 <= j < s[i].1.symbol().len() ==>
            separates(Separator::Alphabetic, #[trigger] s[i].1.symbol()[j]),
{
    assert forall|i: int, j: int| 0 <= i < s.len() && 0 <= j < s[i].1.symbol().len() implies
        separates(Separator::Alphabetic, #[trigger] s[i].1.symbol()[j]) by {
        if s[i].1 == SingleDecoherenceOperator::IY {
            assert(j == 0 || j == 1);
        } else {
            assert(j == 0);
        }
    }
}

/// The symbols of plus/minus operators are letters or ASCII punctuation.
proof fn lemma_plus_minus_symbols(s: Seq<(usize, SinglePlusMinusOperator)>)
    ensures
        forall|i: int, j: int| 0 <= i < s.len() && 0 <= j < s[i].1.symbol().len() ==>
            separates(Separator::AlphabeticOrPunctuation, #[trigger] s[i].1.symbol()[j]),
{
    assert forall|i: int, j: int| 0 <= i < s.len() && 0 <= j < s[i].1.symbol().len() implies
        separates(Separator::AlphabeticOrPunctuation, #[trigger] s[i].1.symbol()[j]) by {
        assert(j == 0);
    }
}

/// Setting two different spins gives the same product in either order.
pub proof fn lemma_set_commutes<T: SingleOperator>(s: Seq<(usize, T)>, i: usize, a: T, j: usize, b: T)
    requires
        items_wf(s),
        i != j,
    ensures
        set_items(set_items(s, i, a), j, b) == set_items(set_items(s, j, b), i, a),
{
    if i < j {
        lemma_set_low_first(s, i, a, j, b);
        lemma_set_high_first(s, i, a, j, b);
    } else {
        lemma_set_low_first(s, j, b, i, a);
        lemma_set_high_first(s, j, b, i, a);
    }
}

/// What setting spins `i < j` keeps and puts, in order: the entries below
/// `i`, what setting `i` puts, the entries between the two, what setting `j`
/// puts, and the entries past `j`.
spec fn set_both<T: SingleOperator>(s: Seq<(usize, T)>, i: usize, a: T, j: usize, b: T) -> Seq<(usize, T)> {
    s.take(first_at_least(s, i)) + set_middle(i, a)
        + s.subrange(set_end(s, i), first_at_least(s, j)) + set_middle(j, b) + s.skip(set_end(s, j))
}

/// For spins `i < j`, the entries that setting `i` touches come before those
/// that setting `j` touches.
proof fn lemma_set_positions<T: SingleOperator>(s: Seq<(usize, T)>, i: usize, a: T, j: usize, b: T)
    requires
        items_wf(s),
        i < j,
    ensures
        0 <= first_at_least(s, i) <= set_end(s, i) <= first_at_least(s, j) <= set_end(s, j) <= s.len(),
        first_at_least(s, i) == first_at_least(s, j) ==> set_end(s, i) == first_at_least(s, i),
        set_items(s, i, a) == s.take(first_at_least(s, i)) + set_middle(i, a) + s.skip(set_end(s, i)),
        set_items(s, j, b) == s.take(first_at_least(s, j)) + set_middle(j, b) + s.skip(set_end(s, j)),
{
    lemma_first_at_least(s, i);
    lemma_first_at_least(s, j);
    lemma_set_items_split(s, i, a);
    lemma_set_items_split(s, j, b);
    let pi = first_at_least(s, i);
    let pj = first_at_least(s, j);
    if pj < pi {
        assert(s[pj].0 < i);
    }
    if pi == pj && pi < s.len() {
        assert(s[pi].0 >= j);
    }
}

/// Setting `i < j` with `i` first: spin `j` is then found past what setting
/// `i` put.
proof fn lemma_set_low_first<T: SingleOperator>(s: Seq<(usize, T)>, i: usize, a: T, j: usize, b: T)
    requires
        items_wf(s),
        i < j,
    ensures
        set_items(set_items(s, i, a), j, b) == set_both(s, i, a, j, b),
{
    lemma_set_positions(s, i, a, j, b);
    lemma_first_at_least(s, j);
    let pi = first_at_least(s, i);
    let qi = set_end(s, i);
    let pj = first_at_least(s, j);
    let qj = set_end(s, j);
    let mi = set_middle(i, a);
    let s1 = set_items(s, i, a);
    let p1 = pi + mi.len() + (pj - qi);
    assert(s1.len() == pi + mi.len() + (s.len() - qi));
    assert forall|x: int| 0 <= x < p1 implies (#[trigger] s1[x]).0 < j by {
        if x < pi {
            assert(s1[x] == s[x]);
        } else if x < pi + mi.len() {
            assert(s1[x] == (i, a));
        } else {
            assert(s1[x] == s[qi + (x - pi - mi.len())]);
        }
    }
    if p1 < s1.len() {
        assert(s1[p1] == s[pj]);
    }
    lemma_first_at_least_unique(s1, j, p1);
    assert(set_end(s1, j) == p1 + (qj - pj));
    lemma_set_items_split(s1, j, b);
    assert(s1.take(p1) =~= s.take(pi) + mi + s.subrange(qi, pj));
    assert(s1.skip(p1 + (qj - pj)) =~= s.skip(qj));
    assert(set_items(s1, j, b) =~= set_both(s, i, a, j, b));
}

/// Setting `i < j` with `j` first: spin `i` is still found where it was.
proof fn lemma_set_high_first<T: SingleOperator>(s: Seq<(usize, T)>, i: usize, a: T, j: usize, b: T)
    requires
        items_wf(s),
        i < j,
    ensures
        set_items(set_items(s, j, b), i, a) == set_both(s, i, a, j, b),
{
    lemma_set_positions(s, i, a, j, b);
    let pi = first_at_least(s, i);
    let qi = set_end(s, i);
    let pj = first_at_least(s, j);
    let qj = set_end(s, j);
    let mj = set_middle(j, b);
    let s2 = set_items(s, j, b);
    lemma_first_at_least(s, i);
    lemma_first_at_least(s, j);
    assert forall|x: int| 0 <= x < pi implies (#[trigger] s2[x]).0 < i by {
        assert(s2[x] == s[x]);
    }
    if pi < s2.len() {
        if pi < pj {
            assert(s2[pi] == s[pi]);
        } else if mj.len() == 1 {
            assert(s2[pi] == (j, b));
        } else {
            assert(s2[pi] == s[qj]);
            assert(s[pj].0 <= s[qj].0);
        }
        assert(s2[pi].0 >= i);
        assert(pi == pj ==> s2[pi].0 != i);
    }
    lemma_first_at_least_unique(s2, i, pi);
    assert(set_end(s2, i) == qi);
    lemma_set_items_split(s2, i, a);
    assert(s2.take(pi) =~= s.take(pi));
    assert(s2.skip(qi) =~= s.subrange(qi, pj) + mj + s.skip(qj));
    assert(set_items(s2, i, a) =~= set_both(s, i, a, j, b));
}

/// Reading a Pauli product back from its string form gives the product, for
/// every product on which no spin appears twice.
pub proof fn lemma_pauli_string_roundtrip(s: Seq<(usize, SinglePauliOperator)>)
    requires
        items_wf(s),
        index_increasing(s),
    ensures
        parse_items_spec::<SinglePauliOperator>(print_items(s), true, false)
            == Ok::<Seq<(usize, SinglePauliOperator)>, ParseFailure>(s),
{
    lemma_pauli_symbols(s);
    lemma_parse_print(s, true, false);
}

/// Reading a decoherence product back from its string form gives the
/// product, for every product on which no spin appears twice.
pub proof fn lemma_decoherence_string_roundtrip(s: Seq<(usize, SingleDecoherenceOperator)>)
    requires
        items_wf(s),
        index_increasing(s),
    ensures
        parse_items_spec::<SingleDecoherenceOperator>(print_items(s), false, false)
            == Ok::<Seq<(usize, SingleDecoherenceOperator)>, ParseFailure>(s),
{
    lemma_decoherence_symbols(s);
    lemma_parse_print(s, false, false);
}

/// Reading a plus/minus product back from its string form gives the product,
/// for every product on which no spin appears twice.
pub proof fn lemma_plus_minus_string_roundtrip(s: Seq<(usize, SinglePlusMinusOperator)>)
    requires
        items_wf(s),
        index_increasing(s),
    ensures
        parse_items_spec::<SinglePlusMinusOperator>(print_items(s), true, true)
            == Ok::<Seq<(usize, SinglePlusMinusOperator)>, ParseFailure>(s),
{
    lemma_plus_minus_symbols(s);
    lemma_parse_print(s, true, true);
}

/// Joining two products on distinct spins: the join succeeds exactly when no
/// spin is taken by both, a spin it reports is taken by both, and the joined
/// product names each spin once and reads on every spin what the factor that
/// acts there reads.
pub proof fn lemma_concatenate<T: SingleOperator>(a: Seq<(usize, T)>, b: Seq<(usize, T)>)
    requires
        items_wf(a),
        index_increasing(a),
        items_wf(b),
        index_increasing(b),
    ensures
        (first_conflict(a, b) is None) == (forall|k: usize| !(#[trigger] has_index(a, k) && has_index(b, k))),
        first_conflict(a, b) matches Some(k) ==> has_index(a, k) && has_index(b, k),
        first_conflict(a, b) is None ==> items_wf(sort_by_index(a + b)) && index_increasing(sort_by_index(a + b)),
        first_conflict(a, b) is None ==> forall|k: usize|
            lookup(#[trigger] sort_by_index(a + b), k) == if has_index(a, k) { lookup(a, k) } else { lookup(b, k) },
{
    lemma_first_conflict(a, b);
    let disjoint = forall|j: int| 0 <= j < b.len() ==> !has_index(a, (#[trigger] b[j]).0);
    assert(disjoint == (forall|k: usize| !(#[trigger] has_index(a, k) && has_index(b, k)))) by {
        if disjoint {
            assert forall|k: usize| !(#[trigger] has_index(a, k) && has_index(b, k)) by {
                if has_index(b, k) {
                    let j = choose|j: int| 0 <= j < b.len() && (#[trigger] b[j]).0 == k;
                }
            }
        } else {
            let j = choose|j: int| 0 <= j < b.len() && has_index(a, (#[trigger] b[j]).0);
            assert(has_index(b, b[j].0));
        }
    }
    if first_conflict(a, b) is None {
        let s = a + b;
        assert forall|i: int, j: int| 0 <= i < j < s.len() implies s[i].0 != s[j].0 by {
            if j < a.len() {
                assert(s[i] == a[i] && s[j] == a[j]);
            } else if i >= a.len() {
                assert(s[i] == b[i - a.len()] && s[j] == b[j - a.len()]);
            } else {
                assert(s[i] == a[i] && s[j] == b[j - a.len()]);
                assert(!has_index(a, b[j - a.len()].0));
            }
        }
        lemma_sort_increasing(s);
        assert forall|i: int| 0 <= i < s.len() implies !(#[trigger] s[i]).1.spec_is_identity() by {
            if i < a.len() {
                assert(s[i] == a[i]);
            } else {
                assert(s[i] == b[i - a.len()]);
            }
        }
        lemma_sort_no_identity(s);
        assert forall|k: usize|
            lookup(#[trigger] sort_by_index(a + b), k) == if has_index(a, k) { lookup(a, k) } else { lookup(b, k) } by {
            lemma_sort_lookup(s, k);
            lemma_lookup_append(a, b, k);
        }
    }
}

/// Without spins in common, multiplying the first factor's entries in order
/// picks up no phase.
proof fn lemma_mul_phase_disjoint<T: MultiplicativeOperator>(a: Seq<(usize, T)>, b: Seq<(usize, T)>, n: nat)
    requires
        n <= a.len(),
        forall|k: usize| !(#[trigger] has_index(a, k) && has_index(b, k)),
    ensures
        mul_left_fold(a, b, n).1 == Phase::One,
    decreases n,
{
    if n > 0 {
        lemma_mul_phase_disjoint(a, b, (n - 1) as nat);
        let k = a[n - 1].0;
        assert(has_index(a, k));
        lemma_lookup_none(b, k);
    }
}

/// Joining two products without spins in common is multiplying them: the
/// product has the joined entries and picks up no phase.
pub proof fn lemma_concatenate_is_product<T: MultiplicativeOperator>(a: Seq<(usize, T)>, b: Seq<(usize, T)>)
    requires
        items_wf(a),
        index_increasing(a),
        items_wf(b),
        index_increasing(b),
        forall|k: usize| !(#[trigger] has_index(a, k) && has_index(b, k)),
    ensures
        mul_items(a, b) == sort_by_index(a + b),
        mul_phase(a, b) == Phase::One,
{
    lemma_concatenate(a, b);
    lemma_mul_items_pointwise(a, b, 0);
    assert forall|k: usize| lookup(mul_items(a, b), k) == lookup(sort_by_index(a + b), k) by {
        lemma_mul_items_pointwise(a, b, k);
        lemma_lookup_none(a, k);
        lemma_lookup_none(b, k);
    }
    lemma_increasing_ext(mul_items(a, b), sort_by_index(a + b));
    lemma_mul_phase_disjoint(a, b, a.len());
}

/// The spin that `m` renames `k` to: `m[k]` where `m` names `k`, else `k`.
pub open spec fn renamed(m: Map<usize, usize>, k: usize) -> usize {
    if m.contains_key(k) { m[k] } else { k }
}

/// Remapping the spins of a product by a mapping that sends no two of its
/// spins to the same spin: the result names each spin once, reads on the new
/// spin of each entry that entry's operator, and acts on no other spin.
pub proof fn lemma_remap<T: SingleOperator>(s: Seq<(usize, T)>, m: Map<usize, usize>)
    requires
        items_wf(s),
        index_increasing(s),
        forall|i: int, j: int| 0 <= i < j < s.len() ==> renamed(m, s[i].0) != renamed(m, s[j].0),
    ensures
        items_wf(remap_items(s, m)),
        index_increasing(remap_items(s, m)),
        forall|i: int| 0 <= i < s.len() ==> lookup(remap_items(s, m), renamed(m, (#[trigger] s[i]).0)) == Some(s[i].1),
        forall|k: usize| #[trigger] has_index(remap_items(s, m), k) ==> exists|i: int| 0 <= i < s.len() && renamed(m, (#[trigger] s[i]).0) == k,
{
    let r = rename_items(s, m);
    assert forall|i: int| 0 <= i < r.len() implies (#[trigger] r[i]) == (renamed(m, s[i].0), s[i].1) by {}
    assert forall|i: int, j: int| 0 <= i < j < r.len() implies r[i].0 != r[j].0 by {
        assert(r[i].0 == renamed(m, s[i].0));
        assert(r[j].0 == renamed(m, s[j].0));
    }
    lemma_sort_increasing(r);
    assert forall|i: int| 0 <= i < r.len() implies !(#[trigger] r[i]).1.spec_is_identity() by {
        assert(r[i].1 == s[i].1);
    }
    lemma_sort_no_identity(r);
    assert forall|i: int| 0 <= i < s.len() implies lookup(remap_items(s, m), renamed(m, (#[trigger] s[i]).0)) == Some(s[i].1) by {
        let k = renamed(m, s[i].0);
        lemma_sort_lookup(r, k);
        assert(r[i].0 == k);
        assert forall|j: int| 0 <= j < i implies (#[trigger] r[j]).0 != k by {
            assert(r[j].0 == renamed(m, s[j].0));
        }
        crate::items::lemma_lookup_first(r, k, i);
    }
    assert forall|k: usize| #[trigger] has_index(remap_items(s, m), k) implies exists|i: int| 0 <= i < s.len() && renamed(m, (#[trigger] s[i]).0) == k by {
        lemma_sort_lookup(r, k);
        let i = choose|i: int| 0 <= i < r.len() && (#[trigger] r[i]).0 == k;
        assert(r[i].0 == renamed(m, s[i].0));
    }
}

/// Remapping by a mapping that leaves every spin of a product where it is
/// (such as the empty mapping) gives the product back.
pub proof fn lemma_remap_identity<T: SingleOperator>(s: Seq<(usize, T)>, m: Map<usize, usize>)
    requires
        items_wf(s),
        forall|i: int| 0 <= i < s.len() ==> renamed(m, (#[trigger] s[i]).0) == s[i].0,
    ensures
        remap_items(s, m) == s,
{
    let r = rename_items(s, m);
    assert forall|i: int| 0 <= i < r.len() implies #[trigger] r[i] == s[i] by {
        assert(renamed(m, s[i].0) == s[i].0);
    }
    assert(r =~= s);
    lemma_sort_sorted(s);
}

/// The entry of a Lindblad term is the one nonzero element of its row of the
/// superoperator: `p -> left p right^dagger`, with `p` flattened row-major,
/// is `left (x) conj(right)`, and `conj(right) = right` since the matrices
/// of decoherence products are real. For products with each spin named once,
/// all spins below `n`, and a row below `2^(2n)`, the walk ends in a column
/// below `2^(2n)` whose element of `left (x) right` is the walk's sign, and
/// every other element of the row is zero.
pub proof fn lemma_lindblad_matrix_element(
    left: Seq<(usize, SingleDecoherenceOperator)>,
    right: Seq<(usize, SingleDecoherenceOperator)>,
    row: int,
    n: nat,
)
    requires
        index_increasing(left),
        index_increasing(right),
        2 * n < usize::BITS,
        forall|i: int| 0 <= i < left.len() ==> (#[trigger] left[i]).0 < n,
        forall|i: int| 0 <= i < right.len() ==> (#[trigger] right[i]).0 < n,
        0 <= row < pow2(2 * n),
    ensures
        lindblad_walk(left, right, row, n as int) matches Some((c, ph)) && {
            &&& 0 <= c < pow2(2 * n)
            &&& kron_element(left, right, n, row, c) == Some(ph)
            &&& forall|col: int| 0 <= col < pow2(2 * n) && col != c ==> (#[trigger] kron_element(left, right, n, row, col)) is None
        },
{
    lemma_kron_walk_element(left, right, row, n);
}

/// Transposing the matrix of a decoherence product multiplies it by its
/// hermitian sign: iY is antisymmetric, X and Z are symmetric.
pub proof fn lemma_decoherence_transpose_signs(s: Seq<(usize, SingleDecoherenceOperator)>)
    ensures
        transpose_signs(s) == Phase::of_sign(hermitian_sign(s)),
    decreases s.len(),
{
    if s.len() > 0 {
        lemma_decoherence_transpose_signs(s.drop_last());
    }
}

/// The two entries of the anti-commutator part of a Lindblad term are the
/// elements of `A (x) 1` and `1 (x) A^T` on their row, for `A` the matrix of
/// the product `right^dagger left`, up to the prefactor that conjugating and
/// multiplying give (which `anti_commutator_entries` multiplies in with
/// `-1/2`): `-1/2 {A, p}` with `p` flattened row-major is
/// `-1/2 (A (x) 1 + 1 (x) A^T)`. For products with each spin named once,
/// all spins below `n`, and a row below `2^(2n)`, the walk on the high half
/// ends in the one nonzero element of the row of `A (x) 1`, and the walk on
/// the low half, times the hermitian sign of the product, in the one nonzero
/// element of the row of `1 (x) A^T`.
pub proof fn lemma_anti_commutator_matrix_elements(
    left: Seq<(usize, SingleDecoherenceOperator)>,
    right: Seq<(usize, SingleDecoherenceOperator)>,
    row: int,
    n: nat,
)
    requires
        items_wf(left),
        index_increasing(left),
        items_wf(right),
        index_increasing(right),
        2 * n < usize::BITS,
        forall|i: int| 0 <= i < left.len() ==> (#[trigger] left[i]).0 < n,
        forall|i: int| 0 <= i < right.len() ==> (#[trigger] right[i]).0 < n,
        0 <= row < pow2(2 * n),
    ensures
        ({
            let product = mul_items(right, left);
            row_walk(product, row / pow2(n) as int, row, n as int, false) matches Some((c, ph)) && {
                &&& 0 <= c < pow2(2 * n)
                &&& embedded_element(product, 2 * n, n, false, row, c) == Some(ph)
                &&& forall|col: int| 0 <= col < pow2(2 * n) && col != c ==>
                    (#[trigger] embedded_element(product, 2 * n, n, false, row, col)) is None
            }
        }),
        ({
            let product = mul_items(right, left);
            row_walk(product, row % pow2(n) as int, row, 0, false) matches Some((c, ph)) && {
                &&& 0 <= c < pow2(2 * n)
                &&& embedded_element(product, 2 * n, 0, true, row, c) == Some(ph.times(Phase::of_sign(hermitian_sign(product))))
                &&& forall|col: int| 0 <= col < pow2(2 * n) && col != c ==>
                    (#[trigger] embedded_element(product, 2 * n, 0, true, row, col)) is None
            }
        }),
{
    let product = mul_items(right, left);
    lemma_mul_items_pointwise(right, left, 0);
    assert forall|i: int| 0 <= i < product.len() implies (#[trigger] product[i]).0 < n by {
        let k = product[i].0;
        lemma_mul_items_spins(right, left, k);
        if has_index(right, k) {
            let j = choose|j: int| 0 <= j < right.len() && (#[trigger] right[j]).0 == k;
        } else {
            let j = choose|j: int| 0 <= j < left.len() && (#[trigger] left[j]).0 == k;
        }
    }
    lemma_superoperator_matrix_elements(product, row, n);
    lemma_row_walk_transpose(product, row % pow2(n) as int, row, 0);
    lemma_decoherence_transpose_signs(product);
    assert(row_walk(product, row % pow2(n) as int, row, 0, true) is Some);
}

/// The spins of a product of two products are spins of a factor.
pub proof fn lemma_mul_items_spins<T: MultiplicativeOperator>(l: Seq<(usize, T)>, r: Seq<(usize, T)>, k: usize)
    requires
        items_wf(l),
        index_increasing(l),
        items_wf(r),
        index_increasing(r),
    ensures
        has_index(mul_items(l, r), k) ==> has_index(l, k) || has_index(r, k),
{
    lemma_mul_items_pointwise(l, r, k);
    lemma_lookup_none(mul_items(l, r), k);
    lemma_lookup_none(l, k);
    lemma_lookup_none(r, k);
}

/// Building a product from the entries of a product, one after the other,
/// gives the product back (what the compact serialized form relies on), for
/// every product on which no spin appears twice.
pub proof fn lemma_from_entries<T: SingleOperator>(s: Seq<(usize, T)>)
    requires
        items_wf(s),
        index_increasing(s),
    ensures
        set_all(Seq::<(usize, T)>::empty(), s) == s,
    decreases s.len(),
{
    if s.len() > 0 {
        let u = s.drop_last();
        assert forall|i: int, j: int| 0 <= i < j < u.len() implies u[i].0 < u[j].0 by {
            assert(u[i] == s[i] && u[j] == s[j]);
        }
        assert forall|i: int| 0 <= i < u.len() implies !(#[trigger] u[i]).1.spec_is_identity() by {
            assert(u[i] == s[i]);
        }
        assert forall|i: int, j: int| 0 <= i < j < u.len() implies u[i].0 <= u[j].0 by {
            assert(u[i] == s[i] && u[j] == s[j]);
        }
        lemma_from_entries(u);
        let (k, op) = s.last();
        assert forall|i: int| 0 <= i < u.len() implies (#[trigger] u[i]).0 < k by {
            assert(u[i] == s[i]);
        }
        assert(!op.spec_is_identity());
        lemma_set_items_append(u, k, op);
        assert(u.push((k, op)) =~= s);
    }
}

/// The phase that turning a decoherence product into Pauli matrices picks up
/// on each spin (i for iY, 1 elsewhere).
pub open spec fn spin_phases(s: Seq<(usize, SingleDecoherenceOperator)>) -> spec_fn(int) -> Phase {
    |k: int| match lookup(s, k as usize) {
        Some(op) => decoherence_to_spin_spec(op).1,
        None => Phase::One,
    }
}

/// What a decoherence matrix on one spin becomes in Pauli matrices.
pub open spec fn site_as_spin(o: Option<SingleDecoherenceOperator>) -> Option<SinglePauliOperator> {
    match o {
        Some(op) => Some(decoherence_to_spin_spec(op).0),
        None => None,
    }
}

proof fn lemma_to_spin_phase_seq(s: Seq<(usize, SingleDecoherenceOperator)>, n: nat)
    requires
        items_wf(s),
        index_increasing(s),
        n <= s.len(),
    ensures
        decoherence_to_spin_fold(s, n).1 == seq_phase(spin_phases(s), s.take(n as int)),
    decreases n,
{
    if n > 0 {
        lemma_to_spin_phase_seq(s, (n - 1) as nat);
        assert(s.take(n as int).drop_last() =~= s.take(n - 1));
        assert(s.take(n as int).last() == s[n - 1]);
        let (key, op) = s[n - 1];
        lemma_lookup_increasing(s, key);
        assert(lookup(s, key) == Some(op));
    }
}

/// The phase of turning a decoherence product into Pauli matrices, as a
/// product over all spins.
proof fn lemma_to_spin_phase_all(s: Seq<(usize, SingleDecoherenceOperator)>)
    requires
        items_wf(s),
        index_increasing(s),
    ensures
        decoherence_to_spin_fold(s, s.len()).1 == phase_product(spin_phases(s), all_spins()),
{
    lemma_to_spin_phase_seq(s, s.len());
    assert(s.take(s.len() as int) =~= s);
    assert forall|k: int| 0 <= k < all_spins() && !has_index(s, k as usize) implies #[trigger] spin_phases(s)(k) == Phase::One by {
        lemma_lookup_none(s, k as usize);
    }
    lemma_seq_phase_range(spin_phases(s), s, all_spins());
}

/// Turning a decoherence product into Pauli matrices entry by entry reads,
/// on every spin, the Pauli matrix of what the product reads there.
proof fn lemma_lookup_as_spin(s: Seq<(usize, SingleDecoherenceOperator)>, k: usize)
    ensures
        lookup(decoherence_as_spin(s), k) == site_as_spin(lookup(s, k)),
    decreases s.len(),
{
    if s.len() > 0 {
        assert(decoherence_as_spin(s).drop_first() =~= decoherence_as_spin(s.drop_first()));
        lemma_lookup_as_spin(s.drop_first(), k);
    }
}

/// Turning a decoherence product into Pauli matrices entry by entry keeps
/// it well-formed.
proof fn lemma_as_spin_wf(s: Seq<(usize, SingleDecoherenceOperator)>)
    requires
        items_wf(s),
        index_increasing(s),
    ensures
        items_wf(decoherence_as_spin(s)),
        index_increasing(decoherence_as_spin(s)),
{
    let p = decoherence_as_spin(s);
    assert forall|i: int| 0 <= i < p.len() implies !(#[trigger] p[i]).1.spec_is_identity() by {
        assert(!s[i].1.spec_is_identity());
    }
    assert forall|i: int, j: int| 0 <= i < j < p.len() implies p[i].0 < p[j].0 by {
        assert(p[i].0 == s[i].0 && p[j].0 == s[j].0);
    }
}

/// On one spin: the Pauli matrix of the decoherence product is the product
/// of the Pauli matrices, and the phases agree.
proof fn lemma_site_as_spin(x: Option<SingleDecoherenceOperator>, y: Option<SingleDecoherenceOperator>)
    requires
        non_identity(x),
        non_identity(y),
    ensures
        site_as_spin(mul_site(x, y)) == mul_site(site_as_spin(x), site_as_spin(y)),
        ({
            let c = |o: Option<SingleDecoherenceOperator>| match o {
                Some(op) => decoherence_to_spin_spec(op).1,
                None => Phase::One,
            };
            c(x).times(c(y)).times(site_phase(site_as_spin(x), site_as_spin(y)))
                == site_phase(x, y).times(c(mul_site(x, y)))
        }),
{
    match (x, y) {
        (Some(p), Some(q)) => {
            lemma_decoherence_is_pauli(p, q, SinglePauliOperator::Identity);
        },
        _ => {},
    }
}

/// The entries in `lemma_decoherence_product_as_pauli`.
proof fn lemma_decoherence_entries_as_pauli(
    a: Seq<(usize, SingleDecoherenceOperator)>,
    b: Seq<(usize, SingleDecoherenceOperator)>,
)
    requires
        items_wf(a),
        index_increasing(a),
        items_wf(b),
        index_increasing(b),
    ensures
        decoherence_as_spin(mul_items(a, b)) == mul_items(decoherence_as_spin(a), decoherence_as_spin(b)),
{
    let d = mul_items(a, b);
    let pa = decoherence_as_spin(a);
    let pb = decoherence_as_spin(b);
    let pd = decoherence_as_spin(d);
    lemma_mul_items_pointwise(a, b, 0);
    lemma_as_spin_wf(a);
    lemma_as_spin_wf(b);
    lemma_as_spin_wf(d);
    lemma_mul_items_pointwise(pa, pb, 0);
    assert forall|k: usize| lookup(pd, k) == lookup(mul_items(pa, pb), k) by {
        lemma_mul_items_pointwise(a, b, k);
        lemma_mul_items_pointwise(pa, pb, k);
        lemma_lookup_as_spin(a, k);
        lemma_lookup_as_spin(b, k);
        lemma_lookup_as_spin(d, k);
        lemma_lookup_non_identity(a, k);
        lemma_lookup_non_identity(b, k);
        lemma_site_as_spin(lookup(a, k), lookup(b, k));
    }
    crate::items::lemma_increasing_ext(pd, mul_items(pa, pb));
}

/// The phases in `lemma_decoherence_product_as_pauli`, as products over all spins.
proof fn lemma_decoherence_phases_as_pauli(
    a: Seq<(usize, SingleDecoherenceOperator)>,
    b: Seq<(usize, SingleDecoherenceOperator)>,
)
    requires
        items_wf(a),
        index_increasing(a),
        items_wf(b),
        index_increasing(b),
    ensures
        phase_product(spin_phases(a), all_spins()).times(phase_product(spin_phases(b), all_spins())).times(
            phase_product(site_phases(decoherence_as_spin(a), decoherence_as_spin(b)), all_spins()))
            == phase_product(site_phases(a, b), all_spins()).times(phase_product(spin_phases(mul_items(a, b)), all_spins())),
{
    let d = mul_items(a, b);
    let pa = decoherence_as_spin(a);
    let pb = decoherence_as_spin(b);
    let n = all_spins();
    let fa = spin_phases(a);
    let fb = spin_phases(b);
    let fab = |k: int| fa(k).times(fb(k));
    let lhs = |k: int| fab(k).times(site_phases(pa, pb)(k));
    let rhs = |k: int| site_phases(a, b)(k).times(spin_phases(d)(k));
    assert forall|k: int| 0 <= k < n implies #[trigger] lhs(k) == rhs(k) by {
        let u = k as usize;
        lemma_mul_items_pointwise(a, b, u);
        lemma_lookup_as_spin(a, u);
        lemma_lookup_as_spin(b, u);
        lemma_lookup_non_identity(a, u);
        lemma_lookup_non_identity(b, u);
        lemma_site_as_spin(lookup(a, u), lookup(b, u));
    }
    lemma_phase_product_mul(fa, fb, fab, n);
    lemma_phase_product_mul(fab, site_phases(pa, pb), lhs, n);
    lemma_phase_product_mul(site_phases(a, b), spin_phases(d), rhs, n);
    lemma_phase_product_ext(lhs, rhs, n);
}

/// Decoherence products multiply as the Pauli products they stand for: the
/// Pauli product of `a b` is the product of the Pauli products of `a` and
/// `b`, and the phases agree (`i^(#iY)` of each side times the phase of the
/// multiplication).
pub proof fn lemma_decoherence_product_as_pauli(
    a: Seq<(usize, SingleDecoherenceOperator)>,
    b: Seq<(usize, SingleDecoherenceOperator)>,
)
    requires
        items_wf(a),
        index_increasing(a),
        items_wf(b),
        index_increasing(b),
    ensures
        ({
            let (pa, fa) = decoherence_to_spin_fold(a, a.len());
            let (pb, fb) = decoherence_to_spin_fold(b, b.len());
            let d = mul_items(a, b);
            let (pd, fd) = decoherence_to_spin_fold(d, d.len());
            &&& pd == mul_items(pa, pb)
            &&& fa.times(fb).times(mul_phase(pa, pb)) == mul_phase(a, b).times(fd)
        }),
{
    let d = mul_items(a, b);
    lemma_mul_items_pointwise(a, b, 0);
    lemma_decoherence_to_spin_map(a, a.len());
    lemma_decoherence_to_spin_map(b, b.len());
    lemma_decoherence_to_spin_map(d, d.len());
    assert(a.take(a.len() as int) =~= a);
    assert(b.take(b.len() as int) =~= b);
    assert(d.take(d.len() as int) =~= d);
    lemma_as_spin_wf(a);
    lemma_as_spin_wf(b);
    lemma_decoherence_entries_as_pauli(a, b);
    lemma_to_spin_phase_all(a);
    lemma_to_spin_phase_all(b);
    lemma_to_spin_phase_all(d);
    lemma_mul_phase_all(a, b);
    lemma_mul_phase_all(decoherence_as_spin(a), decoherence_as_spin(b));
    lemma_decoherence_phases_as_pauli(a, b);
}

/// Phase products of functions that agree below `n` agree.
proof fn lemma_phase_product_ext(f: spec_fn(int) -> Phase, g: spec_fn(int) -> Phase, n: nat)
    requires
        forall|k: int| 0 <= k < n ==> #[trigger] f(k) == g(k),
    ensures
        phase_product(f, n) == phase_product(g, n),
    decreases n,
{
    if n > 0 {
        lemma_phase_product_ext(f, g, (n - 1) as nat);
    }
}

} // verus!
