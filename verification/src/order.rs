//! The order of products: shorter products first, products of equal length
//! compared entry by entry (spin first, then the operator's variant).

use vstd::prelude::*;
use core::cmp::Ordering;
use crate::items::SingleOperator;
use crate::single::{SingleDecoherenceOperator, SinglePauliOperator, SinglePlusMinusOperator};

verus! {

/// Entry-by-entry comparison: negative, zero or positive.
pub open spec fn lex_order<T: SingleOperator>(a: Seq<(usize, T)>, b: Seq<(usize, T)>) -> int
    decreases a.len(),
{
    if a.len() == 0 && b.len() == 0 {
        0
    } else if a.len() == 0 {
        -1
    } else if b.len() == 0 {
        1
    } else if a[0].0 < b[0].0 {
        -1
    } else if a[0].0 > b[0].0 {
        1
    } else if a[0].1.rank() < b[0].1.rank() {
        -1
    } else if a[0].1.rank() > b[0].1.rank() {
        1
    } else {
        lex_order(a.drop_first(), b.drop_first())
    }
}

/// The order of products: by length, then entry by entry.
pub open spec fn product_order<T: SingleOperator>(a: Seq<(usize, T)>, b: Seq<(usize, T)>) -> int {
    if a.len() < b.len() {
        -1
    } else if a.len() > b.len() {
        1
    } else {
        lex_order(a, b)
    }
}

/// Entry by entry, the first entry where two sequences of equal length
/// differ decides their order: its spin first, then (on the same spin) its
/// operator; sequences that agree everywhere are equal.
pub proof fn lemma_lex_order_first_difference<T: SingleOperator>(a: Seq<(usize, T)>, b: Seq<(usize, T)>, i: int)
    requires
        a.len() == b.len(),
        0 <= i <= a.len(),
        forall|j: int| 0 <= j < i ==> (#[trigger] a[j]).0 == b[j].0 && a[j].1.rank() == b[j].1.rank(),
    ensures
        i == a.len() ==> lex_order(a, b) == 0,
        i < a.len() && a[i].0 < b[i].0 ==> lex_order(a, b) < 0,
        i < a.len() && a[i].0 > b[i].0 ==> lex_order(a, b) > 0,
        i < a.len() && a[i].0 == b[i].0 && a[i].1.rank() < b[i].1.rank() ==> lex_order(a, b) < 0,
        i < a.len() && a[i].0 == b[i].0 && a[i].1.rank() > b[i].1.rank() ==> lex_order(a, b) > 0,
    decreases i,
{
    if i > 0 {
        assert(a[0].0 == b[0].0 && a[0].1.rank() == b[0].1.rank());
        assert forall|j: int| 0 <= j < i - 1 implies (#[trigger] a.drop_first()[j]).0 == b.drop_first()[j].0
            && a.drop_first()[j].1.rank() == b.drop_first()[j].1.rank() by {
            assert(a.drop_first()[j] == a[j + 1] && b.drop_first()[j] == b[j + 1]);
        }
        lemma_lex_order_first_difference(a.drop_first(), b.drop_first(), i - 1);
        if i < a.len() {
            assert(a.drop_first()[i - 1] == a[i] && b.drop_first()[i - 1] == b[i]);
        }
    }
}

/// Products are ordered by length first; products of equal length by the
/// first entry where they differ, its spin first and then its operator,
/// whatever the entries after it hold.
pub proof fn lemma_product_order_law<T: SingleOperator>(a: Seq<(usize, T)>, b: Seq<(usize, T)>, i: int)
    requires
        0 <= i <= a.len(),
        i <= b.len(),
        forall|j: int| 0 <= j < i ==> (#[trigger] a[j]).0 == b[j].0 && a[j].1.rank() == b[j].1.rank(),
    ensures
        a.len() < b.len() ==> product_order(a, b) < 0,
        a.len() > b.len() ==> product_order(a, b) > 0,
        a.len() == b.len() && i == a.len() ==> product_order(a, b) == 0,
        a.len() == b.len() && i < a.len() && a[i].0 < b[i].0 ==> product_order(a, b) < 0,
        a.len() == b.len() && i < a.len() && a[i].0 > b[i].0 ==> product_order(a, b) > 0,
        a.len() == b.len() && i < a.len() && a[i].0 == b[i].0 && a[i].1.rank() < b[i].1.rank() ==> product_order(a, b) < 0,
        a.len() == b.len() && i < a.len() && a[i].0 == b[i].0 && a[i].1.rank() > b[i].1.rank() ==> product_order(a, b) > 0,
{
    if a.len() == b.len() {
        lemma_lex_order_first_difference(a, b, i);
    }
}

/// The operators are ordered as their variants are declared, the order that
/// `derive(Ord)` gives them: the identity, then X (or sigma+), then Y, iY (or
/// sigma-), then Z.
pub proof fn lemma_operator_rank_order()
    ensures
        SinglePauliOperator::Identity.rank() < SinglePauliOperator::X.rank(),
        SinglePauliOperator::X.rank() < SinglePauliOperator::Y.rank(),
        SinglePauliOperator::Y.rank() < SinglePauliOperator::Z.rank(),
        SingleDecoherenceOperator::Identity.rank() < SingleDecoherenceOperator::X.rank(),
        SingleDecoherenceOperator::X.rank() < SingleDecoherenceOperator::IY.rank(),
        SingleDecoherenceOperator::IY.rank() < SingleDecoherenceOperator::Z.rank(),
        SinglePlusMinusOperator::Identity.rank() < SinglePlusMinusOperator::Plus.rank(),
        SinglePlusMinusOperator::Plus.rank() < SinglePlusMinusOperator::Minus.rank(),
        SinglePlusMinusOperator::Minus.rank() < SinglePlusMinusOperator::Z.rank(),
{
}

/// Whether `r` is the `Ordering` that the sign `o` stands for.
pub open spec fn ordering_is(r: Ordering, o: int) -> bool {
    &&& (r == Ordering::Less) == (o < 0)
    &&& (r == Ordering::Equal) == (o == 0)
    &&& (r == Ordering::Greater) == (o > 0)
}

/// The `Ordering` that the sign `o` stands for.
pub open spec fn ordering_of(o: int) -> Ordering {
    if o < 0 {
        Ordering::Less
    } else if o == 0 {
        Ordering::Equal
    } else {
        Ordering::Greater
    }
}

/// The sign of the entry-by-entry comparison of two products of equal length.
fn lex_sign<T: SingleOperator>(a: &[(usize, T)], b: &[(usize, T)]) -> (r: i8)
    requires
        a@.len() == b@.len(),
    ensures
        r == lex_order(a@, b@),
{
    let mut i: usize = 0;
    assert(a@.skip(0) =~= a@);
    assert(b@.skip(0) =~= b@);
    while i < a.len()
        invariant
            a@.len() == b@.len(),
            0 <= i <= a@.len(),
            lex_order(a@, b@) == lex_order(a@.skip(i as int), b@.skip(i as int)),
        decreases a.len() - i,
    {
        assert(a@.skip(i as int)[0] == a@[i as int]);
        assert(b@.skip(i as int)[0] == b@[i as int]);
        assert(a@.skip(i as int).drop_first() =~= a@.skip(i + 1));
        assert(b@.skip(i as int).drop_first() =~= b@.skip(i + 1));
        let (ka, oa) = a[i];
        let (kb, ob) = b[i];
        if ka < kb {
            return -1;
        }
        if ka > kb {
            return 1;
        }
        let ra = oa.rank_of();
        let rb = ob.rank_of();
        if ra < rb {
            return -1;
        }
        if ra > rb {
            return 1;
        }
        i = i + 1;
    }
    0
}

/// Compares two products: by length, then entry by entry.
pub fn order_items<T: SingleOperator>(a: &[(usize, T)], b: &[(usize, T)]) -> (r: Ordering)
    ensures
        ordering_is(r, product_order(a@, b@)),
{
    if a.len() < b.len() {
        return Ordering::Less;
    }
    if a.len() > b.len() {
        return Ordering::Greater;
    }
    let sign = lex_sign(a, b);
    if sign < 0 {
        Ordering::Less
    } else if sign > 0 {
        Ordering::Greater
    } else {
        Ordering::Equal
    }
}

/// Whether two products have the same entries.
pub fn items_equal<T: SingleOperator>(a: &[(usize, T)], b: &[(usize, T)]) -> (r: bool)
    ensures
        r == (a@ == b@),
{
    if a.len() != b.len() {
        return false;
    }
    let mut i: usize = 0;
    while i < a.len()
        invariant
            a@.len() == b@.len(),
            0 <= i <= a@.len(),
            forall|j: int| 0 <= j < i ==> a@[j] == b@[j],
        decreases a.len() - i,
    {
        let (ka, oa) = a[i];
        let (kb, ob) = b[i];
        if ka != kb || !oa.same_as(&ob) {
            assert(a@[i as int] != b@[i as int]);
            return false;
        }
        i = i + 1;
    }
    assert(a@ =~= b@);
    true
}

} // verus!
