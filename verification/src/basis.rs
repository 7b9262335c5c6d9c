//! Changing the single-site basis of a product and back: writing a product
//! in another basis (a sum of products with prefactors) and every term of
//! that sum back in the first basis sums to the product again.
//!
//! Sums of terms are compared through their coefficients: the coefficient of
//! a product in a sum is the sum of the prefactors of its terms, taken as a
//! complex number times a power of two so that its parts are integers.

use vstd::prelude::*;
use vstd::arithmetic::power2::pow2;
use crate::expand::{expand_terms, step_terms, SingleConversion};
use crate::items::{index_increasing, items_wf, lemma_set_items_append, SingleOperator};
use crate::phase::{Phase, Prefactor};
use crate::single::{SingleDecoherenceOperator, SinglePauliOperator, SinglePlusMinusOperator};

verus! {

/// The sum of two complex numbers with integer parts.
pub open spec fn cadd(a: (int, int), b: (int, int)) -> (int, int) {
    (a.0 + b.0, a.1 + b.1)
}

/// The product of two complex numbers with integer parts.
pub open spec fn cmul(a: (int, int), b: (int, int)) -> (int, int) {
    (a.0 * b.0 - a.1 * b.1, a.0 * b.1 + a.1 * b.0)
}

/// The value of a prefactor times `2^n` (for at most `n` halvings), as its
/// real and imaginary parts.
pub open spec fn scaled(p: Prefactor, n: nat) -> (int, int) {
    let s = pow2((n - p.halvings) as nat) as int;
    match p.phase {
        Phase::One => (s, 0),
        Phase::I => (0, s),
        Phase::MinusOne => (-s, 0),
        Phase::MinusI => (0, -s),
    }
}

/// The terms with their prefactors multiplied by `c`.
pub open spec fn scale_terms<T>(l: Seq<(Seq<(usize, T)>, Prefactor)>, c: Prefactor) -> Seq<(Seq<(usize, T)>, Prefactor)> {
    l.map_values(|e: (Seq<(usize, T)>, Prefactor)| (e.0, c.times(e.1)))
}

/// The coefficient of the product `u` in a sum of terms, times `2^n`.
pub open spec fn coefficient<T>(l: Seq<(Seq<(usize, T)>, Prefactor)>, u: Seq<(usize, T)>, n: nat) -> (int, int)
    decreases l.len(),
{
    if l.len() == 0 {
        (0, 0)
    } else if l.last().0 == u {
        cadd(coefficient(l.drop_last(), u, n), scaled(l.last().1, n))
    } else {
        coefficient(l.drop_last(), u, n)
    }
}

/// Every term of a sum written in the basis `T`, its prefactor multiplied in.
pub open spec fn write_back<S: SingleConversion<T>, T: SingleOperator>(
    l: Seq<(Seq<(usize, S)>, Prefactor)>,
) -> Seq<(Seq<(usize, T)>, Prefactor)>
    decreases l.len(),
{
    if l.len() == 0 {
        Seq::empty()
    } else {
        write_back::<S, T>(l.drop_last()) + scale_terms(expand_terms::<S, T>(l.last().0), l.last().1)
    }
}

/// The terms with spin `k` set to `x` (appended) and their prefactors multiplied by `d`.
pub open spec fn push_terms<T>(l: Seq<(Seq<(usize, T)>, Prefactor)>, k: usize, x: T, d: Prefactor) -> Seq<(Seq<(usize, T)>, Prefactor)> {
    l.map_values(|e: (Seq<(usize, T)>, Prefactor)| (e.0.push((k, x)), d.times(e.1)))
}

/// On one spin: the coefficient of `x` (times 4) after writing each term of
/// `opts` back, with the prefactor `c` multiplied in.
pub open spec fn site_sum<S: SingleOperator>(opts: Seq<(S, Prefactor)>, c: Prefactor, x: S) -> (int, int)
    decreases opts.len(),
{
    if opts.len() == 0 {
        (0, 0)
    } else if opts.last().0 == x {
        cadd(site_sum(opts.drop_last(), c, x), scaled(c.times(opts.last().1), 2))
    } else {
        site_sum(opts.drop_last(), c, x)
    }
}

/// On one spin: the coefficient of `x` (times 4) after writing each term of
/// `terms` (operators of the basis `T`) back in the basis `S`.
pub open spec fn site_total<S: SingleOperator, T: SingleConversion<S>>(terms: Seq<(T, Prefactor)>, x: S) -> (int, int)
    decreases terms.len(),
{
    if terms.len() == 0 {
        (0, 0)
    } else {
        cadd(site_total::<S, T>(terms.drop_last(), x), site_sum(terms.last().0.conversion_terms(), terms.last().1, x))
    }
}

/// The entries of `t` are on the spins of `s`, in order, and none is the identity.
pub open spec fn same_spins<S, T: SingleOperator>(t: Seq<(usize, T)>, s: Seq<(usize, S)>) -> bool {
    &&& t.len() == s.len()
    &&& forall|j: int| 0 <= j < t.len() ==> (#[trigger] t[j]).0 == s[j].0 && !t[j].1.spec_is_identity()
}

// ----------------------------------------------------------------------------
// Arithmetic
// ----------------------------------------------------------------------------

proof fn lemma_cmul_distributes(a: (int, int), b: (int, int), c: (int, int))
    ensures
        cmul(a, cadd(b, c)) == cadd(cmul(a, b), cmul(a, c)),
        cmul(cadd(a, b), c) == cadd(cmul(a, c), cmul(b, c)),
        cmul(a, (0int, 0int)) == (0int, 0int),
        cmul((0int, 0int), a) == (0int, 0int),
{
    assert(a.0 * (b.0 + c.0) == a.0 * b.0 + a.0 * c.0) by (nonlinear_arith);
    assert(a.1 * (b.1 + c.1) == a.1 * b.1 + a.1 * c.1) by (nonlinear_arith);
    assert(a.0 * (b.1 + c.1) == a.0 * b.1 + a.0 * c.1) by (nonlinear_arith);
    assert(a.1 * (b.0 + c.0) == a.1 * b.0 + a.1 * c.0) by (nonlinear_arith);
    assert((a.0 + b.0) * c.0 == a.0 * c.0 + b.0 * c.0) by (nonlinear_arith);
    assert((a.1 + b.1) * c.1 == a.1 * c.1 + b.1 * c.1) by (nonlinear_arith);
    assert((a.0 + b.0) * c.1 == a.0 * c.1 + b.0 * c.1) by (nonlinear_arith);
    assert((a.1 + b.1) * c.0 == a.1 * c.0 + b.1 * c.0) by (nonlinear_arith);
}

/// The value of a product of prefactors is the product of their values.
proof fn lemma_scaled_times(a: Prefactor, b: Prefactor, n1: nat, n2: nat)
    requires
        a.halvings <= n1,
        b.halvings <= n2,
        a.halvings + b.halvings <= usize::MAX,
    ensures
        scaled(a.times(b), n1 + n2) == cmul(scaled(a, n1), scaled(b, n2)),
{
    let e1 = (n1 - a.halvings) as nat;
    let e2 = (n2 - b.halvings) as nat;
    vstd::arithmetic::power2::lemma_pow2_adds(e1, e2);
    let ab = a.times(b);
    assert(ab.halvings == a.halvings + b.halvings);
    assert((n1 + n2 - ab.halvings) as nat == e1 + e2);
    let p = pow2(e1) as int;
    let q = pow2(e2) as int;
    let pq = pow2(e1 + e2) as int;
    assert(p * q == pq);
    assert(scaled(a, n1) == match a.phase {
        Phase::One => (p, 0int),
        Phase::I => (0int, p),
        Phase::MinusOne => (-p, 0int),
        Phase::MinusI => (0int, -p),
    });
    assert(scaled(b, n2) == match b.phase {
        Phase::One => (q, 0int),
        Phase::I => (0int, q),
        Phase::MinusOne => (-q, 0int),
        Phase::MinusI => (0int, -q),
    });
    assert(scaled(ab, n1 + n2) == match ab.phase {
        Phase::One => (pq, 0int),
        Phase::I => (0int, pq),
        Phase::MinusOne => (-pq, 0int),
        Phase::MinusI => (0int, -pq),
    });
    assert(p * 0 == 0 && 0 * q == 0 && (-p) * q == -pq && p * (-q) == -pq && (-p) * (-q) == pq && 0 * 0 == 0
        && (-p) * 0 == 0 && 0 * (-q) == 0) by (nonlinear_arith)
        requires
            p * q == pq;
}

/// Regrouping four prefactors keeps the value.
proof fn lemma_scaled_regroup(c: Prefactor, c2: Prefactor, d: Prefactor, e: Prefactor, n: nat)
    requires
        c.halvings <= 1,
        d.halvings <= 1,
        c2.halvings + e.halvings <= n,
        n + 2 <= usize::MAX,
    ensures
        scaled(c.times(c2).times(d.times(e)), n + 2) == cmul(scaled(c.times(d), 2), scaled(c2.times(e), n)),
{
    crate::phase::lemma_phase_interchange(c.phase, c2.phase, d.phase, e.phase);
    crate::phase::lemma_phase_group(c.phase, d.phase, c2.phase);
    crate::phase::lemma_phase_group(c2.phase, e.phase, c.phase);
    assert(c.times(c2).times(d.times(e)) == c.times(d).times(c2.times(e)));
    lemma_scaled_times(c.times(d), c2.times(e), 2, n);
    assert(2 + n == n + 2);
}

// ----------------------------------------------------------------------------
// Sums of terms
// ----------------------------------------------------------------------------

/// The coefficient in two sums one after the other is the sum of the coefficients.
proof fn lemma_coefficient_append<T>(a: Seq<(Seq<(usize, T)>, Prefactor)>, b: Seq<(Seq<(usize, T)>, Prefactor)>, u: Seq<(usize, T)>, n: nat)
    ensures
        coefficient(a + b, u, n) == cadd(coefficient(a, u, n), coefficient(b, u, n)),
    decreases b.len(),
{
    if b.len() == 0 {
        assert(a + b =~= a);
    } else {
        assert((a + b).drop_last() =~= a + b.drop_last());
        assert((a + b).last() == b.last());
        lemma_coefficient_append(a, b.drop_last(), u, n);
    }
}

/// Writing back two sums one after the other writes back each.
proof fn lemma_write_back_append<S: SingleConversion<T>, T: SingleOperator>(
    a: Seq<(Seq<(usize, S)>, Prefactor)>,
    b: Seq<(Seq<(usize, S)>, Prefactor)>,
)
    ensures
        write_back::<S, T>(a + b) == write_back::<S, T>(a) + write_back::<S, T>(b),
    decreases b.len(),
{
    if b.len() == 0 {
        assert(a + b =~= a);
        assert(write_back::<S, T>(a) + write_back::<S, T>(b) =~= write_back::<S, T>(a));
    } else {
        assert((a + b).drop_last() =~= a + b.drop_last());
        assert((a + b).last() == b.last());
        lemma_write_back_append::<S, T>(a, b.drop_last());
        let x = scale_terms(expand_terms::<S, T>(b.last().0), b.last().1);
        assert(write_back::<S, T>(a) + write_back::<S, T>(b.drop_last()) + x =~= write_back::<S, T>(a) + (write_back::<S, T>(b.drop_last()) + x));
    }
}

// ----------------------------------------------------------------------------
// The terms of a rewritten product
// ----------------------------------------------------------------------------

/// Setting a spin past all spins of every term appends it to each term.
proof fn lemma_step_last<T: SingleOperator>(l: Seq<(Seq<(usize, T)>, Prefactor)>, k: usize, opts: Seq<(T, Prefactor)>)
    requires
        opts.len() > 0,
        !opts.last().0.spec_is_identity(),
        forall|i: int, j: int| 0 <= i < l.len() && 0 <= j < l[i].0.len() ==> (#[trigger] l[i].0[j]).0 < k,
    ensures
        step_terms(l, k, opts) == step_terms(l, k, opts.drop_last()) + push_terms(l, k, opts.last().0, opts.last().1),
{
    let (x, d) = opts.last();
    let f = |e: (Seq<(usize, T)>, Prefactor)| (crate::items::set_items(e.0, k, x), d.times(e.1));
    assert forall|i: int| 0 <= i < l.len() implies #[trigger] l.map_values(f)[i] == push_terms(l, k, x, d)[i] by {
        assert forall|j: int| 0 <= j < l[i].0.len() implies (#[trigger] l[i].0[j]).0 < k by {}
        lemma_set_items_append(l[i].0, k, x);
    }
    assert(l.map_values(f) =~= push_terms(l, k, x, d));
}

/// The terms after rewriting one more spin keep the shape: on the spins of
/// the product, without identities, with at most one more halving.
proof fn lemma_step_shape<S: SingleOperator, T: SingleOperator>(
    l: Seq<(Seq<(usize, T)>, Prefactor)>,
    k: usize,
    opts: Seq<(T, Prefactor)>,
    s: Seq<(usize, S)>,
    op: S,
    h: nat,
)
    requires
        forall|i: int| 0 <= i < l.len() ==> same_spins((#[trigger] l[i]).0, s) && l[i].1.halvings <= h,
        forall|j: int| 0 <= j < s.len() ==> (#[trigger] s[j]).0 < k,
        forall|o: int| 0 <= o < opts.len() ==> !(#[trigger] opts[o]).0.spec_is_identity() && opts[o].1.halvings <= 1,
        h + 1 <= usize::MAX,
    ensures
        forall|i: int| 0 <= i < step_terms(l, k, opts).len() ==>
            same_spins((#[trigger] step_terms(l, k, opts)[i]).0, s.push((k, op))) && step_terms(l, k, opts)[i].1.halvings <= h + 1,
    decreases opts.len(),
{
    if opts.len() > 0 {
        let o2 = opts.drop_last();
        assert forall|o: int| 0 <= o < o2.len() implies !(#[trigger] o2[o]).0.spec_is_identity() && o2[o].1.halvings <= 1 by {
            assert(o2[o] == opts[o]);
        }
        lemma_step_shape(l, k, o2, s, op, h);
        assert(!opts[opts.len() - 1].0.spec_is_identity());
        assert forall|i: int, j: int| 0 <= i < l.len() && 0 <= j < l[i].0.len() implies (#[trigger] l[i].0[j]).0 < k by {
            assert(same_spins(l[i].0, s));
            assert(l[i].0[j].0 == s[j].0);
        }
        lemma_step_last(l, k, opts);
        let (x, d) = opts.last();
        assert(d.halvings <= 1) by {
            assert(opts[opts.len() - 1].1.halvings <= 1);
        }
        let a = step_terms(l, k, o2);
        let b = push_terms(l, k, x, d);
        let t = step_terms(l, k, opts);
        let s2 = s.push((k, op));
        assert forall|i: int| 0 <= i < t.len() implies same_spins((#[trigger] t[i]).0, s2) && t[i].1.halvings <= h + 1 by {
            if i < a.len() {
                assert(t[i] == a[i]);
            } else {
                let i2 = i - a.len();
                assert(t[i] == b[i2]);
                assert(same_spins(l[i2].0, s));
                let w = l[i2].0.push((k, x));
                assert forall|j: int| 0 <= j < w.len() implies (#[trigger] w[j]).0 == s2[j].0 && !w[j].1.spec_is_identity() by {
                    if j < l[i2].0.len() {
                        assert(w[j] == l[i2].0[j]);
                    }
                }
            }
        }
    }
}

/// The terms of a product rewritten in the basis `T`: each acts on the spins
/// of the product, without identities, with at most one halving per spin.
proof fn lemma_expand_shape<S: SingleConversion<T>, T: SingleOperator>(s: Seq<(usize, S)>)
    requires
        items_wf(s),
        index_increasing(s),
        s.len() <= usize::MAX,
    ensures
        forall|i: int| 0 <= i < expand_terms::<S, T>(s).len() ==>
            same_spins((#[trigger] expand_terms::<S, T>(s)[i]).0, s) && expand_terms::<S, T>(s)[i].1.halvings <= s.len(),
    decreases s.len(),
{
    let e = expand_terms::<S, T>(s);
    if s.len() == 0 {
        assert forall|i: int| 0 <= i < e.len() implies same_spins((#[trigger] e[i]).0, s) && e[i].1.halvings <= s.len() by {
            assert(e[i] == (Seq::<(usize, T)>::empty(), Prefactor { phase: Phase::One, halvings: 0 }));
        }
    } else {
        let s2 = s.drop_last();
        let (k, op) = s.last();
        assert forall|i: int, j: int| 0 <= i < j < s2.len() implies s2[i].0 < s2[j].0 by {
            assert(s2[i] == s[i] && s2[j] == s[j]);
        }
        assert forall|i: int| 0 <= i < s2.len() implies !(#[trigger] s2[i]).1.spec_is_identity() by {
            assert(s2[i] == s[i]);
        }
        assert forall|i: int, j: int| 0 <= i < j < s2.len() implies s2[i].0 <= s2[j].0 by {
            assert(s2[i] == s[i] && s2[j] == s[j]);
        }
        lemma_expand_shape::<S, T>(s2);
        assert forall|j: int| 0 <= j < s2.len() implies (#[trigger] s2[j]).0 < k by {
            assert(s2[j] == s[j]);
            assert(s[j].0 < s[s.len() - 1].0);
        }
        assert(!op.spec_is_identity()) by {
            assert(!s[s.len() - 1].1.spec_is_identity());
        }
        op.lemma_conversion_halvings();
        lemma_step_shape(expand_terms::<S, T>(s2), k, op.conversion_terms(), s2, op, s2.len());
        assert(s2.push((k, op)) =~= s);
    }
}

// ----------------------------------------------------------------------------
// Coefficients after writing back
// ----------------------------------------------------------------------------

/// Appending an entry to a product: the product read from the end.
proof fn lemma_push_eq<T>(w: Seq<(usize, T)>, p: (usize, T), v: Seq<(usize, T)>)
    ensures
        (w.push(p) == v) == (v.len() > 0 && v.last() == p && w == v.drop_last()),
{
    if v.len() > 0 && v.last() == p && w == v.drop_last() {
        assert(w.push(p) =~= v);
    }
    if w.push(p) == v {
        assert(w.push(p).drop_last() =~= w);
    }
}

/// The coefficients of terms with one more spin: a term counts toward the
/// product with that spin appended.
proof fn lemma_push_coefficient<T>(
    l: Seq<(Seq<(usize, T)>, Prefactor)>,
    k: usize,
    x: T,
    d: Prefactor,
    c: Prefactor,
    c2: Prefactor,
    v: Seq<(usize, T)>,
    n: nat,
)
    requires
        c.halvings <= 1,
        d.halvings <= 1,
        forall|i: int| 0 <= i < l.len() ==> c2.halvings + (#[trigger] l[i]).1.halvings <= n,
        n + 2 <= usize::MAX,
    ensures
        coefficient(scale_terms(push_terms(l, k, x, d), c.times(c2)), v, n + 2) == if v.len() > 0 && v.last() == (k, x) {
            cmul(scaled(c.times(d), 2), coefficient(scale_terms(l, c2), v.drop_last(), n))
        } else {
            (0int, 0int)
        },
    decreases l.len(),
{
    let a = scaled(c.times(d), 2);
    if l.len() == 0 {
        lemma_cmul_distributes(a, (0, 0), (0, 0));
    } else {
        let l2 = l.drop_last();
        let (w, e) = l.last();
        assert forall|i: int| 0 <= i < l2.len() implies c2.halvings + (#[trigger] l2[i]).1.halvings <= n by {
            assert(l2[i] == l[i]);
        }
        lemma_push_coefficient(l2, k, x, d, c, c2, v, n);
        let big = scale_terms(push_terms(l, k, x, d), c.times(c2));
        let small = scale_terms(l, c2);
        assert(big.drop_last() =~= scale_terms(push_terms(l2, k, x, d), c.times(c2)));
        assert(small.drop_last() =~= scale_terms(l2, c2));
        assert(big.last() == (w.push((k, x)), c.times(c2).times(d.times(e))));
        assert(small.last() == (w, c2.times(e)));
        assert(c2.halvings + e.halvings <= n) by {
            assert(l[l.len() - 1] == (w, e));
        }
        lemma_push_eq(w, (k, x), v);
        lemma_scaled_regroup(c, c2, d, e, n);
        let rest = coefficient(scale_terms(l2, c2), v.drop_last(), n);
        lemma_cmul_distributes(a, rest, scaled(c2.times(e), n));
    }
}

/// The coefficients after rewriting one more spin, scaled by `c c2`: the
/// spin's own sum times the coefficients before.
proof fn lemma_step_coefficient<S: SingleOperator>(
    l: Seq<(Seq<(usize, S)>, Prefactor)>,
    k: usize,
    opts: Seq<(S, Prefactor)>,
    c: Prefactor,
    c2: Prefactor,
    v: Seq<(usize, S)>,
    n: nat,
)
    requires
        forall|i: int, j: int| 0 <= i < l.len() && 0 <= j < l[i].0.len() ==> (#[trigger] l[i].0[j]).0 < k,
        forall|o: int| 0 <= o < opts.len() ==> !(#[trigger] opts[o]).0.spec_is_identity() && opts[o].1.halvings <= 1,
        c.halvings <= 1,
        forall|i: int| 0 <= i < l.len() ==> c2.halvings + (#[trigger] l[i]).1.halvings <= n,
        n + 2 <= usize::MAX,
    ensures
        coefficient(scale_terms(step_terms(l, k, opts), c.times(c2)), v, n + 2) == if v.len() > 0 && v.last().0 == k {
            cmul(site_sum(opts, c, v.last().1), coefficient(scale_terms(l, c2), v.drop_last(), n))
        } else {
            (0int, 0int)
        },
    decreases opts.len(),
{
    let r = coefficient(scale_terms(l, c2), v.drop_last(), n);
    if opts.len() == 0 {
        lemma_cmul_distributes((0, 0), r, r);
    } else {
        let o2 = opts.drop_last();
        assert forall|o: int| 0 <= o < o2.len() implies !(#[trigger] o2[o]).0.spec_is_identity() && o2[o].1.halvings <= 1 by {
            assert(o2[o] == opts[o]);
        }
        lemma_step_coefficient(l, k, o2, c, c2, v, n);
        assert(!opts[opts.len() - 1].0.spec_is_identity() && opts[opts.len() - 1].1.halvings <= 1);
        lemma_step_last(l, k, opts);
        let (x, d) = opts.last();
        let a = step_terms(l, k, o2);
        let b = push_terms(l, k, x, d);
        assert(scale_terms(a + b, c.times(c2)) =~= scale_terms(a, c.times(c2)) + scale_terms(b, c.times(c2)));
        lemma_coefficient_append(scale_terms(a, c.times(c2)), scale_terms(b, c.times(c2)), v, n + 2);
        lemma_push_coefficient(l, k, x, d, c, c2, v, n);
        if v.len() > 0 && v.last().0 == k {
            let before = site_sum(o2, c, v.last().1);
            let here = if x == v.last().1 { scaled(c.times(d), 2) } else { (0int, 0int) };
            lemma_cmul_distributes(before, here, r);
            lemma_cmul_distributes(r, r, r);
            if x != v.last().1 {
                assert(v.last() != (k, x));
                lemma_cmul_distributes(r, (0, 0), (0, 0));
            }
        }
    }
}

/// A term on the spins of a product, without identities, is itself a
/// product with strictly increasing spins.
proof fn lemma_same_spins_wf<S, T: SingleOperator>(t: Seq<(usize, T)>, s: Seq<(usize, S)>)
    requires
        same_spins(t, s),
        index_increasing(s),
    ensures
        items_wf(t),
        index_increasing(t),
{
    assert forall|i: int, j: int| 0 <= i < j < t.len() implies t[i].0 < t[j].0 by {
        assert(t[i].0 == s[i].0 && t[j].0 == s[j].0);
    }
    assert forall|i: int| 0 <= i < t.len() implies !(#[trigger] t[i]).1.spec_is_identity() by {}
}

/// Writing back terms that all end with one more spin `k` set to `m`.
proof fn lemma_write_back_push<S: SingleConversion<T>, T: SingleConversion<S>>(
    l: Seq<(Seq<(usize, T)>, Prefactor)>,
    k: usize,
    m: T,
    c: Prefactor,
    s: Seq<(usize, S)>,
    v: Seq<(usize, S)>,
)
    requires
        index_increasing(s),
        forall|j: int| 0 <= j < s.len() ==> (#[trigger] s[j]).0 < k,
        forall|i: int| 0 <= i < l.len() ==> same_spins((#[trigger] l[i]).0, s) && l[i].1.halvings <= s.len(),
        !m.spec_is_identity(),
        c.halvings <= 1,
        2 * s.len() + 2 <= usize::MAX,
    ensures
        coefficient(write_back::<T, S>(push_terms(l, k, m, c)), v, 2 * s.len() + 2) == if v.len() > 0 && v.last().0 == k {
            cmul(site_sum(m.conversion_terms(), c, v.last().1), coefficient(write_back::<T, S>(l), v.drop_last(), 2 * s.len()))
        } else {
            (0int, 0int)
        },
    decreases l.len(),
{
    let n = 2 * s.len();
    let a = site_sum(m.conversion_terms(), c, v.last().1);
    if l.len() == 0 {
        assert(push_terms(l, k, m, c) =~= Seq::<(Seq<(usize, T)>, Prefactor)>::empty());
        lemma_cmul_distributes(a, (0, 0), (0, 0));
    } else {
        let l2 = l.drop_last();
        let (t, c2) = l.last();
        assert forall|i: int| 0 <= i < l2.len() implies same_spins((#[trigger] l2[i]).0, s) && l2[i].1.halvings <= s.len() by {
            assert(l2[i] == l[i]);
        }
        lemma_write_back_push::<S, T>(l2, k, m, c, s, v);
        assert(same_spins(t, s) && c2.halvings <= s.len()) by {
            assert(l[l.len() - 1] == (t, c2));
        }
        let pl = push_terms(l, k, m, c);
        assert(pl.drop_last() =~= push_terms(l2, k, m, c));
        assert(pl.last() == (t.push((k, m)), c.times(c2)));
        // the last term, written back
        let tm = t.push((k, m));
        assert(tm.drop_last() =~= t);
        assert(tm.last() == (k, m));
        assert(expand_terms::<T, S>(tm) == step_terms(expand_terms::<T, S>(t), k, m.conversion_terms()));
        lemma_same_spins_wf(t, s);
        lemma_expand_shape::<T, S>(t);
        let et = expand_terms::<T, S>(t);
        assert forall|i: int, j: int| 0 <= i < et.len() && 0 <= j < et[i].0.len() implies (#[trigger] et[i].0[j]).0 < k by {
            assert(same_spins(et[i].0, t));
            assert(et[i].0[j].0 == t[j].0);
            assert(t[j].0 == s[j].0);
        }
        assert forall|i: int| 0 <= i < et.len() implies c2.halvings + (#[trigger] et[i]).1.halvings <= n by {
            assert(et[i].1.halvings <= t.len());
        }
        m.lemma_conversion_halvings();
        lemma_step_coefficient(et, k, m.conversion_terms(), c, c2, v, n);
        // the sums
        lemma_coefficient_append(write_back::<T, S>(push_terms(l2, k, m, c)), scale_terms(expand_terms::<T, S>(tm), c.times(c2)), v, n + 2);
        lemma_coefficient_append(write_back::<T, S>(l2), scale_terms(et, c2), v.drop_last(), n);
        let r1 = coefficient(write_back::<T, S>(l2), v.drop_last(), n);
        let r2 = coefficient(scale_terms(et, c2), v.drop_last(), n);
        lemma_cmul_distributes(a, r1, r2);
        lemma_cmul_distributes(a, (0, 0), (0, 0));
    }
}

/// Writing back the terms after rewriting one more spin `k` with the options `opts`.
proof fn lemma_write_back_step<S: SingleConversion<T>, T: SingleConversion<S>>(
    l: Seq<(Seq<(usize, T)>, Prefactor)>,
    k: usize,
    opts: Seq<(T, Prefactor)>,
    s: Seq<(usize, S)>,
    v: Seq<(usize, S)>,
)
    requires
        index_increasing(s),
        forall|j: int| 0 <= j < s.len() ==> (#[trigger] s[j]).0 < k,
        forall|i: int| 0 <= i < l.len() ==> same_spins((#[trigger] l[i]).0, s) && l[i].1.halvings <= s.len(),
        forall|o: int| 0 <= o < opts.len() ==> !(#[trigger] opts[o]).0.spec_is_identity() && opts[o].1.halvings <= 1,
        2 * s.len() + 2 <= usize::MAX,
    ensures
        coefficient(write_back::<T, S>(step_terms(l, k, opts)), v, 2 * s.len() + 2) == if v.len() > 0 && v.last().0 == k {
            cmul(site_total::<S, T>(opts, v.last().1), coefficient(write_back::<T, S>(l), v.drop_last(), 2 * s.len()))
        } else {
            (0int, 0int)
        },
    decreases opts.len(),
{
    let n = 2 * s.len();
    let r = coefficient(write_back::<T, S>(l), v.drop_last(), n);
    if opts.len() == 0 {
        lemma_cmul_distributes((0, 0), r, r);
    } else {
        let o2 = opts.drop_last();
        assert forall|o: int| 0 <= o < o2.len() implies !(#[trigger] o2[o]).0.spec_is_identity() && o2[o].1.halvings <= 1 by {
            assert(o2[o] == opts[o]);
        }
        lemma_write_back_step::<S, T>(l, k, o2, s, v);
        assert(!opts[opts.len() - 1].0.spec_is_identity() && opts[opts.len() - 1].1.halvings <= 1);
        assert forall|i: int, j: int| 0 <= i < l.len() && 0 <= j < l[i].0.len() implies (#[trigger] l[i].0[j]).0 < k by {
            assert(same_spins(l[i].0, s));
            assert(l[i].0[j].0 == s[j].0);
        }
        lemma_step_last(l, k, opts);
        let (m, c) = opts.last();
        let a = step_terms(l, k, o2);
        let b = push_terms(l, k, m, c);
        lemma_write_back_append::<T, S>(a, b);
        lemma_coefficient_append(write_back::<T, S>(a), write_back::<T, S>(b), v, n + 2);
        lemma_write_back_push::<S, T>(l, k, m, c, s, v);
        let before = site_total::<S, T>(o2, v.last().1);
        let here = site_sum(m.conversion_terms(), c, v.last().1);
        lemma_cmul_distributes(before, here, r);
    }
}

/// Rewriting a product in the basis `T` and every term back in the basis `S`
/// sums to the product: its coefficient is 1 (times `2^(2n)` for `n`
/// spins) and every other product's is 0, provided that this holds on a
/// single spin.
pub proof fn lemma_write_back_expand<S: SingleConversion<T>, T: SingleConversion<S>>(s: Seq<(usize, S)>, u: Seq<(usize, S)>)
    requires
        items_wf(s),
        index_increasing(s),
        2 * s.len() <= usize::MAX,
        forall|op: S, x: S| !op.spec_is_identity() ==> #[trigger] site_total::<S, T>(op.conversion_terms(), x)
            == if x == op { (4int, 0int) } else { (0int, 0int) },
    ensures
        coefficient(write_back::<T, S>(expand_terms::<S, T>(s)), u, 2 * s.len())
            == if u == s { (pow2(2 * s.len()) as int, 0int) } else { (0int, 0int) },
    decreases s.len(),
{
    let e = expand_terms::<S, T>(s);
    if s.len() == 0 {
        let one = Prefactor { phase: Phase::One, halvings: 0 };
        assert(e == seq![(Seq::<(usize, T)>::empty(), one)]);
        assert(e.drop_last() =~= Seq::<(Seq<(usize, T)>, Prefactor)>::empty());
        let wb = write_back::<T, S>(e);
        assert(e.last() == (Seq::<(usize, T)>::empty(), one));
        assert(write_back::<T, S>(e.drop_last()) == Seq::<(Seq<(usize, S)>, Prefactor)>::empty());
        let back = expand_terms::<T, S>(Seq::<(usize, T)>::empty());
        assert(back == seq![(Seq::<(usize, S)>::empty(), one)]);
        assert(scale_terms(back, one) =~= seq![(Seq::<(usize, S)>::empty(), one.times(one))]);
        assert(wb =~= Seq::<(Seq<(usize, S)>, Prefactor)>::empty() + scale_terms(back, one));
        assert(wb =~= seq![(Seq::<(usize, S)>::empty(), one.times(one))]);
        assert(wb.drop_last() =~= Seq::<(Seq<(usize, S)>, Prefactor)>::empty());
        assert(s =~= Seq::<(usize, S)>::empty());
        assert(pow2(0) == 1) by {
            vstd::arithmetic::power2::lemma2_to64();
        }
        assert(coefficient(wb.drop_last(), u, 0) == (0int, 0int));
        assert(scaled(one.times(one), 0) == (1int, 0int));
        assert(coefficient(wb, u, 0) == if u == s { (1int, 0int) } else { (0int, 0int) });
    } else {
        let s2 = s.drop_last();
        let (k, op) = s.last();
        assert forall|i: int, j: int| 0 <= i < j < s2.len() implies s2[i].0 < s2[j].0 by {
            assert(s2[i] == s[i] && s2[j] == s[j]);
        }
        assert forall|i: int| 0 <= i < s2.len() implies !(#[trigger] s2[i]).1.spec_is_identity() by {
            assert(s2[i] == s[i]);
        }
        assert forall|i: int, j: int| 0 <= i < j < s2.len() implies s2[i].0 <= s2[j].0 by {
            assert(s2[i] == s[i] && s2[j] == s[j]);
        }
        lemma_write_back_expand::<S, T>(s2, u.drop_last());
        assert forall|j: int| 0 <= j < s2.len() implies (#[trigger] s2[j]).0 < k by {
            assert(s2[j] == s[j]);
            assert(s[j].0 < s[s.len() - 1].0);
        }
        assert(!op.spec_is_identity()) by {
            assert(!s[s.len() - 1].1.spec_is_identity());
        }
        op.lemma_conversion_halvings();
        lemma_expand_shape::<S, T>(s2);
        let e2 = expand_terms::<S, T>(s2);
        assert(e == step_terms(e2, k, op.conversion_terms()));
        lemma_write_back_step::<S, T>(e2, k, op.conversion_terms(), s2, u);
        let n = 2 * s2.len();
        assert(2 * s.len() == n + 2);
        let r = coefficient(write_back::<T, S>(e2), u.drop_last(), n);
        if u.len() > 0 && u.last().0 == k {
            let x = u.last().1;
            let t = site_total::<S, T>(op.conversion_terms(), x);
            lemma_push_eq(s2, (k, op), u);
            assert(s2.push((k, op)) =~= s);
            if u == s {
                assert(x == op);
                assert(u.drop_last() == s2);
                vstd::arithmetic::power2::lemma_pow2_adds(n, 2);
                assert(pow2(2) == 4) by {
                    vstd::arithmetic::power2::lemma2_to64();
                }
                let p = pow2(n) as int;
                assert(cmul((4int, 0int), (p, 0int)) == (4 * p, 0int)) by (nonlinear_arith);
                assert(pow2(n + 2) as int == p * 4);
            } else if x == op {
                assert(u.drop_last() != s2);
                lemma_cmul_distributes(t, (0, 0), (0, 0));
            } else {
                lemma_cmul_distributes(r, r, r);
            }
        } else {
            if u == s {
                assert(s.last() == s[s.len() - 1]);
            }
        }
    }
}

// ----------------------------------------------------------------------------
// The bases of the library
// ----------------------------------------------------------------------------

/// On one spin, Pauli matrices written in the plus/minus basis and back.
proof fn lemma_site_pauli_plus_minus(op: SinglePauliOperator, x: SinglePauliOperator)
    ensures
        !op.spec_is_identity() ==> site_total::<SinglePauliOperator, SinglePlusMinusOperator>(op.conversion_terms(), x)
            == if x == op { (4int, 0int) } else { (0int, 0int) },
{
    reveal_with_fuel(site_total, 3);
    reveal_with_fuel(site_sum, 3);
    assert(pow2(0) == 1 && pow2(1) == 2 && pow2(2) == 4) by {
        vstd::arithmetic::power2::lemma2_to64();
    }
}

/// The sum of the terms of a Pauli product written in the plus/minus basis (`PlusMinusProduct::from_pauli_product`), and each term
/// written back in Pauli matrices (`PlusMinusProduct::to_pauli_products`) is the product: it has coefficient 1
/// (here times `2^(2n)` for `n` spins) and every other product has coefficient 0.
pub proof fn lemma_pauli_plus_minus_roundtrip(s: Seq<(usize, SinglePauliOperator)>, u: Seq<(usize, SinglePauliOperator)>)
    requires
        items_wf(s),
        index_increasing(s),
        2 * s.len() <= usize::MAX,
    ensures
        coefficient(write_back::<SinglePlusMinusOperator, SinglePauliOperator>(expand_terms::<SinglePauliOperator, SinglePlusMinusOperator>(s)), u, 2 * s.len())
            == if u == s { (pow2(2 * s.len()) as int, 0int) } else { (0int, 0int) },
{
    assert forall|op: SinglePauliOperator, x: SinglePauliOperator| !op.spec_is_identity() implies #[trigger] site_total::<SinglePauliOperator, SinglePlusMinusOperator>(op.conversion_terms(), x)
        == if x == op { (4int, 0int) } else { (0int, 0int) } by {
        lemma_site_pauli_plus_minus(op, x);
    }
    lemma_write_back_expand::<SinglePauliOperator, SinglePlusMinusOperator>(s, u);
}

/// On one spin, decoherence matrices written in the plus/minus basis and back.
proof fn lemma_site_decoherence_plus_minus(op: SingleDecoherenceOperator, x: SingleDecoherenceOperator)
    ensures
        !op.spec_is_identity() ==> site_total::<SingleDecoherenceOperator, SinglePlusMinusOperator>(op.conversion_terms(), x)
            == if x == op { (4int, 0int) } else { (0int, 0int) },
{
    reveal_with_fuel(site_total, 3);
    reveal_with_fuel(site_sum, 3);
    assert(pow2(0) == 1 && pow2(1) == 2 && pow2(2) == 4) by {
        vstd::arithmetic::power2::lemma2_to64();
    }
}

/// The sum of the terms of a decoherence product written in the plus/minus basis
/// (`PlusMinusProduct::from_decoherence_product`), and each term written back in
/// decoherence matrices (`PlusMinusProduct::to_decoherence_products`) is the product: it has coefficient 1
/// (here times `2^(2n)` for `n` spins) and every other product has coefficient 0.
pub proof fn lemma_decoherence_plus_minus_roundtrip(s: Seq<(usize, SingleDecoherenceOperator)>, u: Seq<(usize, SingleDecoherenceOperator)>)
    requires
        items_wf(s),
        index_increasing(s),
        2 * s.len() <= usize::MAX,
    ensures
        coefficient(write_back::<SinglePlusMinusOperator, SingleDecoherenceOperator>(expand_terms::<SingleDecoherenceOperator, SinglePlusMinusOperator>(s)), u, 2 * s.len())
            == if u == s { (pow2(2 * s.len()) as int, 0int) } else { (0int, 0int) },
{
    assert forall|op: SingleDecoherenceOperator, x: SingleDecoherenceOperator| !op.spec_is_identity() implies #[trigger] site_total::<SingleDecoherenceOperator, SinglePlusMinusOperator>(op.conversion_terms(), x)
        == if x == op { (4int, 0int) } else { (0int, 0int) } by {
        lemma_site_decoherence_plus_minus(op, x);
    }
    lemma_write_back_expand::<SingleDecoherenceOperator, SinglePlusMinusOperator>(s, u);
}

/// On one spin, plus/minus operators written in Pauli matrices and back.
proof fn lemma_site_plus_minus_pauli(op: SinglePlusMinusOperator, x: SinglePlusMinusOperator)
    ensures
        !op.spec_is_identity() ==> site_total::<SinglePlusMinusOperator, SinglePauliOperator>(op.conversion_terms(), x)
            == if x == op { (4int, 0int) } else { (0int, 0int) },
{
    reveal_with_fuel(site_total, 3);
    reveal_with_fuel(site_sum, 3);
    assert(pow2(0) == 1 && pow2(1) == 2 && pow2(2) == 4) by {
        vstd::arithmetic::power2::lemma2_to64();
    }
}

/// The sum of the terms of a plus/minus product written in Pauli matrices (`PlusMinusProduct::to_pauli_products`),
/// and each term written back in the plus/minus basis (`PlusMinusProduct::from_pauli_product`) is the product: it has coefficient 1
/// (here times `2^(2n)` for `n` spins) and every other product has coefficient 0.
pub proof fn lemma_plus_minus_pauli_roundtrip(s: Seq<(usize, SinglePlusMinusOperator)>, u: Seq<(usize, SinglePlusMinusOperator)>)
    requires
        items_wf(s),
        index_increasing(s),
        2 * s.len() <= usize::MAX,
    ensures
        coefficient(write_back::<SinglePauliOperator, SinglePlusMinusOperator>(expand_terms::<SinglePlusMinusOperator, SinglePauliOperator>(s)), u, 2 * s.len())
            == if u == s { (pow2(2 * s.len()) as int, 0int) } else { (0int, 0int) },
{
    assert forall|op: SinglePlusMinusOperator, x: SinglePlusMinusOperator| !op.spec_is_identity() implies #[trigger] site_total::<SinglePlusMinusOperator, SinglePauliOperator>(op.conversion_terms(), x)
        == if x == op { (4int, 0int) } else { (0int, 0int) } by {
        lemma_site_plus_minus_pauli(op, x);
    }
    lemma_write_back_expand::<SinglePlusMinusOperator, SinglePauliOperator>(s, u);
}

/// On one spin, plus/minus operators written in decoherence matrices and back.
proof fn lemma_site_plus_minus_decoherence(op: SinglePlusMinusOperator, x: SinglePlusMinusOperator)
    ensures
        !op.spec_is_identity() ==> site_total::<SinglePlusMinusOperator, SingleDecoherenceOperator>(op.conversion_terms(), x)
            == if x == op { (4int, 0int) } else { (0int, 0int) },
{
    reveal_with_fuel(site_total, 3);
    reveal_with_fuel(site_sum, 3);
    assert(pow2(0) == 1 && pow2(1) == 2 && pow2(2) == 4) by {
        vstd::arithmetic::power2::lemma2_to64();
    }
}

/// The sum of the terms of a plus/minus product written in decoherence matrices
/// (`PlusMinusProduct::to_decoherence_products`), and each term written back in the
/// plus/minus basis (`PlusMinusProduct::from_decoherence_product`) is the product: it has coefficient 1
/// (here times `2^(2n)` for `n` spins) and every other product has coefficient 0.
pub proof fn lemma_plus_minus_decoherence_roundtrip(s: Seq<(usize, SinglePlusMinusOperator)>, u: Seq<(usize, SinglePlusMinusOperator)>)
    requires
        items_wf(s),
        index_increasing(s),
        2 * s.len() <= usize::MAX,
    ensures
        coefficient(write_back::<SingleDecoherenceOperator, SinglePlusMinusOperator>(expand_terms::<SinglePlusMinusOperator, SingleDecoherenceOperator>(s)), u, 2 * s.len())
            == if u == s { (pow2(2 * s.len()) as int, 0int) } else { (0int, 0int) },
{
    assert forall|op: SinglePlusMinusOperator, x: SinglePlusMinusOperator| !op.spec_is_identity() implies #[trigger] site_total::<SinglePlusMinusOperator, SingleDecoherenceOperator>(op.conversion_terms(), x)
        == if x == op { (4int, 0int) } else { (0int, 0int) } by {
        lemma_site_plus_minus_decoherence(op, x);
    }
    lemma_write_back_expand::<SinglePlusMinusOperator, SingleDecoherenceOperator>(s, u);
}

} // verus!
