//! The string form of products: spins written in decimal, each followed by
//! the symbol of its operator (`0X12Z`), and `I` for the empty product.

use vstd::prelude::*;
use vstd::string::StringExecFns;
use crate::error::StruqtureError;
use crate::items::{index_increasing, sort_by_index, sort_items, SingleOperator};

verus! {

/// A character that a symbol of a single-site operator is made of.
pub open spec fn symbol_char(c: char) -> bool {
    ('a' <= c <= 'z') || ('A' <= c <= 'Z') || c == '+' || c == '-'
}

/// `String::push`: appends a character.
#[verifier::external_body]
pub(crate) fn push_char(s: &mut String, c: char)
    ensures
        final(s)@ == old(s)@.push(c),
{
    s.push(c)
}

/// Appends the characters `s[a..b]` to `out`.
fn push_chars(out: &mut String, s: &[char], a: usize, b: usize)
    requires
        a <= b <= s@.len(),
    ensures
        final(out)@ == old(out)@ + s@.subrange(a as int, b as int),
{
    let mut i = a;
    while i < b
        invariant
            a <= i <= b <= s@.len(),
            out@ == old(out)@ + s@.subrange(a as int, i as int),
        decreases b - i,
    {
        push_char(out, s[i]);
        assert(s@.subrange(a as int, i + 1) =~= s@.subrange(a as int, i as int).push(s@[i as int]));
        i = i + 1;
    }
}

/// The characters of a string.
pub fn chars_of(s: &str) -> (r: Vec<char>)
    ensures
        r@ == s@,
{
    broadcast use vstd::string::axiom_spec_iter;

    let mut v: Vec<char> = Vec::new();
    for c in it: s.chars()
        invariant
            v@ == it.seq().take(it.index()),
            it.seq() == s@,
    {
        v.push(c);
        assert(it.seq().take(it.index() + 1) =~= it.seq().take(it.index()).push(c));
    }
    assert(s@.take(s@.len() as int) =~= s@);
    v
}

// ----------------------------------------------------------------------------
// Character classes
// ----------------------------------------------------------------------------

/// An ASCII digit `0`..`9`.
pub open spec fn is_ascii_digit(c: char) -> bool {
    '0' <= c && c <= '9'
}

/// An ASCII letter.
pub open spec fn is_ascii_letter(c: char) -> bool {
    ('a' <= c && c <= 'z') || ('A' <= c && c <= 'Z')
}

/// ASCII punctuation, as `char::is_ascii_punctuation` defines it.
pub open spec fn is_ascii_punctuation(c: char) -> bool {
    ('!' <= c && c <= '/') || (':' <= c && c <= '@') || ('[' <= c && c <= '`') || ('{' <= c && c <= '~')
}

/// What `char::is_numeric` returns on a character outside ASCII.
pub uninterp spec fn char_is_numeric(c: char) -> bool;

/// What `char::is_alphabetic` returns on a character outside ASCII.
pub uninterp spec fn char_is_alphabetic(c: char) -> bool;

/// Whether a character is numeric in the sense of `char::is_numeric`:
/// on ASCII exactly the digits.
pub open spec fn numeric(c: char) -> bool {
    if (c as int) < 128 {
        is_ascii_digit(c)
    } else {
        char_is_numeric(c)
    }
}

/// Whether a character is alphabetic in the sense of `char::is_alphabetic`:
/// on ASCII exactly the letters.
pub open spec fn alphabetic(c: char) -> bool {
    if (c as int) < 128 {
        is_ascii_letter(c)
    } else {
        char_is_alphabetic(c)
    }
}

/// `char::is_numeric`: whether the character has a Unicode numeric general
/// category (Nd, Nl, No). On ASCII this holds of the digits `0`..`9` alone;
/// outside ASCII the result is named, not stated.
#[verifier::external_body]
fn is_numeric_char(c: char) -> (r: bool)
    ensures
        (c as int) < 128 ==> r == is_ascii_digit(c),
        (c as int) >= 128 ==> r == char_is_numeric(c),
{
    c.is_numeric()
}

/// `char::is_alphabetic`: whether the character has the Unicode `Alphabetic`
/// property. On ASCII this holds of the letters `a`..`z`, `A`..`Z` alone;
/// outside ASCII the result is named, not stated.
#[verifier::external_body]
fn is_alphabetic_char(c: char) -> (r: bool)
    ensures
        (c as int) < 128 ==> r == is_ascii_letter(c),
        (c as int) >= 128 ==> r == char_is_alphabetic(c),
{
    c.is_alphabetic()
}

/// Whether a character is ASCII punctuation.
fn is_ascii_punctuation_char(c: char) -> (r: bool)
    ensures
        r == is_ascii_punctuation(c),
{
    ('!' <= c && c <= '/') || (':' <= c && c <= '@') || ('[' <= c && c <= '`') || ('{' <= c && c <= '~')
}

/// The characters a string is split at.
#[derive(Clone, Copy, PartialEq, Eq, Structural, Debug)]
pub enum Separator {
    /// Numeric characters.
    Numeric,
    /// Alphabetic characters.
    Alphabetic,
    /// Alphabetic characters and ASCII punctuation.
    AlphabeticOrPunctuation,
}

/// Whether `c` is one of the characters `sep` splits at.
pub open spec fn separates(sep: Separator, c: char) -> bool {
    match sep {
        Separator::Numeric => numeric(c),
        Separator::Alphabetic => alphabetic(c),
        Separator::AlphabeticOrPunctuation => alphabetic(c) || is_ascii_punctuation(c),
    }
}

fn separates_char(sep: Separator, c: char) -> (r: bool)
    ensures
        r == separates(sep, c),
{
    match sep {
        Separator::Numeric => is_numeric_char(c),
        Separator::Alphabetic => is_alphabetic_char(c),
        Separator::AlphabeticOrPunctuation => is_alphabetic_char(c) || is_ascii_punctuation_char(c),
    }
}

/// The positions `[start, end)` of the maximal nonempty runs of characters
/// that `sep` does not split at: what `split(sep)` keeps after dropping the
/// empty pieces.
pub open spec fn token_ranges(s: Seq<char>, sep: Separator) -> Seq<(int, int)>
    decreases s.len(),
{
    if s.len() == 0 {
        Seq::empty()
    } else {
        let t = token_ranges(s.drop_last(), sep);
        let n = s.len() as int;
        if separates(sep, s[n - 1]) {
            t
        } else if n >= 2 && !separates(sep, s[n - 2]) {
            t.update(t.len() - 1, (t.last().0, n))
        } else {
            t.push((n - 1, n))
        }
    }
}

/// The characters of one run.
pub open spec fn token(s: Seq<char>, r: (int, int)) -> Seq<char> {
    s.subrange(r.0, r.1)
}

/// Whether the positions in `v` are those of `t`.
pub open spec fn same_ranges(v: Seq<(usize, usize)>, t: Seq<(int, int)>) -> bool {
    v.len() == t.len() && forall|k: int| 0 <= k < v.len() ==> (#[trigger] v[k]).0 == t[k].0 && v[k].1 == t[k].1
}

/// Finds the runs of characters that `sep` does not split at.
fn find_tokens(s: &[char], sep: Separator) -> (r: Vec<(usize, usize)>)
    ensures
        same_ranges(r@, token_ranges(s@, sep)),
        forall|k: int| 0 <= k < r@.len() ==> (#[trigger] r@[k]).0 < r@[k].1 <= s@.len(),
{
    let mut ranges: Vec<(usize, usize)> = Vec::new();
    let mut i: usize = 0;
    assert(s@.take(0) =~= Seq::<char>::empty());
    while i < s.len()
        invariant
            0 <= i <= s@.len(),
            same_ranges(ranges@, token_ranges(s@.take(i as int), sep)),
            forall|k: int| 0 <= k < ranges@.len() ==> (#[trigger] ranges@[k]).0 < ranges@[k].1 <= i,
            i > 0 && !separates(sep, s@[i - 1]) ==> ranges@.len() > 0 && ranges@.last().1 == i,
        decreases s.len() - i,
    {
        let c = s[i];
        let ghost before = ranges@;
        assert(s@.take(i + 1).drop_last() =~= s@.take(i as int));
        assert(s@.take(i + 1)[i as int] == c);
        if !separates_char(sep, c) {
            if i > 0 && !separates_char(sep, s[i - 1]) {
                assert(s@.take(i + 1)[i - 1] == s@[i - 1]);
                let last = ranges.len() - 1;
                let (a, _) = ranges[last];
                ranges.set(last, (a, i + 1));
            } else {
                if i > 0 {
                    assert(s@.take(i + 1)[i - 1] == s@[i - 1]);
                }
                ranges.push((i, i + 1));
            }
        }
        i = i + 1;
    }
    assert(s@.take(s@.len() as int) =~= s@);
    ranges
}

// ----------------------------------------------------------------------------
// Numbers
// ----------------------------------------------------------------------------

/// The value of an ASCII digit.
pub open spec fn digit_value(c: char) -> nat {
    (c as int - '0' as int) as nat
}

/// The value of a string of decimal digits.
pub open spec fn digits_value(d: Seq<char>) -> nat
    decreases d.len(),
{
    if d.len() == 0 {
        0
    } else {
        digits_value(d.drop_last()) * 10 + digit_value(d.last())
    }
}

/// Every character is an ASCII digit.
pub open spec fn all_digits(d: Seq<char>) -> bool {
    forall|i: int| 0 <= i < d.len() ==> is_ascii_digit(#[trigger] d[i])
}

/// The digits of a number as `usize::from_str` reads it: an optional leading
/// `+` (not alone) is skipped.
pub open spec fn decimal_digits(s: Seq<char>) -> Seq<char> {
    if s.len() >= 2 && s[0] == '+' {
        s.drop_first()
    } else {
        s
    }
}

/// The number `usize::from_str` reads from the characters: one or more ASCII
/// digits after an optional `+`, whose value fits in a `usize`.
pub open spec fn parse_usize(s: Seq<char>) -> Option<usize> {
    let d = decimal_digits(s);
    if d.len() > 0 && all_digits(d) && digits_value(d) <= usize::MAX {
        Some(digits_value(d) as usize)
    } else {
        None
    }
}

/// Reads a number from the characters `s[a..b]` as `usize::from_str` does.
fn parse_usize_range(s: &[char], a: usize, b: usize) -> (r: Option<usize>)
    requires
        a <= b <= s@.len(),
    ensures
        r == parse_usize(s@.subrange(a as int, b as int)),
{
    let ghost w = s@.subrange(a as int, b as int);
    let mut start = a;
    if b - a >= 2 && s[a] == '+' {
        start = a + 1;
        assert(w.drop_first() =~= s@.subrange(start as int, b as int));
    } else {
        if b - a >= 2 {
            assert(w[0] == s@[a as int]);
        }
    }
    let ghost d = s@.subrange(start as int, b as int);
    assert(decimal_digits(w) == d);
    if start == b {
        return None;
    }
    let mut value: usize = 0;
    let mut overflow = false;
    let mut i = start;
    assert(d.take(0) =~= Seq::<char>::empty());
    while i < b
        invariant
            a <= start <= i <= b <= s@.len(),
            start < b,
            d == s@.subrange(start as int, b as int),
            d == decimal_digits(s@.subrange(a as int, b as int)),
            all_digits(d.take(i - start)),
            !overflow ==> value == digits_value(d.take(i - start)),
            overflow ==> digits_value(d.take(i - start)) > usize::MAX,
        decreases b - i,
    {
        let c = s[i];
        assert(d[i - start] == c);
        if !('0' <= c && c <= '9') {
            assert(!all_digits(d));
            return None;
        }
        let digit: usize = (c as u32 - '0' as u32) as usize;
        assert(d.take(i - start + 1).drop_last() =~= d.take(i - start));
        assert(d.take(i - start + 1).last() == c);
        if !overflow {
            match value.checked_mul(10) {
                Some(v) => match v.checked_add(digit) {
                    Some(x) => {
                        value = x;
                    },
                    None => {
                        overflow = true;
                    },
                },
                None => {
                    overflow = true;
                },
            }
        }
        i = i + 1;
    }
    assert(d.take(d.len() as int) =~= d);
    if overflow {
        None
    } else {
        Some(value)
    }
}

/// The ASCII digit for a value below ten.
pub open spec fn digit_char(d: nat) -> char {
    if d == 0 {
        '0'
    } else if d == 1 {
        '1'
    } else if d == 2 {
        '2'
    } else if d == 3 {
        '3'
    } else if d == 4 {
        '4'
    } else if d == 5 {
        '5'
    } else if d == 6 {
        '6'
    } else if d == 7 {
        '7'
    } else if d == 8 {
        '8'
    } else {
        '9'
    }
}

/// The decimal form of a number, without leading zeros.
pub open spec fn decimal(n: nat) -> Seq<char>
    decreases n,
{
    if n < 10 {
        seq![digit_char(n)]
    } else {
        decimal(n / 10).push(digit_char(n % 10))
    }
}

/// Appends the decimal form of `n` to `s`.
fn push_decimal(s: &mut String, n: usize)
    ensures
        final(s)@ == old(s)@ + decimal(n as nat),
    decreases n,
{
    if n >= 10 {
        push_decimal(s, n / 10);
    }
    let d = n % 10;
    let c = if d == 0 {
        '0'
    } else if d == 1 {
        '1'
    } else if d == 2 {
        '2'
    } else if d == 3 {
        '3'
    } else if d == 4 {
        '4'
    } else if d == 5 {
        '5'
    } else if d == 6 {
        '6'
    } else if d == 7 {
        '7'
    } else if d == 8 {
        '8'
    } else {
        '9'
    };
    push_char(s, c);
    assert(c == digit_char((n % 10) as nat));
    if n >= 10 {
        assert(decimal(n as nat) == decimal((n / 10) as nat).push(c));
    } else {
        assert(decimal(n as nat) =~= seq![c]);
    }
}

// ----------------------------------------------------------------------------
// Printing
// ----------------------------------------------------------------------------

/// The entries written one after the other: spin in decimal, then the symbol.
pub open spec fn print_entries<T: SingleOperator>(s: Seq<(usize, T)>) -> Seq<char>
    decreases s.len(),
{
    if s.len() == 0 {
        Seq::empty()
    } else {
        print_entries(s.drop_last()) + decimal(s.last().0 as nat) + s.last().1.symbol()
    }
}

/// The string form of a product: `I` when it is empty, else its entries written out.
pub open spec fn print_items<T: SingleOperator>(s: Seq<(usize, T)>) -> Seq<char> {
    if s.len() == 0 {
        seq!['I']
    } else {
        print_entries(s)
    }
}

/// Writes a product in its string form.
pub fn items_to_string<T: SingleOperator>(s: &[(usize, T)]) -> (r: String)
    ensures
        r@ == print_items(s@),
{
    let mut out = String::new();
    if s.len() == 0 {
        push_char(&mut out, 'I');
        assert(out@ =~= seq!['I']);
        return out;
    }
    let mut i: usize = 0;
    assert(s@.take(0) =~= Seq::<(usize, T)>::empty());
    while i < s.len()
        invariant
            0 <= i <= s@.len(),
            out@ == print_entries(s@.take(i as int)),
        decreases s.len() - i,
    {
        let (k, op) = s[i];
        push_decimal(&mut out, k);
        op.push_symbol(&mut out);
        assert(s@.take(i + 1).drop_last() =~= s@.take(i as int));
        assert(s@.take(i + 1).last() == (k, op));
        i = i + 1;
    }
    assert(s@.take(s@.len() as int) =~= s@);
    out
}

// ----------------------------------------------------------------------------
// Parsing
// ----------------------------------------------------------------------------

/// How reading a product failed: a missing index at the start (0), an index
/// that is not a number (1, with the index), an unknown symbol (2, with the
/// symbol), or a spin given twice (3).
pub type ParseFailure = (nat, Seq<char>);

/// Reads the pairs of index and symbol runs, in order, until one of the two
/// lists ends; identities are dropped. Fails at the first bad index or symbol.
pub open spec fn parse_pairs<T: SingleOperator>(
    s: Seq<char>,
    idx: Seq<(int, int)>,
    ops: Seq<(int, int)>,
) -> Result<Seq<(usize, T)>, ParseFailure>
    decreases idx.len(),
{
    if idx.len() == 0 || ops.len() == 0 {
        Ok(Seq::empty())
    } else {
        let itok = token(s, idx[0]);
        let otok = token(s, ops[0]);
        match parse_usize(itok) {
            None => Err((1nat, itok)),
            Some(n) => match T::parse_symbol(otok) {
                None => Err((2nat, otok)),
                Some(op) => match parse_pairs::<T>(s, idx.drop_first(), ops.drop_first()) {
                    Err(e) => Err(e),
                    Ok(rest) => Ok(
                        if op.spec_is_identity() {
                            rest
                        } else {
                            seq![(n, op)] + rest
                        },
                    ),
                },
            },
        }
    }
}

/// The entries `acc` put before the result of reading the rest.
pub open spec fn prepend<T>(acc: Seq<(usize, T)>, r: Result<Seq<(usize, T)>, ParseFailure>) -> Result<Seq<(usize, T)>, ParseFailure> {
    match r {
        Ok(rest) => Ok(acc + rest),
        Err(e) => Err(e),
    }
}

/// Reading a product from its characters. A spin given twice is refused.
/// `strict` products (Pauli and plus/minus) also take the empty string for
/// the identity and need a numeric first character; `punct` products split
/// their indices at ASCII punctuation as well as at letters.
pub open spec fn parse_items_spec<T: SingleOperator>(
    c: Seq<char>,
    strict: bool,
    punct: bool,
) -> Result<Seq<(usize, T)>, ParseFailure> {
    if (c.len() == 1 && c[0] == 'I') || (strict && c.len() == 0) {
        Ok(Seq::empty())
    } else if strict && !numeric(c[0]) {
        Err((0nat, c))
    } else {
        let idx_sep = if punct { Separator::AlphabeticOrPunctuation } else { Separator::Alphabetic };
        match parse_pairs::<T>(c, token_ranges(c, idx_sep), token_ranges(c, Separator::Numeric)) {
            Err(f) => Err(f),
            Ok(e) => if !index_increasing(sort_by_index(e)) {
                Err((3nat, Seq::empty()))
            } else {
                Ok(sort_by_index(e))
            },
        }
    }
}

/// The error that stands for a parse failure, for a product type called `name`
/// read from `input`.
pub open spec fn error_for(e: StruqtureError, f: ParseFailure, name: Seq<char>, input: Seq<char>) -> bool {
    if f.0 == 2 {
        e matches StruqtureError::IncorrectPauliEntry { pauli } && pauli@ == f.1
    } else {
        e matches StruqtureError::FromStringFailed { msg } && msg@ == if f.0 == 0 {
            "Missing spin index in the following "@ + name + ": "@ + input
        } else if f.0 == 1 {
            "Using "@ + f.1 + " instead of unsigned integer as spin index"@
        } else {
            "At least one spin index is used more than once."@
        }
    }
}

/// Reads a product from a string; see `parse_items_spec`.
pub fn parse_items<T: SingleOperator>(s: &str, strict: bool, punct: bool, name: &str) -> (r: Result<Vec<(usize, T)>, StruqtureError>)
    ensures
        match parse_items_spec::<T>(s@, strict, punct) {
            Ok(v) => r is Ok && r->Ok_0@ == v,
            Err(f) => r is Err && error_for(r->Err_0, f, name@, s@),
        },
{
    let c = chars_of(s);
    if (c.len() == 1 && c[0] == 'I') || (strict && c.len() == 0) {
        return Ok(Vec::new());
    }
    if strict && !is_numeric_char(c[0]) {
        let mut msg = String::from_str("Missing spin index in the following ");
        msg.append(name);
        msg.append(": ");
        msg.append(s);
        return Err(StruqtureError::FromStringFailed { msg });
    }
    let idx_sep = if punct { Separator::AlphabeticOrPunctuation } else { Separator::Alphabetic };
    let idx = find_tokens(c.as_slice(), idx_sep);
    let ops = find_tokens(c.as_slice(), Separator::Numeric);
    let ghost tidx = token_ranges(c@, idx_sep);
    let ghost tops = token_ranges(c@, Separator::Numeric);
    let mut entries: Vec<(usize, T)> = Vec::new();
    let mut j: usize = 0;
    assert(tidx.skip(0) =~= tidx);
    assert(tops.skip(0) =~= tops);
    assert(entries@ + Seq::<(usize, T)>::empty() =~= entries@);
    while j < idx.len() && j < ops.len()
        invariant
            c@ == s@,
            !((c@.len() == 1 && c@[0] == 'I') || (strict && c@.len() == 0)),
            !(strict && !numeric(c@[0])),
            idx_sep == (if punct { Separator::AlphabeticOrPunctuation } else { Separator::Alphabetic }),
            tidx == token_ranges(c@, idx_sep),
            tops == token_ranges(c@, Separator::Numeric),
            0 <= j <= idx@.len(),
            j <= ops@.len(),
            same_ranges(idx@, tidx),
            same_ranges(ops@, tops),
            forall|k: int| 0 <= k < idx@.len() ==> (#[trigger] idx@[k]).0 < idx@[k].1 <= c@.len(),
            forall|k: int| 0 <= k < ops@.len() ==> (#[trigger] ops@[k]).0 < ops@[k].1 <= c@.len(),
            parse_pairs::<T>(c@, tidx, tops) == prepend(entries@, parse_pairs::<T>(c@, tidx.skip(j as int), tops.skip(j as int))),
        decreases idx.len() - j,
    {
        let (ia, ib) = idx[j];
        let (oa, ob) = ops[j];
        assert(tidx.skip(j as int)[0] == tidx[j as int]);
        assert(tops.skip(j as int)[0] == tops[j as int]);
        assert(tidx.skip(j as int).drop_first() =~= tidx.skip(j + 1));
        assert(tops.skip(j as int).drop_first() =~= tops.skip(j + 1));
        match parse_usize_range(c.as_slice(), ia, ib) {
            None => {
                let mut msg = String::from_str("Using ");
                push_chars(&mut msg, c.as_slice(), ia, ib);
                msg.append(" instead of unsigned integer as spin index");
                return Err(StruqtureError::FromStringFailed { msg });
            },
            Some(n) => {
                let op_chars = vstd::slice::slice_subrange(c.as_slice(), oa, ob);
                match T::from_symbol(op_chars) {
                    None => {
                        let mut pauli = String::new();
                        push_chars(&mut pauli, c.as_slice(), oa, ob);
                        assert(pauli@ =~= c@.subrange(oa as int, ob as int));
                        return Err(StruqtureError::IncorrectPauliEntry { pauli });
                    },
                    Some(op) => {
                        let ghost old_entries = entries@;
                        if !op.is_identity() {
                            entries.push((n, op));
                        }
                        proof {
                            let rest = parse_pairs::<T>(c@, tidx.skip(j + 1), tops.skip(j + 1));
                            let here = parse_pairs::<T>(c@, tidx.skip(j as int), tops.skip(j as int));
                            assert(token(c@, tidx.skip(j as int)[0]) == c@.subrange(ia as int, ib as int));
                            assert(token(c@, tops.skip(j as int)[0]) == op_chars@);
                            match rest {
                                Ok(r) => {
                                    if op.spec_is_identity() {
                                        assert(here == Ok::<Seq<(usize, T)>, ParseFailure>(r));
                                        assert(prepend(old_entries, here) == prepend(entries@, rest));
                                    } else {
                                        assert(here == Ok::<Seq<(usize, T)>, ParseFailure>(seq![(n, op)] + r));
                                        assert(entries@ + r =~= old_entries + (seq![(n, op)] + r));
                                        assert(prepend(old_entries, here) == prepend(entries@, rest));
                                    }
                                },
                                Err(e) => {
                                    assert(here == Err::<Seq<(usize, T)>, ParseFailure>(e));
                                },
                            }
                        }
                    },
                }
            },
        }
        j = j + 1;
    }
    proof {
        if j == idx@.len() {
            assert(tidx.skip(j as int).len() == 0);
        } else {
            assert(tops.skip(j as int).len() == 0);
        }
        assert(entries@ + Seq::<(usize, T)>::empty() =~= entries@);
    }
    let ghost all_entries = entries@;
    let sorted = sort_items(entries);
    proof {
        crate::items::lemma_sort_by_index(all_entries);
    }
    let mut k: usize = 1;
    let mut increasing = true;
    while k < sorted.len() && increasing
        invariant
            1 <= k,
            crate::items::index_nondecreasing(sorted@),
            increasing ==> forall|a: int, b: int| 0 <= a < b < k && b < sorted@.len() ==> sorted@[a].0 < sorted@[b].0,
            !increasing ==> !index_increasing(sorted@),
        decreases sorted.len() - k + if increasing { 1int } else { 0int },
    {
        if !(sorted[k - 1].0 < sorted[k].0) {
            increasing = false;
        } else {
            assert forall|a: int, b: int| 0 <= a < b < k + 1 && b < sorted@.len() implies sorted@[a].0 < sorted@[b].0 by {
                if b == k && a < k - 1 {
                    assert(sorted@[a].0 <= sorted@[k - 1].0);
                }
            }
            k = k + 1;
        }
    }
    if !increasing {
        let msg = String::from_str("At least one spin index is used more than once.");
        return Err(StruqtureError::FromStringFailed { msg });
    }
    Ok(sorted)
}

/// Reading index/symbol pairs only ever yields operators that are not the identity.
proof fn lemma_parse_pairs_no_identity<T: SingleOperator>(s: Seq<char>, idx: Seq<(int, int)>, ops: Seq<(int, int)>)
    ensures
        parse_pairs::<T>(s, idx, ops) matches Ok(e) ==> crate::items::no_identity(e),
    decreases idx.len(),
{
    if idx.len() > 0 && ops.len() > 0 {
        lemma_parse_pairs_no_identity::<T>(s, idx.drop_first(), ops.drop_first());
        if let Ok(e) = parse_pairs::<T>(s, idx, ops) {
            let rest = parse_pairs::<T>(s, idx.drop_first(), ops.drop_first());
            if let Ok(r) = rest {
                assert forall|i: int| 0 <= i < e.len() implies !(#[trigger] e[i]).1.spec_is_identity() by {
                    if e.len() > r.len() && i > 0 {
                        assert(e[i] == r[i - 1]);
                    }
                }
            }
        }
    }
}

/// A product read from a string is well-formed and has no spin twice.
pub proof fn lemma_parse_items_wf<T: SingleOperator>(c: Seq<char>, strict: bool, punct: bool)
    ensures
        parse_items_spec::<T>(c, strict, punct) matches Ok(v) ==> crate::items::items_wf(v) && index_increasing(v),
{
    let idx_sep = if punct { Separator::AlphabeticOrPunctuation } else { Separator::Alphabetic };
    lemma_parse_pairs_no_identity::<T>(c, token_ranges(c, idx_sep), token_ranges(c, Separator::Numeric));
    if let Ok(e) = parse_pairs::<T>(c, token_ranges(c, idx_sep), token_ranges(c, Separator::Numeric)) {
        crate::items::lemma_sort_no_identity(e);
    }
}

// ----------------------------------------------------------------------------
// Reading back what was written
// ----------------------------------------------------------------------------

/// The value of a digit written for a value below ten is that value.
proof fn lemma_digit_char(d: nat)
    requires
        d < 10,
    ensures
        is_ascii_digit(digit_char(d)),
        digit_value(digit_char(d)) == d,
{
}

/// A spin is written in canonical decimal, as `usize` formatting writes it:
/// a nonempty run of ASCII digits whose value is the number, with no leading
/// zero (`0` alone for zero). These are the only digits that give the number.
pub proof fn lemma_decimal_canonical(n: nat)
    ensures
        decimal(n).len() > 0,
        all_digits(decimal(n)),
        digits_value(decimal(n)) == n,
        n == 0 ==> decimal(n) == seq!['0'],
        n > 0 ==> decimal(n)[0] != '0',
    decreases n,
{
    lemma_decimal(n);
    if n >= 10 {
        lemma_decimal_canonical(n / 10);
        assert(decimal(n)[0] == decimal(n / 10)[0]);
    } else {
        lemma_digit_char(n);
        assert(digit_value('0') == 0);
    }
}

/// The decimal form of a number is a nonempty run of ASCII digits whose
/// value is the number.
proof fn lemma_decimal(n: nat)
    ensures
        decimal(n).len() > 0,
        all_digits(decimal(n)),
        digits_value(decimal(n)) == n,
    decreases n,
{
    lemma_digit_char(n % 10);
    let e = decimal(n);
    if n >= 10 {
        lemma_decimal(n / 10);
        let d = decimal(n / 10);
        assert(e == d.push(digit_char(n % 10)));
        assert(e.drop_last() =~= d);
        assert(e.last() == digit_char(n % 10));
        assert(digits_value(e) == digits_value(d) * 10 + digit_value(e.last()));
        assert((n / 10) * 10 + n % 10 == n);
        assert forall|i: int| 0 <= i < e.len() implies is_ascii_digit(#[trigger] e[i]) by {
            if i < d.len() {
                assert(e[i] == d[i]);
            }
        }
    } else {
        assert(e == seq![digit_char(n)]);
        assert(e.drop_last() =~= Seq::<char>::empty());
        assert(digits_value(e) == digits_value(e.drop_last()) * 10 + digit_value(e.last()));
        assert(digits_value(Seq::<char>::empty()) == 0);
    }
}

/// `usize::from_str` reads a number back from its decimal form.
proof fn lemma_parse_decimal(n: usize)
    ensures
        parse_usize(decimal(n as nat)) == Some(n),
{
    lemma_decimal(n as nat);
    let d = decimal(n as nat);
    assert(is_ascii_digit(d[0]));
    assert(decimal_digits(d) == d);
}

/// Appending characters that `sep` splits at adds no run.
proof fn lemma_token_ranges_append_separators(s: Seq<char>, w: Seq<char>, sep: Separator)
    requires
        forall|i: int| 0 <= i < w.len() ==> separates(sep, #[trigger] w[i]),
    ensures
        token_ranges(s + w, sep) == token_ranges(s, sep),
    decreases w.len(),
{
    if w.len() == 0 {
        assert(s + w =~= s);
    } else {
        assert((s + w).drop_last() =~= s + w.drop_last());
        assert((s + w)[(s + w).len() - 1] == w[w.len() - 1]);
        lemma_token_ranges_append_separators(s, w.drop_last(), sep);
    }
}

/// Appending a nonempty word that `sep` does not split at, after a
/// character it splits at (or to nothing), adds one run: the word.
proof fn lemma_token_ranges_append_word(s: Seq<char>, w: Seq<char>, sep: Separator)
    requires
        w.len() > 0,
        forall|i: int| 0 <= i < w.len() ==> !separates(sep, #[trigger] w[i]),
        s.len() == 0 || separates(sep, s[s.len() - 1]),
    ensures
        token_ranges(s + w, sep) == token_ranges(s, sep).push((s.len() as int, (s.len() + w.len()) as int)),
    decreases w.len(),
{
    let n = (s + w).len() as int;
    assert((s + w).drop_last() =~= s + w.drop_last());
    assert((s + w)[n - 1] == w[w.len() - 1]);
    if w.len() == 1 {
        assert(s + w.drop_last() =~= s);
        if n >= 2 {
            assert((s + w)[n - 2] == s[s.len() - 1]);
        }
    } else {
        lemma_token_ranges_append_word(s, w.drop_last(), sep);
        assert((s + w)[n - 2] == w[w.len() - 2]);
    }
}

/// The runs `token_ranges` finds lie within the characters; when the last
/// character is not split at, the last run ends there.
proof fn lemma_token_ranges_bounds(s: Seq<char>, sep: Separator)
    ensures
        forall|k: int| 0 <= k < token_ranges(s, sep).len() ==>
            0 <= (#[trigger] token_ranges(s, sep)[k]).0 < token_ranges(s, sep)[k].1 <= s.len(),
        s.len() > 0 && !separates(sep, s[s.len() - 1]) ==>
            token_ranges(s, sep).len() > 0 && token_ranges(s, sep).last().1 == s.len(),
    decreases s.len(),
{
    if s.len() > 0 {
        let u = s.drop_last();
        let t = token_ranges(u, sep);
        lemma_token_ranges_bounds(u, sep);
        let r = token_ranges(s, sep);
        let n = s.len() as int;
        if separates(sep, s[n - 1]) {
            assert(r == t);
            assert forall|k: int| 0 <= k < r.len() implies 0 <= (#[trigger] r[k]).0 < r[k].1 <= s.len() by {
                assert(r[k] == t[k]);
            }
        } else if n >= 2 && !separates(sep, s[n - 2]) {
            assert(u[n - 2] == s[n - 2]);
            assert(r == t.update(t.len() - 1, (t.last().0, n)));
            assert forall|k: int| 0 <= k < r.len() implies 0 <= (#[trigger] r[k]).0 < r[k].1 <= s.len() by {
                assert(t[k].1 <= n - 1);
            }
        } else {
            assert(r == t.push((n - 1, n)));
            assert forall|k: int| 0 <= k < r.len() implies 0 <= (#[trigger] r[k]).0 < r[k].1 <= s.len() by {
                if k < t.len() {
                    assert(r[k] == t[k]);
                }
            }
        }
    }
}

/// When one run is added at the end, the earlier runs read as before.
proof fn lemma_tokens_extend(c0: Seq<char>, w: Seq<char>, sep: Separator, r: (int, int))
    requires
        token_ranges(c0 + w, sep) == token_ranges(c0, sep).push(r),
    ensures
        forall|i: int| 0 <= i < token_ranges(c0, sep).len() ==>
            token(c0 + w, #[trigger] token_ranges(c0 + w, sep)[i]) == token(c0, token_ranges(c0, sep)[i]),
{
    lemma_token_ranges_bounds(c0, sep);
    let t0 = token_ranges(c0, sep);
    assert forall|i: int| 0 <= i < t0.len() implies
        token(c0 + w, #[trigger] token_ranges(c0 + w, sep)[i]) == token(c0, t0[i]) by {
        assert(token_ranges(c0 + w, sep)[i] == t0[i]);
        lemma_token_prefix(c0, w, t0[i]);
    }
}

/// A run that lies within `s` reads the same in `s + w`.
proof fn lemma_token_prefix(s: Seq<char>, w: Seq<char>, r: (int, int))
    requires
        0 <= r.0 <= r.1 <= s.len(),
    ensures
        token(s + w, r) == token(s, r),
{
    assert(token(s + w, r) =~= token(s, r));
}

/// The characters of a symbol are not numeric.
proof fn lemma_symbol_not_numeric<T: SingleOperator>(op: T)
    ensures
        forall|i: int| 0 <= i < op.symbol().len() ==> !separates(Separator::Numeric, #[trigger] op.symbol()[i]),
{
    op.lemma_symbol(op);
}

/// A written nonempty product starts with a digit and ends with the last
/// character of its last symbol.
proof fn lemma_print_shape<T: SingleOperator>(s: Seq<(usize, T)>)
    requires
        s.len() > 0,
    ensures
        print_entries(s).len() > 0,
        is_ascii_digit(print_entries(s)[0]),
        print_entries(s)[print_entries(s).len() - 1] == s.last().1.symbol()[s.last().1.symbol().len() - 1],
    decreases s.len(),
{
    let u = s.drop_last();
    let c0 = print_entries(u);
    let d = decimal(s.last().0 as nat);
    let y = s.last().1.symbol();
    let c = c0 + d + y;
    lemma_decimal(s.last().0 as nat);
    s.last().1.lemma_symbol(s.last().1);
    assert(print_entries(s) == c);
    if u.len() == 0 {
        assert(c[0] == d[0]);
    } else {
        lemma_print_shape(u);
        assert(c[0] == c0[0]);
    }
}

/// In the split of a written product at the index separator `isep`, the runs
/// are the decimal forms of the spins, one per entry.
proof fn lemma_print_index_tokens<T: SingleOperator>(s: Seq<(usize, T)>, isep: Separator)
    requires
        isep != Separator::Numeric,
        forall|i: int, j: int| 0 <= i < s.len() && 0 <= j < s[i].1.symbol().len() ==> separates(isep, #[trigger] s[i].1.symbol()[j]),
    ensures
        token_ranges(print_entries(s), isep).len() == s.len(),
        forall|i: int| 0 <= i < s.len() ==> token(print_entries(s), #[trigger] token_ranges(print_entries(s), isep)[i]) == decimal(s[i].0 as nat),
    decreases s.len(),
{
    if s.len() > 0 {
        let u = s.drop_last();
        assert forall|i: int, j: int| 0 <= i < u.len() && 0 <= j < u[i].1.symbol().len() implies separates(isep, #[trigger] u[i].1.symbol()[j]) by {
            assert(u[i] == s[i]);
        }
        lemma_print_index_tokens(u, isep);
        let c0 = print_entries(u);
        let d = decimal(s.last().0 as nat);
        let y = s.last().1.symbol();
        let c1 = c0 + d;
        let c = c1 + y;
        assert(print_entries(s) == c);
        assert(c0 + (d + y) =~= c);
        lemma_decimal(s.last().0 as nat);
        s.last().1.lemma_symbol(s.last().1);
        if u.len() > 0 {
            lemma_print_shape(u);
            let i0 = u.len() - 1;
            let yl = u[i0].1.symbol();
            u[i0].1.lemma_symbol(u[i0].1);
            assert(s[i0] == u[i0]);
            assert(separates(isep, s[i0].1.symbol()[yl.len() - 1]));
        }
        assert forall|i: int| 0 <= i < d.len() implies !separates(isep, #[trigger] d[i]) by {
            assert(is_ascii_digit(d[i]));
        }
        lemma_token_ranges_append_word(c0, d, isep);
        assert forall|i: int| 0 <= i < y.len() implies separates(isep, #[trigger] y[i]) by {
            assert(s[s.len() - 1].1.symbol()[i] == y[i]);
        }
        lemma_token_ranges_append_separators(c1, y, isep);
        let t0 = token_ranges(c0, isep);
        let ti = token_ranges(c, isep);
        lemma_tokens_extend(c0, d + y, isep, (c0.len() as int, c1.len() as int));
        assert forall|i: int| 0 <= i < s.len() implies token(c, #[trigger] ti[i]) == decimal(s[i].0 as nat) by {
            if i < u.len() {
                assert(u[i] == s[i]);
            } else {
                assert(token(c, ti[i]) =~= d);
            }
        }
    }
}

/// The step of `lemma_print_symbol_tokens`: appending one entry adds one
/// run, its symbol, to the split at numeric characters.
proof fn lemma_print_symbol_step<T: SingleOperator>(c0: Seq<char>, k: usize, op: T)
    ensures
        ({
            let c = c0 + decimal(k as nat) + op.symbol();
            token_ranges(c, Separator::Numeric) == token_ranges(c0, Separator::Numeric).push(
                ((c0.len() + decimal(k as nat).len()) as int, c.len() as int))
            && token(c, token_ranges(c, Separator::Numeric).last()) == op.symbol()
        }),
{
    let d = decimal(k as nat);
    let y = op.symbol();
    let c1 = c0 + d;
    let c = c1 + y;
    lemma_decimal(k as nat);
    lemma_symbol_not_numeric(op);
    op.lemma_symbol(op);
    assert forall|i: int| 0 <= i < d.len() implies separates(Separator::Numeric, #[trigger] d[i]) by {
        assert(is_ascii_digit(d[i]));
    }
    lemma_token_ranges_append_separators(c0, d, Separator::Numeric);
    assert(c1[c1.len() - 1] == d[d.len() - 1]);
    assert(is_ascii_digit(d[d.len() - 1]));
    lemma_token_ranges_append_word(c1, y, Separator::Numeric);
    assert(token(c, ((c1.len()) as int, c.len() as int)) =~= y);
}

/// In the split of a written product at numeric characters, the runs are the
/// symbols, one per entry.
proof fn lemma_print_symbol_tokens<T: SingleOperator>(s: Seq<(usize, T)>)
    ensures
        token_ranges(print_entries(s), Separator::Numeric).len() == s.len(),
        forall|i: int| 0 <= i < s.len() ==> token(print_entries(s), #[trigger] token_ranges(print_entries(s), Separator::Numeric)[i]) == s[i].1.symbol(),
    decreases s.len(),
{
    if s.len() > 0 {
        let u = s.drop_last();
        lemma_print_symbol_tokens(u);
        let c0 = print_entries(u);
        let d = decimal(s.last().0 as nat);
        let y = s.last().1.symbol();
        let c = c0 + d + y;
        assert(print_entries(s) == c);
        assert(c0 + (d + y) =~= c);
        lemma_print_symbol_step(c0, s.last().0, s.last().1);
        lemma_tokens_extend(c0, d + y, Separator::Numeric, ((c0.len() + d.len()) as int, c.len() as int));
        let to = token_ranges(c, Separator::Numeric);
        assert forall|i: int| 0 <= i < s.len() implies token(c, #[trigger] to[i]) == s[i].1.symbol() by {
            if i < u.len() {
                assert(u[i] == s[i]);
            }
        }
    }
}

/// Reading index/symbol runs that each read back as an entry gives the entries.
proof fn lemma_parse_pairs_exact<T: SingleOperator>(
    c: Seq<char>,
    idx: Seq<(int, int)>,
    ops: Seq<(int, int)>,
    s: Seq<(usize, T)>,
)
    requires
        idx.len() == s.len(),
        ops.len() == s.len(),
        crate::items::no_identity(s),
        forall|i: int| 0 <= i < s.len() ==> parse_usize(token(c, #[trigger] idx[i])) == Some(s[i].0),
        forall|i: int| 0 <= i < s.len() ==> T::parse_symbol(token(c, #[trigger] ops[i])) == Some(s[i].1),
    ensures
        parse_pairs::<T>(c, idx, ops) == Ok::<Seq<(usize, T)>, ParseFailure>(s),
    decreases s.len(),
{
    if s.len() == 0 {
        assert(s =~= Seq::<(usize, T)>::empty());
    } else {
        let t = s.drop_first();
        let idx1 = idx.drop_first();
        let ops1 = ops.drop_first();
        assert forall|i: int| 0 <= i < t.len() implies parse_usize(token(c, #[trigger] idx1[i])) == Some(t[i].0) by {
            assert(idx1[i] == idx[i + 1]);
            assert(t[i] == s[i + 1]);
        }
        assert forall|i: int| 0 <= i < t.len() implies T::parse_symbol(token(c, #[trigger] ops1[i])) == Some(t[i].1) by {
            assert(ops1[i] == ops[i + 1]);
            assert(t[i] == s[i + 1]);
        }
        assert forall|i: int| 0 <= i < t.len() implies !(#[trigger] t[i]).1.spec_is_identity() by {
            assert(t[i] == s[i + 1]);
        }
        lemma_parse_pairs_exact::<T>(c, idx1, ops1, t);
        let (n, op) = s[0];
        assert(parse_usize(token(c, idx[0])) == Some(n));
        assert(T::parse_symbol(token(c, ops[0])) == Some(op));
        assert(!op.spec_is_identity());
        assert(seq![(n, op)] + t =~= s);
        assert(parse_pairs::<T>(c, idx, ops) == Ok::<Seq<(usize, T)>, ParseFailure>(seq![(n, op)] + t));
    }
}

/// Reading a product back from its string form gives the product, when the
/// symbols of its operators are split off the indices (`punct`, or symbols
/// made of letters) and no spin appears twice.
pub proof fn lemma_parse_print<T: SingleOperator>(s: Seq<(usize, T)>, strict: bool, punct: bool)
    requires
        crate::items::items_wf(s),
        index_increasing(s),
        forall|i: int, j: int| 0 <= i < s.len() && 0 <= j < s[i].1.symbol().len() ==>
            separates(if punct { Separator::AlphabeticOrPunctuation } else { Separator::Alphabetic }, #[trigger] s[i].1.symbol()[j]),
    ensures
        parse_items_spec::<T>(print_items(s), strict, punct) == Ok::<Seq<(usize, T)>, ParseFailure>(s),
{
    crate::items::lemma_sort_sorted(s);
    if s.len() == 0 {
        assert(print_items(s) == seq!['I']);
        assert(s =~= Seq::<(usize, T)>::empty());
    } else {
        let isep = if punct { Separator::AlphabeticOrPunctuation } else { Separator::Alphabetic };
        let c = print_entries(s);
        assert(print_items(s) == c);
        lemma_print_shape(s);
        lemma_print_index_tokens(s, isep);
        lemma_print_symbol_tokens(s);
        let ti = token_ranges(c, isep);
        let to = token_ranges(c, Separator::Numeric);
        assert forall|i: int| 0 <= i < s.len() implies parse_usize(token(c, #[trigger] ti[i])) == Some(s[i].0) by {
            lemma_parse_decimal(s[i].0);
        }
        assert forall|i: int| 0 <= i < s.len() implies T::parse_symbol(token(c, #[trigger] to[i])) == Some(s[i].1) by {
            s[i].1.lemma_symbol(s[i].1);
        }
        lemma_parse_pairs_exact::<T>(c, ti, to, s);
        assert(is_ascii_digit(c[0]));
        assert(numeric(c[0]));
        assert(!(c.len() == 1 && c[0] == 'I'));
    }
}

/// Reads a single-site operator from its symbol.
pub fn parse_single<T: SingleOperator>(s: &str) -> (r: Result<T, StruqtureError>)
    ensures
        match T::parse_symbol(s@) {
            Some(op) => r == Ok::<T, StruqtureError>(op),
            None => r matches Err(StruqtureError::IncorrectPauliEntry { pauli }) && pauli@ == s@,
        },
{
    let c = chars_of(s);
    match T::from_symbol(c.as_slice()) {
        Some(op) => Ok(op),
        None => Err(StruqtureError::IncorrectPauliEntry { pauli: String::from_str(s) }),
    }
}

/// Writes a single-site operator as its symbol.
pub fn single_to_string<T: SingleOperator>(op: &T) -> (r: String)
    ensures
        r@ == op.symbol(),
{
    let mut s = String::new();
    op.push_symbol(&mut s);
    assert(s@ =~= op.symbol());
    s
}

} // verus!
