//! The canonical form of a wallet address.
//!
//! The chain and the people who register wallets write the same address in
//! different ways: with or without the `0x` prefix, in either case, padded
//! with zeros or not. The canonical form is `0x0` and then the significant
//! digits in lower case. Two addresses are the same account exactly when
//! their canonical forms are equal.

use crate::text::{ascii_lower, ascii_lowercase, to_ascii_lowercase};
use vstd::prelude::*;
use vstd::string::*;

verus! {

/// Whether the text starts with `0x` or `0X`.
pub open spec fn has_hex_prefix(text: Seq<char>) -> bool {
    text.len() >= 2 && text[0] == '0' && (text[1] == 'x' || text[1] == 'X')
}

/// Where the digits begin: after the prefix, if there is one.
pub open spec fn body_start(text: Seq<char>) -> int {
    if has_hex_prefix(text) {
        2
    } else {
        0
    }
}

/// The first position at or after `from` that does not hold a zero digit,
/// or the length of the text if there is none.
pub open spec fn zero_run_end(text: Seq<char>, from: int) -> int
    decreases text.len() - from,
{
    if 0 <= from < text.len() && text[from] == '0' {
        zero_run_end(text, from + 1)
    } else {
        from
    }
}

/// Where the significant digits begin: after the prefix and the padding
/// zeros. An address of zeros only, or of nothing, has no significant
/// digit.
pub open spec fn digits_start(text: Seq<char>) -> int {
    zero_run_end(text, body_start(text))
}

/// The canonical form of an address: `0x0`, then its significant digits in
/// lower case.
pub open spec fn canonical_form(text: Seq<char>) -> Seq<char> {
    seq!['0', 'x', '0'] + ascii_lowercase(text.subrange(digits_start(text), text.len() as int))
}

/// Whether two addresses name the same account.
pub open spec fn same_account(a: Seq<char>, b: Seq<char>) -> bool {
    canonical_form(a) == canonical_form(b)
}

/// The run of zeros from `from` ends inside the text, holds only zeros, and
/// stops at the first other character.
pub proof fn lemma_zero_run(text: Seq<char>, from: int)
    requires
        0 <= from <= text.len(),
    ensures
        from <= zero_run_end(text, from) <= text.len(),
        forall|i: int| from <= i < zero_run_end(text, from) ==> text[i] == '0',
        zero_run_end(text, from) < text.len() ==> text[zero_run_end(text, from)] != '0',
    decreases text.len() - from,
{
    if from < text.len() && text[from] == '0' {
        lemma_zero_run(text, from + 1);
    }
}

/// The canonical form of an address.
pub fn canonical_address(address: &str) -> (canonical: String)
    ensures
        canonical@ == canonical_form(address@),
{
    let n = address.unicode_len();
    let mut start: usize = 0;
    if n >= 2 && address.get_char(0) == '0' {
        let second = address.get_char(1);
        if second == 'x' || second == 'X' {
            start = 2;
        }
    }
    let mut i = start;
    while i < n && address.get_char(i) == '0'
        invariant
            start <= i <= n,
            n == address@.len(),
            zero_run_end(address@, start as int) == zero_run_end(address@, i as int),
        decreases n - i,
    {
        i += 1;
    }
    let digits = address.substring_char(i, n);
    let lowered = to_ascii_lowercase(digits);
    let mut canonical = String::from_str("0x0");
    proof {
        reveal_strlit("0x0");
        assert("0x0"@ =~= seq!['0', 'x', '0']);
    }
    canonical.append(lowered.as_str());
    canonical
}

/// Whether two addresses name the same account.
pub fn addresses_match(a: &str, b: &str) -> (same: bool)
    ensures
        same == same_account(a@, b@),
{
    let x = canonical_address(a);
    let y = canonical_address(b);
    x == y
}

/// The run of zeros depends only on what follows `from`: two texts whose
/// tails are equal have runs of the same length.
pub proof fn lemma_zero_run_of_tail(a: Seq<char>, from_a: int, b: Seq<char>, from_b: int)
    requires
        0 <= from_a <= a.len(),
        0 <= from_b <= b.len(),
        a.subrange(from_a, a.len() as int) == b.subrange(from_b, b.len() as int),
    ensures
        zero_run_end(a, from_a) - from_a == zero_run_end(b, from_b) - from_b,
    decreases a.len() - from_a,
{
    let ta = a.subrange(from_a, a.len() as int);
    let tb = b.subrange(from_b, b.len() as int);
    assert(ta.len() == tb.len());
    if from_a < a.len() {
        assert(a[from_a] == ta[0]);
        assert(b[from_b] == tb[0]);
        if a[from_a] == '0' {
            assert(a.subrange(from_a + 1, a.len() as int) =~= ta.subrange(1, ta.len() as int));
            assert(b.subrange(from_b + 1, b.len() as int) =~= tb.subrange(1, tb.len() as int));
            lemma_zero_run_of_tail(a, from_a + 1, b, from_b + 1);
        }
    }
}

/// The run of zeros does not depend on the case of letters.
pub proof fn lemma_zero_run_ignores_case(a: Seq<char>, b: Seq<char>, from: int)
    requires
        0 <= from <= a.len(),
        ascii_lowercase(a) == ascii_lowercase(b),
    ensures
        zero_run_end(a, from) == zero_run_end(b, from),
    decreases a.len() - from,
{
    assert(a.len() == ascii_lowercase(a).len());
    assert(b.len() == ascii_lowercase(b).len());
    if from < a.len() {
        assert(ascii_lowercase(a)[from] == ascii_lower(a[from]));
        assert(ascii_lowercase(b)[from] == ascii_lower(b[from]));
        if a[from] == '0' || b[from] == '0' {
            lemma_zero_run_ignores_case(a, b, from + 1);
        }
    }
}

/// The canonical form of a canonical form is that form itself.
pub proof fn lemma_canonical_is_stable(text: Seq<char>)
    ensures
        canonical_form(canonical_form(text)) == canonical_form(text),
{
    lemma_zero_run(text, body_start(text));
    let from = digits_start(text);
    let digits = text.subrange(from, text.len() as int);
    let lowered = ascii_lowercase(digits);
    let c = canonical_form(text);
    assert(c.len() == 3 + lowered.len());
    assert(c[0] == '0' && c[1] == 'x' && c[2] == '0');
    assert(has_hex_prefix(c));
    if lowered.len() > 0 {
        // The first significant digit is no zero, in either case.
        assert(c[3] == lowered[0]);
        assert(lowered[0] == ascii_lower(digits[0]));
        assert(digits[0] == text[from]);
    }
    assert(zero_run_end(c, 3) == 3);
    assert(zero_run_end(c, 2) == 3);
    assert(c.subrange(3, c.len() as int) =~= lowered);
    assert(ascii_lowercase(lowered) =~= lowered);
}

/// A stored address that is written as the prefix `0x0` and then
/// significant digits in lower case is its own canonical form.
pub proof fn lemma_canonical_keeps_canonical_writing(digits: Seq<char>)
    requires
        digits.len() == 0 || digits[0] != '0',
        ascii_lowercase(digits) == digits,
    ensures
        canonical_form(seq!['0', 'x', '0'] + digits) == seq!['0', 'x', '0'] + digits,
{
    let text = seq!['0', 'x', '0'] + digits;
    assert(text[0] == '0' && text[1] == 'x' && text[2] == '0');
    assert(has_hex_prefix(text));
    if digits.len() > 0 {
        assert(text[3] == digits[0]);
    }
    assert(zero_run_end(text, 3) == 3);
    assert(zero_run_end(text, 2) == 3);
    assert(text.subrange(3, text.len() as int) =~= digits);
}

/// Case does not matter: two addresses that differ only in the case of
/// their letters, the `x` of the prefix included, have one canonical form.
pub proof fn lemma_canonical_ignores_case(a: Seq<char>, b: Seq<char>)
    requires
        ascii_lowercase(a) == ascii_lowercase(b),
    ensures
        same_account(a, b),
{
    let la = ascii_lowercase(a);
    let lb = ascii_lowercase(b);
    assert(a.len() == la.len() && b.len() == lb.len());
    assert forall|i: int| 0 <= i < a.len() implies ascii_lower(#[trigger] a[i]) == ascii_lower(
        b[i],
    ) by {
        assert(la[i] == ascii_lower(a[i]));
        assert(lb[i] == ascii_lower(b[i]));
    }
    if a.len() >= 2 {
        assert(ascii_lower(a[0]) == ascii_lower(b[0]));
        assert(ascii_lower(a[1]) == ascii_lower(b[1]));
    }
    assert(has_hex_prefix(a) == has_hex_prefix(b));
    lemma_zero_run_ignores_case(a, b, body_start(a));
    lemma_zero_run(a, body_start(a));
    let from = digits_start(a);
    assert(from == digits_start(b));
    let da = a.subrange(from, a.len() as int);
    let db = b.subrange(from, b.len() as int);
    assert forall|i: int| 0 <= i < da.len() implies ascii_lower(da[i]) == ascii_lower(db[i]) by {
        assert(da[i] == a[from + i]);
        assert(db[i] == b[from + i]);
    }
    assert(ascii_lowercase(da) =~= ascii_lowercase(db));
}

/// Padding does not matter: a zero put in right after the prefix of an
/// address leaves the canonical form as it was.
pub proof fn lemma_canonical_ignores_padding(text: Seq<char>)
    requires
        has_hex_prefix(text),
    ensures
        same_account(
            text.subrange(0, 2) + seq!['0'] + text.subrange(2, text.len() as int),
            text,
        ),
{
    let padded = text.subrange(0, 2) + seq!['0'] + text.subrange(2, text.len() as int);
    assert(padded.len() == text.len() + 1);
    assert(padded[0] == text[0] && padded[1] == text[1] && padded[2] == '0');
    assert(has_hex_prefix(padded));
    assert(padded.subrange(3, padded.len() as int) =~= text.subrange(2, text.len() as int));
    lemma_zero_run_of_tail(padded, 3, text, 2);
    lemma_zero_run(text, 2);
    assert(zero_run_end(padded, 2) == zero_run_end(padded, 3));
    assert(digits_start(padded) == digits_start(text) + 1);
    assert(padded.subrange(digits_start(padded), padded.len() as int) =~= text.subrange(
        digits_start(text),
        text.len() as int,
    ));
}

/// The prefix does not matter: an address written without it has the
/// canonical form of the same address written with it.
pub proof fn lemma_canonical_ignores_prefix(digits: Seq<char>)
    requires
        !has_hex_prefix(digits),
    ensures
        same_account(seq!['0', 'x'] + digits, digits),
{
    let prefixed = seq!['0', 'x'] + digits;
    assert(prefixed.len() == digits.len() + 2);
    assert(prefixed[0] == '0' && prefixed[1] == 'x');
    assert(has_hex_prefix(prefixed));
    assert(prefixed.subrange(2, prefixed.len() as int) =~= digits.subrange(0, digits.len() as int));
    lemma_zero_run_of_tail(prefixed, 2, digits, 0);
    lemma_zero_run(digits, 0);
    assert(digits_start(prefixed) == digits_start(digits) + 2);
    assert(prefixed.subrange(digits_start(prefixed), prefixed.len() as int) =~= digits.subrange(
        digits_start(digits),
        digits.len() as int,
    ));
}

} // verus!
