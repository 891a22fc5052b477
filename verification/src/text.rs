//! Text operations that the rest of the crate shares.
//!
//! Lower case by the rules of Unicode is a call into the standard library,
//! which the verifier has no description of: the function makes its one
//! call, names the result, and is taken on trust. Lower case of the ASCII
//! letters is done and proved here.

use vstd::prelude::*;
use vstd::string::*;

verus! {

/// The ASCII lower-case letter for an ASCII upper-case letter; any other
/// character as it is.
pub open spec fn ascii_lower(c: char) -> char {
    if 'A' <= c && c <= 'Z' {
        ((c as u32) + 32) as char
    } else {
        c
    }
}

/// A text with each character mapped by [`ascii_lower`].
pub open spec fn ascii_lowercase(text: Seq<char>) -> Seq<char> {
    Seq::new(text.len(), |i: int| ascii_lower(text[i]))
}

/// The lower-case equivalent of a text by the rules of Unicode, which are
/// too long to state here: what `str::to_lowercase` returns for it.
pub uninterp spec fn lowercase(text: Seq<char>) -> Seq<char>;

/// The ASCII lower-case letter for an ASCII upper-case letter, as a text
/// of one character; nothing for any other character.
fn lower_letter(c: char) -> (letter: Option<&'static str>)
    ensures
        match letter {
            Some(l) => 'A' <= c && c <= 'Z' && l@ == seq![ascii_lower(c)],
            None => !('A' <= c && c <= 'Z'),
        },
{
    proof {
        reveal_strlit("a");
        reveal_strlit("b");
        reveal_strlit("c");
        reveal_strlit("d");
        reveal_strlit("e");
        reveal_strlit("f");
        reveal_strlit("g");
        reveal_strlit("h");
        reveal_strlit("i");
        reveal_strlit("j");
        reveal_strlit("k");
        reveal_strlit("l");
        reveal_strlit("m");
        reveal_strlit("n");
        reveal_strlit("o");
        reveal_strlit("p");
        reveal_strlit("q");
        reveal_strlit("r");
        reveal_strlit("s");
        reveal_strlit("t");
        reveal_strlit("u");
        reveal_strlit("v");
        reveal_strlit("w");
        reveal_strlit("x");
        reveal_strlit("y");
        reveal_strlit("z");
    }
    let letter: Option<&'static str> = if c == 'A' {
        Some("a")
    } else if c == 'B' {
        Some("b")
    } else if c == 'C' {
        Some("c")
    } else if c == 'D' {
        Some("d")
    } else if c == 'E' {
        Some("e")
    } else if c == 'F' {
        Some("f")
    } else if c == 'G' {
        Some("g")
    } else if c == 'H' {
        Some("h")
    } else if c == 'I' {
        Some("i")
    } else if c == 'J' {
        Some("j")
    } else if c == 'K' {
        Some("k")
    } else if c == 'L' {
        Some("l")
    } else if c == 'M' {
        Some("m")
    } else if c == 'N' {
        Some("n")
    } else if c == 'O' {
        Some("o")
    } else if c == 'P' {
        Some("p")
    } else if c == 'Q' {
        Some("q")
    } else if c == 'R' {
        Some("r")
    } else if c == 'S' {
        Some("s")
    } else if c == 'T' {
        Some("t")
    } else if c == 'U' {
        Some("u")
    } else if c == 'V' {
        Some("v")
    } else if c == 'W' {
        Some("w")
    } else if c == 'X' {
        Some("x")
    } else if c == 'Y' {
        Some("y")
    } else if c == 'Z' {
        Some("z")
    } else {
        None
    };
    match letter {
        Some(l) => {
            assert(l@ =~= seq![ascii_lower(c)]);
        },
        None => {},
    }
    letter
}

/// A copy of the text with the letters `A` to `Z` replaced by `a` to `z`
/// and every other character unchanged.
pub fn to_ascii_lowercase(text: &str) -> (lower: String)
    ensures
        lower@ == ascii_lowercase(text@),
{
    let n = text.unicode_len();
    let mut lower = String::new();
    let mut i: usize = 0;
    while i < n
        invariant
            i <= n,
            n == text@.len(),
            lower@ == ascii_lowercase(text@.take(i as int)),
        decreases n - i,
    {
        let ghost before = lower@;
        let c = text.get_char(i);
        match lower_letter(c) {
            Some(letter) => {
                lower.append(letter);
            },
            None => {
                lower.append(text.substring_char(i, i + 1));
            },
        }
        i += 1;
        assert(lower@ =~= ascii_lowercase(text@.take(i as int))) by {
            assert(lower@ =~= before + seq![ascii_lower(c)]);
            assert(text@.take(i as int).len() == i);
            assert forall|k: int| 0 <= k < i implies lower@[k] == ascii_lower(
                text@.take(i as int)[k],
            ) by {
                if k < i - 1 {
                    assert(lower@[k] == before[k]);
                    assert(before[k] == ascii_lower(text@.take(i - 1)[k]));
                }
            }
        }
    }
    assert(text@.take(n as int) =~= text@);
    lower
}

/// Calls `str::to_lowercase`, which returns the lower-case equivalent of the
/// text as Unicode defines it. The result depends on the text alone.
#[verifier::external_body]
pub(crate) fn to_lowercase(text: &str) -> (lower: String)
    ensures
        lower@ == lowercase(text@),
{
    text.to_lowercase()
}

/// Whether two texts hold the same characters.
pub fn same_text(a: &str, b: &str) -> (same: bool)
    ensures
        same == (a@ == b@),
{
    let x = a.to_owned();
    let y = b.to_owned();
    x == y
}

} // verus!
