//! Character classes shared by the scanner, the parser and the virtual
//! machine, and the few `std` text operations they are built on.
//!
//! The classes follow Unicode. Within ASCII they are spelled out here; beyond
//! ASCII they are whatever `std`'s tables say, which this crate only names.

use vstd::prelude::*;
use vstd::std_specs::iter::IteratorSpec;

verus! {

/// What `char::is_alphabetic` returns for `c`.
pub uninterp spec fn unicode_alphabetic(c: char) -> bool;

/// What `char::is_alphanumeric` returns for `c`.
pub uninterp spec fn unicode_alphanumeric(c: char) -> bool;

/// What `char::is_whitespace` returns for `c`.
pub uninterp spec fn unicode_whitespace(c: char) -> bool;

/// Whether `c` is an ASCII character.
pub open spec fn is_ascii(c: char) -> bool {
    c <= '\x7f'
}

/// Whether `c` is one of `a-z` and `A-Z`.
pub open spec fn is_ascii_letter(c: char) -> bool {
    ('a' <= c && c <= 'z') || ('A' <= c && c <= 'Z')
}

/// Whether `c` is one of `0-9`.
pub open spec fn is_ascii_digit(c: char) -> bool {
    '0' <= c && c <= '9'
}

/// Whether `c` is a letter.
pub open spec fn is_alphabetic(c: char) -> bool {
    if is_ascii(c) {
        is_ascii_letter(c)
    } else {
        unicode_alphabetic(c)
    }
}

/// Whether `c` is a letter or a digit.
pub open spec fn is_alphanumeric(c: char) -> bool {
    if is_ascii(c) {
        is_ascii_letter(c) || is_ascii_digit(c)
    } else {
        unicode_alphanumeric(c)
    }
}

/// Whether `c` is white space.
pub open spec fn is_whitespace(c: char) -> bool {
    if is_ascii(c) {
        c == ' ' || ('\x09' <= c && c <= '\x0d')
    } else {
        unicode_whitespace(c)
    }
}

/// `char::is_alphabetic`. The result is the one `std` computes from the
/// Unicode `Alphabetic` property; for an ASCII character that is exactly the
/// letters `a-z` and `A-Z`.
#[verifier::external_body]
pub(crate) fn char_is_alphabetic(c: char) -> (b: bool)
    ensures
        b == unicode_alphabetic(c),
        b == is_alphabetic(c),
{
    c.is_alphabetic()
}

/// `char::is_alphanumeric`. The result is the one `std` computes from the
/// Unicode `Alphabetic` and numeric properties; for an ASCII character that
/// is exactly the letters and the digits `0-9`.
#[verifier::external_body]
pub(crate) fn char_is_alphanumeric(c: char) -> (b: bool)
    ensures
        b == unicode_alphanumeric(c),
        b == is_alphanumeric(c),
{
    c.is_alphanumeric()
}

/// `char::is_whitespace`. The result is the one `std` computes from the
/// Unicode `White_Space` property; for an ASCII character that is exactly the
/// space and the controls U+0009 to U+000D.
#[verifier::external_body]
pub(crate) fn char_is_whitespace(c: char) -> (b: bool)
    ensures
        b == unicode_whitespace(c),
        b == is_whitespace(c),
{
    c.is_whitespace()
}

/// `String::push` appends one character.
pub assume_specification[ String::push ](s: &mut String, c: char)
    ensures
        final(s)@ == old(s)@.push(c),
;

/// The characters of `s`, in order.
pub fn to_chars(s: &str) -> (v: Vec<char>)
    ensures
        v@ == s@,
{
    let mut v: Vec<char> = Vec::new();
    let mut it = s.chars();
    let ghost n: int = 0;
    loop
        invariant
            it.obeys_prophetic_iter_laws(),
            0 <= n <= s@.len(),
            it.remaining() == s@.skip(n),
            v@ == s@.take(n),
        decreases s@.len() - n,
    {
        match it.next() {
            Some(c) => {
                v.push(c);
                proof {
                    n = n + 1;
                }
            },
            None => {
                return v;
            },
        }
    }
}

/// Whether `s` begins with a letter.
pub fn starts_with_letter(s: &str) -> (b: bool)
    ensures
        b == (s@.len() > 0 && is_alphabetic(s@[0])),
{
    let mut it = s.chars();
    match it.next() {
        Some(c) => char_is_alphabetic(c),
        None => false,
    }
}

/// How many characters at the front of `s` satisfy `class`.
pub open spec fn prefix_len(s: Seq<char>, class: spec_fn(char) -> bool) -> nat
    decreases s.len(),
{
    if s.len() == 0 || !class(s[0]) {
        0
    } else {
        1 + prefix_len(s.skip(1), class)
    }
}

/// `prefix_len` is the one index that closes a maximal run of `class` at the
/// front of `s`.
pub proof fn lemma_prefix_len(s: Seq<char>, class: spec_fn(char) -> bool, n: int)
    requires
        0 <= n <= s.len(),
        forall|k: int| 0 <= k < n ==> class(#[trigger] s[k]),
        n == s.len() || !class(s[n]),
    ensures
        prefix_len(s, class) == n,
    decreases s.len(),
{
    if n > 0 {
        let t = s.skip(1);
        assert forall|k: int| 0 <= k < n - 1 implies class(#[trigger] t[k]) by {
            assert(t[k] == s[k + 1]);
        }
        lemma_prefix_len(t, class, n - 1);
    }
}

/// The run that `prefix_len` measures lies within `s`, holds only characters
/// of `class`, and cannot be extended.
pub proof fn lemma_prefix_len_bounds(s: Seq<char>, class: spec_fn(char) -> bool)
    ensures
        prefix_len(s, class) <= s.len(),
        forall|k: int| 0 <= k < prefix_len(s, class) ==> class(#[trigger] s[k]),
        prefix_len(s, class) < s.len() ==> !class(s[prefix_len(s, class) as int]),
    decreases s.len(),
{
    if s.len() > 0 && class(s[0]) {
        let t = s.skip(1);
        lemma_prefix_len_bounds(t, class);
        assert forall|k: int| 0 <= k < prefix_len(s, class) implies class(#[trigger] s[k]) by {
            if k > 0 {
                assert(s[k] == t[k - 1]);
            }
        }
    }
}

} // verus!
