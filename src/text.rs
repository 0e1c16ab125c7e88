//! Character classes and small scanning helpers shared by the parsers.

use vstd::prelude::*;
use vstd::std_specs::iter::IteratorSpec;

verus! {

broadcast use vstd::string::group_string_axioms;

/// The characters that `char::is_whitespace` accepts: Unicode's `White_Space` property.
pub open spec fn is_space(c: char) -> bool {
    ('\u{9}' <= c && c <= '\u{d}') || c == ' ' || c == '\u{85}' || c == '\u{a0}' || c
        == '\u{1680}' || ('\u{2000}' <= c && c <= '\u{200a}') || c == '\u{2028}' || c
        == '\u{2029}' || c == '\u{202f}' || c == '\u{205f}' || c == '\u{3000}'
}

/// Tests a character for whitespace.
pub fn space_char(c: char) -> (r: bool)
    ensures
        r == is_space(c),
{
    ('\u{9}' <= c && c <= '\u{d}') || c == ' ' || c == '\u{85}' || c == '\u{a0}' || c
        == '\u{1680}' || ('\u{2000}' <= c && c <= '\u{200a}') || c == '\u{2028}' || c
        == '\u{2029}' || c == '\u{202f}' || c == '\u{205f}' || c == '\u{3000}'
}

/// What `char::is_alphanumeric` answers for a character.
pub uninterp spec fn alnum(c: char) -> bool;

/// Relies on `char::is_alphanumeric`: whether a character is alphabetic or numeric
/// depends on the character alone.
#[verifier::external_body]
fn alphanumeric(c: char) -> (r: bool)
    ensures
        r == alnum(c),
{
    c.is_alphanumeric()
}

/// ASCII letters and digits.
pub open spec fn is_ascii_alnum(c: char) -> bool {
    ('a' <= c && c <= 'z') || ('A' <= c && c <= 'Z') || ('0' <= c && c <= '9')
}

/// Word characters: letters, digits and the underscore; never whitespace.
pub open spec fn is_word(c: char) -> bool {
    if (c as u32) < 128 {
        is_ascii_alnum(c) || c == '_'
    } else {
        !is_space(c) && alnum(c)
    }
}

/// Tests a character for being a word character.
pub fn word_char(c: char) -> (r: bool)
    ensures
        r == is_word(c),
{
    if (c as u32) < 128 {
        ('a' <= c && c <= 'z') || ('A' <= c && c <= 'Z') || ('0' <= c && c <= '9') || c == '_'
    } else {
        !space_char(c) && alphanumeric(c)
    }
}

/// The classes of characters over which the parsers skip.
#[derive(Clone, Copy, Debug, PartialEq, Eq, Structural)]
pub enum CharClass {
    Space,
    NonSpace,
    Word,
    NotQuote,
    NotCloseBracket,
}

pub open spec fn in_class(k: CharClass, c: char) -> bool {
    match k {
        CharClass::Space => is_space(c),
        CharClass::NonSpace => !is_space(c),
        CharClass::Word => is_word(c),
        CharClass::NotQuote => c != '"',
        CharClass::NotCloseBracket => c != ']',
    }
}

/// The first position at or after `i` whose character is outside class `k`,
/// or the length of `s` when there is none.
pub open spec fn skip_class(s: Seq<char>, i: int, k: CharClass) -> int
    decreases s.len() - i,
{
    if 0 <= i < s.len() && in_class(k, s[i]) {
        skip_class(s, i + 1, k)
    } else {
        i
    }
}

pub proof fn lemma_skip_class(s: Seq<char>, i: int, k: CharClass)
    requires
        0 <= i <= s.len(),
    ensures
        i <= skip_class(s, i, k) <= s.len(),
        forall|m: int| i <= m < skip_class(s, i, k) ==> in_class(k, #[trigger] s[m]),
        skip_class(s, i, k) < s.len() ==> !in_class(k, s[skip_class(s, i, k)]),
    decreases s.len() - i,
{
    if i < s.len() && in_class(k, s[i]) {
        lemma_skip_class(s, i + 1, k);
    }
}

pub proof fn lemma_skip_class_exact(s: Seq<char>, i: int, j: int, k: CharClass)
    requires
        0 <= i <= j <= s.len(),
        forall|m: int| i <= m < j ==> in_class(k, #[trigger] s[m]),
        j == s.len() || !in_class(k, s[j]),
    ensures
        skip_class(s, i, k) == j,
    decreases j - i,
{
    if i < j {
        lemma_skip_class_exact(s, i + 1, j, k);
    }
}

/// Tests a character for membership in a class.
pub fn class_char(k: CharClass, c: char) -> (r: bool)
    ensures
        r == in_class(k, c),
{
    match k {
        CharClass::Space => space_char(c),
        CharClass::NonSpace => !space_char(c),
        CharClass::Word => word_char(c),
        CharClass::NotQuote => c != '"',
        CharClass::NotCloseBracket => c != ']',
    }
}

/// Skips the characters of class `k` from position `i` on.
pub fn skip(cs: &Vec<char>, i: usize, k: CharClass) -> (r: usize)
    requires
        i <= cs@.len(),
    ensures
        r == skip_class(cs@, i as int, k),
        i <= r <= cs@.len(),
{
    let mut j: usize = i;
    while j < cs.len() && class_char(k, cs[j])
        invariant
            i <= j <= cs@.len(),
            skip_class(cs@, i as int, k) == skip_class(cs@, j as int, k),
        decreases cs@.len() - j,
    {
        j = j + 1;
    }
    j
}

/// The characters of a string, in order.
pub fn chars_of(s: &str) -> (r: Vec<char>)
    ensures
        r@ == s@,
{
    let mut out: Vec<char> = Vec::new();
    for c in it: s.chars()
        invariant
            it.seq() == s@,
            out@ == it.seq().take(it.index() as int),
    {
        out.push(c);
    }
    assert(out@ =~= s@);
    out
}

} // verus!
