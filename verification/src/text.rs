//! Texts as sequences of characters: what trimming, ASCII lower-casing and
//! replacing characters make of a text, and the standard library's functions
//! that do so.

use vstd::prelude::*;

verus! {

/// The characters that carry the Unicode `White_Space` property.
pub open spec fn is_whitespace(c: char) -> bool {
    let n = c as u32;
    ||| 0x09 <= n <= 0x0d
    ||| n == 0x20
    ||| n == 0x85
    ||| n == 0xa0
    ||| n == 0x1680
    ||| 0x2000 <= n <= 0x200a
    ||| n == 0x2028
    ||| n == 0x2029
    ||| n == 0x202f
    ||| n == 0x205f
    ||| n == 0x3000
}

/// `s` without its leading whitespace.
pub open spec fn trimmed_start(s: Seq<char>) -> Seq<char>
    decreases s.len(),
{
    if s.len() > 0 && is_whitespace(s.first()) {
        trimmed_start(s.drop_first())
    } else {
        s
    }
}

/// `s` without its trailing whitespace.
pub open spec fn trimmed_end(s: Seq<char>) -> Seq<char>
    decreases s.len(),
{
    if s.len() > 0 && is_whitespace(s.last()) {
        trimmed_end(s.drop_last())
    } else {
        s
    }
}

/// `s` without its leading and trailing whitespace.
pub open spec fn trimmed(s: Seq<char>) -> Seq<char> {
    trimmed_end(trimmed_start(s))
}

/// The ASCII lower-case form of one character: `'A'..='Z'` become
/// `'a'..='z'`, every other character is kept.
pub open spec fn ascii_lower(c: char) -> char {
    if 'A' <= c <= 'Z' {
        ((c as u8) + 32) as char
    } else {
        c
    }
}

/// `s` with every character replaced by its ASCII lower-case form.
pub open spec fn ascii_lowercase(s: Seq<char>) -> Seq<char> {
    s.map_values(|c: char| ascii_lower(c))
}

/// `s` with every character that occurs in `from` replaced by the text `to`.
pub open spec fn replaced_each(s: Seq<char>, from: Seq<char>, to: Seq<char>) -> Seq<char>
    decreases s.len(),
{
    if s.len() == 0 {
        s
    } else {
        replaced_each(s.drop_last(), from, to) + (if from.contains(s.last()) {
            to
        } else {
            seq![s.last()]
        })
    }
}

/// `str::trim`: the slice of `s` that is left when leading and trailing
/// whitespace (the Unicode `White_Space` property) is removed.
#[verifier::external_body]
pub(crate) fn trim(s: &str) -> (r: &str)
    ensures
        r@ == trimmed(s@),
{
    s.trim()
}

/// `str::to_ascii_lowercase`: a copy of `s` in which the ASCII letters
/// `'A'..='Z'` are mapped to `'a'..='z'` and nothing else changes.
#[verifier::external_body]
pub(crate) fn to_ascii_lowercase(s: &str) -> (r: String)
    ensures
        r@ == ascii_lowercase(s@),
{
    s.to_ascii_lowercase()
}

/// `str::replace` with a set of characters as the pattern: a copy of `s` in
/// which every character that is one of `from` is replaced by `to`.
#[verifier::external_body]
pub(crate) fn replace_chars<const N: usize>(s: &str, from: [char; N], to: &str) -> (r: String)
    ensures
        r@ == replaced_each(s@, from@, to@),
{
    s.replace(from, to)
}

/// Replacing every character of `from` by a text of one character is a
/// character-by-character substitution.
pub proof fn lemma_replaced_each_single(s: Seq<char>, from: Seq<char>, to: Seq<char>)
    requires
        to.len() == 1,
    ensures
        replaced_each(s, from, to) == s.map_values(
            |c: char| if from.contains(c) { to[0] } else { c },
        ),
    decreases s.len(),
{
    if s.len() > 0 {
        lemma_replaced_each_single(s.drop_last(), from, to);
    }
}

/// What `trimmed_end` leaves is a prefix of its argument that does not end
/// in whitespace.
proof fn lemma_trimmed_end_shape(s: Seq<char>)
    ensures
        trimmed_end(s).len() <= s.len(),
        trimmed_end(s) == s.take(trimmed_end(s).len() as int),
        trimmed_end(s).len() > 0 ==> !is_whitespace(trimmed_end(s).last()),
    decreases s.len(),
{
    if s.len() > 0 && is_whitespace(s.last()) {
        lemma_trimmed_end_shape(s.drop_last());
    }
}

/// What `trimmed_start` leaves does not begin with whitespace.
proof fn lemma_trimmed_start_shape(s: Seq<char>)
    ensures
        trimmed_start(s).len() > 0 ==> !is_whitespace(trimmed_start(s).first()),
    decreases s.len(),
{
    if s.len() > 0 && is_whitespace(s.first()) {
        lemma_trimmed_start_shape(s.drop_first());
    }
}

/// A trimmed text neither begins nor ends with whitespace.
pub proof fn lemma_trimmed_shape(s: Seq<char>)
    ensures
        trimmed(s).len() > 0 ==> !is_whitespace(trimmed(s).first()) && !is_whitespace(
            trimmed(s).last(),
        ),
{
    lemma_trimmed_start_shape(s);
    lemma_trimmed_end_shape(trimmed_start(s));
}

} // verus!
