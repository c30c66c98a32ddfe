//! Texts: how they are folded and searched.

use vstd::prelude::*;

verus! {

/// A compiled pattern.
#[verifier::external_type_specification]
#[verifier::external_body]
pub struct ExRegex(regex::Regex);

/// What comes of a pattern.
pub enum PatternOutcome {
    Ready(regex::Regex),
    /// The pattern breaks the rules of the syntax.
    Malformed,
    /// The compiled pattern exceeds the size limit of the machine.
    TooBig,
}

/// Whether a pattern follows the syntax of regular expressions.
pub uninterp spec fn well_formed(pattern: Seq<char>) -> bool;

/// Whether a compiled pattern is found in a text.
pub uninterp spec fn is_found(pattern: regex::Regex, text: Seq<char>) -> bool;

/// Whether a pattern is found in a text when case does not matter.
pub uninterp spec fn is_found_in_title(pattern: Seq<char>, text: Seq<char>) -> bool;

/// A text in lower case.
pub uninterp spec fn lowered(text: Seq<char>) -> Seq<char>;

/// `regex::RegexBuilder::build`, with case ignored: fails with a syntax error
/// exactly on patterns that break the syntax. What it hands out otherwise finds
/// the pattern where case does not matter. When a pattern is too big is not said:
/// the size that counts differs between machines.
#[verifier::external_body]
pub(crate) fn compile_title_pattern(pattern: &str) -> (r: PatternOutcome)
    ensures
        r is Malformed <==> !well_formed(pattern@),
        r is Ready ==> forall|text: Seq<char>| #[trigger]
            is_found(r->0, text) == is_found_in_title(pattern@, text),
{
    match regex::RegexBuilder::new(pattern).case_insensitive(true).build() {
        Ok(pattern) => PatternOutcome::Ready(pattern),
        Err(regex::Error::Syntax(_)) => PatternOutcome::Malformed,
        Err(_) => PatternOutcome::TooBig,
    }
}

/// `regex::Regex::is_match`: whether the pattern is found anywhere in the text.
#[verifier::external_body]
pub(crate) fn finds(pattern: &regex::Regex, text: &str) -> (r: bool)
    ensures
        r == is_found(*pattern, text@),
{
    pattern.is_match(text)
}

/// `str::to_lowercase`: the text in lower case, as Unicode defines it.
#[verifier::external_body]
pub(crate) fn to_lowercase(text: &str) -> (r: String)
    ensures
        r@ == lowered(text@),
{
    text.to_lowercase()
}

/// A letter of ASCII in lower case; other characters as they are.
pub open spec fn ascii_lower(c: char) -> char {
    if 'A' <= c && c <= 'Z' {
        (c as u32 + 32) as char
    } else {
        c
    }
}

/// A text with the letters of ASCII in lower case.
pub open spec fn ascii_lowered(text: Seq<char>) -> Seq<char> {
    text.map_values(|c: char| ascii_lower(c))
}

/// `str::to_ascii_lowercase`: letters of ASCII in lower case, other characters as
/// they are.
#[verifier::external_body]
pub(crate) fn to_ascii_lowercase(text: &str) -> (r: String)
    ensures
        r@ == ascii_lowered(text@),
{
    text.to_ascii_lowercase()
}

/// Whether a text occurs in another.
pub open spec fn has_part(text: Seq<char>, part: Seq<char>) -> bool {
    exists|i: int|
        0 <= i <= text.len() - part.len() && #[trigger] text.subrange(i, i + part.len()) == part
}

/// `str::contains` with a string as the pattern: whether the part occurs in the
/// text.
#[verifier::external_body]
pub(crate) fn contains(text: &str, part: &str) -> (r: bool)
    ensures
        r == has_part(text@, part@),
{
    text.contains(part)
}

/// Whether two texts are the same.
pub fn same_text(a: &str, b: &str) -> (r: bool)
    ensures
        r == (a@ == b@),
{
    a.to_owned() == b.to_owned()
}

} // verus!
