//! Upper and lower case.

use vstd::prelude::*;

verus! {

/// Every character of `s` is an ASCII character.
pub open spec fn is_ascii_text(s: Seq<char>) -> bool {
    forall|i: int| 0 <= i < s.len() ==> (#[trigger] s[i] as u32) < 128
}

/// The upper case of an ASCII character.
pub open spec fn ascii_upper(c: char) -> char {
    if 'a' <= c <= 'z' {
        (c as u32 - 32) as char
    } else {
        c
    }
}

/// The lower case of an ASCII character.
pub open spec fn ascii_lower(c: char) -> char {
    if 'A' <= c <= 'Z' {
        (c as u32 + 32) as char
    } else {
        c
    }
}

/// What `str::to_uppercase` gives for `s`.
pub uninterp spec fn uppercase_text(s: Seq<char>) -> Seq<char>;

/// What `str::to_lowercase` gives for `s`.
pub uninterp spec fn lowercase_text(s: Seq<char>) -> Seq<char>;

/// Calls `str::to_uppercase`.
///
/// Believed of std: the result depends on the text alone, and an ASCII text keeps its length,
/// its small letters turned into capital ones.
#[verifier::external_body]
pub(crate) fn uppercase(s: &str) -> (upper: String)
    ensures
        upper@ == uppercase_text(s@),
        is_ascii_text(s@) ==> upper@ == s@.map_values(|c: char| ascii_upper(c)),
{
    s.to_uppercase()
}

/// Calls `str::to_lowercase`.
///
/// Believed of std: the result depends on the text alone, and an ASCII text keeps its length,
/// its capital letters turned into small ones.
#[verifier::external_body]
pub(crate) fn lowercase(s: &str) -> (lower: String)
    ensures
        lower@ == lowercase_text(s@),
        is_ascii_text(s@) ==> lower@ == s@.map_values(|c: char| ascii_lower(c)),
{
    s.to_lowercase()
}

/// Of ASCII characters, letters alone have another case, and one case is got back from the
/// other.
pub proof fn law_cases_come_in_pairs(c: char)
    ensures
        'a' <= c <= 'z' ==> ascii_upper(c) as u32 == c as u32 - 32 && ascii_lower(ascii_upper(c))
            == c,
        'A' <= c <= 'Z' ==> ascii_lower(c) as u32 == c as u32 + 32 && ascii_upper(ascii_lower(c))
            == c,
        !('a' <= c <= 'z') ==> ascii_upper(c) == c,
        !('A' <= c <= 'Z') ==> ascii_lower(c) == c,
{
}

} // verus!
