//! What this library asks of the standard library's handling of text and
//! takes on trust: lower-casing, trimming, and the reading of a number.

use vstd::prelude::*;

verus! {

/// The lower-case form of `text` as `str::to_lowercase` gives it.
pub uninterp spec fn spec_lowercase(text: Seq<char>) -> Seq<char>;

/// `text` without the white space at its ends as `str::trim` gives it.
pub uninterp spec fn spec_trim(text: Seq<char>) -> Seq<char>;

/// `str::to_lowercase` of the standard library.
///
/// The result is a function of the text alone: its lower-case form as
/// Unicode defines it, under the tables that the standard library was built
/// with. The contract gives that result a name and claims nothing more of it.
#[verifier::external_body]
pub(crate) fn lowercase(text: &str) -> (lower: String)
    ensures
        lower@ == spec_lowercase(text@),
{
    text.to_lowercase()
}

/// `str::trim` of the standard library, its result copied into a `String`.
///
/// The result is a function of the text alone: the text without the
/// characters at its two ends that Unicode counts as white space. The
/// contract gives that result a name and claims nothing more of it.
#[verifier::external_body]
pub(crate) fn trimmed(text: &str) -> (inner: String)
    ensures
        inner@ == spec_trim(text@),
{
    text.trim().to_owned()
}

/// True for the ten decimal digits.
pub open spec fn is_digit(c: char) -> bool {
    '0' as int <= c as int <= '9' as int
}

/// The number that a row of decimal digits writes.
pub open spec fn digits_value(digits: Seq<char>) -> nat
    decreases digits.len(),
{
    if digits.len() == 0 {
        0
    } else {
        (10 * digits_value(digits.drop_last()) + (digits.last() as int - '0' as int)) as nat
    }
}

/// The number that `text` writes in decimal: an optional plus sign, then one
/// digit or more and nothing else, the whole no more than `u64` can hold.
pub open spec fn spec_parse_u64(text: Seq<char>) -> Option<u64> {
    let digits = if text.len() > 0 && text[0] == '+' {
        text.drop_first()
    } else {
        text
    };
    if digits.len() == 0 || (exists|i: int| 0 <= i < digits.len() && !is_digit(digits[i]))
        || digits_value(digits) > u64::MAX {
        None
    } else {
        Some(digits_value(digits) as u64)
    }
}

/// `str::parse::<u64>` of the standard library, its error dropped.
///
/// The text must be an optional `+` followed by decimal digits only, at least
/// one, and the number must fit; anything else, white space and an empty text
/// included, gives no number.
#[verifier::external_body]
pub(crate) fn parse_u64(text: &str) -> (number: Option<u64>)
    ensures
        number == spec_parse_u64(text@),
{
    text.parse::<u64>().ok()
}

} // verus!
