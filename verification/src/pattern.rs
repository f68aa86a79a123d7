//! Trusted wrappers around the `regex` crate's two fixed-pattern searches.
//!
//! Both patterns use `\d`, which in `regex` matches any Unicode decimal digit,
//! so the matched language is not restated here; instead each result is given
//! a name that the callers' contracts speak of exactly.

use regex::Regex;
use vstd::prelude::*;

verus! {

/// Whether a device path contains a controller-namespace device name, that
/// is, a match of `/dev/nvme\d+n\d+` somewhere in the string.
pub uninterp spec fn nvme_disk_match(s: Seq<char>) -> bool;

/// Relies on regex::Regex::is_match with the fixed pattern
/// `/dev/nvme\d+n\d+`: true if and only if there is a match for the pattern
/// anywhere in the haystack, which depends on the haystack's characters
/// alone.
#[verifier::external_body]
pub(crate) fn is_nvme_disk(s: &str) -> (r: bool)
    ensures
        r == nvme_disk_match(s@),
{
    Regex::new(r"/dev/nvme\d+n\d+").unwrap().is_match(s)
}

/// The run of decimal digits that ends the string (the match of `\d+$`),
/// empty when the string does not end in a digit.
pub uninterp spec fn trailing_digits_of(s: Seq<char>) -> Seq<char>;

/// Relies on regex::Regex::find with the fixed pattern `\d+$`: the leftmost
/// match is the longest run of digits that ends at the end of the haystack,
/// and it depends on the haystack's characters alone; without a match the
/// result is empty.
#[verifier::external_body]
pub(crate) fn find_trailing_digits(s: &str) -> (r: String)
    ensures
        r@ == trailing_digits_of(s@),
{
    match Regex::new(r"\d+$").unwrap().find(s) {
        Some(m) => m.as_str().to_string(),
        None => String::new(),
    }
}

} // verus!
