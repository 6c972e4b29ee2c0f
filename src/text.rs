//! Small string helpers over `str` whose behaviour std documents.

use vstd::prelude::*;

verus! {

/// Relies on `<str as PartialEq>::eq`: two string slices are equal when
/// they hold the same characters.
#[verifier::external_body]
pub(crate) fn text_eq(a: &str, b: &str) -> (r: bool)
    ensures
        r == (a@ == b@),
{
    a == b
}

/// Relies on `str::strip_prefix`: `Some` of what follows `prefix` exactly
/// when `s` starts with `prefix`.
#[verifier::external_body]
pub(crate) fn strip_prefix<'a>(s: &'a str, prefix: &str) -> (r: Option<&'a str>)
    ensures
        r.is_some() == prefix@.is_prefix_of(s@),
        r matches Some(rest) ==> rest@ == s@.skip(prefix@.len() as int),
{
    s.strip_prefix(prefix)
}

} // verus!
