//! Regular-expression replacement, through the `regex` crate.
use vstd::prelude::*;
use regex::Regex;

verus! {

/// Whether `regex::Regex::new` accepts a pattern.
pub uninterp spec fn regex_compiles(pattern: Seq<char>) -> bool;

/// What `Regex::replace_all` returns for a pattern, a text and a replacement
/// (in which `$` names capture groups).
pub uninterp spec fn regex_replaced_all(pattern: Seq<char>, text: Seq<char>, rep: Seq<char>) -> Seq<char>;

/// What `Regex::replace` returns: only the leftmost match is replaced.
pub uninterp spec fn regex_replaced_first(pattern: Seq<char>, text: Seq<char>, rep: Seq<char>) -> Seq<char>;

/// Calls `Regex::new` and reports whether it succeeded; named by
/// `regex_compiles`, a function of the pattern alone.
#[verifier::external_body]
pub(crate) fn regex_is_valid(pattern: &str) -> (b: bool)
    ensures
        b == regex_compiles(pattern@),
{
    Regex::new(pattern).is_ok()
}

/// Calls `Regex::new` then `Regex::replace_all`. The result is named by
/// `regex_replaced_all`, a function of the three arguments alone. Only
/// patterns that compile are given, so the `unwrap` does not fail.
#[verifier::external_body]
pub(crate) fn regex_replace_all(pattern: &str, text: &str, rep: &str) -> (r: String)
    requires
        regex_compiles(pattern@),
    ensures
        r@ == regex_replaced_all(pattern@, text@, rep@),
{
    Regex::new(pattern).unwrap().replace_all(text, rep).to_string()
}

/// Calls `Regex::new` then `Regex::replace`; `None` when the pattern does not
/// compile. Otherwise the result is named by `regex_replaced_first`, a
/// function of the three arguments alone.
#[verifier::external_body]
pub(crate) fn regex_replace_first(pattern: &str, text: &str, rep: &str) -> (r: Option<String>)
    ensures
        match r {
            Some(s) => regex_compiles(pattern@) && s@ == regex_replaced_first(pattern@, text@, rep@),
            None => !regex_compiles(pattern@),
        },
{
    match Regex::new(pattern) {
        Ok(re) => Some(re.replace(text, rep).to_string()),
        Err(_) => None,
    }
}

} // verus!
