//! Regular-expression matching through the `regex` crate.
//!
//! The patterns themselves are constants of the modules that use them; what a
//! pattern matches is the `regex` crate's business, so the results of these
//! calls are only named here.

use vstd::prelude::*;

verus! {

/// Capture group `group` of the leftmost match of `pattern` in `haystack`
/// (`Regex::new(pattern)`, then `captures(haystack)`, then `get(group)`);
/// `None` when the pattern does not compile, does not match, or the group
/// did not take part in the match.
pub uninterp spec fn regex_capture(pattern: Seq<char>, haystack: Seq<char>, group: usize) -> Option<
    Seq<char>,
>;

/// `haystack` with the leftmost match of `pattern` replaced by `replacement`
/// (`Regex::replace`); `haystack` itself when the pattern does not compile.
pub uninterp spec fn regex_replace_first(
    pattern: Seq<char>,
    haystack: Seq<char>,
    replacement: Seq<char>,
) -> Seq<char>;

/// Calls `regex::Regex::new` and `regex::Regex::captures`, then
/// `regex::Captures::get`. Trusted: the text of the group is taken to be
/// `regex_capture(pattern, haystack, group)`.
#[verifier::external_body]
pub(crate) fn capture_group(pattern: &str, haystack: &[char], group: usize) -> (r: Option<
    Vec<char>,
>)
    ensures
        match r {
            Some(m) => regex_capture(pattern@, haystack@, group) == Some(m@),
            None => regex_capture(pattern@, haystack@, group) is None,
        },
{
    let hay: String = haystack.iter().collect();
    let re = regex::Regex::new(pattern).ok()?;
    let caps = re.captures(&hay)?;
    caps.get(group).map(|m| m.as_str().chars().collect())
}

/// Calls `regex::Regex::new` and `regex::Regex::replace`. Trusted: the result
/// is taken to be `regex_replace_first(pattern, haystack, replacement)`.
#[verifier::external_body]
pub(crate) fn replace_first(pattern: &str, haystack: &[char], replacement: &str) -> (r: Vec<char>)
    ensures
        r@ == regex_replace_first(pattern@, haystack@, replacement@),
{
    let hay: String = haystack.iter().collect();
    match regex::Regex::new(pattern) {
        Ok(re) => re.replace(&hay, replacement).chars().collect(),
        Err(_) => haystack.to_vec(),
    }
}

} // verus!
