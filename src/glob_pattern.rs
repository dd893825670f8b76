//! Shell-style glob patterns, matched by the `glob` crate.
//!
//! Matching is case-sensitive, `*` and `?` never match `/` (only `**`
//! crosses directories), and a leading `.` needs no literal match.
use vstd::prelude::*;

verus! {

/// What `glob::Pattern::new` decides for the text of a pattern: whether it
/// compiles.
pub uninterp spec fn glob_valid(pattern: Seq<char>) -> bool;

/// What `glob::Pattern::matches_with` returns for the pattern compiled from
/// `pattern`, on the text `path`, with the options described above.
pub uninterp spec fn glob_matches(pattern: Seq<char>, path: Seq<char>) -> bool;

/// Relies on `glob::Pattern::new`: it fails on a malformed pattern, and its
/// error's message is handed back.
#[verifier::external_body]
pub(crate) fn pattern_error(pattern: &str) -> (r: Option<String>)
    ensures
        r is None <==> glob_valid(pattern@),
{
    match glob::Pattern::new(pattern) {
        Ok(_) => None,
        Err(e) => Some(e.to_string()),
    }
}

/// Relies on `glob::Pattern::matches_with`, on the pattern that
/// `glob::Pattern::new` compiled from the text.
#[verifier::external_body]
pub(crate) fn pattern_matches(pattern: &str, path: &str) -> (r: bool)
    requires
        glob_valid(pattern@),
    ensures
        r == glob_matches(pattern@, path@),
{
    let options = glob::MatchOptions {
        case_sensitive: true,
        require_literal_separator: true,
        require_literal_leading_dot: false,
    };
    match glob::Pattern::new(pattern) {
        Ok(compiled) => compiled.matches_with(path, options),
        Err(_) => false,
    }
}

} // verus!
