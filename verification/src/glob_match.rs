//! Glob patterns (the `glob` crate) used to select the entries of an index.

use vstd::prelude::*;

verus! {

/// A glob metacharacter that `Pattern::escape` wraps in brackets.
pub open spec fn is_glob_meta(c: char) -> bool {
    c == '?' || c == '*' || c == '[' || c == ']'
}

/// `Pattern::escape`: every `?`, `*`, `[` and `]` becomes `[c]`; other characters are kept.
pub open spec fn spec_glob_escape(s: Seq<char>) -> Seq<char>
    decreases s.len(),
{
    if s.len() == 0 {
        Seq::empty()
    } else {
        let c = s[0];
        let head = if is_glob_meta(c) { seq!['[', c, ']'] } else { seq![c] };
        head + spec_glob_escape(s.drop_first())
    }
}

/// Escapes a text so that it matches itself literally as a glob pattern.
///
/// Trusted: calls `glob::Pattern::escape`, whose loop wraps each of `?`, `*`, `[`, `]` in
/// brackets and copies every other character (as `spec_glob_escape` states).
#[verifier::external_body]
pub(crate) fn glob_escape(s: &str) -> (r: String)
    ensures
        r@ == spec_glob_escape(s@),
{
    glob::Pattern::escape(s)
}

/// Whether the glob `pattern`, compiled by `glob::Pattern::new`, matches `name` under the given
/// match options; `None` when the pattern does not compile.
pub uninterp spec fn glob_match_result(
    pattern: Seq<char>,
    name: Seq<char>,
    case_sensitive: bool,
    literal_separator: bool,
    literal_leading_dot: bool,
) -> Option<bool>;

/// Compiles a glob pattern and matches a name against it.
///
/// Trusted: calls `glob::Pattern::new` and, when it succeeds, `Pattern::matches_with` with a
/// `glob::MatchOptions` built from the three flags; a `PatternError` becomes `None`. The result
/// is only tied to the arguments through the name `glob_match_result`.
#[verifier::external_body]
pub(crate) fn glob_matches(
    pattern: &str,
    name: &str,
    case_sensitive: bool,
    literal_separator: bool,
    literal_leading_dot: bool,
) -> (r: Option<bool>)
    ensures
        r == glob_match_result(
            pattern@,
            name@,
            case_sensitive,
            literal_separator,
            literal_leading_dot,
        ),
{
    let options = glob::MatchOptions {
        case_sensitive,
        require_literal_separator: literal_separator,
        require_literal_leading_dot: literal_leading_dot,
    };
    match glob::Pattern::new(pattern) {
        Ok(p) => Some(p.matches_with(name, options)),
        Err(_) => None,
    }
}

} // verus!
