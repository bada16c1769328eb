//! Url handling: absolute-url detection, and the site's base url split into origin and prefix.

use vstd::prelude::*;
use crate::text::{chars_of, string_of_range};

verus! {

/// An ASCII letter.
pub open spec fn is_alpha_char(c: char) -> bool {
    ('a' <= c <= 'z') || ('A' <= c <= 'Z')
}

/// A character allowed after the first one of a url scheme: a letter, a digit, `+`, `-` or `.`.
pub open spec fn is_scheme_char(c: char) -> bool {
    is_alpha_char(c) || ('0' <= c <= '9') || c == '+' || c == '-' || c == '.'
}

/// A url is absolute when it starts with a scheme (a letter followed by letters, digits, `+`,
/// `-` or `.`) terminated by a `:`.
pub open spec fn spec_is_absolute_url(s: Seq<char>) -> bool {
    &&& s.len() > 0
    &&& is_alpha_char(s[0])
    &&& exists|k: int|
        1 <= k < s.len() && s[k] == ':' && forall|j: int| 1 <= j < k ==> #[trigger] is_scheme_char(s[j])
}

/// Returns true if `href` starts with a url scheme (e.g. `http:`, `mailto:`, `git+ssh:`).
pub fn is_absolute_url(href: &str) -> (r: bool)
    ensures
        r == spec_is_absolute_url(href@),
{
    let cs = chars_of(href);
    let n: usize = cs.len();
    if n == 0 {
        return false;
    }
    let c0 = cs[0];
    if !(('a' <= c0 && c0 <= 'z') || ('A' <= c0 && c0 <= 'Z')) {
        return false;
    }
    let mut i: usize = 1;
    while i < n
        invariant
            1 <= i <= n,
            n == cs@.len(),
            cs@ == href@,
            is_alpha_char(cs@[0]),
            forall|j: int| 1 <= j < i ==> #[trigger] is_scheme_char(cs@[j]),
        decreases n - i,
    {
        let c = cs[i];
        if c == ':' {
            assert(1 <= i < cs@.len() && cs@[i as int] == ':');
            return true;
        }
        if !(('a' <= c && c <= 'z') || ('A' <= c && c <= 'Z') || ('0' <= c && c <= '9') || c == '+'
            || c == '-' || c == '.') {
            assert forall|k: int|
                1 <= k < cs@.len() && cs@[k] == ':' implies !(forall|j: int|
                1 <= j < k ==> #[trigger] is_scheme_char(cs@[j])) by {
                if k > i {
                    assert(!is_scheme_char(cs@[i as int]));
                } else if k < i {
                    assert(is_scheme_char(cs@[k]));
                }
            }
            return false;
        }
        i = i + 1;
    }
    assert forall|k: int|
        1 <= k < cs@.len() && cs@[k] == ':' implies !(forall|j: int|
        1 <= j < k ==> #[trigger] is_scheme_char(cs@[j])) by {
        assert(is_scheme_char(cs@[k]));
    }
    false
}

/// What the library reads of a url parsed by the `url` crate.
pub struct ParsedUrl {
    /// The url has no hierarchical path (`data:`, `mailto:` ...).
    pub cannot_be_a_base: bool,
    /// The fragment, without `#`.
    pub fragment: Option<String>,
    /// The query, without `?`.
    pub query: Option<String>,
    /// The path, percent-encoded, starting with `/` when the url can be a base.
    pub path: String,
    /// The url serialized after its path was set to the empty string.
    pub without_path: String,
}

/// The parts of a `ParsedUrl` that the library reads: whether it cannot be a base, whether it
/// has a fragment, whether it has a query, its path, and its text without the path.
pub open spec fn parsed_url_view(p: ParsedUrl) -> (bool, bool, bool, Seq<char>, Seq<char>) {
    (p.cannot_be_a_base, p.fragment is Some, p.query is Some, p.path@, p.without_path@)
}

/// What `url::Url::parse` makes of a text, read as `parsed_url_view` reads it, or the text of
/// its parse error.
pub uninterp spec fn url_parsed(text: Seq<char>) -> Result<(bool, bool, bool, Seq<char>, Seq<char>), Seq<char>>;

/// Parses a url with `url::Url::parse` and reads its parts: `cannot_be_a_base`, `fragment`,
/// `query`, `path`, and the serialization after `set_path("")`. On failure, the parse error's
/// `Display` text.
///
/// Trusted: the contract only names the outcome (`url_parsed`); it is a function of the text,
/// as the WHATWG url parser that the crate implements is deterministic.
#[verifier::external_body]
fn parse_url(text: &str) -> (r: Result<ParsedUrl, String>)
    ensures
        match r {
            Ok(p) => url_parsed(text@) == Ok::<_, Seq<char>>(parsed_url_view(p)),
            Err(m) => url_parsed(text@) == Err::<(bool, bool, bool, Seq<char>, Seq<char>), _>(m@),
        },
{
    match url::Url::parse(text) {
        Ok(mut url) => {
            let cannot_be_a_base = url.cannot_be_a_base();
            let fragment = url.fragment().map(str::to_owned);
            let query = url.query().map(str::to_owned);
            let path = url.path().to_owned();
            url.set_path("");
            Ok(ParsedUrl { cannot_be_a_base, fragment, query, path, without_path: url.to_string() })
        },
        Err(e) => Err(e.to_string()),
    }
}

/// The text without one trailing `/`, if it ends in one.
pub open spec fn without_trailing_slash(s: Seq<char>) -> Seq<char> {
    if s.len() > 0 && s.last() == '/' {
        s.drop_last()
    } else {
        s
    }
}

/// The origin and the prefix of a site's base url, from what the url parser made of it: an
/// error when the url cannot be a base or carries a fragment or a query; otherwise the url
/// without its path and without a trailing `/`, and the path.
pub open spec fn spec_base_parts(parsed: Result<(bool, bool, bool, Seq<char>, Seq<char>), Seq<char>>) -> Result<(Seq<char>, Seq<char>), Seq<char>> {
    match parsed {
        Err(m) => Err(m),
        Ok((cannot_be_a_base, has_fragment, has_query, path, without_path)) => {
            if cannot_be_a_base {
                Err("url cannot be a base"@)
            } else if has_fragment {
                Err("base url must not specify a fragment"@)
            } else if has_query {
                Err("base url must not specify a query"@)
            } else {
                Ok((without_trailing_slash(without_path), path))
            }
        },
    }
}

/// Splits a parsed base url into the site's origin and prefix (see `spec_base_parts`).
pub fn base_parts(parsed: Result<ParsedUrl, String>) -> (r: Result<(String, String), String>)
    ensures
        spec_base_parts(
            match parsed {
                Ok(p) => Ok(parsed_url_view(p)),
                Err(m) => Err(m@),
            },
        ) == match r {
            Ok((o, p)) => Ok::<_, Seq<char>>((o@, p@)),
            Err(m) => Err(m@),
        },
{
    match parsed {
        Err(m) => Err(m),
        Ok(p) => {
            if p.cannot_be_a_base {
                Err("url cannot be a base".to_owned())
            } else if p.fragment.is_some() {
                Err("base url must not specify a fragment".to_owned())
            } else if p.query.is_some() {
                Err("base url must not specify a query".to_owned())
            } else {
                let cs = chars_of(p.without_path.as_str());
                let n: usize = cs.len();
                let origin = if n > 0 && cs[n - 1] == '/' {
                    string_of_range(&cs, 0, n - 1)
                } else {
                    p.without_path
                };
                proof {
                    assert(cs@.subrange(0, n as int) =~= cs@);
                }
                Ok((origin, p.path))
            }
        },
    }
}

/// Splits a site's base url into its origin and its prefix (see `spec_base_parts`), the
/// parser's error text when it is no url.
pub fn split_base_url(base: &str) -> (r: Result<(String, String), String>)
    ensures
        spec_base_parts(url_parsed(base@)) == match r {
            Ok((o, p)) => Ok::<_, Seq<char>>((o@, p@)),
            Err(m) => Err(m@),
        },
{
    base_parts(parse_url(base))
}

} // verus!
