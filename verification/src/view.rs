//! The views handed to page templates: the site, pages, indices, and the urls derived from them.

use vstd::prelude::*;
use vstd::string::StringSliceAdditionalSpecFns;
use crate::datetime::DateTime;
use crate::entry::Entry;
use crate::content::{html_escape, push_escaped};
use crate::text::push_str;

verus! {

/// The last character of a text is `/`.
pub open spec fn ends_with_slash(s: Seq<char>) -> bool {
    s.len() > 0 && s.last() == '/'
}

/// Returns true if the text ends with `/`.
fn text_ends_with_slash(s: &str) -> (r: bool)
    ensures
        r == ends_with_slash(s@),
{
    let n: usize = s.unicode_len();
    n > 0 && s.get_char(n - 1) == '/'
}

/// The site's base url: its origin followed by its prefix.
#[derive(Clone, Copy, Debug, PartialEq, Eq)]
pub struct Base<'a> {
    origin: &'a str,
    prefix: &'a str,
}

impl<'a> Base<'a> {
    /// The origin.
    pub closed spec fn origin(&self) -> Seq<char> {
        self.origin@
    }

    /// The prefix.
    pub closed spec fn prefix(&self) -> Seq<char> {
        self.prefix@
    }

    /// The base url as text: the origin, then the prefix.
    pub fn text(&self) -> (r: String)
        ensures
            r@ == self.origin() + self.prefix(),
    {
        let mut s = self.origin.to_owned();
        push_str(&mut s, self.prefix);
        s
    }

    /// The length in bytes of the text.
    pub closed spec fn byte_len(&self) -> nat {
        self.origin.spec_bytes().len() + self.prefix.spec_bytes().len()
    }

    /// The length in bytes of the text.
    pub fn size_hint(&self) -> (r: usize)
        requires
            self.byte_len() <= usize::MAX,
        ensures
            r == self.byte_len(),
    {
        self.origin.len() + self.prefix.len()
    }
}

/// The canonical url of a page: origin, prefix and href, ending in `/`. The `/` is added when
/// the last non-empty of href, prefix and origin does not end in one (or all are empty).
pub open spec fn canonical_text(origin: Seq<char>, prefix: Seq<char>, href: Seq<char>) -> Seq<char> {
    let joined = origin + prefix + href;
    let terminal = if href.len() > 0 {
        href
    } else if prefix.len() > 0 {
        prefix
    } else {
        origin
    };
    if ends_with_slash(terminal) {
        joined
    } else {
        joined.push('/')
    }
}

/// The canonical url of a page.
#[derive(Clone, Copy, Debug, PartialEq, Eq)]
pub struct CanonicalUrl<'a> {
    origin: &'a str,
    prefix: &'a str,
    href: &'a str,
}

impl<'a> CanonicalUrl<'a> {
    /// The origin.
    pub closed spec fn origin(&self) -> Seq<char> {
        self.origin@
    }

    /// The prefix.
    pub closed spec fn prefix(&self) -> Seq<char> {
        self.prefix@
    }

    /// The page's href, relative to the base.
    pub closed spec fn href(&self) -> Seq<char> {
        self.href@
    }

    /// The url as text (see `canonical_text`).
    pub fn text(&self) -> (r: String)
        ensures
            r@ == canonical_text(self.origin(), self.prefix(), self.href()),
    {
        let mut s = self.origin.to_owned();
        push_str(&mut s, self.prefix);
        push_str(&mut s, self.href);
        let terminal = if self.href.unicode_len() > 0 {
            self.href
        } else if self.prefix.unicode_len() > 0 {
            self.prefix
        } else {
            self.origin
        };
        if !text_ends_with_slash(terminal) {
            push_str(&mut s, "/");
            proof {
                reveal_strlit("/");
            }
        }
        s
    }

    /// An upper bound of the length in bytes of the text: the parts and one `/`.
    pub closed spec fn byte_bound(&self) -> nat {
        self.origin.spec_bytes().len() + self.prefix.spec_bytes().len() + self.href.spec_bytes().len()
            + 1
    }

    /// An upper bound of the length in bytes of the text: the parts and one `/`.
    pub fn size_hint(&self) -> (r: usize)
        requires
            self.byte_bound() <= usize::MAX,
        ensures
            r == self.byte_bound(),
    {
        self.origin.len() + self.prefix.len() + self.href.len() + 1
    }
}

/// A canonical url always ends in `/`.
pub proof fn canonical_text_ends_with_slash(origin: Seq<char>, prefix: Seq<char>, href: Seq<char>)
    ensures
        ends_with_slash(canonical_text(origin, prefix, href)),
        canonical_text(origin, prefix, href).take((origin + prefix + href).len() as int) == origin
            + prefix + href,
{
    let joined = origin + prefix + href;
    let t = canonical_text(origin, prefix, href);
    if href.len() > 0 {
        assert(joined.last() == href.last());
    } else if prefix.len() > 0 {
        assert(joined =~= origin + prefix);
        assert(joined.last() == prefix.last());
    } else {
        assert(joined =~= origin);
    }
    assert(t.take(joined.len() as int) =~= joined);
}

/// A website as pages see it.
#[derive(Debug)]
pub struct Site<'a, M> {
    /// The website's title.
    pub title: &'a str,
    /// The canonical origin (`<protocol>://<domain>:<port>`).
    pub origin: &'a str,
    /// The path prefix under which the site is served.
    pub prefix: &'a str,
    /// The href of the concatenated stylesheets.
    pub stylesheets: Option<&'a str>,
    /// The href of the concatenated javascript.
    pub javascript: Option<&'a str>,
    /// The href of the icon.
    pub icon: Option<&'a str>,
    /// Extra metadata from the source.
    pub meta: &'a M,
}

impl<'a, M> Site<'a, M> {
    /// The site's base url.
    pub fn base(&self) -> (r: Base<'a>)
        ensures
            r.origin() == self.origin@,
            r.prefix() == self.prefix@,
    {
        Base { origin: self.origin, prefix: self.prefix }
    }
}

/// An optional attribute-only element: the element's opening text, the escaped value and the
/// closing text, when there is a value.
pub open spec fn optional_element(open: Seq<char>, value: Option<&str>, close: Seq<char>) -> Seq<char> {
    match value {
        Some(v) => open + html_escape(v@) + close,
        None => Seq::empty(),
    }
}

/// The head elements of a site's assets: the base url (its prefix), then the stylesheet, the
/// script and the icon that the site has.
pub open spec fn assets_text<M>(site: Site<M>) -> Seq<char> {
    "<base href=\""@ + html_escape(site.prefix@) + "\">"@ + optional_element(
        "<link rel=\"stylesheet\" href=\""@,
        site.stylesheets,
        "\">"@,
    ) + optional_element("<script src=\""@, site.javascript, "\"></script>"@) + optional_element(
        "<link rel=\"shortcut icon\" href=\""@,
        site.icon,
        "\">"@,
    )
}

/// The head elements that load a site's assets.
pub struct Assets<'a, M>(pub &'a Site<'a, M>);

/// Appends an optional attribute-only element (see `optional_element`).
fn push_optional_element(out: &mut String, open: &str, value: Option<&str>, close: &str)
    ensures
        final(out)@ == old(out)@ + optional_element(open@, value, close@),
{
    match value {
        Some(v) => {
            push_str(out, open);
            push_escaped(out, v);
            push_str(out, close);
            proof {
                assert(out@ =~= old(out)@ + optional_element(open@, value, close@));
            }
        },
        None => {
            assert(out@ =~= old(out)@ + optional_element(open@, value, close@));
        },
    }
}

impl<'a, M> Assets<'a, M> {
    /// The HTML of the elements (see `assets_text`).
    pub fn html(&self) -> (r: String)
        ensures
            r@ == assets_text(*self.0),
    {
        let site = self.0;
        let mut out = "<base href=\"".to_owned();
        push_escaped(&mut out, site.prefix);
        push_str(&mut out, "\">");
        push_optional_element(&mut out, "<link rel=\"stylesheet\" href=\"", site.stylesheets, "\">");
        push_optional_element(&mut out, "<script src=\"", site.javascript, "\"></script>");
        push_optional_element(&mut out, "<link rel=\"shortcut icon\" href=\"", site.icon, "\">");
        proof {
            assert(out@ =~= assets_text(*self.0));
        }
        out
    }
}

/// The content of a page and its format (the source file's extension).
#[derive(Clone, Copy, Debug)]
pub struct Content<'a> {
    pub data: &'a str,
    pub format: &'a str,
}

/// Pagination of an index: the hrefs of all its pages, and which one this is.
#[derive(Clone, Copy, Debug)]
pub struct Paginate<'a> {
    /// The position of this page.
    pub current: usize,
    /// The hrefs of the pages.
    pub pages: &'a [&'a str],
}

/// The index shown on a page.
#[derive(Debug)]
pub struct Index<'a, M> {
    /// The pages listed.
    pub entries: &'a [Page<'a, M>],
    /// The pagination, if the index is paginated.
    pub paginate: Option<Paginate<'a>>,
    /// The href of the index's feed, if it is syndicated.
    pub feed: Option<&'a str>,
    /// Whether to show the index compactly.
    pub compact: bool,
}

/// A page to be rendered.
#[derive(Debug)]
pub struct Page<'a, M> {
    /// The page's title.
    pub title: &'a str,
    /// An optional description.
    pub description: Option<&'a str>,
    /// The date the page was created.
    pub date: Option<&'a DateTime>,
    /// The date the page was last modified.
    pub updated: &'a DateTime,
    /// The page's location, relative to the site's base.
    pub href: &'a str,
    /// The index shown on the page, if any.
    pub index: Option<Index<'a, M>>,
    /// Extra metadata from the entry.
    pub meta: &'a M,
    /// The page's content.
    pub content: Content<'a>,
}

impl<'a, M> Page<'a, M> {
    /// The page of an entry, without an index.
    pub fn for_entry(entry: &'a Entry<M>) -> (r: Page<'a, M>)
        ensures
            r.title@ == entry.title@,
            match entry.description {
                Some(d) => r.description matches Some(x) && x@ == d@,
                None => r.description is None,
            },
            match entry.date {
                Some(d) => r.date matches Some(x) && *x == d,
                None => r.date is None,
            },
            *r.updated == entry.updated,
            r.href@ == entry.name@,
            r.index is None,
            *r.meta == entry.meta,
            r.content.data@ == entry.content@,
            r.content.format@ == entry.format@,
    {
        Page {
            title: entry.title.as_str(),
            description: match &entry.description {
                Some(d) => Some(d.as_str()),
                None => None,
            },
            date: match &entry.date {
                Some(d) => Some(d),
                None => None,
            },
            updated: &entry.updated,
            href: entry.name.as_str(),
            index: None,
            meta: &entry.meta,
            content: Content { data: entry.content.as_str(), format: entry.format.as_str() },
        }
    }
}

/// What a template is given: the page being rendered and the site.
#[derive(Debug)]
pub struct Context<'a, SM, PM> {
    pub page: &'a Page<'a, PM>,
    pub site: &'a Site<'a, SM>,
}

impl<'a, SM, PM> Context<'a, SM, PM> {
    /// The canonical url of the page.
    pub fn canonical_url(&self) -> (r: CanonicalUrl<'a>)
        ensures
            r.origin() == self.site.origin@,
            r.prefix() == self.site.prefix@,
            r.href() == self.page.href@,
    {
        CanonicalUrl { origin: self.site.origin, prefix: self.site.prefix, href: self.page.href }
    }
}

} // verus!
