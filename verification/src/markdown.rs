//! What the markdown renderer decides for itself: where relative links point, how footnotes are
//! numbered, and which language a code block declares.

use vstd::prelude::*;
use crate::text::{chars_of, push_str, same_text, string_of_range};
use crate::url::{is_absolute_url, spec_is_absolute_url};

verus! {

/// The text without the given character at its end, however often it occurs there.
pub open spec fn trim_end_char(s: Seq<char>, c: char) -> Seq<char>
    decreases s.len(),
{
    if s.len() > 0 && s.last() == c {
        trim_end_char(s.drop_last(), c)
    } else {
        s
    }
}

/// The text without the given character at its start, however often it occurs there.
pub open spec fn trim_start_char(s: Seq<char>, c: char) -> Seq<char>
    decreases s.len(),
{
    if s.len() > 0 && s[0] == c {
        trim_start_char(s.drop_first(), c)
    } else {
        s
    }
}

/// Removes every trailing `c` (as `str::trim_end_matches` with a character does).
pub fn trim_end_matches_char(s: &str, c: char) -> (r: &str)
    ensures
        r@ == trim_end_char(s@, c),
{
    let mut n: usize = s.unicode_len();
    proof {
        assert(s@.take(n as int) =~= s@);
    }
    while n > 0 && s.get_char(n - 1) == c
        invariant
            n <= s@.len(),
            trim_end_char(s@, c) == trim_end_char(s@.take(n as int), c),
        decreases n,
    {
        proof {
            assert(s@.take(n as int).drop_last() =~= s@.take(n - 1));
        }
        n = n - 1;
    }
    proof {
        assert(s@.subrange(0, n as int) =~= s@.take(n as int));
    }
    s.substring_char(0, n)
}

/// Removes every leading and trailing `c` (as `str::trim_matches` with a character does).
pub fn trim_matches_char(s: &str, c: char) -> (r: &str)
    ensures
        r@ == trim_end_char(trim_start_char(s@, c), c),
{
    let len: usize = s.unicode_len();
    let mut i: usize = 0;
    proof {
        assert(s@.skip(0) =~= s@);
    }
    while i < len && s.get_char(i) == c
        invariant
            i <= len == s@.len(),
            trim_start_char(s@, c) == trim_start_char(s@.skip(i as int), c),
        decreases len - i,
    {
        proof {
            assert(s@.skip(i as int).drop_first() =~= s@.skip(i + 1));
        }
        i = i + 1;
    }
    proof {
        assert(s@.subrange(i as int, len as int) =~= s@.skip(i as int));
    }
    let start = s.substring_char(i, len);
    trim_end_matches_char(start, c)
}

/// A markdown document to be rendered, with where its relative links point.
#[derive(Debug, Clone, Copy, PartialEq, Eq)]
pub struct Markdown<'a> {
    /// The markdown text.
    pub data: &'a str,
    /// The site root that links are made absolute against; empty for relative links.
    pub root: &'a str,
    /// The page's path, without trailing `/`, that `./` links are resolved against.
    pub path: &'a str,
    /// Whether code blocks are syntax highlighted.
    pub highlight: bool,
}

impl<'a> Markdown<'a> {
    /// A markdown renderer for `data`, with links made absolute against `root` (if given) and
    /// `./` links resolved against `path` (its trailing `/` removed).
    pub fn new(data: &'a str, root: Option<&'a str>, path: &'a str, highlight: bool) -> (r: Markdown<'a>)
        ensures
            r.data == data,
            r.root@ == match root {
                Some(x) => x@,
                None => Seq::<char>::empty(),
            },
            r.path@ == trim_end_char(path@, '/'),
            r.highlight == highlight,
    {
        let root = match root {
            Some(x) => x,
            None => "",
        };
        proof {
            reveal_strlit("");
        }
        Markdown { data, root, path: trim_end_matches_char(path, '/'), highlight }
    }
}

/// Where a link of a markdown document points: absolute urls stay as they are; others are put
/// under `root` (when given, with a `/` between), and a leading `./` is replaced by the page's
/// `path` and a `/` (by nothing when the path is empty).
pub open spec fn relative_url_text(root: Seq<char>, path: Seq<char>, href: Seq<char>) -> Seq<char> {
    if spec_is_absolute_url(href) {
        href
    } else {
        let prefix = if root.len() == 0 {
            Seq::<char>::empty()
        } else if root.last() == '/' {
            root
        } else {
            root.push('/')
        };
        let rest = if href.len() >= 2 && href[0] == '.' && href[1] == '/' {
            let local = href.skip(2);
            if path.len() == 0 {
                local
            } else {
                path + seq!['/'] + local
            }
        } else {
            href
        };
        prefix + rest
    }
}

/// A link of a markdown document, with what it is resolved against.
#[derive(Debug, Clone, Copy)]
pub struct RelativeUrl<'b> {
    pub root: &'b str,
    pub path: &'b str,
    pub href: &'b str,
}

impl<'b> RelativeUrl<'b> {
    /// The url as text (see `relative_url_text`).
    pub fn text(&self) -> (r: String)
        ensures
            r@ == relative_url_text(self.root@, self.path@, self.href@),
    {
        if is_absolute_url(self.href) {
            return self.href.to_owned();
        }
        let mut s = String::new();
        let n: usize = self.root.unicode_len();
        if n > 0 {
            push_str(&mut s, self.root);
            if self.root.get_char(n - 1) != '/' {
                push_str(&mut s, "/");
            }
        }
        let cs = chars_of(self.href);
        let m: usize = cs.len();
        if m >= 2 && cs[0] == '.' && cs[1] == '/' {
            if self.path.unicode_len() > 0 {
                push_str(&mut s, self.path);
                push_str(&mut s, "/");
            }
            let local = string_of_range(&cs, 2, m);
            push_str(&mut s, local.as_str());
        } else {
            push_str(&mut s, self.href);
        }
        proof {
            reveal_strlit("/");
            reveal_strlit("");
            assert(cs@.subrange(2, m as int) =~= self.href@.skip(2));
            assert(s@ =~= relative_url_text(self.root@, self.path@, self.href@));
        }
        s
    }
}

/// A link of a markdown document, resolved against its root and its path without any leading or
/// trailing `/`.
pub fn make_relative<'b>(root: &'b str, path: &'b str, href: &'b str) -> (r: RelativeUrl<'b>)
    ensures
        r.root == root,
        r.path@ == trim_end_char(trim_start_char(path@, '/'), '/'),
        r.href == href,
{
    RelativeUrl { root, path: trim_matches_char(path, '/'), href }
}

/// The numbers of a document's footnotes: each name gets the next number (from 1) the first
/// time it is referenced or defined, and keeps it.
#[derive(Debug)]
pub struct Footnotes {
    names: Vec<String>,
}

/// The number of a footnote name among the names seen so far (in order): its position plus
/// one; 0 when it is not among them.
pub open spec fn footnote_number(names: Seq<Seq<char>>, name: Seq<char>) -> nat
    decreases names.len(),
{
    if names.len() == 0 {
        0
    } else if footnote_number(names.drop_last(), name) > 0 {
        footnote_number(names.drop_last(), name)
    } else if names.last() == name {
        names.len()
    } else {
        0
    }
}

impl Footnotes {
    /// The names numbered so far, in order.
    pub closed spec fn names(&self) -> Seq<Seq<char>> {
        self.names@.map_values(|s: String| s@)
    }

    /// No footnote numbered yet.
    pub fn new() -> (r: Footnotes)
        ensures
            r.names() == Seq::<Seq<char>>::empty(),
    {
        let r = Footnotes { names: Vec::new() };
        assert(r.names() =~= Seq::<Seq<char>>::empty());
        r
    }

    /// How many names are numbered.
    pub fn len(&self) -> (r: usize)
        ensures
            r == self.names().len(),
    {
        self.names.len()
    }

    /// The number of the footnote `name`, numbering it if it is new.
    pub fn footnote(&mut self, name: &str) -> (r: u32)
        requires
            old(self).names().len() < u32::MAX,
        ensures
            footnote_number(old(self).names(), name@) > 0 ==> final(self).names() == old(
                self,
            ).names(),
            footnote_number(old(self).names(), name@) == 0 ==> final(self).names() == old(
                self,
            ).names().push(name@),
            r == footnote_number(final(self).names(), name@),
            r > 0,
    {
        let ghost before = self.names();
        let mut i: usize = 0;
        while i < self.names.len()
            invariant
                i <= self.names@.len(),
                self.names() == before,
                before.len() < u32::MAX,
                self.names@.len() == before.len(),
                footnote_number(before.take(i as int), name@) == 0,
            decreases self.names@.len() - i,
        {
            proof {
                assert(before.take(i + 1).drop_last() =~= before.take(i as int));
            }
            if same_text(self.names[i].as_str(), name) {
                proof {
                    assert(before.take(i + 1).last() == name@);
                    assert(footnote_number(before.take(i + 1), name@) == i + 1);
                    lemma_footnote_number_prefix(before, i + 1, name@);
                }
                return (i + 1) as u32;
            }
            i = i + 1;
        }
        proof {
            assert(before.take(i as int) =~= before);
        }
        self.names.push(name.to_owned());
        proof {
            assert(self.names() =~= before.push(name@));
            assert(self.names().drop_last() =~= before);
        }
        self.names.len() as u32
    }
}

/// Extending the list of names keeps the numbers already given.
proof fn lemma_footnote_number_prefix(names: Seq<Seq<char>>, k: int, name: Seq<char>)
    requires
        0 <= k <= names.len(),
        footnote_number(names.take(k), name) > 0,
    ensures
        footnote_number(names, name) == footnote_number(names.take(k), name),
    decreases names.len() - k,
{
    if k < names.len() {
        assert(names.take(k + 1).drop_last() =~= names.take(k));
        lemma_footnote_number_prefix(names, k + 1, name);
    } else {
        assert(names.take(k) =~= names);
    }
}

/// A footnote keeps its number: once a name is numbered, numbering more names does not change
/// it.
pub proof fn footnote_number_is_stable(names: Seq<Seq<char>>, more: Seq<Seq<char>>, name: Seq<char>)
    requires
        footnote_number(names, name) > 0,
    ensures
        footnote_number(names + more, name) == footnote_number(names, name),
{
    assert((names + more).take(names.len() as int) =~= names);
    lemma_footnote_number_prefix(names + more, names.len() as int, name);
}

/// The language that a fenced code block's info string declares: its text up to the first
/// space; none when that is empty.
pub open spec fn code_language(info: Seq<char>) -> Option<Seq<char>> {
    let lang = match info.index_of_first(' ') {
        Some(i) => info.take(i),
        None => info,
    };
    if lang.len() == 0 {
        None
    } else {
        Some(lang)
    }
}

/// The language of a fenced code block (see `code_language`).
pub fn fenced_language(info: &str) -> (r: Option<String>)
    ensures
        match r {
            Some(l) => code_language(info@) == Some(l@),
            None => code_language(info@) is None,
        },
{
    let cs = chars_of(info);
    let mut i: usize = 0;
    while i < cs.len() && cs[i] != ' '
        invariant
            i <= cs@.len(),
            cs@ == info@,
            forall|j: int| 0 <= j < i ==> cs@[j] != ' ',
        decreases cs@.len() - i,
    {
        i = i + 1;
    }
    proof {
        let r = info@.index_of_first(' ');
        info@.index_of_first_ensures(' ');
        if i < cs.len() {
            assert(r == Some(i as int));
        } else {
            assert(r is None);
            assert(cs@.subrange(0, i as int) =~= info@);
        }
        assert(cs@.subrange(0, i as int) =~= info@.take(i as int));
    }
    if i == 0 {
        None
    } else {
        Some(string_of_range(&cs, 0, i))
    }
}

/// Where a footnote reference of the page at `path` points: `{path}/#footnote-{name}`.
pub open spec fn footnote_href_text(path: Seq<char>, name: Seq<char>) -> Seq<char> {
    path + "/#footnote-"@ + name
}

/// The href of a footnote reference (see `footnote_href_text`).
pub fn footnote_href(path: &str, name: &str) -> (r: String)
    ensures
        r@ == footnote_href_text(path@, name@),
{
    let mut s = path.to_owned();
    push_str(&mut s, "/#footnote-");
    push_str(&mut s, name);
    s
}

/// The id of a footnote definition: `footnote-{name}`.
pub fn footnote_id(name: &str) -> (r: String)
    ensures
        r@ == "footnote-"@ + name@,
{
    let mut s = "footnote-".to_owned();
    push_str(&mut s, name);
    s
}

} // verus!
