//! What the command-line tool computes: the arguments it takes, the text of a new page and where
//! it goes, and the refreshed `updated:` line of an edited page.

use vstd::prelude::*;
use crate::text::{is_ws, chars_of, find_line_end, lemma_line_end_bounds, line_end, push_str, range_equals, string_of_range, trim_end, trimmed_range_equals};
use crate::util::{joined_path, path_join};

verus! {

/// What the tool is asked to do.
#[derive(Debug, Clone)]
pub enum Command {
    /// Render the site into `destination`, removing what is there first when `force` is set.
    Render { force: bool, destination: String },
    /// Create a new page titled `title` in `directory`, and open it in an editor if `edit` is set.
    New { edit: bool, directory: String, title: String },
    /// Edit the page `file`.
    Edit { file: String },
}

/// The tool's arguments: the source directory (when given) and the command.
#[derive(Debug, Clone)]
pub struct Cli {
    pub source: Option<String>,
    pub command: Command,
}

impl Cli {
    /// The arguments of a run.
    pub fn new(source: Option<String>, command: Command) -> (r: Cli)
        ensures
            r.source == source,
            r.command == command,
    {
        Cli { source, command }
    }
}

/// What `slug::slugify` makes of a text.
pub uninterp spec fn slugified(text: Seq<char>) -> Seq<char>;

/// A slug as `slug::slugify` documents it: only `a`-`z`, `0`-`9` and `-`, never two `-` in a
/// row, and no `-` at either end.
pub open spec fn is_slug(s: Seq<char>) -> bool {
    &&& forall|i: int|
        0 <= i < s.len() ==> ('a' <= #[trigger] s[i] <= 'z' || '0' <= s[i] <= '9' || s[i] == '-')
    &&& forall|i: int| 0 <= i < s.len() - 1 ==> !(#[trigger] s[i] == '-' && s[i + 1] == '-')
    &&& s.len() > 0 ==> s[0] != '-' && s.last() != '-'
}

/// Turns a text into a slug for a file name.
///
/// Trusted: calls `slug::slugify`. Its result is named (`slugified`), and the contract states
/// what the crate's documentation promises of every slug.
#[verifier::external_body]
fn slugify(text: &str) -> (r: String)
    ensures
        r@ == slugified(text@),
        is_slug(r@),
{
    slug::slugify(text)
}

/// The text of a new page: front matter giving its title, and its date as both its creation and
/// its update date.
pub open spec fn new_page_text_of(title: Seq<char>, date: Seq<char>) -> Seq<char> {
    "---\n"@ + "title: "@ + title + "\n"@ + "date: "@ + date + "\n"@ + "updated: "@ + date + "\n"@
        + "---\n"@
}

/// The text of a new page (see `new_page_text_of`).
pub fn new_page_text(title: &str, date: &str) -> (r: String)
    ensures
        r@ == new_page_text_of(title@, date@),
{
    let mut s = "---\n".to_owned();
    push_str(&mut s, "title: ");
    push_str(&mut s, title);
    push_str(&mut s, "\n");
    push_str(&mut s, "date: ");
    push_str(&mut s, date);
    push_str(&mut s, "\n");
    push_str(&mut s, "updated: ");
    push_str(&mut s, date);
    push_str(&mut s, "\n");
    push_str(&mut s, "---\n");
    proof {
        assert(s@ =~= new_page_text_of(title@, date@));
    }
    s
}

/// Where a new page goes: the directory named by the slug of its title, inside `directory`, and
/// the file `index.md` in it.
pub fn new_page_paths(directory: &str, title: &str) -> (r: (String, String))
    ensures
        r.0@ == path_join(directory@, slugified(title@)),
        r.1@ == path_join(r.0@, "index.md"@),
{
    let slug = slugify(title);
    let dir = joined_path(directory, slug.as_str());
    let file = joined_path(dir.as_str(), "index.md");
    (dir, file)
}

/// The line range of a page's front matter whose `updated:` line is rewritten, scanning the
/// lines from `i`: the `updated:` line itself, or an empty range at the closing `---` when
/// there is none; `None` when the text ends first.
pub open spec fn updated_range(s: Seq<char>, i: int) -> Option<(int, int)>
    decreases s.len() - i,
{
    if i < 0 || i >= s.len() {
        None
    } else {
        let e = line_end(s, i);
        let line = s.subrange(i, e);
        if trim_end(line) == "---"@ {
            Some((i, i))
        } else if line.len() >= 8 && line.take(8) == "updated:"@ {
            Some((i, e))
        } else if e <= i || e > s.len() {
            None
        } else {
            updated_range(s, e)
        }
    }
}

/// How editing refreshes a page's text: a page without front matter (or an empty one) is left
/// alone (`None`); otherwise its `updated:` line is replaced by `updated: {date}` (or one is
/// added before the closing `---`). A front matter that does not close is an error.
pub open spec fn updated_text(s: Seq<char>, date: Seq<char>) -> Result<Option<Seq<char>>, Seq<char>> {
    if s.len() == 0 || trim_end(s.subrange(0, line_end(s, 0))) != "---"@ {
        Ok(None)
    } else {
        match updated_range(s, line_end(s, 0)) {
            None => Err("unexpected end of file metadata"@),
            Some((a, b)) => Ok(Some(s.take(a) + "updated: "@ + date + "\n"@ + s.skip(b))),
        }
    }
}

/// The line starting at `i` ends just after the first newline from `i`, or at the end of the
/// text when there is none.
proof fn lemma_line_end_newline(s: Seq<char>, i: int)
    requires
        0 <= i < s.len(),
    ensures
        i < line_end(s, i) <= s.len(),
        forall|j: int| i <= j < line_end(s, i) - 1 ==> s[j] != '\n',
        line_end(s, i) < s.len() ==> s[line_end(s, i) - 1] == '\n',
        line_end(s, i) == s.len() ==> (s[s.len() - 1] == '\n' || forall|j: int|
            i <= j < s.len() ==> s[j] != '\n'),
    decreases s.len() - i,
{
    if s[i] != '\n' {
        if i + 1 < s.len() {
            lemma_line_end_newline(s, i + 1);
            assert forall|j: int| i <= j < line_end(s, i) - 1 implies s[j] != '\n' by {
                if j > i {
                    assert(i + 1 <= j < line_end(s, i + 1) - 1);
                }
            }
        } else {
            assert(line_end(s, i + 1) == s.len());
        }
    }
}

/// A line that ends at the newline at `k` ends just after it.
proof fn lemma_line_end_at(s: Seq<char>, i: int, k: int)
    requires
        0 <= i <= k < s.len(),
        s[k] == '\n',
        forall|j: int| i <= j < k ==> s[j] != '\n',
    ensures
        line_end(s, i) == k + 1,
    decreases k - i,
{
    if i < k {
        lemma_line_end_at(s, i + 1, k);
    }
}

/// A text without its trailing whitespace keeps its first character when that is not
/// whitespace.
proof fn lemma_trim_end_keeps_first(x: Seq<char>)
    requires
        x.len() > 0,
        !is_ws(x[0]),
    ensures
        trim_end(x).len() > 0,
        trim_end(x)[0] == x[0],
    decreases x.len(),
{
    if is_ws(x.last()) {
        lemma_trim_end_keeps_first(x.drop_last());
    }
}

/// The range found by scanning from `i` starts at a line at `i` or later, within the text.
proof fn lemma_updated_range_bounds(s: Seq<char>, i: int)
    requires
        updated_range(s, i) is Some,
    ensures
        ({
            let (a, b) = updated_range(s, i)->0;
            &&& 0 <= i <= a < s.len()
            &&& (b == a || b == line_end(s, a))
        }),
    decreases s.len() - i,
{
    let e = line_end(s, i);
    let line = s.subrange(i, e);
    if !(trim_end(line) == "---"@) && !(line.len() >= 8 && line.take(8) == "updated:"@) {
        lemma_updated_range_bounds(s, e);
    }
}

/// A text that agrees with `s` before the range found from `i` is scanned the same way up to
/// that range.
proof fn lemma_scan_agrees(s: Seq<char>, t: Seq<char>, i: int)
    requires
        updated_range(s, i) is Some,
        (updated_range(s, i)->0).0 <= t.len(),
        s.take((updated_range(s, i)->0).0) == t.take((updated_range(s, i)->0).0),
    ensures
        updated_range(t, i) == updated_range(t, (updated_range(s, i)->0).0),
    decreases s.len() - i,
{
    let a = (updated_range(s, i)->0).0;
    lemma_updated_range_bounds(s, i);
    if i < a {
        let e = line_end(s, i);
        let line = s.subrange(i, e);
        lemma_line_end_newline(s, i);
        assert(!(trim_end(line) == "---"@));
        assert(!(line.len() >= 8 && line.take(8) == "updated:"@));
        assert(updated_range(s, i) == updated_range(s, e));
        lemma_updated_range_bounds(s, e);
        assert(e <= a);
        assert(s[e - 1] == '\n');
        assert forall|j: int| i <= j < e implies t[j] == s[j] by {
            assert(s.take(a)[j] == t.take(a)[j]);
        }
        lemma_line_end_at(t, i, e - 1);
        assert(t.subrange(i, e) =~= line);
        assert(updated_range(t, i) == updated_range(t, e));
        lemma_scan_agrees(s, t, e);
    }
}

/// Refreshing a page's `updated:` line twice with the same date (one line of text) gives the
/// same text as refreshing it once.
pub proof fn update_is_idempotent(s: Seq<char>, date: Seq<char>)
    requires
        forall|j: int| 0 <= j < date.len() ==> date[j] != '\n',
        updated_text(s, date) is Ok,
    ensures
        updated_text(s, date) matches Ok(r) && match r {
            Some(t) => updated_text(t, date) == Ok::<_, Seq<char>>(Some(t)),
            None => true,
        },
{
    if s.len() > 0 && trim_end(s.subrange(0, line_end(s, 0))) == "---"@ {
        let e0 = line_end(s, 0);
        let (a, b) = updated_range(s, e0)->0;
        lemma_updated_range_bounds(s, e0);
        reveal_strlit("updated: ");
        reveal_strlit("updated:");
        reveal_strlit("\n");
        let u = "updated: "@ + date + "\n"@;
        assert("updated: "@.len() == 9);
        assert(u.len() == date.len() + 10);
        let t = s.take(a) + u + s.skip(b);
        // The first line is unchanged.
        lemma_line_end_newline(s, 0);
        assert(s[e0 - 1] == '\n');
        assert forall|j: int| 0 <= j < a implies t[j] == s[j] by {}
        lemma_line_end_at(t, 0, e0 - 1);
        assert(t.subrange(0, e0) =~= s.subrange(0, e0));
        // The scan reaches the refreshed line, which is an `updated:` line.
        assert(s.take(a) =~= t.take(a));
        lemma_scan_agrees(s, t, e0);
        let k = a + u.len() - 1;
        assert(t[k] == u[u.len() - 1]);
        assert(t[k] == '\n');
        assert forall|j: int| a <= j < k implies t[j] != '\n' by {
            assert(t[j] == u[j - a]);
            if j - a >= 9 {
                assert(u[j - a] == date[j - a - 9]);
            } else {
                assert(u[j - a] == "updated: "@[j - a]);
            }
        }
        lemma_line_end_at(t, a, k);
        let line = t.subrange(a, k + 1);
        assert(line =~= u);
        assert(line.take(8) =~= "updated:"@);
        lemma_trim_end_keeps_first(line);
        reveal_strlit("---");
        assert(trim_end(line) != "---"@);
        assert(updated_range(t, a) == Some((a, k + 1)));
        assert(s.take(a) + "updated: "@ + date + "\n"@ + s.skip(b) =~= t);
        assert(updated_text(s, date) == Ok::<_, Seq<char>>(Some(t)));
        assert(t.take(a) + "updated: "@ + date + "\n"@ + t.skip(k + 1) =~= t);
        assert(line_end(t, 0) == e0);
        assert(updated_range(t, e0) == Some((a, k + 1)));
        assert(updated_text(t, date) == Ok::<_, Seq<char>>(Some(t)));
    }
}

/// The range found by scanning from `i` is either empty, at a line that closes the front
/// matter, or exactly one whole line that starts with `updated:`.
proof fn lemma_updated_range_kind(s: Seq<char>, i: int)
    requires
        updated_range(s, i) is Some,
    ensures
        ({
            let (a, b) = updated_range(s, i)->0;
            ||| a == b && trim_end(s.subrange(a, line_end(s, a))) == "---"@
            ||| b == line_end(s, a) && s.subrange(a, b).len() >= 8 && s.subrange(a, b).take(8)
                == "updated:"@
        }),
    decreases s.len() - i,
{
    let e = line_end(s, i);
    let line = s.subrange(i, e);
    if !(trim_end(line) == "---"@) && !(line.len() >= 8 && line.take(8) == "updated:"@) {
        lemma_updated_range_kind(s, e);
    }
}

/// `t` is `s` with the characters `a..b` replaced by the line `updated: {date}`, where `a`
/// lies after the opening line and `a..b` is either empty at the closing `---` line or one
/// whole line that starts with `updated:`.
pub open spec fn replaces_updated_line(s: Seq<char>, date: Seq<char>, t: Seq<char>, a: int, b: int) -> bool {
    &&& line_end(s, 0) <= a <= b <= s.len()
    &&& t == s.take(a) + "updated: "@ + date + "\n"@ + s.skip(b)
    &&& {
        ||| a == b && trim_end(s.subrange(a, line_end(s, a))) == "---"@
        ||| b == line_end(s, a) && s.subrange(a, b).len() >= 8 && s.subrange(a, b).take(8)
            == "updated:"@
    }
}

/// Refreshing a page keeps its text but for one line: the text before some position after
/// the opening `---` line and the text from some later position are kept as they are, and
/// between them either nothing was there (the `updated:` line goes just before the closing
/// `---`) or exactly one whole line that starts with `updated:`. Every other line, such as
/// the `date:` line, is left unchanged.
pub proof fn refresh_changes_only_the_updated_line(s: Seq<char>, date: Seq<char>)
    ensures
        updated_text(s, date) matches Ok(Some(t)) ==> exists|a: int, b: int|
            #[trigger] replaces_updated_line(s, date, t, a, b),
{
    if s.len() > 0 && trim_end(s.subrange(0, line_end(s, 0))) == "---"@ {
        let e0 = line_end(s, 0);
        if updated_range(s, e0) is Some {
            let (a, b) = updated_range(s, e0)->0;
            lemma_updated_range_bounds(s, e0);
            lemma_updated_range_kind(s, e0);
            lemma_line_end_bounds(s, a);
            let t = s.take(a) + "updated: "@ + date + "\n"@ + s.skip(b);
            assert(updated_text(s, date) == Ok::<_, Seq<char>>(Some(t)));
            let t2 = updated_text(s, date)->Ok_0->Some_0;
            assert(t2 =~= t);
            assert(replaces_updated_line(s, date, t2, a, b));
        } else {
            assert(updated_text(s, date) is Err);
        }
    } else {
        assert(updated_text(s, date) == Ok::<Option<Seq<char>>, Seq<char>>(None));
    }
}

/// Refreshes the `updated:` line of a page's text (see `updated_text`).
pub fn update_page_text(text: &str, date: &str) -> (r: Result<Option<String>, String>)
    ensures
        match r {
            Ok(Some(t)) => updated_text(text@, date@) == Ok::<_, Seq<char>>(Some(t@)),
            Ok(None) => updated_text(text@, date@) == Ok::<Option<Seq<char>>, Seq<char>>(None),
            Err(m) => updated_text(text@, date@) == Err::<Option<Seq<char>>, _>(m@),
        },
{
    let v = chars_of(text);
    let n: usize = v.len();
    if n == 0 {
        return Ok(None);
    }
    let first: usize = find_line_end(&v, 0);
    if !trimmed_range_equals(&v, 0, first, "---") {
        return Ok(None);
    }
    let mut i: usize = first;
    proof {
        reveal_strlit("updated:");
    }
    loop
        invariant
            0 < first <= i <= n == v@.len(),
            v@ == text@,
            first == line_end(text@, 0),
            trim_end(text@.subrange(0, first as int)) == "---"@,
            updated_range(text@, first as int) == updated_range(text@, i as int),
        decreases n - i,
    {
        if i >= n {
            return Err("unexpected end of file metadata".to_owned());
        }
        let e: usize = find_line_end(&v, i);
        if trimmed_range_equals(&v, i, e, "---") {
            return Ok(Some(replaced_line(&v, i, i, date)));
        }
        if e - i >= 8 && range_equals(&v, i, i + 8, "updated:") {
            proof {
                assert(v@.subrange(i as int, e as int).take(8) =~= v@.subrange(i as int, i + 8));
            }
            return Ok(Some(replaced_line(&v, i, e, date)));
        }
        proof {
            if e - i >= 8 {
                assert(v@.subrange(i as int, e as int).take(8) =~= v@.subrange(i as int, i + 8));
            }
        }
        i = e;
    }
}

/// The text with the characters `a..b` replaced by the line `updated: {date}`.
fn replaced_line(v: &Vec<char>, a: usize, b: usize, date: &str) -> (r: String)
    requires
        a <= b <= v@.len(),
    ensures
        r@ == v@.take(a as int) + "updated: "@ + date@ + "\n"@ + v@.skip(b as int),
{
    let mut s = string_of_range(v, 0, a);
    push_str(&mut s, "updated: ");
    push_str(&mut s, date);
    push_str(&mut s, "\n");
    let rest = string_of_range(v, b, v.len());
    push_str(&mut s, rest.as_str());
    proof {
        assert(v@.subrange(0, a as int) =~= v@.take(a as int));
        assert(v@.subrange(b as int, v@.len() as int) =~= v@.skip(b as int));
    }
    s
}

} // verus!
