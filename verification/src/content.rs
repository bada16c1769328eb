//! Rendering of page content by format, HTML escaping, and the text of dates.

use vstd::prelude::*;
use crate::render::{decimal_text, to_decimal};
use crate::text::{chars_of, push_char, push_str, same_text, string_of_range};

verus! {

/// The HTML escape of one character, as `horrorshow` writes escaped text: `&`, `"`, `<` and `>`
/// become entities; everything else stays.
pub open spec fn escape_char(c: char) -> Seq<char> {
    if c == '&' {
        "&amp;"@
    } else if c == '"' {
        "&quot;"@
    } else if c == '<' {
        "&lt;"@
    } else if c == '>' {
        "&gt;"@
    } else {
        seq![c]
    }
}

/// The HTML escape of a text, character by character.
pub open spec fn html_escape(s: Seq<char>) -> Seq<char>
    decreases s.len(),
{
    if s.len() == 0 {
        Seq::empty()
    } else {
        html_escape(s.drop_last()) + escape_char(s.last())
    }
}

/// Escaped text cannot open or close a tag or an attribute value: it holds no `<`, `>` or `"`.
pub proof fn escaped_text_has_no_markup(s: Seq<char>)
    ensures
        forall|i: int|
            0 <= i < html_escape(s).len() ==> #[trigger] html_escape(s)[i] != '<' && html_escape(
                s,
            )[i] != '>' && html_escape(s)[i] != '"',
    decreases s.len(),
{
    if s.len() > 0 {
        escaped_text_has_no_markup(s.drop_last());
        let head = html_escape(s.drop_last());
        let tail = escape_char(s.last());
        reveal_strlit("&amp;");
        reveal_strlit("&quot;");
        reveal_strlit("&lt;");
        reveal_strlit("&gt;");
        assert forall|i: int| 0 <= i < html_escape(s).len() implies #[trigger] html_escape(s)[i]
            != '<' && html_escape(s)[i] != '>' && html_escape(s)[i] != '"' by {
            if i < head.len() {
                assert(html_escape(s)[i] == head[i]);
            } else {
                assert(html_escape(s)[i] == tail[i - head.len()]);
            }
        }
    }
}

/// Appends the HTML escape of a text to `out`.
pub fn push_escaped(out: &mut String, s: &str)
    ensures
        final(out)@ == old(out)@ + html_escape(s@),
{
    let cs = chars_of(s);
    let mut i: usize = 0;
    while i < cs.len()
        invariant
            i <= cs@.len(),
            cs@ == s@,
            out@ == old(out)@ + html_escape(s@.take(i as int)),
        decreases cs@.len() - i,
    {
        let c = cs[i];
        let ghost before = out@;
        if c == '&' {
            push_str(out, "&amp;");
        } else if c == '"' {
            push_str(out, "&quot;");
        } else if c == '<' {
            push_str(out, "&lt;");
        } else if c == '>' {
            push_str(out, "&gt;");
        } else {
            push_char(out, c);
        }
        proof {
            assert(s@.take(i + 1).drop_last() =~= s@.take(i as int));
            assert(s@.take(i + 1).last() == c);
            assert(out@ =~= before + escape_char(c));
        }
        i = i + 1;
    }
    proof {
        assert(s@.take(cs@.len() as int) =~= s@);
    }
}

/// The HTML escape of a text.
pub fn escape_html(s: &str) -> (r: String)
    ensures
        r@ == html_escape(s@),
{
    let mut out = String::new();
    push_escaped(&mut out, s);
    out
}

/// How content is rendered, by its format.
#[derive(Debug, Clone, Copy, PartialEq, Eq, Structural)]
pub enum ContentKind {
    /// `mkd`, `md`, `markdown`.
    Markdown,
    /// `html`: inserted as is.
    Html,
    /// No extension, `text`, `txt`: escaped paragraphs.
    Text,
    /// Any other format, which is an error.
    Unknown,
}

/// The kind of content of a format.
pub open spec fn spec_content_kind(format: Seq<char>) -> ContentKind {
    if format == "mkd"@ || format == "md"@ || format == "markdown"@ {
        ContentKind::Markdown
    } else if format == "html"@ {
        ContentKind::Html
    } else if format.len() == 0 || format == "text"@ || format == "txt"@ {
        ContentKind::Text
    } else {
        ContentKind::Unknown
    }
}

/// How content of the given format is rendered (see `spec_content_kind`).
pub fn content_kind(format: &str) -> (r: ContentKind)
    ensures
        r == spec_content_kind(format@),
{
    if same_text(format, "mkd") || same_text(format, "md") || same_text(format, "markdown") {
        ContentKind::Markdown
    } else if same_text(format, "html") {
        ContentKind::Html
    } else if format.unicode_len() == 0 || same_text(format, "text") || same_text(format, "txt") {
        ContentKind::Text
    } else {
        ContentKind::Unknown
    }
}

/// The error of content in an unknown format: `unknown format '{format}'`.
pub fn unknown_format_message(format: &str) -> (r: String)
    ensures
        r@ == "unknown format '"@ + format@ + "'"@,
{
    let mut s = "unknown format '".to_owned();
    push_str(&mut s, format);
    push_str(&mut s, "'");
    s
}

/// The position, at `i` or later, of the first blank line break (two newlines); -1 if none.
pub open spec fn next_break(s: Seq<char>, i: int) -> int
    decreases s.len() - i,
{
    if i < 0 || i + 1 >= s.len() {
        -1
    } else if s[i] == '\n' && s[i + 1] == '\n' {
        i
    } else {
        next_break(s, i + 1)
    }
}

/// The paragraphs of a text from position `i`: the pieces between blank line breaks, as
/// `str::split("\n\n")` gives them.
pub open spec fn paragraphs_from(s: Seq<char>, i: int) -> Seq<Seq<char>>
    decreases s.len() - i,
{
    let b = next_break(s, i);
    if b < 0 || i < 0 || i > s.len() {
        seq![s.subrange(i, s.len() as int)]
    } else {
        proof {
            lemma_next_break(s, i);
        }
        seq![s.subrange(i, b)] + paragraphs_from(s, b + 2)
    }
}

/// A blank line break found from `i` lies at `i` or later, within the text.
pub proof fn lemma_next_break(s: Seq<char>, i: int)
    requires
        0 <= i,
    ensures
        next_break(s, i) == -1 || (i <= next_break(s, i) && next_break(s, i) + 1 < s.len()),
    decreases s.len() - i,
{
    if i + 1 < s.len() && !(s[i] == '\n' && s[i + 1] == '\n') {
        lemma_next_break(s, i + 1);
    }
}

/// The HTML of paragraphs: each escaped and wrapped in `<p>`.
pub open spec fn paragraphs_html(ps: Seq<Seq<char>>) -> Seq<char>
    decreases ps.len(),
{
    if ps.len() == 0 {
        Seq::empty()
    } else {
        "<p>"@ + html_escape(ps[0]) + "</p>"@ + paragraphs_html(ps.drop_first())
    }
}

/// Renders plain-text content: its paragraphs (separated by blank lines), escaped, each in
/// `<p>`.
pub fn render_text(data: &str) -> (r: String)
    ensures
        r@ == paragraphs_html(paragraphs_from(data@, 0)),
{
    let cs = chars_of(data);
    let n: usize = cs.len();
    let mut out = String::new();
    let mut i: usize = 0;
    loop
        invariant
            i <= n == cs@.len(),
            cs@ == data@,
            out@ + paragraphs_html(paragraphs_from(data@, i as int)) == paragraphs_html(
                paragraphs_from(data@, 0),
            ),
        decreases n - i,
    {
        // Find the next blank line break.
        let mut j: usize = i;
        while j < n && j + 1 < n && !(cs[j] == '\n' && cs[j + 1] == '\n')
            invariant
                i <= j <= n,
                n == cs@.len(),
                cs@ == data@,
                next_break(data@, i as int) == next_break(data@, j as int),
            decreases n - j,
        {
            j = j + 1;
        }
        let ghost ps = paragraphs_from(data@, i as int);
        proof {
            lemma_next_break(data@, j as int);
        }
        if j >= n || j + 1 >= n {
            let piece = string_of_range(&cs, i, n);
            push_str(&mut out, "<p>");
            push_escaped(&mut out, piece.as_str());
            push_str(&mut out, "</p>");
            proof {
                assert(ps =~= seq![data@.subrange(i as int, n as int)]);
                assert(ps.drop_first() =~= Seq::<Seq<char>>::empty());
                assert(paragraphs_html(ps.drop_first()) =~= Seq::<char>::empty());
                assert(paragraphs_html(ps) =~= "<p>"@ + html_escape(ps[0]) + "</p>"@);
            }
            return out;
        }
        let piece = string_of_range(&cs, i, j);
        push_str(&mut out, "<p>");
        push_escaped(&mut out, piece.as_str());
        push_str(&mut out, "</p>");
        proof {
            assert(ps == seq![data@.subrange(i as int, j as int)] + paragraphs_from(data@, j + 2));
            assert(ps.drop_first() =~= paragraphs_from(data@, j + 2));
        }
        i = j + 2;
    }
}

/// A number padded with zeros to at least `width` characters.
pub open spec fn zero_padded(n: nat, width: nat) -> Seq<char> {
    let d = decimal_text(n);
    if d.len() >= width {
        d
    } else {
        Seq::new((width - d.len()) as nat, |i: int| '0') + d
    }
}

/// A signed number zero-padded to `width` characters with its sign counted, as `{:0w}` formats
/// it.
pub open spec fn signed_zero_padded(n: int, width: nat) -> Seq<char> {
    if n < 0 {
        seq!['-'] + zero_padded((-n) as nat, if width > 0 { (width - 1) as nat } else { 0 })
    } else {
        zero_padded(n as nat, width)
    }
}

/// Formats a number with zeros in front up to `width` characters (see `zero_padded`).
fn pad_zeros(n: u64, width: usize) -> (r: String)
    ensures
        r@ == zero_padded(n as nat, width as nat),
{
    let d = to_decimal(n);
    let len: usize = d.unicode_len();
    if len >= width {
        return d;
    }
    let mut s = String::new();
    let mut k: usize = 0;
    while k < width - len
        invariant
            k <= width - len,
            s@ == Seq::new(k as nat, |i: int| '0'),
        decreases width - len - k,
    {
        push_char(&mut s, '0');
        proof {
            assert(s@ =~= Seq::new((k + 1) as nat, |i: int| '0'));
        }
        k = k + 1;
    }
    push_str(&mut s, d.as_str());
    s
}

/// The text of a date: `{year:04}-{month:02}-{day:02}`.
pub open spec fn date_text_of(year: i32, month: u32, day: u32) -> Seq<char> {
    signed_zero_padded(year as int, 4) + seq!['-'] + zero_padded(month as nat, 2) + seq!['-']
        + zero_padded(day as nat, 2)
}

/// Formats a date as `{year:04}-{month:02}-{day:02}` (see `date_text_of`).
pub fn date_text(year: i32, month: u32, day: u32) -> (r: String)
    ensures
        r@ == date_text_of(year, month, day),
{
    let mut s = if year < 0 {
        let mut s = "-".to_owned();
        let magnitude: u64 = if year == i32::MIN {
            2147483648
        } else {
            (-year) as u64
        };
        let p = pad_zeros(magnitude, 3);
        push_str(&mut s, p.as_str());
        proof {
            reveal_strlit("-");
        }
        s
    } else {
        pad_zeros(year as u64, 4)
    };
    push_char(&mut s, '-');
    let m = pad_zeros(month as u64, 2);
    push_str(&mut s, m.as_str());
    push_char(&mut s, '-');
    let d = pad_zeros(day as u64, 2);
    push_str(&mut s, d.as_str());
    proof {
        assert(s@ =~= date_text_of(year, month, day));
    }
    s
}

} // verus!
