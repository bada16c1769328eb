//! The HTML of a markdown document, from the stream of events that a markdown parser produces:
//! links made relative, footnotes numbered, code blocks tagged with their language.

use vstd::prelude::*;
use crate::content::{html_escape, push_escaped};
use crate::markdown::{
    code_language, fenced_language, footnote_id, footnote_number, make_relative,
    relative_url_text, trim_end_char, trim_start_char, Footnotes, Markdown,
};
use crate::render::{decimal_text, to_decimal};
use crate::text::{push_char, push_str};

verus! {

/// The kind of an alert block quote.
#[derive(Debug, Clone, Copy, PartialEq, Eq, Structural)]
pub enum MdQuoteKind {
    Note,
    Tip,
    Important,
    Warning,
    Caution,
}

/// The level of a heading.
#[derive(Debug, Clone, Copy, PartialEq, Eq, Structural)]
pub enum MdHeadingLevel {
    H1,
    H2,
    H3,
    H4,
    H5,
    H6,
}

/// A markdown element that encloses other events up to its matching `End`.
#[derive(Debug)]
pub enum MdTag {
    Paragraph,
    Heading { level: MdHeadingLevel, id: Option<String>, classes: Vec<String> },
    BlockQuote(Option<MdQuoteKind>),
    /// A code block: the info string of a fenced block, none for an indented one.
    CodeBlock(Option<String>),
    HtmlBlock,
    /// A list: the number of its first item when ordered.
    List(Option<u64>),
    Item,
    FootnoteDefinition(String),
    DefinitionList,
    DefinitionListTitle,
    DefinitionListDefinition,
    Table,
    TableHead,
    TableRow,
    TableCell,
    Emphasis,
    Strong,
    Strikethrough,
    Superscript,
    Subscript,
    Link { dest_url: String, title: String, id: String },
    Image { dest_url: String, title: String, id: String },
    MetadataBlock,
}

/// An event of a parsed markdown document.
#[derive(Debug)]
pub enum MdEvent {
    Start(MdTag),
    End,
    Text(String),
    Code(String),
    InlineMath(String),
    DisplayMath(String),
    Html(String),
    InlineHtml(String),
    FootnoteReference(String),
    SoftBreak,
    HardBreak,
    Rule,
    TaskListMarker(bool),
}

/// Events that the renderer does not accept: math and metadata blocks, which the parser is not
/// asked to recognize.
pub open spec fn is_unsupported(e: MdEvent) -> bool {
    ||| e is InlineMath
    ||| e is DisplayMath
    ||| e matches MdEvent::Start(MdTag::MetadataBlock)
}

/// An attribute: ` name="value"`, the value escaped.
pub open spec fn attr(name: Seq<char>, value: Seq<char>) -> Seq<char> {
    seq![' '] + name + seq!['=', '"'] + html_escape(value) + seq!['"']
}

/// An attribute written only for a non-empty value.
pub open spec fn nonempty_attr(name: Seq<char>, value: Seq<char>) -> Seq<char> {
    if value.len() == 0 {
        Seq::empty()
    } else {
        attr(name, value)
    }
}

/// Classes joined by spaces, each escaped.
pub open spec fn joined_classes(cs: Seq<Seq<char>>) -> Seq<char>
    decreases cs.len(),
{
    if cs.len() == 0 {
        Seq::empty()
    } else if cs.len() == 1 {
        html_escape(cs[0])
    } else {
        html_escape(cs[0]) + seq![' '] + joined_classes(cs.drop_first())
    }
}

/// The element name of a heading level.
pub open spec fn heading_name(level: MdHeadingLevel) -> Seq<char> {
    match level {
        MdHeadingLevel::H1 => "h1"@,
        MdHeadingLevel::H2 => "h2"@,
        MdHeadingLevel::H3 => "h3"@,
        MdHeadingLevel::H4 => "h4"@,
        MdHeadingLevel::H5 => "h5"@,
        MdHeadingLevel::H6 => "h6"@,
    }
}

/// The number of a heading level: 1 for `H1` up to 6 for `H6`.
pub open spec fn heading_level_number(level: MdHeadingLevel) -> nat {
    match level {
        MdHeadingLevel::H1 => 1,
        MdHeadingLevel::H2 => 2,
        MdHeadingLevel::H3 => 3,
        MdHeadingLevel::H4 => 4,
        MdHeadingLevel::H5 => 5,
        MdHeadingLevel::H6 => 6,
    }
}

/// The element of a heading of level k is named `h` followed by k in decimal.
proof fn lemma_heading_name(level: MdHeadingLevel)
    ensures
        heading_name(level) == seq!['h'] + decimal_text(heading_level_number(level)),
{
    reveal_strlit("h1");
    reveal_strlit("h2");
    reveal_strlit("h3");
    reveal_strlit("h4");
    reveal_strlit("h5");
    reveal_strlit("h6");
    assert(heading_name(level) =~= seq!['h'] + decimal_text(heading_level_number(level)));
}

/// The class of an alert block quote.
pub open spec fn quote_class(kind: MdQuoteKind) -> Seq<char> {
    match kind {
        MdQuoteKind::Note => "note"@,
        MdQuoteKind::Tip => "tip"@,
        MdQuoteKind::Important => "important"@,
        MdQuoteKind::Warning => "warning"@,
        MdQuoteKind::Caution => "caution"@,
    }
}

/// The texts of a vector of strings.
pub open spec fn views(v: Seq<String>) -> Seq<Seq<char>> {
    v.map_values(|s: String| s@)
}

/// Where a link's destination points (see `relative_url_text`), resolved against the root and
/// the page path without leading or trailing `/`.
pub open spec fn link_target(root: Seq<char>, path: Seq<char>, href: Seq<char>) -> Seq<char> {
    relative_url_text(root, trim_end_char(trim_start_char(path, '/'), '/'), href)
}

/// The opening HTML of an element (not an image or a footnote definition).
pub open spec fn tag_open(tag: MdTag, root: Seq<char>, path: Seq<char>) -> Seq<char> {
    match tag {
        MdTag::Paragraph => "<p>"@,
        MdTag::Heading { level, id, classes } => seq!['<'] + heading_name(level) + match id {
            Some(i) => attr("id"@, i@),
            None => Seq::empty(),
        } + if classes@.len() == 0 {
            Seq::empty()
        } else {
            " class=\""@ + joined_classes(views(classes@)) + seq!['"']
        } + seq!['>'],
        MdTag::BlockQuote(kind) => "<blockquote"@ + match kind {
            Some(k) => attr("class"@, quote_class(k)),
            None => Seq::empty(),
        } + seq!['>'],
        MdTag::CodeBlock(info) => match info {
            Some(i) => match code_language(i@) {
                Some(lang) => "<pre><code"@ + attr("class"@, "lang-"@ + lang) + seq!['>'],
                None => "<pre><code>"@,
            },
            None => "<pre><code>"@,
        },
        MdTag::HtmlBlock => Seq::empty(),
        MdTag::List(start) => match start {
            None => "<ul>"@,
            Some(n) => if n == 0 {
                "<ol>"@
            } else {
                "<ol"@ + attr("start"@, decimal_text(n as nat)) + seq!['>']
            },
        },
        MdTag::Item => "<li>"@,
        MdTag::DefinitionList => "<dl>"@,
        MdTag::DefinitionListTitle => "<dt>"@,
        MdTag::DefinitionListDefinition => "<dd>"@,
        MdTag::Table => "<table>"@,
        MdTag::TableHead => "<thead><tr>"@,
        MdTag::TableRow => "<tr>"@,
        MdTag::TableCell => "<td>"@,
        MdTag::Emphasis => "<em>"@,
        MdTag::Strong => "<strong>"@,
        MdTag::Strikethrough => "<s>"@,
        MdTag::Superscript => "<sup>"@,
        MdTag::Subscript => "<sub>"@,
        MdTag::Link { dest_url, title, id } => "<a"@ + attr("href"@, link_target(root, path, dest_url@))
            + nonempty_attr("title"@, title@) + nonempty_attr("id"@, id@) + seq!['>'],
        _ => Seq::empty(),
    }
}

/// The closing HTML of an element.
pub open spec fn tag_close(tag: MdTag) -> Seq<char> {
    match tag {
        MdTag::Paragraph => "</p>"@,
        MdTag::Heading { level, .. } => seq!['<', '/'] + heading_name(level) + seq!['>'],
        MdTag::BlockQuote(_) => "</blockquote>"@,
        MdTag::CodeBlock(_) => "</code></pre>"@,
        MdTag::HtmlBlock => Seq::empty(),
        MdTag::List(start) => match start {
            None => "</ul>"@,
            Some(_) => "</ol>"@,
        },
        MdTag::Item => "</li>"@,
        MdTag::FootnoteDefinition(_) => "</div>"@,
        MdTag::DefinitionList => "</dl>"@,
        MdTag::DefinitionListTitle => "</dt>"@,
        MdTag::DefinitionListDefinition => "</dd>"@,
        MdTag::Table => "</table>"@,
        MdTag::TableHead => "</tr></thead>"@,
        MdTag::TableRow => "</tr>"@,
        MdTag::TableCell => "</td>"@,
        MdTag::Emphasis => "</em>"@,
        MdTag::Strong => "</strong>"@,
        MdTag::Strikethrough => "</s>"@,
        MdTag::Superscript => "</sup>"@,
        MdTag::Subscript => "</sub>"@,
        MdTag::Link { .. } => "</a>"@,
        _ => Seq::empty(),
    }
}

/// The names numbered after a footnote is referenced or defined.
pub open spec fn noted(names: Seq<Seq<char>>, name: Seq<char>) -> Seq<Seq<char>> {
    if footnote_number(names, name) > 0 {
        names
    } else {
        names.push(name)
    }
}

/// The number of a footnote once referenced or defined.
pub open spec fn note_number(names: Seq<Seq<char>>, name: Seq<char>) -> nat {
    footnote_number(noted(names, name), name)
}

/// The opening HTML of a footnote definition numbered `n`.
pub open spec fn footnote_open(name: Seq<char>, n: nat) -> Seq<char> {
    "<div"@ + attr("class"@, "footnote"@) + attr("id"@, "footnote-"@ + name) + seq!['>']
        + "<sup"@ + attr("class"@, "footnote-label"@) + seq!['>'] + decimal_text(n) + "</sup>"@
}

/// The HTML of a footnote reference numbered `n`, from the page at `path`.
pub open spec fn footnote_ref(path: Seq<char>, name: Seq<char>, n: nat) -> Seq<char> {
    "<sup"@ + attr("class"@, "footnote-reference"@) + seq!['>'] + "<a"@ + attr(
        "href"@,
        path + "/#footnote-"@ + name,
    ) + seq!['>'] + decimal_text(n) + "</a></sup>"@
}

/// The HTML of an event that is no element.
pub open spec fn leaf_html(e: MdEvent, names: Seq<Seq<char>>, path: Seq<char>) -> Seq<char> {
    match e {
        MdEvent::Text(t) => html_escape(t@),
        MdEvent::Code(t) => "<code>"@ + html_escape(t@) + "</code>"@,
        MdEvent::Html(t) => t@,
        MdEvent::InlineHtml(t) => t@,
        MdEvent::FootnoteReference(name) => footnote_ref(path, name@, note_number(names, name@)),
        MdEvent::SoftBreak => seq!['\n'],
        MdEvent::HardBreak => "<br>"@,
        MdEvent::Rule => "<hr>"@,
        MdEvent::TaskListMarker(checked) => "<input"@ + attr("type"@, "checkbox"@) + if checked {
            " checked"@
        } else {
            Seq::empty()
        } + " disabled>"@,
        _ => Seq::empty(),
    }
}

/// The names numbered after an event that is no element.
pub open spec fn leaf_names(e: MdEvent, names: Seq<Seq<char>>) -> Seq<Seq<char>> {
    match e {
        MdEvent::FootnoteReference(name) => noted(names, name@),
        _ => names,
    }
}

/// The plain text of the events from `i` up to the `End` that closes the enclosing element
/// (consumed), as an image's alternative text: texts and inline code escaped, breaks as spaces,
/// rules as newlines, nested elements entered; with where the scan stopped.
pub open spec fn inner_text(evs: Seq<MdEvent>, i: int, nest: nat) -> (Seq<char>, int)
    decreases evs.len() - i,
{
    if i < 0 || i >= evs.len() {
        (Seq::empty(), i)
    } else {
        match evs[i] {
            MdEvent::Start(_) => inner_text(evs, i + 1, nest + 1),
            MdEvent::End => if nest == 0 {
                (Seq::empty(), i + 1)
            } else {
                inner_text(evs, i + 1, (nest - 1) as nat)
            },
            MdEvent::Text(t) => {
                let r = inner_text(evs, i + 1, nest);
                (html_escape(t@) + r.0, r.1)
            },
            MdEvent::Code(t) => {
                let r = inner_text(evs, i + 1, nest);
                (html_escape(t@) + r.0, r.1)
            },
            MdEvent::SoftBreak => {
                let r = inner_text(evs, i + 1, nest);
                (seq![' '] + r.0, r.1)
            },
            MdEvent::HardBreak => {
                let r = inner_text(evs, i + 1, nest);
                (seq![' '] + r.0, r.1)
            },
            MdEvent::Rule => {
                let r = inner_text(evs, i + 1, nest);
                (seq!['\n'] + r.0, r.1)
            },
            _ => inner_text(evs, i + 1, nest),
        }
    }
}

/// The HTML of an image with the given alternative text.
pub open spec fn image_html(root: Seq<char>, path: Seq<char>, dest: Seq<char>, title: Seq<char>, id: Seq<char>, alt: Seq<char>) -> Seq<char> {
    "<img"@ + attr("src"@, link_target(root, path, dest)) + nonempty_attr("title"@, title)
        + nonempty_attr("id"@, id) + " alt=\""@ + alt + "\">"@
}

/// The HTML of the element starting at `i` (its start, contents and end), given the footnotes
/// numbered so far; with the position after it and the footnotes numbered then.
pub open spec fn element_render(evs: Seq<MdEvent>, i: int, names: Seq<Seq<char>>, root: Seq<char>, path: Seq<char>) -> (Seq<char>, int, Seq<Seq<char>>)
    decreases evs.len() - i, 0nat,
{
    if 0 <= i < evs.len() && evs[i] is Start {
        let tag = evs[i]->Start_0;
        match tag {
            MdTag::Image { dest_url, title, id } => {
                let (alt, j) = inner_text(evs, i + 1, 0);
                (image_html(root, path, dest_url@, title@, id@, alt), j, names)
            },
            MdTag::FootnoteDefinition(name) => {
                let names0 = noted(names, name@);
                let inner = md_render(evs, i + 1, names0, root, path);
                (
                    footnote_open(name@, footnote_number(names0, name@)) + inner.0 + tag_close(tag),
                    inner.1,
                    inner.2,
                )
            },
            _ => {
                let inner = md_render(evs, i + 1, names, root, path);
                (tag_open(tag, root, path) + inner.0 + tag_close(tag), inner.1, inner.2)
            },
        }
    } else {
        (Seq::empty(), i, names)
    }
}

/// The HTML of the events from `i` up to the `End` that closes the enclosing element (consumed)
/// or the end of the events, given the footnotes numbered so far; with where rendering stopped
/// and the footnotes numbered then. Each element renders as its opening HTML, its contents and
/// its closing HTML; an image takes its contents as alternative text.
pub open spec fn md_render(evs: Seq<MdEvent>, i: int, names: Seq<Seq<char>>, root: Seq<char>, path: Seq<char>) -> (Seq<char>, int, Seq<Seq<char>>)
    decreases evs.len() - i, 1nat,
{
    if i < 0 || i >= evs.len() {
        (Seq::empty(), i, names)
    } else {
        match evs[i] {
            MdEvent::End => (Seq::empty(), i + 1, names),
            MdEvent::Start(tag) => {
                let (piece, j, names1) = element_render(evs, i, names, root, path);
                if i < j <= evs.len() {
                    let rest = md_render(evs, j, names1, root, path);
                    (piece + rest.0, rest.1, rest.2)
                } else {
                    (piece, j, names1)
                }
            },
            e => {
                let rest = md_render(evs, i + 1, leaf_names(e, names), root, path);
                (leaf_html(e, names, path) + rest.0, rest.1, rest.2)
            },
        }
    }
}

/// A heading of level k is rendered as the element `h{k}`, k in decimal: its HTML opens with
/// `<h{k}` and closes with `</h{k}>`, whatever it holds.
pub proof fn heading_renders_as_its_level(
    evs: Seq<MdEvent>,
    i: int,
    names: Seq<Seq<char>>,
    root: Seq<char>,
    path: Seq<char>,
    level: MdHeadingLevel,
    id: Option<String>,
    classes: Vec<String>,
)
    requires
        0 <= i < evs.len(),
        evs[i] == MdEvent::Start(MdTag::Heading { level, id, classes }),
    ensures
        ({
            let html = element_render(evs, i, names, root, path).0;
            let k = decimal_text(heading_level_number(level));
            &&& html.len() >= 5 + 2 * k.len()
            &&& html.take(2 + k.len() as int) == "<h"@ + k
            &&& html.skip(html.len() - (4 + k.len())) == "</h"@ + k + ">"@
        }),
{
    lemma_heading_name(level);
    reveal_strlit("<h");
    reveal_strlit("</h");
    reveal_strlit(">");
    let tag = MdTag::Heading { level, id, classes };
    let k = decimal_text(heading_level_number(level));
    let inner = md_render(evs, i + 1, names, root, path);
    let open = tag_open(tag, root, path);
    let close = tag_close(tag);
    let html = open + inner.0 + close;
    assert(element_render(evs, i, names, root, path).0 == html);
    assert(k.len() == 1);
    assert(open.take(2 + k.len() as int) =~= "<h"@ + k);
    assert(html.take(2 + k.len() as int) =~= "<h"@ + k);
    assert(close =~= "</h"@ + k + ">"@);
    assert(close.len() == 4 + k.len());
    assert forall|j: int| 0 <= j < close.len() implies html.skip(html.len() - (4 + k.len()))[j]
        == close[j] by {
        assert(html[open.len() + inner.0.len() + j] == close[j]);
    }
    assert(html.skip(html.len() - (4 + k.len())) =~= "</h"@ + k + ">"@);
}

/// Appends an attribute (see `attr`).
fn push_attr(out: &mut String, name: &str, value: &str)
    ensures
        final(out)@ == old(out)@ + attr(name@, value@),
{
    push_char(out, ' ');
    push_str(out, name);
    push_char(out, '=');
    push_char(out, '"');
    push_escaped(out, value);
    push_char(out, '"');
    proof {
        assert(out@ =~= old(out)@ + attr(name@, value@));
    }
}

/// Appends an attribute when its value is not empty (see `nonempty_attr`).
fn push_nonempty_attr(out: &mut String, name: &str, value: &str)
    ensures
        final(out)@ == old(out)@ + nonempty_attr(name@, value@),
{
    if value.unicode_len() > 0 {
        push_attr(out, name, value);
    } else {
        assert(out@ =~= old(out)@ + nonempty_attr(name@, value@));
    }
}

/// Appends classes joined by spaces (see `joined_classes`).
fn push_classes(out: &mut String, classes: &Vec<String>)
    requires
        classes@.len() > 0,
    ensures
        final(out)@ == old(out)@ + joined_classes(views(classes@)),
{
    let n: usize = classes.len();
    let ghost cs = views(classes@);
    let mut i: usize = 0;
    while i < n
        invariant
            i <= n == classes@.len(),
            n > 0,
            cs == views(classes@),
            i == 0 ==> out@ == old(out)@,
            i > 0 ==> out@ + (if i < n { seq![' '] + joined_classes(cs.skip(i as int)) } else { Seq::empty() })
                == old(out)@ + joined_classes(cs),
        decreases n - i,
    {
        if i > 0 {
            push_char(out, ' ');
        }
        push_escaped(out, classes[i].as_str());
        proof {
            let rest = cs.skip(i as int);
            assert(rest[0] == classes@[i as int]@);
            if i + 1 < n {
                assert(rest.drop_first() =~= cs.skip(i + 1));
                assert(joined_classes(rest) == html_escape(rest[0]) + seq![' '] + joined_classes(
                    cs.skip(i + 1),
                ));
            } else {
                assert(rest.len() == 1);
                assert(joined_classes(rest) == html_escape(rest[0]));
            }
            if i == 0 {
                assert(cs.skip(0) =~= cs);
            }
            assert(out@ + (if i + 1 < n { seq![' '] + joined_classes(cs.skip(i + 1)) } else { Seq::empty() })
                =~= old(out)@ + joined_classes(cs));
        }
        i = i + 1;
    }
}

/// The name of a heading's element.
fn heading_tag(level: MdHeadingLevel) -> (r: &'static str)
    ensures
        r@ == heading_name(level),
{
    match level {
        MdHeadingLevel::H1 => "h1",
        MdHeadingLevel::H2 => "h2",
        MdHeadingLevel::H3 => "h3",
        MdHeadingLevel::H4 => "h4",
        MdHeadingLevel::H5 => "h5",
        MdHeadingLevel::H6 => "h6",
    }
}

/// The class of an alert block quote.
fn quote_class_text(kind: MdQuoteKind) -> (r: &'static str)
    ensures
        r@ == quote_class(kind),
{
    match kind {
        MdQuoteKind::Note => "note",
        MdQuoteKind::Tip => "tip",
        MdQuoteKind::Important => "important",
        MdQuoteKind::Warning => "warning",
        MdQuoteKind::Caution => "caution",
    }
}

/// Appends where a link points (see `link_target`).
fn push_link_target(out: &mut String, root: &str, path: &str, href: &str)
    ensures
        final(out)@ == old(out)@ + html_escape(link_target(root@, path@, href@)),
{
    let url = make_relative(root, path, href).text();
    push_escaped(out, url.as_str());
}

/// Appends the opening HTML of a heading (see `tag_open`).
fn push_heading_open(out: &mut String, tag: &MdTag, root: &str, path: &str)
    requires
        tag is Heading,
    ensures
        final(out)@ == old(out)@ + tag_open(*tag, root@, path@),
{
    if let MdTag::Heading { level, id, classes } = tag {
        push_char(out, '<');
        push_str(out, heading_tag(*level));
        let ghost a = out@;
        match id {
            Some(i) => push_attr(out, "id", i.as_str()),
            None => {},
        }
        let ghost b = out@;
        if classes.len() > 0 {
            push_str(out, " class=\"");
            push_classes(out, classes);
            push_char(out, '"');
        }
        let ghost c = out@;
        push_char(out, '>');
        proof {
            assert(b =~= a + match id {
                Some(i) => attr("id"@, i@),
                None => Seq::empty(),
            });
            assert(c =~= b + if classes@.len() == 0 {
                Seq::empty()
            } else {
                " class=\""@ + joined_classes(views(classes@)) + seq!['"']
            });
            assert(out@ =~= old(out)@ + tag_open(*tag, root@, path@));
        }
    }
}

/// Appends the opening HTML of a link (see `tag_open`).
fn push_link_open(out: &mut String, tag: &MdTag, root: &str, path: &str)
    requires
        tag is Link,
    ensures
        final(out)@ == old(out)@ + tag_open(*tag, root@, path@),
{
    if let MdTag::Link { dest_url, title, id } = tag {
        push_str(out, "<a");
        let ghost a = out@;
        push_char(out, ' ');
        push_str(out, "href");
        push_char(out, '=');
        push_char(out, '"');
        push_link_target(out, root, path, dest_url.as_str());
        push_char(out, '"');
        proof {
            reveal_strlit("href");
            assert(out@ =~= a + attr("href"@, link_target(root@, path@, dest_url@)));
        }
        push_nonempty_attr(out, "title", title.as_str());
        push_nonempty_attr(out, "id", id.as_str());
        push_char(out, '>');
        proof {
            assert(out@ =~= old(out)@ + tag_open(*tag, root@, path@));
        }
    }
}

/// Appends the opening HTML of an element (see `tag_open`).
fn push_tag_open(out: &mut String, tag: &MdTag, root: &str, path: &str)
    ensures
        final(out)@ == old(out)@ + tag_open(*tag, root@, path@),
{
    match tag {
        MdTag::Paragraph => push_str(out, "<p>"),
        MdTag::Heading { .. } => push_heading_open(out, tag, root, path),
        MdTag::BlockQuote(kind) => {
            push_str(out, "<blockquote");
            let ghost a = out@;
            match kind {
                Some(k) => push_attr(out, "class", quote_class_text(*k)),
                None => {},
            }
            push_char(out, '>');
            proof {
                assert(out@ =~= old(out)@ + tag_open(*tag, root@, path@));
            }
        },
        MdTag::CodeBlock(info) => {
            let lang = match info {
                Some(i) => fenced_language(i.as_str()),
                None => None,
            };
            match lang {
                Some(l) => {
                    push_str(out, "<pre><code");
                    let mut class = "lang-".to_owned();
                    push_str(&mut class, l.as_str());
                    push_attr(out, "class", class.as_str());
                    push_char(out, '>');
                    proof {
                        assert(out@ =~= old(out)@ + tag_open(*tag, root@, path@));
                    }
                },
                None => push_str(out, "<pre><code>"),
            }
        },
        MdTag::HtmlBlock => {
            assert(out@ =~= old(out)@ + tag_open(*tag, root@, path@));
        },
        MdTag::List(start) => match start {
            None => push_str(out, "<ul>"),
            Some(n) => {
                if *n == 0 {
                    push_str(out, "<ol>");
                } else {
                    push_str(out, "<ol");
                    let d = to_decimal(*n);
                    push_attr(out, "start", d.as_str());
                    push_char(out, '>');
                    proof {
                        assert(out@ =~= old(out)@ + tag_open(*tag, root@, path@));
                    }
                }
            },
        },
        MdTag::Item => push_str(out, "<li>"),
        MdTag::DefinitionList => push_str(out, "<dl>"),
        MdTag::DefinitionListTitle => push_str(out, "<dt>"),
        MdTag::DefinitionListDefinition => push_str(out, "<dd>"),
        MdTag::Table => push_str(out, "<table>"),
        MdTag::TableHead => push_str(out, "<thead><tr>"),
        MdTag::TableRow => push_str(out, "<tr>"),
        MdTag::TableCell => push_str(out, "<td>"),
        MdTag::Emphasis => push_str(out, "<em>"),
        MdTag::Strong => push_str(out, "<strong>"),
        MdTag::Strikethrough => push_str(out, "<s>"),
        MdTag::Superscript => push_str(out, "<sup>"),
        MdTag::Subscript => push_str(out, "<sub>"),
        MdTag::Link { .. } => push_link_open(out, tag, root, path),
        _ => {
            assert(out@ =~= old(out)@ + tag_open(*tag, root@, path@));
        },
    }
}

/// Appends the closing HTML of an element (see `tag_close`).
fn push_tag_close(out: &mut String, tag: &MdTag)
    ensures
        final(out)@ == old(out)@ + tag_close(*tag),
{
    match tag {
        MdTag::Paragraph => push_str(out, "</p>"),
        MdTag::Heading { level, .. } => {
            push_char(out, '<');
            push_char(out, '/');
            push_str(out, heading_tag(*level));
            push_char(out, '>');
            proof {
                assert(out@ =~= old(out)@ + tag_close(*tag));
            }
        },
        MdTag::BlockQuote(_) => push_str(out, "</blockquote>"),
        MdTag::CodeBlock(_) => push_str(out, "</code></pre>"),
        MdTag::HtmlBlock => {
            assert(out@ =~= old(out)@ + tag_close(*tag));
        },
        MdTag::List(start) => match start {
            None => push_str(out, "</ul>"),
            Some(_) => push_str(out, "</ol>"),
        },
        MdTag::Item => push_str(out, "</li>"),
        MdTag::FootnoteDefinition(_) => push_str(out, "</div>"),
        MdTag::DefinitionList => push_str(out, "</dl>"),
        MdTag::DefinitionListTitle => push_str(out, "</dt>"),
        MdTag::DefinitionListDefinition => push_str(out, "</dd>"),
        MdTag::Table => push_str(out, "</table>"),
        MdTag::TableHead => push_str(out, "</tr></thead>"),
        MdTag::TableRow => push_str(out, "</tr>"),
        MdTag::TableCell => push_str(out, "</td>"),
        MdTag::Emphasis => push_str(out, "</em>"),
        MdTag::Strong => push_str(out, "</strong>"),
        MdTag::Strikethrough => push_str(out, "</s>"),
        MdTag::Superscript => push_str(out, "</sup>"),
        MdTag::Subscript => push_str(out, "</sub>"),
        MdTag::Link { .. } => push_str(out, "</a>"),
        _ => {
            assert(out@ =~= old(out)@ + tag_close(*tag));
        },
    }
}

/// Appends the alternative text of an image, from the events after its start up to its `End`
/// (see `inner_text`).
fn push_inner_text(out: &mut String, evs: &Vec<MdEvent>, pos: &mut usize)
    requires
        *old(pos) <= evs@.len(),
    ensures
        final(out)@ == old(out)@ + inner_text(evs@, *old(pos) as int, 0).0,
        *final(pos) == inner_text(evs@, *old(pos) as int, 0).1,
        *old(pos) < *final(pos) <= evs@.len() || *final(pos) == *old(pos) == evs@.len(),
{
    let ghost p0 = *pos as int;
    let mut nest: usize = 0;
    loop
        invariant_except_break
            *pos <= evs@.len(),
            nest <= *pos,
            old(out)@ + inner_text(evs@, p0, 0).0 == out@ + inner_text(evs@, *pos as int, nest as nat).0,
            inner_text(evs@, p0, 0).1 == inner_text(evs@, *pos as int, nest as nat).1,
            p0 <= *pos,
            p0 == *old(pos),
        ensures
            out@ == old(out)@ + inner_text(evs@, p0, 0).0,
            *pos == inner_text(evs@, p0, 0).1,
            p0 < *pos <= evs@.len() || *pos == p0 == evs@.len(),
        decreases evs@.len() - *pos,
    {
        if *pos >= evs.len() {
            proof {
                assert(out@ =~= old(out)@ + inner_text(evs@, p0, 0).0);
            }
            break;
        }
        let i: usize = *pos;
        *pos = i + 1;
        match &evs[i] {
            MdEvent::Start(_) => {
                nest = nest + 1;
            },
            MdEvent::End => {
                if nest == 0 {
                    proof {
                        assert(out@ =~= old(out)@ + inner_text(evs@, p0, 0).0);
                    }
                    break;
                }
                nest = nest - 1;
            },
            MdEvent::Text(t) => {
                push_escaped(out, t.as_str());
            },
            MdEvent::Code(t) => {
                push_escaped(out, t.as_str());
            },
            MdEvent::SoftBreak => {
                push_char(out, ' ');
            },
            MdEvent::HardBreak => {
                push_char(out, ' ');
            },
            MdEvent::Rule => {
                push_char(out, '\n');
            },
            _ => {},
        }
        proof {
            assert(out@ + inner_text(evs@, *pos as int, nest as nat).0 =~= old(out)@ + inner_text(
                evs@,
                p0,
                0,
            ).0);
        }
    }
}

/// Appends the HTML of an event that is no element (see `leaf_html`), numbering a referenced
/// footnote.
fn push_leaf(out: &mut String, e: &MdEvent, fns: &mut Footnotes, path: &str)
    requires
        !(e is Start),
        !(e is End),
        !is_unsupported(*e),
        old(fns).names().len() < u32::MAX,
    ensures
        final(out)@ == old(out)@ + leaf_html(*e, old(fns).names(), path@),
        final(fns).names() == leaf_names(*e, old(fns).names()),
        final(fns).names().len() <= old(fns).names().len() + 1,
{
    match e {
        MdEvent::Text(t) => push_escaped(out, t.as_str()),
        MdEvent::Code(t) => {
            push_str(out, "<code>");
            push_escaped(out, t.as_str());
            push_str(out, "</code>");
            proof {
                assert(out@ =~= old(out)@ + leaf_html(*e, old(fns).names(), path@));
            }
        },
        MdEvent::Html(t) => push_str(out, t.as_str()),
        MdEvent::InlineHtml(t) => push_str(out, t.as_str()),
        MdEvent::FootnoteReference(name) => {
            push_str(out, "<sup");
            push_attr(out, "class", "footnote-reference");
            push_char(out, '>');
            push_str(out, "<a");
            let mut href = path.to_owned();
            push_str(&mut href, "/#footnote-");
            push_str(&mut href, name.as_str());
            push_attr(out, "href", href.as_str());
            push_char(out, '>');
            let n: u32 = fns.footnote(name.as_str());
            let d = to_decimal(n as u64);
            push_str(out, d.as_str());
            push_str(out, "</a></sup>");
            proof {
                assert(out@ =~= old(out)@ + leaf_html(*e, old(fns).names(), path@));
            }
        },
        MdEvent::SoftBreak => {
            push_char(out, '\n');
            assert(out@ =~= old(out)@ + leaf_html(*e, old(fns).names(), path@));
        },
        MdEvent::HardBreak => push_str(out, "<br>"),
        MdEvent::Rule => push_str(out, "<hr>"),
        MdEvent::TaskListMarker(checked) => {
            push_str(out, "<input");
            push_attr(out, "type", "checkbox");
            if *checked {
                push_str(out, " checked");
            }
            push_str(out, " disabled>");
            proof {
                assert(out@ =~= old(out)@ + leaf_html(*e, old(fns).names(), path@));
            }
        },
        _ => {},
    }
}

/// Renders the image starting at `pos` (see `element_render`).
fn render_image(
    out: &mut String,
    evs: &Vec<MdEvent>,
    pos: &mut usize,
    root: &str,
    path: &str,
    dest_url: &String,
    title: &String,
    id: &String,
)
    requires
        *old(pos) < evs@.len(),
        evs@[*old(pos) as int] matches MdEvent::Start(MdTag::Image { dest_url: d, title: t, id: x })
            && d == *dest_url && t == *title && x == *id,
    ensures
        ({
            let r = element_render(evs@, *old(pos) as int, Seq::empty(), root@, path@);
            &&& final(out)@ == old(out)@ + r.0
            &&& *final(pos) == r.1
        }),
        *old(pos) < *final(pos) <= evs@.len(),
{
    let i: usize = *pos;
    let len: usize = evs.len();
    *pos = i + 1;
    push_str(out, "<img");
    let ghost a = out@;
    push_char(out, ' ');
    push_str(out, "src");
    push_char(out, '=');
    push_char(out, '"');
    push_link_target(out, root, path, dest_url.as_str());
    push_char(out, '"');
    proof {
        reveal_strlit("src");
        assert(out@ =~= a + attr("src"@, link_target(root@, path@, dest_url@)));
    }
    push_nonempty_attr(out, "title", title.as_str());
    push_nonempty_attr(out, "id", id.as_str());
    push_str(out, " alt=\"");
    push_inner_text(out, evs, pos);
    push_str(out, "\">");
    proof {
        let (alt, j) = inner_text(evs@, i + 1, 0);
        assert(out@ =~= old(out)@ + image_html(root@, path@, dest_url@, title@, id@, alt));
    }
}

/// Renders the element starting at `pos` (see `element_render`).
fn render_element(
    out: &mut String,
    evs: &Vec<MdEvent>,
    pos: &mut usize,
    fns: &mut Footnotes,
    root: &str,
    path: &str,
)
    requires
        *old(pos) < evs@.len(),
        evs@[*old(pos) as int] is Start,
        forall|k: int| 0 <= k < evs@.len() ==> !is_unsupported(#[trigger] evs@[k]),
        old(fns).names().len() + (evs@.len() - *old(pos)) < u32::MAX,
    ensures
        ({
            let r = element_render(evs@, *old(pos) as int, old(fns).names(), root@, path@);
            &&& final(out)@ == old(out)@ + r.0
            &&& *final(pos) == r.1
            &&& final(fns).names() == r.2
        }),
        *old(pos) < *final(pos) <= evs@.len(),
        final(fns).names().len() <= old(fns).names().len() + (*final(pos) - *old(pos)),
    decreases evs@.len() - *old(pos), 0nat,
{
    let i: usize = *pos;
    let len: usize = evs.len();
    let ghost names_i = fns.names();
    if let MdEvent::Start(tag) = &evs[i] {
        match tag {
            MdTag::Image { dest_url, title, id } => {
                render_image(out, evs, pos, root, path, dest_url, title, id);
            },
            MdTag::FootnoteDefinition(name) => {
                *pos = i + 1;
                push_str(out, "<div");
                push_attr(out, "class", "footnote");
                let fid = footnote_id(name.as_str());
                push_attr(out, "id", fid.as_str());
                push_char(out, '>');
                push_str(out, "<sup");
                push_attr(out, "class", "footnote-label");
                push_char(out, '>');
                let n: u32 = fns.footnote(name.as_str());
                let d = to_decimal(n as u64);
                push_str(out, d.as_str());
                push_str(out, "</sup>");
                proof {
                    assert(out@ =~= old(out)@ + footnote_open(
                        name@,
                        footnote_number(noted(names_i, name@), name@),
                    ));
                }
                render_events(out, evs, pos, fns, root, path);
                push_tag_close(out, tag);
                proof {
                    let inner = md_render(evs@, i + 1, noted(names_i, name@), root@, path@);
                    assert(out@ =~= old(out)@ + (footnote_open(
                        name@,
                        footnote_number(noted(names_i, name@), name@),
                    ) + inner.0 + tag_close(*tag)));
                }
            },
            _ => {
                *pos = i + 1;
                push_tag_open(out, tag, root, path);
                render_events(out, evs, pos, fns, root, path);
                push_tag_close(out, tag);
                proof {
                    let inner = md_render(evs@, i + 1, names_i, root@, path@);
                    assert(out@ =~= old(out)@ + (tag_open(*tag, root@, path@) + inner.0 + tag_close(
                        *tag,
                    )));
                }
            },
        }
    }
}

/// Renders the events from `pos` up to the `End` that closes the enclosing element (or the end
/// of the events) into `out` (see `md_render`).
fn render_events(
    out: &mut String,
    evs: &Vec<MdEvent>,
    pos: &mut usize,
    fns: &mut Footnotes,
    root: &str,
    path: &str,
)
    requires
        *old(pos) <= evs@.len(),
        forall|k: int| 0 <= k < evs@.len() ==> !is_unsupported(#[trigger] evs@[k]),
        old(fns).names().len() + (evs@.len() - *old(pos)) < u32::MAX,
    ensures
        ({
            let r = md_render(evs@, *old(pos) as int, old(fns).names(), root@, path@);
            &&& final(out)@ == old(out)@ + r.0
            &&& *final(pos) == r.1
            &&& final(fns).names() == r.2
        }),
        *old(pos) < *final(pos) <= evs@.len() || *final(pos) == *old(pos) == evs@.len(),
        final(fns).names().len() <= old(fns).names().len() + (*final(pos) - *old(pos)),
    decreases evs@.len() - *old(pos), 1nat,
{
    let ghost p0 = *pos as int;
    let ghost n0 = fns.names();
    loop
        invariant_except_break
            *pos <= evs@.len(),
            p0 <= *pos,
            ({
                let r0 = md_render(evs@, p0, n0, root@, path@);
                let r = md_render(evs@, *pos as int, fns.names(), root@, path@);
                &&& old(out)@ + r0.0 == out@ + r.0
                &&& r0.1 == r.1
                &&& r0.2 == r.2
            }),
            fns.names().len() <= n0.len() + (*pos - p0),
        invariant
            forall|k: int| 0 <= k < evs@.len() ==> !is_unsupported(#[trigger] evs@[k]),
            n0.len() + (evs@.len() - p0) < u32::MAX,
            p0 == *old(pos),
            n0 == old(fns).names(),
        ensures
            ({
                let r = md_render(evs@, p0, n0, root@, path@);
                &&& out@ == old(out)@ + r.0
                &&& *pos == r.1
                &&& fns.names() == r.2
            }),
            p0 < *pos <= evs@.len() || *pos == p0 == evs@.len(),
            fns.names().len() <= n0.len() + (*pos - p0),
        decreases evs@.len() - *pos,
    {
        if *pos >= evs.len() {
            proof {
                assert(out@ =~= old(out)@ + md_render(evs@, p0, n0, root@, path@).0);
            }
            break;
        }
        let i: usize = *pos;
        let ghost names_i = fns.names();
        let ghost out_i = out@;
        match &evs[i] {
            MdEvent::End => {
                *pos = i + 1;
                proof {
                    assert(md_render(evs@, i as int, names_i, root@, path@) == (
                        Seq::<char>::empty(),
                        i + 1,
                        names_i,
                    ));
                    assert(out@ =~= old(out)@ + md_render(evs@, p0, n0, root@, path@).0);
                }
                break;
            },
            MdEvent::Start(_) => {
                render_element(out, evs, pos, fns, root, path);
            },
            e => {
                *pos = i + 1;
                push_leaf(out, e, fns, path);
            },
        }
        proof {
            let ri = md_render(evs@, i as int, names_i, root@, path@);
            let r = md_render(evs@, *pos as int, fns.names(), root@, path@);
            assert(out_i + ri.0 =~= out@ + r.0);
        }
    }
}

/// Renders a markdown document's events as HTML (see `md_render`): links resolved against the
/// document's root and path, footnotes numbered from 1 in the order they first appear.
pub fn render_markdown(md: &Markdown, evs: &Vec<MdEvent>) -> (r: String)
    requires
        forall|k: int| 0 <= k < evs@.len() ==> !is_unsupported(#[trigger] evs@[k]),
        evs@.len() < u32::MAX,
    ensures
        r@ == md_render(evs@, 0, Seq::empty(), md.root@, md.path@).0,
{
    let mut out = String::new();
    let mut fns = Footnotes::new();
    let mut pos: usize = 0;
    render_events(&mut out, evs, &mut pos, &mut fns, md.root, md.path);
    out
}

} // verus!
