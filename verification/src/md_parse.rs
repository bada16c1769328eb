//! Parsing markdown text with `pulldown-cmark` into the library's own events, and rendering a
//! document from its text.

use vstd::prelude::*;
use pulldown_cmark::{CodeBlockKind, Event, Options, Parser, Tag};
use crate::markdown::Markdown;
use crate::md_html::{is_unsupported, md_render, render_markdown, MdEvent, MdTag};
use crate::md_html as html;

verus! {

/// An event as `pulldown-cmark` produces it.
#[verifier::external_type_specification]
#[verifier::external_body]
pub struct ExParsedEvent<'a>(pulldown_cmark::Event<'a>);

/// A tag as `pulldown-cmark` produces it.
#[verifier::external_type_specification]
#[verifier::external_body]
pub struct ExParsedTag<'a>(pulldown_cmark::Tag<'a>);

/// A heading level as `pulldown-cmark` produces it.
#[verifier::external_type_specification]
#[verifier::external_body]
pub struct ExParsedHeadingLevel(pulldown_cmark::HeadingLevel);

/// An alert kind as `pulldown-cmark` produces it.
#[verifier::external_type_specification]
#[verifier::external_body]
pub struct ExParsedBlockQuoteKind(pulldown_cmark::BlockQuoteKind);

/// The events that `pulldown_cmark::Parser::new_ext` yields for a text, with the extensions
/// that pages use (tables, footnotes, strikethrough, smart punctuation, definition lists, task
/// lists and GitHub-flavoured alerts).
pub uninterp spec fn markdown_events(text: Seq<char>) -> Seq<MdEvent>;

/// Converts a heading level, variant by variant.
///
/// Trusted: one arm per variant; nothing is stated of the result.
#[verifier::external_body]
fn heading_level(l: pulldown_cmark::HeadingLevel) -> html::MdHeadingLevel {
    match l {
        pulldown_cmark::HeadingLevel::H1 => html::MdHeadingLevel::H1,
        pulldown_cmark::HeadingLevel::H2 => html::MdHeadingLevel::H2,
        pulldown_cmark::HeadingLevel::H3 => html::MdHeadingLevel::H3,
        pulldown_cmark::HeadingLevel::H4 => html::MdHeadingLevel::H4,
        pulldown_cmark::HeadingLevel::H5 => html::MdHeadingLevel::H5,
        pulldown_cmark::HeadingLevel::H6 => html::MdHeadingLevel::H6,
    }
}

/// Converts an alert kind, variant by variant.
///
/// Trusted: one arm per variant; nothing is stated of the result.
#[verifier::external_body]
fn quote_kind(k: pulldown_cmark::BlockQuoteKind) -> html::MdQuoteKind {
    match k {
        pulldown_cmark::BlockQuoteKind::Note => html::MdQuoteKind::Note,
        pulldown_cmark::BlockQuoteKind::Tip => html::MdQuoteKind::Tip,
        pulldown_cmark::BlockQuoteKind::Important => html::MdQuoteKind::Important,
        pulldown_cmark::BlockQuoteKind::Warning => html::MdQuoteKind::Warning,
        pulldown_cmark::BlockQuoteKind::Caution => html::MdQuoteKind::Caution,
    }
}

/// Converts a tag, the block-level variants here and the others in `md_tag_b` and
/// `md_tag_c`, which hand back what they do not cover.
///
/// Trusted: one arm per variant, moving its fields; nothing is stated of the result.
#[verifier::external_body]
fn md_tag(t: Tag) -> MdTag {
    match t {
        Tag::Paragraph => MdTag::Paragraph,
        Tag::Heading { level, id, classes, .. } => MdTag::Heading {
            level: heading_level(level),
            id: id.map(|i| i.to_string()),
            classes: classes.iter().map(|c| c.to_string()).collect(),
        },
        Tag::BlockQuote(k) => MdTag::BlockQuote(k.map(quote_kind)),
        Tag::CodeBlock(CodeBlockKind::Fenced(info)) => MdTag::CodeBlock(Some(info.to_string())),
        Tag::CodeBlock(CodeBlockKind::Indented) => MdTag::CodeBlock(None),
        Tag::HtmlBlock => MdTag::HtmlBlock,
        other => md_tag_b(other),
    }
}

/// Converts the list, footnote and table tags (see `md_tag`).
///
/// Trusted: one arm per variant, moving its fields; nothing is stated of the result.
#[verifier::external_body]
fn md_tag_b(t: Tag) -> MdTag {
    match t {
        Tag::List(start) => MdTag::List(start),
        Tag::Item => MdTag::Item,
        Tag::FootnoteDefinition(name) => MdTag::FootnoteDefinition(name.to_string()),
        Tag::DefinitionList => MdTag::DefinitionList,
        Tag::DefinitionListTitle => MdTag::DefinitionListTitle,
        Tag::DefinitionListDefinition => MdTag::DefinitionListDefinition,
        Tag::Table(_) => MdTag::Table,
        Tag::TableHead => MdTag::TableHead,
        Tag::TableRow => MdTag::TableRow,
        Tag::TableCell => MdTag::TableCell,
        other => md_tag_c(other),
    }
}

/// Converts the inline tags (see `md_tag`).
///
/// Trusted: one arm per variant, moving its fields; nothing is stated of the result.
#[verifier::external_body]
fn md_tag_c(t: Tag) -> MdTag {
    match t {
        Tag::Emphasis => MdTag::Emphasis,
        Tag::Strong => MdTag::Strong,
        Tag::Strikethrough => MdTag::Strikethrough,
        Tag::Superscript => MdTag::Superscript,
        Tag::Subscript => MdTag::Subscript,
        Tag::Link { dest_url: d, title, id, .. } => MdTag::Link { dest_url: d.to_string(), title: title.to_string(), id: id.to_string() },
        Tag::Image { dest_url: d, title, id, .. } => MdTag::Image { dest_url: d.to_string(), title: title.to_string(), id: id.to_string() },
        Tag::MetadataBlock(_) => MdTag::MetadataBlock,
        other => md_tag(other),
    }
}

/// Converts an event, variant by variant, with `md_event_b` for the rest.
///
/// Trusted: one arm per variant, moving its fields; nothing is stated of the result.
#[verifier::external_body]
fn md_event(e: Event) -> MdEvent {
    match e {
        Event::Start(t) => MdEvent::Start(md_tag(t)),
        Event::End(_) => MdEvent::End,
        Event::Text(t) => MdEvent::Text(t.to_string()),
        Event::Code(t) => MdEvent::Code(t.to_string()),
        Event::InlineMath(t) => MdEvent::InlineMath(t.to_string()),
        Event::DisplayMath(t) => MdEvent::DisplayMath(t.to_string()),
        Event::Html(t) => MdEvent::Html(t.to_string()),
        other => md_event_b(other),
    }
}

/// Converts the remaining events (see `md_event`).
///
/// Trusted: one arm per variant, moving its fields; nothing is stated of the result.
#[verifier::external_body]
fn md_event_b(e: Event) -> MdEvent {
    match e {
        Event::InlineHtml(t) => MdEvent::InlineHtml(t.to_string()),
        Event::FootnoteReference(n) => MdEvent::FootnoteReference(n.to_string()),
        Event::SoftBreak => MdEvent::SoftBreak,
        Event::HardBreak => MdEvent::HardBreak,
        Event::Rule => MdEvent::Rule,
        Event::TaskListMarker(done) => MdEvent::TaskListMarker(done),
        other => md_event(other),
    }
}

/// Parses markdown text into its events.
///
/// Trusted: calls `pulldown_cmark::Parser::new_ext` with the extensions of `markdown_events`
/// and converts each event. The events are tied to the text through the name
/// `markdown_events`; that none is a math or metadata event is what the crate documents of
/// those events (they need options that are not passed).
#[verifier::external_body]
pub fn parse_markdown(text: &str) -> (r: Vec<MdEvent>)
    ensures
        r@ == markdown_events(text@),
        forall|k: int| 0 <= k < r@.len() ==> !is_unsupported(#[trigger] r@[k]),
{
    let options = Options::ENABLE_TABLES | Options::ENABLE_FOOTNOTES | Options::ENABLE_STRIKETHROUGH
        | Options::ENABLE_SMART_PUNCTUATION | Options::ENABLE_DEFINITION_LIST
        | Options::ENABLE_TASKLISTS | Options::ENABLE_GFM;
    Parser::new_ext(text, options).map(md_event).collect()
}

/// The error of a document with more events than footnote numbers can count.
pub open spec fn too_many_events_message() -> Seq<char> {
    "too many markdown events"@
}

/// Renders a markdown document as HTML (see `md_render`): parses its text, then renders the
/// events with links resolved against the root and path and footnotes numbered from 1.
pub fn markdown_html(md: &Markdown) -> (r: Result<String, &'static str>)
    ensures
        markdown_events(md.data@).len() < u32::MAX ==> (r matches Ok(s) && s@ == md_render(
            markdown_events(md.data@),
            0,
            Seq::empty(),
            md.root@,
            md.path@,
        ).0),
        markdown_events(md.data@).len() >= u32::MAX ==> (r matches Err(e) && e@
            == too_many_events_message()),
{
    let evs = parse_markdown(md.data);
    if evs.len() >= u32::MAX as usize {
        return Err("too many markdown events");
    }
    Ok(render_markdown(md, &evs))
}

} // verus!
