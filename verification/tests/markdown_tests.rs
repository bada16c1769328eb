use gazetta::markdown::{fenced_language, make_relative, trim_end_matches_char, trim_matches_char, Footnotes, Markdown};
use gazetta::md_html::{render_markdown, MdQuoteKind, MdHeadingLevel, MdEvent, MdTag};
use gazetta::md_parse::{markdown_html, parse_markdown};
use gazetta::url::is_absolute_url;

#[test]
fn test_is_absolute_url() {
    // Absolute URLs with different schemes
    assert!(is_absolute_url("http://example.com"));
    assert!(is_absolute_url("https://example.com/path"));
    assert!(is_absolute_url("ftp://example.com"));
    assert!(is_absolute_url("file:///path/to/file"));
    assert!(is_absolute_url("mailto:user@example.com"));

    // Relative URLs
    assert!(!is_absolute_url("/path/to/resource"));
    assert!(!is_absolute_url("./relative/path"));
    assert!(!is_absolute_url("../parent/path"));
    assert!(!is_absolute_url("path/to/resource"));
    assert!(!is_absolute_url(""));

    // Edge cases
    assert!(!is_absolute_url("://missing-scheme.com"));
    assert!(is_absolute_url("git+ssh://example.com"));
}

#[test]
fn absolute_url_needs_a_letter_first_and_a_colon() {
    assert!(!is_absolute_url("1http://example.com"));
    assert!(!is_absolute_url("http"));
    assert!(!is_absolute_url("ht tp://x"));
    assert!(is_absolute_url("a:"));
    assert!(!is_absolute_url("é:x"));
}

#[test]
fn markdown_new_trims_trailing_slashes_and_defaults_root() {
    let md = Markdown::new("text", None, "blog/post//", true);
    assert_eq!(md.path, "blog/post");
    assert_eq!(md.root, "");
    assert_eq!(md.data, "text");
    assert!(md.highlight);
    let md = Markdown::new("text", Some("https://x.com"), "/", false);
    assert_eq!(md.path, "");
    assert_eq!(md.root, "https://x.com");
}

#[test]
fn trimming_slashes() {
    assert_eq!(trim_end_matches_char("a/b///", '/'), "a/b");
    assert_eq!(trim_matches_char("//a/b///", '/'), "a/b");
    assert_eq!(trim_matches_char("///", '/'), "");
    assert_eq!(trim_end_matches_char("", '/'), "");
}

#[test]
fn relative_links_are_resolved_against_the_page() {
    assert_eq!(make_relative("", "blog/post/", "./img.png").text(), "blog/post/img.png");
    assert_eq!(make_relative("", "/blog/post/", "./img.png").text(), "blog/post/img.png");
    assert_eq!(make_relative("", "", "./img.png").text(), "img.png");
    assert_eq!(make_relative("https://x.com", "blog", "./img.png").text(), "https://x.com/blog/img.png");
    assert_eq!(make_relative("https://x.com/", "blog", "other.html").text(), "https://x.com/other.html");
    assert_eq!(make_relative("https://x.com", "blog", "https://y.org/z").text(), "https://y.org/z");
    assert_eq!(make_relative("", "blog", "../up.html").text(), "../up.html");
}

#[test]
fn footnotes_keep_their_numbers() {
    let mut f = Footnotes::new();
    assert_eq!(f.footnote("a"), 1);
    assert_eq!(f.footnote("b"), 2);
    assert_eq!(f.footnote("a"), 1);
    assert_eq!(f.footnote("c"), 3);
    assert_eq!(f.footnote("b"), 2);
    assert_eq!(f.len(), 3);
}

#[test]
fn fenced_code_languages() {
    assert_eq!(fenced_language("rust ignore"), Some("rust".to_string()));
    assert_eq!(fenced_language("python"), Some("python".to_string()));
    assert_eq!(fenced_language(""), None);
    assert_eq!(fenced_language(" rust"), None);
}

fn s(t: &str) -> String {
    t.to_string()
}

#[test]
fn markdown_paragraph_with_emphasis_and_link() {
    let md = Markdown::new("", None, "blog/post/", false);
    let evs = vec![
        MdEvent::Start(MdTag::Paragraph),
        MdEvent::Text(s("Hello ")),
        MdEvent::Start(MdTag::Emphasis),
        MdEvent::Text(s("world")),
        MdEvent::End,
        MdEvent::Text(s(" & ")),
        MdEvent::Start(MdTag::Link { dest_url: s("./a.html"), title: s(""), id: s("") }),
        MdEvent::Text(s("link")),
        MdEvent::End,
        MdEvent::End,
    ];
    assert_eq!(
        render_markdown(&md, &evs),
        "<p>Hello <em>world</em> &amp; <a href=\"blog/post/a.html\">link</a></p>"
    );
}

#[test]
fn markdown_image_takes_its_text_as_alt() {
    let md = Markdown::new("", Some("https://x.com"), "p", false);
    let evs = vec![
        MdEvent::Start(MdTag::Image { dest_url: s("./i.png"), title: s("T"), id: s("") }),
        MdEvent::Text(s("alt & ")),
        MdEvent::Start(MdTag::Emphasis),
        MdEvent::Text(s("b")),
        MdEvent::End,
        MdEvent::End,
        MdEvent::Text(s("after")),
    ];
    assert_eq!(
        render_markdown(&md, &evs),
        "<img src=\"https://x.com/p/i.png\" title=\"T\" alt=\"alt &amp; b\">after"
    );
}

#[test]
fn markdown_footnotes() {
    let md = Markdown::new("", None, "p", false);
    let evs = vec![
        MdEvent::Start(MdTag::Paragraph),
        MdEvent::Text(s("x")),
        MdEvent::FootnoteReference(s("n")),
        MdEvent::End,
        MdEvent::Start(MdTag::FootnoteDefinition(s("n"))),
        MdEvent::Start(MdTag::Paragraph),
        MdEvent::Text(s("note")),
        MdEvent::End,
        MdEvent::End,
    ];
    assert_eq!(
        render_markdown(&md, &evs),
        "<p>x<sup class=\"footnote-reference\"><a href=\"p/#footnote-n\">1</a></sup></p>\
         <div class=\"footnote\" id=\"footnote-n\"><sup class=\"footnote-label\">1</sup><p>note</p></div>"
    );
}

#[test]
fn markdown_lists_headings_code_and_tasks() {
    let md = Markdown::new("", None, "", false);
    let evs = vec![
        MdEvent::Start(MdTag::List(Some(3))),
        MdEvent::Start(MdTag::Item),
        MdEvent::TaskListMarker(true),
        MdEvent::Text(s("a")),
        MdEvent::End,
        MdEvent::End,
        MdEvent::Start(MdTag::List(Some(0))),
        MdEvent::End,
        MdEvent::Start(MdTag::List(None)),
        MdEvent::End,
        MdEvent::Start(MdTag::Heading { level: MdHeadingLevel::H2, id: Some(s("top")), classes: vec![s("a"), s("b<")] }),
        MdEvent::Text(s("T")),
        MdEvent::End,
        MdEvent::Start(MdTag::CodeBlock(Some(s("rust ignore")))),
        MdEvent::Text(s("fn x() {}\n")),
        MdEvent::End,
        MdEvent::Start(MdTag::CodeBlock(None)),
        MdEvent::Text(s("<raw>")),
        MdEvent::End,
        MdEvent::Rule,
        MdEvent::HardBreak,
        MdEvent::SoftBreak,
        MdEvent::Code(s("a<b")),
        MdEvent::InlineHtml(s("<b>")),
        MdEvent::TaskListMarker(false),
    ];
    assert_eq!(
        render_markdown(&md, &evs),
        "<ol start=\"3\"><li><input type=\"checkbox\" checked disabled>a</li></ol><ol></ol><ul></ul>\
         <h2 id=\"top\" class=\"a b&lt;\">T</h2>\
         <pre><code class=\"lang-rust\">fn x() {}\n</code></pre><pre><code>&lt;raw&gt;</code></pre>\
         <hr><br>\n<code>a&lt;b</code><b><input type=\"checkbox\" disabled>"
    );
}

#[test]
fn markdown_stops_at_an_unmatched_end() {
    let md = Markdown::new("", None, "", false);
    let evs = vec![MdEvent::Text(s("a")), MdEvent::End, MdEvent::Text(s("b"))];
    assert_eq!(render_markdown(&md, &evs), "a");
}

#[test]
fn markdown_block_quotes_tables_and_definitions() {
    let md = Markdown::new("", None, "", false);
    let evs = vec![
        MdEvent::Start(MdTag::BlockQuote(Some(MdQuoteKind::Warning))),
        MdEvent::Text(s("w")),
        MdEvent::End,
        MdEvent::Start(MdTag::BlockQuote(None)),
        MdEvent::End,
        MdEvent::Start(MdTag::Table),
        MdEvent::Start(MdTag::TableHead),
        MdEvent::Start(MdTag::TableCell),
        MdEvent::Text(s("h")),
        MdEvent::End,
        MdEvent::End,
        MdEvent::Start(MdTag::TableRow),
        MdEvent::Start(MdTag::TableCell),
        MdEvent::Text(s("c")),
        MdEvent::End,
        MdEvent::End,
        MdEvent::End,
        MdEvent::Start(MdTag::DefinitionList),
        MdEvent::Start(MdTag::DefinitionListTitle),
        MdEvent::End,
        MdEvent::Start(MdTag::DefinitionListDefinition),
        MdEvent::End,
        MdEvent::End,
        MdEvent::Start(MdTag::HtmlBlock),
        MdEvent::Html(s("<div>x</div>")),
        MdEvent::End,
        MdEvent::Start(MdTag::Strong),
        MdEvent::Start(MdTag::Strikethrough),
        MdEvent::Start(MdTag::Superscript),
        MdEvent::Start(MdTag::Subscript),
        MdEvent::End,
        MdEvent::End,
        MdEvent::End,
        MdEvent::End,
    ];
    assert_eq!(
        render_markdown(&md, &evs),
        "<blockquote class=\"warning\">w</blockquote><blockquote></blockquote>\
         <table><thead><tr><td>h</td></tr></thead><tr><td>c</td></tr></table>\
         <dl><dt></dt><dd></dd></dl><div>x</div>\
         <strong><s><sup><sub></sub></sup></s></strong>"
    );
}

#[test]
fn markdown_text_is_parsed_and_rendered() {
    let md = Markdown::new("Hello *world* & [link](./a.html)", None, "blog/post/", false);
    assert_eq!(
        markdown_html(&md).unwrap(),
        "<p>Hello <em>world</em> &amp; <a href=\"blog/post/a.html\">link</a></p>"
    );
}

#[test]
fn markdown_events_of_a_heading() {
    let evs = parse_markdown("# Title");
    assert_eq!(evs.len(), 3);
    assert!(matches!(&evs[0], MdEvent::Start(MdTag::Heading { level: MdHeadingLevel::H1, .. })));
    assert!(matches!(&evs[1], MdEvent::Text(t) if t == "Title"));
    assert!(matches!(&evs[2], MdEvent::End));
}
