use gazetta::css::{class_name, write_stylesheet, HighlightStyle};
use gazetta::datetime::DateTime;
use gazetta::entry::Entry;
use gazetta::highlight::{HighlightEvent, RenderSyntaxHighlight, SyntaxHighlight};
use gazetta::view::{Assets, Context, Page, Site};

fn site<'a>(origin: &'a str, prefix: &'a str) -> Site<'a, ()> {
    Site {
        title: "T",
        origin,
        prefix,
        stylesheets: None,
        javascript: None,
        icon: None,
        meta: &(),
    }
}

fn entry(name: &str) -> Entry<()> {
    Entry {
        title: "Title".to_string(),
        description: Some("About".to_string()),
        date: Some(DateTime { secs: 10, nanos: 1 }),
        updated: DateTime { secs: 20, nanos: 0 },
        index: None,
        cc: vec![],
        meta: (),
        name: name.to_string(),
        content: "Body".to_string(),
        format: "md".to_string(),
    }
}

#[test]
fn page_for_entry_copies_the_entry() {
    let e = entry("posts/a");
    let page = Page::for_entry(&e);
    assert_eq!(page.title, "Title");
    assert_eq!(page.description, Some("About"));
    assert_eq!(page.date, Some(&DateTime { secs: 10, nanos: 1 }));
    assert_eq!(*page.updated, DateTime { secs: 20, nanos: 0 });
    assert_eq!(page.href, "posts/a");
    assert!(page.index.is_none());
    assert_eq!(page.content.data, "Body");
    assert_eq!(page.content.format, "md");
}

#[test]
fn canonical_urls_end_with_a_slash() {
    let e = entry("posts/a");
    let page = Page::for_entry(&e);
    let s = site("https://x.com", "/blog/");
    let ctx = Context { page: &page, site: &s };
    assert_eq!(ctx.canonical_url().text(), "https://x.com/blog/posts/a/");

    let e2 = entry("");
    let page2 = Page::for_entry(&e2);
    let ctx2 = Context { page: &page2, site: &s };
    assert_eq!(ctx2.canonical_url().text(), "https://x.com/blog/");

    let e3 = entry("a/");
    let page3 = Page::for_entry(&e3);
    let s3 = site("https://x.com", "/");
    let ctx3 = Context { page: &page3, site: &s3 };
    assert_eq!(ctx3.canonical_url().text(), "https://x.com/a/");

    let s4 = site("", "");
    let ctx4 = Context { page: &page2, site: &s4 };
    assert_eq!(ctx4.canonical_url().text(), "/");
    assert_eq!(ctx.canonical_url().size_hint(), "https://x.com".len() + "/blog/".len() + "posts/a".len() + 1);
}

#[test]
fn base_is_origin_then_prefix() {
    let s = site("https://x.com", "/blog/");
    assert_eq!(s.base().text(), "https://x.com/blog/");
    assert_eq!(s.base().size_hint(), 19);
}

#[test]
fn stylesheet_of_a_theme() {
    let highlights = vec![
        (
            "keyword.function".to_string(),
            HighlightStyle { fg: Some("#fff".to_string()), bg: None, bold: true, italic: false, underline: false, strikethrough: false },
        ),
        (
            "".to_string(),
            HighlightStyle { fg: Some("#123".to_string()), bg: None, bold: false, italic: false, underline: false, strikethrough: false },
        ),
        (
            "@variable.builtin".to_string(),
            HighlightStyle { fg: None, bg: Some("#000".to_string()), bold: false, italic: true, underline: true, strikethrough: true },
        ),
    ];
    assert_eq!(
        write_stylesheet("nord", "abc", &highlights),
        "/* Theme: nord (abc) */\n\
         .hl-keyword-function {\n  color: #fff;\n  font-weight: bold;\n}\n\
         .hl-variable-builtin {\n  background-color: #000;\n  font-style: italic;\n  text-decoration-line: underline;\n  text-decoration-line: line-through;\n}\n"
    );
    assert_eq!(class_name("a.b@c.d"), "a-bc-d");
}

#[test]
fn highlighted_code_is_escaped_inside_spans() {
    let code = "fn main() { \"<\" }";
    let hl = SyntaxHighlight { code, lang: "rust" };
    assert_eq!(hl.lang, "rust");
    let events = vec![
        Ok(HighlightEvent::HighlightStart(0)),
        Ok(HighlightEvent::Source { start: 0, end: 2 }),
        Ok(HighlightEvent::HighlightEnd),
        Ok(HighlightEvent::Source { start: 2, end: 12 }),
        Ok(HighlightEvent::HighlightStart(1)),
        Ok(HighlightEvent::Source { start: 12, end: 15 }),
        Ok(HighlightEvent::HighlightEnd),
        Ok(HighlightEvent::Source { start: 15, end: 17 }),
    ];
    let classes = vec!["keyword.function".to_string(), "string".to_string()];
    assert_eq!(
        RenderSyntaxHighlight::new(events, hl.code).render(&classes),
        Ok("<span class=\"hl-keyword.function\">fn</span> main() { <span class=\"hl-string\">&quot;&lt;&quot;</span> }".to_string())
    );
}

#[test]
fn highlight_errors_are_reported() {
    let classes = vec!["x".to_string()];
    let r = RenderSyntaxHighlight::new(vec![Ok(HighlightEvent::Source { start: 0, end: 100 })], "abc").render(&classes);
    assert_eq!(r, Err(vec!["invalid source span 0..100".to_string()]));
    let r = RenderSyntaxHighlight::new(vec![Ok(HighlightEvent::Source { start: 0, end: 1 })], "é").render(&classes);
    assert_eq!(r, Err(vec!["invalid source span 0..1".to_string()]));
    let r = RenderSyntaxHighlight::new(
        vec![Ok(HighlightEvent::HighlightStart(0)), Err("boom".to_string()), Err("again".to_string())],
        "abc",
    )
    .render(&classes);
    assert_eq!(r, Err(vec!["event error: boom".to_string(), "event error: again".to_string()]));
    let r = RenderSyntaxHighlight::new(vec![Ok(HighlightEvent::HighlightEnd), Ok(HighlightEvent::Source { start: 0, end: 1 })], "abc")
        .render(&classes);
    assert_eq!(r, Ok(String::new()));
}

#[test]
fn assets_load_what_the_site_has() {
    let mut s = site("https://x.com", "/blog/");
    assert_eq!(Assets(&s).html(), "<base href=\"/blog/\">");
    s.stylesheets = Some("assets/main-1.css");
    s.javascript = Some("assets/main-2.js");
    s.icon = Some("assets/icon-3.png");
    assert_eq!(
        Assets(&s).html(),
        "<base href=\"/blog/\"><link rel=\"stylesheet\" href=\"assets/main-1.css\">\
         <script src=\"assets/main-2.js\"></script><link rel=\"shortcut icon\" href=\"assets/icon-3.png\">"
    );
}
