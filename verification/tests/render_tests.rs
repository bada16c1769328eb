use gazetta::content::{content_kind, date_text, escape_html, render_text, unknown_format_message, ContentKind};
use gazetta::index::{Index, Sort, Syndicate};
use gazetta::render::{feed_href, num_pages, plan_index, to_decimal};

fn index(paginate: Option<u32>, syndicate: Option<Syndicate>) -> Index {
    Index {
        sort: Sort::default(),
        directories: vec![],
        syndicate,
        paginate,
        max: None,
        compact: false,
    }
}

#[test]
fn page_counts() {
    assert_eq!(num_pages(0, 3), 0);
    assert_eq!(num_pages(1, 3), 1);
    assert_eq!(num_pages(3, 3), 1);
    assert_eq!(num_pages(4, 3), 2);
    assert_eq!(num_pages(7, 1), 7);
    assert_eq!(num_pages(usize::MAX, 1), usize::MAX);
}

#[test]
fn paginated_index_plan() {
    let plan = plan_index("blog", 5, &index(Some(2), Some(Syndicate { max: Some(2) })));
    let feed = plan.feed.unwrap();
    assert_eq!(feed.href, "blog/atom.xml");
    assert_eq!(feed.count, 2);
    assert_eq!(plan.page_hrefs.iter().collect::<Vec<&str>>(), vec!["blog", "blog/index/1", "blog/index/2"]);
    let ranges: Vec<(String, usize, usize, Option<usize>)> =
        plan.pages.iter().map(|p| (p.href.clone(), p.start, p.end, p.current)).collect();
    assert_eq!(
        ranges,
        vec![
            ("blog".to_string(), 0, 2, Some(0)),
            ("blog/index/1".to_string(), 2, 4, Some(1)),
            ("blog/index/2".to_string(), 4, 5, Some(2)),
        ]
    );
    // The pages cover every child once, in order.
    assert_eq!(plan.pages.len(), num_pages(5, 2));
}

#[test]
fn paginated_index_without_children_has_one_empty_page() {
    let plan = plan_index("blog", 0, &index(Some(10), None));
    assert!(plan.feed.is_none());
    assert_eq!(plan.page_hrefs.iter().collect::<Vec<&str>>(), vec!["blog"]);
    assert_eq!(plan.pages.len(), 1);
    assert_eq!((plan.pages[0].start, plan.pages[0].end, plan.pages[0].current), (0, 0, Some(0)));
}

#[test]
fn unpaginated_index_lists_everything_on_one_page() {
    let plan = plan_index("a/b", 7, &index(None, Some(Syndicate { max: None })));
    let feed = plan.feed.unwrap();
    assert_eq!(feed.href, "a/b/atom.xml");
    assert_eq!(feed.count, 7);
    assert!(plan.page_hrefs.is_empty());
    assert_eq!(plan.pages.len(), 1);
    assert_eq!(plan.pages[0].href, "a/b");
    assert_eq!((plan.pages[0].start, plan.pages[0].end, plan.pages[0].current), (0, 7, None));
}

#[test]
fn many_pages_have_decimal_hrefs() {
    let plan = plan_index("x", 12, &index(Some(1), None));
    assert_eq!(plan.pages.len(), 12);
    assert_eq!(plan.pages[10].href, "x/index/10");
    assert_eq!(plan.pages[11].start, 11);
    assert_eq!(plan.pages[11].end, 12);
}

#[test]
fn decimal_and_feed_hrefs() {
    assert_eq!(to_decimal(0), "0");
    assert_eq!(to_decimal(1234), "1234");
    assert_eq!(to_decimal(u64::MAX), "18446744073709551615");
    assert_eq!(feed_href(""), "/atom.xml");
}

#[test]
fn dates_are_zero_padded() {
    assert_eq!(date_text(2024, 1, 5), "2024-01-05");
    assert_eq!(date_text(5, 12, 31), "0005-12-31");
    assert_eq!(date_text(-1, 3, 4), "-001-03-04");
    assert_eq!(date_text(12345, 10, 10), "12345-10-10");
    assert_eq!(date_text(i32::MIN, 1, 1), format!("{:04}-{:02}-{:02}", i32::MIN, 1, 1));
}

#[test]
fn plain_text_is_escaped_paragraphs() {
    assert_eq!(render_text("a\n\nb<c"), "<p>a</p><p>b&lt;c</p>");
    assert_eq!(render_text(""), "<p></p>");
    assert_eq!(render_text("a\n\n\nb"), "<p>a</p><p>\nb</p>");
    assert_eq!(render_text("one\ntwo"), "<p>one\ntwo</p>");
    assert_eq!(render_text("a\n\n"), "<p>a</p><p></p>");
}

#[test]
fn content_kinds_by_format() {
    assert_eq!(content_kind("md"), ContentKind::Markdown);
    assert_eq!(content_kind("mkd"), ContentKind::Markdown);
    assert_eq!(content_kind("markdown"), ContentKind::Markdown);
    assert_eq!(content_kind("html"), ContentKind::Html);
    assert_eq!(content_kind(""), ContentKind::Text);
    assert_eq!(content_kind("txt"), ContentKind::Text);
    assert_eq!(content_kind("text"), ContentKind::Text);
    assert_eq!(content_kind("rst"), ContentKind::Unknown);
    assert_eq!(unknown_format_message("rst"), "unknown format 'rst'");
}

#[test]
fn html_escaping() {
    assert_eq!(
        escape_html("<a href=\"x\">&'</a>"),
        "&lt;a href=&quot;x&quot;&gt;&amp;'&lt;/a&gt;"
    );
    assert_eq!(escape_html("héllo"), "héllo");
    let escaped = escape_html("<script>alert(\"x\")</script> & >");
    assert!(!escaped.contains(['<', '>', '"']));
}
