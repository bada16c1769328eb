use gazetta::datetime::DateTime;
use gazetta::entry::Entry;
use gazetta::error::SourceError;
use gazetta::index::{Index, Sort, SortDirection, SortField};
use gazetta::source::{dir_entry_action, split_file_name, DirEntryAction, FileKind, Source};
use gazetta::url::split_base_url;
use gazetta::util::{asset_href, to_hex, walk_sorted, DirNode, StreamHasher};
use std::hash::Hasher;

fn config(text: &str) -> Result<Source<(), ()>, SourceError> {
    Source::<(), ()>::from_config("site".to_string(), text)
}

fn config_error(text: &str) -> String {
    match config(text) {
        Err(SourceError::Config(m)) => m,
        Err(e) => panic!("unexpected error {:?}", e),
        Ok(_) => panic!("unexpected success"),
    }
}

#[test]
fn config_gives_origin_prefix_and_title() {
    let s = config("base: https://example.com/blog/\ntitle: My Site\n").unwrap();
    assert_eq!(s.origin, "https://example.com");
    assert_eq!(s.prefix, "/blog/");
    assert_eq!(s.title, "My Site");
    assert_eq!(s.root, "site");
    assert!(s.entries.is_empty() && s.static_entries.is_empty());
    assert!(s.icon.is_none() && s.well_known.is_none());
    let s = config("base: http://localhost:8080\ntitle: T\n").unwrap();
    assert_eq!(s.origin, "http://localhost:8080");
    assert_eq!(s.prefix, "/");
}

#[test]
fn config_errors() {
    assert_eq!(config_error("title: T\n"), "you must specify a base url");
    assert_eq!(config_error("base: 5\ntitle: T\n"), "the base url must be a string");
    assert_eq!(config_error("base: https://x.com/#frag\ntitle: T\n"), "base url must not specify a fragment");
    assert_eq!(config_error("base: https://x.com/?q=1\ntitle: T\n"), "base url must not specify a query");
    assert_eq!(config_error("base: \"mailto:me@x.com\"\ntitle: T\n"), "url cannot be a base");
    assert_eq!(config_error("base: not a url\ntitle: T\n"), "relative URL without a base");
    assert_eq!(config_error("base: https://x.com\n"), "must specify title");
    assert_eq!(config_error("base: https://x.com\ntitle: [1]\n"), "title must be a string");
    assert_eq!(config_error("- a\n- b\n"), "Yaml must be a key -> value mapping");
    assert!(matches!(config("base: [\n"), Err(SourceError::Parse(_))));
}

#[test]
fn base_urls_split_into_origin_and_prefix() {
    assert_eq!(
        split_base_url("https://example.com:8443/a/b"),
        Ok(("https://example.com:8443".to_string(), "/a/b".to_string()))
    );
    assert!(split_base_url("").is_err());
}

#[test]
fn directory_entries_are_classified() {
    assert!(matches!(dir_entry_action("", ".git", FileKind::Dir), DirEntryAction::Skip));
    assert!(matches!(dir_entry_action("", "assets", FileKind::Dir), DirEntryAction::Skip));
    assert!(matches!(dir_entry_action("blog", "assets", FileKind::Dir), DirEntryAction::Descend { ref name } if name == "blog/assets"));
    assert!(matches!(dir_entry_action("blog", "index.md", FileKind::File), DirEntryAction::Entry { ref format } if format == "md"));
    assert!(matches!(dir_entry_action("", "index", FileKind::File), DirEntryAction::Entry { ref format } if format.is_empty()));
    assert!(matches!(dir_entry_action("", "readme.md", FileKind::File), DirEntryAction::Skip));
    assert!(matches!(dir_entry_action("", "static", FileKind::Dir), DirEntryAction::Static { ref name } if name == "static"));
    assert!(matches!(dir_entry_action("a/b", "static", FileKind::Dir), DirEntryAction::Static { ref name } if name == "a/b/static"));
    assert!(matches!(dir_entry_action("a", "index", FileKind::Dir), DirEntryAction::Reserved));
    assert!(matches!(dir_entry_action("a", "b", FileKind::Other), DirEntryAction::Skip));
}

#[test]
fn file_stems_and_extensions() {
    assert_eq!(split_file_name("index.tar.gz"), ("index.tar".to_string(), "gz".to_string()));
    assert_eq!(split_file_name(".bashrc"), (".bashrc".to_string(), "".to_string()));
    assert_eq!(split_file_name("a."), ("a".to_string(), "".to_string()));
    assert_eq!(split_file_name(".."), ("..".to_string(), "".to_string()));
    assert_eq!(split_file_name("index"), ("index".to_string(), "".to_string()));
}

fn file(name: &str) -> DirNode {
    DirNode::File { name: name.to_string() }
}

#[test]
fn walk_sorted_visits_siblings_in_name_order() {
    let tree = vec![
        file("b.js"),
        DirNode::Dir { name: "a".to_string(), children: vec![file("z.js"), file("c.js")] },
        file("a.js"),
        DirNode::Dir { name: "empty".to_string(), children: vec![] },
    ];
    assert_eq!(
        walk_sorted("assets/js", &tree),
        vec!["assets/js/a/c.js", "assets/js/a/z.js", "assets/js/a.js", "assets/js/b.js"]
    );
    assert_eq!(walk_sorted("", &vec![file("x")]), vec!["x"]);
    assert_eq!(walk_sorted("d/", &vec![file("x")]), vec!["d/x"]);
}

#[test]
fn stream_hasher_hashes_what_is_recorded() {
    let mut h = StreamHasher::new(Vec::<u8>::new());
    h.writer_mut().extend_from_slice(b"abc");
    h.record(b"abc");
    let mut d = std::collections::hash_map::DefaultHasher::new();
    d.write(b"abc");
    assert_eq!(h.finish(), d.finish());
    assert_eq!(h.writer_mut().as_slice(), b"abc");
    let h2 = StreamHasher::with_hasher((), d);
    assert_eq!(h2.finish(), h.finish());
    let fresh = StreamHasher::new(());
    assert_eq!(fresh.finish(), std::collections::hash_map::DefaultHasher::new().finish());
}

#[test]
fn asset_names_carry_the_hash() {
    assert_eq!(asset_href("main", 255, "css"), "assets/main-ff.css");
    assert_eq!(asset_href("icon", 0, "png"), "assets/icon-0.png");
    assert_eq!(to_hex(0xdeadbeef), "deadbeef");
    assert_eq!(to_hex(u64::MAX), format!("{:x}", u64::MAX));
}

fn entry(name: &str, title: &str, secs: Option<i64>, cc: &[&str]) -> Entry<()> {
    Entry {
        title: title.to_string(),
        description: None,
        date: secs.map(|s| DateTime { secs: s, nanos: 0 }),
        updated: DateTime { secs: 0, nanos: 0 },
        index: None,
        cc: cc.iter().map(|s| s.to_string()).collect(),
        meta: (),
        name: name.to_string(),
        content: String::new(),
        format: "md".to_string(),
    }
}

#[test]
fn index_collects_sorts_and_cuts() {
    let mut source = config("base: https://x.com\ntitle: T\n").unwrap();
    let mut blog = entry("blog", "Blog", None, &[]);
    blog.index = Some(Index {
        sort: Sort { field: SortField::Date, direction: SortDirection::Descending },
        directories: vec!["blog".to_string()],
        syndicate: None,
        paginate: None,
        max: Some(2),
        compact: false,
    });
    source.entries = vec![
        entry("blog/a", "A", Some(1), &[]),
        entry("blog/b", "B", Some(3), &[]),
        entry("blog/c/d", "D", Some(5), &[]),
        entry("other", "O", Some(4), &["blog"]),
        entry("blog/e", "E", Some(2), &[]),
    ];
    let names: Vec<&str> = source.build_index(&blog).iter().map(|e| e.name.as_str()).collect();
    assert_eq!(names, vec!["other", "blog/b"]);
    let plain = entry("plain", "P", None, &[]);
    assert!(source.build_index(&plain).is_empty());
}

#[test]
fn equal_entries_keep_their_source_order() {
    for direction in [SortDirection::Ascending, SortDirection::Descending] {
        let mut source = config("base: https://x.com\ntitle: T\n").unwrap();
        let mut blog = entry("blog", "Blog", None, &[]);
        blog.index = Some(Index {
            sort: Sort { field: SortField::Date, direction },
            directories: vec!["blog".to_string()],
            syndicate: None,
            paginate: None,
            max: None,
            compact: false,
        });
        source.entries = vec![
            entry("blog/x", "X", Some(2), &[]),
            entry("blog/a", "A", Some(1), &[]),
            entry("blog/y", "Y", Some(2), &[]),
            entry("blog/z", "Z", Some(2), &[]),
        ];
        let names: Vec<&str> = source.build_index(&blog).iter().map(|e| e.name.as_str()).collect();
        match direction {
            SortDirection::Ascending => assert_eq!(names, vec!["blog/a", "blog/x", "blog/y", "blog/z"]),
            SortDirection::Descending => assert_eq!(names, vec!["blog/x", "blog/y", "blog/z", "blog/a"]),
        }
    }
}

#[test]
fn titles_sort_with_numbers_in_order() {
    let mut source = config("base: https://x.com\ntitle: T\n").unwrap();
    let mut list = entry("list", "L", None, &[]);
    list.index = Some(Index {
        sort: Sort { field: SortField::Title, direction: SortDirection::Ascending },
        directories: vec!["list".to_string()],
        syndicate: None,
        paginate: None,
        max: None,
        compact: false,
    });
    source.entries = vec![
        entry("list/a", "Item 10", None, &[]),
        entry("list/b", "Item 9", None, &[]),
        entry("list/c", "apple", None, &[]),
    ];
    let titles: Vec<&str> = source.build_index(&list).iter().map(|e| e.title.as_str()).collect();
    assert_eq!(titles, vec!["apple", "Item 9", "Item 10"]);
}

#[test]
fn index_directories_are_matched_literally() {
    let mut source = config("base: https://x.com\ntitle: T\n").unwrap();
    let mut idx = entry("x", "X", None, &[]);
    idx.index = Some(Index {
        sort: Sort::default(),
        directories: vec!["a[1]".to_string()],
        syndicate: None,
        paginate: None,
        max: None,
        compact: false,
    });
    source.entries = vec![entry("a[1]/p", "P", None, &[]), entry("a1/q", "Q", None, &[])];
    let names: Vec<&str> = source.build_index(&idx).iter().map(|e| e.name.as_str()).collect();
    assert_eq!(names, vec!["a[1]/p"]);
}

#[test]
fn stream_hasher_hashes_only_what_the_writer_accepted() {
    let mut h = StreamHasher::new(());
    assert_eq!(h.record_write::<()>(b"abcdef", Ok(3)), Ok(3));
    assert_eq!(h.record_write(b"xyz", Err("full")), Err("full"));
    let mut d = std::collections::hash_map::DefaultHasher::new();
    d.write(b"abc");
    assert_eq!(h.finish(), d.finish());
}
