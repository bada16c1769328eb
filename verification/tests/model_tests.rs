use gazetta::datetime::{compare_opt_datetime, parse_datetime, DateTime};
use gazetta::entry::Entry;
use gazetta::error::{AnnotatedError, SourceError};
use gazetta::index::{Sort, SortDirection, SortField};
use gazetta::link::Link;
use gazetta::meta::Meta;
use gazetta::page_meta::{BubbleResult, EntryMeta, SourceMeta};
use gazetta::path::resolve_path;
use gazetta::person::{Key, Person};
use gazetta::yaml::{front_matter_closes, load, load_front, YamlHash, YamlValue};

fn ys(s: &str) -> YamlValue {
    YamlValue::String(s.to_string())
}

fn hash(pairs: Vec<(&str, YamlValue)>) -> YamlValue {
    YamlValue::Hash(YamlHash { entries: pairs.into_iter().map(|(k, v)| (ys(k), v)).collect() })
}

#[test]
fn dates_parse_as_utc() {
    assert_eq!(parse_datetime("2024-01-02"), Ok(DateTime { secs: 1704153600, nanos: 0 }));
    assert_eq!(parse_datetime("2024-01-02T03:04:05+01:00"), Ok(DateTime { secs: 1704161045, nanos: 0 }));
    assert_eq!(parse_datetime("2024-01-02 03:04:05Z"), Ok(DateTime { secs: 1704164645, nanos: 0 }));
    assert!(parse_datetime("garbage").unwrap_err().starts_with("invalid date: "));
    assert!(parse_datetime("2024-13-02").unwrap_err().starts_with("invalid date: "));
}

#[test]
fn missing_dates_sort_first() {
    let a = Some(DateTime { secs: 1, nanos: 0 });
    let b = Some(DateTime { secs: 1, nanos: 5 });
    assert_eq!(compare_opt_datetime(&None, &a), -1);
    assert_eq!(compare_opt_datetime(&a, &None), 1);
    assert_eq!(compare_opt_datetime(&a, &b), -1);
    assert_eq!(compare_opt_datetime(&b, &b), 0);
}

#[test]
fn sort_specifications() {
    assert_eq!(Sort::parse("-title").unwrap(), Sort { field: SortField::Title, direction: SortDirection::Descending });
    assert_eq!(Sort::parse("date").unwrap(), Sort { field: SortField::Date, direction: SortDirection::Descending });
    assert_eq!(Sort::parse("+date").unwrap(), Sort { field: SortField::Date, direction: SortDirection::Ascending });
    assert_eq!(Sort::parse("default").unwrap(), Sort { field: SortField::Title, direction: SortDirection::Ascending });
    assert_eq!(Sort::parse("bogus").unwrap_err().message(), "invalid sort field: bogus");
    assert_eq!(Sort::parse("-bogus").unwrap_err().0, "bogus");
    assert_eq!(SortField::Date.default_direction(), SortDirection::Descending);
    assert_eq!(SortField::Title.default_direction(), SortDirection::Ascending);
    assert_eq!(SortField::parse("title").unwrap(), SortField::Title);
    assert_eq!(Sort::default(), Sort { field: SortField::Title, direction: SortDirection::Ascending });
}

#[test]
fn front_matter_is_split_from_the_body() {
    let (meta, body) = load_front("---\ntitle: Hi\n---\nBody\n").unwrap();
    assert_eq!(meta.len(), 1);
    assert_eq!(body, "Body\n");
    let (meta, body) = load_front("---\ntitle: Hi\n...\nrest").unwrap();
    assert_eq!(meta.len(), 1);
    assert_eq!(body, "rest");
    let (meta, body) = load_front("no front matter\n").unwrap();
    assert_eq!(meta.len(), 0);
    assert_eq!(body, "");
    assert!(matches!(load_front("---\n- a\n---\n"), Err(SourceError::Config(ref m)) if m == "Yaml must be a key -> value mapping"));
    assert!(front_matter_closes("---\na: b\n---\n"));
    assert!(front_matter_closes("plain"));
    assert!(!front_matter_closes("---\na: b\n"));
}

#[test]
fn yaml_mappings_remove_keys() {
    let mut h = load("a: 1\nb: two\n").unwrap();
    assert_eq!(h.len(), 2);
    assert!(matches!(h.remove("b"), Some(YamlValue::String(ref s)) if s == "two"));
    assert!(h.remove("b").is_none());
    assert!(matches!(h.remove("a"), Some(YamlValue::Integer(1))));
    assert_eq!(h.len(), 0);
    assert_eq!(YamlHash::new().len(), 0);
}

#[test]
fn entries_from_front_matter() {
    let (meta, body) = load_front("---\ntitle: Post\ndate: 2024-01-02\ncc: blog\nindex: true\n---\nBody").unwrap();
    let e: Entry<()> = Entry::from_front_matter(meta, body, "blog/post", "md".to_string(), Ok(DateTime { secs: 0, nanos: 0 })).unwrap();
    assert_eq!(e.title, "Post");
    assert_eq!(e.date, Some(DateTime { secs: 1704153600, nanos: 0 }));
    assert_eq!(e.updated, DateTime { secs: 1704153600, nanos: 0 });
    assert_eq!(e.cc, vec!["blog".to_string()]);
    let idx = e.index.unwrap();
    assert_eq!(idx.directories, vec!["blog/post".to_string()]);
    assert_eq!(e.content, "Body");
    assert_eq!(e.format, "md");
    assert_eq!(e.name, "blog/post");
}

#[test]
fn entry_errors_come_in_field_order() {
    let err = |text: &str| -> String {
        let (meta, body) = load_front(text).unwrap();
        match Entry::<()>::from_front_matter(meta, body, "x", String::new(), Ok(DateTime { secs: 0, nanos: 0 })) {
            Err(SourceError::Config(m)) => m,
            _ => panic!("expected a configuration error"),
        }
    };
    assert_eq!(err("---\ndate: 1\n---\n"), "entries must have titles");
    assert_eq!(err("---\ntitle: [a]\n---\n"), "titles must be strings");
    assert_eq!(err("---\ntitle: a\ndescription: 1\n---\n"), "invalid description type");
    assert_eq!(err("---\ntitle: a\ndate: 1\n---\n"), "date must be a string");
    assert_eq!(err("---\ntitle: a\nindex: 5\n---\n"), "invalid index value");
    assert_eq!(err("---\ntitle: a\nindex: /abs\n---\n"), "index for x specifies an absolute directory");
    assert_eq!(err("---\ntitle: a\ncc: 1\n---\n"), "invalid cc value");
    assert_eq!(err("---\ntitle: a\ncc: [1]\n---\n"), "invlaid cc value");
    assert_eq!(err("---\ntitle: a\nindex: {sort: bogus}\n---\n"), "invalid sort field: bogus");
    assert_eq!(err("---\ntitle: a\nindex: {paginate: 0}\n---\n"), "invalid pagination setting");
}

#[test]
fn file_time_is_used_without_dates() {
    let (meta, body) = load_front("---\ntitle: a\n---\n").unwrap();
    let e: Entry<()> = Entry::from_front_matter(meta, body, "x", String::new(), Ok(DateTime { secs: 7, nanos: 0 })).unwrap();
    assert_eq!(e.updated, DateTime { secs: 7, nanos: 0 });
    assert_eq!(e.date, None);
    let (meta, body) = load_front("---\ntitle: a\n---\n").unwrap();
    let r = Entry::<()>::from_front_matter(meta, body, "x", String::new(), Err(std::io::Error::other("no time")));
    assert!(matches!(r, Err(SourceError::Read(_))));
}

#[test]
fn index_directories_resolve() {
    assert_eq!(resolve_path("blog", "./posts"), Ok("blog/posts".to_string()));
    assert_eq!(resolve_path("blog/a", "../b"), Ok("blog/b".to_string()));
    assert_eq!(resolve_path("blog", "other/./x"), Ok("other/x".to_string()));
    assert_eq!(resolve_path("blog/a/", "./../b//./c/"), Ok("blog/b/c".to_string()));
    assert_eq!(resolve_path("blog", "/x"), Err("index for blog specifies an absolute directory".to_string()));
    assert_eq!(resolve_path("blog", ""), Err("index for blog specifies an empty directory".to_string()));
    assert_eq!(resolve_path("blog", "x/.."), Err("index for blog specifies an empty directory".to_string()));
    assert_eq!(resolve_path("blog", "../../x"), Err("index for blog specifies an invalid relative path: blog/../../x".to_string()));
}

#[test]
fn links_and_people() {
    let l = Link::from_yaml(hash(vec![("home", ys("https://x.com"))])).unwrap();
    assert_eq!((l.text.as_str(), l.url.as_str()), ("home", "https://x.com"));
    assert_eq!(Link::from_yaml(ys("x")).unwrap_err(), "links must be in the form `name: url`");
    assert_eq!(Link::from_yaml(hash(vec![])).unwrap_err(), "links must have exactly one entry");
    assert_eq!(Link::many_from_yaml(ys("x")).unwrap_err(), "lists of links need to be arrays");
    let ls = Link::many_from_yaml(YamlValue::Array(vec![hash(vec![("a", ys("b"))])])).unwrap();
    assert_eq!(ls.len(), 1);

    let k = Key::from_yaml(hash(vec![("url", ys("u")), ("fingerprint", ys("f"))])).unwrap();
    assert_eq!((k.url.as_str(), k.fingerprint.as_str()), ("u", "f"));
    assert_eq!(Key::from_yaml(hash(vec![("fingerprint", ys("f"))])).unwrap_err(), "key url missing");
    let k = Key::from_yaml(ys("https://example.com/key.asc")).unwrap();
    assert_eq!((k.url.as_str(), k.fingerprint.as_str()), ("https://example.com/key.asc", ""));
    assert_eq!(Key::from_yaml(YamlValue::Array(vec![])).unwrap_err(), "if specified, key must be a hash");

    let p = Person::from_yaml(hash(vec![
        ("name", ys("Ann")),
        ("email", ys("a@x.com")),
        ("nicknames", YamlValue::Array(vec![ys("A"), ys("An")])),
    ]))
    .unwrap();
    assert_eq!(p.name, "Ann");
    assert_eq!(p.email.as_deref(), Some("a@x.com"));
    assert_eq!(p.nicknames, vec!["A".to_string(), "An".to_string()]);
    assert_eq!(Person::from_yaml(hash(vec![])).unwrap_err(), "missing name");
    assert_eq!(Person::from_yaml(ys("Ann")).unwrap().name, "Ann");
    assert_eq!(p.text(), "Ann <a@x.com>");
    assert_eq!(Person::from_yaml(ys("Bob")).unwrap().text(), "Bob");
}

#[test]
fn person_key_may_be_a_url() {
    let p = Person::from_yaml(hash(vec![("name", ys("A")), ("key", ys("https://example.com/key.asc"))])).unwrap();
    assert_eq!(p.name, "A");
    assert_eq!(p.key.unwrap().url, "https://example.com/key.asc");
}

#[test]
fn site_and_entry_metadata() {
    let m = SourceMeta::from_yaml(YamlHash {
        entries: vec![(ys("author"), ys("Ann")), (ys("nav"), YamlValue::Array(vec![hash(vec![("a", ys("b"))])]))],
    })
    .unwrap();
    assert_eq!(m.author.name, "Ann");
    assert_eq!(m.nav.len(), 1);
    let e = EntryMeta::from_yaml(YamlHash { entries: vec![] }).unwrap();
    assert!(e.author.is_none() && e.about.is_none() && e.robots.is_none());
    let none: Option<Result<u8, ()>> = None;
    assert_eq!(none.bubble_result(), Ok(None));
    assert_eq!(Some(Ok::<u8, ()>(3)).bubble_result(), Ok(Some(3)));
    assert_eq!(Some(Err::<u8, &str>("e")).bubble_result(), Err("e"));
}

#[test]
fn errors_describe_themselves() {
    assert_eq!(SourceError::config("x").description(), "config error");
    let a = AnnotatedError::new("path".to_string(), SourceError::config("bad"));
    assert_eq!(a.location, "path");
    assert!(matches!(a.error, SourceError::Config(ref m) if m == "bad"));
}
