use gazetta::cli::{new_page_paths, new_page_text, update_page_text, Cli, Command};

#[test]
fn new_page_text_has_front_matter() {
    assert_eq!(
        new_page_text("Hello", "2024-01-01T00:00:00+00:00"),
        "---\ntitle: Hello\ndate: 2024-01-01T00:00:00+00:00\nupdated: 2024-01-01T00:00:00+00:00\n---\n"
    );
}

#[test]
fn new_pages_go_in_a_slug_directory() {
    assert_eq!(
        new_page_paths("posts", "Hello World!"),
        ("posts/hello-world".to_string(), "posts/hello-world/index.md".to_string())
    );
    assert_eq!(
        new_page_paths("posts/", "  --test_-_cool"),
        ("posts/test-cool".to_string(), "posts/test-cool/index.md".to_string())
    );
}

#[test]
fn updated_line_is_replaced() {
    let text = "---\ntitle: a\nupdated: old\n---\nbody";
    assert_eq!(
        update_page_text(text, "D").unwrap(),
        Some("---\ntitle: a\nupdated: D\n---\nbody".to_string())
    );
}

#[test]
fn updated_line_is_added_when_missing() {
    let text = "---\ntitle: a\n---\nbody";
    assert_eq!(
        update_page_text(text, "D").unwrap(),
        Some("---\ntitle: a\nupdated: D\n---\nbody".to_string())
    );
}

#[test]
fn updating_twice_gives_the_same_text() {
    let text = "---\ntitle: a\n---\nbody";
    let once = update_page_text(text, "D").unwrap().unwrap();
    let twice = update_page_text(&once, "D").unwrap().unwrap();
    assert_eq!(once, twice);
}

#[test]
fn pages_without_front_matter_are_left_alone() {
    assert_eq!(update_page_text("", "D").unwrap(), None);
    assert_eq!(update_page_text("hello\n---\n", "D").unwrap(), None);
}

#[test]
fn unterminated_front_matter_is_an_error() {
    assert_eq!(
        update_page_text("---\ntitle: a\n", "D").unwrap_err(),
        "unexpected end of file metadata"
    );
}

#[test]
fn cli_arguments() {
    let cli = Cli::new(Some("site".to_string()), Command::Edit { file: "a.md".to_string() });
    assert_eq!(cli.source.as_deref(), Some("site"));
    assert!(matches!(cli.command, Command::Edit { ref file } if file == "a.md"));
}
