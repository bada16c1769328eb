# gazetta

The verified core of a static site generator.

A site is a directory: `gazetta.yaml` names its base url and title, every `index.*` file is a
page (YAML front matter, then content), `static` directories are deployed as they are, and
`assets/` holds the icon, javascript and stylesheets. Pages can carry indices of other pages,
sorted, paginated and syndicated as Atom feeds.

- `src/` is the library, written in Verus and verified: reading the configuration and front
  matter, building indices, planning pagination and feeds, the urls and HTML that pages need
  (markdown, plain text, dates, theme stylesheets, and code blocks from the highlight events
  that a highlighter hands it), and the text work of the command-line tool. Each public
  function states what it returns in its contract. The outside crates it calls (`yaml-rust`,
  `pulldown-cmark`, `chrono`, `url`, `glob`, `icu_collator`, `slug`, `str_stack`) sit behind
  small trusted wrappers whose contracts say what their documentation promises.
- `tests/` runs the library on concrete inputs.
- `app/` is ordinary Rust around the library: the file system, `horrorshow` templates and the
  `clap` command line. No syntax highlighter is wired in: code blocks are rendered as plain
  escaped text.
