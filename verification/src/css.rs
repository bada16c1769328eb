//! The stylesheet of a syntax-highlighting theme: one CSS rule per highlight scope.

use vstd::prelude::*;
use crate::text::{chars_of, push_char, push_str};

verus! {

/// The style of one highlight scope of a theme.
#[derive(Debug, Clone)]
pub struct HighlightStyle {
    /// The foreground color.
    pub fg: Option<String>,
    /// The background color.
    pub bg: Option<String>,
    pub bold: bool,
    pub italic: bool,
    pub underline: bool,
    pub strikethrough: bool,
}

/// The CSS class name of a highlight scope: `.` becomes `-` and `@` is dropped.
pub open spec fn scope_class(scope: Seq<char>) -> Seq<char>
    decreases scope.len(),
{
    if scope.len() == 0 {
        Seq::empty()
    } else {
        let c = scope.last();
        scope_class(scope.drop_last()) + if c == '.' {
            seq!['-']
        } else if c == '@' {
            Seq::empty()
        } else {
            seq![c]
        }
    }
}

/// The CSS class name of a highlight scope (see `scope_class`).
pub fn class_name(scope: &str) -> (r: String)
    ensures
        r@ == scope_class(scope@),
{
    let cs = chars_of(scope);
    let mut out = String::new();
    let mut i: usize = 0;
    while i < cs.len()
        invariant
            i <= cs@.len(),
            cs@ == scope@,
            out@ == scope_class(scope@.take(i as int)),
        decreases cs@.len() - i,
    {
        let c = cs[i];
        if c == '.' {
            push_char(&mut out, '-');
        } else if c != '@' {
            push_char(&mut out, c);
        }
        proof {
            assert(scope@.take(i + 1).drop_last() =~= scope@.take(i as int));
            assert(out@ =~= scope_class(scope@.take(i + 1)));
        }
        i = i + 1;
    }
    proof {
        assert(scope@.take(cs@.len() as int) =~= scope@);
    }
    out
}

/// An optional line: the text when the condition holds, nothing otherwise.
pub open spec fn line_if(cond: bool, line: Seq<char>) -> Seq<char> {
    if cond {
        line
    } else {
        Seq::empty()
    }
}

/// A declaration line for an optional value: the property, the value and `;`, when there is a
/// value.
pub open spec fn value_line(property: Seq<char>, value: Option<String>) -> Seq<char> {
    match value {
        Some(v) => property + v@ + ";\n"@,
        None => Seq::empty(),
    }
}

/// Appends a declaration line for an optional value (see `value_line`).
fn push_value_line(out: &mut String, property: &str, value: &Option<String>)
    ensures
        final(out)@ == old(out)@ + value_line(property@, *value),
{
    match value {
        Some(v) => {
            push_str(out, property);
            push_str(out, v.as_str());
            push_str(out, ";\n");
            proof {
                assert(out@ =~= old(out)@ + value_line(property@, *value));
            }
        },
        None => {
            proof {
                assert(out@ =~= old(out)@ + value_line(property@, *value));
            }
        },
    }
}

/// Appends a line when the condition holds (see `line_if`).
fn push_line_if(out: &mut String, cond: bool, line: &str)
    ensures
        final(out)@ == old(out)@ + line_if(cond, line@),
{
    if cond {
        push_str(out, line);
    } else {
        assert(out@ =~= old(out)@ + line_if(cond, line@));
    }
}

/// The CSS rule of a highlight scope: `.hl-{class} {`, one declaration per set attribute (color,
/// background, bold, italic, underline, strike-through), `}`, each on a line of its own.
pub open spec fn scope_rule(scope: Seq<char>, style: HighlightStyle) -> Seq<char> {
    ".hl-"@ + scope_class(scope) + " {\n"@ + value_line("  color: "@, style.fg) + value_line(
        "  background-color: "@,
        style.bg,
    ) + line_if(style.bold, "  font-weight: bold;\n"@) + line_if(
        style.italic,
        "  font-style: italic;\n"@,
    ) + line_if(style.underline, "  text-decoration-line: underline;\n"@) + line_if(
        style.strikethrough,
        "  text-decoration-line: line-through;\n"@,
    ) + "}\n"@
}

/// The rules of the scopes, in order; scopes with an empty name have none.
pub open spec fn scope_rules(highlights: Seq<(String, HighlightStyle)>) -> Seq<char>
    decreases highlights.len(),
{
    if highlights.len() == 0 {
        Seq::empty()
    } else {
        let (scope, style) = highlights.last();
        scope_rules(highlights.drop_last()) + if scope@.len() == 0 {
            Seq::empty()
        } else {
            scope_rule(scope@, style)
        }
    }
}

/// The stylesheet of a theme: a comment naming the theme and its revision, then the rules of its
/// scopes.
pub open spec fn stylesheet_text(name: Seq<char>, revision: Seq<char>, highlights: Seq<(String, HighlightStyle)>) -> Seq<char> {
    "/* Theme: "@ + name + " ("@ + revision + ") */\n"@ + scope_rules(highlights)
}

/// Appends the CSS rule of a scope to `out` (see `scope_rule`).
fn push_rule(out: &mut String, scope: &str, style: &HighlightStyle)
    ensures
        final(out)@ == old(out)@ + scope_rule(scope@, *style),
{
    let ghost start = out@;
    push_str(out, ".hl-");
    let class = class_name(scope);
    push_str(out, class.as_str());
    push_str(out, " {\n");
    let ghost a = out@;
    push_value_line(out, "  color: ", &style.fg);
    push_value_line(out, "  background-color: ", &style.bg);
    push_line_if(out, style.bold, "  font-weight: bold;\n");
    push_line_if(out, style.italic, "  font-style: italic;\n");
    push_line_if(out, style.underline, "  text-decoration-line: underline;\n");
    push_line_if(out, style.strikethrough, "  text-decoration-line: line-through;\n");
    push_str(out, "}\n");
    proof {
        assert(out@ =~= start + scope_rule(scope@, *style));
    }
}

/// Writes the stylesheet of a theme (see `stylesheet_text`).
pub fn write_stylesheet(name: &str, revision: &str, highlights: &Vec<(String, HighlightStyle)>) -> (r: String)
    ensures
        r@ == stylesheet_text(name@, revision@, highlights@),
{
    let mut out = "/* Theme: ".to_owned();
    push_str(&mut out, name);
    push_str(&mut out, " (");
    push_str(&mut out, revision);
    push_str(&mut out, ") */\n");
    let ghost head = out@;
    let mut i: usize = 0;
    while i < highlights.len()
        invariant
            i <= highlights@.len(),
            out@ == head + scope_rules(highlights@.take(i as int)),
        decreases highlights@.len() - i,
    {
        let (scope, style) = &highlights[i];
        let ghost before = out@;
        if scope.unicode_len() > 0 {
            push_rule(&mut out, scope.as_str(), style);
        }
        proof {
            assert(highlights@.take(i + 1).drop_last() =~= highlights@.take(i as int));
            assert(highlights@.take(i + 1).last() == highlights@[i as int]);
            assert(out@ =~= head + scope_rules(highlights@.take(i + 1)));
        }
        i = i + 1;
    }
    proof {
        assert(highlights@.take(highlights@.len() as int) =~= highlights@);
        assert(out@ =~= stylesheet_text(name@, revision@, highlights@));
    }
    out
}

} // verus!
