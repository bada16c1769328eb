//! The HTML of syntax-highlighted code, from the events of a highlighter: the code's text,
//! escaped, inside nested `<span class="hl-...">` elements.

use vstd::prelude::*;
use vstd::string::StringSliceAdditionalSpecFns;
use vstd::utf8::{
    decode_utf8, encode_utf8_decode_utf8, encode_utf8_valid_utf8, is_char_boundary_iff_not_is_continuation_byte,
    is_char_boundary_start_end_of_seq, valid_utf8_split,
};
use crate::content::{html_escape, push_escaped};
use crate::render::{decimal_text, to_decimal};
use crate::text::{push_char, push_str};

verus! {

/// A code snippet to highlight, and its language.
#[derive(Debug, Clone, Copy)]
pub struct SyntaxHighlight<'a> {
    /// The source code.
    pub code: &'a str,
    /// The language's name (e.g. `rust`).
    pub lang: &'a str,
}

/// An event of a syntax highlighter.
#[derive(Debug, Clone, Copy, PartialEq, Eq, Structural)]
pub enum HighlightEvent {
    /// The code between the byte offsets `start` and `end`.
    Source { start: usize, end: usize },
    /// A highlight, of the class at the given position, starts.
    HighlightStart(usize),
    /// The innermost highlight ends.
    HighlightEnd,
}

/// A byte range of the code that starts and ends on character boundaries.
pub open spec fn valid_span(bytes: Seq<u8>, start: int, end: int) -> bool {
    &&& 0 <= start <= end <= bytes.len()
    &&& vstd::utf8::is_char_boundary(bytes, start)
    &&& vstd::utf8::is_char_boundary(bytes, end)
}

/// The error of a span that is not a valid range of the code.
pub open spec fn span_error(start: nat, end: nat) -> Seq<char> {
    "invalid source span "@ + decimal_text(start) + ".."@ + decimal_text(end)
}

/// The HTML of the highlighter's events from `i` up to the end of the enclosing highlight (or of
/// the events): the code of each source range, escaped; each highlight as a span of class
/// `hl-{class}` around its contents. With where it stopped and the errors recorded: an event
/// error, or a range that is not part of the code, ends the enclosing highlight.
pub open spec fn highlight_html(evs: Seq<Result<HighlightEvent, String>>, i: int, code: Seq<u8>, classes: Seq<Seq<char>>) -> (Seq<char>, int, Seq<Seq<char>>)
    decreases evs.len() - i,
{
    if i < 0 || i >= evs.len() {
        (Seq::empty(), i, Seq::empty())
    } else {
        match evs[i] {
            Err(e) => (Seq::empty(), i + 1, seq!["event error: "@ + e@]),
            Ok(HighlightEvent::HighlightEnd) => (Seq::empty(), i + 1, Seq::empty()),
            Ok(HighlightEvent::Source { start, end }) => {
                if valid_span(code, start as int, end as int) {
                    let rest = highlight_html(evs, i + 1, code, classes);
                    (
                        html_escape(decode_utf8(code.subrange(start as int, end as int))) + rest.0,
                        rest.1,
                        rest.2,
                    )
                } else {
                    (Seq::empty(), i + 1, seq![span_error(start as nat, end as nat)])
                }
            },
            Ok(HighlightEvent::HighlightStart(k)) => {
                let inner = highlight_html(evs, i + 1, code, classes);
                let piece = "<span class=\""@ + html_escape("hl-"@ + classes[k as int]) + "\">"@
                    + inner.0 + "</span>"@;
                if i < inner.1 <= evs.len() {
                    let rest = highlight_html(evs, inner.1, code, classes);
                    (piece + rest.0, rest.1, inner.2 + rest.2)
                } else {
                    (piece, inner.1, inner.2)
                }
            },
        }
    }
}

/// Renders highlighter events over a code snippet as HTML.
pub struct RenderSyntaxHighlight<'a> {
    pub events: Vec<Result<HighlightEvent, String>>,
    pub code: &'a str,
}

/// Every highlight names one of the classes.
pub open spec fn classes_known(evs: Seq<Result<HighlightEvent, String>>, n: nat) -> bool {
    forall|k: int|
        0 <= k < evs.len() ==> (#[trigger] evs[k] matches Ok(HighlightEvent::HighlightStart(c)) ==> c
            < n)
}

/// The texts of a vector of strings.
pub open spec fn class_views(v: Seq<String>) -> Seq<Seq<char>> {
    v.map_values(|s: String| s@)
}

impl<'a> RenderSyntaxHighlight<'a> {
    /// A renderer of the given events over the code.
    pub fn new(events: Vec<Result<HighlightEvent, String>>, code: &'a str) -> (r: RenderSyntaxHighlight<'a>)
        ensures
            r.events == events,
            r.code == code,
    {
        RenderSyntaxHighlight { events, code }
    }

    /// The HTML of the events (see `highlight_html`), with the classes named by their position;
    /// the errors recorded instead, if any.
    pub fn render(&self, classes: &Vec<String>) -> (r: Result<String, Vec<String>>)
        requires
            classes_known(self.events@, classes@.len()),
        ensures
            ({
                let h = highlight_html(self.events@, 0, self.code.spec_bytes(), class_views(classes@));
                match r {
                    Ok(s) => h.2.len() == 0 && s@ == h.0,
                    Err(es) => h.2.len() > 0 && class_views(es@) == h.2,
                }
            }),
    {
        let mut out = String::new();
        let mut errors: Vec<String> = Vec::new();
        let mut pos: usize = 0;
        render_highlights(&self.events, &mut pos, self.code, classes, &mut out, &mut errors);
        if errors.len() == 0 {
            Ok(out)
        } else {
            Err(errors)
        }
    }
}

/// The code of a byte range that starts and ends on character boundaries.
fn span_text(code: &str, start: usize, end: usize) -> (r: Option<&str>)
    ensures
        match r {
            Some(t) => valid_span(code.spec_bytes(), start as int, end as int) && t@ == decode_utf8(
                code.spec_bytes().subrange(start as int, end as int),
            ),
            None => !valid_span(code.spec_bytes(), start as int, end as int),
        },
{
    proof {
        encode_utf8_valid_utf8(code@);
    }
    if start <= end && code.is_char_boundary(start) && code.is_char_boundary(end) {
        let (head, _) = code.split_at(end);
        proof {
            assert(head.spec_bytes() =~= code.spec_bytes().subrange(0, end as int));
            lemma_prefix_char_boundary(code.spec_bytes(), end as int, start as int);
        }
        let (_, t) = head.split_at(start);
        proof {
            assert(t.spec_bytes() =~= code.spec_bytes().subrange(start as int, end as int));
            encode_utf8_decode_utf8(t@);
            assert(t.spec_bytes() == vstd::utf8::encode_utf8(t@));
            assert(decode_utf8(t.spec_bytes()) == t@);
            assert(valid_span(code.spec_bytes(), start as int, end as int));
        }
        Some(t)
    } else {
        None
    }
}

/// A character boundary of a text is one of each of its prefixes that reach it.
proof fn lemma_prefix_char_boundary(bytes: Seq<u8>, end: int, start: int)
    requires
        vstd::utf8::valid_utf8(bytes),
        0 <= start <= end <= bytes.len(),
        vstd::utf8::is_char_boundary(bytes, start),
        vstd::utf8::is_char_boundary(bytes, end),
    ensures
        vstd::utf8::is_char_boundary(bytes.subrange(0, end), start),
{
    valid_utf8_split(bytes, end);
    let head = bytes.subrange(0, end);
    if start == end {
        is_char_boundary_start_end_of_seq(head);
    } else {
        is_char_boundary_iff_not_is_continuation_byte(bytes, start);
        is_char_boundary_iff_not_is_continuation_byte(head, start);
    }
}

/// Renders highlighter events from `pos` up to the end of the enclosing highlight (see
/// `highlight_html`), appending the HTML to `out` and the errors to `errors`.
fn render_highlights(
    evs: &Vec<Result<HighlightEvent, String>>,
    pos: &mut usize,
    code: &str,
    classes: &Vec<String>,
    out: &mut String,
    errors: &mut Vec<String>,
)
    requires
        *old(pos) <= evs@.len(),
        classes_known(evs@, classes@.len()),
    ensures
        ({
            let h = highlight_html(evs@, *old(pos) as int, code.spec_bytes(), class_views(classes@));
            &&& final(out)@ == old(out)@ + h.0
            &&& *final(pos) == h.1
            &&& class_views(final(errors)@) == class_views(old(errors)@) + h.2
        }),
        *old(pos) < *final(pos) <= evs@.len() || *final(pos) == *old(pos) == evs@.len(),
    decreases evs@.len() - *old(pos),
{
    let ghost p0 = *pos as int;
    let ghost bytes = code.spec_bytes();
    let ghost cls = class_views(classes@);
    proof {
        encode_utf8_valid_utf8(code@);
    }
    loop
        invariant_except_break
            *pos <= evs@.len(),
            p0 <= *pos,
            ({
                let h0 = highlight_html(evs@, p0, bytes, cls);
                let h = highlight_html(evs@, *pos as int, bytes, cls);
                &&& old(out)@ + h0.0 == out@ + h.0
                &&& h0.1 == h.1
                &&& class_views(old(errors)@) + h0.2 == class_views(errors@) + h.2
            }),
        invariant
            classes_known(evs@, classes@.len()),
            p0 == *old(pos),
            bytes == code.spec_bytes(),
            cls == class_views(classes@),
            vstd::utf8::valid_utf8(bytes),
        ensures
            ({
                let h = highlight_html(evs@, p0, bytes, cls);
                &&& out@ == old(out)@ + h.0
                &&& *pos == h.1
                &&& class_views(errors@) == class_views(old(errors)@) + h.2
            }),
            p0 < *pos <= evs@.len() || *pos == p0 == evs@.len(),
        decreases evs@.len() - *pos,
    {
        let len: usize = evs.len();
        if *pos >= len {
            proof {
                assert(out@ =~= old(out)@ + highlight_html(evs@, p0, bytes, cls).0);
                assert(class_views(errors@) =~= class_views(old(errors)@) + highlight_html(
                    evs@,
                    p0,
                    bytes,
                    cls,
                ).2);
            }
            break;
        }
        let i: usize = *pos;
        let ghost out_i = out@;
        let ghost err_i = class_views(errors@);
        *pos = i + 1;
        match &evs[i] {
            Err(e) => {
                let mut m = "event error: ".to_owned();
                push_str(&mut m, e.as_str());
                errors.push(m);
                proof {
                    assert(class_views(errors@) =~= err_i.push(m@));
                    assert(out@ =~= old(out)@ + highlight_html(evs@, p0, bytes, cls).0);
                    assert(class_views(errors@) =~= class_views(old(errors)@) + highlight_html(
                        evs@,
                        p0,
                        bytes,
                        cls,
                    ).2);
                }
                break;
            },
            Ok(HighlightEvent::HighlightEnd) => {
                proof {
                    assert(out@ =~= old(out)@ + highlight_html(evs@, p0, bytes, cls).0);
                    assert(class_views(errors@) =~= class_views(old(errors)@) + highlight_html(
                        evs@,
                        p0,
                        bytes,
                        cls,
                    ).2);
                }
                break;
            },
            Ok(HighlightEvent::Source { start, end }) => {
                match span_text(code, *start, *end) {
                    Some(t) => {
                        push_escaped(out, t);
                        proof {
                            let hi = highlight_html(evs@, i as int, bytes, cls);
                            let h = highlight_html(evs@, *pos as int, bytes, cls);
                            assert(out_i + hi.0 =~= out@ + h.0);
                            assert(err_i + hi.2 =~= class_views(errors@) + h.2);
                        }
                    },
                    None => {
                        let mut m = "invalid source span ".to_owned();
                        let a = to_decimal(*start as u64);
                        push_str(&mut m, a.as_str());
                        push_str(&mut m, "..");
                        let b = to_decimal(*end as u64);
                        push_str(&mut m, b.as_str());
                        errors.push(m);
                        proof {
                            assert(m@ =~= span_error(*start as nat, *end as nat));
                            assert(class_views(errors@) =~= err_i.push(m@));
                            assert(out@ =~= old(out)@ + highlight_html(evs@, p0, bytes, cls).0);
                            assert(class_views(errors@) =~= class_views(old(errors)@)
                                + highlight_html(evs@, p0, bytes, cls).2);
                        }
                        break;
                    },
                }
            },
            Ok(HighlightEvent::HighlightStart(k)) => {
                proof {
                    assert(evs@[i as int] matches Ok(HighlightEvent::HighlightStart(c)) ==> c
                        < classes@.len());
                }
                let mut class = "hl-".to_owned();
                push_str(&mut class, classes[*k].as_str());
                push_str(out, "<span class=\"");
                push_escaped(out, class.as_str());
                push_str(out, "\">");
                let ghost before_inner = out@;
                render_highlights(evs, pos, code, classes, out, errors);
                push_str(out, "</span>");
                proof {
                    let inner = highlight_html(evs@, i + 1, bytes, cls);
                    let hi = highlight_html(evs@, i as int, bytes, cls);
                    let h = highlight_html(evs@, *pos as int, bytes, cls);
                    assert(class@ =~= "hl-"@ + cls[*k as int]);
                    assert(out_i + hi.0 =~= out@ + h.0);
                    assert(err_i + hi.2 =~= class_views(errors@) + h.2);
                }
            },
        }
    }
}

} // verus!
