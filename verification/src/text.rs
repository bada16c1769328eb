//! Character-level string helpers used throughout the library.

use vstd::prelude::*;
use vstd::string::StrSliceExecFns;

verus! {

/// Appends one character to a string.
///
/// Trusted: calls `String::push`, which std documents as appending the given
/// character to the end of the string.
#[verifier::external_body]
pub(crate) fn push_char(s: &mut String, c: char)
    ensures
        final(s)@ == old(s)@.push(c),
{
    s.push(c);
}

/// Appends a string slice to a string.
pub fn push_str(s: &mut String, t: &str)
    ensures
        final(s)@ == old(s)@ + t@,
{
    s.append(t);
}

/// Collects the characters of a string slice.
pub fn chars_of(s: &str) -> (v: Vec<char>)
    ensures
        v@ == s@,
{
    let mut v: Vec<char> = Vec::new();
    for c in it: s.chars()
        invariant
            v@ == it.seq().take(it.index() as int),
    {
        v.push(c);
    }
    v
}

} // verus!

verus! {

/// Builds a string from the given characters.
pub fn string_of(cs: &[char]) -> (s: String)
    ensures
        s@ == cs@,
{
    let mut s = String::new();
    let mut i: usize = 0;
    while i < cs.len()
        invariant
            i <= cs@.len(),
            s@ == cs@.take(i as int),
        decreases cs@.len() - i,
    {
        push_char(&mut s, cs[i]);
        proof {
            assert(cs@.take(i + 1) =~= cs@.take(i as int).push(cs@[i as int]));
        }
        i = i + 1;
    }
    proof {
        assert(cs@.take(cs@.len() as int) =~= cs@);
    }
    s
}

/// Returns true if `s` contains one of the three given characters.
pub fn contains_any_char(s: &str, a: char, b: char, c: char) -> (r: bool)
    ensures
        r == exists|i: int| 0 <= i < s@.len() && (#[trigger] s@[i] == a || s@[i] == b || s@[i] == c),
{
    let v = chars_of(s);
    let mut i: usize = 0;
    while i < v.len()
        invariant
            i <= v@.len(),
            v@ == s@,
            forall|j: int| 0 <= j < i ==> !(#[trigger] v@[j] == a || v@[j] == b || v@[j] == c),
        decreases v@.len() - i,
    {
        if v[i] == a || v[i] == b || v[i] == c {
            return true;
        }
        i = i + 1;
    }
    false
}

} // verus!

verus! {

/// Returns true if the two texts are equal.
pub fn same_text(a: &str, b: &str) -> (r: bool)
    ensures
        r == (a@ == b@),
{
    let x = a.to_owned();
    let y = b.to_owned();
    x == y
}

/// The text after the first character.
pub fn after_first_char(s: &str) -> (r: &str)
    requires
        s@.len() > 0,
    ensures
        r@ == s@.subrange(1, s@.len() as int),
{
    let n: usize = s.unicode_len();
    s.substring_char(1, n)
}

/// The first character of a text, if any.
pub fn first_char(s: &str) -> (r: Option<char>)
    ensures
        r == (if s@.len() > 0 { Some(s@[0]) } else { None::<char> }),
{
    if s.unicode_len() == 0 {
        None
    } else {
        Some(s.get_char(0))
    }
}

} // verus!

verus! {

/// The characters with the Unicode `White_Space` property (what `char::is_whitespace` tests).
pub open spec fn is_ws(c: char) -> bool {
    ('\u{9}' <= c <= '\u{d}') || c == ' ' || c == '\u{85}' || c == '\u{a0}' || c == '\u{1680}'
        || ('\u{2000}' <= c <= '\u{200a}') || c == '\u{2028}' || c == '\u{2029}' || c
        == '\u{202f}' || c == '\u{205f}' || c == '\u{3000}'
}

/// Tests whether a character is whitespace.
pub fn is_whitespace(c: char) -> (r: bool)
    ensures
        r == is_ws(c),
{
    ('\u{9}' <= c && c <= '\u{d}') || c == ' ' || c == '\u{85}' || c == '\u{a0}' || c
        == '\u{1680}' || ('\u{2000}' <= c && c <= '\u{200a}') || c == '\u{2028}' || c
        == '\u{2029}' || c == '\u{202f}' || c == '\u{205f}' || c == '\u{3000}'
}

/// A text without its trailing whitespace.
pub open spec fn trim_end(s: Seq<char>) -> Seq<char>
    decreases s.len(),
{
    if s.len() > 0 && is_ws(s.last()) {
        trim_end(s.drop_last())
    } else {
        s
    }
}

/// The end of the line starting at `i`: just after the next newline, or the end of the text.
pub open spec fn line_end(s: Seq<char>, i: int) -> int
    decreases s.len() - i,
{
    if i >= s.len() {
        s.len() as int
    } else if s[i] == '\n' {
        i + 1
    } else {
        line_end(s, i + 1)
    }
}

/// `line_end` stays within the text and past its start.
pub proof fn lemma_line_end_bounds(s: Seq<char>, i: int)
    requires
        0 <= i,
    ensures
        i < s.len() ==> i < line_end(s, i) <= s.len(),
        i >= s.len() ==> line_end(s, i) == s.len(),
    decreases s.len() - i,
{
    if i < s.len() && s[i] != '\n' {
        lemma_line_end_bounds(s, i + 1);
    }
}

/// Finds the end of the line starting at `i`.
pub fn find_line_end(v: &Vec<char>, i: usize) -> (r: usize)
    requires
        i <= v@.len(),
    ensures
        r == line_end(v@, i as int),
        i < v@.len() ==> i < r <= v@.len(),
        i == v@.len() ==> r == i,
{
    proof {
        lemma_line_end_bounds(v@, i as int);
    }
    let mut j: usize = i;
    while j < v.len()
        invariant
            i <= j <= v@.len(),
            line_end(v@, i as int) == line_end(v@, j as int),
            forall|k: int| i <= k < j ==> v@[k] != '\n',
        decreases v@.len() - j,
    {
        if v[j] == '\n' {
            return j + 1;
        }
        j = j + 1;
    }
    j
}

/// Builds a string from a range of characters.
pub fn string_of_range(v: &Vec<char>, a: usize, b: usize) -> (s: String)
    requires
        a <= b <= v@.len(),
    ensures
        s@ == v@.subrange(a as int, b as int),
{
    let mut s = String::new();
    let mut i: usize = a;
    while i < b
        invariant
            a <= i <= b,
            b <= v@.len(),
            s@ == v@.subrange(a as int, i as int),
        decreases b - i,
    {
        push_char(&mut s, v[i]);
        proof {
            assert(v@.subrange(a as int, i + 1) =~= v@.subrange(a as int, i as int).push(
                v@[i as int],
            ));
        }
        i = i + 1;
    }
    s
}

/// Returns true if a range of characters equals a text.
pub fn range_equals(v: &Vec<char>, a: usize, b: usize, t: &str) -> (r: bool)
    requires
        a <= b <= v@.len(),
    ensures
        r == (v@.subrange(a as int, b as int) == t@),
{
    let s = string_of_range(v, a, b);
    same_text(s.as_str(), t)
}

/// Returns true if a range of characters, without its trailing whitespace, equals a text.
pub fn trimmed_range_equals(v: &Vec<char>, a: usize, b: usize, t: &str) -> (r: bool)
    requires
        a <= b <= v@.len(),
    ensures
        r == (trim_end(v@.subrange(a as int, b as int)) == t@),
{
    let mut e = b;
    while e > a && is_whitespace(v[e - 1])
        invariant
            a <= e <= b,
            b <= v@.len(),
            trim_end(v@.subrange(a as int, b as int)) == trim_end(v@.subrange(a as int, e as int)),
        decreases e,
    {
        proof {
            assert(v@.subrange(a as int, e as int).drop_last() =~= v@.subrange(a as int, e - 1));
        }
        e = e - 1;
    }
    proof {
        let s = v@.subrange(a as int, e as int);
        assert(!(s.len() > 0 && is_ws(s.last())));
        assert(trim_end(s) == s);
    }
    range_equals(v, a, e, t)
}

} // verus!
