//! YAML values as the library reads them, the front matter of entry files, and the loading of
//! YAML documents through `yaml-rust`.

use vstd::prelude::*;
use crate::error::SourceError;
use crate::text::{chars_of, find_line_end, line_end, string_of_range, trim_end, trimmed_range_equals, push_str, lemma_line_end_bounds};

verus! {

/// A YAML value (mirroring `yaml_rust::Yaml`).
#[derive(Debug)]
pub enum YamlValue {
    Real(String),
    Integer(i64),
    String(String),
    Boolean(bool),
    Array(Vec<YamlValue>),
    Hash(YamlHash),
    Alias(usize),
    Null,
    BadValue,
}

/// A YAML mapping: its key/value pairs in document order (keys are distinct).
#[derive(Debug)]
pub struct YamlHash {
    pub entries: Vec<(YamlValue, YamlValue)>,
}

/// A key that is the string `key`.
pub open spec fn is_str_key(k: YamlValue, key: Seq<char>) -> bool {
    k matches YamlValue::String(s) && s@ == key
}

/// The position of the first pair, at `i` or later, whose key is the string `key`; -1 if none.
pub open spec fn key_position_from(es: Seq<(YamlValue, YamlValue)>, key: Seq<char>, i: int) -> int
    decreases es.len() - i,
{
    if i < 0 || i >= es.len() {
        -1
    } else if is_str_key(es[i].0, key) {
        i
    } else {
        key_position_from(es, key, i + 1)
    }
}

/// The position of the pair whose key is the string `key`; -1 if none.
pub open spec fn key_position(es: Seq<(YamlValue, YamlValue)>, key: Seq<char>) -> int {
    key_position_from(es, key, 0)
}

/// The value under the string key `key`.
pub open spec fn hash_get(es: Seq<(YamlValue, YamlValue)>, key: Seq<char>) -> Option<YamlValue> {
    let p = key_position(es, key);
    if p >= 0 {
        Some(es[p].1)
    } else {
        None
    }
}

/// The pairs without the one whose key is the string `key`.
pub open spec fn hash_without(es: Seq<(YamlValue, YamlValue)>, key: Seq<char>) -> Seq<(YamlValue, YamlValue)> {
    let p = key_position(es, key);
    if p >= 0 {
        es.remove(p)
    } else {
        es
    }
}

/// No two pairs of a mapping have the same string key (as in every YAML mapping).
pub open spec fn distinct_str_keys(es: Seq<(YamlValue, YamlValue)>) -> bool {
    forall|i: int, j: int, key: Seq<char>|
        0 <= i < j < es.len() && #[trigger] is_str_key(es[i].0, key) ==> !#[trigger] is_str_key(
            es[j].0,
            key,
        )
}

/// Once a key is removed from a mapping, reading it gives nothing.
pub proof fn removed_key_is_gone(es: Seq<(YamlValue, YamlValue)>, key: Seq<char>)
    requires
        distinct_str_keys(es),
    ensures
        hash_get(hash_without(es, key), key) is None,
{
    lemma_key_position_from(es, key, 0);
    let p = key_position(es, key);
    let r = hash_without(es, key);
    if p >= 0 {
        assert forall|j: int| 0 <= j < r.len() implies !is_str_key(#[trigger] r[j].0, key) by {
            if j < p {
                assert(r[j] == es[j]);
            } else {
                assert(r[j] == es[j + 1]);
                assert(is_str_key(es[p].0, key));
            }
        }
    }
    lemma_key_position_from(r, key, 0);
    if key_position(r, key) >= 0 {
        assert(is_str_key(r[key_position(r, key)].0, key));
    }
}

/// Taking one key out of a mapping leaves every other absent key absent.
pub proof fn absent_key_stays_absent(es: Seq<(YamlValue, YamlValue)>, key: Seq<char>, other: Seq<char>)
    requires
        hash_get(es, key) is None,
    ensures
        hash_get(hash_without(es, other), key) is None,
{
    lemma_key_position_from(es, key, 0);
    lemma_key_position_from(es, other, 0);
    let r = hash_without(es, other);
    let p = key_position(es, other);
    lemma_key_position_from(r, key, 0);
    if key_position(r, key) >= 0 {
        let q = key_position(r, key);
        if p >= 0 {
            if q < p {
                assert(r[q] == es[q]);
            } else {
                assert(r[q] == es[q + 1]);
            }
        } else {
            assert(r[q] == es[q]);
        }
    }
}

proof fn lemma_key_position_from(es: Seq<(YamlValue, YamlValue)>, key: Seq<char>, i: int)
    requires
        0 <= i,
    ensures
        key_position_from(es, key, i) == -1 || (i <= key_position_from(es, key, i) < es.len()
            && is_str_key(es[key_position_from(es, key, i)].0, key)),
        forall|j: int|
            i <= j < es.len() && (j < key_position_from(es, key, i) || key_position_from(es, key, i)
                == -1) ==> !is_str_key(#[trigger] es[j].0, key),
    decreases es.len() - i,
{
    if i < es.len() && !is_str_key(es[i].0, key) {
        lemma_key_position_from(es, key, i + 1);
    }
}

impl YamlHash {
    /// An empty mapping.
    pub fn new() -> (r: YamlHash)
        ensures
            r.entries@.len() == 0,
    {
        YamlHash { entries: Vec::new() }
    }

    /// The number of pairs.
    pub fn len(&self) -> (r: usize)
        ensures
            r == self.entries@.len(),
    {
        self.entries.len()
    }

    /// Removes and returns the value under the string key `key`.
    pub fn remove(&mut self, key: &str) -> (r: Option<YamlValue>)
        ensures
            r == hash_get(old(self).entries@, key@),
            final(self).entries@ == hash_without(old(self).entries@, key@),
    {
        proof {
            lemma_key_position_from(self.entries@, key@, 0);
        }
        let mut i: usize = 0;
        while i < self.entries.len()
            invariant
                i <= self.entries@.len(),
                self.entries@ == old(self).entries@,
                forall|j: int| 0 <= j < i ==> !is_str_key(#[trigger] self.entries@[j].0, key@),
                key_position(self.entries@, key@) == -1 || i <= key_position(self.entries@, key@),
            decreases self.entries@.len() - i,
        {
            proof {
                lemma_key_position_from(self.entries@, key@, 0);
            }
            let matches = match &self.entries[i].0 {
                YamlValue::String(s) => crate::text::same_text(s.as_str(), key),
                _ => false,
            };
            if matches {
                proof {
                    if key_position(self.entries@, key@) != i as int {
                        assert(!is_str_key(self.entries@[i as int].0, key@));
                    }
                }
                let (_, v) = self.entries.remove(i);
                return Some(v);
            }
            i = i + 1;
        }
        proof {
            lemma_key_position_from(self.entries@, key@, 0);
            if key_position(self.entries@, key@) != -1 {
                let p = key_position(self.entries@, key@);
                assert(!is_str_key(self.entries@[p].0, key@));
            }
        }
        None
    }
}

/// What `yaml_rust::YamlLoader::load_from_str` yields for a text: its documents, or `None`
/// when the scanner reports an error.
pub uninterp spec fn yaml_documents(text: Seq<char>) -> Option<Seq<YamlValue>>;

/// A value as `yaml_rust` produces it.
#[verifier::external_type_specification]
#[verifier::external_body]
pub struct ExScannedYaml(yaml_rust::Yaml);

/// Converts a `yaml_rust` value into the library's own value, variant by variant.
///
/// Trusted: moves each variant's fields across (recursing into arrays and, in order, into the
/// pairs of a `LinkedHashMap`); nothing is stated of the result.
#[verifier::external_body]
fn yaml_from_scanned(y: yaml_rust::Yaml) -> YamlValue {
    match y {
        yaml_rust::Yaml::Real(s) => YamlValue::Real(s),
        yaml_rust::Yaml::Integer(i) => YamlValue::Integer(i),
        yaml_rust::Yaml::String(s) => YamlValue::String(s),
        yaml_rust::Yaml::Boolean(b) => YamlValue::Boolean(b),
        yaml_rust::Yaml::Array(a) => YamlValue::Array(a.into_iter().map(yaml_from_scanned).collect()),
        yaml_rust::Yaml::Hash(h) => YamlValue::Hash(YamlHash {
            entries: h.into_iter().map(|(k, v)| (yaml_from_scanned(k), yaml_from_scanned(v))).collect(),
        }),
        yaml_rust::Yaml::Alias(n) => YamlValue::Alias(n),
        yaml_rust::Yaml::Null => YamlValue::Null,
        yaml_rust::Yaml::BadValue => YamlValue::BadValue,
    }
}

/// Parses YAML text into its documents.
///
/// Trusted: calls `yaml_rust::YamlLoader::load_from_str` and converts each document with
/// `yaml_from_scanned`. The documents are only tied to the text through the name
/// `yaml_documents`.
#[verifier::external_body]
pub(crate) fn load_yaml_documents(text: &str) -> (r: Result<Vec<YamlValue>, yaml_rust::ScanError>)
    ensures
        match r {
            Ok(docs) => yaml_documents(text@) == Some(docs@),
            Err(_) => yaml_documents(text@) is None,
        },
{
    yaml_rust::YamlLoader::load_from_str(text).map(|docs| docs.into_iter().map(yaml_from_scanned).collect())
}

/// The message of a document that is not a mapping.
pub open spec fn not_a_mapping_message() -> Seq<char> {
    "Yaml must be a key -> value mapping"@
}

/// The outcome of reading a YAML configuration text: its first document, which must be a
/// mapping.
pub open spec fn spec_load(text: Seq<char>) -> Option<Result<YamlHash, Seq<char>>> {
    match yaml_documents(text) {
        None => None,
        Some(docs) => Some(
            if docs.len() > 0 && docs[0] is Hash {
                Ok(docs[0]->Hash_0)
            } else {
                Err(not_a_mapping_message())
            },
        ),
    }
}

/// Reads a YAML configuration file's text: its first document must be a mapping.
pub fn load(text: &str) -> (r: Result<YamlHash, SourceError>)
    ensures
        match r {
            Ok(h) => spec_load(text@) == Some(Ok::<YamlHash, Seq<char>>(h)),
            Err(SourceError::Parse(_)) => spec_load(text@) is None,
            Err(SourceError::Config(m)) => spec_load(text@) == Some(Err::<YamlHash, Seq<char>>(m@)),
            Err(SourceError::Read(_)) => false,
        },
{
    let mut docs = match load_yaml_documents(text) {
        Ok(d) => d,
        Err(e) => return Err(SourceError::Parse(e)),
    };
    first_mapping(docs)
}

/// Takes the first document of a YAML text, which must be a mapping.
pub fn first_mapping(docs: Vec<YamlValue>) -> (r: Result<YamlHash, SourceError>)
    ensures
        match r {
            Ok(h) => docs@.len() > 0 && docs@[0] == YamlValue::Hash(h),
            Err(SourceError::Config(m)) => !(docs@.len() > 0 && docs@[0] is Hash) && m@
                == not_a_mapping_message(),
            _ => false,
        },
{
    let mut docs = docs;
    docs.truncate(1);
    match docs.pop() {
        Some(YamlValue::Hash(data)) => Ok(data),
        _ => Err(SourceError::config("Yaml must be a key -> value mapping")),
    }
}

/// Scans the front-matter header from the line starting at `i`: it ends at a line reading `...`
/// (kept) or `---` (replaced by `...`). Yields the YAML text and where the body starts; `None`
/// when the text ends first.
pub open spec fn scan_header(s: Seq<char>, i: int) -> Option<(Seq<char>, int)>
    decreases s.len() - i,
{
    if i < 0 || i >= s.len() {
        None
    } else {
        let e = line_end(s, i);
        let line = s.subrange(i, e);
        if trim_end(line) == "..."@ {
            Some((s.subrange(0, e), e))
        } else if trim_end(line) == "---"@ {
            Some((s.subrange(0, i) + "...\n"@, e))
        } else if e <= i || e > s.len() {
            None
        } else {
            scan_header(s, e)
        }
    }
}

/// The text opens with a front-matter line `---`.
pub open spec fn opens_front_matter(s: Seq<char>) -> bool {
    trim_end(s.subrange(0, line_end(s, 0))) == "---"@
}

/// A text either has no front matter or its front matter is closed.
pub open spec fn front_matter_closed(s: Seq<char>) -> bool {
    opens_front_matter(s) ==> scan_header(s, line_end(s, 0)) is Some
}

/// The split of a text into the YAML text of its front matter and its body; `None` when it has
/// no front matter.
pub open spec fn front_split(s: Seq<char>) -> Option<(Seq<char>, Seq<char>)> {
    if !opens_front_matter(s) {
        None
    } else {
        match scan_header(s, line_end(s, 0)) {
            Some((h, b)) => Some((h, s.subrange(b, s.len() as int))),
            None => None,
        }
    }
}

/// The outcome of reading an entry file's text: without front matter, an empty mapping and an
/// empty body; otherwise the front matter's first YAML document (which must be a mapping) and
/// the body after it. `None` stands for a YAML scan error.
pub open spec fn spec_load_front(s: Seq<char>) -> Option<
    Result<(Seq<(YamlValue, YamlValue)>, Seq<char>), Seq<char>>,
> {
    match front_split(s) {
        None => Some(Ok((Seq::empty(), Seq::empty()))),
        Some((h, body)) => match spec_load(h) {
            None => None,
            Some(Ok(m)) => Some(Ok((m.entries@, body))),
            Some(Err(e)) => Some(Err(e)),
        },
    }
}

/// Finds the header of front matter whose opening line ends at `start`.
fn find_header(v: &Vec<char>, start: usize) -> (r: (String, usize))
    requires
        start <= v@.len(),
        scan_header(v@, start as int) is Some,
    ensures
        scan_header(v@, start as int) == Some((r.0@, r.1 as int)),
        r.1 <= v@.len(),
{
    let mut i: usize = start;
    loop
        invariant
            start <= i <= v@.len(),
            scan_header(v@, i as int) == scan_header(v@, start as int),
            scan_header(v@, i as int) is Some,
        decreases v@.len() - i,
    {
        proof {
            lemma_line_end_bounds(v@, i as int);
        }
        let e: usize = find_line_end(v, i);
        if trimmed_range_equals(v, i, e, "...") {
            return (string_of_range(v, 0, e), e);
        }
        if trimmed_range_equals(v, i, e, "---") {
            let mut h = string_of_range(v, 0, i);
            push_str(&mut h, "...\n");
            return (h, e);
        }
        i = e;
    }
}

/// Reads an entry file's text: its front matter (a YAML mapping between a `---` line and a
/// `...` or `---` line) and the body after it. A text that does not open with `---` has an
/// empty mapping and an empty body.
pub fn load_front(text: &str) -> (r: Result<(YamlHash, String), SourceError>)
    requires
        front_matter_closed(text@),
    ensures
        match r {
            Ok((h, body)) => spec_load_front(text@) == Some(
                Ok::<(Seq<(YamlValue, YamlValue)>, Seq<char>), Seq<char>>((h.entries@, body@)),
            ),
            Err(SourceError::Parse(_)) => spec_load_front(text@) is None,
            Err(SourceError::Config(m)) => spec_load_front(text@) == Some(
                Err::<(Seq<(YamlValue, YamlValue)>, Seq<char>), Seq<char>>(m@),
            ),
            Err(SourceError::Read(_)) => false,
        },
{
    let v = chars_of(text);
    let e0: usize = find_line_end(&v, 0);
    if !trimmed_range_equals(&v, 0, e0, "---") {
        let h = YamlHash::new();
        proof {
            assert(h.entries@ =~= Seq::<(YamlValue, YamlValue)>::empty());
        }
        return Ok((h, String::new()));
    }
    let (header, body_start) = find_header(&v, e0);
    let meta = load(header.as_str())?;
    let body = string_of_range(&v, body_start, v.len());
    Ok((meta, body))
}

/// Returns true if the text has no front matter or its front matter closes (see
/// `front_matter_closed`).
pub fn front_matter_closes(text: &str) -> (r: bool)
    ensures
        r == front_matter_closed(text@),
{
    let v = chars_of(text);
    let e0: usize = find_line_end(&v, 0);
    if !trimmed_range_equals(&v, 0, e0, "---") {
        return true;
    }
    let mut i: usize = e0;
    loop
        invariant
            e0 <= i <= v@.len(),
            v@ == text@,
            e0 == line_end(text@, 0),
            opens_front_matter(text@),
            scan_header(v@, i as int) == scan_header(v@, e0 as int),
        decreases v@.len() - i,
    {
        if i >= v.len() {
            return false;
        }
        proof {
            lemma_line_end_bounds(v@, i as int);
        }
        let e: usize = find_line_end(&v, i);
        if trimmed_range_equals(&v, i, e, "...") || trimmed_range_equals(&v, i, e, "---") {
            return true;
        }
        i = e;
    }
}

} // verus!
