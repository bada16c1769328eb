//! Entries: the pages of a site, as read from their front matter.

use vstd::prelude::*;
use crate::datetime::DateTime;
use crate::index::Index;

verus! {

/// An entry in the website.
///
/// Note: *pages* do not correspond one-to-one to entries (because of pagination).
#[derive(Debug, Clone)]
pub struct Entry<M> {
    /// The entry's title.
    pub title: String,
    /// The entry's description (included in compact indices).
    pub description: Option<String>,
    /// When the entry was created.
    pub date: Option<DateTime>,
    /// When the entry was last modified.
    pub updated: DateTime,
    /// The entry's index settings, if it is an index.
    pub index: Option<Index>,
    /// Names of the index entries into which this entry is linked.
    pub cc: Vec<String>,
    /// Extra metadata.
    pub meta: M,
    /// The entry name: its directory relative to the site root (empty for the root).
    pub name: String,
    /// The content (after the front matter).
    pub content: String,
    /// The content format (the index file's extension).
    pub format: String,
}

/// A static file or directory to be deployed as-is.
#[derive(Debug, Clone)]
pub struct StaticEntry {
    pub name: String,
    pub source: String,
}

} // verus!

verus! {

use crate::datetime::{parse_datetime, spec_parse_datetime};
use crate::error::SourceError;
use crate::index::{Sort, SortDirection, SortField, Syndicate, spec_parse_sort, sort_error_message, sort_key_of};
use crate::meta::Meta;
use crate::path::{resolve_path, spec_resolve_path};
use crate::yaml::{YamlHash, YamlValue, absent_key_stays_absent, hash_get, hash_without};
use crate::person::{all_strings, strings_match, strings_of};

/// The front-matter fields an entry reads, in order.
pub open spec fn entry_field(i: int) -> Seq<char> {
    if i == 0 {
        "title"@
    } else if i == 1 {
        "description"@
    } else if i == 2 {
        "date"@
    } else if i == 3 {
        "updated"@
    } else if i == 4 {
        "index"@
    } else {
        "cc"@
    }
}

/// The front matter once the first `n` entry fields are taken.
pub open spec fn entry_fields_after(es: Seq<(YamlValue, YamlValue)>, n: int) -> Seq<(YamlValue, YamlValue)>
    decreases n,
{
    if n <= 0 {
        es
    } else {
        hash_without(entry_fields_after(es, n - 1), entry_field(n - 1))
    }
}

/// The value of the `i`-th entry field.
pub open spec fn entry_value(es: Seq<(YamlValue, YamlValue)>, i: int) -> Option<YamlValue> {
    hash_get(entry_fields_after(es, i), entry_field(i))
}

/// The index settings an entry's `index` mapping may hold, in order.
pub open spec fn index_field(i: int) -> Seq<char> {
    if i == 0 {
        "paginate"@
    } else if i == 1 {
        "max"@
    } else if i == 2 {
        "syndicate"@
    } else if i == 3 {
        "compact"@
    } else if i == 4 {
        "sort"@
    } else {
        "directories"@
    }
}

/// The index mapping once the first `n` settings are taken.
pub open spec fn index_fields_after(es: Seq<(YamlValue, YamlValue)>, n: int) -> Seq<(YamlValue, YamlValue)>
    decreases n,
{
    if n <= 0 {
        es
    } else {
        hash_without(index_fields_after(es, n - 1), index_field(n - 1))
    }
}

/// The value of the `i`-th index setting.
pub open spec fn index_value(es: Seq<(YamlValue, YamlValue)>, i: int) -> Option<YamlValue> {
    hash_get(index_fields_after(es, i), index_field(i))
}

/// A positive count that fits in 32 bits.
pub open spec fn is_count(v: YamlValue) -> bool {
    v matches YamlValue::Integer(i) && 1 <= i <= u32::MAX
}

/// A count setting (`paginate`, `max`): a positive integer, or `false`/absent for none.
pub open spec fn count_error(v: Option<YamlValue>, msg: Seq<char>) -> Option<Seq<char>> {
    match v {
        None => None,
        Some(YamlValue::Boolean(false)) => None,
        Some(x) => if is_count(x) {
            None
        } else {
            Some(msg)
        },
    }
}

/// The count a count setting gives.
pub open spec fn count_matches(v: Option<YamlValue>, r: Option<u32>) -> bool {
    match v {
        Some(YamlValue::Integer(i)) => 1 <= i <= u32::MAX ==> r == Some(i as u32),
        _ => r is None,
    }
}

/// The `syndicate` setting: a positive count, `true` (no limit), or `false`/absent (no feed).
pub open spec fn syndicate_error(v: Option<YamlValue>) -> Option<Seq<char>> {
    match v {
        None => None,
        Some(YamlValue::Boolean(_)) => None,
        Some(x) => if is_count(x) {
            None
        } else {
            Some("invalid pagination setting"@)
        },
    }
}

/// The syndication a `syndicate` setting gives.
pub open spec fn syndicate_matches(v: Option<YamlValue>, r: Option<Syndicate>) -> bool {
    match v {
        Some(YamlValue::Integer(i)) => r matches Some(s) && s.max == Some(i as u32),
        Some(YamlValue::Boolean(true)) => r matches Some(s) && s.max is None,
        _ => r is None,
    }
}

/// The `compact` setting: a boolean or absent.
pub open spec fn compact_error(v: Option<YamlValue>) -> Option<Seq<char>> {
    match v {
        None => None,
        Some(YamlValue::Boolean(_)) => None,
        Some(_) => Some("invalid compact setting"@),
    }
}

/// The `sort` setting: a sort specification or absent.
pub open spec fn sort_setting_error(v: Option<YamlValue>) -> Option<Seq<char>> {
    match v {
        None => None,
        Some(YamlValue::String(k)) => if spec_parse_sort(k@) is Some {
            None
        } else {
            Some(sort_error_message(sort_key_of(k@)))
        },
        Some(_) => Some("invalid sort value"@),
    }
}

/// The sort a `sort` setting gives.
pub open spec fn sort_setting_matches(v: Option<YamlValue>, r: Sort) -> bool {
    match v {
        Some(YamlValue::String(k)) => spec_parse_sort(k@) == Some(r),
        _ => r == Sort { field: SortField::Title, direction: SortDirection::Ascending },
    }
}

/// The first error among directory values, in order: each must be a string that resolves.
pub open spec fn dirs_error(base: Seq<char>, s: Seq<YamlValue>) -> Option<Seq<char>>
    decreases s.len(),
{
    if s.len() == 0 {
        None
    } else {
        match s[0] {
            YamlValue::String(d) => match spec_resolve_path(base, d@) {
                Err(m) => Some(m),
                Ok(_) => dirs_error(base, s.drop_first()),
            },
            _ => Some("index directories must be strings"@),
        }
    }
}

/// `r` holds, in order, the resolved directories.
pub open spec fn dirs_match(base: Seq<char>, s: Seq<YamlValue>, r: Seq<String>) -> bool {
    &&& s.len() == r.len()
    &&& forall|i: int|
        0 <= i < s.len() ==> (#[trigger] s[i] is String && spec_resolve_path(base, s[i]->String_0@)
            == Ok::<Seq<char>, Seq<char>>(r[i]@))
}

/// The `directories` setting: a list of directories, one directory, or absent (the entry's
/// own directory).
pub open spec fn directories_error(base: Seq<char>, v: Option<YamlValue>) -> Option<Seq<char>> {
    match v {
        None => None,
        Some(YamlValue::Array(a)) => dirs_error(base, a@),
        Some(YamlValue::String(d)) => match spec_resolve_path(base, d@) {
            Err(m) => Some(m),
            Ok(_) => None,
        },
        Some(_) => Some("invalid directory list in index"@),
    }
}

/// The directories a `directories` setting gives.
pub open spec fn directories_matches(base: Seq<char>, v: Option<YamlValue>, r: Seq<String>) -> bool {
    match v {
        Some(YamlValue::Array(a)) => dirs_match(base, a@, r),
        Some(YamlValue::String(d)) => r.len() == 1 && spec_resolve_path(base, d@) == Ok::<
            Seq<char>,
            Seq<char>,
        >(r[0]@),
        _ => r.len() == 1 && r[0]@ == base,
    }
}

/// The first invalid setting of an index mapping, in order.
pub open spec fn index_hash_error(base: Seq<char>, es: Seq<(YamlValue, YamlValue)>) -> Option<Seq<char>> {
    if count_error(index_value(es, 0), "invalid pagination setting"@) is Some {
        count_error(index_value(es, 0), "invalid pagination setting"@)
    } else if count_error(index_value(es, 1), "invalid max setting"@) is Some {
        count_error(index_value(es, 1), "invalid max setting"@)
    } else if syndicate_error(index_value(es, 2)) is Some {
        syndicate_error(index_value(es, 2))
    } else if compact_error(index_value(es, 3)) is Some {
        compact_error(index_value(es, 3))
    } else if sort_setting_error(index_value(es, 4)) is Some {
        sort_setting_error(index_value(es, 4))
    } else {
        directories_error(base, index_value(es, 5))
    }
}

/// `ix` is the index an index mapping describes.
pub open spec fn index_hash_matches(base: Seq<char>, es: Seq<(YamlValue, YamlValue)>, ix: Index) -> bool {
    &&& count_matches(index_value(es, 0), ix.paginate)
    &&& count_matches(index_value(es, 1), ix.max)
    &&& syndicate_matches(index_value(es, 2), ix.syndicate)
    &&& ix.compact == (index_value(es, 3) == Some(YamlValue::Boolean(true)))
    &&& sort_setting_matches(index_value(es, 4), ix.sort)
    &&& directories_matches(base, index_value(es, 5), ix.directories@)
}

/// An index with default settings and the given directories.
pub open spec fn is_plain_index(ix: Index) -> bool {
    &&& ix.paginate is None
    &&& ix.max is None
    &&& !ix.compact
    &&& ix.sort == Sort { field: SortField::Title, direction: SortDirection::Ascending }
    &&& ix.syndicate is None
}

/// The `index` field: `true`/`false`, a directory, a list of directories or a mapping of
/// settings.
pub open spec fn index_error(base: Seq<char>, v: Option<YamlValue>) -> Option<Seq<char>> {
    match v {
        None => None,
        Some(YamlValue::Boolean(_)) => None,
        Some(YamlValue::String(d)) => match spec_resolve_path(base, d@) {
            Err(m) => Some(m),
            Ok(_) => None,
        },
        Some(YamlValue::Array(a)) => dirs_error(base, a@),
        Some(YamlValue::Hash(h)) => index_hash_error(base, h.entries@),
        Some(_) => Some("invalid index value"@),
    }
}

/// The index settings the `index` field gives.
pub open spec fn index_matches(base: Seq<char>, v: Option<YamlValue>, r: Option<Index>) -> bool {
    match v {
        Some(YamlValue::Boolean(true)) => r matches Some(ix) && is_plain_index(ix)
            && ix.directories@.len() == 1 && ix.directories@[0]@ == base,
        Some(YamlValue::String(d)) => r matches Some(ix) && is_plain_index(ix)
            && ix.directories@.len() == 1 && spec_resolve_path(base, d@) == Ok::<
            Seq<char>,
            Seq<char>,
        >(ix.directories@[0]@),
        Some(YamlValue::Array(a)) => r matches Some(ix) && is_plain_index(ix) && dirs_match(
            base,
            a@,
            ix.directories@,
        ),
        Some(YamlValue::Hash(h)) => r matches Some(ix) && index_hash_matches(base, h.entries@, ix),
        _ => r is None,
    }
}

/// A setting absent from an index mapping stays absent as the settings before it are taken.
proof fn lemma_index_setting_absent(es: Seq<(YamlValue, YamlValue)>, key: Seq<char>, n: int)
    requires
        hash_get(es, key) is None,
    ensures
        hash_get(index_fields_after(es, n), key) is None,
    decreases n,
{
    if n > 0 {
        lemma_index_setting_absent(es, key, n - 1);
        absent_key_stays_absent(index_fields_after(es, n - 1), key, index_field(n - 1));
    }
}

/// An index given as a mapping without a `directories` setting lists the entry's own
/// directory, and only it, as `index: true` does.
pub proof fn index_mapping_lists_own_directory(base: Seq<char>, h: YamlHash, r: Option<Index>)
    requires
        hash_get(h.entries@, "directories"@) is None,
        index_matches(base, Some(YamlValue::Hash(h)), r),
    ensures
        r matches Some(ix) && ix.directories@.len() == 1 && ix.directories@[0]@ == base,
{
    lemma_index_setting_absent(h.entries@, "directories"@, 5);
    assert(index_field(5) == "directories"@);
}

/// The `cc` field: an index name, a list of index names, or absent.
pub open spec fn cc_error(v: Option<YamlValue>) -> Option<Seq<char>> {
    match v {
        None => None,
        Some(YamlValue::String(_)) => None,
        Some(YamlValue::Array(a)) => if all_strings(a@) {
            None
        } else {
            Some("invlaid cc value"@)
        },
        Some(_) => Some("invalid cc value"@),
    }
}

/// The index names the `cc` field gives.
pub open spec fn cc_matches(v: Option<YamlValue>, r: Seq<String>) -> bool {
    match v {
        Some(YamlValue::String(s)) => r == seq![s],
        Some(YamlValue::Array(a)) => strings_match(a@, r),
        _ => r.len() == 0,
    }
}

/// The first error among the title, description, date and last-update fields.
pub open spec fn early_error(es: Seq<(YamlValue, YamlValue)>) -> Option<Seq<char>> {
    let title = entry_value(es, 0);
    let description = entry_value(es, 1);
    let date = entry_value(es, 2);
    let updated = entry_value(es, 3);
    if title is None {
        Some("entries must have titles"@)
    } else if !(title->Some_0 is String) {
        Some("titles must be strings"@)
    } else if description is Some && !(description->Some_0 is String) {
        Some("invalid description type"@)
    } else if date is Some && !(date->Some_0 is String) {
        Some("date must be a string"@)
    } else if date is Some && spec_parse_datetime(date->Some_0->String_0@) is Err {
        Some(spec_parse_datetime(date->Some_0->String_0@)->Err_0)
    } else if updated is Some && !(updated->Some_0 is String) {
        Some("date must be a string"@)
    } else if updated is Some && spec_parse_datetime(updated->Some_0->String_0@) is Err {
        Some(spec_parse_datetime(updated->Some_0->String_0@)->Err_0)
    } else {
        None
    }
}

/// An entry with neither a date nor a last-update date takes the file's modification time.
pub open spec fn needs_file_time(es: Seq<(YamlValue, YamlValue)>) -> bool {
    entry_value(es, 2) is None && entry_value(es, 3) is None
}

/// The first error among the index and cc fields.
pub open spec fn late_error(es: Seq<(YamlValue, YamlValue)>, name: Seq<char>) -> Option<Seq<char>> {
    if index_error(name, entry_value(es, 4)) is Some {
        index_error(name, entry_value(es, 4))
    } else {
        cc_error(entry_value(es, 5))
    }
}

/// `e` holds the title, description, dates, index and cc of the front matter.
pub open spec fn entry_fields_match<M>(
    es: Seq<(YamlValue, YamlValue)>,
    name: Seq<char>,
    file_time: Option<DateTime>,
    e: Entry<M>,
) -> bool {
    let date = entry_value(es, 2);
    let updated = entry_value(es, 3);
    &&& entry_value(es, 0) == Some(YamlValue::String(e.title))
    &&& match entry_value(es, 1) {
        Some(YamlValue::String(d)) => e.description == Some(d),
        _ => e.description is None,
    }
    &&& match date {
        Some(YamlValue::String(d)) => e.date is Some && spec_parse_datetime(d@) == Ok::<
            DateTime,
            Seq<char>,
        >(e.date->Some_0),
        _ => e.date is None,
    }
    &&& match updated {
        Some(YamlValue::String(d)) => spec_parse_datetime(d@) == Ok::<DateTime, Seq<char>>(
            e.updated,
        ),
        _ => match e.date {
            Some(d) => e.updated == d,
            None => file_time == Some(e.updated),
        },
    }
    &&& index_matches(name, entry_value(es, 4), e.index)
    &&& cc_matches(entry_value(es, 5), e.cc@)
    &&& e.name@ == name
}

/// Reads a count setting.
fn take_count(h: &mut YamlHash, key: &str, msg: &str) -> (r: Result<Option<u32>, SourceError>)
    ensures
        final(h).entries@ == hash_without(old(h).entries@, key@),
        match r {
            Ok(c) => count_error(hash_get(old(h).entries@, key@), msg@) is None && count_matches(
                hash_get(old(h).entries@, key@),
                c,
            ),
            Err(SourceError::Config(m)) => count_error(hash_get(old(h).entries@, key@), msg@)
                == Some(m@),
            Err(_) => false,
        },
{
    match h.remove(key) {
        Some(YamlValue::Integer(i)) => {
            if 1 <= i && i <= 0xffff_ffff {
                Ok(Some(i as u32))
            } else {
                Err(SourceError::config(msg))
            }
        },
        Some(YamlValue::Boolean(false)) => Ok(None),
        None => Ok(None),
        Some(_) => Err(SourceError::config(msg)),
    }
}

/// Resolves a list of directory values.
fn resolve_dirs(base: &str, items: Vec<YamlValue>) -> (r: Result<Vec<String>, SourceError>)
    ensures
        match r {
            Ok(v) => dirs_error(base@, items@) is None && dirs_match(base@, items@, v@),
            Err(SourceError::Config(m)) => dirs_error(base@, items@) == Some(m@),
            Err(_) => false,
        },
{
    let ghost all = items@;
    let n: usize = items.len();
    let mut rest = items;
    let mut out: Vec<String> = Vec::new();
    let mut i: usize = 0;
    proof {
        assert(all.skip(0) =~= all);
    }
    while rest.len() > 0
        invariant
            i + rest@.len() == all.len(),
            all.len() == n,
            all == items@,
            rest@ == all.skip(i as int),
            out@.len() == i,
            forall|j: int|
                0 <= j < i ==> (#[trigger] all[j] is String && spec_resolve_path(
                    base@,
                    all[j]->String_0@,
                ) == Ok::<Seq<char>, Seq<char>>(out@[j]@)),
            dirs_error(base@, all) == dirs_error(base@, all.skip(i as int)),
        decreases rest@.len(),
    {
        let item = rest.remove(0);
        proof {
            assert(all.skip(i as int)[0] == all[i as int]);
            assert(all.skip(i as int).drop_first() =~= all.skip(i + 1));
        }
        match item {
            YamlValue::String(d) => {
                match resolve_path(base, d.as_str()) {
                    Ok(p) => out.push(p),
                    Err(m) => return Err(SourceError::Config(m)),
                }
            },
            _ => return Err(SourceError::config("index directories must be strings")),
        }
        i = i + 1;
    }
    proof {
        assert(all.skip(i as int) =~= Seq::<YamlValue>::empty());
    }
    Ok(out)
}

/// A single directory: the entry's own one.
fn own_directory(base: &str) -> (r: Vec<String>)
    ensures
        r@.len() == 1,
        r@[0]@ == base@,
{
    let mut v = Vec::new();
    v.push(base.to_owned());
    v
}

/// An index with default settings over the given directories.
fn plain_index(directories: Vec<String>) -> (r: Index)
    ensures
        is_plain_index(r),
        r.directories == directories,
{
    Index {
        paginate: None,
        max: None,
        compact: false,
        sort: Sort::default(),
        directories,
        syndicate: None,
    }
}

/// Reads an index mapping.
fn index_from_hash(base: &str, index: YamlHash) -> (r: Result<Index, SourceError>)
    ensures
        match r {
            Ok(ix) => index_hash_error(base@, index.entries@) is None && index_hash_matches(
                base@,
                index.entries@,
                ix,
            ),
            Err(SourceError::Config(m)) => index_hash_error(base@, index.entries@) == Some(m@),
            Err(_) => false,
        },
{
    let ghost es = index.entries@;
    let mut index = index;
    proof {
        reveal_with_fuel(index_fields_after, 7);
    }
    let paginate = take_count(&mut index, "paginate", "invalid pagination setting")?;
    assert(index.entries@ == index_fields_after(es, 1));
    let max = take_count(&mut index, "max", "invalid max setting")?;
    assert(index.entries@ == index_fields_after(es, 2));
    let syndicate = match index.remove("syndicate") {
        Some(YamlValue::Integer(i)) => {
            if 1 <= i && i <= 0xffff_ffff {
                Some(Syndicate { max: Some(i as u32) })
            } else {
                return Err(SourceError::config("invalid pagination setting"));
            }
        },
        Some(YamlValue::Boolean(true)) => Some(Syndicate { max: None }),
        Some(YamlValue::Boolean(false)) => None,
        None => None,
        Some(_) => return Err(SourceError::config("invalid pagination setting")),
    };
    assert(index.entries@ == index_fields_after(es, 3));
    let compact = match index.remove("compact") {
        Some(YamlValue::Boolean(b)) => b,
        None => false,
        Some(_) => return Err(SourceError::config("invalid compact setting")),
    };
    assert(index.entries@ == index_fields_after(es, 4));
    let sort = match index.remove("sort") {
        Some(YamlValue::String(key)) => match Sort::parse(key.as_str()) {
            Ok(s) => s,
            Err(e) => return Err(SourceError::Config(e.message())),
        },
        Some(_) => return Err(SourceError::config("invalid sort value")),
        None => Sort::default(),
    };
    assert(index.entries@ == index_fields_after(es, 5));
    let directories = match index.remove("directories") {
        Some(YamlValue::Array(array)) => resolve_dirs(base, array)?,
        Some(YamlValue::String(dir)) => match resolve_path(base, dir.as_str()) {
            Ok(p) => {
                let mut v = Vec::new();
                v.push(p);
                v
            },
            Err(m) => return Err(SourceError::Config(m)),
        },
        Some(_) => return Err(SourceError::config("invalid directory list in index")),
        None => own_directory(base),
    };
    Ok(Index { paginate, max, syndicate, compact, sort, directories })
}

/// Reads the `index` field.
fn index_from_value(base: &str, v: Option<YamlValue>) -> (r: Result<Option<Index>, SourceError>)
    ensures
        match r {
            Ok(ix) => index_error(base@, v) is None && index_matches(base@, v, ix),
            Err(SourceError::Config(m)) => index_error(base@, v) == Some(m@),
            Err(_) => false,
        },
{
    match v {
        Some(YamlValue::Boolean(b)) => {
            if b {
                Ok(Some(plain_index(own_directory(base))))
            } else {
                Ok(None)
            }
        },
        Some(YamlValue::String(dir)) => match resolve_path(base, dir.as_str()) {
            Ok(p) => {
                let mut dirs = Vec::new();
                dirs.push(p);
                Ok(Some(plain_index(dirs)))
            },
            Err(m) => Err(SourceError::Config(m)),
        },
        Some(YamlValue::Array(array)) => {
            let dirs = resolve_dirs(base, array)?;
            Ok(Some(plain_index(dirs)))
        },
        Some(YamlValue::Hash(index)) => {
            let ix = index_from_hash(base, index)?;
            Ok(Some(ix))
        },
        Some(_) => Err(SourceError::config("invalid index value")),
        None => Ok(None),
    }
}

/// Reads an optional date field.
fn take_date(h: &mut YamlHash, key: &str) -> (r: Result<Option<DateTime>, SourceError>)
    ensures
        final(h).entries@ == hash_without(old(h).entries@, key@),
        match r {
            Ok(d) => match hash_get(old(h).entries@, key@) {
                Some(YamlValue::String(s)) => d is Some && spec_parse_datetime(s@) == Ok::<
                    DateTime,
                    Seq<char>,
                >(d->Some_0),
                Some(_) => false,
                None => d is None,
            },
            Err(SourceError::Config(m)) => match hash_get(old(h).entries@, key@) {
                Some(YamlValue::String(s)) => spec_parse_datetime(s@) == Err::<DateTime, Seq<char>>(
                    m@,
                ),
                Some(_) => m@ == "date must be a string"@,
                None => false,
            },
            Err(_) => false,
        },
{
    match h.remove(key) {
        Some(YamlValue::String(date)) => match parse_datetime(date.as_str()) {
            Ok(d) => Ok(Some(d)),
            Err(m) => Err(SourceError::Config(m)),
        },
        Some(_) => Err(SourceError::config("date must be a string")),
        None => Ok(None),
    }
}

impl<M: Meta> Entry<M> {
    /// Builds an entry from the front matter of its index file, its body, its name (the
    /// directory relative to the site root), its format (the file extension) and the file's
    /// modification time (consulted only when the front matter gives no date).
    ///
    /// Errors come in the order in which the fields are read: title, description, date,
    /// updated, then the file time, then index and cc, then the remaining metadata.
    pub fn from_front_matter(
        meta: YamlHash,
        content: String,
        name: &str,
        format: String,
        file_time: Result<DateTime, std::io::Error>,
    ) -> (r: Result<Entry<M>, SourceError>)
        ensures
            ({
                let es = meta.entries@;
                let time_fails = needs_file_time(es) && file_time is Err;
                let ft = match file_time {
                    Ok(t) => Some(t),
                    Err(_) => None,
                };
                match r {
                    Ok(e) => {
                        &&& early_error(es) is None
                        &&& !time_fails
                        &&& late_error(es, name@) is None
                        &&& entry_fields_match(es, name@, ft, e)
                        &&& M::reads_yaml(entry_fields_after(es, 6), Ok(e.meta))
                        &&& e.content == content
                        &&& e.format == format
                    },
                    Err(SourceError::Read(_)) => early_error(es) is None && time_fails,
                    Err(SourceError::Config(m)) => {
                        ||| early_error(es) == Some(m@)
                        ||| early_error(es) is None && !time_fails && late_error(es, name@) == Some(m@)
                        ||| early_error(es) is None && !time_fails && late_error(es, name@) is None
                            && M::reads_yaml(entry_fields_after(es, 6), Err(m@))
                    },
                    Err(SourceError::Parse(_)) => false,
                }
            }),
    {
        let ghost es = meta.entries@;
        let mut meta = meta;
        proof {
            reveal_with_fuel(entry_fields_after, 8);
        }
        let title = match meta.remove("title") {
            Some(YamlValue::String(title)) => title,
            Some(_) => return Err(SourceError::config("titles must be strings")),
            None => return Err(SourceError::config("entries must have titles")),
        };
        assert(meta.entries@ == entry_fields_after(es, 1));
        let description = match meta.remove("description") {
            Some(YamlValue::String(desc)) => Some(desc),
            None => None,
            Some(_) => return Err(SourceError::config("invalid description type")),
        };
        assert(meta.entries@ == entry_fields_after(es, 2));
        let date = take_date(&mut meta, "date")?;
        assert(meta.entries@ == entry_fields_after(es, 3));
        let updated = match take_date(&mut meta, "updated")? {
            Some(d) => d,
            None => match date {
                Some(d) => d,
                None => match file_time {
                    Ok(t) => t,
                    Err(e) => return Err(SourceError::Read(e)),
                },
            },
        };
        assert(meta.entries@ == entry_fields_after(es, 4));
        let index = index_from_value(name, meta.remove("index"))?;
        assert(meta.entries@ == entry_fields_after(es, 5));
        let cc = match meta.remove("cc") {
            Some(YamlValue::String(cc)) => {
                let mut v = Vec::new();
                v.push(cc);
                v
            },
            Some(YamlValue::Array(cc)) => match strings_of(cc, "invlaid cc value") {
                Ok(v) => v,
                Err(e) => return Err(SourceError::config(e)),
            },
            Some(_) => return Err(SourceError::config("invalid cc value")),
            None => Vec::new(),
        };
        assert(meta.entries@ == entry_fields_after(es, 6));
        let extra = match M::from_yaml(meta) {
            Ok(m) => m,
            Err(e) => return Err(SourceError::config(e)),
        };
        Ok(Entry {
            title,
            description,
            date,
            updated,
            index,
            cc,
            meta: extra,
            name: name.to_owned(),
            content,
            format,
        })
    }
}

} // verus!
