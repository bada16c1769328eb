//! The source of a site: its configuration, its entries and assets, and the indices built over
//! the entries.

use vstd::prelude::*;
use crate::entry::{Entry, StaticEntry};
use crate::glob_match::{glob_escape, glob_matches, glob_match_result, spec_glob_escape};
use crate::index::Index;
use crate::order::{is_sorted_by, is_stable_arrangement, is_stable_selection, sort_entries, sort_order, targets};
use crate::text::{chars_of, push_str, same_text, string_of_range};
use crate::error::SourceError;
use crate::meta::Meta;
use crate::url::{split_base_url, spec_base_parts, url_parsed};
use crate::yaml::{hash_get, hash_without, load, spec_load, YamlHash, YamlValue};

verus! {

broadcast use vstd::seq_lib::group_to_multiset_ensures;

/// The parsed source of a website.
#[derive(Debug)]
pub struct Source<SourceMeta, EntryMeta> {
    /// The website's title.
    pub title: String,
    /// The source root directory.
    pub root: String,
    /// The website origin (`http://mydomain.com:1234`).
    pub origin: String,
    /// The directory under the origin at which the site is hosted (e.g. `/`).
    pub prefix: String,
    /// The entries to be rendered.
    pub entries: Vec<Entry<EntryMeta>>,
    /// Content deployed as-is.
    pub static_entries: Vec<StaticEntry>,
    /// Stylesheets, concatenated on render.
    pub stylesheets: Vec<String>,
    /// Javascript files, concatenated on render.
    pub javascript: Vec<String>,
    /// The website icon.
    pub icon: Option<String>,
    /// The `.well-known` directory.
    pub well_known: Option<String>,
    /// Additional metadata from `gazetta.yaml`.
    pub meta: SourceMeta,
}

/// The glob pattern of the entries directly inside a directory: the escaped directory, `/*`.
pub open spec fn dir_pattern(d: Seq<char>) -> Seq<char> {
    spec_glob_escape(d) + seq!['/', '*']
}

/// An entry name lies directly in a directory: the directory's pattern matches it, with `/`
/// matched only literally and case-sensitively.
pub open spec fn in_directory(d: Seq<char>, name: Seq<char>) -> bool {
    glob_match_result(dir_pattern(d), name, true, true, false) == Some(true)
}

/// A child belongs to the index of the entry named `name` if it names that entry in its `cc`
/// list or lies directly in one of the index's directories.
pub open spec fn is_indexed_by<M>(name: Seq<char>, index: Index, child: Entry<M>) -> bool {
    ||| exists|k: int| 0 <= k < child.cc@.len() && (#[trigger] child.cc@[k])@ == name
    ||| exists|k: int|
        0 <= k < index.directories@.len() && in_directory(
            (#[trigger] index.directories@[k])@,
            child.name@,
        )
}

/// The members of an index, in source order.
pub open spec fn index_members<M>(entries: Seq<Entry<M>>, name: Seq<char>, index: Index) -> Seq<
    Entry<M>,
> {
    entries.filter(|c: Entry<M>| is_indexed_by(name, index, c))
}

/// How many entries an index lists: at most `max`, when a maximum is set.
pub open spec fn listing_len(max: Option<u32>, n: nat) -> nat {
    match max {
        Some(m) => if (m as nat) < n { m as nat } else { n },
        None => n,
    }
}

/// `listing` is the index's members sorted, stably, by its sort specification and cut to its
/// maximum: neighbours that compare equal keep their source order.
pub open spec fn is_index_listing<M>(
    entries: Seq<Entry<M>>,
    name: Seq<char>,
    index: Index,
    listing: Seq<Entry<M>>,
) -> bool {
    exists|sorted: Seq<Entry<M>>, p: Seq<int>|
        #![trigger is_stable_arrangement(index_members(entries, name, index), sorted, index.sort, p)]
        {
            &&& sorted.to_multiset() == index_members(entries, name, index).to_multiset()
            &&& is_sorted_by(sorted, index.sort)
            &&& is_stable_arrangement(index_members(entries, name, index), sorted, index.sort, p)
            &&& listing == sorted.take(listing_len(index.max, sorted.len()) as int)
        }
}

/// An index lists only entries that belong to it, in its sort order, at most as many as its
/// maximum and at most as many as belong to it; each listed entry comes from its own place
/// among the members, and neighbours that compare equal come in the members' order.
pub proof fn index_listing_is_sorted_members<M>(
    entries: Seq<Entry<M>>,
    name: Seq<char>,
    index: Index,
    listing: Seq<Entry<M>>,
)
    requires
        is_index_listing(entries, name, index, listing),
    ensures
        is_sorted_by(listing, index.sort),
        index.max matches Some(m) ==> listing.len() <= m,
        listing.len() <= index_members(entries, name, index).len(),
        forall|k: int| 0 <= k < listing.len() ==> is_indexed_by(name, index, #[trigger] listing[k]),
        exists|p: Seq<int>| is_stable_selection(index_members(entries, name, index), listing, index.sort, p),
{
    let members = index_members(entries, name, index);
    let (sorted, p) = choose|sorted: Seq<Entry<M>>, p: Seq<int>|
        #![trigger is_stable_arrangement(members, sorted, index.sort, p)]
        {
            &&& sorted.to_multiset() == members.to_multiset()
            &&& is_sorted_by(sorted, index.sort)
            &&& is_stable_arrangement(members, sorted, index.sort, p)
            &&& listing == sorted.take(listing_len(index.max, sorted.len()) as int)
        };
    sorted.to_multiset_ensures();
    members.to_multiset_ensures();
    assert(sorted.len() == members.len());
    assert forall|j: int| 0 <= j < listing.len() - 1 implies sort_order(
        index.sort,
        #[trigger] listing[j],
        listing[j + 1],
    ) <= 0 by {
        assert(listing[j] == sorted[j] && listing[j + 1] == sorted[j + 1]);
    }
    assert forall|k: int| 0 <= k < listing.len() implies is_indexed_by(
        name,
        index,
        #[trigger] listing[k],
    ) by {
        let x = listing[k];
        assert(x == sorted[k]);
        assert(sorted.to_multiset().count(x) > 0);
        assert(members.contains(x));
        let j = choose|j: int| 0 <= j < members.len() && members[j] == x;
        entries.lemma_filter_pred(|c: Entry<M>| is_indexed_by(name, index, c), j);
    }
    let q = p.take(listing.len() as int);
    assert forall|j: int| 0 <= j < listing.len() implies 0 <= #[trigger] q[j] < members.len()
        && listing[j] == members[q[j]] by {
        assert(q[j] == p[j] && listing[j] == sorted[j]);
    }
    assert forall|j: int, l: int| 0 <= j < l < listing.len() implies #[trigger] q[j]
        != #[trigger] q[l] by {
        assert(q[j] == p[j] && q[l] == p[l]);
    }
    assert forall|j: int|
        0 <= j < listing.len() - 1 && #[trigger] sort_order(index.sort, listing[j], listing[j + 1])
            == 0 implies q[j] < q[j + 1] by {
        assert(listing[j] == sorted[j] && listing[j + 1] == sorted[j + 1]);
        assert(sort_order(index.sort, sorted[j], sorted[j + 1]) == 0);
    }
    assert(is_stable_selection(members, listing, index.sort, q));
}

/// Returns true if `name` is one of `names`.
fn names_contain(names: &Vec<String>, name: &String) -> (r: bool)
    ensures
        r == exists|k: int| 0 <= k < names@.len() && (#[trigger] names@[k])@ == name@,
{
    let mut i: usize = 0;
    while i < names.len()
        invariant
            i <= names@.len(),
            forall|k: int| 0 <= k < i ==> (#[trigger] names@[k])@ != name@,
        decreases names@.len() - i,
    {
        if names[i] == *name {
            return true;
        }
        i = i + 1;
    }
    false
}

/// Returns true if `name` lies directly in one of the directories.
fn in_any_directory(dirs: &Vec<String>, name: &String) -> (r: bool)
    ensures
        r == exists|k: int|
            0 <= k < dirs@.len() && in_directory((#[trigger] dirs@[k])@, name@),
{
    let mut i: usize = 0;
    while i < dirs.len()
        invariant
            i <= dirs@.len(),
            forall|k: int| 0 <= k < i ==> !in_directory((#[trigger] dirs@[k])@, name@),
        decreases dirs@.len() - i,
    {
        let mut pattern = glob_escape(dirs[i].as_str());
        push_str(&mut pattern, "/*");
        proof {
            reveal_strlit("/*");
            assert(pattern@ =~= dir_pattern(dirs@[i as int]@));
        }
        if let Some(true) = glob_matches(pattern.as_str(), name.as_str(), true, true, false) {
            return true;
        }
        i = i + 1;
    }
    false
}

impl<SourceMeta, EntryMeta> Source<SourceMeta, EntryMeta> {
    /// Builds the index of an entry: every entry that names it in its `cc` list or lies directly
    /// in one of its index directories, sorted by the index's sort specification and cut to its
    /// maximum. An entry without index settings has an empty index.
    pub fn build_index(&self, entry: &Entry<EntryMeta>) -> (r: Vec<&Entry<EntryMeta>>)
        ensures
            match entry.index {
                None => r@.len() == 0,
                Some(index) => is_index_listing(self.entries@, entry.name@, index, targets(r@)),
            },
    {
        match &entry.index {
            None => Vec::new(),
            Some(index) => {
                let ghost pred = |c: Entry<EntryMeta>| is_indexed_by(entry.name@, *index, c);
                let mut selected: Vec<&Entry<EntryMeta>> = Vec::new();
                let mut i: usize = 0;
                while i < self.entries.len()
                    invariant
                        i <= self.entries@.len(),
                        pred == (|c: Entry<EntryMeta>| is_indexed_by(entry.name@, *index, c)),
                        targets(selected@) == self.entries@.take(i as int).filter(pred),
                    decreases self.entries@.len() - i,
                {
                    let child = &self.entries[i];
                    let keep = names_contain(&child.cc, &entry.name) || in_any_directory(
                        &index.directories,
                        &child.name,
                    );
                    let ghost old_sel = selected@;
                    if keep {
                        selected.push(child);
                    }
                    proof {
                        reveal_with_fuel(Seq::<_>::filter, 1);
                        assert(self.entries@.take(i + 1).drop_last() =~= self.entries@.take(
                            i as int,
                        ));
                        assert(keep == pred(self.entries@[i as int]));
                        if keep {
                            assert(targets(selected@) =~= targets(old_sel).push(*child));
                        } else {
                            assert(targets(selected@) =~= targets(old_sel));
                        }
                    }
                    i = i + 1;
                }
                proof {
                    assert(self.entries@.take(self.entries@.len() as int) =~= self.entries@);
                }
                let ghost selected_view = selected@;
                let mut sorted = sort_entries(selected, index.sort);
                let ghost full = targets(sorted@);
                if let Some(max) = index.max {
                    if (max as usize) < sorted.len() {
                        sorted.truncate(max as usize);
                    }
                }
                proof {
                    assert(targets(sorted@) =~= full.take(listing_len(index.max, full.len()) as int));
                    assert(is_sorted_by(full, index.sort));
                    let members = index_members(self.entries@, entry.name@, *index);
                    assert(targets(selected_view) == members);
                    let p = choose|p: Seq<int>| is_stable_arrangement(members, full, index.sort, p);
                    assert(is_stable_arrangement(members, full, index.sort, p));
                }
                sorted
            },
        }
    }
}

/// The error `r` is a configuration error with message `m`.
pub open spec fn is_config_error<T>(r: Result<T, SourceError>, m: Seq<char>) -> bool {
    r matches Err(SourceError::Config(e)) && e@ == m
}

/// `s` is a freshly configured source: the given root, title, origin, prefix and metadata, and
/// nothing loaded yet.
pub open spec fn is_fresh_source<SM, EM>(
    s: Source<SM, EM>,
    root: Seq<char>,
    title: Seq<char>,
    origin: Seq<char>,
    prefix: Seq<char>,
) -> bool {
    &&& s.root@ == root
    &&& s.title@ == title
    &&& s.origin@ == origin
    &&& s.prefix@ == prefix
    &&& s.entries@.len() == 0
    &&& s.static_entries@.len() == 0
    &&& s.stylesheets@.len() == 0
    &&& s.javascript@.len() == 0
    &&& s.icon is None
    &&& s.well_known is None
}

/// What reading the configuration mapping `config` yields: the base url (a string, which must
/// be a valid base url) gives the origin and prefix; then the title (a string); the remaining
/// pairs are the site's metadata. Each missing or malformed key gives its configuration error,
/// in that order.
pub open spec fn config_outcome<SM: Meta, EM>(
    root: Seq<char>,
    config: Seq<(YamlValue, YamlValue)>,
    r: Result<Source<SM, EM>, SourceError>,
) -> bool {
    match hash_get(config, "base"@) {
        None => is_config_error(r, "you must specify a base url"@),
        Some(YamlValue::String(base)) => match spec_base_parts(url_parsed(base@)) {
            Err(m) => is_config_error(r, m),
            Ok((origin, prefix)) => {
                let rest = hash_without(config, "base"@);
                match hash_get(rest, "title"@) {
                    None => is_config_error(r, "must specify title"@),
                    Some(YamlValue::String(title)) => {
                        let meta_yaml = hash_without(rest, "title"@);
                        match r {
                            Ok(s) => is_fresh_source(s, root, title@, origin, prefix)
                                && SM::reads_yaml(meta_yaml, Ok(s.meta)),
                            Err(SourceError::Config(e)) => SM::reads_yaml(meta_yaml, Err(e@)),
                            Err(_) => false,
                        }
                    },
                    Some(_) => is_config_error(r, "title must be a string"@),
                }
            },
        },
        Some(_) => is_config_error(r, "the base url must be a string"@),
    }
}

impl<SourceMeta: Meta, EntryMeta> Source<SourceMeta, EntryMeta> {
    /// Creates a source from its parsed configuration mapping (see `config_outcome`).
    pub fn from_config_mapping(root: String, config: YamlHash) -> (r: Result<Self, SourceError>)
        ensures
            config_outcome(root@, config.entries@, r),
    {
        let mut config = config;
        let (origin, prefix) = match config.remove("base") {
            Some(YamlValue::String(base)) => match split_base_url(base.as_str()) {
                Ok(parts) => parts,
                Err(m) => return Err(SourceError::Config(m)),
            },
            Some(_) => return Err(SourceError::config("the base url must be a string")),
            None => return Err(SourceError::config("you must specify a base url")),
        };
        let title = match config.remove("title") {
            Some(YamlValue::String(title)) => title,
            Some(_) => return Err(SourceError::config("title must be a string")),
            None => return Err(SourceError::config("must specify title")),
        };
        let meta = match SourceMeta::from_yaml(config) {
            Ok(m) => m,
            Err(e) => return Err(SourceError::config(e)),
        };
        Ok(Source {
            title,
            root,
            origin,
            prefix,
            entries: Vec::new(),
            static_entries: Vec::new(),
            stylesheets: Vec::new(),
            javascript: Vec::new(),
            icon: None,
            well_known: None,
            meta,
        })
    }

    /// Creates a source from the text of its configuration file (`gazetta.yaml`): the text must
    /// hold a YAML mapping, read as `config_outcome` says.
    pub fn from_config(root: String, config: &str) -> (r: Result<Self, SourceError>)
        ensures
            match spec_load(config@) {
                None => r matches Err(SourceError::Parse(_)),
                Some(Err(m)) => is_config_error(r, m),
                Some(Ok(h)) => config_outcome(root@, h.entries@, r),
            },
    {
        match load(config) {
            Ok(h) => Self::from_config_mapping(root, h),
            Err(e) => Err(e),
        }
    }
}

/// The position of the last `.` in a name; -1 if there is none.
pub open spec fn last_dot(name: Seq<char>) -> int
    decreases name.len(),
{
    if name.len() == 0 {
        -1
    } else if name.last() == '.' {
        name.len() - 1
    } else {
        last_dot(name.drop_last())
    }
}

proof fn lemma_last_dot(name: Seq<char>)
    ensures
        -1 <= last_dot(name) < name.len(),
        last_dot(name) >= 0 ==> name[last_dot(name)] == '.',
        forall|j: int| last_dot(name) < j < name.len() ==> name[j] != '.',
    decreases name.len(),
{
    if name.len() > 0 && name.last() != '.' {
        let init = name.drop_last();
        lemma_last_dot(init);
        assert forall|j: int| last_dot(name) < j < name.len() implies name[j] != '.' by {
            if j < name.len() - 1 {
                assert(init[j] == name[j]);
            }
        }
    }
}

/// The stem of a file name, as `Path::file_stem` gives it: the name up to its last `.`, or the
/// whole name when it has no `.` but a leading one (and for `..`).
pub open spec fn file_stem(name: Seq<char>) -> Seq<char> {
    if name == seq!['.', '.'] || last_dot(name) <= 0 {
        name
    } else {
        name.take(last_dot(name))
    }
}

/// The extension of a file name, as `Path::extension` gives it, empty where it gives none: the
/// text after the last `.`, unless that `.` is the first character (and for `..`).
pub open spec fn file_extension(name: Seq<char>) -> Seq<char> {
    if name == seq!['.', '.'] || last_dot(name) <= 0 {
        Seq::empty()
    } else {
        name.skip(last_dot(name) + 1)
    }
}

/// Splits a file name into its stem and its extension (see `file_stem`, `file_extension`).
pub fn split_file_name(name: &str) -> (r: (String, String))
    ensures
        r.0@ == file_stem(name@),
        r.1@ == file_extension(name@),
{
    let cs = chars_of(name);
    let n: usize = cs.len();
    let mut i: usize = n;
    while i > 0 && cs[i - 1] != '.'
        invariant
            i <= n == cs@.len(),
            cs@ == name@,
            forall|j: int| i <= j < n ==> cs@[j] != '.',
        decreases i,
    {
        i = i - 1;
    }
    proof {
        lemma_last_dot(name@);
        assert(last_dot(name@) == i - 1) by {
            if last_dot(name@) != i - 1 {
                if last_dot(name@) > i - 1 {
                    assert(cs@[last_dot(name@)] == '.');
                } else {
                    assert(cs@[i - 1] == '.');
                }
            }
        }
        assert(cs@.subrange(0, n as int) =~= name@);
    }
    let dotdot = n == 2 && cs[0] == '.' && cs[1] == '.';
    proof {
        if n == 2 {
            assert(dotdot == (name@ =~= seq!['.', '.']));
        } else {
            assert(name@.len() != 2);
        }
    }
    if dotdot || i <= 1 {
        (string_of_range(&cs, 0, n), String::new())
    } else {
        proof {
            assert(cs@.subrange(0, i - 1) =~= name@.take(i - 1));
            assert(cs@.subrange(i as int, n as int) =~= name@.skip(i as int));
        }
        (string_of_range(&cs, 0, i - 1), string_of_range(&cs, i, n))
    }
}

/// The kind of a directory entry.
#[derive(Debug, Clone, Copy, PartialEq, Eq, Structural)]
pub enum FileKind {
    File,
    Dir,
    Other,
}

/// What loading a site does with one entry of a source directory.
#[derive(Debug)]
pub enum DirEntryAction {
    /// Not part of the site.
    Skip,
    /// An index file: an entry named after its directory, in the given format.
    Entry { format: String },
    /// A `static` directory, deployed as-is under the given name.
    Static { name: String },
    /// A directory whose contents belong to the site, under the given name.
    Descend { name: String },
    /// A directory named `index`: such paths are reserved for indices.
    Reserved,
}

/// The site name of `file_name` inside the directory `dir` (the root when empty).
pub open spec fn child_name(dir: Seq<char>, file_name: Seq<char>) -> Seq<char> {
    if dir.len() == 0 {
        file_name
    } else {
        dir + seq!['/'] + file_name
    }
}

/// How loading treats the entry `file_name` of the source directory `dir`: hidden names and the
/// top-level `assets` directory are skipped; a file whose stem is `index` is an entry; a
/// directory is a `static` deployment, the reserved `index`, or a directory to descend into;
/// anything else is skipped.
pub open spec fn dir_entry_action_matches(
    dir: Seq<char>,
    file_name: Seq<char>,
    kind: FileKind,
    a: DirEntryAction,
) -> bool {
    if skipped_name(dir, file_name) {
        a is Skip
    } else if kind == FileKind::File {
        if file_stem(file_name) == "index"@ {
            a matches DirEntryAction::Entry { format } && format@ == file_extension(file_name)
        } else {
            a is Skip
        }
    } else if kind == FileKind::Dir {
        if file_name == "static"@ {
            a matches DirEntryAction::Static { name } && name@ == child_name(dir, file_name)
        } else if file_name == "index"@ {
            a is Reserved
        } else {
            a matches DirEntryAction::Descend { name } && name@ == child_name(dir, file_name)
        }
    } else {
        a is Skip
    }
}

/// Names that loading skips before looking at what they are: hidden names, and the top-level
/// `assets` directory.
pub open spec fn skipped_name(dir: Seq<char>, file_name: Seq<char>) -> bool {
    (file_name.len() > 0 && file_name[0] == '.') || (dir.len() == 0 && file_name == "assets"@)
}

/// Returns true if loading skips the entry `file_name` of the source directory `dir` whatever
/// it is (see `skipped_name`).
pub fn is_skipped_name(dir: &str, file_name: &str) -> (r: bool)
    ensures
        r == skipped_name(dir@, file_name@),
{
    let hidden = file_name.unicode_len() > 0 && file_name.get_char(0) == '.';
    hidden || (dir.unicode_len() == 0 && same_text(file_name, "assets"))
}

/// Decides what loading does with the entry `file_name` of the source directory `dir` (see
/// `dir_entry_action_matches`).
pub fn dir_entry_action(dir: &str, file_name: &str, kind: FileKind) -> (r: DirEntryAction)
    ensures
        dir_entry_action_matches(dir@, file_name@, kind, r),
{
    proof {
        reveal_strlit("assets");
        reveal_strlit("index");
        reveal_strlit("static");
    }
    let dir_empty = dir.unicode_len() == 0;
    if is_skipped_name(dir, file_name) {
        return DirEntryAction::Skip;
    }
    match kind {
        FileKind::File => {
            let (stem, format) = split_file_name(file_name);
            if same_text(stem.as_str(), "index") {
                DirEntryAction::Entry { format }
            } else {
                DirEntryAction::Skip
            }
        },
        FileKind::Dir => {
            if same_text(file_name, "index") {
                return DirEntryAction::Reserved;
            }
            let name = if dir_empty {
                let n = file_name.to_owned();
                assert(n@ =~= child_name(dir@, file_name@));
                n
            } else {
                let mut n = dir.to_owned();
                push_str(&mut n, "/");
                push_str(&mut n, file_name);
                proof {
                    reveal_strlit("/");
                    assert(n@ =~= child_name(dir@, file_name@));
                }
                n
            };
            if same_text(file_name, "static") {
                DirEntryAction::Static { name }
            } else {
                DirEntryAction::Descend { name }
            }
        },
        FileKind::Other => DirEntryAction::Skip,
    }
}

} // verus!
