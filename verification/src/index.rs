//! Index configuration: which field an index is sorted by, in which direction, and how
//! sort specifications such as `-date` are read.

use vstd::prelude::*;
use crate::text::{same_text, first_char, after_first_char, string_of, push_str};

verus! {

/// The field by which the entries of an index are sorted.
#[derive(Debug, Clone, Copy, PartialEq, Eq, Structural)]
pub enum SortField {
    Date,
    Title,
}

/// The direction in which the entries of an index are sorted.
#[derive(Clone, Debug, Copy, PartialEq, Eq, Structural)]
pub enum SortDirection {
    Ascending,
    Descending,
}

/// A sort specification: a field and a direction.
#[derive(Clone, Debug, Copy, PartialEq, Eq, Structural)]
pub struct Sort {
    pub field: SortField,
    pub direction: SortDirection,
}

/// A sort field name that is not `date`, `title` or `default`.
#[derive(Debug, Clone)]
pub struct SortError(pub String);

/// Dates sort newest first, titles alphabetically.
pub open spec fn spec_default_direction(f: SortField) -> SortDirection {
    match f {
        SortField::Date => SortDirection::Descending,
        SortField::Title => SortDirection::Ascending,
    }
}

/// `date`, `title` and `default` (which means `title`) name sort fields.
pub open spec fn spec_parse_sort_field(s: Seq<char>) -> Option<SortField> {
    if s == "date"@ {
        Some(SortField::Date)
    } else if s == "title"@ {
        Some(SortField::Title)
    } else if s == "default"@ {
        Some(SortField::Title)
    } else {
        None
    }
}

/// A sort specification is an optional `+` (ascending) or `-` (descending) followed by a field
/// name; without a sign the field's default direction applies.
pub open spec fn spec_parse_sort(s: Seq<char>) -> Option<Sort> {
    let explicit = if s.len() > 0 && s[0] == '+' {
        Some(SortDirection::Ascending)
    } else if s.len() > 0 && s[0] == '-' {
        Some(SortDirection::Descending)
    } else {
        None
    };
    let key = if explicit is Some { s.subrange(1, s.len() as int) } else { s };
    match spec_parse_sort_field(key) {
        Some(field) => Some(
            Sort {
                field,
                direction: match explicit {
                    Some(d) => d,
                    None => spec_default_direction(field),
                },
            },
        ),
        None => None,
    }
}

/// A sort specification's sign decides its direction: `+` ascending, `-` descending, and without
/// a sign the field's default direction (dates newest first, titles alphabetically).
pub proof fn sort_sign_gives_direction(s: Seq<char>)
    ensures
        spec_parse_sort(s) matches Some(sort) ==> {
            &&& s.len() > 0 && s[0] == '+' ==> sort.direction == SortDirection::Ascending
            &&& s.len() > 0 && s[0] == '-' ==> sort.direction == SortDirection::Descending
            &&& !(s.len() > 0 && (s[0] == '+' || s[0] == '-')) ==> sort.direction
                == spec_default_direction(sort.field)
        },
{
}

/// The field name that a sort specification names (after its sign, if any).
pub open spec fn sort_key_of(s: Seq<char>) -> Seq<char> {
    if s.len() > 0 && (s[0] == '+' || s[0] == '-') {
        s.subrange(1, s.len() as int)
    } else {
        s
    }
}

/// The message of a sort error: `invalid sort field: ` and the offending name.
pub open spec fn sort_error_message(field: Seq<char>) -> Seq<char> {
    "invalid sort field: "@ + field
}

impl SortField {
    /// The direction used when a sort specification gives none.
    pub fn default_direction(&self) -> (r: SortDirection)
        ensures
            r == spec_default_direction(*self),
    {
        match self {
            SortField::Date => SortDirection::Descending,
            SortField::Title => SortDirection::Ascending,
        }
    }

    /// Reads a sort field name.
    pub fn parse(s: &str) -> (r: Result<SortField, SortError>)
        ensures
            match r {
                Ok(f) => spec_parse_sort_field(s@) == Some(f),
                Err(e) => spec_parse_sort_field(s@) is None && e.0@ == s@,
            },
    {
        if same_text(s, "date") {
            Ok(SortField::Date)
        } else if same_text(s, "title") {
            Ok(SortField::Title)
        } else if same_text(s, "default") {
            Ok(SortField::default())
        } else {
            Err(SortError(s.to_owned()))
        }
    }
}

impl Default for SortField {
    /// Indices are sorted by title unless told otherwise.
    fn default() -> (r: SortField)
        ensures
            r == SortField::Title,
    {
        SortField::Title
    }
}

impl SortError {
    /// The error message: `invalid sort field: ` followed by the offending name.
    pub fn message(&self) -> (r: String)
        ensures
            r@ == sort_error_message(self.0@),
    {
        let mut m = "invalid sort field: ".to_owned();
        push_str(&mut m, self.0.as_str());
        m
    }
}

impl Sort {
    /// Reads a sort specification such as `date`, `+title` or `-date`.
    pub fn parse(s: &str) -> (r: Result<Sort, SortError>)
        ensures
            match r {
                Ok(sort) => spec_parse_sort(s@) == Some(sort),
                Err(e) => spec_parse_sort(s@) is None && e.0@ == sort_key_of(s@),
            },
    {
        let (explicit, key): (Option<SortDirection>, &str) = match first_char(s) {
            Some('+') => (Some(SortDirection::Ascending), after_first_char(s)),
            Some('-') => (Some(SortDirection::Descending), after_first_char(s)),
            _ => (None, s),
        };
        let field = SortField::parse(key)?;
        let direction = match explicit {
            Some(d) => d,
            None => field.default_direction(),
        };
        Ok(Sort { direction, field })
    }
}

impl Default for Sort {
    /// Sort by title, in the title's default (ascending) direction.
    fn default() -> (r: Sort)
        ensures
            r == (Sort { field: SortField::Title, direction: SortDirection::Ascending }),
    {
        let field = SortField::default();
        Sort { field, direction: field.default_direction() }
    }
}

/// Syndication (feed) settings of an index.
#[derive(Debug, Clone)]
pub struct Syndicate {
    pub max: Option<u32>,
}

/// The index settings of an entry.
#[derive(Debug, Clone)]
pub struct Index {
    pub sort: Sort,
    /// The directories whose entries are included, relative to the site root.
    pub directories: Vec<String>,
    pub syndicate: Option<Syndicate>,
    pub paginate: Option<u32>,
    pub max: Option<u32>,
    pub compact: bool,
}

} // verus!
