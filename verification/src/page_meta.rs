//! The metadata of a site (`gazetta.yaml`) and of its pages, beyond what the core reads.

use vstd::prelude::*;
use crate::link::{Link, links_error, links_match};
use crate::meta::Meta;
use crate::person::{Person, person_error, person_matches, all_strings, strings_match, strings_of};
use crate::yaml::{YamlHash, YamlValue, hash_get, hash_without};

verus! {

/// Site metadata: navigation links and the site's author.
#[derive(Debug)]
pub struct SourceMeta {
    pub nav: Vec<Link>,
    pub author: Person,
}

/// Page metadata: optional author, subject and robots directives.
#[derive(Debug)]
pub struct EntryMeta {
    pub author: Option<Person>,
    pub about: Option<Person>,
    pub robots: Option<Vec<String>>,
}

/// An optional person field: its error, if any.
pub open spec fn opt_person_error(v: Option<YamlValue>) -> Option<Seq<char>> {
    match v {
        Some(p) => person_error(p),
        None => None,
    }
}

/// An optional person field: `r` is the person it describes.
pub open spec fn opt_person_matches(v: Option<YamlValue>, r: Option<Person>) -> bool {
    match v {
        Some(y) => r matches Some(p) && person_matches(y, p),
        None => r is None,
    }
}

/// The robots field: its error, if any (a string or a list of strings is expected).
pub open spec fn robots_error(v: Option<YamlValue>) -> Option<Seq<char>> {
    match v {
        Some(YamlValue::String(_)) => None,
        Some(YamlValue::Array(a)) => if all_strings(a@) {
            None
        } else {
            Some("robots directives must be strings"@)
        },
        Some(_) => Some("robots directives must be strings"@),
        None => None,
    }
}

/// The robots field: `r` holds the directives it gives.
pub open spec fn robots_matches(v: Option<YamlValue>, r: Option<Vec<String>>) -> bool {
    match v {
        Some(YamlValue::String(s)) => r matches Some(d) && d@ == seq![s],
        Some(YamlValue::Array(a)) => r matches Some(d) && strings_match(a@, d@),
        _ => r is None,
    }
}

impl Meta for SourceMeta {
    /// `nav` (optional list of links) is read first, then `author` (a person, required).
    open spec fn reads_yaml(yaml: Seq<(YamlValue, YamlValue)>, r: Result<Self, Seq<char>>) -> bool {
        let nav = hash_get(yaml, "nav"@);
        let author = hash_get(hash_without(yaml, "nav"@), "author"@);
        if nav is Some && links_error(nav->Some_0) is Some {
            r == Err::<Self, Seq<char>>(links_error(nav->Some_0)->Some_0)
        } else if author is None {
            r == Err::<Self, Seq<char>>("websites must have authors"@)
        } else if person_error(author->Some_0) is Some {
            r == Err::<Self, Seq<char>>(person_error(author->Some_0)->Some_0)
        } else {
            r matches Ok(m) && person_matches(author->Some_0, m.author) && match nav {
                Some(n) => links_match(n, m.nav@),
                None => m.nav@.len() == 0,
            }
        }
    }

    fn from_yaml(yaml: YamlHash) -> (r: Result<Self, &'static str>) {
        let mut meta = yaml;
        let nav = match meta.remove("nav") {
            Some(v) => Link::many_from_yaml(v)?,
            None => Vec::new(),
        };
        let author = match meta.remove("author") {
            Some(v) => Person::from_yaml(v)?,
            None => return Err("websites must have authors"),
        };
        Ok(SourceMeta { nav, author })
    }
}

impl Meta for EntryMeta {
    /// `author`, `about` (optional people) and `robots` (a string or a list of strings), read
    /// in that order.
    open spec fn reads_yaml(yaml: Seq<(YamlValue, YamlValue)>, r: Result<Self, Seq<char>>) -> bool {
        let author = hash_get(yaml, "author"@);
        let y1 = hash_without(yaml, "author"@);
        let about = hash_get(y1, "about"@);
        let robots = hash_get(hash_without(y1, "about"@), "robots"@);
        if opt_person_error(author) is Some {
            r == Err::<Self, Seq<char>>(opt_person_error(author)->Some_0)
        } else if opt_person_error(about) is Some {
            r == Err::<Self, Seq<char>>(opt_person_error(about)->Some_0)
        } else if robots_error(robots) is Some {
            r == Err::<Self, Seq<char>>(robots_error(robots)->Some_0)
        } else {
            r matches Ok(m) && opt_person_matches(author, m.author) && opt_person_matches(
                about,
                m.about,
            ) && robots_matches(robots, m.robots)
        }
    }

    fn from_yaml(yaml: YamlHash) -> (r: Result<Self, &'static str>) {
        let mut meta = yaml;
        let author = match meta.remove("author") {
            Some(v) => Some(Person::from_yaml(v)?),
            None => None,
        };
        let about = match meta.remove("about") {
            Some(v) => Some(Person::from_yaml(v)?),
            None => None,
        };
        let robots = match meta.remove("robots") {
            Some(YamlValue::String(val)) => {
                let mut v = Vec::new();
                v.push(val);
                Some(v)
            },
            Some(YamlValue::Array(arr)) => Some(
                strings_of(arr, "robots directives must be strings")?,
            ),
            Some(_) => return Err("robots directives must be strings"),
            None => None,
        };
        Ok(EntryMeta { author, about, robots })
    }
}

/// Turns an optional fallible value into a fallible optional value.
pub trait BubbleResult: Sized {
    type Value;
    type Error;

    /// What bubbling yields.
    spec fn bubbled(self) -> Result<Self::Value, Self::Error>;

    /// `Some(Err(e))` becomes `Err(e)`, `Some(Ok(v))` becomes `Ok(Some(v))`, `None` becomes
    /// `Ok(None)`.
    fn bubble_result(self) -> (r: Result<Self::Value, Self::Error>)
        ensures
            r == self.bubbled(),
    ;
}

impl<V, E> BubbleResult for Result<V, E> {
    type Value = V;
    type Error = E;

    open spec fn bubbled(self) -> Result<V, E> {
        self
    }

    fn bubble_result(self) -> (r: Result<V, E>) {
        self
    }
}

impl<I: BubbleResult> BubbleResult for Option<I> {
    type Value = Option<I::Value>;
    type Error = I::Error;

    open spec fn bubbled(self) -> Result<Option<I::Value>, I::Error> {
        match self {
            Some(v) => match v.bubbled() {
                Ok(x) => Ok(Some(x)),
                Err(e) => Err(e),
            },
            None => Ok(None),
        }
    }

    fn bubble_result(self) -> (r: Result<Option<I::Value>, I::Error>) {
        match self {
            Some(v) => match v.bubble_result() {
                Ok(v) => Ok(Some(v)),
                Err(e) => Err(e),
            },
            None => Ok(None),
        }
    }
}

} // verus!
