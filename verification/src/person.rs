//! People (authors, subjects of pages) and their keys, as written in YAML.

use vstd::prelude::*;
use crate::link::{Link, links_error, links_match};
use crate::yaml::{YamlHash, YamlValue, hash_get, hash_without};
use crate::text::{push_char, push_str};

verus! {

/// A person.
#[derive(Debug, Clone)]
pub struct Person {
    pub name: String,
    pub email: Option<String>,
    pub photo: Option<String>,
    pub key: Option<Key>,
    pub nicknames: Vec<String>,
    pub also: Vec<Link>,
}

/// A public key: where to find it and its fingerprint.
#[derive(Debug, Clone)]
pub struct Key {
    pub url: String,
    pub fingerprint: String,
}

/// The error for an optional field that must be a string when present.
pub open spec fn opt_string_error(v: Option<YamlValue>, msg: Seq<char>) -> Option<Seq<char>> {
    match v {
        Some(YamlValue::String(_)) => None,
        None => None,
        Some(_) => Some(msg),
    }
}

/// `r` is the optional string field read from `v`.
pub open spec fn opt_string_matches(v: Option<YamlValue>, r: Option<String>) -> bool {
    match v {
        Some(YamlValue::String(s)) => r == Some(s),
        _ => r is None,
    }
}

/// Every item of a YAML list is a string.
pub open spec fn all_strings(a: Seq<YamlValue>) -> bool {
    forall|i: int| 0 <= i < a.len() ==> #[trigger] a[i] is String
}

/// `r` holds, in order, the strings of a YAML list.
pub open spec fn strings_match(a: Seq<YamlValue>, r: Seq<String>) -> bool {
    &&& a.len() == r.len()
    &&& forall|i: int| 0 <= i < a.len() ==> a[i] == YamlValue::String(#[trigger] r[i])
}

/// Why a YAML value is not a key (`None` when it is one): either a string, the key's url,
/// or a mapping with string `url` and `fingerprint` fields.
pub open spec fn key_error(y: YamlValue) -> Option<Seq<char>> {
    match y {
        YamlValue::String(_) => None,
        YamlValue::Hash(h) => match hash_get(h.entries@, "url"@) {
            Some(YamlValue::String(_)) => match hash_get(
                hash_without(h.entries@, "url"@),
                "fingerprint"@,
            ) {
                Some(YamlValue::String(_)) => None,
                Some(_) => Some("key fingerprint must be a string"@),
                None => Some("key fingerprint missing"@),
            },
            Some(_) => Some("key url must be a string"@),
            None => Some("key url missing"@),
        },
        _ => Some("if specified, key must be a hash"@),
    }
}

/// `k` is the key that a YAML value describes: a string gives the url and an empty
/// fingerprint; a mapping gives both fields.
pub open spec fn key_matches(y: YamlValue, k: Key) -> bool {
    match y {
        YamlValue::String(u) => k.url == u && k.fingerprint@ == Seq::<char>::empty(),
        YamlValue::Hash(h) => {
            &&& hash_get(h.entries@, "url"@) == Some(YamlValue::String(k.url))
            &&& hash_get(hash_without(h.entries@, "url"@), "fingerprint"@) == Some(
                YamlValue::String(k.fingerprint),
            )
        },
        _ => false,
    }
}

/// Reads an optional string field, removing it from the mapping.
fn take_opt_string(h: &mut YamlHash, key: &str, msg: &'static str) -> (r: Result<
    Option<String>,
    &'static str,
>)
    ensures
        final(h).entries@ == hash_without(old(h).entries@, key@),
        match r {
            Ok(v) => opt_string_error(hash_get(old(h).entries@, key@), msg@) is None
                && opt_string_matches(hash_get(old(h).entries@, key@), v),
            Err(e) => opt_string_error(hash_get(old(h).entries@, key@), msg@) == Some(e@),
        },
{
    match h.remove(key) {
        Some(YamlValue::String(s)) => Ok(Some(s)),
        None => Ok(None),
        Some(_) => Err(msg),
    }
}

/// Reads a YAML list whose items must all be strings.
pub fn strings_of(items: Vec<YamlValue>, msg: &'static str) -> (r: Result<Vec<String>, &'static str>)
    ensures
        match r {
            Ok(v) => all_strings(items@) && strings_match(items@, v@),
            Err(e) => !all_strings(items@) && e@ == msg@,
        },
{
    let ghost all = items@;
    let n: usize = items.len();
    let mut rest = items;
    let mut out: Vec<String> = Vec::new();
    let mut i: usize = 0;
    while rest.len() > 0
        invariant
            i + rest@.len() == all.len(),
            all.len() == n,
            all == items@,
            rest@ == all.skip(i as int),
            out@.len() == i,
            forall|j: int| 0 <= j < i ==> all[j] == YamlValue::String(#[trigger] out@[j]),
        decreases rest@.len(),
    {
        let item = rest.remove(0);
        proof {
            assert(all.skip(i as int)[0] == all[i as int]);
            assert(all.skip(i as int).drop_first() =~= all.skip(i + 1));
        }
        match item {
            YamlValue::String(s) => {
                out.push(s);
            },
            _ => {
                proof {
                    assert(!(all[i as int] is String));
                    assert(!all_strings(all));
                }
                return Err(msg);
            },
        }
        i = i + 1;
    }
    proof {
        assert forall|j: int| 0 <= j < all.len() implies #[trigger] all[j] is String by {
            assert(all[j] == YamlValue::String(out@[j]));
        }
    }
    Ok(out)
}

/// The mapping of a person after taking each field in turn.
pub open spec fn person_fields_after(es: Seq<(YamlValue, YamlValue)>, n: int) -> Seq<(YamlValue, YamlValue)>
    decreases n,
{
    if n <= 0 {
        es
    } else {
        let prev = person_fields_after(es, n - 1);
        hash_without(prev, person_field(n - 1))
    }
}

/// The fields of a person, in the order they are read.
pub open spec fn person_field(i: int) -> Seq<char> {
    if i == 0 {
        "name"@
    } else if i == 1 {
        "photo"@
    } else if i == 2 {
        "email"@
    } else if i == 3 {
        "nicknames"@
    } else if i == 4 {
        "also"@
    } else {
        "key"@
    }
}

/// The value of the `i`-th person field, looked up once the earlier fields are taken.
pub open spec fn person_value(es: Seq<(YamlValue, YamlValue)>, i: int) -> Option<YamlValue> {
    hash_get(person_fields_after(es, i), person_field(i))
}

/// Why a person mapping's `nicknames` field is invalid (`None` when it is valid).
pub open spec fn nicknames_error(v: Option<YamlValue>) -> Option<Seq<char>> {
    match v {
        Some(YamlValue::String(_)) => None,
        Some(YamlValue::Array(a)) => if all_strings(a@) {
            None
        } else {
            Some("nicknames must be strings"@)
        },
        Some(_) => Some("invalid nicknames value"@),
        None => None,
    }
}

/// Why a YAML value is not a person (`None` when it is one). A person is a name, or a mapping
/// with a string `name` and optional `photo`, `email` (strings), `nicknames` (a string or a
/// list of strings), `also` (a list of links) and `key`; the first invalid field, in that
/// order, gives the error.
pub open spec fn person_error(y: YamlValue) -> Option<Seq<char>> {
    match y {
        YamlValue::Hash(h) => {
            let es = h.entries@;
            match person_value(es, 0) {
                None => Some("missing name"@),
                Some(YamlValue::String(_)) => if opt_string_error(
                    person_value(es, 1),
                    "if specified, photo must be a string"@,
                ) is Some {
                    opt_string_error(person_value(es, 1), "if specified, photo must be a string"@)
                } else if opt_string_error(
                    person_value(es, 2),
                    "if specified, email must be a string"@,
                ) is Some {
                    opt_string_error(person_value(es, 2), "if specified, email must be a string"@)
                } else if nicknames_error(person_value(es, 3)) is Some {
                    nicknames_error(person_value(es, 3))
                } else if person_value(es, 4) is Some && links_error(
                    person_value(es, 4)->Some_0,
                ) is Some {
                    links_error(person_value(es, 4)->Some_0)
                } else if person_value(es, 5) is Some {
                    key_error(person_value(es, 5)->Some_0)
                } else {
                    None
                },
                Some(_) => Some("name must be a string"@),
            }
        },
        YamlValue::String(_) => None,
        _ => Some("invalid person"@),
    }
}

/// `p` is the person that a YAML value describes.
pub open spec fn person_matches(y: YamlValue, p: Person) -> bool {
    match y {
        YamlValue::Hash(h) => {
            let es = h.entries@;
            &&& person_value(es, 0) == Some(YamlValue::String(p.name))
            &&& opt_string_matches(person_value(es, 1), p.photo)
            &&& opt_string_matches(person_value(es, 2), p.email)
            &&& match person_value(es, 3) {
                Some(YamlValue::String(s)) => p.nicknames@ == seq![s],
                Some(YamlValue::Array(a)) => strings_match(a@, p.nicknames@),
                _ => p.nicknames@.len() == 0,
            }
            &&& match person_value(es, 4) {
                Some(v) => links_match(v, p.also@),
                None => p.also@.len() == 0,
            }
            &&& match person_value(es, 5) {
                Some(v) => p.key matches Some(k) && key_matches(v, k),
                None => p.key is None,
            }
        },
        YamlValue::String(s) => {
            &&& p.name == s
            &&& p.email is None
            &&& p.photo is None
            &&& p.key is None
            &&& p.nicknames@.len() == 0
            &&& p.also@.len() == 0
        },
        _ => false,
    }
}

impl Key {
    /// Reads a key: a string, which is the key's url (its fingerprint left empty), or a
    /// mapping with string `url` and `fingerprint` fields.
    pub fn from_yaml(key: YamlValue) -> (r: Result<Key, &'static str>)
        ensures
            match r {
                Ok(k) => key_error(key) is None && key_matches(key, k),
                Err(e) => key_error(key) == Some(e@),
            },
    {
        match key {
            YamlValue::String(url) => Ok(Key { url, fingerprint: String::new() }),
            YamlValue::Hash(mut h) => {
                let url = match h.remove("url") {
                    Some(YamlValue::String(url)) => url,
                    Some(_) => return Err("key url must be a string"),
                    None => return Err("key url missing"),
                };
                let fingerprint = match h.remove("fingerprint") {
                    Some(YamlValue::String(fprint)) => fprint,
                    Some(_) => return Err("key fingerprint must be a string"),
                    None => return Err("key fingerprint missing"),
                };
                Ok(Key { url, fingerprint })
            },
            _ => Err("if specified, key must be a hash"),
        }
    }
}

/// How a person is shown: the name, then the email in angle brackets if there is one.
pub open spec fn person_text(p: Person) -> Seq<char> {
    match p.email {
        Some(e) => p.name@ + " <"@ + e@ + seq!['>'],
        None => p.name@,
    }
}

impl Person {
    /// How the person is shown (see `person_text`).
    pub fn text(&self) -> (r: String)
        ensures
            r@ == person_text(*self),
    {
        let mut s = self.name.clone();
        match &self.email {
            Some(e) => {
                push_str(&mut s, " <");
                push_str(&mut s, e.as_str());
                push_char(&mut s, '>');
                proof {
                    assert(s@ =~= person_text(*self));
                }
            },
            None => {},
        }
        s
    }

    /// Reads a person: either just a name, or a mapping (see `person_error`).
    pub fn from_yaml(person: YamlValue) -> (r: Result<Person, &'static str>)
        ensures
            match r {
                Ok(p) => person_error(person) is None && person_matches(person, p),
                Err(e) => person_error(person) == Some(e@),
            },
    {
        match person {
            YamlValue::Hash(mut h) => {
                let ghost es = h.entries@;
                proof {
                    reveal_with_fuel(person_fields_after, 7);
                }
                let name = match h.remove("name") {
                    Some(YamlValue::String(name)) => name,
                    None => return Err("missing name"),
                    _ => return Err("name must be a string"),
                };
                assert(h.entries@ == person_fields_after(es, 1));
                let photo = take_opt_string(&mut h, "photo", "if specified, photo must be a string")?;
                assert(h.entries@ == person_fields_after(es, 2));
                let email = take_opt_string(&mut h, "email", "if specified, email must be a string")?;
                assert(h.entries@ == person_fields_after(es, 3));
                let nicknames = match h.remove("nicknames") {
                    Some(YamlValue::String(nick)) => {
                        let mut v = Vec::new();
                        v.push(nick);
                        v
                    },
                    Some(YamlValue::Array(nicks)) => strings_of(nicks, "nicknames must be strings")?,
                    Some(_) => return Err("invalid nicknames value"),
                    None => Vec::new(),
                };
                assert(h.entries@ == person_fields_after(es, 4));
                let also = match h.remove("also") {
                    Some(v) => Link::many_from_yaml(v)?,
                    None => Vec::new(),
                };
                assert(h.entries@ == person_fields_after(es, 5));
                let key = match h.remove("key") {
                    Some(v) => Some(Key::from_yaml(v)?),
                    None => None,
                };
                Ok(Person { name, photo, email, nicknames, also, key })
            },
            YamlValue::String(name) => Ok(
                Person {
                    name,
                    email: None,
                    key: None,
                    also: Vec::new(),
                    photo: None,
                    nicknames: Vec::new(),
                },
            ),
            _ => Err("invalid person"),
        }
    }
}

} // verus!
