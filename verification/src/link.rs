//! Links (`name: url` pairs) as written in YAML.

use vstd::prelude::*;
use crate::yaml::{YamlHash, YamlValue};

verus! {

/// A link with a text and a url.
#[derive(Clone, Debug)]
pub struct Link {
    pub text: String,
    pub url: String,
}

/// The message for a link that is not a one-pair mapping of strings.
pub open spec fn link_form_message() -> Seq<char> {
    "links must be in the form `name: url`"@
}

/// Why a YAML value is not a link (`None` when it is one): a link is a mapping with exactly one
/// pair, whose key and value are strings.
pub open spec fn link_error(y: YamlValue) -> Option<Seq<char>> {
    match y {
        YamlValue::Hash(h) => if h.entries@.len() != 1 {
            Some("links must have exactly one entry"@)
        } else if h.entries@[0].0 is String && h.entries@[0].1 is String {
            None
        } else {
            Some(link_form_message())
        },
        _ => Some(link_form_message()),
    }
}

/// `l` is the link that a YAML value describes: its text is the pair's key, its url the value.
pub open spec fn link_matches(y: YamlValue, l: Link) -> bool {
    &&& y is Hash
    &&& y->Hash_0.entries@.len() == 1
    &&& y->Hash_0.entries@[0].0 == YamlValue::String(l.text)
    &&& y->Hash_0.entries@[0].1 == YamlValue::String(l.url)
}

/// The first error among a list of link values, in order.
pub open spec fn first_link_error(s: Seq<YamlValue>) -> Option<Seq<char>>
    decreases s.len(),
{
    if s.len() == 0 {
        None
    } else {
        match link_error(s[0]) {
            Some(e) => Some(e),
            None => first_link_error(s.drop_first()),
        }
    }
}

/// Why a YAML value is not a list of links (`None` when it is one).
pub open spec fn links_error(y: YamlValue) -> Option<Seq<char>> {
    match y {
        YamlValue::Array(a) => first_link_error(a@),
        _ => Some("lists of links need to be arrays"@),
    }
}

/// `ls` are the links, in order, that a YAML list describes.
pub open spec fn links_match(y: YamlValue, ls: Seq<Link>) -> bool {
    &&& y is Array
    &&& y->Array_0@.len() == ls.len()
    &&& forall|i: int| 0 <= i < ls.len() ==> link_matches(y->Array_0@[i], #[trigger] ls[i])
}

impl Link {
    /// Reads a link written as a one-pair mapping `name: url`.
    pub fn from_yaml(yaml: YamlValue) -> (r: Result<Link, &'static str>)
        ensures
            match r {
                Ok(l) => link_error(yaml) is None && link_matches(yaml, l),
                Err(e) => link_error(yaml) == Some(e@),
            },
    {
        match yaml {
            YamlValue::Hash(link) => {
                if link.len() != 1 {
                    Err("links must have exactly one entry")
                } else {
                    let ghost es = link.entries@;
                    let mut entries = link.entries;
                    let (k, v) = entries.remove(0);
                    match (k, v) {
                        (YamlValue::String(k), YamlValue::String(v)) => Ok(Link { text: k, url: v }),
                        _ => Err("links must be in the form `name: url`"),
                    }
                }
            },
            _ => Err("links must be in the form `name: url`"),
        }
    }

    /// Reads a YAML list of links.
    pub fn many_from_yaml(links: YamlValue) -> (r: Result<Vec<Link>, &'static str>)
        ensures
            match r {
                Ok(ls) => links_error(links) is None && links_match(links, ls@),
                Err(e) => links_error(links) == Some(e@),
            },
    {
        match links {
            YamlValue::Array(items) => {
                let ghost all = items@;
                assert(all.skip(0) =~= all);
                let n: usize = items.len();
                let mut rest = items;
                let mut out: Vec<Link> = Vec::new();
                let mut i: usize = 0;
                while rest.len() > 0
                    invariant
                        i + rest@.len() == all.len(),
                        all.len() == n,
                        links is Array,
                        links->Array_0@ == all,
                        rest@ == all.skip(i as int),
                        out@.len() == i,
                        forall|j: int| 0 <= j < i ==> link_matches(all[j], #[trigger] out@[j]),
                        first_link_error(all) == first_link_error(all.skip(i as int)),
                    decreases rest@.len(),
                {
                    let item = rest.remove(0);
                    proof {
                        assert(all.skip(i as int).drop_first() =~= all.skip(i + 1));
                    }
                    let link = match Link::from_yaml(item) {
                        Ok(l) => l,
                        Err(e) => {
                            proof {
                                let sk = all.skip(i as int);
                                assert(sk[0] == all[i as int]);
                                assert(sk.len() > 0);
                                assert(link_error(sk[0]) == Some(e@));
                                assert(first_link_error(sk) == Some(e@));
                            }
                            return Err(e);
                        },
                    };
                    proof {
                        assert(all.skip(i as int)[0] == all[i as int]);
                    }
                    out.push(link);
                    i = i + 1;
                }
                proof {
                    assert(all.skip(i as int) =~= Seq::<YamlValue>::empty());
                    assert(first_link_error(all) is None);
                    assert(links->Array_0@ == all);
                    assert(links_match(links, out@));
                }
                Ok(out)
            },
            _ => Err("lists of links need to be arrays"),
        }
    }
}

} // verus!
