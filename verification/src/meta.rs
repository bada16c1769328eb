//! Metadata read from YAML front matter and configuration: the `Meta` trait and its
//! implementations.

use vstd::prelude::*;
use crate::yaml::{YamlHash, YamlValue};

verus! {

/// Metadata that can be read from the YAML mapping left over after the library has taken the
/// keys it knows.
pub trait Meta: Sized {
    /// `r` is what reading `yaml` yields: the metadata or an error message.
    spec fn reads_yaml(yaml: Seq<(YamlValue, YamlValue)>, r: Result<Self, Seq<char>>) -> bool;

    /// Reads metadata from a YAML mapping.
    fn from_yaml(yaml: YamlHash) -> (r: Result<Self, &'static str>)
        ensures
            Self::reads_yaml(
                yaml.entries@,
                match r {
                    Ok(m) => Ok(m),
                    Err(e) => Err(e@),
                },
            ),
    ;
}

impl Meta for YamlHash {
    /// The mapping itself is the metadata.
    open spec fn reads_yaml(yaml: Seq<(YamlValue, YamlValue)>, r: Result<Self, Seq<char>>) -> bool {
        r matches Ok(h) && h.entries@ == yaml
    }

    fn from_yaml(yaml: YamlHash) -> (r: Result<Self, &'static str>) {
        Ok(yaml)
    }
}

impl Meta for () {
    /// No metadata: reading always succeeds.
    open spec fn reads_yaml(yaml: Seq<(YamlValue, YamlValue)>, r: Result<Self, Seq<char>>) -> bool {
        r is Ok
    }

    fn from_yaml(yaml: YamlHash) -> (r: Result<Self, &'static str>) {
        Ok(())
    }
}

} // verus!
