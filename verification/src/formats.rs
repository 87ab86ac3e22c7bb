//! The text formats of import and export: which there are, what each writes
//! for a tree's entries, and what each gives to import.

pub mod delimited;
pub mod json;
pub mod plan;
pub mod xml;
pub mod yaml;

use crate::error::StoreError;
use crate::query::pairs_view;
use crate::sled_manager::{entries_view, Entry, KeyValue};
use crate::text::same_text;
use vstd::prelude::*;

verus! {

/// A text format.
#[derive(Debug, Clone, Copy, PartialEq, Eq, Structural)]
pub enum Format {
    Json,
    Csv,
    Xml,
    Yaml,
}

/// What was read from a text for import: the pairs to write, and the
/// description of the failure that ended the reading, if one did.
#[derive(Debug)]
pub struct Decoded {
    pub pairs: Vec<(Vec<u8>, Vec<u8>)>,
    pub failure: Option<String>,
}

/// The format that a token names: `json`, `csv`, `xml` or `yaml`, in small
/// letters.
pub open spec fn format_of(token: Seq<char>) -> Option<Format> {
    if token == seq!['j', 's', 'o', 'n'] {
        Some(Format::Json)
    } else if token == seq!['c', 's', 'v'] {
        Some(Format::Csv)
    } else if token == seq!['x', 'm', 'l'] {
        Some(Format::Xml)
    } else if token == seq!['y', 'a', 'm', 'l'] {
        Some(Format::Yaml)
    } else {
        None
    }
}

/// The format can be read as well as written. XML is written only.
pub open spec fn importable(format: Format) -> bool {
    format != Format::Xml
}

/// The format that a token names and that can be read.
pub open spec fn import_format_of(token: Seq<char>) -> Option<Format> {
    match format_of(token) {
        Some(format) => if importable(format) {
            Some(format)
        } else {
            None
        },
        None => None,
    }
}

/// The text that a format writes for the entries, or `None` where the
/// format's writer fails on them.
pub open spec fn export_text(format: Format, entries: Seq<Entry>) -> Option<Seq<char>> {
    match format {
        Format::Json => json::encoded(entries),
        Format::Csv => delimited::encoded(entries),
        Format::Xml => xml::encoded(entries),
        Format::Yaml => yaml::encoded(entries),
    }
}

/// What a text in a format gives to import: the pairs to write, in order,
/// and whether the whole text was read. A JSON text gives all its pairs or
/// none; a CSV or YAML text gives the pairs before its first part that
/// cannot be read; XML gives nothing.
pub open spec fn import_plan(format: Format, text: Seq<char>) -> (Seq<(Seq<u8>, Seq<u8>)>, bool) {
    match format {
        Format::Json => match json::decoded(text) {
            Some(pairs) => (pairs, true),
            None => (Seq::empty(), false),
        },
        Format::Csv => delimited::decoded(text),
        Format::Yaml => yaml::decoded(text),
        Format::Xml => (Seq::empty(), false),
    }
}

/// Reads a format's token.
pub fn parse_format(token: &str) -> (format: Option<Format>)
    ensures
        format == format_of(token@),
{
    proof {
        reveal_strlit("json");
        reveal_strlit("csv");
        reveal_strlit("xml");
        reveal_strlit("yaml");
        assert("json"@ =~= seq!['j', 's', 'o', 'n']);
        assert("csv"@ =~= seq!['c', 's', 'v']);
        assert("xml"@ =~= seq!['x', 'm', 'l']);
        assert("yaml"@ =~= seq!['y', 'a', 'm', 'l']);
    }
    if same_text(token, "json") {
        Some(Format::Json)
    } else if same_text(token, "csv") {
        Some(Format::Csv)
    } else if same_text(token, "xml") {
        Some(Format::Xml)
    } else if same_text(token, "yaml") {
        Some(Format::Yaml)
    } else {
        None
    }
}

/// Writes the entries out in a format. Fails with `Io` exactly where the
/// format's writer fails on them.
pub fn encode(format: Format, entries: &Vec<KeyValue>) -> (r: Result<String, StoreError>)
    ensures
        match r {
            Ok(text) => export_text(format, entries_view(entries@)) == Some(text@),
            Err(e) => e is Io && export_text(format, entries_view(entries@)) is None,
        },
{
    match format {
        Format::Json => match json::encode(entries) {
            Ok(text) => Ok(text),
            Err(e) => Err(StoreError::Io(e.to_string())),
        },
        Format::Csv => match delimited::encode(entries) {
            Ok(text) => Ok(text),
            Err(e) => Err(StoreError::Io(e.to_string())),
        },
        Format::Xml => match xml::encode(entries) {
            Ok(text) => Ok(text),
            Err(e) => Err(StoreError::Io(e.to_string())),
        },
        Format::Yaml => match yaml::encode(entries) {
            Ok(text) => Ok(text),
            Err(e) => Err(StoreError::Io(e.to_string())),
        },
    }
}

/// Reads what a text in a format gives to import. There is nothing to read
/// for a format that is written only.
pub fn decode(format: Format, text: &str) -> (r: Option<Decoded>)
    ensures
        r is Some <==> importable(format),
        r matches Some(read) ==> {
            &&& pairs_view(read.pairs@) == import_plan(format, text@).0
            &&& read.failure is None <==> import_plan(format, text@).1
        },
{
    match format {
        Format::Json => match json::decode(text) {
            Ok(pairs) => Some(Decoded { pairs, failure: None }),
            Err(cause) => {
                let failure = match cause {
                    Some(e) => e.to_string(),
                    None => "expected an array of entries with key, value and value_type".to_owned(),
                };
                let pairs: Vec<(Vec<u8>, Vec<u8>)> = Vec::new();
                assert(pairs_view(pairs@) =~= Seq::empty());
                Some(Decoded { pairs, failure: Some(failure) })
            },
        },
        Format::Csv => {
            let (pairs, failure) = delimited::decode(text);
            Some(Decoded { pairs, failure })
        },
        Format::Yaml => {
            let (pairs, failure) = yaml::decode(text);
            Some(Decoded { pairs, failure })
        },
        Format::Xml => None,
    }
}

} // verus!
