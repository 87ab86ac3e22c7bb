//! What can go wrong in a command.

use vstd::prelude::*;

verus! {

/// Why a command failed. Each variant carries the text that describes the
/// failure to the caller.
#[derive(Debug)]
pub enum StoreError {
    /// The store at the given path could not be opened or created.
    Open(String),
    /// No connection has the given id. Carries the id.
    NotFound(String),
    /// The store failed in an operation on a tree.
    Tree(String),
    /// The format is none of those that the command supports. Carries the format.
    UnsupportedFormat(String),
    /// The text to import is malformed.
    Parse(String),
    /// A document could not be written out as text.
    Io(String),
}

impl StoreError {
    /// The text that the variant carries.
    pub open spec fn detail(self) -> Seq<char> {
        match self {
            StoreError::Open(text) => text@,
            StoreError::NotFound(text) => text@,
            StoreError::Tree(text) => text@,
            StoreError::UnsupportedFormat(text) => text@,
            StoreError::Parse(text) => text@,
            StoreError::Io(text) => text@,
        }
    }

    /// A description of the failure: what kind it is, then the text it carries.
    pub fn message(&self) -> (s: String)
        ensures
            s@ == match *self {
                StoreError::Open(_) => "cannot open store: "@,
                StoreError::NotFound(_) => "Database connection not found: "@,
                StoreError::Tree(_) => "store operation failed: "@,
                StoreError::UnsupportedFormat(_) => "unsupported format: "@,
                StoreError::Parse(_) => "malformed input: "@,
                StoreError::Io(_) => "cannot write document: "@,
            } + self.detail(),
    {
        match self {
            StoreError::Open(text) => String::from_str("cannot open store: ").concat(text.as_str()),
            StoreError::NotFound(text) => String::from_str("Database connection not found: ").concat(
                text.as_str(),
            ),
            StoreError::Tree(text) => String::from_str("store operation failed: ").concat(
                text.as_str(),
            ),
            StoreError::UnsupportedFormat(text) => String::from_str("unsupported format: ").concat(
                text.as_str(),
            ),
            StoreError::Parse(text) => String::from_str("malformed input: ").concat(text.as_str()),
            StoreError::Io(text) => String::from_str("cannot write document: ").concat(
                text.as_str(),
            ),
        }
    }
}

} // verus!
