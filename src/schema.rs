//! The operation document: an ordered list of operations with an optional
//! schema tag, as the serialised formats carry it.
use vstd::prelude::*;

verus! {

/// What an operation does.
#[derive(Clone, Copy, Debug, PartialEq, Eq, Structural)]
pub enum Operation {
    Write,
    Read,
    Delete,
}

/// Whether no two pairs share an entry name, as in a mapping.
pub open spec fn names_unique(pairs: Seq<(String, String)>) -> bool {
    forall|i: int, j: int| 0 <= i < j < pairs.len() ==> (#[trigger] pairs[i]).0@ != (#[trigger] pairs[j]).0@
}

/// The payload of an entry-addressed operation: entry names with values for
/// a write, entry names for a read or a delete. A write's pairs stand for a
/// mapping, so their names are unique (`names_unique`) in every document
/// read from a serialised format and in every backup; where a document built
/// in code repeats a name, each pair is written in order and the last wins.
#[derive(Clone, Debug)]
pub enum EntryContent {
    WriteEntries(Vec<(String, String)>),
    ReadDeleteEntries(Vec<String>),
}

/// One operation as a document states it. Either `file` is given, or
/// `component`, `version` and `entries` are; `xdg_directory` defaults to
/// `config`, and `value` is the content of a file write.
#[derive(Clone, Debug)]
pub struct Entry {
    pub component: Option<String>,
    pub version: Option<u64>,
    pub operation: Operation,
    pub entries: Option<EntryContent>,
    pub xdg_directory: Option<String>,
    pub file: Option<String>,
    pub value: Option<String>,
}

/// An operation document.
#[derive(Clone, Debug)]
pub struct ConfigFile {
    pub schema: Option<String>,
    pub operations: Vec<Entry>,
}

} // verus!
