//! The persisted metadata of a documentation artifact that was built before.
use crate::key::{KeyModel, PkgKey};
use vstd::prelude::*;

verus! {

/// A record as a value.
pub struct RecordModel {
    pub key: KeyModel,
    pub started: u64,
    pub doc_file: Seq<char>,
}

/// What the index holds of a built artifact: its key, when its build
/// started (nanoseconds since the Unix epoch), and the file that holds the
/// built documentation.
#[derive(Debug)]
pub struct CachedDocInfo {
    pkg: PkgKey,
    started: u64,
    doc_file: String,
}

impl View for CachedDocInfo {
    type V = RecordModel;

    closed spec fn view(&self) -> RecordModel {
        RecordModel { key: self.pkg@, started: self.started, doc_file: self.doc_file@ }
    }
}

impl CachedDocInfo {
    pub fn new(pkg: PkgKey, started: u64, doc_file: String) -> (r: CachedDocInfo)
        ensures
            r@ == (RecordModel { key: pkg@, started, doc_file: doc_file@ }),
    {
        CachedDocInfo { pkg, started, doc_file }
    }

    pub fn pkg(&self) -> (r: &PkgKey)
        ensures
            r@ == self@.key,
    {
        &self.pkg
    }

    pub fn started_time(&self) -> (r: u64)
        ensures
            r == self@.started,
    {
        self.started
    }

    /// Where the built documentation is stored.
    pub fn doc_file(&self) -> (r: &str)
        ensures
            r@ == self@.doc_file,
    {
        self.doc_file.as_str()
    }
}

} // verus!
