//! The manager of the documentation cache: where the index lives, whether
//! builds can be requested, and what a read of the index yields.
use crate::codec::{decode_record, parse_record};
use crate::key::{Features, KeyModel, PkgKey, Version};
use crate::record::{CachedDocInfo, RecordModel};
use vstd::prelude::*;

verus! {

/// A package that can be documented: its name, version and features.
#[derive(Debug)]
pub struct PkgInfo {
    pub name: String,
    pub version: Version,
    pub features: Features,
}

/// The key of the documentation that building `info` produces.
pub open spec fn key_of_info(info: &PkgInfo) -> KeyModel {
    KeyModel { name: info.name@, version: info.version, features: info.features@ }
}

/// What the builder is handed: the key it builds, the folder it writes
/// into, and the package's source folder.
#[derive(Debug)]
pub struct BuildJob {
    pub key: PkgKey,
    pub out_dir: String,
    pub pkg_dir: String,
}

/// Why the manager could not do what was asked.
#[derive(Clone, Copy, Debug, PartialEq, Eq, Structural)]
pub enum DbError {
    /// No storage folder could be found or made: the manager is inert.
    EnvironmentUnavailable,
    /// The index file could not be opened.
    StorageOpenFailure,
    /// A build of this key is already in progress.
    DuplicateInProgress,
    /// This key is already built; it is not built again.
    AlreadyCached,
}

/// What reading the index file gave.
pub enum IndexRead {
    /// The index file could not be opened.
    OpenFailed,
    /// The file holds no table of records: no build has finished yet.
    NoTable,
    /// The stored bytes of each row, or `None` for a row that could not be read.
    Rows(Vec<Option<Vec<u8>>>),
}

/// The record a row holds, if it could be read and decoded.
pub open spec fn row_record(row: Option<Vec<u8>>) -> Option<RecordModel> {
    match row {
        Some(b) => parse_record(b@),
        None => None,
    }
}

/// The records of the rows that could be read and decoded, in row order.
pub open spec fn decoded_rows(rows: Seq<Option<Vec<u8>>>) -> Seq<RecordModel>
    decreases rows.len(),
{
    if rows.len() == 0 {
        Seq::empty()
    } else {
        let before = decoded_rows(rows.drop_last());
        match row_record(rows.last()) {
            Some(r) => before.push(r),
            None => before,
        }
    }
}

/// The records of a list, as values.
pub open spec fn record_models(v: Seq<CachedDocInfo>) -> Seq<RecordModel> {
    v.map_values(|c: CachedDocInfo| c@)
}

/// What reading all records yields for a manager with or without a storage
/// folder, given what reading the index file gave.
pub open spec fn index_result(has_dir: bool, read: IndexRead) -> Result<Seq<RecordModel>, DbError> {
    if !has_dir {
        Err(DbError::EnvironmentUnavailable)
    } else {
        match read {
            IndexRead::OpenFailed => Err(DbError::StorageOpenFailure),
            IndexRead::NoTable => Ok(Seq::empty()),
            IndexRead::Rows(rows) => Ok(decoded_rows(rows@)),
        }
    }
}

/// A result of reading records, as values.
pub open spec fn records_result(r: Result<Vec<CachedDocInfo>, DbError>) -> Result<
    Seq<RecordModel>,
    DbError,
> {
    match r {
        Ok(v) => Ok(record_models(v@)),
        Err(e) => Err(e),
    }
}

/// Decodes the rows that can be read, skipping the others.
fn decode_rows(rows: Vec<Option<Vec<u8>>>) -> (r: Vec<CachedDocInfo>)
    ensures
        record_models(r@) == decoded_rows(rows@),
{
    let mut out: Vec<CachedDocInfo> = Vec::new();
    let mut i: usize = 0;
    assert(rows@.take(0) =~= Seq::<Option<Vec<u8>>>::empty());
    assert(record_models(out@) =~= Seq::<RecordModel>::empty());
    while i < rows.len()
        invariant
            i <= rows@.len(),
            record_models(out@) == decoded_rows(rows@.take(i as int)),
        decreases rows@.len() - i,
    {
        assert(rows@.take(i + 1).drop_last() =~= rows@.take(i as int));
        assert(rows@.take(i + 1).last() == rows@[i as int]);
        match &rows[i] {
            Some(b) => match decode_record(b.as_slice()) {
                Some(info) => {
                    out.push(info);
                    assert(record_models(out@) =~= decoded_rows(rows@.take(i + 1)));
                },
                None => {},
            },
            None => {},
        }
        i = i + 1;
    }
    assert(rows@.take(rows@.len() as int) =~= rows@);
    out
}

/// The documentation cache: its storage folder and the channel on which a
/// finished build is announced. Either is missing when the environment
/// could not provide it, and the manager is then inert.
pub struct DataBase<S> {
    dir: Option<String>,
    sender: Option<S>,
}

impl<S> DataBase<S> {
    pub closed spec fn dir_spec(&self) -> Option<Seq<char>> {
        match self.dir {
            Some(d) => Some(d@),
            None => None,
        }
    }

    pub closed spec fn sender_spec(&self) -> Option<S> {
        self.sender
    }

    /// Whether builds can be requested and the index read.
    pub open spec fn available(&self) -> bool {
        self.dir_spec() is Some && self.sender_spec() is Some
    }

    /// A manager over the storage folder `dir`, which exists, announcing
    /// finished builds on `sender`.
    pub fn init(dir: String, sender: S) -> (r: DataBase<S>)
        ensures
            r.dir_spec() == Some(dir@),
            r.sender_spec() == Some(sender),
    {
        DataBase { dir: Some(dir), sender: Some(sender) }
    }

    /// A manager for an environment without a storage folder.
    pub fn inert() -> (r: DataBase<S>)
        ensures
            r.dir_spec() is None,
            r.sender_spec() is None,
    {
        DataBase { dir: None, sender: None }
    }

    pub fn dir(&self) -> (r: Option<&str>)
        ensures
            r is Some <==> self.dir_spec() is Some,
            r is Some ==> Some(r->Some_0@) == self.dir_spec(),
    {
        match &self.dir {
            Some(d) => Some(d.as_str()),
            None => None,
        }
    }

    pub fn sender(&self) -> (r: Option<&S>)
        ensures
            r is Some <==> self.sender_spec() is Some,
            r is Some ==> Some(*r->Some_0) == self.sender_spec(),
    {
        match &self.sender {
            Some(s) => Some(s),
            None => None,
        }
    }

    /// Plans the build of `pkg_info`'s documentation from the sources in
    /// `pkg_dir`: there is a plan exactly when the manager is available, and
    /// it builds the key of `pkg_info` into the storage folder.
    pub fn compile_doc(&self, pkg_dir: String, pkg_info: PkgInfo) -> (r: Option<BuildJob>)
        ensures
            r is Some <==> self.available(),
            r is Some ==> r->Some_0.key@ == key_of_info(&pkg_info) && Some(r->Some_0.out_dir@)
                == self.dir_spec() && r->Some_0.pkg_dir@ == pkg_dir@,
    {
        let parent = match &self.dir {
            Some(d) => d.clone(),
            None => {
                return None;
            },
        };
        if self.sender.is_none() {
            return None;
        }
        let key = PkgKey::new(pkg_info.name, pkg_info.version, pkg_info.features);
        Some(BuildJob { key, out_dir: parent, pkg_dir })
    }

    /// Every record that the index holds, given what reading the index file
    /// in the storage folder gave. A manager without a storage folder fails;
    /// so does a file that could not be opened. A file without a table holds
    /// no records; rows that cannot be read or decoded are skipped.
    pub fn all_caches(&self, read: IndexRead) -> (r: Result<Vec<CachedDocInfo>, DbError>)
        ensures
            records_result(r) == index_result(self.dir_spec() is Some, read),
    {
        if self.dir.is_none() {
            return Err(DbError::EnvironmentUnavailable);
        }
        match read {
            IndexRead::OpenFailed => Err(DbError::StorageOpenFailure),
            IndexRead::NoTable => {
                let v: Vec<CachedDocInfo> = Vec::new();
                assert(record_models(v@) =~= Seq::<RecordModel>::empty());
                Ok(v)
            },
            IndexRead::Rows(rows) => Ok(decode_rows(rows)),
        }
    }
}

} // verus!
