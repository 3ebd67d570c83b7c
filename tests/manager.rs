use term_rustdoc::cache::{SortKind, Stage};
use term_rustdoc::codec::{decode_record, encode_record};
use term_rustdoc::database::{DataBase, DbError, IndexRead, PkgInfo};
use term_rustdoc::docs::PkgDocs;
use term_rustdoc::key::{Features, PkgKey, Version};
use term_rustdoc::record::CachedDocInfo;

fn info(name: &str, major: u64) -> PkgInfo {
    PkgInfo { name: name.to_string(), version: Version::new(major, 0, 0), features: Features::Default }
}

fn record(name: &str, major: u64, started: u64) -> CachedDocInfo {
    let key = PkgKey::new(name.to_string(), Version::new(major, 0, 0), Features::Default);
    CachedDocInfo::new(key, started, format!("/data/{name}-{major}.db"))
}

fn available() -> DataBase<u32> {
    DataBase::init("/data".to_string(), 7)
}

#[test]
fn build_request_yields_a_pending_entry() {
    let db = available();
    let mut docs: PkgDocs<String> = PkgDocs::new(SortKind::TimeForAll);
    let job = docs.compile_doc(&db, "/src/demo".to_string(), info("demo", 1), 42).unwrap();
    assert_eq!(job.key.name(), "demo");
    assert_eq!(job.key.ver_str(), "1.0.0");
    assert!(job.key.features().compare(&Features::Default).is_eq());
    assert_eq!(job.out_dir, "/data");
    assert_eq!(job.pkg_dir, "/src/demo");
    assert_eq!(docs.len(), 1);
    let c = &docs.caches()[0];
    assert_eq!(c.stage(), Stage::Pending);
    assert_eq!(c.started_time(), 42);
    assert!(c.is_in_progress(&job.key));
    assert_eq!(docs.indices().len(), 1);
    assert_eq!(docs.indices()[0].0, 0);
}

#[test]
fn second_request_for_a_pending_key_is_refused() {
    let db = available();
    let mut docs: PkgDocs<String> = PkgDocs::new(SortKind::TimeForAll);
    assert!(docs.compile_doc(&db, "/src".to_string(), info("demo", 1), 1).is_ok());
    let again = docs.compile_doc(&db, "/src".to_string(), info("demo", 1), 2);
    assert_eq!(again.unwrap_err(), DbError::DuplicateInProgress);
    assert_eq!(docs.len(), 1);
    let pending = docs.caches().iter().filter(|c| c.stage() == Stage::Pending).count();
    assert_eq!(pending, 1);
}

#[test]
fn request_for_a_cached_key_is_refused() {
    let db = available();
    let mut docs: PkgDocs<String> = PkgDocs::from_records(vec![record("demo", 1, 5)], SortKind::TimeForAll);
    let r = docs.compile_doc(&db, "/src".to_string(), info("demo", 1), 9);
    assert_eq!(r.unwrap_err(), DbError::AlreadyCached);
    assert_eq!(docs.len(), 1);
    assert_eq!(docs.caches()[0].stage(), Stage::Persisted);
}

#[test]
fn inert_manager_builds_nothing() {
    let db: DataBase<u32> = DataBase::inert();
    assert!(db.dir().is_none());
    assert!(db.sender().is_none());
    assert!(db.compile_doc("/src".to_string(), info("demo", 1)).is_none());
    let mut docs: PkgDocs<String> = PkgDocs::new(SortKind::TimeForAll);
    let r = docs.compile_doc(&db, "/src".to_string(), info("demo", 1), 1);
    assert_eq!(r.unwrap_err(), DbError::EnvironmentUnavailable);
    assert!(docs.is_empty());
}

#[test]
fn manager_plans_builds_into_its_folder() {
    let db = available();
    assert_eq!(db.dir(), Some("/data"));
    assert_eq!(db.sender(), Some(&7));
    let job = db.compile_doc("/src/x".to_string(), info("x", 3)).unwrap();
    assert_eq!(job.out_dir, "/data");
    assert_eq!(job.key.ver_str(), "3.0.0");
}

#[test]
fn store_without_table_reads_as_no_records() {
    let db = available();
    let r = db.all_caches(IndexRead::NoTable).unwrap();
    assert!(r.is_empty());
}

#[test]
fn unopenable_store_and_inert_manager_fail() {
    let db = available();
    assert_eq!(db.all_caches(IndexRead::OpenFailed).unwrap_err(), DbError::StorageOpenFailure);
    let inert: DataBase<u32> = DataBase::inert();
    assert_eq!(inert.all_caches(IndexRead::NoTable).unwrap_err(), DbError::EnvironmentUnavailable);
}

#[test]
fn unreadable_rows_are_skipped() {
    let db = available();
    let rows = vec![
        Some(encode_record(&record("a", 1, 10))),
        None,
        Some(vec![1, 2, 3]),
        Some(encode_record(&record("b", 2, 20))),
    ];
    let r = db.all_caches(IndexRead::Rows(rows)).unwrap();
    assert_eq!(r.len(), 2);
    assert_eq!(r[0].pkg().name(), "a");
    assert_eq!(r[0].started_time(), 10);
    assert_eq!(r[1].pkg().name(), "b");
    assert_eq!(r[1].doc_file(), "/data/b-2.db");
}

#[test]
fn record_bytes_read_back() {
    let key = PkgKey::new(
        "serde".to_string(),
        Version::new(1, 0, 197),
        Features::NoDefaultPlus(vec!["derive".to_string(), "std".to_string()]),
    );
    let rec = CachedDocInfo::new(key, 1_700_000_000, "/data/serde.db".to_string());
    let bytes = encode_record(&rec);
    assert_eq!(&bytes[0..8], &5u64.to_le_bytes());
    assert_eq!(&bytes[8..13], b"serde");
    let back = decode_record(&bytes).unwrap();
    assert!(back.pkg() == rec.pkg());
    assert_eq!(back.started_time(), 1_700_000_000);
    assert_eq!(back.doc_file(), "/data/serde.db");
    let mut longer = bytes.clone();
    longer.push(0);
    assert!(decode_record(&longer).is_none());
    assert!(decode_record(&bytes[..bytes.len() - 1]).is_none());
}

#[test]
fn invalid_utf8_name_is_rejected() {
    let mut bytes = encode_record(&record("ab", 1, 1));
    bytes[8] = 0xff;
    assert!(decode_record(&bytes).is_none());
}

#[test]
fn records_become_a_sorted_list_without_duplicates() {
    let docs: PkgDocs<String> = PkgDocs::from_records(
        vec![record("b", 1, 10), record("a", 1, 30), record("b", 1, 99), record("c", 1, 20)],
        SortKind::TimeForAll,
    );
    assert_eq!(docs.len(), 3);
    let times: Vec<u64> = docs.caches().iter().map(|c| c.started_time()).collect();
    assert_eq!(times, vec![30, 20, 10]);
    let ids: Vec<usize> = docs.indices().iter().map(|i| i.0).collect();
    assert_eq!(ids, vec![0, 1, 2]);
    assert!(docs.caches().iter().all(|c| c.stage() == Stage::Persisted));
}

#[test]
fn loading_a_row_replaces_it_and_resorts() {
    let mut docs: PkgDocs<String> = PkgDocs::from_records(
        vec![record("a", 1, 10), record("b", 1, 20)],
        SortKind::TimeGrouped,
    );
    assert_eq!(docs.caches()[0].pkg_key().name(), "b");
    assert!(docs.load_doc(1, Some("tree".to_string())));
    assert_eq!(docs.caches()[0].pkg_key().name(), "a");
    assert_eq!(docs.caches()[0].stage(), Stage::Resident);
    assert_eq!(docs.caches()[1].stage(), Stage::Persisted);
    assert!(!docs.load_doc(0, Some("again".to_string())));
    assert!(!docs.load_doc(1, None));
    assert_eq!(docs.caches()[1].stage(), Stage::Persisted);
    assert_eq!(docs.len(), 2);
}

#[test]
fn changing_the_order_resorts() {
    let mut docs: PkgDocs<String> = PkgDocs::from_records(
        vec![record("a", 1, 10), record("b", 1, 20)],
        SortKind::TimeForAll,
    );
    assert_eq!(docs.caches()[0].pkg_key().name(), "b");
    docs.next_sort();
    assert_eq!(docs.sort_kind(), SortKind::PkgKeyForAll);
    assert_eq!(docs.caches()[0].pkg_key().name(), "a");
    docs.set_sort(SortKind::TimeForAll);
    assert_eq!(docs.caches()[0].pkg_key().name(), "b");
}

#[test]
fn pending_entry_becomes_persisted_when_its_record_appears() {
    let db = available();
    let mut docs: PkgDocs<String> = PkgDocs::from_records(vec![record("old", 1, 1)], SortKind::TimeGrouped);
    docs.compile_doc(&db, "/src".to_string(), info("demo", 1), 50).unwrap();
    docs.compile_doc(&db, "/src".to_string(), info("other", 1), 60).unwrap();
    assert_eq!(docs.len(), 3);
    docs.sync_records(vec![record("demo", 1, 50), record("old", 1, 1), record("new", 2, 70)]);
    assert_eq!(docs.len(), 4);
    let shown: Vec<(String, Stage)> = docs
        .caches()
        .iter()
        .map(|c| (c.pkg_key().name().to_string(), c.stage()))
        .collect();
    assert_eq!(
        shown,
        vec![
            ("new".to_string(), Stage::Persisted),
            ("demo".to_string(), Stage::Persisted),
            ("old".to_string(), Stage::Persisted),
            ("other".to_string(), Stage::Pending),
        ]
    );
    let ids: Vec<usize> = docs.indices().iter().map(|i| i.0).collect();
    assert_eq!(ids, vec![0, 1, 2, 3]);
}

#[test]
fn sync_keeps_loaded_entries() {
    let mut docs: PkgDocs<String> = PkgDocs::from_records(vec![record("a", 1, 5)], SortKind::TimeForAll);
    assert!(docs.load_doc(0, Some("tree".to_string())));
    docs.sync_records(vec![record("a", 1, 5)]);
    assert_eq!(docs.len(), 1);
    assert_eq!(docs.caches()[0].stage(), Stage::Resident);
}

#[test]
fn list_from_index_read() {
    let db = available();
    let rows = vec![Some(encode_record(&record("a", 1, 10))), Some(encode_record(&record("b", 1, 20)))];
    let docs: PkgDocs<String> = PkgDocs::from_index(&db, IndexRead::Rows(rows), SortKind::PkgKeyForAll);
    let names: Vec<String> = docs.caches().iter().map(|c| c.pkg_key().name().to_string()).collect();
    assert_eq!(names, vec!["a", "b"]);
    let empty: PkgDocs<String> = PkgDocs::from_index(&db, IndexRead::NoTable, SortKind::TimeForAll);
    assert!(empty.is_empty());
    let failed: PkgDocs<String> = PkgDocs::from_index(&db, IndexRead::OpenFailed, SortKind::TimeForAll);
    assert!(failed.is_empty());
    let inert: DataBase<u32> = DataBase::inert();
    let rows = vec![Some(encode_record(&record("a", 1, 10)))];
    let none: PkgDocs<String> = PkgDocs::from_index(&inert, IndexRead::Rows(rows), SortKind::TimeForAll);
    assert!(none.is_empty());
}
