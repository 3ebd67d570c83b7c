use std::cmp::Ordering;
use term_rustdoc::cache::{Cache, SortKind, Stage};
use term_rustdoc::docs::sort_caches;
use term_rustdoc::key::{Features, PkgKey, Version};
use term_rustdoc::line::{CacheID, LineState};
use term_rustdoc::record::CachedDocInfo;

fn key(name: &str, major: u64, minor: u64) -> PkgKey {
    PkgKey::new(name.to_string(), Version::new(major, minor, 0), Features::Default)
}

fn info(name: &str, major: u64, minor: u64, started: u64) -> CachedDocInfo {
    CachedDocInfo::new(key(name, major, minor), started, format!("{name}.db"))
}

fn resident(name: &str, major: u64, minor: u64, started: u64) -> Cache<String> {
    Cache::new_unloaded(info(name, major, minor, started)).load_doc(Some(format!("doc of {name}")))
}

fn persisted(name: &str, major: u64, minor: u64, started: u64) -> Cache<String> {
    Cache::new_unloaded(info(name, major, minor, started))
}

fn pending(name: &str, major: u64, minor: u64, started: u64) -> Cache<String> {
    Cache::new_being_cached(key(name, major, minor), started)
}

fn shown(v: &[Cache<String>]) -> Vec<(String, String, Stage)> {
    v.iter()
        .map(|c| (c.pkg_key().name().to_string(), c.pkg_key().ver_str(), c.stage()))
        .collect()
}

fn example() -> Vec<Cache<String>> {
    vec![resident("b", 1, 0, 10), persisted("a", 2, 0, 20), pending("a", 1, 0, 30)]
}

#[test]
fn recency_grouped_puts_stage_before_time() {
    let mut v = example();
    sort_caches(&mut v, SortKind::TimeGrouped);
    assert_eq!(
        shown(&v),
        vec![
            ("b".to_string(), "1.0.0".to_string(), Stage::Resident),
            ("a".to_string(), "2.0.0".to_string(), Stage::Persisted),
            ("a".to_string(), "1.0.0".to_string(), Stage::Pending),
        ]
    );
}

#[test]
fn identity_all_ignores_stage() {
    let mut v = example();
    sort_caches(&mut v, SortKind::PkgKeyForAll);
    assert_eq!(
        shown(&v),
        vec![
            ("a".to_string(), "1.0.0".to_string(), Stage::Pending),
            ("a".to_string(), "2.0.0".to_string(), Stage::Persisted),
            ("b".to_string(), "1.0.0".to_string(), Stage::Resident),
        ]
    );
}

#[test]
fn recency_all_puts_recent_first() {
    let mut v = example();
    sort_caches(&mut v, SortKind::TimeForAll);
    let times: Vec<u64> = v.iter().map(|c| c.started_time()).collect();
    assert_eq!(times, vec![30, 20, 10]);
}

#[test]
fn identity_grouped_orders_keys_within_stages() {
    let mut v = vec![
        pending("z", 1, 0, 1),
        persisted("b", 1, 0, 2),
        resident("y", 1, 0, 3),
        persisted("a", 1, 0, 4),
        resident("x", 1, 0, 5),
    ];
    sort_caches(&mut v, SortKind::PkgKeyGrouped);
    let names: Vec<String> = v.iter().map(|c| c.pkg_key().name().to_string()).collect();
    assert_eq!(names, vec!["x", "y", "a", "b", "z"]);
}

#[test]
fn grouped_orders_keep_stage_precedence_whatever_the_times() {
    for kind in [SortKind::TimeGrouped, SortKind::PkgKeyGrouped] {
        let mut v = vec![
            pending("a", 1, 0, 100),
            persisted("a", 2, 0, 1),
            resident("z", 9, 0, 0),
            pending("b", 1, 0, 0),
            persisted("c", 1, 0, 50),
        ];
        sort_caches(&mut v, kind);
        let ranks: Vec<u8> = v
            .iter()
            .map(|c| match c.stage() {
                Stage::Resident => 0,
                Stage::Persisted => 1,
                Stage::Pending => 2,
            })
            .collect();
        assert_eq!(ranks, vec![0, 1, 1, 2, 2]);
    }
}

#[test]
fn sorting_twice_gives_what_sorting_once_gave() {
    for kind in [
        SortKind::TimeForAll,
        SortKind::PkgKeyForAll,
        SortKind::TimeGrouped,
        SortKind::PkgKeyGrouped,
    ] {
        let mut v = vec![
            pending("a", 1, 0, 5),
            persisted("b", 1, 0, 5),
            resident("c", 1, 0, 5),
            persisted("a", 2, 0, 7),
        ];
        sort_caches(&mut v, kind);
        let once = shown(&v);
        sort_caches(&mut v, kind);
        assert_eq!(shown(&v), once);
    }
}

#[test]
fn comparators_are_total_orders() {
    let v = example();
    for kind in [
        SortKind::TimeForAll,
        SortKind::PkgKeyForAll,
        SortKind::TimeGrouped,
        SortKind::PkgKeyGrouped,
    ] {
        for a in &v {
            assert_eq!(kind.cmp_fn(a, a), Ordering::Equal);
            for b in &v {
                assert_eq!(kind.cmp_fn(b, a), kind.cmp_fn(a, b).reverse());
            }
        }
    }
    let a = &v[0];
    let b = &v[1];
    assert_eq!(a.cmp_by_time_for_all(b), Ordering::Greater);
    assert_eq!(a.cmp_by_pkg_key_for_all(b), Ordering::Greater);
    assert_eq!(a.cmp_by_time_grouped(b), Ordering::Less);
    assert_eq!(a.cmp_by_pkg_key_grouped(b), Ordering::Less);
}

#[test]
fn sort_kind_cycles_back_after_four_steps() {
    let start = SortKind::default();
    assert_eq!(start, SortKind::TimeForAll);
    assert_eq!(start.next(), SortKind::PkgKeyForAll);
    assert_eq!(start.next().next(), SortKind::TimeGrouped);
    assert_eq!(start.next().next().next(), SortKind::PkgKeyGrouped);
    assert_eq!(start.next().next().next().next(), start);
}

#[test]
fn sort_kind_labels() {
    assert_eq!(SortKind::TimeForAll.describe(), " [for all] Sort by time ");
    assert_eq!(SortKind::PkgKeyForAll.describe(), " [for all] Sort by PkgKey ");
    assert_eq!(SortKind::TimeGrouped.describe(), " [in groups] Sort by time ");
    assert_eq!(SortKind::PkgKeyGrouped.describe(), " [in groups] Sort by PkgKey ");
}

#[test]
fn load_turns_persisted_into_resident_with_same_key() {
    let c = persisted("demo", 1, 0, 7);
    assert!(c.loadable());
    let loaded = c.load_doc(Some("tree".to_string()));
    assert_eq!(loaded.stage(), Stage::Resident);
    assert_eq!(loaded.pkg_key().name(), "demo");
    assert_eq!(loaded.started_time(), 7);
    assert_eq!(loaded.doc(), Some(&"tree".to_string()));
    assert_eq!(loaded.info().map(|i| i.doc_file()), Some("demo.db"));
    assert!(!loaded.loadable());
}

#[test]
fn failed_load_keeps_the_persisted_entry() {
    let c = persisted("demo", 1, 0, 7);
    let kept = c.load_doc(None);
    assert_eq!(kept.stage(), Stage::Persisted);
    assert!(kept.loadable());
    assert_eq!(kept.pkg_key().name(), "demo");
    assert_eq!(kept.info().map(|i| i.started_time()), Some(7));
    assert!(kept.doc().is_none());
}

#[test]
fn load_leaves_pending_and_resident_entries_alone() {
    let p = pending("demo", 1, 0, 3).load_doc(Some("x".to_string()));
    assert_eq!(p.stage(), Stage::Pending);
    assert!(p.info().is_none());
    let r = resident("demo", 1, 0, 3).load_doc(Some("other".to_string()));
    assert_eq!(r.doc(), Some(&"doc of demo".to_string()));
}

#[test]
fn in_progress_only_for_pending_entry_of_that_key() {
    let p = pending("demo", 1, 0, 3);
    assert!(p.is_in_progress(&key("demo", 1, 0)));
    assert!(!p.is_in_progress(&key("demo", 1, 1)));
    assert!(!persisted("demo", 1, 0, 3).is_in_progress(&key("demo", 1, 0)));
}

#[test]
fn display_fields_per_stage() {
    assert_eq!(pending("demo", 1, 0, 3).line(), ("Cached-pending", "demo", "1.0.0".to_string()));
    assert_eq!(persisted("demo", 2, 1, 3).line(), ("Cached-on-disk", "demo", "2.1.0".to_string()));
    assert_eq!(resident("demo", 0, 3, 3).line(), ("Loaded", "demo", "0.3.0".to_string()));
}

#[test]
fn entries_are_equal_by_key_whatever_the_stage() {
    assert!(pending("demo", 1, 0, 3) == resident("demo", 1, 0, 9));
    assert!(pending("demo", 1, 0, 3) != pending("demo", 1, 1, 3));
}

#[test]
fn row_identifiers_name_positions() {
    let id = CacheID(4);
    assert_eq!(id.state(), 4);
    assert!(id.is_identical(&4));
    assert!(!id.is_identical(&3));
}
