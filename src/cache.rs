//! A cached package's documentation through its lifecycle, and the four
//! orders in which a list of them is shown.
use crate::key::{key_cmp, lemma_key_cmp, KeyModel, PkgKey, Version};
use crate::order::{compare_u64, int_cmp, reverse_cmp, then_cmp};
use crate::record::{CachedDocInfo, RecordModel};
use core::cmp::Ordering;
use vstd::prelude::*;

verus! {

/// Where an entry stands in its lifecycle.
#[derive(Clone, Copy, Debug, PartialEq, Eq, Structural)]
pub enum Stage {
    /// Built, and parsed into memory.
    Resident,
    /// Built and recorded in the index, not parsed yet.
    Persisted,
    /// A build was requested and has not been recorded yet.
    Pending,
}

/// Position of a stage in the grouped orders: resident entries first,
/// pending ones last.
pub open spec fn stage_rank(s: Stage) -> int {
    match s {
        Stage::Resident => 0,
        Stage::Persisted => 1,
        Stage::Pending => 2,
    }
}

/// The label shown for a stage.
pub open spec fn stage_label(s: Stage) -> Seq<char> {
    match s {
        Stage::Resident => "Loaded"@,
        Stage::Persisted => "Cached-on-disk"@,
        Stage::Pending => "Cached-pending"@,
    }
}

/// What the orders read of an entry.
pub struct EntryModel {
    pub stage: Stage,
    pub key: KeyModel,
    pub started: u64,
}

/// A build of `key` pending since `started`.
pub open spec fn pending_model(key: KeyModel, started: u64) -> EntryModel {
    EntryModel { stage: Stage::Pending, key, started }
}

/// The loaded form of the entry `e`.
pub open spec fn resident_model(e: EntryModel) -> EntryModel {
    EntryModel { stage: Stage::Resident, key: e.key, started: e.started }
}

/// A parsed documentation tree together with the record it was read from.
pub struct LoadedDoc<D> {
    info: CachedDocInfo,
    doc: D,
}

/// The three states of a cached package.
pub enum CacheInner<D> {
    /// Built and loaded.
    Loaded(LoadedDoc<D>),
    /// Built, not loaded.
    Unloaded(CachedDocInfo),
    /// Sent to be built, with the time the build started.
    BeingCached(PkgKey, u64),
}

impl<D> CacheInner<D> {
    pub closed spec fn key_model(&self) -> KeyModel {
        match self {
            CacheInner::Loaded(l) => l.info@.key,
            CacheInner::Unloaded(info) => info@.key,
            CacheInner::BeingCached(k, _) => k@,
        }
    }

    fn pkg_key(&self) -> (r: &PkgKey)
        ensures
            r@ == self.key_model(),
    {
        match self {
            CacheInner::Loaded(load) => load.info.pkg(),
            CacheInner::Unloaded(unload) => unload.pkg(),
            CacheInner::BeingCached(pk, _) => pk,
        }
    }
}

/// One package's documentation in the list, with its version kept at hand
/// for comparisons.
pub struct Cache<D> {
    inner: CacheInner<D>,
    ver: Version,
}

impl<D> View for Cache<D> {
    type V = EntryModel;

    closed spec fn view(&self) -> EntryModel {
        match self.inner {
            CacheInner::Loaded(l) => EntryModel {
                stage: Stage::Resident,
                key: l.info@.key,
                started: l.info@.started,
            },
            CacheInner::Unloaded(info) => EntryModel {
                stage: Stage::Persisted,
                key: info@.key,
                started: info@.started,
            },
            CacheInner::BeingCached(k, t) => EntryModel { stage: Stage::Pending, key: k@, started: t },
        }
    }
}

/// Recent ones first, whatever their stage.
pub open spec fn time_for_all_cmp(a: EntryModel, b: EntryModel) -> Ordering {
    int_cmp(b.started as int, a.started as int)
}

/// By name, version and features, whatever their stage.
pub open spec fn key_for_all_cmp(a: EntryModel, b: EntryModel) -> Ordering {
    key_cmp(a.key, b.key)
}

/// By stage, then recent ones first.
pub open spec fn time_grouped_cmp(a: EntryModel, b: EntryModel) -> Ordering {
    then_cmp(int_cmp(stage_rank(a.stage), stage_rank(b.stage)), time_for_all_cmp(a, b))
}

/// By stage, then by name, version and features.
pub open spec fn key_grouped_cmp(a: EntryModel, b: EntryModel) -> Ordering {
    then_cmp(int_cmp(stage_rank(a.stage), stage_rank(b.stage)), key_for_all_cmp(a, b))
}

impl<D> Cache<D> {
    #[verifier::type_invariant]
    spec fn version_matches(self) -> bool {
        self.ver == self.inner.key_model().version
    }

    /// The record behind a built entry.
    pub closed spec fn record(&self) -> Option<RecordModel> {
        match self.inner {
            CacheInner::Loaded(l) => Some(l.info@),
            CacheInner::Unloaded(info) => Some(info@),
            CacheInner::BeingCached(_, _) => None,
        }
    }

    /// The parsed documentation of a loaded entry.
    pub closed spec fn loaded_doc(&self) -> Option<D> {
        match self.inner {
            CacheInner::Loaded(l) => Some(l.doc),
            _ => None,
        }
    }

    /// A package that is being built, since `started`.
    pub fn new_being_cached(pkg_key: PkgKey, started: u64) -> (r: Cache<D>)
        ensures
            r@ == (EntryModel { stage: Stage::Pending, key: pkg_key@, started }),
            r.record() is None,
    {
        Cache { ver: pkg_key.version(), inner: CacheInner::BeingCached(pkg_key, started) }
    }

    /// A package whose documentation is recorded but not loaded.
    pub fn new_unloaded(info: CachedDocInfo) -> (r: Cache<D>)
        ensures
            r@ == (EntryModel { stage: Stage::Persisted, key: info@.key, started: info@.started }),
            r.record() == Some(info@),
    {
        Cache { ver: info.pkg().version(), inner: CacheInner::Unloaded(info) }
    }

    /// Whether this entry is a build in progress for `key`.
    pub fn is_in_progress(&self, key: &PkgKey) -> (r: bool)
        ensures
            r == (self@.stage == Stage::Pending && self@.key == key@),
    {
        match &self.inner {
            CacheInner::BeingCached(pkg, _) => pkg.eq(key),
            _ => false,
        }
    }

    /// Whether this entry can be loaded: it is built and not loaded yet.
    pub fn loadable(&self) -> (r: bool)
        ensures
            r == (self@.stage == Stage::Persisted),
    {
        match &self.inner {
            CacheInner::Unloaded(_) => true,
            _ => false,
        }
    }

    /// Takes the outcome of parsing this entry's documentation file. A
    /// built, unloaded entry becomes loaded when parsing succeeded; any other
    /// entry, and any entry whose parsing failed, comes back unchanged.
    pub fn load_doc(self, parsed: Option<D>) -> (r: Cache<D>)
        ensures
            r@.key == self@.key,
            r@.started == self@.started,
            r.record() == self.record(),
            self@.stage == Stage::Persisted && parsed is Some ==> r@.stage == Stage::Resident
                && r.loaded_doc() == parsed,
            !(self@.stage == Stage::Persisted && parsed is Some) ==> r == self,
    {
        proof {
            use_type_invariant(&self);
        }
        let ver = self.ver;
        match self.inner {
            CacheInner::Unloaded(info) => match parsed {
                Some(doc) => Cache { inner: CacheInner::Loaded(LoadedDoc { info, doc }), ver },
                None => Cache { inner: CacheInner::Unloaded(info), ver },
            },
            inner => Cache { inner, ver },
        }
    }

    /// What a list shows of this entry: the stage's label, the package's
    /// name and its version.
    pub fn line(&self) -> (r: (&'static str, &str, String))
        ensures
            r.0@ == stage_label(self@.stage),
            r.1@ == self@.key.name,
            r.2@ == crate::key::version_text(self@.key.version),
    {
        let key = self.inner.pkg_key();
        (self.kind(), key.name(), key.ver_str())
    }

    fn kind(&self) -> (r: &'static str)
        ensures
            r@ == stage_label(self@.stage),
    {
        match &self.inner {
            CacheInner::Loaded(_) => "Loaded",
            CacheInner::Unloaded(_) => "Cached-on-disk",
            CacheInner::BeingCached(_, _) => "Cached-pending",
        }
    }

    pub fn stage(&self) -> (r: Stage)
        ensures
            r == self@.stage,
    {
        match &self.inner {
            CacheInner::Loaded(_) => Stage::Resident,
            CacheInner::Unloaded(_) => Stage::Persisted,
            CacheInner::BeingCached(_, _) => Stage::Pending,
        }
    }

    pub fn pkg_key(&self) -> (r: &PkgKey)
        ensures
            r@ == self@.key,
    {
        self.inner.pkg_key()
    }

    /// The record of a built entry.
    pub fn info(&self) -> (r: Option<&CachedDocInfo>)
        ensures
            r is Some <==> self.record() is Some,
            r is Some ==> Some(r->Some_0@) == self.record(),
    {
        match &self.inner {
            CacheInner::Loaded(l) => Some(&l.info),
            CacheInner::Unloaded(info) => Some(info),
            CacheInner::BeingCached(_, _) => None,
        }
    }

    /// The parsed documentation of a loaded entry.
    pub fn doc(&self) -> (r: Option<&D>)
        ensures
            r is Some <==> self.loaded_doc() is Some,
            r is Some ==> Some(*r->Some_0) == self.loaded_doc(),
    {
        match &self.inner {
            CacheInner::Loaded(l) => Some(&l.doc),
            _ => None,
        }
    }

    pub fn started_time(&self) -> (r: u64)
        ensures
            r == self@.started,
    {
        match &self.inner {
            CacheInner::Loaded(loaded) => loaded.info.started_time(),
            CacheInner::Unloaded(unloaded) => unloaded.started_time(),
            CacheInner::BeingCached(_, time) => *time,
        }
    }

    fn rank(&self) -> (r: u64)
        ensures
            r as int == stage_rank(self@.stage),
    {
        match &self.inner {
            CacheInner::Loaded(_) => 0,
            CacheInner::Unloaded(_) => 1,
            CacheInner::BeingCached(_, _) => 2,
        }
    }

    /// By name, version and features, whatever the stage.
    pub fn cmp_by_pkg_key_for_all(&self, other: &Self) -> (r: Ordering)
        ensures
            r == key_for_all_cmp(self@, other@),
    {
        proof {
            use_type_invariant(self);
            use_type_invariant(other);
        }
        let a = self.pkg_key();
        let b = other.pkg_key();
        match crate::order::compare_text(a.name(), b.name()) {
            Ordering::Equal => match self.ver.compare(&other.ver) {
                Ordering::Equal => a.features().compare(b.features()),
                ord => ord,
            },
            ord => ord,
        }
    }

    /// Recent ones first, whatever the stage.
    pub fn cmp_by_time_for_all(&self, other: &Self) -> (r: Ordering)
        ensures
            r == time_for_all_cmp(self@, other@),
    {
        compare_u64(other.started_time(), self.started_time())
    }

    /// Sort by name, version and features, in groups.
    pub fn cmp_by_pkg_key_grouped(&self, other: &Self) -> (r: Ordering)
        ensures
            r == key_grouped_cmp(self@, other@),
    {
        match compare_u64(self.rank(), other.rank()) {
            Ordering::Equal => self.cmp_by_pkg_key_for_all(other),
            ord => ord,
        }
    }

    /// Recent ones are first, in groups.
    pub fn cmp_by_time_grouped(&self, other: &Self) -> (r: Ordering)
        ensures
            r == time_grouped_cmp(self@, other@),
    {
        match compare_u64(self.rank(), other.rank()) {
            Ordering::Equal => self.cmp_by_time_for_all(other),
            ord => ord,
        }
    }
}

/// Entries are the same entry for deduplication when their keys are equal,
/// whatever their stages.
impl<D> PartialEq for Cache<D> {
    fn eq(&self, other: &Cache<D>) -> (r: bool) {
        self.pkg_key().eq(other.pkg_key())
    }
}

impl<D> vstd::std_specs::cmp::PartialEqSpecImpl for Cache<D> {
    open spec fn obeys_eq_spec() -> bool {
        true
    }

    open spec fn eq_spec(&self, other: &Cache<D>) -> bool {
        self@.key == other@.key
    }
}

/// The order in which the list of cached packages is shown.
#[derive(Clone, Copy, Debug, PartialEq, Eq, Structural)]
pub enum SortKind {
    TimeForAll,
    PkgKeyForAll,
    TimeGrouped,
    PkgKeyGrouped,
}

/// The comparison that an order makes.
#[verifier::opaque]
pub open spec fn sort_cmp(kind: SortKind, a: EntryModel, b: EntryModel) -> Ordering {
    match kind {
        SortKind::TimeForAll => time_for_all_cmp(a, b),
        SortKind::PkgKeyForAll => key_for_all_cmp(a, b),
        SortKind::TimeGrouped => time_grouped_cmp(a, b),
        SortKind::PkgKeyGrouped => key_grouped_cmp(a, b),
    }
}

/// The order that follows in the cycle.
pub open spec fn next_kind(kind: SortKind) -> SortKind {
    match kind {
        SortKind::TimeForAll => SortKind::PkgKeyForAll,
        SortKind::PkgKeyForAll => SortKind::TimeGrouped,
        SortKind::TimeGrouped => SortKind::PkgKeyGrouped,
        SortKind::PkgKeyGrouped => SortKind::TimeForAll,
    }
}

/// The label of an order.
pub open spec fn sort_label(kind: SortKind) -> Seq<char> {
    match kind {
        SortKind::TimeForAll => " [for all] Sort by time "@,
        SortKind::PkgKeyForAll => " [for all] Sort by PkgKey "@,
        SortKind::TimeGrouped => " [in groups] Sort by time "@,
        SortKind::PkgKeyGrouped => " [in groups] Sort by PkgKey "@,
    }
}

impl Default for SortKind {
    fn default() -> (r: SortKind)
        ensures
            r == SortKind::TimeForAll,
    {
        SortKind::TimeForAll
    }
}

impl SortKind {
    /// Compares two entries in this order.
    pub fn cmp_fn<D>(self, a: &Cache<D>, b: &Cache<D>) -> (r: Ordering)
        ensures
            r == sort_cmp(self, a@, b@),
    {
        reveal(sort_cmp);
        match self {
            SortKind::TimeForAll => a.cmp_by_time_for_all(b),
            SortKind::PkgKeyForAll => a.cmp_by_pkg_key_for_all(b),
            SortKind::TimeGrouped => a.cmp_by_time_grouped(b),
            SortKind::PkgKeyGrouped => a.cmp_by_pkg_key_grouped(b),
        }
    }

    pub fn next(self) -> (r: SortKind)
        ensures
            r == next_kind(self),
    {
        match self {
            SortKind::TimeForAll => SortKind::PkgKeyForAll,
            SortKind::PkgKeyForAll => SortKind::TimeGrouped,
            SortKind::TimeGrouped => SortKind::PkgKeyGrouped,
            SortKind::PkgKeyGrouped => SortKind::TimeForAll,
        }
    }

    pub fn describe(self) -> (r: &'static str)
        ensures
            r@ == sort_label(self),
    {
        match self {
            SortKind::TimeForAll => " [for all] Sort by time ",
            SortKind::PkgKeyForAll => " [for all] Sort by PkgKey ",
            SortKind::TimeGrouped => " [in groups] Sort by time ",
            SortKind::PkgKeyGrouped => " [in groups] Sort by PkgKey ",
        }
    }
}

/// Each of the four orders is total: an entry compares `Equal` to itself,
/// comparing the other way round gives the reverse, and both "not after"
/// and "strictly before" are transitive. So "strictly before" is
/// irreflexive, antisymmetric and transitive.
pub proof fn lemma_sort_cmp_total(kind: SortKind, a: EntryModel, b: EntryModel, c: EntryModel)
    ensures
        sort_cmp(kind, a, a) == Ordering::Equal,
        sort_cmp(kind, b, a) == reverse_cmp(sort_cmp(kind, a, b)),
        sort_cmp(kind, a, b) != Ordering::Greater && sort_cmp(kind, b, c) != Ordering::Greater
            ==> sort_cmp(kind, a, c) != Ordering::Greater,
        sort_cmp(kind, a, b) == Ordering::Less && sort_cmp(kind, b, c) != Ordering::Greater
            ==> sort_cmp(kind, a, c) == Ordering::Less,
        sort_cmp(kind, a, b) != Ordering::Greater && sort_cmp(kind, b, c) == Ordering::Less
            ==> sort_cmp(kind, a, c) == Ordering::Less,
        sort_cmp(kind, a, a) != Ordering::Less,
        sort_cmp(kind, a, b) == Ordering::Less ==> sort_cmp(kind, b, a) != Ordering::Less,
{
    reveal(sort_cmp);
    lemma_key_cmp(a.key, b.key, c.key);
    lemma_key_cmp(b.key, c.key, a.key);
    lemma_key_cmp(a.key, c.key, b.key);
}

/// In both grouped orders, every resident entry comes before every
/// persisted one, and every persisted entry before every pending one,
/// whatever their times and keys.
pub proof fn lemma_grouped_precedence(kind: SortKind, a: EntryModel, b: EntryModel)
    requires
        kind == SortKind::TimeGrouped || kind == SortKind::PkgKeyGrouped,
        stage_rank(a.stage) < stage_rank(b.stage),
    ensures
        sort_cmp(kind, a, b) == Ordering::Less,
{
    reveal(sort_cmp);
}

} // verus!
