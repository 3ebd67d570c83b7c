//! The list of cached packages as it is shown: one entry per key, kept in
//! the chosen order, with a row identifier for each position.
use crate::cache::{
    lemma_grouped_precedence, lemma_sort_cmp_total, stage_rank, pending_model, resident_model, sort_cmp, Cache, SortKind, Stage,
};
use crate::database::{
    index_result, key_of_info, BuildJob, DataBase, DbError, IndexRead, PkgInfo,
};
use crate::key::{KeyModel, PkgKey};
use crate::line::CacheID;
use crate::record::{CachedDocInfo, RecordModel};
use core::cmp::Ordering;
use vstd::prelude::*;
use vstd::seq_lib::{to_multiset_insert, to_multiset_remove};

verus! {

/// No entry of `s` comes after a later one in the order `kind`.
pub open spec fn sorted_by<D>(kind: SortKind, s: Seq<Cache<D>>) -> bool {
    sorted_upto(kind, s, s.len() as int)
}

/// The first `n` entries of `s` are sorted in the order `kind`.
pub open spec fn sorted_upto<D>(kind: SortKind, s: Seq<Cache<D>>, n: int) -> bool {
    forall|i: int, j: int|
        0 <= i < j < n ==> sort_cmp(kind, #[trigger] s[i]@, #[trigger] s[j]@) != Ordering::Greater
}

/// No two entries of `s` have the same key.
pub open spec fn keys_unique<D>(s: Seq<Cache<D>>) -> bool {
    forall|i: int, j: int| 0 <= i < s.len() && 0 <= j < s.len() && i != j ==> s[i]@.key != s[j]@.key
}

/// Whether some entry of `s` has the key `key`.
pub open spec fn tracks<D>(s: Seq<Cache<D>>, key: KeyModel) -> bool {
    exists|i: int| 0 <= i < s.len() && s[i]@.key == key
}

fn comes_after<D>(kind: SortKind, a: &Cache<D>, b: &Cache<D>) -> (r: bool)
    ensures
        r == (sort_cmp(kind, a@, b@) == Ordering::Greater),
{
    match kind.cmp_fn(a, b) {
        Ordering::Greater => true,
        _ => false,
    }
}

/// Moving entry `i` of a sequence sorted up to `i` back to position `j`,
/// past the entries after which it comes, and behind one it does not come
/// after, leaves the sequence sorted up to `i + 1`.
proof fn lemma_insertion_sorted<D>(kind: SortKind, before: Seq<Cache<D>>, i: int, j: int)
    requires
        0 <= j <= i < before.len(),
        sorted_upto(kind, before, i),
        forall|m: int|
            j <= m < i ==> sort_cmp(kind, before[i]@, #[trigger] before.remove(i)[m]@)
                == Ordering::Less,
        j > 0 ==> sort_cmp(kind, before[j - 1]@, before[i]@) != Ordering::Greater,
    ensures
        sorted_upto(kind, before.remove(i).insert(j, before[i]), i + 1),
{
    let x = before[i];
    let u = before.remove(i);
    let w = u.insert(j, x);
    assert forall|p: int, q: int| 0 <= p < q < i + 1 implies sort_cmp(
        kind,
        #[trigger] w[p]@,
        #[trigger] w[q]@,
    ) != Ordering::Greater by {
        if q < j {
            assert(w[p] == before[p] && w[q] == before[q]);
        } else if q == j {
            assert(w[p] == before[p]);
            if p < j - 1 {
                assert(sort_cmp(kind, before[p]@, before[j - 1]@) != Ordering::Greater);
                lemma_sort_cmp_total(kind, before[p]@, before[j - 1]@, x@);
            }
        } else if p == j {
            assert(w[q] == u[q - 1]);
        } else if p < j {
            assert(w[p] == before[p]);
            assert(w[q] == before[q - 1]);
        } else {
            assert(w[p] == before[p - 1]);
            assert(w[q] == before[q - 1]);
        }
    }
}

/// Sorts the entries in the order `kind` by insertion, which keeps equal
/// entries as they were: a list that is already sorted stays as it is, so
/// sorting twice gives what sorting once gave.
pub fn sort_caches<D>(v: &mut Vec<Cache<D>>, kind: SortKind)
    ensures
        final(v)@.to_multiset() == old(v)@.to_multiset(),
        sorted_by(kind, final(v)@),
        sorted_by(kind, old(v)@) ==> final(v)@ == old(v)@,
{
    let n = v.len();
    let mut i: usize = 1;
    while i < n
        invariant
            n == v@.len(),
            n == old(v)@.len(),
            1 <= i,
            i <= n || n == 0,
            v@.to_multiset() == old(v)@.to_multiset(),
            sorted_upto(kind, v@, i as int),
            sorted_by(kind, old(v)@) ==> v@ == old(v)@,
        decreases n - i,
    {
        let ghost before = v@;
        let x = v.remove(i);
        proof {
            to_multiset_remove(before, i as int);
        }
        let mut j: usize = i;
        while j > 0 && comes_after(kind, &v[j - 1], &x)
            invariant
                0 <= j <= i,
                i < n,
                v@ == before.remove(i as int),
                before.len() == n,
                x == before[i as int],
                sorted_by(kind, old(v)@) ==> before == old(v)@,
                forall|m: int| j <= m < i ==> sort_cmp(kind, x@, #[trigger] v@[m]@) == Ordering::Less,
                sorted_by(kind, old(v)@) ==> j == i,
            decreases j,
        {
            proof {
                lemma_sort_cmp_total(kind, v@[j - 1]@, x@, x@);
                if sorted_by(kind, old(v)@) {
                    assert(v@[j - 1] == old(v)@[j - 1]);
                }
            }
            j = j - 1;
        }
        let ghost u = v@;
        v.insert(j, x);
        proof {
            to_multiset_insert(u, j as int, x);
            before.to_multiset_ensures();
            assert(before.remove(i as int).to_multiset().insert(x) =~= before.to_multiset());
            lemma_insertion_sorted(kind, before, i as int, j as int);
            if sorted_by(kind, old(v)@) {
                assert(v@ =~= before);
            }
        }
        i = i + 1;
    }
}

/// Reordering a list keeps its keys unique.
proof fn lemma_permutation_keys_unique<D>(a: Seq<Cache<D>>, b: Seq<Cache<D>>)
    requires
        a.to_multiset() == b.to_multiset(),
        keys_unique(a),
    ensures
        keys_unique(b),
{
    a.to_multiset_ensures();
    b.to_multiset_ensures();
    assert(a.no_duplicates());
    a.lemma_multiset_has_no_duplicates();
    b.lemma_multiset_has_no_duplicates_conv();
    assert forall|i: int, j: int|
        0 <= i < b.len() && 0 <= j < b.len() && i != j implies b[i]@.key != b[j]@.key by {
        assert(b.contains(b[i]));
        assert(b.contains(b[j]));
        assert(b.to_multiset().count(b[i]) > 0);
        assert(b.to_multiset().count(b[j]) > 0);
        assert(a.contains(b[i]));
        assert(a.contains(b[j]));
    }
}

/// `c` is the built, unloaded entry of a record of `recs` that no earlier
/// record of `recs` shares the key of.
pub open spec fn first_record_of<D>(c: Cache<D>, recs: Seq<CachedDocInfo>) -> bool {
    &&& c@.stage == Stage::Persisted
    &&& exists|m: int|
        0 <= m < recs.len() && c.record() == Some(#[trigger] recs[m]@) && forall|m2: int|
            0 <= m2 < m ==> recs[m2]@.key != recs[m]@.key
}

/// Finds the entry with the key `key`.
fn find_key<D>(v: &Vec<Cache<D>>, key: &PkgKey) -> (r: Option<usize>)
    ensures
        r is None <==> !tracks(v@, key@),
        r is Some ==> r->Some_0 < v@.len() && v@[r->Some_0 as int]@.key == key@,
{
    let mut i: usize = 0;
    while i < v.len()
        invariant
            i <= v@.len(),
            forall|m: int| 0 <= m < i ==> #[trigger] v@[m]@.key != key@,
        decreases v@.len() - i,
    {
        if v[i].pkg_key().eq(key) {
            return Some(i);
        }
        i = i + 1;
    }
    None
}

/// The row identifiers `0, 1, ..., n - 1`.
fn row_ids(n: usize) -> (r: Vec<CacheID>)
    ensures
        r@.len() == n,
        forall|i: int| 0 <= i < n ==> #[trigger] r@[i].0 == i,
{
    let mut r: Vec<CacheID> = Vec::new();
    let mut i: usize = 0;
    while i < n
        invariant
            i <= n,
            r@.len() == i,
            forall|m: int| 0 <= m < i ==> #[trigger] r@[m].0 == m,
        decreases n - i,
    {
        r.push(CacheID(i));
        i = i + 1;
    }
    r
}

/// The list of cached packages: at most one entry per key, sorted in the
/// chosen order, and one row identifier per entry, the row's position.
pub struct PkgDocs<D> {
    caches: Vec<Cache<D>>,
    indices: Vec<CacheID>,
    sort: SortKind,
}

impl<D> PkgDocs<D> {
    pub closed spec fn entries(&self) -> Seq<Cache<D>> {
        self.caches@
    }

    pub closed spec fn rows(&self) -> Seq<CacheID> {
        self.indices@
    }

    pub closed spec fn kind(&self) -> SortKind {
        self.sort
    }

    /// The list's invariant.
    pub open spec fn wf(&self) -> bool {
        &&& keys_unique(self.entries())
        &&& sorted_by(self.kind(), self.entries())
        &&& self.rows().len() == self.entries().len()
        &&& forall|i: int| 0 <= i < self.rows().len() ==> #[trigger] self.rows()[i].0 == i
    }

    /// An empty list shown in the order `sort`.
    pub fn new(sort: SortKind) -> (r: PkgDocs<D>)
        ensures
            r.wf(),
            r.entries().len() == 0,
            r.kind() == sort,
    {
        PkgDocs { caches: Vec::new(), indices: Vec::new(), sort }
    }

    /// The list of the records read from the index, none of them loaded.
    /// Of several records with one key the first is kept.
    pub fn from_records(mut records: Vec<CachedDocInfo>, sort: SortKind) -> (r: PkgDocs<D>)
        ensures
            r.wf(),
            r.kind() == sort,
            forall|i: int|
                0 <= i < r.entries().len() ==> first_record_of(#[trigger] r.entries()[i], records@),
            forall|m: int|
                0 <= m < records@.len() ==> #[trigger] tracks(r.entries(), records@[m]@.key),
    {
        let ghost recs = records@;
        let mut caches: Vec<Cache<D>> = Vec::new();
        let ghost mut k: int = 0;
        while records.len() > 0
            invariant
                k <= recs.len(),
                0 <= k,
                records@ == recs.subrange(k, recs.len() as int),
                keys_unique(caches@),
                forall|i: int| 0 <= i < caches@.len() ==> first_record_of(#[trigger] caches@[i], recs),
                forall|m: int| 0 <= m < k ==> #[trigger] tracks(caches@, recs[m]@.key),
            decreases recs.len() - k,
        {
            let ghost before = caches@;
            assert(k < recs.len());
            let info = records.remove(0);
            assert(info == recs[k]);
            if find_key(&caches, info.pkg()).is_none() {
                let c = Cache::new_unloaded(info);
                proof {
                    lemma_keys_unique_push(before, c);
                    assert forall|m2: int| 0 <= m2 < k implies recs[m2]@.key != recs[k]@.key by {
                        assert(tracks(before, recs[m2]@.key));
                    }
                    assert(first_record_of(c, recs));
                }
                caches.push(c);
                proof {
                    assert(caches@[before.len() as int] == c);
                    assert forall|q: int| 0 <= q < k + 1 implies #[trigger] tracks(
                        caches@,
                        recs[q]@.key,
                    ) by {
                        if q < k {
                            assert(tracks(before, recs[q]@.key));
                            let t = choose|t: int|
                                0 <= t < before.len() && before[t]@.key == recs[q]@.key;
                            assert(caches@[t] == before[t]);
                        } else {
                            assert(caches@[before.len() as int]@.key == recs[q]@.key);
                        }
                    }
                    assert forall|i: int| 0 <= i < caches@.len() implies first_record_of(
                        #[trigger] caches@[i],
                        recs,
                    ) by {
                        if i < before.len() {
                            assert(caches@[i] == before[i]);
                        }
                    }
                }
            } else {
                proof {
                    assert forall|q: int| 0 <= q < k + 1 implies #[trigger] tracks(
                        caches@,
                        recs[q]@.key,
                    ) by {
                        if q == k {
                        }
                    }
                }
            }
            proof {
                k = k + 1;
            }
        }
        let ghost unsorted = caches@;
        sort_caches(&mut caches, sort);
        proof {
            lemma_permutation_keys_unique(unsorted, caches@);
            unsorted.to_multiset_ensures();
            caches@.to_multiset_ensures();
            assert forall|i: int| 0 <= i < caches@.len() implies first_record_of(
                #[trigger] caches@[i],
                recs,
            ) by {
                assert(caches@.contains(caches@[i]));
                assert(caches@.to_multiset().count(caches@[i]) > 0);
                assert(unsorted.contains(caches@[i]));
            }
            assert forall|m: int| 0 <= m < recs.len() implies #[trigger] tracks(
                caches@,
                recs[m]@.key,
            ) by {
                assert(tracks(unsorted, recs[m]@.key));
                let t = choose|t: int| 0 <= t < unsorted.len() && unsorted[t]@.key == recs[m]@.key;
                assert(unsorted.contains(unsorted[t]));
                assert(unsorted.to_multiset().count(unsorted[t]) > 0);
                assert(caches@.contains(unsorted[t]));
            }
        }
        let indices = row_ids(caches.len());
        PkgDocs { caches, indices, sort }
    }
}

/// Some entry of `s` is a pending build of `key`.
pub open spec fn has_pending<D>(s: Seq<Cache<D>>, key: KeyModel) -> bool {
    exists|i: int| 0 <= i < s.len() && s[i]@.stage == Stage::Pending && #[trigger] s[i]@.key == key
}

/// Why a build of `key` is refused for a list `s`, if it is: the manager is
/// inert, or the key is pending already, or it is built already.
pub open spec fn build_refusal<D>(available: bool, s: Seq<Cache<D>>, key: KeyModel) -> Option<
    DbError,
> {
    if !available {
        Some(DbError::EnvironmentUnavailable)
    } else if has_pending(s, key) {
        Some(DbError::DuplicateInProgress)
    } else if tracks(s, key) {
        Some(DbError::AlreadyCached)
    } else {
        None
    }
}

/// The error of a result, if it is one.
pub open spec fn error_of<T>(r: Result<T, DbError>) -> Option<DbError> {
    match r {
        Ok(_) => None,
        Err(e) => Some(e),
    }
}

/// `after` holds what `before` holds and one more entry: a build of `key`
/// pending since `now`.
pub open spec fn gains_pending<D>(
    before: Seq<Cache<D>>,
    after: Seq<Cache<D>>,
    key: KeyModel,
    now: u64,
) -> bool {
    &&& after.len() == before.len() + 1
    &&& exists|c: Cache<D>|
        c@ == pending_model(key, now) && c.record() is None && #[trigger] after.to_multiset()
            == before.to_multiset().insert(c)
}

/// `after` holds what `before` holds, but for entry `row`, which is
/// replaced by its loaded form holding `doc`: same key, time and record.
pub open spec fn loads_in_place<D>(
    before: Seq<Cache<D>>,
    after: Seq<Cache<D>>,
    row: int,
    doc: Option<D>,
) -> bool {
    &&& after.len() == before.len()
    &&& exists|c: Cache<D>|
        c@ == resident_model(before[row]@) && c.record() == before[row].record() && c.loaded_doc()
            == doc && #[trigger] after.to_multiset() == before.to_multiset().remove(before[row]).insert(c)
}

/// Replacing an entry by one with the same key keeps keys unique; so does
/// adding one whose key is not tracked.
proof fn lemma_keys_unique_push<D>(s: Seq<Cache<D>>, c: Cache<D>)
    requires
        keys_unique(s),
        !tracks(s, c@.key),
    ensures
        keys_unique(s.push(c)),
{
    assert forall|i: int, j: int|
        0 <= i < s.len() + 1 && 0 <= j < s.len() + 1 && i != j implies s.push(c)[i]@.key != s.push(
        c,
    )[j]@.key by {
        if i < s.len() && j < s.len() {
        } else if i < s.len() {
            assert(s.push(c)[i] == s[i]);
        } else {
            assert(s.push(c)[j] == s[j]);
        }
    }
}

proof fn lemma_keys_unique_remove<D>(s: Seq<Cache<D>>, row: int)
    requires
        keys_unique(s),
        0 <= row < s.len(),
    ensures
        keys_unique(s.remove(row)),
        !tracks(s.remove(row), s[row]@.key),
{
    let t = s.remove(row);
    assert forall|i: int, j: int| 0 <= i < t.len() && 0 <= j < t.len() && i != j implies t[i]@.key
        != t[j]@.key by {
        let i2 = if i < row {
            i
        } else {
            i + 1
        };
        let j2 = if j < row {
            j
        } else {
            j + 1
        };
        assert(t[i] == s[i2] && t[j] == s[j2]);
    }
    if tracks(t, s[row]@.key) {
        let i = choose|i: int| 0 <= i < t.len() && t[i]@.key == s[row]@.key;
        let i2 = if i < row {
            i
        } else {
            i + 1
        };
        assert(t[i] == s[i2]);
    }
}

impl<D> PkgDocs<D> {
    /// Requests the build of `pkg_info`'s documentation and shows it at once
    /// as pending since `now`. Nothing changes when the manager is inert or
    /// the key is already in the list; otherwise the list gains exactly that
    /// entry and the builder's job is returned.
    pub fn compile_doc<S>(
        &mut self,
        db: &DataBase<S>,
        pkg_dir: String,
        pkg_info: PkgInfo,
        now: u64,
    ) -> (r: Result<BuildJob, DbError>)
        requires
            old(self).wf(),
        ensures
            final(self).wf(),
            final(self).kind() == old(self).kind(),
            error_of(r) == build_refusal(db.available(), old(self).entries(), key_of_info(&pkg_info)),
            r is Err ==> *final(self) == *old(self),
            r is Ok ==> r->Ok_0.key@ == key_of_info(&pkg_info),
            r is Ok ==> Some(r->Ok_0.out_dir@) == db.dir_spec(),
            r is Ok ==> r->Ok_0.pkg_dir@ == pkg_dir@,
            r is Ok ==> gains_pending(old(self).entries(), final(self).entries(), key_of_info(&pkg_info), now),
    {
        let ghost want = key_of_info(&pkg_info);
        let job = match db.compile_doc(pkg_dir, pkg_info) {
            Some(job) => job,
            None => {
                return Err(DbError::EnvironmentUnavailable);
            },
        };
        match find_key(&self.caches, &job.key) {
            Some(i) => {
                if self.caches[i].is_in_progress(&job.key) {
                    return Err(DbError::DuplicateInProgress);
                } else {
                    proof {
                        assert forall|t: int|
                            0 <= t < self.caches@.len() && #[trigger] self.caches@[t]@.stage
                                == Stage::Pending implies self.caches@[t]@.key != want by {
                            if t != i as int {
                                assert(self.caches@[t]@.key != self.caches@[i as int]@.key);
                            }
                        }
                    }
                    return Err(DbError::AlreadyCached);
                }
            },
            None => {},
        }
        let ghost old_entries = self.caches@;
        let c = Cache::new_being_cached(job.key.copied(), now);
        proof {
            lemma_keys_unique_push(old_entries, c);
            old_entries.to_multiset_ensures();
        }
        self.caches.push(c);
        let ghost pushed = self.caches@;
        sort_caches(&mut self.caches, self.sort);
        proof {
            lemma_permutation_keys_unique(pushed, self.caches@);
            pushed.to_multiset_ensures();
            self.caches@.to_multiset_ensures();
        }
        self.indices = row_ids(self.caches.len());
        Ok(job)
    }

    /// Takes the outcome of parsing the documentation of the entry in row
    /// `row`. When that entry is built and unloaded and parsing succeeded, it
    /// is replaced by its loaded form, with the same key, and the list is
    /// sorted again; otherwise nothing changes. Returns whether it loaded.
    pub fn load_doc(&mut self, row: usize, parsed: Option<D>) -> (r: bool)
        requires
            old(self).wf(),
            row < old(self).entries().len(),
        ensures
            final(self).wf(),
            final(self).kind() == old(self).kind(),
            r == (old(self).entries()[row as int]@.stage == Stage::Persisted && parsed is Some),
            !r ==> *final(self) == *old(self),
            r ==> loads_in_place(old(self).entries(), final(self).entries(), row as int, parsed),
    {
        if !self.caches[row].loadable() || parsed.is_none() {
            return false;
        }
        let ghost old_entries = self.caches@;
        let unloaded = self.caches.remove(row);
        let loaded = unloaded.load_doc(parsed);
        proof {
            lemma_keys_unique_remove(old_entries, row as int);
            lemma_keys_unique_push(old_entries.remove(row as int), loaded);
            old_entries.to_multiset_ensures();
            old_entries.remove(row as int).to_multiset_ensures();
        }
        self.caches.push(loaded);
        let ghost pushed = self.caches@;
        sort_caches(&mut self.caches, self.sort);
        proof {
            lemma_permutation_keys_unique(pushed, self.caches@);
            pushed.to_multiset_ensures();
            self.caches@.to_multiset_ensures();
        }
        true
    }

    /// Shows the list in the order `kind`.
    pub fn set_sort(&mut self, kind: SortKind)
        requires
            old(self).wf(),
        ensures
            final(self).wf(),
            final(self).kind() == kind,
            final(self).entries().to_multiset() == old(self).entries().to_multiset(),
            final(self).rows() == old(self).rows(),
    {
        self.sort = kind;
        let ghost before = self.caches@;
        sort_caches(&mut self.caches, kind);
        proof {
            lemma_permutation_keys_unique(before, self.caches@);
            before.to_multiset_ensures();
            self.caches@.to_multiset_ensures();
        }
    }

    /// Shows the list in the order that follows the current one.
    pub fn next_sort(&mut self)
        requires
            old(self).wf(),
        ensures
            final(self).wf(),
            final(self).kind() == crate::cache::next_kind(old(self).kind()),
            final(self).entries().to_multiset() == old(self).entries().to_multiset(),
    {
        let kind = self.sort.next();
        self.set_sort(kind);
    }

    pub fn sort_kind(&self) -> (r: SortKind)
        ensures
            r == self.kind(),
    {
        self.sort
    }

    pub fn caches(&self) -> (r: &Vec<Cache<D>>)
        ensures
            r@ == self.entries(),
    {
        &self.caches
    }

    /// The row identifiers, one per entry.
    pub fn indices(&self) -> (r: &Vec<CacheID>)
        ensures
            r@ == self.rows(),
    {
        &self.indices
    }

    pub fn len(&self) -> (r: usize)
        ensures
            r == self.entries().len(),
    {
        self.caches.len()
    }

    pub fn is_empty(&self) -> (r: bool)
        requires
            self.wf(),
        ensures
            r == (self.entries().len() == 0),
    {
        self.indices.len() == 0
    }
}

/// In a list that keeps its invariant no two entries are pending builds of
/// the same key: a build requested through `compile_doc` never doubles one.
pub proof fn lemma_no_duplicate_pending<D>(docs: &PkgDocs<D>)
    requires
        docs.wf(),
    ensures
        forall|i: int, j: int|
            0 <= i < docs.entries().len() && 0 <= j < docs.entries().len() && i != j
                && docs.entries()[i]@.stage == Stage::Pending && docs.entries()[j]@.stage
                == Stage::Pending ==> docs.entries()[i]@.key != docs.entries()[j]@.key,
{
}

/// In a list sorted by a grouped order, every resident entry stands before
/// every persisted one, and every persisted one before every pending one,
/// whatever their times and keys.
pub proof fn lemma_grouped_list_stages<D>(kind: SortKind, s: Seq<Cache<D>>)
    requires
        kind == SortKind::TimeGrouped || kind == SortKind::PkgKeyGrouped,
        sorted_by(kind, s),
    ensures
        forall|i: int, j: int|
            0 <= i < s.len() && 0 <= j < s.len() && stage_rank(s[i]@.stage) < stage_rank(
                s[j]@.stage,
            ) ==> i < j,
{
    assert forall|i: int, j: int|
        0 <= i < s.len() && 0 <= j < s.len() && stage_rank(s[i]@.stage) < stage_rank(
            s[j]@.stage,
        ) implies i < j by {
        lemma_grouped_precedence(kind, s[i]@, s[j]@);
        lemma_sort_cmp_total(kind, s[i]@, s[j]@, s[j]@);
        if j < i {
            assert(sort_cmp(kind, s[j]@, s[i]@) != Ordering::Greater);
        }
    }
}

/// The records that reading the index yields, none where it fails.
pub open spec fn read_records(has_dir: bool, read: IndexRead) -> Seq<RecordModel> {
    match index_result(has_dir, read) {
        Ok(s) => s,
        Err(_) => Seq::empty(),
    }
}

impl<D> PkgDocs<D> {
    /// The list of what reading the index gave: the records it holds, none
    /// of them loaded, or an empty list when the manager is inert or the
    /// index could not be read.
    pub fn from_index<S>(db: &DataBase<S>, read: IndexRead, sort: SortKind) -> (r: PkgDocs<D>)
        ensures
            r.wf(),
            r.kind() == sort,
            index_result(db.dir_spec() is Some, read) is Err ==> r.entries().len() == 0,
            forall|i: int|
                0 <= i < r.entries().len() ==> (#[trigger] r.entries()[i])@.stage
                    == Stage::Persisted,
            forall|i: int|
                0 <= i < r.entries().len() ==> read_records(db.dir_spec() is Some, read).contains(
                    (#[trigger] r.entries()[i]).record().unwrap(),
                ),
            forall|m: int|
                0 <= m < read_records(db.dir_spec() is Some, read).len() ==> #[trigger] tracks(
                    r.entries(),
                    read_records(db.dir_spec() is Some, read)[m].key,
                ),
    {
        let ghost recs = read_records(db.dir_spec() is Some, read);
        let res = db.all_caches(read);
        match res {
            Ok(records) => {
                let ghost rs = records@;
                assert(crate::database::record_models(rs) == recs);
                assert forall|m: int| 0 <= m < rs.len() implies recs[m] == (#[trigger] rs[m])@ by {
                    assert(crate::database::record_models(rs)[m] == rs[m]@);
                }
                let r = PkgDocs::from_records(records, sort);
                proof {
                    assert forall|i: int| 0 <= i < r.entries().len() implies recs.contains(
                        (#[trigger] r.entries()[i]).record().unwrap(),
                    ) by {
                        assert(r.entries()[i]@.stage == Stage::Persisted);
                        assert(exists|m: int|
                            0 <= m < rs.len() && r.entries()[i].record() == Some(rs[m]@));
                        let m = choose|m: int|
                            0 <= m < rs.len() && r.entries()[i].record() == Some(rs[m]@);
                        assert(recs[m] == rs[m]@);
                    }
                    assert forall|m: int| 0 <= m < recs.len() implies #[trigger] tracks(
                        r.entries(),
                        recs[m].key,
                    ) by {
                        assert(recs[m] == rs[m]@);
                        assert(tracks(r.entries(), rs[m]@.key));
                    }
                }
                r
            },
            Err(_) => PkgDocs::new(sort),
        }
    }
}

/// Some record of `recs` has the key `key`.
pub open spec fn has_record_for(recs: Seq<RecordModel>, key: KeyModel) -> bool {
    exists|m: int| 0 <= m < recs.len() && #[trigger] recs[m].key == key
}

/// `e` is a pending build whose record `recs` now holds.
pub open spec fn superseded<D>(e: Cache<D>, recs: Seq<RecordModel>) -> bool {
    e@.stage == Stage::Pending && has_record_for(recs, e@.key)
}

/// `e` stood in `before`, or is a built entry, not loaded, of a record of `recs`.
pub open spec fn kept_or_recorded<D>(e: Cache<D>, before: Seq<Cache<D>>, recs: Seq<RecordModel>) -> bool {
    before.contains(e) || (e@.stage == Stage::Persisted && e.record() is Some && recs.contains(
        e.record().unwrap(),
    ))
}

/// The loop's invariant while the records `recs[..k]` are taken in.
pub open spec fn sync_inv<D>(
    cur: Seq<Cache<D>>,
    orig: Seq<Cache<D>>,
    recs: Seq<RecordModel>,
    k: int,
) -> bool {
    &&& keys_unique(cur)
    &&& forall|m: int| 0 <= m < k ==> #[trigger] tracks(cur, recs[m].key)
    &&& forall|j: int|
        0 <= j < cur.len() && (#[trigger] cur[j])@.stage == Stage::Pending ==> !has_record_for(
            recs.take(k),
            cur[j]@.key,
        )
    &&& forall|i: int|
        0 <= i < orig.len() && !superseded(#[trigger] orig[i], recs.take(k)) ==> cur.contains(
            orig[i],
        )
    &&& forall|j: int| 0 <= j < cur.len() ==> kept_or_recorded(#[trigger] cur[j], orig, recs)
}

/// Facts on a sequence that `sync_inv` needs after one more record.
proof fn lemma_take_more(recs: Seq<RecordModel>, k: int, key: KeyModel)
    requires
        0 <= k < recs.len(),
    ensures
        has_record_for(recs.take(k + 1), key) <==> has_record_for(recs.take(k), key) || recs[k].key
            == key,
{
    if has_record_for(recs.take(k + 1), key) {
        let m = choose|m: int| 0 <= m < k + 1 && #[trigger] recs.take(k + 1)[m].key == key;
        if m < k {
            assert(recs.take(k)[m] == recs.take(k + 1)[m]);
        }
    }
    if has_record_for(recs.take(k), key) {
        let m = choose|m: int| 0 <= m < k && #[trigger] recs.take(k)[m].key == key;
        assert(recs.take(k + 1)[m] == recs.take(k)[m]);
    }
    if recs[k].key == key {
        assert(recs.take(k + 1)[k] == recs[k]);
    }
}

impl<D> PkgDocs<D> {
    /// Takes in the records that a new read of the index gave: an entry
    /// pending for a key that now has a record becomes that record, built
    /// and not loaded; a record of a key not in the list is added; other
    /// entries stay as they are.
    pub fn sync_records(&mut self, records: Vec<CachedDocInfo>)
        requires
            old(self).wf(),
        ensures
            final(self).wf(),
            final(self).kind() == old(self).kind(),
            forall|m: int|
                0 <= m < records@.len() ==> #[trigger] tracks(final(self).entries(), records@[m]@.key),
            forall|j: int|
                0 <= j < final(self).entries().len() && (#[trigger] final(self).entries()[j])@.stage
                    == Stage::Pending ==> !has_record_for(
                    crate::database::record_models(records@),
                    final(self).entries()[j]@.key,
                ),
            forall|i: int|
                0 <= i < old(self).entries().len() && !superseded(
                    #[trigger] old(self).entries()[i],
                    crate::database::record_models(records@),
                ) ==> final(self).entries().contains(old(self).entries()[i]),
            forall|j: int|
                0 <= j < final(self).entries().len() ==> kept_or_recorded(
                    #[trigger] final(self).entries()[j],
                    old(self).entries(),
                    crate::database::record_models(records@),
                ),
    {
        let ghost recs = crate::database::record_models(records@);
        let ghost all = records@;
        let ghost orig = self.caches@;
        let mut records = records;
        let ghost mut k: int = 0;
        proof {
            assert(recs.take(0) =~= Seq::<RecordModel>::empty());
            assert forall|i: int| 0 <= i < orig.len() implies self.caches@.contains(
                #[trigger] orig[i],
            ) by {}
            assert forall|j: int| 0 <= j < self.caches@.len() implies kept_or_recorded(
                #[trigger] self.caches@[j],
                orig,
                recs,
            ) by {
                assert(orig.contains(self.caches@[j]));
            }
        }
        while records.len() > 0
            invariant
                0 <= k <= recs.len(),
                recs.len() == k + records@.len(),
                forall|t: int| 0 <= t < records@.len() ==> recs[k + t] == (#[trigger] records@[t])@,
                sync_inv(self.caches@, orig, recs, k),
                self.sort == old(self).sort,
            decreases records@.len(),
        {
            let ghost cur = self.caches@;
            let ghost waiting = records@;
            let info = records.remove(0);
            proof {
                assert(recs[k] == info@);
            }
            match find_key(&self.caches, info.pkg()) {
                None => {
                    let c = Cache::new_unloaded(info);
                    proof {
                        lemma_keys_unique_push(cur, c);
                    }
                    self.caches.push(c);
                    proof {
                        let next = self.caches@;
                        assert(next[cur.len() as int] == c);
                        assert forall|m: int| 0 <= m < k + 1 implies #[trigger] tracks(
                            next,
                            recs[m].key,
                        ) by {
                            if m < k {
                                assert(tracks(cur, recs[m].key));
                                let t = choose|t: int| 0 <= t < cur.len() && cur[t]@.key == recs[m].key;
                                assert(next[t] == cur[t]);
                            } else {
                                assert(next[cur.len() as int]@.key == recs[m].key);
                            }
                        }
                        assert forall|j: int|
                            0 <= j < next.len() && (#[trigger] next[j])@.stage
                                == Stage::Pending implies !has_record_for(
                            recs.take(k + 1),
                            next[j]@.key,
                        ) by {
                            lemma_take_more(recs, k, next[j]@.key);
                            assert(next[j] == cur[j]);
                            assert(cur[j]@.key != info@.key);
                        }
                        assert forall|i: int|
                            0 <= i < orig.len() && !superseded(
                                #[trigger] orig[i],
                                recs.take(k + 1),
                            ) implies next.contains(orig[i]) by {
                            lemma_take_more(recs, k, orig[i]@.key);
                            assert(cur.contains(orig[i]));
                            let t = choose|t: int| 0 <= t < cur.len() && cur[t] == orig[i];
                            assert(next[t] == cur[t]);
                        }
                        assert forall|j: int| 0 <= j < next.len() implies kept_or_recorded(
                            #[trigger] next[j],
                            orig,
                            recs,
                        ) by {
                            if j < cur.len() {
                                assert(next[j] == cur[j]);
                            } else {
                                assert(recs[k] == c.record().unwrap());
                            }
                        }
                    }
                },
                Some(i) => {
                    if self.caches[i].is_in_progress(info.pkg()) {
                        let old_entry = self.caches.remove(i);
                        let c = Cache::new_unloaded(info);
                        proof {
                            lemma_keys_unique_remove(cur, i as int);
                            lemma_keys_unique_push(cur.remove(i as int), c);
                        }
                        self.caches.push(c);
                        proof {
                            let mid = cur.remove(i as int);
                            let next = self.caches@;
                            assert(next == mid.push(c));
                            assert(next[mid.len() as int] == c);
                            assert forall|m: int| 0 <= m < k + 1 implies #[trigger] tracks(
                                next,
                                recs[m].key,
                            ) by {
                                if m < k {
                                    assert(tracks(cur, recs[m].key));
                                    let t = choose|t: int|
                                        0 <= t < cur.len() && cur[t]@.key == recs[m].key;
                                    if t == i as int {
                                        assert(next[mid.len() as int]@.key == recs[m].key);
                                    } else if t < i {
                                        assert(next[t] == cur[t]);
                                    } else {
                                        assert(next[t - 1] == cur[t]);
                                    }
                                } else {
                                    assert(next[mid.len() as int]@.key == recs[m].key);
                                }
                            }
                            assert forall|j: int|
                                0 <= j < next.len() && (#[trigger] next[j])@.stage
                                    == Stage::Pending implies !has_record_for(
                                recs.take(k + 1),
                                next[j]@.key,
                            ) by {
                                lemma_take_more(recs, k, next[j]@.key);
                                let t = if j < i {
                                    j
                                } else {
                                    j + 1
                                };
                                assert(next[j] == cur[t]);
                                assert(cur[t]@.key != cur[i as int]@.key);
                            }
                            assert forall|q: int|
                                0 <= q < orig.len() && !superseded(
                                    #[trigger] orig[q],
                                    recs.take(k + 1),
                                ) implies next.contains(orig[q]) by {
                                lemma_take_more(recs, k, orig[q]@.key);
                                assert(cur.contains(orig[q]));
                                let t = choose|t: int| 0 <= t < cur.len() && cur[t] == orig[q];
                                if t < i {
                                    assert(next[t] == cur[t]);
                                } else if t > i {
                                    assert(next[t - 1] == cur[t]);
                                }
                            }
                            assert forall|j: int| 0 <= j < next.len() implies kept_or_recorded(
                                #[trigger] next[j],
                                orig,
                                recs,
                            ) by {
                                if j < mid.len() {
                                    let t = if j < i {
                                        j
                                    } else {
                                        j + 1
                                    };
                                    assert(next[j] == cur[t]);
                                } else {
                                    assert(recs[k] == c.record().unwrap());
                                }
                            }
                        }
                    } else {
                        proof {
                            let next = self.caches@;
                            assert forall|m: int| 0 <= m < k + 1 implies #[trigger] tracks(
                                next,
                                recs[m].key,
                            ) by {
                                if m == k {
                                    assert(next[i as int]@.key == recs[m].key);
                                }
                            }
                            assert forall|j: int|
                                0 <= j < next.len() && (#[trigger] next[j])@.stage
                                    == Stage::Pending implies !has_record_for(
                                recs.take(k + 1),
                                next[j]@.key,
                            ) by {
                                lemma_take_more(recs, k, next[j]@.key);
                                if j != i as int {
                                    assert(next[j]@.key != next[i as int]@.key);
                                }
                            }
                            assert forall|q: int|
                                0 <= q < orig.len() && !superseded(
                                    #[trigger] orig[q],
                                    recs.take(k + 1),
                                ) implies next.contains(orig[q]) by {
                                lemma_take_more(recs, k, orig[q]@.key);
                            }
                        }
                    }
                },
            }
            proof {
                k = k + 1;
                assert forall|t: int| 0 <= t < records@.len() implies recs[k + t] == (
                #[trigger] records@[t])@ by {
                    assert(records@[t] == waiting[t + 1]);
                }
            }
        }
        let ghost unsorted = self.caches@;
        sort_caches(&mut self.caches, self.sort);
        proof {
            assert(recs.take(k) =~= recs);
            lemma_permutation_keys_unique(unsorted, self.caches@);
            unsorted.to_multiset_ensures();
            self.caches@.to_multiset_ensures();
            let fin = self.caches@;
            assert forall|j: int| 0 <= j < fin.len() implies #[trigger] unsorted.contains(fin[j]) by {
                assert(fin.contains(fin[j]));
                assert(fin.to_multiset().count(fin[j]) > 0);
            }
            assert forall|m: int| 0 <= m < recs.len() implies #[trigger] tracks(fin, recs[m].key) by {
                assert(tracks(unsorted, recs[m].key));
                let t = choose|t: int| 0 <= t < unsorted.len() && unsorted[t]@.key == recs[m].key;
                assert(unsorted.contains(unsorted[t]));
                assert(unsorted.to_multiset().count(unsorted[t]) > 0);
                assert(fin.contains(unsorted[t]));
            }
            assert forall|j: int|
                0 <= j < fin.len() && (#[trigger] fin[j])@.stage == Stage::Pending implies !has_record_for(
                recs,
                fin[j]@.key,
            ) by {
                assert(unsorted.contains(fin[j]));
            }
            assert forall|i: int|
                0 <= i < orig.len() && !superseded(#[trigger] orig[i], recs) implies fin.contains(
                orig[i],
            ) by {
                assert(unsorted.contains(orig[i]));
                assert(unsorted.to_multiset().count(orig[i]) > 0);
            }
            assert forall|j: int| 0 <= j < fin.len() implies kept_or_recorded(
                #[trigger] fin[j],
                orig,
                recs,
            ) by {
                assert(unsorted.contains(fin[j]));
            }
            assert forall|m: int| 0 <= m < all.len() implies #[trigger] tracks(
                fin,
                all[m]@.key,
            ) by {
                assert(recs[m] == all[m]@);
            }
        }
        self.indices = row_ids(self.caches.len());
    }
}

} // verus!
