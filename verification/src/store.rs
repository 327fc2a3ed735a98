//! The persistent store: the single source of truth for entity state.
//!
//! Two entity tables and the record table live here, together with the
//! atomic conditional claim operations that grant a unit of work exclusive
//! ownership of one entity.  Every claim is modelled by a spec-level
//! function of the store's view, so that the at-most-one-claim law can be
//! stated and proved of arbitrary claim sequences.

use vstd::prelude::*;
use crate::entities::{Archive, ArchiveStatus, FileEntry, EntryStatus, FileKind, MediaRecord};

verus! {

/// Returns the index of the first element satisfying `p`, if any.
pub open spec fn first_where<T>(s: Seq<T>, p: spec_fn(T) -> bool) -> Option<int>
    decreases s.len(),
{
    if s.len() == 0 {
        None
    } else if p(s[0]) {
        Some(0)
    } else {
        match first_where(s.drop_first(), p) {
            Some(i) => Some(i + 1),
            None => None,
        }
    }
}

/// How many elements of `s` satisfy `p`.
pub open spec fn count_where<T>(s: Seq<T>, p: spec_fn(T) -> bool) -> nat
    decreases s.len(),
{
    if s.len() == 0 {
        0
    } else {
        count_where(s.drop_first(), p) + (if p(s[0]) {
            1nat
        } else {
            0nat
        })
    }
}

pub proof fn lemma_first_where_props<T>(s: Seq<T>, p: spec_fn(T) -> bool)
    ensures
        match first_where(s, p) {
            Some(i) => 0 <= i < s.len() && p(s[i]) && (forall|j: int| 0 <= j < i ==> !p(s[j])),
            None => forall|j: int| 0 <= j < s.len() ==> !p(s[j]),
        },
    decreases s.len(),
{
    if s.len() != 0 && !p(s[0]) {
        let sdf = s.drop_first();
        lemma_first_where_props(sdf, p);
        match first_where(sdf, p) {
            Some(i) => {
                assert(p(s[i + 1])) by {
                    assert(sdf[i] == s[i + 1]);
                }
                assert forall|j: int| 0 <= j < i + 1 implies !p(s[j]) by {
                    if j > 0 {
                        assert(sdf[j - 1] == s[j]);
                        assert(!p(sdf[j - 1]));
                    }
                }
            },
            None => {
                assert forall|j: int| 0 <= j < s.len() implies !p(s[j]) by {
                    if j > 0 {
                        assert(sdf[j - 1] == s[j]);
                        assert(!p(sdf[j - 1]));
                    }
                }
            },
        }
    }
}

/// `first_where` is pinned down by a witness index before which nothing
/// matches.
pub proof fn lemma_first_where_is<T>(s: Seq<T>, p: spec_fn(T) -> bool, k: int)
    requires
        0 <= k < s.len(),
        p(s[k]),
        forall|j: int| 0 <= j < k ==> !p(s[j]),
    ensures
        first_where(s, p) == Some(k),
    decreases s.len(),
{
    if k > 0 {
        assert(forall|j: int| 0 <= j < s.drop_first().len() ==> s.drop_first()[j] == s[j + 1]);
        lemma_first_where_is(s.drop_first(), p, k - 1);
    }
}

/// Two element-wise equivalent searches land on the same index.
pub proof fn lemma_first_where_ext<T, U>(
    s1: Seq<T>,
    s2: Seq<U>,
    p1: spec_fn(T) -> bool,
    p2: spec_fn(U) -> bool,
)
    requires
        s1.len() == s2.len(),
        forall|j: int| 0 <= j < s1.len() ==> p1(s1[j]) == p2(s2[j]),
    ensures
        first_where(s1, p1) == first_where(s2, p2),
    decreases s1.len(),
{
    if s1.len() != 0 {
        assert(forall|j: int| 0 <= j < s1.drop_first().len() ==> s1.drop_first()[j] == s1[j + 1]);
        assert(forall|j: int| 0 <= j < s2.drop_first().len() ==> s2.drop_first()[j] == s2[j + 1]);
        lemma_first_where_ext(s1.drop_first(), s2.drop_first(), p1, p2);
    }
}

/// Counting one more element from the front.
pub proof fn lemma_count_where_push<T>(s: Seq<T>, p: spec_fn(T) -> bool, x: T)
    ensures
        count_where(s.push(x), p) == count_where(s, p) + (if p(x) {
            1nat
        } else {
            0nat
        }),
    decreases s.len(),
{
    assert(s.push(x)[0] == if s.len() == 0 {
        x
    } else {
        s[0]
    });
    if s.len() == 0 {
        assert(count_where(s, p) == 0);
        assert(s.push(x).drop_first() =~= Seq::<T>::empty());
        assert(count_where(s.push(x).drop_first(), p) == 0);
    } else {
        assert(s.push(x).drop_first() =~= s.drop_first().push(x));
        lemma_count_where_push(s.drop_first(), p, x);
        assert(count_where(s, p) == count_where(s.drop_first(), p) + (if p(s[0]) {
            1nat
        } else {
            0nat
        }));
    }
}

/// The mathematical content of a [`Store`].
#[verifier::ext_equal]
pub struct StoreView {
    pub archives: Seq<Archive>,
    pub entries: Seq<FileEntry>,
    pub records: Seq<MediaRecord>,
    pub next_archive_id: u64,
    pub next_entry_id: u64,
}

impl StoreView {
    /// Identifiers are store-assigned, unique, and below the next free
    /// one; every archive satisfies its staging-path invariant.
    pub open spec fn wf(self) -> bool {
        &&& forall|i: int|
            0 <= i < self.archives.len() ==> #[trigger] self.archives[i].id
                < self.next_archive_id
        &&& forall|i: int, j: int|
            0 <= i < j < self.archives.len() ==> #[trigger] self.archives[i].id
                != #[trigger] self.archives[j].id
        &&& forall|i: int|
            0 <= i < self.entries.len() ==> #[trigger] self.entries[i].id < self.next_entry_id
        &&& forall|i: int, j: int|
            0 <= i < j < self.entries.len() ==> #[trigger] self.entries[i].id
                != #[trigger] self.entries[j].id
        &&& forall|i: int| 0 <= i < self.archives.len() ==> (#[trigger] self.archives[i]).wf()
    }

    pub open spec fn archive_index(self, id: u64) -> Option<int> {
        first_where(self.archives, |a: Archive| a.id == id)
    }

    pub open spec fn archive_by_id(self, id: u64) -> Option<Archive> {
        match self.archive_index(id) {
            Some(i) => Some(self.archives[i]),
            None => None,
        }
    }

    pub open spec fn entry_index(self, id: u64) -> Option<int> {
        first_where(self.entries, |e: FileEntry| e.id == id)
    }

    pub open spec fn entry_by_id(self, id: u64) -> Option<FileEntry> {
        match self.entry_index(id) {
            Some(i) => Some(self.entries[i]),
            None => None,
        }
    }

    /// The same view with the archive at index `i` moved to status `st`.
    pub open spec fn with_archive_status(self, i: int, st: ArchiveStatus) -> StoreView {
        StoreView {
            archives: self.archives.update(
                i,
                (Archive { status: st, ..self.archives[i] }),
            ),
            ..self
        }
    }

    /// The same view with the entry at index `i` moved to status `st`.
    pub open spec fn with_entry_status(self, i: int, st: EntryStatus) -> StoreView {
        StoreView {
            entries: self.entries.update(
                i,
                (FileEntry { status: st, ..self.entries[i] }),
            ),
            ..self
        }
    }

    /// The same view with the entry at index `i` replaced.
    pub open spec fn with_entry(self, i: int, e: FileEntry) -> StoreView {
        StoreView { entries: self.entries.update(i, e), ..self }
    }

    /// The same view with the archive at index `i` replaced.
    pub open spec fn with_archive(self, i: int, a: Archive) -> StoreView {
        StoreView { archives: self.archives.update(i, a), ..self }
    }
}

/// The store: two entity tables, the record table, and the id counters.
pub struct Store {
    pub archives: Vec<Archive>,
    pub entries: Vec<FileEntry>,
    pub records: Vec<MediaRecord>,
    pub next_archive_id: u64,
    pub next_entry_id: u64,
}

impl View for Store {
    type V = StoreView;

    open spec fn view(&self) -> StoreView {
        StoreView {
            archives: self.archives@,
            entries: self.entries@,
            records: self.records@,
            next_archive_id: self.next_archive_id,
            next_entry_id: self.next_entry_id,
        }
    }
}

impl Store {
    pub open spec fn wf(self) -> bool {
        self@.wf()
    }

    pub fn new() -> (s: Store)
        ensures
            s.wf(),
            s@.archives =~= Seq::<Archive>::empty(),
            s@.entries =~= Seq::<FileEntry>::empty(),
            s@.records =~= Seq::<MediaRecord>::empty(),
    {
        Store {
            archives: Vec::new(),
            entries: Vec::new(),
            records: Vec::new(),
            next_archive_id: 0,
            next_entry_id: 0,
        }
    }

    /// Records one newly listed remote export, status `New`.
    pub fn insert_archive(&mut self, external_id: String, display_name: String) -> (id: u64)
        requires
            old(self).wf(),
            old(self).next_archive_id < u64::MAX,
        ensures
            final(self).wf(),
            id == old(self)@.next_archive_id,
            final(self)@.archives.len() == old(self)@.archives.len() + 1,
            final(self)@.archives.subrange(0, old(self)@.archives.len() as int) =~= old(
                self,
            )@.archives,
            final(self)@.archives.last().id == id,
            final(self)@.archives.last().external_id == external_id,
            final(self)@.archives.last().display_name == display_name,
            final(self)@.archives.last().local_staging_path@.len() == 0,
            final(self)@.archives.last().status is New,
            final(self)@.entries == old(self)@.entries,
            final(self)@.records == old(self)@.records,
            final(self)@.next_entry_id == old(self)@.next_entry_id,
            final(self)@.next_archive_id == id + 1,
    {
        let id = self.next_archive_id;
        let a = Archive {
            id,
            external_id,
            display_name,
            local_staging_path: String::new(),
            status: ArchiveStatus::New,
        };
        self.archives.push(a);
        self.next_archive_id = id + 1;
        id
    }

    /// Looks an archive up by id.
    pub fn get_archive(&self, id: u64) -> (r: Option<&Archive>)
        ensures
            match r {
                Some(a) => self@.archive_by_id(id) == Some(*a),
                None => self@.archive_by_id(id) is None,
            },
    {
        let n = self.archives.len();
        let mut k: usize = 0;
        while k < n
            invariant
                n == self.archives.len(),
                k <= n,
                forall|j: int| 0 <= j < k ==> self@.archives[j].id != id,
            decreases n - k,
        {
            if self.archives[k].id == id {
                proof {
                    lemma_first_where_is(self@.archives, |a: Archive| a.id == id, k as int);
                }
                return Some(&self.archives[k]);
            }
            k += 1;
        }
        proof {
            lemma_first_where_props(self@.archives, |a: Archive| a.id == id);
        }
        None
    }

    /// Looks a file entry up by id.
    pub fn get_entry(&self, id: u64) -> (r: Option<&FileEntry>)
        ensures
            match r {
                Some(e) => self@.entry_by_id(id) == Some(*e),
                None => self@.entry_by_id(id) is None,
            },
    {
        let n = self.entries.len();
        let mut k: usize = 0;
        while k < n
            invariant
                n == self.entries.len(),
                k <= n,
                forall|j: int| 0 <= j < k ==> self@.entries[j].id != id,
            decreases n - k,
        {
            if self.entries[k].id == id {
                proof {
                    lemma_first_where_is(self@.entries, |e: FileEntry| e.id == id, k as int);
                }
                return Some(&self.entries[k]);
            }
            k += 1;
        }
        proof {
            lemma_first_where_props(self@.entries, |e: FileEntry| e.id == id);
        }
        None
    }

    /// Looks the archive up and reports whether its extraction has
    /// completed, which is what makes its file entries claimable.
    pub fn archive_processed(&self, id: u64) -> (b: bool)
        ensures
            b == archive_is_processed(self@, id),
    {
        match self.get_archive(id) {
            Some(a) => matches!(a.status, ArchiveStatus::ProcessedZip),
            None => false,
        }
    }

    /// How many archives currently sit in the downloaded-but-unextracted
    /// state.
    pub fn count_downloaded(&self) -> (n: usize)
        ensures
            n == count_where(self@.archives, |a: Archive| a.status is Downloaded),
    {
        let len = self.archives.len();
        let mut k: usize = 0;
        let mut n: usize = 0;
        while k < len
            invariant
                len == self.archives.len(),
                k <= len,
                n <= k,
                n == count_where(
                    self@.archives.subrange(0, k as int),
                    |a: Archive| a.status is Downloaded,
                ),
            decreases len - k,
        {
            proof {
                assert(self@.archives.subrange(0, k as int + 1) =~= self@.archives.subrange(
                    0,
                    k as int,
                ).push(self@.archives[k as int]));
                lemma_count_where_push(
                    self@.archives.subrange(0, k as int),
                    |a: Archive| a.status is Downloaded,
                    self@.archives[k as int],
                );
            }
            if matches!(self.archives[k].status, ArchiveStatus::Downloaded) {
                n += 1;
            }
            k += 1;
        }
        proof {
            assert(self@.archives.subrange(0, len as int) =~= self@.archives);
        }
        n
    }
}

/// An archive awaiting download.
pub open spec fn download_eligible(a: Archive) -> bool {
    a.status is New
}

/// An archive downloaded and awaiting extraction.
pub open spec fn examine_eligible(a: Archive) -> bool {
    a.status is Downloaded
}

/// Whether the archive owning an entry has been fully extracted; until
/// then none of its entries may be claimed.
pub open spec fn archive_is_processed(v: StoreView, id: u64) -> bool {
    match v.archive_by_id(id) {
        Some(a) => a.status is ProcessedZip,
        None => false,
    }
}

/// A media entry ready for a processing attempt.
pub open spec fn media_eligible(v: StoreView, e: FileEntry) -> bool {
    &&& e.kind is Media
    &&& (e.status is Unassociated || e.status is Associated)
    &&& archive_is_processed(v, e.archive_id)
}

/// A sidecar entry ready for a processing attempt.
pub open spec fn sidecar_eligible(v: StoreView, e: FileEntry) -> bool {
    &&& e.kind is Sidecar
    &&& e.status is Unassociated
    &&& archive_is_processed(v, e.archive_id)
}

/// The optional guard on a download claim: it fails outright while the
/// number of downloaded-but-unextracted archives has reached the cap.
pub open spec fn download_cap_reached(v: StoreView, cap: Option<u64>) -> bool {
    match cap {
        Some(m) => count_where(v.archives, |a: Archive| a.status is Downloaded) >= m,
        None => false,
    }
}

/// One atomic conditional claim of an archive awaiting download:
/// unless the cap guard blocks it, the first eligible archive moves to
/// the in-flight status `Downloading` and its id is returned.
pub open spec fn spec_claim_download(v: StoreView, cap: Option<u64>) -> (StoreView, Option<
    u64,
>) {
    if download_cap_reached(v, cap) {
        (v, None)
    } else {
        match first_where(v.archives, |a: Archive| download_eligible(a)) {
            Some(i) => (
                v.with_archive_status(i, ArchiveStatus::Downloading),
                Some(v.archives[i].id),
            ),
            None => (v, None),
        }
    }
}

/// One atomic conditional claim of a downloaded archive for extraction.
pub open spec fn spec_claim_examine(v: StoreView) -> (StoreView, Option<u64>) {
    match first_where(v.archives, |a: Archive| examine_eligible(a)) {
        Some(i) => (
            v.with_archive_status(i, ArchiveStatus::ExaminingZip),
            Some(v.archives[i].id),
        ),
        None => (v, None),
    }
}

/// One atomic conditional claim of a media entry.
pub open spec fn spec_claim_media(v: StoreView) -> (StoreView, Option<u64>) {
    match first_where(v.entries, |e: FileEntry| media_eligible(v, e)) {
        Some(i) => (v.with_entry_status(i, EntryStatus::Processing), Some(v.entries[i].id)),
        None => (v, None),
    }
}

/// One atomic conditional claim of a sidecar entry.
pub open spec fn spec_claim_sidecar(v: StoreView) -> (StoreView, Option<u64>) {
    match first_where(v.entries, |e: FileEntry| sidecar_eligible(v, e)) {
        Some(i) => (v.with_entry_status(i, EntryStatus::Processing), Some(v.entries[i].id)),
        None => (v, None),
    }
}

impl Store {
    /// Claims the next archive awaiting download, moving it to
    /// `Downloading`; a no-op when the downloaded-backlog cap is reached
    /// or nothing is eligible.
    #[verifier::loop_isolation(false)]
    pub fn claim_for_download(&mut self, max_downloaded: Option<u64>) -> (r: Option<u64>)
        requires
            old(self).wf(),
        ensures
            final(self).wf(),
            final(self)@ == spec_claim_download(old(self)@, max_downloaded).0,
            r == spec_claim_download(old(self)@, max_downloaded).1,
    {
        let ghost v0 = self@;
        let ghost elig = |a: Archive| download_eligible(a);
        if let Some(m) = max_downloaded {
            let c = self.count_downloaded();
            if c as u64 >= m {
                return None;
            }
        }
        let n = self.archives.len();
        let mut k: usize = 0;
        while k < n
            invariant
                self@ == v0,
                n == self.archives.len(),
                k <= n,
                forall|j: int| 0 <= j < k ==> !elig(v0.archives[j]),
            decreases n - k,
        {
            if matches!(self.archives[k].status, ArchiveStatus::New) {
                proof {
                    lemma_first_where_is(v0.archives, elig, k as int);
                }
                let id = self.archives[k].id;
                self.archives[k].status = ArchiveStatus::Downloading;
                proof {
                    assert(self@ =~= v0.with_archive_status(k as int, ArchiveStatus::Downloading));
                    lemma_with_archive_status_wf(v0, k as int, ArchiveStatus::Downloading);
                }
                return Some(id);
            }
            k += 1;
        }
        proof {
            lemma_first_where_props(v0.archives, elig);
        }
        None
    }

    /// Claims the next downloaded archive for extraction, moving it to
    /// `ExaminingZip`.
    #[verifier::loop_isolation(false)]
    pub fn claim_for_examination(&mut self) -> (r: Option<u64>)
        requires
            old(self).wf(),
        ensures
            final(self).wf(),
            final(self)@ == spec_claim_examine(old(self)@).0,
            r == spec_claim_examine(old(self)@).1,
    {
        let ghost v0 = self@;
        let ghost elig = |a: Archive| examine_eligible(a);
        let n = self.archives.len();
        let mut k: usize = 0;
        while k < n
            invariant
                self@ == v0,
                n == self.archives.len(),
                k <= n,
                forall|j: int| 0 <= j < k ==> !elig(v0.archives[j]),
            decreases n - k,
        {
            if matches!(self.archives[k].status, ArchiveStatus::Downloaded) {
                proof {
                    lemma_first_where_is(v0.archives, elig, k as int);
                }
                let id = self.archives[k].id;
                self.archives[k].status = ArchiveStatus::ExaminingZip;
                proof {
                    assert(self@ =~= v0.with_archive_status(k as int, ArchiveStatus::ExaminingZip));
                    lemma_with_archive_status_wf(v0, k as int, ArchiveStatus::ExaminingZip);
                }
                return Some(id);
            }
            k += 1;
        }
        proof {
            lemma_first_where_props(v0.archives, elig);
        }
        None
    }

    /// Claims the next eligible media entry, moving it to `Processing`.
    #[verifier::loop_isolation(false)]
    pub fn claim_media_entry(&mut self) -> (r: Option<u64>)
        requires
            old(self).wf(),
        ensures
            final(self).wf(),
            final(self)@ == spec_claim_media(old(self)@).0,
            r == spec_claim_media(old(self)@).1,
    {
        let ghost v0 = self@;
        let ghost elig = |e: FileEntry| media_eligible(v0, e);
        let n = self.entries.len();
        let mut k: usize = 0;
        while k < n
            invariant
                self@ == v0,
                n == self.entries.len(),
                k <= n,
                forall|j: int| 0 <= j < k ==> !elig(v0.entries[j]),
            decreases n - k,
        {
            let aid = self.entries[k].archive_id;
            let kind_ok = matches!(self.entries[k].kind, FileKind::Media);
            let status_ok = matches!(
                self.entries[k].status,
                EntryStatus::Unassociated | EntryStatus::Associated,
            );
            if kind_ok && status_ok && self.archive_processed(aid) {
                proof {
                    lemma_first_where_is(v0.entries, elig, k as int);
                }
                let id = self.entries[k].id;
                self.entries[k].status = EntryStatus::Processing;
                proof {
                    assert(self@ =~= v0.with_entry_status(k as int, EntryStatus::Processing));
                    lemma_with_entry_status_wf(v0, k as int, EntryStatus::Processing);
                }
                return Some(id);
            }
            k += 1;
        }
        proof {
            lemma_first_where_props(v0.entries, elig);
        }
        None
    }

    /// Claims the next eligible sidecar entry, moving it to `Processing`.
    #[verifier::loop_isolation(false)]
    pub fn claim_sidecar_entry(&mut self) -> (r: Option<u64>)
        requires
            old(self).wf(),
        ensures
            final(self).wf(),
            final(self)@ == spec_claim_sidecar(old(self)@).0,
            r == spec_claim_sidecar(old(self)@).1,
    {
        let ghost v0 = self@;
        let ghost elig = |e: FileEntry| sidecar_eligible(v0, e);
        let n = self.entries.len();
        let mut k: usize = 0;
        while k < n
            invariant
                self@ == v0,
                n == self.entries.len(),
                k <= n,
                forall|j: int| 0 <= j < k ==> !elig(v0.entries[j]),
            decreases n - k,
        {
            let aid = self.entries[k].archive_id;
            let kind_ok = matches!(self.entries[k].kind, FileKind::Sidecar);
            let status_ok = matches!(self.entries[k].status, EntryStatus::Unassociated);
            if kind_ok && status_ok && self.archive_processed(aid) {
                proof {
                    lemma_first_where_is(v0.entries, elig, k as int);
                }
                let id = self.entries[k].id;
                self.entries[k].status = EntryStatus::Processing;
                proof {
                    assert(self@ =~= v0.with_entry_status(k as int, EntryStatus::Processing));
                    lemma_with_entry_status_wf(v0, k as int, EntryStatus::Processing);
                }
                return Some(id);
            }
            k += 1;
        }
        proof {
            lemma_first_where_props(v0.entries, elig);
        }
        None
    }
}

/// A claim can transition an archive only while it is eligible for that
/// claim's stage.
pub open spec fn download_claimable(v: StoreView, id: u64) -> bool {
    match v.archive_by_id(id) {
        Some(a) => download_eligible(a),
        None => false,
    }
}

pub open spec fn examine_claimable(v: StoreView, id: u64) -> bool {
    match v.archive_by_id(id) {
        Some(a) => examine_eligible(a),
        None => false,
    }
}

pub open spec fn media_claimable(v: StoreView, id: u64) -> bool {
    match v.entry_by_id(id) {
        Some(e) => media_eligible(v, e),
        None => false,
    }
}

pub open spec fn sidecar_claimable(v: StoreView, id: u64) -> bool {
    match v.entry_by_id(id) {
        Some(e) => sidecar_eligible(v, e),
        None => false,
    }
}

/// In a well-formed store, looking an id up lands on the one row that
/// carries it.
pub proof fn lemma_archive_lookup_at(v: StoreView, i: int)
    requires
        v.wf(),
        0 <= i < v.archives.len(),
    ensures
        v.archive_index(v.archives[i].id) == Some(i),
        v.archive_by_id(v.archives[i].id) == Some(v.archives[i]),
{
    let id = v.archives[i].id;
    let p = |a: Archive| a.id == id;
    lemma_first_where_props(v.archives, p);
    match first_where(v.archives, p) {
        Some(i0) => {
            if i0 != i {
                assert(v.archives[i0].id == v.archives[i].id);
            }
        },
        None => {
            assert(p(v.archives[i]));
        },
    }
}

pub proof fn lemma_entry_lookup_at(v: StoreView, i: int)
    requires
        v.wf(),
        0 <= i < v.entries.len(),
    ensures
        v.entry_index(v.entries[i].id) == Some(i),
        v.entry_by_id(v.entries[i].id) == Some(v.entries[i]),
{
    let id = v.entries[i].id;
    let p = |e: FileEntry| e.id == id;
    lemma_first_where_props(v.entries, p);
    match first_where(v.entries, p) {
        Some(i0) => {
            if i0 != i {
                assert(v.entries[i0].id == v.entries[i].id);
            }
        },
        None => {
            assert(p(v.entries[i]));
        },
    }
}

/// A status-only update leaves every lookup by id at the same index.
pub proof fn lemma_archive_lookup_after_status_update(
    v: StoreView,
    i: int,
    st: ArchiveStatus,
    id: u64,
)
    requires
        0 <= i < v.archives.len(),
    ensures
        v.with_archive_status(i, st).archive_index(id) == v.archive_index(id),
        v.archive_index(id) == Some(i) ==> v.with_archive_status(i, st).archive_by_id(id)
            == Some((Archive { status: st, ..v.archives[i] })),
        v.archive_index(id) != Some(i) ==> v.with_archive_status(i, st).archive_by_id(id)
            == v.archive_by_id(id),
{
    let w = v.with_archive_status(i, st);
    let p = |a: Archive| a.id == id;
    lemma_first_where_ext(v.archives, w.archives, p, p);
    lemma_first_where_props(v.archives, p);
    match v.archive_index(id) {
        Some(idx) => {
            if idx != i {
                assert(w.archives[idx] == v.archives[idx]);
            }
        },
        None => {},
    }
}

pub proof fn lemma_entry_lookup_after_status_update(
    v: StoreView,
    i: int,
    st: EntryStatus,
    id: u64,
)
    requires
        0 <= i < v.entries.len(),
    ensures
        v.with_entry_status(i, st).entry_index(id) == v.entry_index(id),
        v.entry_index(id) == Some(i) ==> v.with_entry_status(i, st).entry_by_id(id) == Some(
            (FileEntry { status: st, ..v.entries[i] }),
        ),
        v.entry_index(id) != Some(i) ==> v.with_entry_status(i, st).entry_by_id(id)
            == v.entry_by_id(id),
{
    let w = v.with_entry_status(i, st);
    let p = |e: FileEntry| e.id == id;
    lemma_first_where_ext(v.entries, w.entries, p, p);
    lemma_first_where_props(v.entries, p);
    match v.entry_index(id) {
        Some(idx) => {
            if idx != i {
                assert(w.entries[idx] == v.entries[idx]);
            }
        },
        None => {},
    }
}

/// One claim's effect on a single archive's claimability: it never
/// transitions an entity that was not eligible, and the entity it does
/// claim is left ineligible.
proof fn lemma_claim_download_step(v: StoreView, cap: Option<u64>, id: u64)
    requires
        v.wf(),
    ensures
        spec_claim_download(v, cap).0.wf(),
        !download_claimable(v, id) ==> spec_claim_download(v, cap).1 != Some(id)
            && !download_claimable(spec_claim_download(v, cap).0, id),
        spec_claim_download(v, cap).1 == Some(id) ==> !download_claimable(
            spec_claim_download(v, cap).0,
            id,
        ),
{
    if !download_cap_reached(v, cap) {
        let elig = |a: Archive| download_eligible(a);
        lemma_first_where_props(v.archives, elig);
        match first_where(v.archives, elig) {
            Some(i) => {
                let st = ArchiveStatus::Downloading;
                lemma_with_archive_status_wf(v, i, st);
                lemma_archive_lookup_at(v, i);
                lemma_archive_lookup_after_status_update(v, i, st, id);
            },
            None => {},
        }
    }
}

proof fn lemma_claim_examine_step(v: StoreView, id: u64)
    requires
        v.wf(),
    ensures
        spec_claim_examine(v).0.wf(),
        !examine_claimable(v, id) ==> spec_claim_examine(v).1 != Some(id) && !examine_claimable(
            spec_claim_examine(v).0,
            id,
        ),
        spec_claim_examine(v).1 == Some(id) ==> !examine_claimable(spec_claim_examine(v).0, id),
{
    let elig = |a: Archive| examine_eligible(a);
    lemma_first_where_props(v.archives, elig);
    match first_where(v.archives, elig) {
        Some(i) => {
            let st = ArchiveStatus::ExaminingZip;
            lemma_with_archive_status_wf(v, i, st);
            lemma_archive_lookup_at(v, i);
            lemma_archive_lookup_after_status_update(v, i, st, id);
        },
        None => {},
    }
}

proof fn lemma_claim_media_step(v: StoreView, id: u64)
    requires
        v.wf(),
    ensures
        spec_claim_media(v).0.wf(),
        !media_claimable(v, id) ==> spec_claim_media(v).1 != Some(id) && !media_claimable(
            spec_claim_media(v).0,
            id,
        ),
        spec_claim_media(v).1 == Some(id) ==> !media_claimable(spec_claim_media(v).0, id),
{
    let elig = |e: FileEntry| media_eligible(v, e);
    lemma_first_where_props(v.entries, elig);
    match first_where(v.entries, elig) {
        Some(i) => {
            let st = EntryStatus::Processing;
            let w = v.with_entry_status(i, st);
            lemma_with_entry_status_wf(v, i, st);
            lemma_entry_lookup_at(v, i);
            lemma_entry_lookup_after_status_update(v, i, st, id);
            assert(w.archives == v.archives);
        },
        None => {},
    }
}

proof fn lemma_claim_sidecar_step(v: StoreView, id: u64)
    requires
        v.wf(),
    ensures
        spec_claim_sidecar(v).0.wf(),
        !sidecar_claimable(v, id) ==> spec_claim_sidecar(v).1 != Some(id) && !sidecar_claimable(
            spec_claim_sidecar(v).0,
            id,
        ),
        spec_claim_sidecar(v).1 == Some(id) ==> !sidecar_claimable(spec_claim_sidecar(v).0, id),
{
    let elig = |e: FileEntry| sidecar_eligible(v, e);
    lemma_first_where_props(v.entries, elig);
    match first_where(v.entries, elig) {
        Some(i) => {
            let st = EntryStatus::Processing;
            let w = v.with_entry_status(i, st);
            lemma_with_entry_status_wf(v, i, st);
            lemma_entry_lookup_at(v, i);
            lemma_entry_lookup_after_status_update(v, i, st, id);
            assert(w.archives == v.archives);
        },
        None => {},
    }
}

/// The results of `n` successive claim attempts through `step`.
pub open spec fn claim_trace(
    v: StoreView,
    step: spec_fn(StoreView) -> (StoreView, Option<u64>),
    n: nat,
) -> Seq<Option<u64>>
    decreases n,
{
    if n == 0 {
        Seq::empty()
    } else {
        seq![step(v).1] + claim_trace(step(v).0, step, (n - 1) as nat)
    }
}

pub proof fn lemma_claim_trace_len(
    v: StoreView,
    step: spec_fn(StoreView) -> (StoreView, Option<u64>),
    n: nat,
)
    ensures
        claim_trace(v, step, n).len() == n,
    decreases n,
{
    if n > 0 {
        lemma_claim_trace_len(step(v).0, step, (n - 1) as nat);
    }
}

proof fn lemma_trace_no_reclaim(
    v: StoreView,
    step: spec_fn(StoreView) -> (StoreView, Option<u64>),
    claimable: spec_fn(StoreView, u64) -> bool,
    id: u64,
    n: nat,
)
    requires
        v.wf(),
        !claimable(v, id),
        forall|w: StoreView| w.wf() ==> (#[trigger] step(w)).0.wf(),
        forall|w: StoreView|
            w.wf() && !claimable(w, id) ==> (#[trigger] step(w)).1 != Some(id) && !claimable(
                step(w).0,
                id,
            ),
    ensures
        forall|k: int| 0 <= k < n ==> claim_trace(v, step, n)[k] != Some(id),
    decreases n,
{
    if n > 0 {
        let v1 = step(v).0;
        lemma_trace_no_reclaim(v1, step, claimable, id, (n - 1) as nat);
        lemma_claim_trace_len(v1, step, (n - 1) as nat);
        assert forall|k: int| 0 <= k < n implies claim_trace(v, step, n)[k] != Some(id) by {
            if k > 0 {
                assert(claim_trace(v, step, n)[k] == claim_trace(v1, step, (n - 1) as nat)[k
                    - 1]);
            }
        }
    }
}

/// At-most-one-claim: in any sequence of claim attempts through the same
/// stage predicate, at most one attempt succeeds in transitioning a given
/// entity, because a successful claim leaves the entity ineligible.
proof fn lemma_at_most_one_claim_trace(
    v: StoreView,
    step: spec_fn(StoreView) -> (StoreView, Option<u64>),
    claimable: spec_fn(StoreView, u64) -> bool,
    id: u64,
    n: nat,
    i: int,
    j: int,
)
    requires
        v.wf(),
        forall|w: StoreView| w.wf() ==> (#[trigger] step(w)).0.wf(),
        forall|w: StoreView|
            w.wf() && !claimable(w, id) ==> (#[trigger] step(w)).1 != Some(id) && !claimable(
                step(w).0,
                id,
            ),
        forall|w: StoreView|
            w.wf() && (#[trigger] step(w)).1 == Some(id) ==> !claimable(step(w).0, id),
        0 <= i < j < n,
        claim_trace(v, step, n)[i] == Some(id),
    ensures
        claim_trace(v, step, n)[j] != Some(id),
    decreases i,
{
    let v1 = step(v).0;
    lemma_claim_trace_len(v1, step, (n - 1) as nat);
    assert(claim_trace(v, step, n)[0] == step(v).1);
    if i == 0 {
        lemma_trace_no_reclaim(v1, step, claimable, id, (n - 1) as nat);
        assert(claim_trace(v, step, n)[j] == claim_trace(v1, step, (n - 1) as nat)[j - 1]);
    } else {
        assert(claim_trace(v, step, n)[i] == claim_trace(v1, step, (n - 1) as nat)[i - 1]);
        assert(claim_trace(v, step, n)[j] == claim_trace(v1, step, (n - 1) as nat)[j - 1]);
        lemma_at_most_one_claim_trace(v1, step, claimable, id, (n - 1) as nat, i - 1, j - 1);
    }
}

/// The download-claim results from `n` successive attempts.
pub open spec fn download_claim_trace(v: StoreView, cap: Option<u64>, n: nat) -> Seq<
    Option<u64>,
> {
    claim_trace(v, |w: StoreView| spec_claim_download(w, cap), n)
}

pub open spec fn examine_claim_trace(v: StoreView, n: nat) -> Seq<Option<u64>> {
    claim_trace(v, |w: StoreView| spec_claim_examine(w), n)
}

pub open spec fn media_claim_trace(v: StoreView, n: nat) -> Seq<Option<u64>> {
    claim_trace(v, |w: StoreView| spec_claim_media(w), n)
}

pub open spec fn sidecar_claim_trace(v: StoreView, n: nat) -> Seq<Option<u64>> {
    claim_trace(v, |w: StoreView| spec_claim_sidecar(w), n)
}

/// At-most-one-claim for the download stage: however many claim attempts
/// race against the same predicate, no archive is granted twice.
pub proof fn lemma_at_most_one_download_claim(
    v: StoreView,
    cap: Option<u64>,
    id: u64,
    n: nat,
    i: int,
    j: int,
)
    requires
        v.wf(),
        0 <= i < j < n,
        download_claim_trace(v, cap, n)[i] == Some(id),
    ensures
        download_claim_trace(v, cap, n)[j] != Some(id),
{
    let step = |w: StoreView| spec_claim_download(w, cap);
    assert forall|w: StoreView| w.wf() implies (#[trigger] step(w)).0.wf() by {
        lemma_claim_download_step(w, cap, id);
    }
    assert forall|w: StoreView| w.wf() && !download_claimable(w, id) implies (#[trigger] step(
        w,
    )).1 != Some(id) && !download_claimable(step(w).0, id) by {
        lemma_claim_download_step(w, cap, id);
    }
    assert forall|w: StoreView| w.wf() && (#[trigger] step(w)).1 == Some(id)
        implies !download_claimable(step(w).0, id) by {
        lemma_claim_download_step(w, cap, id);
    }
    lemma_at_most_one_claim_trace(
        v,
        step,
        |w: StoreView, e: u64| download_claimable(w, e),
        id,
        n,
        i,
        j,
    );
}

/// At-most-one-claim for the extraction stage.
pub proof fn lemma_at_most_one_examine_claim(v: StoreView, id: u64, n: nat, i: int, j: int)
    requires
        v.wf(),
        0 <= i < j < n,
        examine_claim_trace(v, n)[i] == Some(id),
    ensures
        examine_claim_trace(v, n)[j] != Some(id),
{
    let step = |w: StoreView| spec_claim_examine(w);
    assert forall|w: StoreView| w.wf() implies (#[trigger] step(w)).0.wf() by {
        lemma_claim_examine_step(w, id);
    }
    assert forall|w: StoreView| w.wf() && !examine_claimable(w, id) implies (#[trigger] step(
        w,
    )).1 != Some(id) && !examine_claimable(step(w).0, id) by {
        lemma_claim_examine_step(w, id);
    }
    assert forall|w: StoreView| w.wf() && (#[trigger] step(w)).1 == Some(id)
        implies !examine_claimable(step(w).0, id) by {
        lemma_claim_examine_step(w, id);
    }
    lemma_at_most_one_claim_trace(
        v,
        step,
        |w: StoreView, e: u64| examine_claimable(w, e),
        id,
        n,
        i,
        j,
    );
}

/// At-most-one-claim for the media-processing stage.
pub proof fn lemma_at_most_one_media_claim(v: StoreView, id: u64, n: nat, i: int, j: int)
    requires
        v.wf(),
        0 <= i < j < n,
        media_claim_trace(v, n)[i] == Some(id),
    ensures
        media_claim_trace(v, n)[j] != Some(id),
{
    let step = |w: StoreView| spec_claim_media(w);
    assert forall|w: StoreView| w.wf() implies (#[trigger] step(w)).0.wf() by {
        lemma_claim_media_step(w, id);
    }
    assert forall|w: StoreView| w.wf() && !media_claimable(w, id) implies (#[trigger] step(
        w,
    )).1 != Some(id) && !media_claimable(step(w).0, id) by {
        lemma_claim_media_step(w, id);
    }
    assert forall|w: StoreView| w.wf() && (#[trigger] step(w)).1 == Some(id)
        implies !media_claimable(step(w).0, id) by {
        lemma_claim_media_step(w, id);
    }
    lemma_at_most_one_claim_trace(
        v,
        step,
        |w: StoreView, e: u64| media_claimable(w, e),
        id,
        n,
        i,
        j,
    );
}

/// At-most-one-claim for the sidecar-processing stage.
pub proof fn lemma_at_most_one_sidecar_claim(v: StoreView, id: u64, n: nat, i: int, j: int)
    requires
        v.wf(),
        0 <= i < j < n,
        sidecar_claim_trace(v, n)[i] == Some(id),
    ensures
        sidecar_claim_trace(v, n)[j] != Some(id),
{
    let step = |w: StoreView| spec_claim_sidecar(w);
    assert forall|w: StoreView| w.wf() implies (#[trigger] step(w)).0.wf() by {
        lemma_claim_sidecar_step(w, id);
    }
    assert forall|w: StoreView| w.wf() && !sidecar_claimable(w, id) implies (#[trigger] step(
        w,
    )).1 != Some(id) && !sidecar_claimable(step(w).0, id) by {
        lemma_claim_sidecar_step(w, id);
    }
    assert forall|w: StoreView| w.wf() && (#[trigger] step(w)).1 == Some(id)
        implies !sidecar_claimable(step(w).0, id) by {
        lemma_claim_sidecar_step(w, id);
    }
    lemma_at_most_one_claim_trace(
        v,
        step,
        |w: StoreView, e: u64| sidecar_claimable(w, e),
        id,
        n,
        i,
        j,
    );
}

impl Store {
    /// The row index of an entry, by id.
    pub fn entry_index_of(&self, id: u64) -> (r: Option<usize>)
        ensures
            match r {
                Some(i) => self@.entry_index(id) == Some(i as int) && i < self@.entries.len(),
                None => self@.entry_index(id) is None,
            },
    {
        let n = self.entries.len();
        let mut k: usize = 0;
        while k < n
            invariant
                n == self.entries.len(),
                k <= n,
                forall|j: int| 0 <= j < k ==> self@.entries[j].id != id,
            decreases n - k,
        {
            if self.entries[k].id == id {
                proof {
                    lemma_first_where_is(self@.entries, |e: FileEntry| e.id == id, k as int);
                }
                return Some(k);
            }
            k += 1;
        }
        proof {
            lemma_first_where_props(self@.entries, |e: FileEntry| e.id == id);
        }
        None
    }

    /// The row index of an archive, by id.
    pub fn archive_index_of(&self, id: u64) -> (r: Option<usize>)
        ensures
            match r {
                Some(i) => self@.archive_index(id) == Some(i as int) && i
                    < self@.archives.len(),
                None => self@.archive_index(id) is None,
            },
    {
        let n = self.archives.len();
        let mut k: usize = 0;
        while k < n
            invariant
                n == self.archives.len(),
                k <= n,
                forall|j: int| 0 <= j < k ==> self@.archives[j].id != id,
            decreases n - k,
        {
            if self.archives[k].id == id {
                proof {
                    lemma_first_where_is(self@.archives, |a: Archive| a.id == id, k as int);
                }
                return Some(k);
            }
            k += 1;
        }
        proof {
            lemma_first_where_props(self@.archives, |a: Archive| a.id == id);
        }
        None
    }

    /// Full-record update of the entry row at index `i`; the id is
    /// store-assigned and cannot change.
    pub fn replace_entry_at(&mut self, i: usize, e: FileEntry)
        requires
            old(self).wf(),
            i < old(self)@.entries.len(),
            e.id == old(self)@.entries[i as int].id,
        ensures
            final(self).wf(),
            final(self)@ == old(self)@.with_entry(i as int, e),
    {
        let ghost v0 = self@;
        self.entries[i] = e;
        proof {
            assert(self@ =~= v0.with_entry(i as int, e));
            let w = v0.with_entry(i as int, e);
            assert(forall|j: int| 0 <= j < w.entries.len() ==> #[trigger] w.entries[j].id
                == v0.entries[j].id);
        }
    }

    /// Full-record update of the archive row at index `i`; the id cannot
    /// change and the staging-path invariant must be kept.
    pub fn replace_archive_at(&mut self, i: usize, a: Archive)
        requires
            old(self).wf(),
            i < old(self)@.archives.len(),
            a.id == old(self)@.archives[i as int].id,
            a.wf(),
        ensures
            final(self).wf(),
            final(self)@ == old(self)@.with_archive(i as int, a),
    {
        let ghost v0 = self@;
        self.archives[i] = a;
        proof {
            assert(self@ =~= v0.with_archive(i as int, a));
            let w = v0.with_archive(i as int, a);
            assert(forall|j: int| 0 <= j < w.archives.len() ==> #[trigger] w.archives[j].id
                == v0.archives[j].id);
        }
    }

    /// Registers one file unpacked from an archive.
    pub fn insert_entry(
        &mut self,
        archive_id: u64,
        name: String,
        path: String,
        kind: FileKind,
        status: EntryStatus,
        related_entry_id: Option<u64>,
    ) -> (id: u64)
        requires
            old(self).wf(),
            old(self).next_entry_id < u64::MAX,
        ensures
            final(self).wf(),
            id == old(self)@.next_entry_id,
            final(self)@.entries =~= old(self)@.entries.push(
                (FileEntry {
                    id: id,
                    archive_id: archive_id,
                    name: name,
                    path: path,
                    kind: kind,
                    status: status,
                    related_entry_id: related_entry_id,
                }),
            ),
            final(self)@.archives == old(self)@.archives,
            final(self)@.records == old(self)@.records,
            final(self)@.next_archive_id == old(self)@.next_archive_id,
            final(self)@.next_entry_id == id + 1,
    {
        let id = self.next_entry_id;
        let e = FileEntry { id, archive_id, name, path, kind, status, related_entry_id };
        self.entries.push(e);
        self.next_entry_id = id + 1;
        id
    }

    /// Appends one durable media record.
    pub fn add_record(&mut self, r: MediaRecord)
        requires
            old(self).wf(),
        ensures
            final(self).wf(),
            final(self)@.records =~= old(self)@.records.push(r),
            final(self)@.archives == old(self)@.archives,
            final(self)@.entries == old(self)@.entries,
            final(self)@.next_archive_id == old(self)@.next_archive_id,
            final(self)@.next_entry_id == old(self)@.next_entry_id,
    {
        self.records.push(r);
    }
}

/// The first entry of the given kind in the given archive whose pairing
/// key equals `key`.
pub open spec fn spec_find_by_key(
    v: StoreView,
    archive_id: u64,
    key: Seq<char>,
    kind: FileKind,
) -> Option<FileEntry> {
    match first_where(
        v.entries,
        |e: FileEntry| e.archive_id == archive_id && e.kind == kind && e.spec_key() == key,
    ) {
        Some(i) => Some(v.entries[i]),
        None => None,
    }
}

impl Store {
    /// The row index of the first entry of the given kind in the given
    /// archive whose stripped name equals `key`.
    #[verifier::loop_isolation(false)]
    pub fn find_index_by_key(&self, archive_id: u64, key: &str, kind: FileKind) -> (r: Option<
        usize,
    >)
        ensures
            match r {
                Some(i) => first_where(
                    self@.entries,
                    |e: FileEntry| e.archive_id == archive_id && e.kind == kind && e.spec_key()
                        == key@,
                ) == Some(i as int) && i < self@.entries.len(),
                None => first_where(
                    self@.entries,
                    |e: FileEntry| e.archive_id == archive_id && e.kind == kind && e.spec_key()
                        == key@,
                ) is None,
            },
    {
        let ghost p = |e: FileEntry| e.archive_id == archive_id && e.kind == kind
            && e.spec_key() == key@;
        let n = self.entries.len();
        let mut k: usize = 0;
        while k < n
            invariant
                n == self.entries.len(),
                k <= n,
                forall|j: int| 0 <= j < k ==> !p(self@.entries[j]),
            decreases n - k,
        {
            let kind_ok = match (&self.entries[k].kind, &kind) {
                (FileKind::Media, FileKind::Media) => true,
                (FileKind::Sidecar, FileKind::Sidecar) => true,
                _ => false,
            };
            if self.entries[k].archive_id == archive_id && kind_ok {
                let ek = crate::entities::pairing_key_of(self.entries[k].name.as_str());
                let key_string = key.to_owned();
                if ek == key_string {
                    proof {
                        lemma_first_where_is(self@.entries, p, k as int);
                    }
                    return Some(k);
                }
            }
            k += 1;
        }
        proof {
            lemma_first_where_props(self@.entries, p);
        }
        None
    }

    /// Looks up, within one archive, the entry of the given kind whose
    /// stripped name equals `key`.
    #[verifier::loop_isolation(false)]
    pub fn find_by_pairing_key(&self, archive_id: u64, key: &str, kind: FileKind) -> (r: Option<
        &FileEntry,
    >)
        ensures
            match r {
                Some(e) => spec_find_by_key(self@, archive_id, key@, kind) == Some(*e),
                None => spec_find_by_key(self@, archive_id, key@, kind) is None,
            },
    {
        let ghost p = |e: FileEntry| e.archive_id == archive_id && e.kind == kind
            && e.spec_key() == key@;
        let n = self.entries.len();
        let mut k: usize = 0;
        while k < n
            invariant
                n == self.entries.len(),
                k <= n,
                forall|j: int| 0 <= j < k ==> !p(self@.entries[j]),
            decreases n - k,
        {
            let kind_ok = match (&self.entries[k].kind, &kind) {
                (FileKind::Media, FileKind::Media) => true,
                (FileKind::Sidecar, FileKind::Sidecar) => true,
                _ => false,
            };
            if self.entries[k].archive_id == archive_id && kind_ok {
                let ek = crate::entities::pairing_key_of(self.entries[k].name.as_str());
                let key_string = key.to_owned();
                if ek == key_string {
                    proof {
                        lemma_first_where_is(self@.entries, p, k as int);
                    }
                    return Some(&self.entries[k]);
                }
            }
            k += 1;
        }
        proof {
            lemma_first_where_props(self@.entries, p);
        }
        None
    }
}

/// A status-only update of one archive keeps the table well-formed,
/// provided the updated archive's own staging invariant holds.
pub proof fn lemma_with_archive_status_wf(v: StoreView, i: int, st: ArchiveStatus)
    requires
        v.wf(),
        0 <= i < v.archives.len(),
        (Archive { status: st, ..v.archives[i] }).wf(),
    ensures
        v.with_archive_status(i, st).wf(),
{
    let w = v.with_archive_status(i, st);
    assert(forall|j: int| 0 <= j < w.archives.len() ==> #[trigger] w.archives[j].id
        == v.archives[j].id);
}

/// A status-only update of one entry keeps the table well-formed.
pub proof fn lemma_with_entry_status_wf(v: StoreView, i: int, st: EntryStatus)
    requires
        v.wf(),
        0 <= i < v.entries.len(),
    ensures
        v.with_entry_status(i, st).wf(),
{
    let w = v.with_entry_status(i, st);
    assert(forall|j: int| 0 <= j < w.entries.len() ==> #[trigger] w.entries[j].id
        == v.entries[j].id);
}

} // verus!
