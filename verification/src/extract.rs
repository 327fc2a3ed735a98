//! The archive extractor: registration of unpacked entries, the two-pass
//! count that gives progress reporting a stable denominator, and the
//! archive status transitions around extraction and download.

use vstd::prelude::*;
use vstd::string::StringExecFns;
use crate::entities::{
    Archive, ArchiveStatus, FileEntry, EntryStatus, spec_kind_of, spec_pairing_key, opposite,
    classify_name, pairing_key_of,
};
use crate::progress::{Progress, prog_le, prog_is_full, prog_is_zero, lemma_prog_monotone};
use crate::store::{
    Store, StoreView, first_where, count_where, lemma_count_where_push, lemma_first_where_props,
};
use vstd::string::StrSliceExecFns;

verus! {

/// What the streaming pass reports of one archive entry: its path inside
/// the archive and whether it is a regular file.
#[derive(Debug)]
pub struct EntryMeta {
    pub path: String,
    pub is_regular: bool,
}

pub open spec fn spec_count_regular(s: Seq<EntryMeta>) -> nat {
    count_where(s, |e: EntryMeta| e.is_regular)
}

/// First pass: counts the regular entries, the stable denominator of all
/// progress reports.
pub fn count_regular(entries: &Vec<EntryMeta>) -> (n: usize)
    ensures
        n == spec_count_regular(entries@),
{
    let len = entries.len();
    let mut k: usize = 0;
    let mut n: usize = 0;
    while k < len
        invariant
            len == entries.len(),
            k <= len,
            n <= k,
            n == spec_count_regular(entries@.subrange(0, k as int)),
        decreases len - k,
    {
        proof {
            assert(entries@.subrange(0, k as int + 1) =~= entries@.subrange(0, k as int).push(
                entries@[k as int],
            ));
            lemma_count_where_push(
                entries@.subrange(0, k as int),
                |e: EntryMeta| e.is_regular,
                entries@[k as int],
            );
        }
        if entries[k].is_regular {
            n += 1;
        }
        k += 1;
    }
    proof {
        assert(entries@.subrange(0, len as int) =~= entries@);
    }
    n
}

/// Where inside the last path segment the entry's file name starts: right
/// after the final separator.
pub open spec fn cut_idx(s: Seq<char>) -> int
    decreases s.len(),
{
    if s.len() == 0 {
        0
    } else if s[s.len() - 1] == '/' {
        s.len() as int
    } else {
        cut_idx(s.drop_last())
    }
}

/// The file-name component of a path: everything after the last
/// separator.
pub open spec fn spec_file_name(s: Seq<char>) -> Seq<char> {
    s.subrange(cut_idx(s), s.len() as int)
}

pub proof fn lemma_cut_idx_bounds(s: Seq<char>)
    ensures
        0 <= cut_idx(s) <= s.len(),
    decreases s.len(),
{
    if s.len() > 0 && s[s.len() - 1] != '/' {
        lemma_cut_idx_bounds(s.drop_last());
    }
}

/// The cut point is pinned by a witness: no separator at or after it, a
/// separator (or the start) right before it.
pub proof fn lemma_cut_idx_is(s: Seq<char>, k: int)
    requires
        0 <= k <= s.len(),
        forall|j: int| k <= j < s.len() ==> s[j] != '/',
        k > 0 ==> s[k - 1] == '/',
    ensures
        cut_idx(s) == k,
    decreases s.len(),
{
    if s.len() == 0 {
    } else if s[s.len() - 1] == '/' {
        assert(k == s.len());
    } else {
        let t = s.drop_last();
        assert(forall|j: int| k <= j < t.len() ==> t[j] == s[j]);
        if k > 0 {
            assert(t[k - 1] == s[k - 1]);
        }
        lemma_cut_idx_is(t, k);
    }
}

/// Computes the file-name component of a path.
pub fn file_name_of(path: &str) -> (r: String)
    ensures
        r@ == spec_file_name(path@),
{
    let n = path.unicode_len();
    let mut i: usize = n;
    while i > 0
        invariant_except_break
            n == path@.len(),
            i <= n,
            forall|j: int| i <= j < n ==> path@[j] != '/',
        ensures
            n == path@.len(),
            i <= n,
            forall|j: int| i <= j < n ==> path@[j] != '/',
            i > 0 ==> path@[i - 1] == '/',
        decreases i,
    {
        if path.get_char(i - 1) == '/' {
            break ;
        }
        i -= 1;
    }
    proof {
        lemma_cut_idx_is(path@, i as int);
    }
    let stem = path.substring_char(i, n);
    stem.to_owned()
}

/// The directory part of a path: everything up to and including the last
/// separator.
pub open spec fn spec_dir_of(s: Seq<char>) -> Seq<char> {
    s.subrange(0, cut_idx(s))
}

/// Computes the directory part of a path.
pub fn dir_of(path: &str) -> (r: String)
    ensures
        r@ == spec_dir_of(path@),
{
    let n = path.unicode_len();
    let mut i: usize = n;
    while i > 0
        invariant_except_break
            n == path@.len(),
            i <= n,
            forall|j: int| i <= j < n ==> path@[j] != '/',
        ensures
            n == path@.len(),
            i <= n,
            forall|j: int| i <= j < n ==> path@[j] != '/',
            i > 0 ==> path@[i - 1] == '/',
        decreases i,
    {
        if path.get_char(i - 1) == '/' {
            break ;
        }
        i -= 1;
    }
    proof {
        lemma_cut_idx_is(path@, i as int);
    }
    let stem = path.substring_char(0, i);
    stem.to_owned()
}

/// Joins the staging root and an entry's archive-relative path.
pub fn join_path(root: &str, rel: &str) -> (r: String)
    ensures
        r@ == root@ + "/"@ + rel@,
{
    root.to_owned().concat("/").concat(rel)
}

/// The counterpart an entry registered under this name would pair with.
pub open spec fn register_pred(archive_id: u64, name: Seq<char>) -> spec_fn(FileEntry) -> bool {
    |e: FileEntry|
        e.archive_id == archive_id && e.kind == opposite(spec_kind_of(name)) && e.spec_key()
            == spec_pairing_key(name)
}

/// Registers one regular entry unpacked to `path`: one new row whose kind
/// is derived from the name, already associated in both directions when
/// its counterpart is present, else unassociated.
pub fn register_entry(store: &mut Store, archive_id: u64, path: &str) -> (id: u64)
    requires
        old(store).wf(),
        old(store)@.next_entry_id < u64::MAX,
    ensures
        final(store).wf(),
        id == old(store)@.next_entry_id,
        final(store)@.next_entry_id == id + 1,
        final(store)@.archives == old(store)@.archives,
        final(store)@.records == old(store)@.records,
        final(store)@.next_archive_id == old(store)@.next_archive_id,
        final(store)@.entries.len() == old(store)@.entries.len() + 1,
        ({
            let nr = final(store)@.entries.last();
            let name = spec_file_name(path@);
            &&& nr.id == id
            &&& nr.archive_id == archive_id
            &&& nr.name@ == name
            &&& nr.path@ == path@
            &&& nr.kind == spec_kind_of(name)
            &&& match first_where(old(store)@.entries, register_pred(archive_id, name)) {
                Some(ci) => nr.status is Associated && nr.related_entry_id == Some(
                    old(store)@.entries[ci].id,
                ) && final(store)@.entries.subrange(
                    0,
                    old(store)@.entries.len() as int,
                ) =~= old(store)@.entries.update(
                    ci,
                    (FileEntry {
                        related_entry_id: Some(id),
                        status: EntryStatus::Associated,
                        ..old(store)@.entries[ci]
                    }),
                ),
                None => nr.status is Unassociated && nr.related_entry_id is None
                    && final(store)@.entries.subrange(0, old(store)@.entries.len() as int)
                    =~= old(store)@.entries,
            }
        }),
{
    let ghost v0 = store@;
    let name = file_name_of(path);
    let kind = classify_name(name.as_str());
    let key = pairing_key_of(name.as_str());
    let opp = crate::associate::opposite_of(kind);
    let counterpart = store.find_index_by_key(archive_id, key.as_str(), opp);
    let ghost pred = register_pred(archive_id, spec_file_name(path@));
    proof {
        let looked = |e: FileEntry| e.archive_id == archive_id && e.kind == opp && e.spec_key()
            == key@;
        crate::store::lemma_first_where_ext(v0.entries, v0.entries, looked, pred);
    }
    match counterpart {
        Some(ci) => {
            proof {
                lemma_first_where_props(v0.entries, pred);
            }
            let cid = store.entries[ci].id;
            let id = store.insert_entry(
                archive_id,
                name,
                path.to_owned(),
                kind,
                EntryStatus::Associated,
                Some(cid),
            );
            let mut c = store.entries[ci].duplicate();
            c.related_entry_id = Some(id);
            c.status = EntryStatus::Associated;
            store.replace_entry_at(ci, c);
            proof {
                assert(store@.entries.subrange(0, v0.entries.len() as int) =~= v0.entries.update(
                    ci as int,
                    (FileEntry {
                        related_entry_id: Some(id),
                        status: EntryStatus::Associated,
                        ..v0.entries[ci as int]
                    }),
                ));
            }
            id
        },
        None => {
            let id = store.insert_entry(
                archive_id,
                name,
                path.to_owned(),
                kind,
                EntryStatus::Unassociated,
                None,
            );
            proof {
                assert(store@.entries.subrange(0, v0.entries.len() as int) =~= v0.entries);
            }
            id
        },
    }
}

/// The regular entries of a listing, in iteration order.
pub open spec fn regulars(s: Seq<EntryMeta>) -> Seq<EntryMeta>
    decreases s.len(),
{
    if s.len() == 0 {
        Seq::empty()
    } else if s.last().is_regular {
        regulars(s.drop_last()).push(s.last())
    } else {
        regulars(s.drop_last())
    }
}

pub proof fn lemma_regulars_len(s: Seq<EntryMeta>)
    ensures
        regulars(s).len() == spec_count_regular(s),
    decreases s.len(),
{
    if s.len() > 0 {
        let t = s.drop_last();
        lemma_regulars_len(t);
        lemma_count_where_push(t, |e: EntryMeta| e.is_regular, s.last());
        assert(t.push(s.last()) =~= s);
    }
}

/// The row a regular entry is registered as: its identity, owner, kind
/// and unpacked location, everything a later association pass may not
/// change.
pub open spec fn registered_row(
    row: FileEntry,
    em: EntryMeta,
    staging_root: Seq<char>,
    archive_id: u64,
    id: int,
) -> bool {
    let full = staging_root + "/"@ + em.path@;
    &&& row.id == id
    &&& row.archive_id == archive_id
    &&& row.path@ == full
    &&& row.name@ == spec_file_name(full)
    &&& row.kind == spec_kind_of(spec_file_name(full))
}

/// Second pass: registers every regular entry of an archive, in
/// iteration order, under the staging root, emitting one progress report
/// per entry.  Extracting an archive with `total` regular entries yields
/// exactly `total` new file-entry rows; the progress reports never
/// decrease and the last one is exactly one, or exactly zero when there
/// was nothing to extract.
#[verifier::loop_isolation(false)]
pub fn extract_archive(
    store: &mut Store,
    archive_id: u64,
    staging_root: &str,
    entries: &Vec<EntryMeta>,
) -> (reports: Vec<Progress>)
    requires
        old(store).wf(),
        old(store)@.next_entry_id + entries@.len() <= u64::MAX,
    ensures
        final(store).wf(),
        final(store)@.entries.len() == old(store)@.entries.len() + spec_count_regular(entries@),
        final(store)@.archives == old(store)@.archives,
        final(store)@.records == old(store)@.records,
        forall|i: int, j: int|
            0 <= i <= j < reports@.len() ==> prog_le(reports@[i], reports@[j]),
        forall|i: int|
            0 <= i < reports@.len() ==> (#[trigger] reports@[i]).total == spec_count_regular(
                entries@,
            ),
        reports@.len() > 0,
        spec_count_regular(entries@) > 0 ==> reports@.len() == spec_count_regular(entries@)
            && prog_is_full(reports@.last()),
        spec_count_regular(entries@) == 0 ==> reports@.len() == 1 && prog_is_zero(
            reports@.last(),
        ),
        forall|k: int|
            0 <= k < spec_count_regular(entries@) ==> registered_row(
                final(store)@.entries[old(store)@.entries.len() + k],
                regulars(entries@)[k],
                staging_root@,
                archive_id,
                old(store)@.next_entry_id + k,
            ),
{
    let ghost v0 = store@;
    let total = count_regular(entries);
    let total64: u64 = total as u64;
    let mut reports: Vec<Progress> = Vec::new();
    if total == 0 {
        reports.push(Progress { count: 0, total: 0 });
        return reports;
    }
    let len = entries.len();
    let mut k: usize = 0;
    let mut c: usize = 0;
    while k < len
        invariant
            k <= len,
            c <= k,
            c == spec_count_regular(entries@.subrange(0, k as int)),
            store.wf(),
            store@.entries.len() == v0.entries.len() + c,
            store@.next_entry_id == v0.next_entry_id + c,
            store@.archives == v0.archives,
            store@.records == v0.records,
            reports@.len() == c,
            forall|i: int|
                0 <= i < c ==> reports@[i] == (Progress { count: (i + 1) as u64, total: total64 }),
            forall|i: int|
                0 <= i < c ==> registered_row(
                    store@.entries[v0.entries.len() + i],
                    regulars(entries@.subrange(0, k as int))[i],
                    staging_root@,
                    archive_id,
                    v0.next_entry_id + i,
                ),
        decreases len - k,
    {
        proof {
            assert(entries@.subrange(0, k as int + 1) =~= entries@.subrange(0, k as int).push(
                entries@[k as int],
            ));
            assert(entries@.subrange(0, k as int + 1).drop_last() =~= entries@.subrange(
                0,
                k as int,
            ));
            lemma_count_where_push(
                entries@.subrange(0, k as int),
                |e: EntryMeta| e.is_regular,
                entries@[k as int],
            );
            lemma_count_regular_le_len(entries@.subrange(0, k as int));
            lemma_regulars_len(entries@.subrange(0, k as int));
        }
        if entries[k].is_regular {
            let ghost pre = store@;
            let target = join_path(staging_root, entries[k].path.as_str());
            register_entry(store, archive_id, target.as_str());
            proof {
                lemma_first_where_props(
                    pre.entries,
                    register_pred(archive_id, spec_file_name(target@)),
                );
                assert forall|j: int| 0 <= j < pre.entries.len() implies {
                    let row = #[trigger] store@.entries[j];
                    let prev = pre.entries[j];
                    row.id == prev.id && row.archive_id == prev.archive_id && row.path@
                        == prev.path@ && row.name@ == prev.name@ && row.kind == prev.kind
                } by {
                    assert(store@.entries.subrange(0, pre.entries.len() as int)[j]
                        == store@.entries[j]);
                }
            }
            c += 1;
            reports.push(Progress { count: c as u64, total: total64 });
        }
        k += 1;
    }
    proof {
        assert(entries@.subrange(0, len as int) =~= entries@);
        lemma_regulars_len(entries@);
        assert forall|i: int, j: int| 0 <= i <= j < reports@.len() implies prog_le(
            reports@[i],
            reports@[j],
        ) by {
            lemma_prog_monotone((i + 1) as u64, (j + 1) as u64, total64);
        }
        assert(reports@.last() == (Progress { count: total64, total: total64 }));
    }
    reports
}

/// No more regular entries than entries.
pub proof fn lemma_count_regular_le_len(s: Seq<EntryMeta>)
    ensures
        spec_count_regular(s) <= s.len(),
    decreases s.len(),
{
    if s.len() > 0 {
        lemma_count_regular_le_len(s.drop_first());
    }
}

/// Completes a download: the archive becomes `Downloaded` and records
/// where its staged file lies.
pub fn finish_download(store: &mut Store, archive_id: u64, local_path: String) -> (r: bool)
    requires
        old(store).wf(),
        local_path@.len() > 0,
    ensures
        final(store).wf(),
        match old(store)@.archive_index(archive_id) {
            Some(i) => r && final(store)@ == old(store)@.with_archive(
                i,
                (Archive {
                    status: ArchiveStatus::Downloaded,
                    local_staging_path: local_path,
                    ..old(store)@.archives[i]
                }),
            ),
            None => !r && final(store)@ == old(store)@,
        },
{
    let i = match store.archive_index_of(archive_id) {
        Some(i) => i,
        None => {
            return false;
        },
    };
    let mut a = store.archives[i].duplicate();
    a.status = ArchiveStatus::Downloaded;
    a.local_staging_path = local_path;
    store.replace_archive_at(i, a);
    true
}

/// The archive at row `i` has moved to terminal-or-final status `st`
/// with its staging path cleared, and nothing else has changed.
pub open spec fn archive_cleared_to(
    v_old: StoreView,
    v_new: StoreView,
    i: int,
    st: ArchiveStatus,
) -> bool {
    &&& v_new.archives.len() == v_old.archives.len()
    &&& forall|j: int|
        0 <= j < v_old.archives.len() && j != i ==> v_new.archives[j] == v_old.archives[j]
    &&& v_new.archives[i].status == st
    &&& v_new.archives[i].local_staging_path@.len() == 0
    &&& v_new.archives[i].id == v_old.archives[i].id
    &&& v_new.archives[i].external_id == v_old.archives[i].external_id
    &&& v_new.archives[i].display_name == v_old.archives[i].display_name
    &&& v_new.entries == v_old.entries
    &&& v_new.records == v_old.records
    &&& v_new.next_archive_id == v_old.next_archive_id
    &&& v_new.next_entry_id == v_old.next_entry_id
}

/// Records a failed download: a terminal status carrying the diagnostic,
/// with no staged file.
pub fn fail_download(store: &mut Store, archive_id: u64, reason: String) -> (r: bool)
    requires
        old(store).wf(),
    ensures
        final(store).wf(),
        match old(store)@.archive_index(archive_id) {
            Some(i) => r && archive_cleared_to(
                old(store)@,
                final(store)@,
                i,
                ArchiveStatus::DownloadFailed(reason),
            ),
            None => !r && final(store)@ == old(store)@,
        },
{
    let i = match store.archive_index_of(archive_id) {
        Some(i) => i,
        None => {
            return false;
        },
    };
    let mut a = store.archives[i].duplicate();
    a.status = ArchiveStatus::DownloadFailed(reason);
    a.local_staging_path = String::new();
    store.replace_archive_at(i, a);
    true
}

/// Completes an extraction: the archive becomes `ProcessedZip` and its
/// staging path is cleared, the staged file itself having been removed.
pub fn finish_extraction(store: &mut Store, archive_id: u64) -> (r: bool)
    requires
        old(store).wf(),
    ensures
        final(store).wf(),
        match old(store)@.archive_index(archive_id) {
            Some(i) => r && archive_cleared_to(
                old(store)@,
                final(store)@,
                i,
                ArchiveStatus::ProcessedZip,
            ),
            None => !r && final(store)@ == old(store)@,
        },
{
    let i = match store.archive_index_of(archive_id) {
        Some(i) => i,
        None => {
            return false;
        },
    };
    let mut a = store.archives[i].duplicate();
    a.status = ArchiveStatus::ProcessedZip;
    a.local_staging_path = String::new();
    store.replace_archive_at(i, a);
    true
}

/// Records a failed extraction: a terminal status carrying the
/// diagnostic; already-created file entries stay as they are.
pub fn fail_extraction(store: &mut Store, archive_id: u64, reason: String) -> (r: bool)
    requires
        old(store).wf(),
    ensures
        final(store).wf(),
        match old(store)@.archive_index(archive_id) {
            Some(i) => r && archive_cleared_to(
                old(store)@,
                final(store)@,
                i,
                ArchiveStatus::ExtractionFailed(reason),
            ),
            None => !r && final(store)@ == old(store)@,
        },
{
    let i = match store.archive_index_of(archive_id) {
        Some(i) => i,
        None => {
            return false;
        },
    };
    let mut a = store.archives[i].duplicate();
    a.status = ArchiveStatus::ExtractionFailed(reason);
    a.local_staging_path = String::new();
    store.replace_archive_at(i, a);
    true
}

} // verus!