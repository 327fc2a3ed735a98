//! Linking a media entry with its metadata sidecar: the reciprocal
//! pointer writes, and the pair lookup that trusts a pointer only after
//! checking it and falls back to the pairing key otherwise.

use vstd::prelude::*;
use crate::entities::{FileEntry, FileKind, opposite};
use crate::store::{
    Store, StoreView, spec_find_by_key, lemma_first_where_props, lemma_entry_lookup_at,
};

verus! {

/// Both pointer writes of one association: `a` points to `b` and `b`
/// points back to `a`; nothing else moves, in particular no record is
/// created.
pub open spec fn spec_associate(v: StoreView, ia: int, ib: int) -> StoreView {
    let a = v.entries[ia];
    let b = v.entries[ib];
    let v1 = v.with_entry(ia, (FileEntry { related_entry_id: Some(b.id), ..a }));
    v1.with_entry(ib, (FileEntry { related_entry_id: Some(a.id), ..b }))
}

/// The pair of an entry: the entry its pointer names, provided that entry
/// exists and really is the counterpart (opposite kind, same archive,
/// same pairing key); with no pointer, or a pointer that disagrees, the
/// pair is re-derived by pairing-key lookup.
pub open spec fn spec_find_pair(v: StoreView, e: FileEntry) -> Option<FileEntry> {
    let by_key = spec_find_by_key(v, e.archive_id, e.spec_key(), opposite(e.kind));
    match e.related_entry_id {
        Some(rid) => match v.entry_by_id(rid) {
            Some(other) => {
                if other.kind == opposite(e.kind) && other.archive_id == e.archive_id
                    && other.spec_key() == e.spec_key() {
                    Some(other)
                } else {
                    by_key
                }
            },
            None => by_key,
        },
        None => by_key,
    }
}

/// The kind a counterpart must have.
pub fn opposite_of(k: FileKind) -> (r: FileKind)
    ensures
        r == opposite(k),
{
    match k {
        FileKind::Media => FileKind::Sidecar,
        FileKind::Sidecar => FileKind::Media,
    }
}

/// Records the pairing of two distinct entries: two independent pointer
/// writes, one in each direction.  Returns false, changing nothing, when
/// either id is unknown or the two are the same row.
pub fn associate(store: &mut Store, a_id: u64, b_id: u64) -> (r: bool)
    requires
        old(store).wf(),
    ensures
        final(store).wf(),
        match (old(store)@.entry_index(a_id), old(store)@.entry_index(b_id)) {
            (Some(ia), Some(ib)) => {
                if a_id != b_id {
                    r && final(store)@ == spec_associate(old(store)@, ia, ib)
                } else {
                    !r && final(store)@ == old(store)@
                }
            },
            _ => !r && final(store)@ == old(store)@,
        },
{
    let ghost v0 = store@;
    let ia = match store.entry_index_of(a_id) {
        Some(i) => i,
        None => {
            return false;
        },
    };
    let ib = match store.entry_index_of(b_id) {
        Some(i) => i,
        None => {
            return false;
        },
    };
    if a_id == b_id {
        return false;
    }
    proof {
        lemma_first_where_props(v0.entries, |e: FileEntry| e.id == a_id);
        lemma_first_where_props(v0.entries, |e: FileEntry| e.id == b_id);
    }
    let mut ea = store.entries[ia].duplicate();
    ea.related_entry_id = Some(b_id);
    store.replace_entry_at(ia, ea);
    let mut eb = store.entries[ib].duplicate();
    eb.related_entry_id = Some(a_id);
    store.replace_entry_at(ib, eb);
    proof {
        assert(store@ =~= spec_associate(v0, ia as int, ib as int));
    }
    true
}

/// Looks the pair of an entry up, repairing a stale or one-sided pointer
/// by key lookup.
pub fn find_pair(store: &Store, entry_id: u64) -> (r: Option<FileEntry>)
    requires
        store.wf(),
    ensures
        match store@.entry_by_id(entry_id) {
            Some(e) => r == spec_find_pair(store@, e),
            None => r is None,
        },
{
    let e = match store.get_entry(entry_id) {
        Some(e) => e.duplicate(),
        None => {
            return None;
        },
    };
    if let Some(rid) = e.related_entry_id {
        if let Some(other) = store.get_entry(rid) {
            let kind_match = match (other.kind, opposite_of(e.kind)) {
                (FileKind::Media, FileKind::Media) => true,
                (FileKind::Sidecar, FileKind::Sidecar) => true,
                _ => false,
            };
            let key_e = crate::entities::pairing_key_of(e.name.as_str());
            let key_o = crate::entities::pairing_key_of(other.name.as_str());
            if kind_match && other.archive_id == e.archive_id && key_o == key_e {
                return Some(other.duplicate());
            }
        }
    }
    let key = crate::entities::pairing_key_of(e.name.as_str());
    match store.find_by_pairing_key(e.archive_id, key.as_str(), opposite_of(e.kind)) {
        Some(p) => Some(p.duplicate()),
        None => None,
    }
}

/// Whatever the pair lookup returns is a row of the store, of the
/// opposite kind and in the same archive as the entry asked about.
pub proof fn lemma_find_pair_props(v: StoreView, e: FileEntry)
    ensures
        match spec_find_pair(v, e) {
            Some(p) => p.kind == opposite(e.kind) && p.archive_id == e.archive_id && exists|
                j: int,
            | 0 <= j < v.entries.len() && v.entries[j] == p,
            None => true,
        },
{
    let by_key_pred = |e2: FileEntry|
        e2.archive_id == e.archive_id && e2.kind == opposite(e.kind) && e2.spec_key()
            == e.spec_key();
    lemma_first_where_props(v.entries, by_key_pred);
    match e.related_entry_id {
        Some(rid) => {
            lemma_first_where_props(v.entries, |e2: FileEntry| e2.id == rid);
        },
        None => {},
    }
}

/// Association never touches the records table nor any other entry: the
/// two updated rows keep everything but their pointers.
pub proof fn lemma_associate_frame(v: StoreView, ia: int, ib: int)
    requires
        0 <= ia < v.entries.len(),
        0 <= ib < v.entries.len(),
        ia != ib,
    ensures
        spec_associate(v, ia, ib).records == v.records,
        spec_associate(v, ia, ib).archives == v.archives,
        spec_associate(v, ia, ib).entries.len() == v.entries.len(),
        forall|j: int|
            0 <= j < v.entries.len() && j != ia && j != ib ==> spec_associate(v, ia, ib).entries[j]
                == v.entries[j],
{
}

/// Idempotent association: associating an already linked pair again
/// rewrites the same two pointers with the same values — the store,
/// records included, is left exactly as it was, so there is exactly one
/// link and no duplicate record.
pub proof fn lemma_associate_idempotent(v: StoreView, ia: int, ib: int)
    requires
        0 <= ia < v.entries.len(),
        0 <= ib < v.entries.len(),
        ia != ib,
    ensures
        spec_associate(spec_associate(v, ia, ib), ia, ib) == spec_associate(v, ia, ib),
{
    let w = spec_associate(v, ia, ib);
    assert(spec_associate(w, ia, ib) =~= w);
}

/// Pairing symmetry: after both pointer writes of `associate` succeed on
/// a matching pair, each side's pair lookup returns the other side.
pub proof fn lemma_pairing_symmetry(v: StoreView, ia: int, ib: int)
    requires
        v.wf(),
        0 <= ia < v.entries.len(),
        0 <= ib < v.entries.len(),
        ia != ib,
        v.entries[ia].kind == opposite(v.entries[ib].kind),
        v.entries[ia].archive_id == v.entries[ib].archive_id,
        v.entries[ia].spec_key() == v.entries[ib].spec_key(),
    ensures
        spec_associate(v, ia, ib).wf(),
        spec_find_pair(spec_associate(v, ia, ib), spec_associate(v, ia, ib).entries[ia])
            == Some(spec_associate(v, ia, ib).entries[ib]),
        spec_find_pair(spec_associate(v, ia, ib), spec_associate(v, ia, ib).entries[ib])
            == Some(spec_associate(v, ia, ib).entries[ia]),
{
    let w = spec_associate(v, ia, ib);
    assert(forall|j: int| 0 <= j < w.entries.len() ==> #[trigger] w.entries[j].id
        == v.entries[j].id);
    assert(w.wf());
    lemma_entry_lookup_at(w, ia);
    lemma_entry_lookup_at(w, ib);
    let a = w.entries[ia];
    let b = w.entries[ib];
    assert(a.related_entry_id == Some(b.id));
    assert(b.related_entry_id == Some(a.id));
    assert(opposite(opposite(b.kind)) == b.kind);
}

} // verus!
