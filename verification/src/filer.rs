//! The filer: computes the date-partitioned destination of a processed
//! pair, moves are handed back as actions, and the per-entry processing
//! steps drive a claimed entity to exactly one terminal status write.

use vstd::prelude::*;
use vstd::string::StringExecFns;
use vstd::string::StrSliceExecFns;
use crate::dates::{
    CivilDate, valid_civil, days_from_civil, epoch_days, civil_from_epoch,
};
use crate::entities::{FileEntry, EntryStatus, FileKind, MediaRecord};
use crate::store::{Store, StoreView, lemma_first_where_props};
use crate::associate::{spec_find_pair, find_pair, associate, lemma_find_pair_props};
use crate::sidecar::{json_wf, json_is_valid, spec_sidecar_epoch, resolve_capture_date};

verus! {

/// A filesystem effect the caller must perform; the store never touches
/// the disk itself.
#[derive(Debug, Clone)]
pub enum FsAction {
    /// Create this directory and its parents.
    CreateDirAll(String),
    /// Move a file from the first path to the second.
    Move(String, String),
}

pub open spec fn digit_char(d: nat) -> char {
    ((48 + d) as u8) as char
}

/// The decimal digits of a number, most significant first.
pub open spec fn dec_digits(n: nat) -> Seq<char>
    decreases n,
{
    if n < 10 {
        seq![digit_char(n)]
    } else {
        dec_digits(n / 10).push(digit_char(n % 10))
    }
}

/// One decimal digit as text.
fn digit_str(d: u64) -> (r: &'static str)
    requires
        d < 10,
    ensures
        r@ == seq![digit_char(d as nat)],
{
    proof {
        reveal_strlit("0");
        reveal_strlit("1");
        reveal_strlit("2");
        reveal_strlit("3");
        reveal_strlit("4");
        reveal_strlit("5");
        reveal_strlit("6");
        reveal_strlit("7");
        reveal_strlit("8");
        reveal_strlit("9");
    }
    match d {
        0 => "0",
        1 => "1",
        2 => "2",
        3 => "3",
        4 => "4",
        5 => "5",
        6 => "6",
        7 => "7",
        8 => "8",
        _ => "9",
    }
}

/// Renders a number in decimal.
pub fn u64_to_string(n: u64) -> (r: String)
    ensures
        r@ == dec_digits(n as nat),
    decreases n,
{
    let d = n % 10;
    let q = n / 10;
    let ds = digit_str(d);
    if q == 0 {
        ds.to_owned()
    } else {
        let r = u64_to_string(q).concat(ds);
        proof {
            assert(r@ =~= dec_digits((q as u64) as nat).push(digit_char(d as nat)));
        }
        r
    }
}

/// The full English month name, as the date-partitioned layout spells it.
pub open spec fn spec_month_name(m: int) -> Seq<char> {
    if m == 1 {
        "January"@
    } else if m == 2 {
        "February"@
    } else if m == 3 {
        "March"@
    } else if m == 4 {
        "April"@
    } else if m == 5 {
        "May"@
    } else if m == 6 {
        "June"@
    } else if m == 7 {
        "July"@
    } else if m == 8 {
        "August"@
    } else if m == 9 {
        "September"@
    } else if m == 10 {
        "October"@
    } else if m == 11 {
        "November"@
    } else {
        "December"@
    }
}

pub fn month_name(m: u8) -> (r: &'static str)
    requires
        1 <= m <= 12,
    ensures
        r@ == spec_month_name(m as int),
{
    match m {
        1 => "January",
        2 => "February",
        3 => "March",
        4 => "April",
        5 => "May",
        6 => "June",
        7 => "July",
        8 => "August",
        9 => "September",
        10 => "October",
        11 => "November",
        _ => "December",
    }
}

/// The destination directory of a pair captured on the given date:
/// `root/{year}/{month name}/{day}/`.
pub open spec fn spec_target_folder(root: Seq<char>, y: nat, m: int, d: nat) -> Seq<char> {
    root + "/"@ + dec_digits(y) + "/"@ + spec_month_name(m) + "/"@ + dec_digits(d) + "/"@
}

/// Computes the destination directory of a capture date.
pub fn target_folder_path(root: &str, c: CivilDate) -> (r: String)
    requires
        c.year >= 0,
        1 <= c.month <= 12,
    ensures
        r@ == spec_target_folder(root@, c.year as nat, c.month as int, c.day as nat),
{
    let r = root
        .to_owned()
        .concat("/")
        .concat(u64_to_string(c.year as u64).as_str())
        .concat("/")
        .concat(month_name(c.month))
        .concat("/")
        .concat(u64_to_string(c.day as u64).as_str())
        .concat("/");
    proof {
        assert(r@ =~= spec_target_folder(
            root@,
            c.year as nat,
            c.month as int,
            c.day as nat,
        ));
    }
    r
}

/// Writes the terminal failure status of one entry, carrying a short
/// diagnostic.
pub fn fail_entry(store: &mut Store, entry_id: u64, reason: String) -> (r: bool)
    requires
        old(store).wf(),
    ensures
        final(store).wf(),
        final(store)@.entries.len() == old(store)@.entries.len(),
        final(store)@.archives == old(store)@.archives,
        final(store)@.records == old(store)@.records,
        match old(store)@.entry_index(entry_id) {
            Some(i) => r && final(store)@ == old(store)@.with_entry_status(
                i,
                EntryStatus::Failed(reason),
            ),
            None => !r && final(store)@ == old(store)@,
        },
{
    let i = match store.entry_index_of(entry_id) {
        Some(i) => i,
        None => {
            return false;
        },
    };
    let mut e = store.entries[i].duplicate();
    e.status = EntryStatus::Failed(reason);
    store.replace_entry_at(i, e);
    proof {
        assert(store@ =~= old(store)@.with_entry_status(i as int, e.status));
    }
    true
}

/// The view of an optional payload argument.
pub open spec fn payload_view(p: Option<&str>) -> Option<Seq<char>> {
    match p {
        Some(s) => Some(s@),
        None => None,
    }
}

/// What the date resolver yields for a media entry: embedded metadata
/// first; otherwise, when a sidecar is paired, what its payload reports.
pub open spec fn spec_media_resolved(
    embedded: Option<i64>,
    has_pair: bool,
    payload: Option<Seq<char>>,
) -> Option<int> {
    match embedded {
        Some(t) => Some(t as int),
        None => {
            if has_pair {
                match payload {
                    Some(p) => spec_sidecar_epoch(p),
                    None => None,
                }
            } else {
                None
            }
        },
    }
}

/// A paired media file needs its sidecar's payload, and that payload must
/// parse, before anything is moved.
pub open spec fn pair_payload_ok(pair0: Option<FileEntry>, payload: Option<Seq<char>>) -> bool {
    match pair0 {
        Some(_) => match payload {
            Some(p) => json_wf(p),
            None => false,
        },
        None => true,
    }
}

/// How one media unit of work ended.
#[derive(Debug, Clone, Copy, PartialEq, Eq, Structural)]
pub enum MediaOutcome {
    /// Moved into its dated destination; carries the capture date used.
    Filed(CivilDate),
    /// No capture date from any source although a sidecar is paired.
    NoDateParked,
    /// No sidecar pair exists and the file itself reports no date.
    NoPairParked,
    /// The unit failed and the entry carries a terminal diagnostic.
    Failed,
    /// Not a known media entry; nothing was touched.
    Rejected,
}

/// One media unit of work: pairs the entry with its sidecar when one
/// exists, resolves the capture date (embedded metadata first, then the
/// sidecar's payload), and either files the pair under
/// `{year}/{month name}/{day}/` or parks the entry.  A paired payload is
/// checked before anything moves; the caller performs the returned
/// filesystem actions.
pub fn process_media_file(
    store: &mut Store,
    media_id: u64,
    embedded: Option<i64>,
    sidecar_payload: Option<&str>,
    archive_root: &str,
) -> (res: (MediaOutcome, Vec<FsAction>))
    requires
        old(store).wf(),
    ensures
        final(store).wf(),
        final(store)@.archives == old(store)@.archives,
        final(store)@.entries.len() == old(store)@.entries.len(),
        final(store)@.next_archive_id == old(store)@.next_archive_id,
        final(store)@.next_entry_id == old(store)@.next_entry_id,
        match old(store)@.entry_index(media_id) {
            None => res.0 is Rejected && final(store)@ == old(store)@,
            Some(mi) => {
                let e0 = old(store)@.entries[mi];
                let pair0 = spec_find_pair(old(store)@, e0);
                let pv = payload_view(sidecar_payload);
                let resolved = spec_media_resolved(embedded, pair0 is Some, pv);
                &&& (forall|j: int|
                    0 <= j < old(store)@.entries.len() && j != mi && (match pair0 {
                        Some(p) => old(store)@.entry_index(p.id) != Some(j),
                        None => true,
                    }) ==> final(store)@.entries[j] == old(store)@.entries[j])
                &&& (!(e0.kind is Media) ==> res.0 is Rejected && final(store)@ == old(store)@)
                &&& (e0.kind is Media && !pair_payload_ok(pair0, pv) ==> res.0 is Failed)
                &&& (e0.kind is Media && pair_payload_ok(pair0, pv) ==> {
                    &&& (resolved is None && pair0 is None ==> res.0 is NoPairParked && final(store)@ == old(store)@.with_entry_status(mi, EntryStatus::NoPair))
                    &&& (resolved is None && pair0 is Some ==> res.0 is NoDateParked && final(store)@.entries[mi].status is NoDate && (match pair0 {
                        Some(p) => final(store)@.entries[mi].related_entry_id == Some(p.id),
                        None => false,
                    }))
                    &&& (match resolved {
                        Some(ts) => {
                            &&& (res.0 is Filed || res.0 is Failed)
                            &&& (0 <= ts <= 253402300799 ==> res.0 is Filed)
                            &&& (match res.0 {
                                MediaOutcome::Filed(c) => {
                                    &&& valid_civil(c.year as int, c.month as int, c.day as int)
                                    &&& days_from_civil(
                                        c.year as int,
                                        c.month as int,
                                        c.day as int,
                                    ) == epoch_days(ts)
                                    &&& c.year >= 0
                                    &&& final(store)@.entries[mi].status is Processed
                                    &&& final(store)@.entries[mi].path@ == spec_target_folder(
                                        archive_root@,
                                        c.year as nat,
                                        c.month as int,
                                        c.day as nat,
                                    ) + e0.name@
                                    &&& (match pair0 {
                                        Some(p) => (match old(store)@.entry_index(p.id) {
                                            Some(si) => final(store)@.entries[si].status
                                                is Processed && final(store)@.entries[si].path@
                                                == spec_target_folder(
                                                archive_root@,
                                                c.year as nat,
                                                c.month as int,
                                                c.day as nat,
                                            ) + p.name@ && final(store)@.records.len() == old(store)@.records.len() + 1 && final(store)@.records.last().file_name == e0.name && final(store)@.records.last().final_path@ == final(store)@.entries[mi].path@ && (match pv {
                                                Some(p2) => final(store)@.records.last().raw_metadata@ == p2 && json_wf(
                                                    final(store)@.records.last().raw_metadata@,
                                                ),
                                                None => false,
                                            }),
                                            None => false,
                                        }),
                                        None => final(store)@.records == old(store)@.records,
                                    })
                                },
                                _ => final(store)@.records == old(store)@.records,
                            })
                        },
                        None => final(store)@.records == old(store)@.records,
                    })
                })
            },
        },
{
    let ghost v0 = store@;
    let mut actions: Vec<FsAction> = Vec::new();
    let mi = match store.entry_index_of(media_id) {
        Some(i) => i,
        None => {
            return (MediaOutcome::Rejected, actions);
        },
    };
    proof {
        lemma_first_where_props(v0.entries, |e: FileEntry| e.id == media_id);
    }
    let media = store.entries[mi].duplicate();
    if !matches!(media.kind, FileKind::Media) {
        return (MediaOutcome::Rejected, actions);
    }
    let pair = find_pair(store, media_id);
    proof {
        lemma_find_pair_props(v0, v0.entries[mi as int]);
    }
    // a paired media file is filed together with its sidecar's payload,
    // which must be present and must parse before anything is moved
    let payload: Option<&str> = match (&pair, &sidecar_payload) {
        (Some(_), Some(p)) => {
            if !json_is_valid(p) {
                fail_entry(store, media_id, String::from_str("sidecar payload does not parse"));
                return (MediaOutcome::Failed, actions);
            }
            Some(*p)
        },
        (Some(_), None) => {
            fail_entry(store, media_id, String::from_str("sidecar payload missing"));
            return (MediaOutcome::Failed, actions);
        },
        (None, _) => None,
    };
    // record the association in both directions before resolving
    let si: Option<usize> = match &pair {
        Some(p) => {
            let si = match store.entry_index_of(p.id) {
                Some(i) => i,
                None => {
                    proof {
                        lemma_first_where_props(v0.entries, |e: FileEntry| e.id == p.id);
                        let j = choose|j: int|
                            0 <= j < v0.entries.len() && v0.entries[j] == *p;
                        assert(v0.entries[j].id == p.id);
                        assert(false);
                    }
                    return (MediaOutcome::Rejected, actions);
                },
            };
            proof {
                lemma_first_where_props(v0.entries, |e: FileEntry| e.id == p.id);
                let j = choose|j: int| 0 <= j < v0.entries.len() && v0.entries[j] == *p;
                assert(v0.entries[j].id == p.id);
                assert(v0.entries[si as int].id == p.id);
                assert(si as int == j);
            }
            associate(store, media_id, p.id);
            Some(si)
        },
        None => None,
    };
    let resolved = resolve_capture_date(embedded, payload);
    let ts = match resolved {
        None => {
            match &pair {
                None => {
                    let mut e = store.entries[mi].duplicate();
                    e.status = EntryStatus::NoPair;
                    store.replace_entry_at(mi, e);
                    proof {
                        assert(store@ =~= v0.with_entry_status(mi as int, EntryStatus::NoPair));
                    }
                    return (MediaOutcome::NoPairParked, actions);
                },
                Some(_) => {
                    let mut e = store.entries[mi].duplicate();
                    e.status = EntryStatus::NoDate;
                    store.replace_entry_at(mi, e);
                    return (MediaOutcome::NoDateParked, actions);
                },
            }
        },
        Some(ts) => ts,
    };
    let civil = match civil_from_epoch(ts) {
        Some(c) => c,
        None => {
            let mut e = store.entries[mi].duplicate();
            e.status = EntryStatus::Failed(String::from_str("capture date out of range"));
            store.replace_entry_at(mi, e);
            return (MediaOutcome::Failed, actions);
        },
    };
    if civil.year < 0 {
        let mut e = store.entries[mi].duplicate();
        e.status = EntryStatus::Failed(String::from_str("capture date out of range"));
        store.replace_entry_at(mi, e);
        return (MediaOutcome::Failed, actions);
    }
    let folder = target_folder_path(archive_root, civil);
    actions.push(FsAction::CreateDirAll(folder.clone()));
    let new_media_path = folder.clone().concat(media.name.as_str());
    actions.push(FsAction::Move(media.path.clone(), new_media_path.clone()));
    let mut e = store.entries[mi].duplicate();
    e.status = EntryStatus::Processed;
    e.path = new_media_path.clone();
    store.replace_entry_at(mi, e);
    match (&pair, si, payload) {
        (Some(p), Some(si), Some(pl)) => {
            let new_sc_path = folder.concat(p.name.as_str());
            actions.push(FsAction::Move(p.path.clone(), new_sc_path.clone()));
            let mut se = store.entries[si].duplicate();
            se.status = EntryStatus::Processed;
            se.path = new_sc_path;
            store.replace_entry_at(si, se);
            store.add_record(
                MediaRecord {
                    file_name: media.name,
                    final_path: new_media_path,
                    raw_metadata: pl.to_owned(),
                },
            );
        },
        _ => {},
    }
    (MediaOutcome::Filed(civil), actions)
}

/// How one sidecar unit of work ended.
#[derive(Debug, Clone, Copy, PartialEq, Eq, Structural)]
pub enum SidecarOutcome {
    /// No media counterpart exists yet; parked until one appears.
    NoPairParked,
    /// Paired with a media entry that is not yet processed; the pairing
    /// was recorded and the unit will run again later.
    Deferred,
    /// The counterpart is already filed: the sidecar moved next to it and
    /// the durable record was written.
    FiledWithMedia,
    /// The unit failed and the entry carries a terminal diagnostic.
    Failed,
    /// Not a known sidecar entry; nothing was touched.
    Rejected,
}

/// One sidecar unit of work: finds the media counterpart by key, records
/// the pairing, and either defers (counterpart still pending), follows a
/// processed counterpart into its dated destination and writes the
/// durable record, or parks with no counterpart in sight.
pub fn process_sidecar_file(store: &mut Store, sidecar_id: u64, payload: Option<&str>) -> (res: (
    SidecarOutcome,
    Vec<FsAction>,
))
    requires
        old(store).wf(),
    ensures
        final(store).wf(),
        final(store)@.archives == old(store)@.archives,
        final(store)@.entries.len() == old(store)@.entries.len(),
        final(store)@.next_archive_id == old(store)@.next_archive_id,
        final(store)@.next_entry_id == old(store)@.next_entry_id,
        match old(store)@.entry_index(sidecar_id) {
            None => res.0 is Rejected && final(store)@ == old(store)@,
            Some(ki) => {
                let e0 = old(store)@.entries[ki];
                let pair0 = spec_find_pair(old(store)@, e0);
                &&& (forall|j: int|
                    0 <= j < old(store)@.entries.len() && j != ki && (match pair0 {
                        Some(m) => old(store)@.entry_index(m.id) != Some(j),
                        None => true,
                    }) ==> final(store)@.entries[j] == old(store)@.entries[j])
                &&& (!(e0.kind is Sidecar) ==> res.0 is Rejected && final(store)@ == old(store)@)
                &&& (e0.kind is Sidecar ==> match pair0 {
                    None => res.0 is NoPairParked && final(store)@ == old(store)@.with_entry_status(ki, EntryStatus::NoPair),
                    Some(m) => match old(store)@.entry_index(m.id) {
                        Some(mi) => {
                            &&& (m.status is Failed ==> res.0 is Failed && final(store)@.entries[ki].status is Failed && final(store)@.records == old(store)@.records)
                            &&& (m.status is Processed ==> {
                                &&& (!payload_wf(payload) ==> res.0 is Failed && final(store)@.entries[ki].status is Failed && final(store)@.records == old(store)@.records)
                                &&& (payload_wf(payload) ==> res.0 is FiledWithMedia && final(store)@.entries[ki].status is Processed && final(store)@.entries[ki].path@ == crate::extract::spec_dir_of(m.path@)
                                    + e0.name@ && final(store)@.entries[ki].related_entry_id
                                    == Some(m.id) && final(store)@.entries[mi].related_entry_id
                                    == Some(sidecar_id) && final(store)@.records.len() == old(store)@.records.len() + 1 && final(store)@.records.last().file_name
                                    == m.name && final(store)@.records.last().final_path == m.path
                                    && (match payload {
                                    Some(p) => final(store)@.records.last().raw_metadata@ == p@,
                                    None => false,
                                }))
                            })
                            &&& (!(m.status is Failed) && !(m.status is Processed) ==> res.0
                                is Deferred && final(store)@.entries[ki].status is Associated
                                && final(store)@.entries[ki].related_entry_id == Some(m.id)
                                && final(store)@.entries[mi].related_entry_id == Some(sidecar_id)
                                && final(store)@.records == old(store)@.records && (m.status
                                is Processing ==> final(store)@.entries[mi].status is Processing)
                                && (!(m.status is Processing) ==> final(store)@.entries[mi].status
                                is Associated))
                        },
                        None => false,
                    },
                })
            },
        },
{
    let ghost v0 = store@;
    let mut actions: Vec<FsAction> = Vec::new();
    let ki = match store.entry_index_of(sidecar_id) {
        Some(i) => i,
        None => {
            return (SidecarOutcome::Rejected, actions);
        },
    };
    proof {
        lemma_first_where_props(v0.entries, |e: FileEntry| e.id == sidecar_id);
    }
    let sidecar = store.entries[ki].duplicate();
    if !matches!(sidecar.kind, FileKind::Sidecar) {
        return (SidecarOutcome::Rejected, actions);
    }
    let pair = find_pair(store, sidecar_id);
    proof {
        lemma_find_pair_props(v0, v0.entries[ki as int]);
    }
    let m = match pair {
        Some(m) => m,
        None => {
            let mut e = store.entries[ki].duplicate();
            e.status = EntryStatus::NoPair;
            store.replace_entry_at(ki, e);
            proof {
                assert(store@ =~= v0.with_entry_status(ki as int, EntryStatus::NoPair));
            }
            return (SidecarOutcome::NoPairParked, actions);
        },
    };
    let mi = match store.entry_index_of(m.id) {
        Some(i) => i,
        None => {
            proof {
                lemma_first_where_props(v0.entries, |e: FileEntry| e.id == m.id);
                let j = choose|j: int| 0 <= j < v0.entries.len() && v0.entries[j] == m;
                assert(v0.entries[j].id == m.id);
                assert(false);
            }
            return (SidecarOutcome::Rejected, actions);
        },
    };
    proof {
        lemma_first_where_props(v0.entries, |e: FileEntry| e.id == m.id);
        let j = choose|j: int| 0 <= j < v0.entries.len() && v0.entries[j] == m;
        assert(v0.entries[j].id == m.id);
        assert(v0.entries[mi as int].id == m.id);
        assert(mi as int == j);
    }
    if matches!(m.status, EntryStatus::Failed(_)) {
        fail_entry(store, sidecar_id, String::from_str("counterpart media failed"));
        return (SidecarOutcome::Failed, actions);
    }
    if matches!(m.status, EntryStatus::Processed) {
        let pl = match payload {
            Some(p) => {
                if !json_is_valid(p) {
                    fail_entry(
                        store,
                        sidecar_id,
                        String::from_str("sidecar payload does not parse"),
                    );
                    return (SidecarOutcome::Failed, actions);
                }
                p
            },
            None => {
                fail_entry(store, sidecar_id, String::from_str("sidecar payload missing"));
                return (SidecarOutcome::Failed, actions);
            },
        };
        associate(store, sidecar_id, m.id);
        let folder = crate::extract::dir_of(m.path.as_str());
        let new_path = folder.concat(sidecar.name.as_str());
        actions.push(FsAction::Move(sidecar.path.clone(), new_path.clone()));
        let mut e = store.entries[ki].duplicate();
        e.status = EntryStatus::Processed;
        e.path = new_path;
        store.replace_entry_at(ki, e);
        store.add_record(
            MediaRecord {
                file_name: m.name.clone(),
                final_path: m.path.clone(),
                raw_metadata: pl.to_owned(),
            },
        );
        return (SidecarOutcome::FiledWithMedia, actions);
    }
    // the counterpart exists but is not done: record the pairing and let
    // both sides run again in their own stages
    associate(store, sidecar_id, m.id);
    let mut e = store.entries[ki].duplicate();
    e.status = EntryStatus::Associated;
    store.replace_entry_at(ki, e);
    if !matches!(store.entries[mi].status, EntryStatus::Processing) {
        let mut me = store.entries[mi].duplicate();
        me.status = EntryStatus::Associated;
        store.replace_entry_at(mi, me);
    }
    (SidecarOutcome::Deferred, actions)
}

/// The payload argument is present and parses.
pub open spec fn payload_wf(payload: Option<&str>) -> bool {
    match payload {
        Some(p) => json_wf(p@),
        None => false,
    }
}

} // verus!
