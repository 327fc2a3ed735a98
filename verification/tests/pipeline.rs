use takeout_fixer::store::Store;
use takeout_fixer::entities::{ArchiveStatus, EntryStatus, FileKind};
use takeout_fixer::extract::{extract_archive, finish_extraction, finish_download, fail_download,
    fail_extraction, EntryMeta, count_regular, file_name_of, dir_of, join_path, register_entry};
use takeout_fixer::filer::{process_media_file, process_sidecar_file, MediaOutcome,
    SidecarOutcome, FsAction, fail_entry};
use takeout_fixer::associate::{associate, find_pair};

const SIDECAR_PAYLOAD: &str = "{\"photoTakenTime\":{\"timestamp\":\"1000000000\",\"formatted\":\"Sep 9, 2001\"}}";

fn staged_archive(store: &mut Store) -> u64 {
    let aid = store.insert_archive(String::from("remote-1"), String::from("takeout-001.tgz"));
    let claimed = store.claim_for_download(None);
    assert_eq!(claimed, Some(aid));
    assert!(finish_download(store, aid, String::from("staging/takeout-001.tgz")));
    let examined = store.claim_for_examination();
    assert_eq!(examined, Some(aid));
    aid
}

fn meta(path: &str, regular: bool) -> EntryMeta {
    EntryMeta { path: String::from(path), is_regular: regular }
}

#[test]
fn three_entries_full_pipeline() {
    let mut store = Store::new();
    let aid = staged_archive(&mut store);
    let entries = vec![
        meta("photos", false),
        meta("photos/a.jpg", true),
        meta("photos/a.jpg.json", true),
        meta("photos/b.mp4", true),
    ];
    assert_eq!(count_regular(&entries), 3);
    let reports = extract_archive(&mut store, aid, "staging/x", &entries);
    assert_eq!(reports.len(), 3);
    assert!(finish_extraction(&mut store, aid));
    let a = store.get_archive(aid).unwrap();
    assert!(matches!(a.status, ArchiveStatus::ProcessedZip));
    assert!(a.local_staging_path.is_empty());

    // the sidecar paired with a.jpg at registration
    let a_jpg = store.entries.iter().find(|e| e.name == "a.jpg").unwrap();
    let a_json = store.entries.iter().find(|e| e.name == "a.jpg.json").unwrap();
    let b_mp4 = store.entries.iter().find(|e| e.name == "b.mp4").unwrap();
    assert!(matches!(a_jpg.kind, FileKind::Media));
    assert!(matches!(a_json.kind, FileKind::Sidecar));
    assert!(matches!(b_mp4.kind, FileKind::Media));
    assert_eq!(a_jpg.related_entry_id, Some(a_json.id));
    assert_eq!(a_json.related_entry_id, Some(a_jpg.id));
    let (a_jpg_id, a_json_id, b_mp4_id) = (a_jpg.id, a_json.id, b_mp4.id);

    // the media stage claims a.jpg first; no embedded metadata anywhere
    let first = store.claim_media_entry().unwrap();
    assert_eq!(first, a_jpg_id);
    let (outcome, actions) = process_media_file(
        &mut store,
        a_jpg_id,
        None,
        Some(SIDECAR_PAYLOAD),
        "archive",
    );
    match outcome {
        MediaOutcome::Filed(c) => {
            assert_eq!((c.year, c.month, c.day), (2001, 9, 9));
        }
        other => panic!("expected the pair to be filed, got {:?}", other),
    }
    let a_jpg = store.get_entry(a_jpg_id).unwrap();
    let a_json = store.get_entry(a_json_id).unwrap();
    assert!(matches!(a_jpg.status, EntryStatus::Processed));
    assert!(matches!(a_json.status, EntryStatus::Processed));
    assert_eq!(a_jpg.path, "archive/2001/September/9/a.jpg");
    assert_eq!(a_json.path, "archive/2001/September/9/a.jpg.json");
    assert_eq!(store.records.len(), 1);
    assert_eq!(store.records[0].file_name, "a.jpg");
    assert_eq!(store.records[0].final_path, "archive/2001/September/9/a.jpg");
    assert_eq!(store.records[0].raw_metadata, SIDECAR_PAYLOAD);
    assert!(actions.iter().any(|ac| matches!(ac, FsAction::CreateDirAll(_))));

    // b.mp4 has no sidecar and no embedded date: parked, no record
    let second = store.claim_media_entry().unwrap();
    assert_eq!(second, b_mp4_id);
    let (outcome, actions) = process_media_file(&mut store, b_mp4_id, None, None, "archive");
    assert!(matches!(outcome, MediaOutcome::NoPairParked));
    assert!(actions.is_empty());
    let b_mp4 = store.get_entry(b_mp4_id).unwrap();
    assert!(matches!(b_mp4.status, EntryStatus::NoPair));
    assert_eq!(store.records.len(), 1);

    // nothing else is claimable
    assert_eq!(store.claim_media_entry(), None);
    assert_eq!(store.claim_sidecar_entry(), None);
}

#[test]
fn embedded_metadata_takes_precedence() {
    let mut store = Store::new();
    let aid = staged_archive(&mut store);
    let entries = vec![meta("a.jpg", true), meta("a.jpg.json", true)];
    extract_archive(&mut store, aid, "staging", &entries);
    finish_extraction(&mut store, aid);
    let media_id = store.claim_media_entry().unwrap();
    // the file itself reports one second later than the sidecar
    let (outcome, _) = process_media_file(
        &mut store,
        media_id,
        Some(1_000_000_001),
        Some(SIDECAR_PAYLOAD),
        "archive",
    );
    match outcome {
        MediaOutcome::Filed(c) => {
            // 2001-09-09T01:46:41 UTC, not what the sidecar said
            assert_eq!((c.year, c.month, c.day), (2001, 9, 9));
        }
        other => panic!("expected filing, got {:?}", other),
    }
    let media = store.get_entry(media_id).unwrap();
    assert!(matches!(media.status, EntryStatus::Processed));
}

#[test]
fn paired_media_without_date_parks_as_no_date() {
    let mut store = Store::new();
    let aid = staged_archive(&mut store);
    let entries = vec![meta("a.jpg", true), meta("a.jpg.json", true)];
    extract_archive(&mut store, aid, "staging", &entries);
    finish_extraction(&mut store, aid);
    let media_id = store.claim_media_entry().unwrap();
    // valid JSON, but no capture-time field in it
    let (outcome, _) = process_media_file(&mut store, media_id, None, Some("{}"), "archive");
    assert!(matches!(outcome, MediaOutcome::NoDateParked));
    let media = store.get_entry(media_id).unwrap();
    assert!(matches!(media.status, EntryStatus::NoDate));
    assert!(store.records.is_empty());
}

#[test]
fn invalid_sidecar_payload_fails_the_unit() {
    let mut store = Store::new();
    let aid = staged_archive(&mut store);
    let entries = vec![meta("a.jpg", true), meta("a.jpg.json", true)];
    extract_archive(&mut store, aid, "staging", &entries);
    finish_extraction(&mut store, aid);
    let media_id = store.claim_media_entry().unwrap();
    let (outcome, actions) = process_media_file(
        &mut store,
        media_id,
        Some(1_000_000_000),
        Some("this is not json"),
        "archive",
    );
    assert!(matches!(outcome, MediaOutcome::Failed));
    assert!(actions.is_empty());
    let media = store.get_entry(media_id).unwrap();
    assert!(matches!(media.status, EntryStatus::Failed(_)));
    assert!(store.records.is_empty());
}

#[test]
fn sidecar_follows_processed_media() {
    let mut store = Store::new();
    let aid = staged_archive(&mut store);
    // only the media file was in the first archive pass
    let entries = vec![meta("a.jpg", true)];
    extract_archive(&mut store, aid, "staging", &entries);
    finish_extraction(&mut store, aid);
    let media_id = store.claim_media_entry().unwrap();
    let (outcome, _) = process_media_file(
        &mut store,
        media_id,
        Some(1_000_000_000),
        None,
        "archive",
    );
    assert!(matches!(outcome, MediaOutcome::Filed(_)));
    // a sidecar row that arrived with no link recorded: the sidecar stage
    // claims it and finds the processed counterpart by key
    let sid = store.insert_entry(
        aid,
        String::from("a.jpg.json"),
        String::from("staging/a.jpg.json"),
        FileKind::Sidecar,
        EntryStatus::Unassociated,
        None,
    );
    let claimed = store.claim_sidecar_entry();
    assert_eq!(claimed, Some(sid));
    let (outcome, actions) = process_sidecar_file(&mut store, sid, Some(SIDECAR_PAYLOAD));
    assert!(matches!(outcome, SidecarOutcome::FiledWithMedia));
    assert_eq!(actions.len(), 1);
    let sc = store.get_entry(sid).unwrap();
    assert!(matches!(sc.status, EntryStatus::Processed));
    assert_eq!(sc.path, "archive/2001/September/9/a.jpg.json");
    assert_eq!(store.records.len(), 1);
    assert_eq!(store.records[0].file_name, "a.jpg");
}

#[test]
fn sidecar_with_no_media_parks_as_no_pair() {
    let mut store = Store::new();
    let aid = staged_archive(&mut store);
    let entries = vec![meta("lonely.jpg.json", true)];
    extract_archive(&mut store, aid, "staging", &entries);
    finish_extraction(&mut store, aid);
    let sid = store.claim_sidecar_entry().unwrap();
    let (outcome, actions) = process_sidecar_file(&mut store, sid, Some(SIDECAR_PAYLOAD));
    assert!(matches!(outcome, SidecarOutcome::NoPairParked));
    assert!(actions.is_empty());
    let sc = store.get_entry(sid).unwrap();
    assert!(matches!(sc.status, EntryStatus::NoPair));
}

#[test]
fn sidecar_defers_until_media_is_processed() {
    let mut store = Store::new();
    let aid = staged_archive(&mut store);
    let entries = vec![meta("a.jpg", true)];
    extract_archive(&mut store, aid, "staging", &entries);
    finish_extraction(&mut store, aid);
    let media_id = store.entries[0].id;
    let sid = register_entry(&mut store, aid, "staging/a.jpg.json");
    // break the link so the sidecar step has to re-derive and re-arm
    let mut sc = store.get_entry(sid).unwrap().duplicate();
    sc.status = EntryStatus::Unassociated;
    let idx = store.entry_index_of(sid).unwrap();
    store.replace_entry_at(idx, sc);
    let claimed = store.claim_sidecar_entry().unwrap();
    assert_eq!(claimed, sid);
    let (outcome, _) = process_sidecar_file(&mut store, sid, Some(SIDECAR_PAYLOAD));
    assert!(matches!(outcome, SidecarOutcome::Deferred));
    assert!(matches!(store.get_entry(sid).unwrap().status, EntryStatus::Associated));
    assert!(matches!(store.get_entry(media_id).unwrap().status, EntryStatus::Associated));
    assert!(store.records.is_empty());
}

#[test]
fn association_is_idempotent_and_symmetric() {
    let mut store = Store::new();
    let aid = staged_archive(&mut store);
    let entries = vec![meta("a.jpg", true), meta("a.jpg.json", true)];
    extract_archive(&mut store, aid, "staging", &entries);
    finish_extraction(&mut store, aid);
    let a = store.entries[0].id;
    let b = store.entries[1].id;
    assert!(associate(&mut store, a, b));
    let pa = find_pair(&store, a).unwrap();
    let pb = find_pair(&store, b).unwrap();
    assert_eq!(pa.id, b);
    assert_eq!(pb.id, a);
    // a second association leaves exactly one link and no extra record
    assert!(associate(&mut store, a, b));
    assert_eq!(store.get_entry(a).unwrap().related_entry_id, Some(b));
    assert_eq!(store.get_entry(b).unwrap().related_entry_id, Some(a));
    assert_eq!(store.records.len(), 0);
    let pa2 = find_pair(&store, a).unwrap();
    assert_eq!(pa2.id, b);
}

#[test]
fn one_sided_link_is_repaired_by_key_lookup() {
    let mut store = Store::new();
    let aid = staged_archive(&mut store);
    let entries = vec![meta("a.jpg", true), meta("a.jpg.json", true)];
    extract_archive(&mut store, aid, "staging", &entries);
    finish_extraction(&mut store, aid);
    let a = store.entries[0].id;
    let b = store.entries[1].id;
    // damage one pointer: point the media entry at itself
    let mut e = store.get_entry(a).unwrap().duplicate();
    e.related_entry_id = Some(a);
    let idx = store.entry_index_of(a).unwrap();
    store.replace_entry_at(idx, e);
    // the reader does not trust the stale pointer and re-derives by key
    let p = find_pair(&store, a).unwrap();
    assert_eq!(p.id, b);
}

#[test]
fn failed_download_is_terminal_and_clears_staging() {
    let mut store = Store::new();
    let aid = store.insert_archive(String::from("remote-9"), String::from("broken.tgz"));
    assert_eq!(store.claim_for_download(None), Some(aid));
    assert!(fail_download(&mut store, aid, String::from("connection reset")));
    let a = store.get_archive(aid).unwrap();
    match &a.status {
        ArchiveStatus::DownloadFailed(reason) => assert_eq!(reason, "connection reset"),
        other => panic!("expected a terminal download failure, got {:?}", other),
    }
    assert!(a.local_staging_path.is_empty());
    // failed archives match no stage predicate any more
    assert_eq!(store.claim_for_download(None), None);
    assert_eq!(store.claim_for_examination(), None);
}

#[test]
fn failed_extraction_keeps_partial_entries() {
    let mut store = Store::new();
    let aid = staged_archive(&mut store);
    let entries = vec![meta("a.jpg", true)];
    extract_archive(&mut store, aid, "staging", &entries);
    assert!(fail_extraction(&mut store, aid, String::from("corrupt stream")));
    let a = store.get_archive(aid).unwrap();
    assert!(matches!(a.status, ArchiveStatus::ExtractionFailed(_)));
    // the entry created before the failure stays
    assert_eq!(store.entries.len(), 1);
}

#[test]
fn fail_entry_writes_the_diagnostic() {
    let mut store = Store::new();
    let aid = staged_archive(&mut store);
    extract_archive(&mut store, aid, "staging", &vec![meta("a.jpg", true)]);
    let id = store.entries[0].id;
    assert!(fail_entry(&mut store, id, String::from("boom")));
    match &store.get_entry(id).unwrap().status {
        EntryStatus::Failed(reason) => assert_eq!(reason, "boom"),
        other => panic!("expected failure, got {:?}", other),
    }
}

#[test]
fn path_helpers_split_and_join() {
    assert_eq!(file_name_of("photos/2001/a.jpg"), "a.jpg");
    assert_eq!(file_name_of("a.jpg"), "a.jpg");
    assert_eq!(dir_of("photos/2001/a.jpg"), "photos/2001/");
    assert_eq!(dir_of("a.jpg"), "");
    assert_eq!(join_path("staging", "photos/a.jpg"), "staging/photos/a.jpg");
}

#[test]
fn parked_media_rearms_when_its_sidecar_arrives() {
    let mut store = Store::new();
    let aid = staged_archive(&mut store);
    let entries = vec![meta("b.mp4", true)];
    extract_archive(&mut store, aid, "staging", &entries);
    finish_extraction(&mut store, aid);
    let media_id = store.claim_media_entry().unwrap();
    let (outcome, _) = process_media_file(&mut store, media_id, None, None, "archive");
    assert!(matches!(outcome, MediaOutcome::NoPairParked));
    assert_eq!(store.claim_media_entry(), None);
    // the sidecar turns up in a later extraction pass of the same archive
    // and the registration pairing re-arms the parked media entry
    let sid = register_entry(&mut store, aid, "staging/b.mp4.json");
    let media = store.get_entry(media_id).unwrap();
    assert!(matches!(media.status, EntryStatus::Associated));
    assert_eq!(media.related_entry_id, Some(sid));
    let reclaimed = store.claim_media_entry();
    assert_eq!(reclaimed, Some(media_id));
    let (outcome, _) = process_media_file(
        &mut store,
        media_id,
        None,
        Some(SIDECAR_PAYLOAD),
        "archive",
    );
    assert!(matches!(outcome, MediaOutcome::Filed(_)));
    assert_eq!(store.records.len(), 1);
}
