use takeout_fixer::store::Store;
use takeout_fixer::entities::{ArchiveStatus, FileKind, classify_name,
    pairing_key_of};
use takeout_fixer::scheduler::{SchedulerState, Task};
use takeout_fixer::progress::Progress;
use takeout_fixer::extract::{extract_archive, finish_download, finish_extraction, EntryMeta};
use takeout_fixer::control::{DriveItem, Tokens, UiActions, FileListWidgetViewState, KeyInput,
    Effect, action_for_key, handle_action, selection_opens_folder, store_files, ProgressBoard};

#[test]
fn a_claim_succeeds_at_most_once_per_entity() {
    let mut store = Store::new();
    let a = store.insert_archive(String::from("r1"), String::from("one.tgz"));
    let b = store.insert_archive(String::from("r2"), String::from("two.tgz"));
    let first = store.claim_for_download(None);
    let second = store.claim_for_download(None);
    let third = store.claim_for_download(None);
    assert_eq!(first, Some(a));
    assert_eq!(second, Some(b));
    assert_eq!(third, None);
    assert!(matches!(store.get_archive(a).unwrap().status, ArchiveStatus::Downloading));
    assert!(matches!(store.get_archive(b).unwrap().status, ArchiveStatus::Downloading));
}

#[test]
fn download_claims_respect_the_backlog_cap() {
    let mut store = Store::new();
    let a = store.insert_archive(String::from("r1"), String::from("one.tgz"));
    let b = store.insert_archive(String::from("r2"), String::from("two.tgz"));
    assert_eq!(store.claim_for_download(Some(1)), Some(a));
    finish_download(&mut store, a, String::from("staging/one.tgz"));
    // one archive sits downloaded and unextracted: the cap blocks the next claim
    assert_eq!(store.claim_for_download(Some(1)), None);
    // without the guard the claim goes through
    assert_eq!(store.claim_for_download(None), Some(b));
}

#[test]
fn entries_are_not_claimable_until_extraction_completes() {
    let mut store = Store::new();
    let aid = store.insert_archive(String::from("r1"), String::from("one.tgz"));
    store.claim_for_download(None);
    finish_download(&mut store, aid, String::from("staging/one.tgz"));
    store.claim_for_examination();
    let entries = vec![
        EntryMeta { path: String::from("a.jpg"), is_regular: true },
        EntryMeta { path: String::from("a.jpg.json"), is_regular: true },
    ];
    extract_archive(&mut store, aid, "staging", &entries);
    // extraction still in flight: nothing is eligible yet
    assert_eq!(store.claim_media_entry(), None);
    assert_eq!(store.claim_sidecar_entry(), None);
    finish_extraction(&mut store, aid);
    assert!(store.claim_media_entry().is_some());
}

#[test]
fn extraction_reports_count_every_regular_entry() {
    let mut store = Store::new();
    let aid = store.insert_archive(String::from("r1"), String::from("one.tgz"));
    store.claim_for_download(None);
    finish_download(&mut store, aid, String::from("staging/one.tgz"));
    store.claim_for_examination();
    let entries = vec![
        EntryMeta { path: String::from("photos"), is_regular: false },
        EntryMeta { path: String::from("photos/a.jpg"), is_regular: true },
        EntryMeta { path: String::from("photos/b.jpg"), is_regular: true },
    ];
    let before = store.entries.len();
    let reports = extract_archive(&mut store, aid, "staging", &entries);
    assert_eq!(store.entries.len(), before + 2);
    assert_eq!(reports, vec![
        Progress { count: 1, total: 2 },
        Progress { count: 2, total: 2 },
    ]);
    // never decreasing, ending exactly full
    assert!(reports[0].per_mille() <= reports[1].per_mille());
    assert_eq!(reports[1].per_mille(), 1000);
}

#[test]
fn empty_extraction_reports_zero() {
    let mut store = Store::new();
    let aid = store.insert_archive(String::from("r1"), String::from("one.tgz"));
    store.claim_for_download(None);
    finish_download(&mut store, aid, String::from("staging/one.tgz"));
    store.claim_for_examination();
    let entries = vec![EntryMeta { path: String::from("photos"), is_regular: false }];
    let reports = extract_archive(&mut store, aid, "staging", &entries);
    assert_eq!(reports, vec![Progress { count: 0, total: 0 }]);
    assert_eq!(reports[0].per_mille(), 0);
    assert_eq!(store.entries.len(), 0);
}

#[test]
fn progress_values_are_clamped() {
    assert_eq!(Progress { count: 5, total: 10 }.per_mille(), 500);
    assert_eq!(Progress { count: 20, total: 10 }.per_mille(), 1000);
    assert_eq!(Progress { count: 0, total: 10 }.per_mille(), 0);
    assert_eq!(Progress { count: 3, total: 0 }.per_mille(), 0);
}

#[test]
fn names_classify_and_pair() {
    assert!(matches!(classify_name("a.jpg"), FileKind::Media));
    assert!(matches!(classify_name("a.jpg.json"), FileKind::Sidecar));
    assert!(matches!(classify_name("b.mp4"), FileKind::Media));
    assert!(matches!(classify_name("json"), FileKind::Media));
    assert_eq!(pairing_key_of("a.jpg.json"), "a.jpg");
    assert_eq!(pairing_key_of("a.jpg"), "a.jpg");
    assert_eq!(pairing_key_of("b.mp4"), "b.mp4");
}

#[test]
fn budgets_gate_new_units_of_work() {
    let mut s = SchedulerState::new();
    assert!(!s.is_processing());
    // before the pipeline is armed, no stage has budget
    assert!(!s.start_task(Task::Download));
    s.start_processing();
    assert!(s.is_processing());
    for _ in 0..5 {
        assert!(s.start_task(Task::Download));
    }
    assert!(!s.start_task(Task::Download));
    // the slot comes back on completion, success or failure alike
    assert!(s.stop_task(Task::Download));
    assert!(s.start_task(Task::Download));
    // stages are independent
    for _ in 0..10 {
        assert!(s.start_task(Task::MediaProcessing));
    }
    assert!(!s.start_task(Task::MediaProcessing));
    assert!(s.start_task(Task::Examination));
    assert!(s.start_task(Task::JsonProcessing));
    s.stop_processing();
    assert!(!s.is_processing());
    // stopping strands no counter
    assert!(s.stop_task(Task::Examination));
    assert!(!s.stop_task(Task::Examination));
}

#[test]
fn stage_limits_are_tunable() {
    let mut s = SchedulerState::new();
    s.set_stage_limit(Task::Download, 2);
    assert!(s.start_task(Task::Download));
    assert!(s.start_task(Task::Download));
    assert!(!s.start_task(Task::Download));
}

#[test]
fn listed_files_become_new_archives() {
    let mut store = Store::new();
    let items = vec![
        DriveItem::Folder(String::from("f1"), String::from("Takeout")),
        DriveItem::File(String::from("d1"), String::from("takeout-001.tgz")),
        DriveItem::File(String::from("d2"), String::from("takeout-002.tgz")),
    ];
    let reports = store_files(&mut store, &items);
    assert_eq!(store.archives.len(), 2);
    assert_eq!(reports.len(), 2);
    assert_eq!(store.archives[0].external_id, "d1");
    assert_eq!(store.archives[0].display_name, "takeout-001.tgz");
    assert!(matches!(store.archives[0].status, ArchiveStatus::New));
    assert!(matches!(store.archives[1].status, ArchiveStatus::New));
    assert!(selection_opens_folder(&items[0]));
    assert!(!selection_opens_folder(&items[1]));
}

#[test]
fn key_presses_map_to_actions() {
    assert_eq!(action_for_key(KeyInput::Esc), Some(UiActions::Quit));
    assert_eq!(action_for_key(KeyInput::Char('q')), Some(UiActions::Quit));
    assert_eq!(action_for_key(KeyInput::CtrlChar('c')), Some(UiActions::Quit));
    assert_eq!(action_for_key(KeyInput::CtrlChar('x')), None);
    assert_eq!(action_for_key(KeyInput::Enter), Some(UiActions::SelectItem));
    assert_eq!(action_for_key(KeyInput::Up), Some(UiActions::ScrollUp));
    assert_eq!(action_for_key(KeyInput::Down), Some(UiActions::ScrollDown));
    assert_eq!(action_for_key(KeyInput::Char('s')), Some(UiActions::StartProcessing));
    assert_eq!(action_for_key(KeyInput::Char('V')), Some(UiActions::SwitchView));
    assert_eq!(action_for_key(KeyInput::Char('z')), None);
}

#[test]
fn actions_map_to_effects_by_view_and_state() {
    assert_eq!(handle_action(FileListWidgetViewState::Files, false, UiActions::StartProcessing), Effect::StoreFiles);
    assert_eq!(
        handle_action(FileListWidgetViewState::Processing, false, UiActions::StartProcessing),
        Effect::StartPipeline,
    );
    assert_eq!(
        handle_action(FileListWidgetViewState::Processing, true, UiActions::StartProcessing),
        Effect::StopPipeline,
    );
    assert_eq!(handle_action(FileListWidgetViewState::Files, false, UiActions::SwitchView), Effect::ShowProcessing);
    assert_eq!(handle_action(FileListWidgetViewState::Processing, false, UiActions::SwitchView), Effect::ShowFiles);
    assert_eq!(handle_action(FileListWidgetViewState::Files, false, UiActions::Quit), Effect::Quit);
    assert_eq!(handle_action(FileListWidgetViewState::Files, false, UiActions::ScrollUp), Effect::ScrollUp);
    assert_eq!(handle_action(FileListWidgetViewState::Files, false, UiActions::ScrollDown), Effect::ScrollDown);
    assert_eq!(handle_action(FileListWidgetViewState::Files, false, UiActions::SelectItem), Effect::SelectCurrent);
}

#[test]
fn token_freshness_goes_by_expiry() {
    let t = Tokens {
        access_token: String::from("SECRET-REDACTED"),
        refresh_token: String::from("SECRET-REDACTED"),
        expires_at: Some(1000),
    };
    assert!(t.is_fresh(999));
    assert!(!t.is_fresh(1000));
    let unknown = Tokens { expires_at: None, ..t };
    assert!(!unknown.is_fresh(0));
}

#[test]
fn progress_board_replaces_by_key() {
    let mut b = ProgressBoard::new();
    b.update_item_progress("one.tgz", "downloading", Progress { count: 1, total: 4 });
    b.update_item_progress("two.tgz", "unzipping", Progress { count: 1, total: 2 });
    b.update_item_progress("one.tgz", "downloading", Progress { count: 3, total: 4 });
    assert_eq!(b.items.len(), 2);
    assert_eq!(b.items[0].key, "one.tgz");
    assert_eq!(b.items[0].value, Progress { count: 3, total: 4 });
    assert_eq!(b.items[1].key, "two.tgz");
}
