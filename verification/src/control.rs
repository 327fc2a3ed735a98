//! The control surface around the pipeline: remote listing items and
//! their ingestion, the key-to-action and action-to-effect decisions of
//! the interactive layer, token freshness, and the progress board.

use vstd::prelude::*;
use crate::progress::Progress;
use crate::store::{Store, count_where, lemma_count_where_push, lemma_first_where_props,
    lemma_first_where_is, first_where};

verus! {

/// One item of a remote folder listing: a file or a folder, each with its
/// remote identifier and display name.
#[derive(Debug, Clone)]
pub enum DriveItem {
    File(String, String),
    Folder(String, String),
}

/// Credentials for the remote storage provider, with an optional expiry
/// timestamp for the access token.
#[derive(Debug, Clone)]
pub struct Tokens {
    pub access_token: String,
    pub refresh_token: String,
    pub expires_at: Option<u64>,
}

impl Tokens {
    /// An access token is still fresh when its expiry lies strictly in
    /// the future; one without a recorded expiry must be refreshed.
    pub fn is_fresh(&self, now: u64) -> (r: bool)
        ensures
            r == match self.expires_at {
                Some(e) => e > now,
                None => false,
            },
    {
        match self.expires_at {
            Some(e) => e > now,
            None => false,
        }
    }
}

/// Which of the two views the interactive layer is showing.
#[derive(Debug, Clone, PartialEq, Eq, Structural)]
pub enum FileListWidgetViewState {
    Files,
    Processing,
}

impl Default for FileListWidgetViewState {
    fn default() -> (r: FileListWidgetViewState)
        ensures
            r is Files,
    {
        FileListWidgetViewState::Files
    }
}

/// The actions the interactive layer can ask for.
#[derive(Debug, Clone, PartialEq, Eq, Structural)]
pub enum UiActions {
    StartProcessing,
    ScrollDown,
    ScrollUp,
    SelectItem,
    SwitchView,
    Quit,
}

impl Default for UiActions {
    fn default() -> (r: UiActions)
        ensures
            r is SelectItem,
    {
        UiActions::SelectItem
    }
}

/// A key press, reduced to what the action mapping reads.
#[derive(Debug, Clone, Copy, PartialEq, Eq, Structural)]
pub enum KeyInput {
    Esc,
    Enter,
    Up,
    Down,
    Char(char),
    CtrlChar(char),
}

/// What a key press asks for.
pub open spec fn spec_action_for_key(k: KeyInput) -> Option<UiActions> {
    match k {
        KeyInput::Esc => Some(UiActions::Quit),
        KeyInput::Enter => Some(UiActions::SelectItem),
        KeyInput::Up => Some(UiActions::ScrollUp),
        KeyInput::Down => Some(UiActions::ScrollDown),
        KeyInput::Char(c) => {
            if c == 'q' {
                Some(UiActions::Quit)
            } else if c == 's' || c == 'S' {
                Some(UiActions::StartProcessing)
            } else if c == 'v' || c == 'V' {
                Some(UiActions::SwitchView)
            } else {
                None
            }
        },
        KeyInput::CtrlChar(c) => {
            if c == 'c' || c == 'C' {
                Some(UiActions::Quit)
            } else {
                None
            }
        },
    }
}

/// Maps one key press to the action it asks for.
pub fn action_for_key(k: KeyInput) -> (r: Option<UiActions>)
    ensures
        r == spec_action_for_key(k),
{
    match k {
        KeyInput::Esc => Some(UiActions::Quit),
        KeyInput::Enter => Some(UiActions::SelectItem),
        KeyInput::Up => Some(UiActions::ScrollUp),
        KeyInput::Down => Some(UiActions::ScrollDown),
        KeyInput::Char(c) => {
            if c == 'q' {
                Some(UiActions::Quit)
            } else if c == 's' || c == 'S' {
                Some(UiActions::StartProcessing)
            } else if c == 'v' || c == 'V' {
                Some(UiActions::SwitchView)
            } else {
                None
            }
        },
        KeyInput::CtrlChar(c) => {
            if c == 'c' || c == 'C' {
                Some(UiActions::Quit)
            } else {
                None
            }
        },
    }
}

/// The effect an action has, given the current view and whether the
/// pipeline is running.
#[derive(Debug, Clone, Copy, PartialEq, Eq, Structural)]
pub enum Effect {
    StoreFiles,
    StartPipeline,
    StopPipeline,
    ScrollDown,
    ScrollUp,
    SelectCurrent,
    ShowFiles,
    ShowProcessing,
    Quit,
}

pub open spec fn spec_handle_action(
    view: FileListWidgetViewState,
    processing: bool,
    action: UiActions,
) -> Effect {
    match action {
        UiActions::StartProcessing => match view {
            FileListWidgetViewState::Files => Effect::StoreFiles,
            FileListWidgetViewState::Processing => {
                if processing {
                    Effect::StopPipeline
                } else {
                    Effect::StartPipeline
                }
            },
        },
        UiActions::ScrollDown => Effect::ScrollDown,
        UiActions::ScrollUp => Effect::ScrollUp,
        UiActions::SelectItem => Effect::SelectCurrent,
        UiActions::SwitchView => match view {
            FileListWidgetViewState::Files => Effect::ShowProcessing,
            FileListWidgetViewState::Processing => Effect::ShowFiles,
        },
        UiActions::Quit => Effect::Quit,
    }
}

/// Decides what one requested action does in the current state; the
/// surrounding layer performs the effect.
pub fn handle_action(
    view: FileListWidgetViewState,
    processing: bool,
    action: UiActions,
) -> (e: Effect)
    ensures
        e == spec_handle_action(view, processing, action),
{
    match action {
        UiActions::StartProcessing => match view {
            FileListWidgetViewState::Files => Effect::StoreFiles,
            FileListWidgetViewState::Processing => {
                if processing {
                    Effect::StopPipeline
                } else {
                    Effect::StartPipeline
                }
            },
        },
        UiActions::ScrollDown => Effect::ScrollDown,
        UiActions::ScrollUp => Effect::ScrollUp,
        UiActions::SelectItem => Effect::SelectCurrent,
        UiActions::SwitchView => match view {
            FileListWidgetViewState::Files => Effect::ShowProcessing,
            FileListWidgetViewState::Processing => Effect::ShowFiles,
        },
        UiActions::Quit => Effect::Quit,
    }
}

/// Selecting a listed item only descends into folders.
pub fn selection_opens_folder(item: &DriveItem) -> (r: bool)
    ensures
        r == (item is Folder),
{
    matches!(item, DriveItem::Folder(_, _))
}

/// Records one listed remote file as an archive awaiting download;
/// folders are not archives.
pub fn store_file(store: &mut Store, item: &DriveItem) -> (r: Option<u64>)
    requires
        old(store).wf(),
        old(store)@.next_archive_id < u64::MAX,
    ensures
        final(store).wf(),
        match *item {
            DriveItem::File(_, _) => {
                &&& r == Some(old(store)@.next_archive_id)
                &&& final(store)@.archives.len() == old(store)@.archives.len() + 1
                &&& final(store)@.archives.subrange(0, old(store)@.archives.len() as int) =~= old(store)@.archives
                &&& (match *item {
                    DriveItem::File(eid, nm) => final(store)@.archives.last().external_id == eid
                        && final(store)@.archives.last().display_name == nm,
                    _ => false,
                })
                &&& final(store)@.archives.last().status is New
                &&& final(store)@.archives.last().id == old(store)@.next_archive_id
                &&& final(store)@.archives.last().local_staging_path@.len() == 0
                &&& final(store)@.entries == old(store)@.entries
                &&& final(store)@.records == old(store)@.records
                &&& final(store)@.next_archive_id == old(store)@.next_archive_id + 1
                &&& final(store)@.next_entry_id == old(store)@.next_entry_id
            },
            DriveItem::Folder(_, _) => r is None && final(store)@ == old(store)@,
        },
{
    match item {
        DriveItem::File(id, name) => Some(store.insert_archive(id.clone(), name.clone())),
        DriveItem::Folder(_, _) => None,
    }
}

/// The listed files among a remote listing; folders carry no archive.
pub open spec fn spec_count_files(s: Seq<DriveItem>) -> nat {
    count_where(s, |d: DriveItem| d is File)
}

/// The files of a remote listing, in listing order.
pub open spec fn listed_files(s: Seq<DriveItem>) -> Seq<DriveItem>
    decreases s.len(),
{
    if s.len() == 0 {
        Seq::empty()
    } else if s.last() is File {
        listed_files(s.drop_last()).push(s.last())
    } else {
        listed_files(s.drop_last())
    }
}

pub proof fn lemma_listed_files_len(s: Seq<DriveItem>)
    ensures
        listed_files(s).len() == spec_count_files(s),
    decreases s.len(),
{
    if s.len() > 0 {
        let t = s.drop_last();
        lemma_listed_files_len(t);
        lemma_count_where_push(t, |d: DriveItem| d is File, s.last());
        assert(t.push(s.last()) =~= s);
    }
}

/// The archive row one listed file is recorded as.
pub open spec fn ingested_row(row: crate::entities::Archive, item: DriveItem, id: int) -> bool {
    match item {
        DriveItem::File(eid, nm) => {
            &&& row.id == id
            &&& row.external_id == eid
            &&& row.display_name == nm
            &&& row.local_staging_path@.len() == 0
            &&& row.status is New
        },
        DriveItem::Folder(_, _) => false,
    }
}

/// Stores every listed file of a remote listing as a new archive, in
/// listing order, reporting progress over the whole listing.
#[verifier::loop_isolation(false)]
pub fn store_files(store: &mut Store, items: &Vec<DriveItem>) -> (reports: Vec<Progress>)
    requires
        old(store).wf(),
        old(store)@.next_archive_id + items@.len() <= u64::MAX,
    ensures
        final(store).wf(),
        final(store)@.archives.len() == old(store)@.archives.len() + spec_count_files(items@),
        final(store)@.archives.subrange(0, old(store)@.archives.len() as int) =~= old(store)@.archives,
        forall|j: int|
            old(store)@.archives.len() <= j < final(store)@.archives.len()
                ==> (#[trigger] final(store)@.archives[j]).status is New,
        forall|k: int|
            0 <= k < spec_count_files(items@) ==> ingested_row(
                final(store)@.archives[old(store)@.archives.len() + k],
                listed_files(items@)[k],
                old(store)@.next_archive_id + k,
            ),
        final(store)@.entries == old(store)@.entries,
        final(store)@.records == old(store)@.records,
        reports@.len() == spec_count_files(items@),
{
    let ghost v0 = store@;
    let len = items.len();
    let mut reports: Vec<Progress> = Vec::new();
    let mut k: usize = 0;
    let mut c: usize = 0;
    while k < len
        invariant
            k <= len,
            c <= k,
            c == spec_count_files(items@.subrange(0, k as int)),
            store.wf(),
            store@.next_archive_id == v0.next_archive_id + c,
            store@.archives.len() == v0.archives.len() + c,
            store@.archives.subrange(0, v0.archives.len() as int) =~= v0.archives,
            forall|j: int|
                v0.archives.len() <= j < store@.archives.len()
                    ==> (#[trigger] store@.archives[j]).status is New,
            forall|i: int|
                0 <= i < c ==> ingested_row(
                    store@.archives[v0.archives.len() + i],
                    listed_files(items@.subrange(0, k as int))[i],
                    v0.next_archive_id + i,
                ),
            store@.entries == v0.entries,
            store@.records == v0.records,
            reports@.len() == c,
        decreases len - k,
    {
        proof {
            assert(items@.subrange(0, k as int + 1) =~= items@.subrange(0, k as int).push(
                items@[k as int],
            ));
            assert(items@.subrange(0, k as int + 1).drop_last() =~= items@.subrange(0, k as int));
            lemma_count_where_push(
                items@.subrange(0, k as int),
                |d: DriveItem| d is File,
                items@[k as int],
            );
            lemma_listed_files_len(items@.subrange(0, k as int));
        }
        let ghost pre = store@;
        match store_file(store, &items[k]) {
            Some(_) => {
                reports.push(Progress { count: (k + 1) as u64, total: len as u64 });
                c += 1;
                proof {
                    assert forall|j: int| 0 <= j < pre.archives.len() implies store@.archives[j]
                        == pre.archives[j] by {
                        assert(store@.archives.subrange(0, pre.archives.len() as int)[j]
                            == pre.archives[j]);
                    }
                    assert(store@.archives.subrange(0, v0.archives.len() as int)
                        =~= pre.archives.subrange(0, v0.archives.len() as int));
                    assert forall|j: int|
                        v0.archives.len() <= j < store@.archives.len() implies (
                    #[trigger] store@.archives[j]).status is New by {
                        if j < pre.archives.len() {
                            assert(store@.archives[j] == pre.archives[j]);
                            assert(pre.archives[j].status is New);
                        } else {
                            assert(store@.archives[j] == store@.archives.last());
                        }
                    }
                }
            },
            None => {},
        }
        k += 1;
    }
    proof {
        assert(items@.subrange(0, len as int) =~= items@);
        lemma_listed_files_len(items@);
    }
    reports
}

/// The progress board the interactive layer reads: for each entity key,
/// the stage it is in and how far along it is.
#[derive(Debug)]
pub struct ProgressItem {
    pub key: String,
    pub stage: String,
    pub value: Progress,
}

#[derive(Debug)]
pub struct ProgressBoard {
    pub items: Vec<ProgressItem>,
}

impl ProgressBoard {
    pub fn new() -> (b: ProgressBoard)
        ensures
            b.items@.len() == 0,
    {
        ProgressBoard { items: Vec::new() }
    }

    /// Posts one progress observation: the entry under this key is
    /// replaced, or a new one appended for a key not yet seen.
    #[verifier::loop_isolation(false)]
    pub fn update_item_progress(&mut self, item: &str, task: &str, value: Progress)
        ensures
            match first_where(old(self).items@, |it: ProgressItem| it.key@ == item@) {
                Some(i) => final(self).items@.len() == old(self).items@.len() && (forall|j: int|
                    0 <= j < old(self).items@.len() && j != i ==> final(self).items@[j] == old(self).items@[j]) && final(self).items@[i].key@ == item@ && final(self).items@[i].stage@ == task@ && final(self).items@[i].value == value,
                None => final(self).items@.len() == old(self).items@.len() + 1 && final(self).items@.subrange(0, old(self).items@.len() as int) =~= old(self).items@ && final(self).items@.last().key@ == item@ && final(self).items@.last().stage@ == task@
                    && final(self).items@.last().value == value,
            },
    {
        let ghost p = |it: ProgressItem| it.key@ == item@;
        let n = self.items.len();
        let mut k: usize = 0;
        while k < n
            invariant
                self.items@ == old(self).items@,
                n == self.items.len(),
                k <= n,
                forall|j: int| 0 <= j < k ==> !p(self.items@[j]),
            decreases n - k,
        {
            let item_string = item.to_owned();
            if self.items[k].key == item_string {
                proof {
                    lemma_first_where_is(self.items@, p, k as int);
                }
                self.items[k] = ProgressItem { key: item.to_owned(), stage: task.to_owned(), value };
                return ;
            }
            k += 1;
        }
        proof {
            lemma_first_where_props(self.items@, p);
        }
        self.items.push(ProgressItem { key: item.to_owned(), stage: task.to_owned(), value });
    }
}

} // verus!
