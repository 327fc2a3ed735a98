//! Per-stage concurrency budgets for the polling pipeline.
//!
//! Each stage kind holds an independent counter of in-flight units of work
//! and a budget.  A unit of work is started only after [`SchedulerState::start_task`]
//! grants a slot, and the slot is handed back through [`SchedulerState::stop_task`]
//! on both the success and the failure path.  The counters only gate new
//! claims; exclusivity of a claimed entity is the store's job.

use vstd::prelude::*;

verus! {

/// The four stage kinds of the pipeline.
#[derive(Debug, Clone, Copy, PartialEq, Eq, Structural)]
pub enum Task {
    Download,
    Examination,
    MediaProcessing,
    JsonProcessing,
}

/// The scheduler's private control state: one in-flight counter and one
/// budget per stage, and the running flag of the polling loop.
#[derive(Debug, Clone, Copy, PartialEq, Eq, Structural)]
pub struct SchedulerState {
    pub running: bool,
    pub download_count: u8,
    pub download_max: u8,
    pub examination_count: u8,
    pub examination_max: u8,
    pub media_count: u8,
    pub media_max: u8,
    pub json_count: u8,
    pub json_max: u8,
}

/// The default budget for the download stage.
pub const DEFAULT_DOWNLOAD_LIMIT: u8 = 5;

/// The default budget for the extraction stage.
pub const DEFAULT_EXAMINATION_LIMIT: u8 = 5;

/// The default budget for the media-processing stage.
pub const DEFAULT_MEDIA_LIMIT: u8 = 10;

/// The default budget for the sidecar-processing stage.
pub const DEFAULT_JSON_LIMIT: u8 = 10;

impl SchedulerState {
    pub open spec fn count_of(self, t: Task) -> u8 {
        match t {
            Task::Download => self.download_count,
            Task::Examination => self.examination_count,
            Task::MediaProcessing => self.media_count,
            Task::JsonProcessing => self.json_count,
        }
    }

    pub open spec fn max_of(self, t: Task) -> u8 {
        match t {
            Task::Download => self.download_max,
            Task::Examination => self.examination_max,
            Task::MediaProcessing => self.media_max,
            Task::JsonProcessing => self.json_max,
        }
    }

    /// Everything but the counter of stage `t` is the same in both
    /// states.
    pub open spec fn same_but_count(self, other: SchedulerState, t: Task) -> bool {
        &&& self.running == other.running
        &&& forall|u: Task| self.max_of(u) == other.max_of(u)
        &&& forall|u: Task| u != t ==> self.count_of(u) == other.count_of(u)
    }

    /// An idle scheduler: nothing in flight, nothing budgeted, stopped.
    pub fn new() -> (s: SchedulerState)
        ensures
            !s.running,
            forall|t: Task| s.count_of(t) == 0,
            forall|t: Task| s.max_of(t) == 0,
    {
        SchedulerState {
            running: false,
            download_count: 0,
            download_max: 0,
            examination_count: 0,
            examination_max: 0,
            media_count: 0,
            media_max: 0,
            json_count: 0,
            json_max: 0,
        }
    }

    /// Arms the pipeline: raises the running flag, installs the default
    /// per-stage budgets and resets every in-flight counter.
    pub fn start_processing(&mut self)
        ensures
            final(self).running,
            forall|t: Task| final(self).count_of(t) == 0,
            final(self).max_of(Task::Download) == DEFAULT_DOWNLOAD_LIMIT,
            final(self).max_of(Task::Examination) == DEFAULT_EXAMINATION_LIMIT,
            final(self).max_of(Task::MediaProcessing) == DEFAULT_MEDIA_LIMIT,
            final(self).max_of(Task::JsonProcessing) == DEFAULT_JSON_LIMIT,
    {
        self.running = true;
        self.download_count = 0;
        self.examination_count = 0;
        self.media_count = 0;
        self.json_count = 0;
        self.download_max = DEFAULT_DOWNLOAD_LIMIT;
        self.examination_max = DEFAULT_EXAMINATION_LIMIT;
        self.media_max = DEFAULT_MEDIA_LIMIT;
        self.json_max = DEFAULT_JSON_LIMIT;
    }

    /// Lowers the running flag; the loop exits after its current tick and
    /// in-flight units of work are left to finish.
    pub fn stop_processing(&mut self)
        ensures
            !final(self).running,
            forall|t: Task| final(self).count_of(t) == old(self).count_of(t),
            forall|t: Task| final(self).max_of(t) == old(self).max_of(t),
    {
        self.running = false;
    }

    pub fn is_processing(&self) -> (r: bool)
        ensures
            r == self.running,
    {
        self.running
    }

    /// Exposed to the surrounding control layer to tune one stage's
    /// budget.
    pub fn set_stage_limit(&mut self, t: Task, n: u8)
        ensures
            final(self).max_of(t) == n,
            final(self).running == old(self).running,
            forall|u: Task| final(self).count_of(u) == old(self).count_of(u),
            forall|u: Task| u != t ==> final(self).max_of(u) == old(self).max_of(u),
    {
        match t {
            Task::Download => self.download_max = n,
            Task::Examination => self.examination_max = n,
            Task::MediaProcessing => self.media_max = n,
            Task::JsonProcessing => self.json_max = n,
        }
    }

    /// Takes one slot of stage `t`'s budget; grants it exactly when the
    /// stage has spare budget.
    pub fn start_task(&mut self, t: Task) -> (started: bool)
        ensures
            started == (old(self).count_of(t) < old(self).max_of(t)),
            started ==> final(self).count_of(t) == old(self).count_of(t) + 1,
            !started ==> *final(self) == *old(self),
            final(self).same_but_count(*old(self), t),
    {
        match t {
            Task::Download => {
                if self.download_count < self.download_max {
                    self.download_count = self.download_count + 1;
                    true
                } else {
                    false
                }
            },
            Task::Examination => {
                if self.examination_count < self.examination_max {
                    self.examination_count = self.examination_count + 1;
                    true
                } else {
                    false
                }
            },
            Task::MediaProcessing => {
                if self.media_count < self.media_max {
                    self.media_count = self.media_count + 1;
                    true
                } else {
                    false
                }
            },
            Task::JsonProcessing => {
                if self.json_count < self.json_max {
                    self.json_count = self.json_count + 1;
                    true
                } else {
                    false
                }
            },
        }
    }

    /// Hands one slot of stage `t` back; run on completion of a unit of
    /// work, whether it succeeded or failed.
    pub fn stop_task(&mut self, t: Task) -> (stopped: bool)
        ensures
            stopped == (old(self).count_of(t) > 0),
            stopped ==> final(self).count_of(t) == old(self).count_of(t) - 1,
            !stopped ==> *final(self) == *old(self),
            final(self).same_but_count(*old(self), t),
    {
        match t {
            Task::Download => {
                if self.download_count > 0 {
                    self.download_count = self.download_count - 1;
                    true
                } else {
                    false
                }
            },
            Task::Examination => {
                if self.examination_count > 0 {
                    self.examination_count = self.examination_count - 1;
                    true
                } else {
                    false
                }
            },
            Task::MediaProcessing => {
                if self.media_count > 0 {
                    self.media_count = self.media_count - 1;
                    true
                } else {
                    false
                }
            },
            Task::JsonProcessing => {
                if self.json_count > 0 {
                    self.json_count = self.json_count - 1;
                    true
                } else {
                    false
                }
            },
        }
    }

    /// A started unit of work always gets its slot back: releasing right
    /// after taking restores the state exactly.
    pub proof fn lemma_stop_undoes_start(s0: SchedulerState, s1: SchedulerState, s2: SchedulerState, t: Task)
        requires
            s0.count_of(t) < s0.max_of(t),
            s1.count_of(t) == s0.count_of(t) + 1,
            s1.same_but_count(s0, t),
            s2.count_of(t) == s1.count_of(t) - 1,
            s2.same_but_count(s1, t),
        ensures
            forall|u: Task| s2.count_of(u) == s0.count_of(u),
            forall|u: Task| s2.max_of(u) == s0.max_of(u),
            s2.running == s0.running,
    {
    }
}

impl Default for SchedulerState {
    /// Same as [`SchedulerState::new`].
    fn default() -> (s: SchedulerState)
        ensures
            !s.running,
            forall|t: Task| s.count_of(t) == 0,
            forall|t: Task| s.max_of(t) == 0,
    {
        SchedulerState::new()
    }
}

} // verus!
