//! The maintenance pipeline: seven stages in a fixed order, each run once, with a cursor
//! that survives a crash.

use vstd::prelude::*;
use crate::rulespec::text_view;
use crate::text::{chars_of, decimal, push_decimal, push_str, slice_chars, str_eq, string_of};

verus! {

/// A stage of the pipeline, as it is defined.
#[derive(Clone, Copy, Debug)]
pub struct Stage {
    /// Name of the agent that runs the stage.
    pub name: &'static str,
    /// What the stage is, for a reader.
    pub description: &'static str,
    /// What the agent looks at.
    pub focus: &'static str,
}

/// Mathematical form of a [`Stage`].
pub struct StageView {
    pub name: Seq<char>,
    pub description: Seq<char>,
    pub focus: Seq<char>,
}

impl View for Stage {
    type V = StageView;

    open spec fn view(&self) -> StageView {
        StageView { name: self.name@, description: self.description@, focus: self.focus@ }
    }
}

/// Number of stages of the pipeline.
pub const STAGE_COUNT: usize = 7;

/// The name of the stage at `index`.
pub open spec fn stage_name(index: int) -> Seq<char> {
    if index == 0 {
        "euler"@
    } else if index == 1 {
        "breaker"@
    } else if index == 2 {
        "hopper"@
    } else if index == 3 {
        "fowler"@
    } else if index == 4 {
        "carmack"@
    } else if index == 5 {
        "lamport"@
    } else {
        "huffman"@
    }
}

/// What the stage at `index` is, for a reader.
pub open spec fn stage_description(index: int) -> Seq<char> {
    if index == 0 {
        "Dependency Analysis"@
    } else if index == 1 {
        "Edge Case Discovery"@
    } else if index == 2 {
        "Testing & Verification"@
    } else if index == 3 {
        "Refactoring"@
    } else if index == 4 {
        "Code Polish"@
    } else if index == 5 {
        "Documentation"@
    } else {
        "Memory Compression"@
    }
}

/// What the agent of the stage at `index` looks at.
pub open spec fn stage_focus(index: int) -> Seq<char> {
    if index == 0 {
        "dependency graph and hotspots"@
    } else if index == 1 {
        "whitebox exploration and failure cases"@
    } else if index == 2 {
        "deep testing and regression integrity"@
    } else if index == 3 {
        "deduplication and complexity reduction"@
    } else if index == 4 {
        "readability, modularity and concision"@
    } else if index == 5 {
        "human-readable docs and validation"@
    } else {
        "semantic compression to preserve signal"@
    }
}

/// The stage at `index`, as it is defined.
pub open spec fn stage_at(index: int) -> StageView {
    StageView {
        name: stage_name(index),
        description: stage_description(index),
        focus: stage_focus(index),
    }
}

/// The stages of the pipeline, in the order in which they run.
pub fn pipeline_stages() -> (r: Vec<Stage>)
    ensures
        r@.len() == STAGE_COUNT,
        forall|i: int| 0 <= i < STAGE_COUNT ==> (#[trigger] r@[i])@ == stage_at(i),
        forall|i: int| 0 <= i < STAGE_COUNT ==> (#[trigger] r@[i]).name@ == stage_name(i),
{
    let mut v: Vec<Stage> = Vec::new();
    v.push(
        Stage {
            name: "euler",
            description: "Dependency Analysis",
            focus: "dependency graph and hotspots",
        },
    );
    v.push(
        Stage {
            name: "breaker",
            description: "Edge Case Discovery",
            focus: "whitebox exploration and failure cases",
        },
    );
    v.push(
        Stage {
            name: "hopper",
            description: "Testing & Verification",
            focus: "deep testing and regression integrity",
        },
    );
    v.push(
        Stage {
            name: "fowler",
            description: "Refactoring",
            focus: "deduplication and complexity reduction",
        },
    );
    v.push(
        Stage {
            name: "carmack",
            description: "Code Polish",
            focus: "readability, modularity and concision",
        },
    );
    v.push(
        Stage {
            name: "lamport",
            description: "Documentation",
            focus: "human-readable docs and validation",
        },
    );
    v.push(
        Stage {
            name: "huffman",
            description: "Memory Compression",
            focus: "semantic compression to preserve signal",
        },
    );
    v
}

/// Index of the first stage named `name`, if there is one.
pub open spec fn stage_index(name: Seq<char>) -> Option<int> {
    if name == stage_name(0) {
        Some(0)
    } else if name == stage_name(1) {
        Some(1)
    } else if name == stage_name(2) {
        Some(2)
    } else if name == stage_name(3) {
        Some(3)
    } else if name == stage_name(4) {
        Some(4)
    } else if name == stage_name(5) {
        Some(5)
    } else if name == stage_name(6) {
        Some(6)
    } else {
        None
    }
}

/// The index of the stage named `name`.
pub fn get_stage_index(name: &str) -> (r: Option<usize>)
    ensures
        match r {
            Some(i) => stage_index(name@) == Some(i as int),
            None => stage_index(name@) is None,
        },
{
    let stages = pipeline_stages();
    let mut i: usize = 0;
    while i < stages.len()
        invariant
            i <= stages.len(),
            stages@.len() == STAGE_COUNT,
            forall|k: int| 0 <= k < STAGE_COUNT ==> (#[trigger] stages@[k]).name@ == stage_name(k),
            forall|k: int| 0 <= k < i ==> stage_name(k) != name@,
        decreases stages.len() - i,
    {
        if str_eq(stages[i].name, name) {
            return Some(i);
        }
        i += 1;
    }
    assert(stage_name(0) != name@ && stage_name(1) != name@ && stage_name(2) != name@
        && stage_name(3) != name@ && stage_name(4) != name@ && stage_name(5) != name@
        && stage_name(6) != name@);
    None
}

/// The stage named `name`, as it is defined.
pub fn get_stage(name: &str) -> (r: Option<Stage>)
    ensures
        match r {
            Some(s) => stage_index(name@) is Some && s@ == stage_at(stage_index(name@)->0)
                && s.name@ == name@,
            None => stage_index(name@) is None,
        },
{
    match get_stage_index(name) {
        Some(i) => {
            let stages = pipeline_stages();
            Some(stages[i])
        },
        None => None,
    }
}

/// A point in time: seconds since the start of 1970 in UTC, and nanoseconds within the
/// second.
#[derive(Clone, Copy, Debug, PartialEq, Eq, Structural)]
pub struct Timestamp {
    pub secs: i64,
    pub nanos: u32,
}

/// How far a stage has come.
#[derive(Clone, Debug, PartialEq, Eq)]
pub enum StageStatus {
    /// Not yet started.
    Pending,
    /// Started and not ended: after a crash, a sign of it.
    Running,
    /// Ended well.
    Complete { duration_secs: u64, commits_processed: u32 },
    /// Ended with an error, after so many attempts.
    Failed { error: String, attempts: u32 },
    /// Left out.
    Skipped { reason: String },
}

/// Mathematical form of a [`StageStatus`].
pub enum StageStatusView {
    Pending,
    Running,
    Complete { duration_secs: u64, commits_processed: u32 },
    Failed { error: Seq<char>, attempts: u32 },
    Skipped { reason: Seq<char> },
}

impl View for StageStatus {
    type V = StageStatusView;

    open spec fn view(&self) -> StageStatusView {
        match self {
            StageStatus::Pending => StageStatusView::Pending,
            StageStatus::Running => StageStatusView::Running,
            StageStatus::Complete { duration_secs, commits_processed } => StageStatusView::Complete {
                duration_secs: *duration_secs,
                commits_processed: *commits_processed,
            },
            StageStatus::Failed { error, attempts } => StageStatusView::Failed {
                error: error@,
                attempts: *attempts,
            },
            StageStatus::Skipped { reason } => StageStatusView::Skipped { reason: reason@ },
        }
    }
}

impl StageStatus {
    /// Whether two statuses are the same.
    pub fn same(&self, other: &StageStatus) -> (r: bool)
        ensures
            r == (self@ == other@),
    {
        match self {
            StageStatus::Pending => match other {
                StageStatus::Pending => true,
                _ => false,
            },
            StageStatus::Running => match other {
                StageStatus::Running => true,
                _ => false,
            },
            StageStatus::Complete { duration_secs, commits_processed } => match other {
                StageStatus::Complete { duration_secs: d, commits_processed: c } => *duration_secs
                    == *d && *commits_processed == *c,
                _ => false,
            },
            StageStatus::Failed { error, attempts } => match other {
                StageStatus::Failed { error: e, attempts: a } => *error == *e && *attempts == *a,
                _ => false,
            },
            StageStatus::Skipped { reason } => match other {
                StageStatus::Skipped { reason: r } => *reason == *r,
                _ => false,
            },
        }
    }
}

/// Whether a stage with this status is over: complete or skipped.
pub open spec fn status_done(s: StageStatusView) -> bool {
    s is Complete || s is Skipped
}

/// The state of one stage.
#[derive(Clone, Debug, PartialEq, Eq)]
pub struct StageState {
    /// Name of the agent.
    pub name: String,
    /// How far the stage has come.
    pub status: StageStatus,
    /// When the stage started.
    pub started_at: Option<Timestamp>,
    /// When the stage ended.
    pub completed_at: Option<Timestamp>,
    /// The commit at which the stage last ran.
    pub last_commit: Option<String>,
    /// How often the stage has failed so far; a retry keeps the count.
    pub attempts: u32,
}

/// Mathematical form of a [`StageState`].
pub struct StageStateView {
    pub name: Seq<char>,
    pub status: StageStatusView,
    pub started_at: Option<Timestamp>,
    pub completed_at: Option<Timestamp>,
    pub last_commit: Option<Seq<char>>,
    pub attempts: u32,
}

impl View for StageState {
    type V = StageStateView;

    open spec fn view(&self) -> StageStateView {
        StageStateView {
            name: self.name@,
            status: self.status@,
            started_at: self.started_at,
            completed_at: self.completed_at,
            last_commit: text_view(self.last_commit),
            attempts: self.attempts,
        }
    }
}

impl StageState {
    /// A pending stage of the given name.
    pub fn new(name: &str) -> (r: StageState)
        ensures
            r@ == (StageStateView {
                name: name@,
                status: StageStatusView::Pending,
                started_at: None,
                completed_at: None,
                last_commit: None,
                attempts: 0,
            }),
    {
        StageState {
            name: name.to_string(),
            status: StageStatus::Pending,
            started_at: None,
            completed_at: None,
            last_commit: None,
            attempts: 0,
        }
    }
}

/// The state of a whole run of the pipeline.
#[derive(Clone, Debug, PartialEq, Eq)]
pub struct PipelineState {
    /// What tells this run from others.
    pub run_id: String,
    /// When the run started.
    pub started_at: Timestamp,
    /// When the run ended.
    pub completed_at: Option<Timestamp>,
    /// Index of the stage that is next to run.
    pub current_stage: usize,
    /// The state of each stage, in order.
    pub stages: Vec<StageState>,
    /// The commit up to which the history is processed.
    pub commit_cursor: Option<String>,
    /// How many commits one run takes.
    pub commits_per_run: u32,
    /// The worktree session, for recovery after a crash.
    pub session_id: Option<String>,
}

/// Mathematical form of a [`PipelineState`].
pub struct PipelineView {
    pub run_id: Seq<char>,
    pub started_at: Timestamp,
    pub completed_at: Option<Timestamp>,
    pub current_stage: nat,
    pub stages: Seq<StageStateView>,
    pub commit_cursor: Option<Seq<char>>,
    pub commits_per_run: u32,
    pub session_id: Option<Seq<char>>,
}

/// The views of a run of stage states, in order.
pub open spec fn stage_views(stages: Seq<StageState>) -> Seq<StageStateView> {
    Seq::new(stages.len(), |i: int| stages[i]@)
}

impl View for PipelineState {
    type V = PipelineView;

    open spec fn view(&self) -> PipelineView {
        PipelineView {
            run_id: self.run_id@,
            started_at: self.started_at,
            completed_at: self.completed_at,
            current_stage: self.current_stage as nat,
            stages: stage_views(self.stages@),
            commit_cursor: text_view(self.commit_cursor),
            commits_per_run: self.commits_per_run,
            session_id: text_view(self.session_id),
        }
    }
}

/// The time now, from `chrono::Utc::now`.
///
/// Trusted for nothing: the result is whatever the clock says.
#[verifier::external_body]
fn current_time() -> (t: Timestamp) {
    let now = chrono::Utc::now();
    Timestamp { secs: now.timestamp(), nanos: now.timestamp_subsec_nanos() }
}

/// The text of a fresh random identifier, from `uuid::Uuid::new_v4`.
///
/// Trusted for the length alone: the hyphenated form has 36 characters.
#[verifier::external_body]
fn fresh_uuid_text() -> (s: String)
    ensures
        s@.len() == 36,
{
    uuid::Uuid::new_v4().to_string()
}

/// Index of the first stage from `i` on that is not over, or the number of stages.
pub open spec fn resume_point(stages: Seq<StageStateView>, i: int) -> int
    decreases stages.len() - i,
{
    if i < 0 || i >= stages.len() {
        stages.len() as int
    } else if !status_done(stages[i].status) {
        i
    } else {
        resume_point(stages, i + 1)
    }
}

/// The stage index after the stage at `current` has ended: the next one, but the last
/// stage stays current.
pub open spec fn advanced(current: nat) -> nat {
    if current < STAGE_COUNT - 1 {
        current + 1
    } else {
        current
    }
}

/// Why a stage cannot be tried again.
#[derive(Clone, Debug, PartialEq, Eq)]
pub enum RetryError {
    /// The stage, of this name, has not failed.
    NotFailed(String),
    /// The index of the current stage is past the last stage.
    InvalidStage,
}

impl RetryError {
    /// The message that goes with this error.
    pub fn to_string(&self) -> (s: String)
        ensures
            s@ == match self {
                RetryError::NotFailed(name) => "Stage '"@ + name@ + "' is not in failed state"@,
                RetryError::InvalidStage => "Invalid current stage index"@,
            },
    {
        match self {
            RetryError::NotFailed(name) => {
                let mut out: Vec<char> = Vec::new();
                push_str(&mut out, "Stage '");
                push_str(&mut out, name.as_str());
                push_str(&mut out, "' is not in failed state");
                assert(out@ =~= "Stage '"@ + name@ + "' is not in failed state"@);
                string_of(&out)
            },
            RetryError::InvalidStage => "Invalid current stage index".to_string(),
        }
    }
}

impl PipelineState {
    /// A new run: every stage pending, the first stage current, a fresh identifier of
    /// eight characters, started now.
    pub fn new(commits_per_run: u32) -> (r: PipelineState)
        ensures
            r@.stages.len() == STAGE_COUNT,
            forall|i: int|
                0 <= i < STAGE_COUNT ==> (#[trigger] r@.stages[i]) == (StageStateView {
                    name: stage_name(i),
                    status: StageStatusView::Pending,
                    started_at: None,
                    completed_at: None,
                    last_commit: None,
                    attempts: 0,
                }),
            r@.current_stage == 0,
            r@.commits_per_run == commits_per_run,
            r@.completed_at is None,
            r@.commit_cursor is None,
            r@.session_id is None,
            r@.run_id.len() == 8,
    {
        let uuid = chars_of(fresh_uuid_text().as_str());
        let run_id = string_of(&slice_chars(&uuid, 0, 8));
        let defs = pipeline_stages();
        let mut stages: Vec<StageState> = Vec::new();
        let mut i: usize = 0;
        while i < defs.len()
            invariant
                i <= defs.len(),
                defs@.len() == STAGE_COUNT,
                forall|k: int| 0 <= k < STAGE_COUNT ==> (#[trigger] defs@[k]).name@ == stage_name(k),
                stages@.len() == i,
                forall|k: int|
                    0 <= k < i ==> (#[trigger] stages@[k])@ == (StageStateView {
                        name: stage_name(k),
                        status: StageStatusView::Pending,
                        started_at: None,
                        completed_at: None,
                        last_commit: None,
                        attempts: 0,
                    }),
            decreases defs.len() - i,
        {
            stages.push(StageState::new(defs[i].name));
            i += 1;
        }
        PipelineState {
            run_id,
            started_at: current_time(),
            completed_at: None,
            current_stage: 0,
            stages,
            commit_cursor: None,
            commits_per_run,
            session_id: None,
        }
    }

    /// Whether every stage is over: complete or skipped.
    pub fn is_complete(&self) -> (r: bool)
        ensures
            r == (forall|i: int|
                0 <= i < self@.stages.len() ==> status_done((#[trigger] self@.stages[i]).status)),
    {
        let ghost stages = self@.stages;
        let mut i: usize = 0;
        while i < self.stages.len()
            invariant
                i <= self.stages.len(),
                stages == stage_views(self.stages@),
                forall|k: int| 0 <= k < i ==> status_done((#[trigger] stages[k]).status),
            decreases self.stages.len() - i,
        {
            let done = match &self.stages[i].status {
                StageStatus::Complete { .. } => true,
                StageStatus::Skipped { .. } => true,
                _ => false,
            };
            if !done {
                assert(!status_done(stages[i as int].status));
                return false;
            }
            i += 1;
        }
        true
    }

    /// Whether some stage has failed.
    pub fn has_failures(&self) -> (r: bool)
        ensures
            r == (exists|i: int|
                0 <= i < self@.stages.len() && (#[trigger] self@.stages[i]).status is Failed),
    {
        let ghost stages = self@.stages;
        let mut i: usize = 0;
        while i < self.stages.len()
            invariant
                i <= self.stages.len(),
                stages == stage_views(self.stages@),
                forall|k: int| 0 <= k < i ==> !((#[trigger] stages[k]).status is Failed),
            decreases self.stages.len() - i,
        {
            let failed = match &self.stages[i].status {
                StageStatus::Failed { .. } => true,
                _ => false,
            };
            if failed {
                assert(stages[i as int].status is Failed);
                return true;
            }
            i += 1;
        }
        false
    }

    /// The definition of the current stage, where the index stands on one.
    pub fn current_stage_def(&self) -> (r: Option<Stage>)
        ensures
            match r {
                Some(s) => self.current_stage < STAGE_COUNT && s@ == stage_at(
                    self.current_stage as int,
                ),
                None => self.current_stage >= STAGE_COUNT,
            },
    {
        let defs = pipeline_stages();
        if self.current_stage < defs.len() {
            Some(defs[self.current_stage])
        } else {
            None
        }
    }
}


/// Whether two states differ in nothing but their stages, their current stage, the time of
/// their end and their cursor.
pub open spec fn same_run(a: PipelineView, b: PipelineView) -> bool {
    &&& a.run_id == b.run_id
    &&& a.started_at == b.started_at
    &&& a.commits_per_run == b.commits_per_run
    &&& a.session_id == b.session_id
}

/// Whether `b` has the stages of `a` but, perhaps, for the stage at `i`.
pub open spec fn stages_kept_but(a: Seq<StageStateView>, b: Seq<StageStateView>, i: int) -> bool {
    &&& a.len() == b.len()
    &&& forall|k: int| 0 <= k < a.len() && k != i ==> #[trigger] b[k] == a[k]
}

impl PipelineState {
    /// Takes the current stage out, hands it to the caller, and expects it back through
    /// [`Self::put_stage`].
    fn take_stage(&mut self) -> (stage: StageState)
        requires
            old(self).current_stage < old(self).stages@.len(),
        ensures
            stage@ == old(self)@.stages[old(self).current_stage as int],
            final(self).stages@ == old(self).stages@.remove(old(self).current_stage as int),
            final(self).current_stage == old(self).current_stage,
            same_run(old(self)@, final(self)@),
            final(self)@.completed_at == old(self)@.completed_at,
            final(self)@.commit_cursor == old(self)@.commit_cursor,
    {
        let at = self.current_stage;
        self.stages.remove(at)
    }

    /// Puts `stage` at the place of the current stage.
    fn put_stage(&mut self, stage: StageState, Ghost(before): Ghost<Seq<StageStateView>>)
        requires
            old(self).current_stage < before.len(),
            stage_views(old(self).stages@) == before.remove(old(self).current_stage as int),
        ensures
            final(self)@.stages == before.update(old(self).current_stage as int, stage@),
            final(self).current_stage == old(self).current_stage,
            same_run(old(self)@, final(self)@),
            final(self)@.completed_at == old(self)@.completed_at,
            final(self)@.commit_cursor == old(self)@.commit_cursor,
    {
        let at = self.current_stage;
        assert(self.stages@.len() == stage_views(self.stages@).len());
        let ghost rest = stage_views(self.stages@);
        self.stages.insert(at, stage);
        let ghost after = stage_views(self.stages@);
        assert forall|k: int| 0 <= k < after.len() implies after[k] == before.update(
            at as int,
            stage@,
        )[k] by {
            if k < at {
                assert(after[k] == rest[k]);
                assert(rest[k] == before[k]);
            } else if k > at {
                assert(after[k] == rest[k - 1]);
                assert(rest[k - 1] == before[k]);
            }
        }
        assert(after =~= before.update(at as int, stage@));
    }

    /// Marks the current stage as running, started now. Nothing happens where the index is
    /// past the last stage.
    pub fn mark_running(&mut self)
        ensures
            same_run(old(self)@, final(self)@),
            final(self)@.current_stage == old(self)@.current_stage,
            final(self)@.completed_at == old(self)@.completed_at,
            final(self)@.commit_cursor == old(self)@.commit_cursor,
            stages_kept_but(old(self)@.stages, final(self)@.stages, old(self).current_stage as int),
            old(self).current_stage < old(self)@.stages.len() ==> {
                let was = old(self)@.stages[old(self).current_stage as int];
                let now = final(self)@.stages[old(self).current_stage as int];
                &&& now.status == StageStatusView::Running
                &&& now.started_at is Some
                &&& now == (StageStateView {
                    status: StageStatusView::Running,
                    started_at: now.started_at,
                    ..was
                })
            },
    {
        if self.current_stage < self.stages.len() {
            let ghost before = self@.stages;
            assert(before.len() == self.stages@.len());
            let mut stage = self.take_stage();
            assert(stage_views(self.stages@) =~= before.remove(self.current_stage as int));
            stage.status = StageStatus::Running;
            stage.started_at = Some(current_time());
            self.put_stage(stage, Ghost(before));
        }
    }

    /// Moves on after the current stage has ended: to the next stage or, after the last
    /// stage, to the end of the run, which is now.
    fn advance(&mut self)
        ensures
            same_run(old(self)@, final(self)@),
            final(self)@.stages == old(self)@.stages,
            final(self)@.commit_cursor == old(self)@.commit_cursor,
            final(self)@.current_stage == advanced(old(self)@.current_stage),
            old(self).current_stage < STAGE_COUNT - 1 ==> final(self)@.completed_at == old(
                self,
            )@.completed_at,
            old(self).current_stage >= STAGE_COUNT - 1 ==> final(self)@.completed_at is Some,
    {
        if self.current_stage < STAGE_COUNT - 1 {
            self.current_stage += 1;
        } else {
            self.completed_at = Some(current_time());
        }
    }

    /// Marks the current stage as complete, ended now at the commit `commit_hash`, moves
    /// the cursor to that commit, and moves on: to the next stage or, after the last one,
    /// to the end of the run.
    pub fn mark_complete(&mut self, duration_secs: u64, commits_processed: u32, commit_hash: &str)
        ensures
            same_run(old(self)@, final(self)@),
            final(self)@.current_stage == advanced(old(self)@.current_stage),
            final(self)@.commit_cursor == Some(commit_hash@),
            old(self).current_stage < STAGE_COUNT - 1 ==> final(self)@.completed_at == old(
                self,
            )@.completed_at,
            old(self).current_stage >= STAGE_COUNT - 1 ==> final(self)@.completed_at is Some,
            stages_kept_but(old(self)@.stages, final(self)@.stages, old(self).current_stage as int),
            old(self).current_stage < old(self)@.stages.len() ==> {
                let was = old(self)@.stages[old(self).current_stage as int];
                let now = final(self)@.stages[old(self).current_stage as int];
                &&& now.completed_at is Some
                &&& now == (StageStateView {
                    status: StageStatusView::Complete { duration_secs, commits_processed },
                    completed_at: now.completed_at,
                    last_commit: Some(commit_hash@),
                    ..was
                })
            },
    {
        if self.current_stage < self.stages.len() {
            let ghost before = self@.stages;
            assert(before.len() == self.stages@.len());
            let mut stage = self.take_stage();
            assert(stage_views(self.stages@) =~= before.remove(self.current_stage as int));
            stage.status = StageStatus::Complete { duration_secs, commits_processed };
            stage.completed_at = Some(current_time());
            stage.last_commit = Some(commit_hash.to_string());
            self.put_stage(stage, Ghost(before));
        }
        self.advance();
        self.commit_cursor = Some(commit_hash.to_string());
    }

    /// Marks the current stage as failed with one attempt more than it had.
    pub fn mark_failed(&mut self, error: &str)
        requires
            old(self).current_stage < old(self)@.stages.len() ==> old(self)@.stages[old(
                self,
            ).current_stage as int].attempts < u32::MAX,
        ensures
            same_run(old(self)@, final(self)@),
            final(self)@.current_stage == old(self)@.current_stage,
            final(self)@.completed_at == old(self)@.completed_at,
            final(self)@.commit_cursor == old(self)@.commit_cursor,
            stages_kept_but(old(self)@.stages, final(self)@.stages, old(self).current_stage as int),
            old(self).current_stage < old(self)@.stages.len() ==> {
                let was = old(self)@.stages[old(self).current_stage as int];
                let now = final(self)@.stages[old(self).current_stage as int];
                now == (StageStateView {
                    status: StageStatusView::Failed {
                        error: error@,
                        attempts: (was.attempts + 1) as u32,
                    },
                    attempts: (was.attempts + 1) as u32,
                    ..was
                })
            },
    {
        if self.current_stage < self.stages.len() {
            let ghost before = self@.stages;
            assert(before.len() == self.stages@.len());
            let mut stage = self.take_stage();
            assert(stage_views(self.stages@) =~= before.remove(self.current_stage as int));
            let attempts: u32 = stage.attempts + 1;
            stage.attempts = attempts;
            stage.status = StageStatus::Failed { error: error.to_string(), attempts };
            self.put_stage(stage, Ghost(before));
        }
    }

    /// Marks the current stage as skipped, ended now, and moves on.
    pub fn mark_skipped(&mut self, reason: &str)
        ensures
            same_run(old(self)@, final(self)@),
            final(self)@.current_stage == advanced(old(self)@.current_stage),
            final(self)@.commit_cursor == old(self)@.commit_cursor,
            old(self).current_stage < STAGE_COUNT - 1 ==> final(self)@.completed_at == old(
                self,
            )@.completed_at,
            old(self).current_stage >= STAGE_COUNT - 1 ==> final(self)@.completed_at is Some,
            stages_kept_but(old(self)@.stages, final(self)@.stages, old(self).current_stage as int),
            old(self).current_stage < old(self)@.stages.len() ==> {
                let was = old(self)@.stages[old(self).current_stage as int];
                let now = final(self)@.stages[old(self).current_stage as int];
                &&& now.completed_at is Some
                &&& now == (StageStateView {
                    status: StageStatusView::Skipped { reason: reason@ },
                    completed_at: now.completed_at,
                    ..was
                })
            },
    {
        if self.current_stage < self.stages.len() {
            let ghost before = self@.stages;
            assert(before.len() == self.stages@.len());
            let mut stage = self.take_stage();
            assert(stage_views(self.stages@) =~= before.remove(self.current_stage as int));
            stage.status = StageStatus::Skipped { reason: reason.to_string() };
            stage.completed_at = Some(current_time());
            self.put_stage(stage, Ghost(before));
        }
        self.advance();
    }

    /// Sets the current stage back to pending so that it runs again. It must have failed;
    /// the count of its attempts stays.
    pub fn retry_stage(&mut self) -> (r: Result<(), RetryError>)
        ensures
            same_run(old(self)@, final(self)@),
            final(self)@.current_stage == old(self)@.current_stage,
            final(self)@.completed_at == old(self)@.completed_at,
            final(self)@.commit_cursor == old(self)@.commit_cursor,
            old(self).current_stage >= old(self)@.stages.len() ==> r is Err && r->Err_0
                is InvalidStage && final(self)@.stages == old(self)@.stages,
            old(self).current_stage < old(self)@.stages.len() ==> {
                let was = old(self)@.stages[old(self).current_stage as int];
                if was.status is Failed {
                    &&& r is Ok
                    &&& final(self)@.stages == old(self)@.stages.update(
                        old(self).current_stage as int,
                        StageStateView {
                            status: StageStatusView::Pending,
                            started_at: None,
                            ..was
                        },
                    )
                } else {
                    &&& r is Err
                    &&& r->Err_0 is NotFailed
                    &&& r->Err_0->NotFailed_0@ == was.name
                    &&& final(self)@.stages == old(self)@.stages
                }
            },
    {
        if self.current_stage < self.stages.len() {
            let ghost before = self@.stages;
            assert(before.len() == self.stages@.len());
            assert(before[self.current_stage as int] == self.stages@[self.current_stage as int]@);
            let failed = match &self.stages[self.current_stage].status {
                StageStatus::Failed { .. } => true,
                _ => false,
            };
            if failed {
                let mut stage = self.take_stage();
                assert(stage_views(self.stages@) =~= before.remove(self.current_stage as int));
                stage.status = StageStatus::Pending;
                stage.started_at = None;
                self.put_stage(stage, Ghost(before));
                Ok(())
            } else {
                Err(RetryError::NotFailed(self.stages[self.current_stage].name.clone()))
            }
        } else {
            Err(RetryError::InvalidStage)
        }
    }

    /// The index of the first stage that is not over, or the number of stages where all
    /// are.
    pub fn find_resume_point(&self) -> (r: usize)
        ensures
            r == resume_point(self@.stages, 0),
            r <= self@.stages.len(),
    {
        let ghost stages = self@.stages;
        let mut i: usize = 0;
        while i < self.stages.len()
            invariant
                i <= self.stages.len(),
                stages == stage_views(self.stages@),
                resume_point(stages, 0) == resume_point(stages, i as int),
            decreases self.stages.len() - i,
        {
            assert(stages[i as int] == self.stages@[i as int]@);
            let done = match &self.stages[i].status {
                StageStatus::Complete { .. } => true,
                StageStatus::Skipped { .. } => true,
                _ => false,
            };
            if !done {
                return i;
            }
            i += 1;
        }
        self.stages.len()
    }

    /// Takes a loaded run up again at the first stage that is not over. A stage found
    /// running was cut short by a crash: it is set back to pending, without a start time.
    pub fn resume(&mut self)
        ensures
            same_run(old(self)@, final(self)@),
            final(self)@.completed_at == old(self)@.completed_at,
            final(self)@.commit_cursor == old(self)@.commit_cursor,
            final(self)@.current_stage == resume_point(old(self)@.stages, 0),
            ({
                let at = resume_point(old(self)@.stages, 0);
                if at < old(self)@.stages.len() && old(self)@.stages[at].status is Running {
                    final(self)@.stages == old(self)@.stages.update(
                        at,
                        StageStateView {
                            status: StageStatusView::Pending,
                            started_at: None,
                            ..old(self)@.stages[at]
                        },
                    )
                } else {
                    final(self)@.stages == old(self)@.stages
                }
            }),
    {
        self.current_stage = self.find_resume_point();
        if self.current_stage < self.stages.len() {
            let ghost before = self@.stages;
            assert(before.len() == self.stages@.len());
            assert(before[self.current_stage as int] == self.stages@[self.current_stage as int]@);
            let running = match &self.stages[self.current_stage].status {
                StageStatus::Running => true,
                _ => false,
            };
            if running {
                let mut stage = self.take_stage();
                assert(stage_views(self.stages@) =~= before.remove(self.current_stage as int));
                stage.status = StageStatus::Pending;
                stage.started_at = None;
                self.put_stage(stage, Ghost(before));
            }
        }
    }
}

/// A duration in words: seconds below a minute, minutes and seconds below an hour, else
/// hours and minutes.
pub open spec fn duration_text(secs: nat) -> Seq<char> {
    if secs < 60 {
        decimal(secs) + "s"@
    } else if secs < 3600 {
        decimal(secs / 60) + "m "@ + decimal(secs % 60) + "s"@
    } else {
        decimal(secs / 3600) + "h "@ + decimal((secs % 3600) / 60) + "m"@
    }
}

/// Writes a duration of `secs` seconds in words.
pub fn format_duration(secs: u64) -> (s: String)
    ensures
        s@ == duration_text(secs as nat),
{
    let mut out: Vec<char> = Vec::new();
    if secs < 60 {
        push_decimal(&mut out, secs);
        push_str(&mut out, "s");
    } else if secs < 3600 {
        push_decimal(&mut out, secs / 60);
        push_str(&mut out, "m ");
        push_decimal(&mut out, secs % 60);
        push_str(&mut out, "s");
    } else {
        push_decimal(&mut out, secs / 3600);
        push_str(&mut out, "h ");
        push_decimal(&mut out, (secs % 3600) / 60);
        push_str(&mut out, "m");
    }
    assert(out@ =~= duration_text(secs as nat));
    string_of(&out)
}


/// How a time is written with `year-month-day hour:minute:second UTC`.
pub uninterp spec fn utc_text(secs: i64, nanos: u32, pattern: Seq<char>) -> Seq<char>;

/// The pattern by which times are written in a summary.
pub open spec fn time_pattern() -> Seq<char> {
    "%Y-%m-%d %H:%M:%S UTC"@
}

/// Writes a time with `chrono`: `DateTime::from_timestamp`, then `format` with the
/// pattern; the empty text for a time that `chrono` cannot hold.
///
/// Trusted: the text depends on the time and the pattern alone.
#[verifier::external_body]
fn format_time(t: Timestamp, pattern: &str) -> (s: String)
    requires
        pattern@ == time_pattern(),
    ensures
        s@ == utc_text(t.secs, t.nanos, pattern@),
{
    match chrono::DateTime::from_timestamp(t.secs, t.nanos) {
        Some(d) => d.format(pattern).to_string(),
        None => String::new(),
    }
}

/// A number of seconds as an unsigned number of 64 bits: itself where it is one, else the
/// number in that range that differs from it by a multiple of 2^64.
pub open spec fn wrapped_seconds(secs: int) -> nat {
    if secs >= 0x1_0000_0000_0000_0000 {
        (secs - 0x1_0000_0000_0000_0000) as nat
    } else if secs >= 0 {
        secs as nat
    } else if secs >= -0x1_0000_0000_0000_0000 {
        (secs + 0x1_0000_0000_0000_0000) as nat
    } else {
        (secs + 0x2_0000_0000_0000_0000) as nat
    }
}

/// The whole seconds from `from` to `to`, rounded towards zero; a time span backwards
/// counts on from 2^64, as a negative number does when it is read as unsigned.
pub open spec fn seconds_between(from: Timestamp, to: Timestamp) -> nat {
    let nanos = (to.secs - from.secs) * 1000000000 + (to.nanos - from.nanos);
    wrapped_seconds(
        if nanos >= 0 {
            nanos / 1000000000
        } else {
            -((-nanos) / 1000000000)
        },
    )
}

/// The whole seconds from `from` to `to`.
pub fn elapsed_seconds(from: Timestamp, to: Timestamp) -> (r: u64)
    ensures
        r == seconds_between(from, to),
{
    let nanos: i128 = (to.secs as i128 - from.secs as i128) * 1000000000 + (to.nanos as i128
        - from.nanos as i128);
    let secs: i128 = if nanos >= 0 {
        nanos / 1000000000
    } else {
        -((-nanos) / 1000000000)
    };
    if secs >= 0x1_0000_0000_0000_0000 {
        (secs - 0x1_0000_0000_0000_0000) as u64
    } else if secs >= 0 {
        secs as u64
    } else if secs >= -0x1_0000_0000_0000_0000 {
        (secs + 0x1_0000_0000_0000_0000) as u64
    } else {
        (secs + 0x2_0000_0000_0000_0000) as u64
    }
}

/// The status, the duration and the commits of a stage as they stand in a row of the
/// summary.
pub open spec fn status_cells(s: StageStatusView) -> (Seq<char>, Seq<char>, Seq<char>) {
    match s {
        StageStatusView::Pending => ("⏳ Pending"@, "-"@, "-"@),
        StageStatusView::Running => ("🔄 Running"@, "-"@, "-"@),
        StageStatusView::Complete { duration_secs, commits_processed } => (
            "✅ Complete"@,
            duration_text(duration_secs as nat),
            decimal(commits_processed as nat),
        ),
        StageStatusView::Failed { error, attempts } => (
            "❌ Failed ("@ + decimal(attempts as nat) + "x)"@,
            "-"@,
            "-"@,
        ),
        StageStatusView::Skipped { reason } => ("⊘ Skipped"@, "-"@, "-"@),
    }
}

/// The row of one stage in the summary.
pub open spec fn stage_row(index: int, s: StageStatusView) -> Seq<char> {
    "| "@ + stage_name(index) + " | "@ + status_cells(s).0 + " | "@ + status_cells(s).1 + " | "@
        + status_cells(s).2 + " |\n"@
}

/// The rows of the first `n` stages.
pub open spec fn stage_rows(stages: Seq<StageStateView>, n: int) -> Seq<char>
    decreases n,
{
    if n <= 0 || n > stages.len() {
        Seq::empty()
    } else {
        stage_rows(stages, n - 1) + stage_row(n - 1, stages[n - 1].status)
    }
}

/// How many of the first `n` stages are complete.
pub open spec fn completed_among(stages: Seq<StageStateView>, n: int) -> nat
    decreases n,
{
    if n <= 0 || n > stages.len() {
        0
    } else {
        completed_among(stages, n - 1) + if stages[n - 1].status is Complete {
            1nat
        } else {
            0nat
        }
    }
}

/// How many of the first `n` stages have failed.
pub open spec fn failed_among(stages: Seq<StageStateView>, n: int) -> nat
    decreases n,
{
    if n <= 0 || n > stages.len() {
        0
    } else {
        failed_among(stages, n - 1) + if stages[n - 1].status is Failed {
            1nat
        } else {
            0nat
        }
    }
}

/// How many of the first `n` stages were skipped.
pub open spec fn skipped_among(stages: Seq<StageStateView>, n: int) -> nat
    decreases n,
{
    if n <= 0 || n > stages.len() {
        0
    } else {
        skipped_among(stages, n - 1) + if stages[n - 1].status is Skipped {
            1nat
        } else {
            0nat
        }
    }
}

/// How many commits the first `n` stages processed, the complete ones.
pub open spec fn commits_among(stages: Seq<StageStateView>, n: int) -> nat
    decreases n,
{
    if n <= 0 || n > stages.len() {
        0
    } else {
        commits_among(stages, n - 1) + match stages[n - 1].status {
            StageStatusView::Complete { duration_secs, commits_processed } => commits_processed as nat,
            _ => 0nat,
        }
    }
}

/// The head of a summary: the run, its start and, where it has ended, its end and how long
/// it took.
pub open spec fn summary_head(p: PipelineView) -> Seq<char> {
    "\n## SDLC Pipeline Summary\n\n"@ + "**Run ID:** "@ + p.run_id + "\n"@ + "**Started:** "@
        + utc_text(p.started_at.secs, p.started_at.nanos, time_pattern()) + "\n"@ + (
    match p.completed_at {
        Some(c) => "**Completed:** "@ + utc_text(c.secs, c.nanos, time_pattern()) + "\n"@
            + "**Total Duration:** "@ + duration_text(seconds_between(p.started_at, c)) + "\n"@,
        None => Seq::empty(),
    })
}

/// The summary of a run: the head, a table with a row for each of the seven stages, and
/// the counts.
pub open spec fn summary_text(p: PipelineView) -> Seq<char> {
    summary_head(p)
        + "\n### Stage Results\n\n| Stage | Status | Duration | Commits |\n|-------|--------|----------|---------|\n"@
        + stage_rows(p.stages, STAGE_COUNT as int) + "\n### Summary\n\n"@ + "- **Completed:** "@
        + decimal(completed_among(p.stages, STAGE_COUNT as int)) + " stages\n"@
        + "- **Failed:** "@ + decimal(failed_among(p.stages, STAGE_COUNT as int)) + " stages\n"@
        + "- **Skipped:** "@ + decimal(skipped_among(p.stages, STAGE_COUNT as int)) + " stages\n"@
        + "- **Total Commits Processed:** "@ + decimal(commits_among(p.stages, STAGE_COUNT as int))
        + "\n"@
}

/// Appends the row of the stage at `index` to `out`.
fn push_stage_row(out: &mut Vec<char>, index: usize, name: &str, status: &StageStatus)
    requires
        name@ == stage_name(index as int),
    ensures
        final(out)@ == old(out)@ + stage_row(index as int, status@),
{
    let mut row: Vec<char> = Vec::new();
    push_str(&mut row, "| ");
    push_str(&mut row, name);
    push_str(&mut row, " | ");
    match status {
        StageStatus::Pending => {
            push_str(&mut row, "⏳ Pending");
            push_str(&mut row, " | ");
            push_str(&mut row, "-");
            push_str(&mut row, " | ");
            push_str(&mut row, "-");
        },
        StageStatus::Running => {
            push_str(&mut row, "🔄 Running");
            push_str(&mut row, " | ");
            push_str(&mut row, "-");
            push_str(&mut row, " | ");
            push_str(&mut row, "-");
        },
        StageStatus::Complete { duration_secs, commits_processed } => {
            push_str(&mut row, "✅ Complete");
            push_str(&mut row, " | ");
            let d = format_duration(*duration_secs);
            push_str(&mut row, d.as_str());
            push_str(&mut row, " | ");
            push_decimal(&mut row, *commits_processed as u64);
        },
        StageStatus::Failed { error, attempts } => {
            push_str(&mut row, "❌ Failed (");
            push_decimal(&mut row, *attempts as u64);
            push_str(&mut row, "x)");
            push_str(&mut row, " | ");
            push_str(&mut row, "-");
            push_str(&mut row, " | ");
            push_str(&mut row, "-");
        },
        StageStatus::Skipped { reason } => {
            push_str(&mut row, "⊘ Skipped");
            push_str(&mut row, " | ");
            push_str(&mut row, "-");
            push_str(&mut row, " | ");
            push_str(&mut row, "-");
        },
    }
    push_str(&mut row, " |\n");
    assert(row@ =~= stage_row(index as int, status@));
    crate::text::push_chars(out, &row);
}

/// Writes the head of a summary.
fn format_summary_head(state: &PipelineState) -> (r: Vec<char>)
    ensures
        r@ == summary_head(state@),
{
    let mut out: Vec<char> = Vec::new();
    push_str(&mut out, "\n## SDLC Pipeline Summary\n\n");
    push_str(&mut out, "**Run ID:** ");
    push_str(&mut out, state.run_id.as_str());
    push_str(&mut out, "\n");
    push_str(&mut out, "**Started:** ");
    let started = format_time(state.started_at, "%Y-%m-%d %H:%M:%S UTC");
    push_str(&mut out, started.as_str());
    push_str(&mut out, "\n");
    match state.completed_at {
        Some(c) => {
            push_str(&mut out, "**Completed:** ");
            let completed = format_time(c, "%Y-%m-%d %H:%M:%S UTC");
            push_str(&mut out, completed.as_str());
            push_str(&mut out, "\n");
            push_str(&mut out, "**Total Duration:** ");
            let d = format_duration(elapsed_seconds(state.started_at, c));
            push_str(&mut out, d.as_str());
            push_str(&mut out, "\n");
        },
        None => {},
    }
    assert(out@ =~= summary_head(state@));
    out
}

/// Writes the summary of a run. The state must hold all seven stages.
pub fn generate_summary(state: &PipelineState) -> (r: String)
    requires
        state@.stages.len() >= STAGE_COUNT,
    ensures
        r@ == summary_text(state@),
{
    let mut out = format_summary_head(state);
    push_str(
        &mut out,
        "\n### Stage Results\n\n| Stage | Status | Duration | Commits |\n|-------|--------|----------|---------|\n",
    );
    let ghost head = out@;
    let ghost stages = state@.stages;
    let defs = pipeline_stages();
    let mut completed: u64 = 0;
    let mut failed: u64 = 0;
    let mut skipped: u64 = 0;
    let mut commits: u64 = 0;
    let mut i: usize = 0;
    assert(out@ =~= head + stage_rows(stages, 0));
    while i < STAGE_COUNT
        invariant
            i <= STAGE_COUNT,
            stages == stage_views(state.stages@),
            stages.len() >= STAGE_COUNT,
            defs@.len() == STAGE_COUNT,
            forall|k: int| 0 <= k < STAGE_COUNT ==> (#[trigger] defs@[k]).name@ == stage_name(k),
            out@ == head + stage_rows(stages, i as int),
            completed == completed_among(stages, i as int),
            failed == failed_among(stages, i as int),
            skipped == skipped_among(stages, i as int),
            commits == commits_among(stages, i as int),
            completed <= i,
            failed <= i,
            skipped <= i,
            commits <= i * 0xffff_ffff,
        decreases STAGE_COUNT - i,
    {
        assert(stages[i as int] == state.stages@[i as int]@);
        let status = &state.stages[i].status;
        push_stage_row(&mut out, i, defs[i].name, status);
        match status {
            StageStatus::Complete { duration_secs, commits_processed } => {
                completed += 1;
                commits += *commits_processed as u64;
            },
            StageStatus::Failed { .. } => {
                failed += 1;
            },
            StageStatus::Skipped { .. } => {
                skipped += 1;
            },
            _ => {},
        }
        assert(out@ =~= head + stage_rows(stages, i + 1));
        i += 1;
    }
    let ghost rows = out@;
    push_str(&mut out, "\n### Summary\n\n");
    push_str(&mut out, "- **Completed:** ");
    push_decimal(&mut out, completed);
    push_str(&mut out, " stages\n");
    push_str(&mut out, "- **Failed:** ");
    push_decimal(&mut out, failed);
    push_str(&mut out, " stages\n");
    push_str(&mut out, "- **Skipped:** ");
    push_decimal(&mut out, skipped);
    push_str(&mut out, " stages\n");
    push_str(&mut out, "- **Total Commits Processed:** ");
    push_decimal(&mut out, commits);
    push_str(&mut out, "\n");
    assert(out@ =~= summary_text(state@));
    string_of(&out)
}

} // verus!
