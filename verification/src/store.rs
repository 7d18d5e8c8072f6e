//! The datastore: one list of rows per table, and the comparisons its guards use.
use vstd::prelude::*;
use crate::rows::{
    views,
    ArchivedRun,
    ArchivedRunView,
    BackfillJob,
    BackfillJobView,
    BackfillSlot,
    BackfillSlotView,
    Dataset,
    DatasetEvent,
    DatasetEventView,
    DatasetTrigger,
    DatasetTriggerView,
    DatasetView,
    DeadLetter,
    DeadLetterView,
    Definition,
    DefinitionView,
    Edge,
    EdgeView,
    Environment,
    EnvironmentSecret,
    EnvironmentSecretView,
    EnvironmentView,
    Leader,
    LeaderView,
    Memo,
    MemoView,
    OutboxRow,
    OutboxRowView,
    RegisteredWorkflow,
    RegisteredWorkflowView,
    RunRerun,
    RunRerunView,
    Schedule,
    ScheduleView,
    Setting,
    SettingView,
    SourceOffset,
    SourceOffsetView,
    SourcePartition,
    SourcePartitionView,
    TaskRun,
    TaskRunView,
    WorkflowRun,
    WorkflowRunView,
};
use crate::text::{before, lex_lt, same};

verus! {

/// The tables. Rows stand in the order in which they were inserted.
#[derive(Debug, Clone)]
pub struct Store {
    pub definitions: Vec<Definition>,
    pub runs: Vec<WorkflowRun>,
    pub tasks: Vec<TaskRun>,
    pub edges: Vec<Edge>,
    pub offsets: Vec<SourceOffset>,
    pub partitions: Vec<SourcePartition>,
    pub workflows: Vec<RegisteredWorkflow>,
    pub datasets: Vec<Dataset>,
    pub dataset_events: Vec<DatasetEvent>,
    pub triggers: Vec<DatasetTrigger>,
    pub schedules: Vec<Schedule>,
    pub slots: Vec<BackfillSlot>,
    pub backfills: Vec<BackfillJob>,
    pub reruns: Vec<RunRerun>,
    pub outbox: Vec<OutboxRow>,
    pub memos: Vec<Memo>,
    pub dead_letters: Vec<DeadLetter>,
    pub archived: Vec<ArchivedRun>,
    pub leaders: Vec<Leader>,
    pub settings: Vec<Setting>,
    pub environments: Vec<Environment>,
    pub secrets: Vec<EnvironmentSecret>,
}

/// What contracts see of the tables.
#[verifier::ext_equal]
pub struct StoreView {
    pub definitions: Seq<DefinitionView>,
    pub runs: Seq<WorkflowRunView>,
    pub tasks: Seq<TaskRunView>,
    pub edges: Seq<EdgeView>,
    pub offsets: Seq<SourceOffsetView>,
    pub partitions: Seq<SourcePartitionView>,
    pub workflows: Seq<RegisteredWorkflowView>,
    pub datasets: Seq<DatasetView>,
    pub dataset_events: Seq<DatasetEventView>,
    pub triggers: Seq<DatasetTriggerView>,
    pub schedules: Seq<ScheduleView>,
    pub slots: Seq<BackfillSlotView>,
    pub backfills: Seq<BackfillJobView>,
    pub reruns: Seq<RunRerunView>,
    pub outbox: Seq<OutboxRowView>,
    pub memos: Seq<MemoView>,
    pub dead_letters: Seq<DeadLetterView>,
    pub archived: Seq<ArchivedRunView>,
    pub leaders: Seq<LeaderView>,
    pub settings: Seq<SettingView>,
    pub environments: Seq<EnvironmentView>,
    pub secrets: Seq<EnvironmentSecretView>,
}

impl View for Store {
    type V = StoreView;

    open spec fn view(&self) -> StoreView {
        StoreView {
            definitions: views(self.definitions@),
            runs: views(self.runs@),
            tasks: views(self.tasks@),
            edges: views(self.edges@),
            offsets: views(self.offsets@),
            partitions: views(self.partitions@),
            workflows: views(self.workflows@),
            datasets: views(self.datasets@),
            dataset_events: views(self.dataset_events@),
            triggers: views(self.triggers@),
            schedules: views(self.schedules@),
            slots: views(self.slots@),
            backfills: views(self.backfills@),
            reruns: views(self.reruns@),
            outbox: views(self.outbox@),
            memos: views(self.memos@),
            dead_letters: views(self.dead_letters@),
            archived: views(self.archived@),
            leaders: views(self.leaders@),
            settings: views(self.settings@),
            environments: views(self.environments@),
            secrets: views(self.secrets@),
        }
    }
}

impl Store {
    /// A store without rows.
    pub fn new() -> (db: Store)
        ensures
            db@.definitions.len() == 0,
            db@.runs.len() == 0,
            db@.tasks.len() == 0,
            db@.edges.len() == 0,
            db@.offsets.len() == 0,
            db@.partitions.len() == 0,
            db@.workflows.len() == 0,
            db@.datasets.len() == 0,
            db@.dataset_events.len() == 0,
            db@.triggers.len() == 0,
            db@.schedules.len() == 0,
            db@.slots.len() == 0,
            db@.backfills.len() == 0,
            db@.reruns.len() == 0,
            db@.outbox.len() == 0,
            db@.memos.len() == 0,
            db@.dead_letters.len() == 0,
            db@.archived.len() == 0,
            db@.leaders.len() == 0,
            db@.settings.len() == 0,
            db@.environments.len() == 0,
            db@.secrets.len() == 0,
    {
        Store {
            definitions: Vec::new(),
            runs: Vec::new(),
            tasks: Vec::new(),
            edges: Vec::new(),
            offsets: Vec::new(),
            partitions: Vec::new(),
            workflows: Vec::new(),
            datasets: Vec::new(),
            dataset_events: Vec::new(),
            triggers: Vec::new(),
            schedules: Vec::new(),
            slots: Vec::new(),
            backfills: Vec::new(),
            reruns: Vec::new(),
            outbox: Vec::new(),
            memos: Vec::new(),
            dead_letters: Vec::new(),
            archived: Vec::new(),
            leaders: Vec::new(),
            settings: Vec::new(),
            environments: Vec::new(),
            secrets: Vec::new(),
        }
    }
}

/// A time column that is set and not after `now`.
pub open spec fn due(t: Option<Seq<char>>, now: Seq<char>) -> bool {
    t is Some && !lex_lt(now, t->0)
}

/// A time column that is set and before `now`.
pub open spec fn past(t: Option<Seq<char>>, now: Seq<char>) -> bool {
    t is Some && lex_lt(t->0, now)
}

pub fn is_due(t: &Option<String>, now: &str) -> (r: bool)
    ensures
        r == due(crate::rows::opt(*t), now@),
{
    match t {
        Some(t) => !before(now, t.as_str()),
        None => false,
    }
}

pub fn is_past(t: &Option<String>, now: &str) -> (r: bool)
    ensures
        r == past(crate::rows::opt(*t), now@),
{
    match t {
        Some(t) => before(t.as_str(), now),
        None => false,
    }
}

/// Whether a text column that may be null holds `text`.
pub fn column_is(t: &Option<String>, text: &str) -> (r: bool)
    ensures
        r == (crate::rows::opt(*t) == Some(text@)),
{
    match t {
        Some(t) => same(t.as_str(), text),
        None => false,
    }
}

} // verus!
