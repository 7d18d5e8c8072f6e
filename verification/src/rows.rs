//! The rows of the datastore, and what contracts see of them.
use vstd::prelude::*;
use crate::models::{OutboxStatus, RunStatus, TaskStatus};

verus! {

/// A text column that may be null.
pub open spec fn opt(o: Option<String>) -> Option<Seq<char>> {
    match o {
        Some(s) => Some(s@),
        None => None,
    }
}

/// A number column that may be null.
pub open spec fn opt_int(o: Option<i64>) -> Option<int> {
    match o {
        Some(n) => Some(n as int),
        None => None,
    }
}

/// A copy of a text column that may be null.
fn copy_text(o: &Option<String>) -> (r: Option<String>)
    ensures
        opt(r) == opt(*o),
{
    match o {
        Some(s) => Some(s.clone()),
        None => None,
    }
}

/// The views of a table's rows.
pub open spec fn views<R: View>(rows: Seq<R>) -> Seq<R::V> {
    rows.map_values(|r: R| r@)
}

/// A row of a table.
pub trait Row: View + Sized {
    /// A copy of the row.
    fn duplicate(&self) -> (r: Self)
        ensures
            r@ == self@,
    ;
}

/// A stored workflow definition: the text a run was created from.
#[derive(Debug, Clone)]
pub struct Definition {
    pub id: String,
    pub name: String,
    pub spec: String,
    pub created_at: String,
}

#[verifier::ext_equal]
pub struct DefinitionView {
    pub id: Seq<char>,
    pub name: Seq<char>,
    pub spec: Seq<char>,
    pub created_at: Seq<char>,
}

impl View for Definition {
    type V = DefinitionView;

    open spec fn view(&self) -> DefinitionView {
        DefinitionView {
            id: self.id@,
            name: self.name@,
            spec: self.spec@,
            created_at: self.created_at@,
        }
    }
}

impl Row for Definition {
    fn duplicate(&self) -> (r: Definition) {
        Definition {
            id: self.id.clone(),
            name: self.name.clone(),
            spec: self.spec.clone(),
            created_at: self.created_at.clone(),
        }
    }
}

/// One run of a workflow.
#[derive(Debug, Clone)]
pub struct WorkflowRun {
    pub id: String,
    pub definition_id: String,
    pub status: RunStatus,
    pub input: Option<String>,
    pub output: Option<String>,
    pub created_at: String,
    pub finished_at: Option<String>,
    /// When the run is failed if it is still running.
    pub deadline_at: Option<String>,
    /// When an alert is due if the run is still running.
    pub alert_deadline_at: Option<String>,
    pub alert_fired_at: Option<String>,
    /// The task whose output becomes the run's.
    pub result_from: Option<String>,
    pub environment: Option<String>,
    pub schedule_id: Option<String>,
    /// How far the clock could be trusted when the run was created.
    pub clock_confidence: Option<String>,
    pub clock_offset_ms: Option<i64>,
    pub clock_source: Option<String>,
}

#[verifier::ext_equal]
pub struct WorkflowRunView {
    pub id: Seq<char>,
    pub definition_id: Seq<char>,
    pub status: RunStatus,
    pub input: Option<Seq<char>>,
    pub output: Option<Seq<char>>,
    pub created_at: Seq<char>,
    pub finished_at: Option<Seq<char>>,
    pub deadline_at: Option<Seq<char>>,
    pub alert_deadline_at: Option<Seq<char>>,
    pub alert_fired_at: Option<Seq<char>>,
    pub result_from: Option<Seq<char>>,
    pub environment: Option<Seq<char>>,
    pub schedule_id: Option<Seq<char>>,
    pub clock_confidence: Option<Seq<char>>,
    pub clock_offset_ms: Option<int>,
    pub clock_source: Option<Seq<char>>,
}

impl View for WorkflowRun {
    type V = WorkflowRunView;

    open spec fn view(&self) -> WorkflowRunView {
        WorkflowRunView {
            id: self.id@,
            definition_id: self.definition_id@,
            status: self.status,
            input: opt(self.input),
            output: opt(self.output),
            created_at: self.created_at@,
            finished_at: opt(self.finished_at),
            deadline_at: opt(self.deadline_at),
            alert_deadline_at: opt(self.alert_deadline_at),
            alert_fired_at: opt(self.alert_fired_at),
            result_from: opt(self.result_from),
            environment: opt(self.environment),
            schedule_id: opt(self.schedule_id),
            clock_confidence: opt(self.clock_confidence),
            clock_offset_ms: opt_int(self.clock_offset_ms),
            clock_source: opt(self.clock_source),
        }
    }
}

impl Row for WorkflowRun {
    fn duplicate(&self) -> (r: WorkflowRun) {
        WorkflowRun {
            id: self.id.clone(),
            definition_id: self.definition_id.clone(),
            status: self.status,
            input: copy_text(&self.input),
            output: copy_text(&self.output),
            created_at: self.created_at.clone(),
            finished_at: copy_text(&self.finished_at),
            deadline_at: copy_text(&self.deadline_at),
            alert_deadline_at: copy_text(&self.alert_deadline_at),
            alert_fired_at: copy_text(&self.alert_fired_at),
            result_from: copy_text(&self.result_from),
            environment: copy_text(&self.environment),
            schedule_id: copy_text(&self.schedule_id),
            clock_confidence: copy_text(&self.clock_confidence),
            clock_offset_ms: self.clock_offset_ms,
            clock_source: copy_text(&self.clock_source),
        }
    }
}

/// One task row of a run.
#[derive(Debug, Clone)]
pub struct TaskRun {
    pub id: String,
    pub run_id: String,
    pub name: String,
    pub status: TaskStatus,
    /// How often the row was claimed.
    pub attempt: i64,
    /// Dependencies that are not terminal yet.
    pub remaining_deps: i64,
    /// The task's specification as JSON.
    pub input: Option<String>,
    /// The run-time condition in `input`, if it has one.
    pub when: Option<String>,
    pub output: Option<String>,
    pub claimed_by: Option<String>,
    pub lease_expires_at: Option<String>,
    /// Bumped by every claim: the fence of the attempt that made it.
    pub version: i64,
    pub scheduled_at: Option<String>,
    pub finished_at: Option<String>,
    pub pool: Option<String>,
    pub priority: i64,
    pub cache_hit: bool,
    /// A parked time sensor's deadline.
    pub wake_at: Option<String>,
    /// A parked HTTP sensor's endpoint.
    pub wait_url: Option<String>,
    pub next_poll_at: Option<String>,
    /// A parked dataset sensor's dataset.
    pub wait_dataset: Option<String>,
    pub wait_dataset_cursor: Option<i64>,
    /// The child run a parked trigger waits for.
    pub sub_run_id: Option<String>,
    pub trigger_rule: String,
    pub allow_failure: bool,
    pub is_approval: bool,
    pub approval_timeout_secs: Option<i64>,
    pub approval_on_timeout: Option<String>,
    pub runner_class: String,
    pub gang_id: Option<String>,
    pub gang_rank: Option<i64>,
    pub gang_size: Option<i64>,
    pub checkpoint_uri: Option<String>,
    pub checkpoint_marker: Option<String>,
}

#[verifier::ext_equal]
pub struct TaskRunView {
    pub id: Seq<char>,
    pub run_id: Seq<char>,
    pub name: Seq<char>,
    pub status: TaskStatus,
    pub attempt: int,
    pub remaining_deps: int,
    pub input: Option<Seq<char>>,
    pub when: Option<Seq<char>>,
    pub output: Option<Seq<char>>,
    pub claimed_by: Option<Seq<char>>,
    pub lease_expires_at: Option<Seq<char>>,
    pub version: int,
    pub scheduled_at: Option<Seq<char>>,
    pub finished_at: Option<Seq<char>>,
    pub pool: Option<Seq<char>>,
    pub priority: int,
    pub cache_hit: bool,
    pub wake_at: Option<Seq<char>>,
    pub wait_url: Option<Seq<char>>,
    pub next_poll_at: Option<Seq<char>>,
    pub wait_dataset: Option<Seq<char>>,
    pub wait_dataset_cursor: Option<int>,
    pub sub_run_id: Option<Seq<char>>,
    pub trigger_rule: Seq<char>,
    pub allow_failure: bool,
    pub is_approval: bool,
    pub approval_timeout_secs: Option<int>,
    pub approval_on_timeout: Option<Seq<char>>,
    pub runner_class: Seq<char>,
    pub gang_id: Option<Seq<char>>,
    pub gang_rank: Option<int>,
    pub gang_size: Option<int>,
    pub checkpoint_uri: Option<Seq<char>>,
    pub checkpoint_marker: Option<Seq<char>>,
}

impl View for TaskRun {
    type V = TaskRunView;

    open spec fn view(&self) -> TaskRunView {
        TaskRunView {
            id: self.id@,
            run_id: self.run_id@,
            name: self.name@,
            status: self.status,
            attempt: self.attempt as int,
            remaining_deps: self.remaining_deps as int,
            input: opt(self.input),
            when: opt(self.when),
            output: opt(self.output),
            claimed_by: opt(self.claimed_by),
            lease_expires_at: opt(self.lease_expires_at),
            version: self.version as int,
            scheduled_at: opt(self.scheduled_at),
            finished_at: opt(self.finished_at),
            pool: opt(self.pool),
            priority: self.priority as int,
            cache_hit: self.cache_hit,
            wake_at: opt(self.wake_at),
            wait_url: opt(self.wait_url),
            next_poll_at: opt(self.next_poll_at),
            wait_dataset: opt(self.wait_dataset),
            wait_dataset_cursor: opt_int(self.wait_dataset_cursor),
            sub_run_id: opt(self.sub_run_id),
            trigger_rule: self.trigger_rule@,
            allow_failure: self.allow_failure,
            is_approval: self.is_approval,
            approval_timeout_secs: opt_int(self.approval_timeout_secs),
            approval_on_timeout: opt(self.approval_on_timeout),
            runner_class: self.runner_class@,
            gang_id: opt(self.gang_id),
            gang_rank: opt_int(self.gang_rank),
            gang_size: opt_int(self.gang_size),
            checkpoint_uri: opt(self.checkpoint_uri),
            checkpoint_marker: opt(self.checkpoint_marker),
        }
    }
}

impl Row for TaskRun {
    fn duplicate(&self) -> (r: TaskRun) {
        TaskRun {
            id: self.id.clone(),
            run_id: self.run_id.clone(),
            name: self.name.clone(),
            status: self.status,
            attempt: self.attempt,
            remaining_deps: self.remaining_deps,
            input: copy_text(&self.input),
            when: copy_text(&self.when),
            output: copy_text(&self.output),
            claimed_by: copy_text(&self.claimed_by),
            lease_expires_at: copy_text(&self.lease_expires_at),
            version: self.version,
            scheduled_at: copy_text(&self.scheduled_at),
            finished_at: copy_text(&self.finished_at),
            pool: copy_text(&self.pool),
            priority: self.priority,
            cache_hit: self.cache_hit,
            wake_at: copy_text(&self.wake_at),
            wait_url: copy_text(&self.wait_url),
            next_poll_at: copy_text(&self.next_poll_at),
            wait_dataset: copy_text(&self.wait_dataset),
            wait_dataset_cursor: self.wait_dataset_cursor,
            sub_run_id: copy_text(&self.sub_run_id),
            trigger_rule: self.trigger_rule.clone(),
            allow_failure: self.allow_failure,
            is_approval: self.is_approval,
            approval_timeout_secs: self.approval_timeout_secs,
            approval_on_timeout: copy_text(&self.approval_on_timeout),
            runner_class: self.runner_class.clone(),
            gang_id: copy_text(&self.gang_id),
            gang_rank: self.gang_rank,
            gang_size: self.gang_size,
            checkpoint_uri: copy_text(&self.checkpoint_uri),
            checkpoint_marker: copy_text(&self.checkpoint_marker),
        }
    }
}

/// A dependency between two task rows.
#[derive(Debug, Clone)]
pub struct Edge {
    pub dependent_id: String,
    pub dependency_id: String,
}

#[verifier::ext_equal]
pub struct EdgeView {
    pub dependent_id: Seq<char>,
    pub dependency_id: Seq<char>,
}

impl View for Edge {
    type V = EdgeView;

    open spec fn view(&self) -> EdgeView {
        EdgeView {
            dependent_id: self.dependent_id@,
            dependency_id: self.dependency_id@,
        }
    }
}

impl Row for Edge {
    fn duplicate(&self) -> (r: Edge) {
        Edge {
            dependent_id: self.dependent_id.clone(),
            dependency_id: self.dependency_id.clone(),
        }
    }
}

/// How far a streaming source has been consumed.
#[derive(Debug, Clone)]
pub struct SourceOffset {
    pub source_name: String,
    pub position: String,
    pub updated_at: String,
}

#[verifier::ext_equal]
pub struct SourceOffsetView {
    pub source_name: Seq<char>,
    pub position: Seq<char>,
    pub updated_at: Seq<char>,
}

impl View for SourceOffset {
    type V = SourceOffsetView;

    open spec fn view(&self) -> SourceOffsetView {
        SourceOffsetView {
            source_name: self.source_name@,
            position: self.position@,
            updated_at: self.updated_at@,
        }
    }
}

impl Row for SourceOffset {
    fn duplicate(&self) -> (r: SourceOffset) {
        SourceOffset {
            source_name: self.source_name.clone(),
            position: self.position.clone(),
            updated_at: self.updated_at.clone(),
        }
    }
}

/// One shard of a source and who consumes it.
#[derive(Debug, Clone)]
pub struct SourcePartition {
    pub source_name: String,
    pub partition: String,
    pub claimed_by: Option<String>,
    pub lease_expires_at: Option<String>,
    pub updated_at: String,
}

#[verifier::ext_equal]
pub struct SourcePartitionView {
    pub source_name: Seq<char>,
    pub partition: Seq<char>,
    pub claimed_by: Option<Seq<char>>,
    pub lease_expires_at: Option<Seq<char>>,
    pub updated_at: Seq<char>,
}

impl View for SourcePartition {
    type V = SourcePartitionView;

    open spec fn view(&self) -> SourcePartitionView {
        SourcePartitionView {
            source_name: self.source_name@,
            partition: self.partition@,
            claimed_by: opt(self.claimed_by),
            lease_expires_at: opt(self.lease_expires_at),
            updated_at: self.updated_at@,
        }
    }
}

impl Row for SourcePartition {
    fn duplicate(&self) -> (r: SourcePartition) {
        SourcePartition {
            source_name: self.source_name.clone(),
            partition: self.partition.clone(),
            claimed_by: copy_text(&self.claimed_by),
            lease_expires_at: copy_text(&self.lease_expires_at),
            updated_at: self.updated_at.clone(),
        }
    }
}

/// A workflow that can be triggered by name.
#[derive(Debug, Clone)]
pub struct RegisteredWorkflow {
    pub id: String,
    pub name: String,
    pub spec: String,
    pub state: String,
}

#[verifier::ext_equal]
pub struct RegisteredWorkflowView {
    pub id: Seq<char>,
    pub name: Seq<char>,
    pub spec: Seq<char>,
    pub state: Seq<char>,
}

impl View for RegisteredWorkflow {
    type V = RegisteredWorkflowView;

    open spec fn view(&self) -> RegisteredWorkflowView {
        RegisteredWorkflowView {
            id: self.id@,
            name: self.name@,
            spec: self.spec@,
            state: self.state@,
        }
    }
}

impl Row for RegisteredWorkflow {
    fn duplicate(&self) -> (r: RegisteredWorkflow) {
        RegisteredWorkflow {
            id: self.id.clone(),
            name: self.name.clone(),
            spec: self.spec.clone(),
            state: self.state.clone(),
        }
    }
}

/// The registry row of a dataset.
#[derive(Debug, Clone)]
pub struct Dataset {
    pub uri: String,
    pub updated_at: String,
    pub last_run_id: Option<String>,
    pub last_task: Option<String>,
    pub updates: i64,
}

#[verifier::ext_equal]
pub struct DatasetView {
    pub uri: Seq<char>,
    pub updated_at: Seq<char>,
    pub last_run_id: Option<Seq<char>>,
    pub last_task: Option<Seq<char>>,
    pub updates: int,
}

impl View for Dataset {
    type V = DatasetView;

    open spec fn view(&self) -> DatasetView {
        DatasetView {
            uri: self.uri@,
            updated_at: self.updated_at@,
            last_run_id: opt(self.last_run_id),
            last_task: opt(self.last_task),
            updates: self.updates as int,
        }
    }
}

impl Row for Dataset {
    fn duplicate(&self) -> (r: Dataset) {
        Dataset {
            uri: self.uri.clone(),
            updated_at: self.updated_at.clone(),
            last_run_id: copy_text(&self.last_run_id),
            last_task: copy_text(&self.last_task),
            updates: self.updates,
        }
    }
}

/// One recorded update of a dataset; ids grow.
#[derive(Debug, Clone)]
pub struct DatasetEvent {
    pub id: i64,
    pub uri: String,
    pub workflow: Option<String>,
    pub run_id: Option<String>,
    pub task_id: Option<String>,
    pub task_name: Option<String>,
    pub source: String,
    pub at: String,
}

#[verifier::ext_equal]
pub struct DatasetEventView {
    pub id: int,
    pub uri: Seq<char>,
    pub workflow: Option<Seq<char>>,
    pub run_id: Option<Seq<char>>,
    pub task_id: Option<Seq<char>>,
    pub task_name: Option<Seq<char>>,
    pub source: Seq<char>,
    pub at: Seq<char>,
}

impl View for DatasetEvent {
    type V = DatasetEventView;

    open spec fn view(&self) -> DatasetEventView {
        DatasetEventView {
            id: self.id as int,
            uri: self.uri@,
            workflow: opt(self.workflow),
            run_id: opt(self.run_id),
            task_id: opt(self.task_id),
            task_name: opt(self.task_name),
            source: self.source@,
            at: self.at@,
        }
    }
}

impl Row for DatasetEvent {
    fn duplicate(&self) -> (r: DatasetEvent) {
        DatasetEvent {
            id: self.id,
            uri: self.uri.clone(),
            workflow: copy_text(&self.workflow),
            run_id: copy_text(&self.run_id),
            task_id: copy_text(&self.task_id),
            task_name: copy_text(&self.task_name),
            source: self.source.clone(),
            at: self.at.clone(),
        }
    }
}

/// A workflow's subscription to a dataset.
#[derive(Debug, Clone)]
pub struct DatasetTrigger {
    pub workflow_name: String,
    pub uri: String,
    /// The last event that counted.
    pub cursor: i64,
    pub mode: String,
    pub last_fired_at: Option<String>,
    pub last_fired_run_id: Option<String>,
}

#[verifier::ext_equal]
pub struct DatasetTriggerView {
    pub workflow_name: Seq<char>,
    pub uri: Seq<char>,
    pub cursor: int,
    pub mode: Seq<char>,
    pub last_fired_at: Option<Seq<char>>,
    pub last_fired_run_id: Option<Seq<char>>,
}

impl View for DatasetTrigger {
    type V = DatasetTriggerView;

    open spec fn view(&self) -> DatasetTriggerView {
        DatasetTriggerView {
            workflow_name: self.workflow_name@,
            uri: self.uri@,
            cursor: self.cursor as int,
            mode: self.mode@,
            last_fired_at: opt(self.last_fired_at),
            last_fired_run_id: opt(self.last_fired_run_id),
        }
    }
}

impl Row for DatasetTrigger {
    fn duplicate(&self) -> (r: DatasetTrigger) {
        DatasetTrigger {
            workflow_name: self.workflow_name.clone(),
            uri: self.uri.clone(),
            cursor: self.cursor,
            mode: self.mode.clone(),
            last_fired_at: copy_text(&self.last_fired_at),
            last_fired_run_id: copy_text(&self.last_fired_run_id),
        }
    }
}

/// A cron schedule of a registered workflow.
#[derive(Debug, Clone)]
pub struct Schedule {
    pub id: String,
    pub workflow_id: String,
    pub cron_expr: String,
    pub timezone: Option<String>,
    pub when_expr: Option<String>,
    pub stop_expr: Option<String>,
    pub enabled: bool,
    pub catchup: bool,
    pub catchup_window_secs: Option<i64>,
    pub catchup_max_runs: Option<i64>,
    pub next_fire_at: Option<String>,
    pub last_fired_at: Option<String>,
    pub stopped_at: Option<String>,
    pub stop_reason: Option<String>,
    pub updated_at: String,
}

#[verifier::ext_equal]
pub struct ScheduleView {
    pub id: Seq<char>,
    pub workflow_id: Seq<char>,
    pub cron_expr: Seq<char>,
    pub timezone: Option<Seq<char>>,
    pub when_expr: Option<Seq<char>>,
    pub stop_expr: Option<Seq<char>>,
    pub enabled: bool,
    pub catchup: bool,
    pub catchup_window_secs: Option<int>,
    pub catchup_max_runs: Option<int>,
    pub next_fire_at: Option<Seq<char>>,
    pub last_fired_at: Option<Seq<char>>,
    pub stopped_at: Option<Seq<char>>,
    pub stop_reason: Option<Seq<char>>,
    pub updated_at: Seq<char>,
}

impl View for Schedule {
    type V = ScheduleView;

    open spec fn view(&self) -> ScheduleView {
        ScheduleView {
            id: self.id@,
            workflow_id: self.workflow_id@,
            cron_expr: self.cron_expr@,
            timezone: opt(self.timezone),
            when_expr: opt(self.when_expr),
            stop_expr: opt(self.stop_expr),
            enabled: self.enabled,
            catchup: self.catchup,
            catchup_window_secs: opt_int(self.catchup_window_secs),
            catchup_max_runs: opt_int(self.catchup_max_runs),
            next_fire_at: opt(self.next_fire_at),
            last_fired_at: opt(self.last_fired_at),
            stopped_at: opt(self.stopped_at),
            stop_reason: opt(self.stop_reason),
            updated_at: self.updated_at@,
        }
    }
}

impl Row for Schedule {
    fn duplicate(&self) -> (r: Schedule) {
        Schedule {
            id: self.id.clone(),
            workflow_id: self.workflow_id.clone(),
            cron_expr: self.cron_expr.clone(),
            timezone: copy_text(&self.timezone),
            when_expr: copy_text(&self.when_expr),
            stop_expr: copy_text(&self.stop_expr),
            enabled: self.enabled,
            catchup: self.catchup,
            catchup_window_secs: self.catchup_window_secs,
            catchup_max_runs: self.catchup_max_runs,
            next_fire_at: copy_text(&self.next_fire_at),
            last_fired_at: copy_text(&self.last_fired_at),
            stopped_at: copy_text(&self.stopped_at),
            stop_reason: copy_text(&self.stop_reason),
            updated_at: self.updated_at.clone(),
        }
    }
}

/// A logical date that a backfill has taken.
#[derive(Debug, Clone)]
pub struct BackfillSlot {
    pub schedule_id: String,
    pub logical_date: String,
    pub run_id: Option<String>,
    pub created_at: String,
}

#[verifier::ext_equal]
pub struct BackfillSlotView {
    pub schedule_id: Seq<char>,
    pub logical_date: Seq<char>,
    pub run_id: Option<Seq<char>>,
    pub created_at: Seq<char>,
}

impl View for BackfillSlot {
    type V = BackfillSlotView;

    open spec fn view(&self) -> BackfillSlotView {
        BackfillSlotView {
            schedule_id: self.schedule_id@,
            logical_date: self.logical_date@,
            run_id: opt(self.run_id),
            created_at: self.created_at@,
        }
    }
}

impl Row for BackfillSlot {
    fn duplicate(&self) -> (r: BackfillSlot) {
        BackfillSlot {
            schedule_id: self.schedule_id.clone(),
            logical_date: self.logical_date.clone(),
            run_id: copy_text(&self.run_id),
            created_at: self.created_at.clone(),
        }
    }
}

/// A paced backfill over a range of dates.
#[derive(Debug, Clone)]
pub struct BackfillJob {
    pub id: String,
    pub schedule_id: String,
    pub cron_expr: String,
    pub timezone: Option<String>,
    pub spec: String,
    pub range_from: String,
    pub range_to: String,
    pub cursor: String,
    pub status: String,
    pub max_runs: Option<i64>,
    pub requested: i64,
    pub fired: i64,
    pub created_at: String,
    pub updated_at: String,
}

#[verifier::ext_equal]
pub struct BackfillJobView {
    pub id: Seq<char>,
    pub schedule_id: Seq<char>,
    pub cron_expr: Seq<char>,
    pub timezone: Option<Seq<char>>,
    pub spec: Seq<char>,
    pub range_from: Seq<char>,
    pub range_to: Seq<char>,
    pub cursor: Seq<char>,
    pub status: Seq<char>,
    pub max_runs: Option<int>,
    pub requested: int,
    pub fired: int,
    pub created_at: Seq<char>,
    pub updated_at: Seq<char>,
}

impl View for BackfillJob {
    type V = BackfillJobView;

    open spec fn view(&self) -> BackfillJobView {
        BackfillJobView {
            id: self.id@,
            schedule_id: self.schedule_id@,
            cron_expr: self.cron_expr@,
            timezone: opt(self.timezone),
            spec: self.spec@,
            range_from: self.range_from@,
            range_to: self.range_to@,
            cursor: self.cursor@,
            status: self.status@,
            max_runs: opt_int(self.max_runs),
            requested: self.requested as int,
            fired: self.fired as int,
            created_at: self.created_at@,
            updated_at: self.updated_at@,
        }
    }
}

impl Row for BackfillJob {
    fn duplicate(&self) -> (r: BackfillJob) {
        BackfillJob {
            id: self.id.clone(),
            schedule_id: self.schedule_id.clone(),
            cron_expr: self.cron_expr.clone(),
            timezone: copy_text(&self.timezone),
            spec: self.spec.clone(),
            range_from: self.range_from.clone(),
            range_to: self.range_to.clone(),
            cursor: self.cursor.clone(),
            status: self.status.clone(),
            max_runs: self.max_runs,
            requested: self.requested,
            fired: self.fired,
            created_at: self.created_at.clone(),
            updated_at: self.updated_at.clone(),
        }
    }
}

/// How often a run was rerun automatically.
#[derive(Debug, Clone)]
pub struct RunRerun {
    pub run_id: String,
    pub attempts: i64,
    pub last_rerun_at: Option<String>,
}

#[verifier::ext_equal]
pub struct RunRerunView {
    pub run_id: Seq<char>,
    pub attempts: int,
    pub last_rerun_at: Option<Seq<char>>,
}

impl View for RunRerun {
    type V = RunRerunView;

    open spec fn view(&self) -> RunRerunView {
        RunRerunView {
            run_id: self.run_id@,
            attempts: self.attempts as int,
            last_rerun_at: opt(self.last_rerun_at),
        }
    }
}

impl Row for RunRerun {
    fn duplicate(&self) -> (r: RunRerun) {
        RunRerun {
            run_id: self.run_id.clone(),
            attempts: self.attempts,
            last_rerun_at: copy_text(&self.last_rerun_at),
        }
    }
}

/// An event waiting for delivery.
#[derive(Debug, Clone)]
pub struct OutboxRow {
    pub id: String,
    pub run_id: String,
    pub event_type: String,
    pub payload: String,
    pub status: OutboxStatus,
    pub attempts: i64,
    pub next_attempt_at: String,
    pub created_at: String,
    pub delivered_at: Option<String>,
    pub last_error: Option<String>,
}

#[verifier::ext_equal]
pub struct OutboxRowView {
    pub id: Seq<char>,
    pub run_id: Seq<char>,
    pub event_type: Seq<char>,
    pub payload: Seq<char>,
    pub status: OutboxStatus,
    pub attempts: int,
    pub next_attempt_at: Seq<char>,
    pub created_at: Seq<char>,
    pub delivered_at: Option<Seq<char>>,
    pub last_error: Option<Seq<char>>,
}

impl View for OutboxRow {
    type V = OutboxRowView;

    open spec fn view(&self) -> OutboxRowView {
        OutboxRowView {
            id: self.id@,
            run_id: self.run_id@,
            event_type: self.event_type@,
            payload: self.payload@,
            status: self.status,
            attempts: self.attempts as int,
            next_attempt_at: self.next_attempt_at@,
            created_at: self.created_at@,
            delivered_at: opt(self.delivered_at),
            last_error: opt(self.last_error),
        }
    }
}

impl Row for OutboxRow {
    fn duplicate(&self) -> (r: OutboxRow) {
        OutboxRow {
            id: self.id.clone(),
            run_id: self.run_id.clone(),
            event_type: self.event_type.clone(),
            payload: self.payload.clone(),
            status: self.status,
            attempts: self.attempts,
            next_attempt_at: self.next_attempt_at.clone(),
            created_at: self.created_at.clone(),
            delivered_at: copy_text(&self.delivered_at),
            last_error: copy_text(&self.last_error),
        }
    }
}

/// A memoized task result.
#[derive(Debug, Clone)]
pub struct Memo {
    pub workflow_name: String,
    pub task_name: String,
    pub cache_key: String,
    pub output: Option<String>,
    pub created_at: String,
}

#[verifier::ext_equal]
pub struct MemoView {
    pub workflow_name: Seq<char>,
    pub task_name: Seq<char>,
    pub cache_key: Seq<char>,
    pub output: Option<Seq<char>>,
    pub created_at: Seq<char>,
}

impl View for Memo {
    type V = MemoView;

    open spec fn view(&self) -> MemoView {
        MemoView {
            workflow_name: self.workflow_name@,
            task_name: self.task_name@,
            cache_key: self.cache_key@,
            output: opt(self.output),
            created_at: self.created_at@,
        }
    }
}

impl Row for Memo {
    fn duplicate(&self) -> (r: Memo) {
        Memo {
            workflow_name: self.workflow_name.clone(),
            task_name: self.task_name.clone(),
            cache_key: self.cache_key.clone(),
            output: copy_text(&self.output),
            created_at: self.created_at.clone(),
        }
    }
}

/// A submission that could not become a run.
#[derive(Debug, Clone)]
pub struct DeadLetter {
    pub id: String,
    pub payload: String,
    pub error: String,
    pub source: String,
    pub failures: i64,
    pub first_seen_at: String,
    pub last_error_at: String,
}

#[verifier::ext_equal]
pub struct DeadLetterView {
    pub id: Seq<char>,
    pub payload: Seq<char>,
    pub error: Seq<char>,
    pub source: Seq<char>,
    pub failures: int,
    pub first_seen_at: Seq<char>,
    pub last_error_at: Seq<char>,
}

impl View for DeadLetter {
    type V = DeadLetterView;

    open spec fn view(&self) -> DeadLetterView {
        DeadLetterView {
            id: self.id@,
            payload: self.payload@,
            error: self.error@,
            source: self.source@,
            failures: self.failures as int,
            first_seen_at: self.first_seen_at@,
            last_error_at: self.last_error_at@,
        }
    }
}

impl Row for DeadLetter {
    fn duplicate(&self) -> (r: DeadLetter) {
        DeadLetter {
            id: self.id.clone(),
            payload: self.payload.clone(),
            error: self.error.clone(),
            source: self.source.clone(),
            failures: self.failures,
            first_seen_at: self.first_seen_at.clone(),
            last_error_at: self.last_error_at.clone(),
        }
    }
}

/// Where an archived run has gone.
#[derive(Debug, Clone)]
pub struct ArchivedRun {
    pub run_id: String,
    pub name: String,
    pub status: String,
    pub created_at: Option<String>,
    pub finished_at: Option<String>,
    pub archived_at: String,
    pub compacted_at: Option<String>,
    pub parquet_path: Option<String>,
}

#[verifier::ext_equal]
pub struct ArchivedRunView {
    pub run_id: Seq<char>,
    pub name: Seq<char>,
    pub status: Seq<char>,
    pub created_at: Option<Seq<char>>,
    pub finished_at: Option<Seq<char>>,
    pub archived_at: Seq<char>,
    pub compacted_at: Option<Seq<char>>,
    pub parquet_path: Option<Seq<char>>,
}

impl View for ArchivedRun {
    type V = ArchivedRunView;

    open spec fn view(&self) -> ArchivedRunView {
        ArchivedRunView {
            run_id: self.run_id@,
            name: self.name@,
            status: self.status@,
            created_at: opt(self.created_at),
            finished_at: opt(self.finished_at),
            archived_at: self.archived_at@,
            compacted_at: opt(self.compacted_at),
            parquet_path: opt(self.parquet_path),
        }
    }
}

impl Row for ArchivedRun {
    fn duplicate(&self) -> (r: ArchivedRun) {
        ArchivedRun {
            run_id: self.run_id.clone(),
            name: self.name.clone(),
            status: self.status.clone(),
            created_at: copy_text(&self.created_at),
            finished_at: copy_text(&self.finished_at),
            archived_at: self.archived_at.clone(),
            compacted_at: copy_text(&self.compacted_at),
            parquet_path: copy_text(&self.parquet_path),
        }
    }
}

/// An instance-wide setting.
#[derive(Debug, Clone)]
pub struct Setting {
    pub key: String,
    pub value: String,
}

#[verifier::ext_equal]
pub struct SettingView {
    pub key: Seq<char>,
    pub value: Seq<char>,
}

impl View for Setting {
    type V = SettingView;

    open spec fn view(&self) -> SettingView {
        SettingView {
            key: self.key@,
            value: self.value@,
        }
    }
}

impl Row for Setting {
    fn duplicate(&self) -> (r: Setting) {
        Setting {
            key: self.key.clone(),
            value: self.value.clone(),
        }
    }
}

/// A named set of variables, as JSON.
#[derive(Debug, Clone)]
pub struct Environment {
    pub id: String,
    pub name: String,
    pub variables: String,
}

#[verifier::ext_equal]
pub struct EnvironmentView {
    pub id: Seq<char>,
    pub name: Seq<char>,
    pub variables: Seq<char>,
}

impl View for Environment {
    type V = EnvironmentView;

    open spec fn view(&self) -> EnvironmentView {
        EnvironmentView {
            id: self.id@,
            name: self.name@,
            variables: self.variables@,
        }
    }
}

impl Row for Environment {
    fn duplicate(&self) -> (r: Environment) {
        Environment {
            id: self.id.clone(),
            name: self.name.clone(),
            variables: self.variables.clone(),
        }
    }
}

/// An encrypted secret of an environment.
#[derive(Debug, Clone)]
pub struct EnvironmentSecret {
    pub environment_id: String,
    pub name: String,
    pub ciphertext: String,
}

#[verifier::ext_equal]
pub struct EnvironmentSecretView {
    pub environment_id: Seq<char>,
    pub name: Seq<char>,
    pub ciphertext: Seq<char>,
}

impl View for EnvironmentSecret {
    type V = EnvironmentSecretView;

    open spec fn view(&self) -> EnvironmentSecretView {
        EnvironmentSecretView {
            environment_id: self.environment_id@,
            name: self.name@,
            ciphertext: self.ciphertext@,
        }
    }
}

impl Row for EnvironmentSecret {
    fn duplicate(&self) -> (r: EnvironmentSecret) {
        EnvironmentSecret {
            environment_id: self.environment_id.clone(),
            name: self.name.clone(),
            ciphertext: self.ciphertext.clone(),
        }
    }
}

/// Who holds a role, and until when.
#[derive(Debug, Clone)]
pub struct Leader {
    pub role: String,
    pub holder: String,
    pub lease_expires_at: String,
}

#[verifier::ext_equal]
pub struct LeaderView {
    pub role: Seq<char>,
    pub holder: Seq<char>,
    pub lease_expires_at: Seq<char>,
}

impl View for Leader {
    type V = LeaderView;

    open spec fn view(&self) -> LeaderView {
        LeaderView {
            role: self.role@,
            holder: self.holder@,
            lease_expires_at: self.lease_expires_at@,
        }
    }
}

impl Row for Leader {
    fn duplicate(&self) -> (r: Leader) {
        Leader {
            role: self.role.clone(),
            holder: self.holder.clone(),
            lease_expires_at: self.lease_expires_at.clone(),
        }
    }
}

} // verus!
