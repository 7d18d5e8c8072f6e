//! Every column of a row stands for the field of the same name.
use vstd::prelude::*;
use crate::clock::ClockStatus;
use crate::datasets::opt_text;
use crate::gangs::gang_sizes;
use crate::models::RunStatus;
use crate::order::places;
use crate::parks::{decisions, text_pairs};
use crate::queries::{counts_of, ReadyClassBacklog, RunSummary};
use crate::reap::reports;
use crate::records::members;
use crate::retention::RunArchive;
use crate::rows::{
    ArchivedRun, BackfillJob, BackfillSlot, Dataset, DatasetEvent, DatasetTrigger, DeadLetter,
    Definition, Edge, Environment, EnvironmentSecret, Leader, Memo, OutboxRow, RegisteredWorkflow,
    RunRerun, Schedule, Setting, SourceOffset, SourcePartition, TaskRun, WorkflowRun,
};
use crate::schedules::DueSchedule;
use crate::store::Store;
use crate::text::texts;
use crate::text_map::entries_map;
use crate::triggers::DatasetFire;

verus! {

/// The columns of a definition.
pub proof fn law_definition_columns(r: Definition)
    ensures
        r@.id == r.id@,
        r@.name == r.name@,
        r@.spec == r.spec@,
        r@.created_at == r.created_at@,
{
}

/// The columns of a workflow run.
pub proof fn law_workflow_run_columns(r: WorkflowRun)
    ensures
        r@.id == r.id@,
        r@.definition_id == r.definition_id@,
        r@.status == r.status,
        r@.input == (match r.input {
            Some(s) => Some(s@),
            None => None,
        }),
        r@.output == (match r.output {
            Some(s) => Some(s@),
            None => None,
        }),
        r@.created_at == r.created_at@,
        r@.finished_at == (match r.finished_at {
            Some(s) => Some(s@),
            None => None,
        }),
        r@.deadline_at == (match r.deadline_at {
            Some(s) => Some(s@),
            None => None,
        }),
        r@.alert_deadline_at == (match r.alert_deadline_at {
            Some(s) => Some(s@),
            None => None,
        }),
        r@.alert_fired_at == (match r.alert_fired_at {
            Some(s) => Some(s@),
            None => None,
        }),
        r@.result_from == (match r.result_from {
            Some(s) => Some(s@),
            None => None,
        }),
        r@.environment == (match r.environment {
            Some(s) => Some(s@),
            None => None,
        }),
        r@.schedule_id == (match r.schedule_id {
            Some(s) => Some(s@),
            None => None,
        }),
        r@.clock_confidence == (match r.clock_confidence {
            Some(s) => Some(s@),
            None => None,
        }),
        r@.clock_offset_ms == (match r.clock_offset_ms {
            Some(k) => Some(k as int),
            None => None,
        }),
        r@.clock_source == (match r.clock_source {
            Some(s) => Some(s@),
            None => None,
        }),
{
}

/// The columns of a task.
pub proof fn law_task_run_columns(r: TaskRun)
    ensures
        r@.id == r.id@,
        r@.run_id == r.run_id@,
        r@.name == r.name@,
        r@.status == r.status,
        r@.attempt == r.attempt,
        r@.remaining_deps == r.remaining_deps,
        r@.input == (match r.input {
            Some(s) => Some(s@),
            None => None,
        }),
        r@.when == (match r.when {
            Some(s) => Some(s@),
            None => None,
        }),
        r@.output == (match r.output {
            Some(s) => Some(s@),
            None => None,
        }),
        r@.claimed_by == (match r.claimed_by {
            Some(s) => Some(s@),
            None => None,
        }),
        r@.lease_expires_at == (match r.lease_expires_at {
            Some(s) => Some(s@),
            None => None,
        }),
        r@.version == r.version,
        r@.scheduled_at == (match r.scheduled_at {
            Some(s) => Some(s@),
            None => None,
        }),
        r@.finished_at == (match r.finished_at {
            Some(s) => Some(s@),
            None => None,
        }),
        r@.pool == (match r.pool {
            Some(s) => Some(s@),
            None => None,
        }),
        r@.priority == r.priority,
        r@.cache_hit == r.cache_hit,
        r@.wake_at == (match r.wake_at {
            Some(s) => Some(s@),
            None => None,
        }),
        r@.wait_url == (match r.wait_url {
            Some(s) => Some(s@),
            None => None,
        }),
        r@.next_poll_at == (match r.next_poll_at {
            Some(s) => Some(s@),
            None => None,
        }),
        r@.wait_dataset == (match r.wait_dataset {
            Some(s) => Some(s@),
            None => None,
        }),
        r@.wait_dataset_cursor == (match r.wait_dataset_cursor {
            Some(k) => Some(k as int),
            None => None,
        }),
        r@.sub_run_id == (match r.sub_run_id {
            Some(s) => Some(s@),
            None => None,
        }),
        r@.trigger_rule == r.trigger_rule@,
        r@.allow_failure == r.allow_failure,
        r@.is_approval == r.is_approval,
        r@.approval_timeout_secs == (match r.approval_timeout_secs {
            Some(k) => Some(k as int),
            None => None,
        }),
        r@.approval_on_timeout == (match r.approval_on_timeout {
            Some(s) => Some(s@),
            None => None,
        }),
        r@.runner_class == r.runner_class@,
        r@.gang_id == (match r.gang_id {
            Some(s) => Some(s@),
            None => None,
        }),
        r@.gang_rank == (match r.gang_rank {
            Some(k) => Some(k as int),
            None => None,
        }),
        r@.gang_size == (match r.gang_size {
            Some(k) => Some(k as int),
            None => None,
        }),
        r@.checkpoint_uri == (match r.checkpoint_uri {
            Some(s) => Some(s@),
            None => None,
        }),
        r@.checkpoint_marker == (match r.checkpoint_marker {
            Some(s) => Some(s@),
            None => None,
        }),
{
}

/// The columns of an edge.
pub proof fn law_edge_columns(r: Edge)
    ensures
        r@.dependent_id == r.dependent_id@,
        r@.dependency_id == r.dependency_id@,
{
}

/// The columns of a source offset.
pub proof fn law_source_offset_columns(r: SourceOffset)
    ensures
        r@.source_name == r.source_name@,
        r@.position == r.position@,
        r@.updated_at == r.updated_at@,
{
}

/// The columns of a source partition.
pub proof fn law_source_partition_columns(r: SourcePartition)
    ensures
        r@.source_name == r.source_name@,
        r@.partition == r.partition@,
        r@.claimed_by == (match r.claimed_by {
            Some(s) => Some(s@),
            None => None,
        }),
        r@.lease_expires_at == (match r.lease_expires_at {
            Some(s) => Some(s@),
            None => None,
        }),
        r@.updated_at == r.updated_at@,
{
}

/// The columns of a registered workflow.
pub proof fn law_registered_workflow_columns(r: RegisteredWorkflow)
    ensures
        r@.id == r.id@,
        r@.name == r.name@,
        r@.spec == r.spec@,
        r@.state == r.state@,
{
}

/// The columns of a dataset.
pub proof fn law_dataset_columns(r: Dataset)
    ensures
        r@.uri == r.uri@,
        r@.updated_at == r.updated_at@,
        r@.last_run_id == (match r.last_run_id {
            Some(s) => Some(s@),
            None => None,
        }),
        r@.last_task == (match r.last_task {
            Some(s) => Some(s@),
            None => None,
        }),
        r@.updates == r.updates,
{
}

/// The columns of a dataset event.
pub proof fn law_dataset_event_columns(r: DatasetEvent)
    ensures
        r@.id == r.id,
        r@.uri == r.uri@,
        r@.workflow == (match r.workflow {
            Some(s) => Some(s@),
            None => None,
        }),
        r@.run_id == (match r.run_id {
            Some(s) => Some(s@),
            None => None,
        }),
        r@.task_id == (match r.task_id {
            Some(s) => Some(s@),
            None => None,
        }),
        r@.task_name == (match r.task_name {
            Some(s) => Some(s@),
            None => None,
        }),
        r@.source == r.source@,
        r@.at == r.at@,
{
}

/// The columns of a dataset trigger.
pub proof fn law_dataset_trigger_columns(r: DatasetTrigger)
    ensures
        r@.workflow_name == r.workflow_name@,
        r@.uri == r.uri@,
        r@.cursor == r.cursor,
        r@.mode == r.mode@,
        r@.last_fired_at == (match r.last_fired_at {
            Some(s) => Some(s@),
            None => None,
        }),
        r@.last_fired_run_id == (match r.last_fired_run_id {
            Some(s) => Some(s@),
            None => None,
        }),
{
}

/// The columns of a schedule.
pub proof fn law_schedule_columns(r: Schedule)
    ensures
        r@.id == r.id@,
        r@.workflow_id == r.workflow_id@,
        r@.cron_expr == r.cron_expr@,
        r@.timezone == (match r.timezone {
            Some(s) => Some(s@),
            None => None,
        }),
        r@.when_expr == (match r.when_expr {
            Some(s) => Some(s@),
            None => None,
        }),
        r@.stop_expr == (match r.stop_expr {
            Some(s) => Some(s@),
            None => None,
        }),
        r@.enabled == r.enabled,
        r@.catchup == r.catchup,
        r@.catchup_window_secs == (match r.catchup_window_secs {
            Some(k) => Some(k as int),
            None => None,
        }),
        r@.catchup_max_runs == (match r.catchup_max_runs {
            Some(k) => Some(k as int),
            None => None,
        }),
        r@.next_fire_at == (match r.next_fire_at {
            Some(s) => Some(s@),
            None => None,
        }),
        r@.last_fired_at == (match r.last_fired_at {
            Some(s) => Some(s@),
            None => None,
        }),
        r@.stopped_at == (match r.stopped_at {
            Some(s) => Some(s@),
            None => None,
        }),
        r@.stop_reason == (match r.stop_reason {
            Some(s) => Some(s@),
            None => None,
        }),
        r@.updated_at == r.updated_at@,
{
}

/// The columns of a backfill slot.
pub proof fn law_backfill_slot_columns(r: BackfillSlot)
    ensures
        r@.schedule_id == r.schedule_id@,
        r@.logical_date == r.logical_date@,
        r@.run_id == (match r.run_id {
            Some(s) => Some(s@),
            None => None,
        }),
        r@.created_at == r.created_at@,
{
}

/// The columns of a backfill job.
pub proof fn law_backfill_job_columns(r: BackfillJob)
    ensures
        r@.id == r.id@,
        r@.schedule_id == r.schedule_id@,
        r@.cron_expr == r.cron_expr@,
        r@.timezone == (match r.timezone {
            Some(s) => Some(s@),
            None => None,
        }),
        r@.spec == r.spec@,
        r@.range_from == r.range_from@,
        r@.range_to == r.range_to@,
        r@.cursor == r.cursor@,
        r@.status == r.status@,
        r@.max_runs == (match r.max_runs {
            Some(k) => Some(k as int),
            None => None,
        }),
        r@.requested == r.requested,
        r@.fired == r.fired,
        r@.created_at == r.created_at@,
        r@.updated_at == r.updated_at@,
{
}

/// The columns of a run rerun.
pub proof fn law_run_rerun_columns(r: RunRerun)
    ensures
        r@.run_id == r.run_id@,
        r@.attempts == r.attempts,
        r@.last_rerun_at == (match r.last_rerun_at {
            Some(s) => Some(s@),
            None => None,
        }),
{
}

/// The columns of an outbox row.
pub proof fn law_outbox_row_columns(r: OutboxRow)
    ensures
        r@.id == r.id@,
        r@.run_id == r.run_id@,
        r@.event_type == r.event_type@,
        r@.payload == r.payload@,
        r@.status == r.status,
        r@.attempts == r.attempts,
        r@.next_attempt_at == r.next_attempt_at@,
        r@.created_at == r.created_at@,
        r@.delivered_at == (match r.delivered_at {
            Some(s) => Some(s@),
            None => None,
        }),
        r@.last_error == (match r.last_error {
            Some(s) => Some(s@),
            None => None,
        }),
{
}

/// The columns of a memo.
pub proof fn law_memo_columns(r: Memo)
    ensures
        r@.workflow_name == r.workflow_name@,
        r@.task_name == r.task_name@,
        r@.cache_key == r.cache_key@,
        r@.output == (match r.output {
            Some(s) => Some(s@),
            None => None,
        }),
        r@.created_at == r.created_at@,
{
}

/// The columns of a dead letter.
pub proof fn law_dead_letter_columns(r: DeadLetter)
    ensures
        r@.id == r.id@,
        r@.payload == r.payload@,
        r@.error == r.error@,
        r@.source == r.source@,
        r@.failures == r.failures,
        r@.first_seen_at == r.first_seen_at@,
        r@.last_error_at == r.last_error_at@,
{
}

/// The columns of an archived run.
pub proof fn law_archived_run_columns(r: ArchivedRun)
    ensures
        r@.run_id == r.run_id@,
        r@.name == r.name@,
        r@.status == r.status@,
        r@.created_at == (match r.created_at {
            Some(s) => Some(s@),
            None => None,
        }),
        r@.finished_at == (match r.finished_at {
            Some(s) => Some(s@),
            None => None,
        }),
        r@.archived_at == r.archived_at@,
        r@.compacted_at == (match r.compacted_at {
            Some(s) => Some(s@),
            None => None,
        }),
        r@.parquet_path == (match r.parquet_path {
            Some(s) => Some(s@),
            None => None,
        }),
{
}

/// The columns of a setting.
pub proof fn law_setting_columns(r: Setting)
    ensures
        r@.key == r.key@,
        r@.value == r.value@,
{
}

/// The columns of an environment.
pub proof fn law_environment_columns(r: Environment)
    ensures
        r@.id == r.id@,
        r@.name == r.name@,
        r@.variables == r.variables@,
{
}

/// The columns of an environment secret.
pub proof fn law_environment_secret_columns(r: EnvironmentSecret)
    ensures
        r@.environment_id == r.environment_id@,
        r@.name == r.name@,
        r@.ciphertext == r.ciphertext@,
{
}

/// The columns of a leader.
pub proof fn law_leader_columns(r: Leader)
    ensures
        r@.role == r.role@,
        r@.holder == r.holder@,
        r@.lease_expires_at == r.lease_expires_at@,
{
}

/// The columns of a clock status.
pub proof fn law_clock_status_columns(r: ClockStatus)
    ensures
        r@.confidence == r.confidence,
        r@.offset_ms == (match r.offset_ms {
            Some(k) => Some(k as int),
            None => None,
        }),
        r@.source == (match r.source {
            Some(s) => Some(s@),
            None => None,
        }),
{
}

/// The columns of a run summary.
pub proof fn law_run_summary_columns(r: RunSummary)
    ensures
        r@.id == r.id@,
        r@.name == r.name@,
        r@.status == r.status,
        r@.created_at == r.created_at@,
        r@.finished_at == (match r.finished_at {
            Some(s) => Some(s@),
            None => None,
        }),
{
}

/// The columns of a ready class backlog.
pub proof fn law_ready_class_backlog_columns(r: ReadyClassBacklog)
    ensures
        r@.runner_class == r.runner_class@,
        r@.count == r.count,
        r@.oldest_scheduled_at == (match r.oldest_scheduled_at {
            Some(s) => Some(s@),
            None => None,
        }),
{
}

/// The columns of a run archive.
pub proof fn law_run_archive_columns(r: RunArchive)
    ensures
        r@.run == r.run@,
        r@.definition_name == r.definition_name@,
        r@.definition_spec == r.definition_spec@,
        r@.tasks.len() == r.tasks@.len(),
        forall|k: int| 0 <= k < r.tasks@.len() ==> #[trigger] r@.tasks[k] == r.tasks@[k]@,
        r@.outbox_events.len() == r.outbox_events@.len(),
        forall|k: int| 0 <= k < r.outbox_events@.len() ==> #[trigger] r@.outbox_events[k] == r.outbox_events@[k]@,
{
}

/// The columns of a due schedule.
pub proof fn law_due_schedule_columns(r: DueSchedule)
    ensures
        r@.schedule == r.schedule@,
        r@.spec == r.spec@,
{
}

/// The columns of a dataset fire.
pub proof fn law_dataset_fire_columns(r: DatasetFire)
    ensures
        r@.workflow_name == r.workflow_name@,
        r@.trigger_uri == r.trigger_uri@,
        r@.advanced.len() == r.advanced@.len(),
        forall|k: int|
            0 <= k < r.advanced@.len() ==> #[trigger] r@.advanced[k] == (
                r.advanced@[k].0@,
                r.advanced@[k].1 as int,
                r.advanced@[k].2 as int,
            ),
{
}

/// The tables of a store.
pub proof fn law_store_tables(r: Store)
    ensures
        r@.definitions.len() == r.definitions@.len(),
        forall|k: int| 0 <= k < r.definitions@.len() ==> #[trigger] r@.definitions[k] == r.definitions@[k]@,
        r@.runs.len() == r.runs@.len(),
        forall|k: int| 0 <= k < r.runs@.len() ==> #[trigger] r@.runs[k] == r.runs@[k]@,
        r@.tasks.len() == r.tasks@.len(),
        forall|k: int| 0 <= k < r.tasks@.len() ==> #[trigger] r@.tasks[k] == r.tasks@[k]@,
        r@.edges.len() == r.edges@.len(),
        forall|k: int| 0 <= k < r.edges@.len() ==> #[trigger] r@.edges[k] == r.edges@[k]@,
        r@.offsets.len() == r.offsets@.len(),
        forall|k: int| 0 <= k < r.offsets@.len() ==> #[trigger] r@.offsets[k] == r.offsets@[k]@,
        r@.partitions.len() == r.partitions@.len(),
        forall|k: int| 0 <= k < r.partitions@.len() ==> #[trigger] r@.partitions[k] == r.partitions@[k]@,
        r@.workflows.len() == r.workflows@.len(),
        forall|k: int| 0 <= k < r.workflows@.len() ==> #[trigger] r@.workflows[k] == r.workflows@[k]@,
        r@.datasets.len() == r.datasets@.len(),
        forall|k: int| 0 <= k < r.datasets@.len() ==> #[trigger] r@.datasets[k] == r.datasets@[k]@,
        r@.dataset_events.len() == r.dataset_events@.len(),
        forall|k: int| 0 <= k < r.dataset_events@.len() ==> #[trigger] r@.dataset_events[k] == r.dataset_events@[k]@,
        r@.triggers.len() == r.triggers@.len(),
        forall|k: int| 0 <= k < r.triggers@.len() ==> #[trigger] r@.triggers[k] == r.triggers@[k]@,
        r@.schedules.len() == r.schedules@.len(),
        forall|k: int| 0 <= k < r.schedules@.len() ==> #[trigger] r@.schedules[k] == r.schedules@[k]@,
        r@.slots.len() == r.slots@.len(),
        forall|k: int| 0 <= k < r.slots@.len() ==> #[trigger] r@.slots[k] == r.slots@[k]@,
        r@.backfills.len() == r.backfills@.len(),
        forall|k: int| 0 <= k < r.backfills@.len() ==> #[trigger] r@.backfills[k] == r.backfills@[k]@,
        r@.reruns.len() == r.reruns@.len(),
        forall|k: int| 0 <= k < r.reruns@.len() ==> #[trigger] r@.reruns[k] == r.reruns@[k]@,
        r@.outbox.len() == r.outbox@.len(),
        forall|k: int| 0 <= k < r.outbox@.len() ==> #[trigger] r@.outbox[k] == r.outbox@[k]@,
        r@.memos.len() == r.memos@.len(),
        forall|k: int| 0 <= k < r.memos@.len() ==> #[trigger] r@.memos[k] == r.memos@[k]@,
        r@.dead_letters.len() == r.dead_letters@.len(),
        forall|k: int| 0 <= k < r.dead_letters@.len() ==> #[trigger] r@.dead_letters[k] == r.dead_letters@[k]@,
        r@.archived.len() == r.archived@.len(),
        forall|k: int| 0 <= k < r.archived@.len() ==> #[trigger] r@.archived[k] == r.archived@[k]@,
        r@.leaders.len() == r.leaders@.len(),
        forall|k: int| 0 <= k < r.leaders@.len() ==> #[trigger] r@.leaders[k] == r.leaders@[k]@,
        r@.settings.len() == r.settings@.len(),
        forall|k: int| 0 <= k < r.settings@.len() ==> #[trigger] r@.settings[k] == r.settings@[k]@,
        r@.environments.len() == r.environments@.len(),
        forall|k: int| 0 <= k < r.environments@.len() ==> #[trigger] r@.environments[k] == r.environments@[k]@,
        r@.secrets.len() == r.secrets@.len(),
        forall|k: int| 0 <= k < r.secrets@.len() ==> #[trigger] r@.secrets[k] == r.secrets@[k]@,
{
}

// ── Lists ────────────────────────────────────────────────────────────────────

/// Lists stand for what their entries stand for, entry by entry.
pub proof fn law_lists_read_entry_by_entry(
    t: Seq<String>,
    p: Seq<(String, String)>,
    d: Seq<(String, bool)>,
    c: Seq<(String, u64)>,
    g: Seq<(String, i64)>,
    e: Seq<(String, RunStatus)>,
    q: Seq<usize>,
)
    ensures
        texts(t).len() == t.len(),
        forall|k: int| 0 <= k < t.len() ==> #[trigger] texts(t)[k] == t[k]@,
        text_pairs(p).len() == p.len(),
        forall|k: int| 0 <= k < p.len() ==> #[trigger] text_pairs(p)[k] == (p[k].0@, p[k].1@),
        members(p).len() == p.len(),
        forall|k: int| 0 <= k < p.len() ==> #[trigger] members(p)[k] == (p[k].0@, p[k].1@),
        decisions(d).len() == d.len(),
        forall|k: int| 0 <= k < d.len() ==> #[trigger] decisions(d)[k] == (d[k].0@, d[k].1),
        counts_of(c).len() == c.len(),
        forall|k: int| 0 <= k < c.len() ==> #[trigger] counts_of(c)[k] == (c[k].0@, c[k].1 as nat),
        gang_sizes(g).len() == g.len(),
        forall|k: int| 0 <= k < g.len() ==> #[trigger] gang_sizes(g)[k] == (g[k].0@, g[k].1 as int),
        reports(e).len() == e.len(),
        forall|k: int| 0 <= k < e.len() ==> #[trigger] reports(e)[k] == (e[k].0@, e[k].1),
        places(q).len() == q.len(),
        forall|k: int| 0 <= k < q.len() ==> #[trigger] places(q)[k] == q[k],
{
}

/// A text that may be missing stands for itself.
pub proof fn law_missing_text_is_missing(s: &str)
    ensures
        opt_text(Some(s)) == Some(s@),
        opt_text(None) is None,
{
}

/// A map of texts holds the keys of its entries, each with the value of its
/// first entry.
pub proof fn law_first_entry_of_a_key_counts<V>(entries: Seq<(String, V)>, key: Seq<char>, k: int)
    requires
        0 <= k <= entries.len(),
        forall|j: int| 0 <= j < k ==> (#[trigger] entries[j]).0@ != key,
        k < entries.len() ==> entries[k].0@ == key,
    ensures
        entries_map(entries).contains_key(key) <==> k < entries.len(),
        k < entries.len() ==> entries_map(entries)[key] == entries[k].1,
    decreases entries.len(),
{
    if entries.len() > 0 && k > 0 {
        let rest = entries.drop_first();
        assert(entries[0].0@ != key);
        assert forall|j: int| 0 <= j < k - 1 implies (#[trigger] rest[j]).0@ != key by {
            assert(rest[j] == entries[j + 1]);
        }
        law_first_entry_of_a_key_counts(rest, key, k - 1);
    }
}

} // verus!
