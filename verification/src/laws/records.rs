//! Memos, dead letters, secrets, schedules and the reruns that a failed run gets.
use vstd::prelude::*;
use crate::laws::reading::law_first_row;
use crate::models::RunStatus;
use crate::records::{dead_letter, memo_for, memo_stored, memoized, secret_of, unreadable};
use crate::rows::{
    BackfillJobView, BackfillSlotView, DeadLetterView, EnvironmentSecretView, EnvironmentView, MemoView,
    RegisteredWorkflowView, RunRerunView, ScheduleView, WorkflowRunView,
};
use crate::schedules::{
    active_workflow, job_of, joined, may_rerun, rerun_counted, rerun_due, schedule_catches_up, schedule_due,
    scheduled_run, slot_claimed, slot_for, stopped,
};
use crate::table::any;
use crate::text::lex_lt;
use crate::time::{elapsed, rfc3339_value, Timestamp};

verus! {

// ── Memos ────────────────────────────────────────────────────────────────────

/// A lookup finds the memo of the same workflow, task and key, and no other. It
/// is used where no age is asked for, or where it is not older than asked. One
/// without an output counts as empty.
pub proof fn law_memo_is_the_tasks_own(
    memos: Seq<MemoView>,
    workflow: Seq<char>,
    task: Seq<char>,
    key: Seq<char>,
    max_age: Option<u64>,
    now: Timestamp,
    k: int,
)
    requires
        0 <= k <= memos.len(),
        forall|j: int|
            0 <= j < k ==> !((#[trigger] memos[j]).workflow_name == workflow && memos[j].task_name == task
                && memos[j].cache_key == key),
        k < memos.len() ==> memos[k].workflow_name == workflow && memos[k].task_name == task
            && memos[k].cache_key == key,
    ensures
        ({
            let got = memoized(memos, workflow, task, key, max_age, now);
            let out = match memos[k].output {
                Some(o) => o,
                None => Seq::empty(),
            };
            &&& k == memos.len() ==> got is None
            &&& k < memos.len() && max_age is None ==> got == Some(out)
            &&& k < memos.len() && max_age is Some ==> match rfc3339_value(memos[k].created_at) {
                Ok((secs, nanos)) => got == (if elapsed(
                    now,
                    Timestamp { secs: secs as i64, nanos: nanos as u32 },
                ) <= max_age->0 {
                    Some(out)
                } else {
                    None
                }),
                Err(_) => got is None,
            }
        }),
{
    let p = |m: MemoView| memo_for(m, workflow, task, key);
    assert forall|j: int| 0 <= j < k implies !p(#[trigger] memos[j]) by {}
    law_first_row(memos, p, k);
}

/// To store a result sets the memo of its own workflow, task and key; the other
/// memos stay.
pub proof fn law_memo_is_stored(
    memos: Seq<MemoView>,
    workflow: Seq<char>,
    task: Seq<char>,
    key: Seq<char>,
    output: Seq<char>,
    now: Seq<char>,
    i: int,
)
    requires
        0 <= i < memos.len(),
    ensures
        ({
            let after = memo_stored(memos, workflow, task, key, output, now);
            let own = |m: MemoView| m.workflow_name == workflow && m.task_name == task && m.cache_key == key;
            let known = exists|k: int| 0 <= k < memos.len() && own(#[trigger] memos[k]);
            let new = MemoView {
                workflow_name: workflow,
                task_name: task,
                cache_key: key,
                output: Some(output),
                created_at: now,
            };
            &&& after.len() == memos.len() + (if known { 0int } else { 1 })
            &&& after[i] == (if own(memos[i]) { new } else { memos[i] })
            &&& !known ==> after.last() == new
        }),
{
    let own = |m: MemoView| m.workflow_name == workflow && m.task_name == task && m.cache_key == key;
    let p = |m: MemoView| memo_for(m, workflow, task, key);
    assert(p =~= own);
}

// ── Dead letters, environments ───────────────────────────────────────────────

/// A dead letter keeps what was submitted and why it failed; it was first and
/// last seen now. The complaint about an environment names it.
pub proof fn law_dead_letter_keeps_its_submission(
    id: Seq<char>,
    payload: Seq<char>,
    error: Seq<char>,
    source: Seq<char>,
    failures: int,
    now: Seq<char>,
)
    ensures
        dead_letter(id, payload, error, source, failures, now) == (DeadLetterView {
            id,
            payload,
            error,
            source,
            failures,
            first_seen_at: now,
            last_error_at: now,
        }),
        unreadable(id, error) == "environment '"@ + id + "' variables unparseable: "@ + error,
{
}

/// A secret is found by its name, in the environment whose id it carries.
pub proof fn law_secret_is_of_its_environment(
    environments: Seq<EnvironmentView>,
    s: EnvironmentSecretView,
    env: Seq<char>,
    name: Seq<char>,
)
    ensures
        secret_of(environments, s, env, name) <==> s.name == name && exists|k: int|
            0 <= k < environments.len() && (#[trigger] environments[k]).id == s.environment_id
                && environments[k].name == env,
{
    let p = |e: EnvironmentView| e.id == s.environment_id && e.name == env;
    if exists|k: int|
        0 <= k < environments.len() && (#[trigger] environments[k]).id == s.environment_id
            && environments[k].name == env {
        let k = choose|k: int|
            0 <= k < environments.len() && (#[trigger] environments[k]).id == s.environment_id
                && environments[k].name == env;
        assert(p(environments[k]));
    }
    if any(environments, p) {
        let k = choose|k: int| 0 <= k < environments.len() && p(#[trigger] environments[k]);
        assert(environments[k].id == s.environment_id);
    }
}

// ── Schedules ────────────────────────────────────────────────────────────────

/// The workflow is registered under the id and active.
pub open spec fn runs_active(workflows: Seq<RegisteredWorkflowView>, id: Seq<char>) -> bool {
    exists|k: int| 0 <= k < workflows.len() && (#[trigger] workflows[k]).id == id && workflows[k].state == "active"@
}

proof fn lemma_runs_active(workflows: Seq<RegisteredWorkflowView>, id: Seq<char>)
    ensures
        active_workflow(workflows, id) is Some <==> runs_active(workflows, id),
{
    let p = |w: RegisteredWorkflowView| w.id == id && w.state == "active"@;
    crate::order::lemma_first(workflows, p);
    if runs_active(workflows, id) {
        let k = choose|k: int|
            0 <= k < workflows.len() && (#[trigger] workflows[k]).id == id && workflows[k].state == "active"@;
        assert(p(workflows[k]));
    }
    if active_workflow(workflows, id) is Some {
        let k = choose|k: int| 0 <= k < workflows.len() && p(#[trigger] workflows[k]);
        assert(workflows[k].id == id);
    }
}

/// A schedule fires where it is enabled, its time has come and its workflow is
/// active; it catches up where it is enabled, wants to and its workflow is
/// active. A disabled one does neither.
pub proof fn law_schedule_fires_when_due(
    workflows: Seq<RegisteredWorkflowView>,
    s: ScheduleView,
    now: Seq<char>,
)
    ensures
        schedule_due(workflows, s, now) <==> s.enabled && (s.next_fire_at matches Some(at) && !lex_lt(now, at))
            && runs_active(workflows, s.workflow_id),
        schedule_catches_up(workflows, s) <==> s.enabled && s.catchup && runs_active(workflows, s.workflow_id),
{
    lemma_runs_active(workflows, s.workflow_id);
}

/// A schedule fires the text of its own active workflow.
pub proof fn law_schedule_fires_its_workflow(workflows: Seq<RegisteredWorkflowView>, s: ScheduleView, k: int)
    requires
        0 <= k < workflows.len(),
        workflows[k].id == s.workflow_id && workflows[k].state == "active"@,
        forall|j: int|
            0 <= j < k ==> !((#[trigger] workflows[j]).id == s.workflow_id && workflows[j].state == "active"@),
    ensures
        joined(workflows, s).schedule == s,
        joined(workflows, s).spec == workflows[k].spec,
{
    law_first_row(workflows, |w: RegisteredWorkflowView| w.id == s.workflow_id && w.state == "active"@, k);
}

/// A stopped schedule is disabled and says when and why; nothing else of it
/// changes.
pub proof fn law_stop_says_why(s: ScheduleView, reason: Seq<char>, now: Seq<char>)
    ensures
        stopped(s, reason, now) == (ScheduleView {
            enabled: false,
            stopped_at: Some(now),
            stop_reason: Some(reason),
            updated_at: now,
            ..s
        }),
{
}

/// A run counts for the schedule that started it, in the state asked for or in
/// any; a backfill is listed for its schedule, or for all.
pub proof fn law_runs_count_for_their_schedule(
    r: WorkflowRunView,
    b: BackfillJobView,
    id: Seq<char>,
    status: RunStatus,
)
    ensures
        scheduled_run(r, id, Some(status)) <==> r.schedule_id == Some(id) && r.status == status,
        scheduled_run(r, id, None) <==> r.schedule_id == Some(id),
        job_of(b, Some(id)) <==> b.schedule_id == id,
        job_of(b, None),
{
}

/// A slot belongs to one schedule and one date: it is claimed where it was not
/// yet, without a run; the slots that are there stay.
pub proof fn law_slot_is_for_one_date(
    slots: Seq<BackfillSlotView>,
    id: Seq<char>,
    date: Seq<char>,
    now: Seq<char>,
    s: BackfillSlotView,
)
    ensures
        ({
            let after = slot_claimed(slots, id, date, now);
            let known = exists|k: int|
                0 <= k < slots.len() && (#[trigger] slots[k]).schedule_id == id && slots[k].logical_date == date;
            &&& slot_for(s, id, date) <==> s.schedule_id == id && s.logical_date == date
            &&& any(slots, |s: BackfillSlotView| slot_for(s, id, date)) <==> known
            &&& known ==> after == slots
            &&& !known ==> after == slots.push(
                BackfillSlotView { schedule_id: id, logical_date: date, run_id: None, created_at: now },
            )
        }),
{
    let p = |s: BackfillSlotView| slot_for(s, id, date);
    if exists|k: int|
        0 <= k < slots.len() && (#[trigger] slots[k]).schedule_id == id && slots[k].logical_date == date {
        let k = choose|k: int|
            0 <= k < slots.len() && (#[trigger] slots[k]).schedule_id == id && slots[k].logical_date == date;
        assert(p(slots[k]));
    }
    if any(slots, p) {
        let k = choose|k: int| 0 <= k < slots.len() && p(#[trigger] slots[k]);
        assert(slots[k].schedule_id == id);
    }
}

// ── Automatic reruns ─────────────────────────────────────────────────────────

/// A failed run may be rerun while it has had fewer reruns than the maximum and
/// none since the cutoff. A run that had none counts as zero, long ago.
pub proof fn law_rerun_waits_for_its_cooldown(
    reruns: Seq<RunRerunView>,
    r: WorkflowRunView,
    max: int,
    cutoff: Seq<char>,
    k: int,
)
    requires
        0 <= k <= reruns.len(),
        forall|j: int| 0 <= j < k ==> (#[trigger] reruns[j]).run_id != r.id,
        k < reruns.len() ==> reruns[k].run_id == r.id,
    ensures
        rerun_due(reruns, r, max, cutoff) <==> r.status == RunStatus::Failed && (if k < reruns.len() {
            reruns[k].attempts < max && (reruns[k].last_rerun_at matches Some(at) ==> lex_lt(at, cutoff))
        } else {
            0 < max
        }),
        may_rerun(reruns, r.id, max, cutoff) <==> (if k < reruns.len() {
            reruns[k].attempts < max && (reruns[k].last_rerun_at matches Some(at) ==> lex_lt(at, cutoff))
        } else {
            0 < max
        }),
{
    law_first_row(reruns, |e: RunRerunView| e.run_id == r.id, k);
}

/// A rerun is counted on its own run, and noted as the last.
pub proof fn law_rerun_is_counted(reruns: Seq<RunRerunView>, run_id: Seq<char>, now: Seq<char>, i: int)
    requires
        0 <= i < reruns.len(),
    ensures
        ({
            let after = rerun_counted(reruns, run_id, now);
            let known = exists|k: int| 0 <= k < reruns.len() && (#[trigger] reruns[k]).run_id == run_id;
            &&& after.len() == reruns.len() + (if known { 0int } else { 1 })
            &&& after[i] == (if reruns[i].run_id == run_id {
                RunRerunView { run_id, attempts: reruns[i].attempts + 1, last_rerun_at: Some(now) }
            } else {
                reruns[i]
            })
            &&& !known ==> after.last() == (RunRerunView { run_id, attempts: 1, last_rerun_at: Some(now) })
        }),
{
    let p = |e: RunRerunView| e.run_id == run_id;
    if exists|k: int| 0 <= k < reruns.len() && (#[trigger] reruns[k]).run_id == run_id {
        let k = choose|k: int| 0 <= k < reruns.len() && (#[trigger] reruns[k]).run_id == run_id;
        assert(p(reruns[k]));
    }
}

} // verus!
