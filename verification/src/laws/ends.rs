//! How runs end, and how gangs are chosen and fall.
use vstd::prelude::*;
use crate::gangs::{
    earliest, gang_cancelled, gang_of, gang_taken, handed_out, live_sibling, oversized_gangs, ready_member,
    top_priority, with_gang_claimed, GangClaim,
};
use crate::laws::claims::busy_in;
use crate::laws::keeping::lemma_earliest;
use crate::models::{RunStatus, TaskStatus};
use crate::order::{lemma_ordered_members, places_where};
use crate::outbox::payload_text;
use crate::reap::{
    alert_due, alert_event, all_over, completed, completion_event, finalized, has_failed, ids_where,
    named_output, overdue, run_outcome, running_run, swept, timed_out,
};
use crate::rows::{TaskRunView, WorkflowRunView};
use crate::store::StoreView;
use crate::table::{amended, any, lemma_count_filter};
use crate::text::lex_lt;

verus! {

// ── Runs ─────────────────────────────────────────────────────────────────────

/// The task is over: succeeded, failed, skipped or cancelled.
pub open spec fn is_over(t: TaskRunView) -> bool {
    t.status == TaskStatus::Succeeded || t.status == TaskStatus::Failed || t.status == TaskStatus::Skipped
        || t.status == TaskStatus::Cancelled
}

/// The run has tasks, and every one of them is over.
pub open spec fn nothing_left(tasks: Seq<TaskRunView>, run_id: Seq<char>) -> bool {
    &&& exists|j: int| 0 <= j < tasks.len() && (#[trigger] tasks[j]).run_id == run_id
    &&& forall|j: int| 0 <= j < tasks.len() && (#[trigger] tasks[j]).run_id == run_id ==> is_over(tasks[j])
}

/// A task of the run failed that was not allowed to.
pub open spec fn something_broke(tasks: Seq<TaskRunView>, run_id: Seq<char>) -> bool {
    exists|j: int|
        0 <= j < tasks.len() && (#[trigger] tasks[j]).run_id == run_id && tasks[j].status == TaskStatus::Failed
            && !tasks[j].allow_failure
}

proof fn lemma_nothing_left(tasks: Seq<TaskRunView>, run_id: Seq<char>)
    ensures
        all_over(tasks, run_id) <==> nothing_left(tasks, run_id),
        has_failed(tasks, run_id) <==> something_broke(tasks, run_id),
{
    if nothing_left(tasks, run_id) {
        assert forall|j: int| 0 <= j < tasks.len() && (#[trigger] tasks[j]).run_id == run_id implies tasks[j].status.terminal() by {
            assert(is_over(tasks[j]));
        }
    }
}

/// A running run ends once it has nothing left to do: failed where something
/// broke that was not allowed to, and otherwise succeeded. Other runs go on.
pub proof fn law_runs_end_by_their_tasks(db: StoreView, now: Seq<char>, k: int)
    requires
        0 <= k < db.runs.len(),
    ensures
        ({
            let r = db.runs[k];
            let u = amended(
                db.runs,
                |r: WorkflowRunView| completed(db.tasks, r),
                |r: WorkflowRunView| finalized(db.tasks, r, now),
            )[k];
            let broke = something_broke(db.tasks, r.id);
            &&& !(r.status == RunStatus::Running && nothing_left(db.tasks, r.id)) ==> u == r
            &&& r.status == RunStatus::Running && nothing_left(db.tasks, r.id) ==> u == (WorkflowRunView {
                status: if broke { RunStatus::Failed } else { RunStatus::Succeeded },
                finished_at: Some(now),
                output: u.output,
                ..r
            })
            &&& broke || r.result_from is None ==> u.output == r.output
        }),
        run_outcome(db.tasks, db.runs[k].id) == (if something_broke(db.tasks, db.runs[k].id) {
            RunStatus::Failed
        } else {
            RunStatus::Succeeded
        }),
        all_over(db.tasks, db.runs[k].id) <==> nothing_left(db.tasks, db.runs[k].id),
{
    lemma_nothing_left(db.tasks, db.runs[k].id);
}

/// A run that succeeds takes its result from the task of its own that it names.
pub proof fn law_result_is_the_named_tasks(tasks: Seq<TaskRunView>, r: WorkflowRunView, now: Seq<char>, i: int)
    requires
        0 <= i < tasks.len(),
        r.result_from == Some(tasks[i].name),
        tasks[i].run_id == r.id,
        forall|j: int|
            0 <= j < tasks.len() && (#[trigger] tasks[j]).run_id == r.id && tasks[j].name == tasks[i].name ==> j
                == i,
        !something_broke(tasks, r.id),
    ensures
        finalized(tasks, r, now).output == tasks[i].output,
{
    lemma_nothing_left(tasks, r.id);
    lemma_named_output(tasks, r.id, tasks[i].name, i, 0);
}

/// A run that succeeds has no result where it names a task that it does not have.
pub proof fn law_no_result_without_its_task(
    tasks: Seq<TaskRunView>,
    r: WorkflowRunView,
    now: Seq<char>,
    name: Seq<char>,
)
    requires
        r.result_from == Some(name),
        forall|j: int| 0 <= j < tasks.len() && (#[trigger] tasks[j]).run_id == r.id ==> tasks[j].name != name,
        !something_broke(tasks, r.id),
    ensures
        finalized(tasks, r, now).output is None,
{
    lemma_nothing_left(tasks, r.id);
    lemma_no_named_output(tasks, r.id, name, 0);
}

proof fn lemma_no_named_output(tasks: Seq<TaskRunView>, run_id: Seq<char>, name: Seq<char>, from: int)
    requires
        0 <= from <= tasks.len(),
        forall|j: int| 0 <= j < tasks.len() && (#[trigger] tasks[j]).run_id == run_id ==> tasks[j].name != name,
    ensures
        named_output(tasks, run_id, name, from) is None,
    decreases tasks.len() - from,
{
    if from < tasks.len() {
        lemma_no_named_output(tasks, run_id, name, from + 1);
    }
}

proof fn lemma_named_output(tasks: Seq<TaskRunView>, run_id: Seq<char>, name: Seq<char>, i: int, from: int)
    requires
        0 <= from <= i < tasks.len(),
        tasks[i].run_id == run_id && tasks[i].name == name,
        forall|k: int|
            0 <= k < tasks.len() && (#[trigger] tasks[k]).run_id == run_id && tasks[k].name == name ==> k == i,
    ensures
        named_output(tasks, run_id, name, from) == tasks[i].output,
    decreases i - from,
{
    if from < i {
        lemma_named_output(tasks, run_id, name, i, from + 1);
    }
}

/// What is reported of the ends of runs names each run that ends, with how it
/// ended, in the order of the table, and no other run. The event is pending, due
/// at once, and says which run and which state.
pub proof fn law_each_end_is_reported(db: StoreView, id: Seq<char>, now: Seq<char>, k: int)
    requires
        0 <= k < db.runs.len(),
    ensures
        ({
            let done = places_where(db.runs, |r: WorkflowRunView| completed(db.tasks, r));
            let e = completion_event(db.tasks, db.runs[k], id, now);
            let state = if something_broke(db.tasks, db.runs[k].id) { "failed"@ } else { "succeeded"@ };
            &&& done.no_duplicates()
            &&& done.contains(k) <==> db.runs[k].status == RunStatus::Running && nothing_left(
                db.tasks,
                db.runs[k].id,
            )
            &&& e.id == id && e.run_id == db.runs[k].id
            &&& e.event_type == "run.completed"@
            &&& e.payload == payload_text("run_id"@, db.runs[k].id, "status"@, state)
            &&& e.status == crate::models::OutboxStatus::Pending && e.attempts == 0
            &&& e.next_attempt_at == now && e.created_at == now
            &&& e.delivered_at is None && e.last_error is None
        }),
{
    let p = |r: WorkflowRunView| completed(db.tasks, r);
    lemma_nothing_left(db.tasks, db.runs[k].id);
    lemma_ordered_members(db.runs, p, |a: WorkflowRunView, b: WorkflowRunView| false, db.runs.len() as int);
    assert(p(db.runs[k]) == completed(db.tasks, db.runs[k]));
}

/// Cancelling a run stops it and every task of it that is not over; tasks that
/// are over keep how they ended, and other runs keep everything.
pub proof fn law_cancel_stops_the_run(db: StoreView, run_id: Seq<char>, now: Seq<char>, i: int, k: int)
    requires
        0 <= i < db.tasks.len(),
        0 <= k < db.runs.len(),
    ensures
        ({
            let t = db.tasks[i];
            let r = db.runs[k];
            &&& amended(
                db.tasks,
                |t: TaskRunView| t.run_id == run_id && !t.status.terminal(),
                |t: TaskRunView| swept(t, now),
            )[i] == (if t.run_id == run_id && !is_over(t) {
                TaskRunView {
                    status: TaskStatus::Cancelled,
                    finished_at: Some(now),
                    claimed_by: None,
                    lease_expires_at: None,
                    ..t
                }
            } else {
                t
            })
            &&& amended(
                db.runs,
                |r: WorkflowRunView| running_run(r, run_id),
                |r: WorkflowRunView|
                    WorkflowRunView { status: RunStatus::Cancelled, finished_at: Some(now), ..r },
            )[k] == (if r.id == run_id && r.status == RunStatus::Running {
                WorkflowRunView { status: RunStatus::Cancelled, finished_at: Some(now), ..r }
            } else {
                r
            })
        }),
        any(db.runs, |r: WorkflowRunView| running_run(r, run_id)) <==> exists|j: int|
            0 <= j < db.runs.len() && (#[trigger] db.runs[j]).id == run_id && db.runs[j].status
                == RunStatus::Running,
{
    let p = |r: WorkflowRunView| running_run(r, run_id);
    if exists|j: int|
        0 <= j < db.runs.len() && (#[trigger] db.runs[j]).id == run_id && db.runs[j].status
            == RunStatus::Running {
        let j = choose|j: int|
            0 <= j < db.runs.len() && (#[trigger] db.runs[j]).id == run_id && db.runs[j].status
                == RunStatus::Running;
        assert(p(db.runs[j]));
    }
}

/// A running run whose deadline is before now fails, and says why; the tasks of
/// such runs that are not over are cancelled. Nothing else changes.
pub proof fn law_deadline_fails_the_run(db: StoreView, now: Seq<char>, i: int, k: int)
    requires
        0 <= i < db.tasks.len(),
        0 <= k < db.runs.len(),
    ensures
        ({
            let late = |r: WorkflowRunView|
                r.status == RunStatus::Running && (r.deadline_at matches Some(at) && lex_lt(at, now));
            let t = db.tasks[i];
            let r = db.runs[k];
            let ids = ids_where(db.runs, |r: WorkflowRunView| overdue(r, now));
            &&& amended(
                db.runs,
                |r: WorkflowRunView| overdue(r, now),
                |r: WorkflowRunView| timed_out(r, now),
            )[k] == (if late(r) {
                WorkflowRunView {
                    status: RunStatus::Failed,
                    finished_at: Some(now),
                    output: Some("run deadline exceeded (run_timeout_secs)"@),
                    ..r
                }
            } else {
                r
            })
            &&& ids.contains(t.run_id) <==> exists|j: int|
                0 <= j < db.runs.len() && late(#[trigger] db.runs[j]) && db.runs[j].id == t.run_id
            &&& amended(
                db.tasks,
                |t: TaskRunView|
                    ids_where(db.runs, |r: WorkflowRunView| overdue(r, now)).contains(t.run_id)
                        && !t.status.terminal(),
                |t: TaskRunView| swept(t, now),
            )[i] == (if !is_over(t) && exists|j: int|
                0 <= j < db.runs.len() && late(#[trigger] db.runs[j]) && db.runs[j].id == t.run_id {
                TaskRunView {
                    status: TaskStatus::Cancelled,
                    finished_at: Some(now),
                    claimed_by: None,
                    lease_expires_at: None,
                    ..t
                }
            } else {
                t
            })
        }),
{
    let late = |r: WorkflowRunView|
        r.status == RunStatus::Running && (r.deadline_at matches Some(at) && lex_lt(at, now));
    let p = |r: WorkflowRunView| overdue(r, now);
    assert(p =~= late);
    lemma_ids_where(db.runs, p, db.tasks[i].run_id);
}

proof fn lemma_ids_where(runs: Seq<WorkflowRunView>, p: spec_fn(WorkflowRunView) -> bool, id: Seq<char>)
    ensures
        ids_where(runs, p).contains(id) <==> exists|j: int|
            0 <= j < runs.len() && p(#[trigger] runs[j]) && runs[j].id == id,
{
    let q = places_where(runs, p);
    let ids = ids_where(runs, p);
    lemma_ordered_members(runs, p, |a: WorkflowRunView, b: WorkflowRunView| false, runs.len() as int);
    if ids.contains(id) {
        let k = choose|k: int| 0 <= k < ids.len() && ids[k] == id;
        assert(q.contains(q[k]));
        assert(p(runs[q[k]]));
    }
    if exists|j: int| 0 <= j < runs.len() && p(#[trigger] runs[j]) && runs[j].id == id {
        let j = choose|j: int| 0 <= j < runs.len() && p(#[trigger] runs[j]) && runs[j].id == id;
        assert(q.contains(j));
        let k = choose|k: int| 0 <= k < q.len() && q[k] == j;
        assert(ids[k] == id);
    }
}

/// A running run whose alert time is before now is alerted, unless it was
/// before; it goes on running. The event says which run and why.
pub proof fn law_alert_is_raised(db: StoreView, id: Seq<char>, now: Seq<char>, k: int)
    requires
        0 <= k < db.runs.len(),
    ensures
        ({
            let late = |r: WorkflowRunView|
                r.status == RunStatus::Running && (r.alert_deadline_at matches Some(at) && lex_lt(at, now))
                    && r.alert_fired_at is None;
            let r = db.runs[k];
            let e = alert_event(r.id, id, now);
            let ids = ids_where(db.runs, |r: WorkflowRunView| alert_due(r, now));
            &&& amended(
                db.runs,
                |r: WorkflowRunView| alert_due(r, now),
                |r: WorkflowRunView| WorkflowRunView { alert_fired_at: Some(now), ..r },
            )[k] == (if late(r) {
                WorkflowRunView { alert_fired_at: Some(now), ..r }
            } else {
                r
            })
            &&& ids.contains(r.id) <==> exists|j: int|
                0 <= j < db.runs.len() && late(#[trigger] db.runs[j]) && db.runs[j].id == r.id
            &&& ids.len() == db.runs.filter(late).len()
            &&& e.id == id && e.run_id == r.id && e.event_type == "run.deadline_exceeded"@
            &&& e.payload == payload_text("run_id"@, r.id, "reason"@, "deadline_exceeded"@)
            &&& e.status == crate::models::OutboxStatus::Pending && e.next_attempt_at == now
        }),
{
    let late = |r: WorkflowRunView|
        r.status == RunStatus::Running && (r.alert_deadline_at matches Some(at) && lex_lt(at, now))
            && r.alert_fired_at is None;
    let p = |r: WorkflowRunView| alert_due(r, now);
    assert(p =~= late);
    lemma_ids_where(db.runs, p, db.runs[k].id);
    let lt = |a: WorkflowRunView, b: WorkflowRunView| false;
    crate::order::lemma_ordered_len(db.runs, p, lt, db.runs.len() as int);
    lemma_count_filter(db.runs, p);
    assert(db.runs.take(db.runs.len() as int) =~= db.runs);
}

// ── Gangs ────────────────────────────────────────────────────────────────────

/// A member of the gang of `head` that may be claimed now.
pub open spec fn member_waits(head: TaskRunView, t: TaskRunView, claim: GangClaim) -> bool {
    &&& t.status == TaskStatus::Ready
    &&& t.scheduled_at matches Some(at) ==> !lex_lt(claim.now, at)
    &&& claim.classes.len() > 0 ==> claim.classes.contains(t.runner_class)
    &&& t.gang_id is Some
    &&& t.gang_id == head.gang_id && t.gang_size == head.gang_size && t.pool == head.pool
}

/// All of the gang of `head` waits, the claimer has room for it, and so has its
/// pool where that has a capacity.
pub open spec fn gang_fits(tasks: Seq<TaskRunView>, head: TaskRunView, claim: GangClaim) -> bool {
    &&& member_waits(head, head, claim)
    &&& head.gang_size matches Some(size) && tasks.filter(
        |t: TaskRunView| member_waits(head, t, claim),
    ).len() == size && size <= claim.capacity && (head.pool matches Some(p) ==> (claim.caps.contains_key(p)
        ==> size == 0 || busy_in(tasks, p) + size <= claim.caps[p]))
}

proof fn lemma_fits(claim: GangClaim, tasks: Seq<TaskRunView>, head: int)
    requires
        0 <= head < tasks.len(),
    ensures
        claim.seatable(tasks, head) <==> gang_fits(tasks, tasks[head], claim) && forall|k: int|
            0 <= k < head ==> !member_waits(tasks[head], #[trigger] tasks[k], claim),
{
    let p = claim.members(tasks, head);
    let w = |t: TaskRunView| member_waits(tasks[head], t, claim);
    assert forall|t: TaskRunView| #[trigger] p(t) == w(t) by {}
    assert(p =~= w);
    lemma_count_filter(tasks, p);
    match tasks[head].pool {
        Some(pool) => {
            crate::laws::claims::lemma_busy(tasks, pool);
        },
        None => {},
    }
    if claim.seatable(tasks, head) {
        assert forall|k: int| 0 <= k < head implies !member_waits(tasks[head], #[trigger] tasks[k], claim) by {
            assert(!p(tasks[k]));
        }
    }
    if gang_fits(tasks, tasks[head], claim) && forall|k: int|
        0 <= k < head ==> !member_waits(tasks[head], #[trigger] tasks[k], claim) {
        assert forall|k: int| 0 <= k < head implies !claim.members(tasks, head)(#[trigger] tasks[k]) by {
            assert(!w(tasks[k]));
        }
    }
}

/// A gang is taken where one fits whole, and only one that does. A claimer with
/// fewer than two slots takes none.
pub proof fn law_gang_that_fits_is_taken(tasks: Seq<TaskRunView>, claim: GangClaim)
    ensures
        claim.capacity < 2 ==> gang_taken(tasks, claim) is None,
        gang_taken(tasks, claim) matches Some(id) ==> exists|head: int|
            0 <= head < tasks.len() && (#[trigger] tasks[head]).gang_id == Some(id) && gang_fits(
                tasks,
                tasks[head],
                claim,
            ),
        claim.capacity >= 2 && (exists|head: int|
            0 <= head < tasks.len() && gang_fits(tasks, #[trigger] tasks[head], claim)) ==> gang_taken(
            tasks,
            claim,
        ) is Some,
{
    crate::laws::law_gang_is_claimed_whole(tasks, claim);
    if gang_taken(tasks, claim) is Some {
        let head = choose|head: int|
            0 <= head < tasks.len() && #[trigger] claim.seatable(tasks, head) && tasks[head].gang_id
                == gang_taken(tasks, claim);
        lemma_fits(claim, tasks, head);
    }
    if claim.capacity >= 2 && exists|head: int|
        0 <= head < tasks.len() && gang_fits(tasks, #[trigger] tasks[head], claim) {
        let head = choose|head: int|
            0 <= head < tasks.len() && gang_fits(tasks, #[trigger] tasks[head], claim);
        lemma_first_member(tasks, claim, head, 0);
        let lead = choose|lead: int|
            0 <= lead <= head && member_waits(tasks[head], #[trigger] tasks[lead], claim) && forall|k: int|
                0 <= k < lead ==> !member_waits(tasks[head], #[trigger] tasks[k], claim);
        let (a, b) = (tasks[head], tasks[lead]);
        assert((|t: TaskRunView| member_waits(a, t, claim)) =~= (|t: TaskRunView| member_waits(b, t, claim)));
        assert forall|k: int| 0 <= k < lead implies !member_waits(tasks[lead], #[trigger] tasks[k], claim) by {
            assert(!member_waits(tasks[head], tasks[k], claim));
        }
        lemma_fits(claim, tasks, lead);
        assert(claim.seatable(tasks, lead));
    }
}

/// The first claimable member of a gang.
proof fn lemma_first_member(tasks: Seq<TaskRunView>, claim: GangClaim, head: int, from: int)
    requires
        0 <= from <= head < tasks.len(),
        member_waits(tasks[head], tasks[head], claim),
        forall|k: int| 0 <= k < from ==> !member_waits(tasks[head], #[trigger] tasks[k], claim),
    ensures
        exists|lead: int|
            0 <= lead <= head && member_waits(tasks[head], #[trigger] tasks[lead], claim) && forall|k: int|
                0 <= k < lead ==> !member_waits(tasks[head], #[trigger] tasks[k], claim),
    decreases head - from,
{
    if !member_waits(tasks[head], tasks[from], claim) {
        lemma_first_member(tasks, claim, head, from + 1);
    }
}

proof fn lemma_top(tasks: Seq<TaskRunView>, p: spec_fn(TaskRunView) -> bool, n: int)
    requires
        0 <= n <= tasks.len(),
    ensures
        match top_priority(tasks, p, n) {
            Some(v) => (exists|j: int| 0 <= j < n && p(#[trigger] tasks[j]) && tasks[j].priority == v)
                && forall|j: int| 0 <= j < n && p(#[trigger] tasks[j]) ==> tasks[j].priority <= v,
            None => forall|j: int| 0 <= j < n ==> !p(#[trigger] tasks[j]),
        },
    decreases n,
{
    if n > 0 {
        lemma_top(tasks, p, n - 1);
        if p(tasks[n - 1]) {
            assert(tasks[n - 1].priority == tasks[n - 1].priority);
        }
    }
}

/// Member `m` has the highest priority in the gang of `head`.
pub open spec fn top_member(tasks: Seq<TaskRunView>, head: TaskRunView, claim: GangClaim, m: int) -> bool {
    &&& 0 <= m < tasks.len() && member_waits(head, tasks[m], claim)
    &&& forall|j: int|
        0 <= j < tasks.len() && member_waits(head, #[trigger] tasks[j], claim) ==> tasks[j].priority
            <= tasks[m].priority
}

/// Member `m` has the earliest schedule in the gang of `head`.
pub open spec fn first_member(tasks: Seq<TaskRunView>, head: TaskRunView, claim: GangClaim, m: int) -> bool {
    &&& 0 <= m < tasks.len() && member_waits(head, tasks[m], claim) && tasks[m].scheduled_at is Some
    &&& forall|j: int|
        0 <= j < tasks.len() && member_waits(head, #[trigger] tasks[j], claim) ==> (
        tasks[j].scheduled_at matches Some(at) ==> !lex_lt(at, tasks[m].scheduled_at->0))
}

/// No member of the gang of `head` has a schedule: it has waited longest.
pub open spec fn unscheduled(tasks: Seq<TaskRunView>, head: TaskRunView, claim: GangClaim) -> bool {
    forall|j: int|
        0 <= j < tasks.len() && member_waits(head, #[trigger] tasks[j], claim) ==> tasks[j].scheduled_at is None
}

/// The gang of `a` goes no later than that of `b`: by its highest priority, and
/// where these are the same, by its earliest schedule.
pub open spec fn no_later(tasks: Seq<TaskRunView>, a: TaskRunView, b: TaskRunView, claim: GangClaim) -> bool {
    forall|x: int, y: int|
        top_member(tasks, a, claim, x) && top_member(tasks, b, claim, y) ==> (#[trigger] tasks[x]).priority > (
        #[trigger] tasks[y]).priority || (tasks[x].priority == tasks[y].priority && no_later_start(
            tasks,
            a,
            b,
            claim,
        ))
}

/// The earliest schedule in the gang of `a` is not after that of `b`.
pub open spec fn no_later_start(tasks: Seq<TaskRunView>, a: TaskRunView, b: TaskRunView, claim: GangClaim) -> bool {
    ||| unscheduled(tasks, a, claim)
    ||| !unscheduled(tasks, b, claim) && forall|u: int, v: int|
        first_member(tasks, a, claim, u) && first_member(tasks, b, claim, v) ==> !lex_lt(
            (#[trigger] tasks[v]).scheduled_at->0,
            (#[trigger] tasks[u]).scheduled_at->0,
        )
}

proof fn lemma_top_member(claim: GangClaim, tasks: Seq<TaskRunView>, head: int, m: int)
    requires
        top_member(tasks, tasks[head], claim, m),
    ensures
        top_priority(tasks, claim.members(tasks, head), tasks.len() as int) == Some(tasks[m].priority),
{
    let p = claim.members(tasks, head);
    let n = tasks.len() as int;
    lemma_top(tasks, p, n);
    assert(p(tasks[m]));
    let v = top_priority(tasks, p, n)->0;
    let j = choose|j: int| 0 <= j < n && p(#[trigger] tasks[j]) && tasks[j].priority == v;
    assert(member_waits(tasks[head], tasks[j], claim));
}

proof fn lemma_start(claim: GangClaim, tasks: Seq<TaskRunView>, head: int)
    ensures
        ({
            let e = earliest(tasks, claim.members(tasks, head), tasks.len() as int);
            &&& unscheduled(tasks, tasks[head], claim) <==> e is None
            &&& forall|m: int|
                first_member(tasks, tasks[head], claim, m) ==> e == (#[trigger] tasks[m]).scheduled_at
        }),
{
    let p = claim.members(tasks, head);
    let n = tasks.len() as int;
    let e = earliest(tasks, p, n);
    lemma_earliest(tasks, p, n);
    if e is Some {
        let k = choose|k: int| 0 <= k < n && p(#[trigger] tasks[k]) && tasks[k].scheduled_at == e;
        assert(member_waits(tasks[head], tasks[k], claim));
        assert forall|m: int| first_member(tasks, tasks[head], claim, m) implies e == (#[trigger] tasks[m]).scheduled_at by {
            assert(p(tasks[m]));
            crate::text::lemma_lex_total(e->0, tasks[m].scheduled_at->0);
        }
    } else {
        assert forall|j: int|
            0 <= j < tasks.len() && member_waits(tasks[head], #[trigger] tasks[j], claim) implies tasks[j].scheduled_at
            is None by {
            assert(p(tasks[j]));
        }
    }
}

proof fn lemma_no_later(claim: GangClaim, tasks: Seq<TaskRunView>, a: int, b: int)
    requires
        !claim.outranks(tasks, b, a),
    ensures
        no_later(tasks, tasks[a], tasks[b], claim),
{
    lemma_start(claim, tasks, a);
    lemma_start(claim, tasks, b);
    assert forall|x: int, y: int|
        top_member(tasks, tasks[a], claim, x) && top_member(tasks, tasks[b], claim, y) implies (
    #[trigger] tasks[x]).priority > (#[trigger] tasks[y]).priority || (tasks[x].priority == tasks[y].priority
        && no_later_start(tasks, tasks[a], tasks[b], claim)) by {
        lemma_top_member(claim, tasks, a, x);
        lemma_top_member(claim, tasks, b, y);
    }
}

/// No gang that fits would have to go before the one that is taken.
pub proof fn law_gang_of_most_urgent_member_goes_first(tasks: Seq<TaskRunView>, claim: GangClaim, other: int)
    requires
        gang_taken(tasks, claim) is Some,
        0 <= other < tasks.len(),
        gang_fits(tasks, tasks[other], claim),
        forall|k: int| 0 <= k < other ==> !member_waits(tasks[other], #[trigger] tasks[k], claim),
    ensures
        exists|head: int|
            0 <= head < tasks.len() && (#[trigger] tasks[head]).gang_id == gang_taken(tasks, claim) && gang_fits(
                tasks,
                tasks[head],
                claim,
            ) && no_later(tasks, tasks[head], tasks[other], claim),
{
    let n = tasks.len() as int;
    lemma_fits(claim, tasks, other);
    lemma_choice_best(claim, tasks, n, other);
    let head = claim.choice(tasks, n)->0;
    lemma_fits(claim, tasks, head);
    lemma_no_later(claim, tasks, head, other);
    assert(tasks[head].gang_id == gang_taken(tasks, claim));
}

proof fn lemma_outranks(claim: GangClaim, tasks: Seq<TaskRunView>, i: int, j: int, k: int)
    requires
        top_priority(tasks, claim.members(tasks, j), tasks.len() as int) is Some,
    ensures
        !(claim.outranks(tasks, i, j) && claim.outranks(tasks, j, i)),
        claim.outranks(tasks, i, k) ==> claim.outranks(tasks, i, j) || claim.outranks(tasks, j, k),
        !claim.outranks(tasks, i, i),
{
    let n = tasks.len() as int;
    let si = earliest(tasks, claim.members(tasks, i), n);
    let sj = earliest(tasks, claim.members(tasks, j), n);
    let sk = earliest(tasks, claim.members(tasks, k), n);
    crate::laws::lemma_time_order(si, sj, sk);
    crate::laws::lemma_time_order(si, si, si);
}

proof fn lemma_choice_best(claim: GangClaim, tasks: Seq<TaskRunView>, n: int, i: int)
    requires
        0 <= i < n <= tasks.len(),
        claim.seatable(tasks, i),
    ensures
        claim.choice(tasks, n) is Some,
        0 <= claim.choice(tasks, n)->0 < n,
        claim.seatable(tasks, claim.choice(tasks, n)->0),
        !claim.outranks(tasks, i, claim.choice(tasks, n)->0),
    decreases n,
{
    let all = tasks.len() as int;
    let last = n - 1;
    lemma_top(tasks, claim.members(tasks, i), all);
    assert(claim.members(tasks, i)(tasks[i]));
    lemma_outranks(claim, tasks, i, i, i);
    if i < last {
        lemma_choice_best(claim, tasks, n - 1, i);
        let c = claim.choice(tasks, n - 1)->0;
        lemma_top(tasks, claim.members(tasks, c), all);
        assert(claim.members(tasks, c)(tasks[c]));
        if claim.seatable(tasks, last) && claim.outranks(tasks, last, c) {
            lemma_outranks(claim, tasks, i, c, last);
            lemma_outranks(claim, tasks, last, c, last);
        }
    } else if claim.choice(tasks, n - 1) is Some {
        lemma_choice_member(claim, tasks, n - 1);
    }
}

proof fn lemma_choice_member(claim: GangClaim, tasks: Seq<TaskRunView>, n: int)
    requires
        0 <= n <= tasks.len(),
    ensures
        claim.choice(tasks, n) matches Some(c) ==> 0 <= c < n && claim.seatable(tasks, c),
    decreases n,
{
    if n > 0 {
        lemma_choice_member(claim, tasks, n - 1);
    }
}

/// Every ready member of the taken gang is claimed, one attempt and one version
/// further, and handed out with those from before. No other task changes.
pub proof fn law_gang_is_marked_whole(
    tasks: Seq<TaskRunView>,
    id: Seq<char>,
    worker: Seq<char>,
    lease: Seq<char>,
    i: int,
)
    requires
        0 <= i < tasks.len(),
    ensures
        ({
            let t = tasks[i];
            let u = with_gang_claimed(tasks, id, worker, lease)[i];
            let mine = t.gang_id == Some(id) && t.status == TaskStatus::Ready;
            &&& mine == ready_member(t, id)
            &&& u == (if mine {
                TaskRunView {
                    status: TaskStatus::Running,
                    claimed_by: Some(worker),
                    lease_expires_at: Some(lease),
                    attempt: t.attempt + 1,
                    version: t.version + 1,
                    ..t
                }
            } else {
                t
            })
            &&& handed_out(t, worker, lease) == (TaskRunView {
                status: TaskStatus::Running,
                claimed_by: Some(worker),
                lease_expires_at: Some(lease),
                ..t
            })
        }),
{
}

/// Where a member of a gang fails, each other member that is not over falls with
/// it, out of reach of its worker; it keeps its output, or says why it fell. No
/// other task changes.
pub proof fn law_gang_falls_together(tasks: Seq<TaskRunView>, m: int, now: Seq<char>, i: int)
    requires
        0 <= m < tasks.len(),
        0 <= i < tasks.len(),
        forall|j: int| 0 <= j < m ==> (#[trigger] tasks[j]).id != tasks[m].id,
    ensures
        ({
            let t = tasks[i];
            let member = tasks[m].id;
            let gang = gang_of(tasks, member, tasks.len() as int);
            &&& gang == tasks[m].gang_id
            &&& amended(
                tasks,
                |t: TaskRunView| live_sibling(t, gang, member),
                |t: TaskRunView| gang_cancelled(t, now),
            )[i] == (if tasks[m].gang_id is Some && t.gang_id == tasks[m].gang_id && t.id != member && !is_over(
                t,
            ) {
                TaskRunView {
                    status: TaskStatus::Cancelled,
                    claimed_by: None,
                    lease_expires_at: None,
                    version: t.version + 1,
                    finished_at: Some(now),
                    output: Some(
                        match t.output {
                            Some(o) => o,
                            None => "cancelled: gang member failed"@,
                        },
                    ),
                    ..t
                }
            } else {
                t
            })
        }),
{
    lemma_gang_of(tasks, tasks[m].id, tasks.len() as int, m);
}

proof fn lemma_gang_of(tasks: Seq<TaskRunView>, id: Seq<char>, n: int, m: int)
    requires
        0 <= m < tasks.len(),
        tasks.len() - n <= m,
        n <= tasks.len(),
        tasks[m].id == id,
        forall|j: int| 0 <= j < m ==> (#[trigger] tasks[j]).id != id,
    ensures
        gang_of(tasks, id, n) == tasks[m].gang_id,
    decreases n,
{
    if tasks.len() - n < m {
        assert(tasks[tasks.len() - n].id != id);
        lemma_gang_of(tasks, id, n - 1, m);
    }
}

/// The gangs that are too large for a claimer are reported once each: those with
/// a ready member, of more members than the claimer has slots.
pub proof fn law_oversized_gangs_are_reported(tasks: Seq<TaskRunView>, max: int, n: int, g: (Seq<char>, int))
    requires
        0 <= n <= tasks.len(),
    ensures
        oversized_gangs(tasks, max, n).no_duplicates(),
        oversized_gangs(tasks, max, n).contains(g) <==> g.1 > max && exists|i: int|
            0 <= i < n && (#[trigger] tasks[i]).status == TaskStatus::Ready && tasks[i].gang_id == Some(g.0)
                && tasks[i].gang_size == Some(g.1),
    decreases n,
{
    if n > 0 {
        law_oversized_gangs_are_reported(tasks, max, n - 1, g);
        let rest = oversized_gangs(tasks, max, n - 1);
        let out = oversized_gangs(tasks, max, n);
        let t = tasks[n - 1];
        if out.len() > rest.len() {
            let x = (t.gang_id->0, t.gang_size->0);
            assert(out == rest.push(x));
            assert(out.no_duplicates()) by {
                assert forall|a: int, b: int| 0 <= a < b < out.len() implies out[a] != out[b] by {
                    if b == rest.len() {
                        assert(rest.contains(rest[a]));
                    }
                }
            }
            if out.contains(g) {
                let k = choose|k: int| 0 <= k < out.len() && out[k] == g;
                if k < rest.len() {
                    assert(rest[k] == g);
                    assert(rest.contains(g));
                }
            }
            if rest.contains(g) {
                let k = choose|k: int| 0 <= k < rest.len() && rest[k] == g;
                assert(out[k] == g);
            }
            if g == x {
                assert(out[rest.len() as int] == g);
            }
        }
    }
}

} // verus!
