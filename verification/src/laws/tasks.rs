//! The life of one task: what each operation does to its row, what it does to
//! those that wait for it, and that it does nothing else.
use vstd::prelude::*;
use crate::datasets::{high_water, parked_on_dataset};
use crate::models::TaskStatus;
use crate::parks::{
    after_child, after_decision, after_url, awaiting, parked_on_child, parked_on_url, waiting_for_run,
    waiting_for_url, waiting_until,
};
use crate::rows::TaskRunView;
use crate::store::StoreView;
use crate::table::{amended, any, count, lemma_count_filter};
use crate::tasks::{
    after_failure, after_success, appended, held_by, lease_lapsed, requeued, retried, running_at, running_for,
    running_in,
};
use crate::text::lex_lt;

verus! {

// ── Ending ───────────────────────────────────────────────────────────────────

/// `after` is the store once the rows that `hit` finds have become `image`: each
/// pending task that depends on `id` waits for one less, and nothing else
/// changes. Where there is no such row, nothing changes at all.
pub open spec fn ends(
    db: StoreView,
    after: StoreView,
    id: Seq<char>,
    hit: spec_fn(TaskRunView) -> bool,
    image: spec_fn(TaskRunView) -> TaskRunView,
) -> bool {
    let found = exists|k: int| 0 <= k < db.tasks.len() && hit(#[trigger] db.tasks[k]);
    &&& !found ==> after == db
    &&& found ==> after == (StoreView { tasks: after.tasks, ..db }) && after.tasks.len() == db.tasks.len()
    &&& found ==> forall|i: int|
        0 <= i < db.tasks.len() ==> #[trigger] after.tasks[i] == (if hit(db.tasks[i]) {
            image(db.tasks[i])
        } else if db.tasks[i].status == TaskStatus::Pending && exists|e: int|
            0 <= e < db.edges.len() && (#[trigger] db.edges[e]).dependent_id == db.tasks[i].id
                && db.edges[e].dependency_id == id {
            TaskRunView { remaining_deps: db.tasks[i].remaining_deps - 1, ..db.tasks[i] }
        } else {
            db.tasks[i]
        })
}

/// A claim that still holds its task ends it in success, with its output and
/// whether that came from the memo store. A claim that does not changes nothing.
pub proof fn law_success_ends_the_claimed_task(
    db: StoreView,
    id: Seq<char>,
    worker: Seq<char>,
    fence: int,
    output: Option<Seq<char>>,
    cached: bool,
    now: Seq<char>,
)
    ensures
        ends(
            db,
            after_success(db, id, worker, fence, output, cached, now),
            id,
            |t: TaskRunView| t.id == id && t.claimed_by == Some(worker) && t.version == fence,
            |t: TaskRunView| TaskRunView {
                status: TaskStatus::Succeeded,
                finished_at: Some(now),
                output,
                claimed_by: None,
                cache_hit: cached,
                ..t
            },
        ),
        any(db.tasks, |t: TaskRunView| held_by(t, id, worker, fence)) <==> exists|k: int|
            0 <= k < db.tasks.len() && (#[trigger] db.tasks[k]).id == id && db.tasks[k].claimed_by == Some(
                worker,
            ) && db.tasks[k].version == fence,
{
    let h = |t: TaskRunView| held_by(t, id, worker, fence);
    let hit = |t: TaskRunView| t.id == id && t.claimed_by == Some(worker) && t.version == fence;
    assert(h =~= hit);
    if exists|k: int|
        0 <= k < db.tasks.len() && (#[trigger] db.tasks[k]).id == id && db.tasks[k].claimed_by == Some(worker)
            && db.tasks[k].version == fence {
        let k = choose|k: int|
            0 <= k < db.tasks.len() && (#[trigger] db.tasks[k]).id == id && db.tasks[k].claimed_by == Some(
                worker,
            ) && db.tasks[k].version == fence;
        assert(h(db.tasks[k]));
    }
    if any(db.tasks, h) {
        let k = choose|k: int| 0 <= k < db.tasks.len() && h(#[trigger] db.tasks[k]);
        assert(hit(db.tasks[k]));
        assert(db.tasks[k].id == id);
    }
}

/// A claim that still holds its task ends it in failure, with the error for an
/// output. Its dependents wait for one less all the same.
pub proof fn law_failure_ends_the_claimed_task(
    db: StoreView,
    id: Seq<char>,
    worker: Seq<char>,
    fence: int,
    error: Option<Seq<char>>,
    now: Seq<char>,
)
    ensures
        ends(
            db,
            after_failure(db, id, worker, fence, error, now),
            id,
            |t: TaskRunView| t.id == id && t.claimed_by == Some(worker) && t.version == fence,
            |t: TaskRunView| TaskRunView {
                status: TaskStatus::Failed,
                finished_at: Some(now),
                output: error,
                claimed_by: None,
                ..t
            },
        ),
{
    let h = |t: TaskRunView| held_by(t, id, worker, fence);
    let hit = |t: TaskRunView| t.id == id && t.claimed_by == Some(worker) && t.version == fence;
    assert(h =~= hit);
    if any(db.tasks, h) {
        let k = choose|k: int| 0 <= k < db.tasks.len() && h(#[trigger] db.tasks[k]);
        assert(hit(db.tasks[k]));
    }
}

/// A decision on a gate of the run that awaits one lets it succeed or fail, and
/// says which. Any other task is left alone.
pub proof fn law_decision_ends_the_gate(
    db: StoreView,
    run_id: Seq<char>,
    id: Seq<char>,
    approve: bool,
    now: Seq<char>,
)
    ensures
        ends(
            db,
            after_decision(db, run_id, id, approve, now),
            id,
            |t: TaskRunView| t.id == id && t.run_id == run_id && t.status == TaskStatus::AwaitingApproval,
            |t: TaskRunView| TaskRunView {
                status: if approve { TaskStatus::Succeeded } else { TaskStatus::Failed },
                finished_at: Some(now),
                output: Some(if approve { "approved"@ } else { "rejected"@ }),
                ..t
            },
        ),
        any(db.tasks, |t: TaskRunView| awaiting(t, run_id, id)) <==> exists|k: int|
            0 <= k < db.tasks.len() && (#[trigger] db.tasks[k]).id == id && db.tasks[k].run_id == run_id
                && db.tasks[k].status == TaskStatus::AwaitingApproval,
{
    let h = |t: TaskRunView| awaiting(t, run_id, id);
    let hit = |t: TaskRunView| t.id == id && t.run_id == run_id && t.status == TaskStatus::AwaitingApproval;
    assert(h =~= hit);
    if any(db.tasks, h) {
        let k = choose|k: int| 0 <= k < db.tasks.len() && h(#[trigger] db.tasks[k]);
        assert(hit(db.tasks[k]));
        assert(db.tasks[k].id == id);
    }
    if exists|k: int|
        0 <= k < db.tasks.len() && (#[trigger] db.tasks[k]).id == id && db.tasks[k].run_id == run_id
            && db.tasks[k].status == TaskStatus::AwaitingApproval {
        let k = choose|k: int|
            0 <= k < db.tasks.len() && (#[trigger] db.tasks[k]).id == id && db.tasks[k].run_id == run_id
                && db.tasks[k].status == TaskStatus::AwaitingApproval;
        assert(h(db.tasks[k]));
    }
}

/// A trigger that waits for its child ends as it is told; an address sensor ends
/// in success. Any other task is left alone.
pub proof fn law_parked_tasks_are_resolved(db: StoreView, id: Seq<char>, succeeded: bool, now: Seq<char>)
    ensures
        ends(
            db,
            after_child(db, id, succeeded, now),
            id,
            |t: TaskRunView| t.id == id && t.status == TaskStatus::Running && t.sub_run_id is Some,
            |t: TaskRunView| TaskRunView {
                status: if succeeded { TaskStatus::Succeeded } else { TaskStatus::Failed },
                finished_at: Some(now),
                output: Some(
                    if succeeded { "sub-workflow succeeded"@ } else { "sub-workflow failed"@ },
                ),
                ..t
            },
        ),
        ends(
            db,
            after_url(db, id, now),
            id,
            |t: TaskRunView| t.id == id && t.status == TaskStatus::Running && t.wait_url is Some,
            |t: TaskRunView| TaskRunView {
                status: TaskStatus::Succeeded,
                finished_at: Some(now),
                output: Some("wait url ready"@),
                ..t
            },
        ),
{
    let h = |t: TaskRunView| parked_on_child(t, id);
    let hit = |t: TaskRunView| t.id == id && t.status == TaskStatus::Running && t.sub_run_id is Some;
    assert(h =~= hit);
    if any(db.tasks, h) {
        let k = choose|k: int| 0 <= k < db.tasks.len() && h(#[trigger] db.tasks[k]);
        assert(hit(db.tasks[k]));
    }
    let g = |t: TaskRunView| parked_on_url(t, id);
    let git = |t: TaskRunView| t.id == id && t.status == TaskStatus::Running && t.wait_url is Some;
    assert(g =~= git);
    if any(db.tasks, g) {
        let k = choose|k: int| 0 <= k < db.tasks.len() && g(#[trigger] db.tasks[k]);
        assert(git(db.tasks[k]));
    }
}

// ── While it runs ────────────────────────────────────────────────────────────

/// A running task whose lease ended before now goes back in the queue, with no
/// claim on it; every other task stays as it is.
pub proof fn law_recovery_requeues_the_lapsed(tasks: Seq<TaskRunView>, now: Seq<char>, i: int)
    requires
        0 <= i < tasks.len(),
    ensures
        amended(
            tasks,
            |t: TaskRunView| lease_lapsed(t, now),
            |t: TaskRunView| requeued(t),
        )[i] == (if tasks[i].status == TaskStatus::Running && (tasks[i].lease_expires_at matches Some(at)
            && lex_lt(at, now)) {
            TaskRunView {
                status: TaskStatus::Ready,
                claimed_by: None,
                lease_expires_at: None,
                ..tasks[i]
            }
        } else {
            tasks[i]
        }),
        count(tasks, |t: TaskRunView| lease_lapsed(t, now)) == tasks.filter(
            |t: TaskRunView|
                t.status == TaskStatus::Running && (t.lease_expires_at matches Some(at) && lex_lt(at, now)),
        ).len(),
{
    let p = |t: TaskRunView| lease_lapsed(t, now);
    assert(p =~= (|t: TaskRunView|
        t.status == TaskStatus::Running && (t.lease_expires_at matches Some(at) && lex_lt(at, now))));
    lemma_count_filter(tasks, p);
}

/// A heartbeat moves the lease of the running task that the claim holds, and
/// nothing else; it is refused where the claim is gone.
pub proof fn law_heartbeat_moves_the_lease(
    tasks: Seq<TaskRunView>,
    id: Seq<char>,
    worker: Seq<char>,
    fence: int,
    until: Seq<char>,
    i: int,
)
    requires
        0 <= i < tasks.len(),
    ensures
        ({
            let mine = |t: TaskRunView|
                t.id == id && t.claimed_by == Some(worker) && t.version == fence && t.status
                    == TaskStatus::Running;
            &&& amended(
                tasks,
                |t: TaskRunView| running_for(t, id, worker, fence),
                |t: TaskRunView| TaskRunView { lease_expires_at: Some(until), ..t },
            )[i] == (if mine(tasks[i]) {
                TaskRunView { lease_expires_at: Some(until), ..tasks[i] }
            } else {
                tasks[i]
            })
            &&& count(tasks, |t: TaskRunView| running_for(t, id, worker, fence)) == tasks.filter(mine).len()
        }),
{
    let p = |t: TaskRunView| running_for(t, id, worker, fence);
    assert(p =~= (|t: TaskRunView|
        t.id == id && t.claimed_by == Some(worker) && t.version == fence && t.status == TaskStatus::Running));
    lemma_count_filter(tasks, p);
}

/// A retry puts the claimed task back in the queue, for no earlier than it says,
/// with the error for an output; attempt and version stay.
pub proof fn law_retry_requeues_for_later(
    tasks: Seq<TaskRunView>,
    id: Seq<char>,
    worker: Seq<char>,
    fence: int,
    error: Option<Seq<char>>,
    retry_at: Seq<char>,
    i: int,
)
    requires
        0 <= i < tasks.len(),
    ensures
        amended(
            tasks,
            |t: TaskRunView| held_by(t, id, worker, fence),
            |t: TaskRunView| retried(t, error, retry_at),
        )[i] == (if tasks[i].id == id && tasks[i].claimed_by == Some(worker) && tasks[i].version == fence {
            TaskRunView {
                status: TaskStatus::Ready,
                claimed_by: None,
                lease_expires_at: None,
                scheduled_at: Some(retry_at),
                output: error,
                ..tasks[i]
            }
        } else {
            tasks[i]
        }),
{
}

/// Live output goes to the running attempt with this fence: the first chunk of
/// an attempt replaces what was there, the others follow it.
pub proof fn law_output_grows_with_the_attempt(
    tasks: Seq<TaskRunView>,
    id: Seq<char>,
    fence: int,
    chunk: Seq<char>,
    reset: bool,
    i: int,
)
    requires
        0 <= i < tasks.len(),
    ensures
        amended(
            tasks,
            |t: TaskRunView| running_at(t, id, fence),
            |t: TaskRunView| TaskRunView { output: Some(appended(t.output, chunk, reset)), ..t },
        )[i] == (if tasks[i].id == id && tasks[i].version == fence && tasks[i].status == TaskStatus::Running {
            TaskRunView {
                output: Some(
                    match tasks[i].output {
                        Some(o) => if reset { chunk } else { o + chunk },
                        None => chunk,
                    },
                ),
                ..tasks[i]
            }
        } else {
            tasks[i]
        }),
{
}

/// A checkpoint is noted on the running task of the run.
pub proof fn law_checkpoint_is_noted(
    tasks: Seq<TaskRunView>,
    run_id: Seq<char>,
    id: Seq<char>,
    uri: Seq<char>,
    marker: Option<Seq<char>>,
    i: int,
)
    requires
        0 <= i < tasks.len(),
    ensures
        amended(
            tasks,
            |t: TaskRunView| running_in(t, run_id, id),
            |t: TaskRunView| TaskRunView { checkpoint_uri: Some(uri), checkpoint_marker: marker, ..t },
        )[i] == (if tasks[i].id == id && tasks[i].run_id == run_id && tasks[i].status == TaskStatus::Running {
            TaskRunView { checkpoint_uri: Some(uri), checkpoint_marker: marker, ..tasks[i] }
        } else {
            tasks[i]
        }),
{
}

// ── Parking ──────────────────────────────────────────────────────────────────

/// The running attempt of the task with this fence.
pub open spec fn attempt_of(t: TaskRunView, id: Seq<char>, fence: int) -> bool {
    t.id == id && t.version == fence && t.status == TaskStatus::Running
}

/// Parking touches the running attempt with this fence: it goes on without a
/// worker or a lease, and notes what it waits for. For a dataset that is news
/// past the present end of the dataset's ledger.
pub proof fn law_parking_notes_what_it_waits_for(
    db: StoreView,
    id: Seq<char>,
    fence: int,
    what: Seq<char>,
    at: Seq<char>,
    i: int,
)
    requires
        0 <= i < db.tasks.len(),
    ensures
        ({
            let t = db.tasks[i];
            let hit = |t: TaskRunView| running_at(t, id, fence);
            let free = TaskRunView { claimed_by: None, lease_expires_at: None, ..t };
            &&& amended(db.tasks, hit, |t: TaskRunView| waiting_until(t, at))[i] == (if attempt_of(
                t,
                id,
                fence,
            ) {
                TaskRunView { wake_at: Some(at), ..free }
            } else {
                t
            })
            &&& amended(db.tasks, hit, |t: TaskRunView| waiting_for_url(t, what, at))[i] == (if attempt_of(
                t,
                id,
                fence,
            ) {
                TaskRunView { wait_url: Some(what), next_poll_at: Some(at), ..free }
            } else {
                t
            })
            &&& amended(db.tasks, hit, |t: TaskRunView| waiting_for_run(t, what))[i] == (if attempt_of(
                t,
                id,
                fence,
            ) {
                TaskRunView { sub_run_id: Some(what), ..free }
            } else {
                t
            })
            &&& amended(
                db.tasks,
                hit,
                |t: TaskRunView| parked_on_dataset(t, what, high_water(db.dataset_events, what)),
            )[i] == (if attempt_of(t, id, fence) {
                TaskRunView {
                    wait_dataset: Some(what),
                    wait_dataset_cursor: Some(high_water(db.dataset_events, what)),
                    ..free
                }
            } else {
                t
            })
        }),
        any(db.tasks, |t: TaskRunView| running_at(t, id, fence)) <==> exists|k: int|
            0 <= k < db.tasks.len() && attempt_of(#[trigger] db.tasks[k], id, fence),
{
    let h = |t: TaskRunView| running_at(t, id, fence);
    if exists|k: int| 0 <= k < db.tasks.len() && attempt_of(#[trigger] db.tasks[k], id, fence) {
        let k = choose|k: int| 0 <= k < db.tasks.len() && attempt_of(#[trigger] db.tasks[k], id, fence);
        assert(h(db.tasks[k]));
    }
    if any(db.tasks, h) {
        let k = choose|k: int| 0 <= k < db.tasks.len() && h(#[trigger] db.tasks[k]);
        assert(attempt_of(db.tasks[k], id, fence));
    }
}

/// An address sensor that is put off is polled again at the time given; any
/// other task is left alone.
pub proof fn law_poll_is_put_off(tasks: Seq<TaskRunView>, id: Seq<char>, at: Seq<char>, i: int)
    requires
        0 <= i < tasks.len(),
    ensures
        amended(
            tasks,
            |t: TaskRunView| parked_on_url(t, id),
            |t: TaskRunView| TaskRunView { next_poll_at: Some(at), ..t },
        )[i] == (if tasks[i].id == id && tasks[i].status == TaskStatus::Running && tasks[i].wait_url is Some {
            TaskRunView { next_poll_at: Some(at), ..tasks[i] }
        } else {
            tasks[i]
        }),
{
}

/// A trigger whose child cannot start yet goes back in the queue, free of its
/// claim; only the running attempt with this fence does.
pub proof fn law_trigger_is_released(tasks: Seq<TaskRunView>, id: Seq<char>, fence: int, i: int)
    requires
        0 <= i < tasks.len(),
    ensures
        amended(
            tasks,
            |t: TaskRunView| running_at(t, id, fence),
            |t: TaskRunView| TaskRunView {
                status: TaskStatus::Ready,
                claimed_by: None,
                lease_expires_at: None,
                ..t
            },
        )[i] == (if attempt_of(tasks[i], id, fence) {
            TaskRunView { status: TaskStatus::Ready, claimed_by: None, lease_expires_at: None, ..tasks[i] }
        } else {
            tasks[i]
        }),
{
}

} // verus!
