//! Starting over: what a rerun, a clearing and a retry put back to work, and what
//! they leave alone; and moving starved tasks to another class.
use vstd::prelude::*;
use crate::datasets::run_of_task;
use crate::models::{RunStatus, TaskStatus};
use crate::order::{first, lemma_first};
use crate::reruns::{
    broken, chain, checkpoint, clearable, cleared, downstream, failed_run, finished_run,
    outstanding, rearmed, rerunnable, reset, restarted, resurrected, retryable, starved, task_in,
    unmet_row, urgent, wiped, wiped_downstream,
};
use crate::rows::{EdgeView, TaskRunView, WorkflowRunView};
use crate::store::StoreView;
use crate::table::{amended, any, count, lemma_count_filter, lemma_count_positive};
use crate::tasks::depends;
use crate::text::lex_lt;

verus! {

// ── Counting dependencies anew ───────────────────────────────────────────────

/// No two rows share an id.
pub open spec fn distinct_rows(tasks: Seq<TaskRunView>) -> bool {
    forall|i: int, j: int| 0 <= i < j < tasks.len() ==> (#[trigger] tasks[i]).id != (#[trigger] tasks[j]).id
}

/// The edges into `id` from rows that have not ended well: they are neither
/// succeeded nor skipped.
pub open spec fn edges_from_unsettled(tasks: Seq<TaskRunView>, edges: Seq<EdgeView>, id: Seq<char>) -> nat {
    edges.filter(
        |e: EdgeView|
            e.dependent_id == id && exists|j: int|
                0 <= j < tasks.len() && (#[trigger] tasks[j]).id == e.dependency_id && tasks[j].status
                    != TaskStatus::Succeeded && tasks[j].status != TaskStatus::Skipped,
    ).len()
}

/// The edges into `id` from rows that are not over.
pub open spec fn edges_from_open(tasks: Seq<TaskRunView>, edges: Seq<EdgeView>, id: Seq<char>) -> nat {
    edges.filter(
        |e: EdgeView|
            e.dependent_id == id && exists|j: int|
                0 <= j < tasks.len() && (#[trigger] tasks[j]).id == e.dependency_id && (tasks[j].status
                    == TaskStatus::Pending || tasks[j].status == TaskStatus::Ready || tasks[j].status
                    == TaskStatus::Running || tasks[j].status == TaskStatus::AwaitingApproval),
    ).len()
}

proof fn lemma_one_row(tasks: Seq<TaskRunView>, id: Seq<char>, success_only: bool)
    requires
        distinct_rows(tasks),
    ensures
        count(tasks, |t: TaskRunView| unmet_row(t, id, success_only)) == (if exists|j: int|
            0 <= j < tasks.len() && unmet_row(#[trigger] tasks[j], id, success_only) {
            1nat
        } else {
            0nat
        }),
    decreases tasks.len(),
{
    let p = |t: TaskRunView| unmet_row(t, id, success_only);
    lemma_count_positive(tasks, p);
    if count(tasks, p) > 0 {
        let j = choose|j: int| 0 <= j < tasks.len() && p(#[trigger] tasks[j]);
        assert(unmet_row(tasks[j], id, success_only));
        let rest = tasks.drop_last();
        assert(distinct_rows(rest)) by {
            assert forall|a: int, b: int| 0 <= a < b < rest.len() implies (#[trigger] rest[a]).id != (
            #[trigger] rest[b]).id by {
                assert(rest[a] == tasks[a] && rest[b] == tasks[b]);
            }
        }
        lemma_one_row(rest, id, success_only);
        if j == tasks.len() - 1 {
            if exists|k: int| 0 <= k < rest.len() && unmet_row(#[trigger] rest[k], id, success_only) {
                let k = choose|k: int| 0 <= k < rest.len() && unmet_row(#[trigger] rest[k], id, success_only);
                assert(tasks[k] == rest[k]);
                assert(tasks[k].id != tasks[j].id);
            }
        } else {
            assert(rest[j] == tasks[j]);
            assert(!p(tasks.last())) by {
                assert(tasks[j].id != tasks[tasks.len() - 1].id);
            }
        }
    } else if exists|j: int| 0 <= j < tasks.len() && unmet_row(#[trigger] tasks[j], id, success_only) {
        let j = choose|j: int| 0 <= j < tasks.len() && unmet_row(#[trigger] tasks[j], id, success_only);
        assert(p(tasks[j]));
    }
}

proof fn lemma_outstanding(
    tasks: Seq<TaskRunView>,
    edges: Seq<EdgeView>,
    id: Seq<char>,
    success_only: bool,
    n: int,
)
    requires
        distinct_rows(tasks),
        0 <= n <= edges.len(),
    ensures
        outstanding(tasks, edges, id, success_only, n) == (if success_only {
            edges_from_unsettled(tasks, edges.take(n), id)
        } else {
            edges_from_open(tasks, edges.take(n), id)
        }),
    decreases n,
{
    reveal(Seq::filter);
    if n > 0 {
        lemma_outstanding(tasks, edges, id, success_only, n - 1);
        let e = edges[n - 1];
        assert(edges.take(n).drop_last() =~= edges.take(n - 1));
        assert(edges.take(n).last() == e);
        lemma_one_row(tasks, e.dependency_id, success_only);
        let hit = exists|j: int| 0 <= j < tasks.len() && unmet_row(#[trigger] tasks[j], e.dependency_id, success_only);
        let good = exists|j: int|
            0 <= j < tasks.len() && (#[trigger] tasks[j]).id == e.dependency_id && tasks[j].status
                != TaskStatus::Succeeded && tasks[j].status != TaskStatus::Skipped;
        let open = exists|j: int|
            0 <= j < tasks.len() && (#[trigger] tasks[j]).id == e.dependency_id && (tasks[j].status
                == TaskStatus::Pending || tasks[j].status == TaskStatus::Ready || tasks[j].status
                == TaskStatus::Running || tasks[j].status == TaskStatus::AwaitingApproval);
        if hit {
            let j = choose|j: int| 0 <= j < tasks.len() && unmet_row(#[trigger] tasks[j], e.dependency_id, success_only);
            assert(tasks[j].id == e.dependency_id);
        }
        if success_only && good {
            let j = choose|j: int|
                0 <= j < tasks.len() && (#[trigger] tasks[j]).id == e.dependency_id && tasks[j].status
                    != TaskStatus::Succeeded && tasks[j].status != TaskStatus::Skipped;
            assert(unmet_row(tasks[j], e.dependency_id, success_only));
        }
        if !success_only && open {
            let j = choose|j: int|
                0 <= j < tasks.len() && (#[trigger] tasks[j]).id == e.dependency_id && (tasks[j].status
                    == TaskStatus::Pending || tasks[j].status == TaskStatus::Ready || tasks[j].status
                    == TaskStatus::Running || tasks[j].status == TaskStatus::AwaitingApproval);
            assert(unmet_row(tasks[j], e.dependency_id, success_only));
        }
        assert(success_only ==> hit == good);
        assert(!success_only ==> hit == open);
    }
}

/// Two tables that agree on ids and statuses count alike.
proof fn lemma_unsettled_same(a: Seq<TaskRunView>, b: Seq<TaskRunView>, edges: Seq<EdgeView>, id: Seq<char>)
    requires
        a.len() == b.len(),
        forall|i: int| 0 <= i < a.len() ==> (#[trigger] a[i]).id == b[i].id && a[i].status == b[i].status,
    ensures
        edges_from_unsettled(a, edges, id) == edges_from_unsettled(b, edges, id),
        edges_from_open(a, edges, id) == edges_from_open(b, edges, id),
{
    let pa = |e: EdgeView|
        e.dependent_id == id && exists|j: int|
            0 <= j < a.len() && (#[trigger] a[j]).id == e.dependency_id && a[j].status
                != TaskStatus::Succeeded && a[j].status != TaskStatus::Skipped;
    let pb = |e: EdgeView|
        e.dependent_id == id && exists|j: int|
            0 <= j < b.len() && (#[trigger] b[j]).id == e.dependency_id && b[j].status
                != TaskStatus::Succeeded && b[j].status != TaskStatus::Skipped;
    assert forall|e: EdgeView| #[trigger] pa(e) == pb(e) by {
        if pa(e) {
            let j = choose|j: int|
                0 <= j < a.len() && (#[trigger] a[j]).id == e.dependency_id && a[j].status
                    != TaskStatus::Succeeded && a[j].status != TaskStatus::Skipped;
            assert(b[j].id == e.dependency_id);
        }
        if pb(e) {
            let j = choose|j: int|
                0 <= j < b.len() && (#[trigger] b[j]).id == e.dependency_id && b[j].status
                    != TaskStatus::Succeeded && b[j].status != TaskStatus::Skipped;
            assert(a[j].id == e.dependency_id);
        }
    }
    assert(pa =~= pb);
    let qa = |e: EdgeView|
        e.dependent_id == id && exists|j: int|
            0 <= j < a.len() && (#[trigger] a[j]).id == e.dependency_id && (a[j].status
                == TaskStatus::Pending || a[j].status == TaskStatus::Ready || a[j].status
                == TaskStatus::Running || a[j].status == TaskStatus::AwaitingApproval);
    let qb = |e: EdgeView|
        e.dependent_id == id && exists|j: int|
            0 <= j < b.len() && (#[trigger] b[j]).id == e.dependency_id && (b[j].status
                == TaskStatus::Pending || b[j].status == TaskStatus::Ready || b[j].status
                == TaskStatus::Running || b[j].status == TaskStatus::AwaitingApproval);
    assert forall|e: EdgeView| #[trigger] qa(e) == qb(e) by {
        if qa(e) {
            let j = choose|j: int|
                0 <= j < a.len() && (#[trigger] a[j]).id == e.dependency_id && (a[j].status
                    == TaskStatus::Pending || a[j].status == TaskStatus::Ready || a[j].status
                    == TaskStatus::Running || a[j].status == TaskStatus::AwaitingApproval);
            assert(b[j].id == e.dependency_id);
        }
        if qb(e) {
            let j = choose|j: int|
                0 <= j < b.len() && (#[trigger] b[j]).id == e.dependency_id && (b[j].status
                    == TaskStatus::Pending || b[j].status == TaskStatus::Ready || b[j].status
                    == TaskStatus::Running || b[j].status == TaskStatus::AwaitingApproval);
            assert(a[j].id == e.dependency_id);
        }
    }
    assert(qa =~= qb);
}

// ── Rerunning ────────────────────────────────────────────────────────────────

/// The task ended, and not well: it failed, was cancelled, or was skipped.
pub open spec fn ended_badly(t: TaskRunView) -> bool {
    t.status == TaskStatus::Failed || t.status == TaskStatus::Cancelled || t.status == TaskStatus::Skipped
}

/// After a rerun no task of the run is left failed, cancelled or skipped: each of
/// them is pending again, as if it had never been tried, one version further.
/// Whatever else the run has keeps its state, and other runs keep everything.
pub proof fn law_rerun_starts_over_whatever_broke(db: StoreView, run_id: Seq<char>, now: Seq<char>, i: int)
    requires
        0 <= i < db.tasks.len(),
    ensures
        ({
            let t = db.tasks[i];
            let u = restarted(db, run_id, now)[i];
            &&& restarted(db, run_id, now).len() == db.tasks.len()
            &&& t.run_id == run_id ==> !ended_badly(u)
            &&& t.run_id == run_id && ended_badly(t) ==> u == (TaskRunView {
                status: TaskStatus::Pending,
                attempt: 0,
                claimed_by: None,
                lease_expires_at: None,
                output: None,
                finished_at: None,
                scheduled_at: Some(now),
                version: t.version + 1,
                remaining_deps: u.remaining_deps,
                ..t
            })
            &&& t.run_id == run_id && t.status == TaskStatus::Pending ==> u == (TaskRunView {
                remaining_deps: u.remaining_deps,
                ..t
            })
            &&& t.run_id != run_id || (t.status != TaskStatus::Pending && !ended_badly(t)) ==> u == t
        }),
{
}

/// After a rerun every pending task of the run waits for exactly those of its
/// dependencies that have not ended well.
pub proof fn law_rerun_waits_for_what_is_missing(db: StoreView, run_id: Seq<char>, now: Seq<char>, i: int)
    requires
        0 <= i < db.tasks.len(),
        distinct_rows(db.tasks),
    ensures
        ({
            let after = restarted(db, run_id, now);
            after[i].run_id == run_id && after[i].status == TaskStatus::Pending ==> after[i].remaining_deps
                == edges_from_unsettled(after, db.edges, after[i].id)
        }),
{
    let mid = amended(db.tasks, |t: TaskRunView| broken(t, run_id), |t: TaskRunView| reset(t, now));
    let after = restarted(db, run_id, now);
    assert forall|a: int, b: int| 0 <= a < b < mid.len() implies (#[trigger] mid[a]).id != (#[trigger] mid[b]).id by {
        assert(db.tasks[a].id != db.tasks[b].id);
    }
    let n = db.edges.len() as int;
    lemma_outstanding(mid, db.edges, mid[i].id, true, n);
    assert(db.edges.take(n) =~= db.edges);
    lemma_unsettled_same(mid, after, db.edges, mid[i].id);
}

/// A run is rerun where it failed or was cancelled, and then it runs again with
/// no result; no other run changes. The answer counts the tasks that start over.
pub proof fn law_rerun_takes_ended_runs(db: StoreView, run_id: Seq<char>, k: int)
    requires
        0 <= k < db.runs.len(),
    ensures
        ({
            let r = db.runs[k];
            let after = amended(
                db.runs,
                |r: WorkflowRunView| rerunnable(r, run_id),
                |r: WorkflowRunView| rearmed(r),
            );
            after.len() == db.runs.len() && after[k] == (if r.id == run_id && (r.status == RunStatus::Failed
                || r.status == RunStatus::Cancelled) {
                WorkflowRunView { status: RunStatus::Running, finished_at: None, output: None, ..r }
            } else {
                r
            })
        }),
        any(db.runs, |r: WorkflowRunView| rerunnable(r, run_id)) <==> exists|j: int|
            0 <= j < db.runs.len() && (#[trigger] db.runs[j]).id == run_id && (db.runs[j].status
                == RunStatus::Failed || db.runs[j].status == RunStatus::Cancelled),
        count(db.tasks, |t: TaskRunView| broken(t, run_id)) == db.tasks.filter(
            |t: TaskRunView| t.run_id == run_id && ended_badly(t),
        ).len(),
{
    let p = |t: TaskRunView| broken(t, run_id);
    assert(p =~= (|t: TaskRunView| t.run_id == run_id && ended_badly(t)));
    lemma_count_filter(db.tasks, p);
    let h = |r: WorkflowRunView| rerunnable(r, run_id);
    if exists|j: int|
        0 <= j < db.runs.len() && (#[trigger] db.runs[j]).id == run_id && (db.runs[j].status
            == RunStatus::Failed || db.runs[j].status == RunStatus::Cancelled) {
        let j = choose|j: int|
            0 <= j < db.runs.len() && (#[trigger] db.runs[j]).id == run_id && (db.runs[j].status
                == RunStatus::Failed || db.runs[j].status == RunStatus::Cancelled);
        assert(h(db.runs[j]));
    }
}

// ── Clearing ─────────────────────────────────────────────────────────────────

/// What is downstream of a task is the task itself, whatever depends on
/// something downstream, and nothing else.
pub proof fn law_downstream_is_what_depends(
    edges: Seq<EdgeView>,
    root: Seq<char>,
    id: Seq<char>,
    e: int,
    closed: Set<Seq<char>>,
)
    ensures
        downstream(edges, root, root),
        0 <= e < edges.len() && downstream(edges, root, edges[e].dependency_id) ==> downstream(
            edges,
            root,
            edges[e].dependent_id,
        ),
        closed.contains(root) && (forall|k: int|
            0 <= k < edges.len() && closed.contains((#[trigger] edges[k]).dependency_id) ==> closed.contains(
                edges[k].dependent_id,
            )) && downstream(edges, root, id) ==> closed.contains(id),
{
    let start = seq![root];
    assert(chain(edges, start) && start[0] == root && start.last() == root);
    if 0 <= e < edges.len() && downstream(edges, root, edges[e].dependency_id) {
        let path = choose|path: Seq<Seq<char>>| #[trigger]
            chain(edges, path) && path[0] == root && path.last() == edges[e].dependency_id;
        let longer = path.push(edges[e].dependent_id);
        assert forall|k: int| 0 <= k < longer.len() - 1 implies depends(
            edges,
            longer[k + 1],
            #[trigger] longer[k],
        ) by {
            if k < path.len() - 1 {
                assert(longer[k] == path[k] && longer[k + 1] == path[k + 1]);
            } else {
                assert(longer[k] == path.last());
                assert(edges[e].dependent_id == longer[k + 1]);
            }
        }
        assert(chain(edges, longer) && longer[0] == root && longer.last() == edges[e].dependent_id);
    }
    if closed.contains(root) && (forall|k: int|
        0 <= k < edges.len() && closed.contains((#[trigger] edges[k]).dependency_id) ==> closed.contains(
            edges[k].dependent_id,
        )) && downstream(edges, root, id) {
        let path = choose|path: Seq<Seq<char>>| #[trigger]
            chain(edges, path) && path[0] == root && path.last() == id;
        lemma_chain_stays(edges, path, closed, path.len() - 1);
    }
}

proof fn lemma_chain_stays(edges: Seq<EdgeView>, path: Seq<Seq<char>>, closed: Set<Seq<char>>, k: int)
    requires
        chain(edges, path),
        0 <= k < path.len(),
        closed.contains(path[0]),
        forall|k: int|
            0 <= k < edges.len() && closed.contains((#[trigger] edges[k]).dependency_id) ==> closed.contains(
                edges[k].dependent_id,
            ),
    ensures
        closed.contains(path[k]),
    decreases k,
{
    if k > 0 {
        lemma_chain_stays(edges, path, closed, k - 1);
        let (a, b) = (path[k - 1], path[k]);
        assert(depends(edges, path[k - 1 + 1], path[k - 1]));
        let j = choose|j: int|
            0 <= j < edges.len() && (#[trigger] edges[j]).dependent_id == b && edges[j].dependency_id == a;
        assert(closed.contains(edges[j].dependency_id));
    }
}

/// Clearing a task has it and everything downstream of it that is over start
/// over with nothing of its past, one version further. The rest keeps its state.
pub proof fn law_clear_wipes_what_is_downstream(
    db: StoreView,
    run_id: Seq<char>,
    id: Seq<char>,
    now: Seq<char>,
    i: int,
)
    requires
        0 <= i < db.tasks.len(),
    ensures
        ({
            let t = db.tasks[i];
            let after = wiped_downstream(db, run_id, id, now);
            let u = after[i];
            let over = t.status == TaskStatus::Succeeded || ended_badly(t);
            &&& after.len() == db.tasks.len()
            &&& over && downstream(db.edges, id, t.id) ==> u == (TaskRunView {
                status: TaskStatus::Pending,
                attempt: 0,
                claimed_by: None,
                lease_expires_at: None,
                output: None,
                finished_at: None,
                scheduled_at: Some(now),
                version: t.version + 1,
                checkpoint_uri: None,
                checkpoint_marker: None,
                remaining_deps: u.remaining_deps,
                ..t
            })
            &&& !(over && downstream(db.edges, id, t.id)) ==> u == (TaskRunView {
                remaining_deps: u.remaining_deps,
                ..t
            })
            &&& u.remaining_deps != t.remaining_deps ==> u.run_id == run_id && u.status == TaskStatus::Pending
        }),
{
}

/// After a clearing every pending task of the run waits for exactly those of its
/// dependencies that are not over.
pub proof fn law_clear_waits_for_what_is_open(
    db: StoreView,
    run_id: Seq<char>,
    id: Seq<char>,
    now: Seq<char>,
    i: int,
)
    requires
        0 <= i < db.tasks.len(),
        distinct_rows(db.tasks),
    ensures
        ({
            let after = wiped_downstream(db, run_id, id, now);
            after[i].run_id == run_id && after[i].status == TaskStatus::Pending ==> after[i].remaining_deps
                == edges_from_open(after, db.edges, after[i].id)
        }),
{
    let mid = amended(
        db.tasks,
        |t: TaskRunView| cleared(db.edges, t, id),
        |t: TaskRunView| wiped(t, now),
    );
    let after = wiped_downstream(db, run_id, id, now);
    assert forall|a: int, b: int| 0 <= a < b < mid.len() implies (#[trigger] mid[a]).id != (#[trigger] mid[b]).id by {
        assert(db.tasks[a].id != db.tasks[b].id);
    }
    let n = db.edges.len() as int;
    lemma_outstanding(mid, db.edges, mid[i].id, false, n);
    assert(db.edges.take(n) =~= db.edges);
    lemma_unsettled_same(mid, after, db.edges, mid[i].id);
}

/// A task can be cleared where the run has it and it is over, and where ids are
/// distinct, only there. Its run, if it had ended in whatever way, runs again.
pub proof fn law_clear_takes_ended_tasks(db: StoreView, run_id: Seq<char>, id: Seq<char>, i: int, k: int)
    requires
        0 <= i < db.tasks.len(),
        0 <= k < db.runs.len(),
        distinct_rows(db.tasks),
    ensures
        db.tasks[i].id == id && db.tasks[i].run_id == run_id ==> (clearable(db.tasks, run_id, id) <==> (
        db.tasks[i].status == TaskStatus::Succeeded || ended_badly(db.tasks[i]))),
        clearable(db.tasks, run_id, id) ==> exists|j: int|
            0 <= j < db.tasks.len() && (#[trigger] db.tasks[j]).id == id && db.tasks[j].run_id == run_id,
        ({
            let r = db.runs[k];
            amended(
                db.runs,
                |r: WorkflowRunView| finished_run(r, run_id),
                |r: WorkflowRunView| rearmed(r),
            )[k] == (if r.id == run_id && (r.status == RunStatus::Succeeded || r.status == RunStatus::Failed
                || r.status == RunStatus::Cancelled) {
                WorkflowRunView { status: RunStatus::Running, finished_at: None, output: None, ..r }
            } else {
                r
            })
        }),
{
    let p = |t: TaskRunView| task_in(t, run_id, id);
    lemma_first(db.tasks, p);
    if db.tasks[i].id == id && db.tasks[i].run_id == run_id {
        assert(p(db.tasks[i]));
        let v = first(db.tasks, p)->0;
        let j = choose|j: int| 0 <= j < db.tasks.len() && db.tasks[j] == v;
        if j < i {
            assert(db.tasks[j].id != db.tasks[i].id);
        } else if i < j {
            assert(db.tasks[i].id != db.tasks[j].id);
        }
    }
    if clearable(db.tasks, run_id, id) {
        let v = first(db.tasks, p)->0;
        let j = choose|j: int| 0 <= j < db.tasks.len() && db.tasks[j] == v;
        assert(db.tasks[j].id == id);
    }
}

// ── Retrying by hand ─────────────────────────────────────────────────────────

/// A failed or cancelled task that is retried by hand is ready at once, one
/// version further, with nobody's claim on it; no other task changes. Its run
/// goes on where it had failed, and no other run changes.
pub proof fn law_retry_by_hand_revives_one_task(db: StoreView, id: Seq<char>, i: int, k: int)
    requires
        0 <= i < db.tasks.len(),
        0 <= k < db.runs.len(),
        distinct_rows(db.tasks),
    ensures
        ({
            let t = db.tasks[i];
            let u = amended(
                db.tasks,
                |t: TaskRunView| retryable(t, id),
                |t: TaskRunView| resurrected(t),
            )[i];
            u == (if t.id == id && (t.status == TaskStatus::Failed || t.status == TaskStatus::Cancelled) {
                TaskRunView {
                    status: TaskStatus::Ready,
                    claimed_by: None,
                    lease_expires_at: None,
                    scheduled_at: None,
                    output: None,
                    version: t.version + 1,
                    ..t
                }
            } else {
                t
            })
        }),
        db.tasks[i].id == id ==> (any(db.tasks, |t: TaskRunView| retryable(t, id)) <==> (db.tasks[i].status
            == TaskStatus::Failed || db.tasks[i].status == TaskStatus::Cancelled)),
        any(db.tasks, |t: TaskRunView| retryable(t, id)) ==> exists|j: int|
            0 <= j < db.tasks.len() && (#[trigger] db.tasks[j]).id == id,
        ({
            let r = db.runs[k];
            db.tasks[i].id == id ==> amended(
                db.runs,
                |r: WorkflowRunView| failed_run(r, run_of_task(db.tasks, id)),
                |r: WorkflowRunView| WorkflowRunView { status: RunStatus::Running, finished_at: None, ..r },
            )[k] == (if r.id == db.tasks[i].run_id && r.status == RunStatus::Failed {
                WorkflowRunView { status: RunStatus::Running, finished_at: None, ..r }
            } else {
                r
            })
        }),
{
    let p = |t: TaskRunView| retryable(t, id);
    if any(db.tasks, p) {
        let j = choose|j: int| 0 <= j < db.tasks.len() && p(#[trigger] db.tasks[j]);
        assert(db.tasks[j].id == id);
        if db.tasks[i].id == id {
            if j < i {
                assert(db.tasks[j].id != db.tasks[i].id);
            } else if i < j {
                assert(db.tasks[i].id != db.tasks[j].id);
            }
        }
    }
    if db.tasks[i].id == id {
        let q = |t: TaskRunView| t.id == id;
        lemma_first(db.tasks, q);
        assert(q(db.tasks[i]));
        let v = first(db.tasks, q)->0;
        let j = choose|j: int| 0 <= j < db.tasks.len() && db.tasks[j] == v;
        if j < i {
            assert(db.tasks[j].id != db.tasks[i].id);
        } else if i < j {
            assert(db.tasks[i].id != db.tasks[j].id);
        }
        if p(db.tasks[i]) {
            assert(any(db.tasks, p));
        }
    }
}

// ── Checkpoints and classes ──────────────────────────────────────────────────

/// A task's checkpoint is the one on its own row.
pub proof fn law_checkpoint_is_the_tasks_own(tasks: Seq<TaskRunView>, i: int)
    requires
        0 <= i < tasks.len(),
        distinct_rows(tasks),
    ensures
        checkpoint(tasks, tasks[i].id) == (match tasks[i].checkpoint_uri {
            Some(uri) => Some((uri, tasks[i].checkpoint_marker)),
            None => None,
        }),
{
    let id = tasks[i].id;
    let q = |t: TaskRunView| t.id == id;
    lemma_first(tasks, q);
    assert(q(tasks[i]));
    let v = first(tasks, q)->0;
    let j = choose|j: int| 0 <= j < tasks.len() && tasks[j] == v;
    if j < i {
        assert(tasks[j].id != tasks[i].id);
    } else if i < j {
        assert(tasks[i].id != tasks[j].id);
    }
}

/// A ready task of the class, outside any gang, moves to the other class where
/// it was scheduled at or before the mark, or was tried often enough. Nothing
/// else of it changes, and no other task moves.
pub proof fn law_starved_tasks_change_class(
    tasks: Seq<TaskRunView>,
    from: Seq<char>,
    to: Seq<char>,
    mark: Seq<char>,
    attempts: int,
    i: int,
)
    requires
        0 <= i < tasks.len(),
    ensures
        amended(
            tasks,
            |t: TaskRunView| starved(t, from, mark, attempts),
            |t: TaskRunView| TaskRunView { runner_class: to, ..t },
        )[i] == (if tasks[i].status == TaskStatus::Ready && tasks[i].runner_class == from && tasks[i].gang_id
            is None && ((tasks[i].scheduled_at matches Some(at) && !lex_lt(mark, at)) || tasks[i].attempt
            >= attempts) {
            TaskRunView { runner_class: to, ..tasks[i] }
        } else {
            tasks[i]
        }),
{
}

/// A ready task of the class, outside any gang, moves to the other class where
/// its run is running and has its deadline, or else its alert, at or before the
/// horizon.
pub proof fn law_pressed_tasks_change_class(
    db: StoreView,
    from: Seq<char>,
    to: Seq<char>,
    horizon: Seq<char>,
    i: int,
)
    requires
        0 <= i < db.tasks.len(),
    ensures
        ({
            let t = db.tasks[i];
            let pressed = exists|k: int|
                0 <= k < db.runs.len() && (#[trigger] db.runs[k]).id == t.run_id && db.runs[k].status
                    == RunStatus::Running && (match (db.runs[k].deadline_at, db.runs[k].alert_deadline_at) {
                    (Some(at), _) => !lex_lt(horizon, at),
                    (None, Some(at)) => !lex_lt(horizon, at),
                    (None, None) => false,
                });
            amended(
                db.tasks,
                |t: TaskRunView| urgent(db.runs, t, from, horizon),
                |t: TaskRunView| TaskRunView { runner_class: to, ..t },
            )[i] == (if t.status == TaskStatus::Ready && t.runner_class == from && t.gang_id is None && pressed {
                TaskRunView { runner_class: to, ..t }
            } else {
                t
            })
        }),
{
    let t = db.tasks[i];
    let p = |r: WorkflowRunView| crate::reruns::pressed(r, t.run_id, horizon);
    if any(db.runs, p) {
        let k = choose|k: int| 0 <= k < db.runs.len() && p(#[trigger] db.runs[k]);
        assert(db.runs[k].id == t.run_id);
    }
    if exists|k: int|
        0 <= k < db.runs.len() && (#[trigger] db.runs[k]).id == t.run_id && db.runs[k].status
            == RunStatus::Running && (match (db.runs[k].deadline_at, db.runs[k].alert_deadline_at) {
            (Some(at), _) => !lex_lt(horizon, at),
            (None, Some(at)) => !lex_lt(horizon, at),
            (None, None) => false,
        }) {
        let k = choose|k: int|
            0 <= k < db.runs.len() && (#[trigger] db.runs[k]).id == t.run_id && db.runs[k].status
                == RunStatus::Running && (match (db.runs[k].deadline_at, db.runs[k].alert_deadline_at) {
                (Some(at), _) => !lex_lt(horizon, at),
                (None, Some(at)) => !lex_lt(horizon, at),
                (None, None) => false,
            });
        assert(p(db.runs[k]));
    }
}

} // verus!
