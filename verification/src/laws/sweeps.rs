//! What a sweep over parked tasks leaves: each task that it ends is ended once,
//! its dependents wait for one less each, and nothing else moves.
use vstd::prelude::*;
use crate::laws::reruns::distinct_rows;
use crate::models::{RunStatus, TaskStatus};
use crate::order::{first, lemma_ordered_members, ordered, places_where};
use crate::parks::{
    awaiting, child_ended, child_over, decide_gate, decided, depth, due_polls, elapsed_wait,
    end_parent, end_sensor, ended_children, gate_expired, gate_open, gate_timeouts, parked_on_child,
    poll_due, run_verdict, still_parked, still_waits, wait_over, waits_over, GateTimeout,
};
use crate::rows::{EdgeView, TaskRunView, WorkflowRunView};
use crate::store::StoreView;
use crate::sweeps::{folded, lemma_turn, taken};
use crate::table::{any, count, lemma_count_filter, lemma_count_take};
use crate::tasks::{depends, settled};
use crate::text::lex_lt;
use crate::time::{rfc3339_value, shifted, Timestamp};

verus! {

// ── Any sweep ────────────────────────────────────────────────────────────────

/// A sweep that ends tasks: which task an item is of, which rows it touches, and
/// what becomes of them.
#[verifier::reject_recursive_types(A)]
pub struct Ending<A> {
    pub id: spec_fn(A) -> Seq<char>,
    pub hits: spec_fn(A, TaskRunView) -> bool,
    pub image: spec_fn(A, TaskRunView) -> TaskRunView,
}

impl<A> Ending<A> {
    /// The sweep touches parked rows of the item's task, and leaves them over.
    pub open spec fn ends_parked(self) -> bool {
        &&& forall|a: A, t: TaskRunView| #[trigger]
            (self.hits)(a, t) ==> t.id == (self.id)(a) && t.status != TaskStatus::Pending
        &&& forall|a: A, t: TaskRunView|
            (#[trigger] (self.image)(a, t)).id == t.id && (self.image)(a, t).status != TaskStatus::Pending
    }
}

/// How many of the items a row depends on.
pub open spec fn ended_under<A>(
    edges: Seq<EdgeView>,
    id: Seq<char>,
    items: Seq<A>,
    end: Ending<A>,
) -> nat {
    count(items, |a: A| depends(edges, id, (end.id)(a)))
}

/// The row as a sweep over the items leaves it.
pub open spec fn row_after<A>(edges: Seq<EdgeView>, t: TaskRunView, items: Seq<A>, end: Ending<A>) -> TaskRunView {
    if t.status == TaskStatus::Pending {
        TaskRunView { remaining_deps: t.remaining_deps - ended_under(edges, t.id, items, end), ..t }
    } else if exists|k: int| 0 <= k < items.len() && (end.hits)(#[trigger] items[k], t) {
        (end.image)(items[choose|k: int| 0 <= k < items.len() && (end.hits)(#[trigger] items[k], t)], t)
    } else {
        t
    }
}

proof fn lemma_sweep<A>(
    db: StoreView,
    items: Seq<A>,
    step: spec_fn(StoreView, A) -> StoreView,
    takes: spec_fn(StoreView, A) -> bool,
    end: Ending<A>,
    n: int,
)
    requires
        0 <= n <= items.len(),
        end.ends_parked(),
        forall|d: StoreView, a: A| #[trigger]
            step(d, a) == settled(
                d,
                (end.id)(a),
                |t: TaskRunView| (end.hits)(a, t),
                |t: TaskRunView| (end.image)(a, t),
            ),
        forall|d: StoreView, a: A| #[trigger]
            takes(d, a) == any(d.tasks, |t: TaskRunView| (end.hits)(a, t)),
        forall|x: int, y: int|
            0 <= x < y < items.len() ==> (end.id)(#[trigger] items[x]) != (end.id)(#[trigger] items[y]),
        forall|k: int|
            0 <= k < items.len() ==> any(db.tasks, |t: TaskRunView| (end.hits)(#[trigger] items[k], t)),
    ensures
        ({
            let done = items.take(n);
            let after = folded(db, done, step);
            &&& after == (StoreView { tasks: after.tasks, ..db })
            &&& after.tasks.len() == db.tasks.len()
            &&& forall|i: int|
                0 <= i < db.tasks.len() ==> #[trigger] after.tasks[i] == row_after(
                    db.edges,
                    db.tasks[i],
                    done,
                    end,
                )
            &&& taken(db, done, step, takes) == done
        }),
    decreases n,
{
    let done = items.take(n);
    let after = folded(db, done, step);
    if n == 0 {
        assert(done =~= Seq::<A>::empty());
    } else {
        lemma_sweep(db, items, step, takes, end, n - 1);
        lemma_turn(db, items, step, takes, n - 1);
        let prior = items.take(n - 1);
        let mid = folded(db, prior, step);
        let a = items[n - 1];
        let h = |t: TaskRunView| (end.hits)(a, t);
        assert(done =~= prior.push(a));
        assert forall|i: int| 0 <= i < db.tasks.len() implies h(#[trigger] mid.tasks[i]) == h(db.tasks[i]) by {
            let t = db.tasks[i];
            assert(mid.tasks[i] == row_after(db.edges, t, prior, end));
            if t.status != TaskStatus::Pending && exists|k: int|
                0 <= k < prior.len() && (end.hits)(#[trigger] prior[k], t) {
                let k = choose|k: int| 0 <= k < prior.len() && (end.hits)(#[trigger] prior[k], t);
                assert(prior[k] == items[k]);
                assert((end.id)(items[k]) != (end.id)(items[n - 1]));
            }
        }
        assert(any(mid.tasks, h)) by {
            assert(any(db.tasks, |t: TaskRunView| (end.hits)(items[n - 1], t)));
            let i = choose|i: int| 0 <= i < db.tasks.len() && h(#[trigger] db.tasks[i]);
            assert(h(mid.tasks[i]));
        }
        assert forall|i: int| 0 <= i < db.tasks.len() implies #[trigger] after.tasks[i] == row_after(
            db.edges,
            db.tasks[i],
            done,
            end,
        ) by {
            let t = db.tasks[i];
            let m = mid.tasks[i];
            assert(m == row_after(db.edges, t, prior, end));
            assert(h(m) == h(t));
            let q = |a: A| depends(db.edges, t.id, (end.id)(a));
            assert(done.drop_last() =~= prior);
            if t.status != TaskStatus::Pending {
                if h(t) {
                    assert(done[n - 1] == a);
                    assert forall|k: int| 0 <= k < done.len() && (end.hits)(#[trigger] done[k], t) implies k == n
                        - 1 by {
                        if k < n - 1 {
                            assert(done[k] == items[k]);
                            assert((end.id)(items[k]) != (end.id)(items[n - 1]));
                        }
                    }
                    assert(!(exists|k: int| 0 <= k < prior.len() && (end.hits)(#[trigger] prior[k], t))) by {
                        if exists|k: int| 0 <= k < prior.len() && (end.hits)(#[trigger] prior[k], t) {
                            let k = choose|k: int| 0 <= k < prior.len() && (end.hits)(#[trigger] prior[k], t);
                            assert(done[k] == prior[k]);
                        }
                    }
                    assert((end.hits)(done[n - 1], t));
                } else if exists|k: int| 0 <= k < prior.len() && (end.hits)(#[trigger] prior[k], t) {
                    let k = choose|k: int| 0 <= k < prior.len() && (end.hits)(#[trigger] prior[k], t);
                    assert(done[k] == prior[k]);
                    let j = choose|j: int| 0 <= j < done.len() && (end.hits)(#[trigger] done[j], t);
                    assert(done[j] == items[j] && done[k] == items[k]);
                    if j < k {
                        assert((end.id)(items[j]) != (end.id)(items[k]));
                    } else if k < j {
                        assert((end.id)(items[k]) != (end.id)(items[j]));
                    }
                } else {
                    assert(!(exists|k: int| 0 <= k < done.len() && (end.hits)(#[trigger] done[k], t))) by {
                        if exists|k: int| 0 <= k < done.len() && (end.hits)(#[trigger] done[k], t) {
                            let k = choose|k: int| 0 <= k < done.len() && (end.hits)(#[trigger] done[k], t);
                            if k < n - 1 {
                                assert(prior[k] == done[k]);
                            }
                        }
                    }
                }
            }
        }
    }
}

// ── Places in the order of the table ─────────────────────────────────────────

proof fn lemma_places_push<V>(rows: Seq<V>, p: spec_fn(V) -> bool, n: int)
    requires
        0 < n <= rows.len(),
    ensures
        ordered(rows, p, |a: V, b: V| false, n) == (if p(rows[n - 1]) {
            ordered(rows, p, |a: V, b: V| false, n - 1).push(n - 1)
        } else {
            ordered(rows, p, |a: V, b: V| false, n - 1)
        }),
{
}

/// Counting what is read off the rows that satisfy `p`.
pub proof fn lemma_count_read<V, A>(rows: Seq<V>, p: spec_fn(V) -> bool, f: spec_fn(V) -> A, q: spec_fn(A) -> bool, n: int)
    requires
        0 <= n <= rows.len(),
    ensures
        count(
            ordered(rows, p, |a: V, b: V| false, n).map_values(|i: int| f(rows[i])),
            q,
        ) == count(rows.take(n), |v: V| p(v) && q(f(v))),
    decreases n,
{
    let lt = |a: V, b: V| false;
    let g = |i: int| f(rows[i]);
    let w = |v: V| p(v) && q(f(v));
    if n > 0 {
        lemma_count_read(rows, p, f, q, n - 1);
        lemma_count_take(rows, w, n - 1);
        lemma_places_push(rows, p, n);
        let prior = ordered(rows, p, lt, n - 1);
        if p(rows[n - 1]) {
            let all = prior.push(n - 1).map_values(g);
            assert(all.drop_last() =~= prior.map_values(g));
            assert(all.last() == f(rows[n - 1]));
        }
    } else {
        assert(ordered(rows, p, lt, n).map_values(g) =~= Seq::<A>::empty());
        assert(rows.take(0) =~= Seq::<V>::empty());
    }
}

/// What a sweep over rows found by `p` leaves of row `i`.
pub proof fn lemma_row_sweep<A>(
    db: StoreView,
    p: spec_fn(TaskRunView) -> bool,
    f: spec_fn(TaskRunView) -> A,
    step: spec_fn(StoreView, A) -> StoreView,
    takes: spec_fn(StoreView, A) -> bool,
    end: Ending<A>,
    i: int,
)
    requires
        distinct_rows(db.tasks),
        0 <= i < db.tasks.len(),
        end.ends_parked(),
        forall|d: StoreView, a: A| #[trigger]
            step(d, a) == settled(
                d,
                (end.id)(a),
                |t: TaskRunView| (end.hits)(a, t),
                |t: TaskRunView| (end.image)(a, t),
            ),
        forall|d: StoreView, a: A| #[trigger]
            takes(d, a) == any(d.tasks, |t: TaskRunView| (end.hits)(a, t)),
        forall|t: TaskRunView| (end.id)(#[trigger] f(t)) == t.id,
        forall|t: TaskRunView| #[trigger] p(t) ==> (end.hits)(f(t), t),
        forall|t: TaskRunView| #[trigger] p(t) ==> t.status != TaskStatus::Pending,
    ensures
        ({
            let items = places_where(db.tasks, p).map_values(|i: int| f(db.tasks[i]));
            let after = folded(db, items, step);
            let t = db.tasks[i];
            &&& after == (StoreView { tasks: after.tasks, ..db })
            &&& after.tasks.len() == db.tasks.len()
            &&& taken(db, items, step, takes) == items
            &&& p(t) ==> after.tasks[i] == (end.image)(f(t), t)
            &&& !p(t) && t.status != TaskStatus::Pending ==> after.tasks[i] == t
            &&& t.status == TaskStatus::Pending ==> after.tasks[i] == (TaskRunView {
                remaining_deps: t.remaining_deps - db.tasks.filter(
                    |s: TaskRunView| p(s) && depends(db.edges, t.id, s.id),
                ).len(),
                ..t
            })
        }),
{
    let lt = |a: TaskRunView, b: TaskRunView| false;
    let n = db.tasks.len() as int;
    let q = places_where(db.tasks, p);
    let items = q.map_values(|i: int| f(db.tasks[i]));
    let t = db.tasks[i];
    lemma_ordered_members(db.tasks, p, lt, n);
    assert forall|x: int, y: int| 0 <= x < y < items.len() implies (end.id)(#[trigger] items[x]) != (end.id)(
        #[trigger] items[y],
    ) by {
        assert(q.contains(q[x]) && q.contains(q[y]));
        assert(q[x] != q[y]);
        if q[x] < q[y] {
            assert(db.tasks[q[x]].id != db.tasks[q[y]].id);
        } else {
            assert(db.tasks[q[y]].id != db.tasks[q[x]].id);
        }
    }
    assert forall|k: int| 0 <= k < items.len() implies any(
        db.tasks,
        |t: TaskRunView| (end.hits)(#[trigger] items[k], t),
    ) by {
        assert(q.contains(q[k]));
        let h = |t: TaskRunView| (end.hits)(items[k], t);
        assert(p(db.tasks[q[k]]));
        assert(h(db.tasks[q[k]]));
    }
    lemma_sweep(db, items, step, takes, end, items.len() as int);
    assert(items.take(items.len() as int) =~= items);
    let after = folded(db, items, step);
    assert(after.tasks[i] == row_after(db.edges, t, items, end));
    if t.status == TaskStatus::Pending {
        let r = |a: A| depends(db.edges, t.id, (end.id)(a));
        let w = |v: TaskRunView| p(v) && r(f(v));
        let want = |s: TaskRunView| p(s) && depends(db.edges, t.id, s.id);
        lemma_count_read(db.tasks, p, f, r, n);
        assert(db.tasks.take(n) =~= db.tasks);
        assert(w =~= want);
        lemma_count_filter(db.tasks, want);
    } else if p(t) {
        assert(q.contains(i));
        let k = choose|k: int| 0 <= k < q.len() && q[k] == i;
        assert((end.hits)(items[k], t));
        let j = choose|j: int| 0 <= j < items.len() && (end.hits)(#[trigger] items[j], t);
        assert((end.id)(items[j]) == t.id);
        assert(q.contains(q[j]));
        assert(db.tasks[q[j]].id == t.id);
        if q[j] < i {
            assert(db.tasks[q[j]].id != db.tasks[i].id);
        } else if i < q[j] {
            assert(db.tasks[i].id != db.tasks[q[j]].id);
        }
    } else if exists|j: int| 0 <= j < items.len() && (end.hits)(#[trigger] items[j], t) {
        let j = choose|j: int| 0 <= j < items.len() && (end.hits)(#[trigger] items[j], t);
        assert((end.id)(items[j]) == t.id);
        assert(q.contains(q[j]));
        assert(db.tasks[q[j]].id == t.id);
        if q[j] < i {
            assert(db.tasks[q[j]].id != db.tasks[i].id);
        } else if i < q[j] {
            assert(db.tasks[i].id != db.tasks[q[j]].id);
        }
    }
}

/// The number of rows that satisfy `p` and that the task `id` depends on.
pub open spec fn ended_dependencies(db: StoreView, id: Seq<char>, p: spec_fn(TaskRunView) -> bool) -> nat {
    db.tasks.filter(
        |s: TaskRunView|
            p(s) && exists|e: int|
                0 <= e < db.edges.len() && (#[trigger] db.edges[e]).dependent_id == id
                    && db.edges[e].dependency_id == s.id,
    ).len()
}

pub proof fn lemma_ended_dependencies(db: StoreView, id: Seq<char>, p: spec_fn(TaskRunView) -> bool)
    ensures
        db.tasks.filter(|s: TaskRunView| p(s) && depends(db.edges, id, s.id)).len() == ended_dependencies(
            db,
            id,
            p,
        ),
{
    let a = |s: TaskRunView| p(s) && depends(db.edges, id, s.id);
    let b = |s: TaskRunView|
        p(s) && exists|e: int|
            0 <= e < db.edges.len() && (#[trigger] db.edges[e]).dependent_id == id
                && db.edges[e].dependency_id == s.id;
    assert(a =~= b);
}

// ── The sweeps ───────────────────────────────────────────────────────────────

/// A sweep over the time sensors ends those whose time has come, and says which.
/// A pending task waits for one less for each of them that it depends on. All
/// other tasks stay as they are.
pub proof fn law_wait_sweep_ends_what_is_due(db: StoreView, now: Seq<char>, i: int)
    requires
        distinct_rows(db.tasks),
        0 <= i < db.tasks.len(),
    ensures
        ({
            let due = |t: TaskRunView|
                t.status == TaskStatus::Running && (t.wake_at matches Some(at) && !lex_lt(now, at));
            let over = waits_over(db.tasks, now);
            let after = folded(db, over, end_sensor(now));
            let t = db.tasks[i];
            &&& after == (StoreView { tasks: after.tasks, ..db })
            &&& taken(db, over, end_sensor(now), still_waits(now)) == over
            &&& over.contains(t.id) <==> due(t)
            &&& after.tasks[i] == (if due(t) {
                TaskRunView {
                    status: TaskStatus::Succeeded,
                    finished_at: Some(now),
                    output: Some("wait elapsed"@),
                    ..t
                }
            } else if t.status == TaskStatus::Pending {
                TaskRunView { remaining_deps: t.remaining_deps - ended_dependencies(db, t.id, due), ..t }
            } else {
                t
            })
        }),
{
    let due = |t: TaskRunView|
        t.status == TaskStatus::Running && (t.wake_at matches Some(at) && !lex_lt(now, at));
    let p = |t: TaskRunView| wait_over(t, now);
    let f = |t: TaskRunView| t.id;
    let end = Ending::<Seq<char>> {
        id: |a: Seq<char>| a,
        hits: |a: Seq<char>, t: TaskRunView| t.id == a && wait_over(t, now),
        image: |a: Seq<char>, t: TaskRunView| elapsed_wait(t, now),
    };
    assert(p =~= due);
    assert forall|d: StoreView, a: Seq<char>| #[trigger] end_sensor(now)(d, a) == settled(
        d,
        (end.id)(a),
        |t: TaskRunView| (end.hits)(a, t),
        |t: TaskRunView| (end.image)(a, t),
    ) by {
        assert((|t: TaskRunView| (end.hits)(a, t)) =~= (|t: TaskRunView| t.id == a && wait_over(t, now)));
        assert((|t: TaskRunView| (end.image)(a, t)) =~= (|t: TaskRunView| elapsed_wait(t, now)));
    }
    assert forall|d: StoreView, a: Seq<char>| #[trigger] still_waits(now)(d, a) == any(
        d.tasks,
        |t: TaskRunView| (end.hits)(a, t),
    ) by {
        assert((|t: TaskRunView| (end.hits)(a, t)) =~= (|t: TaskRunView| t.id == a && wait_over(t, now)));
    }
    lemma_row_sweep(db, p, f, end_sensor(now), still_waits(now), end, i);
    let items = places_where(db.tasks, p).map_values(|i: int| f(db.tasks[i]));
    assert(items =~= waits_over(db.tasks, now));
    lemma_ended_dependencies(db, db.tasks[i].id, p);
    lemma_items_contain(db.tasks, p, i);
}

proof fn lemma_items_contain(tasks: Seq<TaskRunView>, p: spec_fn(TaskRunView) -> bool, i: int)
    requires
        distinct_rows(tasks),
        0 <= i < tasks.len(),
    ensures
        places_where(tasks, p).map_values(|i: int| tasks[i].id).contains(tasks[i].id) <==> p(tasks[i]),
{
    let q = places_where(tasks, p);
    let ids = q.map_values(|i: int| tasks[i].id);
    lemma_ordered_members(tasks, p, |a: TaskRunView, b: TaskRunView| false, tasks.len() as int);
    if p(tasks[i]) {
        assert(q.contains(i));
        let k = choose|k: int| 0 <= k < q.len() && q[k] == i;
        assert(ids[k] == tasks[i].id);
    }
    if ids.contains(tasks[i].id) {
        let k = choose|k: int| 0 <= k < ids.len() && ids[k] == tasks[i].id;
        assert(q.contains(q[k]));
        let j = q[k];
        if j < i {
            assert(tasks[j].id != tasks[i].id);
        } else if i < j {
            assert(tasks[i].id != tasks[j].id);
        }
    }
}

/// Run `k` is the first with this id.
pub open spec fn first_run(runs: Seq<WorkflowRunView>, id: Seq<char>, k: int) -> bool {
    &&& 0 <= k < runs.len()
    &&& runs[k].id == id
    &&& forall|j: int| 0 <= j < k ==> (#[trigger] runs[j]).id != id
}

/// The first run with an id has ended: well, or not.
pub open spec fn end_of_run(runs: Seq<WorkflowRunView>, id: Seq<char>, well: bool) -> bool {
    exists|k: int| #[trigger]
        first_run(runs, id, k) && if well {
            runs[k].status == RunStatus::Succeeded
        } else {
            runs[k].status == RunStatus::Failed || runs[k].status == RunStatus::Cancelled
        }
}

/// A search through a table finds the first row that satisfies `p`.
pub proof fn lemma_first_at<V>(rows: Seq<V>, p: spec_fn(V) -> bool)
    ensures
        match first(rows, p) {
            Some(v) => exists|k: int|
                0 <= k < rows.len() && #[trigger] rows[k] == v && p(v) && forall|j: int|
                    0 <= j < k ==> !p(#[trigger] rows[j]),
            None => forall|j: int| 0 <= j < rows.len() ==> !p(#[trigger] rows[j]),
        },
    decreases rows.len(),
{
    if rows.len() > 0 {
        let rest = rows.drop_last();
        lemma_first_at(rest, p);
        match first(rest, p) {
            Some(v) => {
                let k = choose|k: int|
                    0 <= k < rest.len() && #[trigger] rest[k] == v && p(v) && forall|j: int|
                        0 <= j < k ==> !p(#[trigger] rest[j]);
                assert(rows[k] == v);
                assert forall|j: int| 0 <= j < k implies !p(#[trigger] rows[j]) by {
                    assert(rest[j] == rows[j]);
                }
            },
            None => {
                assert forall|j: int| 0 <= j < rest.len() implies !p(#[trigger] rows[j]) by {
                    assert(rest[j] == rows[j]);
                }
                assert(rows[rows.len() - 1] == rows.last());
            },
        }
    }
}

proof fn lemma_first_run(runs: Seq<WorkflowRunView>, id: Seq<char>, a: int, b: int)
    requires
        first_run(runs, id, a),
        first_run(runs, id, b),
    ensures
        a == b,
{
    if a < b {
        assert(runs[a].id != id);
    } else if b < a {
        assert(runs[b].id != id);
    }
}

proof fn lemma_run_verdict(runs: Seq<WorkflowRunView>, id: Seq<char>)
    ensures
        run_verdict(runs, id) == Some(true) <==> end_of_run(runs, id, true),
        run_verdict(runs, id) == Some(false) <==> end_of_run(runs, id, false),
{
    let p = |r: WorkflowRunView| r.id == id;
    lemma_first_at(runs, p);
    match first(runs, p) {
        Some(v) => {
            let k = choose|k: int|
                0 <= k < runs.len() && #[trigger] runs[k] == v && p(v) && forall|j: int|
                    0 <= j < k ==> !p(#[trigger] runs[j]);
            assert forall|j: int| 0 <= j < k implies (#[trigger] runs[j]).id != id by {
                assert(!p(runs[j]));
            }
            assert(first_run(runs, id, k));
            if end_of_run(runs, id, true) {
                let m = choose|m: int| #[trigger]
                    first_run(runs, id, m) && runs[m].status == RunStatus::Succeeded;
                lemma_first_run(runs, id, k, m);
            }
            if end_of_run(runs, id, false) {
                let m = choose|m: int| #[trigger]
                    first_run(runs, id, m) && (runs[m].status == RunStatus::Failed || runs[m].status
                        == RunStatus::Cancelled);
                lemma_first_run(runs, id, k, m);
            }
        },
        None => {
            assert forall|j: int| 0 <= j < runs.len() implies (#[trigger] runs[j]).id != id by {
                assert(!p(runs[j]));
            }
        },
    }
}

/// A sweep over the triggers ends each whose child run has ended, as the child
/// ended: well, or not. One whose child still runs goes on waiting.
pub proof fn law_child_sweep_ends_as_the_child(db: StoreView, now: Seq<char>, i: int)
    requires
        distinct_rows(db.tasks),
        0 <= i < db.tasks.len(),
    ensures
        ({
            let parked = |t: TaskRunView| t.status == TaskStatus::Running && t.sub_run_id is Some;
            let well = |t: TaskRunView| parked(t) && end_of_run(db.runs, t.sub_run_id->0, true);
            let badly = |t: TaskRunView| parked(t) && end_of_run(db.runs, t.sub_run_id->0, false);
            let over = ended_children(db);
            let after = folded(db, over, end_parent(now));
            let t = db.tasks[i];
            &&& after == (StoreView { tasks: after.tasks, ..db })
            &&& taken(db, over, end_parent(now), still_parked()) == over
            &&& well(t) ==> over.contains((t.id, true))
            &&& badly(t) ==> over.contains((t.id, false))
            &&& over.len() == db.tasks.filter(|s: TaskRunView| well(s) || badly(s)).len()
            &&& after.tasks[i] == (if well(t) {
                TaskRunView {
                    status: TaskStatus::Succeeded,
                    finished_at: Some(now),
                    output: Some("sub-workflow succeeded"@),
                    ..t
                }
            } else if badly(t) {
                TaskRunView {
                    status: TaskStatus::Failed,
                    finished_at: Some(now),
                    output: Some("sub-workflow failed"@),
                    ..t
                }
            } else if t.status == TaskStatus::Pending {
                TaskRunView {
                    remaining_deps: t.remaining_deps - ended_dependencies(
                        db,
                        t.id,
                        |s: TaskRunView| well(s) || badly(s),
                    ),
                    ..t
                }
            } else {
                t
            })
        }),
{
    let parked = |t: TaskRunView| t.status == TaskStatus::Running && t.sub_run_id is Some;
    let well = |t: TaskRunView| parked(t) && end_of_run(db.runs, t.sub_run_id->0, true);
    let badly = |t: TaskRunView| parked(t) && end_of_run(db.runs, t.sub_run_id->0, false);
    let p = |t: TaskRunView| child_over(db.runs, t);
    let f = |t: TaskRunView| (t.id, run_verdict(db.runs, t.sub_run_id->0)->0);
    let end = Ending::<(Seq<char>, bool)> {
        id: |a: (Seq<char>, bool)| a.0,
        hits: |a: (Seq<char>, bool), t: TaskRunView| parked_on_child(t, a.0),
        image: |a: (Seq<char>, bool), t: TaskRunView| child_ended(t, a.1, now),
    };
    assert forall|d: StoreView, a: (Seq<char>, bool)| #[trigger] end_parent(now)(d, a) == settled(
        d,
        (end.id)(a),
        |t: TaskRunView| (end.hits)(a, t),
        |t: TaskRunView| (end.image)(a, t),
    ) by {
        assert((|t: TaskRunView| (end.hits)(a, t)) =~= (|t: TaskRunView| parked_on_child(t, a.0)));
        assert((|t: TaskRunView| (end.image)(a, t)) =~= (|t: TaskRunView| child_ended(t, a.1, now)));
    }
    assert forall|d: StoreView, a: (Seq<char>, bool)| #[trigger] still_parked()(d, a) == any(
        d.tasks,
        |t: TaskRunView| (end.hits)(a, t),
    ) by {
        assert((|t: TaskRunView| (end.hits)(a, t)) =~= (|t: TaskRunView| parked_on_child(t, a.0)));
    }
    lemma_row_sweep(db, p, f, end_parent(now), still_parked(), end, i);
    let items = places_where(db.tasks, p).map_values(|i: int| f(db.tasks[i]));
    assert(items =~= ended_children(db));
    let either = |s: TaskRunView| well(s) || badly(s);
    assert forall|t: TaskRunView| #[trigger] p(t) == either(t) by {
        if t.sub_run_id is Some {
            lemma_run_verdict(db.runs, t.sub_run_id->0);
        }
    }
    assert(p =~= either);
    lemma_ended_dependencies(db, db.tasks[i].id, p);
    if db.tasks[i].sub_run_id is Some {
        lemma_run_verdict(db.runs, db.tasks[i].sub_run_id->0);
    }
    lemma_reported(db.tasks, p, f, i);
}

/// A read reports each row that passes its filter, and as many as pass.
proof fn lemma_reported<V, A>(rows: Seq<V>, p: spec_fn(V) -> bool, f: spec_fn(V) -> A, i: int)
    requires
        0 <= i < rows.len(),
    ensures
        ({
            let items = places_where(rows, p).map_values(|i: int| f(rows[i]));
            &&& items.len() == rows.filter(p).len()
            &&& p(rows[i]) ==> items.contains(f(rows[i]))
        }),
{
    let q = places_where(rows, p);
    let items = q.map_values(|i: int| f(rows[i]));
    let lt = |a: V, b: V| false;
    let n = rows.len() as int;
    lemma_ordered_members(rows, p, lt, n);
    crate::order::lemma_ordered_len(rows, p, lt, n);
    assert(rows.take(n) =~= rows);
    lemma_count_filter(rows, p);
    if p(rows[i]) {
        assert(q.contains(i));
        let k = choose|k: int| 0 <= k < q.len() && q[k] == i;
        assert(items[k] == f(rows[i]));
    }
}

/// The time of an approval is up: it is awaited with a timeout, and the instant
/// that long after it began to wait is not after `now`. Where the calendar does
/// not hold that instant, a timeout forwards is never up, and one backwards is.
pub open spec fn time_is_up(t: TaskRunView, now: Timestamp) -> bool {
    t.status == TaskStatus::AwaitingApproval && match (t.scheduled_at, t.approval_timeout_secs) {
        (Some(at), Some(secs)) => match rfc3339_value(at) {
            Ok((s, n)) => match shifted(Timestamp { secs: s as i64, nanos: n as u32 }, secs) {
                Some((s, n)) => (s as i64) < now.secs || ((s as i64) == now.secs && (n as u32)
                    <= now.nanos),
                None => secs < 0,
            },
            Err(_) => false,
        },
        _ => false,
    }
}

/// A sweep over awaited approvals decides each whose time is up: approved where
/// its task says so, and rejected otherwise. The others go on waiting.
pub proof fn law_gate_sweep_decides_what_is_due(db: StoreView, now: Timestamp, stamp: Seq<char>, i: int)
    requires
        distinct_rows(db.tasks),
        0 <= i < db.tasks.len(),
    ensures
        ({
            let due = |t: TaskRunView| time_is_up(t, now);
            let gates = gate_timeouts(db.tasks, now);
            let after = folded(db, gates, decide_gate(stamp));
            let t = db.tasks[i];
            let approve = t.approval_on_timeout == Some("approve"@);
            &&& after == (StoreView { tasks: after.tasks, ..db })
            &&& taken(db, gates, decide_gate(stamp), gate_open()) == gates
            &&& due(t) ==> gates.contains(GateTimeout { run_id: t.run_id, id: t.id, approve })
            &&& gates.len() == db.tasks.filter(due).len()
            &&& after.tasks[i] == (if due(t) {
                TaskRunView {
                    status: if approve { TaskStatus::Succeeded } else { TaskStatus::Failed },
                    finished_at: Some(stamp),
                    output: Some(if approve { "approved"@ } else { "rejected"@ }),
                    ..t
                }
            } else if t.status == TaskStatus::Pending {
                TaskRunView { remaining_deps: t.remaining_deps - ended_dependencies(db, t.id, due), ..t }
            } else {
                t
            })
        }),
{
    let due = |t: TaskRunView| time_is_up(t, now);
    let p = |t: TaskRunView| gate_expired(t, now);
    let f = |t: TaskRunView|
        GateTimeout {
            run_id: t.run_id,
            id: t.id,
            approve: t.approval_on_timeout == Some("approve"@),
        };
    let end = Ending::<GateTimeout> {
        id: |a: GateTimeout| a.id,
        hits: |a: GateTimeout, t: TaskRunView| awaiting(t, a.run_id, a.id),
        image: |a: GateTimeout, t: TaskRunView| decided(t, a.approve, stamp),
    };
    assert forall|d: StoreView, a: GateTimeout| #[trigger] decide_gate(stamp)(d, a) == settled(
        d,
        (end.id)(a),
        |t: TaskRunView| (end.hits)(a, t),
        |t: TaskRunView| (end.image)(a, t),
    ) by {
        assert((|t: TaskRunView| (end.hits)(a, t)) =~= (|t: TaskRunView| awaiting(t, a.run_id, a.id)));
        assert((|t: TaskRunView| (end.image)(a, t)) =~= (|t: TaskRunView| decided(t, a.approve, stamp)));
    }
    assert forall|d: StoreView, a: GateTimeout| #[trigger] gate_open()(d, a) == any(
        d.tasks,
        |t: TaskRunView| (end.hits)(a, t),
    ) by {
        assert((|t: TaskRunView| (end.hits)(a, t)) =~= (|t: TaskRunView| awaiting(t, a.run_id, a.id)));
    }
    lemma_row_sweep(db, p, f, decide_gate(stamp), gate_open(), end, i);
    let items = places_where(db.tasks, p).map_values(|i: int| f(db.tasks[i]));
    assert(items =~= gate_timeouts(db.tasks, now));
    assert(p =~= due);
    lemma_ended_dependencies(db, db.tasks[i].id, p);
    lemma_reported(db.tasks, p, f, i);
}

// ── Depth and polls ──────────────────────────────────────────────────────────

/// A run is one deeper than the run of the task that waits for it; one that no
/// task waits for is at the top.
pub proof fn law_depth_counts_parents(tasks: Seq<TaskRunView>, run_id: Seq<char>, limit: int, i: int)
    requires
        limit > 0,
    ensures
        0 <= i < tasks.len() && tasks[i].sub_run_id == Some(run_id) && (forall|j: int|
            0 <= j < i ==> (#[trigger] tasks[j]).sub_run_id != Some(run_id)) ==> depth(tasks, run_id, limit)
            == 1 + depth(tasks, tasks[i].run_id, limit - 1),
        (forall|j: int| 0 <= j < tasks.len() ==> (#[trigger] tasks[j]).sub_run_id != Some(run_id)) ==> depth(
            tasks,
            run_id,
            limit,
        ) == 0,
{
    let p = |t: TaskRunView| t.sub_run_id == Some(run_id);
    lemma_first_at(tasks, p);
    match first(tasks, p) {
        Some(v) => {
            let k = choose|k: int|
                0 <= k < tasks.len() && #[trigger] tasks[k] == v && p(v) && forall|j: int|
                    0 <= j < k ==> !p(#[trigger] tasks[j]);
            if 0 <= i < tasks.len() && tasks[i].sub_run_id == Some(run_id) && (forall|j: int|
                0 <= j < i ==> (#[trigger] tasks[j]).sub_run_id != Some(run_id)) {
                if i < k {
                    assert(!p(tasks[i]));
                } else if k < i {
                    assert(tasks[k].sub_run_id != Some(run_id));
                }
            }
            assert(tasks[k].sub_run_id == Some(run_id));
        },
        None => {
            if 0 <= i < tasks.len() {
                assert(!p(tasks[i]));
            }
        },
    }
}

/// A poll is due for the sensors on an address whose next poll is not after now,
/// or that have none set. The longest due come first, and no more than asked.
pub proof fn law_polls_are_due(tasks: Seq<TaskRunView>, limit: int, now: Seq<char>)
    ensures
        ({
            let q = due_polls(tasks, limit, now);
            let due = |t: TaskRunView|
                t.status == TaskStatus::Running && t.wait_url is Some && (t.next_poll_at matches Some(at)
                    ==> !lex_lt(now, at));
            &&& q.no_duplicates()
            &&& forall|k: int| 0 <= k < q.len() ==> 0 <= #[trigger] q[k] < tasks.len() && due(tasks[q[k]])
            &&& limit < 0 ==> forall|i: int| 0 <= i < tasks.len() && due(#[trigger] tasks[i]) ==> q.contains(i)
            &&& limit >= 0 ==> q.len() <= limit
            &&& forall|a: int, b: int|
                0 <= a < b < q.len() ==> match (
                    tasks[#[trigger] q[a]].next_poll_at,
                    tasks[#[trigger] q[b]].next_poll_at,
                ) {
                    (Some(x), Some(y)) => !lex_lt(y, x),
                    (Some(_), None) => false,
                    (None, _) => true,
                }
        }),
{
    let p = |t: TaskRunView| poll_due(t, now);
    let lt = |a: TaskRunView, b: TaskRunView| crate::claims::time_before(a.next_poll_at, b.next_poll_at);
    let n = tasks.len() as int;
    let all = ordered(tasks, p, lt, n);
    let q = due_polls(tasks, limit, now);
    let due = |t: TaskRunView|
        t.status == TaskStatus::Running && t.wait_url is Some && (t.next_poll_at matches Some(at) ==> !lex_lt(
            now,
            at,
        ));
    assert(p =~= due);
    assert(crate::order::weak_order(lt)) by {
        assert forall|a: TaskRunView, b: TaskRunView| #[trigger] lt(a, b) implies !lt(b, a) by {
            crate::laws::lemma_time_order(a.next_poll_at, b.next_poll_at, a.next_poll_at);
        }
        assert forall|a: TaskRunView, b: TaskRunView, c: TaskRunView| #[trigger] lt(a, c) implies #[trigger] lt(
            a,
            b,
        ) || lt(b, c) by {
            crate::laws::lemma_time_order(a.next_poll_at, b.next_poll_at, c.next_poll_at);
        }
    }
    lemma_ordered_members(tasks, p, lt, n);
    crate::order::lemma_ordered_sorted(tasks, p, lt, n);
    crate::order::lemma_limited_members(all, limit);
    assert forall|k: int| 0 <= k < q.len() implies 0 <= #[trigger] q[k] < tasks.len() && due(tasks[q[k]]) by {
        assert(q.contains(q[k]));
        assert(all.contains(q[k]));
    }
    if limit < 0 {
        assert forall|i: int| 0 <= i < tasks.len() && due(#[trigger] tasks[i]) implies q.contains(i) by {
            assert(p(tasks[i]));
            assert(all.contains(i));
        }
    }
    assert forall|a: int, b: int| 0 <= a < b < q.len() implies match (
        tasks[#[trigger] q[a]].next_poll_at,
        tasks[#[trigger] q[b]].next_poll_at,
    ) {
        (Some(x), Some(y)) => !lex_lt(y, x),
        (Some(_), None) => false,
        (None, _) => true,
    } by {
        assert(q[a] == all[a] && q[b] == all[b]);
        assert(!lt(tasks[all[b]], tasks[all[a]]));
    }
}

} // verus!
