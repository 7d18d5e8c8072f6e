//! What is kept of runs, what is dropped, and what is shown.
use vstd::prelude::*;
use crate::claims::time_before;
use crate::gangs::earliest;
use crate::laws::advance::lemma_filter_from;
use crate::laws::lemma_time_order;
use crate::laws::reading::{law_first_row, law_sorted_read, lemma_text_order};
use crate::models::{RunStatus, TaskStatus};
use crate::order::{
    first, lemma_ordered_len, lemma_ordered_members, lemma_ordered_sorted, ordered, weak_order,
};
use crate::queries::{
    backlog_of, backlogs, bad_filter, by_class, definition_of, definition_with, listed_runs, names_status,
    run_states, run_tally, summaries, task_states, task_tally,
};
use crate::retention::{
    archive_of, archives, compacted, expired, expired_id, indexed, purgeable, to_archive,
    without_runs, ArchiveEntry,
};
use crate::rows::{
    ArchivedRunView, DefinitionView, EdgeView, OutboxRowView, TaskRunView,
    WorkflowRunView,
};
use crate::store::StoreView;
use crate::table::{any, count, lemma_count_filter};
use crate::text::lex_lt;

verus! {

// ── Archives ─────────────────────────────────────────────────────────────────

/// The run succeeded, failed or was cancelled.
pub open spec fn run_over(r: WorkflowRunView) -> bool {
    r.status == RunStatus::Succeeded || r.status == RunStatus::Failed || r.status == RunStatus::Cancelled
}

/// The run is over and finished before the cutoff.
pub open spec fn over_before(r: WorkflowRunView, cutoff: Seq<char>) -> bool {
    run_over(r) && (r.finished_at matches Some(at) && lex_lt(at, cutoff))
}

/// The runs to archive are those over before the cutoff, up to the limit; no run
/// that is left out finished before one that is not.
pub proof fn law_archive_takes_the_first_to_finish(
    runs: Seq<WorkflowRunView>,
    cutoff: Seq<char>,
    limit: int,
    i: int,
)
    requires
        0 <= i < runs.len(),
    ensures
        ({
            let q = to_archive(runs, cutoff, limit);
            let all = runs.filter(|r: WorkflowRunView| over_before(r, cutoff)).len();
            &&& q.no_duplicates()
            &&& q.len() == (if limit < 0 || limit >= all { all as int } else { limit })
            &&& q.contains(i) ==> over_before(runs[i], cutoff)
            &&& over_before(runs[i], cutoff) && !q.contains(i) ==> forall|k: int|
                0 <= k < q.len() ==> !lex_lt(runs[i].finished_at->0, runs[#[trigger] q[k]].finished_at->0)
            &&& forall|a: int, b: int|
                0 <= a < b < q.len() ==> !lex_lt(
                    runs[#[trigger] q[b]].finished_at->0,
                    runs[#[trigger] q[a]].finished_at->0,
                )
        }),
{
    let want = |r: WorkflowRunView| over_before(r, cutoff);
    let p = |r: WorkflowRunView| expired(r, cutoff);
    assert(p =~= want);
    let lt = |a: WorkflowRunView, b: WorkflowRunView| time_before(a.finished_at, b.finished_at);
    let n = runs.len() as int;
    let all = ordered(runs, p, lt, n);
    let q = to_archive(runs, cutoff, limit);
    assert(weak_order(lt)) by {
        assert forall|a: WorkflowRunView, b: WorkflowRunView| #[trigger] lt(a, b) implies !lt(b, a) by {
            lemma_time_order(a.finished_at, b.finished_at, a.finished_at);
        }
        assert forall|a: WorkflowRunView, b: WorkflowRunView, c: WorkflowRunView| #[trigger]
            lt(a, c) implies #[trigger] lt(a, b) || lt(b, c) by {
            lemma_time_order(a.finished_at, b.finished_at, c.finished_at);
        }
    }
    lemma_ordered_members(runs, p, lt, n);
    lemma_ordered_sorted(runs, p, lt, n);
    lemma_ordered_len(runs, p, lt, n);
    assert(runs.take(n) =~= runs);
    lemma_count_filter(runs, p);
    assert forall|k: int| 0 <= k < all.len() implies over_before(runs[#[trigger] all[k]], cutoff) by {
        assert(all.contains(all[k]));
        assert(p(runs[all[k]]));
    }
    assert forall|a: int, b: int| 0 <= a < b < q.len() implies !lex_lt(
        runs[#[trigger] q[b]].finished_at->0,
        runs[#[trigger] q[a]].finished_at->0,
    ) by {
        assert(q[a] == all[a] && q[b] == all[b]);
        assert(!lt(runs[all[b]], runs[all[a]]));
    }
    if q.contains(i) {
        let k = choose|k: int| 0 <= k < q.len() && q[k] == i;
        assert(all[k] == i);
    }
    if over_before(runs[i], cutoff) && !q.contains(i) {
        assert(all.contains(i));
        let x = choose|x: int| 0 <= x < all.len() && all[x] == i;
        assert forall|k: int| 0 <= k < q.len() implies !lex_lt(
            runs[i].finished_at->0,
            runs[#[trigger] q[k]].finished_at->0,
        ) by {
            if x < q.len() {
                assert(q[x] == i);
            }
            assert(q[k] == all[k]);
            assert(!lt(runs[all[x]], runs[all[k]]));
        }
    }
}

/// An archive keeps the run as it is, the name and text of its definition, its
/// own tasks by name and its own events by age, all of them and no other.
pub proof fn law_archive_keeps_the_runs_own(db: StoreView, r: WorkflowRunView, d: DefinitionView)
    ensures
        ({
            let a = archive_of(db, r, d);
            &&& a.run == r && a.definition_name == d.name && a.definition_spec == d.spec
            &&& a.tasks.len() == db.tasks.filter(|t: TaskRunView| t.run_id == r.id).len()
            &&& forall|k: int|
                0 <= k < a.tasks.len() ==> (#[trigger] a.tasks[k]).run_id == r.id && db.tasks.contains(a.tasks[k])
            &&& forall|i: int|
                0 <= i < db.tasks.len() && (#[trigger] db.tasks[i]).run_id == r.id ==> a.tasks.contains(
                    db.tasks[i],
                )
            &&& forall|x: int, y: int|
                0 <= x < y < a.tasks.len() ==> !lex_lt((#[trigger] a.tasks[y]).name, (#[trigger] a.tasks[x]).name)
            &&& a.outbox_events.len() == db.outbox.filter(|e: OutboxRowView| e.run_id == r.id).len()
            &&& forall|k: int|
                0 <= k < a.outbox_events.len() ==> (#[trigger] a.outbox_events[k]).run_id == r.id
                    && db.outbox.contains(a.outbox_events[k])
            &&& forall|i: int|
                0 <= i < db.outbox.len() && (#[trigger] db.outbox[i]).run_id == r.id ==> a.outbox_events.contains(
                    db.outbox[i],
                )
            &&& forall|x: int, y: int|
                0 <= x < y < a.outbox_events.len() ==> !lex_lt(
                    (#[trigger] a.outbox_events[y]).created_at,
                    (#[trigger] a.outbox_events[x]).created_at,
                )
        }),
{
    let a = archive_of(db, r, d);
    let tp = |t: TaskRunView| t.run_id == r.id;
    let tl = |x: TaskRunView, y: TaskRunView| lex_lt(x.name, y.name);
    let ep = |e: OutboxRowView| e.run_id == r.id;
    let el = |x: OutboxRowView, y: OutboxRowView| lex_lt(x.created_at, y.created_at);
    lemma_text_order(|t: TaskRunView| t.name, tl);
    lemma_text_order(|e: OutboxRowView| e.created_at, el);
    lemma_read(db.tasks, tp, tl);
    lemma_read(db.outbox, ep, el);
    assert(a.tasks == crate::order::rows_at(db.tasks, ordered(db.tasks, tp, tl, db.tasks.len() as int)));
    assert(a.outbox_events == crate::order::rows_at(
        db.outbox,
        ordered(db.outbox, ep, el, db.outbox.len() as int),
    ));
    assert forall|k: int| 0 <= k < a.tasks.len() implies (#[trigger] a.tasks[k]).run_id == r.id by {
        assert(tp(a.tasks[k]));
    }
    assert forall|k: int| 0 <= k < a.outbox_events.len() implies (#[trigger] a.outbox_events[k]).run_id
        == r.id by {
        assert(ep(a.outbox_events[k]));
    }
    assert forall|i: int| 0 <= i < db.tasks.len() && (#[trigger] db.tasks[i]).run_id == r.id implies a.tasks.contains(
        db.tasks[i],
    ) by {
        assert(tp(db.tasks[i]));
    }
    assert forall|i: int|
        0 <= i < db.outbox.len() && (#[trigger] db.outbox[i]).run_id == r.id implies a.outbox_events.contains(
        db.outbox[i],
    ) by {
        assert(ep(db.outbox[i]));
    }
    assert forall|x: int, y: int| 0 <= x < y < a.tasks.len() implies !lex_lt(
        (#[trigger] a.tasks[y]).name,
        (#[trigger] a.tasks[x]).name,
    ) by {
        assert(!tl(a.tasks[y], a.tasks[x]));
    }
    assert forall|x: int, y: int| 0 <= x < y < a.outbox_events.len() implies !lex_lt(
        (#[trigger] a.outbox_events[y]).created_at,
        (#[trigger] a.outbox_events[x]).created_at,
    ) by {
        assert(!el(a.outbox_events[y], a.outbox_events[x]));
    }
}

/// A sorted read of all rows that pass a filter, as rows.
proof fn lemma_read<V>(rows: Seq<V>, p: spec_fn(V) -> bool, lt: spec_fn(V, V) -> bool)
    requires
        weak_order(lt),
    ensures
        ({
            let out = crate::order::rows_at(rows, ordered(rows, p, lt, rows.len() as int));
            &&& out.len() == rows.filter(p).len()
            &&& forall|k: int| 0 <= k < out.len() ==> p(#[trigger] out[k]) && rows.contains(out[k])
            &&& forall|i: int| 0 <= i < rows.len() && p(#[trigger] rows[i]) ==> out.contains(rows[i])
            &&& forall|x: int, y: int| 0 <= x < y < out.len() ==> !lt(#[trigger] out[y], #[trigger] out[x])
        }),
{
    let n = rows.len() as int;
    let q = ordered(rows, p, lt, n);
    let out = crate::order::rows_at(rows, q);
    law_sorted_read(rows, p, lt);
    lemma_ordered_len(rows, p, lt, n);
    assert(rows.take(n) =~= rows);
    lemma_count_filter(rows, p);
    assert forall|k: int| 0 <= k < out.len() implies p(#[trigger] out[k]) && rows.contains(out[k]) by {
        assert(q.contains(q[k]));
        assert(rows[q[k]] == out[k]);
    }
    assert forall|i: int| 0 <= i < rows.len() && p(#[trigger] rows[i]) implies out.contains(rows[i]) by {
        assert(q.contains(i));
        let k = choose|k: int| 0 <= k < q.len() && q[k] == i;
        assert(out[k] == rows[i]);
    }
    assert forall|x: int, y: int| 0 <= x < y < out.len() implies !lt(#[trigger] out[y], #[trigger] out[x]) by {
        assert(!lt(rows[q[y]], rows[q[x]]));
    }
}

/// Each archive is that of a run on the list, with the definition that the run
/// names.
pub proof fn law_archive_has_the_runs_definition(db: StoreView, q: Seq<int>, k: int, d: int)
    requires
        0 <= k < q.len(),
        0 <= d < db.definitions.len(),
        db.definitions[d].id == db.runs[q[k]].definition_id,
        forall|j: int| 0 <= j < d ==> (#[trigger] db.definitions[j]).id != db.runs[q[k]].definition_id,
    ensures
        archives(db, q).len() == q.len(),
        archives(db, q)[k] == archive_of(db, db.runs[q[k]], db.definitions[d]),
        definition_with(db.definitions, db.runs[q[k]].definition_id) == Some(db.definitions[d]),
{
    law_first_row(db.definitions, |x: DefinitionView| x.id == db.runs[q[k]].definition_id, d);
}

/// The index tells of an archived run what it is told, and when; it forgets
/// nothing of a compaction. Other entries stay.
pub proof fn law_index_tells_of_the_run(
    archived: Seq<ArchivedRunView>,
    run_id: Seq<char>,
    e: ArchiveEntry,
    now: Seq<char>,
    i: int,
)
    requires
        0 <= i < archived.len(),
    ensures
        ({
            let after = indexed(archived, run_id, e, now);
            let known = exists|k: int| 0 <= k < archived.len() && (#[trigger] archived[k]).run_id == run_id;
            let a = archived[i];
            &&& after.len() == archived.len() + (if known { 0int } else { 1 })
            &&& after[i] == (if a.run_id == run_id {
                ArchivedRunView {
                    run_id,
                    name: e.name,
                    status: e.status,
                    created_at: e.created_at,
                    finished_at: e.finished_at,
                    archived_at: now,
                    compacted_at: a.compacted_at,
                    parquet_path: a.parquet_path,
                }
            } else {
                a
            })
            &&& !known ==> after.last() == (ArchivedRunView {
                run_id,
                name: e.name,
                status: e.status,
                created_at: e.created_at,
                finished_at: e.finished_at,
                archived_at: now,
                compacted_at: None,
                parquet_path: None,
            })
        }),
{
    let p = |a: ArchivedRunView| a.run_id == run_id;
    if exists|k: int| 0 <= k < archived.len() && (#[trigger] archived[k]).run_id == run_id {
        let k = choose|k: int| 0 <= k < archived.len() && (#[trigger] archived[k]).run_id == run_id;
        assert(p(archived[k]));
    }
}

/// A compaction notes where and when on the entries of its runs, and on no
/// other; it counts the entries of each run that it names.
pub proof fn law_compaction_marks_its_runs(
    archived: Seq<ArchivedRunView>,
    ids: Seq<Seq<char>>,
    path: Seq<char>,
    now: Seq<char>,
    n: int,
)
    requires
        0 <= n <= ids.len(),
    ensures
        ({
            let after = compacted(archived, ids, path, now, n);
            &&& after.0.len() == archived.len()
            &&& forall|i: int|
                0 <= i < archived.len() ==> #[trigger] after.0[i] == (if ids.take(n).contains(archived[i].run_id) {
                    ArchivedRunView { compacted_at: Some(now), parquet_path: Some(path), ..archived[i] }
                } else {
                    archived[i]
                })
            &&& n == 0 ==> after.1 == 0
            &&& n > 0 ==> after.1 == compacted(archived, ids, path, now, n - 1).1 + archived.filter(
                |a: ArchivedRunView| a.run_id == ids[n - 1],
            ).len()
        }),
    decreases n,
{
    let after = compacted(archived, ids, path, now, n);
    if n > 0 {
        law_compaction_marks_its_runs(archived, ids, path, now, n - 1);
        let rest = compacted(archived, ids, path, now, n - 1).0;
        let id = ids[n - 1];
        let p = |a: ArchivedRunView| a.run_id == id;
        assert(ids.take(n) =~= ids.take(n - 1).push(id));
        assert forall|i: int| 0 <= i < archived.len() implies #[trigger] after.0[i] == (if ids.take(n).contains(
            archived[i].run_id,
        ) {
            ArchivedRunView { compacted_at: Some(now), parquet_path: Some(path), ..archived[i] }
        } else {
            archived[i]
        }) by {
            let was = rest[i];
            assert(was.run_id == archived[i].run_id);
            if archived[i].run_id == id {
                assert(ids.take(n)[n - 1] == id);
            } else if ids.take(n).contains(archived[i].run_id) {
                let k = choose|k: int| 0 <= k < n && ids.take(n)[k] == archived[i].run_id;
                assert(ids.take(n - 1)[k] == archived[i].run_id);
            } else if ids.take(n - 1).contains(archived[i].run_id) {
                let before = ids.take(n - 1);
                let k = choose|k: int| 0 <= k < before.len() && before[k] == archived[i].run_id;
                assert(ids.take(n)[k] == archived[i].run_id);
            }
        }
        assert forall|i: int| 0 <= i < rest.len() implies p(#[trigger] rest[i]) == p(archived[i]) by {}
        lemma_count_twins(rest, archived, p);
        lemma_count_filter(archived, p);
    }
}

proof fn lemma_count_twins<V>(a: Seq<V>, b: Seq<V>, p: spec_fn(V) -> bool)
    requires
        a.len() == b.len(),
        forall|i: int| 0 <= i < a.len() ==> p(#[trigger] a[i]) == p(b[i]),
    ensures
        count(a, p) == count(b, p),
    decreases a.len(),
{
    if a.len() > 0 {
        assert forall|i: int| 0 <= i < a.drop_last().len() implies p(#[trigger] a.drop_last()[i]) == p(
            b.drop_last()[i],
        ) by {
            assert(a.drop_last()[i] == a[i]);
        }
        lemma_count_twins(a.drop_last(), b.drop_last(), p);
        assert(p(a[a.len() - 1]) == p(b[b.len() - 1]));
    }
}

// ── Removal ──────────────────────────────────────────────────────────────────

proof fn lemma_kept<V>(rows: Seq<V>, p: spec_fn(V) -> bool, v: V)
    ensures
        rows.filter(p).contains(v) <==> rows.contains(v) && p(v),
{
    broadcast use vstd::seq_lib::group_filter_ensures;

    if rows.filter(p).contains(v) {
        let k = choose|k: int| 0 <= k < rows.filter(p).len() && rows.filter(p)[k] == v;
        lemma_filter_from(rows, p, k);
    }
    if rows.contains(v) && p(v) {
        let k = choose|k: int| 0 <= k < rows.len() && rows[k] == v;
        assert(p(rows[k]));
    }
}

/// The id is that of a run that is over before the cutoff.
pub open spec fn id_over_before(runs: Seq<WorkflowRunView>, cutoff: Seq<char>, id: Seq<char>) -> bool {
    exists|k: int| 0 <= k < runs.len() && (#[trigger] runs[k]).id == id && over_before(runs[k], cutoff)
}

/// The id is on the list and that of a run that is over.
pub open spec fn id_over(runs: Seq<WorkflowRunView>, ids: Seq<Seq<char>>, id: Seq<char>) -> bool {
    ids.contains(id) && exists|k: int| 0 <= k < runs.len() && (#[trigger] runs[k]).id == id && run_over(runs[k])
}

/// What a removal of runs leaves: the other runs, the tasks of runs that stay,
/// the edges of those tasks, and the definitions that a run is left of. Nothing
/// else is touched.
pub open spec fn leaves(
    db: StoreView,
    after: StoreView,
    gone: spec_fn(WorkflowRunView) -> bool,
    ids: spec_fn(Seq<char>) -> bool,
    r: WorkflowRunView,
    t: TaskRunView,
    e: EdgeView,
    d: DefinitionView,
) -> bool {
    &&& after == (StoreView {
        runs: after.runs,
        tasks: after.tasks,
        edges: after.edges,
        definitions: after.definitions,
        ..db
    })
    &&& after.runs.contains(r) <==> db.runs.contains(r) && !gone(r)
    &&& after.tasks.contains(t) <==> db.tasks.contains(t) && !ids(t.run_id)
    &&& after.edges.contains(e) <==> db.edges.contains(e) && forall|k: int|
        0 <= k < db.tasks.len() && (#[trigger] db.tasks[k]).id == e.dependent_id ==> !ids(db.tasks[k].run_id)
    &&& after.definitions.contains(d) <==> db.definitions.contains(d) && exists|k: int|
        0 <= k < db.runs.len() && !gone(#[trigger] db.runs[k]) && db.runs[k].definition_id == d.id
}

proof fn lemma_leaves(
    db: StoreView,
    gone: spec_fn(WorkflowRunView) -> bool,
    ids: spec_fn(Seq<char>) -> bool,
    r: WorkflowRunView,
    t: TaskRunView,
    e: EdgeView,
    d: DefinitionView,
)
    ensures
        leaves(db, without_runs(db, gone, ids), gone, ids, r, t, e, d),
{
    let after = without_runs(db, gone, ids);
    let rp = |r: WorkflowRunView| !gone(r);
    let ep = |e: EdgeView| !any(db.tasks, |t: TaskRunView| t.id == e.dependent_id && ids(t.run_id));
    let dp = |d: DefinitionView| any(after.runs, |r: WorkflowRunView| r.definition_id == d.id);
    lemma_kept(db.runs, rp, r);
    lemma_kept(db.tasks, |t: TaskRunView| !ids(t.run_id), t);
    lemma_kept(db.edges, ep, e);
    lemma_kept(db.definitions, dp, d);
    let h = |t: TaskRunView| t.id == e.dependent_id && ids(t.run_id);
    assert(ep(e) == !any(db.tasks, h));
    if any(db.tasks, h) {
        let k = choose|k: int| 0 <= k < db.tasks.len() && h(#[trigger] db.tasks[k]);
        assert(db.tasks[k].id == e.dependent_id);
    } else {
        assert forall|k: int| 0 <= k < db.tasks.len() && (#[trigger] db.tasks[k]).id == e.dependent_id implies !ids(
            db.tasks[k].run_id,
        ) by {
            assert(!h(db.tasks[k]));
        }
    }
    let g = |r: WorkflowRunView| r.definition_id == d.id;
    assert(dp(d) == any(after.runs, g));
    if any(after.runs, g) {
        let k = choose|k: int| 0 <= k < after.runs.len() && g(#[trigger] after.runs[k]);
        lemma_filter_from(db.runs, rp, k);
        let j = choose|j: int| 0 <= j < db.runs.len() && db.runs[j] == after.runs[k];
        assert(!gone(db.runs[j]));
    }
    if exists|k: int| 0 <= k < db.runs.len() && !gone(#[trigger] db.runs[k]) && db.runs[k].definition_id == d.id {
        let k = choose|k: int|
            0 <= k < db.runs.len() && !gone(#[trigger] db.runs[k]) && db.runs[k].definition_id == d.id;
        lemma_kept(db.runs, rp, db.runs[k]);
        assert(after.runs.contains(db.runs[k]));
        let j = choose|j: int| 0 <= j < after.runs.len() && after.runs[j] == db.runs[k];
        assert(g(after.runs[j]));
    }
}

/// Collection removes the runs that were over before the cutoff and counts them.
pub proof fn law_collection_removes_the_old(
    db: StoreView,
    cutoff: Seq<char>,
    r: WorkflowRunView,
    t: TaskRunView,
    e: EdgeView,
    d: DefinitionView,
)
    ensures
        leaves(
            db,
            without_runs(
                db,
                |r: WorkflowRunView| expired(r, cutoff),
                |id: Seq<char>| expired_id(db.runs, cutoff, id),
            ),
            |r: WorkflowRunView| over_before(r, cutoff),
            |id: Seq<char>| id_over_before(db.runs, cutoff, id),
            r,
            t,
            e,
            d,
        ),
        count(db.runs, |r: WorkflowRunView| expired(r, cutoff)) == db.runs.filter(
            |r: WorkflowRunView| over_before(r, cutoff),
        ).len(),
{
    let gone = |r: WorkflowRunView| expired(r, cutoff);
    let ids = |id: Seq<char>| expired_id(db.runs, cutoff, id);
    let want = |r: WorkflowRunView| over_before(r, cutoff);
    let wids = |id: Seq<char>| id_over_before(db.runs, cutoff, id);
    assert(gone =~= want);
    assert forall|id: Seq<char>| #[trigger] ids(id) == wids(id) by {
        let p = |r: WorkflowRunView| r.id == id && expired(r, cutoff);
        if any(db.runs, p) {
            let k = choose|k: int| 0 <= k < db.runs.len() && p(#[trigger] db.runs[k]);
            assert(db.runs[k].id == id && over_before(db.runs[k], cutoff));
        }
        if id_over_before(db.runs, cutoff, id) {
            let k = choose|k: int|
                0 <= k < db.runs.len() && (#[trigger] db.runs[k]).id == id && over_before(db.runs[k], cutoff);
            assert(p(db.runs[k]));
        }
    }
    assert(ids =~= wids);
    lemma_leaves(db, gone, ids, r, t, e, d);
    lemma_count_filter(db.runs, gone);
}

/// A purge removes the runs on its list that are over and counts them.
pub proof fn law_purge_removes_what_is_over(
    db: StoreView,
    list: Seq<Seq<char>>,
    r: WorkflowRunView,
    t: TaskRunView,
    e: EdgeView,
    d: DefinitionView,
)
    ensures
        leaves(
            db,
            without_runs(
                db,
                |r: WorkflowRunView| purgeable(db.runs, list, r.id),
                |id: Seq<char>| purgeable(db.runs, list, id),
            ),
            |r: WorkflowRunView| id_over(db.runs, list, r.id),
            |id: Seq<char>| id_over(db.runs, list, id),
            r,
            t,
            e,
            d,
        ),
        count(db.runs, |r: WorkflowRunView| purgeable(db.runs, list, r.id)) == db.runs.filter(
            |r: WorkflowRunView| id_over(db.runs, list, r.id),
        ).len(),
{
    let gone = |r: WorkflowRunView| purgeable(db.runs, list, r.id);
    let ids = |id: Seq<char>| purgeable(db.runs, list, id);
    let want = |r: WorkflowRunView| id_over(db.runs, list, r.id);
    let wids = |id: Seq<char>| id_over(db.runs, list, id);
    assert forall|id: Seq<char>| #[trigger] ids(id) == wids(id) by {
        let p = |r: WorkflowRunView| crate::reruns::finished_run(r, id);
        if any(db.runs, p) {
            let k = choose|k: int| 0 <= k < db.runs.len() && p(#[trigger] db.runs[k]);
            assert(db.runs[k].id == id && run_over(db.runs[k]));
        }
        if id_over(db.runs, list, id) {
            let k = choose|k: int|
                0 <= k < db.runs.len() && (#[trigger] db.runs[k]).id == id && run_over(db.runs[k]);
            assert(p(db.runs[k]));
        }
    }
    assert(ids =~= wids);
    assert forall|r: WorkflowRunView| #[trigger] gone(r) == want(r) by {
        assert(ids(r.id) == wids(r.id));
    }
    assert(gone =~= want);
    lemma_leaves(db, gone, ids, r, t, e, d);
    lemma_count_filter(db.runs, gone);
}

// ── Listings ─────────────────────────────────────────────────────────────────

/// What belongs to a run is what its definition says: the definition with the
/// id on the run.
pub proof fn law_definition_is_the_runs_own(db: StoreView, k: int, d: int)
    requires
        0 <= k < db.runs.len(),
        forall|j: int| 0 <= j < k ==> (#[trigger] db.runs[j]).id != db.runs[k].id,
        0 <= d < db.definitions.len(),
        db.definitions[d].id == db.runs[k].definition_id,
        forall|j: int| 0 <= j < d ==> (#[trigger] db.definitions[j]).id != db.runs[k].definition_id,
    ensures
        definition_of(db, db.runs[k].id) == Some(db.definitions[d]),
{
    law_first_row(db.runs, |r: WorkflowRunView| r.id == db.runs[k].id, k);
    law_first_row(db.definitions, |x: DefinitionView| x.id == db.runs[k].definition_id, d);
}

/// There is no definition where there is no such run.
pub proof fn law_no_definition_without_a_run(db: StoreView, id: Seq<char>)
    requires
        forall|j: int| 0 <= j < db.runs.len() ==> (#[trigger] db.runs[j]).id != id,
    ensures
        definition_of(db, id) is None,
{
    law_first_row(db.runs, |r: WorkflowRunView| r.id == id, db.runs.len() as int);
}

/// The run has a definition and is in the state asked for, or any is asked for.
pub open spec fn belongs_in_listing(db: StoreView, r: WorkflowRunView, status: Option<RunStatus>) -> bool {
    &&& exists|d: int| 0 <= d < db.definitions.len() && (#[trigger] db.definitions[d]).id == r.definition_id
    &&& status matches Some(s) ==> r.status == s
}

/// A listing has the runs that belong in it, the newest first, up to the limit,
/// and shows of each its own id, state and times.
pub proof fn law_listing_shows_the_newest(db: StoreView, status: Option<RunStatus>, limit: int, i: int)
    requires
        0 <= i < db.runs.len(),
    ensures
        ({
            let q = listed_runs(db, status, limit);
            let out = summaries(db, q);
            let all = db.runs.filter(|r: WorkflowRunView| belongs_in_listing(db, r, status)).len();
            &&& q.no_duplicates()
            &&& q.len() == (if limit < 0 || limit >= all { all as int } else { limit })
            &&& q.contains(i) ==> belongs_in_listing(db, db.runs[i], status)
            &&& belongs_in_listing(db, db.runs[i], status) && !q.contains(i) ==> forall|k: int|
                0 <= k < q.len() ==> !lex_lt(db.runs[#[trigger] q[k]].created_at, db.runs[i].created_at)
            &&& forall|a: int, b: int|
                0 <= a < b < q.len() ==> !lex_lt(
                    db.runs[#[trigger] q[a]].created_at,
                    db.runs[#[trigger] q[b]].created_at,
                )
            &&& out.len() == q.len()
            &&& forall|k: int|
                0 <= k < q.len() ==> {
                    let r = db.runs[q[k]];
                    let s = #[trigger] out[k];
                    &&& s.id == r.id && s.status == r.status
                    &&& s.created_at == r.created_at && s.finished_at == r.finished_at
                    &&& exists|d: int|
                        0 <= d < db.definitions.len() && (#[trigger] db.definitions[d]).id == r.definition_id
                            && db.definitions[d].name == s.name
                }
        }),
{
    let want = |r: WorkflowRunView| belongs_in_listing(db, r, status);
    let p = |r: WorkflowRunView| crate::queries::listed(db.definitions, r, status);
    assert forall|r: WorkflowRunView| #[trigger] p(r) == want(r) by {
        let h = |d: DefinitionView| d.id == r.definition_id;
        crate::order::lemma_first(db.definitions, h);
        if want(r) {
            let d = choose|d: int|
                0 <= d < db.definitions.len() && (#[trigger] db.definitions[d]).id == r.definition_id;
            assert(h(db.definitions[d]));
        }
        if p(r) {
            let d = choose|d: int| 0 <= d < db.definitions.len() && h(#[trigger] db.definitions[d]);
            assert(db.definitions[d].id == r.definition_id);
        }
    }
    assert(p =~= want);
    let lt = |a: WorkflowRunView, b: WorkflowRunView| lex_lt(b.created_at, a.created_at);
    let up = |a: WorkflowRunView, b: WorkflowRunView| lex_lt(a.created_at, b.created_at);
    lemma_text_order(|r: WorkflowRunView| r.created_at, up);
    assert(weak_order(lt)) by {
        assert forall|a: WorkflowRunView, b: WorkflowRunView| #[trigger] lt(a, b) implies !lt(b, a) by {
            assert(up(b, a));
        }
        assert forall|a: WorkflowRunView, b: WorkflowRunView, c: WorkflowRunView| #[trigger]
            lt(a, c) implies #[trigger] lt(a, b) || lt(b, c) by {
            assert(up(c, a));
            assert(up(c, b) || up(b, a));
        }
    }
    let n = db.runs.len() as int;
    let all = ordered(db.runs, p, lt, n);
    let q = listed_runs(db, status, limit);
    let out = summaries(db, q);
    lemma_ordered_members(db.runs, p, lt, n);
    lemma_ordered_sorted(db.runs, p, lt, n);
    lemma_ordered_len(db.runs, p, lt, n);
    assert(db.runs.take(n) =~= db.runs);
    lemma_count_filter(db.runs, p);
    assert forall|a: int, b: int| 0 <= a < b < q.len() implies !lex_lt(
        db.runs[#[trigger] q[a]].created_at,
        db.runs[#[trigger] q[b]].created_at,
    ) by {
        assert(q[a] == all[a] && q[b] == all[b]);
        assert(!lt(db.runs[all[b]], db.runs[all[a]]));
    }
    if q.contains(i) {
        let k = choose|k: int| 0 <= k < q.len() && q[k] == i;
        assert(all.contains(all[k]));
    }
    if want(db.runs[i]) && !q.contains(i) {
        assert(all.contains(i));
        let x = choose|x: int| 0 <= x < all.len() && all[x] == i;
        assert forall|k: int| 0 <= k < q.len() implies !lex_lt(
            db.runs[#[trigger] q[k]].created_at,
            db.runs[i].created_at,
        ) by {
            if x < q.len() {
                assert(q[x] == i);
            }
            assert(q[k] == all[k]);
            assert(!lt(db.runs[all[x]], db.runs[all[k]]));
        }
    }
    assert forall|k: int| 0 <= k < q.len() implies ({
        let r = db.runs[q[k]];
        let s = #[trigger] out[k];
        &&& s.id == r.id && s.status == r.status
        &&& s.created_at == r.created_at && s.finished_at == r.finished_at
        &&& exists|d: int|
            0 <= d < db.definitions.len() && (#[trigger] db.definitions[d]).id == r.definition_id
                && db.definitions[d].name == s.name
    }) by {
        assert(q[k] == all[k]);
        assert(all.contains(all[k]));
        let r = db.runs[q[k]];
        assert(p(r));
        let h = |d: DefinitionView| d.id == r.definition_id;
        crate::laws::sweeps::lemma_first_at(db.definitions, h);
        let v = first(db.definitions, h)->0;
        let d = choose|d: int|
            0 <= d < db.definitions.len() && #[trigger] db.definitions[d] == v && h(v) && forall|j: int|
                0 <= j < d ==> !h(#[trigger] db.definitions[j]);
        assert(db.definitions[d].id == r.definition_id);
    }
}

/// A filter names the state whose text it is, and the complaint about one that
/// names none quotes it.
pub proof fn law_filter_names_a_state(s: Seq<char>)
    ensures
        forall|st: RunStatus| #[trigger] names_status(s, st) <==> s == (match st {
            RunStatus::Pending => "pending"@,
            RunStatus::Running => "running"@,
            RunStatus::Succeeded => "succeeded"@,
            RunStatus::Failed => "failed"@,
            RunStatus::Cancelled => "cancelled"@,
        }),
        bad_filter(s) == "invalid run status filter '"@ + s + "'"@,
{
}

// ── Counts ───────────────────────────────────────────────────────────────────

/// An entry of a tally, or none where nothing was counted.
pub open spec fn entry(name: Seq<char>, n: nat) -> Seq<(Seq<char>, nat)> {
    if n > 0 { seq![(name, n)] } else { Seq::empty() }
}

/// How many runs are in a state.
pub open spec fn runs_in(runs: Seq<WorkflowRunView>, status: RunStatus) -> nat {
    runs.filter(|r: WorkflowRunView| r.status == status).len()
}

/// How many tasks are in a state.
pub open spec fn tasks_in(tasks: Seq<TaskRunView>, status: TaskStatus) -> nat {
    tasks.filter(|t: TaskRunView| t.status == status).len()
}

proof fn lemma_run_tally(runs: Seq<WorkflowRunView>, n: int)
    requires
        0 < n <= run_states().len(),
    ensures
        run_tally(runs, n) == run_tally(runs, n - 1) + entry(
            run_states()[n - 1].text(),
            runs_in(runs, run_states()[n - 1]),
        ),
{
    let status = run_states()[n - 1];
    lemma_count_filter(runs, |r: WorkflowRunView| r.status == status);
}

proof fn lemma_task_tally(tasks: Seq<TaskRunView>, n: int)
    requires
        0 < n <= task_states().len(),
    ensures
        task_tally(tasks, n) == task_tally(tasks, n - 1) + entry(
            task_states()[n - 1].text(),
            tasks_in(tasks, task_states()[n - 1]),
        ),
{
    let status = task_states()[n - 1];
    lemma_count_filter(tasks, |t: TaskRunView| t.status == status);
}

/// The counts have one entry for each state that any run, or any task, is in:
/// its text and how many there are, by text.
pub proof fn law_counts_are_by_state(runs: Seq<WorkflowRunView>, tasks: Seq<TaskRunView>)
    ensures
        run_tally(runs, run_states().len() as int) == entry("cancelled"@, runs_in(runs, RunStatus::Cancelled))
            + entry("failed"@, runs_in(runs, RunStatus::Failed)) + entry(
            "pending"@,
            runs_in(runs, RunStatus::Pending),
        ) + entry("running"@, runs_in(runs, RunStatus::Running)) + entry(
            "succeeded"@,
            runs_in(runs, RunStatus::Succeeded),
        ),
        task_tally(tasks, task_states().len() as int) == entry(
            "awaiting_approval"@,
            tasks_in(tasks, TaskStatus::AwaitingApproval),
        ) + entry("cancelled"@, tasks_in(tasks, TaskStatus::Cancelled)) + entry(
            "failed"@,
            tasks_in(tasks, TaskStatus::Failed),
        ) + entry("pending"@, tasks_in(tasks, TaskStatus::Pending)) + entry(
            "ready"@,
            tasks_in(tasks, TaskStatus::Ready),
        ) + entry("running"@, tasks_in(tasks, TaskStatus::Running)) + entry(
            "skipped"@,
            tasks_in(tasks, TaskStatus::Skipped),
        ) + entry("succeeded"@, tasks_in(tasks, TaskStatus::Succeeded)),
{
    lemma_run_tally(runs, 1);
    lemma_run_tally(runs, 2);
    lemma_run_tally(runs, 3);
    lemma_run_tally(runs, 4);
    lemma_run_tally(runs, 5);
    lemma_task_tally(tasks, 1);
    lemma_task_tally(tasks, 2);
    lemma_task_tally(tasks, 3);
    lemma_task_tally(tasks, 4);
    lemma_task_tally(tasks, 5);
    lemma_task_tally(tasks, 6);
    lemma_task_tally(tasks, 7);
    lemma_task_tally(tasks, 8);
    let none = Seq::<(Seq<char>, nat)>::empty();
    assert(run_tally(runs, 0) == none);
    assert(task_tally(tasks, 0) == none);
    assert(none + entry("cancelled"@, runs_in(runs, RunStatus::Cancelled)) =~= entry(
        "cancelled"@,
        runs_in(runs, RunStatus::Cancelled),
    ));
    assert(none + entry("awaiting_approval"@, tasks_in(tasks, TaskStatus::AwaitingApproval)) =~= entry(
        "awaiting_approval"@,
        tasks_in(tasks, TaskStatus::AwaitingApproval),
    ));
}

/// The earliest schedule among the rows that satisfy `p`.
pub proof fn lemma_earliest(tasks: Seq<TaskRunView>, p: spec_fn(TaskRunView) -> bool, n: int)
    requires
        0 <= n <= tasks.len(),
    ensures
        match earliest(tasks, p, n) {
            Some(at) => (exists|k: int| 0 <= k < n && p(#[trigger] tasks[k]) && tasks[k].scheduled_at == Some(at))
                && forall|k: int|
                0 <= k < n && p(#[trigger] tasks[k]) ==> (tasks[k].scheduled_at matches Some(x) ==> !lex_lt(
                    x,
                    at,
                )),
            None => forall|k: int| 0 <= k < n && p(#[trigger] tasks[k]) ==> tasks[k].scheduled_at is None,
        },
    decreases n,
{
    if n > 0 {
        lemma_earliest(tasks, p, n - 1);
        let t = tasks[n - 1];
        assert(p(t) || !p(t));
        match (t.scheduled_at, earliest(tasks, p, n - 1)) {
            (Some(x), Some(at)) => {
                crate::text::lemma_lex_irreflexive(x);
                if p(t) && lex_lt(x, at) {
                    assert forall|k: int| 0 <= k < n && p(#[trigger] tasks[k]) implies (
                    tasks[k].scheduled_at matches Some(y) ==> !lex_lt(y, x)) by {
                        if k < n - 1 && tasks[k].scheduled_at is Some {
                            let y = tasks[k].scheduled_at->0;
                            if lex_lt(y, x) {
                                crate::text::lemma_lex_transitive(y, x, at);
                            }
                        }
                    }
                    assert(p(tasks[n - 1]) && tasks[n - 1].scheduled_at == Some(x));
                } else {
                    let k = choose|k: int|
                        0 <= k < n - 1 && p(#[trigger] tasks[k]) && tasks[k].scheduled_at == Some(at);
                    assert(p(tasks[k]));
                }
            },
            (Some(x), None) => {
                crate::text::lemma_lex_irreflexive(x);
            },
            (None, Some(at)) => {
                let k = choose|k: int|
                    0 <= k < n - 1 && p(#[trigger] tasks[k]) && tasks[k].scheduled_at == Some(at);
                assert(p(tasks[k]));
            },
            _ => {},
        }
    }
}

/// The backlog of a class counts its ready tasks and says since when the oldest
/// of them has waited.
pub proof fn law_backlog_counts_ready_tasks(tasks: Seq<TaskRunView>, class: Seq<char>)
    ensures
        ({
            let waits = |t: TaskRunView| t.status == TaskStatus::Ready && t.runner_class == class;
            let b = backlog_of(tasks, class);
            &&& b.runner_class == class
            &&& b.count == tasks.filter(waits).len()
            &&& match b.oldest_scheduled_at {
                Some(at) => (exists|k: int|
                    0 <= k < tasks.len() && waits(#[trigger] tasks[k]) && tasks[k].scheduled_at == Some(at))
                    && forall|k: int|
                    0 <= k < tasks.len() && waits(#[trigger] tasks[k]) ==> (tasks[k].scheduled_at matches Some(
                        x,
                    ) ==> !lex_lt(x, at)),
                None => forall|k: int|
                    0 <= k < tasks.len() && waits(#[trigger] tasks[k]) ==> tasks[k].scheduled_at is None,
            }
        }),
{
    let waits = |t: TaskRunView| t.status == TaskStatus::Ready && t.runner_class == class;
    let p = |t: TaskRunView| crate::queries::ready_in(t, class);
    assert(p =~= waits);
    lemma_count_filter(tasks, p);
    lemma_earliest(tasks, p, tasks.len() as int);
}

/// A backlog of the class is on the list.
spec fn shown(out: Seq<crate::queries::ReadyClassBacklogView>, class: Seq<char>) -> bool {
    exists|k: int| 0 <= k < out.len() && (#[trigger] out[k]).runner_class == class
}

/// The class is that of one of the first `n` places.
spec fn met(tasks: Seq<TaskRunView>, q: Seq<int>, n: int, class: Seq<char>) -> bool {
    exists|j: int| 0 <= j < n && tasks[#[trigger] q[j]].runner_class == class
}

proof fn lemma_backlog_classes(tasks: Seq<TaskRunView>, q: Seq<int>, n: int, class: Seq<char>)
    requires
        0 <= n <= q.len(),
    ensures
        shown(backlogs(tasks, q, n), class) <==> met(tasks, q, n, class),
        n > 0 ==> backlogs(tasks, q, n).len() > 0 && backlogs(tasks, q, n).last().runner_class
            == tasks[q[n - 1]].runner_class,
        forall|k: int|
            0 <= k < backlogs(tasks, q, n).len() ==> #[trigger] backlogs(tasks, q, n)[k] == backlog_of(
                tasks,
                backlogs(tasks, q, n)[k].runner_class,
            ),
    decreases n,
{
    let out = backlogs(tasks, q, n);
    if n > 0 {
        lemma_backlog_classes(tasks, q, n - 1, class);
        let rest = backlogs(tasks, q, n - 1);
        let last = tasks[q[n - 1]].runner_class;
        if shown(rest, class) {
            let k = choose|k: int| 0 <= k < rest.len() && (#[trigger] rest[k]).runner_class == class;
            assert(out[k].runner_class == class);
        }
        if met(tasks, q, n - 1, class) {
            let j = choose|j: int| 0 <= j < n - 1 && tasks[#[trigger] q[j]].runner_class == class;
            assert(tasks[q[j]].runner_class == class);
        }
        if last == class {
            assert(out[out.len() - 1].runner_class == class);
            assert(tasks[q[n - 1]].runner_class == class);
        }
        if shown(out, class) && !shown(rest, class) {
            let k = choose|k: int| 0 <= k < out.len() && (#[trigger] out[k]).runner_class == class;
            if k < rest.len() {
                assert(rest[k].runner_class == class);
            }
        }
        if met(tasks, q, n, class) && !met(tasks, q, n - 1, class) {
            let j = choose|j: int| 0 <= j < n && tasks[#[trigger] q[j]].runner_class == class;
            assert(j == n - 1);
        }
    }
}

proof fn lemma_backlogs_rise(tasks: Seq<TaskRunView>, q: Seq<int>, n: int)
    requires
        0 <= n <= q.len(),
        forall|a: int, b: int|
            0 <= a < b < q.len() ==> !lex_lt(
                tasks[#[trigger] q[b]].runner_class,
                tasks[#[trigger] q[a]].runner_class,
            ),
    ensures
        ({
            let out = backlogs(tasks, q, n);
            forall|a: int, b: int|
                0 <= a < b < out.len() ==> lex_lt((#[trigger] out[a]).runner_class, (#[trigger] out[b]).runner_class)
        }),
    decreases n,
{
    let out = backlogs(tasks, q, n);
    if n > 0 {
        lemma_backlogs_rise(tasks, q, n - 1);
        lemma_backlog_classes(tasks, q, n - 1, Seq::empty());
        let rest = backlogs(tasks, q, n - 1);
        let class = tasks[q[n - 1]].runner_class;
        if n >= 2 && tasks[q[n - 2]].runner_class == class {
            assert(out == rest);
        } else {
            assert(out == rest.push(backlog_of(tasks, class)));
            if n >= 2 {
                assert(!lex_lt(tasks[q[n - 1]].runner_class, tasks[q[n - 2]].runner_class));
                crate::text::lemma_lex_total(tasks[q[n - 2]].runner_class, class);
            }
            assert forall|x: int, y: int| 0 <= x < y < out.len() implies lex_lt(
                (#[trigger] out[x]).runner_class,
                (#[trigger] out[y]).runner_class,
            ) by {
                assert(out[x] == rest[x]);
                if y == rest.len() {
                    let last = rest[rest.len() - 1];
                    if x < rest.len() - 1 {
                        assert(lex_lt(rest[x].runner_class, last.runner_class));
                        crate::text::lemma_lex_transitive(rest[x].runner_class, last.runner_class, class);
                    }
                } else {
                    assert(out[y] == rest[y]);
                }
            }
        }
    }
}

/// There is one backlog for each class with a ready task, by class, and no other.
pub proof fn law_backlogs_are_by_class(tasks: Seq<TaskRunView>, class: Seq<char>)
    ensures
        ({
            let out = backlogs(tasks, by_class(tasks), by_class(tasks).len() as int);
            &&& forall|a: int, b: int|
                0 <= a < b < out.len() ==> lex_lt((#[trigger] out[a]).runner_class, (#[trigger] out[b]).runner_class)
            &&& forall|k: int| 0 <= k < out.len() ==> #[trigger] out[k] == backlog_of(tasks, out[k].runner_class)
            &&& (exists|k: int| 0 <= k < out.len() && (#[trigger] out[k]).runner_class == class) <==> (exists|i: int|
                0 <= i < tasks.len() && (#[trigger] tasks[i]).status == TaskStatus::Ready
                    && tasks[i].runner_class == class)
        }),
{
    let p = |t: TaskRunView| t.status == TaskStatus::Ready;
    let lt = |a: TaskRunView, b: TaskRunView| lex_lt(a.runner_class, b.runner_class);
    let q = by_class(tasks);
    let n = q.len() as int;
    let out = backlogs(tasks, q, n);
    lemma_text_order(|t: TaskRunView| t.runner_class, lt);
    law_sorted_read(tasks, p, lt);
    assert forall|a: int, b: int| 0 <= a < b < q.len() implies !lex_lt(
        tasks[#[trigger] q[b]].runner_class,
        tasks[#[trigger] q[a]].runner_class,
    ) by {
        assert(!lt(tasks[q[b]], tasks[q[a]]));
    }
    lemma_backlogs_rise(tasks, q, n);
    lemma_backlog_classes(tasks, q, n, class);
    if exists|k: int| 0 <= k < out.len() && (#[trigger] out[k]).runner_class == class {
        let k = choose|k: int| 0 <= k < out.len() && (#[trigger] out[k]).runner_class == class;
        assert(shown(out, class));
        let j = choose|j: int| 0 <= j < n && tasks[#[trigger] q[j]].runner_class == class;
        assert(q.contains(q[j]));
        assert(p(tasks[q[j]]));
    }
    if exists|i: int|
        0 <= i < tasks.len() && (#[trigger] tasks[i]).status == TaskStatus::Ready && tasks[i].runner_class == class {
        let i = choose|i: int|
            0 <= i < tasks.len() && (#[trigger] tasks[i]).status == TaskStatus::Ready && tasks[i].runner_class
                == class;
        assert(p(tasks[i]));
        assert(q.contains(i));
        let j = choose|j: int| 0 <= j < q.len() && q[j] == i;
        assert(tasks[q[j]].runner_class == class);
        assert(met(tasks, q, n, class));
    }
}

} // verus!
