//! Datasets: what an update leaves behind, and whom it wakes.
use vstd::prelude::*;
use crate::datasets::{
    arrival_open, arrivals, dataset_arrived, dataset_came, end_arrival, event_of, external_event,
    high_water, last_id, produced, run_of_task, top_event, updated_outside, updates_recorded,
    waits_for_dataset, Producer,
};
use crate::laws::advance::lemma_filter_from;
use crate::laws::reading::law_first_row;
use crate::laws::reruns::distinct_rows;
use crate::laws::sweeps::{ended_dependencies, lemma_ended_dependencies, lemma_row_sweep, Ending};
use crate::models::TaskStatus;
use crate::order::{lemma_ordered_members, places_where};
use crate::rows::{DatasetEventView, DatasetTriggerView, DatasetView, RegisteredWorkflowView, TaskRunView};
use crate::store::StoreView;
use crate::sweeps::{folded, taken};
use crate::table::{any, count, lemma_count_filter};
use crate::tasks::settled;
use crate::triggers::{
    all_moved, claim_fire, cursor_moved, due_fires, fire_claimed, fire_due, fire_of, fire_won, fresh, pruned,
    subscribed, synced, wins_fire, DatasetFireView,
};

verus! {

// ── The ledger ───────────────────────────────────────────────────────────────

proof fn lemma_top_event(events: Seq<DatasetEventView>, uri: Seq<char>, n: int)
    requires
        0 <= n <= events.len(),
    ensures
        match top_event(events, uri, n) {
            Some(id) => (exists|k: int| 0 <= k < n && (#[trigger] events[k]).uri == uri && events[k].id == id)
                && forall|k: int| 0 <= k < n && (#[trigger] events[k]).uri == uri ==> events[k].id <= id,
            None => forall|k: int| 0 <= k < n ==> (#[trigger] events[k]).uri != uri,
        },
    decreases n,
{
    if n > 0 {
        lemma_top_event(events, uri, n - 1);
        assert(events[n - 1].uri == uri || events[n - 1].uri != uri);
    }
}

/// The mark of a dataset is the highest id among its own events, or 0 where it
/// has none.
pub proof fn law_mark_is_the_datasets_own(events: Seq<DatasetEventView>, uri: Seq<char>)
    ensures
        (forall|k: int| 0 <= k < events.len() ==> (#[trigger] events[k]).uri != uri) ==> high_water(events, uri)
            == 0,
        (exists|k: int| 0 <= k < events.len() && (#[trigger] events[k]).uri == uri) ==> exists|k: int|
            0 <= k < events.len() && (#[trigger] events[k]).uri == uri && events[k].id == high_water(
                events,
                uri,
            ),
        forall|k: int|
            0 <= k < events.len() && (#[trigger] events[k]).uri == uri ==> events[k].id <= high_water(
                events,
                uri,
            ),
{
    lemma_top_event(events, uri, events.len() as int);
}

/// Ids are given out in order: the next is one past the highest, and 1 where no
/// event has a higher one.
pub proof fn law_ledger_ids_rise(events: Seq<DatasetEventView>, n: int)
    requires
        0 <= n <= events.len(),
    ensures
        last_id(events, n) >= 0,
        forall|k: int| 0 <= k < n ==> (#[trigger] events[k]).id <= last_id(events, n),
        last_id(events, n) > 0 ==> exists|k: int|
            0 <= k < n && (#[trigger] events[k]).id == last_id(events, n),
    decreases n,
{
    if n > 0 {
        law_ledger_ids_rise(events, n - 1);
        assert(events[n - 1].id == events[n - 1].id);
    }
}

/// An update of a dataset is counted on it and says who made it last. A dataset
/// that was not known comes to the registry with one update. The others stay.
pub proof fn law_update_is_counted(
    datasets: Seq<DatasetView>,
    uri: Seq<char>,
    run_id: Option<Seq<char>>,
    task: Seq<char>,
    now: Seq<char>,
    i: int,
)
    requires
        0 <= i < datasets.len(),
    ensures
        ({
            let by = produced(datasets, uri, run_id, task, now);
            let from = updated_outside(datasets, uri, now);
            let known = exists|k: int| 0 <= k < datasets.len() && (#[trigger] datasets[k]).uri == uri;
            let d = datasets[i];
            &&& by[i] == (if d.uri == uri {
                DatasetView {
                    uri,
                    updated_at: now,
                    last_run_id: run_id,
                    last_task: Some(task),
                    updates: d.updates + 1,
                }
            } else {
                d
            })
            &&& from[i] == (if d.uri == uri {
                DatasetView { updated_at: now, updates: d.updates + 1, ..d }
            } else {
                d
            })
            &&& by.len() == datasets.len() + (if known { 0int } else { 1 })
            &&& from.len() == by.len()
            &&& !known ==> by.last() == (DatasetView {
                uri,
                updated_at: now,
                last_run_id: run_id,
                last_task: Some(task),
                updates: 1,
            })
            &&& !known ==> from.last() == (DatasetView {
                uri,
                updated_at: now,
                last_run_id: None,
                last_task: None,
                updates: 1,
            })
        }),
{
    let p = |d: DatasetView| d.uri == uri;
    if exists|k: int| 0 <= k < datasets.len() && (#[trigger] datasets[k]).uri == uri {
        let k = choose|k: int| 0 <= k < datasets.len() && (#[trigger] datasets[k]).uri == uri;
        assert(p(datasets[k]));
    }
}

/// A task's updates come to the ledger one by one, in the order of its list,
/// each with an id past all before it; each dataset counts how often the list
/// names it. The ledger from before and everything else stay.
pub proof fn law_updates_are_recorded(
    db: StoreView,
    uris: Seq<Seq<char>>,
    by: Producer,
    now: Seq<char>,
    n: int,
    i: int,
)
    requires
        0 <= n <= uris.len(),
        0 <= i < db.datasets.len(),
    ensures
        ({
            let after = updates_recorded(db, uris, by, now, n);
            let was = db.dataset_events.len();
            &&& after == (StoreView {
                datasets: after.datasets,
                dataset_events: after.dataset_events,
                ..db
            })
            &&& after.dataset_events.len() == was + n
            &&& after.dataset_events.take(was as int) == db.dataset_events
            &&& forall|k: int|
                was <= k < was + n ==> {
                    let e = #[trigger] after.dataset_events[k];
                    &&& e.uri == uris[k - was] && e.source == "task"@ && e.at == now
                    &&& e.workflow == Some(by.workflow) && e.run_id == by.run_id
                    &&& e.task_id == Some(by.task_id) && e.task_name == Some(by.task_name)
                }
            &&& forall|j: int, k: int|
                0 <= j < k && was <= k < was + n ==> (#[trigger] after.dataset_events[j]).id < (
                #[trigger] after.dataset_events[k]).id
            &&& i < after.datasets.len()
            &&& after.datasets[i].uri == db.datasets[i].uri
            &&& after.datasets[i].updates == db.datasets[i].updates + uris.take(n).filter(
                |u: Seq<char>| u == db.datasets[i].uri,
            ).len()
        }),
    decreases n,
{
    let p = |u: Seq<char>| u == db.datasets[i].uri;
    let was = db.dataset_events.len() as int;
    if n > 0 {
        law_updates_are_recorded(db, uris, by, now, n - 1, i);
        let rest = updates_recorded(db, uris, by, now, n - 1);
        let after = updates_recorded(db, uris, by, now, n);
        law_update_is_counted(rest.datasets, uris[n - 1], by.run_id, by.task_name, now, i);
        law_ledger_ids_rise(rest.dataset_events, rest.dataset_events.len() as int);
        assert(after.dataset_events.take(was) =~= rest.dataset_events.take(was));
        assert(uris.take(n) =~= uris.take(n - 1).push(uris[n - 1]));
        reveal(Seq::filter);
        assert(uris.take(n).drop_last() =~= uris.take(n - 1));
        assert forall|j: int, k: int| 0 <= j < k && was <= k < was + n implies (
        #[trigger] after.dataset_events[j]).id < (#[trigger] after.dataset_events[k]).id by {
            assert(after.dataset_events[j] == rest.dataset_events[j]);
            if k < was + n - 1 {
                assert(after.dataset_events[k] == rest.dataset_events[k]);
            }
        }
        assert forall|k: int| was <= k < was + n implies ({
            let e = #[trigger] after.dataset_events[k];
            &&& e.uri == uris[k - was] && e.source == "task"@ && e.at == now
            &&& e.workflow == Some(by.workflow) && e.run_id == by.run_id
            &&& e.task_id == Some(by.task_id) && e.task_name == Some(by.task_name)
        }) by {
            if k < was + n - 1 {
                assert(after.dataset_events[k] == rest.dataset_events[k]);
            }
        }
    } else {
        assert(db.dataset_events.take(was) =~= db.dataset_events);
        reveal(Seq::filter);
        assert(uris.take(0) =~= Seq::<Seq<char>>::empty());
    }
}

/// An update from outside says so, and names no run, task or workflow.
pub proof fn law_outside_event_names_nobody(id: int, uri: Seq<char>, now: Seq<char>)
    ensures
        ({
            let e = external_event(id, uri, now);
            &&& e.id == id && e.uri == uri && e.at == now && e.source == "external"@
            &&& e.workflow is None && e.run_id is None && e.task_id is None && e.task_name is None
        }),
{
}

/// The run that an update is booked on is that of the task; and a read of the
/// ledger by dataset has that dataset's events only.
pub proof fn law_update_is_booked_on_its_run(
    tasks: Seq<TaskRunView>,
    i: int,
    e: DatasetEventView,
    uri: Seq<char>,
)
    requires
        distinct_rows(tasks),
        0 <= i < tasks.len(),
    ensures
        run_of_task(tasks, tasks[i].id) == Some(tasks[i].run_id),
        event_of(e, Some(uri)) <==> e.uri == uri,
        event_of(e, None),
{
    law_first_row(tasks, |t: TaskRunView| t.id == tasks[i].id, i);
}

/// There is no run to book on where there is no such task.
pub proof fn law_no_run_without_a_task(tasks: Seq<TaskRunView>, id: Seq<char>)
    requires
        forall|k: int| 0 <= k < tasks.len() ==> (#[trigger] tasks[k]).id != id,
    ensures
        run_of_task(tasks, id) is None,
{
    law_first_row(tasks, |t: TaskRunView| t.id == id, tasks.len() as int);
}

// ── Sensors ──────────────────────────────────────────────────────────────────

/// The task waits for a dataset, and that dataset has an event past the task's
/// cursor.
pub open spec fn has_its_news(events: Seq<DatasetEventView>, t: TaskRunView) -> bool {
    &&& t.status == TaskStatus::Running
    &&& t.wait_dataset matches Some(uri) && exists|k: int|
        0 <= k < events.len() && (#[trigger] events[k]).uri == uri && events[k].id > (
        match t.wait_dataset_cursor {
            Some(c) => c,
            None => 0,
        })
}

proof fn lemma_has_its_news(events: Seq<DatasetEventView>, t: TaskRunView)
    ensures
        dataset_arrived(events, t) <==> has_its_news(events, t),
{
    if t.wait_dataset is Some {
        let c = match t.wait_dataset_cursor {
            Some(c) => c,
            None => 0,
        };
        let p = |e: DatasetEventView|
            e.uri == t.wait_dataset->0 && e.id > (match t.wait_dataset_cursor {
                Some(c) => c,
                None => 0,
            });
        if any(events, p) {
            let k = choose|k: int| 0 <= k < events.len() && p(#[trigger] events[k]);
            assert(events[k].uri == t.wait_dataset->0 && events[k].id > c);
        }
        if exists|k: int|
            0 <= k < events.len() && (#[trigger] events[k]).uri == t.wait_dataset->0 && events[k].id > c {
            let k = choose|k: int|
                0 <= k < events.len() && (#[trigger] events[k]).uri == t.wait_dataset->0 && events[k].id > c;
            assert(p(events[k]));
        }
    }
}

/// A sweep ends the sensors whose datasets have news, reports each with its
/// dataset, and lets their dependents wait for as many less. Other tasks stay.
pub proof fn law_dataset_sweep_ends_what_has_news(db: StoreView, now: Seq<char>, i: int)
    requires
        distinct_rows(db.tasks),
        0 <= i < db.tasks.len(),
    ensures
        ({
            let due = |t: TaskRunView| has_its_news(db.dataset_events, t);
            let after = folded(db, arrivals(db), end_arrival(now));
            let t = db.tasks[i];
            &&& after == (StoreView { tasks: after.tasks, ..db })
            &&& taken(db, arrivals(db), end_arrival(now), arrival_open()) == arrivals(db)
            &&& due(t) ==> arrivals(db).contains((t.id, t.wait_dataset->0))
            &&& arrivals(db).len() == db.tasks.filter(due).len()
            &&& after.tasks[i] == (if due(t) {
                TaskRunView {
                    status: TaskStatus::Succeeded,
                    finished_at: Some(now),
                    output: Some("dataset updated"@),
                    ..t
                }
            } else if t.status == TaskStatus::Pending {
                TaskRunView { remaining_deps: t.remaining_deps - ended_dependencies(db, t.id, due), ..t }
            } else {
                t
            })
        }),
{
    let due = |t: TaskRunView| has_its_news(db.dataset_events, t);
    let p = |t: TaskRunView| dataset_arrived(db.dataset_events, t);
    let f = |t: TaskRunView| (t.id, t.wait_dataset->0);
    let end = Ending::<(Seq<char>, Seq<char>)> {
        id: |a: (Seq<char>, Seq<char>)| a.0,
        hits: |a: (Seq<char>, Seq<char>), t: TaskRunView| waits_for_dataset(t, a.0),
        image: |a: (Seq<char>, Seq<char>), t: TaskRunView| dataset_came(t, now),
    };
    assert forall|t: TaskRunView| #[trigger] p(t) == due(t) by {
        lemma_has_its_news(db.dataset_events, t);
    }
    assert(p =~= due);
    assert forall|d: StoreView, a: (Seq<char>, Seq<char>)| #[trigger] end_arrival(now)(d, a) == settled(
        d,
        (end.id)(a),
        |t: TaskRunView| (end.hits)(a, t),
        |t: TaskRunView| (end.image)(a, t),
    ) by {
        assert((|t: TaskRunView| (end.hits)(a, t)) =~= (|t: TaskRunView| waits_for_dataset(t, a.0)));
        assert((|t: TaskRunView| (end.image)(a, t)) =~= (|t: TaskRunView| dataset_came(t, now)));
    }
    assert forall|d: StoreView, a: (Seq<char>, Seq<char>)| #[trigger] arrival_open()(d, a) == any(
        d.tasks,
        |t: TaskRunView| (end.hits)(a, t),
    ) by {
        assert((|t: TaskRunView| (end.hits)(a, t)) =~= (|t: TaskRunView| waits_for_dataset(t, a.0)));
    }
    lemma_row_sweep(db, p, f, end_arrival(now), arrival_open(), end, i);
    let q = places_where(db.tasks, p);
    let items = q.map_values(|i: int| f(db.tasks[i]));
    assert(items =~= arrivals(db));
    lemma_ended_dependencies(db, db.tasks[i].id, p);
    let lt = |a: TaskRunView, b: TaskRunView| false;
    lemma_ordered_members(db.tasks, p, lt, db.tasks.len() as int);
    crate::order::lemma_ordered_len(db.tasks, p, lt, db.tasks.len() as int);
    assert(db.tasks.take(db.tasks.len() as int) =~= db.tasks);
    lemma_count_filter(db.tasks, p);
    if p(db.tasks[i]) {
        assert(q.contains(i));
        let k = choose|k: int| 0 <= k < q.len() && q[k] == i;
        assert(items[k] == f(db.tasks[i]));
    }
}

// ── Triggers ─────────────────────────────────────────────────────────────────

/// The subscription's dataset has an event past the cursor.
pub open spec fn has_news(events: Seq<DatasetEventView>, t: DatasetTriggerView) -> bool {
    exists|k: int| 0 <= k < events.len() && (#[trigger] events[k]).uri == t.uri && events[k].id > t.cursor
}

proof fn lemma_has_news(events: Seq<DatasetEventView>, t: DatasetTriggerView)
    requires
        t.cursor >= 0,
    ensures
        fresh(events, t) <==> has_news(events, t),
{
    law_mark_is_the_datasets_own(events, t.uri);
    if fresh(events, t) {
        assert(exists|k: int| 0 <= k < events.len() && (#[trigger] events[k]).uri == t.uri);
        let k = choose|k: int|
            0 <= k < events.len() && (#[trigger] events[k]).uri == t.uri && events[k].id == high_water(
                events,
                t.uri,
            );
        assert(events[k].id > t.cursor);
    }
}

/// A workflow is due where one of its subscriptions has news; where one of them
/// asks for all, each of them must.
pub proof fn law_workflow_is_due_by_its_datasets(db: StoreView, workflow: Seq<char>)
    requires
        forall|k: int| 0 <= k < db.triggers.len() ==> (#[trigger] db.triggers[k]).cursor >= 0,
    ensures
        fire_due(db, workflow) <==> {
            let wants_all = exists|k: int|
                0 <= k < db.triggers.len() && (#[trigger] db.triggers[k]).workflow_name == workflow
                    && db.triggers[k].mode == "all"@;
            &&& exists|k: int|
                0 <= k < db.triggers.len() && (#[trigger] db.triggers[k]).workflow_name == workflow && has_news(
                    db.dataset_events,
                    db.triggers[k],
                )
            &&& wants_all ==> forall|k: int|
                0 <= k < db.triggers.len() && (#[trigger] db.triggers[k]).workflow_name == workflow ==> has_news(
                    db.dataset_events,
                    db.triggers[k],
                )
        },
{
    let events = db.dataset_events;
    assert forall|k: int| 0 <= k < db.triggers.len() implies fresh(events, #[trigger] db.triggers[k])
        == has_news(events, db.triggers[k]) by {
        lemma_has_news(events, db.triggers[k]);
    }
    let p = |t: DatasetTriggerView| crate::triggers::fresh_for(events, t, workflow);
    let s = |t: DatasetTriggerView| crate::triggers::stale_for(events, t, workflow);
    let m = |t: DatasetTriggerView| t.workflow_name == workflow && t.mode == "all"@;
    if any(db.triggers, p) {
        let k = choose|k: int| 0 <= k < db.triggers.len() && p(#[trigger] db.triggers[k]);
        assert(db.triggers[k].workflow_name == workflow);
    }
    if exists|k: int|
        0 <= k < db.triggers.len() && (#[trigger] db.triggers[k]).workflow_name == workflow && has_news(
            events,
            db.triggers[k],
        ) {
        let k = choose|k: int|
            0 <= k < db.triggers.len() && (#[trigger] db.triggers[k]).workflow_name == workflow && has_news(
                events,
                db.triggers[k],
            );
        assert(p(db.triggers[k]));
    }
    if any(db.triggers, s) {
        let k = choose|k: int| 0 <= k < db.triggers.len() && s(#[trigger] db.triggers[k]);
        assert(db.triggers[k].workflow_name == workflow);
    } else {
        assert forall|k: int|
            0 <= k < db.triggers.len() && (#[trigger] db.triggers[k]).workflow_name == workflow implies has_news(
            events,
            db.triggers[k],
        ) by {
            assert(!s(db.triggers[k]));
        }
    }
    if exists|k: int|
        0 <= k < db.triggers.len() && (#[trigger] db.triggers[k]).workflow_name == workflow
            && db.triggers[k].mode == "all"@ {
        let k = choose|k: int|
            0 <= k < db.triggers.len() && (#[trigger] db.triggers[k]).workflow_name == workflow
                && db.triggers[k].mode == "all"@;
        assert(m(db.triggers[k]));
    }
    if any(db.triggers, m) {
        let k = choose|k: int| 0 <= k < db.triggers.len() && m(#[trigger] db.triggers[k]);
        assert(db.triggers[k].workflow_name == workflow);
    }
}

/// A sweep over distinct subscriptions moves a cursor where its workflow is due
/// and its dataset has news, to the dataset's mark, and touches nothing else.
pub proof fn law_fires_use_up_the_news(db: StoreView, i: int)
    requires
        crate::triggers::distinct_subscriptions(db.triggers),
        0 <= i < db.triggers.len(),
        db.triggers[i].cursor >= 0,
    ensures
        ({
            let after = folded(db, due_fires(db), claim_fire());
            let t = db.triggers[i];
            &&& after == (StoreView { triggers: after.triggers, ..db })
            &&& after.triggers.len() == db.triggers.len()
            &&& taken(db, due_fires(db), claim_fire(), wins_fire()) == due_fires(db)
            &&& after.triggers[i] == (if fire_due(db, t.workflow_name) && has_news(db.dataset_events, t) {
                DatasetTriggerView { cursor: high_water(db.dataset_events, t.uri), ..t }
            } else {
                t
            })
        }),
{
    crate::trigger_sweep::law_sweep_fires_each_due_workflow_once(db);
    lemma_has_news(db.dataset_events, db.triggers[i]);
}

/// A fire notes the moves of its workflow's subscriptions with news: from the
/// cursor to the mark, by dataset, and it names the first dataset as its cause.
pub proof fn law_fire_notes_its_moves(db: StoreView, workflow: Seq<char>)
    requires
        forall|k: int| 0 <= k < db.triggers.len() ==> (#[trigger] db.triggers[k]).cursor >= 0,
        fire_due(db, workflow),
    ensures
        ({
            let f = fire_of(db, workflow);
            &&& f.workflow_name == workflow
            &&& f.advanced.len() > 0 && f.trigger_uri == f.advanced[0].0
            &&& f.advanced.len() == db.triggers.filter(
                |t: DatasetTriggerView| t.workflow_name == workflow && has_news(db.dataset_events, t),
            ).len()
            &&& forall|a: int, b: int|
                0 <= a < b < f.advanced.len() ==> !crate::text::lex_lt(
                    (#[trigger] f.advanced[b]).0,
                    (#[trigger] f.advanced[a]).0,
                )
            &&& forall|a: int|
                0 <= a < f.advanced.len() ==> exists|k: int|
                    0 <= k < db.triggers.len() && (#[trigger] db.triggers[k]).workflow_name == workflow
                        && has_news(db.dataset_events, db.triggers[k]) && #[trigger] f.advanced[a] == (
                    db.triggers[k].uri,
                    db.triggers[k].cursor,
                    high_water(db.dataset_events, db.triggers[k].uri),
                )
        }),
{
    let events = db.dataset_events;
    let n = db.triggers.len() as int;
    let p = |t: DatasetTriggerView| crate::triggers::fresh_for(events, t, workflow);
    let w = |t: DatasetTriggerView| t.workflow_name == workflow && has_news(events, t);
    let lt = |a: DatasetTriggerView, b: DatasetTriggerView| crate::text::lex_lt(a.uri, b.uri);
    crate::laws::reading::lemma_text_order(|t: DatasetTriggerView| t.uri, lt);
    lemma_ordered_members(db.triggers, p, lt, n);
    crate::order::lemma_ordered_sorted(db.triggers, p, lt, n);
    crate::order::lemma_ordered_len(db.triggers, p, lt, n);
    assert(db.triggers.take(n) =~= db.triggers);
    assert forall|k: int| 0 <= k < n implies p(#[trigger] db.triggers[k]) == w(db.triggers[k]) by {
        lemma_has_news(events, db.triggers[k]);
    }
    crate::table::lemma_count_same(db.triggers, p, w);
    lemma_count_filter(db.triggers, w);
    let q = crate::triggers::fresh_places(db, workflow);
    let f = fire_of(db, workflow);
    let i = choose|i: int| 0 <= i < n && p(#[trigger] db.triggers[i]);
    assert(q.contains(i));
    assert forall|a: int| 0 <= a < f.advanced.len() implies exists|k: int|
        0 <= k < db.triggers.len() && (#[trigger] db.triggers[k]).workflow_name == workflow && has_news(
            events,
            db.triggers[k],
        ) && #[trigger] f.advanced[a] == (
            db.triggers[k].uri,
            db.triggers[k].cursor,
            high_water(events, db.triggers[k].uri),
        ) by {
        assert(q.contains(q[a]));
        assert(p(db.triggers[q[a]]));
        assert(w(db.triggers[q[a]]));
    }
    assert forall|a: int, b: int| 0 <= a < b < f.advanced.len() implies !crate::text::lex_lt(
        (#[trigger] f.advanced[b]).0,
        (#[trigger] f.advanced[a]).0,
    ) by {
        assert(!lt(db.triggers[q[b]], db.triggers[q[a]]));
    }
}

/// To move a cursor touches the one subscription of the workflow to the dataset
/// that stands where the move starts.
pub proof fn law_one_cursor_moves(
    triggers: Seq<DatasetTriggerView>,
    workflow: Seq<char>,
    uri: Seq<char>,
    at: int,
    to: int,
    i: int,
)
    requires
        0 <= i < triggers.len(),
    ensures
        cursor_moved(triggers, workflow, uri, at, to).len() == triggers.len(),
        cursor_moved(triggers, workflow, uri, at, to)[i] == (if triggers[i].workflow_name == workflow
            && triggers[i].uri == uri && triggers[i].cursor == at {
            DatasetTriggerView { cursor: to, ..triggers[i] }
        } else {
            triggers[i]
        }),
{
}

/// The subscription of the workflow to the dataset stands at the cursor.
pub open spec fn stands_at_cursor(t: DatasetTriggerView, workflow: Seq<char>, uri: Seq<char>, at: int) -> bool {
    t.workflow_name == workflow && t.uri == uri && t.cursor == at
}

/// Some subscription of the workflow stands where the move starts.
pub open spec fn can_move(triggers: Seq<DatasetTriggerView>, workflow: Seq<char>, m: (Seq<char>, int, int)) -> bool {
    exists|j: int| 0 <= j < triggers.len() && stands_at_cursor(#[trigger] triggers[j], workflow, m.0, m.1)
}

/// No two of the moves are of one dataset.
pub open spec fn moves_apart(advanced: Seq<(Seq<char>, int, int)>) -> bool {
    forall|a: int, b: int| 0 <= a < b < advanced.len() ==> (#[trigger] advanced[a]).0 != (#[trigger] advanced[b]).0
}

proof fn lemma_moves(
    triggers: Seq<DatasetTriggerView>,
    workflow: Seq<char>,
    advanced: Seq<(Seq<char>, int, int)>,
    n: int,
)
    requires
        moves_apart(advanced),
        0 <= n <= advanced.len(),
    ensures
        all_moved(triggers, workflow, advanced, n) is Some <==> forall|k: int|
            0 <= k < n ==> can_move(triggers, workflow, #[trigger] advanced[k]),
        all_moved(triggers, workflow, advanced, n) matches Some(after) ==> after.len() == triggers.len()
            && forall|i: int, k: int|
            0 <= i < triggers.len() && 0 <= k < n && stands_at_cursor(
                #[trigger] triggers[i],
                workflow,
                (#[trigger] advanced[k]).0,
                advanced[k].1,
            ) ==> after[i] == (DatasetTriggerView { cursor: advanced[k].2, ..triggers[i] }),
        all_moved(triggers, workflow, advanced, n) matches Some(after) ==> forall|i: int|
            0 <= i < triggers.len() && (forall|k: int|
                0 <= k < n ==> !stands_at_cursor(
                    triggers[i],
                    workflow,
                    (#[trigger] advanced[k]).0,
                    advanced[k].1,
                )) ==> #[trigger] after[i] == triggers[i],
    decreases n,
{
    if n > 0 {
        lemma_moves(triggers, workflow, advanced, n - 1);
        let (uri, at, to) = advanced[n - 1];
        match all_moved(triggers, workflow, advanced, n - 1) {
            Some(rest) => {
                let h = |t: DatasetTriggerView| crate::triggers::cursor_at(t, workflow, uri, at);
                assert forall|i: int| 0 <= i < triggers.len() && triggers[i].uri == uri implies #[trigger] rest[i]
                    == triggers[i] by {
                    assert forall|k: int| 0 <= k < n - 1 implies !stands_at_cursor(
                        triggers[i],
                        workflow,
                        (#[trigger] advanced[k]).0,
                        advanced[k].1,
                    ) by {
                        assert(advanced[k].0 != advanced[n - 1].0);
                    }
                }
                assert forall|i: int| 0 <= i < triggers.len() implies (#[trigger] rest[i]).uri == triggers[i].uri by {
                    if exists|k: int|
                        0 <= k < n - 1 && stands_at_cursor(
                            triggers[i],
                            workflow,
                            (#[trigger] advanced[k]).0,
                            advanced[k].1,
                        ) {
                        let k = choose|k: int|
                            0 <= k < n - 1 && stands_at_cursor(
                                triggers[i],
                                workflow,
                                (#[trigger] advanced[k]).0,
                                advanced[k].1,
                            );
                        assert(advanced[k].0 == triggers[i].uri);
                    }
                }
                if any(rest, h) {
                    let j = choose|j: int| 0 <= j < rest.len() && h(#[trigger] rest[j]);
                    assert(rest[j] == triggers[j]);
                    assert(stands_at_cursor(triggers[j], workflow, uri, at));
                    assert(can_move(triggers, workflow, advanced[n - 1]));
                }
                if can_move(triggers, workflow, advanced[n - 1]) {
                    let j = choose|j: int|
                        0 <= j < triggers.len() && stands_at_cursor(#[trigger] triggers[j], workflow, uri, at);
                    assert(rest[j] == triggers[j]);
                    assert(h(rest[j]));
                    let after = cursor_moved(rest, workflow, uri, at, to);
                    assert(all_moved(triggers, workflow, advanced, n) == Some(after));
                    assert forall|i: int, k: int|
                        0 <= i < triggers.len() && 0 <= k < n && stands_at_cursor(
                            #[trigger] triggers[i],
                            workflow,
                            (#[trigger] advanced[k]).0,
                            advanced[k].1,
                        ) implies after[i] == (DatasetTriggerView { cursor: advanced[k].2, ..triggers[i] }) by {
                        if k < n - 1 {
                            assert(advanced[k].0 != advanced[n - 1].0);
                            assert(rest[i].uri == triggers[i].uri);
                        } else {
                            assert(rest[i] == triggers[i]);
                        }
                    }
                    assert forall|i: int|
                        0 <= i < triggers.len() && (forall|k: int|
                            0 <= k < n ==> !stands_at_cursor(
                                triggers[i],
                                workflow,
                                (#[trigger] advanced[k]).0,
                                advanced[k].1,
                            )) implies #[trigger] after[i] == triggers[i] by {
                        assert(rest[i] == triggers[i]);
                        assert(!stands_at_cursor(triggers[i], workflow, advanced[n - 1].0, advanced[n - 1].1));
                    }
                } else {
                    assert(!can_move(triggers, workflow, advanced[n - 1]));
                }
            },
            None => {},
        }
    }
}

/// A fire is won where each of its moves finds a cursor to move, and then all of
/// them move; one that is lost leaves every cursor where it is.
pub proof fn law_fire_moves_all_or_none(db: StoreView, f: DatasetFireView, i: int, k: int)
    requires
        moves_apart(f.advanced),
        0 <= i < db.triggers.len(),
        0 <= k < f.advanced.len(),
    ensures
        ({
            let won = forall|k: int|
                0 <= k < f.advanced.len() ==> can_move(db.triggers, f.workflow_name, #[trigger] f.advanced[k]);
            let after = fire_claimed(db, f);
            let t = db.triggers[i];
            let m = f.advanced[k];
            &&& fire_won(db, f) <==> won
            &&& after == (StoreView { triggers: after.triggers, ..db })
            &&& !won ==> after == db
            &&& won && stands_at_cursor(t, f.workflow_name, m.0, m.1) ==> after.triggers[i] == (
            DatasetTriggerView { cursor: m.2, ..t })
            &&& won && (forall|k: int|
                0 <= k < f.advanced.len() ==> !stands_at_cursor(
                    t,
                    f.workflow_name,
                    (#[trigger] f.advanced[k]).0,
                    f.advanced[k].1,
                )) ==> after.triggers[i] == t
        }),
{
    lemma_moves(db.triggers, f.workflow_name, f.advanced, f.advanced.len() as int);
}

/// To subscribe again changes the mode and nothing else; to subscribe anew waits
/// for what comes after the dataset's mark, and has fired nothing yet.
pub proof fn law_subscription_starts_at_the_mark(
    triggers: Seq<DatasetTriggerView>,
    events: Seq<DatasetEventView>,
    workflow: Seq<char>,
    uri: Seq<char>,
    mode: Seq<char>,
    i: int,
)
    requires
        0 <= i < triggers.len(),
    ensures
        ({
            let after = subscribed(triggers, events, workflow, uri, mode);
            let known = exists|k: int|
                0 <= k < triggers.len() && (#[trigger] triggers[k]).workflow_name == workflow && triggers[k].uri
                    == uri;
            let t = triggers[i];
            &&& after.len() == triggers.len() + (if known { 0int } else { 1 })
            &&& after[i] == (if t.workflow_name == workflow && t.uri == uri {
                DatasetTriggerView { mode, ..t }
            } else {
                t
            })
            &&& !known ==> after.last() == (DatasetTriggerView {
                workflow_name: workflow,
                uri,
                cursor: high_water(events, uri),
                mode,
                last_fired_at: None,
                last_fired_run_id: None,
            })
        }),
{
    let p = |t: DatasetTriggerView| crate::triggers::subscription(t, workflow, uri);
    if exists|k: int|
        0 <= k < triggers.len() && (#[trigger] triggers[k]).workflow_name == workflow && triggers[k].uri == uri {
        let k = choose|k: int|
            0 <= k < triggers.len() && (#[trigger] triggers[k]).workflow_name == workflow && triggers[k].uri
                == uri;
        assert(p(triggers[k]));
    }
}

/// A subscription of the workflow to the dataset is there.
pub open spec fn subscribes(triggers: Seq<DatasetTriggerView>, workflow: Seq<char>, uri: Seq<char>) -> bool {
    exists|k: int| 0 <= k < triggers.len() && (#[trigger] triggers[k]).workflow_name == workflow && triggers[k].uri == uri
}

proof fn lemma_all_subscribed(
    triggers: Seq<DatasetTriggerView>,
    events: Seq<DatasetEventView>,
    workflow: Seq<char>,
    uris: Seq<Seq<char>>,
    mode: Seq<char>,
    n: int,
)
    requires
        0 <= n <= uris.len(),
    ensures
        ({
            let after = crate::triggers::all_subscribed(triggers, events, workflow, uris, mode, n);
            &&& after.len() >= triggers.len()
            &&& forall|j: int|
                0 <= j < n ==> subscribes(after, workflow, #[trigger] uris[j])
            &&& forall|k: int|
                0 <= k < after.len() && (#[trigger] after[k]).workflow_name == workflow && uris.take(n).contains(
                    after[k].uri,
                ) ==> after[k].mode == mode
            &&& forall|k: int|
                0 <= k < triggers.len() ==> (#[trigger] after[k]).cursor == triggers[k].cursor && after[k].uri
                    == triggers[k].uri && after[k].workflow_name == triggers[k].workflow_name && (
                triggers[k].workflow_name != workflow ==> after[k] == triggers[k])
            &&& forall|k: int|
                triggers.len() <= k < after.len() ==> (#[trigger] after[k]).workflow_name == workflow
                    && uris.contains(after[k].uri) && after[k].cursor == high_water(events, after[k].uri)
        }),
    decreases n,
{
    let after = crate::triggers::all_subscribed(triggers, events, workflow, uris, mode, n);
    if n > 0 {
        lemma_all_subscribed(triggers, events, workflow, uris, mode, n - 1);
        let rest = crate::triggers::all_subscribed(triggers, events, workflow, uris, mode, n - 1);
        let uri = uris[n - 1];
        let p = |t: DatasetTriggerView| crate::triggers::subscription(t, workflow, uri);
        assert(uris.take(n) =~= uris.take(n - 1).push(uri));
        assert(uris.contains(uri));
        if any(rest, p) {
            let k = choose|k: int| 0 <= k < rest.len() && p(#[trigger] rest[k]);
            assert(after[k].workflow_name == workflow && after[k].uri == uri);
        } else {
            assert(after[rest.len() as int].uri == uri);
        }
        assert forall|j: int| 0 <= j < n implies subscribes(after, workflow, #[trigger] uris[j]) by {
            if j < n - 1 {
                assert(subscribes(rest, workflow, uris[j]));
                let k = choose|k: int|
                    0 <= k < rest.len() && (#[trigger] rest[k]).workflow_name == workflow && rest[k].uri
                        == uris[j];
                assert(after[k].workflow_name == workflow && after[k].uri == uris[j]);
            }
        }
        assert forall|k: int|
            0 <= k < after.len() && (#[trigger] after[k]).workflow_name == workflow && uris.take(n).contains(
                after[k].uri,
            ) implies after[k].mode == mode by {
            if k < rest.len() {
                assert(after[k].uri == rest[k].uri && after[k].workflow_name == rest[k].workflow_name);
                if after[k].uri == uri {
                    assert(p(rest[k]));
                } else {
                    let x = choose|x: int| 0 <= x < uris.take(n).len() && uris.take(n)[x] == after[k].uri;
                    assert(uris.take(n - 1)[x] == after[k].uri);
                    assert(after[k] == rest[k]);
                }
            }
        }
        assert forall|k: int| triggers.len() <= k < after.len() implies (#[trigger] after[k]).workflow_name
            == workflow && uris.contains(after[k].uri) && after[k].cursor == high_water(events, after[k].uri) by {
            if k < rest.len() {
                assert(after[k].cursor == rest[k].cursor);
                assert(after[k].uri == rest[k].uri);
            }
        }
    }
}

/// Once a workflow is in step with a list of datasets, it subscribes to those
/// and to no other, in the mode asked for; a subscription that it had keeps its
/// cursor, and a new one starts at the mark.
pub proof fn law_workflow_subscribes_to_its_list(
    triggers: Seq<DatasetTriggerView>,
    events: Seq<DatasetEventView>,
    workflow: Seq<char>,
    uris: Seq<Seq<char>>,
    mode: Seq<char>,
    uri: Seq<char>,
)
    ensures
        ({
            let after = synced(triggers, events, workflow, uris, mode);
            &&& subscribes(after, workflow, uri) <==> uris.contains(uri)
            &&& forall|k: int|
                0 <= k < after.len() && (#[trigger] after[k]).workflow_name == workflow ==> after[k].mode == mode
                    && (after[k].cursor == high_water(events, after[k].uri) || exists|j: int|
                    0 <= j < triggers.len() && (#[trigger] triggers[j]).workflow_name == workflow
                        && triggers[j].uri == after[k].uri && triggers[j].cursor == after[k].cursor)
            &&& forall|k: int|
                0 <= k < after.len() && (#[trigger] after[k]).workflow_name != workflow ==> triggers.contains(
                    after[k],
                )
            &&& forall|j: int|
                0 <= j < triggers.len() && (#[trigger] triggers[j]).workflow_name != workflow ==> after.contains(
                    triggers[j],
                )
            &&& forall|j: int|
                0 <= j < triggers.len() && (#[trigger] triggers[j]).workflow_name == workflow && uris.contains(
                    triggers[j].uri,
                ) ==> exists|k: int|
                    0 <= k < after.len() && (#[trigger] after[k]).workflow_name == workflow && after[k].uri
                        == triggers[j].uri && after[k].cursor == triggers[j].cursor
        }),
{
    broadcast use vstd::seq_lib::group_filter_ensures;

    let p = |t: DatasetTriggerView| !(t.workflow_name == workflow && !uris.contains(t.uri));
    let kept = triggers.filter(p);
    let n = uris.len() as int;
    let after = synced(triggers, events, workflow, uris, mode);
    lemma_all_subscribed(kept, events, workflow, uris, mode, n);
    assert(uris.take(n) =~= uris);
    if subscribes(after, workflow, uri) {
        let k = choose|k: int|
            0 <= k < after.len() && (#[trigger] after[k]).workflow_name == workflow && after[k].uri == uri;
        if k < kept.len() {
            assert(kept.contains(kept[k]));
            assert(p(kept[k]));
        }
    }
    if uris.contains(uri) {
        let j = choose|j: int| 0 <= j < uris.len() && uris[j] == uri;
        assert(subscribes(after, workflow, uris[j]));
    }
    assert forall|k: int| 0 <= k < after.len() && (#[trigger] after[k]).workflow_name == workflow implies after[k].mode
        == mode && (after[k].cursor == high_water(events, after[k].uri) || exists|j: int|
        0 <= j < triggers.len() && (#[trigger] triggers[j]).workflow_name == workflow && triggers[j].uri
            == after[k].uri && triggers[j].cursor == after[k].cursor) by {
        if k < kept.len() {
            assert(kept.contains(kept[k]));
            lemma_filter_from(triggers, p, k);
            let j = choose|j: int| 0 <= j < triggers.len() && triggers[j] == kept[k];
            assert(triggers[j].workflow_name == workflow);
        }
    }
    assert forall|k: int| 0 <= k < after.len() && (#[trigger] after[k]).workflow_name != workflow implies triggers.contains(
        after[k],
    ) by {
        assert(k < kept.len());
        lemma_filter_from(triggers, p, k);
    }
    assert forall|j: int|
        0 <= j < triggers.len() && (#[trigger] triggers[j]).workflow_name != workflow implies after.contains(
        triggers[j],
    ) by {
        assert(p(triggers[j]));
        assert(triggers.contains(triggers[j]));
        assert(kept.contains(triggers[j]));
        let k = choose|k: int| 0 <= k < kept.len() && kept[k] == triggers[j];
        assert(after[k] == kept[k]);
    }
    assert forall|j: int|
        0 <= j < triggers.len() && (#[trigger] triggers[j]).workflow_name == workflow && uris.contains(
            triggers[j].uri,
        ) implies exists|k: int|
        0 <= k < after.len() && (#[trigger] after[k]).workflow_name == workflow && after[k].uri
            == triggers[j].uri && after[k].cursor == triggers[j].cursor by {
        assert(p(triggers[j]));
        assert(triggers.contains(triggers[j]));
        assert(kept.contains(triggers[j]));
        let k = choose|k: int| 0 <= k < kept.len() && kept[k] == triggers[j];
        assert(after[k].workflow_name == workflow);
    }
}

/// Pruning drops the subscriptions of workflows that are not registered, and
/// those only.
pub proof fn law_prune_drops_the_unregistered(
    triggers: Seq<DatasetTriggerView>,
    workflows: Seq<RegisteredWorkflowView>,
    t: DatasetTriggerView,
)
    ensures
        pruned(triggers, workflows).contains(t) <==> triggers.contains(t) && exists|k: int|
            0 <= k < workflows.len() && (#[trigger] workflows[k]).name == t.workflow_name,
        pruned(triggers, workflows).len() + count(
            triggers,
            |t: DatasetTriggerView|
                !any(workflows, |w: RegisteredWorkflowView| w.name == t.workflow_name),
        ) == triggers.len(),
{
    broadcast use vstd::seq_lib::group_filter_ensures;

    let p = |t: DatasetTriggerView| any(workflows, |w: RegisteredWorkflowView| w.name == t.workflow_name);
    let np = |t: DatasetTriggerView| !any(workflows, |w: RegisteredWorkflowView| w.name == t.workflow_name);
    let h = |w: RegisteredWorkflowView| w.name == t.workflow_name;
    if exists|k: int| 0 <= k < workflows.len() && (#[trigger] workflows[k]).name == t.workflow_name {
        let k = choose|k: int| 0 <= k < workflows.len() && (#[trigger] workflows[k]).name == t.workflow_name;
        assert(h(workflows[k]));
    }
    if any(workflows, h) {
        let k = choose|k: int| 0 <= k < workflows.len() && h(#[trigger] workflows[k]);
        assert(workflows[k].name == t.workflow_name);
    }
    assert(p(t) == any(workflows, h));
    if pruned(triggers, workflows).contains(t) {
        let k = choose|k: int| 0 <= k < triggers.filter(p).len() && triggers.filter(p)[k] == t;
        lemma_filter_from(triggers, p, k);
    }
    lemma_split(triggers, p, np);
}

proof fn lemma_split<V>(rows: Seq<V>, p: spec_fn(V) -> bool, np: spec_fn(V) -> bool)
    requires
        forall|v: V| #[trigger] np(v) == !p(v),
    ensures
        rows.filter(p).len() + count(rows, np) == rows.len(),
    decreases rows.len(),
{
    reveal(Seq::filter);
    if rows.len() > 0 {
        lemma_split(rows.drop_last(), p, np);
        assert(np(rows.last()) == !p(rows.last()));
    }
}

} // verus!
