//! Datasets: what tasks produce, the ledger of updates, and what waits for them.
use vstd::prelude::*;
use vstd::string::*;
use crate::models::TaskStatus;
use crate::order::{
    copy_at, find_row, first, lemma_first, limit_of, limited, ordered, places, places_where, rows_at, select,
    select_all, Keep, Order,
};
use crate::parks::text_pairs;
use crate::rows::{
    opt, opt_int, views, Dataset, DatasetEvent, DatasetEventView, DatasetView, TaskRun, TaskRunView,
};
use crate::store::{Store, StoreView};
use crate::sweeps::{folded, lemma_settled_room, lemma_turn, taken};
use crate::table::{amended, any, lemma_any_same, update_any, Rule};
use crate::tasks::{deps_fit, is_running_at, running_at, settle, settled};
use crate::text::{before, lex_lt, same, texts};

verus! {

// ── The ledger ───────────────────────────────────────────────────────────────

/// The highest id among the first `n` events, and 0 where none is higher.
pub open spec fn last_id(events: Seq<DatasetEventView>, n: int) -> int
    decreases n,
{
    if n <= 0 {
        0
    } else if events[n - 1].id > last_id(events, n - 1) {
        events[n - 1].id
    } else {
        last_id(events, n - 1)
    }
}

/// The highest id among the first `n` events of a dataset.
pub open spec fn top_event(events: Seq<DatasetEventView>, uri: Seq<char>, n: int) -> Option<int>
    decreases n,
{
    if n <= 0 {
        None
    } else {
        let rest = top_event(events, uri, n - 1);
        if events[n - 1].uri == uri && (rest is None || events[n - 1].id > rest->0) {
            Some(events[n - 1].id)
        } else {
            rest
        }
    }
}

/// How far the ledger has come for a dataset: its last event, or 0.
pub open spec fn high_water(events: Seq<DatasetEventView>, uri: Seq<char>) -> int {
    match top_event(events, uri, events.len() as int) {
        Some(id) => id,
        None => 0,
    }
}

fn last_event_id(events: &Vec<DatasetEvent>) -> (n: i64)
    ensures
        n == last_id(views(events@), events@.len() as int),
        n >= 0,
{
    let ghost all = views(events@);
    let mut n: i64 = 0;
    let mut i: usize = 0;
    while i < events.len()
        invariant
            i <= events@.len(),
            all == views(events@),
            n == last_id(all, i as int),
            n >= 0,
        decreases events@.len() - i,
    {
        assert(all[i as int] == events@[i as int]@);
        if events[i].id > n {
            n = events[i].id;
        }
        i += 1;
    }
    n
}

/// How far the ledger has come for a dataset.
pub fn water_mark(events: &Vec<DatasetEvent>, uri: &str) -> (n: i64)
    ensures
        n == high_water(views(events@), uri@),
{
    let ghost all = views(events@);
    let mut top: Option<i64> = None;
    let mut i: usize = 0;
    while i < events.len()
        invariant
            i <= events@.len(),
            all == views(events@),
            opt_int(top) == top_event(all, uri@, i as int),
        decreases events@.len() - i,
    {
        assert(all[i as int] == events@[i as int]@);
        if same(events[i].uri.as_str(), uri) {
            match top {
                Some(id) => {
                    if events[i].id > id {
                        top = Some(events[i].id);
                    }
                },
                None => {
                    top = Some(events[i].id);
                },
            }
        }
        i += 1;
    }
    match top {
        Some(id) => id,
        None => 0,
    }
}

/// The registry once a task of a run updated a dataset.
pub open spec fn produced(
    datasets: Seq<DatasetView>,
    uri: Seq<char>,
    run_id: Option<Seq<char>>,
    task_name: Seq<char>,
    now: Seq<char>,
) -> Seq<DatasetView> {
    if any(datasets, |d: DatasetView| d.uri == uri) {
        amended(
            datasets,
            |d: DatasetView| d.uri == uri,
            |d: DatasetView|
                DatasetView {
                    updated_at: now,
                    last_run_id: run_id,
                    last_task: Some(task_name),
                    updates: d.updates + 1,
                    ..d
                },
        )
    } else {
        datasets.push(
            DatasetView {
                uri,
                updated_at: now,
                last_run_id: run_id,
                last_task: Some(task_name),
                updates: 1,
            },
        )
    }
}

/// Every dataset's updates can still be counted `n` times.
pub open spec fn updates_fit(datasets: Seq<DatasetView>, n: int) -> bool {
    forall|i: int| 0 <= i < datasets.len() ==> (#[trigger] datasets[i]).updates + n <= i64::MAX
}

struct Produce<'a> {
    uri: &'a str,
    run_id: &'a Option<String>,
    task_name: &'a str,
    now: &'a str,
}

impl<'a> Rule<Dataset> for Produce<'a> {
    closed spec fn hits(&self, d: DatasetView) -> bool {
        d.uri == self.uri@
    }

    closed spec fn image(&self, d: DatasetView) -> DatasetView {
        DatasetView {
            updated_at: self.now@,
            last_run_id: opt(*self.run_id),
            last_task: Some(self.task_name@),
            updates: d.updates + 1,
            ..d
        }
    }

    closed spec fn fits(&self, d: DatasetView) -> bool {
        d.updates < i64::MAX
    }

    fn apply(&self, row: &mut Dataset) -> (hit: bool) {
        if same(row.uri.as_str(), self.uri) {
            row.updated_at = self.now.to_owned();
            row.last_run_id = self.run_id.clone();
            row.last_task = Some(self.task_name.to_owned());
            row.updates = row.updates + 1;
            true
        } else {
            false
        }
    }
}

fn produce(datasets: &mut Vec<Dataset>, uri: &str, run_id: &Option<String>, task_name: &str, now: &str)
    requires
        updates_fit(views(old(datasets)@), 1),
    ensures
        views(final(datasets)@) == produced(views(old(datasets)@), uri@, opt(*run_id), task_name@, now@),
{
    let ghost was = views(datasets@);
    let rule: Produce = Produce { uri, run_id, task_name, now };
    proof {
        assert forall|k: int|
            0 <= k < datasets@.len() && rule.hits((#[trigger] datasets@[k])@) implies rule.fits(
                datasets@[k]@
            ) by {
            assert(was[k] == datasets@[k]@);
        }
        lemma_any_same(was, |d: DatasetView| rule.hits(d), |d: DatasetView| d.uri == uri@);
    }
    let hit: bool = update_any(datasets, &rule);
    assert(views(datasets@) =~= amended(
        was,
        |d: DatasetView| d.uri == uri@,
        |d: DatasetView|
            DatasetView {
                updated_at: now@,
                last_run_id: opt(*run_id),
                last_task: Some(task_name@),
                updates: d.updates + 1,
                ..d
            },
    ));
    if !hit {
        assert(views(datasets@) =~= was);
        let row: Dataset = Dataset {
            uri: uri.to_owned(),
            updated_at: now.to_owned(),
            last_run_id: run_id.clone(),
            last_task: Some(task_name.to_owned()),
            updates: 1,
        };
        let ghost r = row@;
        datasets.push(row);
        assert(views(datasets@) =~= was.push(r));
    }
}

/// Who updated a dataset.
pub struct Producer {
    pub workflow: Seq<char>,
    pub run_id: Option<Seq<char>>,
    pub task_id: Seq<char>,
    pub task_name: Seq<char>,
}

/// The ledger entry of an update by a task.
pub open spec fn task_event(id: int, uri: Seq<char>, by: Producer, now: Seq<char>) -> DatasetEventView {
    DatasetEventView {
        id,
        uri,
        workflow: Some(by.workflow),
        run_id: by.run_id,
        task_id: Some(by.task_id),
        task_name: Some(by.task_name),
        source: "task"@,
        at: now,
    }
}

/// The store once a task updated the first `n` datasets of a list.
pub open spec fn updates_recorded(
    db: StoreView,
    uris: Seq<Seq<char>>,
    by: Producer,
    now: Seq<char>,
    n: int,
) -> StoreView
    decreases n,
{
    if n <= 0 {
        db
    } else {
        let rest = updates_recorded(db, uris, by, now, n - 1);
        StoreView {
            datasets: produced(rest.datasets, uris[n - 1], by.run_id, by.task_name, now),
            dataset_events: rest.dataset_events.push(
                task_event(
                    last_id(rest.dataset_events, rest.dataset_events.len() as int) + 1,
                    uris[n - 1],
                    by,
                    now,
                ),
            ),
            ..rest
        }
    }
}

/// The run of the task `id`.
pub open spec fn run_of_task(tasks: Seq<TaskRunView>, id: Seq<char>) -> Option<Seq<char>> {
    match first(tasks, |t: TaskRunView| t.id == id) {
        Some(t) => Some(t.run_id),
        None => None,
    }
}

struct TaskNamed<'a> {
    id: &'a str,
}

impl<'a> Keep<TaskRun> for TaskNamed<'a> {
    closed spec fn keeps(&self, t: TaskRunView) -> bool {
        t.id == self.id@
    }

    fn keep(&self, row: &TaskRun) -> (r: bool) {
        same(row.id.as_str(), self.id)
    }
}

/// The run of the task `id`.
pub fn find_run_of_task(tasks: &Vec<TaskRun>, id: &str) -> (r: Option<String>)
    ensures
        opt(r) == run_of_task(views(tasks@), id@),
{
    let keep: TaskNamed = TaskNamed { id };
    let found: Option<usize> = find_row(tasks, &keep);
    assert((|t: TaskRunView| t.id == id@) =~= (|t: TaskRunView| keep.keeps(t)));
    match found {
        Some(i) => {
            assert(views(tasks@)[i as int] == tasks@[i as int]@);
            Some(tasks[i].run_id.clone())
        },
        None => None,
    }
}

proof fn lemma_last_id_push(events: Seq<DatasetEventView>, e: DatasetEventView, n: int)
    requires
        0 <= n <= events.len(),
    ensures
        last_id(events.push(e), n) == last_id(events, n),
    decreases n,
{
    if n > 0 {
        lemma_last_id_push(events, e, n - 1);
    }
}

/// Records that a task updated each of `uris`: one ledger entry per dataset, and
/// the registry follows.
pub fn record_dataset_updates(
    db: &mut Store,
    workflow: &str,
    task_id: &str,
    task_name: &str,
    uris: &Vec<String>,
    now: &str,
)
    requires
        last_id(old(db)@.dataset_events, old(db)@.dataset_events.len() as int) + uris@.len()
            <= i64::MAX,
        updates_fit(old(db)@.datasets, uris@.len() as int),
    ensures
        final(db)@ == updates_recorded(
            old(db)@,
            texts(uris@),
            Producer {
                workflow: workflow@,
                run_id: run_of_task(old(db)@.tasks, task_id@),
                task_id: task_id@,
                task_name: task_name@,
            },
            now@,
            uris@.len() as int,
        ),
{
    let ghost was = db@;
    let ghost by = Producer {
        workflow: workflow@,
        run_id: run_of_task(was.tasks, task_id@),
        task_id: task_id@,
        task_name: task_name@,
    };
    let run_id: Option<String> = find_run_of_task(&db.tasks, task_id);
    let mut i: usize = 0;
    while i < uris.len()
        invariant
            i <= uris@.len(),
            by.workflow == workflow@,
            by.run_id == opt(run_id),
            by.task_id == task_id@,
            by.task_name == task_name@,
            db@ == updates_recorded(was, texts(uris@), by, now@, i as int),
            last_id(db@.dataset_events, db@.dataset_events.len() as int) + (uris@.len() - i)
                <= i64::MAX,
            updates_fit(db@.datasets, uris@.len() - i),
        decreases uris@.len() - i,
    {
        let ghost rest = db@;
        assert(texts(uris@)[i as int] == uris@[i as int]@);
        let id: i64 = last_event_id(&db.dataset_events) + 1;
        produce(&mut db.datasets, uris[i].as_str(), &run_id, task_name, now);
        let row: DatasetEvent = DatasetEvent {
            id,
            uri: uris[i].clone(),
            workflow: Some(workflow.to_owned()),
            run_id: run_id.clone(),
            task_id: Some(task_id.to_owned()),
            task_name: Some(task_name.to_owned()),
            source: "task".to_owned(),
            at: now.to_owned(),
        };
        let ghost r = row@;
        db.dataset_events.push(row);
        proof {
            assert(db@.dataset_events =~= rest.dataset_events.push(r));
            lemma_last_id_push(rest.dataset_events, r, rest.dataset_events.len() as int);
            assert forall|k: int| 0 <= k < db@.datasets.len() implies (
            #[trigger] db@.datasets[k]).updates + (uris@.len() - i - 1) <= i64::MAX by {
                if k < rest.datasets.len() {
                    assert(rest.datasets[k].updates + (uris@.len() - i) <= i64::MAX);
                }
            }
        }
        i += 1;
    }
}

/// The registry once something outside updated a dataset.
pub open spec fn updated_outside(
    datasets: Seq<DatasetView>,
    uri: Seq<char>,
    now: Seq<char>,
) -> Seq<DatasetView> {
    if any(datasets, |d: DatasetView| d.uri == uri) {
        amended(
            datasets,
            |d: DatasetView| d.uri == uri,
            |d: DatasetView| DatasetView { updated_at: now, updates: d.updates + 1, ..d },
        )
    } else {
        datasets.push(
            DatasetView { uri, updated_at: now, last_run_id: None, last_task: None, updates: 1 },
        )
    }
}

/// The ledger entry of an update from outside.
pub open spec fn external_event(id: int, uri: Seq<char>, now: Seq<char>) -> DatasetEventView {
    DatasetEventView {
        id,
        uri,
        workflow: None,
        run_id: None,
        task_id: None,
        task_name: None,
        source: "external"@,
        at: now,
    }
}

struct UpdateOutside<'a> {
    uri: &'a str,
    now: &'a str,
}

impl<'a> Rule<Dataset> for UpdateOutside<'a> {
    closed spec fn hits(&self, d: DatasetView) -> bool {
        d.uri == self.uri@
    }

    closed spec fn image(&self, d: DatasetView) -> DatasetView {
        DatasetView { updated_at: self.now@, updates: d.updates + 1, ..d }
    }

    closed spec fn fits(&self, d: DatasetView) -> bool {
        d.updates < i64::MAX
    }

    fn apply(&self, row: &mut Dataset) -> (hit: bool) {
        if same(row.uri.as_str(), self.uri) {
            row.updated_at = self.now.to_owned();
            row.updates = row.updates + 1;
            true
        } else {
            false
        }
    }
}

/// Records an update that something outside the engine reports.
pub fn record_external_dataset_event(db: &mut Store, uri: &str, now: &str)
    requires
        last_id(old(db)@.dataset_events, old(db)@.dataset_events.len() as int) < i64::MAX,
        updates_fit(old(db)@.datasets, 1),
    ensures
        final(db)@ == (StoreView {
            datasets: updated_outside(old(db)@.datasets, uri@, now@),
            dataset_events: old(db)@.dataset_events.push(
                external_event(
                    last_id(old(db)@.dataset_events, old(db)@.dataset_events.len() as int) + 1,
                    uri@,
                    now@,
                ),
            ),
            ..old(db)@
        }),
{
    let ghost was = db@;
    let id: i64 = last_event_id(&db.dataset_events) + 1;
    let rule: UpdateOutside = UpdateOutside { uri, now };
    proof {
        assert forall|k: int|
            0 <= k < db.datasets@.len() && rule.hits((#[trigger] db.datasets@[k])@) implies rule.fits(
                db.datasets@[k]@
            ) by {
            assert(was.datasets[k] == db.datasets@[k]@);
        }
        lemma_any_same(was.datasets, |d: DatasetView| rule.hits(d), |d: DatasetView| d.uri == uri@);
    }
    let hit: bool = update_any(&mut db.datasets, &rule);
    assert(db@.datasets =~= amended(
        was.datasets,
        |d: DatasetView| d.uri == uri@,
        |d: DatasetView| DatasetView { updated_at: now@, updates: d.updates + 1, ..d },
    ));
    if !hit {
        assert(db@.datasets =~= was.datasets);
        let row: Dataset = Dataset {
            uri: uri.to_owned(),
            updated_at: now.to_owned(),
            last_run_id: None,
            last_task: None,
            updates: 1,
        };
        let ghost r = row@;
        db.datasets.push(row);
        assert(db@.datasets =~= was.datasets.push(r));
    }
    let event: DatasetEvent = DatasetEvent {
        id,
        uri: uri.to_owned(),
        workflow: None,
        run_id: None,
        task_id: None,
        task_name: None,
        source: "external".to_owned(),
        at: now.to_owned(),
    };
    let ghost e = event@;
    db.dataset_events.push(event);
    assert(db@.dataset_events =~= was.dataset_events.push(e));
}

proof fn lemma_top_event_push(events: Seq<DatasetEventView>, e: DatasetEventView, uri: Seq<char>, n: int)
    requires
        0 <= n <= events.len(),
    ensures
        top_event(events.push(e), uri, n) == top_event(events, uri, n),
    decreases n,
{
    if n > 0 {
        lemma_top_event_push(events, e, uri, n - 1);
    }
}

proof fn lemma_top_below_last(events: Seq<DatasetEventView>, uri: Seq<char>, n: int)
    requires
        0 <= n <= events.len(),
    ensures
        top_event(events, uri, n) is Some ==> top_event(events, uri, n)->0 <= last_id(events, n),
        last_id(events, n) >= 0,
    decreases n,
{
    if n > 0 {
        lemma_top_below_last(events, uri, n - 1);
    }
}

/// A new ledger entry is newer than everything before it: the high-water mark of
/// its dataset rises to it, and no other dataset's moves.
pub proof fn law_ledger_rises(events: Seq<DatasetEventView>, e: DatasetEventView, other: Seq<char>)
    requires
        e.id == last_id(events, events.len() as int) + 1,
    ensures
        high_water(events.push(e), e.uri) == e.id,
        high_water(events, e.uri) < high_water(events.push(e), e.uri),
        other != e.uri ==> high_water(events.push(e), other) == high_water(events, other),
{
    let n = events.len() as int;
    lemma_top_event_push(events, e, e.uri, n);
    lemma_top_event_push(events, e, other, n);
    lemma_top_below_last(events, e.uri, n);
    assert(events.push(e)[n] == e);
}

// ── Dataset sensors ──────────────────────────────────────────────────────────

struct ParkDataset<'a> {
    task_id: &'a str,
    fence: i64,
    uri: &'a str,
    cursor: i64,
}

/// A sensor parked on a dataset, past the mark `cursor`.
pub open spec fn parked_on_dataset(t: TaskRunView, uri: Seq<char>, cursor: int) -> TaskRunView {
    TaskRunView {
        wait_dataset: Some(uri),
        wait_dataset_cursor: Some(cursor),
        claimed_by: None,
        lease_expires_at: None,
        ..t
    }
}

impl<'a> Rule<TaskRun> for ParkDataset<'a> {
    closed spec fn hits(&self, t: TaskRunView) -> bool {
        running_at(t, self.task_id@, self.fence as int)
    }

    closed spec fn image(&self, t: TaskRunView) -> TaskRunView {
        parked_on_dataset(t, self.uri@, self.cursor as int)
    }

    closed spec fn fits(&self, t: TaskRunView) -> bool {
        true
    }

    fn apply(&self, row: &mut TaskRun) -> (hit: bool) {
        if is_running_at(row, self.task_id, self.fence) {
            row.wait_dataset = Some(self.uri.to_owned());
            row.wait_dataset_cursor = Some(self.cursor);
            row.claimed_by = None;
            row.lease_expires_at = None;
            true
        } else {
            false
        }
    }
}

/// Parks a claimed sensor on a dataset at the ledger's present mark: only an
/// update that comes later ends its wait.
pub fn park_wait_dataset(db: &mut Store, task_id: &str, fence: i64, uri: &str) -> (done: bool)
    ensures
        done == any(old(db)@.tasks, |t: TaskRunView| running_at(t, task_id@, fence as int)),
        final(db)@ == (StoreView {
            tasks: amended(
                old(db)@.tasks,
                |t: TaskRunView| running_at(t, task_id@, fence as int),
                |t: TaskRunView|
                    parked_on_dataset(t, uri@, high_water(old(db)@.dataset_events, uri@)),
            ),
            ..old(db)@
        }),
{
    let ghost was = db@;
    let cursor: i64 = water_mark(&db.dataset_events, uri);
    let rule: ParkDataset = ParkDataset { task_id, fence, uri, cursor };
    let done: bool = update_any(&mut db.tasks, &rule);
    proof {
        lemma_any_same(
            was.tasks,
            |t: TaskRunView| rule.hits(t),
            |t: TaskRunView| running_at(t, task_id@, fence as int),
        );
    }
    assert(db@.tasks =~= amended(
        was.tasks,
        |t: TaskRunView| running_at(t, task_id@, fence as int),
        |t: TaskRunView| parked_on_dataset(t, uri@, high_water(was.dataset_events, uri@)),
    ));
    done
}

/// The dataset of a parked sensor has an update past its cursor.
pub open spec fn dataset_arrived(events: Seq<DatasetEventView>, t: TaskRunView) -> bool {
    &&& t.status == TaskStatus::Running
    &&& t.wait_dataset is Some
    &&& any(
        events,
        |e: DatasetEventView|
            e.uri == t.wait_dataset->0 && e.id > (match t.wait_dataset_cursor {
                Some(c) => c,
                None => 0,
            }),
    )
}

/// No event of a dataset lies above its highest.
proof fn lemma_top_is_highest(events: Seq<DatasetEventView>, uri: Seq<char>, n: int)
    requires
        0 <= n <= events.len(),
    ensures
        forall|i: int|
            0 <= i < n && (#[trigger] events[i]).uri == uri ==> top_event(events, uri, n) is Some
                && events[i].id <= top_event(events, uri, n)->0,
    decreases n,
{
    if n > 0 {
        lemma_top_is_highest(events, uri, n - 1);
    }
}

/// A sensor that is parked on a dataset waits for news: nothing that the ledger
/// held when it was parked ends its wait, the next update of its dataset does,
/// and an update of another dataset does not.
pub proof fn law_sensor_waits_for_news(
    events: Seq<DatasetEventView>,
    t: TaskRunView,
    uri: Seq<char>,
    e: DatasetEventView,
)
    requires
        t.status == TaskStatus::Running,
        e.id == last_id(events, events.len() as int) + 1,
    ensures
        ({
            let parked = parked_on_dataset(t, uri, high_water(events, uri));
            &&& !dataset_arrived(events, parked)
            &&& dataset_arrived(events.push(e), parked) <==> e.uri == uri
        }),
{
    let parked = parked_on_dataset(t, uri, high_water(events, uri));
    let more = events.push(e);
    lemma_top_is_highest(events, uri, events.len() as int);
    law_ledger_rises(events, e, uri);
    if e.uri == uri {
        assert(more[events.len() as int] == e);
    } else {
        assert forall|i: int| 0 <= i < more.len() && (#[trigger] more[i]).uri == uri implies more[i].id
            <= high_water(events, uri) by {
            assert(more[i] == events[i]);
        }
    }
}

/// A sensor parked on a dataset.
pub open spec fn waits_for_dataset(t: TaskRunView, id: Seq<char>) -> bool {
    t.id == id && t.status == TaskStatus::Running && t.wait_dataset is Some
}

/// The sensor at the end of its wait.
pub open spec fn dataset_came(t: TaskRunView, now: Seq<char>) -> TaskRunView {
    TaskRunView {
        status: TaskStatus::Succeeded,
        finished_at: Some(now),
        output: Some("dataset updated"@),
        ..t
    }
}

/// The store after a sensor's dataset was updated.
pub open spec fn after_dataset(
    db: StoreView,
    task_id: Seq<char>,
    now: Seq<char>,
) -> StoreView {
    settled(
        db,
        task_id,
        |t: TaskRunView| waits_for_dataset(t, task_id),
        |t: TaskRunView| dataset_came(t, now),
    )
}

struct EndDatasetWait<'a> {
    task_id: &'a str,
    now: &'a str,
}

impl<'a> Rule<TaskRun> for EndDatasetWait<'a> {
    closed spec fn hits(&self, t: TaskRunView) -> bool {
        waits_for_dataset(t, self.task_id@)
    }

    closed spec fn image(&self, t: TaskRunView) -> TaskRunView {
        dataset_came(t, self.now@)
    }

    closed spec fn fits(&self, t: TaskRunView) -> bool {
        true
    }

    fn apply(&self, row: &mut TaskRun) -> (hit: bool) {
        if row.status == TaskStatus::Running
            && row.wait_dataset.is_some()
            && same(row.id.as_str(), self.task_id)
        {
            row.status = TaskStatus::Succeeded;
            row.finished_at = Some(self.now.to_owned());
            row.output = Some("dataset updated".to_owned());
            true
        } else {
            false
        }
    }
}

/// Ends a sensor that is parked on a dataset.
fn end_dataset_wait(db: &mut Store, task_id: &str, now: &str) -> (done: bool)
    requires
        deps_fit(old(db)@.tasks, 1),
    ensures
        done == any(old(db)@.tasks, |t: TaskRunView| waits_for_dataset(t, task_id@)),
        final(db)@ == after_dataset(old(db)@, task_id@, now@),
{
    let ghost was = db@;
    let rule: EndDatasetWait = EndDatasetWait { task_id, now };
    let done: bool = settle(db, &rule, task_id);
    assert(amended(was.tasks, |t: TaskRunView| rule.hits(t), |t: TaskRunView| rule.image(t))
        =~= amended(
        was.tasks,
        |t: TaskRunView| waits_for_dataset(t, task_id@),
        |t: TaskRunView| dataset_came(t, now@),
    ));
    proof {
        lemma_any_same(
            was.tasks,
            |t: TaskRunView| rule.hits(t),
            |t: TaskRunView| waits_for_dataset(t, task_id@),
        );
    }
    done
}

/// The sensors whose datasets have arrived, each with its dataset.
pub open spec fn arrivals(db: StoreView) -> Seq<(Seq<char>, Seq<char>)> {
    places_where(db.tasks, |t: TaskRunView| dataset_arrived(db.dataset_events, t)).map_values(
        |i: int| (db.tasks[i].id, db.tasks[i].wait_dataset->0),
    )
}

/// One sensor ended.
pub open spec fn end_arrival(now: Seq<char>) -> spec_fn(StoreView, (Seq<char>, Seq<char>)) -> StoreView {
    |db: StoreView, a: (Seq<char>, Seq<char>)| after_dataset(db, a.0, now)
}

/// The sensor still waits.
pub open spec fn arrival_open() -> spec_fn(StoreView, (Seq<char>, Seq<char>)) -> bool {
    |db: StoreView, a: (Seq<char>, Seq<char>)|
        any(db.tasks, |t: TaskRunView| waits_for_dataset(t, a.0))
}

struct NewerEvent<'a> {
    uri: &'a str,
    cursor: i64,
}

impl<'a> Keep<DatasetEvent> for NewerEvent<'a> {
    closed spec fn keeps(&self, e: DatasetEventView) -> bool {
        e.uri == self.uri@ && e.id > self.cursor
    }

    fn keep(&self, row: &DatasetEvent) -> (r: bool) {
        row.id > self.cursor && same(row.uri.as_str(), self.uri)
    }
}

struct Arrived<'a> {
    events: &'a Vec<DatasetEvent>,
}

impl<'a> Keep<TaskRun> for Arrived<'a> {
    closed spec fn keeps(&self, t: TaskRunView) -> bool {
        dataset_arrived(views(self.events@), t)
    }

    fn keep(&self, row: &TaskRun) -> (r: bool) {
        if row.status != TaskStatus::Running {
            return false;
        }
        let cursor: i64 = match row.wait_dataset_cursor {
            Some(c) => c,
            None => 0,
        };
        match &row.wait_dataset {
            Some(uri) => {
                let keep: NewerEvent = NewerEvent { uri: uri.as_str(), cursor };
                let found: Option<usize> = find_row(self.events, &keep);
                proof {
                    let t = row@;
                    let p = |e: DatasetEventView|
                        e.uri == t.wait_dataset->0 && e.id > (match t.wait_dataset_cursor {
                            Some(c) => c,
                            None => 0,
                        });
                    assert(p =~= (|e: DatasetEventView| keep.keeps(e)));
                    lemma_first(views(self.events@), p);
                }
                found.is_some()
            },
            None => false,
        }
    }
}

/// Ends every sensor whose dataset has an update past its cursor; the dependents
/// of each wait for one less.
pub fn reconcile_dataset_waits(db: &mut Store, now: &str) -> (out: Vec<(String, String)>)
    requires
        deps_fit(old(db)@.tasks, old(db)@.tasks.len() as int),
    ensures
        ({
            let was = old(db)@;
            &&& final(db)@ == folded(was, arrivals(was), end_arrival(now@))
            &&& text_pairs(out@) == taken(was, arrivals(was), end_arrival(now@), arrival_open())
        }),
{
    let ghost was = db@;
    let ghost over = arrivals(was);
    let ghost step = end_arrival(now@);
    let ghost takes = arrival_open();
    let keep: Arrived = Arrived { events: &db.dataset_events };
    let q: Vec<usize> = select_all(&db.tasks, &keep);
    assert((|t: TaskRunView| dataset_arrived(was.dataset_events, t)) =~= (|t: TaskRunView|
        keep.keeps(t)));
    let mut items: Vec<(String, String)> = Vec::new();
    let mut k: usize = 0;
    while k < q.len()
        invariant
            k <= q@.len(),
            k == items@.len(),
            db@ == was,
            over == arrivals(was),
            places(q@) == places_where(
                was.tasks,
                |t: TaskRunView| dataset_arrived(was.dataset_events, t),
            ),
            forall|x: int| 0 <= x < q@.len() ==> #[trigger] q@[x] < was.tasks.len(),
            forall|x: int|
                0 <= x < q@.len() ==> dataset_arrived(
                    was.dataset_events,
                    (#[trigger] db.tasks@[places(q@)[x]])@,
                ),
            forall|x: int|
                0 <= x < k ==> (#[trigger] over[x]).0 == items@[x].0@ && over[x].1 == items@[x].1@,
        decreases q@.len() - k,
    {
        let i: usize = q[k];
        let row: &TaskRun = &db.tasks[i];
        assert(was.tasks[i as int] == row@);
        assert(places(q@)[k as int] == i);
        assert(dataset_arrived(was.dataset_events, db.tasks@[places(q@)[k as int]]@));
        let uri: String = match &row.wait_dataset {
            Some(uri) => uri.clone(),
            None => String::new(),
        };
        items.push((row.id.clone(), uri));
        k += 1;
    }
    let mut out: Vec<(String, String)> = Vec::new();
    let mut n: usize = 0;
    assert(over.take(0) =~= Seq::<(Seq<char>, Seq<char>)>::empty());
    assert(text_pairs(out@) =~= taken(was, over.take(0), step, takes));
    while n < items.len()
        invariant
            n <= items@.len(),
            items@.len() == over.len(),
            over.len() <= was.tasks.len(),
            step == end_arrival(now@),
            takes == arrival_open(),
            forall|x: int|
                0 <= x < over.len() ==> (#[trigger] over[x]).0 == items@[x].0@ && over[x].1 == items@[x].1@,
            db@ == folded(was, over.take(n as int), step),
            deps_fit(db@.tasks, was.tasks.len() - n),
            text_pairs(out@) == taken(was, over.take(n as int), step, takes),
        decreases items@.len() - n,
    {
        let ghost now_db = db@;
        let ghost a = over[n as int];
        proof {
            lemma_turn(was, over, step, takes, n as int);
            lemma_settled_room(
                now_db,
                a.0,
                |t: TaskRunView| waits_for_dataset(t, a.0),
                |t: TaskRunView| dataset_came(t, now@),
                was.tasks.len() - n,
            );
        }
        let done: bool = end_dataset_wait(db, items[n].0.as_str(), now);
        if done {
            let ghost told = text_pairs(out@);
            out.push((items[n].0.clone(), items[n].1.clone()));
            assert(text_pairs(out@) =~= told.push(a));
        }
        n += 1;
    }
    assert(over.take(over.len() as int) =~= over);
    out
}

// ── Reads ────────────────────────────────────────────────────────────────────

struct EveryDataset {}

impl Keep<Dataset> for EveryDataset {
    closed spec fn keeps(&self, d: DatasetView) -> bool {
        true
    }

    fn keep(&self, row: &Dataset) -> (r: bool) {
        true
    }
}

struct LatestUpdate {}

impl Order<Dataset> for LatestUpdate {
    closed spec fn lt(&self, a: DatasetView, b: DatasetView) -> bool {
        lex_lt(b.updated_at, a.updated_at)
    }

    fn sorts_before(&self, a: &Dataset, b: &Dataset) -> (r: bool) {
        before(b.updated_at.as_str(), a.updated_at.as_str())
    }
}

/// The registry, the latest update first.
pub fn list_datasets(db: &Store, limit: i64) -> (out: Vec<Dataset>)
    ensures
        views(out@) == rows_at(
            db@.datasets,
            limited(
                ordered(
                    db@.datasets,
                    |d: DatasetView| true,
                    |a: DatasetView, b: DatasetView| lex_lt(b.updated_at, a.updated_at),
                    db@.datasets.len() as int,
                ),
                limit as int,
            ),
        ),
{
    let keep: EveryDataset = EveryDataset {};
    let order: LatestUpdate = LatestUpdate {};
    let q: Vec<usize> = select(&db.datasets, &keep, &order);
    let len: usize = limit_of(q.len(), limit);
    proof {
        assert((|d: DatasetView| true) =~= (|d: DatasetView| keep.keeps(d)));
        assert((|a: DatasetView, b: DatasetView| lex_lt(b.updated_at, a.updated_at)) =~= (
        |a: DatasetView, b: DatasetView| order.lt(a, b)));
        assert(limited(places(q@), limit as int) =~= places(q@).take(len as int));
    }
    copy_at(&db.datasets, &q, len)
}

struct EventOf<'a> {
    uri: Option<&'a str>,
}

/// An event of the dataset asked for, or of any.
pub open spec fn event_of(e: DatasetEventView, uri: Option<Seq<char>>) -> bool {
    match uri {
        Some(u) => e.uri == u,
        None => true,
    }
}

/// A text that may be missing.
pub open spec fn opt_text(o: Option<&str>) -> Option<Seq<char>> {
    match o {
        Some(s) => Some(s@),
        None => None,
    }
}

impl<'a> Keep<DatasetEvent> for EventOf<'a> {
    closed spec fn keeps(&self, e: DatasetEventView) -> bool {
        event_of(e, opt_text(self.uri))
    }

    fn keep(&self, row: &DatasetEvent) -> (r: bool) {
        match self.uri {
            Some(u) => same(row.uri.as_str(), u),
            None => true,
        }
    }
}

struct LatestEvent {}

impl Order<DatasetEvent> for LatestEvent {
    closed spec fn lt(&self, a: DatasetEventView, b: DatasetEventView) -> bool {
        b.id < a.id
    }

    fn sorts_before(&self, a: &DatasetEvent, b: &DatasetEvent) -> (r: bool) {
        b.id < a.id
    }
}

/// The ledger, the latest entry first, of one dataset or of all.
pub fn list_dataset_events(db: &Store, uri: Option<&str>, limit: i64) -> (out: Vec<DatasetEvent>)
    ensures
        views(out@) == rows_at(
            db@.dataset_events,
            limited(
                ordered(
                    db@.dataset_events,
                    |e: DatasetEventView| event_of(e, opt_text(uri)),
                    |a: DatasetEventView, b: DatasetEventView| b.id < a.id,
                    db@.dataset_events.len() as int,
                ),
                limit as int,
            ),
        ),
{
    let keep: EventOf = EventOf { uri };
    let order: LatestEvent = LatestEvent {};
    let q: Vec<usize> = select(&db.dataset_events, &keep, &order);
    let len: usize = limit_of(q.len(), limit);
    proof {
        assert((|e: DatasetEventView| event_of(e, opt_text(uri))) =~= (|e: DatasetEventView|
            keep.keeps(e)));
        assert((|a: DatasetEventView, b: DatasetEventView| b.id < a.id) =~= (
        |a: DatasetEventView, b: DatasetEventView| order.lt(a, b)));
        assert(limited(places(q@), limit as int) =~= places(q@).take(len as int));
    }
    copy_at(&db.dataset_events, &q, len)
}

} // verus!
