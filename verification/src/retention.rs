//! Retention: archiving finished runs, and removing them for good.
use vstd::prelude::*;
use vstd::string::*;
use crate::claims::{time_before, time_sorts_before};
use crate::dag::contains_text;
use crate::order::{
    copy_at, find_row, lemma_first, lemma_ordered_members, limit_of, limited, ordered, places,
    places_where, rows_at, select, select_all, column_at, Column, Keep, Order,
};
use crate::queries::definition_with;
use crate::reruns::finished_run;
use crate::rows::{
    opt, views, ArchivedRun, ArchivedRunView, Definition, DefinitionView, Edge, EdgeView, OutboxRow,
    OutboxRowView, Row, TaskRun, TaskRunView, WorkflowRun, WorkflowRunView,
};
use crate::store::{is_past, past, Store, StoreView};
use crate::table::{
    amended, any, count, delete_all, lemma_any_same, lemma_count_same, update_all, update_any, Rule,
};
use crate::text::{before, lex_lt, same, texts};

verus! {

// ── Archiving ────────────────────────────────────────────────────────────────

/// The name under which a run's document is kept.
pub fn document_name(run_id: &str) -> (s: String)
    ensures
        s@ == "run-"@ + run_id@ + ".json"@,
{
    let mut s: String = "run-".to_owned();
    s.append(run_id);
    s.append(".json");
    s
}

/// All that is kept of a run: its row, its definition, its tasks by name, and
/// its events by age.
#[derive(Debug, Clone)]
pub struct RunArchive {
    pub run: WorkflowRun,
    pub definition_name: String,
    pub definition_spec: String,
    pub tasks: Vec<TaskRun>,
    pub outbox_events: Vec<OutboxRow>,
}

#[verifier::ext_equal]
pub struct RunArchiveView {
    pub run: WorkflowRunView,
    pub definition_name: Seq<char>,
    pub definition_spec: Seq<char>,
    pub tasks: Seq<TaskRunView>,
    pub outbox_events: Seq<OutboxRowView>,
}

impl View for RunArchive {
    type V = RunArchiveView;

    open spec fn view(&self) -> RunArchiveView {
        RunArchiveView {
            run: self.run@,
            definition_name: self.definition_name@,
            definition_spec: self.definition_spec@,
            tasks: views(self.tasks@),
            outbox_events: views(self.outbox_events@),
        }
    }
}

/// A run that finished before `cutoff`.
pub open spec fn expired(r: WorkflowRunView, cutoff: Seq<char>) -> bool {
    r.status.terminal() && past(r.finished_at, cutoff)
}

/// The runs to archive: the first to finish first.
pub open spec fn to_archive(runs: Seq<WorkflowRunView>, cutoff: Seq<char>, limit: int) -> Seq<int> {
    limited(
        ordered(
            runs,
            |r: WorkflowRunView| expired(r, cutoff),
            |a: WorkflowRunView, b: WorkflowRunView| time_before(a.finished_at, b.finished_at),
            runs.len() as int,
        ),
        limit,
    )
}

/// The tasks of a run, by name.
pub open spec fn tasks_of(tasks: Seq<TaskRunView>, run_id: Seq<char>) -> Seq<TaskRunView> {
    rows_at(
        tasks,
        ordered(
            tasks,
            |t: TaskRunView| t.run_id == run_id,
            |a: TaskRunView, b: TaskRunView| lex_lt(a.name, b.name),
            tasks.len() as int,
        ),
    )
}

/// The events of a run, by age.
pub open spec fn events_of(outbox: Seq<OutboxRowView>, run_id: Seq<char>) -> Seq<OutboxRowView> {
    rows_at(
        outbox,
        ordered(
            outbox,
            |e: OutboxRowView| e.run_id == run_id,
            |a: OutboxRowView, b: OutboxRowView| lex_lt(a.created_at, b.created_at),
            outbox.len() as int,
        ),
    )
}

/// All that is kept of a run with the definition `d`.
pub open spec fn archive_of(db: StoreView, r: WorkflowRunView, d: DefinitionView) -> RunArchiveView {
    RunArchiveView {
        run: r,
        definition_name: d.name,
        definition_spec: d.spec,
        tasks: tasks_of(db.tasks, r.id),
        outbox_events: events_of(db.outbox, r.id),
    }
}

/// Every run at the places `q` has its definition.
pub open spec fn all_defined(db: StoreView, q: Seq<int>) -> bool {
    forall|k: int|
        0 <= k < q.len() ==> definition_with(db.definitions, (#[trigger] db.runs[q[k]]).definition_id) is Some
}

/// All that is kept of the runs at the places `q`.
pub open spec fn archives(db: StoreView, q: Seq<int>) -> Seq<RunArchiveView> {
    q.map_values(
        |i: int|
            archive_of(
                db,
                db.runs[i],
                definition_with(db.definitions, db.runs[i].definition_id)->0,
            ),
    )
}

struct Expired<'a> {
    cutoff: &'a str,
}

impl<'a> Keep<WorkflowRun> for Expired<'a> {
    closed spec fn keeps(&self, r: WorkflowRunView) -> bool {
        expired(r, self.cutoff@)
    }

    fn keep(&self, row: &WorkflowRun) -> (r: bool) {
        row.status.is_terminal() && is_past(&row.finished_at, self.cutoff)
    }
}

struct FirstFinished {}

impl Order<WorkflowRun> for FirstFinished {
    closed spec fn lt(&self, a: WorkflowRunView, b: WorkflowRunView) -> bool {
        time_before(a.finished_at, b.finished_at)
    }

    fn sorts_before(&self, a: &WorkflowRun, b: &WorkflowRun) -> (r: bool) {
        time_sorts_before(&a.finished_at, &b.finished_at)
    }
}

struct TaskOf<'a> {
    run_id: &'a str,
}

impl<'a> Keep<TaskRun> for TaskOf<'a> {
    closed spec fn keeps(&self, r: TaskRunView) -> bool {
        r.run_id == self.run_id@
    }

    fn keep(&self, row: &TaskRun) -> (r: bool) {
        same(row.run_id.as_str(), self.run_id)
    }
}

struct TaskByName {}

impl Order<TaskRun> for TaskByName {
    closed spec fn lt(&self, a: TaskRunView, b: TaskRunView) -> bool {
        lex_lt(a.name, b.name)
    }

    fn sorts_before(&self, a: &TaskRun, b: &TaskRun) -> (r: bool) {
        before(a.name.as_str(), b.name.as_str())
    }
}

struct EventOfRun<'a> {
    run_id: &'a str,
}

impl<'a> Keep<OutboxRow> for EventOfRun<'a> {
    closed spec fn keeps(&self, r: OutboxRowView) -> bool {
        r.run_id == self.run_id@
    }

    fn keep(&self, row: &OutboxRow) -> (r: bool) {
        same(row.run_id.as_str(), self.run_id)
    }
}

struct EventByAge {}

impl Order<OutboxRow> for EventByAge {
    closed spec fn lt(&self, a: OutboxRowView, b: OutboxRowView) -> bool {
        lex_lt(a.created_at, b.created_at)
    }

    fn sorts_before(&self, a: &OutboxRow, b: &OutboxRow) -> (r: bool) {
        before(a.created_at.as_str(), b.created_at.as_str())
    }
}

struct DefinitionId<'a> {
    id: &'a str,
}

impl<'a> Keep<Definition> for DefinitionId<'a> {
    closed spec fn keeps(&self, r: DefinitionView) -> bool {
        r.id == self.id@
    }

    fn keep(&self, row: &Definition) -> (r: bool) {
        same(row.id.as_str(), self.id)
    }
}

fn copy_tasks(tasks: &Vec<TaskRun>, run_id: &str) -> (out: Vec<TaskRun>)
    ensures
        views(out@) == tasks_of(views(tasks@), run_id@),
{
    let keep: TaskOf = TaskOf { run_id };
    let order: TaskByName = TaskByName {};
    let q: Vec<usize> = select(tasks, &keep, &order);
    proof {
        assert((|t: TaskRunView| t.run_id == run_id@) =~= (|t: TaskRunView| keep.keeps(t)));
        assert((|a: TaskRunView, b: TaskRunView| lex_lt(a.name, b.name)) =~= (
        |a: TaskRunView, b: TaskRunView| order.lt(a, b)));
        assert(places(q@).take(q@.len() as int) =~= places(q@));
    }
    copy_at(tasks, &q, q.len())
}

fn copy_events(outbox: &Vec<OutboxRow>, run_id: &str) -> (out: Vec<OutboxRow>)
    ensures
        views(out@) == events_of(views(outbox@), run_id@),
{
    let keep: EventOfRun = EventOfRun { run_id };
    let order: EventByAge = EventByAge {};
    let q: Vec<usize> = select(outbox, &keep, &order);
    proof {
        assert((|e: OutboxRowView| e.run_id == run_id@) =~= (|e: OutboxRowView| keep.keeps(e)));
        assert((|a: OutboxRowView, b: OutboxRowView| lex_lt(a.created_at, b.created_at)) =~= (
        |a: OutboxRowView, b: OutboxRowView| order.lt(a, b)));
        assert(places(q@).take(q@.len() as int) =~= places(q@));
    }
    copy_at(outbox, &q, q.len())
}

/// What is kept of up to `limit` runs that finished before `cutoff`, the first to
/// finish first. `None` where one of them has lost its definition.
pub fn archivable_runs(db: &Store, cutoff: &str, limit: i64) -> (r: Option<Vec<RunArchive>>)
    ensures
        ({
            let q = to_archive(db@.runs, cutoff@, limit as int);
            match r {
                Some(out) => all_defined(db@, q) && views(out@) == archives(db@, q),
                None => !all_defined(db@, q),
            }
        }),
{
    let ghost view = db@;
    let keep: Expired = Expired { cutoff };
    let order: FirstFinished = FirstFinished {};
    let q: Vec<usize> = select(&db.runs, &keep, &order);
    let len: usize = limit_of(q.len(), limit);
    let ghost line = to_archive(view.runs, cutoff@, limit as int);
    let ghost f = |i: int|
        archive_of(
            view,
            view.runs[i],
            definition_with(view.definitions, view.runs[i].definition_id)->0,
        );
    proof {
        assert((|r: WorkflowRunView| expired(r, cutoff@)) =~= (|r: WorkflowRunView| keep.keeps(r)));
        assert((|a: WorkflowRunView, b: WorkflowRunView| time_before(a.finished_at, b.finished_at))
            =~= (|a: WorkflowRunView, b: WorkflowRunView| order.lt(a, b)));
        assert(line =~= places(q@).take(len as int));
    }
    let mut out: Vec<RunArchive> = Vec::new();
    let mut k: usize = 0;
    assert(views(out@) =~= line.take(0).map_values(f));
    while k < len
        invariant
            k <= len <= q@.len(),
            view == db@,
            line == to_archive(view.runs, cutoff@, limit as int),
            line == places(q@).take(len as int),
            f == (|i: int|
                archive_of(
                    view,
                    view.runs[i],
                    definition_with(view.definitions, view.runs[i].definition_id)->0,
                )),
            forall|x: int| 0 <= x < q@.len() ==> #[trigger] q@[x] < view.runs.len(),
            forall|x: int|
                0 <= x < k ==> definition_with(
                    view.definitions,
                    (#[trigger] view.runs[line[x]]).definition_id,
                ) is Some,
            views(out@) == line.take(k as int).map_values(f),
        decreases len - k,
    {
        let i: usize = q[k];
        let row: &WorkflowRun = &db.runs[i];
        assert(view.runs[i as int] == row@);
        assert(line[k as int] == i);
        let by_id: DefinitionId = DefinitionId { id: row.definition_id.as_str() };
        let found: Option<usize> = find_row(&db.definitions, &by_id);
        assert((|d: DefinitionView| d.id == row@.definition_id) =~= (|d: DefinitionView|
            by_id.keeps(d)));
        match found {
            Some(d) => {
                assert(view.definitions[d as int] == db.definitions@[d as int]@);
                let archive: RunArchive = RunArchive {
                    run: row.duplicate(),
                    definition_name: db.definitions[d].name.clone(),
                    definition_spec: db.definitions[d].spec.clone(),
                    tasks: copy_tasks(&db.tasks, row.id.as_str()),
                    outbox_events: copy_events(&db.outbox, row.id.as_str()),
                };
                assert(archive@ =~= f(i as int));
                let ghost told = views(out@);
                out.push(archive);
                assert(views(out@) =~= told.push(f(i as int)));
            },
            None => {
                assert(definition_with(view.definitions, view.runs[line[k as int]].definition_id)
                    is None);
                return None;
            },
        }
        assert(line.take(k as int + 1) =~= line.take(k as int).push(i as int));
        assert(line.take(k as int + 1).map_values(f) =~= line.take(k as int).map_values(f).push(
            f(i as int),
        ));
        k += 1;
    }
    assert(line.take(len as int) =~= line);
    Some(out)
}

/// What the index tells of an archived run.
pub struct ArchiveEntry {
    pub name: Seq<char>,
    pub status: Seq<char>,
    pub created_at: Option<Seq<char>>,
    pub finished_at: Option<Seq<char>>,
}

/// The index with one run archived; a run archived before is told of anew.
pub open spec fn indexed(
    archived: Seq<ArchivedRunView>,
    run_id: Seq<char>,
    e: ArchiveEntry,
    now: Seq<char>,
) -> Seq<ArchivedRunView> {
    if any(archived, |a: ArchivedRunView| a.run_id == run_id) {
        amended(
            archived,
            |a: ArchivedRunView| a.run_id == run_id,
            |a: ArchivedRunView|
                ArchivedRunView {
                    name: e.name,
                    status: e.status,
                    created_at: e.created_at,
                    finished_at: e.finished_at,
                    archived_at: now,
                    ..a
                },
        )
    } else {
        archived.push(
            ArchivedRunView {
                run_id,
                name: e.name,
                status: e.status,
                created_at: e.created_at,
                finished_at: e.finished_at,
                archived_at: now,
                compacted_at: None,
                parquet_path: None,
            },
        )
    }
}

struct Reindex<'a> {
    run_id: &'a str,
    name: &'a str,
    status: &'a str,
    created_at: &'a Option<String>,
    finished_at: &'a Option<String>,
    now: &'a str,
}

impl<'a> Rule<ArchivedRun> for Reindex<'a> {
    closed spec fn hits(&self, a: ArchivedRunView) -> bool {
        a.run_id == self.run_id@
    }

    closed spec fn image(&self, a: ArchivedRunView) -> ArchivedRunView {
        ArchivedRunView {
            name: self.name@,
            status: self.status@,
            created_at: opt(*self.created_at),
            finished_at: opt(*self.finished_at),
            archived_at: self.now@,
            ..a
        }
    }

    closed spec fn fits(&self, a: ArchivedRunView) -> bool {
        true
    }

    fn apply(&self, row: &mut ArchivedRun) -> (hit: bool) {
        if same(row.run_id.as_str(), self.run_id) {
            row.name = self.name.to_owned();
            row.status = self.status.to_owned();
            row.created_at = self.created_at.clone();
            row.finished_at = self.finished_at.clone();
            row.archived_at = self.now.to_owned();
            true
        } else {
            false
        }
    }
}

/// Notes in the index that a run is archived.
pub fn index_archived_run(
    db: &mut Store,
    run_id: &str,
    name: &str,
    status: &str,
    created_at: Option<String>,
    finished_at: Option<String>,
    now: &str,
)
    ensures
        final(db)@ == (StoreView {
            archived: indexed(
                old(db)@.archived,
                run_id@,
                ArchiveEntry {
                    name: name@,
                    status: status@,
                    created_at: opt(created_at),
                    finished_at: opt(finished_at),
                },
                now@,
            ),
            ..old(db)@
        }),
{
    let ghost was = db@;
    let rule: Reindex = Reindex {
        run_id,
        name,
        status,
        created_at: &created_at,
        finished_at: &finished_at,
        now,
    };
    proof {
        lemma_any_same(
            was.archived,
            |a: ArchivedRunView| rule.hits(a),
            |a: ArchivedRunView| a.run_id == run_id@,
        );
    }
    let hit: bool = update_any(&mut db.archived, &rule);
    assert(db@.archived =~= amended(
        was.archived,
        |a: ArchivedRunView| a.run_id == run_id@,
        |a: ArchivedRunView|
            ArchivedRunView {
                name: name@,
                status: status@,
                created_at: opt(created_at),
                finished_at: opt(finished_at),
                archived_at: now@,
                ..a
            },
    ));
    if !hit {
        assert(db@.archived =~= was.archived);
        let row: ArchivedRun = ArchivedRun {
            run_id: run_id.to_owned(),
            name: name.to_owned(),
            status: status.to_owned(),
            created_at,
            finished_at,
            archived_at: now.to_owned(),
            compacted_at: None,
            parquet_path: None,
        };
        let ghost r = row@;
        db.archived.push(row);
        assert(db@.archived =~= was.archived.push(r));
    }
}

/// The index with one run compacted.
pub open spec fn compacted_one(
    archived: Seq<ArchivedRunView>,
    id: Seq<char>,
    path: Seq<char>,
    now: Seq<char>,
) -> Seq<ArchivedRunView> {
    amended(
        archived,
        |a: ArchivedRunView| a.run_id == id,
        |a: ArchivedRunView|
            ArchivedRunView { compacted_at: Some(now), parquet_path: Some(path), ..a },
    )
}

/// The index with the first `n` runs compacted, and how many entries that touched.
pub open spec fn compacted(
    archived: Seq<ArchivedRunView>,
    ids: Seq<Seq<char>>,
    path: Seq<char>,
    now: Seq<char>,
    n: int,
) -> (Seq<ArchivedRunView>, nat)
    decreases n,
{
    if n <= 0 {
        (archived, 0)
    } else {
        let (rest, touched) = compacted(archived, ids, path, now, n - 1);
        (
            compacted_one(rest, ids[n - 1], path, now),
            touched + count(rest, |a: ArchivedRunView| a.run_id == ids[n - 1]),
        )
    }
}

struct Compact<'a> {
    id: &'a str,
    path: &'a str,
    now: &'a str,
}

impl<'a> Rule<ArchivedRun> for Compact<'a> {
    closed spec fn hits(&self, a: ArchivedRunView) -> bool {
        a.run_id == self.id@
    }

    closed spec fn image(&self, a: ArchivedRunView) -> ArchivedRunView {
        ArchivedRunView { compacted_at: Some(self.now@), parquet_path: Some(self.path@), ..a }
    }

    closed spec fn fits(&self, a: ArchivedRunView) -> bool {
        true
    }

    fn apply(&self, row: &mut ArchivedRun) -> (hit: bool) {
        if same(row.run_id.as_str(), self.id) {
            row.compacted_at = Some(self.now.to_owned());
            row.parquet_path = Some(self.path.to_owned());
            true
        } else {
            false
        }
    }
}

proof fn lemma_room(k: int, n: int, rows: int)
    requires
        0 <= k < n,
        0 <= rows,
        n * rows <= u64::MAX,
    ensures
        (k + 1) * rows <= u64::MAX,
        k * rows + rows == (k + 1) * rows,
{
    assert((k + 1) * rows <= n * rows) by (nonlinear_arith)
        requires
            k + 1 <= n,
            0 <= rows,
    ;
    assert(k * rows + rows == (k + 1) * rows) by (nonlinear_arith);
}

/// Notes in the index that runs were compacted into the file at `parquet_path`,
/// and says how many entries that touched.
pub fn mark_runs_compacted(db: &mut Store, run_ids: &Vec<String>, parquet_path: &str, now: &str) -> (n: u64)
    requires
        run_ids@.len() * old(db)@.archived.len() <= u64::MAX,
    ensures
        ({
            let want = compacted(
                old(db)@.archived,
                texts(run_ids@),
                parquet_path@,
                now@,
                run_ids@.len() as int,
            );
            &&& n == want.1
            &&& final(db)@ == (StoreView { archived: want.0, ..old(db)@ })
        }),
{
    let ghost was = db@;
    let ghost ids = texts(run_ids@);
    let ghost rows = was.archived.len();
    let mut n: u64 = 0;
    let mut i: usize = 0;
    while i < run_ids.len()
        invariant
            i <= run_ids@.len(),
            ids == texts(run_ids@),
            rows == was.archived.len(),
            db@.archived.len() == rows,
            run_ids@.len() * rows <= u64::MAX,
            n <= i * rows,
            n == compacted(was.archived, ids, parquet_path@, now@, i as int).1,
            db@ == (StoreView {
                archived: compacted(was.archived, ids, parquet_path@, now@, i as int).0,
                ..was
            }),
        decreases run_ids@.len() - i,
    {
        let ghost rest = db@.archived;
        assert(ids[i as int] == run_ids@[i as int]@);
        proof {
            lemma_room(i as int, run_ids@.len() as int, rows as int);
        }
        let rule: Compact = Compact { id: run_ids[i].as_str(), path: parquet_path, now };
        let hits: u64 = update_all(&mut db.archived, &rule);
        proof {
            lemma_count_same(
                rest,
                |a: ArchivedRunView| rule.hits(a),
                |a: ArchivedRunView| a.run_id == ids[i as int],
            );
            assert(db@.archived =~= compacted_one(rest, ids[i as int], parquet_path@, now@));
        }
        n = n + hits;
        i += 1;
    }
    n
}

// ── Removing ─────────────────────────────────────────────────────────────────

/// The store without the runs that satisfy `gone`: their tasks go with them, the
/// edges of those tasks, and every definition that no run is left of. `ids` says
/// whose tasks go.
pub open spec fn without_runs(
    db: StoreView,
    gone: spec_fn(WorkflowRunView) -> bool,
    ids: spec_fn(Seq<char>) -> bool,
) -> StoreView {
    let runs = db.runs.filter(|r: WorkflowRunView| !gone(r));
    StoreView {
        edges: db.edges.filter(
            |e: EdgeView|
                !any(db.tasks, |t: TaskRunView| t.id == e.dependent_id && ids(t.run_id)),
        ),
        tasks: db.tasks.filter(|t: TaskRunView| !ids(t.run_id)),
        runs,
        definitions: db.definitions.filter(
            |d: DefinitionView| any(runs, |r: WorkflowRunView| r.definition_id == d.id),
        ),
        ..db
    }
}

struct TaskOfAny<'a> {
    runs: &'a Vec<String>,
}

impl<'a> Keep<TaskRun> for TaskOfAny<'a> {
    closed spec fn keeps(&self, t: TaskRunView) -> bool {
        texts(self.runs@).contains(t.run_id)
    }

    fn keep(&self, row: &TaskRun) -> (r: bool) {
        contains_text(self.runs, row.run_id.as_str())
    }
}

struct NamedTaskOfAny<'a> {
    id: &'a str,
    runs: &'a Vec<String>,
}

impl<'a> Keep<TaskRun> for NamedTaskOfAny<'a> {
    closed spec fn keeps(&self, t: TaskRunView) -> bool {
        t.id == self.id@ && texts(self.runs@).contains(t.run_id)
    }

    fn keep(&self, row: &TaskRun) -> (r: bool) {
        same(row.id.as_str(), self.id) && contains_text(self.runs, row.run_id.as_str())
    }
}

struct EdgeOfAny<'a> {
    tasks: &'a Vec<TaskRun>,
    runs: &'a Vec<String>,
}

impl<'a> Keep<Edge> for EdgeOfAny<'a> {
    closed spec fn keeps(&self, e: EdgeView) -> bool {
        any(
            views(self.tasks@),
            |t: TaskRunView| t.id == e.dependent_id && texts(self.runs@).contains(t.run_id),
        )
    }

    fn keep(&self, row: &Edge) -> (r: bool) {
        let keep: NamedTaskOfAny = NamedTaskOfAny {
            id: row.dependent_id.as_str(),
            runs: self.runs,
        };
        let found: Option<usize> = find_row(self.tasks, &keep);
        proof {
            let p = |t: TaskRunView|
                t.id == row@.dependent_id && texts(self.runs@).contains(t.run_id);
            assert(p =~= (|t: TaskRunView| keep.keeps(t)));
            lemma_first(views(self.tasks@), p);
        }
        found.is_some()
    }
}

struct RunOf<'a> {
    definition: &'a str,
}

impl<'a> Keep<WorkflowRun> for RunOf<'a> {
    closed spec fn keeps(&self, r: WorkflowRunView) -> bool {
        r.definition_id == self.definition@
    }

    fn keep(&self, row: &WorkflowRun) -> (r: bool) {
        same(row.definition_id.as_str(), self.definition)
    }
}

struct Unused<'a> {
    runs: &'a Vec<WorkflowRun>,
}

impl<'a> Keep<Definition> for Unused<'a> {
    closed spec fn keeps(&self, d: DefinitionView) -> bool {
        !any(views(self.runs@), |r: WorkflowRunView| r.definition_id == d.id)
    }

    fn keep(&self, row: &Definition) -> (r: bool) {
        let keep: RunOf = RunOf { definition: row.id.as_str() };
        let found: Option<usize> = find_row(self.runs, &keep);
        proof {
            let p = |r: WorkflowRunView| r.definition_id == row@.id;
            assert(p =~= (|r: WorkflowRunView| keep.keeps(r)));
            lemma_first(views(self.runs@), p);
        }
        found.is_none()
    }
}

/// Removes the runs that `gone` keeps, with the tasks of the runs `ids`.
fn remove_runs<K: Keep<WorkflowRun>>(db: &mut Store, gone: &K, ids: &Vec<String>) -> (n: u64)
    ensures
        n == count(old(db)@.runs, |r: WorkflowRunView| gone.keeps(r)),
        final(db)@ == without_runs(
            old(db)@,
            |r: WorkflowRunView| gone.keeps(r),
            |id: Seq<char>| texts(ids@).contains(id),
        ),
{
    let ghost was = db@;
    let ghost among = |id: Seq<char>| texts(ids@).contains(id);
    let ghost want = without_runs(was, |r: WorkflowRunView| gone.keeps(r), among);
    let edges: EdgeOfAny = EdgeOfAny { tasks: &db.tasks, runs: ids };
    let _ = delete_all(&mut db.edges, &edges);
    proof {
        assert forall|e: EdgeView| !edges.keeps(e) == !any(
            was.tasks,
            |t: TaskRunView| t.id == e.dependent_id && among(t.run_id),
        ) by {
            lemma_any_same(
                was.tasks,
                |t: TaskRunView| t.id == e.dependent_id && texts(ids@).contains(t.run_id),
                |t: TaskRunView| t.id == e.dependent_id && among(t.run_id),
            );
        }
        assert((|e: EdgeView| !edges.keeps(e)) =~= (|e: EdgeView|
            !any(was.tasks, |t: TaskRunView| t.id == e.dependent_id && among(t.run_id))));
        assert(db@.edges == want.edges);
    }
    let tasks: TaskOfAny = TaskOfAny { runs: ids };
    let _ = delete_all(&mut db.tasks, &tasks);
    proof {
        assert((|t: TaskRunView| !tasks.keeps(t)) =~= (|t: TaskRunView| !among(t.run_id)));
        assert(db@.tasks == want.tasks);
    }
    let n: u64 = delete_all(&mut db.runs, gone);
    proof {
        let g = |r: WorkflowRunView| gone.keeps(r);
        assert((|r: WorkflowRunView| !gone.keeps(r)) =~= (|r: WorkflowRunView| !g(r)));
        assert(db@.runs == want.runs);
    }
    let unused: Unused = Unused { runs: &db.runs };
    let _ = delete_all(&mut db.definitions, &unused);
    proof {
        assert((|d: DefinitionView| !unused.keeps(d)) =~= (|d: DefinitionView|
            any(want.runs, |r: WorkflowRunView| r.definition_id == d.id)));
        assert(db@.definitions == want.definitions);
    }
    n
}

/// One of `ids` that names a run which is over.
pub open spec fn purgeable(runs: Seq<WorkflowRunView>, ids: Seq<Seq<char>>, id: Seq<char>) -> bool {
    ids.contains(id) && any(runs, |r: WorkflowRunView| finished_run(r, id))
}

struct FinishedRun<'a> {
    id: &'a str,
}

impl<'a> Keep<WorkflowRun> for FinishedRun<'a> {
    closed spec fn keeps(&self, r: WorkflowRunView) -> bool {
        finished_run(r, self.id@)
    }

    fn keep(&self, row: &WorkflowRun) -> (r: bool) {
        row.status.is_terminal() && same(row.id.as_str(), self.id)
    }
}

struct RunAmong<'a> {
    ids: &'a Vec<String>,
}

impl<'a> Keep<WorkflowRun> for RunAmong<'a> {
    closed spec fn keeps(&self, r: WorkflowRunView) -> bool {
        texts(self.ids@).contains(r.id)
    }

    fn keep(&self, row: &WorkflowRun) -> (r: bool) {
        contains_text(self.ids, row.id.as_str())
    }
}

proof fn lemma_push_holds(s: Seq<Seq<char>>, x: Seq<char>, y: Seq<char>)
    ensures
        s.push(x).contains(y) == (s.contains(y) || y == x),
{
    let t = s.push(x);
    if s.contains(y) {
        let k = choose|k: int| 0 <= k < s.len() && s[k] == y;
        assert(t[k] == y);
    }
    if y == x {
        assert(t[s.len() as int] == y);
    }
    if t.contains(y) {
        let k = choose|k: int| 0 <= k < t.len() && t[k] == y;
        if k < s.len() {
            assert(s[k] == y);
        }
    }
}

/// Those of `run_ids` that name a run which is over.
fn purgeable_ids(runs: &Vec<WorkflowRun>, run_ids: &Vec<String>) -> (out: Vec<String>)
    ensures
        forall|id: Seq<char>| #[trigger] texts(out@).contains(id) == purgeable(views(runs@), texts(run_ids@), id),
{
    let ghost all = views(runs@);
    let ghost asked = texts(run_ids@);
    let mut out: Vec<String> = Vec::new();
    let mut i: usize = 0;
    while i < run_ids.len()
        invariant
            i <= run_ids@.len(),
            all == views(runs@),
            asked == texts(run_ids@),
            forall|id: Seq<char>| #[trigger] texts(out@).contains(id) == purgeable(all, asked.take(i as int), id),
        decreases run_ids@.len() - i,
    {
        let ghost had = texts(out@);
        let ghost x = asked[i as int];
        assert(x == run_ids@[i as int]@);
        let keep: FinishedRun = FinishedRun { id: run_ids[i].as_str() };
        let found: Option<usize> = find_row(runs, &keep);
        proof {
            let p = |r: WorkflowRunView| finished_run(r, x);
            assert(p =~= (|r: WorkflowRunView| keep.keeps(r)));
            lemma_first(all, p);
            assert(asked.take(i as int + 1) =~= asked.take(i as int).push(x));
        }
        if found.is_some() {
            out.push(run_ids[i].clone());
            assert(texts(out@) =~= had.push(x));
        }
        proof {
            assert forall|id: Seq<char>| #[trigger] texts(out@).contains(id) == purgeable(
                all,
                asked.take(i as int + 1),
                id,
            ) by {
                lemma_push_holds(asked.take(i as int), x, id);
                lemma_push_holds(had, x, id);
                assert(had.contains(id) == purgeable(all, asked.take(i as int), id));
            }
        }
        i += 1;
    }
    assert(asked.take(asked.len() as int) =~= asked);
    out
}

/// Removes exactly those of `run_ids` that are over, each with its tasks and
/// their edges, and then the definitions that no run is left of. Says how many
/// runs went. With no ids, nothing changes.
pub fn purge_runs_by_id(db: &mut Store, run_ids: &Vec<String>) -> (n: u64)
    ensures
        n == count(
            old(db)@.runs,
            |r: WorkflowRunView| purgeable(old(db)@.runs, texts(run_ids@), r.id),
        ),
        final(db)@ == (if run_ids@.len() == 0 {
            old(db)@
        } else {
            without_runs(
                old(db)@,
                |r: WorkflowRunView| purgeable(old(db)@.runs, texts(run_ids@), r.id),
                |id: Seq<char>| purgeable(old(db)@.runs, texts(run_ids@), id),
            )
        }),
{
    let ghost was = db@;
    let ghost gone = |r: WorkflowRunView| purgeable(was.runs, texts(run_ids@), r.id);
    let ids: Vec<String> = purgeable_ids(&db.runs, run_ids);
    let keep: RunAmong = RunAmong { ids: &ids };
    proof {
        assert forall|r: WorkflowRunView| #[trigger] keep.keeps(r) == gone(r) by {
            assert(texts(ids@).contains(r.id) == purgeable(was.runs, texts(run_ids@), r.id));
        }
        assert(gone =~= (|r: WorkflowRunView| keep.keeps(r)));
        assert((|id: Seq<char>| purgeable(was.runs, texts(run_ids@), id)) =~= (|id: Seq<char>|
            texts(ids@).contains(id)));
    }
    if run_ids.len() == 0 {
        proof {
            assert forall|i: int| 0 <= i < was.runs.len() implies !gone(#[trigger] was.runs[i]) by {}
            crate::table::lemma_count_positive(was.runs, gone);
        }
        return 0;
    }
    remove_runs(db, &keep, &ids)
}

struct ExpiredId {}

impl Column<WorkflowRun> for ExpiredId {
    closed spec fn value(&self, r: WorkflowRunView) -> Seq<char> {
        r.id
    }

    fn read(&self, row: &WorkflowRun) -> (s: String) {
        row.id.clone()
    }
}

/// The id of a run that finished before `cutoff`.
pub open spec fn expired_id(runs: Seq<WorkflowRunView>, cutoff: Seq<char>, id: Seq<char>) -> bool {
    any(runs, |r: WorkflowRunView| r.id == id && expired(r, cutoff))
}

/// Removes every run that finished before `cutoff`, each with its tasks and
/// their edges, and then the definitions that no run is left of. Says how many
/// runs went.
pub fn gc_old_runs(db: &mut Store, cutoff: &str) -> (n: u64)
    ensures
        n == count(old(db)@.runs, |r: WorkflowRunView| expired(r, cutoff@)),
        final(db)@ == without_runs(
            old(db)@,
            |r: WorkflowRunView| expired(r, cutoff@),
            |id: Seq<char>| expired_id(old(db)@.runs, cutoff@, id),
        ),
{
    let ghost was = db@;
    let ghost p = |r: WorkflowRunView| expired(r, cutoff@);
    let keep: Expired = Expired { cutoff };
    let q: Vec<usize> = select_all(&db.runs, &keep);
    let column: ExpiredId = ExpiredId {};
    let ids: Vec<String> = column_at(&db.runs, &q, q.len(), &column);
    proof {
        assert(p =~= (|r: WorkflowRunView| keep.keeps(r)));
        assert(places(q@).take(q@.len() as int) =~= places(q@));
        let line = places_where(was.runs, p);
        lemma_ordered_members(
            was.runs,
            p,
            |a: WorkflowRunView, b: WorkflowRunView| false,
            was.runs.len() as int,
        );
        assert forall|id: Seq<char>| #[trigger] texts(ids@).contains(id) == expired_id(was.runs, cutoff@, id) by {
            let named = |r: WorkflowRunView| r.id == id && expired(r, cutoff@);
            if texts(ids@).contains(id) {
                let k = choose|k: int| 0 <= k < texts(ids@).len() && texts(ids@)[k] == id;
                assert(line.contains(line[k]));
                assert(named(was.runs[line[k]]));
            }
            if expired_id(was.runs, cutoff@, id) {
                let i = choose|i: int| 0 <= i < was.runs.len() && named(#[trigger] was.runs[i]);
                assert(line.contains(i));
                let k = choose|k: int| 0 <= k < line.len() && line[k] == i;
                assert(texts(ids@)[k] == id);
            }
        }
        assert((|id: Seq<char>| expired_id(was.runs, cutoff@, id)) =~= (|id: Seq<char>|
            texts(ids@).contains(id)));
    }
    remove_runs(db, &keep, &ids)
}

/// A purge takes nothing but what it was asked for: a run that was not named, or
/// is not over, stays with all of its tasks and their edges.
pub proof fn law_purge_spares_the_rest(
    db: StoreView,
    ids: Seq<Seq<char>>,
    r: WorkflowRunView,
    t: TaskRunView,
    e: EdgeView,
)
    requires
        db.runs.contains(r),
        db.tasks.contains(t),
        db.edges.contains(e),
        !purgeable(db.runs, ids, r.id),
        !purgeable(db.runs, ids, t.run_id),
        !any(db.tasks, |d: TaskRunView| d.id == e.dependent_id && purgeable(db.runs, ids, d.run_id)),
    ensures
        ({
            let after = without_runs(
                db,
                |r: WorkflowRunView| purgeable(db.runs, ids, r.id),
                |id: Seq<char>| purgeable(db.runs, ids, id),
            );
            after.runs.contains(r) && after.tasks.contains(t) && after.edges.contains(e)
        }),
{
    broadcast use vstd::seq_lib::group_filter_ensures;

    let among = |id: Seq<char>| purgeable(db.runs, ids, id);
    let keeps = |e: EdgeView|
        !any(db.tasks, |t: TaskRunView| t.id == e.dependent_id && among(t.run_id));
    lemma_any_same(
        db.tasks,
        |d: TaskRunView| d.id == e.dependent_id && purgeable(db.runs, ids, d.run_id),
        |t: TaskRunView| t.id == e.dependent_id && among(t.run_id),
    );
    assert(keeps(e));
}

/// A purge leaves no task behind whose run went, and no definition without a run.
pub proof fn law_purge_leaves_no_orphans(
    db: StoreView,
    gone: spec_fn(WorkflowRunView) -> bool,
    ids: spec_fn(Seq<char>) -> bool,
    t: TaskRunView,
    d: DefinitionView,
)
    requires
        without_runs(db, gone, ids).tasks.contains(t),
        without_runs(db, gone, ids).definitions.contains(d),
    ensures
        !ids(t.run_id),
        any(without_runs(db, gone, ids).runs, |r: WorkflowRunView| r.definition_id == d.id),
{
    broadcast use vstd::seq_lib::group_filter_ensures;

}

} // verus!
