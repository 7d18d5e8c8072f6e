//! Reads of runs and tasks, and counts for monitoring.
use vstd::prelude::*;
use vstd::string::*;
use crate::datasets::{find_run_of_task, run_of_task};
use crate::gangs::earliest;
use crate::models::{RunStatus, TaskStatus};
use crate::order::{
    copy_at, count_rows, find_row, first, lemma_ordered_members, limit_of, limited, ordered, places,
    rows_at, select, Keep, Order,
};
use crate::rows::{
    opt, views, Definition, DefinitionView, Row, TaskRun, TaskRunView, WorkflowRun, WorkflowRunView,
};
use crate::store::{Store, StoreView};
use crate::table::count;
use crate::text::{before, lex_lt, same};

verus! {

// ── One run ──────────────────────────────────────────────────────────────────

/// The definition that a run was created from.
pub open spec fn definition_of(db: StoreView, run_id: Seq<char>) -> Option<DefinitionView> {
    match first(db.runs, |r: WorkflowRunView| r.id == run_id) {
        Some(r) => first(db.definitions, |d: DefinitionView| d.id == r.definition_id),
        None => None,
    }
}

struct RunWith<'a> {
    id: &'a str,
}

impl<'a> Keep<WorkflowRun> for RunWith<'a> {
    closed spec fn keeps(&self, r: WorkflowRunView) -> bool {
        r.id == self.id@
    }

    fn keep(&self, row: &WorkflowRun) -> (r: bool) {
        same(row.id.as_str(), self.id)
    }
}

struct DefinitionWith<'a> {
    id: &'a str,
}

impl<'a> Keep<Definition> for DefinitionWith<'a> {
    closed spec fn keeps(&self, r: DefinitionView) -> bool {
        r.id == self.id@
    }

    fn keep(&self, row: &Definition) -> (r: bool) {
        same(row.id.as_str(), self.id)
    }
}

/// Where the definition with this id stands.
fn find_definition(definitions: &Vec<Definition>, id: &str) -> (r: Option<usize>)
    ensures
        match r {
            Some(i) => i < definitions@.len() && first(
                views(definitions@),
                |d: DefinitionView| d.id == id@,
            ) == Some(views(definitions@)[i as int]),
            None => first(views(definitions@), |d: DefinitionView| d.id == id@) is None,
        },
{
    let keep: DefinitionWith = DefinitionWith { id };
    assert((|d: DefinitionView| d.id == id@) =~= (|d: DefinitionView| keep.keeps(d)));
    find_row(definitions, &keep)
}

fn find_definition_of(db: &Store, run_id: &str) -> (r: Option<usize>)
    ensures
        match r {
            Some(i) => i < db.definitions@.len() && definition_of(db@, run_id@) == Some(
                db@.definitions[i as int],
            ),
            None => definition_of(db@, run_id@) is None,
        },
{
    let keep: RunWith = RunWith { id: run_id };
    let found: Option<usize> = find_row(&db.runs, &keep);
    assert((|r: WorkflowRunView| r.id == run_id@) =~= (|r: WorkflowRunView| keep.keeps(r)));
    match found {
        Some(i) => {
            assert(db@.runs[i as int] == db.runs@[i as int]@);
            find_definition(&db.definitions, db.runs[i].definition_id.as_str())
        },
        None => None,
    }
}

/// The name of the workflow that a run belongs to.
pub fn workflow_name_for_run(db: &Store, run_id: &str) -> (r: Option<String>)
    ensures
        opt(r) == (match definition_of(db@, run_id@) {
            Some(d) => Some(d.name),
            None => None,
        }),
{
    match find_definition_of(db, run_id) {
        Some(i) => {
            assert(db@.definitions[i as int] == db.definitions@[i as int]@);
            Some(db.definitions[i].name.clone())
        },
        None => None,
    }
}

/// The name of the workflow that a task belongs to.
pub fn workflow_name_for_task(db: &Store, task_id: &str) -> (r: Option<String>)
    ensures
        opt(r) == (match run_of_task(db@.tasks, task_id@) {
            Some(run) => match definition_of(db@, run) {
                Some(d) => Some(d.name),
                None => None,
            },
            None => None,
        }),
{
    match find_run_of_task(&db.tasks, task_id) {
        Some(run) => workflow_name_for_run(db, run.as_str()),
        None => None,
    }
}

/// The text of the workflow that a run was created from.
pub fn spec_for_run(db: &Store, run_id: &str) -> (r: Option<String>)
    ensures
        opt(r) == (match definition_of(db@, run_id@) {
            Some(d) => Some(d.spec),
            None => None,
        }),
{
    match find_definition_of(db, run_id) {
        Some(i) => {
            assert(db@.definitions[i as int] == db.definitions@[i as int]@);
            Some(db.definitions[i].spec.clone())
        },
        None => None,
    }
}

/// The environment that a run was created with.
pub fn run_environment(db: &Store, run_id: &str) -> (r: Option<String>)
    ensures
        opt(r) == (match first(db@.runs, |r: WorkflowRunView| r.id == run_id@) {
            Some(r) => r.environment,
            None => None,
        }),
{
    let keep: RunWith = RunWith { id: run_id };
    let found: Option<usize> = find_row(&db.runs, &keep);
    assert((|r: WorkflowRunView| r.id == run_id@) =~= (|r: WorkflowRunView| keep.keeps(r)));
    match found {
        Some(i) => {
            assert(db@.runs[i as int] == db.runs@[i as int]@);
            db.runs[i].environment.clone()
        },
        None => None,
    }
}

/// The run with this id.
pub fn get_run(db: &Store, run_id: &str) -> (r: Option<WorkflowRun>)
    ensures
        (match r {
            Some(r) => Some(r@),
            None => None,
        }) == first(db@.runs, |r: WorkflowRunView| r.id == run_id@),
{
    let keep: RunWith = RunWith { id: run_id };
    let found: Option<usize> = find_row(&db.runs, &keep);
    assert((|r: WorkflowRunView| r.id == run_id@) =~= (|r: WorkflowRunView| keep.keeps(r)));
    match found {
        Some(i) => {
            assert(db@.runs[i as int] == db.runs@[i as int]@);
            Some(db.runs[i].duplicate())
        },
        None => None,
    }
}

struct TaskWith<'a> {
    id: &'a str,
}

impl<'a> Keep<TaskRun> for TaskWith<'a> {
    closed spec fn keeps(&self, r: TaskRunView) -> bool {
        r.id == self.id@
    }

    fn keep(&self, row: &TaskRun) -> (r: bool) {
        same(row.id.as_str(), self.id)
    }
}

/// The stored specification of a task.
pub fn task_input_json(db: &Store, task_id: &str) -> (r: Option<String>)
    ensures
        opt(r) == (match first(db@.tasks, |r: TaskRunView| r.id == task_id@) {
            Some(r) => r.input,
            None => None,
        }),
{
    let keep: TaskWith = TaskWith { id: task_id };
    let found: Option<usize> = find_row(&db.tasks, &keep);
    assert((|r: TaskRunView| r.id == task_id@) =~= (|r: TaskRunView| keep.keeps(r)));
    match found {
        Some(i) => {
            assert(db@.tasks[i as int] == db.tasks@[i as int]@);
            db.tasks[i].input.clone()
        },
        None => None,
    }
}

struct TaskOfRun<'a> {
    run_id: &'a str,
}

impl<'a> Keep<TaskRun> for TaskOfRun<'a> {
    closed spec fn keeps(&self, r: TaskRunView) -> bool {
        r.run_id == self.run_id@
    }

    fn keep(&self, row: &TaskRun) -> (r: bool) {
        same(row.run_id.as_str(), self.run_id)
    }
}

struct ByName {}

impl Order<TaskRun> for ByName {
    closed spec fn lt(&self, a: TaskRunView, b: TaskRunView) -> bool {
        lex_lt(a.name, b.name)
    }

    fn sorts_before(&self, a: &TaskRun, b: &TaskRun) -> (r: bool) {
        before(a.name.as_str(), b.name.as_str())
    }
}

/// The tasks of a run, by name.
pub fn list_tasks(db: &Store, run_id: &str) -> (out: Vec<TaskRun>)
    ensures
        views(out@) == rows_at(
            db@.tasks,
            ordered(
                    db@.tasks,
                    |r: TaskRunView| r.run_id == run_id@,
                    |a: TaskRunView, b: TaskRunView| lex_lt(a.name, b.name),
                    db@.tasks.len() as int,
                ),
        ),
{
    let keep: TaskOfRun = TaskOfRun { run_id };
    let order: ByName = ByName {};
    let q: Vec<usize> = select(&db.tasks, &keep, &order);
    let len: usize = q.len();
    proof {
        assert((|r: TaskRunView| r.run_id == run_id@) =~= (|r: TaskRunView| keep.keeps(r)));
        assert((|a: TaskRunView, b: TaskRunView| lex_lt(a.name, b.name)) =~= (
            |a: TaskRunView, b: TaskRunView| order.lt(a, b)
        ));
        assert(places(q@) =~= places(q@).take(len as int));
    }
    copy_at(&db.tasks, &q, len)
}

// ── Listings ─────────────────────────────────────────────────────────────────

/// What a listing shows of a run.
#[derive(Debug, Clone)]
pub struct RunSummary {
    pub id: String,
    pub name: String,
    pub status: RunStatus,
    pub created_at: String,
    pub finished_at: Option<String>,
}

#[verifier::ext_equal]
pub struct RunSummaryView {
    pub id: Seq<char>,
    pub name: Seq<char>,
    pub status: RunStatus,
    pub created_at: Seq<char>,
    pub finished_at: Option<Seq<char>>,
}

impl View for RunSummary {
    type V = RunSummaryView;

    open spec fn view(&self) -> RunSummaryView {
        RunSummaryView {
            id: self.id@,
            name: self.name@,
            status: self.status,
            created_at: self.created_at@,
            finished_at: opt(self.finished_at),
        }
    }
}

/// What a listing shows of a run of the workflow `name`.
pub open spec fn summary(r: WorkflowRunView, name: Seq<char>) -> RunSummaryView {
    RunSummaryView {
        id: r.id,
        name,
        status: r.status,
        created_at: r.created_at,
        finished_at: r.finished_at,
    }
}

/// The definition with this id.
pub open spec fn definition_with(definitions: Seq<DefinitionView>, id: Seq<char>) -> Option<DefinitionView> {
    first(definitions, |d: DefinitionView| d.id == id)
}

/// A run with a definition, in the state asked for or in any.
pub open spec fn listed(
    definitions: Seq<DefinitionView>,
    r: WorkflowRunView,
    status: Option<RunStatus>,
) -> bool {
    definition_with(definitions, r.definition_id) is Some && (status is None || status == Some(r.status))
}

/// The runs of a listing, the newest first.
pub open spec fn listed_runs(db: StoreView, status: Option<RunStatus>, limit: int) -> Seq<int> {
    limited(
        ordered(
            db.runs,
            |r: WorkflowRunView| listed(db.definitions, r, status),
            |a: WorkflowRunView, b: WorkflowRunView| lex_lt(b.created_at, a.created_at),
            db.runs.len() as int,
        ),
        limit,
    )
}

/// What the rows of a listing show.
pub open spec fn summaries(db: StoreView, q: Seq<int>) -> Seq<RunSummaryView> {
    q.map_values(
        |i: int| summary(db.runs[i], definition_with(db.definitions, db.runs[i].definition_id)->0.name),
    )
}

/// The complaint about a filter that names no state.
pub open spec fn bad_filter(s: Seq<char>) -> Seq<char> {
    "invalid run status filter '"@ + s + "'"@
}

/// The text names a state of runs.
pub open spec fn names_status(s: Seq<char>, status: RunStatus) -> bool {
    s == status.text()
}

struct Listed<'a> {
    definitions: &'a Vec<Definition>,
    status: Option<RunStatus>,
}

impl<'a> Keep<WorkflowRun> for Listed<'a> {
    closed spec fn keeps(&self, r: WorkflowRunView) -> bool {
        listed(views(self.definitions@), r, self.status)
    }

    fn keep(&self, row: &WorkflowRun) -> (r: bool) {
        let fits: bool = match self.status {
            Some(status) => row.status == status,
            None => true,
        };
        fits && find_definition(self.definitions, row.definition_id.as_str()).is_some()
    }
}

struct NewestRun {}

impl Order<WorkflowRun> for NewestRun {
    closed spec fn lt(&self, a: WorkflowRunView, b: WorkflowRunView) -> bool {
        lex_lt(b.created_at, a.created_at)
    }

    fn sorts_before(&self, a: &WorkflowRun, b: &WorkflowRun) -> (r: bool) {
        before(b.created_at.as_str(), a.created_at.as_str())
    }
}

fn list_runs_in(db: &Store, status: Option<RunStatus>, limit: i64) -> (out: Vec<RunSummary>)
    ensures
        views(out@) == summaries(db@, listed_runs(db@, status, limit as int)),
{
    let ghost view = db@;
    let keep: Listed = Listed { definitions: &db.definitions, status };
    let order: NewestRun = NewestRun {};
    let q: Vec<usize> = select(&db.runs, &keep, &order);
    let len: usize = limit_of(q.len(), limit);
    let ghost line = listed_runs(view, status, limit as int);
    let ghost f = |i: int|
        summary(view.runs[i], definition_with(view.definitions, view.runs[i].definition_id)->0.name);
    proof {
        let p = |r: WorkflowRunView| listed(view.definitions, r, status);
        let lt = |a: WorkflowRunView, b: WorkflowRunView| lex_lt(b.created_at, a.created_at);
        assert(p =~= (|r: WorkflowRunView| keep.keeps(r)));
        assert(lt =~= (|a: WorkflowRunView, b: WorkflowRunView| order.lt(a, b)));
        lemma_ordered_members(view.runs, p, lt, view.runs.len() as int);
        assert(line =~= places(q@).take(len as int));
        assert forall|k: int| 0 <= k < q@.len() implies listed(
            view.definitions,
            #[trigger] view.runs[places(q@)[k]],
            status,
        ) by {
            assert(places(q@).contains(places(q@)[k]));
        }
    }
    let mut out: Vec<RunSummary> = Vec::new();
    let mut k: usize = 0;
    assert(views(out@) =~= line.take(0).map_values(f));
    while k < len
        invariant
            k <= len <= q@.len(),
            view == db@,
            f == (|i: int|
                summary(
                    view.runs[i],
                    definition_with(view.definitions, view.runs[i].definition_id)->0.name,
                )),
            line == places(q@).take(len as int),
            forall|x: int| 0 <= x < q@.len() ==> #[trigger] q@[x] < view.runs.len(),
            forall|x: int|
                0 <= x < q@.len() ==> listed(
                    view.definitions,
                    #[trigger] view.runs[places(q@)[x]],
                    status,
                ),
            views(out@) == line.take(k as int).map_values(f),
        decreases len - k,
    {
        let i: usize = q[k];
        let row: &WorkflowRun = &db.runs[i];
        assert(places(q@)[k as int] == i);
        assert(listed(view.definitions, view.runs[places(q@)[k as int]], status));
        assert(view.runs[i as int] == row@);
        assert(line[k as int] == i);
        let name: String = match find_definition(&db.definitions, row.definition_id.as_str()) {
            Some(d) => {
                assert(view.definitions[d as int] == db.definitions@[d as int]@);
                db.definitions[d].name.clone()
            },
            None => String::new(),
        };
        let ghost told = views(out@);
        let shown: RunSummary = RunSummary {
            id: row.id.clone(),
            name,
            status: row.status,
            created_at: row.created_at.clone(),
            finished_at: row.finished_at.clone(),
        };
        assert(shown@ =~= f(i as int));
        out.push(shown);
        assert(views(out@) =~= told.push(f(i as int)));
        assert(line.take(k as int + 1) =~= line.take(k as int).push(i as int));
        assert(line.take(k as int + 1).map_values(f) =~= line.take(k as int).map_values(f).push(
            f(i as int),
        ));
        k += 1;
    }
    assert(line.take(len as int) =~= line);
    out
}

/// The runs in one state or in all, the newest first. A filter that names no
/// state is refused.
pub fn list_runs(db: &Store, status: Option<&str>, limit: i64) -> (r: Result<Vec<RunSummary>, String>)
    ensures
        match r {
            Ok(out) => match status {
                None => views(out@) == summaries(db@, listed_runs(db@, None, limit as int)),
                Some(s) => exists|st: RunStatus|
                    #[trigger] names_status(s@, st) && views(out@) == summaries(
                        db@,
                        listed_runs(db@, Some(st), limit as int),
                    ),
            },
            Err(e) => status is Some && e@ == bad_filter(status->0@) && forall|st: RunStatus|
                !#[trigger] names_status(status->0@, st),
        },
{
    match status {
        None => Ok(list_runs_in(db, None, limit)),
        Some(s) => match RunStatus::parse(s) {
            Some(st) => {
                assert(names_status(s@, st));
                Ok(list_runs_in(db, Some(st), limit))
            },
            None => {
                let mut text: String = "invalid run status filter '".to_owned();
                text.append(s);
                text.append("'");
                Err(text)
            },
        },
    }
}

// ── Counts ───────────────────────────────────────────────────────────────────

/// The states of runs, by their text.
pub open spec fn run_states() -> Seq<RunStatus> {
    seq![
        RunStatus::Cancelled,
        RunStatus::Failed,
        RunStatus::Pending,
        RunStatus::Running,
        RunStatus::Succeeded,
    ]
}

/// The states of tasks, by their text.
pub open spec fn task_states() -> Seq<TaskStatus> {
    seq![
        TaskStatus::AwaitingApproval,
        TaskStatus::Cancelled,
        TaskStatus::Failed,
        TaskStatus::Pending,
        TaskStatus::Ready,
        TaskStatus::Running,
        TaskStatus::Skipped,
        TaskStatus::Succeeded,
    ]
}

/// How many runs are in each of the first `n` states that have any.
pub open spec fn run_tally(runs: Seq<WorkflowRunView>, n: int) -> Seq<(Seq<char>, nat)>
    decreases n,
{
    if n <= 0 {
        Seq::empty()
    } else {
        let rest = run_tally(runs, n - 1);
        let status = run_states()[n - 1];
        let found = count(runs, |r: WorkflowRunView| r.status == status);
        if found > 0 { rest.push((status.text(), found)) } else { rest }
    }
}

/// How many tasks are in each of the first `n` states that have any.
pub open spec fn task_tally(tasks: Seq<TaskRunView>, n: int) -> Seq<(Seq<char>, nat)>
    decreases n,
{
    if n <= 0 {
        Seq::empty()
    } else {
        let rest = task_tally(tasks, n - 1);
        let status = task_states()[n - 1];
        let found = count(tasks, |t: TaskRunView| t.status == status);
        if found > 0 { rest.push((status.text(), found)) } else { rest }
    }
}

/// Counts by name.
pub open spec fn counts_of(v: Seq<(String, u64)>) -> Seq<(Seq<char>, nat)> {
    v.map_values(|c: (String, u64)| (c.0@, c.1 as nat))
}

struct RunInState {
    status: RunStatus,
}

impl Keep<WorkflowRun> for RunInState {
    closed spec fn keeps(&self, r: WorkflowRunView) -> bool {
        r.status == self.status
    }

    fn keep(&self, row: &WorkflowRun) -> (r: bool) {
        row.status == self.status
    }
}

struct TaskInState {
    status: TaskStatus,
}

impl Keep<TaskRun> for TaskInState {
    closed spec fn keeps(&self, r: TaskRunView) -> bool {
        r.status == self.status
    }

    fn keep(&self, row: &TaskRun) -> (r: bool) {
        row.status == self.status
    }
}

fn tally_runs(runs: &Vec<WorkflowRun>) -> (out: Vec<(String, u64)>)
    ensures
        counts_of(out@) == run_tally(views(runs@), 5),
{
    let states: [RunStatus; 5] = [
        RunStatus::Cancelled,
        RunStatus::Failed,
        RunStatus::Pending,
        RunStatus::Running,
        RunStatus::Succeeded,
    ];
    let mut out: Vec<(String, u64)> = Vec::new();
    let mut i: usize = 0;
    assert(states@ =~= run_states());
    assert(counts_of(out@) =~= run_tally(views(runs@), 0));
    while i < 5
        invariant
            i <= 5,
            states@ == run_states(),
            counts_of(out@) == run_tally(views(runs@), i as int),
        decreases 5 - i,
    {
        let status: RunStatus = states[i];
        let keep: RunInState = RunInState { status };
        let n: u64 = count_rows(runs, &keep);
        assert((|r: WorkflowRunView| r.status == status) =~= (|r: WorkflowRunView| keep.keeps(r)));
        if n > 0 {
            let ghost told = counts_of(out@);
            out.push((status.as_str().to_owned(), n));
            assert(counts_of(out@) =~= told.push((status.text(), n as nat)));
        }
        i += 1;
    }
    out
}

fn tally_tasks(tasks: &Vec<TaskRun>) -> (out: Vec<(String, u64)>)
    ensures
        counts_of(out@) == task_tally(views(tasks@), 8),
{
    let states: [TaskStatus; 8] = [
        TaskStatus::AwaitingApproval,
        TaskStatus::Cancelled,
        TaskStatus::Failed,
        TaskStatus::Pending,
        TaskStatus::Ready,
        TaskStatus::Running,
        TaskStatus::Skipped,
        TaskStatus::Succeeded,
    ];
    let mut out: Vec<(String, u64)> = Vec::new();
    let mut i: usize = 0;
    assert(states@ =~= task_states());
    assert(counts_of(out@) =~= task_tally(views(tasks@), 0));
    while i < 8
        invariant
            i <= 8,
            states@ == task_states(),
            counts_of(out@) == task_tally(views(tasks@), i as int),
        decreases 8 - i,
    {
        let status: TaskStatus = states[i];
        let keep: TaskInState = TaskInState { status };
        let n: u64 = count_rows(tasks, &keep);
        assert((|t: TaskRunView| t.status == status) =~= (|t: TaskRunView| keep.keeps(t)));
        if n > 0 {
            let ghost told = counts_of(out@);
            out.push((status.as_str().to_owned(), n));
            assert(counts_of(out@) =~= told.push((status.text(), n as nat)));
        }
        i += 1;
    }
    out
}

/// The ready work of a runner class: how much there is, and since when.
#[derive(Debug, Clone)]
pub struct ReadyClassBacklog {
    pub runner_class: String,
    pub count: u64,
    pub oldest_scheduled_at: Option<String>,
}

#[verifier::ext_equal]
pub struct ReadyClassBacklogView {
    pub runner_class: Seq<char>,
    pub count: nat,
    pub oldest_scheduled_at: Option<Seq<char>>,
}

impl View for ReadyClassBacklog {
    type V = ReadyClassBacklogView;

    open spec fn view(&self) -> ReadyClassBacklogView {
        ReadyClassBacklogView {
            runner_class: self.runner_class@,
            count: self.count as nat,
            oldest_scheduled_at: opt(self.oldest_scheduled_at),
        }
    }
}

/// A ready task of a class.
pub open spec fn ready_in(t: TaskRunView, class: Seq<char>) -> bool {
    t.status == TaskStatus::Ready && t.runner_class == class
}

/// The backlog of a class.
pub open spec fn backlog_of(tasks: Seq<TaskRunView>, class: Seq<char>) -> ReadyClassBacklogView {
    ReadyClassBacklogView {
        runner_class: class,
        count: count(tasks, |t: TaskRunView| ready_in(t, class)),
        oldest_scheduled_at: earliest(
            tasks,
            |t: TaskRunView| ready_in(t, class),
            tasks.len() as int,
        ),
    }
}

/// The places of the ready tasks, by class.
pub open spec fn by_class(tasks: Seq<TaskRunView>) -> Seq<int> {
    ordered(
        tasks,
        |t: TaskRunView| t.status == TaskStatus::Ready,
        |a: TaskRunView, b: TaskRunView| lex_lt(a.runner_class, b.runner_class),
        tasks.len() as int,
    )
}

/// The backlogs of the classes among the first `n` places of a list by class.
pub open spec fn backlogs(tasks: Seq<TaskRunView>, q: Seq<int>, n: int) -> Seq<ReadyClassBacklogView>
    decreases n,
{
    if n <= 0 {
        Seq::empty()
    } else {
        let rest = backlogs(tasks, q, n - 1);
        let class = tasks[q[n - 1]].runner_class;
        if n >= 2 && tasks[q[n - 2]].runner_class == class {
            rest
        } else {
            rest.push(backlog_of(tasks, class))
        }
    }
}

struct ReadyIn<'a> {
    class: &'a str,
}

impl<'a> Keep<TaskRun> for ReadyIn<'a> {
    closed spec fn keeps(&self, r: TaskRunView) -> bool {
        ready_in(r, self.class@)
    }

    fn keep(&self, row: &TaskRun) -> (r: bool) {
        row.status == TaskStatus::Ready && same(row.runner_class.as_str(), self.class)
    }
}

struct ByClass {}

impl Order<TaskRun> for ByClass {
    closed spec fn lt(&self, a: TaskRunView, b: TaskRunView) -> bool {
        lex_lt(a.runner_class, b.runner_class)
    }

    fn sorts_before(&self, a: &TaskRun, b: &TaskRun) -> (r: bool) {
        before(a.runner_class.as_str(), b.runner_class.as_str())
    }
}

fn oldest_in(tasks: &Vec<TaskRun>, class: &str) -> (r: Option<String>)
    ensures
        opt(r) == earliest(
            views(tasks@),
            |t: TaskRunView| ready_in(t, class@),
            tasks@.len() as int,
        ),
{
    let ghost all = views(tasks@);
    let ghost p = |t: TaskRunView| ready_in(t, class@);
    let mut oldest: Option<String> = None;
    let mut i: usize = 0;
    while i < tasks.len()
        invariant
            i <= tasks@.len(),
            all == views(tasks@),
            p == (|t: TaskRunView| ready_in(t, class@)),
            opt(oldest) == earliest(all, p, i as int),
        decreases tasks@.len() - i,
    {
        assert(all[i as int] == tasks@[i as int]@);
        if tasks[i].status == TaskStatus::Ready && same(tasks[i].runner_class.as_str(), class) {
            match &tasks[i].scheduled_at {
                Some(at) => {
                    let sooner: bool = match &oldest {
                        Some(o) => before(at.as_str(), o.as_str()),
                        None => true,
                    };
                    if sooner {
                        oldest = Some(at.clone());
                    }
                },
                None => {},
            }
        }
        i += 1;
    }
    oldest
}

/// The ready work by runner class. A class that nobody serves shows as one whose
/// oldest task only gets older.
pub fn ready_backlog_by_class(db: &Store) -> (out: Vec<ReadyClassBacklog>)
    ensures
        views(out@) == backlogs(db@.tasks, by_class(db@.tasks), by_class(db@.tasks).len() as int),
{
    let ghost all = db@.tasks;
    let keep: TaskInState = TaskInState { status: TaskStatus::Ready };
    let order: ByClass = ByClass {};
    let q: Vec<usize> = select(&db.tasks, &keep, &order);
    let ghost line = by_class(all);
    proof {
        assert((|t: TaskRunView| t.status == TaskStatus::Ready) =~= (|t: TaskRunView|
            keep.keeps(t)));
        assert((|a: TaskRunView, b: TaskRunView| lex_lt(a.runner_class, b.runner_class)) =~= (
        |a: TaskRunView, b: TaskRunView| order.lt(a, b)));
        assert(line == places(q@));
    }
    let mut out: Vec<ReadyClassBacklog> = Vec::new();
    let mut k: usize = 0;
    assert(views(out@) =~= backlogs(all, line, 0));
    while k < q.len()
        invariant
            k <= q@.len(),
            all == db@.tasks,
            line == places(q@),
            forall|x: int| 0 <= x < q@.len() ==> #[trigger] q@[x] < db.tasks@.len(),
            views(out@) == backlogs(all, line, k as int),
        decreases q@.len() - k,
    {
        let i: usize = q[k];
        assert(line[k as int] == i);
        assert(all[i as int] == db.tasks@[i as int]@);
        let mut again: bool = false;
        if k >= 1 {
            let j: usize = q[k - 1];
            assert(line[k - 1] == j);
            assert(all[j as int] == db.tasks@[j as int]@);
            again = same(db.tasks[j].runner_class.as_str(), db.tasks[i].runner_class.as_str());
        }
        if !again {
            let class: String = db.tasks[i].runner_class.clone();
            let of_class: ReadyIn = ReadyIn { class: class.as_str() };
            let n: u64 = count_rows(&db.tasks, &of_class);
            assert((|t: TaskRunView| ready_in(t, class@)) =~= (|t: TaskRunView| of_class.keeps(t)));
            let oldest: Option<String> = oldest_in(&db.tasks, class.as_str());
            let row: ReadyClassBacklog = ReadyClassBacklog {
                runner_class: class,
                count: n,
                oldest_scheduled_at: oldest,
            };
            let ghost r = row@;
            assert(r =~= backlog_of(all, all[i as int].runner_class));
            let ghost told = views(out@);
            out.push(row);
            assert(views(out@) =~= told.push(r));
        }
        k += 1;
    }
    out
}

/// Counts for monitoring.
#[derive(Debug, Clone)]
pub struct MetricsSnapshot {
    pub runs_by_status: Vec<(String, u64)>,
    pub tasks_by_status: Vec<(String, u64)>,
    pub dead_letters: u64,
    pub ready_by_class: Vec<ReadyClassBacklog>,
}

/// How many runs and tasks are in each state, how many dead letters there are,
/// and the ready work by runner class.
pub fn status_counts(db: &Store) -> (m: MetricsSnapshot)
    ensures
        counts_of(m.runs_by_status@) == run_tally(db@.runs, run_states().len() as int),
        counts_of(m.tasks_by_status@) == task_tally(db@.tasks, task_states().len() as int),
        m.dead_letters == db@.dead_letters.len(),
        views(m.ready_by_class@) == backlogs(
            db@.tasks,
            by_class(db@.tasks),
            by_class(db@.tasks).len() as int,
        ),
{
    MetricsSnapshot {
        runs_by_status: tally_runs(&db.runs),
        tasks_by_status: tally_tasks(&db.tasks),
        dead_letters: db.dead_letters.len() as u64,
        ready_by_class: ready_backlog_by_class(db),
    }
}

} // verus!
