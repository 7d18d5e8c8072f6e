//! Creating a run: its definition, its row, one row per task or gang member,
//! and the edges between them, all at once or not at all.
use vstd::prelude::*;
use vstd::string::*;
use crate::dag::{known, task_index, DagGraph};
use crate::decimal::{decimal, u64_text};
use crate::duration::{duration, parse_duration_secs};
use crate::gangs::whole_gang;
use crate::models::{RunStatus, TaskStatus, DEFAULT_TRIGGER_RULE};
use crate::clock::{ClockStatus, ClockStatusView};
use crate::rows::{
    opt, opt_int, views, Definition, DefinitionView, Edge, EdgeView, TaskRun, TaskRunView,
    WorkflowRun, WorkflowRunView,
};
use crate::rules::{duplicate_name, planned_rows};
use crate::sources::{committed, law_offset_read_back, offset_upserted, upsert_source_offset};
use crate::store::{Store, StoreView};
use crate::table::{any, count, lemma_count_take};
use crate::text::same;
use crate::time::{add_seconds, rfc3339_text, shifted, to_rfc3339, Timestamp};
use crate::workflow::{DagSpec, TaskSpec, DEFAULT_RUNNER_CLASS};

verus! {

// ── Deadlines ────────────────────────────────────────────────────────────────

/// A number of seconds as the clock adds it.
pub open spec fn capped_secs(secs: u64) -> int {
    if secs > i64::MAX { i64::MAX as int } else { secs as int }
}

/// The text of the instant `secs` after `t`.
pub open spec fn text_after(t: Timestamp, secs: u64) -> Seq<char> {
    let at = shifted(t, capped_secs(secs))->0;
    rfc3339_text(at.0, at.1)
}

/// The seconds after which a still-running run is failed.
pub open spec fn timeout_secs(spec: DagSpec) -> Option<u64> {
    spec.run_timeout_secs
}

/// The seconds after which a still-running run raises an alert.
pub open spec fn alert_secs(spec: DagSpec) -> Option<u64> {
    match spec.deadline {
        Some(d) => match duration(d.within@) {
            Ok(n) => Some(n as u64),
            Err(_) => None,
        },
        None => None,
    }
}

/// The calendar holds the instant `secs` after `t`.
pub open spec fn in_calendar(t: Timestamp, secs: Option<u64>) -> bool {
    secs is Some ==> shifted(t, capped_secs(secs->0)) is Some
}

/// When a run starts, when its deadlines lie, and how far the clock that says
/// so can be trusted.
#[derive(Debug, Clone)]
pub struct RunStamp {
    pub created_at: String,
    pub deadline_at: Option<String>,
    pub alert_deadline_at: Option<String>,
    pub clock: ClockStatus,
}

/// A number of seconds as the clock adds it.
fn cap_secs(secs: u64) -> (n: i64)
    ensures
        n == capped_secs(secs),
{
    if secs > 0x7fff_ffff_ffff_ffff {
        0x7fff_ffff_ffff_ffff
    } else {
        secs as i64
    }
}

fn stamp_after(t: Timestamp, secs: u64) -> (r: Option<String>)
    requires
        t.valid(),
    ensures
        match r {
            Some(s) => shifted(t, capped_secs(secs)) is Some && s@ == text_after(t, secs),
            None => shifted(t, capped_secs(secs)) is None,
        },
{
    match add_seconds(t, cap_secs(secs)) {
        Some(at) => Some(to_rfc3339(at)),
        None => None,
    }
}

/// Whether the calendar holds both deadlines of a run that starts at `created`.
pub fn deadlines_in_calendar(spec: &DagSpec, created: Timestamp) -> (r: bool)
    requires
        created.valid(),
    ensures
        r == (in_calendar(created, timeout_secs(*spec)) && in_calendar(created, alert_secs(*spec))),
{
    let hard: bool = match spec.run_timeout_secs {
        Some(secs) => stamp_after(created, secs).is_some(),
        None => true,
    };
    let soft: bool = match &spec.deadline {
        Some(d) => match parse_duration_secs(d.within.as_str()) {
            Ok(secs) => stamp_after(created, secs).is_some(),
            Err(_) => true,
        },
        None => true,
    };
    hard && soft
}

/// The stamps of a run that starts at `created`.
pub open spec fn stamps(s: RunStamp, spec: DagSpec, created: Timestamp, clock: ClockStatusView) -> bool {
    &&& s.created_at@ == rfc3339_text(created.secs as int, created.nanos as int)
    &&& opt(s.deadline_at) == match timeout_secs(spec) {
        Some(secs) => Some(text_after(created, secs)),
        None => None,
    }
    &&& opt(s.alert_deadline_at) == match alert_secs(spec) {
        Some(secs) => Some(text_after(created, secs)),
        None => None,
    }
    &&& s.clock@ == clock
}

/// The stamps of a run that starts at `created`: a deadline after
/// `run_timeout_secs`, and an alert after the soft deadline.
pub fn run_stamp(spec: &DagSpec, created: Timestamp, clock: &ClockStatus) -> (s: RunStamp)
    requires
        created.valid(),
        in_calendar(created, timeout_secs(*spec)),
        in_calendar(created, alert_secs(*spec)),
    ensures
        stamps(s, *spec, created, clock@),
{
    let deadline_at: Option<String> = match spec.run_timeout_secs {
        Some(secs) => stamp_after(created, secs),
        None => None,
    };
    let alert_deadline_at: Option<String> = match &spec.deadline {
        Some(d) => match parse_duration_secs(d.within.as_str()) {
            Ok(secs) => stamp_after(created, secs),
            Err(_) => None,
        },
        None => None,
    };
    RunStamp {
        created_at: to_rfc3339(created),
        deadline_at,
        alert_deadline_at,
        clock: clock.duplicate(),
    }
}

/// [`run_stamp`] where the calendar holds both deadlines; otherwise `None`.
pub fn checked_run_stamp(spec: &DagSpec, created: Timestamp, clock: &ClockStatus) -> (r: Option<RunStamp>)
    requires
        created.valid(),
    ensures
        match r {
            Some(s) => stamps(s, *spec, created, clock@) && in_calendar(created, timeout_secs(*spec))
                && in_calendar(created, alert_secs(*spec)),
            None => !(in_calendar(created, timeout_secs(*spec)) && in_calendar(
                created,
                alert_secs(*spec),
            )),
        },
{
    if deadlines_in_calendar(spec, created) {
        Some(run_stamp(spec, created, clock))
    } else {
        None
    }
}

// ── The plan ─────────────────────────────────────────────────────────────────

/// What the caller supplies for a new run: fresh ids, and each row's
/// specification as JSON. Rows are numbered task by task, member by member.
#[derive(Debug, Clone)]
pub struct RunSeed {
    pub definition_id: String,
    pub run_id: String,
    /// One id per row.
    pub task_ids: Vec<String>,
    /// One id per task, for those that are gangs.
    pub gang_ids: Vec<String>,
    /// One document per row.
    pub inputs: Vec<String>,
}

impl RunSeed {
    /// There is one id and document per row, and one gang id per task.
    pub open spec fn covers(self, tasks: Seq<TaskSpec>) -> bool {
        &&& self.task_ids@.len() == planned_rows(tasks, tasks.len() as int)
        &&& self.inputs@.len() == planned_rows(tasks, tasks.len() as int)
        &&& self.gang_ids@.len() == tasks.len()
    }
}

/// The rows that the first `n` dependencies of task `i` become. A name that no
/// task has counts as one.
pub open spec fn dependency_rows(tasks: Seq<TaskSpec>, i: int, n: int) -> nat
    decreases n,
{
    if n <= 0 {
        0
    } else {
        dependency_rows(tasks, i, n - 1) + named_rows(tasks, tasks[i].depends_on@[n - 1]@, 0)
    }
}

/// The rows of the first task from `i` on with this name; one where there is none.
pub open spec fn named_rows(tasks: Seq<TaskSpec>, name: Seq<char>, i: int) -> nat
    decreases tasks.len() - i,
{
    if i < 0 || i >= tasks.len() {
        1
    } else if tasks[i].name@ == name {
        tasks[i].rows()
    } else {
        named_rows(tasks, name, i + 1)
    }
}

/// The name of a task's row: the task's own, or that of a gang member.
pub open spec fn row_name(t: TaskSpec, rank: int) -> Seq<char> {
    if t.gang is Some { t.name@ + "."@ + decimal(rank as nat) } else { t.name@ }
}

/// An optional text, or the one to fall back to.
pub open spec fn or_else(o: Option<String>, fallback: Seq<char>) -> Seq<char> {
    match o {
        Some(s) => s@,
        None => fallback,
    }
}

/// The runner class of a task: its own, the workflow's, or the default.
pub open spec fn class_of_task(spec: DagSpec, t: TaskSpec) -> Seq<char> {
    or_else(t.runner_class, or_else(spec.runner_class, DEFAULT_RUNNER_CLASS@))
}

/// Row `rank` of task `i`; `at` is the number of its first row.
pub open spec fn new_row(
    spec: DagSpec,
    seed: RunSeed,
    now: Seq<char>,
    i: int,
    at: int,
    rank: int,
) -> TaskRunView {
    let t = spec.tasks@[i];
    TaskRunView {
        id: seed.task_ids@[at + rank]@,
        run_id: seed.run_id@,
        name: row_name(t, rank),
        status: TaskStatus::Pending,
        attempt: 0,
        remaining_deps: dependency_rows(spec.tasks@, i, t.depends_on@.len() as int) as int,
        input: Some(seed.inputs@[at + rank]@),
        when: opt(t.when),
        output: None,
        claimed_by: None,
        lease_expires_at: None,
        version: 0,
        scheduled_at: Some(now),
        finished_at: None,
        pool: opt(t.pool),
        priority: t.priority as int,
        cache_hit: false,
        wake_at: None,
        wait_url: None,
        next_poll_at: None,
        wait_dataset: None,
        wait_dataset_cursor: None,
        sub_run_id: None,
        trigger_rule: or_else(t.trigger_rule, DEFAULT_TRIGGER_RULE@),
        allow_failure: t.allow_failure,
        is_approval: t.approval(),
        approval_timeout_secs: match t.approval_timeout_secs {
            Some(secs) => Some(capped_secs(secs)),
            None => None,
        },
        approval_on_timeout: opt(t.approval_on_timeout),
        runner_class: class_of_task(spec, t),
        gang_id: if t.gang is Some { Some(seed.gang_ids@[i]@) } else { None },
        gang_rank: if t.gang is Some { Some(rank) } else { None },
        gang_size: if t.gang is Some { Some(t.rows() as int) } else { None },
        checkpoint_uri: None,
        checkpoint_marker: None,
    }
}

/// The first `n` rows of task `i`.
pub open spec fn task_rows(spec: DagSpec, seed: RunSeed, now: Seq<char>, i: int, n: int) -> Seq<TaskRunView> {
    Seq::new(
        n as nat,
        |rank: int| new_row(spec, seed, now, i, planned_rows(spec.tasks@, i) as int, rank),
    )
}

/// The rows of the first `n` tasks.
pub open spec fn run_rows(spec: DagSpec, seed: RunSeed, now: Seq<char>, n: int) -> Seq<TaskRunView>
    decreases n,
{
    if n <= 0 {
        Seq::empty()
    } else {
        run_rows(spec, seed, now, n - 1) + task_rows(
            spec,
            seed,
            now,
            n - 1,
            spec.tasks@[n - 1].rows() as int,
        )
    }
}

/// The edges from the row `a` to each of the first `n` rows from `b` on.
pub open spec fn fan(ids: Seq<String>, a: int, b: int, n: int) -> Seq<EdgeView> {
    Seq::new(
        n as nat,
        |y: int| EdgeView { dependent_id: ids[a]@, dependency_id: ids[b + y]@ },
    )
}

/// The edges from each of the first `m` rows from `a` on to each of the `n`
/// rows from `b` on.
pub open spec fn fan_all(ids: Seq<String>, a: int, m: int, b: int, n: int) -> Seq<EdgeView>
    decreases m,
{
    if m <= 0 {
        Seq::empty()
    } else {
        fan_all(ids, a, m - 1, b, n) + fan(ids, a + m - 1, b, n)
    }
}

/// The edges of task `i` for its first `k` dependencies: every row of the task
/// depends on every row of the dependency.
pub open spec fn edges_for(tasks: Seq<TaskSpec>, ids: Seq<String>, i: int, k: int) -> Seq<EdgeView>
    decreases k,
{
    if k <= 0 {
        Seq::empty()
    } else {
        let j = task_index(tasks, tasks[i].depends_on@[k - 1]@);
        edges_for(tasks, ids, i, k - 1) + fan_all(
            ids,
            planned_rows(tasks, i) as int,
            tasks[i].rows() as int,
            planned_rows(tasks, j) as int,
            tasks[j].rows() as int,
        )
    }
}

/// The edges of the first `n` tasks.
pub open spec fn run_edges(tasks: Seq<TaskSpec>, ids: Seq<String>, n: int) -> Seq<EdgeView>
    decreases n,
{
    if n <= 0 {
        Seq::empty()
    } else {
        run_edges(tasks, ids, n - 1) + edges_for(
            tasks,
            ids,
            n - 1,
            tasks[n - 1].depends_on@.len() as int,
        )
    }
}

// ── Refusals ─────────────────────────────────────────────────────────────────

/// Why no run was created.
#[derive(Debug, Clone, PartialEq, Eq)]
pub enum CreateRunError {
    /// The workflow `name` has as many runs in flight as it allows.
    MaxActiveRunsReached { name: String, max: u32, active: u64 },
    /// Two tasks have one name; `task` is the later one.
    DuplicateTask { task: usize },
    /// A dependency that no task has the name of.
    UnknownDependency { task: usize, index: usize },
}

/// A running run of the workflow `name`.
pub open spec fn active_run(defs: Seq<DefinitionView>, r: WorkflowRunView, name: Seq<char>) -> bool {
    r.status == RunStatus::Running && exists|i: int|
        0 <= i < defs.len() && (#[trigger] defs[i]).id == r.definition_id && defs[i].name == name
}

/// The runs of the workflow `name` that are in flight.
pub open spec fn active_runs(db: StoreView, name: Seq<char>) -> nat {
    count(db.runs, |r: WorkflowRunView| active_run(db.definitions, r, name))
}

/// The workflow's cap on runs in flight has been reached.
pub open spec fn at_cap(db: StoreView, spec: DagSpec) -> bool {
    spec.max_active_runs matches Some(max) && max > 0 && active_runs(db, spec.name@) >= max
}

/// The first task from `i` on that repeats an earlier name.
pub open spec fn duplicate_from(tasks: Seq<TaskSpec>, i: int) -> Option<CreateRunError>
    decreases tasks.len() - i,
{
    if i < 0 || i >= tasks.len() {
        None
    } else if duplicate_name(tasks, i) {
        Some(CreateRunError::DuplicateTask { task: i as usize })
    } else {
        duplicate_from(tasks, i + 1)
    }
}

/// The first dependency without a task, from dependency `k` of task `i` on.
pub open spec fn unknown_from(tasks: Seq<TaskSpec>, i: int, k: int) -> Option<CreateRunError>
    decreases tasks.len() - i, (if 0 <= i < tasks.len() { tasks[i].depends_on@.len() } else { 0 }) - k,
{
    if i < 0 || i >= tasks.len() {
        None
    } else if k < 0 || k >= tasks[i].depends_on@.len() {
        unknown_from(tasks, i + 1, 0)
    } else if !known(tasks, tasks[i].depends_on@[k]@) {
        Some(CreateRunError::UnknownDependency { task: i as usize, index: k as usize })
    } else {
        unknown_from(tasks, i, k + 1)
    }
}

/// Why a run of the workflow cannot be created now, if so.
pub open spec fn create_error(db: StoreView, spec: DagSpec) -> Option<CreateRunError> {
    if at_cap(db, spec) {
        Some(
            CreateRunError::MaxActiveRunsReached {
                name: spec.name,
                max: spec.max_active_runs->0,
                active: active_runs(db, spec.name@) as u64,
            },
        )
    } else if duplicate_from(spec.tasks@, 0) is Some {
        duplicate_from(spec.tasks@, 0)
    } else {
        unknown_from(spec.tasks@, 0, 0)
    }
}

// ── The new rows ─────────────────────────────────────────────────────────────

/// A source and how far it has been consumed.
#[derive(Debug, Clone)]
pub struct SourcePosition {
    pub source_name: String,
    pub position: String,
}

/// The store with the run created.
pub open spec fn with_run(
    db: StoreView,
    spec: DagSpec,
    yaml: Seq<char>,
    seed: RunSeed,
    stamp: RunStamp,
    offset: Option<SourcePosition>,
) -> StoreView {
    let now = stamp.created_at@;
    let n = spec.tasks@.len() as int;
    StoreView {
        definitions: db.definitions.push(
            DefinitionView { id: seed.definition_id@, name: spec.name@, spec: yaml, created_at: now },
        ),
        runs: db.runs.push(
            WorkflowRunView {
                id: seed.run_id@,
                definition_id: seed.definition_id@,
                status: RunStatus::Running,
                input: None,
                output: None,
                created_at: now,
                finished_at: None,
                deadline_at: opt(stamp.deadline_at),
                alert_deadline_at: opt(stamp.alert_deadline_at),
                alert_fired_at: None,
                result_from: opt(spec.result_from),
                environment: opt(spec.environment),
                schedule_id: None,
                clock_confidence: Some(stamp.clock.confidence.text()),
                clock_offset_ms: opt_int(stamp.clock.offset_ms),
                clock_source: opt(stamp.clock.source),
            },
        ),
        tasks: db.tasks + run_rows(spec, seed, now, n),
        edges: db.edges + run_edges(spec.tasks@, seed.task_ids@, n),
        offsets: match offset {
            Some(o) => offset_upserted(db.offsets, o.source_name@, o.position@, now),
            None => db.offsets,
        },
        ..db
    }
}

/// The counts that the rows hold fit their columns.
pub open spec fn counts_fit(tasks: Seq<TaskSpec>) -> bool {
    forall|i: int|
        0 <= i < tasks.len() ==> dependency_rows(
            tasks,
            i,
            (#[trigger] tasks[i]).depends_on@.len() as int,
        ) <= i64::MAX
}

fn count_active(db: &Store, name: &str) -> (n: u64)
    ensures
        n == active_runs(db@, name@),
{
    let ghost p = |r: WorkflowRunView| active_run(db@.definitions, r, name@);
    let mut n: u64 = 0;
    let mut i: usize = 0;
    assert(db@.runs.take(0) =~= Seq::<WorkflowRunView>::empty());
    while i < db.runs.len()
        invariant
            i <= db.runs@.len(),
            p == (|r: WorkflowRunView| active_run(db@.definitions, r, name@)),
            n == count(db@.runs.take(i as int), p),
            n <= i,
        decreases db.runs@.len() - i,
    {
        proof {
            lemma_count_take(db@.runs, p, i as int);
            assert(db@.runs[i as int] == db.runs@[i as int]@);
        }
        let run: &WorkflowRun = &db.runs[i];
        let mut ours: bool = false;
        if run.status == RunStatus::Running {
            let mut j: usize = 0;
            while j < db.definitions.len()
                invariant
                    j <= db.definitions@.len(),
                    ours == (exists|k: int|
                        0 <= k < j && (#[trigger] db@.definitions[k]).id == run@.definition_id
                            && db@.definitions[k].name == name@),
                decreases db.definitions@.len() - j,
            {
                assert(db@.definitions[j as int] == db.definitions@[j as int]@);
                if same(db.definitions[j].id.as_str(), run.definition_id.as_str()) && same(
                    db.definitions[j].name.as_str(),
                    name,
                ) {
                    ours = true;
                }
                j += 1;
            }
        }
        if ours {
            n = n + 1;
        }
        i += 1;
    }
    assert(db@.runs.take(db@.runs.len() as int) =~= db@.runs);
    n
}

/// The place of the first task with this name.
fn find_task(tasks: &Vec<TaskSpec>, name: &str) -> (r: Option<usize>)
    ensures
        match r {
            Some(i) => i < tasks@.len() && tasks@[i as int].name@ == name@ && (forall|j: int|
                0 <= j < i ==> #[trigger] tasks@[j].name@ != name@),
            None => !known(tasks@, name@),
        },
{
    let mut i: usize = 0;
    while i < tasks.len()
        invariant
            i <= tasks@.len(),
            forall|j: int| 0 <= j < i ==> #[trigger] tasks@[j].name@ != name@,
        decreases tasks@.len() - i,
    {
        if same(tasks[i].name.as_str(), name) {
            return Some(i);
        }
        i += 1;
    }
    None
}

proof fn lemma_named_rows(tasks: Seq<TaskSpec>, name: Seq<char>, from: int, i: int)
    requires
        0 <= from <= i <= tasks.len(),
        forall|j: int| from <= j < i ==> #[trigger] tasks[j].name@ != name,
    ensures
        named_rows(tasks, name, from) == named_rows(tasks, name, i),
    decreases i - from,
{
    if from < i {
        assert(tasks[from].name@ != name);
        lemma_named_rows(tasks, name, from + 1, i);
    }
}

fn rows_named(tasks: &Vec<TaskSpec>, name: &str) -> (n: u32)
    ensures
        n == named_rows(tasks@, name@, 0),
{
    match find_task(tasks, name) {
        Some(i) => {
            proof {
                lemma_named_rows(tasks@, name@, 0, i as int);
            }
            tasks[i].row_count()
        },
        None => {
            proof {
                assert forall|j: int| 0 <= j < tasks@.len() implies #[trigger] tasks@[j].name@ != name@ by {}
                lemma_named_rows(tasks@, name@, 0, tasks@.len() as int);
            }
            1
        },
    }
}

proof fn lemma_dependency_rows_grow(tasks: Seq<TaskSpec>, i: int, a: int, b: int)
    requires
        0 <= a <= b,
    ensures
        dependency_rows(tasks, i, a) <= dependency_rows(tasks, i, b),
    decreases b - a,
{
    if a < b {
        lemma_dependency_rows_grow(tasks, i, a, b - 1);
    }
}

fn count_dependency_rows(tasks: &Vec<TaskSpec>, i: usize) -> (n: i64)
    requires
        i < tasks@.len(),
        counts_fit(tasks@),
    ensures
        n == dependency_rows(tasks@, i as int, tasks@[i as int].depends_on@.len() as int),
{
    let deps: &Vec<String> = &tasks[i].depends_on;
    let mut n: i64 = 0;
    let mut k: usize = 0;
    assert(dependency_rows(tasks@, i as int, deps@.len() as int) <= i64::MAX);
    while k < deps.len()
        invariant
            k <= deps@.len(),
            i < tasks@.len(),
            *deps == tasks@[i as int].depends_on,
            n == dependency_rows(tasks@, i as int, k as int),
            dependency_rows(tasks@, i as int, deps@.len() as int) <= i64::MAX,
        decreases deps@.len() - k,
    {
        proof {
            lemma_dependency_rows_grow(tasks@, i as int, k as int + 1, deps@.len() as int);
        }
        n = n + rows_named(tasks, deps[k].as_str()) as i64;
        k += 1;
    }
    n
}

fn text_or(o: &Option<String>, fallback: &str) -> (r: String)
    ensures
        r@ == or_else(*o, fallback@),
{
    match o {
        Some(s) => s.clone(),
        None => fallback.to_owned(),
    }
}

/// Row `rank` of task `i`, whose first row is number `at`.
fn build_row(
    spec: &DagSpec,
    seed: &RunSeed,
    now: &str,
    i: usize,
    at: usize,
    rank: u32,
    remaining_deps: i64,
) -> (row: TaskRun)
    requires
        i < spec.tasks@.len(),
        seed.covers(spec.tasks@),
        at == planned_rows(spec.tasks@, i as int),
        rank < spec.tasks@[i as int].rows(),
        at + rank < seed.task_ids@.len(),
        remaining_deps == dependency_rows(
            spec.tasks@,
            i as int,
            spec.tasks@[i as int].depends_on@.len() as int,
        ),
    ensures
        row@ == new_row(*spec, *seed, now@, i as int, at as int, rank as int),
{
    let t: &TaskSpec = &spec.tasks[i];
    let total: usize = seed.task_ids.len();
    let n: usize = at + rank as usize;
    let gang: bool = t.gang.is_some();
    let name: String = if gang {
        let mut name: String = t.name.clone();
        name.append(".");
        name.append(u64_text(rank as u64).as_str());
        name
    } else {
        t.name.clone()
    };
    let class: String = match &t.runner_class {
        Some(c) => c.clone(),
        None => text_or(&spec.runner_class, DEFAULT_RUNNER_CLASS),
    };
    TaskRun {
        id: seed.task_ids[n].clone(),
        run_id: seed.run_id.clone(),
        name,
        status: TaskStatus::Pending,
        attempt: 0,
        remaining_deps,
        input: Some(seed.inputs[n].clone()),
        when: t.when.clone(),
        output: None,
        claimed_by: None,
        lease_expires_at: None,
        version: 0,
        scheduled_at: Some(now.to_owned()),
        finished_at: None,
        pool: t.pool.clone(),
        priority: t.priority,
        cache_hit: false,
        wake_at: None,
        wait_url: None,
        next_poll_at: None,
        wait_dataset: None,
        wait_dataset_cursor: None,
        sub_run_id: None,
        trigger_rule: text_or(&t.trigger_rule, DEFAULT_TRIGGER_RULE),
        allow_failure: t.allow_failure,
        is_approval: t.is_approval(),
        approval_timeout_secs: match t.approval_timeout_secs {
            Some(secs) => Some(cap_secs(secs)),
            None => None,
        },
        approval_on_timeout: t.approval_on_timeout.clone(),
        runner_class: class,
        gang_id: if gang {
            Some(seed.gang_ids[i].clone())
        } else {
            None
        },
        gang_rank: if gang {
            Some(rank as i64)
        } else {
            None
        },
        gang_size: if gang {
            Some(t.row_count() as i64)
        } else {
            None
        },
        checkpoint_uri: None,
        checkpoint_marker: None,
    }
}

proof fn lemma_rows_len(spec: DagSpec, seed: RunSeed, now: Seq<char>, n: int)
    requires
        0 <= n <= spec.tasks@.len(),
    ensures
        run_rows(spec, seed, now, n).len() == planned_rows(spec.tasks@, n),
    decreases n,
{
    if n > 0 {
        lemma_rows_len(spec, seed, now, n - 1);
    }
}

proof fn lemma_planned_grow(tasks: Seq<TaskSpec>, a: int, b: int)
    requires
        0 <= a <= b <= tasks.len(),
    ensures
        planned_rows(tasks, a) <= planned_rows(tasks, b),
    decreases b - a,
{
    if a < b {
        lemma_planned_grow(tasks, a, b - 1);
    }
}

/// The rows of a run.
fn build_rows(spec: &DagSpec, seed: &RunSeed, now: &str) -> (rows: Vec<TaskRun>)
    requires
        seed.covers(spec.tasks@),
        counts_fit(spec.tasks@),
    ensures
        views(rows@) == run_rows(*spec, *seed, now@, spec.tasks@.len() as int),
{
    let ghost tasks = spec.tasks@;
    let total: usize = seed.task_ids.len();
    let mut rows: Vec<TaskRun> = Vec::new();
    let mut i: usize = 0;
    assert(views(rows@) =~= Seq::<TaskRunView>::empty());
    while i < spec.tasks.len()
        invariant
            i <= tasks.len(),
            tasks == spec.tasks@,
            total == seed.task_ids@.len(),
            seed.covers(tasks),
            counts_fit(tasks),
            views(rows@) == run_rows(*spec, *seed, now@, i as int),
            rows@.len() == planned_rows(tasks, i as int),
        decreases tasks.len() - i,
    {
        let at: usize = rows.len();
        let members: u32 = spec.tasks[i].row_count();
        let remaining: i64 = count_dependency_rows(&spec.tasks, i);
        proof {
            lemma_planned_grow(tasks, i as int + 1, tasks.len() as int);
        }
        let ghost was = views(rows@);
        let mut rank: u32 = 0;
        assert(was + task_rows(*spec, *seed, now@, i as int, 0) =~= was);
        while rank < members
            invariant
                i < tasks.len(),
                tasks == spec.tasks@,
                total == seed.task_ids@.len(),
                members == tasks[i as int].rows(),
                rank <= members,
                seed.covers(tasks),
                at == planned_rows(tasks, i as int),
                at + members <= total,
                remaining == dependency_rows(
                    tasks,
                    i as int,
                    tasks[i as int].depends_on@.len() as int,
                ),
                views(rows@) == was + task_rows(*spec, *seed, now@, i as int, rank as int),
            decreases members - rank,
        {
            let row: TaskRun = build_row(spec, seed, now, i, at, rank, remaining);
            let ghost r = row@;
            let ghost so_far = views(rows@);
            rows.push(row);
            assert(views(rows@) =~= so_far.push(r));
            assert(so_far.push(r) =~= was + task_rows(
                *spec,
                *seed,
                now@,
                i as int,
                rank as int + 1,
            ));
            rank += 1;
        }
        proof {
            lemma_rows_len(*spec, *seed, now@, i as int + 1);
        }
        i += 1;
    }
    rows
}

proof fn lemma_no_duplicates(tasks: Seq<TaskSpec>, from: int, i: int)
    requires
        0 <= from <= i < tasks.len(),
        duplicate_from(tasks, from) is None,
    ensures
        !duplicate_name(tasks, i),
    decreases i - from,
{
    if from < i {
        lemma_no_duplicates(tasks, from + 1, i);
    }
}

/// Without duplicates, the first task of a name is the only one.
proof fn lemma_only_task(tasks: Seq<TaskSpec>, i: int)
    requires
        0 <= i < tasks.len(),
        duplicate_from(tasks, 0) is None,
    ensures
        task_index(tasks, tasks[i].name@) == i,
{
    let j = task_index(tasks, tasks[i].name@);
    assert(0 <= j < tasks.len() && tasks[j].name@ == tasks[i].name@);
    if i < j {
        lemma_no_duplicates(tasks, 0, j);
    } else if j < i {
        lemma_no_duplicates(tasks, 0, i);
    }
}

/// The number of the first row of task `i`.
fn first_row(tasks: &Vec<TaskSpec>, i: usize, total: usize) -> (n: usize)
    requires
        i <= tasks@.len(),
        planned_rows(tasks@, tasks@.len() as int) == total,
    ensures
        n == planned_rows(tasks@, i as int),
{
    let mut n: usize = 0;
    let mut k: usize = 0;
    while k < i
        invariant
            k <= i <= tasks@.len(),
            n == planned_rows(tasks@, k as int),
            planned_rows(tasks@, tasks@.len() as int) == total,
        decreases i - k,
    {
        proof {
            lemma_planned_grow(tasks@, k as int + 1, tasks@.len() as int);
        }
        n = n + tasks[k].row_count() as usize;
        k += 1;
    }
    n
}

/// Appends the edges from each of `m` rows from `a` on to each of `n` rows from `b` on.
fn push_fan(edges: &mut Vec<Edge>, ids: &Vec<String>, a: usize, m: u32, b: usize, n: u32)
    requires
        a + m <= ids@.len(),
        b + n <= ids@.len(),
    ensures
        views(final(edges)@) == views(old(edges)@) + fan_all(
            ids@,
            a as int,
            m as int,
            b as int,
            n as int,
        ),
{
    let ghost was = views(edges@);
    let total: usize = ids.len();
    let mut x: u32 = 0;
    assert(was + fan_all(ids@, a as int, 0, b as int, n as int) =~= was);
    while x < m
        invariant
            x <= m,
            total == ids@.len(),
            a + m <= total,
            b + n <= total,
            views(edges@) == was + fan_all(ids@, a as int, x as int, b as int, n as int),
        decreases m - x,
    {
        let ghost before = views(edges@);
        let mut y: u32 = 0;
        assert(before + fan(ids@, a + x, b as int, 0) =~= before);
        while y < n
            invariant
                x < m,
                y <= n,
                total == ids@.len(),
                a + m <= total,
                b + n <= total,
                views(edges@) == before + fan(ids@, a + x, b as int, y as int),
            decreases n - y,
        {
            let edge: Edge = Edge {
                dependent_id: ids[a + x as usize].clone(),
                dependency_id: ids[b + y as usize].clone(),
            };
            let ghost e = edge@;
            let ghost so_far = views(edges@);
            edges.push(edge);
            assert(views(edges@) =~= so_far.push(e));
            assert(so_far.push(e) =~= before + fan(ids@, a + x, b as int, y as int + 1));
            y += 1;
        }
        assert(before + fan(ids@, a + x, b as int, n as int) =~= was + fan_all(
            ids@,
            a as int,
            x as int + 1,
            b as int,
            n as int,
        ));
        x += 1;
    }
}

/// The edges of a run.
fn build_edges(spec: &DagSpec, seed: &RunSeed) -> (edges: Vec<Edge>)
    requires
        seed.covers(spec.tasks@),
        duplicate_from(spec.tasks@, 0) is None,
        unknown_from(spec.tasks@, 0, 0) is None,
    ensures
        views(edges@) == run_edges(spec.tasks@, seed.task_ids@, spec.tasks@.len() as int),
{
    let ghost tasks = spec.tasks@;
    let ghost ids = seed.task_ids@;
    let total: usize = seed.task_ids.len();
    let mut edges: Vec<Edge> = Vec::new();
    let mut i: usize = 0;
    assert(views(edges@) =~= Seq::<EdgeView>::empty());
    while i < spec.tasks.len()
        invariant
            i <= tasks.len(),
            tasks == spec.tasks@,
            ids == seed.task_ids@,
            total == ids.len(),
            seed.covers(tasks),
            duplicate_from(tasks, 0) is None,
            unknown_from(tasks, i as int, 0) is None,
            views(edges@) == run_edges(tasks, ids, i as int),
        decreases tasks.len() - i,
    {
        let a: usize = first_row(&spec.tasks, i, total);
        let m: u32 = spec.tasks[i].row_count();
        proof {
            lemma_planned_grow(tasks, i as int + 1, tasks.len() as int);
        }
        let deps: &Vec<String> = &spec.tasks[i].depends_on;
        let ghost was = views(edges@);
        let mut k: usize = 0;
        assert(was + edges_for(tasks, ids, i as int, 0) =~= was);
        while k < deps.len()
            invariant
                i < tasks.len(),
                k <= deps@.len(),
                tasks == spec.tasks@,
                ids == seed.task_ids@,
                total == ids.len(),
                *deps == tasks[i as int].depends_on,
                seed.covers(tasks),
                duplicate_from(tasks, 0) is None,
                unknown_from(tasks, i as int, k as int) is None,
                a == planned_rows(tasks, i as int),
                m == tasks[i as int].rows(),
                a + m <= total,
                views(edges@) == was + edges_for(tasks, ids, i as int, k as int),
            decreases deps@.len() - k,
        {
            match find_task(&spec.tasks, deps[k].as_str()) {
                Some(j) => {
                    proof {
                        lemma_only_task(tasks, j as int);
                        lemma_planned_grow(tasks, j as int + 1, tasks.len() as int);
                    }
                    let b: usize = first_row(&spec.tasks, j, total);
                    let ghost before = views(edges@);
                    push_fan(&mut edges, &seed.task_ids, a, m, b, spec.tasks[j].row_count());
                    assert(views(edges@) =~= was + edges_for(tasks, ids, i as int, k as int + 1));
                },
                None => {
                    assert(false);
                },
            }
            k += 1;
        }
        i += 1;
    }
    edges
}

fn check_duplicates(tasks: &Vec<TaskSpec>) -> (r: Option<CreateRunError>)
    ensures
        r == duplicate_from(tasks@, 0),
{
    let mut i: usize = 0;
    while i < tasks.len()
        invariant
            i <= tasks@.len(),
            duplicate_from(tasks@, 0) == duplicate_from(tasks@, i as int),
        decreases tasks@.len() - i,
    {
        let mut j: usize = 0;
        while j < i
            invariant
                j <= i < tasks@.len(),
                duplicate_from(tasks@, 0) == duplicate_from(tasks@, i as int),
                forall|k: int| 0 <= k < j ==> #[trigger] tasks@[k].name@ != tasks@[i as int].name@,
            decreases i - j,
        {
            if same(tasks[j].name.as_str(), tasks[i].name.as_str()) {
                assert(duplicate_name(tasks@, i as int));
                return Some(CreateRunError::DuplicateTask { task: i });
            }
            j += 1;
        }
        i += 1;
    }
    None
}

fn check_dependencies(tasks: &Vec<TaskSpec>) -> (r: Option<CreateRunError>)
    ensures
        r == unknown_from(tasks@, 0, 0),
{
    let mut i: usize = 0;
    while i < tasks.len()
        invariant
            i <= tasks@.len(),
            unknown_from(tasks@, 0, 0) == unknown_from(tasks@, i as int, 0),
        decreases tasks@.len() - i,
    {
        let deps: &Vec<String> = &tasks[i].depends_on;
        let mut k: usize = 0;
        while k < deps.len()
            invariant
                i < tasks@.len(),
                k <= deps@.len(),
                *deps == tasks@[i as int].depends_on,
                unknown_from(tasks@, 0, 0) == unknown_from(tasks@, i as int, k as int),
            decreases deps@.len() - k,
        {
            match find_task(tasks, deps[k].as_str()) {
                Some(j) => {
                    assert(tasks@[j as int].name@ == deps@[k as int]@);
                },
                None => {
                    return Some(CreateRunError::UnknownDependency { task: i, index: k });
                },
            }
            k += 1;
        }
        i += 1;
    }
    None
}

/// Appends the rows of `more`.
fn append_tasks(rows: &mut Vec<TaskRun>, more: Vec<TaskRun>)
    ensures
        views(final(rows)@) == views(old(rows)@) + views(more@),
{
    let ghost was = rows@;
    let mut more: Vec<TaskRun> = more;
    let ghost extra = more@;
    rows.append(&mut more);
    assert(views(rows@) =~= views(was) + views(extra));
}

fn append_edges(rows: &mut Vec<Edge>, more: Vec<Edge>)
    ensures
        views(final(rows)@) == views(old(rows)@) + views(more@),
{
    let ghost was = rows@;
    let mut more: Vec<Edge> = more;
    let ghost extra = more@;
    rows.append(&mut more);
    assert(views(rows@) =~= views(was) + views(extra));
}

fn create_run_inner(
    db: &mut Store,
    dag: &DagGraph,
    yaml_spec: &str,
    seed: &RunSeed,
    stamp: &RunStamp,
    offset: Option<SourcePosition>,
) -> (r: Result<String, CreateRunError>)
    requires
        seed.covers(dag.spec.tasks@),
        counts_fit(dag.spec.tasks@),
    ensures
        match r {
            Ok(id) => create_error(old(db)@, dag.spec) is None && id@ == seed.run_id@ && final(db)@
                == with_run(old(db)@, dag.spec, yaml_spec@, *seed, *stamp, offset),
            Err(e) => create_error(old(db)@, dag.spec) == Some(e) && final(db)@ == old(db)@,
        },
{
    let spec: &DagSpec = &dag.spec;
    let ghost was = db@;
    match spec.max_active_runs {
        Some(max) => {
            if max > 0 {
                let active: u64 = count_active(db, spec.name.as_str());
                if active >= max as u64 {
                    return Err(
                        CreateRunError::MaxActiveRunsReached { name: spec.name.clone(), max, active },
                    );
                }
            }
        },
        None => {},
    }
    match check_duplicates(&spec.tasks) {
        Some(e) => {
            return Err(e);
        },
        None => {},
    }
    match check_dependencies(&spec.tasks) {
        Some(e) => {
            return Err(e);
        },
        None => {},
    }
    let now: &str = stamp.created_at.as_str();
    let rows: Vec<TaskRun> = build_rows(spec, seed, now);
    let edges: Vec<Edge> = build_edges(spec, seed);
    let definition: Definition = Definition {
        id: seed.definition_id.clone(),
        name: spec.name.clone(),
        spec: yaml_spec.to_owned(),
        created_at: stamp.created_at.clone(),
    };
    let run: WorkflowRun = WorkflowRun {
        id: seed.run_id.clone(),
        definition_id: seed.definition_id.clone(),
        status: RunStatus::Running,
        input: None,
        output: None,
        created_at: stamp.created_at.clone(),
        finished_at: None,
        deadline_at: stamp.deadline_at.clone(),
        alert_deadline_at: stamp.alert_deadline_at.clone(),
        alert_fired_at: None,
        result_from: spec.result_from.clone(),
        environment: spec.environment.clone(),
        schedule_id: None,
        clock_confidence: Some(stamp.clock.confidence.as_str().to_owned()),
        clock_offset_ms: stamp.clock.offset_ms,
        clock_source: stamp.clock.source.clone(),
    };
    let ghost d = definition@;
    let ghost w = run@;
    db.definitions.push(definition);
    db.runs.push(run);
    append_tasks(&mut db.tasks, rows);
    append_edges(&mut db.edges, edges);
    match &offset {
        Some(o) => {
            upsert_source_offset(&mut db.offsets, o.source_name.as_str(), o.position.as_str(), now);
        },
        None => {},
    }
    assert(db@.definitions =~= was.definitions.push(d));
    assert(db@.runs =~= was.runs.push(w));
    Ok(seed.run_id.clone())
}

/// Creates a run of the workflow: definition, run, rows and edges. Refused
/// while the workflow has as many runs in flight as it allows.
pub fn create_run(
    db: &mut Store,
    dag: &DagGraph,
    yaml_spec: &str,
    seed: &RunSeed,
    stamp: &RunStamp,
) -> (r: Result<String, CreateRunError>)
    requires
        seed.covers(dag.spec.tasks@),
        counts_fit(dag.spec.tasks@),
    ensures
        match r {
            Ok(id) => create_error(old(db)@, dag.spec) is None && id@ == seed.run_id@ && final(db)@
                == with_run(old(db)@, dag.spec, yaml_spec@, *seed, *stamp, None),
            Err(e) => create_error(old(db)@, dag.spec) == Some(e) && final(db)@ == old(db)@,
        },
{
    create_run_inner(db, dag, yaml_spec, seed, stamp, None)
}

/// [`create_run`] that also commits a source's position: both or neither.
pub fn create_run_with_offset(
    db: &mut Store,
    dag: &DagGraph,
    yaml_spec: &str,
    seed: &RunSeed,
    stamp: &RunStamp,
    source_name: String,
    position: String,
) -> (r: Result<String, CreateRunError>)
    requires
        seed.covers(dag.spec.tasks@),
        counts_fit(dag.spec.tasks@),
    ensures
        match r {
            Ok(id) => create_error(old(db)@, dag.spec) is None && id@ == seed.run_id@ && final(db)@
                == with_run(
                old(db)@,
                dag.spec,
                yaml_spec@,
                *seed,
                *stamp,
                Some(SourcePosition { source_name, position }),
            ),
            Err(e) => create_error(old(db)@, dag.spec) == Some(e) && final(db)@ == old(db)@,
        },
{
    create_run_inner(db, dag, yaml_spec, seed, stamp, Some(SourcePosition { source_name, position }))
}

// ── What a new run waits for ─────────────────────────────────────────────────

/// The ids of a seed are all different.
pub open spec fn distinct_ids(ids: Seq<String>) -> bool {
    forall|a: int, b: int| 0 <= a < b < ids.len() ==> #[trigger] ids[a]@ != #[trigger] ids[b]@
}

proof fn lemma_count_add<V>(a: Seq<V>, b: Seq<V>, p: spec_fn(V) -> bool)
    ensures
        count(a + b, p) == count(a, p) + count(b, p),
    decreases b.len(),
{
    if b.len() == 0 {
        assert(a + b =~= a);
    } else {
        assert((a + b).drop_last() =~= a + b.drop_last());
        lemma_count_add(a, b.drop_last(), p);
    }
}

proof fn lemma_fan_count(ids: Seq<String>, a: int, b: int, n: int, x: int)
    requires
        distinct_ids(ids),
        0 <= a < ids.len(),
        0 <= x < ids.len(),
        0 <= n,
    ensures
        count(fan(ids, a, b, n), |e: EdgeView| e.dependent_id == ids[x]@) == if a == x {
            n
        } else {
            0
        },
    decreases n,
{
    let p = |e: EdgeView| e.dependent_id == ids[x]@;
    let s = fan(ids, a, b, n);
    if n > 0 {
        assert(s.drop_last() =~= fan(ids, a, b, n - 1));
        lemma_fan_count(ids, a, b, n - 1, x);
        if a != x {
            assert(ids[a]@ != ids[x]@) by {
                if a < x {
                    assert(ids[a]@ != ids[x]@);
                } else {
                    assert(ids[x]@ != ids[a]@);
                }
            }
        }
    }
}

proof fn lemma_fan_all_count(ids: Seq<String>, a: int, m: int, b: int, n: int, x: int)
    requires
        distinct_ids(ids),
        0 <= a,
        0 <= m,
        a + m <= ids.len(),
        0 <= x < ids.len(),
        0 <= n,
    ensures
        count(fan_all(ids, a, m, b, n), |e: EdgeView| e.dependent_id == ids[x]@) == if a <= x < a + m {
            n
        } else {
            0
        },
    decreases m,
{
    let p = |e: EdgeView| e.dependent_id == ids[x]@;
    if m > 0 {
        lemma_fan_all_count(ids, a, m - 1, b, n, x);
        lemma_fan_count(ids, a + m - 1, b, n, x);
        lemma_count_add(fan_all(ids, a, m - 1, b, n), fan(ids, a + m - 1, b, n), p);
    }
}

proof fn lemma_edges_for_count(tasks: Seq<TaskSpec>, ids: Seq<String>, i: int, k: int, x: int)
    requires
        duplicate_from(tasks, 0) is None,
        distinct_ids(ids),
        ids.len() == planned_rows(tasks, tasks.len() as int),
        0 <= i < tasks.len(),
        0 <= k <= tasks[i].depends_on@.len(),
        0 <= x < ids.len(),
        forall|d: int|
            0 <= d < tasks[i].depends_on@.len() ==> known(tasks, #[trigger] tasks[i].depends_on@[d]@),
    ensures
        count(edges_for(tasks, ids, i, k), |e: EdgeView| e.dependent_id == ids[x]@) == if planned_rows(
            tasks,
            i,
        ) <= x < planned_rows(tasks, i) + tasks[i].rows() {
            dependency_rows(tasks, i, k)
        } else {
            0
        },
    decreases k,
{
    let p = |e: EdgeView| e.dependent_id == ids[x]@;
    if k > 0 {
        lemma_edges_for_count(tasks, ids, i, k - 1, x);
        let name = tasks[i].depends_on@[k - 1]@;
        assert(known(tasks, name));
        let j = task_index(tasks, name);
        assert(0 <= j < tasks.len() && tasks[j].name@ == name);
        assert forall|m: int| 0 <= m < j implies #[trigger] tasks[m].name@ != name by {
            if tasks[m].name@ == name {
                lemma_only_task(tasks, m);
            }
        }
        lemma_named_rows(tasks, name, 0, j);
        lemma_planned_grow(tasks, i + 1, tasks.len() as int);
        let a = planned_rows(tasks, i) as int;
        let m = tasks[i].rows() as int;
        let b = planned_rows(tasks, j) as int;
        let n = tasks[j].rows() as int;
        lemma_fan_all_count(ids, a, m, b, n, x);
        lemma_count_add(edges_for(tasks, ids, i, k - 1), fan_all(ids, a, m, b, n), p);
    }
}

proof fn lemma_run_edges_count(tasks: Seq<TaskSpec>, ids: Seq<String>, n: int, i: int, x: int)
    requires
        duplicate_from(tasks, 0) is None,
        distinct_ids(ids),
        ids.len() == planned_rows(tasks, tasks.len() as int),
        0 <= n <= tasks.len(),
        0 <= i < tasks.len(),
        planned_rows(tasks, i) <= x < planned_rows(tasks, i) + tasks[i].rows(),
        forall|j: int, d: int|
            0 <= j < tasks.len() && 0 <= d < tasks[j].depends_on@.len() ==> known(
                tasks,
                #[trigger] tasks[j].depends_on@[d]@,
            ),
    ensures
        count(run_edges(tasks, ids, n), |e: EdgeView| e.dependent_id == ids[x]@) == if i < n {
            dependency_rows(tasks, i, tasks[i].depends_on@.len() as int)
        } else {
            0
        },
    decreases n,
{
    let p = |e: EdgeView| e.dependent_id == ids[x]@;
    if n > 0 {
        lemma_run_edges_count(tasks, ids, n - 1, i, x);
        lemma_planned_grow(tasks, i + 1, tasks.len() as int);
        let own = edges_for(tasks, ids, n - 1, tasks[n - 1].depends_on@.len() as int);
        lemma_edges_for_count(tasks, ids, n - 1, tasks[n - 1].depends_on@.len() as int, x);
        lemma_count_add(run_edges(tasks, ids, n - 1), own, p);
        if n - 1 < i {
            lemma_planned_grow(tasks, n, i);
        } else if i < n - 1 {
            lemma_planned_grow(tasks, i + 1, n - 1);
        }
    }
}

proof fn lemma_known(tasks: Seq<TaskSpec>, from: int, at: int, i: int, k: int)
    requires
        0 <= from < tasks.len(),
        0 <= at <= tasks[from].depends_on@.len(),
        unknown_from(tasks, from, at) is None,
        0 <= i < tasks.len(),
        0 <= k < tasks[i].depends_on@.len(),
        from < i || (from == i && at <= k),
    ensures
        known(tasks, tasks[i].depends_on@[k]@),
    decreases tasks.len() - from, tasks[from].depends_on@.len() - at,
{
    if at < tasks[from].depends_on@.len() {
        if !(from == i && at == k) {
            lemma_known(tasks, from, at + 1, i, k);
        }
    } else {
        lemma_known(tasks, from + 1, 0, i, k);
    }
}

/// Every row of a new run waits for exactly as many dependencies as there are
/// edges into it.
pub proof fn law_new_row_waits_for_its_edges(
    db: StoreView,
    spec: DagSpec,
    seed: RunSeed,
    now: Seq<char>,
    i: int,
    rank: int,
)
    requires
        create_error(db, spec) is None,
        seed.covers(spec.tasks@),
        distinct_ids(seed.task_ids@),
        0 <= i < spec.tasks@.len(),
        0 <= rank < spec.tasks@[i].rows(),
    ensures
        ({
            let tasks = spec.tasks@;
            let at = planned_rows(tasks, i) as int;
            let row = new_row(spec, seed, now, i, at, rank);
            row.remaining_deps == count(
                run_edges(tasks, seed.task_ids@, tasks.len() as int),
                |e: EdgeView| e.dependent_id == row.id,
            )
        }),
{
    let tasks = spec.tasks@;
    let ids = seed.task_ids@;
    let x = planned_rows(tasks, i) + rank;
    lemma_planned_grow(tasks, i + 1, tasks.len() as int);
    assert forall|j: int, d: int| 0 <= j < tasks.len() && 0 <= d < tasks[j].depends_on@.len() implies known(
        tasks,
        #[trigger] tasks[j].depends_on@[d]@,
    ) by {
        lemma_known(tasks, 0, 0, j, d);
    }
    lemma_run_edges_count(tasks, ids, tasks.len() as int, i, x as int);
    let row = new_row(spec, seed, now, i, planned_rows(tasks, i) as int, rank);
    assert(row.id == ids[x as int]@);
    assert((|e: EdgeView| e.dependent_id == row.id) =~= (|e: EdgeView| e.dependent_id
        == ids[x as int]@));
}

/// A run that comes from a source commits the source's position: whoever reads
/// the position afterwards starts after the input of this run.
pub proof fn law_run_commits_its_position(
    db: StoreView,
    spec: DagSpec,
    yaml: Seq<char>,
    seed: RunSeed,
    stamp: RunStamp,
    offset: SourcePosition,
)
    ensures
        committed(
            with_run(db, spec, yaml, seed, stamp, Some(offset)).offsets,
            offset.source_name@,
        ) == Some(offset.position@),
        with_run(db, spec, yaml, seed, stamp, Some(offset)).runs.len() == db.runs.len() + 1,
{
    law_offset_read_back(
        db.offsets,
        offset.source_name@,
        offset.position@,
        stamp.created_at@,
        offset.source_name@,
    );
}

proof fn lemma_count_alike<V>(s: Seq<V>, p: spec_fn(V) -> bool, holds: bool)
    requires
        forall|k: int| 0 <= k < s.len() ==> p(#[trigger] s[k]) == holds,
    ensures
        count(s, p) == if holds { s.len() } else { 0 },
    decreases s.len(),
{
    if s.len() > 0 {
        let rest = s.drop_last();
        assert forall|k: int| 0 <= k < rest.len() implies p(#[trigger] rest[k]) == holds by {
            assert(rest[k] == s[k]);
        }
        lemma_count_alike(rest, p, holds);
        assert(s[s.len() - 1] == s.last());
    }
}

/// Among the rows of the first `n` tasks, those of gang `i` are as many as the
/// gang's size, and say so.
proof fn lemma_gang_rows(spec: DagSpec, seed: RunSeed, now: Seq<char>, n: int, i: int)
    requires
        seed.covers(spec.tasks@),
        distinct_ids(seed.gang_ids@),
        0 <= n <= spec.tasks@.len(),
        0 <= i < spec.tasks@.len(),
        spec.tasks@[i].gang is Some,
    ensures
        ({
            let rows = run_rows(spec, seed, now, n);
            let member = |t: TaskRunView| t.gang_id == Some(seed.gang_ids@[i]@);
            &&& count(rows, member) == if i < n { spec.tasks@[i].rows() } else { 0 }
            &&& forall|k: int|
                0 <= k < rows.len() && member(#[trigger] rows[k]) ==> rows[k].pool == opt(
                    spec.tasks@[i].pool,
                ) && rows[k].gang_size == Some(spec.tasks@[i].rows() as int)
        }),
    decreases n,
{
    let member = |t: TaskRunView| t.gang_id == Some(seed.gang_ids@[i]@);
    if n > 0 {
        lemma_gang_rows(spec, seed, now, n - 1, i);
        let prior = run_rows(spec, seed, now, n - 1);
        let own = task_rows(spec, seed, now, n - 1, spec.tasks@[n - 1].rows() as int);
        assert forall|k: int| 0 <= k < own.len() implies member(#[trigger] own[k]) == (i == n - 1) by {
            if i < n - 1 {
                assert(seed.gang_ids@[i]@ != seed.gang_ids@[n - 1]@);
            } else if n - 1 < i {
                assert(seed.gang_ids@[n - 1]@ != seed.gang_ids@[i]@);
            }
        }
        lemma_count_alike(own, member, i == n - 1);
        lemma_count_add(prior, own, member);
        let rows = prior + own;
        assert forall|k: int| 0 <= k < rows.len() && member(#[trigger] rows[k]) implies rows[k].pool
            == opt(spec.tasks@[i].pool) && rows[k].gang_size == Some(spec.tasks@[i].rows() as int) by {
            if k < prior.len() {
                assert(rows[k] == prior[k]);
            } else {
                assert(rows[k] == own[k - prior.len()]);
            }
        }
    }
}

/// A new run brings each of its gangs in full.
pub proof fn law_new_gang_is_whole(
    db: StoreView,
    spec: DagSpec,
    yaml: Seq<char>,
    seed: RunSeed,
    stamp: RunStamp,
    offset: Option<SourcePosition>,
    i: int,
)
    requires
        seed.covers(spec.tasks@),
        distinct_ids(seed.gang_ids@),
        0 <= i < spec.tasks@.len(),
        spec.tasks@[i].gang is Some,
        !any(db.tasks, |t: TaskRunView| t.gang_id == Some(seed.gang_ids@[i]@)),
    ensures
        whole_gang(with_run(db, spec, yaml, seed, stamp, offset).tasks, seed.gang_ids@[i]@),
{
    let n = spec.tasks@.len() as int;
    let member = |t: TaskRunView| t.gang_id == Some(seed.gang_ids@[i]@);
    let rows = run_rows(spec, seed, stamp.created_at@, n);
    let after = db.tasks + rows;
    lemma_gang_rows(spec, seed, stamp.created_at@, n, i);
    assert forall|k: int| 0 <= k < db.tasks.len() implies member(#[trigger] db.tasks[k]) == false by {}
    lemma_count_alike(db.tasks, member, false);
    lemma_count_add(db.tasks, rows, member);
    assert forall|k: int| 0 <= k < after.len() && member(#[trigger] after[k]) implies after[k].pool
        == opt(spec.tasks@[i].pool) && after[k].gang_size == Some(spec.tasks@[i].rows() as int) by {
        if k < db.tasks.len() {
            assert(after[k] == db.tasks[k]);
        } else {
            assert(after[k] == rows[k - db.tasks.len()]);
        }
    }
}

} // verus!
