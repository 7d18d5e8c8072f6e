//! Creating runs: when one is refused, and what one consists of.
use vstd::prelude::*;
use crate::clock::ClockStatusView;
use crate::dag::{known, task_index};
use crate::decimal::decimal;
use crate::duration::duration;
use crate::laws::validation::names_dependency;
use crate::models::{RunStatus, TaskStatus};
use crate::rows::{opt, opt_int, DefinitionView, EdgeView, WorkflowRunView};
use crate::rules::{duplicate_name, planned_rows};
use crate::runs::{
    active_run, active_runs, create_error, duplicate_from, edges_for, fan, fan_all, new_row, run_edges,
    run_rows, stamps, task_rows, unknown_from, with_run, CreateRunError, RunSeed, RunStamp, SourcePosition,
};
use crate::store::StoreView;
use crate::table::{count, lemma_count_filter, lemma_count_positive, lemma_count_same};
use crate::time::{rfc3339_text, shifted, Timestamp};
use crate::workflow::{DagSpec, TaskSpec};

verus! {

// ── The cap on active runs ───────────────────────────────────────────────────

/// The running runs whose definition has this name.
pub open spec fn running_of(db: StoreView, name: Seq<char>) -> nat {
    db.runs.filter(
        |r: WorkflowRunView|
            r.status == RunStatus::Running && exists|i: int|
                0 <= i < db.definitions.len() && (#[trigger] db.definitions[i]).id == r.definition_id
                    && db.definitions[i].name == name,
    ).len()
}

proof fn lemma_running_of(db: StoreView, name: Seq<char>)
    ensures
        active_runs(db, name) == running_of(db, name),
{
    let p = |r: WorkflowRunView| active_run(db.definitions, r, name);
    let q = |r: WorkflowRunView|
        r.status == RunStatus::Running && exists|i: int|
            0 <= i < db.definitions.len() && (#[trigger] db.definitions[i]).id == r.definition_id
                && db.definitions[i].name == name;
    assert(p =~= q);
    lemma_count_filter(db.runs, p);
}

/// A run is refused for the cap exactly where the workflow has one, and as many
/// runs of this workflow are running. The refusal says which workflow, which cap
/// and how many.
pub proof fn law_cap_counts_the_workflows_own_runs(db: StoreView, spec: DagSpec)
    ensures
        (create_error(db, spec) matches Some(CreateRunError::MaxActiveRunsReached { .. })) <==> (
        spec.max_active_runs matches Some(max) && max > 0 && running_of(db, spec.name@) >= max),
        create_error(db, spec) matches Some(CreateRunError::MaxActiveRunsReached { name, max, active })
            ==> name == spec.name && Some(max) == spec.max_active_runs && (running_of(db, spec.name@)
            <= u64::MAX ==> active == running_of(db, spec.name@)),
{
    lemma_running_of(db, spec.name@);
    lemma_duplicate_kind(spec.tasks@, 0);
    lemma_unknown_kind(spec.tasks@, 0, 0);
}

proof fn lemma_duplicate_kind(tasks: Seq<TaskSpec>, i: int)
    ensures
        duplicate_from(tasks, i) matches Some(e) ==> e is DuplicateTask,
    decreases tasks.len() - i,
{
    if 0 <= i < tasks.len() {
        lemma_duplicate_kind(tasks, i + 1);
    }
}

proof fn lemma_unknown_kind(tasks: Seq<TaskSpec>, i: int, k: int)
    ensures
        unknown_from(tasks, i, k) matches Some(e) ==> e is UnknownDependency,
    decreases tasks.len() - i, (if 0 <= i < tasks.len() { tasks[i].depends_on@.len() } else { 0 }) - k,
{
    if 0 <= i < tasks.len() {
        if 0 <= k < tasks[i].depends_on@.len() {
            lemma_unknown_kind(tasks, i, k + 1);
        } else {
            lemma_unknown_kind(tasks, i + 1, 0);
        }
    }
}

/// Where no running run has a definition of the workflow's name, the cap refuses
/// nothing.
pub proof fn law_cap_is_free_without_own_runs(db: StoreView, spec: DagSpec)
    requires
        forall|r: int, i: int|
            0 <= r < db.runs.len() && 0 <= i < db.definitions.len() && (#[trigger] db.runs[r]).status
                == RunStatus::Running && (#[trigger] db.definitions[i]).id == db.runs[r].definition_id
                ==> db.definitions[i].name != spec.name@,
    ensures
        !(create_error(db, spec) matches Some(CreateRunError::MaxActiveRunsReached { .. })),
{
    let p = |r: WorkflowRunView| active_run(db.definitions, r, spec.name@);
    lemma_count_positive(db.runs, p);
    if count(db.runs, p) > 0 {
        let r = choose|r: int| 0 <= r < db.runs.len() && p(#[trigger] db.runs[r]);
        let i = choose|i: int|
            0 <= i < db.definitions.len() && (#[trigger] db.definitions[i]).id == db.runs[r].definition_id
                && db.definitions[i].name == spec.name@;
        assert(db.definitions[i].name != spec.name@);
    }
    lemma_duplicate_kind(spec.tasks@, 0);
    lemma_unknown_kind(spec.tasks@, 0, 0);
}

/// A run of another workflow does not count against the cap: with it in the
/// store, a run of this one may be created exactly where it might before. A run
/// that is not running does not count either.
pub proof fn law_other_runs_do_not_count(
    db: StoreView,
    spec: DagSpec,
    run: WorkflowRunView,
    definition: DefinitionView,
)
    requires
        run.status != RunStatus::Running || (definition.name != spec.name@ && forall|i: int|
            0 <= i < db.definitions.len() && (#[trigger] db.definitions[i]).id == run.definition_id
                ==> db.definitions[i].name != spec.name@),
        definition.name != spec.name@ || forall|r: int|
            0 <= r < db.runs.len() ==> (#[trigger] db.runs[r]).definition_id != definition.id,
    ensures
        create_error(
            StoreView {
                runs: db.runs.push(run),
                definitions: db.definitions.push(definition),
                ..db
            },
            spec,
        ) == create_error(db, spec),
{
    let name = spec.name@;
    let defs = db.definitions.push(definition);
    let p = |r: WorkflowRunView| active_run(db.definitions, r, name);
    let q = |r: WorkflowRunView| active_run(defs, r, name);
    let runs = db.runs.push(run);
    assert(runs.drop_last() =~= db.runs);
    assert(!q(run)) by {
        if q(run) {
            let i = choose|i: int|
                0 <= i < defs.len() && (#[trigger] defs[i]).id == run.definition_id && defs[i].name == name;
            if i < db.definitions.len() {
                assert(defs[i] == db.definitions[i]);
            }
        }
    }
    assert forall|r: int| 0 <= r < db.runs.len() implies p(#[trigger] db.runs[r]) == q(db.runs[r]) by {
        let v = db.runs[r];
        if p(v) {
            let i = choose|i: int|
                0 <= i < db.definitions.len() && (#[trigger] db.definitions[i]).id == v.definition_id
                    && db.definitions[i].name == name;
            assert(defs[i] == db.definitions[i]);
        }
        if q(v) {
            let i = choose|i: int|
                0 <= i < defs.len() && (#[trigger] defs[i]).id == v.definition_id && defs[i].name == name;
            if i < db.definitions.len() {
                assert(defs[i] == db.definitions[i]);
            }
        }
    }
    lemma_count_same(db.runs, p, q);
    assert(count(runs, q) == count(db.runs, q));
}

// ── The other refusals ───────────────────────────────────────────────────────

proof fn lemma_duplicate_from(tasks: Seq<TaskSpec>, i: int)
    requires
        0 <= i,
        tasks.len() <= usize::MAX,
    ensures
        match duplicate_from(tasks, i) {
            Some(CreateRunError::DuplicateTask { task }) => i <= task < tasks.len() && duplicate_name(
                tasks,
                task as int,
            ) && forall|k: int| i <= k < task ==> !#[trigger] duplicate_name(tasks, k),
            Some(_) => false,
            None => forall|k: int| i <= k < tasks.len() ==> !#[trigger] duplicate_name(tasks, k),
        },
    decreases tasks.len() - i,
{
    if i < tasks.len() {
        lemma_duplicate_from(tasks, i + 1);
        if !duplicate_name(tasks, i) {
            match duplicate_from(tasks, i) {
                Some(CreateRunError::DuplicateTask { task }) => {
                    assert forall|k: int| i <= k < task implies !#[trigger] duplicate_name(tasks, k) by {
                        assert(k == i || k >= i + 1);
                    }
                },
                _ => {
                    assert forall|k: int| i <= k < tasks.len() implies !#[trigger] duplicate_name(tasks, k) by {
                        assert(k == i || k >= i + 1);
                    }
                },
            }
        }
    }
}

/// A repeated name is reported with the first task that repeats one; where the
/// cap is not in the way and no name is repeated, an unknown dependency is
/// reported, and only where there is one.
pub proof fn law_refusal_finds_the_task(db: StoreView, spec: DagSpec)
    requires
        spec.tasks@.len() <= usize::MAX,
        !(create_error(db, spec) matches Some(CreateRunError::MaxActiveRunsReached { .. })),
    ensures
        ({
            let tasks = spec.tasks@;
            let repeats = |k: int| exists|j: int| 0 <= j < k && #[trigger] tasks[j].name@ == tasks[k].name@;
            &&& create_error(db, spec) matches Some(CreateRunError::DuplicateTask { task }) ==> task
                < tasks.len() && repeats(task as int) && forall|k: int| 0 <= k < task ==> !#[trigger] repeats(
                k,
            )
            &&& (exists|k: int| 0 <= k < tasks.len() && #[trigger] repeats(k)) ==> create_error(
                db,
                spec,
            ) is Some && create_error(db, spec)->0 is DuplicateTask
            &&& create_error(db, spec) matches Some(CreateRunError::UnknownDependency { task, index }) ==> task
                < tasks.len() && index < tasks[task as int].depends_on@.len() && forall|j: int|
                0 <= j < tasks.len() ==> #[trigger] tasks[j].name@
                    != tasks[task as int].depends_on@[index as int]@
            &&& create_error(db, spec) matches Some(CreateRunError::UnknownDependency { task, index })
                ==> forall|a: int, b: int|
                0 <= a <= task && 0 <= b < tasks[a].depends_on@.len() && (a < task || b < index)
                    ==> !#[trigger] no_task_named(tasks, a, b)
            &&& (exists|i: int, k: int|
                0 <= i < tasks.len() && 0 <= k < tasks[i].depends_on@.len() && #[trigger] no_task_named(
                    tasks,
                    i,
                    k,
                )) ==> create_error(db, spec) is Some
        }),
{
    let tasks = spec.tasks@;
    let repeats = |k: int| exists|j: int| 0 <= j < k && #[trigger] tasks[j].name@ == tasks[k].name@;
    assert forall|k: int| #[trigger] repeats(k) == duplicate_name(tasks, k) by {}
    lemma_duplicate_from(tasks, 0);
    lemma_unknown_from(tasks, 0, 0);
    if exists|k: int| 0 <= k < tasks.len() && #[trigger] repeats(k) {
        let k = choose|k: int| 0 <= k < tasks.len() && #[trigger] repeats(k);
        assert(duplicate_name(tasks, k));
    }
    match create_error(db, spec) {
        Some(CreateRunError::DuplicateTask { task }) => {
            lemma_unknown_kind(tasks, 0, 0);
            assert(duplicate_name(tasks, task as int));
            assert(repeats(task as int));
            assert forall|k: int| 0 <= k < task implies !#[trigger] repeats(k) by {
                assert(!duplicate_name(tasks, k));
            }
        },
        _ => {},
    }
    lemma_duplicate_kind(tasks, 0);
}

/// No task has the name of dependency `k` of task `i`.
pub open spec fn no_task_named(tasks: Seq<TaskSpec>, i: int, k: int) -> bool {
    forall|j: int| 0 <= j < tasks.len() ==> #[trigger] tasks[j].name@ != tasks[i].depends_on@[k]@
}

proof fn lemma_unknown_from(tasks: Seq<TaskSpec>, i: int, k: int)
    requires
        0 <= i,
        0 <= k,
        tasks.len() <= usize::MAX,
    ensures
        match unknown_from(tasks, i, k) {
            Some(CreateRunError::UnknownDependency { task, index }) => task < tasks.len() && index
                < tasks[task as int].depends_on@.len() && no_task_named(tasks, task as int, index as int)
                && forall|a: int, b: int|
                0 <= a < tasks.len() && 0 <= b < tasks[a].depends_on@.len() && (a > i || (a == i && b >= k)) && (a
                    < task || (a == task && b < index)) ==> !#[trigger] no_task_named(tasks, a, b),
            Some(_) => false,
            None => forall|a: int, b: int|
                0 <= a < tasks.len() && 0 <= b < tasks[a].depends_on@.len() && (a > i || (a == i && b >= k))
                    ==> !#[trigger] no_task_named(tasks, a, b),
        },
    decreases tasks.len() - i, (if 0 <= i < tasks.len() { tasks[i].depends_on@.len() } else { 0 }) - k,
{
    if i < tasks.len() {
        assert(tasks[i].depends_on@.len() == tasks[i].depends_on.len());
        if k < tasks[i].depends_on@.len() {
            lemma_unknown_from(tasks, i, k + 1);
            let dep = tasks[i].depends_on@[k]@;
            if known(tasks, dep) {
                let j = choose|j: int| 0 <= j < tasks.len() && #[trigger] tasks[j].name@ == dep;
                assert(!no_task_named(tasks, i, k));
            }
            if unknown_from(tasks, i, k) is None {
                assert forall|a: int, b: int|
                    0 <= a < tasks.len() && 0 <= b < tasks[a].depends_on@.len() && (a > i || (a == i && b
                        >= k)) implies !#[trigger] no_task_named(tasks, a, b) by {
                    assert((a == i && b == k) || a > i || (a == i && b >= k + 1));
                }
            }
        } else {
            lemma_unknown_from(tasks, i + 1, 0);
            if unknown_from(tasks, i, k) is None {
                assert forall|a: int, b: int|
                    0 <= a < tasks.len() && 0 <= b < tasks[a].depends_on@.len() && (a > i || (a == i && b
                        >= k)) implies !#[trigger] no_task_named(tasks, a, b) by {
                    assert(a > i + 1 || (a == i + 1 && b >= 0));
                }
            }
        }
    }
}

// ── The rows ─────────────────────────────────────────────────────────────────

proof fn lemma_run_rows_at(spec: DagSpec, seed: RunSeed, now: Seq<char>, n: int, i: int, rank: int)
    requires
        0 <= n <= spec.tasks@.len(),
        0 <= i < n,
        0 <= rank < spec.tasks@[i].rows(),
    ensures
        run_rows(spec, seed, now, n).len() == planned_rows(spec.tasks@, n),
        planned_rows(spec.tasks@, i) + rank < planned_rows(spec.tasks@, n),
        run_rows(spec, seed, now, n)[planned_rows(spec.tasks@, i) + rank] == new_row(
            spec,
            seed,
            now,
            i,
            planned_rows(spec.tasks@, i) as int,
            rank,
        ),
    decreases n,
{
    lemma_run_rows_len(spec, seed, now, n);
    lemma_run_rows_len(spec, seed, now, n - 1);
    let rest = run_rows(spec, seed, now, n - 1);
    let own = task_rows(spec, seed, now, n - 1, spec.tasks@[n - 1].rows() as int);
    if i < n - 1 {
        lemma_run_rows_at(spec, seed, now, n - 1, i, rank);
        assert((rest + own)[planned_rows(spec.tasks@, i) + rank] == rest[planned_rows(spec.tasks@, i) + rank]);
    } else {
        assert((rest + own)[rest.len() + rank] == own[rank]);
    }
}

proof fn lemma_run_rows_len(spec: DagSpec, seed: RunSeed, now: Seq<char>, n: int)
    requires
        n <= spec.tasks@.len(),
    ensures
        run_rows(spec, seed, now, n).len() == planned_rows(spec.tasks@, n),
    decreases n,
{
    if n > 0 {
        lemma_run_rows_len(spec, seed, now, n - 1);
    }
}

/// A new run brings one pending row for each task, or one for each member of its
/// gang, behind the rows that were there. A row carries what its task says, and
/// the defaults where the task says nothing; nobody holds it, and it has not
/// been tried.
pub proof fn law_new_rows_say_what_their_tasks_say(
    db: StoreView,
    spec: DagSpec,
    yaml: Seq<char>,
    seed: RunSeed,
    stamp: RunStamp,
    offset: Option<SourcePosition>,
    i: int,
    rank: int,
)
    requires
        0 <= i < spec.tasks@.len(),
        0 <= rank < (match spec.tasks@[i].gang {
            Some(g) => g.size as int,
            None => 1,
        }),
    ensures
        ({
            let t = spec.tasks@[i];
            let at = planned_rows(spec.tasks@, i) + rank;
            let after = with_run(db, spec, yaml, seed, stamp, offset).tasks;
            let row = after[db.tasks.len() + at];
            &&& after.len() == db.tasks.len() + planned_rows(spec.tasks@, spec.tasks@.len() as int)
            &&& after.take(db.tasks.len() as int) == db.tasks
            &&& at < planned_rows(spec.tasks@, spec.tasks@.len() as int)
            &&& row == new_row(spec, seed, stamp.created_at@, i, planned_rows(spec.tasks@, i) as int, rank)
            &&& row.id == seed.task_ids@[at]@
            &&& row.run_id == seed.run_id@
            &&& row.name == (if t.gang is Some { t.name@ + "."@ + decimal(rank as nat) } else { t.name@ })
            &&& row.status == TaskStatus::Pending
            &&& row.attempt == 0
            &&& row.version == 0
            &&& row.input == Some(seed.inputs@[at]@)
            &&& row.when == opt(t.when)
            &&& row.output is None
            &&& row.claimed_by is None
            &&& row.lease_expires_at is None
            &&& row.scheduled_at == Some(stamp.created_at@)
            &&& row.finished_at is None
            &&& row.pool == opt(t.pool)
            &&& row.priority == t.priority
            &&& !row.cache_hit
            &&& row.wake_at is None && row.wait_url is None && row.next_poll_at is None
            &&& row.wait_dataset is None && row.wait_dataset_cursor is None && row.sub_run_id is None
            &&& row.trigger_rule == (match t.trigger_rule {
                Some(s) => s@,
                None => "all_success"@,
            })
            &&& row.allow_failure == t.allow_failure
            &&& row.is_approval == (t.task_type matches Some(s) && s@ == "approval"@)
            &&& row.approval_timeout_secs == (match t.approval_timeout_secs {
                Some(secs) => Some(if secs > i64::MAX { i64::MAX as int } else { secs as int }),
                None => None,
            })
            &&& row.approval_on_timeout == opt(t.approval_on_timeout)
            &&& row.runner_class == (match (t.runner_class, spec.runner_class) {
                (Some(s), _) => s@,
                (None, Some(s)) => s@,
                (None, None) => "default"@,
            })
            &&& t.gang is Some ==> row.gang_id == Some(seed.gang_ids@[i]@) && row.gang_rank == Some(rank)
                && row.gang_size == Some(t.gang->0.size as int)
            &&& t.gang is None ==> row.gang_id is None && row.gang_rank is None && row.gang_size is None
            &&& row.checkpoint_uri is None && row.checkpoint_marker is None
        }),
{
    let n = spec.tasks@.len() as int;
    let now = stamp.created_at@;
    lemma_run_rows_at(spec, seed, now, n, i, rank);
    let rows = run_rows(spec, seed, now, n);
    let at = planned_rows(spec.tasks@, i) + rank;
    assert((db.tasks + rows)[db.tasks.len() + at] == rows[at]);
    assert((db.tasks + rows).take(db.tasks.len() as int) =~= db.tasks);
}

/// A new run is running, under a definition of its own that keeps the workflow's
/// text. It is over or alerted nowhere yet, and carries the stamps, the clock's
/// verdict and what the workflow says of result and environment. No other run or
/// definition changes, and nothing but rows of this run is added.
pub proof fn law_new_run_is_running(
    db: StoreView,
    spec: DagSpec,
    yaml: Seq<char>,
    seed: RunSeed,
    stamp: RunStamp,
    offset: Option<SourcePosition>,
)
    ensures
        ({
            let after = with_run(db, spec, yaml, seed, stamp, offset);
            let run = after.runs.last();
            let d = after.definitions.last();
            &&& after.runs.drop_last() == db.runs
            &&& after.definitions.drop_last() == db.definitions
            &&& after.edges.take(db.edges.len() as int) == db.edges
            &&& after.edges.skip(db.edges.len() as int) == run_edges(
                spec.tasks@,
                seed.task_ids@,
                spec.tasks@.len() as int,
            )
            &&& after == (StoreView {
                definitions: after.definitions,
                runs: after.runs,
                tasks: after.tasks,
                edges: after.edges,
                offsets: after.offsets,
                ..db
            })
            &&& offset is None ==> after.offsets == db.offsets
            &&& d.id == seed.definition_id@ && d.name == spec.name@ && d.spec == yaml && d.created_at
                == stamp.created_at@
            &&& run.id == seed.run_id@ && run.definition_id == d.id
            &&& run.status == RunStatus::Running
            &&& run.input is None && run.output is None && run.finished_at is None
            &&& run.created_at == stamp.created_at@
            &&& run.deadline_at == opt(stamp.deadline_at)
            &&& run.alert_deadline_at == opt(stamp.alert_deadline_at)
            &&& run.alert_fired_at is None && run.schedule_id is None
            &&& run.result_from == opt(spec.result_from)
            &&& run.environment == opt(spec.environment)
            &&& run.clock_confidence == Some(stamp.clock.confidence.text())
            &&& run.clock_offset_ms == opt_int(stamp.clock.offset_ms)
            &&& run.clock_source == opt(stamp.clock.source)
        }),
{
    let after = with_run(db, spec, yaml, seed, stamp, offset);
    assert(after.runs.drop_last() =~= db.runs);
    assert(after.definitions.drop_last() =~= db.definitions);
    assert(after.edges.take(db.edges.len() as int) =~= db.edges);
    assert(after.edges.skip(db.edges.len() as int) =~= run_edges(
        spec.tasks@,
        seed.task_ids@,
        spec.tasks@.len() as int,
    ));
}

/// A run is stamped with the instant it starts at. It is to be over the seconds
/// of its timeout later, and raises an alert the seconds of its deadline later;
/// where the workflow sets neither, nothing is stamped.
pub proof fn law_deadlines_count_from_the_start(
    s: RunStamp,
    spec: DagSpec,
    created: Timestamp,
    clock: ClockStatusView,
)
    requires
        stamps(s, spec, created, clock),
    ensures
        s.created_at@ == rfc3339_text(created.secs as int, created.nanos as int),
        s.clock@ == clock,
        spec.run_timeout_secs is None ==> s.deadline_at is None,
        spec.run_timeout_secs matches Some(secs) ==> s.deadline_at is Some && (secs <= i64::MAX ==> (shifted(
            created,
            secs as int,
        ) matches Some((x, y)) ==> s.deadline_at->0@ == rfc3339_text(x, y))),
        spec.deadline is None ==> s.alert_deadline_at is None,
        spec.deadline matches Some(d) ==> match duration(d.within@) {
            Ok(secs) => s.alert_deadline_at is Some && (secs <= i64::MAX ==> (shifted(
                created,
                secs as int,
            ) matches Some((x, y)) ==> s.alert_deadline_at->0@ == rfc3339_text(x, y))),
            Err(_) => s.alert_deadline_at is None,
        },
{
}

/// A deadline is in the calendar where there is none, or where the instant that
/// many seconds on is.
pub proof fn law_deadline_is_in_calendar(t: Timestamp, secs: u64)
    requires
        t.nanos < 1_000_000_000,
        -8334601228800 <= t.secs <= 8210266876799,
    ensures
        crate::runs::in_calendar(t, None),
        crate::runs::in_calendar(t, Some(secs)) <==> t.secs + secs <= 8210266876799,
{
}

// ── The edges ────────────────────────────────────────────────────────────────

/// The edge joins a row of a task to a row of one of its dependencies.
pub open spec fn joins_rows(tasks: Seq<TaskSpec>, ids: Seq<String>, e: EdgeView, n: int) -> bool {
    exists|b: int, a: int, x: int, y: int| #[trigger]
        joined_at(tasks, ids, e, b, a, x, y) && b < n
}

/// Row `x` of task `b` depends on row `y` of task `a`.
pub open spec fn joined_at(
    tasks: Seq<TaskSpec>,
    ids: Seq<String>,
    e: EdgeView,
    b: int,
    a: int,
    x: int,
    y: int,
) -> bool {
    &&& 0 <= b < tasks.len() && 0 <= a < tasks.len()
    &&& names_dependency(tasks, b, a)
    &&& 0 <= x < tasks[b].rows() && 0 <= y < tasks[a].rows()
    &&& e.dependent_id == ids[planned_rows(tasks, b) + x]@
    &&& e.dependency_id == ids[planned_rows(tasks, a) + y]@
}

proof fn lemma_fan_all(ids: Seq<String>, a: int, m: int, b: int, n: int, e: EdgeView)
    requires
        0 <= m,
        0 <= n,
    ensures
        fan_all(ids, a, m, b, n).contains(e) <==> exists|x: int, y: int|
            0 <= x < m && 0 <= y < n && e.dependent_id == #[trigger] ids[a + x]@ && e.dependency_id
                == #[trigger] ids[b + y]@,
    decreases m,
{
    if m > 0 {
        lemma_fan_all(ids, a, m - 1, b, n, e);
        let rest = fan_all(ids, a, m - 1, b, n);
        let own = fan(ids, a + m - 1, b, n);
        let out = fan_all(ids, a, m, b, n);
        if out.contains(e) {
            let k = choose|k: int| 0 <= k < out.len() && out[k] == e;
            if k < rest.len() {
                assert(rest[k] == e);
                assert(rest.contains(e));
            } else {
                let y = k - rest.len();
                assert(own[y] == e);
                assert(e.dependent_id == ids[a + (m - 1)]@ && e.dependency_id == ids[b + y]@);
            }
        }
        if exists|x: int, y: int|
            0 <= x < m && 0 <= y < n && e.dependent_id == #[trigger] ids[a + x]@ && e.dependency_id
                == #[trigger] ids[b + y]@ {
            let (x, y) = choose|x: int, y: int|
                0 <= x < m && 0 <= y < n && e.dependent_id == #[trigger] ids[a + x]@ && e.dependency_id
                    == #[trigger] ids[b + y]@;
            if x < m - 1 {
                assert(rest.contains(e));
                let k = choose|k: int| 0 <= k < rest.len() && rest[k] == e;
                assert(out[k] == e);
            } else {
                assert(a + m - 1 == a + x);
                assert(own[y] == e);
                assert(out[rest.len() + y] == e);
            }
        }
    }
}

proof fn lemma_edges_for(tasks: Seq<TaskSpec>, ids: Seq<String>, i: int, k: int, e: EdgeView)
    requires
        0 <= i < tasks.len(),
        0 <= k <= tasks[i].depends_on@.len(),
        forall|x: int, y: int|
            0 <= x < y < tasks.len() ==> #[trigger] tasks[x].name@ != #[trigger] tasks[y].name@,
        forall|d: int|
            0 <= d < tasks[i].depends_on@.len() ==> known(tasks, #[trigger] tasks[i].depends_on@[d]@),
    ensures
        edges_for(tasks, ids, i, k).contains(e) <==> exists|d: int, a: int, x: int, y: int|
            0 <= d < k && #[trigger] tasks[i].depends_on@[d]@ == tasks[a].name@ && #[trigger] joined_at(
                tasks,
                ids,
                e,
                i,
                a,
                x,
                y,
            ),
    decreases k,
{
    if k > 0 {
        lemma_edges_for(tasks, ids, i, k - 1, e);
        let dep = tasks[i].depends_on@[k - 1]@;
        assert(known(tasks, dep));
        let j = task_index(tasks, dep);
        assert(0 <= j < tasks.len() && tasks[j].name@ == dep);
        let (a0, m) = (planned_rows(tasks, i) as int, tasks[i].rows() as int);
        let (b0, n) = (planned_rows(tasks, j) as int, tasks[j].rows() as int);
        let rest = edges_for(tasks, ids, i, k - 1);
        let own = fan_all(ids, a0, m, b0, n);
        let out = edges_for(tasks, ids, i, k);
        lemma_fan_all(ids, a0, m, b0, n, e);
        assert(out == rest + own);
        if out.contains(e) {
            let q = choose|q: int| 0 <= q < out.len() && out[q] == e;
            if q < rest.len() {
                assert(rest[q] == e);
                assert(rest.contains(e));
            } else {
                assert(own[q - rest.len()] == e);
                assert(own.contains(e));
                let (x, y) = choose|x: int, y: int|
                    0 <= x < m && 0 <= y < n && e.dependent_id == #[trigger] ids[a0 + x]@ && e.dependency_id
                        == #[trigger] ids[b0 + y]@;
                assert(tasks[i].depends_on@[k - 1]@ == tasks[j].name@);
                assert(names_dependency(tasks, i, j));
                assert(joined_at(tasks, ids, e, i, j, x, y));
            }
        }
        if exists|d: int, a: int, x: int, y: int|
            0 <= d < k && #[trigger] tasks[i].depends_on@[d]@ == tasks[a].name@ && #[trigger] joined_at(
                tasks,
                ids,
                e,
                i,
                a,
                x,
                y,
            ) {
            let (d, a, x, y) = choose|d: int, a: int, x: int, y: int|
                0 <= d < k && #[trigger] tasks[i].depends_on@[d]@ == tasks[a].name@ && #[trigger] joined_at(
                    tasks,
                    ids,
                    e,
                    i,
                    a,
                    x,
                    y,
                );
            if d < k - 1 {
                assert(rest.contains(e));
                let q = choose|q: int| 0 <= q < rest.len() && rest[q] == e;
                assert(out[q] == e);
            } else {
                assert(a == j) by {
                    if a < j {
                        assert(tasks[a].name@ != tasks[j].name@);
                    } else if j < a {
                        assert(tasks[j].name@ != tasks[a].name@);
                    }
                }
                assert(e.dependent_id == ids[a0 + x]@ && e.dependency_id == ids[b0 + y]@);
                assert(own.contains(e));
                let q = choose|q: int| 0 <= q < own.len() && own[q] == e;
                assert(out[rest.len() + q] == e);
            }
        }
    }
}

proof fn lemma_run_edges(tasks: Seq<TaskSpec>, ids: Seq<String>, n: int, e: EdgeView)
    requires
        0 <= n <= tasks.len(),
        forall|x: int, y: int|
            0 <= x < y < tasks.len() ==> #[trigger] tasks[x].name@ != #[trigger] tasks[y].name@,
        forall|i: int, d: int|
            0 <= i < tasks.len() && 0 <= d < tasks[i].depends_on@.len() ==> known(
                tasks,
                #[trigger] tasks[i].depends_on@[d]@,
            ),
    ensures
        run_edges(tasks, ids, n).contains(e) <==> joins_rows(tasks, ids, e, n),
    decreases n,
{
    if n > 0 {
        lemma_run_edges(tasks, ids, n - 1, e);
        let k = tasks[n - 1].depends_on@.len() as int;
        let rest = run_edges(tasks, ids, n - 1);
        let own = edges_for(tasks, ids, n - 1, k);
        let out = run_edges(tasks, ids, n);
        lemma_edges_for(tasks, ids, n - 1, k, e);
        assert(out == rest + own);
        if out.contains(e) {
            let q = choose|q: int| 0 <= q < out.len() && out[q] == e;
            if q < rest.len() {
                assert(rest[q] == e);
                assert(rest.contains(e));
                let (b, a, x, y) = choose|b: int, a: int, x: int, y: int| #[trigger]
                    joined_at(tasks, ids, e, b, a, x, y) && b < n - 1;
                assert(joined_at(tasks, ids, e, b, a, x, y));
            } else {
                assert(own[q - rest.len()] == e);
                assert(own.contains(e));
                let (d, a, x, y) = choose|d: int, a: int, x: int, y: int|
                    0 <= d < k && #[trigger] tasks[n - 1].depends_on@[d]@ == tasks[a].name@
                        && #[trigger] joined_at(tasks, ids, e, n - 1, a, x, y);
                assert(joined_at(tasks, ids, e, n - 1, a, x, y));
            }
        }
        if joins_rows(tasks, ids, e, n) {
            let (b, a, x, y) = choose|b: int, a: int, x: int, y: int| #[trigger]
                joined_at(tasks, ids, e, b, a, x, y) && b < n;
            if b < n - 1 {
                assert(joins_rows(tasks, ids, e, n - 1));
                let q = choose|q: int| 0 <= q < rest.len() && rest[q] == e;
                assert(out[q] == e);
            } else {
                let d = choose|d: int|
                    0 <= d < tasks[b].depends_on@.len() && #[trigger] tasks[b].depends_on@[d]@
                        == tasks[a].name@;
                assert(tasks[n - 1].depends_on@[d]@ == tasks[a].name@);
                assert(joined_at(tasks, ids, e, n - 1, a, x, y));
                assert(own.contains(e));
                let q = choose|q: int| 0 <= q < own.len() && own[q] == e;
                assert(out[rest.len() + q] == e);
            }
        }
    }
}

/// A new run joins every row of a task to every row of each dependency that the
/// task names, and joins nothing else.
pub proof fn law_new_edges_are_the_dependencies(db: StoreView, spec: DagSpec, seed: RunSeed, e: EdgeView)
    requires
        spec.tasks@.len() <= usize::MAX,
        create_error(db, spec) is None,
    ensures
        run_edges(spec.tasks@, seed.task_ids@, spec.tasks@.len() as int).contains(e) <==> joins_rows(
            spec.tasks@,
            seed.task_ids@,
            e,
            spec.tasks@.len() as int,
        ),
{
    let tasks = spec.tasks@;
    lemma_duplicate_from(tasks, 0);
    lemma_unknown_from(tasks, 0, 0);
    assert forall|x: int, y: int| 0 <= x < y < tasks.len() implies #[trigger] tasks[x].name@
        != #[trigger] tasks[y].name@ by {
        assert(!duplicate_name(tasks, y));
    }
    assert forall|i: int, d: int| 0 <= i < tasks.len() && 0 <= d < tasks[i].depends_on@.len() implies known(
        tasks,
        #[trigger] tasks[i].depends_on@[d]@,
    ) by {
        assert(!no_task_named(tasks, i, d));
    }
    lemma_run_edges(tasks, seed.task_ids@, tasks.len() as int, e);
}

} // verus!
