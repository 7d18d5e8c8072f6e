//! The life of a claimed task: completion, retry, heartbeat, live output and
//! checkpoints, each guarded by the claim it belongs to.
use vstd::prelude::*;
use vstd::string::*;
use crate::models::TaskStatus;
use crate::rows::{opt, views, Edge, EdgeView, TaskRun, TaskRunView};
use crate::store::{column_is, is_past, past, Store, StoreView};
use crate::table::{amended, any, count, lemma_any_same, lemma_count_same, update_all, update_any, Rule};
use crate::text::same;

verus! {

// ── Dependents ───────────────────────────────────────────────────────────────

/// The row `id` depends on the row `dependency`.
pub open spec fn depends(edges: Seq<EdgeView>, id: Seq<char>, dependency: Seq<char>) -> bool {
    exists|i: int|
        0 <= i < edges.len() && (#[trigger] edges[i]).dependent_id == id && edges[i].dependency_id
            == dependency
}

/// A pending row that depends on `dependency`.
pub open spec fn waits_for(edges: Seq<EdgeView>, t: TaskRunView, dependency: Seq<char>) -> bool {
    t.status == TaskStatus::Pending && depends(edges, t.id, dependency)
}

/// One dependency less to wait for.
pub open spec fn one_less(t: TaskRunView) -> TaskRunView {
    TaskRunView { remaining_deps: t.remaining_deps - 1, ..t }
}

/// The rows once `dependency` has ended: each pending dependent waits for one less.
pub open spec fn released(
    tasks: Seq<TaskRunView>,
    edges: Seq<EdgeView>,
    dependency: Seq<char>,
) -> Seq<TaskRunView> {
    amended(tasks, |t: TaskRunView| waits_for(edges, t, dependency), |t: TaskRunView| one_less(t))
}

/// Dependency counters that can still go down `n` times.
pub open spec fn deps_fit(tasks: Seq<TaskRunView>, n: int) -> bool {
    forall|i: int| 0 <= i < tasks.len() ==> i64::MIN + n <= (#[trigger] tasks[i]).remaining_deps
}

/// Versions and attempts that can still go up.
pub open spec fn claims_fit(tasks: Seq<TaskRunView>) -> bool {
    forall|i: int|
        0 <= i < tasks.len() ==> (#[trigger] tasks[i]).version < i64::MAX && tasks[i].attempt
            < i64::MAX
}

/// Whether the row `id` depends on the row `dependency`.
pub fn is_dependent(edges: &Vec<Edge>, id: &str, dependency: &str) -> (r: bool)
    ensures
        r == depends(views(edges@), id@, dependency@),
{
    let mut i: usize = 0;
    while i < edges.len()
        invariant
            i <= edges@.len(),
            forall|k: int|
                0 <= k < i ==> !((#[trigger] views(edges@)[k]).dependent_id == id@ && views(
                    edges@,
                )[k].dependency_id == dependency@),
        decreases edges@.len() - i,
    {
        assert(views(edges@)[i as int] == edges@[i as int]@);
        if same(edges[i].dependent_id.as_str(), id) && same(
            edges[i].dependency_id.as_str(),
            dependency,
        ) {
            return true;
        }
        i += 1;
    }
    false
}

struct Release<'a> {
    edges: &'a Vec<Edge>,
    dependency: &'a str,
}

impl<'a> Rule<TaskRun> for Release<'a> {
    closed spec fn hits(&self, t: TaskRunView) -> bool {
        waits_for(views(self.edges@), t, self.dependency@)
    }

    closed spec fn image(&self, t: TaskRunView) -> TaskRunView {
        one_less(t)
    }

    closed spec fn fits(&self, t: TaskRunView) -> bool {
        i64::MIN < t.remaining_deps
    }

    fn apply(&self, row: &mut TaskRun) -> (hit: bool) {
        if row.status == TaskStatus::Pending && is_dependent(
            self.edges,
            row.id.as_str(),
            self.dependency,
        ) {
            row.remaining_deps = row.remaining_deps - 1;
            true
        } else {
            false
        }
    }
}

/// Lets every pending dependent of `dependency` wait for one less.
pub fn release_dependents(db: &mut Store, dependency: &str)
    requires
        deps_fit(old(db)@.tasks, 1),
    ensures
        final(db)@ == (StoreView {
            tasks: released(old(db)@.tasks, old(db)@.edges, dependency@),
            ..old(db)@
        }),
{
    proof {
        assert forall|i: int| 0 <= i < db.tasks@.len() implies i64::MIN < (#[trigger] db.tasks@[i]).remaining_deps by {
            assert(views(db.tasks@)[i] == db.tasks@[i]@);
        }
    }
    let ghost was = db@;
    let rule: Release = Release { edges: &db.edges, dependency };
    let _ = update_all(&mut db.tasks, &rule);
    assert(db@.tasks =~= released(was.tasks, was.edges, dependency@));
}

/// Ends the row `id` by `rule`, which touches no dependency counter; where it
/// touched a row, the dependents of `id` wait for one less.
pub fn settle<U: Rule<TaskRun>>(db: &mut Store, rule: &U, id: &str) -> (done: bool)
    requires
        deps_fit(old(db)@.tasks, 1),
        forall|t: TaskRunView| rule.fits(t),
        forall|t: TaskRunView| (#[trigger] rule.image(t)).remaining_deps == t.remaining_deps,
    ensures
        done == any(old(db)@.tasks, |t: TaskRunView| rule.hits(t)),
        done ==> final(db)@ == (StoreView {
            tasks: released(
                amended(
                    old(db)@.tasks,
                    |t: TaskRunView| rule.hits(t),
                    |t: TaskRunView| rule.image(t),
                ),
                old(db)@.edges,
                id@,
            ),
            ..old(db)@
        }),
        !done ==> final(db)@ == old(db)@,
{
    let ghost was = db@;
    if !update_any(&mut db.tasks, rule) {
        assert(db@.tasks =~= was.tasks);
        return false;
    }
    assert(deps_fit(db@.tasks, 1)) by {
        assert forall|i: int| 0 <= i < db@.tasks.len() implies i64::MIN + 1 <= (
        #[trigger] db@.tasks[i]).remaining_deps by {
            assert(i64::MIN + 1 <= was.tasks[i].remaining_deps);
        }
    }
    release_dependents(db, id);
    true
}

/// The tasks after `id` ended: the rows that `hits` allows become `image`, and
/// the dependents of `id` wait for one less.
pub open spec fn settled(
    db: StoreView,
    id: Seq<char>,
    hits: spec_fn(TaskRunView) -> bool,
    image: spec_fn(TaskRunView) -> TaskRunView,
) -> StoreView {
    if any(db.tasks, hits) {
        StoreView { tasks: released(amended(db.tasks, hits, image), db.edges, id), ..db }
    } else {
        db
    }
}

// ── Leases ───────────────────────────────────────────────────────────────────

/// A claimed row whose lease has run out. A parked row has no lease and is none.
pub open spec fn lease_lapsed(t: TaskRunView, now: Seq<char>) -> bool {
    t.status == TaskStatus::Running && past(t.lease_expires_at, now)
}

/// Back in the queue, without a claim.
pub open spec fn requeued(t: TaskRunView) -> TaskRunView {
    TaskRunView { status: TaskStatus::Ready, claimed_by: None, lease_expires_at: None, ..t }
}

struct Recover<'a> {
    now: &'a str,
}

impl<'a> Rule<TaskRun> for Recover<'a> {
    closed spec fn hits(&self, t: TaskRunView) -> bool {
        lease_lapsed(t, self.now@)
    }

    closed spec fn image(&self, t: TaskRunView) -> TaskRunView {
        requeued(t)
    }

    closed spec fn fits(&self, t: TaskRunView) -> bool {
        true
    }

    fn apply(&self, row: &mut TaskRun) -> (hit: bool) {
        if row.status == TaskStatus::Running && is_past(&row.lease_expires_at, self.now) {
            row.status = TaskStatus::Ready;
            row.claimed_by = None;
            row.lease_expires_at = None;
            true
        } else {
            false
        }
    }
}

/// Puts every row whose lease has run out back in the queue.
pub fn recover_expired_leases(db: &mut Store, now: &str) -> (n: u64)
    ensures
        n == count(old(db)@.tasks, |t: TaskRunView| lease_lapsed(t, now@)),
        final(db)@ == (StoreView {
            tasks: amended(
                old(db)@.tasks,
                |t: TaskRunView| lease_lapsed(t, now@),
                |t: TaskRunView| requeued(t),
            ),
            ..old(db)@
        }),
{
    let ghost was = db@;
    let rule: Recover = Recover { now };
    let n: u64 = update_all(&mut db.tasks, &rule);
    proof {
        lemma_count_same(
            was.tasks,
            |t: TaskRunView| rule.hits(t),
            |t: TaskRunView| lease_lapsed(t, now@),
        );
    }
    assert(db@.tasks =~= amended(
        was.tasks,
        |t: TaskRunView| lease_lapsed(t, now@),
        |t: TaskRunView| requeued(t),
    ));
    n
}

/// The row is held by exactly this claim: this worker, at this fence.
pub open spec fn held_by(t: TaskRunView, id: Seq<char>, worker: Seq<char>, fence: int) -> bool {
    t.id == id && t.claimed_by == Some(worker) && t.version == fence
}

/// Whether this claim holds the row.
fn is_held(row: &TaskRun, id: &str, worker: &str, fence: i64) -> (r: bool)
    ensures
        r == held_by(row@, id@, worker@, fence as int),
{
    row.version == fence && same(row.id.as_str(), id) && column_is(&row.claimed_by, worker)
}

struct Renew<'a> {
    id: &'a str,
    worker: &'a str,
    fence: i64,
    until: &'a str,
}

/// A running row held by exactly this claim.
pub open spec fn running_for(t: TaskRunView, id: Seq<char>, worker: Seq<char>, fence: int) -> bool {
    held_by(t, id, worker, fence) && t.status == TaskStatus::Running
}

impl<'a> Rule<TaskRun> for Renew<'a> {
    closed spec fn hits(&self, t: TaskRunView) -> bool {
        running_for(t, self.id@, self.worker@, self.fence as int)
    }

    closed spec fn image(&self, t: TaskRunView) -> TaskRunView {
        TaskRunView { lease_expires_at: Some(self.until@), ..t }
    }

    closed spec fn fits(&self, t: TaskRunView) -> bool {
        true
    }

    fn apply(&self, row: &mut TaskRun) -> (hit: bool) {
        if is_held(row, self.id, self.worker, self.fence) && row.status == TaskStatus::Running {
            row.lease_expires_at = Some(self.until.to_owned());
            true
        } else {
            false
        }
    }
}

/// Extends the lease of a running row until `until`; false where the claim is gone.
pub fn renew_task_lease(
    db: &mut Store,
    task_id: &str,
    worker_id: &str,
    fence: i64,
    until: &str,
) -> (renewed: bool)
    ensures
        renewed == (count(
            old(db)@.tasks,
            |t: TaskRunView| running_for(t, task_id@, worker_id@, fence as int),
        ) == 1),
        final(db)@ == (StoreView {
            tasks: amended(
                old(db)@.tasks,
                |t: TaskRunView| running_for(t, task_id@, worker_id@, fence as int),
                |t: TaskRunView| TaskRunView { lease_expires_at: Some(until@), ..t },
            ),
            ..old(db)@
        }),
{
    let ghost was = db@;
    let rule: Renew = Renew { id: task_id, worker: worker_id, fence, until };
    let n: u64 = update_all(&mut db.tasks, &rule);
    proof {
        lemma_count_same(
            was.tasks,
            |t: TaskRunView| rule.hits(t),
            |t: TaskRunView| running_for(t, task_id@, worker_id@, fence as int),
        );
    }
    assert(db@.tasks =~= amended(
        was.tasks,
        |t: TaskRunView| running_for(t, task_id@, worker_id@, fence as int),
        |t: TaskRunView| TaskRunView { lease_expires_at: Some(until@), ..t },
    ));
    n == 1
}

// ── Completion ───────────────────────────────────────────────────────────────

/// The row's claim has ended with this outcome.
pub open spec fn ended(
    t: TaskRunView,
    status: TaskStatus,
    now: Seq<char>,
    output: Option<Seq<char>>,
) -> TaskRunView {
    TaskRunView { status, finished_at: Some(now), output, claimed_by: None, ..t }
}

struct Succeed<'a> {
    id: &'a str,
    worker: &'a str,
    fence: i64,
    now: &'a str,
    output: &'a Option<String>,
    cache_hit: bool,
}

impl<'a> Rule<TaskRun> for Succeed<'a> {
    closed spec fn hits(&self, t: TaskRunView) -> bool {
        held_by(t, self.id@, self.worker@, self.fence as int)
    }

    closed spec fn image(&self, t: TaskRunView) -> TaskRunView {
        TaskRunView {
            cache_hit: self.cache_hit,
            ..ended(t, TaskStatus::Succeeded, self.now@, opt(*self.output))
        }
    }

    closed spec fn fits(&self, t: TaskRunView) -> bool {
        true
    }

    fn apply(&self, row: &mut TaskRun) -> (hit: bool) {
        if !is_held(row, self.id, self.worker, self.fence) {
            return false;
        }
        row.status = TaskStatus::Succeeded;
        row.finished_at = Some(self.now.to_owned());
        row.output = self.output.clone();
        row.claimed_by = None;
        row.cache_hit = self.cache_hit;
        true
    }
}

/// The store after the claim on `id` ended in success.
pub open spec fn after_success(
    db: StoreView,
    id: Seq<char>,
    worker: Seq<char>,
    fence: int,
    output: Option<Seq<char>>,
    cache_hit: bool,
    now: Seq<char>,
) -> StoreView {
    settled(
        db,
        id,
        |t: TaskRunView| held_by(t, id, worker, fence),
        |t: TaskRunView| TaskRunView { cache_hit, ..ended(t, TaskStatus::Succeeded, now, output) },
    )
}

fn mark_task_succeeded_inner(
    db: &mut Store,
    task_id: &str,
    worker_id: &str,
    fence: i64,
    output: Option<String>,
    cache_hit: bool,
    now: &str,
) -> (done: bool)
    requires
        deps_fit(old(db)@.tasks, 1),
    ensures
        done == any(old(db)@.tasks, |t: TaskRunView| held_by(t, task_id@, worker_id@, fence as int)),
        final(db)@ == after_success(
            old(db)@,
            task_id@,
            worker_id@,
            fence as int,
            opt(output),
            cache_hit,
            now@,
        ),
{
    let ghost was = db@;
    let rule: Succeed = Succeed {
        id: task_id,
        worker: worker_id,
        fence,
        now,
        output: &output,
        cache_hit,
    };
    let done: bool = settle(db, &rule, task_id);
    assert(amended(was.tasks, |t: TaskRunView| rule.hits(t), |t: TaskRunView| rule.image(t))
        =~= amended(
        was.tasks,
        |t: TaskRunView| held_by(t, task_id@, worker_id@, fence as int),
        |t: TaskRunView|
            TaskRunView { cache_hit, ..ended(t, TaskStatus::Succeeded, now@, opt(output)) },
    ));
    proof {
        lemma_any_same(
            was.tasks,
            |t: TaskRunView| rule.hits(t),
            |t: TaskRunView| held_by(t, task_id@, worker_id@, fence as int),
        );
    }
    done
}

/// Marks a claimed task succeeded and lets its dependents advance. Only the
/// claim that still holds the row can do so; a stale one changes nothing.
pub fn mark_task_succeeded(
    db: &mut Store,
    task_id: &str,
    worker_id: &str,
    fence: i64,
    output: Option<String>,
    now: &str,
) -> (done: bool)
    requires
        deps_fit(old(db)@.tasks, 1),
    ensures
        done == any(old(db)@.tasks, |t: TaskRunView| held_by(t, task_id@, worker_id@, fence as int)),
        final(db)@ == after_success(
            old(db)@,
            task_id@,
            worker_id@,
            fence as int,
            opt(output),
            false,
            now@,
        ),
{
    mark_task_succeeded_inner(db, task_id, worker_id, fence, output, false, now)
}

/// [`mark_task_succeeded`] for a result that came from the memo store.
pub fn mark_task_succeeded_cached(
    db: &mut Store,
    task_id: &str,
    worker_id: &str,
    fence: i64,
    output: Option<String>,
    now: &str,
) -> (done: bool)
    requires
        deps_fit(old(db)@.tasks, 1),
    ensures
        done == any(old(db)@.tasks, |t: TaskRunView| held_by(t, task_id@, worker_id@, fence as int)),
        final(db)@ == after_success(
            old(db)@,
            task_id@,
            worker_id@,
            fence as int,
            opt(output),
            true,
            now@,
        ),
{
    mark_task_succeeded_inner(db, task_id, worker_id, fence, output, true, now)
}

struct Fail<'a> {
    id: &'a str,
    worker: &'a str,
    fence: i64,
    now: &'a str,
    error: &'a Option<String>,
}

impl<'a> Rule<TaskRun> for Fail<'a> {
    closed spec fn hits(&self, t: TaskRunView) -> bool {
        held_by(t, self.id@, self.worker@, self.fence as int)
    }

    closed spec fn image(&self, t: TaskRunView) -> TaskRunView {
        ended(t, TaskStatus::Failed, self.now@, opt(*self.error))
    }

    closed spec fn fits(&self, t: TaskRunView) -> bool {
        true
    }

    fn apply(&self, row: &mut TaskRun) -> (hit: bool) {
        if !is_held(row, self.id, self.worker, self.fence) {
            return false;
        }
        row.status = TaskStatus::Failed;
        row.finished_at = Some(self.now.to_owned());
        row.output = self.error.clone();
        row.claimed_by = None;
        true
    }
}

/// The store after the claim on `id` ended in failure.
pub open spec fn after_failure(
    db: StoreView,
    id: Seq<char>,
    worker: Seq<char>,
    fence: int,
    error: Option<Seq<char>>,
    now: Seq<char>,
) -> StoreView {
    settled(
        db,
        id,
        |t: TaskRunView| held_by(t, id, worker, fence),
        |t: TaskRunView| ended(t, TaskStatus::Failed, now, error),
    )
}

/// Marks a claimed task failed. A failure is an outcome like any other: the
/// dependents wait for one less, and their trigger rules decide.
pub fn mark_task_failed(
    db: &mut Store,
    task_id: &str,
    worker_id: &str,
    fence: i64,
    error: Option<String>,
    now: &str,
) -> (done: bool)
    requires
        deps_fit(old(db)@.tasks, 1),
    ensures
        done == any(old(db)@.tasks, |t: TaskRunView| held_by(t, task_id@, worker_id@, fence as int)),
        final(db)@ == after_failure(
            old(db)@,
            task_id@,
            worker_id@,
            fence as int,
            opt(error),
            now@,
        ),
{
    let ghost was = db@;
    let rule: Fail = Fail { id: task_id, worker: worker_id, fence, now, error: &error };
    let done: bool = settle(db, &rule, task_id);
    assert(amended(was.tasks, |t: TaskRunView| rule.hits(t), |t: TaskRunView| rule.image(t))
        =~= amended(
        was.tasks,
        |t: TaskRunView| held_by(t, task_id@, worker_id@, fence as int),
        |t: TaskRunView| ended(t, TaskStatus::Failed, now@, opt(error)),
    ));
    proof {
        lemma_any_same(
            was.tasks,
            |t: TaskRunView| rule.hits(t),
            |t: TaskRunView| held_by(t, task_id@, worker_id@, fence as int),
        );
    }
    done
}

// ── Retry ────────────────────────────────────────────────────────────────────

struct Retry<'a> {
    id: &'a str,
    worker: &'a str,
    fence: i64,
    error: &'a Option<String>,
    retry_at: &'a String,
}

/// Back in the queue for a later attempt.
pub open spec fn retried(t: TaskRunView, error: Option<Seq<char>>, retry_at: Seq<char>) -> TaskRunView {
    TaskRunView { scheduled_at: Some(retry_at), output: error, ..requeued(t) }
}

impl<'a> Rule<TaskRun> for Retry<'a> {
    closed spec fn hits(&self, t: TaskRunView) -> bool {
        held_by(t, self.id@, self.worker@, self.fence as int)
    }

    closed spec fn image(&self, t: TaskRunView) -> TaskRunView {
        retried(t, opt(*self.error), self.retry_at@)
    }

    closed spec fn fits(&self, t: TaskRunView) -> bool {
        true
    }

    fn apply(&self, row: &mut TaskRun) -> (hit: bool) {
        if !is_held(row, self.id, self.worker, self.fence) {
            return false;
        }
        row.status = TaskStatus::Ready;
        row.scheduled_at = Some(self.retry_at.clone());
        row.claimed_by = None;
        row.lease_expires_at = None;
        row.output = self.error.clone();
        true
    }
}

/// Puts a claimed task back in the queue, not to be claimed before `retry_at`.
pub fn retry_task(
    db: &mut Store,
    task_id: &str,
    worker_id: &str,
    fence: i64,
    error: Option<String>,
    retry_at: String,
) -> (done: bool)
    ensures
        done == any(old(db)@.tasks, |t: TaskRunView| held_by(t, task_id@, worker_id@, fence as int)),
        final(db)@ == (StoreView {
            tasks: amended(
                old(db)@.tasks,
                |t: TaskRunView| held_by(t, task_id@, worker_id@, fence as int),
                |t: TaskRunView| retried(t, opt(error), retry_at@),
            ),
            ..old(db)@
        }),
{
    let ghost was = db@;
    let rule: Retry = Retry {
        id: task_id,
        worker: worker_id,
        fence,
        error: &error,
        retry_at: &retry_at,
    };
    let done: bool = update_any(&mut db.tasks, &rule);
    proof {
        lemma_any_same(
            was.tasks,
            |t: TaskRunView| rule.hits(t),
            |t: TaskRunView| held_by(t, task_id@, worker_id@, fence as int),
        );
    }
    assert(db@.tasks =~= amended(
        was.tasks,
        |t: TaskRunView| held_by(t, task_id@, worker_id@, fence as int),
        |t: TaskRunView| retried(t, opt(error), retry_at@),
    ));
    done
}

// ── Live output and checkpoints ──────────────────────────────────────────────

/// A running attempt, by its fence.
pub open spec fn running_at(t: TaskRunView, id: Seq<char>, fence: int) -> bool {
    t.id == id && t.version == fence && t.status == TaskStatus::Running
}

/// Whether this is the running attempt with this fence.
pub fn is_running_at(row: &TaskRun, id: &str, fence: i64) -> (r: bool)
    ensures
        r == running_at(row@, id@, fence as int),
{
    row.version == fence && row.status == TaskStatus::Running && same(row.id.as_str(), id)
}

/// The output after one more chunk: the first chunk of an attempt replaces what
/// was there.
pub open spec fn appended(output: Option<Seq<char>>, chunk: Seq<char>, reset: bool) -> Seq<char> {
    if reset || output is None { chunk } else { output->0 + chunk }
}

struct Append<'a> {
    id: &'a str,
    fence: i64,
    chunk: &'a str,
    reset: bool,
}

impl<'a> Rule<TaskRun> for Append<'a> {
    closed spec fn hits(&self, t: TaskRunView) -> bool {
        running_at(t, self.id@, self.fence as int)
    }

    closed spec fn image(&self, t: TaskRunView) -> TaskRunView {
        TaskRunView { output: Some(appended(t.output, self.chunk@, self.reset)), ..t }
    }

    closed spec fn fits(&self, t: TaskRunView) -> bool {
        true
    }

    fn apply(&self, row: &mut TaskRun) -> (hit: bool) {
        if !is_running_at(row, self.id, self.fence) {
            return false;
        }
        let text: String = match &row.output {
            Some(old) => {
                if self.reset {
                    self.chunk.to_owned()
                } else {
                    let mut text: String = old.clone();
                    text.append(self.chunk);
                    text
                }
            },
            None => self.chunk.to_owned(),
        };
        row.output = Some(text);
        true
    }
}

/// Appends a chunk of live output to the running attempt.
pub fn append_task_output(db: &mut Store, task_id: &str, fence: i64, chunk: &str, reset: bool)
    ensures
        final(db)@ == (StoreView {
            tasks: amended(
                old(db)@.tasks,
                |t: TaskRunView| running_at(t, task_id@, fence as int),
                |t: TaskRunView|
                    TaskRunView { output: Some(appended(t.output, chunk@, reset)), ..t },
            ),
            ..old(db)@
        }),
{
    let ghost was = db@;
    let rule: Append = Append { id: task_id, fence, chunk, reset };
    let _ = update_all(&mut db.tasks, &rule);
    assert(db@.tasks =~= amended(
        was.tasks,
        |t: TaskRunView| running_at(t, task_id@, fence as int),
        |t: TaskRunView| TaskRunView { output: Some(appended(t.output, chunk@, reset)), ..t },
    ));
}

/// A running row of a run.
pub open spec fn running_in(t: TaskRunView, run_id: Seq<char>, id: Seq<char>) -> bool {
    t.id == id && t.run_id == run_id && t.status == TaskStatus::Running
}

struct Checkpoint<'a> {
    run_id: &'a str,
    id: &'a str,
    uri: &'a str,
    marker: &'a Option<String>,
}

impl<'a> Rule<TaskRun> for Checkpoint<'a> {
    closed spec fn hits(&self, t: TaskRunView) -> bool {
        running_in(t, self.run_id@, self.id@)
    }

    closed spec fn image(&self, t: TaskRunView) -> TaskRunView {
        TaskRunView {
            checkpoint_uri: Some(self.uri@),
            checkpoint_marker: opt(*self.marker),
            ..t
        }
    }

    closed spec fn fits(&self, t: TaskRunView) -> bool {
        true
    }

    fn apply(&self, row: &mut TaskRun) -> (hit: bool) {
        if row.status == TaskStatus::Running && same(row.id.as_str(), self.id) && same(
            row.run_id.as_str(),
            self.run_id,
        ) {
            row.checkpoint_uri = Some(self.uri.to_owned());
            row.checkpoint_marker = self.marker.clone();
            true
        } else {
            false
        }
    }
}

/// Records where a running task's latest checkpoint lies.
pub fn record_task_checkpoint(
    db: &mut Store,
    run_id: &str,
    task_id: &str,
    uri: &str,
    marker: Option<String>,
) -> (recorded: bool)
    ensures
        recorded == (count(old(db)@.tasks, |t: TaskRunView| running_in(t, run_id@, task_id@)) == 1),
        final(db)@ == (StoreView {
            tasks: amended(
                old(db)@.tasks,
                |t: TaskRunView| running_in(t, run_id@, task_id@),
                |t: TaskRunView|
                    TaskRunView {
                        checkpoint_uri: Some(uri@),
                        checkpoint_marker: opt(marker),
                        ..t
                    },
            ),
            ..old(db)@
        }),
{
    let ghost was = db@;
    let rule: Checkpoint = Checkpoint { run_id, id: task_id, uri, marker: &marker };
    let n: u64 = update_all(&mut db.tasks, &rule);
    proof {
        lemma_count_same(
            was.tasks,
            |t: TaskRunView| rule.hits(t),
            |t: TaskRunView| running_in(t, run_id@, task_id@),
        );
    }
    assert(db@.tasks =~= amended(
        was.tasks,
        |t: TaskRunView| running_in(t, run_id@, task_id@),
        |t: TaskRunView|
            TaskRunView { checkpoint_uri: Some(uri@), checkpoint_marker: opt(marker), ..t },
    ));
    n == 1
}

} // verus!
