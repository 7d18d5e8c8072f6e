//! Second chances: retrying a task, rerunning a failed run, clearing a task with
//! all that depends on it, and moving ready work to another runner class.
use vstd::prelude::*;
use vstd::string::*;
use crate::dag::contains_text;
use crate::datasets::{find_run_of_task, run_of_task};
use crate::models::{RunStatus, TaskStatus};
use crate::order::{find_row, first, lemma_first, lemma_no_more_places, Keep};
use crate::rows::{opt, views, Edge, EdgeView, TaskRun, TaskRunView, WorkflowRun, WorkflowRunView};
use crate::store::{due, is_due, Store, StoreView};
use crate::table::{
    amended, any, count, lemma_any_same, lemma_count_same, lemma_count_take, update_all, update_any,
    Rule,
};
use crate::tasks::depends;
use crate::text::{same, texts};

verus! {

/// Every version can still go up.
pub open spec fn versions_fit(tasks: Seq<TaskRunView>) -> bool {
    forall|i: int| 0 <= i < tasks.len() ==> (#[trigger] tasks[i]).version < i64::MAX
}

// ── One task ─────────────────────────────────────────────────────────────────

/// A task that failed or was cancelled.
pub open spec fn retryable(t: TaskRunView, id: Seq<char>) -> bool {
    t.id == id && (t.status == TaskStatus::Failed || t.status == TaskStatus::Cancelled)
}

/// The task in the queue again. Its version moves on, so that no claim from
/// before can end it.
pub open spec fn resurrected(t: TaskRunView) -> TaskRunView {
    TaskRunView {
        status: TaskStatus::Ready,
        claimed_by: None,
        lease_expires_at: None,
        scheduled_at: None,
        output: None,
        version: t.version + 1,
        ..t
    }
}

struct Resurrect<'a> {
    id: &'a str,
}

impl<'a> Rule<TaskRun> for Resurrect<'a> {
    closed spec fn hits(&self, t: TaskRunView) -> bool {
        retryable(t, self.id@)
    }

    closed spec fn image(&self, t: TaskRunView) -> TaskRunView {
        resurrected(t)
    }

    closed spec fn fits(&self, t: TaskRunView) -> bool {
        t.version < i64::MAX
    }

    fn apply(&self, row: &mut TaskRun) -> (hit: bool) {
        if (row.status == TaskStatus::Failed || row.status == TaskStatus::Cancelled) && same(
            row.id.as_str(),
            self.id,
        ) {
            row.status = TaskStatus::Ready;
            row.claimed_by = None;
            row.lease_expires_at = None;
            row.scheduled_at = None;
            row.output = None;
            row.version = row.version + 1;
            true
        } else {
            false
        }
    }
}

/// A failed run goes on.
pub open spec fn failed_run(r: WorkflowRunView, id: Option<Seq<char>>) -> bool {
    Some(r.id) == id && r.status == RunStatus::Failed
}

struct Resume<'a> {
    id: &'a Option<String>,
}

impl<'a> Rule<WorkflowRun> for Resume<'a> {
    closed spec fn hits(&self, r: WorkflowRunView) -> bool {
        failed_run(r, opt(*self.id))
    }

    closed spec fn image(&self, r: WorkflowRunView) -> WorkflowRunView {
        WorkflowRunView { status: RunStatus::Running, finished_at: None, ..r }
    }

    closed spec fn fits(&self, r: WorkflowRunView) -> bool {
        true
    }

    fn apply(&self, row: &mut WorkflowRun) -> (hit: bool) {
        let named: bool = match self.id {
            Some(id) => same(row.id.as_str(), id.as_str()),
            None => false,
        };
        if named && row.status == RunStatus::Failed {
            row.status = RunStatus::Running;
            row.finished_at = None;
            true
        } else {
            false
        }
    }
}

/// Puts a failed or cancelled task back in the queue, with no claim to show for
/// it, and lets its run go on where that had failed. False where the task is
/// neither failed nor cancelled.
pub fn retry_task_from_ui(db: &mut Store, task_id: &str) -> (done: bool)
    requires
        versions_fit(old(db)@.tasks),
    ensures
        done == any(old(db)@.tasks, |t: TaskRunView| retryable(t, task_id@)),
        final(db)@ == (if done {
            StoreView {
                tasks: amended(
                    old(db)@.tasks,
                    |t: TaskRunView| retryable(t, task_id@),
                    |t: TaskRunView| resurrected(t),
                ),
                runs: amended(
                    old(db)@.runs,
                    |r: WorkflowRunView| failed_run(r, run_of_task(old(db)@.tasks, task_id@)),
                    |r: WorkflowRunView|
                        WorkflowRunView { status: RunStatus::Running, finished_at: None, ..r },
                ),
                ..old(db)@
            }
        } else {
            old(db)@
        }),
{
    let ghost was = db@;
    let run_id: Option<String> = find_run_of_task(&db.tasks, task_id);
    let rule: Resurrect = Resurrect { id: task_id };
    proof {
        assert forall|k: int|
            0 <= k < db.tasks@.len() && rule.hits((#[trigger] db.tasks@[k])@) implies rule.fits(
                db.tasks@[k]@
            ) by {
            assert(was.tasks[k] == db.tasks@[k]@);
        }
        lemma_any_same(
            was.tasks,
            |t: TaskRunView| rule.hits(t),
            |t: TaskRunView| retryable(t, task_id@),
        );
    }
    if !update_any(&mut db.tasks, &rule) {
        assert(db@.tasks =~= was.tasks);
        return false;
    }
    let resume: Resume = Resume { id: &run_id };
    let _ = update_all(&mut db.runs, &resume);
    assert(db@.tasks =~= amended(
        was.tasks,
        |t: TaskRunView| retryable(t, task_id@),
        |t: TaskRunView| resurrected(t),
    ));
    assert(db@.runs =~= amended(
        was.runs,
        |r: WorkflowRunView| failed_run(r, run_of_task(was.tasks, task_id@)),
        |r: WorkflowRunView| WorkflowRunView { status: RunStatus::Running, finished_at: None, ..r },
    ));
    true
}

// ── What a reset task waits for ──────────────────────────────────────────────

/// A dependency that is still to come. Where only success counts, a failed or
/// cancelled one is to come as well.
pub open spec fn unmet(status: TaskStatus, success_only: bool) -> bool {
    if success_only {
        status != TaskStatus::Succeeded && status != TaskStatus::Skipped
    } else {
        !status.terminal()
    }
}

/// A row of a dependency that is still to come.
pub open spec fn unmet_row(t: TaskRunView, id: Seq<char>, success_only: bool) -> bool {
    t.id == id && unmet(t.status, success_only)
}

/// How many dependencies of the row `id` are still to come, by the first `n` edges.
pub open spec fn outstanding(
    tasks: Seq<TaskRunView>,
    edges: Seq<EdgeView>,
    id: Seq<char>,
    success_only: bool,
    n: int,
) -> nat
    decreases n,
{
    if n <= 0 {
        0
    } else {
        outstanding(tasks, edges, id, success_only, n - 1) + if edges[n - 1].dependent_id == id {
            count(tasks, |t: TaskRunView| unmet_row(t, edges[n - 1].dependency_id, success_only))
        } else {
            0
        }
    }
}

/// A pending row of a run.
pub open spec fn pending_in(t: TaskRunView, run_id: Seq<char>) -> bool {
    t.run_id == run_id && t.status == TaskStatus::Pending
}

/// The rows with the pending ones of a run counted anew.
pub open spec fn recounted(
    tasks: Seq<TaskRunView>,
    edges: Seq<EdgeView>,
    run_id: Seq<char>,
    success_only: bool,
) -> Seq<TaskRunView> {
    amended(
        tasks,
        |t: TaskRunView| pending_in(t, run_id),
        |t: TaskRunView|
            TaskRunView {
                remaining_deps: outstanding(
                    tasks,
                    edges,
                    t.id,
                    success_only,
                    edges.len() as int,
                ) as int,
                ..t
            },
    )
}

fn count_unmet(tasks: &Vec<TaskRun>, id: &str, success_only: bool) -> (n: usize)
    ensures
        n == count(views(tasks@), |t: TaskRunView| unmet_row(t, id@, success_only)),
        n <= tasks@.len(),
{
    let ghost all = views(tasks@);
    let ghost p = |t: TaskRunView| unmet_row(t, id@, success_only);
    let mut n: usize = 0;
    let mut i: usize = 0;
    assert(all.take(0) =~= Seq::<TaskRunView>::empty());
    while i < tasks.len()
        invariant
            i <= tasks@.len(),
            n <= i,
            all == views(tasks@),
            p == (|t: TaskRunView| unmet_row(t, id@, success_only)),
            n == count(all.take(i as int), p),
        decreases tasks@.len() - i,
    {
        proof {
            lemma_count_take(all, p, i as int);
        }
        assert(all[i as int] == tasks@[i as int]@);
        let open: bool = if success_only {
            tasks[i].status != TaskStatus::Succeeded && tasks[i].status != TaskStatus::Skipped
        } else {
            !tasks[i].status.is_terminal()
        };
        if open && same(tasks[i].id.as_str(), id) {
            n += 1;
        }
        i += 1;
    }
    assert(all.take(all.len() as int) =~= all);
    n
}

proof fn lemma_room(k: int, n: int, rows: int)
    requires
        0 <= k < n,
        0 <= rows,
        n * rows <= i64::MAX,
    ensures
        (k + 1) * rows <= i64::MAX,
        k * rows + rows == (k + 1) * rows,
        0 <= k * rows,
{
    assert((k + 1) * rows <= n * rows) by (nonlinear_arith)
        requires
            k + 1 <= n,
            0 <= rows,
    ;
    assert(k * rows + rows == (k + 1) * rows) by (nonlinear_arith);
    assert(0 <= k * rows) by (nonlinear_arith)
        requires
            0 <= k,
            0 <= rows,
    ;
}

fn count_outstanding(tasks: &Vec<TaskRun>, edges: &Vec<Edge>, id: &str, success_only: bool) -> (n: i64)
    requires
        edges@.len() * tasks@.len() <= i64::MAX,
    ensures
        n == outstanding(views(tasks@), views(edges@), id@, success_only, edges@.len() as int),
{
    let ghost all = views(tasks@);
    let ghost arrows = views(edges@);
    let mut n: i64 = 0;
    let mut i: usize = 0;
    while i < edges.len()
        invariant
            i <= edges@.len(),
            all == views(tasks@),
            arrows == views(edges@),
            edges@.len() * tasks@.len() <= i64::MAX,
            n == outstanding(all, arrows, id@, success_only, i as int),
            n <= i * tasks@.len(),
        decreases edges@.len() - i,
    {
        assert(arrows[i as int] == edges@[i as int]@);
        proof {
            lemma_room(i as int, edges@.len() as int, tasks@.len() as int);
        }
        if same(edges[i].dependent_id.as_str(), id) {
            let more: usize = count_unmet(tasks, edges[i].dependency_id.as_str(), success_only);
            n = n + more as i64;
        }
        i += 1;
    }
    n
}

/// Counts the pending rows of a run anew.
fn recount(tasks: &mut Vec<TaskRun>, edges: &Vec<Edge>, run_id: &str, success_only: bool)
    requires
        edges@.len() * old(tasks)@.len() <= i64::MAX,
    ensures
        views(final(tasks)@) == recounted(
            views(old(tasks)@),
            views(edges@),
            run_id@,
            success_only,
        ),
{
    let ghost before = tasks@;
    let ghost was = views(before);
    let ghost arrows = views(edges@);
    let mut counts: Vec<i64> = Vec::new();
    let mut i: usize = 0;
    while i < tasks.len()
        invariant
            i <= tasks@.len(),
            counts@.len() == i,
            tasks@ == before,
            was == views(before),
            arrows == views(edges@),
            edges@.len() * tasks@.len() <= i64::MAX,
            forall|k: int|
                0 <= k < i ==> #[trigger] counts@[k] == outstanding(
                    was,
                    arrows,
                    was[k].id,
                    success_only,
                    edges@.len() as int,
                ),
        decreases tasks@.len() - i,
    {
        assert(was[i as int] == tasks@[i as int]@);
        let n: i64 = count_outstanding(tasks, edges, tasks[i].id.as_str(), success_only);
        counts.push(n);
        i += 1;
    }
    let ghost want = recounted(was, arrows, run_id@, success_only);
    let mut j: usize = 0;
    while j < tasks.len()
        invariant
            j <= tasks@.len(),
            tasks@.len() == before.len(),
            counts@.len() == before.len(),
            was == views(before),
            arrows == views(edges@),
            want == recounted(was, arrows, run_id@, success_only),
            forall|k: int|
                0 <= k < before.len() ==> #[trigger] counts@[k] == outstanding(
                    was,
                    arrows,
                    was[k].id,
                    success_only,
                    edges@.len() as int,
                ),
            forall|k: int| j <= k < tasks@.len() ==> tasks@[k] == before[k],
            forall|k: int| 0 <= k < j ==> (#[trigger] tasks@[k])@ == want[k],
        decreases tasks@.len() - j,
    {
        assert(was[j as int] == tasks@[j as int]@);
        if tasks[j].status == TaskStatus::Pending && same(tasks[j].run_id.as_str(), run_id) {
            let n: i64 = counts[j];
            let row: &mut TaskRun = &mut tasks[j];
            row.remaining_deps = n;
        }
        j += 1;
    }
    assert(views(tasks@) =~= want);
}

// ── A failed run ─────────────────────────────────────────────────────────────

/// A run that can be rerun.
pub open spec fn rerunnable(r: WorkflowRunView, id: Seq<char>) -> bool {
    r.id == id && (r.status == RunStatus::Failed || r.status == RunStatus::Cancelled)
}

/// The run goes on.
pub open spec fn rearmed(r: WorkflowRunView) -> WorkflowRunView {
    WorkflowRunView { status: RunStatus::Running, finished_at: None, output: None, ..r }
}

/// A task of the run that did not succeed.
pub open spec fn broken(t: TaskRunView, run_id: Seq<char>) -> bool {
    t.run_id == run_id && (t.status == TaskStatus::Failed || t.status == TaskStatus::Cancelled
        || t.status == TaskStatus::Skipped)
}

/// A task that starts over.
pub open spec fn reset(t: TaskRunView, now: Seq<char>) -> TaskRunView {
    TaskRunView {
        status: TaskStatus::Pending,
        attempt: 0,
        claimed_by: None,
        lease_expires_at: None,
        output: None,
        finished_at: None,
        scheduled_at: Some(now),
        version: t.version + 1,
        ..t
    }
}

struct RearmBroken<'a> {
    id: &'a str,
}

impl<'a> Rule<WorkflowRun> for RearmBroken<'a> {
    closed spec fn hits(&self, r: WorkflowRunView) -> bool {
        rerunnable(r, self.id@)
    }

    closed spec fn image(&self, r: WorkflowRunView) -> WorkflowRunView {
        rearmed(r)
    }

    closed spec fn fits(&self, r: WorkflowRunView) -> bool {
        true
    }

    fn apply(&self, row: &mut WorkflowRun) -> (hit: bool) {
        if (row.status == RunStatus::Failed || row.status == RunStatus::Cancelled) && same(
            row.id.as_str(),
            self.id,
        ) {
            row.status = RunStatus::Running;
            row.finished_at = None;
            row.output = None;
            true
        } else {
            false
        }
    }
}

struct ResetBroken<'a> {
    run_id: &'a str,
    now: &'a str,
}

impl<'a> Rule<TaskRun> for ResetBroken<'a> {
    closed spec fn hits(&self, t: TaskRunView) -> bool {
        broken(t, self.run_id@)
    }

    closed spec fn image(&self, t: TaskRunView) -> TaskRunView {
        reset(t, self.now@)
    }

    closed spec fn fits(&self, t: TaskRunView) -> bool {
        t.version < i64::MAX
    }

    fn apply(&self, row: &mut TaskRun) -> (hit: bool) {
        if (row.status == TaskStatus::Failed || row.status == TaskStatus::Cancelled || row.status
            == TaskStatus::Skipped) && same(row.run_id.as_str(), self.run_id) {
            row.status = TaskStatus::Pending;
            row.attempt = 0;
            row.claimed_by = None;
            row.lease_expires_at = None;
            row.output = None;
            row.finished_at = None;
            row.scheduled_at = Some(self.now.to_owned());
            row.version = row.version + 1;
            true
        } else {
            false
        }
    }
}

/// The tasks once a run starts over from what broke.
pub open spec fn restarted(db: StoreView, run_id: Seq<char>, now: Seq<char>) -> Seq<TaskRunView> {
    recounted(
        amended(db.tasks, |t: TaskRunView| broken(t, run_id), |t: TaskRunView| reset(t, now)),
        db.edges,
        run_id,
        true,
    )
}

/// Reruns a failed or cancelled run from what broke: every task that failed, was
/// cancelled or skipped starts over, and waits again for what has not succeeded.
/// `None` where no such run is there; otherwise how many tasks start over.
pub fn rerun_from_failed(db: &mut Store, run_id: &str, now: &str) -> (r: Option<u64>)
    requires
        versions_fit(old(db)@.tasks),
        old(db)@.edges.len() * old(db)@.tasks.len() <= i64::MAX,
    ensures
        r is Some == any(old(db)@.runs, |r: WorkflowRunView| rerunnable(r, run_id@)),
        r is Some ==> r->0 == count(old(db)@.tasks, |t: TaskRunView| broken(t, run_id@)),
        final(db)@ == (if r is Some {
            StoreView {
                runs: amended(
                    old(db)@.runs,
                    |r: WorkflowRunView| rerunnable(r, run_id@),
                    |r: WorkflowRunView| rearmed(r),
                ),
                tasks: restarted(old(db)@, run_id@, now@),
                ..old(db)@
            }
        } else {
            old(db)@
        }),
{
    let ghost was = db@;
    let rearm: RearmBroken = RearmBroken { id: run_id };
    let armed: bool = update_any(&mut db.runs, &rearm);
    proof {
        lemma_any_same(
            was.runs,
            |r: WorkflowRunView| rearm.hits(r),
            |r: WorkflowRunView| rerunnable(r, run_id@),
        );
    }
    if !armed {
        assert(db@.runs =~= was.runs);
        return None;
    }
    let rule: ResetBroken = ResetBroken { run_id, now };
    proof {
        assert forall|k: int|
            0 <= k < db.tasks@.len() && rule.hits((#[trigger] db.tasks@[k])@) implies rule.fits(
                db.tasks@[k]@
            ) by {
            assert(was.tasks[k] == db.tasks@[k]@);
        }
        lemma_count_same(
            was.tasks,
            |t: TaskRunView| rule.hits(t),
            |t: TaskRunView| broken(t, run_id@),
        );
    }
    let n: u64 = update_all(&mut db.tasks, &rule);
    assert(db@.tasks =~= amended(
        was.tasks,
        |t: TaskRunView| broken(t, run_id@),
        |t: TaskRunView| reset(t, now@),
    ));
    recount(&mut db.tasks, &db.edges, run_id, true);
    assert(db@.runs =~= amended(
        was.runs,
        |r: WorkflowRunView| rerunnable(r, run_id@),
        |r: WorkflowRunView| rearmed(r),
    ));
    Some(n)
}

/// A rerun leaves every succeeded task and every other run's tasks as they are,
/// and moves the version of every task that starts over.
pub proof fn law_rerun_keeps_successes(db: StoreView, run_id: Seq<char>, now: Seq<char>, i: int)
    requires
        0 <= i < db.tasks.len(),
    ensures
        restarted(db, run_id, now).len() == db.tasks.len(),
        db.tasks[i].status == TaskStatus::Succeeded || db.tasks[i].run_id != run_id ==> restarted(
            db,
            run_id,
            now,
        )[i] == db.tasks[i],
        broken(db.tasks[i], run_id) ==> restarted(db, run_id, now)[i].version == db.tasks[i].version
            + 1 && restarted(db, run_id, now)[i].status == TaskStatus::Pending,
{
}

// ── A task and all that depends on it ────────────────────────────────────────

struct TaskIn<'a> {
    run_id: &'a str,
    id: &'a str,
}

/// The row `id` of a run.
pub open spec fn task_in(t: TaskRunView, run_id: Seq<char>, id: Seq<char>) -> bool {
    t.id == id && t.run_id == run_id
}

impl<'a> Keep<TaskRun> for TaskIn<'a> {
    closed spec fn keeps(&self, t: TaskRunView) -> bool {
        task_in(t, self.run_id@, self.id@)
    }

    fn keep(&self, row: &TaskRun) -> (r: bool) {
        same(row.id.as_str(), self.id) && same(row.run_id.as_str(), self.run_id)
    }
}

/// Whether a run has the task `task_id`.
pub fn task_exists(db: &Store, run_id: &str, task_id: &str) -> (r: bool)
    ensures
        r == any(db@.tasks, |t: TaskRunView| task_in(t, run_id@, task_id@)),
{
    let keep: TaskIn = TaskIn { run_id, id: task_id };
    let found: Option<usize> = find_row(&db.tasks, &keep);
    proof {
        let p = |t: TaskRunView| task_in(t, run_id@, task_id@);
        assert(p =~= (|t: TaskRunView| keep.keeps(t)));
        lemma_first(db@.tasks, p);
    }
    found.is_some()
}

/// A chain of dependents: each entry depends on the one before.
pub open spec fn chain(edges: Seq<EdgeView>, path: Seq<Seq<char>>) -> bool {
    path.len() >= 1 && forall|k: int|
        0 <= k < path.len() - 1 ==> depends(edges, path[k + 1], #[trigger] path[k])
}

/// The row `id` is `root` or depends on it, directly or through others.
pub open spec fn downstream(edges: Seq<EdgeView>, root: Seq<char>, id: Seq<char>) -> bool {
    exists|path: Seq<Seq<char>>| #[trigger]
        chain(edges, path) && path[0] == root && path.last() == id
}

proof fn lemma_downstream_step(edges: Seq<EdgeView>, root: Seq<char>, a: Seq<char>, b: Seq<char>)
    requires
        downstream(edges, root, a),
        depends(edges, b, a),
    ensures
        downstream(edges, root, b),
{
    let path = choose|path: Seq<Seq<char>>| #[trigger]
        chain(edges, path) && path[0] == root && path.last() == a;
    let longer = path.push(b);
    assert(chain(edges, longer)) by {
        assert forall|k: int| 0 <= k < longer.len() - 1 implies depends(
            edges,
            longer[k + 1],
            #[trigger] longer[k],
        ) by {
            if k < path.len() - 1 {
                assert(longer[k] == path[k] && longer[k + 1] == path[k + 1]);
            } else {
                assert(longer[k] == path.last());
            }
        }
    }
    assert(longer[0] == root && longer.last() == b);
}

proof fn lemma_chain_inside(edges: Seq<EdgeView>, path: Seq<Seq<char>>, s: Seq<Seq<char>>, k: int)
    requires
        chain(edges, path),
        0 <= k < path.len(),
        s.contains(path[0]),
        forall|a: Seq<char>, b: Seq<char>| s.contains(a) && #[trigger] depends(edges, b, a) ==> s.contains(b),
    ensures
        s.contains(path[k]),
    decreases k,
{
    if k > 0 {
        lemma_chain_inside(edges, path, s, k - 1);
        assert(depends(edges, path[k - 1 + 1], path[k - 1]));
    }
}

proof fn lemma_held_push(s: Seq<Seq<char>>, x: Seq<char>, y: Seq<char>)
    ensures
        s.push(x).contains(y) == (s.contains(y) || y == x),
{
    let t = s.push(x);
    if s.contains(y) {
        let k = choose|k: int| 0 <= k < s.len() && s[k] == y;
        assert(t[k] == y);
    }
    if y == x {
        assert(t[s.len() as int] == y);
    }
    if t.contains(y) {
        let k = choose|k: int| 0 <= k < t.len() && t[k] == y;
        if k < s.len() {
            assert(s[k] == y);
        }
    }
}

/// The ids of `root` and all that depends on it.
fn cone(edges: &Vec<Edge>, root: &str) -> (ids: Vec<String>)
    ensures
        forall|id: Seq<char>| #[trigger] texts(ids@).contains(id) == downstream(views(edges@), root@, id),
{
    let ghost arrows = views(edges@);
    let mut ids: Vec<String> = Vec::new();
    ids.push(root.to_owned());
    // The edge that led to each id but the first.
    let ghost mut led: Seq<int> = Seq::empty();
    proof {
        let start = seq![root@];
        assert(texts(ids@) =~= start);
        assert(chain(arrows, start));
        assert(start[0] == root@ && start.last() == root@);
        assert(downstream(arrows, root@, root@));
    }
    let mut i: usize = 0;
    while i < ids.len()
        invariant
            i <= ids@.len(),
            arrows == views(edges@),
            ids@.len() == led.len() + 1,
            ids@[0]@ == root@,
            led.no_duplicates(),
            forall|k: int| 0 <= k < led.len() ==> 0 <= #[trigger] led[k] < arrows.len(),
            forall|k: int| 0 <= k < led.len() ==> arrows[#[trigger] led[k]].dependent_id == ids@[k + 1]@,
            led.len() <= arrows.len(),
            forall|k: int| 0 <= k < ids@.len() ==> downstream(arrows, root@, (#[trigger] ids@[k])@),
            forall|k: int, b: Seq<char>|
                0 <= k < i && #[trigger] depends(arrows, b, ids@[k]@) ==> texts(ids@).contains(b),
        decreases arrows.len() + 1 - i,
    {
        let ghost a = ids@[i as int]@;
        let mut j: usize = 0;
        while j < edges.len()
            invariant
                i < ids@.len(),
                j <= edges@.len(),
                arrows == views(edges@),
                a == ids@[i as int]@,
                ids@.len() == led.len() + 1,
                ids@[0]@ == root@,
                led.no_duplicates(),
                forall|k: int| 0 <= k < led.len() ==> 0 <= #[trigger] led[k] < arrows.len(),
                forall|k: int|
                    0 <= k < led.len() ==> arrows[#[trigger] led[k]].dependent_id == ids@[k + 1]@,
                forall|k: int| 0 <= k < ids@.len() ==> downstream(arrows, root@, (#[trigger] ids@[k])@),
                forall|k: int, b: Seq<char>|
                    0 <= k < i && #[trigger] depends(arrows, b, ids@[k]@) ==> texts(ids@).contains(b),
                forall|k: int|
                    0 <= k < j && (#[trigger] arrows[k]).dependency_id == a ==> texts(ids@).contains(
                        arrows[k].dependent_id,
                    ),
            decreases edges@.len() - j,
        {
            assert(arrows[j as int] == edges@[j as int]@);
            let ghost had = texts(ids@);
            if same(edges[j].dependency_id.as_str(), ids[i].as_str()) && !contains_text(
                &ids,
                edges[j].dependent_id.as_str(),
            ) {
                let ghost b = arrows[j as int].dependent_id;
                let ghost ids_was = ids@;
                proof {
                    assert(depends(arrows, b, a));
                    lemma_downstream_step(arrows, root@, a, b);
                    assert forall|k: int| 0 <= k < led.len() implies #[trigger] led[k] != j by {
                        if led[k] == j {
                            assert(had[k + 1] == b);
                        }
                    }
                }
                ids.push(edges[j].dependent_id.clone());
                proof {
                    led = led.push(j as int);
                    assert(texts(ids@) =~= had.push(b));
                    assert forall|y: Seq<char>| had.contains(y) implies texts(ids@).contains(y) by {
                        lemma_held_push(had, b, y);
                    }
                    lemma_held_push(had, b, b);
                    assert forall|k: int| 0 <= k < ids_was.len() implies ids@[k] == ids_was[k] by {}
                }
            }
            j += 1;
        }
        proof {
            assert forall|k: int, b: Seq<char>|
                0 <= k < i + 1 && #[trigger] depends(arrows, b, ids@[k]@) implies texts(ids@).contains(b) by {
                if k == i {
                    let e = choose|e: int|
                        0 <= e < arrows.len() && (#[trigger] arrows[e]).dependent_id == b
                            && arrows[e].dependency_id == a;
                    assert(texts(ids@).contains(arrows[e].dependent_id));
                }
            }
            assert forall|x: int| #[trigger] led.contains(x) implies 0 <= x < arrows.len() by {
                let k = choose|k: int| 0 <= k < led.len() && led[k] == x;
                assert(0 <= led[k] < arrows.len());
            }
            lemma_no_more_places(led, arrows.len() as int);
        }
        i += 1;
    }
    proof {
        let all = texts(ids@);
        assert forall|id: Seq<char>| #[trigger] all.contains(id) == downstream(arrows, root@, id) by {
            if all.contains(id) {
                let k = choose|k: int| 0 <= k < all.len() && all[k] == id;
                assert(ids@[k]@ == id);
            }
            if downstream(arrows, root@, id) {
                let path = choose|path: Seq<Seq<char>>| #[trigger]
                    chain(arrows, path) && path[0] == root@ && path.last() == id;
                assert(all[0] == root@);
                assert forall|a: Seq<char>, b: Seq<char>|
                    all.contains(a) && #[trigger] depends(arrows, b, a) implies all.contains(b) by {
                    let k = choose|k: int| 0 <= k < all.len() && all[k] == a;
                    assert(ids@[k]@ == a);
                    assert(depends(arrows, b, ids@[k]@));
                }
                lemma_chain_inside(arrows, path, all, path.len() - 1);
            }
        }
    }
    ids
}

/// A task that is over, and is `root` or depends on it.
pub open spec fn cleared(edges: Seq<EdgeView>, t: TaskRunView, root: Seq<char>) -> bool {
    t.status.terminal() && downstream(edges, root, t.id)
}

/// A task that starts over with nothing of its past.
pub open spec fn wiped(t: TaskRunView, now: Seq<char>) -> TaskRunView {
    TaskRunView { checkpoint_uri: None, checkpoint_marker: None, ..reset(t, now) }
}

struct Clear<'a> {
    cone: &'a Vec<String>,
    now: &'a str,
}

impl<'a> Rule<TaskRun> for Clear<'a> {
    closed spec fn hits(&self, t: TaskRunView) -> bool {
        t.status.terminal() && texts(self.cone@).contains(t.id)
    }

    closed spec fn image(&self, t: TaskRunView) -> TaskRunView {
        wiped(t, self.now@)
    }

    closed spec fn fits(&self, t: TaskRunView) -> bool {
        t.version < i64::MAX
    }

    fn apply(&self, row: &mut TaskRun) -> (hit: bool) {
        if row.status.is_terminal() && contains_text(self.cone, row.id.as_str()) {
            row.status = TaskStatus::Pending;
            row.attempt = 0;
            row.claimed_by = None;
            row.lease_expires_at = None;
            row.output = None;
            row.finished_at = None;
            row.scheduled_at = Some(self.now.to_owned());
            row.version = row.version + 1;
            row.checkpoint_uri = None;
            row.checkpoint_marker = None;
            true
        } else {
            false
        }
    }
}

/// A run that is over.
pub open spec fn finished_run(r: WorkflowRunView, id: Seq<char>) -> bool {
    r.id == id && r.status.terminal()
}

struct RearmFinished<'a> {
    id: &'a str,
}

impl<'a> Rule<WorkflowRun> for RearmFinished<'a> {
    closed spec fn hits(&self, r: WorkflowRunView) -> bool {
        finished_run(r, self.id@)
    }

    closed spec fn image(&self, r: WorkflowRunView) -> WorkflowRunView {
        rearmed(r)
    }

    closed spec fn fits(&self, r: WorkflowRunView) -> bool {
        true
    }

    fn apply(&self, row: &mut WorkflowRun) -> (hit: bool) {
        if row.status.is_terminal() && same(row.id.as_str(), self.id) {
            row.status = RunStatus::Running;
            row.finished_at = None;
            row.output = None;
            true
        } else {
            false
        }
    }
}

/// The task can be cleared: the run has it, and it is over.
pub open spec fn clearable(tasks: Seq<TaskRunView>, run_id: Seq<char>, id: Seq<char>) -> bool {
    match first(tasks, |t: TaskRunView| task_in(t, run_id, id)) {
        Some(t) => t.status.terminal(),
        None => false,
    }
}

/// The tasks once `id` is cleared with all that depends on it.
pub open spec fn wiped_downstream(
    db: StoreView,
    run_id: Seq<char>,
    id: Seq<char>,
    now: Seq<char>,
) -> Seq<TaskRunView> {
    recounted(
        amended(db.tasks, |t: TaskRunView| cleared(db.edges, t, id), |t: TaskRunView| wiped(t, now)),
        db.edges,
        run_id,
        false,
    )
}

/// Clears a task that is over, and with it every task that is over and depends
/// on it: they start over, and the run goes on. `None` where the run has no such
/// task or the task is not over; otherwise how many tasks start over.
pub fn clear_task_with_downstream(db: &mut Store, run_id: &str, task_id: &str, now: &str) -> (r: Option<u64>)
    requires
        versions_fit(old(db)@.tasks),
        old(db)@.edges.len() * old(db)@.tasks.len() <= i64::MAX,
    ensures
        r is Some == clearable(old(db)@.tasks, run_id@, task_id@),
        r is Some ==> r->0 == count(
            old(db)@.tasks,
            |t: TaskRunView| cleared(old(db)@.edges, t, task_id@),
        ),
        final(db)@ == (if r is Some {
            StoreView {
                tasks: wiped_downstream(old(db)@, run_id@, task_id@, now@),
                runs: amended(
                    old(db)@.runs,
                    |r: WorkflowRunView| finished_run(r, run_id@),
                    |r: WorkflowRunView| rearmed(r),
                ),
                ..old(db)@
            }
        } else {
            old(db)@
        }),
{
    let ghost was = db@;
    let keep: TaskIn = TaskIn { run_id, id: task_id };
    let found: Option<usize> = find_row(&db.tasks, &keep);
    assert((|t: TaskRunView| task_in(t, run_id@, task_id@)) =~= (|t: TaskRunView| keep.keeps(t)));
    match found {
        Some(i) => {
            assert(was.tasks[i as int] == db.tasks@[i as int]@);
            if !db.tasks[i].status.is_terminal() {
                return None;
            }
        },
        None => {
            return None;
        },
    }
    let ids: Vec<String> = cone(&db.edges, task_id);
    let rule: Clear = Clear { cone: &ids, now };
    proof {
        assert forall|k: int|
            0 <= k < db.tasks@.len() && rule.hits((#[trigger] db.tasks@[k])@) implies rule.fits(
                db.tasks@[k]@
            ) by {
            assert(was.tasks[k] == db.tasks@[k]@);
        }
        lemma_count_same(
            was.tasks,
            |t: TaskRunView| rule.hits(t),
            |t: TaskRunView| cleared(was.edges, t, task_id@),
        );
    }
    let n: u64 = update_all(&mut db.tasks, &rule);
    assert(db@.tasks =~= amended(
        was.tasks,
        |t: TaskRunView| cleared(was.edges, t, task_id@),
        |t: TaskRunView| wiped(t, now@),
    ));
    recount(&mut db.tasks, &db.edges, run_id, false);
    let rearm: RearmFinished = RearmFinished { id: run_id };
    let _ = update_all(&mut db.runs, &rearm);
    assert(db@.runs =~= amended(
        was.runs,
        |r: WorkflowRunView| finished_run(r, run_id@),
        |r: WorkflowRunView| rearmed(r),
    ));
    Some(n)
}

/// Clearing a task touches nothing upstream or beside it: a task that does not
/// depend on it keeps everything, save that a pending one of the run is counted
/// anew; a task that starts over moves its version.
pub proof fn law_clear_stays_downstream(
    db: StoreView,
    run_id: Seq<char>,
    id: Seq<char>,
    now: Seq<char>,
    i: int,
)
    requires
        0 <= i < db.tasks.len(),
    ensures
        !downstream(db.edges, id, db.tasks[i].id) && !pending_in(db.tasks[i], run_id)
            ==> wiped_downstream(db, run_id, id, now)[i] == db.tasks[i],
        !downstream(db.edges, id, db.tasks[i].id) ==> wiped_downstream(db, run_id, id, now)[i].status
            == db.tasks[i].status && wiped_downstream(db, run_id, id, now)[i].version == db.tasks[i].version,
        cleared(db.edges, db.tasks[i], id) ==> wiped_downstream(db, run_id, id, now)[i].version
            == db.tasks[i].version + 1 && wiped_downstream(db, run_id, id, now)[i].status
            == TaskStatus::Pending,
{
}

// ── Checkpoints ──────────────────────────────────────────────────────────────

struct CheckpointOf<'a> {
    id: &'a str,
}

impl<'a> Keep<TaskRun> for CheckpointOf<'a> {
    closed spec fn keeps(&self, t: TaskRunView) -> bool {
        t.id == self.id@
    }

    fn keep(&self, row: &TaskRun) -> (r: bool) {
        same(row.id.as_str(), self.id)
    }
}

/// The latest checkpoint that a task reported: where it lies, and its marker.
pub open spec fn checkpoint(
    tasks: Seq<TaskRunView>,
    id: Seq<char>,
) -> Option<(Seq<char>, Option<Seq<char>>)> {
    match first(tasks, |t: TaskRunView| t.id == id) {
        Some(t) => match t.checkpoint_uri {
            Some(uri) => Some((uri, t.checkpoint_marker)),
            None => None,
        },
        None => None,
    }
}

/// The latest checkpoint that a task reported.
pub fn task_checkpoint(db: &Store, task_id: &str) -> (r: Option<(String, Option<String>)>)
    ensures
        (match r {
            Some(c) => Some((c.0@, opt(c.1))),
            None => None,
        }) == checkpoint(db@.tasks, task_id@),
{
    let keep: CheckpointOf = CheckpointOf { id: task_id };
    let found: Option<usize> = find_row(&db.tasks, &keep);
    assert((|t: TaskRunView| t.id == task_id@) =~= (|t: TaskRunView| keep.keeps(t)));
    match found {
        Some(i) => {
            assert(db@.tasks[i as int] == db.tasks@[i as int]@);
            match &db.tasks[i].checkpoint_uri {
                Some(uri) => Some((uri.clone(), db.tasks[i].checkpoint_marker.clone())),
                None => None,
            }
        },
        None => None,
    }
}

// ── Another runner class ─────────────────────────────────────────────────────

/// A ready row of a class, outside any gang, that was scheduled by `aged` or has
/// used up `attempts`.
pub open spec fn starved(t: TaskRunView, class: Seq<char>, aged: Seq<char>, attempts: int) -> bool {
    &&& t.status == TaskStatus::Ready
    &&& t.runner_class == class
    &&& t.gang_id is None
    &&& due(t.scheduled_at, aged) || t.attempt >= attempts
}

struct Reclass<'a> {
    from_class: &'a str,
    to_class: &'a str,
    aged_before: &'a str,
    min_attempt: i64,
}

impl<'a> Rule<TaskRun> for Reclass<'a> {
    closed spec fn hits(&self, t: TaskRunView) -> bool {
        starved(t, self.from_class@, self.aged_before@, self.min_attempt as int)
    }

    closed spec fn image(&self, t: TaskRunView) -> TaskRunView {
        TaskRunView { runner_class: self.to_class@, ..t }
    }

    closed spec fn fits(&self, t: TaskRunView) -> bool {
        true
    }

    fn apply(&self, row: &mut TaskRun) -> (hit: bool) {
        if row.status == TaskStatus::Ready
            && row.gang_id.is_none()
            && (is_due(&row.scheduled_at, self.aged_before) || row.attempt >= self.min_attempt)
            && same(row.runner_class.as_str(), self.from_class)
        {
            row.runner_class = self.to_class.to_owned();
            true
        } else {
            false
        }
    }
}

/// Moves ready tasks of one runner class to another that were scheduled at or
/// before `aged_before` or have been attempted `min_attempt` times, and says how
/// many moved.
pub fn reclass_ready_tasks(
    db: &mut Store,
    from_class: &str,
    to_class: &str,
    aged_before: &str,
    min_attempt: i64,
) -> (n: u64)
    ensures
        n == count(old(db)@.tasks, |t: TaskRunView| starved(t, from_class@, aged_before@, min_attempt as int)),
        final(db)@ == (StoreView {
            tasks: amended(
                old(db)@.tasks,
                |t: TaskRunView| starved(t, from_class@, aged_before@, min_attempt as int),
                |t: TaskRunView| TaskRunView { runner_class: to_class@, ..t },
            ),
            ..old(db)@
        }),
{
    let ghost was = db@;
    let rule: Reclass = Reclass { from_class, to_class, aged_before, min_attempt };
    let n: u64 = update_all(&mut db.tasks, &rule);
    proof {
        lemma_count_same(
            was.tasks,
            |t: TaskRunView| rule.hits(t),
            |t: TaskRunView| starved(t, from_class@, aged_before@, min_attempt as int),
        );
    }
    assert(db@.tasks =~= amended(
        was.tasks,
        |t: TaskRunView| starved(t, from_class@, aged_before@, min_attempt as int),
        |t: TaskRunView| TaskRunView { runner_class: to_class@, ..t },
    ));
    n
}

/// The deadline that counts for a run: the hard one, or else the alert.
pub open spec fn deadline(r: WorkflowRunView) -> Option<Seq<char>> {
    if r.deadline_at is Some { r.deadline_at } else { r.alert_deadline_at }
}

/// A running run whose deadline is near.
pub open spec fn pressed(r: WorkflowRunView, id: Seq<char>, horizon: Seq<char>) -> bool {
    r.id == id && r.status == RunStatus::Running && due(deadline(r), horizon)
}

/// A ready row of a class, outside any gang, whose run is near its deadline.
pub open spec fn urgent(
    runs: Seq<WorkflowRunView>,
    t: TaskRunView,
    class: Seq<char>,
    horizon: Seq<char>,
) -> bool {
    &&& t.status == TaskStatus::Ready
    &&& t.runner_class == class
    &&& t.gang_id is None
    &&& any(runs, |r: WorkflowRunView| pressed(r, t.run_id, horizon))
}

struct Pressed<'a> {
    id: &'a str,
    horizon: &'a str,
}

impl<'a> Keep<WorkflowRun> for Pressed<'a> {
    closed spec fn keeps(&self, r: WorkflowRunView) -> bool {
        pressed(r, self.id@, self.horizon@)
    }

    fn keep(&self, row: &WorkflowRun) -> (r: bool) {
        if row.status != RunStatus::Running || !same(row.id.as_str(), self.id) {
            return false;
        }
        if row.deadline_at.is_some() {
            is_due(&row.deadline_at, self.horizon)
        } else {
            is_due(&row.alert_deadline_at, self.horizon)
        }
    }
}

struct ReclassUrgent<'a> {
    runs: &'a Vec<WorkflowRun>,
    from_class: &'a str,
    to_class: &'a str,
    horizon: &'a str,
}

impl<'a> Rule<TaskRun> for ReclassUrgent<'a> {
    closed spec fn hits(&self, t: TaskRunView) -> bool {
        urgent(views(self.runs@), t, self.from_class@, self.horizon@)
    }

    closed spec fn image(&self, t: TaskRunView) -> TaskRunView {
        TaskRunView { runner_class: self.to_class@, ..t }
    }

    closed spec fn fits(&self, t: TaskRunView) -> bool {
        true
    }

    fn apply(&self, row: &mut TaskRun) -> (hit: bool) {
        if row.status != TaskStatus::Ready || row.gang_id.is_some() || !same(
            row.runner_class.as_str(),
            self.from_class,
        ) {
            return false;
        }
        let keep: Pressed = Pressed { id: row.run_id.as_str(), horizon: self.horizon };
        let found: Option<usize> = find_row(self.runs, &keep);
        proof {
            let p = |r: WorkflowRunView| pressed(r, row@.run_id, self.horizon@);
            assert(p =~= (|r: WorkflowRunView| keep.keeps(r)));
            lemma_first(views(self.runs@), p);
        }
        if found.is_none() {
            return false;
        }
        row.runner_class = self.to_class.to_owned();
        true
    }
}

/// Moves ready tasks of one runner class to another whose run's deadline comes
/// by `horizon`, and says how many moved.
pub fn reclass_ready_tasks_near_deadline(
    db: &mut Store,
    from_class: &str,
    to_class: &str,
    horizon: &str,
) -> (n: u64)
    ensures
        n == count(
            old(db)@.tasks,
            |t: TaskRunView| urgent(old(db)@.runs, t, from_class@, horizon@),
        ),
        final(db)@ == (StoreView {
            tasks: amended(
                old(db)@.tasks,
                |t: TaskRunView| urgent(old(db)@.runs, t, from_class@, horizon@),
                |t: TaskRunView| TaskRunView { runner_class: to_class@, ..t },
            ),
            ..old(db)@
        }),
{
    let ghost was = db@;
    let rule: ReclassUrgent = ReclassUrgent { runs: &db.runs, from_class, to_class, horizon };
    let n: u64 = update_all(&mut db.tasks, &rule);
    proof {
        lemma_count_same(
            was.tasks,
            |t: TaskRunView| rule.hits(t),
            |t: TaskRunView| urgent(was.runs, t, from_class@, horizon@),
        );
    }
    assert(db@.tasks =~= amended(
        was.tasks,
        |t: TaskRunView| urgent(was.runs, t, from_class@, horizon@),
        |t: TaskRunView| TaskRunView { runner_class: to_class@, ..t },
    ));
    n
}

} // verus!
