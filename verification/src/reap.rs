//! How runs end: by their tasks, by an operator, or by their deadline.
use vstd::prelude::*;
use vstd::string::*;
use crate::dag::contains_text;
use crate::models::{RunStatus, TaskStatus};
use crate::order::{column_at, places, places_where, select_all, Column, Keep};
use crate::outbox::{enqueue_outbox_event, event_payload, new_event, payload_text};
use crate::rows::{opt, views, OutboxRowView, TaskRun, TaskRunView, WorkflowRun, WorkflowRunView};
use crate::store::{is_past, past, Store, StoreView};
use crate::table::{amended, any, lemma_any_same, update_all, update_any, Rule};
use crate::text::{same, texts};

verus! {

// ── By their tasks ───────────────────────────────────────────────────────────

/// The run has tasks, and all of them are over.
pub open spec fn all_over(tasks: Seq<TaskRunView>, run_id: Seq<char>) -> bool {
    &&& exists|i: int| 0 <= i < tasks.len() && (#[trigger] tasks[i]).run_id == run_id
    &&& forall|i: int|
        0 <= i < tasks.len() && (#[trigger] tasks[i]).run_id == run_id ==> tasks[i].status.terminal()
}

/// A task of the run failed that may not.
pub open spec fn has_failed(tasks: Seq<TaskRunView>, run_id: Seq<char>) -> bool {
    exists|i: int|
        0 <= i < tasks.len() && (#[trigger] tasks[i]).run_id == run_id && tasks[i].status
            == TaskStatus::Failed && !tasks[i].allow_failure
}

/// How a run whose tasks are all over has ended.
pub open spec fn run_outcome(tasks: Seq<TaskRunView>, run_id: Seq<char>) -> RunStatus {
    if has_failed(tasks, run_id) { RunStatus::Failed } else { RunStatus::Succeeded }
}

/// A running run whose tasks are all over.
pub open spec fn completed(tasks: Seq<TaskRunView>, r: WorkflowRunView) -> bool {
    r.status == RunStatus::Running && all_over(tasks, r.id)
}

/// The output of the first row of a run with this name, from row `i` on.
pub open spec fn named_output(
    tasks: Seq<TaskRunView>,
    run_id: Seq<char>,
    name: Seq<char>,
    i: int,
) -> Option<Seq<char>>
    decreases tasks.len() - i,
{
    if i < 0 || i >= tasks.len() {
        None
    } else if tasks[i].run_id == run_id && tasks[i].name == name {
        tasks[i].output
    } else {
        named_output(tasks, run_id, name, i + 1)
    }
}

/// The run as its tasks leave it: a successful run takes over the output of
/// the task it names.
pub open spec fn finalized(tasks: Seq<TaskRunView>, r: WorkflowRunView, now: Seq<char>) -> WorkflowRunView {
    let status = run_outcome(tasks, r.id);
    WorkflowRunView {
        status,
        finished_at: Some(now),
        output: if status == RunStatus::Succeeded && r.result_from is Some {
            named_output(tasks, r.id, r.result_from->0, 0)
        } else {
            r.output
        },
        ..r
    }
}

/// The event that reports a finished run.
pub open spec fn completion_event(
    tasks: Seq<TaskRunView>,
    r: WorkflowRunView,
    id: Seq<char>,
    now: Seq<char>,
) -> OutboxRowView {
    new_event(
        id,
        r.id,
        "run.completed"@,
        payload_text("run_id"@, r.id, "status"@, run_outcome(tasks, r.id).text()),
        now,
    )
}

struct Summary {
    present: bool,
    over: bool,
    failed: bool,
}

/// What the tasks of a run have come to.
fn summarize(tasks: &Vec<TaskRun>, run_id: &str) -> (s: Summary)
    ensures
        (s.present && s.over) == all_over(views(tasks@), run_id@),
        s.failed == has_failed(views(tasks@), run_id@),
{
    let ghost all = views(tasks@);
    let mut s: Summary = Summary { present: false, over: true, failed: false };
    let mut i: usize = 0;
    while i < tasks.len()
        invariant
            i <= tasks@.len(),
            all == views(tasks@),
            s.present == (exists|k: int| 0 <= k < i && (#[trigger] all[k]).run_id == run_id@),
            s.over == (forall|k: int|
                0 <= k < i && (#[trigger] all[k]).run_id == run_id@ ==> all[k].status.terminal()),
            s.failed == (exists|k: int|
                0 <= k < i && (#[trigger] all[k]).run_id == run_id@ && all[k].status
                    == TaskStatus::Failed && !all[k].allow_failure),
        decreases tasks@.len() - i,
    {
        assert(all[i as int] == tasks@[i as int]@);
        if same(tasks[i].run_id.as_str(), run_id) {
            s.present = true;
            if !tasks[i].status.is_terminal() {
                s.over = false;
            }
            if tasks[i].status == TaskStatus::Failed && !tasks[i].allow_failure {
                s.failed = true;
            }
        }
        i += 1;
    }
    s
}

fn find_output(tasks: &Vec<TaskRun>, run_id: &str, name: &str) -> (r: Option<String>)
    ensures
        opt(r) == named_output(views(tasks@), run_id@, name@, 0),
{
    let ghost all = views(tasks@);
    let mut i: usize = 0;
    while i < tasks.len()
        invariant
            i <= tasks@.len(),
            all == views(tasks@),
            named_output(all, run_id@, name@, 0) == named_output(all, run_id@, name@, i as int),
        decreases tasks@.len() - i,
    {
        assert(all[i as int] == tasks@[i as int]@);
        if same(tasks[i].run_id.as_str(), run_id) && same(tasks[i].name.as_str(), name) {
            return tasks[i].output.clone();
        }
        i += 1;
    }
    None
}

struct Completed<'a> {
    tasks: &'a Vec<TaskRun>,
}

impl<'a> Keep<WorkflowRun> for Completed<'a> {
    closed spec fn keeps(&self, r: WorkflowRunView) -> bool {
        completed(views(self.tasks@), r)
    }

    fn keep(&self, row: &WorkflowRun) -> (r: bool) {
        if row.status != RunStatus::Running {
            return false;
        }
        let s: Summary = summarize(self.tasks, row.id.as_str());
        s.present && s.over
    }
}

struct Finalize<'a> {
    tasks: &'a Vec<TaskRun>,
    now: &'a str,
}

impl<'a> Rule<WorkflowRun> for Finalize<'a> {
    closed spec fn hits(&self, r: WorkflowRunView) -> bool {
        completed(views(self.tasks@), r)
    }

    closed spec fn image(&self, r: WorkflowRunView) -> WorkflowRunView {
        finalized(views(self.tasks@), r, self.now@)
    }

    closed spec fn fits(&self, r: WorkflowRunView) -> bool {
        true
    }

    fn apply(&self, row: &mut WorkflowRun) -> (hit: bool) {
        if row.status != RunStatus::Running {
            return false;
        }
        let s: Summary = summarize(self.tasks, row.id.as_str());
        if !(s.present && s.over) {
            return false;
        }
        row.finished_at = Some(self.now.to_owned());
        if s.failed {
            row.status = RunStatus::Failed;
        } else {
            row.status = RunStatus::Succeeded;
            match &row.result_from {
                Some(name) => {
                    let output: Option<String> = find_output(
                        self.tasks,
                        row.id.as_str(),
                        name.as_str(),
                    );
                    row.output = output;
                },
                None => {},
            }
        }
        true
    }
}

/// What a sweep reports of the runs it ended.
pub open spec fn reports(v: Seq<(String, RunStatus)>) -> Seq<(Seq<char>, RunStatus)> {
    v.map_values(|r: (String, RunStatus)| (r.0@, r.1))
}

/// Ends every running run whose tasks are all over, and puts one event per run
/// in the outbox. `event_ids` holds a fresh id for each run that may end.
pub fn reap_completed_runs(db: &mut Store, event_ids: &Vec<String>, now: &str) -> (out: Vec<
    (String, RunStatus),
>)
    requires
        event_ids@.len() >= old(db)@.runs.len(),
    ensures
        ({
            let was = old(db)@;
            let done = places_where(was.runs, |r: WorkflowRunView| completed(was.tasks, r));
            &&& reports(out@) == done.map_values(
                |i: int| (was.runs[i].id, run_outcome(was.tasks, was.runs[i].id)),
            )
            &&& final(db)@ == (StoreView {
                runs: amended(
                    was.runs,
                    |r: WorkflowRunView| completed(was.tasks, r),
                    |r: WorkflowRunView| finalized(was.tasks, r, now@),
                ),
                outbox: was.outbox + Seq::new(
                    done.len(),
                    |k: int|
                        completion_event(was.tasks, was.runs[done[k]], event_ids@[k]@, now@),
                ),
                ..was
            })
        }),
{
    let ghost was = db@;
    let ghost p = |r: WorkflowRunView| completed(was.tasks, r);
    let keep: Completed = Completed { tasks: &db.tasks };
    let q: Vec<usize> = select_all(&db.runs, &keep);
    let ghost done = places_where(was.runs, p);
    proof {
        assert(p =~= (|r: WorkflowRunView| keep.keeps(r)));
        assert(done == places(q@));
    }
    let mut out: Vec<(String, RunStatus)> = Vec::new();
    let mut k: usize = 0;
    let ghost f = |i: int| (was.runs[i].id, run_outcome(was.tasks, was.runs[i].id));
    let ghost ev = |k: int| completion_event(was.tasks, was.runs[done[k]], event_ids@[k]@, now@);
    assert(reports(out@) =~= done.take(0).map_values(f));
    assert(was.outbox + Seq::new(0, ev) =~= was.outbox);
    while k < q.len()
        invariant
            k <= q@.len(),
            done == places(q@),
            q@.len() <= event_ids@.len(),
            f == (|i: int| (was.runs[i].id, run_outcome(was.tasks, was.runs[i].id))),
            ev == (|k: int| completion_event(was.tasks, was.runs[done[k]], event_ids@[k]@, now@)),
            forall|x: int| 0 <= x < q@.len() ==> #[trigger] q@[x] < was.runs.len(),
            reports(out@) == done.take(k as int).map_values(f),
            db@ == (StoreView { outbox: was.outbox + Seq::new(k as nat, ev), ..was }),
        decreases q@.len() - k,
    {
        let i: usize = q[k];
        assert(done[k as int] == i);
        assert(was.runs[i as int] == db.runs@[i as int]@);
        let id: String = db.runs[i].id.clone();
        let s: Summary = summarize(&db.tasks, id.as_str());
        let status: RunStatus = if s.failed {
            RunStatus::Failed
        } else {
            RunStatus::Succeeded
        };
        let payload: String = event_payload("run_id", id.as_str(), "status", status.as_str());
        enqueue_outbox_event(
            db,
            event_ids[k].as_str(),
            id.as_str(),
            "run.completed",
            payload.as_str(),
            now,
        );
        assert((was.outbox + Seq::new(k as nat, ev)).push(ev(k as int)) =~= was.outbox + Seq::new(
            (k + 1) as nat,
            ev,
        ));
        let ghost told = reports(out@);
        let ghost told_id = id@;
        out.push((id, status));
        assert(reports(out@) =~= told.push((told_id, status)));
        assert(done.take(k as int + 1) =~= done.take(k as int).push(i as int));
        assert(done.take(k as int + 1).map_values(f) =~= done.take(k as int).map_values(f).push(
            f(i as int),
        ));
        k += 1;
    }
    assert(done.take(done.len() as int) =~= done);
    let ghost before = db@;
    let rule: Finalize = Finalize { tasks: &db.tasks, now };
    let _ = update_all(&mut db.runs, &rule);
    assert(db@.runs =~= amended(
        was.runs,
        p,
        |r: WorkflowRunView| finalized(was.tasks, r, now@),
    ));
    assert(db@.outbox =~= was.outbox + Seq::new(
        done.len(),
        |k: int| completion_event(was.tasks, was.runs[done[k]], event_ids@[k]@, now@),
    ));
    out
}

struct Close<'a> {
    id: &'a str,
    status: RunStatus,
    now: &'a str,
}

impl<'a> Rule<WorkflowRun> for Close<'a> {
    closed spec fn hits(&self, r: WorkflowRunView) -> bool {
        r.id == self.id@
    }

    closed spec fn image(&self, r: WorkflowRunView) -> WorkflowRunView {
        WorkflowRunView { status: self.status, finished_at: Some(self.now@), ..r }
    }

    closed spec fn fits(&self, r: WorkflowRunView) -> bool {
        true
    }

    fn apply(&self, row: &mut WorkflowRun) -> (hit: bool) {
        if same(row.id.as_str(), self.id) {
            row.status = self.status;
            row.finished_at = Some(self.now.to_owned());
            true
        } else {
            false
        }
    }
}

/// Ends one run once all of its tasks are over; `None` while work remains.
pub fn is_run_complete(db: &mut Store, run_id: &str, now: &str) -> (r: Option<RunStatus>)
    ensures
        r == (if all_over(old(db)@.tasks, run_id@) {
            Some(run_outcome(old(db)@.tasks, run_id@))
        } else {
            None
        }),
        final(db)@ == (if all_over(old(db)@.tasks, run_id@) {
            StoreView {
                runs: amended(
                    old(db)@.runs,
                    |r: WorkflowRunView| r.id == run_id@,
                    |r: WorkflowRunView|
                        WorkflowRunView {
                            status: run_outcome(old(db)@.tasks, run_id@),
                            finished_at: Some(now@),
                            ..r
                        },
                ),
                ..old(db)@
            }
        } else {
            old(db)@
        }),
{
    let ghost was = db@;
    let s: Summary = summarize(&db.tasks, run_id);
    if !(s.present && s.over) {
        return None;
    }
    let status: RunStatus = if s.failed {
        RunStatus::Failed
    } else {
        RunStatus::Succeeded
    };
    let rule: Close = Close { id: run_id, status, now };
    let _ = update_all(&mut db.runs, &rule);
    assert(db@.runs =~= amended(
        was.runs,
        |r: WorkflowRunView| r.id == run_id@,
        |r: WorkflowRunView|
            WorkflowRunView {
                status: run_outcome(was.tasks, run_id@),
                finished_at: Some(now@),
                ..r
            },
    ));
    Some(status)
}

// ── By an operator or a deadline ─────────────────────────────────────────────

/// Cancelled along with its run.
pub open spec fn swept(t: TaskRunView, now: Seq<char>) -> TaskRunView {
    TaskRunView {
        status: TaskStatus::Cancelled,
        finished_at: Some(now),
        claimed_by: None,
        lease_expires_at: None,
        ..t
    }
}

struct Sweep<'a> {
    runs: &'a Vec<String>,
    now: &'a str,
}

impl<'a> Rule<TaskRun> for Sweep<'a> {
    closed spec fn hits(&self, t: TaskRunView) -> bool {
        texts(self.runs@).contains(t.run_id) && !t.status.terminal()
    }

    closed spec fn image(&self, t: TaskRunView) -> TaskRunView {
        swept(t, self.now@)
    }

    closed spec fn fits(&self, t: TaskRunView) -> bool {
        true
    }

    fn apply(&self, row: &mut TaskRun) -> (hit: bool) {
        if !row.status.is_terminal() && contains_text(self.runs, row.run_id.as_str()) {
            row.status = TaskStatus::Cancelled;
            row.finished_at = Some(self.now.to_owned());
            row.claimed_by = None;
            row.lease_expires_at = None;
            true
        } else {
            false
        }
    }
}

/// The running run with this id.
pub open spec fn running_run(r: WorkflowRunView, id: Seq<char>) -> bool {
    r.id == id && r.status == RunStatus::Running
}

struct CancelRun<'a> {
    id: &'a str,
    now: &'a str,
}

impl<'a> Rule<WorkflowRun> for CancelRun<'a> {
    closed spec fn hits(&self, r: WorkflowRunView) -> bool {
        running_run(r, self.id@)
    }

    closed spec fn image(&self, r: WorkflowRunView) -> WorkflowRunView {
        WorkflowRunView { status: RunStatus::Cancelled, finished_at: Some(self.now@), ..r }
    }

    closed spec fn fits(&self, r: WorkflowRunView) -> bool {
        true
    }

    fn apply(&self, row: &mut WorkflowRun) -> (hit: bool) {
        if row.status == RunStatus::Running && same(row.id.as_str(), self.id) {
            row.status = RunStatus::Cancelled;
            row.finished_at = Some(self.now.to_owned());
            true
        } else {
            false
        }
    }
}

/// Cancels a running run and every task of it that is not over. A run that is
/// not running is left as it is.
pub fn cancel_run(db: &mut Store, run_id: &str, now: &str) -> (done: bool)
    ensures
        done == any(old(db)@.runs, |r: WorkflowRunView| running_run(r, run_id@)),
        final(db)@ == (if done {
            StoreView {
                runs: amended(
                    old(db)@.runs,
                    |r: WorkflowRunView| running_run(r, run_id@),
                    |r: WorkflowRunView|
                        WorkflowRunView {
                            status: RunStatus::Cancelled,
                            finished_at: Some(now@),
                            ..r
                        },
                ),
                tasks: amended(
                    old(db)@.tasks,
                    |t: TaskRunView| t.run_id == run_id@ && !t.status.terminal(),
                    |t: TaskRunView| swept(t, now@),
                ),
                ..old(db)@
            }
        } else {
            old(db)@
        }),
{
    let ghost was = db@;
    let rule: CancelRun = CancelRun { id: run_id, now };
    let done: bool = update_any(&mut db.runs, &rule);
    proof {
        lemma_any_same(
            was.runs,
            |r: WorkflowRunView| rule.hits(r),
            |r: WorkflowRunView| running_run(r, run_id@),
        );
    }
    if !done {
        assert(db@.runs =~= was.runs);
        return false;
    }
    let mut ids: Vec<String> = Vec::new();
    ids.push(run_id.to_owned());
    assert(texts(ids@) =~= seq![run_id@]);
    let sweep: Sweep = Sweep { runs: &ids, now };
    let _ = update_all(&mut db.tasks, &sweep);
    proof {
        assert forall|t: TaskRunView| #[trigger] sweep.hits(t) == (t.run_id == run_id@
            && !t.status.terminal()) by {
            assert(seq![run_id@].contains(t.run_id) == (t.run_id == run_id@)) by {
                if t.run_id == run_id@ {
                    assert(seq![run_id@][0] == t.run_id);
                }
            }
        }
    }
    assert(db@.runs =~= amended(
        was.runs,
        |r: WorkflowRunView| running_run(r, run_id@),
        |r: WorkflowRunView|
            WorkflowRunView { status: RunStatus::Cancelled, finished_at: Some(now@), ..r },
    ));
    assert(db@.tasks =~= amended(
        was.tasks,
        |t: TaskRunView| t.run_id == run_id@ && !t.status.terminal(),
        |t: TaskRunView| swept(t, now@),
    ));
    true
}

/// A running run past its deadline.
pub open spec fn overdue(r: WorkflowRunView, now: Seq<char>) -> bool {
    r.status == RunStatus::Running && past(r.deadline_at, now)
}

/// The run as its deadline leaves it.
pub open spec fn timed_out(r: WorkflowRunView, now: Seq<char>) -> WorkflowRunView {
    WorkflowRunView {
        status: RunStatus::Failed,
        finished_at: Some(now),
        output: Some("run deadline exceeded (run_timeout_secs)"@),
        ..r
    }
}

struct Overdue<'a> {
    now: &'a str,
}

impl<'a> Keep<WorkflowRun> for Overdue<'a> {
    closed spec fn keeps(&self, r: WorkflowRunView) -> bool {
        overdue(r, self.now@)
    }

    fn keep(&self, row: &WorkflowRun) -> (r: bool) {
        row.status == RunStatus::Running && is_past(&row.deadline_at, self.now)
    }
}

impl<'a> Rule<WorkflowRun> for Overdue<'a> {
    closed spec fn hits(&self, r: WorkflowRunView) -> bool {
        overdue(r, self.now@)
    }

    closed spec fn image(&self, r: WorkflowRunView) -> WorkflowRunView {
        timed_out(r, self.now@)
    }

    closed spec fn fits(&self, r: WorkflowRunView) -> bool {
        true
    }

    fn apply(&self, row: &mut WorkflowRun) -> (hit: bool) {
        if row.status == RunStatus::Running && is_past(&row.deadline_at, self.now) {
            row.status = RunStatus::Failed;
            row.finished_at = Some(self.now.to_owned());
            row.output = Some("run deadline exceeded (run_timeout_secs)".to_owned());
            true
        } else {
            false
        }
    }
}

struct RunId {}

impl Column<WorkflowRun> for RunId {
    closed spec fn value(&self, r: WorkflowRunView) -> Seq<char> {
        r.id
    }

    fn read(&self, row: &WorkflowRun) -> (s: String) {
        row.id.clone()
    }
}

/// The ids of the runs that satisfy `p`.
pub open spec fn ids_where(
    runs: Seq<WorkflowRunView>,
    p: spec_fn(WorkflowRunView) -> bool,
) -> Seq<Seq<char>> {
    places_where(runs, p).map_values(|i: int| runs[i].id)
}

/// Fails every running run past its deadline and cancels those of its tasks
/// that are not over.
pub fn cancel_overdue_runs(db: &mut Store, now: &str) -> (out: Vec<String>)
    ensures
        texts(out@) == ids_where(old(db)@.runs, |r: WorkflowRunView| overdue(r, now@)),
        final(db)@ == (StoreView {
            runs: amended(
                old(db)@.runs,
                |r: WorkflowRunView| overdue(r, now@),
                |r: WorkflowRunView| timed_out(r, now@),
            ),
            tasks: amended(
                old(db)@.tasks,
                |t: TaskRunView|
                    ids_where(old(db)@.runs, |r: WorkflowRunView| overdue(r, now@)).contains(
                        t.run_id,
                    ) && !t.status.terminal(),
                |t: TaskRunView| swept(t, now@),
            ),
            ..old(db)@
        }),
{
    let ghost was = db@;
    let rule: Overdue = Overdue { now };
    let q: Vec<usize> = select_all(&db.runs, &rule);
    let column: RunId = RunId {};
    let ids: Vec<String> = column_at(&db.runs, &q, q.len(), &column);
    assert(places(q@).take(q@.len() as int) =~= places(q@));
    let ghost p = |r: WorkflowRunView| overdue(r, now@);
    proof {
        assert(p =~= (|r: WorkflowRunView| rule.keeps(r)));
        assert(texts(ids@) =~= ids_where(was.runs, p));
    }
    let _ = update_all(&mut db.runs, &rule);
    let sweep: Sweep = Sweep { runs: &ids, now };
    let _ = update_all(&mut db.tasks, &sweep);
    assert(db@.runs =~= amended(was.runs, p, |r: WorkflowRunView| timed_out(r, now@)));
    assert(db@.tasks =~= amended(
        was.tasks,
        |t: TaskRunView| ids_where(was.runs, p).contains(t.run_id) && !t.status.terminal(),
        |t: TaskRunView| swept(t, now@),
    ));
    ids
}

/// A running run past its soft deadline that has raised no alert yet.
pub open spec fn alert_due(r: WorkflowRunView, now: Seq<char>) -> bool {
    r.status == RunStatus::Running && past(r.alert_deadline_at, now) && r.alert_fired_at is None
}

struct Alert<'a> {
    now: &'a str,
}

impl<'a> Keep<WorkflowRun> for Alert<'a> {
    closed spec fn keeps(&self, r: WorkflowRunView) -> bool {
        alert_due(r, self.now@)
    }

    fn keep(&self, row: &WorkflowRun) -> (r: bool) {
        row.status == RunStatus::Running && row.alert_fired_at.is_none() && is_past(
            &row.alert_deadline_at,
            self.now,
        )
    }
}

impl<'a> Rule<WorkflowRun> for Alert<'a> {
    closed spec fn hits(&self, r: WorkflowRunView) -> bool {
        alert_due(r, self.now@)
    }

    closed spec fn image(&self, r: WorkflowRunView) -> WorkflowRunView {
        WorkflowRunView { alert_fired_at: Some(self.now@), ..r }
    }

    closed spec fn fits(&self, r: WorkflowRunView) -> bool {
        true
    }

    fn apply(&self, row: &mut WorkflowRun) -> (hit: bool) {
        if row.status == RunStatus::Running && row.alert_fired_at.is_none() && is_past(
            &row.alert_deadline_at,
            self.now,
        ) {
            row.alert_fired_at = Some(self.now.to_owned());
            true
        } else {
            false
        }
    }
}

/// The event that reports a run past its soft deadline.
pub open spec fn alert_event(run_id: Seq<char>, id: Seq<char>, now: Seq<char>) -> OutboxRowView {
    new_event(
        id,
        run_id,
        "run.deadline_exceeded"@,
        payload_text("run_id"@, run_id, "reason"@, "deadline_exceeded"@),
        now,
    )
}

/// Raises one alert for every running run past its soft deadline, once; the
/// runs keep running. `event_ids` holds a fresh id for each run.
pub fn fire_deadline_alerts(db: &mut Store, event_ids: &Vec<String>, now: &str) -> (out: Vec<String>)
    requires
        event_ids@.len() >= old(db)@.runs.len(),
    ensures
        ({
            let was = old(db)@;
            let ids = ids_where(was.runs, |r: WorkflowRunView| alert_due(r, now@));
            &&& texts(out@) == ids
            &&& final(db)@ == (StoreView {
                runs: amended(
                    was.runs,
                    |r: WorkflowRunView| alert_due(r, now@),
                    |r: WorkflowRunView| WorkflowRunView { alert_fired_at: Some(now@), ..r },
                ),
                outbox: was.outbox + Seq::new(
                    ids.len(),
                    |k: int| alert_event(ids[k], event_ids@[k]@, now@),
                ),
                ..was
            })
        }),
{
    let ghost was = db@;
    let rule: Alert = Alert { now };
    let q: Vec<usize> = select_all(&db.runs, &rule);
    let column: RunId = RunId {};
    let ids: Vec<String> = column_at(&db.runs, &q, q.len(), &column);
    assert(places(q@).take(q@.len() as int) =~= places(q@));
    let ghost p = |r: WorkflowRunView| alert_due(r, now@);
    let ghost want = ids_where(was.runs, p);
    proof {
        assert(p =~= (|r: WorkflowRunView| rule.keeps(r)));
        assert(texts(ids@) =~= want);
    }
    let _ = update_all(&mut db.runs, &rule);
    let ghost runs_now = amended(
        was.runs,
        p,
        |r: WorkflowRunView| WorkflowRunView { alert_fired_at: Some(now@), ..r },
    );
    assert(db@.runs =~= runs_now);
    let ghost ev = |k: int| alert_event(want[k], event_ids@[k]@, now@);
    assert(was.outbox + Seq::new(0, ev) =~= was.outbox);
    let mut k: usize = 0;
    while k < ids.len()
        invariant
            k <= ids@.len(),
            texts(ids@) == want,
            ids@.len() <= event_ids@.len(),
            ev == (|k: int| alert_event(want[k], event_ids@[k]@, now@)),
            db@ == (StoreView {
                runs: runs_now,
                outbox: was.outbox + Seq::new(k as nat, ev),
                ..was
            }),
        decreases ids@.len() - k,
    {
        assert(want[k as int] == ids@[k as int]@);
        let payload: String = event_payload("run_id", ids[k].as_str(), "reason", "deadline_exceeded");
        enqueue_outbox_event(
            db,
            event_ids[k].as_str(),
            ids[k].as_str(),
            "run.deadline_exceeded",
            payload.as_str(),
            now,
        );
        assert((was.outbox + Seq::new(k as nat, ev)).push(ev(k as int)) =~= was.outbox + Seq::new(
            (k + 1) as nat,
            ev,
        ));
        k += 1;
    }
    assert(db@.outbox =~= was.outbox + Seq::new(
        want.len(),
        |k: int| alert_event(want[k], event_ids@[k]@, now@),
    ));
    ids
}

} // verus!
