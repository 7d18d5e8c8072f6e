//! Tasks that wait without a worker: approval gates, sub-workflows, and sensors
//! for a time or a URL.
use vstd::prelude::*;
use vstd::string::*;
use crate::claims::{time_before, time_sorts_before};
use crate::models::{RunStatus, TaskStatus};
use crate::order::{
    column_at, find_row, first, lemma_ordered_members, limit_of, limited, ordered, places,
    places_where, select, select_all, Column, Keep, Order,
};
use crate::rows::{views, TaskRun, TaskRunView, WorkflowRun, WorkflowRunView};
use crate::store::{due, is_due, Store, StoreView};
use crate::sweeps::{folded, lemma_settled_room, lemma_turn, taken};
use crate::table::{amended, any, lemma_any_same, update_any, Rule};
use crate::tasks::{deps_fit, is_running_at, running_at, settle, settled};
use crate::text::{same, texts};
use crate::time::{add_seconds, parse_rfc3339, rfc3339_value, shifted, Timestamp};

verus! {

// ── Approval gates ───────────────────────────────────────────────────────────

/// An approval gate of a run that awaits its decision.
pub open spec fn awaiting(t: TaskRunView, run_id: Seq<char>, id: Seq<char>) -> bool {
    t.id == id && t.run_id == run_id && t.status == TaskStatus::AwaitingApproval
}

/// The approval task once it is decided.
pub open spec fn decided(t: TaskRunView, approve: bool, now: Seq<char>) -> TaskRunView {
    TaskRunView {
        status: if approve { TaskStatus::Succeeded } else { TaskStatus::Failed },
        finished_at: Some(now),
        output: Some(if approve { "approved"@ } else { "rejected"@ }),
        ..t
    }
}

/// The store after a decision on a gate.
pub open spec fn after_decision(
    db: StoreView,
    run_id: Seq<char>,
    task_id: Seq<char>,
    approve: bool,
    now: Seq<char>,
) -> StoreView {
    settled(
        db,
        task_id,
        |t: TaskRunView| awaiting(t, run_id, task_id),
        |t: TaskRunView| decided(t, approve, now),
    )
}

struct ResolveGate<'a> {
    run_id: &'a str,
    task_id: &'a str,
    approve: bool,
    now: &'a str,
}

impl<'a> Rule<TaskRun> for ResolveGate<'a> {
    closed spec fn hits(&self, t: TaskRunView) -> bool {
        awaiting(t, self.run_id@, self.task_id@)
    }

    closed spec fn image(&self, t: TaskRunView) -> TaskRunView {
        decided(t, self.approve, self.now@)
    }

    closed spec fn fits(&self, t: TaskRunView) -> bool {
        true
    }

    fn apply(&self, row: &mut TaskRun) -> (hit: bool) {
        if row.status == TaskStatus::AwaitingApproval
            && same(row.id.as_str(), self.task_id)
            && same(row.run_id.as_str(), self.run_id)
        {
            row.status = if self.approve { TaskStatus::Succeeded } else { TaskStatus::Failed };
            row.finished_at = Some(self.now.to_owned());
            row.output = Some(if self.approve { "approved".to_owned() } else { "rejected".to_owned() });
            true
        } else {
            false
        }
    }
}

/// Approves or rejects a gate that awaits approval; its dependents wait for one
/// less. False where no such gate awaits it.
pub fn resolve_approval(db: &mut Store, run_id: &str, task_id: &str, approve: bool, now: &str) -> (done: bool)
    requires
        deps_fit(old(db)@.tasks, 1),
    ensures
        done == any(old(db)@.tasks, |t: TaskRunView| awaiting(t, run_id@, task_id@)),
        final(db)@ == after_decision(old(db)@, run_id@, task_id@, approve, now@),
{
    let ghost was = db@;
    let rule: ResolveGate = ResolveGate { run_id, task_id, approve, now };
    let done: bool = settle(db, &rule, task_id);
    assert(amended(was.tasks, |t: TaskRunView| rule.hits(t), |t: TaskRunView| rule.image(t))
        =~= amended(
        was.tasks,
        |t: TaskRunView| awaiting(t, run_id@, task_id@),
        |t: TaskRunView| decided(t, approve, now@),
    ));
    proof {
        lemma_any_same(
            was.tasks,
            |t: TaskRunView| rule.hits(t),
            |t: TaskRunView| awaiting(t, run_id@, task_id@),
        );
    }
    done
}

/// When a gate decides for itself.
pub enum GateDeadline {
    /// No readable start to count from.
    Unset,
    At(Timestamp),
    /// Earlier than the calendar reaches.
    Past,
    /// Later than the calendar reaches.
    Never,
}

/// A gate's deadline: its timeout after it began to wait.
pub open spec fn gate_deadline(t: TaskRunView) -> GateDeadline {
    match (t.scheduled_at, t.approval_timeout_secs) {
        (Some(at), Some(timeout)) => match rfc3339_value(at) {
            Ok((secs, nanos)) => match shifted(
                Timestamp { secs: secs as i64, nanos: nanos as u32 },
                timeout,
            ) {
                Some((secs, nanos)) => GateDeadline::At(
                    Timestamp { secs: secs as i64, nanos: nanos as u32 },
                ),
                None => if timeout < 0 { GateDeadline::Past } else { GateDeadline::Never },
            },
            Err(_) => GateDeadline::Unset,
        },
        _ => GateDeadline::Unset,
    }
}

/// A gate with a timeout that still awaits its approval.
pub open spec fn timed_gate(t: TaskRunView) -> bool {
    t.status == TaskStatus::AwaitingApproval && t.approval_timeout_secs is Some
}

/// A gate whose deadline has come.
pub open spec fn gate_expired(t: TaskRunView, now: Timestamp) -> bool {
    timed_gate(t) && match gate_deadline(t) {
        GateDeadline::At(d) => !now.precedes(d),
        GateDeadline::Past => true,
        GateDeadline::Never | GateDeadline::Unset => false,
    }
}

fn deadline_of(row: &TaskRun) -> (d: GateDeadline)
    ensures
        d == gate_deadline(row@),
{
    match (&row.scheduled_at, row.approval_timeout_secs) {
        (Some(at), Some(timeout)) => match parse_rfc3339(at.as_str()) {
            Ok(started) => match add_seconds(started, timeout) {
                Some(d) => GateDeadline::At(d),
                None => if timeout < 0 {
                    GateDeadline::Past
                } else {
                    GateDeadline::Never
                },
            },
            Err(_) => GateDeadline::Unset,
        },
        _ => GateDeadline::Unset,
    }
}

/// What the timeout of a gate decides.
pub struct GateTimeout {
    pub run_id: Seq<char>,
    pub id: Seq<char>,
    pub approve: bool,
}

/// The decisions that are due, in the order of the table; a gate rejects unless
/// it says otherwise.
pub open spec fn gate_timeouts(tasks: Seq<TaskRunView>, now: Timestamp) -> Seq<GateTimeout> {
    places_where(tasks, |t: TaskRunView| gate_expired(t, now)).map_values(
        |i: int|
            GateTimeout {
                run_id: tasks[i].run_id,
                id: tasks[i].id,
                approve: tasks[i].approval_on_timeout == Some("approve"@),
            },
    )
}

/// One decision made.
pub open spec fn decide_gate(now: Seq<char>) -> spec_fn(StoreView, GateTimeout) -> StoreView {
    |db: StoreView, g: GateTimeout| after_decision(db, g.run_id, g.id, g.approve, now)
}

/// It still awaits its decision.
pub open spec fn gate_open() -> spec_fn(StoreView, GateTimeout) -> bool {
    |db: StoreView, g: GateTimeout| any(db.tasks, |t: TaskRunView| awaiting(t, g.run_id, g.id))
}

/// What a sweep reports of rows it decided: their ids, and how.
pub open spec fn decisions(v: Seq<(String, bool)>) -> Seq<(Seq<char>, bool)> {
    v.map_values(|d: (String, bool)| (d.0@, d.1))
}

struct ExpiredGate {
    now: Timestamp,
}

impl Keep<TaskRun> for ExpiredGate {
    closed spec fn keeps(&self, t: TaskRunView) -> bool {
        gate_expired(t, self.now)
    }

    fn keep(&self, row: &TaskRun) -> (r: bool) {
        if row.status != TaskStatus::AwaitingApproval || row.approval_timeout_secs.is_none() {
            return false;
        }
        match deadline_of(row) {
            GateDeadline::At(d) => !self.now.is_before(&d),
            GateDeadline::Past => true,
            GateDeadline::Never | GateDeadline::Unset => false,
        }
    }
}

/// Decides every gate whose timeout has run out, each as it says itself. A gate
/// whose timeout ends later than the calendar reaches goes on waiting. `now` is
/// when the sweep looks, and `stamp` what it writes down.
pub fn resolve_expired_approvals(db: &mut Store, now: Timestamp, stamp: &str) -> (out: Vec<(String, bool)>)
    requires
        deps_fit(old(db)@.tasks, old(db)@.tasks.len() as int),
    ensures
        ({
            let was = old(db)@;
            let gates = gate_timeouts(was.tasks, now);
            &&& final(db)@ == folded(was, gates, decide_gate(stamp@))
            &&& decisions(out@) == taken(was, gates, decide_gate(stamp@), gate_open()).map_values(
                |g: GateTimeout| (g.id, g.approve),
            )
        }),
{
    let ghost was = db@;
    let ghost gates = gate_timeouts(was.tasks, now);
    let ghost step = decide_gate(stamp@);
    let ghost takes = gate_open();
    let ghost report = |g: GateTimeout| (g.id, g.approve);
    let keep: ExpiredGate = ExpiredGate { now };
    let q: Vec<usize> = select_all(&db.tasks, &keep);
    assert((|t: TaskRunView| gate_expired(t, now)) =~= (|t: TaskRunView| keep.keeps(t)));
    let mut items: Vec<(String, String, bool)> = Vec::new();
    let mut k: usize = 0;
    while k < q.len()
        invariant
            k <= q@.len(),
            k == items@.len(),
            db@ == was,
            gates == gate_timeouts(was.tasks, now),
            places(q@) == places_where(was.tasks, |t: TaskRunView| gate_expired(t, now)),
            forall|x: int| 0 <= x < q@.len() ==> #[trigger] q@[x] < was.tasks.len(),
            forall|x: int|
                0 <= x < k ==> (#[trigger] gates[x]).run_id == items@[x].0@ && gates[x].id
                    == items@[x].1@ && gates[x].approve == items@[x].2,
        decreases q@.len() - k,
    {
        let i: usize = q[k];
        let row: &TaskRun = &db.tasks[i];
        assert(was.tasks[i as int] == row@);
        assert(places(q@)[k as int] == i);
        let approve: bool = match &row.approval_on_timeout {
            Some(s) => same(s.as_str(), "approve"),
            None => false,
        };
        items.push((row.run_id.clone(), row.id.clone(), approve));
        k += 1;
    }
    let mut out: Vec<(String, bool)> = Vec::new();
    let mut n: usize = 0;
    assert(gates.take(0) =~= Seq::<GateTimeout>::empty());
    assert(decisions(out@) =~= taken(was, gates.take(0), step, takes).map_values(report));
    while n < items.len()
        invariant
            n <= items@.len(),
            items@.len() == gates.len(),
            gates.len() <= was.tasks.len(),
            step == decide_gate(stamp@),
            takes == gate_open(),
            report == (|g: GateTimeout| (g.id, g.approve)),
            forall|x: int|
                0 <= x < gates.len() ==> (#[trigger] gates[x]).run_id == items@[x].0@ && gates[x].id
                    == items@[x].1@ && gates[x].approve == items@[x].2,
            db@ == folded(was, gates.take(n as int), step),
            deps_fit(db@.tasks, was.tasks.len() - n),
            decisions(out@) == taken(was, gates.take(n as int), step, takes).map_values(report),
        decreases items@.len() - n,
    {
        let ghost now_db = db@;
        let ghost g = gates[n as int];
        proof {
            lemma_turn(was, gates, step, takes, n as int);
            lemma_settled_room(
                now_db,
                g.id,
                |t: TaskRunView| awaiting(t, g.run_id, g.id),
                |t: TaskRunView| TaskRunView {
                    status: if g.approve { TaskStatus::Succeeded } else { TaskStatus::Failed },
                    finished_at: Some(stamp@),
                    output: Some(if g.approve { "approved"@ } else { "rejected"@ }),
                    ..t
                },
                was.tasks.len() - n,
            );
        }
        let done: bool = resolve_approval(
            db,
            items[n].0.as_str(),
            items[n].1.as_str(),
            items[n].2,
            stamp,
        );
        if done {
            let ghost told = decisions(out@);
            out.push((items[n].1.clone(), items[n].2));
            assert(decisions(out@) =~= told.push(report(g)));
            assert(taken(was, gates.take(n as int), step, takes).push(g).map_values(report)
                =~= taken(was, gates.take(n as int), step, takes).map_values(report).push(report(g)));
        }
        n += 1;
    }
    assert(gates.take(gates.len() as int) =~= gates);
    out
}

// ── Sub-workflows ────────────────────────────────────────────────────────────

/// How deep a run sits in the chain of sub-workflows, counted up to `limit`: the
/// task that is parked on the run belongs to its parent.
pub open spec fn depth(tasks: Seq<TaskRunView>, run_id: Seq<char>, limit: int) -> int
    decreases limit,
{
    if limit <= 0 {
        0
    } else {
        match first(tasks, |t: TaskRunView| t.sub_run_id == Some(run_id)) {
            Some(t) => 1 + depth(tasks, t.run_id, limit - 1),
            None => 0,
        }
    }
}

struct ParkedOn<'a> {
    run_id: &'a str,
}

impl<'a> Keep<TaskRun> for ParkedOn<'a> {
    closed spec fn keeps(&self, t: TaskRunView) -> bool {
        t.sub_run_id == Some(self.run_id@)
    }

    fn keep(&self, row: &TaskRun) -> (r: bool) {
        match &row.sub_run_id {
            Some(id) => same(id.as_str(), self.run_id),
            None => false,
        }
    }
}

/// How deep `run_id` sits in the chain of sub-workflows, counted up to `limit`.
pub fn sub_workflow_depth(db: &Store, run_id: &str, limit: i64) -> (n: i64)
    ensures
        n == depth(db@.tasks, run_id@, limit as int),
{
    let mut current: String = run_id.to_owned();
    let mut n: i64 = 0;
    while n < limit
        invariant
            0 <= n,
            n <= limit || n == 0,
            depth(db@.tasks, run_id@, limit as int) == n + depth(db@.tasks, current@, limit - n),
        decreases limit - n,
    {
        let keep: ParkedOn = ParkedOn { run_id: current.as_str() };
        let found: Option<usize> = find_row(&db.tasks, &keep);
        assert((|t: TaskRunView| t.sub_run_id == Some(current@)) =~= (|t: TaskRunView|
            keep.keeps(t)));
        match found {
            Some(i) => {
                assert(db@.tasks[i as int] == db.tasks@[i as int]@);
                current = db.tasks[i].run_id.clone();
                n += 1;
            },
            None => {
                return n;
            },
        }
    }
    n
}

/// The walk up the chain of sub-workflows ends at its limit, whatever the rows say.
pub proof fn law_depth_bounded(tasks: Seq<TaskRunView>, run_id: Seq<char>, limit: int)
    ensures
        0 <= depth(tasks, run_id, limit),
        0 <= limit ==> depth(tasks, run_id, limit) <= limit,
    decreases limit,
{
    if limit > 0 {
        match first(tasks, |t: TaskRunView| t.sub_run_id == Some(run_id)) {
            Some(t) => {
                law_depth_bounded(tasks, t.run_id, limit - 1);
            },
            None => {},
        }
    }
}

/// The task waiting for the run it started: running, without a claim or a lease.
pub open spec fn waiting_for_run(t: TaskRunView, child: Seq<char>) -> TaskRunView {
    TaskRunView { sub_run_id: Some(child), claimed_by: None, lease_expires_at: None, ..t }
}

struct ParkChild<'a> {
    task_id: &'a str,
    fence: i64,
    child_run_id: &'a str,
}

impl<'a> Rule<TaskRun> for ParkChild<'a> {
    closed spec fn hits(&self, t: TaskRunView) -> bool {
        running_at(t, self.task_id@, self.fence as int)
    }

    closed spec fn image(&self, t: TaskRunView) -> TaskRunView {
        waiting_for_run(t, self.child_run_id@)
    }

    closed spec fn fits(&self, t: TaskRunView) -> bool {
        true
    }

    fn apply(&self, row: &mut TaskRun) -> (hit: bool) {
        if is_running_at(row, self.task_id, self.fence) {
            row.sub_run_id = Some(self.child_run_id.to_owned());
            row.claimed_by = None;
            row.lease_expires_at = None;
            true
        } else {
            false
        }
    }
}

/// Parks a claimed task on the run it started: it stays running without a claim
/// or a lease. False where the claim is gone.
pub fn park_subworkflow(db: &mut Store, task_id: &str, fence: i64, child_run_id: &str) -> (done: bool)
    ensures
        done == any(old(db)@.tasks, |t: TaskRunView| running_at(t, task_id@, fence as int)),
        final(db)@ == (StoreView {
            tasks: amended(
                old(db)@.tasks,
                |t: TaskRunView| running_at(t, task_id@, fence as int),
                |t: TaskRunView| waiting_for_run(t, child_run_id@),
            ),
            ..old(db)@
        }),
{
    let ghost was = db@;
    let rule: ParkChild = ParkChild { task_id, fence, child_run_id };
    let done: bool = update_any(&mut db.tasks, &rule);
    proof {
        lemma_any_same(
            was.tasks,
            |t: TaskRunView| rule.hits(t),
            |t: TaskRunView| running_at(t, task_id@, fence as int),
        );
    }
    assert(db@.tasks =~= amended(
        was.tasks,
        |t: TaskRunView| running_at(t, task_id@, fence as int),
        |t: TaskRunView| waiting_for_run(t, child_run_id@),
    ));
    done
}

struct ReleaseChild<'a> {
    task_id: &'a str,
    fence: i64,
}

impl<'a> Rule<TaskRun> for ReleaseChild<'a> {
    closed spec fn hits(&self, t: TaskRunView) -> bool {
        running_at(t, self.task_id@, self.fence as int)
    }

    closed spec fn image(&self, t: TaskRunView) -> TaskRunView {
        TaskRunView { status: TaskStatus::Ready, claimed_by: None, lease_expires_at: None, ..t }
    }

    closed spec fn fits(&self, t: TaskRunView) -> bool {
        true
    }

    fn apply(&self, row: &mut TaskRun) -> (hit: bool) {
        if is_running_at(row, self.task_id, self.fence) {
            row.status = TaskStatus::Ready;
            row.claimed_by = None;
            row.lease_expires_at = None;
            true
        } else {
            false
        }
    }
}

/// Puts a claimed task back in the queue whose child cannot start yet.
pub fn release_subworkflow_task(db: &mut Store, task_id: &str, fence: i64) -> (done: bool)
    ensures
        done == any(old(db)@.tasks, |t: TaskRunView| running_at(t, task_id@, fence as int)),
        final(db)@ == (StoreView {
            tasks: amended(
                old(db)@.tasks,
                |t: TaskRunView| running_at(t, task_id@, fence as int),
                |t: TaskRunView| TaskRunView {
                    status: TaskStatus::Ready,
                    claimed_by: None,
                    lease_expires_at: None,
                    ..t
                },
            ),
            ..old(db)@
        }),
{
    let ghost was = db@;
    let rule: ReleaseChild = ReleaseChild { task_id, fence };
    let done: bool = update_any(&mut db.tasks, &rule);
    proof {
        lemma_any_same(
            was.tasks,
            |t: TaskRunView| rule.hits(t),
            |t: TaskRunView| running_at(t, task_id@, fence as int),
        );
    }
    assert(db@.tasks =~= amended(
        was.tasks,
        |t: TaskRunView| running_at(t, task_id@, fence as int),
        |t: TaskRunView| TaskRunView {
            status: TaskStatus::Ready,
            claimed_by: None,
            lease_expires_at: None,
            ..t
        },
    ));
    done
}

/// A task parked on a child run.
pub open spec fn parked_on_child(t: TaskRunView, id: Seq<char>) -> bool {
    t.id == id && t.status == TaskStatus::Running && t.sub_run_id is Some
}

/// The task once the run it started has ended.
pub open spec fn child_ended(t: TaskRunView, succeeded: bool, now: Seq<char>) -> TaskRunView {
    TaskRunView {
        status: if succeeded { TaskStatus::Succeeded } else { TaskStatus::Failed },
        finished_at: Some(now),
        output: Some(if succeeded { "sub-workflow succeeded"@ } else { "sub-workflow failed"@ }),
        ..t
    }
}

/// The store after a child run ended.
pub open spec fn after_child(
    db: StoreView,
    task_id: Seq<char>,
    succeeded: bool,
    now: Seq<char>,
) -> StoreView {
    settled(
        db,
        task_id,
        |t: TaskRunView| parked_on_child(t, task_id),
        |t: TaskRunView| child_ended(t, succeeded, now),
    )
}

struct ResolveChild<'a> {
    task_id: &'a str,
    succeeded: bool,
    now: &'a str,
}

impl<'a> Rule<TaskRun> for ResolveChild<'a> {
    closed spec fn hits(&self, t: TaskRunView) -> bool {
        parked_on_child(t, self.task_id@)
    }

    closed spec fn image(&self, t: TaskRunView) -> TaskRunView {
        child_ended(t, self.succeeded, self.now@)
    }

    closed spec fn fits(&self, t: TaskRunView) -> bool {
        true
    }

    fn apply(&self, row: &mut TaskRun) -> (hit: bool) {
        if row.status == TaskStatus::Running
            && row.sub_run_id.is_some()
            && same(row.id.as_str(), self.task_id)
        {
            row.status = if self.succeeded { TaskStatus::Succeeded } else { TaskStatus::Failed };
            row.finished_at = Some(self.now.to_owned());
            row.output = Some(
                if self.succeeded { "sub-workflow succeeded".to_owned() } else { "sub-workflow failed".to_owned() },
            );
            true
        } else {
            false
        }
    }
}

/// Ends a task that is parked on a child run as the child ended.
pub fn resolve_subworkflow(db: &mut Store, task_id: &str, succeeded: bool, now: &str) -> (done: bool)
    requires
        deps_fit(old(db)@.tasks, 1),
    ensures
        done == any(old(db)@.tasks, |t: TaskRunView| parked_on_child(t, task_id@)),
        final(db)@ == after_child(old(db)@, task_id@, succeeded, now@),
{
    let ghost was = db@;
    let rule: ResolveChild = ResolveChild { task_id, succeeded, now };
    let done: bool = settle(db, &rule, task_id);
    assert(amended(was.tasks, |t: TaskRunView| rule.hits(t), |t: TaskRunView| rule.image(t))
        =~= amended(
        was.tasks,
        |t: TaskRunView| parked_on_child(t, task_id@),
        |t: TaskRunView| child_ended(t, succeeded, now@),
    ));
    proof {
        lemma_any_same(
            was.tasks,
            |t: TaskRunView| rule.hits(t),
            |t: TaskRunView| parked_on_child(t, task_id@),
        );
    }
    done
}

/// How the run `id` has ended, if it has.
pub open spec fn run_verdict(runs: Seq<WorkflowRunView>, id: Seq<char>) -> Option<bool> {
    match first(runs, |r: WorkflowRunView| r.id == id) {
        Some(r) => match r.status {
            RunStatus::Succeeded => Some(true),
            RunStatus::Failed | RunStatus::Cancelled => Some(false),
            _ => None,
        },
        None => None,
    }
}

/// A parked task whose child run has ended.
pub open spec fn child_over(runs: Seq<WorkflowRunView>, t: TaskRunView) -> bool {
    t.status == TaskStatus::Running && t.sub_run_id is Some && run_verdict(runs, t.sub_run_id->0) is Some
}

/// The parked tasks whose children have ended, each with how.
pub open spec fn ended_children(db: StoreView) -> Seq<(Seq<char>, bool)> {
    places_where(db.tasks, |t: TaskRunView| child_over(db.runs, t)).map_values(
        |i: int| (db.tasks[i].id, run_verdict(db.runs, db.tasks[i].sub_run_id->0)->0),
    )
}

/// One parked task ended as its child.
pub open spec fn end_parent(now: Seq<char>) -> spec_fn(StoreView, (Seq<char>, bool)) -> StoreView {
    |db: StoreView, c: (Seq<char>, bool)| after_child(db, c.0, c.1, now)
}

/// The task is still parked.
pub open spec fn still_parked() -> spec_fn(StoreView, (Seq<char>, bool)) -> bool {
    |db: StoreView, c: (Seq<char>, bool)| any(db.tasks, |t: TaskRunView| parked_on_child(t, c.0))
}

struct RunNamed<'a> {
    id: &'a str,
}

impl<'a> Keep<WorkflowRun> for RunNamed<'a> {
    closed spec fn keeps(&self, r: WorkflowRunView) -> bool {
        r.id == self.id@
    }

    fn keep(&self, row: &WorkflowRun) -> (r: bool) {
        same(row.id.as_str(), self.id)
    }
}

fn verdict_of(runs: &Vec<WorkflowRun>, id: &str) -> (r: Option<bool>)
    ensures
        r == run_verdict(views(runs@), id@),
{
    let keep: RunNamed = RunNamed { id };
    let found: Option<usize> = find_row(runs, &keep);
    assert((|r: WorkflowRunView| r.id == id@) =~= (|r: WorkflowRunView| keep.keeps(r)));
    match found {
        Some(i) => {
            assert(views(runs@)[i as int] == runs@[i as int]@);
            match runs[i].status {
                RunStatus::Succeeded => Some(true),
                RunStatus::Failed | RunStatus::Cancelled => Some(false),
                _ => None,
            }
        },
        None => None,
    }
}

struct ChildOver<'a> {
    runs: &'a Vec<WorkflowRun>,
}

impl<'a> Keep<TaskRun> for ChildOver<'a> {
    closed spec fn keeps(&self, t: TaskRunView) -> bool {
        child_over(views(self.runs@), t)
    }

    fn keep(&self, row: &TaskRun) -> (r: bool) {
        if row.status != TaskStatus::Running {
            return false;
        }
        match &row.sub_run_id {
            Some(child) => verdict_of(self.runs, child.as_str()).is_some(),
            None => false,
        }
    }
}

/// Ends every parked task whose child run has ended, as the child ended.
pub fn reconcile_subworkflows(db: &mut Store, now: &str) -> (out: Vec<(String, bool)>)
    requires
        deps_fit(old(db)@.tasks, old(db)@.tasks.len() as int),
    ensures
        ({
            let was = old(db)@;
            let over = ended_children(was);
            &&& final(db)@ == folded(was, over, end_parent(now@))
            &&& decisions(out@) == taken(was, over, end_parent(now@), still_parked())
        }),
{
    let ghost was = db@;
    let ghost over = ended_children(was);
    let ghost step = end_parent(now@);
    let ghost takes = still_parked();
    let keep: ChildOver = ChildOver { runs: &db.runs };
    let q: Vec<usize> = select_all(&db.tasks, &keep);
    assert((|t: TaskRunView| child_over(was.runs, t)) =~= (|t: TaskRunView| keep.keeps(t)));
    let mut items: Vec<(String, bool)> = Vec::new();
    let mut k: usize = 0;
    while k < q.len()
        invariant
            k <= q@.len(),
            k == items@.len(),
            db@ == was,
            over == ended_children(was),
            places(q@) == places_where(was.tasks, |t: TaskRunView| child_over(was.runs, t)),
            forall|x: int| 0 <= x < q@.len() ==> #[trigger] q@[x] < was.tasks.len(),
            forall|x: int| 0 <= x < q@.len() ==> child_over(was.runs, (#[trigger] db.tasks@[places(q@)[x]])@),
            forall|x: int|
                0 <= x < k ==> (#[trigger] over[x]).0 == items@[x].0@ && over[x].1 == items@[x].1,
        decreases q@.len() - k,
    {
        let i: usize = q[k];
        let row: &TaskRun = &db.tasks[i];
        assert(was.tasks[i as int] == row@);
        assert(places(q@)[k as int] == i);
        assert(child_over(was.runs, db.tasks@[places(q@)[k as int]]@));
        let verdict: bool = match &row.sub_run_id {
            Some(child) => match verdict_of(&db.runs, child.as_str()) {
                Some(v) => v,
                None => false,
            },
            None => false,
        };
        items.push((row.id.clone(), verdict));
        k += 1;
    }
    let mut out: Vec<(String, bool)> = Vec::new();
    let mut n: usize = 0;
    assert(over.take(0) =~= Seq::<(Seq<char>, bool)>::empty());
    assert(decisions(out@) =~= taken(was, over.take(0), step, takes));
    while n < items.len()
        invariant
            n <= items@.len(),
            items@.len() == over.len(),
            over.len() <= was.tasks.len(),
            step == end_parent(now@),
            takes == still_parked(),
            forall|x: int|
                0 <= x < over.len() ==> (#[trigger] over[x]).0 == items@[x].0@ && over[x].1 == items@[x].1,
            db@ == folded(was, over.take(n as int), step),
            deps_fit(db@.tasks, was.tasks.len() - n),
            decisions(out@) == taken(was, over.take(n as int), step, takes),
        decreases items@.len() - n,
    {
        let ghost now_db = db@;
        let ghost c = over[n as int];
        proof {
            lemma_turn(was, over, step, takes, n as int);
            lemma_settled_room(
                now_db,
                c.0,
                |t: TaskRunView| parked_on_child(t, c.0),
                |t: TaskRunView| TaskRunView {
                    status: if c.1 { TaskStatus::Succeeded } else { TaskStatus::Failed },
                    finished_at: Some(now@),
                    output: Some(if c.1 { "sub-workflow succeeded"@ } else { "sub-workflow failed"@ }),
                    ..t
                },
                was.tasks.len() - n,
            );
        }
        let done: bool = resolve_subworkflow(db, items[n].0.as_str(), items[n].1, now);
        if done {
            let ghost told = decisions(out@);
            out.push((items[n].0.clone(), items[n].1));
            assert(decisions(out@) =~= told.push(c));
        }
        n += 1;
    }
    assert(over.take(over.len() as int) =~= over);
    out
}

// ── Time sensors ─────────────────────────────────────────────────────────────

/// The sensor waiting for an instant: running, without a claim or a lease.
pub open spec fn waiting_until(t: TaskRunView, wake_at: Seq<char>) -> TaskRunView {
    TaskRunView { wake_at: Some(wake_at), claimed_by: None, lease_expires_at: None, ..t }
}

struct ParkUntil<'a> {
    task_id: &'a str,
    fence: i64,
    wake_at: &'a str,
}

impl<'a> Rule<TaskRun> for ParkUntil<'a> {
    closed spec fn hits(&self, t: TaskRunView) -> bool {
        running_at(t, self.task_id@, self.fence as int)
    }

    closed spec fn image(&self, t: TaskRunView) -> TaskRunView {
        waiting_until(t, self.wake_at@)
    }

    closed spec fn fits(&self, t: TaskRunView) -> bool {
        true
    }

    fn apply(&self, row: &mut TaskRun) -> (hit: bool) {
        if is_running_at(row, self.task_id, self.fence) {
            row.wake_at = Some(self.wake_at.to_owned());
            row.claimed_by = None;
            row.lease_expires_at = None;
            true
        } else {
            false
        }
    }
}

/// Parks a claimed sensor until `wake_at`: it stays running without a claim or a
/// lease. False where the claim is gone.
pub fn park_wait(db: &mut Store, task_id: &str, fence: i64, wake_at: &str) -> (done: bool)
    ensures
        done == any(old(db)@.tasks, |t: TaskRunView| running_at(t, task_id@, fence as int)),
        final(db)@ == (StoreView {
            tasks: amended(
                old(db)@.tasks,
                |t: TaskRunView| running_at(t, task_id@, fence as int),
                |t: TaskRunView| waiting_until(t, wake_at@),
            ),
            ..old(db)@
        }),
{
    let ghost was = db@;
    let rule: ParkUntil = ParkUntil { task_id, fence, wake_at };
    let done: bool = update_any(&mut db.tasks, &rule);
    proof {
        lemma_any_same(
            was.tasks,
            |t: TaskRunView| rule.hits(t),
            |t: TaskRunView| running_at(t, task_id@, fence as int),
        );
    }
    assert(db@.tasks =~= amended(
        was.tasks,
        |t: TaskRunView| running_at(t, task_id@, fence as int),
        |t: TaskRunView| waiting_until(t, wake_at@),
    ));
    done
}

/// A sensor whose time has come.
pub open spec fn wait_over(t: TaskRunView, now: Seq<char>) -> bool {
    t.status == TaskStatus::Running && due(t.wake_at, now)
}

/// The sensor once its time has come.
pub open spec fn elapsed_wait(t: TaskRunView, now: Seq<char>) -> TaskRunView {
    TaskRunView {
        status: TaskStatus::Succeeded,
        finished_at: Some(now),
        output: Some("wait elapsed"@),
        ..t
    }
}

/// The store after a sensor's time has come.
pub open spec fn after_wait(
    db: StoreView,
    task_id: Seq<char>,
    now: Seq<char>,
) -> StoreView {
    settled(
        db,
        task_id,
        |t: TaskRunView| t.id == task_id && wait_over(t, now),
        |t: TaskRunView| elapsed_wait(t, now),
    )
}

struct EndWait<'a> {
    task_id: &'a str,
    now: &'a str,
}

impl<'a> Rule<TaskRun> for EndWait<'a> {
    closed spec fn hits(&self, t: TaskRunView) -> bool {
        t.id == self.task_id@ && wait_over(t, self.now@)
    }

    closed spec fn image(&self, t: TaskRunView) -> TaskRunView {
        elapsed_wait(t, self.now@)
    }

    closed spec fn fits(&self, t: TaskRunView) -> bool {
        true
    }

    fn apply(&self, row: &mut TaskRun) -> (hit: bool) {
        if row.status == TaskStatus::Running
            && is_due(&row.wake_at, self.now)
            && same(row.id.as_str(), self.task_id)
        {
            row.status = TaskStatus::Succeeded;
            row.finished_at = Some(self.now.to_owned());
            row.output = Some("wait elapsed".to_owned());
            true
        } else {
            false
        }
    }
}

/// Ends a sensor whose time has come.
fn end_wait(db: &mut Store, task_id: &str, now: &str) -> (done: bool)
    requires
        deps_fit(old(db)@.tasks, 1),
    ensures
        done == any(old(db)@.tasks, |t: TaskRunView| t.id == task_id@ && wait_over(t, now@)),
        final(db)@ == after_wait(old(db)@, task_id@, now@),
{
    let ghost was = db@;
    let rule: EndWait = EndWait { task_id, now };
    let done: bool = settle(db, &rule, task_id);
    assert(amended(was.tasks, |t: TaskRunView| rule.hits(t), |t: TaskRunView| rule.image(t))
        =~= amended(
        was.tasks,
        |t: TaskRunView| t.id == task_id@ && wait_over(t, now@),
        |t: TaskRunView| elapsed_wait(t, now@),
    ));
    proof {
        lemma_any_same(
            was.tasks,
            |t: TaskRunView| rule.hits(t),
            |t: TaskRunView| t.id == task_id@ && wait_over(t, now@),
        );
    }
    done
}

/// The sensors whose time has come.
pub open spec fn waits_over(tasks: Seq<TaskRunView>, now: Seq<char>) -> Seq<Seq<char>> {
    places_where(tasks, |t: TaskRunView| wait_over(t, now)).map_values(|i: int| tasks[i].id)
}

/// One sensor ended.
pub open spec fn end_sensor(now: Seq<char>) -> spec_fn(StoreView, Seq<char>) -> StoreView {
    |db: StoreView, id: Seq<char>| after_wait(db, id, now)
}

/// The sensor still waits.
pub open spec fn still_waits(now: Seq<char>) -> spec_fn(StoreView, Seq<char>) -> bool {
    |db: StoreView, id: Seq<char>| any(db.tasks, |t: TaskRunView| t.id == id && wait_over(t, now))
}

struct WaitOver<'a> {
    now: &'a str,
}

impl<'a> Keep<TaskRun> for WaitOver<'a> {
    closed spec fn keeps(&self, t: TaskRunView) -> bool {
        wait_over(t, self.now@)
    }

    fn keep(&self, row: &TaskRun) -> (r: bool) {
        row.status == TaskStatus::Running && is_due(&row.wake_at, self.now)
    }
}

pub struct TaskId {}

impl Column<TaskRun> for TaskId {
    open spec fn value(&self, t: TaskRunView) -> Seq<char> {
        t.id
    }

    fn read(&self, row: &TaskRun) -> (s: String) {
        row.id.clone()
    }
}

/// Ends every time sensor whose time has come; the dependents of each wait for
/// one less.
pub fn reconcile_waits(db: &mut Store, now: &str) -> (out: Vec<String>)
    requires
        deps_fit(old(db)@.tasks, old(db)@.tasks.len() as int),
    ensures
        ({
            let was = old(db)@;
            let over = waits_over(was.tasks, now@);
            &&& final(db)@ == folded(was, over, end_sensor(now@))
            &&& texts(out@) == taken(was, over, end_sensor(now@), still_waits(now@))
        }),
{
    let ghost was = db@;
    let ghost over = waits_over(was.tasks, now@);
    let ghost step = end_sensor(now@);
    let ghost takes = still_waits(now@);
    let keep: WaitOver = WaitOver { now };
    let q: Vec<usize> = select_all(&db.tasks, &keep);
    let column: TaskId = TaskId {};
    let ids: Vec<String> = column_at(&db.tasks, &q, q.len(), &column);
    assert(places(q@).take(q@.len() as int) =~= places(q@));
    assert((|t: TaskRunView| wait_over(t, now@)) =~= (|t: TaskRunView| keep.keeps(t)));
    assert(texts(ids@) =~= over);
    let mut out: Vec<String> = Vec::new();
    let mut n: usize = 0;
    assert(over.take(0) =~= Seq::<Seq<char>>::empty());
    assert(texts(out@) =~= taken(was, over.take(0), step, takes));
    while n < ids.len()
        invariant
            n <= ids@.len(),
            texts(ids@) == over,
            over.len() <= was.tasks.len(),
            step == end_sensor(now@),
            takes == still_waits(now@),
            db@ == folded(was, over.take(n as int), step),
            deps_fit(db@.tasks, was.tasks.len() - n),
            texts(out@) == taken(was, over.take(n as int), step, takes),
        decreases ids@.len() - n,
    {
        let ghost now_db = db@;
        let ghost id = over[n as int];
        proof {
            assert(over[n as int] == ids@[n as int]@);
            lemma_turn(was, over, step, takes, n as int);
            lemma_settled_room(
                now_db,
                id,
                |t: TaskRunView| t.id == id && wait_over(t, now@),
                |t: TaskRunView| elapsed_wait(t, now@),
                was.tasks.len() - n,
            );
        }
        let done: bool = end_wait(db, ids[n].as_str(), now);
        if done {
            let ghost told = texts(out@);
            out.push(ids[n].clone());
            assert(texts(out@) =~= told.push(id));
        }
        n += 1;
    }
    assert(over.take(over.len() as int) =~= over);
    out
}

// ── URL sensors ──────────────────────────────────────────────────────────────

/// The sensor waiting for a URL: running, without a claim or a lease.
pub open spec fn waiting_for_url(t: TaskRunView, url: Seq<char>, next_poll_at: Seq<char>) -> TaskRunView {
    TaskRunView {
        wait_url: Some(url),
        next_poll_at: Some(next_poll_at),
        claimed_by: None,
        lease_expires_at: None,
        ..t
    }
}

struct ParkUrl<'a> {
    task_id: &'a str,
    fence: i64,
    url: &'a str,
    next_poll_at: &'a str,
}

impl<'a> Rule<TaskRun> for ParkUrl<'a> {
    closed spec fn hits(&self, t: TaskRunView) -> bool {
        running_at(t, self.task_id@, self.fence as int)
    }

    closed spec fn image(&self, t: TaskRunView) -> TaskRunView {
        waiting_for_url(t, self.url@, self.next_poll_at@)
    }

    closed spec fn fits(&self, t: TaskRunView) -> bool {
        true
    }

    fn apply(&self, row: &mut TaskRun) -> (hit: bool) {
        if is_running_at(row, self.task_id, self.fence) {
            row.wait_url = Some(self.url.to_owned());
            row.next_poll_at = Some(self.next_poll_at.to_owned());
            row.claimed_by = None;
            row.lease_expires_at = None;
            true
        } else {
            false
        }
    }
}

/// Parks a claimed sensor on a URL that is next polled at `next_poll_at`.
pub fn park_wait_url(db: &mut Store, task_id: &str, fence: i64, url: &str, next_poll_at: &str) -> (done: bool)
    ensures
        done == any(old(db)@.tasks, |t: TaskRunView| running_at(t, task_id@, fence as int)),
        final(db)@ == (StoreView {
            tasks: amended(
                old(db)@.tasks,
                |t: TaskRunView| running_at(t, task_id@, fence as int),
                |t: TaskRunView| waiting_for_url(t, url@, next_poll_at@),
            ),
            ..old(db)@
        }),
{
    let ghost was = db@;
    let rule: ParkUrl = ParkUrl { task_id, fence, url, next_poll_at };
    let done: bool = update_any(&mut db.tasks, &rule);
    proof {
        lemma_any_same(
            was.tasks,
            |t: TaskRunView| rule.hits(t),
            |t: TaskRunView| running_at(t, task_id@, fence as int),
        );
    }
    assert(db@.tasks =~= amended(
        was.tasks,
        |t: TaskRunView| running_at(t, task_id@, fence as int),
        |t: TaskRunView| waiting_for_url(t, url@, next_poll_at@),
    ));
    done
}

/// A sensor parked on a URL.
pub open spec fn parked_on_url(t: TaskRunView, id: Seq<char>) -> bool {
    t.id == id && t.status == TaskStatus::Running && t.wait_url is Some
}

/// A URL sensor that is due for a poll.
pub open spec fn poll_due(t: TaskRunView, now: Seq<char>) -> bool {
    t.status == TaskStatus::Running && t.wait_url is Some && (t.next_poll_at is None || due(
        t.next_poll_at,
        now,
    ))
}

/// The next polls: the longest due first.
pub open spec fn due_polls(tasks: Seq<TaskRunView>, limit: int, now: Seq<char>) -> Seq<int> {
    limited(
        ordered(
            tasks,
            |t: TaskRunView| poll_due(t, now),
            |a: TaskRunView, b: TaskRunView| time_before(a.next_poll_at, b.next_poll_at),
            tasks.len() as int,
        ),
        limit,
    )
}

/// Pairs of texts.
pub open spec fn text_pairs(v: Seq<(String, String)>) -> Seq<(Seq<char>, Seq<char>)> {
    v.map_values(|p: (String, String)| (p.0@, p.1@))
}

struct PollDue<'a> {
    now: &'a str,
}

impl<'a> Keep<TaskRun> for PollDue<'a> {
    closed spec fn keeps(&self, t: TaskRunView) -> bool {
        poll_due(t, self.now@)
    }

    fn keep(&self, row: &TaskRun) -> (r: bool) {
        row.status == TaskStatus::Running && row.wait_url.is_some() && (row.next_poll_at.is_none()
            || is_due(&row.next_poll_at, self.now))
    }
}

struct ByNextPoll {}

impl Order<TaskRun> for ByNextPoll {
    closed spec fn lt(&self, a: TaskRunView, b: TaskRunView) -> bool {
        time_before(a.next_poll_at, b.next_poll_at)
    }

    fn sorts_before(&self, a: &TaskRun, b: &TaskRun) -> (r: bool) {
        time_sorts_before(&a.next_poll_at, &b.next_poll_at)
    }
}

/// Up to `limit` URL sensors that are due for a poll, each with its URL.
pub fn due_url_waits(db: &Store, limit: i64, now: &str) -> (out: Vec<(String, String)>)
    ensures
        text_pairs(out@) == due_polls(db@.tasks, limit as int, now@).map_values(
            |i: int| (db@.tasks[i].id, db@.tasks[i].wait_url->0),
        ),
{
    let ghost all = db@.tasks;
    let keep: PollDue = PollDue { now };
    let order: ByNextPoll = ByNextPoll {};
    let q: Vec<usize> = select(&db.tasks, &keep, &order);
    let len: usize = limit_of(q.len(), limit);
    let ghost line = due_polls(all, limit as int, now@);
    let ghost f = |i: int| (all[i].id, all[i].wait_url->0);
    proof {
        let p = |t: TaskRunView| poll_due(t, now@);
        let lt = |a: TaskRunView, b: TaskRunView| time_before(a.next_poll_at, b.next_poll_at);
        assert(p =~= (|t: TaskRunView| keep.keeps(t)));
        assert(lt =~= (|a: TaskRunView, b: TaskRunView| order.lt(a, b)));
        lemma_ordered_members(all, p, lt, all.len() as int);
        assert(line =~= places(q@).take(len as int));
        assert forall|k: int| 0 <= k < q@.len() implies poll_due(#[trigger] all[places(q@)[k]], now@) by {
            assert(places(q@).contains(places(q@)[k]));
        }
    }
    let mut out: Vec<(String, String)> = Vec::new();
    let mut k: usize = 0;
    assert(text_pairs(out@) =~= line.take(0).map_values(f));
    while k < len
        invariant
            k <= len <= q@.len(),
            all == db@.tasks,
            f == (|i: int| (all[i].id, all[i].wait_url->0)),
            line == places(q@).take(len as int),
            forall|x: int| 0 <= x < q@.len() ==> #[trigger] q@[x] < all.len(),
            forall|x: int| 0 <= x < q@.len() ==> poll_due(#[trigger] all[places(q@)[x]], now@),
            text_pairs(out@) == line.take(k as int).map_values(f),
        decreases len - k,
    {
        let i: usize = q[k];
        let row: &TaskRun = &db.tasks[i];
        assert(all[i as int] == row@);
        assert(places(q@)[k as int] == i);
        assert(line[k as int] == i);
        assert(poll_due(all[places(q@)[k as int]], now@));
        let url: String = match &row.wait_url {
            Some(url) => url.clone(),
            None => String::new(),
        };
        let ghost told = text_pairs(out@);
        out.push((row.id.clone(), url));
        assert(text_pairs(out@) =~= told.push(f(i as int)));
        assert(line.take(k as int + 1) =~= line.take(k as int).push(i as int));
        assert(line.take(k as int + 1).map_values(f) =~= line.take(k as int).map_values(f).push(
            f(i as int),
        ));
        k += 1;
    }
    assert(line.take(len as int) =~= line);
    out
}

struct Repark<'a> {
    task_id: &'a str,
    next_poll_at: &'a str,
}

impl<'a> Rule<TaskRun> for Repark<'a> {
    closed spec fn hits(&self, t: TaskRunView) -> bool {
        parked_on_url(t, self.task_id@)
    }

    closed spec fn image(&self, t: TaskRunView) -> TaskRunView {
        TaskRunView { next_poll_at: Some(self.next_poll_at@), ..t }
    }

    closed spec fn fits(&self, t: TaskRunView) -> bool {
        true
    }

    fn apply(&self, row: &mut TaskRun) -> (hit: bool) {
        if row.status == TaskStatus::Running
            && row.wait_url.is_some()
            && same(row.id.as_str(), self.task_id)
        {
            row.next_poll_at = Some(self.next_poll_at.to_owned());
            true
        } else {
            false
        }
    }
}

/// Puts off the next poll of a URL sensor.
pub fn repark_url_wait(db: &mut Store, task_id: &str, next_poll_at: &str) -> (done: bool)
    ensures
        done == any(old(db)@.tasks, |t: TaskRunView| parked_on_url(t, task_id@)),
        final(db)@ == (StoreView {
            tasks: amended(
                old(db)@.tasks,
                |t: TaskRunView| parked_on_url(t, task_id@),
                |t: TaskRunView| TaskRunView { next_poll_at: Some(next_poll_at@), ..t },
            ),
            ..old(db)@
        }),
{
    let ghost was = db@;
    let rule: Repark = Repark { task_id, next_poll_at };
    let done: bool = update_any(&mut db.tasks, &rule);
    proof {
        lemma_any_same(was.tasks, |t: TaskRunView| rule.hits(t), |t: TaskRunView| parked_on_url(t, task_id@));
    }
    assert(db@.tasks =~= amended(
        was.tasks,
        |t: TaskRunView| parked_on_url(t, task_id@),
        |t: TaskRunView| TaskRunView { next_poll_at: Some(next_poll_at@), ..t },
    ));
    done
}

/// The sensor once its URL answered.
pub open spec fn url_answered(t: TaskRunView, now: Seq<char>) -> TaskRunView {
    TaskRunView {
        status: TaskStatus::Succeeded,
        finished_at: Some(now),
        output: Some("wait url ready"@),
        ..t
    }
}

/// The store after a URL sensor's endpoint is ready.
pub open spec fn after_url(
    db: StoreView,
    task_id: Seq<char>,
    now: Seq<char>,
) -> StoreView {
    settled(
        db,
        task_id,
        |t: TaskRunView| parked_on_url(t, task_id),
        |t: TaskRunView| url_answered(t, now),
    )
}

struct ResolveUrl<'a> {
    task_id: &'a str,
    now: &'a str,
}

impl<'a> Rule<TaskRun> for ResolveUrl<'a> {
    closed spec fn hits(&self, t: TaskRunView) -> bool {
        parked_on_url(t, self.task_id@)
    }

    closed spec fn image(&self, t: TaskRunView) -> TaskRunView {
        url_answered(t, self.now@)
    }

    closed spec fn fits(&self, t: TaskRunView) -> bool {
        true
    }

    fn apply(&self, row: &mut TaskRun) -> (hit: bool) {
        if row.status == TaskStatus::Running
            && row.wait_url.is_some()
            && same(row.id.as_str(), self.task_id)
        {
            row.status = TaskStatus::Succeeded;
            row.finished_at = Some(self.now.to_owned());
            row.output = Some("wait url ready".to_owned());
            true
        } else {
            false
        }
    }
}

/// Ends a URL sensor whose endpoint is ready.
pub fn resolve_url_wait(db: &mut Store, task_id: &str, now: &str) -> (done: bool)
    requires
        deps_fit(old(db)@.tasks, 1),
    ensures
        done == any(old(db)@.tasks, |t: TaskRunView| parked_on_url(t, task_id@)),
        final(db)@ == after_url(old(db)@, task_id@, now@),
{
    let ghost was = db@;
    let rule: ResolveUrl = ResolveUrl { task_id, now };
    let done: bool = settle(db, &rule, task_id);
    assert(amended(was.tasks, |t: TaskRunView| rule.hits(t), |t: TaskRunView| rule.image(t))
        =~= amended(
        was.tasks,
        |t: TaskRunView| parked_on_url(t, task_id@),
        |t: TaskRunView| url_answered(t, now@),
    ));
    proof {
        lemma_any_same(was.tasks, |t: TaskRunView| rule.hits(t), |t: TaskRunView| parked_on_url(t, task_id@));
    }
    done
}

} // verus!
