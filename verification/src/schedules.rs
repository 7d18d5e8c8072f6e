//! Schedules, backfills, and the ledger of automatic reruns.
use vstd::prelude::*;
use vstd::string::*;
use crate::claims::{time_before, time_sorts_before};
use crate::datasets::opt_text;
use crate::models::RunStatus;
use crate::order::{
    column_at, copy_at, count_rows, find_row, first, lemma_first, limit_of, limited, ordered,
    places, places_where, rows_at, select, select_all, Column, Keep, Order,
};
use crate::rows::{
    views, BackfillJob, BackfillJobView, BackfillSlot, BackfillSlotView, RegisteredWorkflow,
    RegisteredWorkflowView, Row, RunRerun, RunRerunView, Schedule, ScheduleView, WorkflowRun,
    WorkflowRunView,
};
use crate::store::{due, is_due, is_past, past, Store, StoreView};
use crate::table::{amended, any, count, delete_all, lemma_any_same, update_all, update_any, Rule};
use crate::text::{before, lex_lt, same, texts};

verus! {

// ── Schedules ────────────────────────────────────────────────────────────────

/// The workflow of a schedule, where it is active: one that is paused or retired
/// does not fire.
pub open spec fn active_workflow(workflows: Seq<RegisteredWorkflowView>, id: Seq<char>) -> Option<
    RegisteredWorkflowView,
> {
    first(workflows, |w: RegisteredWorkflowView| w.id == id && w.state == "active"@)
}

struct ActiveWorkflow<'a> {
    id: &'a str,
}

impl<'a> Keep<RegisteredWorkflow> for ActiveWorkflow<'a> {
    closed spec fn keeps(&self, r: RegisteredWorkflowView) -> bool {
        r.id == self.id@ && r.state == "active"@
    }

    fn keep(&self, row: &RegisteredWorkflow) -> (r: bool) {
        same(row.id.as_str(), self.id) && same(row.state.as_str(), "active")
    }
}

fn find_active(workflows: &Vec<RegisteredWorkflow>, id: &str) -> (r: Option<usize>)
    ensures
        match r {
            Some(i) => i < workflows@.len() && active_workflow(views(workflows@), id@) == Some(
                views(workflows@)[i as int],
            ),
            None => active_workflow(views(workflows@), id@) is None,
        },
{
    let keep: ActiveWorkflow = ActiveWorkflow { id };
    assert((|w: RegisteredWorkflowView| w.id == id@ && w.state == "active"@) =~= (
    |w: RegisteredWorkflowView| keep.keeps(w)));
    find_row(workflows, &keep)
}

/// A schedule that is due, with the text of its workflow.
#[derive(Debug, Clone)]
pub struct DueSchedule {
    pub schedule: Schedule,
    pub spec: String,
}

#[verifier::ext_equal]
pub struct DueScheduleView {
    pub schedule: ScheduleView,
    pub spec: Seq<char>,
}

impl View for DueSchedule {
    type V = DueScheduleView;

    open spec fn view(&self) -> DueScheduleView {
        DueScheduleView { schedule: self.schedule@, spec: self.spec@ }
    }
}

/// An enabled schedule of an active workflow that is due.
pub open spec fn schedule_due(
    workflows: Seq<RegisteredWorkflowView>,
    s: ScheduleView,
    now: Seq<char>,
) -> bool {
    s.enabled && due(s.next_fire_at, now) && active_workflow(workflows, s.workflow_id) is Some
}

/// An enabled schedule of an active workflow that catches up on what it missed.
pub open spec fn schedule_catches_up(workflows: Seq<RegisteredWorkflowView>, s: ScheduleView) -> bool {
    s.enabled && s.catchup && active_workflow(workflows, s.workflow_id) is Some
}

/// A schedule with the text of its workflow.
pub open spec fn joined(workflows: Seq<RegisteredWorkflowView>, s: ScheduleView) -> DueScheduleView {
    DueScheduleView { schedule: s, spec: active_workflow(workflows, s.workflow_id)->0.spec }
}

struct ScheduleDue<'a> {
    workflows: &'a Vec<RegisteredWorkflow>,
    now: &'a str,
}

impl<'a> Keep<Schedule> for ScheduleDue<'a> {
    closed spec fn keeps(&self, s: ScheduleView) -> bool {
        schedule_due(views(self.workflows@), s, self.now@)
    }

    fn keep(&self, row: &Schedule) -> (r: bool) {
        row.enabled && is_due(&row.next_fire_at, self.now) && find_active(
            self.workflows,
            row.workflow_id.as_str(),
        ).is_some()
    }
}

struct CatchesUp<'a> {
    workflows: &'a Vec<RegisteredWorkflow>,
}

impl<'a> Keep<Schedule> for CatchesUp<'a> {
    closed spec fn keeps(&self, s: ScheduleView) -> bool {
        schedule_catches_up(views(self.workflows@), s)
    }

    fn keep(&self, row: &Schedule) -> (r: bool) {
        row.enabled && row.catchup && find_active(self.workflows, row.workflow_id.as_str()).is_some()
    }
}

/// The schedules at the places `q`, each with the text of its active workflow.
fn join_workflows(
    schedules: &Vec<Schedule>,
    workflows: &Vec<RegisteredWorkflow>,
    q: &Vec<usize>,
) -> (out: Vec<
    DueSchedule,
>)
    requires
        forall|k: int| 0 <= k < q@.len() ==> #[trigger] q@[k] < schedules@.len(),
        forall|k: int|
            0 <= k < q@.len() ==> active_workflow(
                views(workflows@),
                (#[trigger] schedules@[places(q@)[k]])@.workflow_id,
            ) is Some,
    ensures
        views(out@) == places(q@).map_values(
            |i: int| joined(views(workflows@), views(schedules@)[i]),
        ),
{
    let ghost all = views(schedules@);
    let ghost known = views(workflows@);
    let ghost f = |i: int| joined(known, all[i]);
    let mut out: Vec<DueSchedule> = Vec::new();
    let mut k: usize = 0;
    assert(views(out@) =~= places(q@).take(0).map_values(f));
    while k < q.len()
        invariant
            k <= q@.len(),
            all == views(schedules@),
            known == views(workflows@),
            f == (|i: int| joined(known, all[i])),
            forall|x: int| 0 <= x < q@.len() ==> #[trigger] q@[x] < schedules@.len(),
            forall|x: int|
                0 <= x < q@.len() ==> active_workflow(
                    known,
                    (#[trigger] schedules@[places(q@)[x]])@.workflow_id,
                ) is Some,
            views(out@) == places(q@).take(k as int).map_values(f),
        decreases q@.len() - k,
    {
        let i: usize = q[k];
        assert(places(q@)[k as int] == i);
        assert(active_workflow(known, schedules@[places(q@)[k as int]]@.workflow_id) is Some);
        assert(all[i as int] == schedules@[i as int]@);
        let found: Option<usize> = find_active(workflows, schedules[i].workflow_id.as_str());
        let spec: String = match found {
            Some(w) => {
                assert(known[w as int] == workflows@[w as int]@);
                workflows[w].spec.clone()
            },
            None => String::new(),
        };
        let ghost told = views(out@);
        let row: DueSchedule = DueSchedule { schedule: schedules[i].duplicate(), spec };
        assert(row@ =~= f(i as int));
        out.push(row);
        assert(views(out@) =~= told.push(f(i as int)));
        assert(places(q@).take(k as int + 1) =~= places(q@).take(k as int).push(i as int));
        assert(places(q@).take(k as int + 1).map_values(f) =~= places(q@).take(k as int).map_values(
            f,
        ).push(f(i as int)));
        k += 1;
    }
    assert(places(q@).take(q@.len() as int) =~= places(q@));
    assert(places(q@).map_values(f) =~= places(q@).map_values(
        |i: int| joined(views(workflows@), views(schedules@)[i]),
    ));
    out
}

/// The schedules that are due, each with the text of its workflow.
pub fn claim_due_schedules(db: &Store, now: &str) -> (out: Vec<DueSchedule>)
    ensures
        views(out@) == places_where(
            db@.schedules,
            |s: ScheduleView| schedule_due(db@.workflows, s, now@),
        ).map_values(|i: int| joined(db@.workflows, db@.schedules[i])),
{
    let keep: ScheduleDue = ScheduleDue { workflows: &db.workflows, now };
    let q: Vec<usize> = select_all(&db.schedules, &keep);
    assert((|s: ScheduleView| schedule_due(db@.workflows, s, now@)) =~= (|s: ScheduleView|
        keep.keeps(s)));
    join_workflows(&db.schedules, &db.workflows, &q)
}

/// The schedules that catch up on what they missed, each with the text of its
/// workflow.
pub fn list_catchup_schedules(db: &Store) -> (out: Vec<DueSchedule>)
    ensures
        views(out@) == places_where(
            db@.schedules,
            |s: ScheduleView| schedule_catches_up(db@.workflows, s),
        ).map_values(|i: int| joined(db@.workflows, db@.schedules[i])),
{
    let keep: CatchesUp = CatchesUp { workflows: &db.workflows };
    let q: Vec<usize> = select_all(&db.schedules, &keep);
    assert((|s: ScheduleView| schedule_catches_up(db@.workflows, s)) =~= (|s: ScheduleView|
        keep.keeps(s)));
    join_workflows(&db.schedules, &db.workflows, &q)
}

struct AdvanceSchedule<'a> {
    id: &'a str,
    next_fire_at: &'a str,
    fired_at: &'a str,
}

impl<'a> Rule<Schedule> for AdvanceSchedule<'a> {
    closed spec fn hits(&self, r: ScheduleView) -> bool {
        r.id == self.id@
    }

    closed spec fn image(&self, r: ScheduleView) -> ScheduleView {
        ScheduleView {
            next_fire_at: Some(self.next_fire_at@),
            last_fired_at: Some(self.fired_at@),
            updated_at: self.fired_at@,
            ..r
        }
    }

    closed spec fn fits(&self, r: ScheduleView) -> bool {
        true
    }

    fn apply(&self, row: &mut Schedule) -> (hit: bool) {
        if same(row.id.as_str(), self.id) {
            row.next_fire_at = Some(self.next_fire_at.to_owned());
            row.last_fired_at = Some(self.fired_at.to_owned());
            row.updated_at = self.fired_at.to_owned();
            true
        } else {
            false
        }
    }
}

/// Moves a schedule on after it fired.
pub fn advance_schedule(db: &mut Store, id: &str, next_fire_at: &str, fired_at: &str)
    ensures
        final(db)@ == (StoreView {
            schedules: amended(
                old(db)@.schedules,
                |r: ScheduleView| r.id == id@,
                |r: ScheduleView| ScheduleView {
                    next_fire_at: Some(next_fire_at@),
                    last_fired_at: Some(fired_at@),
                    updated_at: fired_at@,
                    ..r
                },
            ),
            ..old(db)@
        }),
{
    let ghost was = db@;
    let rule: AdvanceSchedule = AdvanceSchedule { id, next_fire_at, fired_at };
    let _ = update_all(&mut db.schedules, &rule);
    assert(db@.schedules =~= amended(
        was.schedules,
        |r: ScheduleView| r.id == id@,
        |r: ScheduleView| ScheduleView {
            next_fire_at: Some(next_fire_at@),
            last_fired_at: Some(fired_at@),
            updated_at: fired_at@,
            ..r
        },
    ));
}

struct SkipFire<'a> {
    id: &'a str,
    next_fire_at: &'a str,
    now: &'a str,
}

impl<'a> Rule<Schedule> for SkipFire<'a> {
    closed spec fn hits(&self, r: ScheduleView) -> bool {
        r.id == self.id@
    }

    closed spec fn image(&self, r: ScheduleView) -> ScheduleView {
        ScheduleView { next_fire_at: Some(self.next_fire_at@), updated_at: self.now@, ..r }
    }

    closed spec fn fits(&self, r: ScheduleView) -> bool {
        true
    }

    fn apply(&self, row: &mut Schedule) -> (hit: bool) {
        if same(row.id.as_str(), self.id) {
            row.next_fire_at = Some(self.next_fire_at.to_owned());
            row.updated_at = self.now.to_owned();
            true
        } else {
            false
        }
    }
}

/// Moves a schedule on that was due and did not fire.
pub fn advance_schedule_gated(db: &mut Store, id: &str, next_fire_at: &str, now: &str)
    ensures
        final(db)@ == (StoreView {
            schedules: amended(
                old(db)@.schedules,
                |r: ScheduleView| r.id == id@,
                |r: ScheduleView| ScheduleView { next_fire_at: Some(next_fire_at@), updated_at: now@, ..r },
            ),
            ..old(db)@
        }),
{
    let ghost was = db@;
    let rule: SkipFire = SkipFire { id, next_fire_at, now };
    let _ = update_all(&mut db.schedules, &rule);
    assert(db@.schedules =~= amended(
        was.schedules,
        |r: ScheduleView| r.id == id@,
        |r: ScheduleView| ScheduleView { next_fire_at: Some(next_fire_at@), updated_at: now@, ..r },
    ));
}

/// The schedule once it is disabled, and why.
pub open spec fn stopped(r: ScheduleView, reason: Seq<char>, now: Seq<char>) -> ScheduleView {
    ScheduleView {
        enabled: false,
        stopped_at: Some(now),
        stop_reason: Some(reason),
        updated_at: now,
        ..r
    }
}

/// A stopped schedule neither fires nor catches up.
pub proof fn law_stopped_schedule_rests(
    workflows: Seq<RegisteredWorkflowView>,
    r: ScheduleView,
    reason: Seq<char>,
    stopped_at: Seq<char>,
    now: Seq<char>,
)
    ensures
        !schedule_due(workflows, stopped(r, reason, stopped_at), now),
        !schedule_catches_up(workflows, stopped(r, reason, stopped_at)),
{
}

struct StopSchedule<'a> {
    id: &'a str,
    reason: &'a str,
    now: &'a str,
}

impl<'a> Rule<Schedule> for StopSchedule<'a> {
    closed spec fn hits(&self, r: ScheduleView) -> bool {
        r.id == self.id@
    }

    closed spec fn image(&self, r: ScheduleView) -> ScheduleView {
        stopped(r, self.reason@, self.now@)
    }

    closed spec fn fits(&self, r: ScheduleView) -> bool {
        true
    }

    fn apply(&self, row: &mut Schedule) -> (hit: bool) {
        if same(row.id.as_str(), self.id) {
            row.enabled = false;
            row.stopped_at = Some(self.now.to_owned());
            row.stop_reason = Some(self.reason.to_owned());
            row.updated_at = self.now.to_owned();
            true
        } else {
            false
        }
    }
}

/// Disables a schedule and notes why.
pub fn stop_schedule(db: &mut Store, id: &str, reason: &str, now: &str)
    ensures
        final(db)@ == (StoreView {
            schedules: amended(
                old(db)@.schedules,
                |r: ScheduleView| r.id == id@,
                |r: ScheduleView| stopped(r, reason@, now@),
            ),
            ..old(db)@
        }),
{
    let ghost was = db@;
    let rule: StopSchedule = StopSchedule { id, reason, now };
    let _ = update_all(&mut db.schedules, &rule);
    assert(db@.schedules =~= amended(
        was.schedules,
        |r: ScheduleView| r.id == id@,
        |r: ScheduleView| stopped(r, reason@, now@),
    ));
}

struct StampSchedule<'a> {
    run_id: &'a str,
    schedule_id: &'a str,
}

impl<'a> Rule<WorkflowRun> for StampSchedule<'a> {
    closed spec fn hits(&self, r: WorkflowRunView) -> bool {
        r.id == self.run_id@
    }

    closed spec fn image(&self, r: WorkflowRunView) -> WorkflowRunView {
        WorkflowRunView { schedule_id: Some(self.schedule_id@), ..r }
    }

    closed spec fn fits(&self, r: WorkflowRunView) -> bool {
        true
    }

    fn apply(&self, row: &mut WorkflowRun) -> (hit: bool) {
        if same(row.id.as_str(), self.run_id) {
            row.schedule_id = Some(self.schedule_id.to_owned());
            true
        } else {
            false
        }
    }
}

/// Notes which schedule started a run.
pub fn stamp_run_schedule(db: &mut Store, run_id: &str, schedule_id: &str)
    ensures
        final(db)@ == (StoreView {
            runs: amended(
                old(db)@.runs,
                |r: WorkflowRunView| r.id == run_id@,
                |r: WorkflowRunView| WorkflowRunView { schedule_id: Some(schedule_id@), ..r },
            ),
            ..old(db)@
        }),
{
    let ghost was = db@;
    let rule: StampSchedule = StampSchedule { run_id, schedule_id };
    let _ = update_all(&mut db.runs, &rule);
    assert(db@.runs =~= amended(
        was.runs,
        |r: WorkflowRunView| r.id == run_id@,
        |r: WorkflowRunView| WorkflowRunView { schedule_id: Some(schedule_id@), ..r },
    ));
}

/// A run that a schedule started, in this state.
pub open spec fn scheduled_run(
    r: WorkflowRunView,
    schedule_id: Seq<char>,
    status: Option<RunStatus>,
) -> bool {
    r.schedule_id == Some(schedule_id) && (status is None || status == Some(r.status))
}

struct ScheduledRun<'a> {
    schedule_id: &'a str,
    status: Option<RunStatus>,
}

impl<'a> Keep<WorkflowRun> for ScheduledRun<'a> {
    closed spec fn keeps(&self, r: WorkflowRunView) -> bool {
        scheduled_run(r, self.schedule_id@, self.status)
    }

    fn keep(&self, row: &WorkflowRun) -> (r: bool) {
        let mine: bool = match &row.schedule_id {
            Some(id) => same(id.as_str(), self.schedule_id),
            None => false,
        };
        let fits: bool = match self.status {
            Some(status) => row.status == status,
            None => true,
        };
        mine && fits
    }
}

/// How a schedule's runs came out: how many succeeded, how many failed, and how
/// many there are.
pub fn schedule_run_counts(db: &Store, schedule_id: &str) -> (n: (u64, u64, u64))
    ensures
        n.0 == count(
            db@.runs,
            |r: WorkflowRunView| scheduled_run(r, schedule_id@, Some(RunStatus::Succeeded)),
        ),
        n.1 == count(
            db@.runs,
            |r: WorkflowRunView| scheduled_run(r, schedule_id@, Some(RunStatus::Failed)),
        ),
        n.2 == count(db@.runs, |r: WorkflowRunView| scheduled_run(r, schedule_id@, None)),
{
    let succeeded: ScheduledRun = ScheduledRun { schedule_id, status: Some(RunStatus::Succeeded) };
    let failed: ScheduledRun = ScheduledRun { schedule_id, status: Some(RunStatus::Failed) };
    let all: ScheduledRun = ScheduledRun { schedule_id, status: None };
    proof {
        assert((|r: WorkflowRunView| scheduled_run(r, schedule_id@, Some(RunStatus::Succeeded)))
            =~= (|r: WorkflowRunView| succeeded.keeps(r)));
        assert((|r: WorkflowRunView| scheduled_run(r, schedule_id@, Some(RunStatus::Failed))) =~= (
        |r: WorkflowRunView| failed.keeps(r)));
        assert((|r: WorkflowRunView| scheduled_run(r, schedule_id@, None)) =~= (
        |r: WorkflowRunView| all.keeps(r)));
    }
    (count_rows(&db.runs, &succeeded), count_rows(&db.runs, &failed), count_rows(&db.runs, &all))
}

// ── Backfill slots ───────────────────────────────────────────────────────────

/// The slot of a schedule for a date.
pub open spec fn slot_for(s: BackfillSlotView, schedule_id: Seq<char>, date: Seq<char>) -> bool {
    s.schedule_id == schedule_id && s.logical_date == date
}

/// The slots once one is claimed.
pub open spec fn slot_claimed(
    slots: Seq<BackfillSlotView>,
    schedule_id: Seq<char>,
    date: Seq<char>,
    now: Seq<char>,
) -> Seq<BackfillSlotView> {
    if any(slots, |s: BackfillSlotView| slot_for(s, schedule_id, date)) {
        slots
    } else {
        slots.push(
            BackfillSlotView { schedule_id, logical_date: date, run_id: None, created_at: now },
        )
    }
}

struct SlotFor<'a> {
    schedule_id: &'a str,
    date: &'a str,
}

impl<'a> Keep<BackfillSlot> for SlotFor<'a> {
    closed spec fn keeps(&self, r: BackfillSlotView) -> bool {
        slot_for(r, self.schedule_id@, self.date@)
    }

    fn keep(&self, row: &BackfillSlot) -> (r: bool) {
        same(row.schedule_id.as_str(), self.schedule_id) && same(row.logical_date.as_str(), self.date)
    }
}

/// Claims the slot of a schedule for a date. Only the first claim gets it.
pub fn claim_backfill_slot(
    db: &mut Store,
    schedule_id: &str,
    logical_date: &str,
    now: &str,
) -> (claimed: bool)
    ensures
        claimed == !any(
            old(db)@.slots,
            |s: BackfillSlotView| slot_for(s, schedule_id@, logical_date@),
        ),
        final(db)@ == (StoreView {
            slots: slot_claimed(old(db)@.slots, schedule_id@, logical_date@, now@),
            ..old(db)@
        }),
{
    let ghost was = db@;
    let keep: SlotFor = SlotFor { schedule_id, date: logical_date };
    let found: Option<usize> = find_row(&db.slots, &keep);
    proof {
        let p = |s: BackfillSlotView| slot_for(s, schedule_id@, logical_date@);
        assert(p =~= (|s: BackfillSlotView| keep.keeps(s)));
        lemma_first(was.slots, p);
    }
    if found.is_some() {
        return false;
    }
    let row: BackfillSlot = BackfillSlot {
        schedule_id: schedule_id.to_owned(),
        logical_date: logical_date.to_owned(),
        run_id: None,
        created_at: now.to_owned(),
    };
    let ghost r = row@;
    db.slots.push(row);
    assert(db@.slots =~= was.slots.push(r));
    true
}

/// A slot is claimed once: after a claim, no further claim of it succeeds.
pub proof fn law_slot_claimed_once(
    slots: Seq<BackfillSlotView>,
    schedule_id: Seq<char>,
    date: Seq<char>,
    now: Seq<char>,
    later: Seq<char>,
)
    ensures
        any(
            slot_claimed(slots, schedule_id, date, now),
            |s: BackfillSlotView| slot_for(s, schedule_id, date),
        ),
        slot_claimed(slot_claimed(slots, schedule_id, date, now), schedule_id, date, later)
            == slot_claimed(slots, schedule_id, date, now),
{
    let p = |s: BackfillSlotView| slot_for(s, schedule_id, date);
    let after = slot_claimed(slots, schedule_id, date, now);
    if !any(slots, p) {
        assert(p(after[slots.len() as int]));
    }
}

struct FillSlot<'a> {
    schedule_id: &'a str,
    logical_date: &'a str,
    run_id: &'a str,
}

impl<'a> Rule<BackfillSlot> for FillSlot<'a> {
    closed spec fn hits(&self, r: BackfillSlotView) -> bool {
        slot_for(r, self.schedule_id@, self.logical_date@)
    }

    closed spec fn image(&self, r: BackfillSlotView) -> BackfillSlotView {
        BackfillSlotView { run_id: Some(self.run_id@), ..r }
    }

    closed spec fn fits(&self, r: BackfillSlotView) -> bool {
        true
    }

    fn apply(&self, row: &mut BackfillSlot) -> (hit: bool) {
        if same(row.schedule_id.as_str(), self.schedule_id)
            && same(row.logical_date.as_str(), self.logical_date)
        {
            row.run_id = Some(self.run_id.to_owned());
            true
        } else {
            false
        }
    }
}

/// Notes which run filled a slot.
pub fn record_backfill_run(db: &mut Store, schedule_id: &str, logical_date: &str, run_id: &str)
    ensures
        final(db)@ == (StoreView {
            slots: amended(
                old(db)@.slots,
                |r: BackfillSlotView| slot_for(r, schedule_id@, logical_date@),
                |r: BackfillSlotView| BackfillSlotView { run_id: Some(run_id@), ..r },
            ),
            ..old(db)@
        }),
{
    let ghost was = db@;
    let rule: FillSlot = FillSlot { schedule_id, logical_date, run_id };
    let _ = update_all(&mut db.slots, &rule);
    assert(db@.slots =~= amended(
        was.slots,
        |r: BackfillSlotView| slot_for(r, schedule_id@, logical_date@),
        |r: BackfillSlotView| BackfillSlotView { run_id: Some(run_id@), ..r },
    ));
}

/// Gives a claimed slot up, so that it can be claimed again.
pub fn release_backfill_slot(db: &mut Store, schedule_id: &str, logical_date: &str)
    ensures
        final(db)@ == (StoreView {
            slots: old(db)@.slots.filter(
                |s: BackfillSlotView| !slot_for(s, schedule_id@, logical_date@),
            ),
            ..old(db)@
        }),
{
    let ghost was = db@;
    let doomed: SlotFor = SlotFor { schedule_id, date: logical_date };
    let _ = delete_all(&mut db.slots, &doomed);
    assert((|s: BackfillSlotView| !slot_for(s, schedule_id@, logical_date@)) =~= (
    |s: BackfillSlotView| !doomed.keeps(s)));
}

// ── Backfill jobs ────────────────────────────────────────────────────────────

struct JobNamed<'a> {
    id: &'a str,
}

impl<'a> Keep<BackfillJob> for JobNamed<'a> {
    closed spec fn keeps(&self, r: BackfillJobView) -> bool {
        r.id == self.id@
    }

    fn keep(&self, row: &BackfillJob) -> (r: bool) {
        same(row.id.as_str(), self.id)
    }
}

/// Adds a backfill job. False, and no change, where its id is taken.
pub fn create_backfill(db: &mut Store, job: BackfillJob) -> (created: bool)
    ensures
        created == !any(old(db)@.backfills, |b: BackfillJobView| b.id == job@.id),
        final(db)@ == (if created {
            StoreView { backfills: old(db)@.backfills.push(job@), ..old(db)@ }
        } else {
            old(db)@
        }),
{
    let ghost was = db@;
    let ghost j = job@;
    let keep: JobNamed = JobNamed { id: job.id.as_str() };
    let found: Option<usize> = find_row(&db.backfills, &keep);
    proof {
        let p = |b: BackfillJobView| b.id == j.id;
        assert(p =~= (|b: BackfillJobView| keep.keeps(b)));
        lemma_first(was.backfills, p);
    }
    if found.is_some() {
        return false;
    }
    db.backfills.push(job);
    assert(db@.backfills =~= was.backfills.push(j));
    true
}

struct ActiveJob {
}

impl Keep<BackfillJob> for ActiveJob {
    closed spec fn keeps(&self, r: BackfillJobView) -> bool {
        r.status == "running"@
    }

    fn keep(&self, row: &BackfillJob) -> (r: bool) {
        same(row.status.as_str(), "running")
    }
}

struct OldestJob {}

impl Order<BackfillJob> for OldestJob {
    closed spec fn lt(&self, a: BackfillJobView, b: BackfillJobView) -> bool {
        lex_lt(a.created_at, b.created_at)
    }

    fn sorts_before(&self, a: &BackfillJob, b: &BackfillJob) -> (r: bool) {
        before(a.created_at.as_str(), b.created_at.as_str())
    }
}

/// The jobs that run, the oldest first.
pub fn list_active_backfills(db: &Store) -> (out: Vec<BackfillJob>)
    ensures
        views(out@) == rows_at(
            db@.backfills,
            ordered(
                    db@.backfills,
                    |r: BackfillJobView| r.status == "running"@,
                    |a: BackfillJobView, b: BackfillJobView| lex_lt(a.created_at, b.created_at),
                    db@.backfills.len() as int,
                ),
        ),
{
    let keep: ActiveJob = ActiveJob {};
    let order: OldestJob = OldestJob {};
    let q: Vec<usize> = select(&db.backfills, &keep, &order);
    let len: usize = q.len();
    proof {
        assert((|r: BackfillJobView| r.status == "running"@) =~= (|r: BackfillJobView| keep.keeps(r)));
        assert((|a: BackfillJobView, b: BackfillJobView| lex_lt(a.created_at, b.created_at)) =~= (
            |a: BackfillJobView, b: BackfillJobView| order.lt(a, b)
        ));
        assert(places(q@) =~= places(q@).take(len as int));
    }
    copy_at(&db.backfills, &q, len)
}

/// A job of the schedule asked for, or of any.
pub open spec fn job_of(b: BackfillJobView, schedule_id: Option<Seq<char>>) -> bool {
    match schedule_id {
        Some(id) => b.schedule_id == id,
        None => true,
    }
}

struct JobOf<'a> {
    schedule_id: Option<&'a str>,
}

impl<'a> Keep<BackfillJob> for JobOf<'a> {
    closed spec fn keeps(&self, r: BackfillJobView) -> bool {
        job_of(r, opt_text(self.schedule_id))
    }

    fn keep(&self, row: &BackfillJob) -> (r: bool) {
        match self.schedule_id {
            Some(id) => same(row.schedule_id.as_str(), id),
            None => true,
        }
    }
}

struct NewestJob {}

impl Order<BackfillJob> for NewestJob {
    closed spec fn lt(&self, a: BackfillJobView, b: BackfillJobView) -> bool {
        lex_lt(b.created_at, a.created_at)
    }

    fn sorts_before(&self, a: &BackfillJob, b: &BackfillJob) -> (r: bool) {
        before(b.created_at.as_str(), a.created_at.as_str())
    }
}

/// The jobs of one schedule or of all, the newest first.
pub fn list_backfills(db: &Store, schedule_id: Option<&str>, limit: i64) -> (out: Vec<BackfillJob>)
    ensures
        views(out@) == rows_at(
            db@.backfills,
            limited(
                ordered(
                    db@.backfills,
                    |r: BackfillJobView| job_of(r, opt_text(schedule_id)),
                    |a: BackfillJobView, b: BackfillJobView| lex_lt(b.created_at, a.created_at),
                    db@.backfills.len() as int,
                ),
                limit as int,
            ),
        ),
{
    let keep: JobOf = JobOf { schedule_id };
    let order: NewestJob = NewestJob {};
    let q: Vec<usize> = select(&db.backfills, &keep, &order);
    let len: usize = limit_of(q.len(), limit);
    proof {
        assert((|r: BackfillJobView| job_of(r, opt_text(schedule_id))) =~= (
            |r: BackfillJobView| keep.keeps(r)
        ));
        assert((|a: BackfillJobView, b: BackfillJobView| lex_lt(b.created_at, a.created_at)) =~= (
            |a: BackfillJobView, b: BackfillJobView| order.lt(a, b)
        ));
        assert(limited(places(q@), limit as int) =~= places(q@).take(len as int));
    }
    copy_at(&db.backfills, &q, len)
}

/// The job with this id.
pub fn get_backfill(db: &Store, id: &str) -> (r: Option<BackfillJob>)
    ensures
        (match r {
            Some(b) => Some(b@),
            None => None,
        }) == first(db@.backfills, |b: BackfillJobView| b.id == id@),
{
    let keep: JobNamed = JobNamed { id };
    let found: Option<usize> = find_row(&db.backfills, &keep);
    assert((|b: BackfillJobView| b.id == id@) =~= (|b: BackfillJobView| keep.keeps(b)));
    match found {
        Some(i) => {
            assert(db@.backfills[i as int] == db.backfills@[i as int]@);
            Some(db.backfills[i].duplicate())
        },
        None => None,
    }
}

struct AdvanceJob<'a> {
    id: &'a str,
    cursor: &'a str,
    fired: i64,
    now: &'a str,
}

impl<'a> Rule<BackfillJob> for AdvanceJob<'a> {
    closed spec fn hits(&self, r: BackfillJobView) -> bool {
        r.id == self.id@
    }

    closed spec fn image(&self, r: BackfillJobView) -> BackfillJobView {
        BackfillJobView { cursor: self.cursor@, fired: self.fired as int, updated_at: self.now@, ..r }
    }

    closed spec fn fits(&self, r: BackfillJobView) -> bool {
        true
    }

    fn apply(&self, row: &mut BackfillJob) -> (hit: bool) {
        if same(row.id.as_str(), self.id) {
            row.cursor = self.cursor.to_owned();
            row.fired = self.fired;
            row.updated_at = self.now.to_owned();
            true
        } else {
            false
        }
    }
}

/// Moves a job's cursor on and sets how many runs it has fired.
pub fn advance_backfill(db: &mut Store, id: &str, cursor: &str, fired: i64, now: &str)
    ensures
        final(db)@ == (StoreView {
            backfills: amended(
                old(db)@.backfills,
                |r: BackfillJobView| r.id == id@,
                |r: BackfillJobView| BackfillJobView {
                    cursor: cursor@,
                    fired: fired as int,
                    updated_at: now@,
                    ..r
                },
            ),
            ..old(db)@
        }),
{
    let ghost was = db@;
    let rule: AdvanceJob = AdvanceJob { id, cursor, fired, now };
    let _ = update_all(&mut db.backfills, &rule);
    assert(db@.backfills =~= amended(
        was.backfills,
        |r: BackfillJobView| r.id == id@,
        |r: BackfillJobView| BackfillJobView { cursor: cursor@, fired: fired as int, updated_at: now@, ..r },
    ));
}

struct CompleteJob<'a> {
    id: &'a str,
    now: &'a str,
}

impl<'a> Rule<BackfillJob> for CompleteJob<'a> {
    closed spec fn hits(&self, r: BackfillJobView) -> bool {
        r.id == self.id@ && r.status == "running"@
    }

    closed spec fn image(&self, r: BackfillJobView) -> BackfillJobView {
        BackfillJobView { status: "completed"@, updated_at: self.now@, ..r }
    }

    closed spec fn fits(&self, r: BackfillJobView) -> bool {
        true
    }

    fn apply(&self, row: &mut BackfillJob) -> (hit: bool) {
        if same(row.id.as_str(), self.id) && same(row.status.as_str(), "running") {
            row.status = "completed".to_owned();
            row.updated_at = self.now.to_owned();
            true
        } else {
            false
        }
    }
}

/// Marks a running job completed.
pub fn complete_backfill(db: &mut Store, id: &str, now: &str)
    ensures
        final(db)@ == (StoreView {
            backfills: amended(
                old(db)@.backfills,
                |r: BackfillJobView| r.id == id@ && r.status == "running"@,
                |r: BackfillJobView| BackfillJobView { status: "completed"@, updated_at: now@, ..r },
            ),
            ..old(db)@
        }),
{
    let ghost was = db@;
    let rule: CompleteJob = CompleteJob { id, now };
    let _ = update_all(&mut db.backfills, &rule);
    assert(db@.backfills =~= amended(
        was.backfills,
        |r: BackfillJobView| r.id == id@ && r.status == "running"@,
        |r: BackfillJobView| BackfillJobView { status: "completed"@, updated_at: now@, ..r },
    ));
}

struct CancelJob<'a> {
    id: &'a str,
    now: &'a str,
}

impl<'a> Rule<BackfillJob> for CancelJob<'a> {
    closed spec fn hits(&self, r: BackfillJobView) -> bool {
        r.id == self.id@ && r.status == "running"@
    }

    closed spec fn image(&self, r: BackfillJobView) -> BackfillJobView {
        BackfillJobView { status: "cancelled"@, updated_at: self.now@, ..r }
    }

    closed spec fn fits(&self, r: BackfillJobView) -> bool {
        true
    }

    fn apply(&self, row: &mut BackfillJob) -> (hit: bool) {
        if same(row.id.as_str(), self.id) && same(row.status.as_str(), "running") {
            row.status = "cancelled".to_owned();
            row.updated_at = self.now.to_owned();
            true
        } else {
            false
        }
    }
}

/// Cancels a running job; false where no such job runs.
pub fn cancel_backfill(db: &mut Store, id: &str, now: &str) -> (done: bool)
    ensures
        done == any(old(db)@.backfills, |r: BackfillJobView| r.id == id@ && r.status == "running"@),
        final(db)@ == (StoreView {
            backfills: amended(
                old(db)@.backfills,
                |r: BackfillJobView| r.id == id@ && r.status == "running"@,
                |r: BackfillJobView| BackfillJobView { status: "cancelled"@, updated_at: now@, ..r },
            ),
            ..old(db)@
        }),
{
    let ghost was = db@;
    let rule: CancelJob = CancelJob { id, now };
    let done: bool = update_any(&mut db.backfills, &rule);
    proof {
        lemma_any_same(
            was.backfills,
            |r: BackfillJobView| rule.hits(r),
            |r: BackfillJobView| r.id == id@ && r.status == "running"@,
        );
    }
    assert(db@.backfills =~= amended(
        was.backfills,
        |r: BackfillJobView| r.id == id@ && r.status == "running"@,
        |r: BackfillJobView| BackfillJobView { status: "cancelled"@, updated_at: now@, ..r },
    ));
    done
}

// ── Automatic reruns ─────────────────────────────────────────────────────────

/// The run has been rerun fewer than `max` times, and not since `cutoff`.
pub open spec fn may_rerun(reruns: Seq<RunRerunView>, id: Seq<char>, max: int, cutoff: Seq<char>) -> bool {
    match first(reruns, |e: RunRerunView| e.run_id == id) {
        Some(e) => e.attempts < max && (e.last_rerun_at is None || past(e.last_rerun_at, cutoff)),
        None => 0 < max,
    }
}

/// A failed run that may be rerun.
pub open spec fn rerun_due(
    reruns: Seq<RunRerunView>,
    r: WorkflowRunView,
    max: int,
    cutoff: Seq<char>,
) -> bool {
    r.status == RunStatus::Failed && may_rerun(reruns, r.id, max, cutoff)
}

struct RerunOf<'a> {
    id: &'a str,
}

impl<'a> Keep<RunRerun> for RerunOf<'a> {
    closed spec fn keeps(&self, r: RunRerunView) -> bool {
        r.run_id == self.id@
    }

    fn keep(&self, row: &RunRerun) -> (r: bool) {
        same(row.run_id.as_str(), self.id)
    }
}

struct RerunDue<'a> {
    reruns: &'a Vec<RunRerun>,
    max: i64,
    cutoff: &'a str,
}

impl<'a> Keep<WorkflowRun> for RerunDue<'a> {
    closed spec fn keeps(&self, r: WorkflowRunView) -> bool {
        rerun_due(views(self.reruns@), r, self.max as int, self.cutoff@)
    }

    fn keep(&self, row: &WorkflowRun) -> (r: bool) {
        if row.status != RunStatus::Failed {
            return false;
        }
        let keep: RerunOf = RerunOf { id: row.id.as_str() };
        let found: Option<usize> = find_row(self.reruns, &keep);
        assert((|e: RunRerunView| e.run_id == row@.id) =~= (|e: RunRerunView| keep.keeps(e)));
        match found {
            Some(i) => {
                assert(views(self.reruns@)[i as int] == self.reruns@[i as int]@);
                self.reruns[i].attempts < self.max && (self.reruns[i].last_rerun_at.is_none()
                    || is_past(&self.reruns[i].last_rerun_at, self.cutoff))
            },
            None => 0 < self.max,
        }
    }
}

struct LatestFinish {}

impl Order<WorkflowRun> for LatestFinish {
    closed spec fn lt(&self, a: WorkflowRunView, b: WorkflowRunView) -> bool {
        time_before(b.finished_at, a.finished_at)
    }

    fn sorts_before(&self, a: &WorkflowRun, b: &WorkflowRun) -> (r: bool) {
        time_sorts_before(&b.finished_at, &a.finished_at)
    }
}

struct FailedId {}

impl Column<WorkflowRun> for FailedId {
    closed spec fn value(&self, r: WorkflowRunView) -> Seq<char> {
        r.id
    }

    fn read(&self, row: &WorkflowRun) -> (s: String) {
        row.id.clone()
    }
}

/// Failed runs that may be rerun: fewer than `max_attempts` reruns so far, none
/// since `cooldown_cutoff`; the latest failure first.
pub fn list_failed_runs_for_rerun(
    db: &Store,
    max_attempts: i64,
    cooldown_cutoff: &str,
    limit: i64,
) -> (out: Vec<String>)
    ensures
        texts(out@) == limited(
            ordered(
                db@.runs,
                |r: WorkflowRunView|
                    rerun_due(db@.reruns, r, max_attempts as int, cooldown_cutoff@),
                |a: WorkflowRunView, b: WorkflowRunView| time_before(b.finished_at, a.finished_at),
                db@.runs.len() as int,
            ),
            limit as int,
        ).map_values(|i: int| db@.runs[i].id),
{
    let keep: RerunDue = RerunDue { reruns: &db.reruns, max: max_attempts, cutoff: cooldown_cutoff };
    let order: LatestFinish = LatestFinish {};
    let q: Vec<usize> = select(&db.runs, &keep, &order);
    let len: usize = limit_of(q.len(), limit);
    let column: FailedId = FailedId {};
    proof {
        assert((|r: WorkflowRunView|
            rerun_due(db@.reruns, r, max_attempts as int, cooldown_cutoff@)) =~= (
        |r: WorkflowRunView| keep.keeps(r)));
        assert((|a: WorkflowRunView, b: WorkflowRunView| time_before(b.finished_at, a.finished_at))
            =~= (|a: WorkflowRunView, b: WorkflowRunView| order.lt(a, b)));
        assert(limited(places(q@), limit as int) =~= places(q@).take(len as int));
    }
    let out: Vec<String> = column_at(&db.runs, &q, len, &column);
    assert(texts(out@) =~= places(q@).take(len as int).map_values(|i: int| db@.runs[i].id));
    out
}

/// The ledger with one more rerun of a run.
pub open spec fn rerun_counted(reruns: Seq<RunRerunView>, run_id: Seq<char>, now: Seq<char>) -> Seq<
    RunRerunView,
> {
    if any(reruns, |e: RunRerunView| e.run_id == run_id) {
        amended(
            reruns,
            |e: RunRerunView| e.run_id == run_id,
            |e: RunRerunView|
                RunRerunView { attempts: e.attempts + 1, last_rerun_at: Some(now), ..e },
        )
    } else {
        reruns.push(RunRerunView { run_id, attempts: 1, last_rerun_at: Some(now) })
    }
}

struct CountRerun<'a> {
    run_id: &'a str,
    now: &'a str,
}

impl<'a> Rule<RunRerun> for CountRerun<'a> {
    closed spec fn hits(&self, e: RunRerunView) -> bool {
        e.run_id == self.run_id@
    }

    closed spec fn image(&self, e: RunRerunView) -> RunRerunView {
        RunRerunView { attempts: e.attempts + 1, last_rerun_at: Some(self.now@), ..e }
    }

    closed spec fn fits(&self, e: RunRerunView) -> bool {
        e.attempts < i64::MAX
    }

    fn apply(&self, row: &mut RunRerun) -> (hit: bool) {
        if same(row.run_id.as_str(), self.run_id) {
            row.attempts = row.attempts + 1;
            row.last_rerun_at = Some(self.now.to_owned());
            true
        } else {
            false
        }
    }
}

/// Counts one automatic rerun of a run.
pub fn bump_rerun_attempt(db: &mut Store, run_id: &str, now: &str)
    requires
        forall|i: int| 0 <= i < old(db)@.reruns.len() ==> (#[trigger] old(db)@.reruns[i]).attempts < i64::MAX,
    ensures
        final(db)@ == (StoreView {
            reruns: rerun_counted(old(db)@.reruns, run_id@, now@),
            ..old(db)@
        }),
{
    let ghost was = db@;
    let rule: CountRerun = CountRerun { run_id, now };
    proof {
        assert forall|k: int|
            0 <= k < db.reruns@.len() && rule.hits((#[trigger] db.reruns@[k])@) implies rule.fits(
                db.reruns@[k]@
            ) by {
            assert(was.reruns[k] == db.reruns@[k]@);
        }
        lemma_any_same(was.reruns, |e: RunRerunView| rule.hits(e), |e: RunRerunView| e.run_id == run_id@);
    }
    let hit: bool = update_any(&mut db.reruns, &rule);
    assert(db@.reruns =~= amended(
        was.reruns,
        |e: RunRerunView| e.run_id == run_id@,
        |e: RunRerunView| RunRerunView { attempts: e.attempts + 1, last_rerun_at: Some(now@), ..e },
    ));
    if !hit {
        assert(db@.reruns =~= was.reruns);
        let row: RunRerun = RunRerun {
            run_id: run_id.to_owned(),
            attempts: 1,
            last_rerun_at: Some(now.to_owned()),
        };
        let ghost r = row@;
        db.reruns.push(row);
        assert(db@.reruns =~= was.reruns.push(r));
    }
}

struct Stalled<'a> {
    cutoff: &'a str,
}

impl<'a> Keep<WorkflowRun> for Stalled<'a> {
    closed spec fn keeps(&self, r: WorkflowRunView) -> bool {
        r.status == RunStatus::Running && lex_lt(r.created_at, self.cutoff@)
    }

    fn keep(&self, row: &WorkflowRun) -> (r: bool) {
        row.status == RunStatus::Running && before(row.created_at.as_str(), self.cutoff)
    }
}

/// How many runs were created before `stall_cutoff` and still run.
pub fn count_incomplete_runs(db: &Store, stall_cutoff: &str) -> (n: u64)
    ensures
        n == count(
            db@.runs,
            |r: WorkflowRunView|
                r.status == RunStatus::Running && lex_lt(r.created_at, stall_cutoff@),
        ),
{
    let keep: Stalled = Stalled { cutoff: stall_cutoff };
    assert((|r: WorkflowRunView| r.status == RunStatus::Running && lex_lt(r.created_at, stall_cutoff@))
        =~= (|r: WorkflowRunView| keep.keeps(r)));
    count_rows(&db.runs, &keep)
}

struct InFlight {
}

impl Keep<WorkflowRun> for InFlight {
    closed spec fn keeps(&self, r: WorkflowRunView) -> bool {
        r.status == RunStatus::Running
    }

    fn keep(&self, row: &WorkflowRun) -> (r: bool) {
        row.status == RunStatus::Running
    }
}

/// How many runs are running.
pub fn count_active_runs(db: &Store) -> (n: u64)
    ensures
        n == count(db@.runs, |r: WorkflowRunView| r.status == RunStatus::Running),
{
    let keep: InFlight = InFlight {};
    assert((|r: WorkflowRunView| r.status == RunStatus::Running) =~= (|r: WorkflowRunView|
        keep.keeps(r)));
    count_rows(&db.runs, &keep)
}

} // verus!
