//! Gangs: rows that are claimed together or not at all, and die together.
use vstd::prelude::*;
use vstd::string::*;
use crate::claims::{claimable_now, claimed, free_slots, served, slots_left, time_before, time_sorts_before};
use crate::dag::contains_text;
use crate::models::TaskStatus;
use crate::rows::{opt, opt_int, views, Row, TaskRun, TaskRunView};
use crate::store::{column_is, is_due, Store, StoreView};
use crate::table::{amended, count, lemma_count_same, lemma_count_take, update_all, Rule};
use crate::tasks::claims_fit;
use crate::text::{before, lex_lt, same, texts};
use crate::text_map::TextMap;

verus! {

// ── Which gang ───────────────────────────────────────────────────────────────

/// A gang member that could be claimed now.
pub open spec fn gang_ready(t: TaskRunView, classes: Seq<Seq<char>>, now: Seq<char>) -> bool {
    claimable_now(t, now) && t.gang_id is Some && served(t.runner_class, classes)
}

/// Members of one gang.
pub open spec fn same_gang(a: TaskRunView, b: TaskRunView) -> bool {
    a.gang_id == b.gang_id && a.gang_size == b.gang_size && a.pool == b.pool
}

/// A claimable member of the gang of row `head`.
pub open spec fn musters(
    tasks: Seq<TaskRunView>,
    head: int,
    t: TaskRunView,
    classes: Seq<Seq<char>>,
    now: Seq<char>,
) -> bool {
    gang_ready(t, classes, now) && same_gang(t, tasks[head])
}

/// The highest priority among the first `n` rows that satisfy `p`.
pub open spec fn top_priority(tasks: Seq<TaskRunView>, p: spec_fn(TaskRunView) -> bool, n: int) -> Option<int>
    decreases n,
{
    if n <= 0 {
        None
    } else {
        let rest = top_priority(tasks, p, n - 1);
        if p(tasks[n - 1]) && (rest is None || tasks[n - 1].priority > rest->0) {
            Some(tasks[n - 1].priority)
        } else {
            rest
        }
    }
}

/// The earliest schedule among the first `n` rows that satisfy `p` and have one.
pub open spec fn earliest(
    tasks: Seq<TaskRunView>,
    p: spec_fn(TaskRunView) -> bool,
    n: int,
) -> Option<Seq<char>>
    decreases n,
{
    if n <= 0 {
        None
    } else {
        let rest = earliest(tasks, p, n - 1);
        match tasks[n - 1].scheduled_at {
            Some(at) => if p(tasks[n - 1]) && (rest is None || lex_lt(at, rest->0)) {
                Some(at)
            } else {
                rest
            },
            None => rest,
        }
    }
}

/// What a claim of a gang goes by.
pub struct GangClaim {
    pub capacity: int,
    pub classes: Seq<Seq<char>>,
    pub caps: Map<Seq<char>, i64>,
    pub now: Seq<char>,
}

impl GangClaim {
    /// The claimable members of the gang of row `head`.
    pub open spec fn members(self, tasks: Seq<TaskRunView>, head: int) -> spec_fn(TaskRunView) -> bool {
        |t: TaskRunView| musters(tasks, head, t, self.classes, self.now)
    }

    /// Row `head` is the first claimable member of its gang, all of the gang is
    /// claimable, and both the claimer and the gang's pool can seat all of it.
    pub open spec fn seatable(self, tasks: Seq<TaskRunView>, head: int) -> bool {
        let t = tasks[head];
        &&& gang_ready(t, self.classes, self.now)
        &&& forall|k: int| 0 <= k < head ==> !self.members(tasks, head)(#[trigger] tasks[k])
        &&& t.gang_size is Some
        &&& count(tasks, self.members(tasks, head)) == t.gang_size->0
        &&& t.gang_size->0 <= self.capacity
        &&& t.pool is Some && self.caps.contains_key(t.pool->0) ==> free_slots(
            tasks,
            t.pool->0,
            self.caps[t.pool->0],
        ) >= t.gang_size->0
    }

    /// The gang of row `i` is claimed in preference to that of row `j`.
    pub open spec fn outranks(self, tasks: Seq<TaskRunView>, i: int, j: int) -> bool {
        let n = tasks.len() as int;
        let pi = top_priority(tasks, self.members(tasks, i), n);
        let pj = top_priority(tasks, self.members(tasks, j), n);
        let si = earliest(tasks, self.members(tasks, i), n);
        let sj = earliest(tasks, self.members(tasks, j), n);
        pi is Some && pj is Some && (pi->0 > pj->0 || (pi->0 == pj->0 && time_before(si, sj)))
    }

    /// The first member of the gang that is claimed, among the first `n` rows.
    pub open spec fn choice(self, tasks: Seq<TaskRunView>, n: int) -> Option<int>
        decreases n,
    {
        if n <= 0 {
            None
        } else {
            let rest = self.choice(tasks, n - 1);
            if self.seatable(tasks, n - 1) && (rest is None || self.outranks(tasks, n - 1, rest->0)) {
                Some(n - 1)
            } else {
                rest
            }
        }
    }
}

/// The rows of the gang `id` are one gang in full: they agree on their pool, and
/// each says how many they are.
pub open spec fn whole_gang(tasks: Seq<TaskRunView>, id: Seq<char>) -> bool {
    &&& forall|i: int, j: int|
        0 <= i < tasks.len() && 0 <= j < tasks.len() && (#[trigger] tasks[i]).gang_id == Some(id) && (
        #[trigger] tasks[j]).gang_id == Some(id) ==> tasks[i].pool == tasks[j].pool
    &&& forall|i: int|
        0 <= i < tasks.len() && (#[trigger] tasks[i]).gang_id == Some(id) ==> tasks[i].gang_size
            == Some(count(tasks, |t: TaskRunView| t.gang_id == Some(id)) as int)
}

/// The rows once a claim took the gang `id`.
pub open spec fn with_gang_claimed(
    tasks: Seq<TaskRunView>,
    id: Seq<char>,
    worker: Seq<char>,
    lease: Seq<char>,
) -> Seq<TaskRunView> {
    amended(
        tasks,
        |t: TaskRunView| ready_member(t, id),
        |t: TaskRunView| claimed(t, worker, lease),
    )
}

/// A ready member of the gang `id`.
pub open spec fn ready_member(t: TaskRunView, id: Seq<char>) -> bool {
    t.gang_id == Some(id) && t.status == TaskStatus::Ready
}

/// A member as it is handed out: claimed, with attempt and version from before.
pub open spec fn handed_out(t: TaskRunView, worker: Seq<char>, lease: Seq<char>) -> TaskRunView {
    TaskRunView { attempt: t.attempt, version: t.version, ..claimed(t, worker, lease) }
}

fn is_gang_ready(row: &TaskRun, classes: &Vec<String>, now: &str) -> (r: bool)
    ensures
        r == gang_ready(row@, texts(classes@), now@),
{
    if row.status != TaskStatus::Ready || row.gang_id.is_none() {
        return false;
    }
    if row.scheduled_at.is_some() && !is_due(&row.scheduled_at, now) {
        return false;
    }
    classes.len() == 0 || contains_text(classes, row.runner_class.as_str())
}

fn same_text(a: &Option<String>, b: &Option<String>) -> (r: bool)
    ensures
        r == (opt(*a) == opt(*b)),
{
    match (a, b) {
        (Some(x), Some(y)) => same(x.as_str(), y.as_str()),
        (None, None) => true,
        _ => false,
    }
}

fn same_number(a: &Option<i64>, b: &Option<i64>) -> (r: bool)
    ensures
        r == (opt_int(*a) == opt_int(*b)),
{
    match (a, b) {
        (Some(x), Some(y)) => *x == *y,
        (None, None) => true,
        _ => false,
    }
}

fn is_mustering(tasks: &Vec<TaskRun>, head: usize, i: usize, classes: &Vec<String>, now: &str) -> (r: bool)
    requires
        head < tasks@.len(),
        i < tasks@.len(),
    ensures
        r == musters(views(tasks@), head as int, views(tasks@)[i as int], texts(classes@), now@),
{
    assert(views(tasks@)[i as int] == tasks@[i as int]@);
    assert(views(tasks@)[head as int] == tasks@[head as int]@);
    is_gang_ready(&tasks[i], classes, now) && same_text(&tasks[i].gang_id, &tasks[head].gang_id)
        && same_number(&tasks[i].gang_size, &tasks[head].gang_size) && same_text(
        &tasks[i].pool,
        &tasks[head].pool,
    )
}

/// What is known of one gang.
struct Muster {
    present: usize,
    first: bool,
    priority: Option<i64>,
    scheduled_at: Option<String>,
}

/// Counts the claimable members of the gang of row `head`.
fn muster(tasks: &Vec<TaskRun>, head: usize, classes: &Vec<String>, now: &str) -> (m: Muster)
    requires
        head < tasks@.len(),
    ensures
        ({
            let all = views(tasks@);
            let p = |t: TaskRunView| musters(all, head as int, t, texts(classes@), now@);
            &&& m.present == count(all, p)
            &&& m.first == (forall|k: int| 0 <= k < head ==> !p(#[trigger] all[k]))
            &&& opt_int(m.priority) == top_priority(all, p, all.len() as int)
            &&& opt(m.scheduled_at) == earliest(all, p, all.len() as int)
        }),
{
    let ghost all = views(tasks@);
    let ghost p = |t: TaskRunView| musters(all, head as int, t, texts(classes@), now@);
    let mut m: Muster = Muster { present: 0, first: true, priority: None, scheduled_at: None };
    let mut i: usize = 0;
    assert(all.take(0) =~= Seq::<TaskRunView>::empty());
    while i < tasks.len()
        invariant
            i <= tasks@.len(),
            head < tasks@.len(),
            all == views(tasks@),
            p == (|t: TaskRunView| musters(all, head as int, t, texts(classes@), now@)),
            m.present == count(all.take(i as int), p),
            m.present <= i,
            m.first == (forall|k: int| 0 <= k < head && k < i ==> !p(#[trigger] all[k])),
            opt_int(m.priority) == top_priority(all, p, i as int),
            opt(m.scheduled_at) == earliest(all, p, i as int),
        decreases tasks@.len() - i,
    {
        proof {
            lemma_count_take(all, p, i as int);
            assert(all[i as int] == tasks@[i as int]@);
        }
        if is_mustering(tasks, head, i, classes, now) {
            m.present = m.present + 1;
            if i < head {
                m.first = false;
            }
            let higher: bool = match m.priority {
                Some(best) => tasks[i].priority > best,
                None => true,
            };
            if higher {
                m.priority = Some(tasks[i].priority);
            }
            match &tasks[i].scheduled_at {
                Some(at) => {
                    let sooner: bool = match &m.scheduled_at {
                        Some(best) => before(at.as_str(), best.as_str()),
                        None => true,
                    };
                    if sooner {
                        m.scheduled_at = Some(at.clone());
                    }
                },
                None => {},
            }
        }
        i += 1;
    }
    assert(all.take(all.len() as int) =~= all);
    m
}

/// The first member of the gang to claim.
fn choose_gang(
    tasks: &Vec<TaskRun>,
    capacity: i64,
    classes: &Vec<String>,
    pool_caps: &TextMap<i64>,
    now: &str,
) -> (r: Option<usize>)
    ensures
        ({
            let claim = GangClaim {
                capacity: capacity as int,
                classes: texts(classes@),
                caps: pool_caps@,
                now: now@,
            };
            match r {
                Some(i) => claim.choice(views(tasks@), tasks@.len() as int) == Some(i as int) && i
                    < tasks@.len() && tasks@[i as int].gang_id is Some,
                None => claim.choice(views(tasks@), tasks@.len() as int) is None,
            }
        }),
{
    let ghost all = views(tasks@);
    let ghost claim = GangClaim {
        capacity: capacity as int,
        classes: texts(classes@),
        caps: pool_caps@,
        now: now@,
    };
    let mut best: Option<(usize, Muster)> = None;
    let mut i: usize = 0;
    while i < tasks.len()
        invariant
            i <= tasks@.len(),
            all == views(tasks@),
            claim == (GangClaim {
                capacity: capacity as int,
                classes: texts(classes@),
                caps: pool_caps@,
                now: now@,
            }),
            match best {
                Some((b, m)) => {
                    &&& claim.choice(all, i as int) == Some(b as int)
                    &&& b < i
                    &&& tasks@[b as int].gang_id is Some
                    &&& opt_int(m.priority) == top_priority(
                        all,
                        claim.members(all, b as int),
                        all.len() as int,
                    )
                    &&& opt(m.scheduled_at) == earliest(
                        all,
                        claim.members(all, b as int),
                        all.len() as int,
                    )
                },
                None => claim.choice(all, i as int) is None,
            },
        decreases tasks@.len() - i,
    {
        let ghost p = claim.members(all, i as int);
        assert(all[i as int] == tasks@[i as int]@);
        if is_gang_ready(&tasks[i], classes, now) {
            let m: Muster = muster(tasks, i, classes, now);
            assert(p =~= (|t: TaskRunView| musters(all, i as int, t, texts(classes@), now@)));
            let fits: bool = match tasks[i].gang_size {
                Some(size) => {
                    if m.first && m.present as i128 == size as i128 && size <= capacity {
                        match &tasks[i].pool {
                            Some(pool) => match pool_caps.get(pool.as_str()) {
                                Some(cap) => slots_left(tasks, pool.as_str(), *cap) >= size,
                                None => true,
                            },
                            None => true,
                        }
                    } else {
                        false
                    }
                },
                None => false,
            };
            assert(fits == claim.seatable(all, i as int));
            if fits {
                let wins: bool = match &best {
                    Some((_, b)) => match (m.priority, b.priority) {
                        (Some(x), Some(y)) => x > y || (x == y && time_sorts_before(
                            &m.scheduled_at,
                            &b.scheduled_at,
                        )),
                        _ => false,
                    },
                    None => true,
                };
                if wins {
                    best = Some((i, m));
                }
            }
        }
        i += 1;
    }
    match best {
        Some((b, _)) => Some(b),
        None => None,
    }
}

// ── Claiming it ──────────────────────────────────────────────────────────────

struct ClaimGang<'a> {
    id: &'a String,
    worker: &'a str,
    lease: &'a str,
}

impl<'a> Rule<TaskRun> for ClaimGang<'a> {
    closed spec fn hits(&self, t: TaskRunView) -> bool {
        ready_member(t, self.id@)
    }

    closed spec fn image(&self, t: TaskRunView) -> TaskRunView {
        claimed(t, self.worker@, self.lease@)
    }

    closed spec fn fits(&self, t: TaskRunView) -> bool {
        t.version < i64::MAX && t.attempt < i64::MAX
    }

    fn apply(&self, row: &mut TaskRun) -> (hit: bool) {
        if row.status == TaskStatus::Ready && column_is(&row.gang_id, self.id.as_str()) {
            row.status = TaskStatus::Running;
            row.claimed_by = Some(self.worker.to_owned());
            row.lease_expires_at = Some(self.lease.to_owned());
            row.attempt = row.attempt + 1;
            row.version = row.version + 1;
            true
        } else {
            false
        }
    }
}

/// The ready members of a gang as they are handed out.
fn hand_out(tasks: &Vec<TaskRun>, id: &String, worker: &str, lease: &str) -> (out: Vec<TaskRun>)
    ensures
        views(out@) == views(tasks@).filter(|t: TaskRunView| ready_member(t, id@)).map_values(
            |t: TaskRunView| handed_out(t, worker@, lease@),
        ),
{
    let ghost all = views(tasks@);
    let ghost p = |t: TaskRunView| ready_member(t, id@);
    let ghost f = |t: TaskRunView| handed_out(t, worker@, lease@);
    let mut out: Vec<TaskRun> = Vec::new();
    let mut i: usize = 0;
    proof {
        reveal(Seq::filter);
        assert(all.take(0).filter(p) =~= Seq::<TaskRunView>::empty());
        assert(views(out@) =~= all.take(0).filter(p).map_values(f));
    }
    while i < tasks.len()
        invariant
            i <= tasks@.len(),
            all == views(tasks@),
            p == (|t: TaskRunView| ready_member(t, id@)),
            f == (|t: TaskRunView| handed_out(t, worker@, lease@)),
            views(out@) == all.take(i as int).filter(p).map_values(f),
        decreases tasks@.len() - i,
    {
        let ghost so_far = all.take(i as int).filter(p);
        proof {
            reveal(Seq::filter);
            assert(all.take(i as int + 1).drop_last() =~= all.take(i as int));
            assert(all[i as int] == tasks@[i as int]@);
        }
        if tasks[i].status == TaskStatus::Ready && column_is(&tasks[i].gang_id, id.as_str()) {
            let ghost handed = views(out@);
            let mut row: TaskRun = tasks[i].duplicate();
            row.status = TaskStatus::Running;
            row.claimed_by = Some(worker.to_owned());
            row.lease_expires_at = Some(lease.to_owned());
            out.push(row);
            assert(views(out@) =~= handed.push(f(all[i as int])));
            assert(so_far.push(all[i as int]).map_values(f) =~= so_far.map_values(f).push(
                f(all[i as int]),
            ));
        }
        i += 1;
    }
    assert(all.take(all.len() as int) =~= all);
    out
}

/// The gang that a claim takes.
pub open spec fn gang_taken(tasks: Seq<TaskRunView>, claim: GangClaim) -> Option<Seq<char>> {
    if claim.capacity < 2 {
        None
    } else {
        match claim.choice(tasks, tasks.len() as int) {
            Some(i) => tasks[i].gang_id,
            None => None,
        }
    }
}

/// Claims every member of one gang, or nothing: of the gangs that are claimable
/// in full and that both the claimer and their pool can seat, the one with the
/// highest priority, then the earliest schedule, then the earliest row.
pub fn claim_ready_gang(
    db: &mut Store,
    worker_id: &str,
    capacity: i64,
    classes: &Vec<String>,
    pool_caps: &TextMap<i64>,
    now: &str,
    lease_until: &str,
) -> (out: Vec<TaskRun>)
    requires
        claims_fit(old(db)@.tasks),
    ensures
        match gang_taken(
            old(db)@.tasks,
            (GangClaim {
                capacity: capacity as int,
                classes: texts(classes@),
                caps: pool_caps@,
                now: now@,
            }),
        ) {
            None => out@.len() == 0 && final(db)@ == old(db)@,
            Some(id) => {
                &&& views(out@) == old(db)@.tasks.filter(
                    |t: TaskRunView| ready_member(t, id),
                ).map_values(|t: TaskRunView| handed_out(t, worker_id@, lease_until@))
                &&& final(db)@ == (StoreView {
                    tasks: with_gang_claimed(old(db)@.tasks, id, worker_id@, lease_until@),
                    ..old(db)@
                })
            },
        },
{
    let ghost was = db@;
    if capacity < 2 {
        return Vec::new();
    }
    match choose_gang(&db.tasks, capacity, classes, pool_caps, now) {
        None => Vec::new(),
        Some(i) => {
            assert(was.tasks[i as int] == db.tasks@[i as int]@);
            match &db.tasks[i].gang_id {
                None => Vec::new(),
                Some(gang) => {
                    let id: String = gang.clone();
                    let out: Vec<TaskRun> = hand_out(&db.tasks, &id, worker_id, lease_until);
                    let rule: ClaimGang = ClaimGang { id: &id, worker: worker_id, lease: lease_until };
                    proof {
                        assert forall|k: int|
                            0 <= k < db.tasks@.len() && rule.hits((#[trigger] db.tasks@[k])@) implies rule.fits(
                                db.tasks@[k]@
                            ) by {
                            assert(was.tasks[k] == db.tasks@[k]@);
                        }
                    }
                    let _ = update_all(&mut db.tasks, &rule);
                    assert(db@.tasks =~= amended(
                        was.tasks,
                        |t: TaskRunView| ready_member(t, id@),
                        |t: TaskRunView| claimed(t, worker_id@, lease_until@),
                    ));
                    out
                },
            }
        },
    }
}

// ── Alarms and endings ───────────────────────────────────────────────────────

/// A ready member of a gang larger than `max_size`.
pub open spec fn oversized(t: TaskRunView, max_size: int) -> bool {
    t.status == TaskStatus::Ready && t.gang_id is Some && t.gang_size is Some && t.gang_size->0
        > max_size
}

/// The oversized gangs among the first `n` rows, each once.
pub open spec fn oversized_gangs(tasks: Seq<TaskRunView>, max_size: int, n: int) -> Seq<(Seq<char>, int)>
    decreases n,
{
    if n <= 0 {
        Seq::empty()
    } else {
        let rest = oversized_gangs(tasks, max_size, n - 1);
        let t = tasks[n - 1];
        if oversized(t, max_size) && !rest.contains((t.gang_id->0, t.gang_size->0)) {
            rest.push((t.gang_id->0, t.gang_size->0))
        } else {
            rest
        }
    }
}

/// Gang ids and sizes by their meaning.
pub open spec fn gang_sizes(v: Seq<(String, i64)>) -> Seq<(Seq<char>, int)> {
    v.map_values(|g: (String, i64)| (g.0@, g.1 as int))
}

fn lists_gang(v: &Vec<(String, i64)>, id: &str, size: i64) -> (r: bool)
    ensures
        r == gang_sizes(v@).contains((id@, size as int)),
{
    let mut i: usize = 0;
    while i < v.len()
        invariant
            i <= v@.len(),
            forall|k: int| 0 <= k < i ==> #[trigger] gang_sizes(v@)[k] != (id@, size as int),
        decreases v@.len() - i,
    {
        assert(gang_sizes(v@)[i as int] == (v@[i as int].0@, v@[i as int].1 as int));
        if v[i].1 == size && same(v[i].0.as_str(), id) {
            return true;
        }
        i += 1;
    }
    false
}

/// Ready gangs that no claimer with `max_size` slots can ever take.
pub fn oversized_ready_gangs(db: &Store, max_size: i64) -> (r: Vec<(String, i64)>)
    ensures
        gang_sizes(r@) == oversized_gangs(db@.tasks, max_size as int, db@.tasks.len() as int),
{
    let mut out: Vec<(String, i64)> = Vec::new();
    let mut i: usize = 0;
    assert(gang_sizes(out@) =~= Seq::<(Seq<char>, int)>::empty());
    while i < db.tasks.len()
        invariant
            i <= db.tasks@.len(),
            gang_sizes(out@) == oversized_gangs(db@.tasks, max_size as int, i as int),
        decreases db.tasks@.len() - i,
    {
        assert(db@.tasks[i as int] == db.tasks@[i as int]@);
        let row: &TaskRun = &db.tasks[i];
        if row.status == TaskStatus::Ready {
            match (&row.gang_id, row.gang_size) {
                (Some(id), Some(size)) => {
                    if size > max_size && !lists_gang(&out, id.as_str(), size) {
                        let ghost was = gang_sizes(out@);
                        out.push((id.clone(), size));
                        assert(gang_sizes(out@) =~= was.push((id@, size as int)));
                    }
                },
                _ => {},
            }
        }
        i += 1;
    }
    out
}

/// The gang of the first row with this id.
pub open spec fn gang_of(tasks: Seq<TaskRunView>, id: Seq<char>, n: int) -> Option<Seq<char>>
    decreases n,
{
    if n <= 0 || n > tasks.len() {
        None
    } else if tasks[tasks.len() - n].id == id {
        tasks[tasks.len() - n].gang_id
    } else {
        gang_of(tasks, id, n - 1)
    }
}

/// A member of the gang other than `member` that is not over yet.
pub open spec fn live_sibling(t: TaskRunView, gang: Option<Seq<char>>, member: Seq<char>) -> bool {
    gang is Some && t.gang_id == gang && t.id != member && !t.status.terminal()
}

/// Cancelled along with its gang; the version bump fences a running attempt.
pub open spec fn gang_cancelled(t: TaskRunView, now: Seq<char>) -> TaskRunView {
    TaskRunView {
        status: TaskStatus::Cancelled,
        claimed_by: None,
        lease_expires_at: None,
        version: t.version + 1,
        finished_at: Some(now),
        output: Some(
            if t.output is Some { t.output->0 } else { "cancelled: gang member failed"@ },
        ),
        ..t
    }
}

struct CancelSiblings<'a> {
    gang: &'a Option<String>,
    member: &'a str,
    now: &'a str,
}

impl<'a> Rule<TaskRun> for CancelSiblings<'a> {
    closed spec fn hits(&self, t: TaskRunView) -> bool {
        live_sibling(t, opt(*self.gang), self.member@)
    }

    closed spec fn image(&self, t: TaskRunView) -> TaskRunView {
        gang_cancelled(t, self.now@)
    }

    closed spec fn fits(&self, t: TaskRunView) -> bool {
        t.version < i64::MAX
    }

    fn apply(&self, row: &mut TaskRun) -> (hit: bool) {
        let over: bool = row.status.is_terminal();
        if !(self.gang.is_some() && !over && same_text(&row.gang_id, self.gang) && !same(
            row.id.as_str(),
            self.member,
        )) {
            return false;
        }
        row.status = TaskStatus::Cancelled;
        row.claimed_by = None;
        row.lease_expires_at = None;
        row.version = row.version + 1;
        row.finished_at = Some(self.now.to_owned());
        if row.output.is_none() {
            row.output = Some("cancelled: gang member failed".to_owned());
        }
        true
    }
}

/// The gang of the first row with this id.
fn find_gang(tasks: &Vec<TaskRun>, id: &str) -> (r: Option<String>)
    ensures
        opt(r) == gang_of(views(tasks@), id@, tasks@.len() as int),
{
    let ghost all = views(tasks@);
    let n: usize = tasks.len();
    let mut i: usize = 0;
    while i < n
        invariant
            i <= n,
            n == tasks@.len(),
            all == views(tasks@),
            gang_of(all, id@, n as int) == gang_of(all, id@, n - i),
        decreases n - i,
    {
        assert(all[i as int] == tasks@[i as int]@);
        if same(tasks[i].id.as_str(), id) {
            return tasks[i].gang_id.clone();
        }
        i += 1;
    }
    None
}

/// Cancels every sibling of a failed gang member that is not over yet.
pub fn cancel_gang_siblings(db: &mut Store, member_id: &str, now: &str) -> (n: u64)
    requires
        claims_fit(old(db)@.tasks),
    ensures
        ({
            let gang = gang_of(old(db)@.tasks, member_id@, old(db)@.tasks.len() as int);
            &&& n == count(old(db)@.tasks, |t: TaskRunView| live_sibling(t, gang, member_id@))
            &&& final(db)@ == (StoreView {
                tasks: amended(
                    old(db)@.tasks,
                    |t: TaskRunView| live_sibling(t, gang, member_id@),
                    |t: TaskRunView| gang_cancelled(t, now@),
                ),
                ..old(db)@
            })
        }),
{
    let ghost was = db@;
    let gang: Option<String> = find_gang(&db.tasks, member_id);
    let rule: CancelSiblings = CancelSiblings { gang: &gang, member: member_id, now };
    proof {
        assert forall|k: int|
            0 <= k < db.tasks@.len() && rule.hits((#[trigger] db.tasks@[k])@) implies rule.fits(
                db.tasks@[k]@
            ) by {
            assert(was.tasks[k] == db.tasks@[k]@);
        }
    }
    let n: u64 = update_all(&mut db.tasks, &rule);
    proof {
        lemma_count_same(
            was.tasks,
            |t: TaskRunView| rule.hits(t),
            |t: TaskRunView| live_sibling(t, opt(gang), member_id@),
        );
    }
    assert(db@.tasks =~= amended(
        was.tasks,
        |t: TaskRunView| live_sibling(t, opt(gang), member_id@),
        |t: TaskRunView| gang_cancelled(t, now@),
    ));
    n
}

} // verus!
