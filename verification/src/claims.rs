//! Claiming ready tasks: who may claim what, in which order, within which pool
//! budgets; and gangs, which are claimed whole or not at all.
use vstd::prelude::*;
use vstd::string::*;
use crate::dag::contains_text;
use crate::models::TaskStatus;
use crate::order::{
    lemma_limited_members, lemma_ordered_members, limit_of, limited, ordered, places, select, Keep, Order,
};
use crate::rows::{opt, views, Row, TaskRun, TaskRunView};
use crate::store::{column_is, due, is_due, Store, StoreView};
use crate::table::{count, lemma_count_bounded, lemma_count_take};
use crate::tasks::claims_fit;
use crate::text::{before, lex_lt, texts};
use crate::text_map::{entries_map, lemma_parallel, TextMap};

verus! {

// ── Pools ────────────────────────────────────────────────────────────────────

/// A row that stays in `running` without a worker: a sensor or a trigger.
pub open spec fn parked(t: TaskRunView) -> bool {
    t.wake_at is Some || t.wait_url is Some || t.wait_dataset is Some || t.sub_run_id is Some
}

/// A row that takes one of the pool's slots.
pub open spec fn occupies(t: TaskRunView, pool: Seq<char>) -> bool {
    t.status == TaskStatus::Running && t.pool == Some(pool) && !parked(t)
}

/// The slots of a pool that are taken.
pub open spec fn pool_running(tasks: Seq<TaskRunView>, pool: Seq<char>) -> nat {
    count(tasks, |t: TaskRunView| occupies(t, pool))
}

/// The slots of a pool that are free under its capacity.
pub open spec fn free_slots(tasks: Seq<TaskRunView>, pool: Seq<char>, cap: i64) -> i64 {
    if cap > pool_running(tasks, pool) { (cap - pool_running(tasks, pool)) as i64 } else { 0 }
}

/// The free slots of every pool with a capacity.
pub open spec fn budgets(tasks: Seq<TaskRunView>, caps: Map<Seq<char>, i64>) -> Map<Seq<char>, i64> {
    Map::new(|p: Seq<char>| caps.contains_key(p), |p: Seq<char>| free_slots(tasks, p, caps[p]))
}

/// Whether the row takes one of the pool's slots.
fn is_occupying(row: &TaskRun, pool: &str) -> (r: bool)
    ensures
        r == occupies(row@, pool@),
{
    row.status == TaskStatus::Running && column_is(&row.pool, pool) && row.wake_at.is_none()
        && row.wait_url.is_none() && row.wait_dataset.is_none() && row.sub_run_id.is_none()
}

/// The free slots of one pool.
pub fn slots_left(tasks: &Vec<TaskRun>, pool: &str, cap: i64) -> (n: i64)
    ensures
        n == free_slots(views(tasks@), pool@, cap),
{
    let ghost all = views(tasks@);
    let ghost p = |t: TaskRunView| occupies(t, pool@);
    let mut left: i64 = cap;
    let mut i: usize = 0;
    assert(all.take(0) =~= Seq::<TaskRunView>::empty());
    proof {
        lemma_count_bounded(all, p);
    }
    while i < tasks.len()
        invariant
            i <= tasks@.len(),
            all == views(tasks@),
            p == (|t: TaskRunView| occupies(t, pool@)),
            cap > 0 ==> left == (if cap > count(all.take(i as int), p) {
                cap - count(all.take(i as int), p)
            } else {
                0
            }),
            cap <= 0 ==> left == cap,
        decreases tasks@.len() - i,
    {
        proof {
            lemma_count_take(all, p, i as int);
            assert(all[i as int] == tasks@[i as int]@);
        }
        if left > 0 && is_occupying(&tasks[i], pool) {
            left = left - 1;
        }
        i += 1;
    }
    assert(all.take(all.len() as int) =~= all);
    if left > 0 {
        left
    } else {
        0
    }
}

/// The free slots of every pool with a capacity.
fn open_budgets(tasks: &Vec<TaskRun>, caps: &TextMap<i64>) -> (r: TextMap<i64>)
    ensures
        r@ == budgets(views(tasks@), caps@),
{
    let mut entries: Vec<(String, i64)> = Vec::new();
    let mut i: usize = 0;
    let ghost f = |p: Seq<char>, cap: i64| free_slots(views(tasks@), p, cap);
    while i < caps.entries.len()
        invariant
            i <= caps.entries@.len(),
            entries@.len() == i,
            f == (|p: Seq<char>, cap: i64| free_slots(views(tasks@), p, cap)),
            forall|k: int|
                0 <= k < i ==> (#[trigger] caps.entries@[k]).0@ == entries@[k].0@ && entries@[k].1 == f(
                    caps.entries@[k].0@,
                    caps.entries@[k].1,
                ),
        decreases caps.entries@.len() - i,
    {
        let left: i64 = slots_left(tasks, caps.entries[i].0.as_str(), caps.entries[i].1);
        entries.push((caps.entries[i].0.clone(), left));
        i += 1;
    }
    proof {
        lemma_parallel(caps.entries@, entries@, f);
        let got = entries_map(entries@);
        assert forall|p: Seq<char>| #[trigger] got.contains_key(p) implies got[p] == budgets(
            views(tasks@),
            caps@,
        )[p] by {
            assert(caps@.contains_key(p));
        }
        assert(got =~= budgets(views(tasks@), caps@));
    }
    TextMap { entries }
}

// ── The queue ────────────────────────────────────────────────────────────────

/// What a claim asks for.
pub struct ClaimFilter<'a> {
    /// The runner classes it serves; none means every class.
    pub classes: &'a Vec<String>,
    /// Whether gang members are left alone.
    pub exclude_gangs: bool,
    pub now: &'a str,
}

/// Not scheduled for later.
pub open spec fn claimable_now(t: TaskRunView, now: Seq<char>) -> bool {
    t.status == TaskStatus::Ready && (t.scheduled_at is None || due(t.scheduled_at, now))
}

/// A class that the claim serves.
pub open spec fn served(class: Seq<char>, classes: Seq<Seq<char>>) -> bool {
    classes.len() == 0 || classes.contains(class)
}

/// The pool has a capacity and no slot left.
pub open spec fn pool_full(pool: Option<Seq<char>>, left: Map<Seq<char>, i64>) -> bool {
    pool is Some && left.contains_key(pool->0) && left[pool->0] <= 0
}

/// The row may be claimed by this filter, given the free slots.
pub open spec fn eligible(
    t: TaskRunView,
    classes: Seq<Seq<char>>,
    exclude_gangs: bool,
    now: Seq<char>,
    left: Map<Seq<char>, i64>,
) -> bool {
    &&& claimable_now(t, now)
    &&& served(t.runner_class, classes)
    &&& !pool_full(t.pool, left)
    &&& !(exclude_gangs && t.gang_id is Some)
}

/// A time column sorts by its text, with null first.
pub open spec fn time_before(a: Option<Seq<char>>, b: Option<Seq<char>>) -> bool {
    match (a, b) {
        (None, Some(_)) => true,
        (Some(x), Some(y)) => lex_lt(x, y),
        _ => false,
    }
}

/// A row that is claimed before another: higher priority first, then the
/// earlier schedule.
pub open spec fn goes_before(a: TaskRunView, b: TaskRunView) -> bool {
    a.priority > b.priority || (a.priority == b.priority && time_before(
        a.scheduled_at,
        b.scheduled_at,
    ))
}

struct ClaimOrder {}

impl Order<TaskRun> for ClaimOrder {
    closed spec fn lt(&self, a: TaskRunView, b: TaskRunView) -> bool {
        goes_before(a, b)
    }

    fn sorts_before(&self, a: &TaskRun, b: &TaskRun) -> (r: bool) {
        a.priority > b.priority || (a.priority == b.priority && time_sorts_before(
            &a.scheduled_at,
            &b.scheduled_at,
        ))
    }
}

/// Whether a time column sorts before another, with null first.
pub fn time_sorts_before(a: &Option<String>, b: &Option<String>) -> (r: bool)
    ensures
        r == time_before(opt(*a), opt(*b)),
{
    match (a, b) {
        (None, Some(_)) => true,
        (Some(x), Some(y)) => before(x.as_str(), y.as_str()),
        _ => false,
    }
}

/// The rows that the first `k` of the queue `q` get, and the slots left after
/// them: a row is passed over where its pool has run out of slots.
pub open spec fn admitted(
    tasks: Seq<TaskRunView>,
    q: Seq<int>,
    left: Map<Seq<char>, i64>,
    k: int,
) -> (Seq<int>, Map<Seq<char>, i64>)
    decreases k,
{
    if k <= 0 {
        (Seq::empty(), left)
    } else {
        let (taken, now_left) = admitted(tasks, q, left, k - 1);
        let t = tasks[q[k - 1]];
        if pool_full(t.pool, now_left) {
            (taken, now_left)
        } else if t.pool is Some && now_left.contains_key(t.pool->0) {
            (taken.push(q[k - 1]), now_left.insert(t.pool->0, (now_left[t.pool->0] - 1) as i64))
        } else {
            (taken.push(q[k - 1]), now_left)
        }
    }
}

/// The rows a claim takes, in the order in which it takes them.
pub open spec fn claim_set(
    tasks: Seq<TaskRunView>,
    limit: int,
    classes: Seq<Seq<char>>,
    caps: Map<Seq<char>, i64>,
    exclude_gangs: bool,
    now: Seq<char>,
) -> Seq<int> {
    let left = budgets(tasks, caps);
    let q = limited(
        ordered(
            tasks,
            |t: TaskRunView| eligible(t, classes, exclude_gangs, now, left),
            |a: TaskRunView, b: TaskRunView| goes_before(a, b),
            tasks.len() as int,
        ),
        limit,
    );
    admitted(tasks, q, left, q.len() as int).0
}

/// A row once a worker has claimed it.
pub open spec fn claimed(t: TaskRunView, worker: Seq<char>, lease: Seq<char>) -> TaskRunView {
    TaskRunView {
        status: TaskStatus::Running,
        claimed_by: Some(worker),
        lease_expires_at: Some(lease),
        attempt: t.attempt + 1,
        version: t.version + 1,
        ..t
    }
}

/// The rows with those at the places `taken` claimed.
pub open spec fn with_claims(
    tasks: Seq<TaskRunView>,
    taken: Seq<int>,
    worker: Seq<char>,
    lease: Seq<char>,
) -> Seq<TaskRunView> {
    Seq::new(
        tasks.len(),
        |i: int| if taken.contains(i) { claimed(tasks[i], worker, lease) } else { tasks[i] },
    )
}

fn is_eligible(row: &TaskRun, filter: &ClaimFilter, left: &TextMap<i64>) -> (r: bool)
    ensures
        r == eligible(row@, texts(filter.classes@), filter.exclude_gangs, filter.now@, left@),
{
    if row.status != TaskStatus::Ready {
        return false;
    }
    if row.scheduled_at.is_some() && !is_due(&row.scheduled_at, filter.now) {
        return false;
    }
    if filter.classes.len() > 0 && !contains_text(filter.classes, row.runner_class.as_str()) {
        return false;
    }
    if has_no_slot(row, left) {
        return false;
    }
    !(filter.exclude_gangs && row.gang_id.is_some())
}

/// Whether the row's pool has a capacity and no slot left.
fn has_no_slot(row: &TaskRun, left: &TextMap<i64>) -> (r: bool)
    ensures
        r == pool_full(row@.pool, left@),
{
    match &row.pool {
        Some(p) => match left.get(p.as_str()) {
            Some(n) => *n <= 0,
            None => false,
        },
        None => false,
    }
}

struct Eligible<'a> {
    filter: &'a ClaimFilter<'a>,
    left: &'a TextMap<i64>,
}

impl<'a> Keep<TaskRun> for Eligible<'a> {
    closed spec fn keeps(&self, t: TaskRunView) -> bool {
        eligible(
            t,
            texts(self.filter.classes@),
            self.filter.exclude_gangs,
            self.filter.now@,
            self.left@,
        )
    }

    fn keep(&self, row: &TaskRun) -> (r: bool) {
        is_eligible(row, self.filter, self.left)
    }
}

/// What is admitted comes from the queue, in its order, each row once.
pub proof fn lemma_admitted_members(
    tasks: Seq<TaskRunView>,
    q: Seq<int>,
    left: Map<Seq<char>, i64>,
    k: int,
)
    requires
        0 <= k <= q.len(),
        q.no_duplicates(),
    ensures
        admitted(tasks, q, left, k).0.no_duplicates(),
        forall|i: int| #[trigger]
            admitted(tasks, q, left, k).0.contains(i) ==> q.take(k).contains(i),
    decreases k,
{
    if k > 0 {
        lemma_admitted_members(tasks, q, left, k - 1);
        let prev = admitted(tasks, q, left, k - 1).0;
        let out = admitted(tasks, q, left, k).0;
        assert(!prev.contains(q[k - 1])) by {
            if prev.contains(q[k - 1]) {
                let head = q.take(k - 1);
                let m = choose|m: int| 0 <= m < head.len() && head[m] == q[k - 1];
                assert(q[m] == q[k - 1]);
            }
        }
        assert forall|i: int| #[trigger] out.contains(i) implies q.take(k).contains(i) by {
            let m = choose|m: int| 0 <= m < out.len() && out[m] == i;
            if m < prev.len() {
                assert(prev[m] == i);
                assert(prev.contains(i));
                let head = q.take(k - 1);
                let x = choose|x: int| 0 <= x < head.len() && head[x] == i;
                assert(q.take(k)[x] == i);
            } else {
                assert(q.take(k)[k - 1] == i);
            }
        }
        assert(out.no_duplicates()) by {
            assert forall|a: int, b: int| 0 <= a < b < out.len() implies out[a] != out[b] by {
                if b == prev.len() {
                    assert(prev.contains(prev[a]));
                }
            }
        }
    }
}

/// Seats the queue `q` within the budgets.
fn seat(tasks: &Vec<TaskRun>, q: &Vec<usize>, len: usize, left: TextMap<i64>) -> (taken: Vec<usize>)
    requires
        len <= q@.len(),
        forall|k: int| 0 <= k < q@.len() ==> #[trigger] q@[k] < tasks@.len(),
    ensures
        places(taken@) == admitted(
            views(tasks@),
            places(q@).take(len as int),
            left@,
            len as int,
        ).0,
        forall|k: int| 0 <= k < taken@.len() ==> #[trigger] taken@[k] < tasks@.len(),
{
    let ghost all = views(tasks@);
    let ghost line = places(q@).take(len as int);
    let ghost start = left@;
    let mut left: TextMap<i64> = left;
    let mut taken: Vec<usize> = Vec::new();
    let mut k: usize = 0;
    assert(places(taken@) =~= Seq::<int>::empty());
    while k < len
        invariant
            k <= len <= q@.len(),
            all == views(tasks@),
            line == places(q@).take(len as int),
            (places(taken@), left@) == admitted(all, line, start, k as int),
            forall|x: int| 0 <= x < q@.len() ==> #[trigger] q@[x] < tasks@.len(),
            forall|x: int| 0 <= x < taken@.len() ==> #[trigger] taken@[x] < tasks@.len(),
        decreases len - k,
    {
        let i: usize = q[k];
        let ghost before = places(taken@);
        assert(line[k as int] == i);
        assert(all[i as int] == tasks@[i as int]@);
        if !has_no_slot(&tasks[i], &left) {
            match &tasks[i].pool {
                Some(p) => {
                    let n: Option<i64> = match left.get(p.as_str()) {
                        Some(n) => Some(*n),
                        None => None,
                    };
                    match n {
                        Some(n) => {
                            left.insert(p.clone(), n - 1);
                        },
                        None => {},
                    }
                },
                None => {},
            }
            taken.push(i);
            assert(places(taken@) =~= before.push(i as int));
        }
        k += 1;
    }
    taken
}

/// Claims the rows at the places `taken` and hands out what they were before.
fn take_claims(
    tasks: &mut Vec<TaskRun>,
    taken: &Vec<usize>,
    worker: &str,
    lease: &str,
) -> (out: Vec<TaskRun>)
    requires
        places(taken@).no_duplicates(),
        forall|k: int| 0 <= k < taken@.len() ==> #[trigger] taken@[k] < old(tasks)@.len(),
        claims_fit(views(old(tasks)@)),
    ensures
        views(final(tasks)@) == with_claims(views(old(tasks)@), places(taken@), worker@, lease@),
        views(out@) == places(taken@).map_values(|i: int| views(old(tasks)@)[i]),
{
    let ghost was = views(tasks@);
    let mut out: Vec<TaskRun> = Vec::new();
    let mut k: usize = 0;
    assert(views(out@) =~= places(taken@).take(0).map_values(|i: int| was[i]));
    assert(views(tasks@) =~= with_claims(was, places(taken@).take(0), worker@, lease@));
    while k < taken.len()
        invariant
            k <= taken@.len(),
            tasks@.len() == was.len(),
            places(taken@).no_duplicates(),
            claims_fit(was),
            forall|x: int| 0 <= x < taken@.len() ==> #[trigger] taken@[x] < tasks@.len(),
            views(tasks@) == with_claims(was, places(taken@).take(k as int), worker@, lease@),
            views(out@) == places(taken@).take(k as int).map_values(|i: int| was[i]),
        decreases taken@.len() - k,
    {
        let i: usize = taken[k];
        let ghost so_far = places(taken@).take(k as int);
        let ghost next = places(taken@).take(k as int + 1);
        assert(next =~= so_far.push(i as int));
        assert(!so_far.contains(i as int)) by {
            if so_far.contains(i as int) {
                let m = choose|m: int| 0 <= m < so_far.len() && so_far[m] == i;
                assert(places(taken@)[m] == places(taken@)[k as int]);
            }
        }
        let ghost before = views(tasks@);
        assert(before[i as int] == tasks@[i as int]@);
        assert(tasks@[i as int]@ == was[i as int]);
        assert(was[i as int].version < i64::MAX && was[i as int].attempt < i64::MAX);
        let ghost handed = views(out@);
        out.push(tasks[i].duplicate());
        assert(views(out@) =~= handed.push(was[i as int]));
        assert(next.map_values(|i: int| was[i]) =~= so_far.map_values(|i: int| was[i]).push(
            was[i as int],
        ));
        let row: &mut TaskRun = &mut tasks[i];
        row.status = TaskStatus::Running;
        row.claimed_by = Some(worker.to_owned());
        row.lease_expires_at = Some(lease.to_owned());
        row.attempt = row.attempt + 1;
        row.version = row.version + 1;
        proof {
            assert forall|j: int| 0 <= j < was.len() implies views(tasks@)[j] == with_claims(
                was,
                next,
                worker@,
                lease@,
            )[j] by {
                assert(next.contains(j) == (so_far.contains(j) || j == i)) by {
                    if so_far.contains(j) {
                        let m = choose|m: int| 0 <= m < so_far.len() && so_far[m] == j;
                        assert(next[m] == j);
                    }
                    if j == i {
                        assert(next[k as int] == j);
                    }
                    if next.contains(j) {
                        let m = choose|m: int| 0 <= m < next.len() && next[m] == j;
                        if m < k {
                            assert(so_far[m] == j);
                        }
                    }
                }
                if j != i {
                    assert(views(tasks@)[j] == before[j]);
                }
            }
            assert(views(tasks@) =~= with_claims(was, next, worker@, lease@));
        }
        k += 1;
    }
    assert(places(taken@).take(taken@.len() as int) =~= places(taken@));
    out
}

/// Claims up to `limit` ready rows for a worker: those of the classes it
/// serves, best first, as far as their pools have slots. Hands out the rows as
/// they were before the claim; the claim's fence is one above the version.
fn claim_ready_filtered(
    db: &mut Store,
    worker_id: &str,
    limit: i64,
    classes: &Vec<String>,
    pool_caps: &TextMap<i64>,
    exclude_gangs: bool,
    now: &str,
    lease_until: &str,
) -> (out: Vec<TaskRun>)
    requires
        claims_fit(old(db)@.tasks),
    ensures
        ({
            let taken = claim_set(
                old(db)@.tasks,
                limit as int,
                texts(classes@),
                pool_caps@,
                exclude_gangs,
                now@,
            );
            &&& views(out@) == taken.map_values(|i: int| old(db)@.tasks[i])
            &&& final(db)@ == (StoreView {
                tasks: with_claims(old(db)@.tasks, taken, worker_id@, lease_until@),
                ..old(db)@
            })
        }),
{
    let ghost was = db@;
    let filter: ClaimFilter = ClaimFilter { classes, exclude_gangs, now };
    let left: TextMap<i64> = open_budgets(&db.tasks, pool_caps);
    let keep: Eligible = Eligible { filter: &filter, left: &left };
    let order: ClaimOrder = ClaimOrder {};
    let q: Vec<usize> = select(&db.tasks, &keep, &order);
    let len: usize = limit_of(q.len(), limit);
    let ghost p = |t: TaskRunView| eligible(t, texts(classes@), exclude_gangs, now@, left@);
    let ghost lt = |a: TaskRunView, b: TaskRunView| goes_before(a, b);
    let ghost all = ordered(was.tasks, p, lt, was.tasks.len() as int);
    let ghost line = limited(all, limit as int);
    proof {
        assert(p =~= (|t: TaskRunView| keep.keeps(t)));
        assert(lt =~= (|a: TaskRunView, b: TaskRunView| order.lt(a, b)));
        lemma_ordered_members(was.tasks, p, lt, was.tasks.len() as int);
        lemma_limited_members(all, limit as int);
        assert(line =~= places(q@).take(len as int));
        lemma_admitted_members(was.tasks, line, left@, line.len() as int);
    }
    let taken: Vec<usize> = seat(&db.tasks, &q, len, left);
    let out: Vec<TaskRun> = take_claims(&mut db.tasks, &taken, worker_id, lease_until);
    out
}

/// Claims up to `limit` ready rows of any class, without pool budgets.
pub fn claim_ready(db: &mut Store, worker_id: &str, limit: i64, now: &str, lease_until: &str) -> (out:
    Vec<TaskRun>)
    requires
        claims_fit(old(db)@.tasks),
    ensures
        ({
            let taken = claim_set(
                old(db)@.tasks,
                limit as int,
                Seq::empty(),
                Map::empty(),
                false,
                now@,
            );
            &&& views(out@) == taken.map_values(|i: int| old(db)@.tasks[i])
            &&& final(db)@ == (StoreView {
                tasks: with_claims(old(db)@.tasks, taken, worker_id@, lease_until@),
                ..old(db)@
            })
        }),
{
    let classes: Vec<String> = Vec::new();
    assert(texts(classes@) =~= Seq::<Seq<char>>::empty());
    let caps: TextMap<i64> = TextMap::new();
    claim_ready_filtered(db, worker_id, limit, &classes, &caps, false, now, lease_until)
}

/// Claims up to `limit` ready rows of the given classes, within the pool budgets.
pub fn claim_ready_classes(
    db: &mut Store,
    worker_id: &str,
    limit: i64,
    classes: &Vec<String>,
    pool_caps: &TextMap<i64>,
    now: &str,
    lease_until: &str,
) -> (out: Vec<TaskRun>)
    requires
        claims_fit(old(db)@.tasks),
    ensures
        ({
            let taken = claim_set(
                old(db)@.tasks,
                limit as int,
                texts(classes@),
                pool_caps@,
                false,
                now@,
            );
            &&& views(out@) == taken.map_values(|i: int| old(db)@.tasks[i])
            &&& final(db)@ == (StoreView {
                tasks: with_claims(old(db)@.tasks, taken, worker_id@, lease_until@),
                ..old(db)@
            })
        }),
{
    claim_ready_filtered(db, worker_id, limit, classes, pool_caps, false, now, lease_until)
}

/// [`claim_ready_classes`] that leaves gang members alone.
pub fn claim_ready_classes_nongang(
    db: &mut Store,
    worker_id: &str,
    limit: i64,
    classes: &Vec<String>,
    pool_caps: &TextMap<i64>,
    now: &str,
    lease_until: &str,
) -> (out: Vec<TaskRun>)
    requires
        claims_fit(old(db)@.tasks),
    ensures
        ({
            let taken = claim_set(
                old(db)@.tasks,
                limit as int,
                texts(classes@),
                pool_caps@,
                true,
                now@,
            );
            &&& views(out@) == taken.map_values(|i: int| old(db)@.tasks[i])
            &&& final(db)@ == (StoreView {
                tasks: with_claims(old(db)@.tasks, taken, worker_id@, lease_until@),
                ..old(db)@
            })
        }),
{
    claim_ready_filtered(db, worker_id, limit, classes, pool_caps, true, now, lease_until)
}

} // verus!
