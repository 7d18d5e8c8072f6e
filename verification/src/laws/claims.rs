//! What a claim is for: the most urgent work first, the longest wait first among
//! equals, nothing that may not run yet, and no idle slot beside waiting work.
use vstd::prelude::*;
use crate::claims::{
    admitted, budgets, claim_set, eligible, goes_before, lemma_admitted_members, pool_full, pool_running,
    with_claims,
};
use crate::gangs::{handed_out, ready_member};
use crate::laws::{lemma_claim_order, lemma_seats_within, seats};
use crate::leases::{earlier_text, hands_out, hands_out_gang, instant_text};
use crate::models::TaskStatus;
use crate::order::{
    lemma_limited_members, lemma_ordered_len, lemma_ordered_members, lemma_ordered_sorted, limited,
    ordered,
};
use crate::rows::TaskRunView;
use crate::store::StoreView;
use crate::table::lemma_count_filter;
use crate::text::lex_lt;
use crate::time::{rfc3339_text, shifted_text, Timestamp};

verus! {

/// The rows that keep a worker busy in a pool: running, and not parked on a
/// time, an address, a dataset or a child run.
pub open spec fn busy_in(tasks: Seq<TaskRunView>, pool: Seq<char>) -> nat {
    tasks.filter(
        |t: TaskRunView|
            t.status == TaskStatus::Running && t.pool == Some(pool) && t.wake_at is None && t.wait_url
                is None && t.wait_dataset is None && t.sub_run_id is None,
    ).len()
}

/// The row waits for a worker: it is ready, its time has come, its class is
/// asked for, and its pool, where that has a capacity, is not full.
pub open spec fn waits_for_worker(
    tasks: Seq<TaskRunView>,
    t: TaskRunView,
    classes: Seq<Seq<char>>,
    caps: Map<Seq<char>, i64>,
    exclude_gangs: bool,
    now: Seq<char>,
) -> bool {
    &&& t.status == TaskStatus::Ready
    &&& t.scheduled_at matches Some(at) ==> !lex_lt(now, at)
    &&& classes.len() > 0 ==> classes.contains(t.runner_class)
    &&& exclude_gangs ==> t.gang_id is None
    &&& t.pool matches Some(p) ==> (caps.contains_key(p) ==> busy_in(tasks, p) < caps[p])
}

/// `a` is at least as urgent as `b`: of higher priority, or of the same and
/// scheduled no later. A row without a schedule has waited longest.
pub open spec fn as_urgent(a: TaskRunView, b: TaskRunView) -> bool {
    a.priority > b.priority || (a.priority == b.priority && match (a.scheduled_at, b.scheduled_at) {
        (None, _) => true,
        (Some(_), None) => false,
        (Some(x), Some(y)) => !lex_lt(y, x),
    })
}

pub proof fn lemma_busy(tasks: Seq<TaskRunView>, pool: Seq<char>)
    ensures
        pool_running(tasks, pool) == busy_in(tasks, pool),
{
    let p = |t: TaskRunView| crate::claims::occupies(t, pool);
    let q = |t: TaskRunView|
        t.status == TaskStatus::Running && t.pool == Some(pool) && t.wake_at is None && t.wait_url is None
            && t.wait_dataset is None && t.sub_run_id is None;
    assert(p =~= q);
    lemma_count_filter(tasks, p);
}

proof fn lemma_waits(
    tasks: Seq<TaskRunView>,
    t: TaskRunView,
    classes: Seq<Seq<char>>,
    caps: Map<Seq<char>, i64>,
    exclude_gangs: bool,
    now: Seq<char>,
)
    ensures
        eligible(t, classes, exclude_gangs, now, budgets(tasks, caps)) == waits_for_worker(
            tasks,
            t,
            classes,
            caps,
            exclude_gangs,
            now,
        ),
{
    match t.pool {
        Some(p) => {
            lemma_busy(tasks, p);
        },
        None => {},
    }
}

proof fn lemma_left_sinks(
    tasks: Seq<TaskRunView>,
    q: Seq<int>,
    left: Map<Seq<char>, i64>,
    x: int,
    k: int,
    pool: Option<Seq<char>>,
)
    requires
        0 <= x <= k,
        pool_full(pool, admitted(tasks, q, left, x).1),
    ensures
        pool_full(pool, admitted(tasks, q, left, k).1),
    decreases k - x,
{
    if x < k {
        lemma_left_sinks(tasks, q, left, x, k - 1, pool);
    }
}

/// What stood at `x` in the queue and was admitted is still there later.
proof fn lemma_admitted_stays(
    tasks: Seq<TaskRunView>,
    q: Seq<int>,
    left: Map<Seq<char>, i64>,
    x: int,
    k: int,
)
    requires
        0 <= x < k,
        !pool_full(tasks[q[x]].pool, admitted(tasks, q, left, x).1),
    ensures
        admitted(tasks, q, left, k).0.contains(q[x]),
    decreases k - x,
{
    let out = admitted(tasks, q, left, k).0;
    if x == k - 1 {
        assert(out[out.len() - 1] == q[x]);
    } else {
        lemma_admitted_stays(tasks, q, left, x, k - 1);
        let prev = admitted(tasks, q, left, k - 1).0;
        let m = choose|m: int| 0 <= m < prev.len() && prev[m] == q[x];
        assert(out[m] == q[x]);
    }
}

/// Where an admitted row stood in the queue, its pool had a slot.
proof fn lemma_admitted_place(
    tasks: Seq<TaskRunView>,
    q: Seq<int>,
    left: Map<Seq<char>, i64>,
    k: int,
    a: int,
)
    requires
        0 <= k <= q.len(),
        0 <= a < admitted(tasks, q, left, k).0.len(),
    ensures
        exists|y: int|
            0 <= y < k && #[trigger] q[y] == admitted(tasks, q, left, k).0[a] && !pool_full(
                tasks[q[y]].pool,
                admitted(tasks, q, left, y).1,
            ),
    decreases k,
{
    if k > 0 {
        let prev = admitted(tasks, q, left, k - 1).0;
        if a < prev.len() {
            lemma_admitted_place(tasks, q, left, k - 1, a);
            let y = choose|y: int|
                0 <= y < k - 1 && #[trigger] q[y] == prev[a] && !pool_full(
                    tasks[q[y]].pool,
                    admitted(tasks, q, left, y).1,
                );
            assert(q[y] == admitted(tasks, q, left, k).0[a]);
        } else {
            assert(q[k - 1] == admitted(tasks, q, left, k).0[a]);
        }
    }
}

/// A claim takes only rows that wait for a worker, none twice and no more than
/// asked for. It takes the more urgent before the less urgent: higher priority
/// first, and among equals the one scheduled earliest.
pub proof fn law_claim_serves_the_most_urgent(
    tasks: Seq<TaskRunView>,
    limit: int,
    classes: Seq<Seq<char>>,
    caps: Map<Seq<char>, i64>,
    exclude_gangs: bool,
    now: Seq<char>,
)
    ensures
        ({
            let taken = claim_set(tasks, limit, classes, caps, exclude_gangs, now);
            &&& taken.no_duplicates()
            &&& 0 <= limit ==> taken.len() <= limit
            &&& forall|a: int|
                0 <= a < taken.len() ==> 0 <= #[trigger] taken[a] < tasks.len() && waits_for_worker(
                    tasks,
                    tasks[taken[a]],
                    classes,
                    caps,
                    exclude_gangs,
                    now,
                )
            &&& forall|a: int, b: int|
                0 <= a < b < taken.len() ==> as_urgent(
                    tasks[#[trigger] taken[a]],
                    tasks[#[trigger] taken[b]],
                )
        }),
{
    let taken = claim_set(tasks, limit, classes, caps, exclude_gangs, now);
    crate::laws::law_claim_takes_the_best_first(tasks, limit, classes, caps, exclude_gangs, now);
    let left = budgets(tasks, caps);
    let p = |t: TaskRunView| eligible(t, classes, exclude_gangs, now, left);
    let lt = |a: TaskRunView, b: TaskRunView| goes_before(a, b);
    let n = tasks.len() as int;
    let all = ordered(tasks, p, lt, n);
    let q = limited(all, limit);
    lemma_ordered_members(tasks, p, lt, n);
    lemma_limited_members(all, limit);
    lemma_admitted_members(tasks, q, left, q.len() as int);
    assert forall|a: int| 0 <= a < taken.len() implies 0 <= #[trigger] taken[a] < tasks.len()
        && waits_for_worker(tasks, tasks[taken[a]], classes, caps, exclude_gangs, now) by {
        lemma_waits(tasks, tasks[taken[a]], classes, caps, exclude_gangs, now);
    }
    assert forall|a: int, b: int| 0 <= a < b < taken.len() implies as_urgent(
        tasks[#[trigger] taken[a]],
        tasks[#[trigger] taken[b]],
    ) by {
        assert(!goes_before(tasks[taken[b]], tasks[taken[a]]));
    }
}

/// No row is passed over for a less urgent one. What a claim leaves waiting is
/// no more urgent than anything it took, save that rows of a pool compete for
/// that pool's slots among themselves.
pub proof fn law_claim_passes_nobody_over(
    tasks: Seq<TaskRunView>,
    limit: int,
    classes: Seq<Seq<char>>,
    caps: Map<Seq<char>, i64>,
    exclude_gangs: bool,
    now: Seq<char>,
    j: int,
    a: int,
)
    requires
        0 <= j < tasks.len(),
        waits_for_worker(tasks, tasks[j], classes, caps, exclude_gangs, now),
        !claim_set(tasks, limit, classes, caps, exclude_gangs, now).contains(j),
        0 <= a < claim_set(tasks, limit, classes, caps, exclude_gangs, now).len(),
        ({
            let t = tasks[claim_set(tasks, limit, classes, caps, exclude_gangs, now)[a]];
            tasks[j].pool is None || !caps.contains_key(tasks[j].pool->0) || t.pool == tasks[j].pool
        }),
    ensures
        as_urgent(
            tasks[claim_set(tasks, limit, classes, caps, exclude_gangs, now)[a]],
            tasks[j],
        ),
{
    let left = budgets(tasks, caps);
    let p = |t: TaskRunView| eligible(t, classes, exclude_gangs, now, left);
    let lt = |a: TaskRunView, b: TaskRunView| goes_before(a, b);
    let n = tasks.len() as int;
    let all = ordered(tasks, p, lt, n);
    let q = limited(all, limit);
    let m = q.len() as int;
    let taken = claim_set(tasks, limit, classes, caps, exclude_gangs, now);
    lemma_claim_order();
    lemma_ordered_members(tasks, p, lt, n);
    lemma_ordered_sorted(tasks, p, lt, n);
    lemma_waits(tasks, tasks[j], classes, caps, exclude_gangs, now);
    assert(p(tasks[j]));
    assert(all.contains(j));
    let x = choose|x: int| 0 <= x < all.len() && all[x] == j;
    lemma_admitted_place(tasks, q, left, m, a);
    let y = choose|y: int|
        0 <= y < m && #[trigger] q[y] == taken[a] && !pool_full(
            tasks[q[y]].pool,
            admitted(tasks, q, left, y).1,
        );
    assert(q[y] == all[y]);
    if x < m {
        assert(q[x] == j);
        if !pool_full(tasks[j].pool, admitted(tasks, q, left, x).1) {
            lemma_admitted_stays(tasks, q, left, x, m);
        }
        if tasks[j].pool is Some && !caps.contains_key(tasks[j].pool->0) {
            lemma_left_keys(tasks, q, left, x);
        }
        if x <= y {
            lemma_left_sinks(tasks, q, left, x, y, tasks[j].pool);
        }
    }
    assert(y < x);
    assert(!lt(tasks[all[x]], tasks[all[y]]));
}

proof fn lemma_left_keys(tasks: Seq<TaskRunView>, q: Seq<int>, left: Map<Seq<char>, i64>, k: int)
    ensures
        admitted(tasks, q, left, k).1.dom() =~= left.dom(),
    decreases k,
{
    if k > 0 {
        lemma_left_keys(tasks, q, left, k - 1);
    }
}

proof fn lemma_seats_filter(tasks: Seq<TaskRunView>, taken: Seq<int>, pool: Seq<char>)
    ensures
        seats(tasks, taken, pool) == taken.filter(|i: int| tasks[i].pool == Some(pool)).len(),
    decreases taken.len(),
{
    reveal(Seq::filter);
    if taken.len() > 0 {
        lemma_seats_filter(tasks, taken.drop_last(), pool);
    }
}

/// No slot stays idle beside waiting work: where a claim may take everything
/// that waits, what it leaves has a pool, and it filled that pool to its
/// capacity.
pub proof fn law_claim_leaves_no_slot_idle(
    tasks: Seq<TaskRunView>,
    limit: int,
    classes: Seq<Seq<char>>,
    caps: Map<Seq<char>, i64>,
    exclude_gangs: bool,
    now: Seq<char>,
    j: int,
)
    requires
        0 <= j < tasks.len(),
        waits_for_worker(tasks, tasks[j], classes, caps, exclude_gangs, now),
        limit < 0 || tasks.filter(
            |t: TaskRunView| waits_for_worker(tasks, t, classes, caps, exclude_gangs, now),
        ).len() <= limit,
    ensures
        ({
            let taken = claim_set(tasks, limit, classes, caps, exclude_gangs, now);
            taken.contains(j) || (tasks[j].pool matches Some(p) && caps.contains_key(p) && busy_in(
                tasks,
                p,
            ) + taken.filter(|i: int| tasks[i].pool == Some(p)).len() == caps[p])
        }),
{
    let left = budgets(tasks, caps);
    let p = |t: TaskRunView| eligible(t, classes, exclude_gangs, now, left);
    let w = |t: TaskRunView| waits_for_worker(tasks, t, classes, caps, exclude_gangs, now);
    let lt = |a: TaskRunView, b: TaskRunView| goes_before(a, b);
    let n = tasks.len() as int;
    let all = ordered(tasks, p, lt, n);
    let q = limited(all, limit);
    let m = q.len() as int;
    let taken = claim_set(tasks, limit, classes, caps, exclude_gangs, now);
    assert forall|t: TaskRunView| #[trigger] p(t) == w(t) by {
        lemma_waits(tasks, t, classes, caps, exclude_gangs, now);
    }
    assert(p =~= w);
    lemma_ordered_members(tasks, p, lt, n);
    lemma_ordered_len(tasks, p, lt, n);
    lemma_count_filter(tasks, p);
    assert(tasks.take(n) =~= tasks);
    assert(q =~= all);
    assert(p(tasks[j]));
    assert(all.contains(j));
    let x = choose|x: int| 0 <= x < all.len() && all[x] == j;
    if !taken.contains(j) {
        if !pool_full(tasks[j].pool, admitted(tasks, q, left, x).1) {
            lemma_admitted_stays(tasks, q, left, x, m);
        }
        let pool = tasks[j].pool->0;
        lemma_left_keys(tasks, q, left, x);
        assert(left.contains_key(pool));
        lemma_left_sinks(tasks, q, left, x, m, tasks[j].pool);
        lemma_seats_within(tasks, q, left, pool, m);
        lemma_seats_filter(tasks, taken, pool);
        lemma_busy(tasks, pool);
    }
}

/// Row `j` comes before row `i`: it is more urgent, or as urgent and before it in
/// the table.
pub open spec fn ahead(tasks: Seq<TaskRunView>, j: int, i: int) -> bool {
    !as_urgent(tasks[i], tasks[j]) || (as_urgent(tasks[j], tasks[i]) && j < i)
}

/// A claim looks no further down the line than its limit: fewer waiting rows
/// than that come before any row that it takes.
pub proof fn law_claim_stays_within_its_line(
    tasks: Seq<TaskRunView>,
    limit: int,
    classes: Seq<Seq<char>>,
    caps: Map<Seq<char>, i64>,
    exclude_gangs: bool,
    now: Seq<char>,
    a: int,
    before: Seq<int>,
)
    requires
        0 <= limit,
        0 <= a < claim_set(tasks, limit, classes, caps, exclude_gangs, now).len(),
        before.no_duplicates(),
        forall|k: int|
            0 <= k < before.len() ==> 0 <= #[trigger] before[k] < tasks.len() && waits_for_worker(
                tasks,
                tasks[before[k]],
                classes,
                caps,
                exclude_gangs,
                now,
            ) && ahead(tasks, before[k], claim_set(tasks, limit, classes, caps, exclude_gangs, now)[a]),
    ensures
        before.len() < limit,
{
    let taken = claim_set(tasks, limit, classes, caps, exclude_gangs, now);
    let i = taken[a];
    let left = budgets(tasks, caps);
    let p = |t: TaskRunView| eligible(t, classes, exclude_gangs, now, left);
    let lt = |a: TaskRunView, b: TaskRunView| goes_before(a, b);
    let n = tasks.len() as int;
    let all = ordered(tasks, p, lt, n);
    let q = limited(all, limit);
    lemma_claim_order();
    lemma_ordered_members(tasks, p, lt, n);
    lemma_ordered_sorted(tasks, p, lt, n);
    lemma_limited_members(all, limit);
    lemma_admitted_members(tasks, q, left, q.len() as int);
    assert(taken.contains(i));
    assert(q.take(q.len() as int) =~= q);
    let k = choose|k: int| 0 <= k < q.len() && q[k] == i;
    assert(all[k] == i && k < limit);
    let first = all.take(k);
    assert forall|x: int| #[trigger] before.to_set().contains(x) implies first.to_set().contains(x) by {
        let b = choose|b: int| 0 <= b < before.len() && before[b] == x;
        lemma_waits(tasks, tasks[before[b]], classes, caps, exclude_gangs, now);
        assert(all.contains(x));
        let y = choose|y: int| 0 <= y < all.len() && all[y] == x;
        if y > k {
            assert(!lt(tasks[all[y]], tasks[all[k]]) && (lt(tasks[all[k]], tasks[all[y]]) || all[k] < all[y]));
            crate::laws::lemma_time_order(tasks[i].scheduled_at, tasks[x].scheduled_at, tasks[i].scheduled_at);
        } else if y < k {
            assert(first[y] == x);
        } else {
            lemma_as_urgent(tasks[i]);
        }
    }
    before.unique_seq_to_set();
    assert(first.no_duplicates()) by {
        assert forall|x: int, y: int| 0 <= x < first.len() && 0 <= y < first.len() && x != y implies first[x]
            != first[y] by {
            assert(all[x] != all[y]);
        }
    }
    first.unique_seq_to_set();
    vstd::set_lib::lemma_len_subset(before.to_set(), first.to_set());
}

proof fn lemma_as_urgent(t: TaskRunView)
    ensures
        as_urgent(t, t),
{
    if t.scheduled_at is Some {
        crate::text::lemma_lex_irreflexive(t.scheduled_at->0);
    }
}

/// Without capacities a claim takes as many rows as it may.
pub proof fn law_claim_takes_what_it_may(
    tasks: Seq<TaskRunView>,
    limit: int,
    classes: Seq<Seq<char>>,
    exclude_gangs: bool,
    now: Seq<char>,
)
    ensures
        ({
            let waiting = tasks.filter(
                |t: TaskRunView|
                    waits_for_worker(tasks, t, classes, Map::empty(), exclude_gangs, now),
            ).len();
            claim_set(tasks, limit, classes, Map::empty(), exclude_gangs, now).len() == (if limit < 0
                || waiting < limit {
                waiting as int
            } else {
                limit
            })
        }),
{
    let caps = Map::<Seq<char>, i64>::empty();
    let left = budgets(tasks, caps);
    let p = |t: TaskRunView| eligible(t, classes, exclude_gangs, now, left);
    let w = |t: TaskRunView| waits_for_worker(tasks, t, classes, caps, exclude_gangs, now);
    let lt = |a: TaskRunView, b: TaskRunView| goes_before(a, b);
    let n = tasks.len() as int;
    let q = limited(ordered(tasks, p, lt, n), limit);
    assert forall|t: TaskRunView| #[trigger] p(t) == w(t) by {
        lemma_waits(tasks, t, classes, caps, exclude_gangs, now);
    }
    assert(p =~= w);
    lemma_ordered_len(tasks, p, lt, n);
    lemma_count_filter(tasks, p);
    assert(tasks.take(n) =~= tasks);
    lemma_all_admitted(tasks, q, left, q.len() as int);
}

proof fn lemma_all_admitted(tasks: Seq<TaskRunView>, q: Seq<int>, left: Map<Seq<char>, i64>, k: int)
    requires
        left.dom() =~= Set::empty(),
        0 <= k,
    ensures
        admitted(tasks, q, left, k).0.len() == k,
    decreases k,
{
    if k > 0 {
        lemma_all_admitted(tasks, q, left, k - 1);
        lemma_left_keys(tasks, q, left, k - 1);
    }
}

/// A claimed row runs for its worker until the lease ends, one attempt and one
/// version further. Nothing else of it changes, and no other row does.
pub proof fn law_claim_marks_its_rows(
    tasks: Seq<TaskRunView>,
    taken: Seq<int>,
    worker: Seq<char>,
    lease: Seq<char>,
    i: int,
)
    requires
        0 <= i < tasks.len(),
    ensures
        ({
            let after = with_claims(tasks, taken, worker, lease);
            &&& after.len() == tasks.len()
            &&& taken.contains(i) ==> after[i] == (TaskRunView {
                status: TaskStatus::Running,
                claimed_by: Some(worker),
                lease_expires_at: Some(lease),
                attempt: tasks[i].attempt + 1,
                version: tasks[i].version + 1,
                ..tasks[i]
            })
            &&& !taken.contains(i) ==> after[i] == tasks[i]
        }),
{
}

/// A claim hands out its rows as they were, in the order in which it took them,
/// leaves each leased, and touches nothing else.
pub proof fn law_claim_hands_out_its_rows(
    before: StoreView,
    after: StoreView,
    out: Seq<TaskRunView>,
    taken: Seq<int>,
    worker: Seq<char>,
    lease: Seq<char>,
)
    requires
        hands_out(before, after, out, taken, worker, lease),
    ensures
        out.len() == taken.len(),
        forall|k: int| 0 <= k < out.len() ==> #[trigger] out[k] == before.tasks[taken[k]],
        after == (StoreView { tasks: after.tasks, ..before }),
        after.tasks.len() == before.tasks.len(),
        forall|i: int|
            0 <= i < before.tasks.len() ==> #[trigger] after.tasks[i] == (if taken.contains(i) {
                TaskRunView {
                    status: TaskStatus::Running,
                    claimed_by: Some(worker),
                    lease_expires_at: Some(lease),
                    attempt: before.tasks[i].attempt + 1,
                    version: before.tasks[i].version + 1,
                    ..before.tasks[i]
                }
            } else {
                before.tasks[i]
            }),
{
}

/// A gang is handed out whole, every ready member of it running in the worker's
/// name, and nothing where there is no gang.
pub proof fn law_gang_is_handed_out_whole(
    before: StoreView,
    after: StoreView,
    out: Seq<TaskRunView>,
    gang: Option<Seq<char>>,
    worker: Seq<char>,
    lease: Seq<char>,
)
    requires
        hands_out_gang(before, after, out, gang, worker, lease),
    ensures
        after == (StoreView { tasks: after.tasks, ..before }),
        gang is None ==> out.len() == 0 && after == before,
        gang matches Some(id) ==> {
            let mine = |t: TaskRunView| t.gang_id == Some(id) && t.status == TaskStatus::Ready;
            &&& out.len() == before.tasks.filter(mine).len()
            &&& forall|k: int|
                0 <= k < out.len() ==> #[trigger] out[k] == (TaskRunView {
                    status: TaskStatus::Running,
                    claimed_by: Some(worker),
                    lease_expires_at: Some(lease),
                    ..before.tasks.filter(mine)[k]
                })
            &&& forall|i: int|
                0 <= i < before.tasks.len() ==> #[trigger] after.tasks[i] == (if mine(before.tasks[i]) {
                    TaskRunView {
                        status: TaskStatus::Running,
                        claimed_by: Some(worker),
                        lease_expires_at: Some(lease),
                        attempt: before.tasks[i].attempt + 1,
                        version: before.tasks[i].version + 1,
                        ..before.tasks[i]
                    }
                } else {
                    before.tasks[i]
                })
        },
{
    if gang is Some {
        let id = gang->0;
        let mine = |t: TaskRunView| t.gang_id == Some(id) && t.status == TaskStatus::Ready;
        let p = |t: TaskRunView| ready_member(t, id);
        assert(p =~= mine);
        let f = |t: TaskRunView| handed_out(t, worker, lease);
        assert(out == before.tasks.filter(p).map_values(f));
    }
}

/// A lease runs for the seconds asked for from the instant of the claim, and an
/// age is counted back from it. What the calendar does not hold has no text.
pub proof fn law_leases_count_in_seconds(t: Timestamp, secs: i64)
    requires
        t.nanos < 1_000_000_000,
    ensures
        instant_text(t) == rfc3339_text(t.secs as int, t.nanos as int),
        shifted_text(t, secs as int) == (if -8334601228800 <= t.secs + secs <= 8210266876799 {
            Some(rfc3339_text(t.secs + secs, t.nanos as int))
        } else {
            None
        }),
        earlier_text(t, secs) == (if secs != i64::MIN && -8334601228800 <= t.secs - secs <= 8210266876799 {
            Some(rfc3339_text(t.secs - secs, t.nanos as int))
        } else {
            None
        }),
{
}

} // verus!
