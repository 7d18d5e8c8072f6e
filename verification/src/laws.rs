//! What holds of the engine as a whole: claims and fences, pools and gangs,
//! dependencies, sweeps, and the ends of runs.
use vstd::prelude::*;
use crate::advance::{advanced, candidates, pending_row, unblocked};
use crate::claims::{
    admitted, budgets, claim_set, claimed, eligible, free_slots, goes_before,
    lemma_admitted_members, occupies, pool_running, time_before, with_claims,
};
use crate::dag::{
    dependency_edges, dependency_fault, distinct_names, edges_fault, known, tasks_fault,
    workflow_fault,
};
use crate::datasets::parked_on_dataset;
use crate::gangs::{
    gang_cancelled, gang_taken, ready_member, whole_gang, with_gang_claimed, GangClaim,
};
use crate::graph::has_cycle;
use crate::models::{RunStatus, TaskStatus};
use crate::order::{
    lemma_limited_members, lemma_ordered_members, lemma_ordered_sorted, limited, ordered,
    weak_order,
};
use crate::outbox::{batch, deliverable};
use crate::parks::{
    end_sensor, wait_over, waiting_for_run, waiting_for_url, waiting_until, waits_over,
};
use crate::reap::{
    alert_due, completed, finalized, has_failed, overdue, running_run, swept, timed_out,
};
use crate::rows::{OutboxRowView, TaskRunView, WorkflowRunView};
use crate::rules::{duplicate_name, header_fault, planned_rows, task_fault, Edition};
use crate::store::StoreView;
use crate::sweeps::folded;
use crate::table::{amended, amended_at, any, count, lemma_count_positive};
use crate::tasks::{
    after_failure, after_success, held_by, lease_lapsed, one_less, requeued, retried, running_for,
    settled, waits_for,
};
use crate::text::{lemma_lex_irreflexive, lemma_lex_total, lemma_lex_transitive, lex_lt};
use crate::workflow::{DagSpec, RepeatSpec, TaskSpec};

pub mod advance;
pub mod claims;
pub mod columns;
pub mod conditions;
pub mod data;
pub mod delivery;
pub mod ends;
pub mod keeping;
pub mod messages;
pub mod precedence;
pub mod reading;
pub mod records;
pub mod reruns;
pub mod runs;
pub mod sweeps;
pub mod tasks;
pub mod text;
pub mod validation;
pub mod words;

verus! {

// ── Claims and fences ────────────────────────────────────────────────────────

/// A claim whose worker or fence is not the row's own changes nothing, whichever
/// way it tries to end the task.
pub proof fn law_stale_claim_changes_nothing(
    db: StoreView,
    id: Seq<char>,
    worker: Seq<char>,
    fence: int,
    output: Option<Seq<char>>,
    cached: bool,
    now: Seq<char>,
)
    requires
        !any(db.tasks, |t: TaskRunView| held_by(t, id, worker, fence)),
    ensures
        after_success(db, id, worker, fence, output, cached, now) == db,
        after_failure(db, id, worker, fence, output, now) == db,
        amended(
            db.tasks,
            |t: TaskRunView| held_by(t, id, worker, fence),
            |t: TaskRunView| retried(t, output, now),
        ) == db.tasks,
{
    let hits = |t: TaskRunView| held_by(t, id, worker, fence);
    assert forall|i: int| 0 <= i < db.tasks.len() implies !hits(#[trigger] db.tasks[i]) by {}
    assert(amended(db.tasks, hits, |t: TaskRunView| retried(t, output, now)) =~= db.tasks);
}

/// A fresh claim is held by its worker at one above the version it found, and by
/// nobody else.
pub proof fn law_claim_has_its_fence(
    t: TaskRunView,
    worker: Seq<char>,
    lease: Seq<char>,
    other: Seq<char>,
    fence: int,
)
    ensures
        held_by(claimed(t, worker, lease), t.id, worker, t.version + 1),
        running_for(claimed(t, worker, lease), t.id, worker, t.version + 1),
        held_by(claimed(t, worker, lease), t.id, other, fence) ==> other == worker && fence == t.version
            + 1,
        claimed(t, worker, lease).attempt == t.attempt + 1,
{
}

/// A worker that lost its lease cannot end the task any more: neither while the
/// row waits in the queue, nor after the next claim, not even where that claim
/// is its own.
pub proof fn law_lost_claim_stays_lost(
    t: TaskRunView,
    worker: Seq<char>,
    lease: Seq<char>,
    next: Seq<char>,
    next_lease: Seq<char>,
)
    ensures
        ({
            let first = claimed(t, worker, lease);
            let fence = t.version + 1;
            &&& !held_by(requeued(first), t.id, worker, fence)
            &&& !held_by(claimed(requeued(first), next, next_lease), t.id, worker, fence)
        }),
{
}

/// A row without a lease is never taken for one whose worker died: what is
/// parked stays parked.
pub proof fn law_parked_row_is_not_recovered(t: TaskRunView, now: Seq<char>)
    requires
        t.lease_expires_at is None,
    ensures
        !lease_lapsed(t, now),
{
}

/// Parking gives the pool's slot back, whatever the task waits for.
pub proof fn law_parking_frees_the_slot(
    t: TaskRunView,
    pool: Seq<char>,
    wake_at: Seq<char>,
    url: Seq<char>,
    next_poll_at: Seq<char>,
    dataset: Seq<char>,
    cursor: int,
    child: Seq<char>,
)
    ensures
        !occupies(waiting_until(t, wake_at), pool),
        !occupies(waiting_for_url(t, url, next_poll_at), pool),
        !occupies(parked_on_dataset(t, dataset, cursor), pool),
        !occupies(waiting_for_run(t, child), pool),
{
}

/// A checkpoint outlives the attempt that wrote it: it is still there after a
/// retry or a lost lease, and for the next claim.
pub proof fn law_checkpoint_survives_the_attempt(
    t: TaskRunView,
    error: Option<Seq<char>>,
    retry_at: Seq<char>,
    worker: Seq<char>,
    lease: Seq<char>,
)
    ensures
        ({
            let again = claimed(retried(t, error, retry_at), worker, lease);
            let recovered = claimed(requeued(t), worker, lease);
            &&& again.checkpoint_uri == t.checkpoint_uri
            &&& again.checkpoint_marker == t.checkpoint_marker
            &&& recovered.checkpoint_uri == t.checkpoint_uri
            &&& recovered.checkpoint_marker == t.checkpoint_marker
        }),
{
}

/// Once the lapsed leases are recovered, none is left to recover.
pub proof fn law_recovery_is_complete(tasks: Seq<TaskRunView>, now: Seq<char>)
    ensures
        count(
            amended(
                tasks,
                |t: TaskRunView| lease_lapsed(t, now),
                |t: TaskRunView| requeued(t),
            ),
            |t: TaskRunView| lease_lapsed(t, now),
        ) == 0,
{
    let after = amended(
        tasks,
        |t: TaskRunView| lease_lapsed(t, now),
        |t: TaskRunView| requeued(t),
    );
    lemma_count_positive(after, |t: TaskRunView| lease_lapsed(t, now));
}

/// Cancelling the siblings of a failed gang member fences their running
/// attempts: none of them is held by any claim afterwards.
pub proof fn law_cancelled_sibling_is_fenced(
    t: TaskRunView,
    now: Seq<char>,
    worker: Seq<char>,
    fence: int,
)
    ensures
        !held_by(gang_cancelled(t, now), t.id, worker, fence),
        gang_cancelled(t, now).version > t.version,
        gang_cancelled(t, now).status.terminal(),
{
}

// ── Which rows a claim takes ─────────────────────────────────────────────────

pub proof fn lemma_time_order(a: Option<Seq<char>>, b: Option<Seq<char>>, c: Option<Seq<char>>)
    ensures
        time_before(a, b) ==> !time_before(b, a),
        time_before(a, c) ==> time_before(a, b) || time_before(b, c),
{
    match (a, b) {
        (Some(x), Some(y)) => {
            lemma_lex_irreflexive(x);
            if lex_lt(x, y) && lex_lt(y, x) {
                lemma_lex_transitive(x, y, x);
            }
        },
        _ => {},
    }
    match (a, b, c) {
        (Some(x), Some(y), Some(z)) => {
            if lex_lt(x, z) && !lex_lt(x, y) {
                lemma_lex_total(x, y);
                if lex_lt(y, x) {
                    lemma_lex_transitive(y, x, z);
                }
            }
        },
        _ => {},
    }
}

pub proof fn lemma_claim_order()
    ensures
        weak_order(|a: TaskRunView, b: TaskRunView| goes_before(a, b)),
{
    let lt = |a: TaskRunView, b: TaskRunView| goes_before(a, b);
    assert forall|a: TaskRunView, b: TaskRunView| #[trigger] lt(a, b) implies !lt(b, a) by {
        lemma_time_order(a.scheduled_at, b.scheduled_at, a.scheduled_at);
    }
    assert forall|a: TaskRunView, b: TaskRunView, c: TaskRunView|
        #[trigger] lt(a, c) implies #[trigger] lt(a, b) || lt(b, c) by {
        lemma_time_order(a.scheduled_at, b.scheduled_at, c.scheduled_at);
    }
}

/// What is admitted keeps the order of the queue.
proof fn lemma_admitted_order(
    tasks: Seq<TaskRunView>,
    q: Seq<int>,
    left: Map<Seq<char>, i64>,
    k: int,
    a: int,
    b: int,
)
    requires
        0 <= k <= q.len(),
        0 <= a < b < admitted(tasks, q, left, k).0.len(),
    ensures
        exists|x: int, y: int|
            0 <= x < y < k && #[trigger] q[x] == admitted(tasks, q, left, k).0[a] && #[trigger] q[y]
                == admitted(tasks, q, left, k).0[b],
    decreases k,
{
    let out = admitted(tasks, q, left, k).0;
    if k > 0 {
        let prev = admitted(tasks, q, left, k - 1).0;
        if b < prev.len() {
            lemma_admitted_order(tasks, q, left, k - 1, a, b);
        } else {
            lemma_admitted_from(tasks, q, left, k - 1, a);
            let x = choose|x: int| 0 <= x < k - 1 && #[trigger] q[x] == prev[a];
            assert(q[x] == out[a] && q[k - 1] == out[b]);
        }
    }
}

proof fn lemma_admitted_from(
    tasks: Seq<TaskRunView>,
    q: Seq<int>,
    left: Map<Seq<char>, i64>,
    k: int,
    a: int,
)
    requires
        0 <= k <= q.len(),
        0 <= a < admitted(tasks, q, left, k).0.len(),
    ensures
        exists|x: int| 0 <= x < k && #[trigger] q[x] == admitted(tasks, q, left, k).0[a],
    decreases k,
{
    if k > 0 {
        let prev = admitted(tasks, q, left, k - 1).0;
        if a < prev.len() {
            lemma_admitted_from(tasks, q, left, k - 1, a);
        } else {
            assert(q[k - 1] == admitted(tasks, q, left, k).0[a]);
        }
    }
}

/// A claim takes the best first: no row it takes goes before one it took
/// earlier. Every row it takes was ready and due, of a class it serves.
pub proof fn law_claim_takes_the_best_first(
    tasks: Seq<TaskRunView>,
    limit: int,
    classes: Seq<Seq<char>>,
    caps: Map<Seq<char>, i64>,
    exclude_gangs: bool,
    now: Seq<char>,
)
    ensures
        ({
            let taken = claim_set(tasks, limit, classes, caps, exclude_gangs, now);
            &&& forall|a: int, b: int|
                0 <= a < b < taken.len() ==> !goes_before(
                    tasks[#[trigger] taken[b]],
                    tasks[#[trigger] taken[a]],
                )
            &&& forall|a: int|
                0 <= a < taken.len() ==> 0 <= #[trigger] taken[a] < tasks.len() && eligible(
                    tasks[taken[a]],
                    classes,
                    exclude_gangs,
                    now,
                    budgets(tasks, caps),
                )
            &&& 0 <= limit ==> taken.len() <= limit
        }),
{
    let left = budgets(tasks, caps);
    let p = |t: TaskRunView| eligible(t, classes, exclude_gangs, now, left);
    let lt = |a: TaskRunView, b: TaskRunView| goes_before(a, b);
    let n = tasks.len() as int;
    let all = ordered(tasks, p, lt, n);
    let q = limited(all, limit);
    let taken = claim_set(tasks, limit, classes, caps, exclude_gangs, now);
    lemma_claim_order();
    lemma_ordered_sorted(tasks, p, lt, n);
    lemma_ordered_members(tasks, p, lt, n);
    lemma_limited_members(all, limit);
    lemma_admitted_members(tasks, q, left, q.len() as int);
    assert forall|a: int, b: int| 0 <= a < b < taken.len() implies !goes_before(
        tasks[#[trigger] taken[b]],
        tasks[#[trigger] taken[a]],
    ) by {
        lemma_admitted_order(tasks, q, left, q.len() as int, a, b);
        let (x, y) = choose|x: int, y: int|
            0 <= x < y < q.len() && #[trigger] q[x] == taken[a] && #[trigger] q[y] == taken[b];
        assert(q[x] == all[x] && q[y] == all[y]);
        assert(!lt(tasks[all[y]], tasks[all[x]]));
    }
    assert forall|a: int| 0 <= a < taken.len() implies 0 <= #[trigger] taken[a] < tasks.len()
        && eligible(tasks[taken[a]], classes, exclude_gangs, now, left) by {
        assert(taken.contains(taken[a]));
        assert(q.take(q.len() as int) =~= q);
        assert(q.contains(taken[a]));
        assert(all.contains(taken[a]));
    }
    lemma_admitted_len(tasks, q, left, q.len() as int);
}

proof fn lemma_admitted_len(tasks: Seq<TaskRunView>, q: Seq<int>, left: Map<Seq<char>, i64>, k: int)
    requires
        0 <= k,
    ensures
        admitted(tasks, q, left, k).0.len() <= k,
    decreases k,
{
    if k > 0 {
        lemma_admitted_len(tasks, q, left, k - 1);
    }
}

/// How many of the first rows taken belong to a pool.
pub open spec fn seats(tasks: Seq<TaskRunView>, taken: Seq<int>, pool: Seq<char>) -> nat
    decreases taken.len(),
{
    if taken.len() == 0 {
        0
    } else {
        seats(tasks, taken.drop_last(), pool) + if tasks[taken.last()].pool == Some(pool) {
            1nat
        } else {
            0nat
        }
    }
}

pub proof fn lemma_seats_within(
    tasks: Seq<TaskRunView>,
    q: Seq<int>,
    left: Map<Seq<char>, i64>,
    pool: Seq<char>,
    k: int,
)
    requires
        0 <= k <= q.len(),
        left.contains_key(pool),
        left[pool] >= 0,
    ensures
        admitted(tasks, q, left, k).1.contains_key(pool),
        admitted(tasks, q, left, k).1[pool] >= 0,
        admitted(tasks, q, left, k).1[pool] == left[pool] - seats(
            tasks,
            admitted(tasks, q, left, k).0,
            pool,
        ),
    decreases k,
{
    if k > 0 {
        lemma_seats_within(tasks, q, left, pool, k - 1);
        let prev = admitted(tasks, q, left, k - 1).0;
        let out = admitted(tasks, q, left, k).0;
        if out.len() > prev.len() {
            assert(out.drop_last() =~= prev);
        }
    }
}

proof fn lemma_count_update(s: Seq<TaskRunView>, i: int, v: TaskRunView, p: spec_fn(TaskRunView) -> bool)
    requires
        0 <= i < s.len(),
    ensures
        count(s.update(i, v), p) == count(s, p) - (if p(s[i]) { 1int } else { 0 }) + (if p(v) {
            1int
        } else {
            0
        }),
    decreases s.len(),
{
    let u = s.update(i, v);
    if i == s.len() - 1 {
        assert(u.drop_last() =~= s.drop_last());
    } else {
        assert(u.drop_last() =~= s.drop_last().update(i, v));
        lemma_count_update(s.drop_last(), i, v, p);
    }
}

proof fn lemma_claims_count(
    tasks: Seq<TaskRunView>,
    taken: Seq<int>,
    worker: Seq<char>,
    lease: Seq<char>,
    pool: Seq<char>,
)
    requires
        taken.no_duplicates(),
        forall|a: int| 0 <= a < taken.len() ==> 0 <= #[trigger] taken[a] < tasks.len(),
    ensures
        pool_running(with_claims(tasks, taken, worker, lease), pool) <= pool_running(tasks, pool)
            + seats(tasks, taken, pool),
    decreases taken.len(),
{
    let p = |t: TaskRunView| occupies(t, pool);
    let after = with_claims(tasks, taken, worker, lease);
    if taken.len() == 0 {
        assert(after =~= tasks);
    } else {
        let rest = taken.drop_last();
        let i = taken.last();
        assert forall|a: int| 0 <= a < rest.len() implies 0 <= #[trigger] rest[a] < tasks.len() by {
            assert(rest[a] == taken[a]);
        }
        lemma_claims_count(tasks, rest, worker, lease, pool);
        let before = with_claims(tasks, rest, worker, lease);
        assert(taken[taken.len() - 1] == i);
        assert(!rest.contains(i)) by {
            if rest.contains(i) {
                let m = choose|m: int| 0 <= m < rest.len() && rest[m] == i;
                assert(taken[m] == taken[taken.len() - 1]);
            }
        }
        assert forall|j: int| 0 <= j < tasks.len() implies after[j] == before.update(
            i,
            claimed(tasks[i], worker, lease),
        )[j] by {
            if j == i {
                assert(taken.contains(i));
            } else {
                assert(taken.contains(j) == rest.contains(j)) by {
                    if rest.contains(j) {
                        let m = choose|m: int| 0 <= m < rest.len() && rest[m] == j;
                        assert(taken[m] == j);
                    }
                    if taken.contains(j) {
                        let m = choose|m: int| 0 <= m < taken.len() && taken[m] == j;
                        assert(rest[m] == j);
                    }
                }
            }
        }
        assert(after =~= before.update(i, claimed(tasks[i], worker, lease)));
        assert(before[i] == tasks[i]);
        lemma_count_update(before, i, claimed(tasks[i], worker, lease), p);
    }
}

/// No claim overfills a pool: where a pool has a capacity, no more of its slots
/// are taken afterwards than that, unless that many were taken before.
pub proof fn law_claim_keeps_pools_within_capacity(
    tasks: Seq<TaskRunView>,
    limit: int,
    classes: Seq<Seq<char>>,
    caps: Map<Seq<char>, i64>,
    exclude_gangs: bool,
    now: Seq<char>,
    worker: Seq<char>,
    lease: Seq<char>,
    pool: Seq<char>,
)
    requires
        caps.contains_key(pool),
    ensures
        ({
            let taken = claim_set(tasks, limit, classes, caps, exclude_gangs, now);
            let after = pool_running(with_claims(tasks, taken, worker, lease), pool);
            after <= caps[pool] || after <= pool_running(tasks, pool)
        }),
{
    let left = budgets(tasks, caps);
    let p = |t: TaskRunView| eligible(t, classes, exclude_gangs, now, left);
    let lt = |a: TaskRunView, b: TaskRunView| goes_before(a, b);
    let n = tasks.len() as int;
    let all = ordered(tasks, p, lt, n);
    let q = limited(all, limit);
    let taken = claim_set(tasks, limit, classes, caps, exclude_gangs, now);
    lemma_ordered_members(tasks, p, lt, n);
    lemma_limited_members(all, limit);
    lemma_admitted_members(tasks, q, left, q.len() as int);
    law_claim_takes_the_best_first(tasks, limit, classes, caps, exclude_gangs, now);
    assert(left.contains_key(pool));
    assert(left[pool] == free_slots(tasks, pool, caps[pool]));
    lemma_seats_within(tasks, q, left, pool, q.len() as int);
    lemma_claims_count(tasks, taken, worker, lease, pool);
}

proof fn lemma_choice(claim: GangClaim, tasks: Seq<TaskRunView>, n: int)
    requires
        0 <= n <= tasks.len(),
    ensures
        match claim.choice(tasks, n) {
            Some(i) => 0 <= i < n && claim.seatable(tasks, i),
            None => forall|i: int| 0 <= i < n ==> !#[trigger] claim.seatable(tasks, i),
        },
    decreases n,
{
    if n > 0 {
        lemma_choice(claim, tasks, n - 1);
    }
}

/// A gang is claimed whole or not at all: the gang that a claim takes has all of
/// its members ready and due at once, and fits the claimer and its pool. Where
/// some gang does, one is taken.
pub proof fn law_gang_is_claimed_whole(tasks: Seq<TaskRunView>, claim: GangClaim)
    ensures
        match gang_taken(tasks, claim) {
            Some(id) => exists|head: int|
                0 <= head < tasks.len() && #[trigger] claim.seatable(tasks, head)
                    && tasks[head].gang_id == Some(id) && count(tasks, claim.members(tasks, head))
                    == tasks[head].gang_size->0 && tasks[head].gang_size->0 <= claim.capacity,
            None => claim.capacity < 2 || forall|head: int|
                0 <= head < tasks.len() ==> !#[trigger] claim.seatable(tasks, head),
        },
{
    lemma_choice(claim, tasks, tasks.len() as int);
    if claim.capacity >= 2 {
        match claim.choice(tasks, tasks.len() as int) {
            Some(i) => {
                assert(claim.seatable(tasks, i));
            },
            None => {},
        }
    }
}

proof fn lemma_count_within(
    s: Seq<TaskRunView>,
    p: spec_fn(TaskRunView) -> bool,
    q: spec_fn(TaskRunView) -> bool,
)
    requires
        forall|i: int| 0 <= i < s.len() && p(#[trigger] s[i]) ==> q(s[i]),
    ensures
        count(s, p) <= count(s, q),
    decreases s.len(),
{
    if s.len() > 0 {
        let rest = s.drop_last();
        assert forall|i: int| 0 <= i < rest.len() && p(#[trigger] rest[i]) implies q(rest[i]) by {
            assert(rest[i] == s[i]);
        }
        lemma_count_within(rest, p, q);
        assert(s[s.len() - 1] == s.last());
    }
}

/// A gang that is claimed takes a slot of a pool for each of its ready members
/// in that pool, and no more.
proof fn lemma_gang_count(
    tasks: Seq<TaskRunView>,
    id: Seq<char>,
    worker: Seq<char>,
    lease: Seq<char>,
    pool: Seq<char>,
)
    ensures
        pool_running(with_gang_claimed(tasks, id, worker, lease), pool) <= pool_running(tasks, pool)
            + count(tasks, |t: TaskRunView| ready_member(t, id) && t.pool == Some(pool)),
    decreases tasks.len(),
{
    if tasks.len() > 0 {
        let rest = tasks.drop_last();
        let after = with_gang_claimed(tasks, id, worker, lease);
        lemma_gang_count(rest, id, worker, lease, pool);
        assert(after.drop_last() =~= with_gang_claimed(rest, id, worker, lease));
    }
}

/// No gang overfills a pool: where a pool has a capacity, no more of its slots
/// are taken after a gang was claimed than that, unless that many were taken
/// before.
pub proof fn law_gang_claim_keeps_pools_within_capacity(
    tasks: Seq<TaskRunView>,
    claim: GangClaim,
    id: Seq<char>,
    worker: Seq<char>,
    lease: Seq<char>,
    pool: Seq<char>,
)
    requires
        gang_taken(tasks, claim) == Some(id),
        whole_gang(tasks, id),
        claim.caps.contains_key(pool),
    ensures
        ({
            let after = pool_running(with_gang_claimed(tasks, id, worker, lease), pool);
            after <= claim.caps[pool] || after <= pool_running(tasks, pool)
        }),
{
    law_gang_is_claimed_whole(tasks, claim);
    let head = choose|head: int|
        0 <= head < tasks.len() && #[trigger] claim.seatable(tasks, head) && tasks[head].gang_id == Some(
            id,
        );
    let joining = |t: TaskRunView| ready_member(t, id) && t.pool == Some(pool);
    let member = |t: TaskRunView| t.gang_id == Some(id);
    lemma_gang_count(tasks, id, worker, lease, pool);
    lemma_count_within(tasks, joining, member);
    if tasks[head].pool != Some(pool) {
        assert(count(tasks, joining) == 0) by {
            lemma_count_positive(tasks, joining);
            if count(tasks, joining) > 0 {
                let i = choose|i: int| 0 <= i < tasks.len() && joining(#[trigger] tasks[i]);
                assert(tasks[i].gang_id == Some(id) && tasks[head].gang_id == Some(id));
            }
        }
    } else {
        assert(tasks[head].gang_size == Some(count(tasks, member) as int));
        assert(count(tasks, member) > 0) by {
            lemma_count_positive(tasks, member);
            assert(member(tasks[head]));
        }
    }
}

// ── Dependencies ─────────────────────────────────────────────────────────────

/// The end of a task lets every pending dependent wait for exactly one less, and
/// touches no other row.
pub proof fn law_end_releases_each_dependent_once(
    db: StoreView,
    id: Seq<char>,
    hits: spec_fn(TaskRunView) -> bool,
    image: spec_fn(TaskRunView) -> TaskRunView,
    i: int,
)
    requires
        0 <= i < db.tasks.len(),
        any(db.tasks, hits),
        hits(db.tasks[i]) ==> image(db.tasks[i]).status != TaskStatus::Pending,
    ensures
        ({
            let t = db.tasks[i];
            let after = settled(db, id, hits, image).tasks[i];
            after == (if hits(t) {
                image(t)
            } else if waits_for(db.edges, t, id) {
                one_less(t)
            } else {
                t
            })
        }),
{
}

proof fn lemma_dependencies_ok(tasks: Seq<TaskSpec>, from: int, at: int, i: int, k: int)
    requires
        0 <= from < tasks.len(),
        0 <= at <= tasks[from].depends_on@.len(),
        edges_fault(tasks, from, at) is None,
        0 <= i < tasks.len(),
        0 <= k < tasks[i].depends_on@.len(),
        from < i || (from == i && at <= k),
    ensures
        dependency_fault(tasks, i, k) is None,
    decreases tasks.len() - from, tasks[from].depends_on@.len() - at,
{
    if at < tasks[from].depends_on@.len() {
        if !(from == i && at == k) {
            lemma_dependencies_ok(tasks, from, at + 1, i, k);
        }
    } else {
        lemma_dependencies_ok(tasks, from + 1, 0, i, k);
    }
}

proof fn lemma_no_task_fault(spec: DagSpec, from: int, i: int, edition: Edition)
    requires
        0 <= from <= i < spec.tasks@.len(),
        tasks_fault(spec, from, edition) is None,
    ensures
        task_fault(spec, i, edition) is None,
        !duplicate_name(spec.tasks@, i),
    decreases i - from,
{
    if from < i {
        lemma_no_task_fault(spec, from + 1, i, edition);
    }
}

/// A workflow that is accepted can run to its end: its names are distinct, every
/// dependency is one of its tasks, and no task waits for itself, however
/// indirectly. It stays within the rows that its budget allows.
pub proof fn law_accepted_workflow_can_finish(spec: DagSpec, edition: Edition)
    requires
        workflow_fault(spec, edition) is None,
    ensures
        distinct_names(spec.tasks@),
        forall|i: int, k: int|
            0 <= i < spec.tasks@.len() && 0 <= k < spec.tasks@[i].depends_on@.len() ==> known(
                spec.tasks@,
                #[trigger] spec.tasks@[i].depends_on@[k]@,
            ),
        !has_cycle(dependency_edges(spec.tasks@)),
        spec.budget is Some && spec.budget->0.tasks is Some ==> planned_rows(
            spec.tasks@,
            spec.tasks@.len() as int,
        ) <= spec.budget->0.tasks->0,
{
    let tasks = spec.tasks@;
    assert(header_fault(spec, edition) is None);
    assert(tasks_fault(spec, 0, edition) is None);
    assert(edges_fault(tasks, 0, 0) is None);
    assert forall|i: int, j: int| 0 <= i < j < tasks.len() implies #[trigger] tasks[i].name@
        != #[trigger] tasks[j].name@ by {
        lemma_no_task_fault(spec, 0, j, edition);
    }
    assert forall|i: int, k: int| 0 <= i < tasks.len() && 0 <= k < tasks[i].depends_on@.len() implies known(
        tasks,
        #[trigger] tasks[i].depends_on@[k]@,
    ) by {
        lemma_dependencies_ok(tasks, 0, 0, i, k);
    }
}

proof fn lemma_advanced_shape(db: StoreView, cands: Seq<TaskRunView>, now: Seq<char>, k: int, i: int)
    requires
        0 <= k <= cands.len(),
        0 <= i < db.tasks.len(),
    ensures
        ({
            let after = advanced(db, cands, now, k).0.tasks;
            &&& after.len() == db.tasks.len()
            &&& after[i].id == db.tasks[i].id
            &&& db.tasks[i].status != TaskStatus::Pending ==> after[i].status != TaskStatus::Pending
            &&& (exists|m: int| 0 <= m < k && (#[trigger] cands[m]).id == db.tasks[i].id)
                ==> after[i].status != TaskStatus::Pending
        }),
    decreases k,
{
    if k > 0 {
        lemma_advanced_shape(db, cands, now, k - 1, i);
        let mid = advanced(db, cands, now, k - 1).0;
        let c = cands[k - 1];
        let hits = |t: TaskRunView| pending_row(t, c.id);
        if hits(mid.tasks[i]) {
            assert(any(mid.tasks, hits));
        }
    }
}

/// Every task that was free to move has moved: after a pass, no row is left
/// pending that waited for nothing before it.
pub proof fn law_advance_leaves_nothing_behind(db: StoreView, now: Seq<char>, i: int)
    requires
        0 <= i < db.tasks.len(),
        unblocked(db.tasks[i]),
    ensures
        ({
            let cands = candidates(db.tasks);
            advanced(db, cands, now, cands.len() as int).0.tasks[i].status != TaskStatus::Pending
        }),
{
    let cands = candidates(db.tasks);
    let p = |t: TaskRunView| unblocked(t);
    let lt = |a: TaskRunView, b: TaskRunView| lex_lt(a.id, b.id);
    let q = ordered(db.tasks, p, lt, db.tasks.len() as int);
    lemma_ordered_members(db.tasks, p, lt, db.tasks.len() as int);
    assert(p(db.tasks[i]));
    assert(q.contains(i));
    let m = choose|m: int| 0 <= m < q.len() && q[m] == i;
    assert(cands[m] == db.tasks[i]);
    lemma_advanced_shape(db, cands, now, cands.len() as int, i);
}

// ── Sweeps ───────────────────────────────────────────────────────────────────

proof fn lemma_waits_shape(db: StoreView, ids: Seq<Seq<char>>, now: Seq<char>, i: int)
    requires
        0 <= i < db.tasks.len(),
    ensures
        ({
            let after = folded(db, ids, end_sensor(now)).tasks;
            &&& after.len() == db.tasks.len()
            &&& after[i].id == db.tasks[i].id
            &&& wait_over(after[i], now) ==> wait_over(db.tasks[i], now) && !ids.contains(
                db.tasks[i].id,
            )
        }),
    decreases ids.len(),
{
    if ids.len() > 0 {
        let rest = ids.drop_last();
        lemma_waits_shape(db, rest, now, i);
        let mid = folded(db, rest, end_sensor(now));
        let id = ids.last();
        let hits = |t: TaskRunView| t.id == id && wait_over(t, now);
        if hits(mid.tasks[i]) {
            assert(any(mid.tasks, hits));
        }
        let after = folded(db, ids, end_sensor(now)).tasks;
        if wait_over(after[i], now) && ids.contains(db.tasks[i].id) {
            let m = choose|m: int| 0 <= m < ids.len() && ids[m] == db.tasks[i].id;
            if m < rest.len() {
                assert(rest[m] == db.tasks[i].id);
            }
        }
    }
}

/// A sweep over the time sensors leaves none behind whose time has come, so a
/// second sweep at the same time finds nothing to do.
pub proof fn law_wait_sweep_is_complete(db: StoreView, now: Seq<char>, i: int)
    requires
        0 <= i < db.tasks.len(),
    ensures
        !wait_over(
            folded(db, waits_over(db.tasks, now), end_sensor(now)).tasks[i],
            now,
        ),
{
    let ids = waits_over(db.tasks, now);
    lemma_waits_shape(db, ids, now, i);
    if wait_over(db.tasks[i], now) {
        let p = |t: TaskRunView| wait_over(t, now);
        let lt = |a: TaskRunView, b: TaskRunView| false;
        lemma_ordered_members(db.tasks, p, lt, db.tasks.len() as int);
        let q = ordered(db.tasks, p, lt, db.tasks.len() as int);
        assert(p(db.tasks[i]));
        assert(q.contains(i));
        let m = choose|m: int| 0 <= m < q.len() && q[m] == i;
        assert(ids[m] == db.tasks[i].id);
    }
}

// ── The ends of runs ─────────────────────────────────────────────────────────

/// A run ends once and by its tasks: after a sweep no completed run is left
/// running, and a run that the sweep ended failed exactly where one of its tasks
/// failed that may not.
pub proof fn law_completed_runs_end(tasks: Seq<TaskRunView>, runs: Seq<WorkflowRunView>, now: Seq<char>, i: int)
    requires
        0 <= i < runs.len(),
    ensures
        ({
            let after = amended(
                runs,
                |r: WorkflowRunView| completed(tasks, r),
                |r: WorkflowRunView| finalized(tasks, r, now),
            )[i];
            &&& !completed(tasks, after)
            &&& completed(tasks, runs[i]) ==> (after.status == RunStatus::Failed <==> has_failed(
                tasks,
                runs[i].id,
            ))
            &&& !completed(tasks, runs[i]) ==> after == runs[i]
        }),
{
}

/// A cancelled run has nothing left to do and cannot be cancelled again; other
/// runs and their tasks are as before.
pub proof fn law_cancel_is_final(db: StoreView, run_id: Seq<char>, now: Seq<char>, i: int, k: int)
    requires
        0 <= i < db.tasks.len(),
        0 <= k < db.runs.len(),
    ensures
        ({
            let tasks = amended(
                db.tasks,
                |t: TaskRunView| t.run_id == run_id && !t.status.terminal(),
                |t: TaskRunView| swept(t, now),
            );
            let runs = amended(
                db.runs,
                |r: WorkflowRunView| running_run(r, run_id),
                |r: WorkflowRunView|
                    WorkflowRunView {
                        status: RunStatus::Cancelled,
                        finished_at: Some(now),
                        ..r
                    },
            );
            &&& tasks[i].run_id == run_id ==> tasks[i].status.terminal()
            &&& db.tasks[i].run_id != run_id ==> tasks[i] == db.tasks[i]
            &&& !running_run(runs[k], run_id)
            &&& db.runs[k].id != run_id ==> runs[k] == db.runs[k]
        }),
{
}

/// A cancelled task is out of every worker's reach.
pub proof fn law_cancelled_task_has_no_claim(t: TaskRunView, now: Seq<char>, worker: Seq<char>, fence: int)
    ensures
        !held_by(swept(t, now), t.id, worker, fence),
        !lease_lapsed(swept(t, now), now),
{
}

/// A run is failed by its deadline once, and an alert is raised once.
pub proof fn law_deadlines_fire_once(r: WorkflowRunView, now: Seq<char>, later: Seq<char>)
    ensures
        overdue(r, now) ==> !overdue(timed_out(r, now), later),
        alert_due(r, now) ==> !alert_due(WorkflowRunView { alert_fired_at: Some(now), ..r }, later),
{
}

// ── Delivery ─────────────────────────────────────────────────────────────────

/// An event that was claimed for delivery is left alone until its lease runs
/// out, and one that was delivered or given up is never claimed again.
pub proof fn law_claimed_event_waits(
    outbox: Seq<OutboxRowView>,
    limit: int,
    now: Seq<char>,
    lease: Seq<char>,
    later: Seq<char>,
    i: int,
)
    requires
        0 <= i < outbox.len(),
        batch(outbox, limit, now).contains(i),
        lex_lt(later, lease),
    ensures
        deliverable(outbox[i], now),
        !deliverable(
            amended_at(
                outbox,
                batch(outbox, limit, now),
                |e: OutboxRowView| OutboxRowView { next_attempt_at: lease, ..e },
            )[i],
            later,
        ),
{
    let p = |e: OutboxRowView| deliverable(e, now);
    let lt = |a: OutboxRowView, b: OutboxRowView| lex_lt(a.next_attempt_at, b.next_attempt_at);
    lemma_ordered_members(outbox, p, lt, outbox.len() as int);
    let all = ordered(outbox, p, lt, outbox.len() as int);
    lemma_limited_members(all, limit);
    assert(all.contains(i));
}

// ── Loops ────────────────────────────────────────────────────────────────────

/// A loop ends: once it has run as often as it may, it does not run again,
/// whatever its condition comes to.
pub proof fn law_loop_ends(
    spec: RepeatSpec,
    value: Option<bool>,
    complaint: Seq<char>,
    output: Seq<char>,
    iteration: int,
)
    requires
        iteration >= spec.max_iterations,
    ensures
        !(spec.outcome(value, complaint, output, iteration) is Again),
{
}

} // verus!
