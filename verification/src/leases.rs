//! Claims and leases by the clock: each operation takes an instant and a number
//! of seconds, stamps the instant and the end of its span, and makes the
//! transition. Where the calendar does not hold that end, nothing happens.
use vstd::prelude::*;
use crate::claims::{
    claim_ready, claim_ready_classes, claim_ready_classes_nongang, claim_set, with_claims,
};
use crate::gangs::{
    claim_ready_gang, gang_taken, handed_out, ready_member, with_gang_claimed, GangClaim,
};
use crate::leadership::{after_bid, try_acquire_leadership, wins};
use crate::order::rows_at;
use crate::outbox::{batch, claim_outbox_batch};
use crate::reruns::{reclass_ready_tasks, reclass_ready_tasks_near_deadline, starved, urgent};
use crate::rows::{views, OutboxRow, OutboxRowView, SourcePartitionView, TaskRun, TaskRunView};
use crate::sources::{
    claim_source_partitions, partition_held, partition_names, partitions_claimed, partitions_taken,
    renew_source_partitions,
};
use crate::store::{Store, StoreView};
use crate::table::{amended, amended_at, count};
use crate::tasks::{claims_fit, renew_task_lease, running_for};
use crate::text::texts;
use crate::text_map::TextMap;
use crate::time::{rfc3339_text, shifted_text, stamp, stamp_in, Timestamp};

verus! {

/// The text of an instant.
pub open spec fn instant_text(t: Timestamp) -> Seq<char> {
    rfc3339_text(t.secs as int, t.nanos as int)
}

/// The text of the instant `secs` before `t`.
pub open spec fn earlier_text(t: Timestamp, secs: i64) -> Option<Seq<char>> {
    if secs == i64::MIN { None } else { shifted_text(t, -secs) }
}

fn stamp_before(t: Timestamp, secs: i64) -> (r: Option<String>)
    requires
        t.valid(),
    ensures
        (match r {
            Some(s) => Some(s@),
            None => None,
        }) == earlier_text(t, secs),
{
    if secs == i64::MIN {
        None
    } else {
        stamp_in(t, -secs)
    }
}

// ── Tasks ────────────────────────────────────────────────────────────────────

/// A claim hands out the rows at `taken` as they were, and leaves them leased to
/// the worker until `lease`.
pub open spec fn hands_out(
    before: StoreView,
    after: StoreView,
    out: Seq<TaskRunView>,
    taken: Seq<int>,
    worker: Seq<char>,
    lease: Seq<char>,
) -> bool {
    &&& out == taken.map_values(|i: int| before.tasks[i])
    &&& after == (StoreView { tasks: with_claims(before.tasks, taken, worker, lease), ..before })
}

/// [`claim_ready`] at `t`, for `lease_secs` seconds.
pub fn claim_ready_for(
    db: &mut Store,
    worker_id: &str,
    limit: i64,
    t: Timestamp,
    lease_secs: i64,
) -> (r: Option<Vec<TaskRun>>)
    requires
        t.valid(),
        claims_fit(old(db)@.tasks),
    ensures
        match shifted_text(t, lease_secs as int) {
            Some(lease) => r is Some && hands_out(
                old(db)@,
                final(db)@,
                views(r->0@),
                claim_set(
                    old(db)@.tasks,
                    limit as int,
                    Seq::empty(),
                    Map::empty(),
                    false,
                    instant_text(t),
                ),
                worker_id@,
                lease,
            ),
            None => r is None && final(db)@ == old(db)@,
        },
{
    let now: String = stamp(t);
    match stamp_in(t, lease_secs) {
        Some(lease) => Some(claim_ready(db, worker_id, limit, now.as_str(), lease.as_str())),
        None => None,
    }
}

/// [`claim_ready_classes`] at `t`, for `lease_secs` seconds.
pub fn claim_ready_classes_for(
    db: &mut Store,
    worker_id: &str,
    limit: i64,
    classes: &Vec<String>,
    pool_caps: &TextMap<i64>,
    t: Timestamp,
    lease_secs: i64,
) -> (r: Option<Vec<TaskRun>>)
    requires
        t.valid(),
        claims_fit(old(db)@.tasks),
    ensures
        match shifted_text(t, lease_secs as int) {
            Some(lease) => r is Some && hands_out(
                old(db)@,
                final(db)@,
                views(r->0@),
                claim_set(
                    old(db)@.tasks,
                    limit as int,
                    texts(classes@),
                    pool_caps@,
                    false,
                    instant_text(t),
                ),
                worker_id@,
                lease,
            ),
            None => r is None && final(db)@ == old(db)@,
        },
{
    let now: String = stamp(t);
    match stamp_in(t, lease_secs) {
        Some(lease) => Some(
            claim_ready_classes(
                db,
                worker_id,
                limit,
                classes,
                pool_caps,
                now.as_str(),
                lease.as_str(),
            ),
        ),
        None => None,
    }
}

/// [`claim_ready_classes_nongang`] at `t`, for `lease_secs` seconds.
pub fn claim_ready_classes_nongang_for(
    db: &mut Store,
    worker_id: &str,
    limit: i64,
    classes: &Vec<String>,
    pool_caps: &TextMap<i64>,
    t: Timestamp,
    lease_secs: i64,
) -> (r: Option<Vec<TaskRun>>)
    requires
        t.valid(),
        claims_fit(old(db)@.tasks),
    ensures
        match shifted_text(t, lease_secs as int) {
            Some(lease) => r is Some && hands_out(
                old(db)@,
                final(db)@,
                views(r->0@),
                claim_set(
                    old(db)@.tasks,
                    limit as int,
                    texts(classes@),
                    pool_caps@,
                    true,
                    instant_text(t),
                ),
                worker_id@,
                lease,
            ),
            None => r is None && final(db)@ == old(db)@,
        },
{
    let now: String = stamp(t);
    match stamp_in(t, lease_secs) {
        Some(lease) => Some(
            claim_ready_classes_nongang(
                db,
                worker_id,
                limit,
                classes,
                pool_caps,
                now.as_str(),
                lease.as_str(),
            ),
        ),
        None => None,
    }
}

/// A claim hands out every ready member of the gang `id`, leased to the worker
/// until `lease`, or nothing where there is no such gang.
pub open spec fn hands_out_gang(
    before: StoreView,
    after: StoreView,
    out: Seq<TaskRunView>,
    gang: Option<Seq<char>>,
    worker: Seq<char>,
    lease: Seq<char>,
) -> bool {
    match gang {
        None => out.len() == 0 && after == before,
        Some(id) => {
            &&& out == before.tasks.filter(|t: TaskRunView| ready_member(t, id)).map_values(
                |t: TaskRunView| handed_out(t, worker, lease),
            )
            &&& after == (StoreView {
                tasks: with_gang_claimed(before.tasks, id, worker, lease),
                ..before
            })
        },
    }
}

/// [`claim_ready_gang`] at `t`, for `lease_secs` seconds.
pub fn claim_ready_gang_for(
    db: &mut Store,
    worker_id: &str,
    capacity: i64,
    classes: &Vec<String>,
    pool_caps: &TextMap<i64>,
    t: Timestamp,
    lease_secs: i64,
) -> (r: Option<Vec<TaskRun>>)
    requires
        t.valid(),
        claims_fit(old(db)@.tasks),
    ensures
        match shifted_text(t, lease_secs as int) {
            Some(lease) => r is Some && hands_out_gang(
                old(db)@,
                final(db)@,
                views(r->0@),
                gang_taken(
                    old(db)@.tasks,
                    (GangClaim {
                        capacity: capacity as int,
                        classes: texts(classes@),
                        caps: pool_caps@,
                        now: instant_text(t),
                    }),
                ),
                worker_id@,
                lease,
            ),
            None => r is None && final(db)@ == old(db)@,
        },
{
    let now: String = stamp(t);
    match stamp_in(t, lease_secs) {
        Some(lease) => Some(
            claim_ready_gang(
                db,
                worker_id,
                capacity,
                classes,
                pool_caps,
                now.as_str(),
                lease.as_str(),
            ),
        ),
        None => None,
    }
}

/// [`renew_task_lease`] at `t`, for `lease_secs` seconds.
pub fn renew_task_lease_for(
    db: &mut Store,
    task_id: &str,
    worker_id: &str,
    fence: i64,
    t: Timestamp,
    lease_secs: i64,
) -> (r: Option<bool>)
    requires
        t.valid(),
    ensures
        match shifted_text(t, lease_secs as int) {
            Some(lease) => {
                &&& r == Some(
                    count(
                        old(db)@.tasks,
                        |t: TaskRunView| running_for(t, task_id@, worker_id@, fence as int),
                    ) == 1,
                )
                &&& final(db)@ == (StoreView {
                    tasks: amended(
                        old(db)@.tasks,
                        |t: TaskRunView| running_for(t, task_id@, worker_id@, fence as int),
                        |t: TaskRunView| TaskRunView { lease_expires_at: Some(lease), ..t },
                    ),
                    ..old(db)@
                })
            },
            None => r is None && final(db)@ == old(db)@,
        },
{
    match stamp_in(t, lease_secs) {
        Some(lease) => Some(renew_task_lease(db, task_id, worker_id, fence, lease.as_str())),
        None => None,
    }
}

/// [`reclass_ready_tasks`] of what was scheduled `max_age_secs` before `t` or
/// earlier.
pub fn reclass_ready_tasks_for(
    db: &mut Store,
    from_class: &str,
    to_class: &str,
    t: Timestamp,
    max_age_secs: i64,
    min_attempt: i64,
) -> (r: Option<u64>)
    requires
        t.valid(),
    ensures
        match earlier_text(t, max_age_secs) {
            Some(mark) => {
                &&& r is Some && r->0 == count(
                    old(db)@.tasks,
                    |t: TaskRunView| starved(t, from_class@, mark, min_attempt as int),
                )
                &&& final(db)@ == (StoreView {
                    tasks: amended(
                        old(db)@.tasks,
                        |t: TaskRunView| starved(t, from_class@, mark, min_attempt as int),
                        |t: TaskRunView| TaskRunView { runner_class: to_class@, ..t },
                    ),
                    ..old(db)@
                })
            },
            None => r is None && final(db)@ == old(db)@,
        },
{
    match stamp_before(t, max_age_secs) {
        Some(mark) => Some(reclass_ready_tasks(db, from_class, to_class, mark.as_str(), min_attempt)),
        None => None,
    }
}

/// [`reclass_ready_tasks_near_deadline`] of what is due within `within_secs`
/// seconds after `t`.
pub fn reclass_ready_tasks_near_deadline_for(
    db: &mut Store,
    from_class: &str,
    to_class: &str,
    t: Timestamp,
    within_secs: i64,
) -> (r: Option<u64>)
    requires
        t.valid(),
    ensures
        match shifted_text(t, within_secs as int) {
            Some(horizon) => {
                &&& r is Some && r->0 == count(
                    old(db)@.tasks,
                    |t: TaskRunView| urgent(old(db)@.runs, t, from_class@, horizon),
                )
                &&& final(db)@ == (StoreView {
                    tasks: amended(
                        old(db)@.tasks,
                        |t: TaskRunView| urgent(old(db)@.runs, t, from_class@, horizon),
                        |t: TaskRunView| TaskRunView { runner_class: to_class@, ..t },
                    ),
                    ..old(db)@
                })
            },
            None => r is None && final(db)@ == old(db)@,
        },
{
    match stamp_in(t, within_secs) {
        Some(horizon) => Some(
            reclass_ready_tasks_near_deadline(db, from_class, to_class, horizon.as_str()),
        ),
        None => None,
    }
}

// ── Partitions, events and roles ─────────────────────────────────────────────

/// [`claim_source_partitions`] at `t`, for `lease_secs` seconds.
pub fn claim_source_partitions_for(
    db: &mut Store,
    source_name: &str,
    worker_id: &str,
    limit: i64,
    t: Timestamp,
    lease_secs: i64,
) -> (r: Option<Vec<String>>)
    requires
        t.valid(),
    ensures
        match shifted_text(t, lease_secs as int) {
            Some(lease) => {
                &&& r is Some && texts(r->0@) == partition_names(
                    rows_at(
                        old(db)@.partitions,
                        partitions_taken(
                            old(db)@.partitions,
                            source_name@,
                            worker_id@,
                            limit as int,
                            instant_text(t),
                        ),
                    ),
                    |p: SourcePartitionView| true,
                )
                &&& final(db)@ == (StoreView {
                    partitions: partitions_claimed(
                        old(db)@.partitions,
                        source_name@,
                        worker_id@,
                        limit as int,
                        lease,
                        instant_text(t),
                    ),
                    ..old(db)@
                })
            },
            None => r is None && final(db)@ == old(db)@,
        },
{
    let now: String = stamp(t);
    match stamp_in(t, lease_secs) {
        Some(lease) => Some(
            claim_source_partitions(
                db,
                source_name,
                worker_id,
                limit,
                now.as_str(),
                lease.as_str(),
            ),
        ),
        None => None,
    }
}

/// [`renew_source_partitions`] at `t`, for `lease_secs` seconds.
pub fn renew_source_partitions_for(
    db: &mut Store,
    source_name: &str,
    worker_id: &str,
    t: Timestamp,
    lease_secs: i64,
) -> (r: Option<u64>)
    requires
        t.valid(),
    ensures
        match shifted_text(t, lease_secs as int) {
            Some(lease) => {
                &&& r is Some && r->0 == count(
                    old(db)@.partitions,
                    |p: SourcePartitionView| partition_held(p, source_name@, worker_id@),
                )
                &&& final(db)@ == (StoreView {
                    partitions: amended(
                        old(db)@.partitions,
                        |p: SourcePartitionView| partition_held(p, source_name@, worker_id@),
                        |p: SourcePartitionView| SourcePartitionView {
                            lease_expires_at: Some(lease),
                            updated_at: instant_text(t),
                            ..p
                        },
                    ),
                    ..old(db)@
                })
            },
            None => r is None && final(db)@ == old(db)@,
        },
{
    let now: String = stamp(t);
    match stamp_in(t, lease_secs) {
        Some(lease) => Some(
            renew_source_partitions(db, source_name, worker_id, now.as_str(), lease.as_str()),
        ),
        None => None,
    }
}

/// [`claim_outbox_batch`] at `t`, for `lease_secs` seconds.
pub fn claim_outbox_batch_for(
    db: &mut Store,
    limit: i64,
    t: Timestamp,
    lease_secs: i64,
) -> (r: Option<Vec<OutboxRow>>)
    requires
        t.valid(),
    ensures
        match shifted_text(t, lease_secs as int) {
            Some(lease) => {
                let q = batch(old(db)@.outbox, limit as int, instant_text(t));
                &&& r is Some && views(r->0@) == rows_at(old(db)@.outbox, q)
                &&& final(db)@ == (StoreView {
                    outbox: amended_at(
                        old(db)@.outbox,
                        q,
                        |e: OutboxRowView| OutboxRowView { next_attempt_at: lease, ..e },
                    ),
                    ..old(db)@
                })
            },
            None => r is None && final(db)@ == old(db)@,
        },
{
    let now: String = stamp(t);
    match stamp_in(t, lease_secs) {
        Some(lease) => Some(claim_outbox_batch(db, limit, now.as_str(), lease.as_str())),
        None => None,
    }
}

/// [`try_acquire_leadership`] at `t`, for `lease_secs` seconds.
pub fn try_acquire_leadership_for(
    db: &mut Store,
    role: &str,
    holder: &str,
    t: Timestamp,
    lease_secs: i64,
) -> (r: Option<bool>)
    requires
        t.valid(),
    ensures
        match shifted_text(t, lease_secs as int) {
            Some(lease) => {
                &&& r == Some(wins(old(db)@.leaders, role@, holder@, instant_text(t)))
                &&& final(db)@ == (StoreView {
                    leaders: after_bid(old(db)@.leaders, role@, holder@, instant_text(t), lease),
                    ..old(db)@
                })
            },
            None => r is None && final(db)@ == old(db)@,
        },
{
    let now: String = stamp(t);
    match stamp_in(t, lease_secs) {
        Some(lease) => Some(try_acquire_leadership(db, role, holder, now.as_str(), lease.as_str())),
        None => None,
    }
}

} // verus!
