//! Sources, the outbox and leadership: who holds what, and until when.
use vstd::prelude::*;
use crate::laws::reading::{law_first_row, lemma_text_order};
use crate::leadership::{after_bid, wins, yields};
use crate::models::OutboxStatus;
use crate::order::{
    lemma_ordered_len, lemma_ordered_members, lemma_ordered_sorted, ordered, places_where,
};
use crate::outbox::{batch, deliverable, new_event, pending_event};
use crate::rows::{LeaderView, OutboxRowView, SourceOffsetView, SourcePartitionView};
use crate::sources::{
    committed, is_partition, offset_upserted, partition_free, partition_held, partition_names, partitions_claimed,
    partitions_taken, registered,
};
use crate::table::{amended, amended_at, any, count, lemma_count_filter};
use crate::text::lex_lt;

verus! {

// ── Sources ──────────────────────────────────────────────────────────────────

/// To commit a position sets it for that source alone; a source that never
/// committed comes with it.
pub proof fn law_position_is_the_sources_own(
    offsets: Seq<SourceOffsetView>,
    source: Seq<char>,
    position: Seq<char>,
    now: Seq<char>,
    i: int,
)
    requires
        0 <= i < offsets.len(),
    ensures
        ({
            let after = offset_upserted(offsets, source, position, now);
            let known = exists|k: int| 0 <= k < offsets.len() && (#[trigger] offsets[k]).source_name == source;
            &&& after.len() == offsets.len() + (if known { 0int } else { 1 })
            &&& after[i] == (if offsets[i].source_name == source {
                SourceOffsetView { source_name: source, position, updated_at: now }
            } else {
                offsets[i]
            })
            &&& !known ==> after.last() == (SourceOffsetView { source_name: source, position, updated_at: now })
        }),
{
    let p = |o: SourceOffsetView| o.source_name == source;
    if exists|k: int| 0 <= k < offsets.len() && (#[trigger] offsets[k]).source_name == source {
        let k = choose|k: int| 0 <= k < offsets.len() && (#[trigger] offsets[k]).source_name == source;
        assert(p(offsets[k]));
    }
}

/// The position that a source committed is the one on its own row.
pub proof fn law_position_is_read_from_its_row(offsets: Seq<SourceOffsetView>, source: Seq<char>, k: int)
    requires
        0 <= k <= offsets.len(),
        forall|j: int| 0 <= j < k ==> (#[trigger] offsets[j]).source_name != source,
        k < offsets.len() ==> offsets[k].source_name == source,
    ensures
        committed(offsets, source) == (if k < offsets.len() { Some(offsets[k].position) } else { None }),
{
    law_first_row(offsets, |o: SourceOffsetView| o.source_name == source, k);
}

/// The partition is on record.
pub open spec fn on_record(parts: Seq<SourcePartitionView>, source: Seq<char>, name: Seq<char>) -> bool {
    exists|k: int| 0 <= k < parts.len() && (#[trigger] parts[k]).source_name == source && parts[k].partition == name
}

/// Once partitions are registered, each of them is on record. Those from before
/// stay as they are, and each that comes is held by nobody.
pub proof fn law_registration_puts_on_record(
    parts: Seq<SourcePartitionView>,
    source: Seq<char>,
    names: Seq<Seq<char>>,
    now: Seq<char>,
    n: int,
)
    requires
        0 <= n <= names.len(),
    ensures
        ({
            let after = registered(parts, source, names, now, n);
            &&& after.len() >= parts.len()
            &&& forall|k: int| 0 <= k < parts.len() ==> #[trigger] after[k] == parts[k]
            &&& forall|j: int| 0 <= j < n ==> on_record(after, source, #[trigger] names[j])
            &&& forall|k: int|
                parts.len() <= k < after.len() ==> {
                    let p = #[trigger] after[k];
                    &&& p.source_name == source && p.updated_at == now
                    &&& p.claimed_by is None && p.lease_expires_at is None
                    &&& names.contains(p.partition) && !on_record(parts, source, p.partition)
                }
        }),
    decreases n,
{
    let after = registered(parts, source, names, now, n);
    if n > 0 {
        law_registration_puts_on_record(parts, source, names, now, n - 1);
        let rest = registered(parts, source, names, now, n - 1);
        let name = names[n - 1];
        let h = |p: SourcePartitionView| is_partition(p, source, name);
        assert(names.contains(name));
        if any(rest, h) {
            let k = choose|k: int| 0 <= k < rest.len() && h(#[trigger] rest[k]);
            assert(rest[k].source_name == source && rest[k].partition == name);
        } else {
            assert(after[rest.len() as int].partition == name);
            if on_record(parts, source, name) {
                let k = choose|k: int|
                    0 <= k < parts.len() && (#[trigger] parts[k]).source_name == source && parts[k].partition
                        == name;
                assert(h(rest[k]));
            }
        }
        assert forall|j: int| 0 <= j < n implies on_record(after, source, #[trigger] names[j]) by {
            if j < n - 1 {
                assert(on_record(rest, source, names[j]));
                let k = choose|k: int|
                    0 <= k < rest.len() && (#[trigger] rest[k]).source_name == source && rest[k].partition
                        == names[j];
                assert(after[k] == rest[k]);
            }
        }
        assert forall|k: int| parts.len() <= k < after.len() implies ({
            let p = #[trigger] after[k];
            &&& p.source_name == source && p.updated_at == now
            &&& p.claimed_by is None && p.lease_expires_at is None
            &&& names.contains(p.partition) && !on_record(parts, source, p.partition)
        }) by {
            if k < rest.len() {
                assert(after[k] == rest[k]);
            }
        }
    }
}

/// A partition of the source that somebody else may take over: nobody holds it,
/// or it is held without a lease, or on a lease that ended before now.
pub open spec fn up_for_grabs(
    p: SourcePartitionView,
    source: Seq<char>,
    worker: Seq<char>,
    now: Seq<char>,
) -> bool {
    &&& p.source_name == source
    &&& p.claimed_by matches Some(holder) ==> holder != worker && (p.lease_expires_at matches Some(at)
        ==> lex_lt(at, now))
}

/// A claim takes the partitions that are up for grabs, in the order of the
/// table, as many as the limit says, and leases each to the worker. Every other
/// partition keeps its holder and its lease.
pub proof fn law_claim_leases_what_is_free(
    parts: Seq<SourcePartitionView>,
    source: Seq<char>,
    worker: Seq<char>,
    limit: int,
    lease: Seq<char>,
    now: Seq<char>,
    i: int,
)
    requires
        0 <= i < parts.len(),
    ensures
        ({
            let q = partitions_taken(parts, source, worker, limit, now);
            let after = partitions_claimed(parts, source, worker, limit, lease, now);
            let free = |p: SourcePartitionView| up_for_grabs(p, source, worker, now);
            let all = parts.filter(free).len();
            &&& after.len() == parts.len()
            &&& after[i] == (if q.contains(i) {
                SourcePartitionView {
                    claimed_by: Some(worker),
                    lease_expires_at: Some(lease),
                    updated_at: now,
                    ..parts[i]
                }
            } else {
                parts[i]
            })
            &&& q.contains(i) ==> free(parts[i])
            &&& q.len() == (if limit < 0 || limit >= all { all as int } else { limit })
            &&& free(parts[i]) && !q.contains(i) ==> forall|k: int| 0 <= k < q.len() ==> #[trigger] q[k] < i
            &&& forall|a: int, b: int| 0 <= a < b < q.len() ==> #[trigger] q[a] < #[trigger] q[b]
        }),
{
    let free = |p: SourcePartitionView| up_for_grabs(p, source, worker, now);
    let p = |p: SourcePartitionView| partition_free(p, source, worker, now);
    assert(p =~= free);
    let all = places_where(parts, p);
    let q = partitions_taken(parts, source, worker, limit, now);
    let lt = |a: SourcePartitionView, b: SourcePartitionView| false;
    crate::laws::reading::law_plain_read(parts, p);
    lemma_ordered_len(parts, p, lt, parts.len() as int);
    assert(parts.take(parts.len() as int) =~= parts);
    lemma_count_filter(parts, p);
    if q.contains(i) {
        let k = choose|k: int| 0 <= k < q.len() && q[k] == i;
        assert(all.contains(all[k]));
    }
    if free(parts[i]) && !q.contains(i) {
        assert(all.contains(i));
        let x = choose|x: int| 0 <= x < all.len() && all[x] == i;
        assert forall|k: int| 0 <= k < q.len() implies #[trigger] q[k] < i by {
            if x < q.len() {
                assert(q[x] == i);
            }
            assert(all[k] < all[x]);
        }
    }
}

/// A partition that satisfies `p` has this name.
pub open spec fn is_named(
    parts: Seq<SourcePartitionView>,
    p: spec_fn(SourcePartitionView) -> bool,
    name: Seq<char>,
) -> bool {
    exists|j: int| 0 <= j < parts.len() && p(#[trigger] parts[j]) && parts[j].partition == name
}

/// A worker holds the partitions of the source that are claimed in its name:
/// those it renews until a new time, gives up, and is told the names of, in
/// order. All others stay.
pub proof fn law_worker_keeps_or_gives_up_its_own(
    parts: Seq<SourcePartitionView>,
    source: Seq<char>,
    worker: Seq<char>,
    until: Seq<char>,
    now: Seq<char>,
    i: int,
)
    requires
        0 <= i < parts.len(),
    ensures
        ({
            let held = |p: SourcePartitionView| partition_held(p, source, worker);
            let own = |p: SourcePartitionView| p.source_name == source && p.claimed_by == Some(worker);
            let p = parts[i];
            let names = partition_names(parts, held);
            &&& count(parts, held) == parts.filter(own).len()
            &&& amended(
                parts,
                held,
                |p: SourcePartitionView| SourcePartitionView {
                    lease_expires_at: Some(until),
                    updated_at: now,
                    ..p
                },
            )[i] == (if own(p) {
                SourcePartitionView { lease_expires_at: Some(until), updated_at: now, ..p }
            } else {
                p
            })
            &&& amended(
                parts,
                held,
                |p: SourcePartitionView| SourcePartitionView {
                    claimed_by: None,
                    lease_expires_at: None,
                    updated_at: now,
                    ..p
                },
            )[i] == (if own(p) {
                SourcePartitionView { claimed_by: None, lease_expires_at: None, updated_at: now, ..p }
            } else {
                p
            })
            &&& names.len() == parts.filter(own).len()
            &&& own(p) ==> names.contains(p.partition)
            &&& forall|k: int| 0 <= k < names.len() ==> is_named(parts, own, #[trigger] names[k])
            &&& forall|a: int, b: int|
                0 <= a < b < names.len() ==> !lex_lt(#[trigger] names[b], #[trigger] names[a])
        }),
{
    let held = |p: SourcePartitionView| partition_held(p, source, worker);
    let own = |p: SourcePartitionView| p.source_name == source && p.claimed_by == Some(worker);
    assert(held =~= own);
    lemma_count_filter(parts, held);
    law_partition_names_are_in_order(parts, held);
    let names = partition_names(parts, held);
    if own(parts[i]) {
        assert(held(parts[i]));
    }
}

/// The names of partitions come in order, one for each.
pub proof fn law_partition_names_are_in_order(parts: Seq<SourcePartitionView>, p: spec_fn(SourcePartitionView) -> bool)
    ensures
        ({
            let names = partition_names(parts, p);
            &&& names.len() == parts.filter(p).len()
            &&& forall|i: int| 0 <= i < parts.len() && p(#[trigger] parts[i]) ==> names.contains(parts[i].partition)
            &&& forall|k: int|
                0 <= k < names.len() ==> is_named(parts, p, #[trigger] names[k])
            &&& forall|a: int, b: int|
                0 <= a < b < names.len() ==> !lex_lt(#[trigger] names[b], #[trigger] names[a])
        }),
{
    let lt = |a: SourcePartitionView, b: SourcePartitionView| lex_lt(a.partition, b.partition);
    let n = parts.len() as int;
    let q = ordered(parts, p, lt, n);
    let names = partition_names(parts, p);
    lemma_text_order(|p: SourcePartitionView| p.partition, lt);
    lemma_ordered_members(parts, p, lt, n);
    lemma_ordered_sorted(parts, p, lt, n);
    lemma_ordered_len(parts, p, lt, n);
    assert(parts.take(n) =~= parts);
    lemma_count_filter(parts, p);
    assert forall|i: int| 0 <= i < parts.len() && p(#[trigger] parts[i]) implies names.contains(
        parts[i].partition,
    ) by {
        assert(q.contains(i));
        let k = choose|k: int| 0 <= k < q.len() && q[k] == i;
        assert(names[k] == parts[i].partition);
    }
    assert forall|k: int| 0 <= k < names.len() implies is_named(parts, p, #[trigger] names[k]) by {
        assert(q.contains(q[k]));
        assert(names[k] == parts[q[k]].partition);
        assert(p(parts[q[k]]));
    }
    assert forall|a: int, b: int| 0 <= a < b < names.len() implies !lex_lt(
        #[trigger] names[b],
        #[trigger] names[a],
    ) by {
        assert(names[a] == parts[q[a]].partition && names[b] == parts[q[b]].partition);
        assert(!lt(parts[q[b]], parts[q[a]]));
    }
}

// ── The outbox ───────────────────────────────────────────────────────────────

/// A new event waits for its first delivery, which is due at once.
pub proof fn law_new_event_is_due_at_once(
    id: Seq<char>,
    run_id: Seq<char>,
    kind: Seq<char>,
    payload: Seq<char>,
    now: Seq<char>,
)
    ensures
        new_event(id, run_id, kind, payload, now) == (OutboxRowView {
            id,
            run_id,
            event_type: kind,
            payload,
            status: OutboxStatus::Pending,
            attempts: 0,
            next_attempt_at: now,
            created_at: now,
            delivered_at: None,
            last_error: None,
        }),
        deliverable(new_event(id, run_id, kind, payload, now), now),
{
    crate::text::lemma_lex_irreflexive(now);
}

/// A batch has the pending events that are due, up to the limit, and no event
/// that it leaves out was due before one that it has. Each is put off; the
/// others stay.
pub proof fn law_batch_takes_the_longest_due(
    outbox: Seq<OutboxRowView>,
    limit: int,
    now: Seq<char>,
    lease: Seq<char>,
    i: int,
)
    requires
        0 <= i < outbox.len(),
    ensures
        ({
            let due = |e: OutboxRowView| e.status == OutboxStatus::Pending && !lex_lt(now, e.next_attempt_at);
            let q = batch(outbox, limit, now);
            let all = outbox.filter(due).len();
            &&& q.no_duplicates()
            &&& q.len() == (if limit < 0 || limit >= all { all as int } else { limit })
            &&& q.contains(i) ==> due(outbox[i])
            &&& due(outbox[i]) && !q.contains(i) ==> forall|k: int|
                0 <= k < q.len() ==> !lex_lt(outbox[i].next_attempt_at, outbox[#[trigger] q[k]].next_attempt_at)
            &&& forall|a: int, b: int|
                0 <= a < b < q.len() ==> !lex_lt(
                    outbox[#[trigger] q[b]].next_attempt_at,
                    outbox[#[trigger] q[a]].next_attempt_at,
                )
            &&& amended_at(
                outbox,
                q,
                |e: OutboxRowView| OutboxRowView { next_attempt_at: lease, ..e },
            )[i] == (if q.contains(i) {
                OutboxRowView { next_attempt_at: lease, ..outbox[i] }
            } else {
                outbox[i]
            })
        }),
{
    let due = |e: OutboxRowView| e.status == OutboxStatus::Pending && !lex_lt(now, e.next_attempt_at);
    let p = |e: OutboxRowView| deliverable(e, now);
    assert(p =~= due);
    let lt = |a: OutboxRowView, b: OutboxRowView| lex_lt(a.next_attempt_at, b.next_attempt_at);
    let n = outbox.len() as int;
    let all = ordered(outbox, p, lt, n);
    let q = batch(outbox, limit, now);
    lemma_text_order(|e: OutboxRowView| e.next_attempt_at, lt);
    lemma_ordered_members(outbox, p, lt, n);
    lemma_ordered_sorted(outbox, p, lt, n);
    lemma_ordered_len(outbox, p, lt, n);
    assert(outbox.take(n) =~= outbox);
    lemma_count_filter(outbox, p);
    assert forall|a: int, b: int| 0 <= a < b < q.len() implies !lex_lt(
        outbox[#[trigger] q[b]].next_attempt_at,
        outbox[#[trigger] q[a]].next_attempt_at,
    ) by {
        assert(!lt(outbox[all[b]], outbox[all[a]]));
    }
    if q.contains(i) {
        let k = choose|k: int| 0 <= k < q.len() && q[k] == i;
        assert(all.contains(all[k]));
    }
    if due(outbox[i]) && !q.contains(i) {
        assert(all.contains(i));
        let x = choose|x: int| 0 <= x < all.len() && all[x] == i;
        assert forall|k: int| 0 <= k < q.len() implies !lex_lt(
            outbox[i].next_attempt_at,
            outbox[#[trigger] q[k]].next_attempt_at,
        ) by {
            if x < q.len() {
                assert(q[x] == i);
            }
            assert(!lt(outbox[all[x]], outbox[all[k]]));
        }
    }
}

/// What is reported of a delivery goes to the pending event of that id alone.
pub proof fn law_report_is_for_the_pending_event(e: OutboxRowView, id: Seq<char>)
    ensures
        pending_event(e, id) <==> e.id == id && e.status == OutboxStatus::Pending,
{
}

// ── Leadership ───────────────────────────────────────────────────────────────

/// A bid for a role wins where nobody has it, the bidder has it already, or the
/// lease on it ended before now; it changes that role only, and only where it
/// wins.
pub proof fn law_bid_wins_what_is_free(
    leaders: Seq<LeaderView>,
    role: Seq<char>,
    holder: Seq<char>,
    now: Seq<char>,
    until: Seq<char>,
    i: int,
)
    requires
        0 <= i < leaders.len(),
    ensures
        ({
            let after = after_bid(leaders, role, holder, now, until);
            let known = exists|k: int| 0 <= k < leaders.len() && (#[trigger] leaders[k]).role == role;
            let open = |l: LeaderView|
                l.role == role && (l.holder == holder || lex_lt(l.lease_expires_at, now));
            &&& wins(leaders, role, holder, now) <==> !known || exists|k: int|
                0 <= k < leaders.len() && open(#[trigger] leaders[k])
            &&& after.len() == leaders.len() + (if known { 0int } else { 1 })
            &&& after[i] == (if open(leaders[i]) {
                LeaderView { role, holder, lease_expires_at: until }
            } else {
                leaders[i]
            })
            &&& !known ==> after.last() == (LeaderView { role, holder, lease_expires_at: until })
        }),
{
    let open = |l: LeaderView| l.role == role && (l.holder == holder || lex_lt(l.lease_expires_at, now));
    let y = |l: LeaderView| yields(l, role, holder, now);
    let h = |l: LeaderView| l.role == role;
    assert(y =~= open);
    if exists|k: int| 0 <= k < leaders.len() && (#[trigger] leaders[k]).role == role {
        let k = choose|k: int| 0 <= k < leaders.len() && (#[trigger] leaders[k]).role == role;
        assert(h(leaders[k]));
    }
    if any(leaders, h) {
        let k = choose|k: int| 0 <= k < leaders.len() && h(#[trigger] leaders[k]);
        assert(leaders[k].role == role);
    }
    if any(leaders, y) {
        let k = choose|k: int| 0 <= k < leaders.len() && y(#[trigger] leaders[k]);
        assert(open(leaders[k]));
    }
    if exists|k: int| 0 <= k < leaders.len() && open(#[trigger] leaders[k]) {
        let k = choose|k: int| 0 <= k < leaders.len() && open(#[trigger] leaders[k]);
        assert(y(leaders[k]));
    }
}

} // verus!
