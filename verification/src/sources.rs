//! Streaming sources: committed positions, and partitions leased to consumers.
use vstd::prelude::*;
use vstd::string::*;
use crate::order::{
    column_at, copy_at, find_row, first, lemma_first, lemma_limited_members, lemma_ordered_members, limit_of,
    limited, ordered, places, places_where, rows_at, select, select_all, Column, Keep, Order,
};
use crate::rows::{opt, views, SourceOffset, SourceOffsetView, SourcePartition, SourcePartitionView};
use crate::store::{column_is, is_past, past, Store, StoreView};
use crate::table::{
    amended, amended_at, any, count, lemma_count_same, update_all, update_any, update_at, Rule,
};
use crate::text::{before, lex_lt, same, texts};

verus! {

// ── Positions ────────────────────────────────────────────────────────────────

/// The positions once `source` has been consumed up to `position`.
pub open spec fn offset_upserted(
    offsets: Seq<SourceOffsetView>,
    source: Seq<char>,
    position: Seq<char>,
    now: Seq<char>,
) -> Seq<SourceOffsetView> {
    let moved = amended(
        offsets,
        |o: SourceOffsetView| o.source_name == source,
        |o: SourceOffsetView| SourceOffsetView { position, updated_at: now, ..o },
    );
    if any(offsets, |o: SourceOffsetView| o.source_name == source) {
        moved
    } else {
        moved.push(SourceOffsetView { source_name: source, position, updated_at: now })
    }
}

struct MoveOffset<'a> {
    source: &'a str,
    position: &'a str,
    now: &'a str,
}

impl<'a> Rule<SourceOffset> for MoveOffset<'a> {
    closed spec fn hits(&self, o: SourceOffsetView) -> bool {
        o.source_name == self.source@
    }

    closed spec fn image(&self, o: SourceOffsetView) -> SourceOffsetView {
        SourceOffsetView { position: self.position@, updated_at: self.now@, ..o }
    }

    closed spec fn fits(&self, o: SourceOffsetView) -> bool {
        true
    }

    fn apply(&self, row: &mut SourceOffset) -> (hit: bool) {
        if same(row.source_name.as_str(), self.source) {
            row.position = self.position.to_owned();
            row.updated_at = self.now.to_owned();
            true
        } else {
            false
        }
    }
}

/// Commits a source's position.
pub fn upsert_source_offset(offsets: &mut Vec<SourceOffset>, source_name: &str, position: &str, now: &str)
    ensures
        views(final(offsets)@) == offset_upserted(
            views(old(offsets)@),
            source_name@,
            position@,
            now@,
        ),
{
    let ghost was = views(offsets@);
    let rule: MoveOffset = MoveOffset { source: source_name, position, now };
    let hit: bool = update_any(offsets, &rule);
    let ghost moved = views(offsets@);
    assert(moved =~= amended(
        was,
        |o: SourceOffsetView| o.source_name == source_name@,
        |o: SourceOffsetView| SourceOffsetView { position: position@, updated_at: now@, ..o },
    ));
    proof {
        crate::table::lemma_any_same(
            was,
            |o: SourceOffsetView| rule.hits(o),
            |o: SourceOffsetView| o.source_name == source_name@,
        );
    }
    if !hit {
        let row: SourceOffset = SourceOffset {
            source_name: source_name.to_owned(),
            position: position.to_owned(),
            updated_at: now.to_owned(),
        };
        let ghost r = row@;
        offsets.push(row);
        assert(views(offsets@) =~= moved.push(r));
    }
}

// ── Reading positions ────────────────────────────────────────────────────────

struct OffsetOf<'a> {
    source: &'a str,
}

impl<'a> Keep<SourceOffset> for OffsetOf<'a> {
    closed spec fn keeps(&self, o: SourceOffsetView) -> bool {
        o.source_name == self.source@
    }

    fn keep(&self, row: &SourceOffset) -> (r: bool) {
        same(row.source_name.as_str(), self.source)
    }
}

/// The position that a source has committed.
pub open spec fn committed(offsets: Seq<SourceOffsetView>, source: Seq<char>) -> Option<Seq<char>> {
    match first(offsets, |o: SourceOffsetView| o.source_name == source) {
        Some(o) => Some(o.position),
        None => None,
    }
}

/// The committed position of a source, `None` where it never committed one. A
/// source that resumes starts after it.
pub fn source_offset(db: &Store, source_name: &str) -> (r: Option<String>)
    ensures
        opt(r) == committed(db@.offsets, source_name@),
{
    let keep: OffsetOf = OffsetOf { source: source_name };
    let found: Option<usize> = find_row(&db.offsets, &keep);
    assert((|o: SourceOffsetView| o.source_name == source_name@) =~= (|o: SourceOffsetView|
        keep.keeps(o)));
    match found {
        Some(i) => {
            assert(db@.offsets[i as int] == db.offsets@[i as int]@);
            Some(db.offsets[i].position.clone())
        },
        None => None,
    }
}

/// A source reads back the position that it committed last, and no other
/// source's position moves.
pub proof fn law_offset_read_back(
    offsets: Seq<SourceOffsetView>,
    source: Seq<char>,
    position: Seq<char>,
    now: Seq<char>,
    other: Seq<char>,
)
    ensures
        committed(offset_upserted(offsets, source, position, now), source) == Some(position),
        other != source ==> committed(offset_upserted(offsets, source, position, now), other)
            == committed(offsets, other),
{
    let hits = |o: SourceOffsetView| o.source_name == source;
    let image = |o: SourceOffsetView| SourceOffsetView { position, updated_at: now, ..o };
    let after = offset_upserted(offsets, source, position, now);
    let moved = amended(offsets, hits, image);
    lemma_first(after, hits);
    if any(offsets, hits) {
        let i = choose|i: int| 0 <= i < offsets.len() && hits(#[trigger] offsets[i]);
        assert(hits(after[i]));
    } else {
        assert(hits(after[offsets.len() as int]));
    }
    let v = first(after, hits)->0;
    let k = choose|k: int| 0 <= k < after.len() && after[k] == v;
    assert(hits(after[k]));
    if any(offsets, hits) || k < offsets.len() {
        assert(hits(offsets[k]));
        assert(any(offsets, hits));
    }
    if other != source {
        lemma_other_position(offsets, source, position, now, other);
        if !any(offsets, hits) {
            assert(after.drop_last() =~= moved);
        }
    }
}

proof fn lemma_other_position(
    offsets: Seq<SourceOffsetView>,
    source: Seq<char>,
    position: Seq<char>,
    now: Seq<char>,
    other: Seq<char>,
)
    requires
        other != source,
    ensures
        committed(
            amended(
                offsets,
                |o: SourceOffsetView| o.source_name == source,
                |o: SourceOffsetView| SourceOffsetView { position, updated_at: now, ..o },
            ),
            other,
        ) == committed(offsets, other),
    decreases offsets.len(),
{
    let hits = |o: SourceOffsetView| o.source_name == source;
    let image = |o: SourceOffsetView| SourceOffsetView { position, updated_at: now, ..o };
    if offsets.len() > 0 {
        lemma_other_position(offsets.drop_last(), source, position, now, other);
        assert(amended(offsets, hits, image).drop_last() =~= amended(offsets.drop_last(), hits, image));
    }
}

// ── Partitions ───────────────────────────────────────────────────────────────

/// The partition `name` of a source.
pub open spec fn is_partition(p: SourcePartitionView, source: Seq<char>, name: Seq<char>) -> bool {
    p.source_name == source && p.partition == name
}

/// The partitions once the first `n` of `names` are known; those known before stay.
pub open spec fn registered(
    parts: Seq<SourcePartitionView>,
    source: Seq<char>,
    names: Seq<Seq<char>>,
    now: Seq<char>,
    n: int,
) -> Seq<SourcePartitionView>
    decreases n,
{
    if n <= 0 {
        parts
    } else {
        let rest = registered(parts, source, names, now, n - 1);
        if any(rest, |p: SourcePartitionView| is_partition(p, source, names[n - 1])) {
            rest
        } else {
            rest.push(
                SourcePartitionView {
                    source_name: source,
                    partition: names[n - 1],
                    claimed_by: None,
                    lease_expires_at: None,
                    updated_at: now,
                },
            )
        }
    }
}

/// Every name that was registered has a row, and no row is lost.
proof fn lemma_registered_present(
    parts: Seq<SourcePartitionView>,
    source: Seq<char>,
    names: Seq<Seq<char>>,
    now: Seq<char>,
    n: int,
    k: int,
)
    requires
        0 <= k < n <= names.len(),
    ensures
        any(
            registered(parts, source, names, now, n),
            |p: SourcePartitionView| is_partition(p, source, names[k]),
        ),
    decreases n,
{
    let rest = registered(parts, source, names, now, n - 1);
    let all = registered(parts, source, names, now, n);
    if k < n - 1 {
        lemma_registered_present(parts, source, names, now, n - 1, k);
        let i = choose|i: int| 0 <= i < rest.len() && is_partition(#[trigger] rest[i], source, names[k]);
        assert(all[i] == rest[i]);
    } else if !any(rest, |p: SourcePartitionView| is_partition(p, source, names[k])) {
        assert(is_partition(all[rest.len() as int], source, names[k]));
    }
}

/// Where every name has a row, registering the names adds none.
proof fn lemma_nothing_to_register(
    parts: Seq<SourcePartitionView>,
    source: Seq<char>,
    names: Seq<Seq<char>>,
    now: Seq<char>,
    n: int,
)
    requires
        0 <= n <= names.len(),
        forall|k: int|
            0 <= k < n ==> any(
                parts,
                |p: SourcePartitionView| is_partition(p, source, #[trigger] names[k]),
            ),
    ensures
        registered(parts, source, names, now, n) == parts,
    decreases n,
{
    if n > 0 {
        lemma_nothing_to_register(parts, source, names, now, n - 1);
        assert(any(parts, |p: SourcePartitionView| is_partition(p, source, names[n - 1])));
    }
}

/// Registering partitions again changes nothing: neither their rows nor who
/// holds them.
pub proof fn law_registration_is_idempotent(
    parts: Seq<SourcePartitionView>,
    source: Seq<char>,
    names: Seq<Seq<char>>,
    now: Seq<char>,
    later: Seq<char>,
)
    ensures
        ({
            let n = names.len() as int;
            let once = registered(parts, source, names, now, n);
            registered(once, source, names, later, n) == once
        }),
{
    let n = names.len() as int;
    let once = registered(parts, source, names, now, n);
    assert forall|k: int| 0 <= k < n implies any(
        once,
        |p: SourcePartitionView| is_partition(p, source, #[trigger] names[k]),
    ) by {
        lemma_registered_present(parts, source, names, now, n, k);
    }
    lemma_nothing_to_register(once, source, names, later, n);
}

struct PartitionOf<'a> {
    source: &'a str,
    name: &'a str,
}

impl<'a> Keep<SourcePartition> for PartitionOf<'a> {
    closed spec fn keeps(&self, p: SourcePartitionView) -> bool {
        is_partition(p, self.source@, self.name@)
    }

    fn keep(&self, row: &SourcePartition) -> (r: bool) {
        same(row.source_name.as_str(), self.source) && same(row.partition.as_str(), self.name)
    }
}

/// Makes sure that every discovered partition has a row.
pub fn register_source_partitions(
    db: &mut Store,
    source_name: &str,
    partitions: &Vec<String>,
    now: &str,
)
    ensures
        final(db)@ == (StoreView {
            partitions: registered(
                old(db)@.partitions,
                source_name@,
                texts(partitions@),
                now@,
                partitions@.len() as int,
            ),
            ..old(db)@
        }),
{
    let ghost was = db@;
    let mut i: usize = 0;
    while i < partitions.len()
        invariant
            i <= partitions@.len(),
            db@ == (StoreView {
                partitions: registered(
                    was.partitions,
                    source_name@,
                    texts(partitions@),
                    now@,
                    i as int,
                ),
                ..was
            }),
        decreases partitions@.len() - i,
    {
        assert(texts(partitions@)[i as int] == partitions@[i as int]@);
        let keep: PartitionOf = PartitionOf {
            source: source_name,
            name: partitions[i].as_str(),
        };
        let found: Option<usize> = find_row(&db.partitions, &keep);
        let ghost rest = db@.partitions;
        proof {
            let p = |p: SourcePartitionView|
                is_partition(p, source_name@, texts(partitions@)[i as int]);
            assert(p =~= (|p: SourcePartitionView| keep.keeps(p)));
            lemma_first(rest, p);
        }
        if found.is_none() {
            let row: SourcePartition = SourcePartition {
                source_name: source_name.to_owned(),
                partition: partitions[i].clone(),
                claimed_by: None,
                lease_expires_at: None,
                updated_at: now.to_owned(),
            };
            let ghost r = row@;
            db.partitions.push(row);
            assert(db@.partitions =~= rest.push(r));
        }
        i += 1;
    }
}

/// A partition that the worker may take: nobody holds it, or a lease that was
/// not the worker's own has run out.
pub open spec fn partition_free(
    p: SourcePartitionView,
    source: Seq<char>,
    worker: Seq<char>,
    now: Seq<char>,
) -> bool {
    &&& p.source_name == source
    &&& p.claimed_by is None || p.lease_expires_at is None || past(p.lease_expires_at, now)
    &&& p.claimed_by != Some(worker)
}

/// A partition that the worker holds.
pub open spec fn partition_held(p: SourcePartitionView, source: Seq<char>, worker: Seq<char>) -> bool {
    p.source_name == source && p.claimed_by == Some(worker)
}

/// A partition leased to the worker.
pub open spec fn leased(
    p: SourcePartitionView,
    worker: Seq<char>,
    lease: Seq<char>,
    now: Seq<char>,
) -> SourcePartitionView {
    SourcePartitionView {
        claimed_by: Some(worker),
        lease_expires_at: Some(lease),
        updated_at: now,
        ..p
    }
}

/// The names of the partitions that satisfy `p`, in order.
pub open spec fn partition_names(
    parts: Seq<SourcePartitionView>,
    p: spec_fn(SourcePartitionView) -> bool,
) -> Seq<Seq<char>> {
    ordered(
        parts,
        p,
        |a: SourcePartitionView, b: SourcePartitionView| lex_lt(a.partition, b.partition),
        parts.len() as int,
    ).map_values(|i: int| parts[i].partition)
}

struct ByPartition {}

impl Order<SourcePartition> for ByPartition {
    closed spec fn lt(&self, a: SourcePartitionView, b: SourcePartitionView) -> bool {
        lex_lt(a.partition, b.partition)
    }

    fn sorts_before(&self, a: &SourcePartition, b: &SourcePartition) -> (r: bool) {
        before(a.partition.as_str(), b.partition.as_str())
    }
}

struct PartitionName {}

impl Column<SourcePartition> for PartitionName {
    closed spec fn value(&self, p: SourcePartitionView) -> Seq<char> {
        p.partition
    }

    fn read(&self, row: &SourcePartition) -> (s: String) {
        row.partition.clone()
    }
}

fn names_of<K: Keep<SourcePartition>>(parts: &Vec<SourcePartition>, keep: &K) -> (out: Vec<String>)
    ensures
        texts(out@) == partition_names(views(parts@), |p: SourcePartitionView| keep.keeps(p)),
{
    let order: ByPartition = ByPartition {};
    let q: Vec<usize> = select(parts, keep, &order);
    let column: PartitionName = PartitionName {};
    assert((|a: SourcePartitionView, b: SourcePartitionView| lex_lt(a.partition, b.partition)) =~= (
    |a: SourcePartitionView, b: SourcePartitionView| order.lt(a, b)));
    let out: Vec<String> = column_at(parts, &q, q.len(), &column);
    assert(places(q@).take(q@.len() as int) =~= places(q@));
    assert(texts(out@) =~= partition_names(
        views(parts@),
        |p: SourcePartitionView| keep.keeps(p),
    ));
    out
}

struct FreePartition<'a> {
    source: &'a str,
    worker: &'a str,
    now: &'a str,
}

impl<'a> Keep<SourcePartition> for FreePartition<'a> {
    closed spec fn keeps(&self, p: SourcePartitionView) -> bool {
        partition_free(p, self.source@, self.worker@, self.now@)
    }

    fn keep(&self, row: &SourcePartition) -> (r: bool) {
        same(row.source_name.as_str(), self.source) && (row.claimed_by.is_none()
            || row.lease_expires_at.is_none() || is_past(&row.lease_expires_at, self.now))
            && !column_is(&row.claimed_by, self.worker)
    }
}

struct Lease<'a> {
    worker: &'a str,
    until: &'a str,
    now: &'a str,
}

impl<'a> Rule<SourcePartition> for Lease<'a> {
    closed spec fn hits(&self, p: SourcePartitionView) -> bool {
        true
    }

    closed spec fn image(&self, p: SourcePartitionView) -> SourcePartitionView {
        leased(p, self.worker@, self.until@, self.now@)
    }

    closed spec fn fits(&self, p: SourcePartitionView) -> bool {
        true
    }

    fn apply(&self, row: &mut SourcePartition) -> (hit: bool) {
        row.claimed_by = Some(self.worker.to_owned());
        row.lease_expires_at = Some(self.until.to_owned());
        row.updated_at = self.now.to_owned();
        true
    }
}

struct EveryPartition {}

impl Keep<SourcePartition> for EveryPartition {
    closed spec fn keeps(&self, p: SourcePartitionView) -> bool {
        true
    }

    fn keep(&self, row: &SourcePartition) -> (r: bool) {
        true
    }
}

/// The places of the free partitions that a claim of up to `limit` takes.
pub open spec fn partitions_taken(
    parts: Seq<SourcePartitionView>,
    source: Seq<char>,
    worker: Seq<char>,
    limit: int,
    now: Seq<char>,
) -> Seq<int> {
    limited(
        places_where(parts, |p: SourcePartitionView| partition_free(p, source, worker, now)),
        limit,
    )
}

/// The partitions once the worker took up to `limit` free ones.
pub open spec fn partitions_claimed(
    parts: Seq<SourcePartitionView>,
    source: Seq<char>,
    worker: Seq<char>,
    limit: int,
    lease: Seq<char>,
    now: Seq<char>,
) -> Seq<SourcePartitionView> {
    amended_at(
        parts,
        partitions_taken(parts, source, worker, limit, now),
        |p: SourcePartitionView| leased(p, worker, lease, now),
    )
}

/// Leases up to `limit` free partitions to the worker until `lease_until`, and
/// names them in order.
pub fn claim_source_partitions(
    db: &mut Store,
    source_name: &str,
    worker_id: &str,
    limit: i64,
    now: &str,
    lease_until: &str,
) -> (out: Vec<String>)
    ensures
        final(db)@ == (StoreView {
            partitions: partitions_claimed(
                old(db)@.partitions,
                source_name@,
                worker_id@,
                limit as int,
                lease_until@,
                now@,
            ),
            ..old(db)@
        }),
        texts(out@) == partition_names(
            rows_at(
                old(db)@.partitions,
                partitions_taken(
                    old(db)@.partitions,
                    source_name@,
                    worker_id@,
                    limit as int,
                    now@,
                ),
            ),
            |p: SourcePartitionView| true,
        ),
{
    let ghost was = db@;
    let keep: FreePartition = FreePartition { source: source_name, worker: worker_id, now };
    let q: Vec<usize> = select_all(&db.partitions, &keep);
    let len: usize = limit_of(q.len(), limit);
    let ghost p = |p: SourcePartitionView| partition_free(p, source_name@, worker_id@, now@);
    proof {
        assert(p =~= (|p: SourcePartitionView| keep.keeps(p)));
        assert(partitions_taken(
            was.partitions,
            source_name@,
            worker_id@,
            limit as int,
            now@,
        ) =~= places(q@).take(len as int));
    }
    let mine: Vec<SourcePartition> = copy_at(&db.partitions, &q, len);
    let rule: Lease = Lease { worker: worker_id, until: lease_until, now };
    update_at(&mut db.partitions, &q, len, &rule);
    assert(db@.partitions =~= partitions_claimed(
        was.partitions,
        source_name@,
        worker_id@,
        limit as int,
        lease_until@,
        now@,
    ));
    let every: EveryPartition = EveryPartition {};
    let out: Vec<String> = names_of(&mine, &every);
    assert((|p: SourcePartitionView| every.keeps(p)) =~= (|p: SourcePartitionView| true));
    out
}

struct RenewPartition<'a> {
    source_name: &'a str,
    worker_id: &'a str,
    now: &'a str,
    lease_until: &'a str,
}

impl<'a> Rule<SourcePartition> for RenewPartition<'a> {
    closed spec fn hits(&self, p: SourcePartitionView) -> bool {
        partition_held(p, self.source_name@, self.worker_id@)
    }

    closed spec fn image(&self, p: SourcePartitionView) -> SourcePartitionView {
        SourcePartitionView { lease_expires_at: Some(self.lease_until@), updated_at: self.now@, ..p }
    }

    closed spec fn fits(&self, p: SourcePartitionView) -> bool {
        true
    }

    fn apply(&self, row: &mut SourcePartition) -> (hit: bool) {
        if same(row.source_name.as_str(), self.source_name) && column_is(&row.claimed_by, self.worker_id) {
            row.lease_expires_at = Some(self.lease_until.to_owned());
            row.updated_at = self.now.to_owned();
            true
        } else {
            false
        }
    }
}

/// Extends the lease of every partition that the worker holds until
/// `lease_until`, and says how many there are.
pub fn renew_source_partitions(
    db: &mut Store,
    source_name: &str,
    worker_id: &str,
    now: &str,
    lease_until: &str,
) -> (n: u64)
    ensures
        n == count(old(db)@.partitions, |p: SourcePartitionView| partition_held(p, source_name@, worker_id@)),
        final(db)@ == (StoreView {
            partitions: amended(
                old(db)@.partitions,
                |p: SourcePartitionView| partition_held(p, source_name@, worker_id@),
                |p: SourcePartitionView| SourcePartitionView {
                    lease_expires_at: Some(lease_until@),
                    updated_at: now@,
                    ..p
                },
            ),
            ..old(db)@
        }),
{
    let ghost was = db@;
    let rule: RenewPartition = RenewPartition { source_name, worker_id, now, lease_until };
    let n: u64 = update_all(&mut db.partitions, &rule);
    proof {
        lemma_count_same(
            was.partitions,
            |p: SourcePartitionView| rule.hits(p),
            |p: SourcePartitionView| partition_held(p, source_name@, worker_id@),
        );
    }
    assert(db@.partitions =~= amended(
        was.partitions,
        |p: SourcePartitionView| partition_held(p, source_name@, worker_id@),
        |p: SourcePartitionView| SourcePartitionView {
            lease_expires_at: Some(lease_until@),
            updated_at: now@,
            ..p
        },
    ));
    n
}

struct Held<'a> {
    source: &'a str,
    worker: &'a str,
}

impl<'a> Keep<SourcePartition> for Held<'a> {
    closed spec fn keeps(&self, p: SourcePartitionView) -> bool {
        partition_held(p, self.source@, self.worker@)
    }

    fn keep(&self, row: &SourcePartition) -> (r: bool) {
        same(row.source_name.as_str(), self.source) && column_is(&row.claimed_by, self.worker)
    }
}

/// The partitions that the worker holds.
pub fn held_source_partitions(db: &Store, source_name: &str, worker_id: &str) -> (out: Vec<String>)
    ensures
        texts(out@) == partition_names(
            db@.partitions,
            |p: SourcePartitionView| partition_held(p, source_name@, worker_id@),
        ),
{
    let keep: Held = Held { source: source_name, worker: worker_id };
    assert((|p: SourcePartitionView| keep.keeps(p)) =~= (|p: SourcePartitionView|
        partition_held(p, source_name@, worker_id@)));
    names_of(&db.partitions, &keep)
}

struct ReleasePartition<'a> {
    source_name: &'a str,
    worker_id: &'a str,
    now: &'a str,
}

impl<'a> Rule<SourcePartition> for ReleasePartition<'a> {
    closed spec fn hits(&self, p: SourcePartitionView) -> bool {
        partition_held(p, self.source_name@, self.worker_id@)
    }

    closed spec fn image(&self, p: SourcePartitionView) -> SourcePartitionView {
        SourcePartitionView { claimed_by: None, lease_expires_at: None, updated_at: self.now@, ..p }
    }

    closed spec fn fits(&self, p: SourcePartitionView) -> bool {
        true
    }

    fn apply(&self, row: &mut SourcePartition) -> (hit: bool) {
        if same(row.source_name.as_str(), self.source_name) && column_is(&row.claimed_by, self.worker_id) {
            row.claimed_by = None;
            row.lease_expires_at = None;
            row.updated_at = self.now.to_owned();
            true
        } else {
            false
        }
    }
}

/// Gives up every partition that the worker holds, and says how many there were.
pub fn release_source_partitions(db: &mut Store, source_name: &str, worker_id: &str, now: &str) -> (n: u64)
    ensures
        n == count(old(db)@.partitions, |p: SourcePartitionView| partition_held(p, source_name@, worker_id@)),
        final(db)@ == (StoreView {
            partitions: amended(
                old(db)@.partitions,
                |p: SourcePartitionView| partition_held(p, source_name@, worker_id@),
                |p: SourcePartitionView| SourcePartitionView {
                    claimed_by: None,
                    lease_expires_at: None,
                    updated_at: now@,
                    ..p
                },
            ),
            ..old(db)@
        }),
{
    let ghost was = db@;
    let rule: ReleasePartition = ReleasePartition { source_name, worker_id, now };
    let n: u64 = update_all(&mut db.partitions, &rule);
    proof {
        lemma_count_same(
            was.partitions,
            |p: SourcePartitionView| rule.hits(p),
            |p: SourcePartitionView| partition_held(p, source_name@, worker_id@),
        );
    }
    assert(db@.partitions =~= amended(
        was.partitions,
        |p: SourcePartitionView| partition_held(p, source_name@, worker_id@),
        |p: SourcePartitionView| SourcePartitionView {
            claimed_by: None,
            lease_expires_at: None,
            updated_at: now@,
            ..p
        },
    ));
    n
}

/// A claim takes no partition whose lease still runs, and none of another source.
pub proof fn law_live_partition_stays(
    parts: Seq<SourcePartitionView>,
    source: Seq<char>,
    worker: Seq<char>,
    limit: int,
    lease: Seq<char>,
    now: Seq<char>,
    i: int,
)
    requires
        0 <= i < parts.len(),
        parts[i].source_name != source || (parts[i].claimed_by is Some && parts[i].lease_expires_at
            is Some && !past(parts[i].lease_expires_at, now)),
    ensures
        partitions_claimed(parts, source, worker, limit, lease, now)[i] == parts[i],
{
    let p = |p: SourcePartitionView| partition_free(p, source, worker, now);
    lemma_ordered_members(parts, p, |a: SourcePartitionView, b: SourcePartitionView| false, parts.len() as int);
    lemma_limited_members(places_where(parts, p), limit);
}

} // verus!
