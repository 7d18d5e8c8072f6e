//! The transactional outbox: events that leave with the change they report.
use vstd::prelude::*;
use vstd::string::*;
use crate::models::OutboxStatus;
use crate::order::{
    copy_at, lemma_ordered_members, limit_of, limited, ordered, places, rows_at, select, Keep, Order,
};
use crate::rows::{views, OutboxRow, OutboxRowView};
use crate::store::{Store, StoreView};
use crate::table::{amended, amended_at, update_all, update_at, Rule};
use crate::text::{before, lex_lt, same};

verus! {

/// The JSON text that serde_json writes for an object made by inserting two
/// text members in turn.
pub uninterp spec fn payload_text(
    first_key: Seq<char>,
    first: Seq<char>,
    second_key: Seq<char>,
    second: Seq<char>,
) -> Seq<char>;

/// `serde_json::Value::to_string` on an object with two text members inserted
/// in turn: its JSON text.
#[verifier::external_body]
pub(crate) fn event_payload(first_key: &str, first: &str, second_key: &str, second: &str) -> (s: String)
    ensures
        s@ == payload_text(first_key@, first@, second_key@, second@),
{
    let mut members = serde_json::Map::new();
    members.insert(String::from(first_key), serde_json::Value::from(first));
    members.insert(String::from(second_key), serde_json::Value::from(second));
    serde_json::Value::Object(members).to_string()
}

/// A new event, due at once.
pub open spec fn new_event(
    id: Seq<char>,
    run_id: Seq<char>,
    event_type: Seq<char>,
    payload: Seq<char>,
    now: Seq<char>,
) -> OutboxRowView {
    OutboxRowView {
        id,
        run_id,
        event_type,
        payload,
        status: OutboxStatus::Pending,
        attempts: 0,
        next_attempt_at: now,
        created_at: now,
        delivered_at: None,
        last_error: None,
    }
}

/// Appends a pending event to the outbox.
pub fn enqueue_outbox_event(
    db: &mut Store,
    id: &str,
    run_id: &str,
    event_type: &str,
    payload: &str,
    now: &str,
)
    ensures
        final(db)@ == (StoreView {
            outbox: old(db)@.outbox.push(new_event(id@, run_id@, event_type@, payload@, now@)),
            ..old(db)@
        }),
{
    let row: OutboxRow = OutboxRow {
        id: id.to_owned(),
        run_id: run_id.to_owned(),
        event_type: event_type.to_owned(),
        payload: payload.to_owned(),
        status: OutboxStatus::Pending,
        attempts: 0,
        next_attempt_at: now.to_owned(),
        created_at: now.to_owned(),
        delivered_at: None,
        last_error: None,
    };
    let ghost was = db@;
    let ghost r = row@;
    db.outbox.push(row);
    assert(db@.outbox =~= was.outbox.push(r));
}

// ── Delivery ─────────────────────────────────────────────────────────────────

/// An event that waits for delivery and is due.
pub open spec fn deliverable(e: OutboxRowView, now: Seq<char>) -> bool {
    e.status == OutboxStatus::Pending && !lex_lt(now, e.next_attempt_at)
}

/// The events of the next batch: those due, the longest due first.
pub open spec fn batch(outbox: Seq<OutboxRowView>, limit: int, now: Seq<char>) -> Seq<int> {
    limited(
        ordered(
            outbox,
            |e: OutboxRowView| deliverable(e, now),
            |a: OutboxRowView, b: OutboxRowView| lex_lt(a.next_attempt_at, b.next_attempt_at),
            outbox.len() as int,
        ),
        limit,
    )
}

struct Deliverable<'a> {
    now: &'a str,
}

impl<'a> Keep<OutboxRow> for Deliverable<'a> {
    closed spec fn keeps(&self, e: OutboxRowView) -> bool {
        deliverable(e, self.now@)
    }

    fn keep(&self, row: &OutboxRow) -> (r: bool) {
        row.status == OutboxStatus::Pending && !before(self.now, row.next_attempt_at.as_str())
    }
}

struct ByNextAttempt {}

impl Order<OutboxRow> for ByNextAttempt {
    closed spec fn lt(&self, a: OutboxRowView, b: OutboxRowView) -> bool {
        lex_lt(a.next_attempt_at, b.next_attempt_at)
    }

    fn sorts_before(&self, a: &OutboxRow, b: &OutboxRow) -> (r: bool) {
        before(a.next_attempt_at.as_str(), b.next_attempt_at.as_str())
    }
}

struct PutOff<'a> {
    until: &'a str,
}

impl<'a> Rule<OutboxRow> for PutOff<'a> {
    closed spec fn hits(&self, e: OutboxRowView) -> bool {
        true
    }

    closed spec fn image(&self, e: OutboxRowView) -> OutboxRowView {
        OutboxRowView { next_attempt_at: self.until@, ..e }
    }

    closed spec fn fits(&self, e: OutboxRowView) -> bool {
        true
    }

    fn apply(&self, row: &mut OutboxRow) -> (hit: bool) {
        row.next_attempt_at = self.until.to_owned();
        true
    }
}

/// Claims up to `limit` due events for delivery and puts each off until
/// `lease_until`, so that nobody else delivers it meanwhile.
pub fn claim_outbox_batch(db: &mut Store, limit: i64, now: &str, lease_until: &str) -> (out: Vec<OutboxRow>)
    ensures
        ({
            let q = batch(old(db)@.outbox, limit as int, now@);
            &&& views(out@) == rows_at(old(db)@.outbox, q)
            &&& final(db)@ == (StoreView {
                outbox: amended_at(
                    old(db)@.outbox,
                    q,
                    |e: OutboxRowView| OutboxRowView { next_attempt_at: lease_until@, ..e },
                ),
                ..old(db)@
            })
        }),
{
    let ghost was = db@;
    let keep: Deliverable = Deliverable { now };
    let order: ByNextAttempt = ByNextAttempt {};
    let q: Vec<usize> = select(&db.outbox, &keep, &order);
    let len: usize = limit_of(q.len(), limit);
    let ghost p = |e: OutboxRowView| deliverable(e, now@);
    let ghost lt = |a: OutboxRowView, b: OutboxRowView|
        lex_lt(a.next_attempt_at, b.next_attempt_at);
    let ghost line = batch(was.outbox, limit as int, now@);
    proof {
        assert(p =~= (|e: OutboxRowView| keep.keeps(e)));
        assert(lt =~= (|a: OutboxRowView, b: OutboxRowView| order.lt(a, b)));
        lemma_ordered_members(was.outbox, p, lt, was.outbox.len() as int);
        assert(line =~= places(q@).take(len as int));
    }
    let out: Vec<OutboxRow> = copy_at(&db.outbox, &q, len);
    let rule: PutOff = PutOff { until: lease_until };
    update_at(&mut db.outbox, &q, len, &rule);
    assert(db@.outbox =~= amended_at(
        was.outbox,
        line,
        |e: OutboxRowView| OutboxRowView { next_attempt_at: lease_until@, ..e },
    ));
    out
}

/// The pending event with this id.
pub open spec fn pending_event(e: OutboxRowView, id: Seq<char>) -> bool {
    e.id == id && e.status == OutboxStatus::Pending
}

struct Deliver<'a> {
    id: &'a str,
    now: &'a str,
}

impl<'a> Rule<OutboxRow> for Deliver<'a> {
    closed spec fn hits(&self, e: OutboxRowView) -> bool {
        pending_event(e, self.id@)
    }

    closed spec fn image(&self, e: OutboxRowView) -> OutboxRowView {
        OutboxRowView { status: OutboxStatus::Delivered, delivered_at: Some(self.now@), ..e }
    }

    closed spec fn fits(&self, e: OutboxRowView) -> bool {
        true
    }

    fn apply(&self, row: &mut OutboxRow) -> (hit: bool) {
        if row.status == OutboxStatus::Pending && same(row.id.as_str(), self.id) {
            row.status = OutboxStatus::Delivered;
            row.delivered_at = Some(self.now.to_owned());
            true
        } else {
            false
        }
    }
}

/// Marks a pending event delivered.
pub fn mark_outbox_delivered(db: &mut Store, id: &str, now: &str)
    ensures
        final(db)@ == (StoreView {
            outbox: amended(
                old(db)@.outbox,
                |e: OutboxRowView| pending_event(e, id@),
                |e: OutboxRowView|
                    OutboxRowView {
                        status: OutboxStatus::Delivered,
                        delivered_at: Some(now@),
                        ..e
                    },
            ),
            ..old(db)@
        }),
{
    let ghost was = db@;
    let rule: Deliver = Deliver { id, now };
    let _ = update_all(&mut db.outbox, &rule);
    assert(db@.outbox =~= amended(
        was.outbox,
        |e: OutboxRowView| pending_event(e, id@),
        |e: OutboxRowView|
            OutboxRowView { status: OutboxStatus::Delivered, delivered_at: Some(now@), ..e },
    ));
}

/// Every event's attempts can still be counted.
pub open spec fn attempts_fit(outbox: Seq<OutboxRowView>) -> bool {
    forall|i: int| 0 <= i < outbox.len() ==> (#[trigger] outbox[i]).attempts < i64::MAX
}

struct FailDelivery<'a> {
    id: &'a str,
    error: &'a str,
    retry_at: &'a str,
}

impl<'a> Rule<OutboxRow> for FailDelivery<'a> {
    closed spec fn hits(&self, e: OutboxRowView) -> bool {
        pending_event(e, self.id@)
    }

    closed spec fn image(&self, e: OutboxRowView) -> OutboxRowView {
        OutboxRowView {
            attempts: e.attempts + 1,
            last_error: Some(self.error@),
            next_attempt_at: self.retry_at@,
            ..e
        }
    }

    closed spec fn fits(&self, e: OutboxRowView) -> bool {
        e.attempts < i64::MAX
    }

    fn apply(&self, row: &mut OutboxRow) -> (hit: bool) {
        if row.status == OutboxStatus::Pending && same(row.id.as_str(), self.id) {
            row.attempts = row.attempts + 1;
            row.last_error = Some(self.error.to_owned());
            row.next_attempt_at = self.retry_at.to_owned();
            true
        } else {
            false
        }
    }
}

/// Records a failed delivery that is to be tried again at `retry_at`.
pub fn mark_outbox_failed(db: &mut Store, id: &str, error: &str, retry_at: &str)
    requires
        attempts_fit(old(db)@.outbox),
    ensures
        final(db)@ == (StoreView {
            outbox: amended(
                old(db)@.outbox,
                |e: OutboxRowView| pending_event(e, id@),
                |e: OutboxRowView|
                    OutboxRowView {
                        attempts: e.attempts + 1,
                        last_error: Some(error@),
                        next_attempt_at: retry_at@,
                        ..e
                    },
            ),
            ..old(db)@
        }),
{
    let ghost was = db@;
    let rule: FailDelivery = FailDelivery { id, error, retry_at };
    proof {
        assert forall|k: int|
            0 <= k < db.outbox@.len() && rule.hits((#[trigger] db.outbox@[k])@) implies rule.fits(
                db.outbox@[k]@
            ) by {
            assert(was.outbox[k] == db.outbox@[k]@);
        }
    }
    let _ = update_all(&mut db.outbox, &rule);
    assert(db@.outbox =~= amended(
        was.outbox,
        |e: OutboxRowView| pending_event(e, id@),
        |e: OutboxRowView|
            OutboxRowView {
                attempts: e.attempts + 1,
                last_error: Some(error@),
                next_attempt_at: retry_at@,
                ..e
            },
    ));
}

struct Bury<'a> {
    id: &'a str,
    error: &'a str,
}

impl<'a> Rule<OutboxRow> for Bury<'a> {
    closed spec fn hits(&self, e: OutboxRowView) -> bool {
        pending_event(e, self.id@)
    }

    closed spec fn image(&self, e: OutboxRowView) -> OutboxRowView {
        OutboxRowView {
            status: OutboxStatus::Dead,
            attempts: e.attempts + 1,
            last_error: Some(self.error@),
            ..e
        }
    }

    closed spec fn fits(&self, e: OutboxRowView) -> bool {
        e.attempts < i64::MAX
    }

    fn apply(&self, row: &mut OutboxRow) -> (hit: bool) {
        if row.status == OutboxStatus::Pending && same(row.id.as_str(), self.id) {
            row.status = OutboxStatus::Dead;
            row.attempts = row.attempts + 1;
            row.last_error = Some(self.error.to_owned());
            true
        } else {
            false
        }
    }
}

/// Gives up on a pending event.
pub fn mark_outbox_dead(db: &mut Store, id: &str, error: &str)
    requires
        attempts_fit(old(db)@.outbox),
    ensures
        final(db)@ == (StoreView {
            outbox: amended(
                old(db)@.outbox,
                |e: OutboxRowView| pending_event(e, id@),
                |e: OutboxRowView|
                    OutboxRowView {
                        status: OutboxStatus::Dead,
                        attempts: e.attempts + 1,
                        last_error: Some(error@),
                        ..e
                    },
            ),
            ..old(db)@
        }),
{
    let ghost was = db@;
    let rule: Bury = Bury { id, error };
    proof {
        assert forall|k: int|
            0 <= k < db.outbox@.len() && rule.hits((#[trigger] db.outbox@[k])@) implies rule.fits(
                db.outbox@[k]@
            ) by {
            assert(was.outbox[k] == db.outbox@[k]@);
        }
    }
    let _ = update_all(&mut db.outbox, &rule);
    assert(db@.outbox =~= amended(
        was.outbox,
        |e: OutboxRowView| pending_event(e, id@),
        |e: OutboxRowView|
            OutboxRowView {
                status: OutboxStatus::Dead,
                attempts: e.attempts + 1,
                last_error: Some(error@),
                ..e
            },
    ));
}

} // verus!
