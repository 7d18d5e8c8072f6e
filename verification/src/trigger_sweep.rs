//! What a whole sweep over the dataset triggers does: each workflow that is due
//! fires once, and the next sweep finds nothing.
use vstd::prelude::*;
use crate::datasets::high_water;
use crate::order::{lemma_ordered_members, lemma_ordered_same, lemma_ordered_sorted, weak_order};
use crate::rows::{DatasetEventView, DatasetTriggerView};
use crate::store::StoreView;
use crate::sweeps::{folded, lemma_turn, taken};
use crate::text::{lemma_lex_irreflexive, lemma_lex_total, lemma_lex_transitive, lex_lt};
use crate::triggers::{
    by_workflow, caught_up, claim_fire, distinct_moves, distinct_subscriptions, due_fires, fire_due,
    fire_moves, fire_of, fires_in, fresh_for, fresh_places, lemma_fire_moves, lemma_fire_rows,
    stale_for, subscription, wins_fire, workflows_in, DatasetFireView,
};

verus! {

/// What a fire notes of a fresh subscription: its dataset, its cursor, and the
/// dataset's newest event.
pub open spec fn move_of(events: Seq<DatasetEventView>, t: DatasetTriggerView) -> (Seq<char>, int, int) {
    (t.uri, t.cursor, high_water(events, t.uri))
}

proof fn lemma_by_workflow(triggers: Seq<DatasetTriggerView>)
    ensures
        ({
            let q = by_workflow(triggers);
            &&& forall|k: int| 0 <= k < q.len() ==> 0 <= #[trigger] q[k] < triggers.len()
            &&& forall|i: int| 0 <= i < triggers.len() ==> #[trigger] q.contains(i)
            &&& forall|a: int, b: int|
                0 <= a < b < q.len() ==> !lex_lt(
                    triggers[#[trigger] q[b]].workflow_name,
                    triggers[#[trigger] q[a]].workflow_name,
                )
        }),
{
    let q = by_workflow(triggers);
    let p = |t: DatasetTriggerView| true;
    let lt = |a: DatasetTriggerView, b: DatasetTriggerView| lex_lt(a.workflow_name, b.workflow_name);
    let n = triggers.len() as int;
    assert(weak_order(lt)) by {
        assert forall|a: DatasetTriggerView, b: DatasetTriggerView| #[trigger] lt(a, b) implies !lt(b, a) by {
            if lt(b, a) {
                lemma_lex_transitive(a.workflow_name, b.workflow_name, a.workflow_name);
                lemma_lex_irreflexive(a.workflow_name);
            }
        }
        assert forall|a: DatasetTriggerView, b: DatasetTriggerView, c: DatasetTriggerView| #[trigger]
            lt(a, c) implies #[trigger] lt(a, b) || lt(b, c) by {
            lemma_lex_total(a.workflow_name, b.workflow_name);
            if lt(b, a) {
                lemma_lex_transitive(b.workflow_name, a.workflow_name, c.workflow_name);
            }
        }
    }
    lemma_ordered_members(triggers, p, lt, n);
    lemma_ordered_sorted(triggers, p, lt, n);
    assert forall|k: int| 0 <= k < q.len() implies 0 <= #[trigger] q[k] < triggers.len() by {
        assert(q.contains(q[k]));
    }
    assert forall|i: int| 0 <= i < triggers.len() implies #[trigger] q.contains(i) by {
        assert(p(triggers[i]));
    }
    assert forall|a: int, b: int| 0 <= a < b < q.len() implies !lex_lt(
        triggers[#[trigger] q[b]].workflow_name,
        triggers[#[trigger] q[a]].workflow_name,
    ) by {
        assert(!lt(triggers[q[b]], triggers[q[a]]));
    }
}

/// The names stand in order, so none occurs twice.
spec fn rising(names: Seq<Seq<char>>) -> bool {
    forall|a: int, b: int| 0 <= a < b < names.len() ==> lex_lt(#[trigger] names[a], #[trigger] names[b])
}

proof fn lemma_rising_push(names: Seq<Seq<char>>, name: Seq<char>)
    requires
        rising(names),
        names.len() > 0 ==> lex_lt(names.last(), name),
    ensures
        rising(names.push(name)),
{
    let out = names.push(name);
    assert forall|a: int, b: int| 0 <= a < b < out.len() implies lex_lt(
        #[trigger] out[a],
        #[trigger] out[b],
    ) by {
        if b == names.len() {
            if a < names.len() - 1 {
                assert(lex_lt(names[a], names[names.len() - 1]));
                lemma_lex_transitive(names[a], names.last(), name);
            }
        } else {
            assert(out[a] == names[a] && out[b] == names[b]);
        }
    }
}

proof fn lemma_workflows_in(triggers: Seq<DatasetTriggerView>, q: Seq<int>, n: int)
    requires
        0 <= n <= q.len(),
        forall|a: int, b: int|
            0 <= a < b < q.len() ==> !lex_lt(
                triggers[#[trigger] q[b]].workflow_name,
                triggers[#[trigger] q[a]].workflow_name,
            ),
    ensures
        ({
            let names = workflows_in(triggers, q, n);
            &&& rising(names)
            &&& n > 0 ==> names.len() > 0 && names.last() == triggers[q[n - 1]].workflow_name
            &&& forall|k: int| 0 <= k < n ==> names.contains(triggers[#[trigger] q[k]].workflow_name)
        }),
    decreases n,
{
    if n > 0 {
        lemma_workflows_in(triggers, q, n - 1);
        let rest = workflows_in(triggers, q, n - 1);
        let names = workflows_in(triggers, q, n);
        let name = triggers[q[n - 1]].workflow_name;
        if n >= 2 && triggers[q[n - 2]].workflow_name == name {
            assert(names == rest);
        } else {
            if n >= 2 {
                assert(!lex_lt(triggers[q[n - 1]].workflow_name, triggers[q[n - 2]].workflow_name));
                lemma_lex_total(rest.last(), name);
            }
            lemma_rising_push(rest, name);
        }
        assert forall|k: int| 0 <= k < n implies names.contains(triggers[#[trigger] q[k]].workflow_name) by {
            if k < n - 1 {
                let x = choose|x: int| 0 <= x < rest.len() && rest[x] == triggers[q[k]].workflow_name;
                assert(names[x] == rest[x]);
            } else {
                assert(names[names.len() - 1] == name);
            }
        }
    }
}

/// The workflows that some fires are of.
spec fn fired(fires: Seq<DatasetFireView>) -> Seq<Seq<char>> {
    fires.map_values(|f: DatasetFireView| f.workflow_name)
}

proof fn lemma_fires_in(db: StoreView, names: Seq<Seq<char>>, n: int)
    requires
        0 <= n <= names.len(),
        rising(names),
    ensures
        ({
            let fires = fires_in(db, names, n);
            &&& rising(fired(fires))
            &&& forall|k: int|
                0 <= k < fires.len() ==> #[trigger] fires[k] == fire_of(db, fires[k].workflow_name)
                    && fire_due(db, fires[k].workflow_name)
            &&& forall|w: Seq<char>| #[trigger]
                fired(fires).contains(w) ==> exists|j: int| 0 <= j < n && names[j] == w
            &&& forall|j: int|
                0 <= j < n && fire_due(db, #[trigger] names[j]) ==> fired(fires).contains(names[j])
        }),
    decreases n,
{
    let fires = fires_in(db, names, n);
    if n > 0 {
        lemma_fires_in(db, names, n - 1);
        let rest = fires_in(db, names, n - 1);
        let name = names[n - 1];
        if fire_due(db, name) {
            assert(fired(fires) =~= fired(rest).push(name));
            if rest.len() > 0 {
                let last = fired(rest).last();
                assert(fired(rest).contains(last));
                let j = choose|j: int| 0 <= j < n - 1 && names[j] == last;
                assert(lex_lt(names[j], names[n - 1]));
            }
            lemma_rising_push(fired(rest), name);
        }
        assert forall|k: int| 0 <= k < fires.len() implies #[trigger] fires[k] == fire_of(
            db,
            fires[k].workflow_name,
        ) && fire_due(db, fires[k].workflow_name) by {
            if k < rest.len() {
                assert(fires[k] == rest[k]);
            }
        }
        assert forall|w: Seq<char>| #[trigger] fired(fires).contains(w) implies exists|j: int|
            0 <= j < n && names[j] == w by {
            let k = choose|k: int| 0 <= k < fired(fires).len() && fired(fires)[k] == w;
            if k < rest.len() {
                assert(fired(rest)[k] == w);
                assert(fired(rest).contains(w));
                let j = choose|j: int| 0 <= j < n - 1 && names[j] == w;
                assert(0 <= j < n && names[j] == w);
            } else {
                assert(names[n - 1] == w);
            }
        }
        assert forall|j: int| 0 <= j < n && fire_due(db, #[trigger] names[j]) implies fired(fires).contains(
            names[j],
        ) by {
            if j < n - 1 {
                assert(fired(rest).contains(names[j]));
                let k = choose|k: int| 0 <= k < fired(rest).len() && fired(rest)[k] == names[j];
                assert(fired(fires)[k] == names[j]);
            } else {
                assert(fired(fires)[fires.len() - 1] == names[j]);
            }
        }
    }
}

/// The due fires are one of each workflow that is due, as the store has it.
proof fn lemma_due_fires(db: StoreView)
    ensures
        ({
            let fires = due_fires(db);
            &&& rising(fired(fires))
            &&& forall|k: int|
                0 <= k < fires.len() ==> #[trigger] fires[k] == fire_of(db, fires[k].workflow_name)
                    && fire_due(db, fires[k].workflow_name)
            &&& forall|w: Seq<char>| #[trigger] fire_due(db, w) <==> fired(fires).contains(w)
        }),
{
    let q = by_workflow(db.triggers);
    let n = q.len() as int;
    let names = workflows_in(db.triggers, q, n);
    let fires = due_fires(db);
    lemma_by_workflow(db.triggers);
    lemma_workflows_in(db.triggers, q, n);
    lemma_fires_in(db, names, names.len() as int);
    assert forall|w: Seq<char>| #[trigger] fire_due(db, w) <==> fired(fires).contains(w) by {
        if fire_due(db, w) {
            let p = |t: DatasetTriggerView| fresh_for(db.dataset_events, t, w);
            let i = choose|i: int| 0 <= i < db.triggers.len() && p(#[trigger] db.triggers[i]);
            assert(q.contains(i));
            let k = choose|k: int| 0 <= k < q.len() && q[k] == i;
            assert(names.contains(db.triggers[q[k]].workflow_name));
            let j = choose|j: int| 0 <= j < names.len() && names[j] == w;
            assert(fire_due(db, names[j]));
        }
        if fired(fires).contains(w) {
            let k = choose|k: int| 0 <= k < fired(fires).len() && fired(fires)[k] == w;
            assert(fires[k].workflow_name == w);
        }
    }
}

/// A workflow fires alike in two stores whose subscriptions differ only in
/// other workflows' cursors.
proof fn lemma_same_fire(a: StoreView, b: StoreView, workflow: Seq<char>)
    requires
        a.dataset_events == b.dataset_events,
        a.triggers.len() == b.triggers.len(),
        forall|i: int|
            0 <= i < a.triggers.len() ==> (#[trigger] a.triggers[i]).workflow_name
                == b.triggers[i].workflow_name && a.triggers[i].uri == b.triggers[i].uri && (
            a.triggers[i].workflow_name == workflow ==> a.triggers[i] == b.triggers[i]),
        fire_due(a, workflow),
    ensures
        fire_of(a, workflow) == fire_of(b, workflow),
{
    let p = |t: DatasetTriggerView| fresh_for(a.dataset_events, t, workflow);
    let lt = |x: DatasetTriggerView, y: DatasetTriggerView| lex_lt(x.uri, y.uri);
    let n = a.triggers.len() as int;
    lemma_ordered_same(a.triggers, b.triggers, p, lt, n);
    lemma_ordered_members(a.triggers, p, lt, n);
    let q = fresh_places(a, workflow);
    assert(q == fresh_places(b, workflow));
    assert forall|k: int| 0 <= k < q.len() implies 0 <= #[trigger] q[k] < n && a.triggers[q[k]]
        == b.triggers[q[k]] by {
        assert(q.contains(q[k]));
        assert(p(a.triggers[q[k]]));
    }
    assert(fire_moves(a, workflow) =~= fire_moves(b, workflow));
    let i = choose|i: int| 0 <= i < n && p(#[trigger] a.triggers[i]);
    assert(q.contains(i));
    assert(a.triggers[q[0]] == b.triggers[q[0]]);
}

/// After the first `k` fires their workflows are caught up, and each was won.
proof fn lemma_first_fires(db: StoreView, k: int)
    requires
        distinct_subscriptions(db.triggers),
        0 <= k <= due_fires(db).len(),
    ensures
        ({
            let done = due_fires(db).take(k);
            &&& folded(db, done, claim_fire()) == (StoreView {
                triggers: caught_up(
                    db.dataset_events,
                    db.triggers,
                    |w: Seq<char>| fired(done).contains(w),
                ),
                ..db
            })
            &&& taken(db, done, claim_fire(), wins_fire()) == done
        }),
    decreases k,
{
    let fires = due_fires(db);
    let done = fires.take(k);
    let events = db.dataset_events;
    if k == 0 {
        assert(done =~= Seq::<DatasetFireView>::empty());
        assert(caught_up(events, db.triggers, |w: Seq<char>| fired(done).contains(w)) =~= db.triggers);
    } else {
        lemma_first_fires(db, k - 1);
        lemma_due_fires(db);
        lemma_turn(db, fires, claim_fire(), wins_fire(), k - 1);
        let before = fires.take(k - 1);
        let at = folded(db, before, claim_fire());
        let f = fires[k - 1];
        let w = f.workflow_name;
        assert(!fired(before).contains(w)) by {
            if fired(before).contains(w) {
                let j = choose|j: int| 0 <= j < fired(before).len() && fired(before)[j] == w;
                assert(fired(fires)[j] == w);
                assert(fired(fires)[k - 1] == w);
                lemma_lex_irreflexive(w);
            }
        }
        assert forall|i: int| 0 <= i < db.triggers.len() implies (#[trigger] db.triggers[i]).workflow_name
            == at.triggers[i].workflow_name && db.triggers[i].uri == at.triggers[i].uri && (
        db.triggers[i].workflow_name == w ==> db.triggers[i] == at.triggers[i]) by {}
        lemma_same_fire(db, at, w);
        assert(distinct_subscriptions(at.triggers)) by {
            assert forall|a: int, b: int| 0 <= a < b < at.triggers.len() implies !subscription(
                #[trigger] at.triggers[a],
                (#[trigger] at.triggers[b]).workflow_name,
                at.triggers[b].uri,
            ) by {
                assert(!subscription(
                    db.triggers[a],
                    db.triggers[b].workflow_name,
                    db.triggers[b].uri,
                ));
            }
        }
        lemma_fire_rows(at, w);
        assert(fired(done) =~= fired(before).push(w));
        assert forall|x: Seq<char>| #[trigger] fired(done).contains(x) <==> fired(before).contains(x) || x
            == w by {
            if fired(before).contains(x) {
                let j = choose|j: int| 0 <= j < fired(before).len() && fired(before)[j] == x;
                assert(fired(done)[j] == x);
            }
            if fired(done).contains(x) {
                let j = choose|j: int| 0 <= j < fired(done).len() && fired(done)[j] == x;
                if j < k - 1 {
                    assert(fired(before)[j] == x);
                }
            }
            assert(fired(done)[k - 1] == w);
        }
        assert(caught_up(events, at.triggers, |x: Seq<char>| x == w) =~= caught_up(
            events,
            db.triggers,
            |x: Seq<char>| fired(done).contains(x),
        ));
        assert(done =~= before.push(f));
    }
}

/// Once every workflow that is due has caught up, none is due.
proof fn lemma_none_due(db: StoreView, after: StoreView, w: Seq<char>)
    requires
        after == (StoreView {
            triggers: caught_up(db.dataset_events, db.triggers, |w: Seq<char>| fire_due(db, w)),
            ..db
        }),
    ensures
        !fire_due(after, w),
{
    let events = db.dataset_events;
    if fire_due(after, w) {
        let p = |t: DatasetTriggerView| fresh_for(events, t, w);
        let s = |t: DatasetTriggerView| stale_for(events, t, w);
        let m = |t: DatasetTriggerView| t.workflow_name == w && t.mode == "all"@;
        let i = choose|i: int| 0 <= i < after.triggers.len() && p(#[trigger] after.triggers[i]);
        assert(after.triggers[i] == db.triggers[i]);
        assert(p(db.triggers[i]));
        assert(!fire_due(db, w));
        let x = choose|x: int| 0 <= x < db.triggers.len() && m(#[trigger] db.triggers[x]);
        assert(m(after.triggers[x]));
        let y = choose|y: int| 0 <= y < db.triggers.len() && s(#[trigger] db.triggers[y]);
        assert(s(after.triggers[y]));
    }
}

/// A sweep, where no workflow subscribes to a dataset twice: every workflow that
/// is due fires, exactly once, and no other does. A fire moves the cursors of
/// its workflow's fresh subscriptions to their datasets' newest events, and
/// notes each of these moves once; all other cursors stay. A second sweep finds
/// nothing to do.
pub proof fn law_sweep_fires_each_due_workflow_once(db: StoreView)
    requires
        distinct_subscriptions(db.triggers),
    ensures
        ({
            let fires = taken(db, due_fires(db), claim_fire(), wins_fire());
            let after = folded(db, due_fires(db), claim_fire());
            &&& fires == due_fires(db)
            &&& forall|w: Seq<char>| #[trigger]
                fire_due(db, w) <==> exists|k: int|
                    0 <= k < fires.len() && (#[trigger] fires[k]).workflow_name == w
            &&& forall|a: int, b: int|
                0 <= a < b < fires.len() ==> (#[trigger] fires[a]).workflow_name != (
                #[trigger] fires[b]).workflow_name
            &&& forall|k: int, m: (Seq<char>, int, int)|
                0 <= k < fires.len() ==> (#[trigger] fires[k].advanced.contains(m) <==> exists|i: int|
                    0 <= i < db.triggers.len() && fresh_for(
                        db.dataset_events,
                        #[trigger] db.triggers[i],
                        fires[k].workflow_name,
                    ) && m == move_of(db.dataset_events, db.triggers[i]))
            &&& forall|k: int|
                0 <= k < fires.len() ==> distinct_moves((#[trigger] fires[k]).advanced)
                    && fires[k].advanced.len() > 0 && fires[k].trigger_uri == fires[k].advanced[0].0
            &&& after == (StoreView {
                triggers: caught_up(db.dataset_events, db.triggers, |w: Seq<char>| fire_due(db, w)),
                ..db
            })
            &&& taken(after, due_fires(after), claim_fire(), wins_fire()) == Seq::<
                DatasetFireView,
            >::empty()
            &&& folded(after, due_fires(after), claim_fire()) == after
        }),
{
    let events = db.dataset_events;
    let fires = due_fires(db);
    let n = fires.len() as int;
    let after = folded(db, fires, claim_fire());
    lemma_due_fires(db);
    lemma_first_fires(db, n);
    assert(fires.take(n) =~= fires);
    assert forall|w: Seq<char>| #[trigger] fire_due(db, w) <==> exists|k: int|
        0 <= k < fires.len() && (#[trigger] fires[k]).workflow_name == w by {
        if fire_due(db, w) {
            let k = choose|k: int| 0 <= k < fired(fires).len() && fired(fires)[k] == w;
            assert(fires[k].workflow_name == w);
        }
    }
    assert forall|a: int, b: int| 0 <= a < b < fires.len() implies (#[trigger] fires[a]).workflow_name
        != (#[trigger] fires[b]).workflow_name by {
        assert(lex_lt(fired(fires)[a], fired(fires)[b]));
        lemma_lex_irreflexive(fires[a].workflow_name);
    }
    assert forall|k: int, m: (Seq<char>, int, int)| 0 <= k < fires.len() implies (
    #[trigger] fires[k].advanced.contains(m) <==> exists|i: int|
        0 <= i < db.triggers.len() && fresh_for(
            events,
            #[trigger] db.triggers[i],
            fires[k].workflow_name,
        ) && m == move_of(events, db.triggers[i])) by {
        lemma_moves_of(db, fires[k].workflow_name, m);
    }
    assert forall|k: int| 0 <= k < fires.len() implies distinct_moves((#[trigger] fires[k]).advanced)
        && fires[k].advanced.len() > 0 && fires[k].trigger_uri == fires[k].advanced[0].0 by {
        let w = fires[k].workflow_name;
        lemma_fire_moves(db, w);
        let p = |t: DatasetTriggerView| fresh_for(events, t, w);
        let i = choose|i: int| 0 <= i < db.triggers.len() && p(#[trigger] db.triggers[i]);
        lemma_moves_of(db, w, move_of(events, db.triggers[i]));
    }
    assert(after.triggers =~= caught_up(events, db.triggers, |w: Seq<char>| fire_due(db, w)));
    lemma_due_fires(after);
    assert(due_fires(after).len() == 0) by {
        if due_fires(after).len() > 0 {
            lemma_none_due(db, after, due_fires(after)[0].workflow_name);
        }
    }
}

proof fn lemma_moves_of(db: StoreView, workflow: Seq<char>, m: (Seq<char>, int, int))
    ensures
        fire_moves(db, workflow).contains(m) <==> exists|i: int|
            0 <= i < db.triggers.len() && fresh_for(
                db.dataset_events,
                #[trigger] db.triggers[i],
                workflow,
            ) && m == move_of(db.dataset_events, db.triggers[i]),
{
    let p = |t: DatasetTriggerView| fresh_for(db.dataset_events, t, workflow);
    let lt = |a: DatasetTriggerView, b: DatasetTriggerView| lex_lt(a.uri, b.uri);
    lemma_ordered_members(db.triggers, p, lt, db.triggers.len() as int);
    let q = fresh_places(db, workflow);
    let moves = fire_moves(db, workflow);
    if moves.contains(m) {
        let k = choose|k: int| 0 <= k < moves.len() && moves[k] == m;
        assert(q.contains(q[k]));
        assert(p(db.triggers[q[k]]));
        assert(m == move_of(db.dataset_events, db.triggers[q[k]]));
    }
    if exists|i: int|
        0 <= i < db.triggers.len() && fresh_for(
            db.dataset_events,
            #[trigger] db.triggers[i],
            workflow,
        ) && m == move_of(db.dataset_events, db.triggers[i]) {
        let i = choose|i: int|
            0 <= i < db.triggers.len() && fresh_for(
                db.dataset_events,
                #[trigger] db.triggers[i],
                workflow,
            ) && m == move_of(db.dataset_events, db.triggers[i]);
        assert(p(db.triggers[i]));
        assert(q.contains(i));
        let k = choose|k: int| 0 <= k < q.len() && q[k] == i;
        assert(moves[k] == m);
    }
}

} // verus!
