//! Sweeps: one step per item of a snapshot, each on the store as the steps
//! before left it.
use vstd::prelude::*;
use crate::rows::TaskRunView;
use crate::store::StoreView;
use crate::table::{amended, any};
use crate::tasks::{deps_fit, settled};

verus! {

/// The store after a step for each item in turn.
pub open spec fn folded<A>(db: StoreView, items: Seq<A>, step: spec_fn(StoreView, A) -> StoreView) -> StoreView
    decreases items.len(),
{
    if items.len() == 0 {
        db
    } else {
        step(folded(db, items.drop_last(), step), items.last())
    }
}

/// The items whose turn finds something to do.
pub open spec fn taken<A>(
    db: StoreView,
    items: Seq<A>,
    step: spec_fn(StoreView, A) -> StoreView,
    takes: spec_fn(StoreView, A) -> bool,
) -> Seq<A>
    decreases items.len(),
{
    if items.len() == 0 {
        Seq::empty()
    } else {
        let rest = taken(db, items.drop_last(), step, takes);
        if takes(folded(db, items.drop_last(), step), items.last()) {
            rest.push(items.last())
        } else {
            rest
        }
    }
}

/// One more item.
pub proof fn lemma_turn<A>(
    db: StoreView,
    items: Seq<A>,
    step: spec_fn(StoreView, A) -> StoreView,
    takes: spec_fn(StoreView, A) -> bool,
    k: int,
)
    requires
        0 <= k < items.len(),
    ensures
        folded(db, items.take(k + 1), step) == step(folded(db, items.take(k), step), items[k]),
        taken(db, items.take(k + 1), step, takes) == (if takes(
            folded(db, items.take(k), step),
            items[k],
        ) {
            taken(db, items.take(k), step, takes).push(items[k])
        } else {
            taken(db, items.take(k), step, takes)
        }),
{
    assert(items.take(k + 1).drop_last() =~= items.take(k));
}

/// Ending one row costs every dependency counter at most one.
pub proof fn lemma_settled_room(
    db: StoreView,
    id: Seq<char>,
    hits: spec_fn(TaskRunView) -> bool,
    image: spec_fn(TaskRunView) -> TaskRunView,
    n: int,
)
    requires
        deps_fit(db.tasks, n),
        n >= 1,
        forall|t: TaskRunView| (#[trigger] image(t)).remaining_deps == t.remaining_deps,
    ensures
        deps_fit(settled(db, id, hits, image).tasks, n - 1),
        settled(db, id, hits, image).tasks.len() == db.tasks.len(),
{
    let after = settled(db, id, hits, image);
    let mid = amended(db.tasks, hits, image);
    assert forall|i: int| 0 <= i < after.tasks.len() implies i64::MIN + n - 1 <= (
    #[trigger] after.tasks[i]).remaining_deps by {
        assert(i64::MIN + n <= db.tasks[i].remaining_deps);
        if any(db.tasks, hits) {
            assert(mid[i].remaining_deps == db.tasks[i].remaining_deps);
        }
    }
}

} // verus!
