//! Guarded updates over a table of rows: the shape of every state transition.
use vstd::prelude::*;
use crate::order::{places, Keep};
use crate::rows::views;

verus! {

/// How many elements satisfy `p`.
pub open spec fn count<V>(s: Seq<V>, p: spec_fn(V) -> bool) -> nat
    decreases s.len(),
{
    if s.len() == 0 {
        0
    } else {
        count(s.drop_last(), p) + if p(s.last()) { 1nat } else { 0nat }
    }
}

pub proof fn lemma_count_bounded<V>(s: Seq<V>, p: spec_fn(V) -> bool)
    ensures
        count(s, p) <= s.len(),
    decreases s.len(),
{
    if s.len() > 0 {
        lemma_count_bounded(s.drop_last(), p);
    }
}

pub proof fn lemma_count_take<V>(s: Seq<V>, p: spec_fn(V) -> bool, i: int)
    requires
        0 <= i < s.len(),
    ensures
        count(s.take(i + 1), p) == count(s.take(i), p) + if p(s[i]) { 1nat } else { 0nat },
{
    assert(s.take(i + 1).drop_last() =~= s.take(i));
}

/// A count is the length of what a filter keeps.
pub proof fn lemma_count_filter<V>(s: Seq<V>, p: spec_fn(V) -> bool)
    ensures
        count(s, p) == s.filter(p).len(),
    decreases s.len(),
{
    reveal(Seq::filter);
    if s.len() > 0 {
        lemma_count_filter(s.drop_last(), p);
    }
}

/// Some element satisfies `p` exactly where the count is positive.
pub proof fn lemma_count_positive<V>(s: Seq<V>, p: spec_fn(V) -> bool)
    ensures
        count(s, p) > 0 <==> exists|i: int| 0 <= i < s.len() && p(#[trigger] s[i]),
    decreases s.len(),
{
    if s.len() > 0 {
        lemma_count_positive(s.drop_last(), p);
        if count(s, p) > 0 {
            if p(s.last()) {
                assert(p(s[s.len() - 1]));
            } else {
                let i = choose|i: int| 0 <= i < s.drop_last().len() && p(#[trigger] s.drop_last()[i]);
                assert(p(s[i]));
            }
        }
        if exists|i: int| 0 <= i < s.len() && p(#[trigger] s[i]) {
            let i = choose|i: int| 0 <= i < s.len() && p(#[trigger] s[i]);
            if i < s.len() - 1 {
                assert(p(s.drop_last()[i]));
            }
        }
    }
}

/// Predicates that agree on a sequence count alike.
pub proof fn lemma_count_same<V>(s: Seq<V>, p: spec_fn(V) -> bool, q: spec_fn(V) -> bool)
    requires
        forall|i: int| 0 <= i < s.len() ==> p(#[trigger] s[i]) == q(s[i]),
    ensures
        count(s, p) == count(s, q),
    decreases s.len(),
{
    if s.len() > 0 {
        assert forall|i: int| 0 <= i < s.drop_last().len() implies p(#[trigger] s.drop_last()[i]) == q(
            s.drop_last()[i],
        ) by {
            assert(p(s[i]) == q(s[i]));
        }
        lemma_count_same(s.drop_last(), p, q);
        assert(p(s[s.len() - 1]) == q(s[s.len() - 1]));
    }
}

/// A guarded update of one row: which rows it touches and what becomes of them.
pub trait Rule<R: View> {
    /// The rows it touches.
    spec fn hits(&self, row: R::V) -> bool;

    /// What becomes of a row it touches.
    spec fn image(&self, row: R::V) -> R::V;

    /// The row's counters leave room for the update.
    spec fn fits(&self, row: R::V) -> bool;

    fn apply(&self, row: &mut R) -> (hit: bool)
        requires
            self.hits(old(row)@) ==> self.fits(old(row)@),
        ensures
            hit == self.hits(old(row)@),
            final(row)@ == (if self.hits(old(row)@) { self.image(old(row)@) } else { old(row)@ }),
    ;
}

/// The rows with the update made to those that satisfy `hits`.
pub open spec fn amended<V>(
    rows: Seq<V>,
    hits: spec_fn(V) -> bool,
    image: spec_fn(V) -> V,
) -> Seq<V> {
    rows.map_values(|r: V| if hits(r) { image(r) } else { r })
}

/// Some row satisfies `hits`.
pub open spec fn any<V>(rows: Seq<V>, hits: spec_fn(V) -> bool) -> bool {
    exists|i: int| 0 <= i < rows.len() && hits(#[trigger] rows[i])
}

/// Predicates that agree on a sequence agree on whether some row satisfies them.
pub proof fn lemma_any_same<V>(s: Seq<V>, p: spec_fn(V) -> bool, q: spec_fn(V) -> bool)
    requires
        forall|i: int| 0 <= i < s.len() ==> p(#[trigger] s[i]) == q(s[i]),
    ensures
        any(s, p) == any(s, q),
{
    if any(s, p) {
        let i = choose|i: int| 0 <= i < s.len() && p(#[trigger] s[i]);
        assert(q(s[i]));
    }
    if any(s, q) {
        let i = choose|i: int| 0 <= i < s.len() && q(#[trigger] s[i]);
        assert(p(s[i]));
    }
}

/// Applies a rule to every row and says how many it touched.
pub fn update_all<R: View, U: Rule<R>>(rows: &mut Vec<R>, rule: &U) -> (n: u64)
    requires
        forall|i: int|
            0 <= i < old(rows)@.len() && rule.hits((#[trigger] old(rows)@[i])@) ==> rule.fits(
                old(rows)@[i]@,
            ),
    ensures
        views(final(rows)@) == amended(
            views(old(rows)@),
            |r: R::V| rule.hits(r),
            |r: R::V| rule.image(r),
        ),
        n == count(views(old(rows)@), |r: R::V| rule.hits(r)),
        n <= old(rows)@.len(),
{
    let ghost was = views(rows@);
    let ghost before = rows@;
    let ghost p = |r: R::V| rule.hits(r);
    let mut n: u64 = 0;
    let mut i: usize = 0;
    assert(was.take(0) =~= Seq::<R::V>::empty());
    while i < rows.len()
        invariant
            i <= rows@.len(),
            rows@.len() == before.len(),
            was == views(before),
            p == (|r: R::V| rule.hits(r)),
            n == count(was.take(i as int), p),
            n <= i,
            forall|k: int| i <= k < rows@.len() ==> rows@[k] == before[k],
            forall|k: int|
                0 <= k < i ==> (#[trigger] rows@[k])@ == (if rule.hits(before[k]@) {
                    rule.image(before[k]@)
                } else {
                    before[k]@
                }),
            forall|k: int| 0 <= k < before.len() && rule.hits((#[trigger] before[k])@) ==> rule.fits(before[k]@),
        decreases rows@.len() - i,
    {
        proof {
            lemma_count_take(was, p, i as int);
            assert(was[i as int] == before[i as int]@);
        }
        let hit: bool = rule.apply(&mut rows[i]);
        if hit {
            n += 1;
        }
        i += 1;
    }
    assert(was.take(was.len() as int) =~= was);
    assert(views(rows@) =~= amended(was, |r: R::V| rule.hits(r), |r: R::V| rule.image(r)));
    n
}

/// Applies a rule to every row and says whether it touched any.
pub fn update_any<R: View, U: Rule<R>>(rows: &mut Vec<R>, rule: &U) -> (hit: bool)
    requires
        forall|i: int|
            0 <= i < old(rows)@.len() && rule.hits((#[trigger] old(rows)@[i])@) ==> rule.fits(
                old(rows)@[i]@,
            ),
    ensures
        views(final(rows)@) == amended(
            views(old(rows)@),
            |r: R::V| rule.hits(r),
            |r: R::V| rule.image(r),
        ),
        hit == any(views(old(rows)@), |r: R::V| rule.hits(r)),
{
    proof {
        lemma_count_positive(views(rows@), |r: R::V| rule.hits(r));
    }
    update_all(rows, rule) > 0
}

/// The rows with the update made to those at the places `q`.
pub open spec fn amended_at<V>(rows: Seq<V>, q: Seq<int>, image: spec_fn(V) -> V) -> Seq<V> {
    Seq::new(rows.len(), |i: int| if q.contains(i) { image(rows[i]) } else { rows[i] })
}

/// Applies a rule to the first `n` rows at the places `q`, all of which it touches.
pub fn update_at<R: View, U: Rule<R>>(rows: &mut Vec<R>, q: &Vec<usize>, n: usize, rule: &U)
    requires
        n <= q@.len(),
        places(q@).no_duplicates(),
        forall|k: int| 0 <= k < q@.len() ==> #[trigger] q@[k] < old(rows)@.len(),
        forall|k: int|
            0 <= k < n ==> rule.hits((#[trigger] old(rows)@[places(q@)[k]])@) && rule.fits(
                old(rows)@[places(q@)[k]]@,
            ),
    ensures
        views(final(rows)@) == amended_at(
            views(old(rows)@),
            places(q@).take(n as int),
            |r: R::V| rule.image(r),
        ),
{
    let ghost before = rows@;
    let ghost was = views(before);
    let ghost line = places(q@);
    let ghost image = |r: R::V| rule.image(r);
    let mut k: usize = 0;
    assert(views(rows@) =~= amended_at(was, line.take(0), image));
    while k < n
        invariant
            k <= n <= q@.len(),
            line == places(q@),
            line.no_duplicates(),
            was == views(before),
            rows@.len() == before.len(),
            image == (|r: R::V| rule.image(r)),
            forall|x: int| 0 <= x < q@.len() ==> #[trigger] q@[x] < before.len(),
            forall|x: int|
                0 <= x < n ==> rule.hits((#[trigger] before[places(q@)[x]])@) && rule.fits(
                    before[places(q@)[x]]@,
                ),
            views(rows@) == amended_at(was, line.take(k as int), image),
        decreases n - k,
    {
        let i: usize = q[k];
        let ghost so_far = line.take(k as int);
        let ghost next = line.take(k as int + 1);
        let ghost now = views(rows@);
        proof {
            assert(line[k as int] == i);
            assert(next =~= so_far.push(i as int));
            assert(!so_far.contains(i as int)) by {
                if so_far.contains(i as int) {
                    let m = choose|m: int| 0 <= m < so_far.len() && so_far[m] == i;
                    assert(line[m] == line[k as int]);
                }
            }
            assert(now[i as int] == rows@[i as int]@);
            assert(was[i as int] == before[i as int]@);
            assert(rule.hits(before[places(q@)[k as int]]@));
        }
        let _ = rule.apply(&mut rows[i]);
        proof {
            assert forall|j: int| 0 <= j < was.len() implies views(rows@)[j] == amended_at(
                was,
                next,
                image,
            )[j] by {
                assert(next.contains(j) == (so_far.contains(j) || j == i)) by {
                    if so_far.contains(j) {
                        let m = choose|m: int| 0 <= m < so_far.len() && so_far[m] == j;
                        assert(next[m] == j);
                    }
                    if j == i {
                        assert(next[k as int] == j);
                    }
                    if next.contains(j) {
                        let m = choose|m: int| 0 <= m < next.len() && next[m] == j;
                        if m < k {
                            assert(so_far[m] == j);
                        }
                    }
                }
                if j != i {
                    assert(views(rows@)[j] == now[j]);
                }
            }
            assert(views(rows@) =~= amended_at(was, next, image));
        }
        k += 1;
    }
}

proof fn lemma_filter_take<V>(s: Seq<V>, p: spec_fn(V) -> bool, i: int)
    requires
        0 <= i < s.len(),
    ensures
        s.take(i + 1).filter(p) == (if p(s[i]) {
            s.take(i).filter(p).push(s[i])
        } else {
            s.take(i).filter(p)
        }),
{
    reveal(Seq::filter);
    assert(s.take(i + 1).drop_last() =~= s.take(i));
}

/// Deletes every row that `doomed` keeps and says how many there were.
pub fn delete_all<R: View, K: Keep<R>>(rows: &mut Vec<R>, doomed: &K) -> (n: u64)
    ensures
        views(final(rows)@) == views(old(rows)@).filter(|r: R::V| !doomed.keeps(r)),
        n == count(views(old(rows)@), |r: R::V| doomed.keeps(r)),
        n <= old(rows)@.len(),
{
    let ghost before = rows@;
    let len: usize = rows.len();
    let ghost was = views(before);
    let ghost p = |r: R::V| !doomed.keeps(r);
    let ghost hits = |r: R::V| doomed.keeps(r);
    let ghost mut done: int = 0;
    let mut n: u64 = 0;
    let mut i: usize = 0;
    proof {
        reveal(Seq::filter);
    }
    assert(was.take(0) =~= Seq::<R::V>::empty());
    assert(views(rows@.take(0)) =~= was.take(0).filter(p));
    assert(rows@.skip(0) =~= before.skip(0));
    while i < rows.len()
        invariant
            i <= rows@.len(),
            0 <= done <= before.len(),
            rows@.len() - i == before.len() - done,
            n + i == done,
            before.len() == len,
            was == views(before),
            p == (|r: R::V| !doomed.keeps(r)),
            hits == (|r: R::V| doomed.keeps(r)),
            rows@.skip(i as int) == before.skip(done),
            views(rows@.take(i as int)) == was.take(done).filter(p),
            n == count(was.take(done), hits),
        decreases rows@.len() - i,
    {
        let ghost now = rows@;
        proof {
            assert(now.skip(i as int)[0] == before.skip(done)[0]);
            assert(now[i as int] == before[done]);
            assert(was[done] == before[done]@);
            lemma_filter_take(was, p, done);
            lemma_count_take(was, hits, done);
            assert(before.skip(done + 1) =~= before.skip(done).skip(1));
            assert(now.skip(i as int + 1) =~= now.skip(i as int).skip(1));
        }
        if doomed.keep(&rows[i]) {
            let _ = rows.remove(i);
            n += 1;
            assert(rows@.take(i as int) =~= now.take(i as int));
            assert(rows@.skip(i as int) =~= now.skip(i as int + 1));
        } else {
            assert(views(now.take(i as int + 1)) =~= views(now.take(i as int)).push(was[done]));
            i += 1;
        }
        proof {
            done = done + 1;
        }
    }
    assert(was.take(done) =~= was);
    assert(rows@.take(i as int) =~= rows@);
    n
}

} // verus!
