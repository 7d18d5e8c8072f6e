//! Reading rows in order: the rows that pass a filter, sorted, up to a limit.
//! Rows that sort alike stay in the order of the table.
use vstd::prelude::*;
use crate::rows::{views, Row};
use crate::table::{count, lemma_count_take};
use crate::text::texts;

verus! {

/// Which rows a read keeps.
pub trait Keep<R: View> {
    spec fn keeps(&self, row: R::V) -> bool;

    fn keep(&self, row: &R) -> (r: bool)
        ensures
            r == self.keeps(row@),
    ;
}

/// In which order a read hands rows out.
pub trait Order<R: View> {
    spec fn lt(&self, a: R::V, b: R::V) -> bool;

    fn sorts_before(&self, a: &R, b: &R) -> (r: bool)
        ensures
            r == self.lt(a@, b@),
    ;
}

/// Row `i` put in its place in the list `q`: before those it sorts before.
pub open spec fn placed<V>(rows: Seq<V>, lt: spec_fn(V, V) -> bool, q: Seq<int>, i: int) -> Seq<int>
    decreases q.len(),
{
    if q.len() > 0 && lt(rows[i], rows[q.last()]) {
        placed(rows, lt, q.drop_last(), i).push(q.last())
    } else {
        q.push(i)
    }
}

/// The places of the rows among the first `n` that satisfy `p`, sorted by `lt`.
pub open spec fn ordered<V>(
    rows: Seq<V>,
    p: spec_fn(V) -> bool,
    lt: spec_fn(V, V) -> bool,
    n: int,
) -> Seq<int>
    decreases n,
{
    if n <= 0 {
        Seq::empty()
    } else if p(rows[n - 1]) {
        placed(rows, lt, ordered(rows, p, lt, n - 1), n - 1)
    } else {
        ordered(rows, p, lt, n - 1)
    }
}

/// The first `limit` of a list; a negative limit is none.
pub open spec fn limited<A>(s: Seq<A>, limit: int) -> Seq<A> {
    if limit < 0 || limit >= s.len() { s } else { s.take(limit) }
}

/// A list of places as numbers.
pub open spec fn places(q: Seq<usize>) -> Seq<int> {
    q.map_values(|i: usize| i as int)
}

/// The rows at the places `q`.
pub open spec fn rows_at<V>(rows: Seq<V>, q: Seq<int>) -> Seq<V> {
    q.map_values(|i: int| rows[i])
}

/// How many of `len` a limit leaves.
pub fn limit_of(len: usize, limit: i64) -> (n: usize)
    ensures
        n == (if limit < 0 || limit >= len { len as int } else { limit as int }),
        n <= len,
{
    if limit < 0 || limit as u64 >= len as u64 {
        len
    } else {
        limit as usize
    }
}

proof fn lemma_placed_at<V>(rows: Seq<V>, lt: spec_fn(V, V) -> bool, q: Seq<int>, i: int, at: int)
    requires
        0 <= at <= q.len(),
        forall|k: int| at <= k < q.len() ==> lt(rows[i], rows[#[trigger] q[k]]),
        at == 0 || !lt(rows[i], rows[q[at - 1]]),
    ensures
        placed(rows, lt, q, i) == q.insert(at, i),
    decreases q.len(),
{
    if q.len() > 0 && lt(rows[i], rows[q.last()]) {
        assert(at <= q.len() - 1) by {
            if at == q.len() {
                assert(q[at - 1] == q.last());
            }
        }
        let rest = q.drop_last();
        assert forall|k: int| at <= k < rest.len() implies lt(rows[i], rows[#[trigger] rest[k]]) by {
            assert(rest[k] == q[k]);
        }
        lemma_placed_at(rows, lt, rest, i, at);
        assert(rest.insert(at, i).push(q.last()) =~= q.insert(at, i));
    } else {
        assert(at == q.len()) by {
            if at < q.len() {
                assert(lt(rows[i], rows[q[q.len() - 1]]));
            }
        }
        assert(q.push(i) =~= q.insert(at, i));
    }
}

/// Puts row `i` in its place.
fn place<R: View, O: Order<R>>(rows: &Vec<R>, order: &O, q: &mut Vec<usize>, i: usize)
    requires
        i < rows@.len(),
        forall|k: int| 0 <= k < old(q)@.len() ==> #[trigger] old(q)@[k] < rows@.len(),
    ensures
        places(final(q)@) == placed(
            views(rows@),
            |a: R::V, b: R::V| order.lt(a, b),
            places(old(q)@),
            i as int,
        ),
        forall|k: int| 0 <= k < final(q)@.len() ==> #[trigger] final(q)@[k] < rows@.len(),
{
    let ghost was = q@;
    let ghost all = views(rows@);
    let ghost lt = |a: R::V, b: R::V| order.lt(a, b);
    assert(all[i as int] == rows@[i as int]@);
    let mut at: usize = q.len();
    while at > 0 && order.sorts_before(&rows[i], &rows[q[at - 1]])
        invariant
            at <= q@.len(),
            q@ == was,
            i < rows@.len(),
            all == views(rows@),
            all[i as int] == rows@[i as int]@,
            lt == (|a: R::V, b: R::V| order.lt(a, b)),
            forall|k: int| 0 <= k < q@.len() ==> #[trigger] q@[k] < rows@.len(),
            forall|k: int| at <= k < q@.len() ==> lt(all[i as int], all[#[trigger] places(q@)[k]]),
        decreases at,
    {
        assert(places(q@)[at - 1] == q@[at - 1]);
        assert(all[q@[at - 1] as int] == rows@[q@[at - 1] as int]@);
        at -= 1;
    }
    proof {
        if at > 0 {
            assert(places(was)[at - 1] == was[at - 1]);
            assert(all[was[at - 1] as int] == rows@[was[at - 1] as int]@);
        }
        lemma_placed_at(all, lt, places(was), i as int, at as int);
    }
    q.insert(at, i);
    assert(places(q@) =~= places(was).insert(at as int, i as int));
}

/// The places of the rows that the filter keeps, in order.
pub fn select<R: View, K: Keep<R>, O: Order<R>>(rows: &Vec<R>, keep: &K, order: &O) -> (q: Vec<usize>)
    ensures
        places(q@) == ordered(
            views(rows@),
            |r: R::V| keep.keeps(r),
            |a: R::V, b: R::V| order.lt(a, b),
            rows@.len() as int,
        ),
        forall|k: int| 0 <= k < q@.len() ==> #[trigger] q@[k] < rows@.len(),
{
    let ghost p = |r: R::V| keep.keeps(r);
    let ghost lt = |a: R::V, b: R::V| order.lt(a, b);
    let mut q: Vec<usize> = Vec::new();
    let mut i: usize = 0;
    assert(places(q@) =~= Seq::<int>::empty());
    while i < rows.len()
        invariant
            i <= rows@.len(),
            p == (|r: R::V| keep.keeps(r)),
            lt == (|a: R::V, b: R::V| order.lt(a, b)),
            places(q@) == ordered(views(rows@), p, lt, i as int),
            forall|k: int| 0 <= k < q@.len() ==> #[trigger] q@[k] < rows@.len(),
        decreases rows@.len() - i,
    {
        assert(views(rows@)[i as int] == rows@[i as int]@);
        if keep.keep(&rows[i]) {
            place(rows, order, &mut q, i);
        }
        i += 1;
    }
    q
}

proof fn lemma_placed_members<V>(rows: Seq<V>, lt: spec_fn(V, V) -> bool, q: Seq<int>, i: int)
    ensures
        placed(rows, lt, q, i).len() == q.len() + 1,
        forall|x: int| #[trigger] placed(rows, lt, q, i).contains(x) <==> q.contains(x) || x == i,
        q.no_duplicates() && !q.contains(i) ==> placed(rows, lt, q, i).no_duplicates(),
    decreases q.len(),
{
    if q.len() > 0 && lt(rows[i], rows[q.last()]) {
        let rest = q.drop_last();
        let inner = placed(rows, lt, rest, i);
        lemma_placed_members(rows, lt, rest, i);
        let out = inner.push(q.last());
        assert(q =~= rest.push(q.last()));
        assert forall|x: int| #[trigger] out.contains(x) <==> q.contains(x) || x == i by {
            if out.contains(x) {
                let k = choose|k: int| 0 <= k < out.len() && out[k] == x;
                if k < inner.len() {
                    assert(inner[k] == x);
                    assert(inner.contains(x));
                    if rest.contains(x) {
                        let m = choose|m: int| 0 <= m < rest.len() && rest[m] == x;
                        assert(q[m] == x);
                    }
                } else {
                    assert(q[q.len() - 1] == x);
                }
            }
            if q.contains(x) || x == i {
                if x == q.last() {
                    assert(out[inner.len() as int] == x);
                } else {
                    if q.contains(x) {
                        let m = choose|m: int| 0 <= m < q.len() && q[m] == x;
                        assert(rest[m] == x);
                    }
                    assert(inner.contains(x));
                    let m = choose|m: int| 0 <= m < inner.len() && inner[m] == x;
                    assert(out[m] == x);
                }
            }
        }
        if q.no_duplicates() && !q.contains(i) {
            assert(q[q.len() - 1] == q.last());
            assert(!rest.contains(i)) by {
                if rest.contains(i) {
                    let m = choose|m: int| 0 <= m < rest.len() && rest[m] == i;
                    assert(q[m] == i);
                }
            }
            assert(rest.no_duplicates());
            assert(!inner.contains(q.last())) by {
                if rest.contains(q.last()) {
                    let m = choose|m: int| 0 <= m < rest.len() && rest[m] == q.last();
                    assert(q[m] == q.last());
                }
            }
            assert forall|a: int, b: int| 0 <= a < b < out.len() implies out[a] != out[b] by {
                if b == inner.len() {
                    assert(inner.contains(inner[a]));
                }
            }
        }
    } else {
        let out = q.push(i);
        assert forall|x: int| #[trigger] out.contains(x) <==> q.contains(x) || x == i by {
            if out.contains(x) {
                let k = choose|k: int| 0 <= k < out.len() && out[k] == x;
                if k < q.len() {
                    assert(q[k] == x);
                }
            }
            if q.contains(x) {
                let k = choose|k: int| 0 <= k < q.len() && q[k] == x;
                assert(out[k] == x);
            }
            if x == i {
                assert(out[q.len() as int] == x);
            }
        }
        if q.no_duplicates() && !q.contains(i) {
            assert forall|a: int, b: int| 0 <= a < b < out.len() implies out[a] != out[b] by {
                if b == q.len() {
                    assert(q.contains(q[a]));
                }
            }
        }
    }
}

/// A read holds each row that satisfies `p` exactly once, and no other.
pub proof fn lemma_ordered_members<V>(
    rows: Seq<V>,
    p: spec_fn(V) -> bool,
    lt: spec_fn(V, V) -> bool,
    n: int,
)
    requires
        0 <= n <= rows.len(),
    ensures
        ordered(rows, p, lt, n).no_duplicates(),
        forall|i: int| #[trigger]
            ordered(rows, p, lt, n).contains(i) <==> 0 <= i < n && p(rows[i]),
    decreases n,
{
    if n > 0 {
        lemma_ordered_members(rows, p, lt, n - 1);
        let q = ordered(rows, p, lt, n - 1);
        assert(!q.contains(n - 1));
        lemma_placed_members(rows, lt, q, n - 1);
    }
}

/// A read is as long as the rows that satisfy `p` are many.
pub proof fn lemma_ordered_len<V>(
    rows: Seq<V>,
    p: spec_fn(V) -> bool,
    lt: spec_fn(V, V) -> bool,
    n: int,
)
    requires
        0 <= n <= rows.len(),
    ensures
        ordered(rows, p, lt, n).len() == count(rows.take(n), p),
    decreases n,
{
    if n > 0 {
        lemma_ordered_len(rows, p, lt, n - 1);
        lemma_count_take(rows, p, n - 1);
        lemma_placed_members(rows, lt, ordered(rows, p, lt, n - 1), n - 1);
    }
}

proof fn lemma_placed_same<V>(a: Seq<V>, b: Seq<V>, lt: spec_fn(V, V) -> bool, q: Seq<int>, i: int)
    requires
        0 <= i < a.len(),
        forall|k: int| 0 <= k < q.len() ==> 0 <= #[trigger] q[k] < a.len(),
        forall|x: int, y: int|
            0 <= x < a.len() && 0 <= y < a.len() ==> lt(#[trigger] a[x], #[trigger] a[y]) == lt(
                b[x],
                b[y],
            ),
    ensures
        placed(a, lt, q, i) == placed(b, lt, q, i),
    decreases q.len(),
{
    if q.len() > 0 {
        let rest = q.drop_last();
        assert forall|k: int| 0 <= k < rest.len() implies 0 <= #[trigger] rest[k] < a.len() by {
            assert(rest[k] == q[k]);
        }
        assert(q[q.len() - 1] == q.last());
        assert(lt(a[i], a[q.last()]) == lt(b[i], b[q.last()]));
        lemma_placed_same(a, b, lt, rest, i);
    }
}

/// Tables whose rows pass and sort alike are read alike.
pub proof fn lemma_ordered_same<V>(
    a: Seq<V>,
    b: Seq<V>,
    p: spec_fn(V) -> bool,
    lt: spec_fn(V, V) -> bool,
    n: int,
)
    requires
        0 <= n <= a.len(),
        forall|i: int| 0 <= i < a.len() ==> p(#[trigger] a[i]) == p(b[i]),
        forall|x: int, y: int|
            0 <= x < a.len() && 0 <= y < a.len() ==> lt(#[trigger] a[x], #[trigger] a[y]) == lt(
                b[x],
                b[y],
            ),
    ensures
        ordered(a, p, lt, n) == ordered(b, p, lt, n),
    decreases n,
{
    if n > 0 {
        lemma_ordered_same(a, b, p, lt, n - 1);
        lemma_ordered_members(a, p, lt, n - 1);
        let q = ordered(a, p, lt, n - 1);
        assert forall|k: int| 0 <= k < q.len() implies 0 <= #[trigger] q[k] < a.len() by {
            assert(q.contains(q[k]));
        }
        assert(p(a[n - 1]) == p(b[n - 1]));
        lemma_placed_same(a, b, lt, q, n - 1);
    }
}

/// `lt` orders rows: nothing sorts before itself, and what sorts neither before
/// nor after one row sorts alike with it.
pub open spec fn weak_order<V>(lt: spec_fn(V, V) -> bool) -> bool {
    &&& forall|a: V, b: V| #[trigger] lt(a, b) ==> !lt(b, a)
    &&& forall|a: V, b: V, c: V| #[trigger] lt(a, c) ==> #[trigger] lt(a, b) || lt(b, c)
}

/// No later entry sorts before an earlier one, and entries that sort alike
/// stand in the order of the table.
pub open spec fn sorted<V>(rows: Seq<V>, lt: spec_fn(V, V) -> bool, q: Seq<int>) -> bool {
    forall|a: int, b: int|
        0 <= a < b < q.len() ==> !lt(rows[#[trigger] q[b]], rows[#[trigger] q[a]]) && (lt(
            rows[q[a]],
            rows[q[b]],
        ) || q[a] < q[b])
}

proof fn lemma_placed_sorted<V>(rows: Seq<V>, lt: spec_fn(V, V) -> bool, q: Seq<int>, i: int)
    requires
        weak_order(lt),
        sorted(rows, lt, q),
        forall|k: int| 0 <= k < q.len() ==> #[trigger] q[k] < i,
    ensures
        sorted(rows, lt, placed(rows, lt, q, i)),
    decreases q.len(),
{
    let out = placed(rows, lt, q, i);
    if q.len() > 0 && lt(rows[i], rows[q.last()]) {
        let rest = q.drop_last();
        let inner = placed(rows, lt, rest, i);
        assert(sorted(rows, lt, rest)) by {
            assert forall|a: int, b: int| 0 <= a < b < rest.len() implies !lt(
                rows[#[trigger] rest[b]],
                rows[#[trigger] rest[a]],
            ) && (lt(rows[rest[a]], rows[rest[b]]) || rest[a] < rest[b]) by {
                assert(rest[a] == q[a] && rest[b] == q[b]);
            }
        }
        assert forall|k: int| 0 <= k < rest.len() implies #[trigger] rest[k] < i by {
            assert(rest[k] == q[k]);
        }
        lemma_placed_sorted(rows, lt, rest, i);
        lemma_placed_members(rows, lt, rest, i);
        assert forall|a: int, b: int| 0 <= a < b < out.len() implies !lt(
            rows[#[trigger] out[b]],
            rows[#[trigger] out[a]],
        ) && (lt(rows[out[a]], rows[out[b]]) || out[a] < out[b]) by {
            if b == inner.len() {
                assert(inner.contains(out[a])) by {
                    assert(inner[a] == out[a]);
                }
                if out[a] != i {
                    let m = choose|m: int| 0 <= m < rest.len() && rest[m] == out[a];
                    assert(q[m] == out[a]);
                    assert(q[q.len() - 1] == out[b]);
                }
            } else {
                assert(out[a] == inner[a] && out[b] == inner[b]);
            }
        }
    } else {
        assert forall|a: int, b: int| 0 <= a < b < out.len() implies !lt(
            rows[#[trigger] out[b]],
            rows[#[trigger] out[a]],
        ) && (lt(rows[out[a]], rows[out[b]]) || out[a] < out[b]) by {
            if b == q.len() {
                assert(out[a] == q[a]);
                if q.len() > 0 && a < q.len() - 1 {
                    assert(!lt(rows[q[q.len() - 1]], rows[q[a]]));
                    if lt(rows[i], rows[q[a]]) {
                        assert(lt(rows[i], rows[q.last()]) || lt(rows[q.last()], rows[q[a]]));
                    }
                }
            } else {
                assert(out[a] == q[a] && out[b] == q[b]);
            }
        }
    }
}

/// A read by a weak order is sorted.
pub proof fn lemma_ordered_sorted<V>(
    rows: Seq<V>,
    p: spec_fn(V) -> bool,
    lt: spec_fn(V, V) -> bool,
    n: int,
)
    requires
        0 <= n <= rows.len(),
        weak_order(lt),
    ensures
        sorted(rows, lt, ordered(rows, p, lt, n)),
    decreases n,
{
    if n > 0 {
        lemma_ordered_sorted(rows, p, lt, n - 1);
        lemma_ordered_members(rows, p, lt, n - 1);
        let q = ordered(rows, p, lt, n - 1);
        assert forall|k: int| 0 <= k < q.len() implies #[trigger] q[k] < n - 1 by {
            assert(q.contains(q[k]));
        }
        if p(rows[n - 1]) {
            lemma_placed_sorted(rows, lt, q, n - 1);
        }
    }
}

/// No order: rows come as they stand in the table.
pub struct TableOrder {}

impl<R: View> Order<R> for TableOrder {
    open spec fn lt(&self, a: R::V, b: R::V) -> bool {
        false
    }

    fn sorts_before(&self, a: &R, b: &R) -> (r: bool) {
        false
    }
}

/// The places of the rows that satisfy `p`, in the order of the table.
pub open spec fn places_where<V>(rows: Seq<V>, p: spec_fn(V) -> bool) -> Seq<int> {
    ordered(rows, p, |a: V, b: V| false, rows.len() as int)
}

/// The places of the rows that the filter keeps, in the order of the table.
pub fn select_all<R: View, K: Keep<R>>(rows: &Vec<R>, keep: &K) -> (q: Vec<usize>)
    ensures
        places(q@) == places_where(views(rows@), |r: R::V| keep.keeps(r)),
        forall|k: int| 0 <= k < q@.len() ==> #[trigger] q@[k] < rows@.len(),
        q@.len() <= rows@.len(),
        places(q@).no_duplicates(),
        forall|k: int| 0 <= k < q@.len() ==> keep.keeps((#[trigger] rows@[places(q@)[k]])@),
{
    let order: TableOrder = TableOrder {};
    let q: Vec<usize> = select(rows, keep, &order);
    proof {
        let lt = |a: R::V, b: R::V| <TableOrder as Order<R>>::lt(&order, a, b);
        assert(lt =~= (|a: R::V, b: R::V| false));
        lemma_ordered_members(views(rows@), |r: R::V| keep.keeps(r), lt, rows@.len() as int);
        lemma_no_more_places(places(q@), rows@.len() as int);
        assert forall|k: int| 0 <= k < q@.len() implies keep.keeps(
            (#[trigger] rows@[places(q@)[k]])@,
        ) by {
            assert(places(q@).contains(places(q@)[k]));
            assert(views(rows@)[places(q@)[k]] == rows@[places(q@)[k]]@);
        }
    }
    q
}

/// The first row that satisfies `p`.
pub open spec fn first<V>(rows: Seq<V>, p: spec_fn(V) -> bool) -> Option<V>
    decreases rows.len(),
{
    if rows.len() == 0 {
        None
    } else {
        match first(rows.drop_last(), p) {
            Some(v) => Some(v),
            None => if p(rows.last()) { Some(rows.last()) } else { None },
        }
    }
}

/// Where the first row stands that the filter keeps.
pub fn find_row<R: View, K: Keep<R>>(rows: &Vec<R>, keep: &K) -> (r: Option<usize>)
    ensures
        match r {
            Some(i) => i < rows@.len() && first(views(rows@), |r: R::V| keep.keeps(r)) == Some(
                views(rows@)[i as int],
            ),
            None => first(views(rows@), |r: R::V| keep.keeps(r)) is None,
        },
{
    let ghost all = views(rows@);
    let ghost p = |r: R::V| keep.keeps(r);
    let mut found: Option<usize> = None;
    let mut i: usize = 0;
    while i < rows.len()
        invariant
            i <= rows@.len(),
            all == views(rows@),
            p == (|r: R::V| keep.keeps(r)),
            match found {
                Some(j) => j < rows@.len() && first(all.take(i as int), p) == Some(all[j as int]),
                None => first(all.take(i as int), p) is None,
            },
        decreases rows@.len() - i,
    {
        assert(all[i as int] == rows@[i as int]@);
        assert(all.take(i as int + 1).drop_last() =~= all.take(i as int));
        if found.is_none() && keep.keep(&rows[i]) {
            found = Some(i);
        }
        i += 1;
    }
    assert(all.take(all.len() as int) =~= all);
    found
}

/// How many rows the filter keeps.
pub fn count_rows<R: View, K: Keep<R>>(rows: &Vec<R>, keep: &K) -> (n: u64)
    ensures
        n == count(views(rows@), |r: R::V| keep.keeps(r)),
        n <= rows@.len(),
{
    let ghost all = views(rows@);
    let ghost p = |r: R::V| keep.keeps(r);
    let mut n: u64 = 0;
    let mut i: usize = 0;
    assert(all.take(0) =~= Seq::<R::V>::empty());
    while i < rows.len()
        invariant
            i <= rows@.len(),
            n <= i,
            all == views(rows@),
            p == (|r: R::V| keep.keeps(r)),
            n == count(all.take(i as int), p),
        decreases rows@.len() - i,
    {
        proof {
            lemma_count_take(all, p, i as int);
        }
        assert(all[i as int] == rows@[i as int]@);
        if keep.keep(&rows[i]) {
            n += 1;
        }
        i += 1;
    }
    assert(all.take(all.len() as int) =~= all);
    n
}

/// A first row exists exactly where some row satisfies `p`, and satisfies it.
pub proof fn lemma_first<V>(rows: Seq<V>, p: spec_fn(V) -> bool)
    ensures
        first(rows, p) is Some <==> exists|i: int| 0 <= i < rows.len() && p(#[trigger] rows[i]),
        first(rows, p) is Some ==> p(first(rows, p)->0) && rows.contains(first(rows, p)->0),
    decreases rows.len(),
{
    if rows.len() > 0 {
        let rest = rows.drop_last();
        lemma_first(rest, p);
        if first(rest, p) is Some {
            let i = choose|i: int| 0 <= i < rest.len() && p(#[trigger] rest[i]);
            assert(p(rows[i]));
            let v = first(rest, p)->0;
            let k = choose|k: int| 0 <= k < rest.len() && rest[k] == v;
            assert(rows[k] == v);
        } else {
            assert forall|i: int| 0 <= i < rows.len() && p(#[trigger] rows[i]) implies i == rows.len() - 1 by {
                if i < rest.len() {
                    assert(p(rest[i]));
                }
            }
            if p(rows.last()) {
                assert(p(rows[rows.len() - 1]));
            }
        }
    }
}

/// Copies of the first `n` rows at the places `q`.
pub fn copy_at<R: Row>(rows: &Vec<R>, q: &Vec<usize>, n: usize) -> (out: Vec<R>)
    requires
        n <= q@.len(),
        forall|k: int| 0 <= k < q@.len() ==> #[trigger] q@[k] < rows@.len(),
    ensures
        views(out@) == rows_at(views(rows@), places(q@).take(n as int)),
{
    let ghost all = views(rows@);
    let mut out: Vec<R> = Vec::new();
    let mut k: usize = 0;
    assert(views(out@) =~= rows_at(all, places(q@).take(0)));
    while k < n
        invariant
            k <= n <= q@.len(),
            all == views(rows@),
            forall|x: int| 0 <= x < q@.len() ==> #[trigger] q@[x] < rows@.len(),
            views(out@) == rows_at(all, places(q@).take(k as int)),
        decreases n - k,
    {
        let ghost told = views(out@);
        let i: usize = q[k];
        assert(all[i as int] == rows@[i as int]@);
        out.push(rows[i].duplicate());
        assert(views(out@) =~= told.push(all[i as int]));
        assert(places(q@).take(k as int + 1) =~= places(q@).take(k as int).push(i as int));
        assert(rows_at(all, places(q@).take(k as int + 1)) =~= rows_at(
            all,
            places(q@).take(k as int),
        ).push(all[i as int]));
        k += 1;
    }
    out
}

/// A text column of a table.
pub trait Column<R: View> {
    spec fn value(&self, row: R::V) -> Seq<char>;

    fn read(&self, row: &R) -> (s: String)
        ensures
            s@ == self.value(row@),
    ;
}

/// A text column of the first `n` rows at the places `q`.
pub fn column_at<R: View, C: Column<R>>(rows: &Vec<R>, q: &Vec<usize>, n: usize, column: &C) -> (out: Vec<String>)
    requires
        n <= q@.len(),
        forall|k: int| 0 <= k < q@.len() ==> #[trigger] q@[k] < rows@.len(),
    ensures
        texts(out@) == places(q@).take(n as int).map_values(
            |i: int| column.value(views(rows@)[i]),
        ),
{
    let ghost all = views(rows@);
    let ghost f = |i: int| column.value(all[i]);
    let mut out: Vec<String> = Vec::new();
    let mut k: usize = 0;
    assert(texts(out@) =~= places(q@).take(0).map_values(f));
    while k < n
        invariant
            k <= n <= q@.len(),
            all == views(rows@),
            f == (|i: int| column.value(all[i])),
            forall|x: int| 0 <= x < q@.len() ==> #[trigger] q@[x] < rows@.len(),
            texts(out@) == places(q@).take(k as int).map_values(f),
        decreases n - k,
    {
        let ghost told = texts(out@);
        let i: usize = q[k];
        assert(all[i as int] == rows@[i as int]@);
        out.push(column.read(&rows[i]));
        assert(texts(out@) =~= told.push(f(i as int)));
        assert(places(q@).take(k as int + 1) =~= places(q@).take(k as int).push(i as int));
        assert(places(q@).take(k as int + 1).map_values(f) =~= places(q@).take(k as int).map_values(
            f,
        ).push(f(i as int)));
        k += 1;
    }
    assert(places(q@).take(n as int).map_values(f) =~= places(q@).take(n as int).map_values(
        |i: int| column.value(views(rows@)[i]),
    ));
    out
}

pub proof fn lemma_limited_members(q: Seq<int>, limit: int)
    requires
        q.no_duplicates(),
    ensures
        limited(q, limit).no_duplicates(),
        forall|i: int| #[trigger] limited(q, limit).contains(i) ==> q.contains(i),
{
    assert forall|i: int| #[trigger] limited(q, limit).contains(i) implies q.contains(i) by {
        let k = choose|k: int| 0 <= k < limited(q, limit).len() && limited(q, limit)[k] == i;
        assert(q[k] == i);
    }
}

/// Distinct places below `n` are at most `n`.
pub proof fn lemma_no_more_places(q: Seq<int>, n: int)
    requires
        q.no_duplicates(),
        0 <= n,
        forall|i: int| #[trigger] q.contains(i) ==> 0 <= i < n,
    ensures
        q.len() <= n,
{
    let s = q.to_set();
    q.unique_seq_to_set();
    let full = vstd::set_lib::set_int_range(0, n);
    vstd::set_lib::lemma_int_range(0, n);
    assert forall|i: int| #[trigger] s.contains(i) implies full.contains(i) by {
        assert(q.contains(i));
    }
    vstd::set_lib::lemma_len_subset(s, full);
}

} // verus!
