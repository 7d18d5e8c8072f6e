//! What reading and amending rows means, whatever the rows are.
use vstd::prelude::*;
use crate::order::{
    first, lemma_ordered_members, lemma_ordered_sorted, limited, ordered, places_where, rows_at, weak_order,
};
use crate::store::StoreView;
use crate::sweeps::{folded, taken};
use crate::table::{amended, amended_at, any, count, lemma_count_filter};
use crate::text::{lemma_lex_irreflexive, lemma_lex_total, lemma_lex_transitive, lex_lt};

verus! {

/// A sorted read has every row that passes the filter once and no other. No row
/// comes before one that sorts before it, and rows that sort alike come in the
/// order of the table.
pub proof fn law_sorted_read<V>(rows: Seq<V>, p: spec_fn(V) -> bool, lt: spec_fn(V, V) -> bool)
    requires
        forall|a: V, b: V| #[trigger] lt(a, b) ==> !lt(b, a),
        forall|a: V, b: V, c: V| #[trigger] lt(a, c) ==> #[trigger] lt(a, b) || lt(b, c),
    ensures
        ({
            let q = ordered(rows, p, lt, rows.len() as int);
            &&& q.no_duplicates()
            &&& forall|i: int| #[trigger] q.contains(i) <==> 0 <= i < rows.len() && p(rows[i])
            &&& forall|a: int, b: int|
                0 <= a < b < q.len() ==> !lt(rows[#[trigger] q[b]], rows[#[trigger] q[a]]) && (lt(
                    rows[q[a]],
                    rows[q[b]],
                ) || q[a] < q[b])
        }),
{
    assert(weak_order(lt));
    lemma_ordered_members(rows, p, lt, rows.len() as int);
    lemma_ordered_sorted(rows, p, lt, rows.len() as int);
}

/// A read that does not sort has the rows that pass the filter in the order of
/// the table.
pub proof fn law_plain_read<V>(rows: Seq<V>, p: spec_fn(V) -> bool)
    ensures
        ({
            let q = places_where(rows, p);
            &&& forall|i: int| #[trigger] q.contains(i) <==> 0 <= i < rows.len() && p(rows[i])
            &&& forall|a: int, b: int| 0 <= a < b < q.len() ==> #[trigger] q[a] < #[trigger] q[b]
        }),
{
    law_sorted_read(rows, p, |a: V, b: V| false);
}

/// A limit keeps the first entries of a list, as many as it says; a negative one
/// keeps all.
pub proof fn law_limit_keeps_the_first<A>(s: Seq<A>, limit: int)
    ensures
        limit < 0 ==> limited(s, limit) == s,
        0 <= limit ==> limited(s, limit).len() == (if limit < s.len() { limit } else { s.len() as int }),
        forall|k: int| 0 <= k < limited(s, limit).len() ==> #[trigger] limited(s, limit)[k] == s[k],
{
}

/// A read by places has the row of each place.
pub proof fn law_rows_of_places<V>(rows: Seq<V>, q: Seq<int>)
    ensures
        rows_at(rows, q).len() == q.len(),
        forall|k: int| 0 <= k < q.len() ==> #[trigger] rows_at(rows, q)[k] == rows[q[k]],
{
}

/// The first row that passes a filter is one that no other comes before.
pub proof fn law_first_row<V>(rows: Seq<V>, p: spec_fn(V) -> bool, k: int)
    requires
        0 <= k <= rows.len(),
        forall|j: int| 0 <= j < k ==> !p(#[trigger] rows[j]),
        k < rows.len() ==> p(rows[k]),
    ensures
        first(rows, p) == (if k < rows.len() { Some(rows[k]) } else { None }),
    decreases rows.len(),
{
    if rows.len() > 0 {
        let rest = rows.drop_last();
        assert forall|j: int| 0 <= j < k && j < rest.len() implies !p(#[trigger] rest[j]) by {
            assert(rest[j] == rows[j]);
        }
        if k < rest.len() {
            assert(rest[k] == rows[k]);
            law_first_row(rest, p, k);
        } else {
            law_first_row(rest, p, rest.len() as int);
            if k == rows.len() {
                assert(!p(rows[rows.len() - 1]));
            }
        }
    }
}

/// To count rows is to count those that a filter keeps.
pub proof fn law_count_of_rows<V>(rows: Seq<V>, p: spec_fn(V) -> bool)
    ensures
        count(rows, p) == rows.filter(p).len(),
        any(rows, p) <==> exists|k: int| 0 <= k < rows.len() && p(#[trigger] rows[k]),
{
    lemma_count_filter(rows, p);
}

/// An amendment changes the rows that it is for, and no other; none comes or goes.
pub proof fn law_amended_rows<V>(rows: Seq<V>, p: spec_fn(V) -> bool, f: spec_fn(V) -> V, q: Seq<int>)
    ensures
        amended(rows, p, f).len() == rows.len(),
        forall|k: int|
            0 <= k < rows.len() ==> #[trigger] amended(rows, p, f)[k] == (if p(rows[k]) {
                f(rows[k])
            } else {
                rows[k]
            }),
        amended_at(rows, q, f).len() == rows.len(),
        forall|k: int|
            0 <= k < rows.len() ==> #[trigger] amended_at(rows, q, f)[k] == (if q.contains(k) {
                f(rows[k])
            } else {
                rows[k]
            }),
{
}

/// A sweep goes through its items in order: what the last one finds is what
/// those before it left, and it is reported where it took effect.
pub proof fn law_sweep_goes_in_order<A>(
    db: StoreView,
    items: Seq<A>,
    a: A,
    step: spec_fn(StoreView, A) -> StoreView,
    takes: spec_fn(StoreView, A) -> bool,
)
    ensures
        folded(db, Seq::<A>::empty(), step) == db,
        taken(db, Seq::<A>::empty(), step, takes) == Seq::<A>::empty(),
        folded(db, items.push(a), step) == step(folded(db, items, step), a),
        taken(db, items.push(a), step, takes) == (if takes(folded(db, items, step), a) {
            taken(db, items, step, takes).push(a)
        } else {
            taken(db, items, step, takes)
        }),
{
    assert(items.push(a).drop_last() =~= items);
}

/// Texts put rows in an order.
pub proof fn lemma_text_order<V>(key: spec_fn(V) -> Seq<char>, lt: spec_fn(V, V) -> bool)
    requires
        forall|a: V, b: V| #[trigger] lt(a, b) == lex_lt(key(a), key(b)),
    ensures
        weak_order(lt),
{
    assert forall|a: V, b: V| #[trigger] lt(a, b) implies !lt(b, a) by {
        if lt(b, a) {
            lemma_lex_transitive(key(a), key(b), key(a));
            lemma_lex_irreflexive(key(a));
        }
    }
    assert forall|a: V, b: V, c: V| #[trigger] lt(a, c) implies #[trigger] lt(a, b) || lt(b, c) by {
        lemma_lex_total(key(a), key(b));
        if lt(b, a) {
            lemma_lex_transitive(key(b), key(a), key(c));
        }
    }
}

} // verus!
