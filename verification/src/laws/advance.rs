//! Advancing: what becomes of a task goes by its own run alone, by how its
//! dependencies ended and by what they printed.
use vstd::prelude::*;
use crate::advance::{
    advanced, advanced_one, candidates, filled, outcomes, output_bindings, output_from, output_key,
    pending_row, statuses_of, unblocked, verdict, Verdict,
};
use crate::expand::{
    condition, output_ref, output_refs, output_refs_from, placeholder, placeholder_name, substituted_from,
};
use crate::laws::conditions::{
    lacks, law_first_placeholder_comes_first, law_output_references, law_placeholders_are_filled,
    lemma_output_ref, lemma_placeholder_bounds,
};
use crate::laws::words::first_stands;
use crate::models::{all_are, TaskStatus};
use crate::order::{lemma_ordered_members, lemma_ordered_sorted, ordered, weak_order};
use crate::rows::{EdgeView, TaskRunView};
use crate::store::StoreView;
use crate::table::lemma_count_filter;
use crate::text::{lemma_lex_irreflexive, lemma_lex_total, lemma_lex_transitive, lex_lt, trimmed};

verus! {

// ── Its own run ──────────────────────────────────────────────────────────────

proof fn lemma_filter_first<A>(s: Seq<A>, p: spec_fn(A) -> bool)
    requires
        s.len() > 0,
    ensures
        s.filter(p) == (if p(s[0]) {
            seq![s[0]] + s.drop_first().filter(p)
        } else {
            s.drop_first().filter(p)
        }),
    decreases s.len(),
{
    reveal(Seq::filter);
    if s.len() == 1 {
        assert(s.drop_last() =~= Seq::<A>::empty());
        assert(s.drop_first() =~= Seq::<A>::empty());
        assert(Seq::<A>::empty().filter(p) =~= Seq::<A>::empty());
        assert(s.filter(p) =~= (if p(s[0]) {
            seq![s[0]] + s.drop_first().filter(p)
        } else {
            s.drop_first().filter(p)
        }));
    } else {
        lemma_filter_first(s.drop_last(), p);
        assert(s.drop_last().drop_first() =~= s.drop_first().drop_last());
        assert(s.drop_first().last() == s.last());
        let mid = s.drop_last().drop_first().filter(p);
        if p(s[0]) && p(s.last()) {
            assert((seq![s[0]] + mid).push(s.last()) =~= seq![s[0]] + mid.push(s.last()));
        }
    }
}

proof fn lemma_filter_within<A>(s: Seq<A>, p: spec_fn(A) -> bool, q: spec_fn(A) -> bool)
    requires
        forall|i: int| 0 <= i < s.len() && q(#[trigger] s[i]) ==> p(s[i]),
    ensures
        s.filter(p).filter(q) == s.filter(q),
    decreases s.len(),
{
    reveal(Seq::filter);
    if s.len() > 0 {
        let rest = s.drop_last();
        assert forall|i: int| 0 <= i < rest.len() && q(#[trigger] rest[i]) implies p(rest[i]) by {
            assert(rest[i] == s[i]);
        }
        lemma_filter_within(rest, p, q);
        assert(s[s.len() - 1] == s.last());
        if p(s.last()) {
            assert(rest.filter(p).push(s.last()).drop_last() =~= rest.filter(p));
        }
    }
}

proof fn lemma_output_skip(tasks: Seq<TaskRunView>, run_id: Seq<char>, name: Seq<char>, i: int)
    requires
        0 <= i <= tasks.len(),
    ensures
        output_from(tasks, run_id, name, i) == output_from(tasks.skip(i), run_id, name, 0),
    decreases tasks.len() - i,
{
    let t = tasks.skip(i);
    if i < tasks.len() {
        lemma_output_skip(tasks, run_id, name, i + 1);
        lemma_output_skip(t, run_id, name, 1);
        assert(t.skip(1) =~= tasks.skip(i + 1));
    }
}

proof fn lemma_output_of_run(tasks: Seq<TaskRunView>, run_id: Seq<char>, name: Seq<char>)
    ensures
        output_from(tasks, run_id, name, 0) == output_from(
            tasks.filter(|t: TaskRunView| t.run_id == run_id),
            run_id,
            name,
            0,
        ),
    decreases tasks.len(),
{
    let p = |t: TaskRunView| t.run_id == run_id;
    if tasks.len() > 0 {
        let rest = tasks.drop_first();
        lemma_filter_first(tasks, p);
        lemma_output_of_run(rest, run_id, name);
        lemma_output_skip(tasks, run_id, name, 1);
        assert(tasks.skip(1) =~= rest);
        if p(tasks[0]) {
            let own = tasks.filter(p);
            lemma_output_skip(own, run_id, name, 1);
            assert(own.skip(1) =~= rest.filter(p));
        }
    } else {
        reveal(Seq::filter);
    }
}

proof fn lemma_bindings_of_run(
    a: Seq<TaskRunView>,
    b: Seq<TaskRunView>,
    run_id: Seq<char>,
    refs: Seq<Seq<char>>,
    n: int,
)
    requires
        a.filter(|t: TaskRunView| t.run_id == run_id) == b.filter(|t: TaskRunView| t.run_id == run_id),
    ensures
        output_bindings(a, run_id, refs, n) == output_bindings(b, run_id, refs, n),
    decreases n,
{
    if n > 0 {
        lemma_bindings_of_run(a, b, run_id, refs, n - 1);
        lemma_output_of_run(a, run_id, refs[n - 1]);
        lemma_output_of_run(b, run_id, refs[n - 1]);
    }
}

proof fn lemma_outcomes_of_edges(tasks: Seq<TaskRunView>, edges: Seq<EdgeView>, id: Seq<char>, n: int)
    requires
        0 <= n <= edges.len(),
    ensures
        ({
            let own = edges.take(n).filter(|e: EdgeView| e.dependent_id == id);
            outcomes(tasks, edges, id, n) == outcomes(tasks, own, id, own.len() as int)
        }),
    decreases n,
{
    let p = |e: EdgeView| e.dependent_id == id;
    reveal(Seq::filter);
    if n > 0 {
        lemma_outcomes_of_edges(tasks, edges, id, n - 1);
        assert(edges.take(n).drop_last() =~= edges.take(n - 1));
        let before = edges.take(n - 1).filter(p);
        let own = edges.take(n).filter(p);
        if p(edges[n - 1]) {
            assert(own =~= before.push(edges[n - 1]));
            lemma_outcomes_prefix(tasks, before, own, id, before.len() as int);
        } else {
            assert(outcomes(tasks, edges, id, n - 1) + Seq::<TaskStatus>::empty() =~= outcomes(
                tasks,
                edges,
                id,
                n - 1,
            ));
        }
    }
}

proof fn lemma_outcomes_prefix(
    tasks: Seq<TaskRunView>,
    a: Seq<EdgeView>,
    b: Seq<EdgeView>,
    id: Seq<char>,
    n: int,
)
    requires
        0 <= n <= a.len(),
        n <= b.len(),
        forall|k: int| 0 <= k < n ==> #[trigger] a[k] == b[k],
    ensures
        outcomes(tasks, a, id, n) == outcomes(tasks, b, id, n),
    decreases n,
{
    if n > 0 {
        lemma_outcomes_prefix(tasks, a, b, id, n - 1);
        assert(a[n - 1] == b[n - 1]);
    }
}

/// The edges into `c` come from rows of its own run.
pub open spec fn edges_stay_home(db: StoreView, c: TaskRunView) -> bool {
    forall|e: int, j: int|
        0 <= e < db.edges.len() && 0 <= j < db.tasks.len() && (#[trigger] db.edges[e]).dependent_id == c.id
            && (#[trigger] db.tasks[j]).id == db.edges[e].dependency_id ==> db.tasks[j].run_id == c.run_id
}

proof fn lemma_outcomes_of_run(
    a: Seq<TaskRunView>,
    b: Seq<TaskRunView>,
    edges: Seq<EdgeView>,
    run_id: Seq<char>,
    id: Seq<char>,
    n: int,
)
    requires
        a.filter(|t: TaskRunView| t.run_id == run_id) == b.filter(|t: TaskRunView| t.run_id == run_id),
        0 <= n <= edges.len(),
        forall|e: int, j: int|
            0 <= e < edges.len() && 0 <= j < a.len() && (#[trigger] edges[e]).dependent_id == id && (
            #[trigger] a[j]).id == edges[e].dependency_id ==> a[j].run_id == run_id,
        forall|e: int, j: int|
            0 <= e < edges.len() && 0 <= j < b.len() && (#[trigger] edges[e]).dependent_id == id && (
            #[trigger] b[j]).id == edges[e].dependency_id ==> b[j].run_id == run_id,
    ensures
        outcomes(a, edges, id, n) == outcomes(b, edges, id, n),
    decreases n,
{
    if n > 0 {
        lemma_outcomes_of_run(a, b, edges, run_id, id, n - 1);
        let e = edges[n - 1];
        if e.dependent_id == id {
            let p = |t: TaskRunView| t.run_id == run_id;
            let q = |t: TaskRunView| t.id == e.dependency_id;
            lemma_filter_within(a, p, q);
            lemma_filter_within(b, p, q);
        }
    }
}

/// What becomes of a task depends on its own run alone: two stores that hold the
/// same rows of its run, and the same edges into it, come to the same verdict,
/// whatever other runs they hold.
pub proof fn law_verdict_is_the_runs_own(a: StoreView, b: StoreView, c: TaskRunView)
    requires
        a.tasks.filter(|t: TaskRunView| t.run_id == c.run_id) == b.tasks.filter(
            |t: TaskRunView| t.run_id == c.run_id,
        ),
        a.edges.filter(|e: EdgeView| e.dependent_id == c.id) == b.edges.filter(
            |e: EdgeView| e.dependent_id == c.id,
        ),
        edges_stay_home(a, c),
        edges_stay_home(b, c),
    ensures
        verdict(a, c) == verdict(b, c),
{
    match c.when {
        Some(cond) => {
            lemma_bindings_of_run(
                a.tasks,
                b.tasks,
                c.run_id,
                output_refs(cond),
                output_refs(cond).len() as int,
            );
        },
        None => {},
    }
    let p = |e: EdgeView| e.dependent_id == c.id;
    let (n, m) = (a.edges.len() as int, b.edges.len() as int);
    assert(a.edges.take(n) =~= a.edges);
    assert(b.edges.take(m) =~= b.edges);
    lemma_outcomes_of_edges(a.tasks, a.edges, c.id, n);
    lemma_outcomes_of_edges(b.tasks, b.edges, c.id, m);
    let own = a.edges.filter(p);
    assert forall|e: int, j: int|
        0 <= e < own.len() && 0 <= j < a.tasks.len() && (#[trigger] own[e]).dependent_id == c.id && (
        #[trigger] a.tasks[j]).id == own[e].dependency_id implies a.tasks[j].run_id == c.run_id by {
        lemma_filter_from(a.edges, p, e);
        let k = choose|k: int| 0 <= k < a.edges.len() && a.edges[k] == own[e];
        assert(a.edges[k].dependent_id == c.id && a.tasks[j].id == a.edges[k].dependency_id);
    }
    assert forall|e: int, j: int|
        0 <= e < own.len() && 0 <= j < b.tasks.len() && (#[trigger] own[e]).dependent_id == c.id && (
        #[trigger] b.tasks[j]).id == own[e].dependency_id implies b.tasks[j].run_id == c.run_id by {
        lemma_filter_from(b.edges, p, e);
        let k = choose|k: int| 0 <= k < b.edges.len() && b.edges[k] == own[e];
        assert(b.edges[k].dependent_id == c.id && b.tasks[j].id == b.edges[k].dependency_id);
    }
    lemma_outcomes_of_run(a.tasks, b.tasks, own, c.run_id, c.id, own.len() as int);
}

/// What a filter keeps comes from the list.
pub proof fn lemma_filter_from<A>(s: Seq<A>, p: spec_fn(A) -> bool, e: int)
    requires
        0 <= e < s.filter(p).len(),
    ensures
        p(s.filter(p)[e]),
        exists|k: int| 0 <= k < s.len() && s[k] == s.filter(p)[e],
    decreases s.len(),
{
    reveal(Seq::filter);
    if s.len() > 0 {
        let rest = s.drop_last();
        if e < rest.filter(p).len() {
            lemma_filter_from(rest, p, e);
            let k = choose|k: int| 0 <= k < rest.len() && rest[k] == rest.filter(p)[e];
            assert(s[k] == s.filter(p)[e]);
        } else {
            assert(s[s.len() - 1] == s.filter(p)[e]);
        }
    }
}

// ── What it reads ────────────────────────────────────────────────────────────

proof fn lemma_only_output(tasks: Seq<TaskRunView>, run_id: Seq<char>, name: Seq<char>, i: int, from: int)
    requires
        0 <= from <= i < tasks.len(),
        tasks[i].run_id == run_id && tasks[i].name == name,
        forall|k: int|
            0 <= k < tasks.len() && (#[trigger] tasks[k]).run_id == run_id && tasks[k].name == name ==> k == i,
    ensures
        output_from(tasks, run_id, name, from) == (match tasks[i].output {
            Some(o) => o,
            None => Seq::empty(),
        }),
    decreases i - from,
{
    if from < i {
        lemma_only_output(tasks, run_id, name, i, from + 1);
    }
}

proof fn lemma_no_output(tasks: Seq<TaskRunView>, run_id: Seq<char>, name: Seq<char>, from: int)
    requires
        0 <= from <= tasks.len(),
        forall|k: int|
            0 <= k < tasks.len() ==> !((#[trigger] tasks[k]).run_id == run_id && tasks[k].name == name),
    ensures
        output_from(tasks, run_id, name, from) == Seq::<char>::empty(),
    decreases tasks.len() - from,
{
    if from < tasks.len() {
        lemma_no_output(tasks, run_id, name, from + 1);
    }
}

proof fn lemma_filled(
    tasks: Seq<TaskRunView>,
    run_id: Seq<char>,
    pre: Seq<char>,
    mid: Seq<char>,
    post: Seq<char>,
    name: Seq<char>,
)
    requires
        lacks(pre, '{'),
        lacks(mid, '}'),
        lacks(post, '{'),
        trimmed(mid) == "tasks."@ + name + ".output"@,
    ensures
        filled(tasks, run_id, pre + "{{"@ + mid + "}}"@ + post) == pre + trimmed(
            output_from(tasks, run_id, name, 0),
        ) + post,
{
    let s = pre + "{{"@ + mid + "}}"@ + post;
    law_output_references(pre, mid, post, name);
    law_output_references(post, mid, post, name);
    assert(output_refs(s) =~= seq![name]);
    let ctx = output_bindings(tasks, run_id, output_refs(s), 1);
    assert(output_bindings(tasks, run_id, output_refs(s), 0) =~= Map::<Seq<char>, Seq<char>>::empty());
    assert(output_key(name) == trimmed(mid));
    assert(ctx.contains_key(trimmed(mid)));
    law_placeholders_are_filled(pre, mid, post, ctx);
    law_placeholders_are_filled(post, mid, post, ctx);
}

/// A condition reads the outputs of its own run: where one row of the run has
/// the name that it refers to, that row's trimmed output takes the placeholder's
/// place; where none has, nothing does.
pub proof fn law_condition_reads_its_own_run(
    tasks: Seq<TaskRunView>,
    run_id: Seq<char>,
    pre: Seq<char>,
    mid: Seq<char>,
    post: Seq<char>,
    name: Seq<char>,
)
    requires
        lacks(pre, '{'),
        lacks(mid, '}'),
        lacks(post, '{'),
        trimmed(mid) == "tasks."@ + name + ".output"@,
    ensures
        forall|i: int|
            0 <= i < tasks.len() && (#[trigger] tasks[i]).run_id == run_id && tasks[i].name == name && (forall|
                k: int,
            |
                0 <= k < tasks.len() && (#[trigger] tasks[k]).run_id == run_id && tasks[k].name == name
                    ==> k == i) ==> filled(tasks, run_id, pre + "{{"@ + mid + "}}"@ + post) == pre + trimmed(
                match tasks[i].output {
                    Some(o) => o,
                    None => Seq::empty(),
                },
            ) + post,
        (forall|k: int|
            0 <= k < tasks.len() ==> !((#[trigger] tasks[k]).run_id == run_id && tasks[k].name == name))
            ==> filled(tasks, run_id, pre + "{{"@ + mid + "}}"@ + post) == pre + post,
{
    lemma_filled(tasks, run_id, pre, mid, post, name);
    assert forall|i: int|
        0 <= i < tasks.len() && (#[trigger] tasks[i]).run_id == run_id && tasks[i].name == name && (forall|
            k: int,
        |
            0 <= k < tasks.len() && (#[trigger] tasks[k]).run_id == run_id && tasks[k].name == name ==> k
                == i) implies filled(tasks, run_id, pre + "{{"@ + mid + "}}"@ + post) == pre + trimmed(
        match tasks[i].output {
            Some(o) => o,
            None => Seq::empty(),
        },
    ) + post by {
        lemma_only_output(tasks, run_id, name, i, 0);
    }
    if forall|k: int|
        0 <= k < tasks.len() ==> !((#[trigger] tasks[k]).run_id == run_id && tasks[k].name == name) {
        lemma_no_output(tasks, run_id, name, 0);
        assert(trimmed(Seq::<char>::empty()) =~= Seq::<char>::empty());
        assert(pre + Seq::<char>::empty() + post =~= pre + post);
    }
}

/// The bindings are those of the references: each reads the output of the row it
/// names, and nothing else is bound.
spec fn binds(
    ctx: Map<Seq<char>, Seq<char>>,
    tasks: Seq<TaskRunView>,
    run_id: Seq<char>,
    refs: Seq<Seq<char>>,
    n: int,
) -> bool {
    &&& forall|k: int|
        0 <= k < n ==> ctx.contains_key(output_key(#[trigger] refs[k])) && ctx[output_key(refs[k])] == trimmed(
            output_from(tasks, run_id, refs[k], 0),
        )
    &&& forall|name: Seq<char>| #[trigger] ctx.contains_key(name) ==> output_ref(name) is Some
}

proof fn lemma_binds(tasks: Seq<TaskRunView>, run_id: Seq<char>, refs: Seq<Seq<char>>, n: int)
    requires
        0 <= n <= refs.len(),
    ensures
        binds(output_bindings(tasks, run_id, refs, n), tasks, run_id, refs, n),
    decreases n,
{
    if n > 0 {
        lemma_binds(tasks, run_id, refs, n - 1);
        let rest = output_bindings(tasks, run_id, refs, n - 1);
        let ctx = output_bindings(tasks, run_id, refs, n);
        let last = refs[n - 1];
        assert forall|k: int| 0 <= k < n implies ctx.contains_key(output_key(#[trigger] refs[k]))
            && ctx[output_key(refs[k])] == trimmed(output_from(tasks, run_id, refs[k], 0)) by {
            lemma_output_ref(output_key(refs[k]), refs[k]);
            lemma_output_ref(output_key(last), last);
        }
        assert forall|name: Seq<char>| #[trigger] ctx.contains_key(name) implies output_ref(name) is Some by {
            lemma_output_ref(output_key(last), last);
            if name != output_key(last) {
                assert(rest.contains_key(name));
            }
        }
    }
}

/// What the references of a text say decides what it becomes.
proof fn lemma_same_bindings(
    s: Seq<char>,
    from: int,
    a: Map<Seq<char>, Seq<char>>,
    b: Map<Seq<char>, Seq<char>>,
)
    requires
        0 <= from <= s.len(),
        forall|r: Seq<char>| #[trigger]
            output_refs_from(s, from).contains(r) ==> a.contains_key(output_key(r)) && b.contains_key(
                output_key(r),
            ) && a[output_key(r)] == b[output_key(r)],
        forall|name: Seq<char>| #[trigger] a.contains_key(name) ==> output_ref(name) is Some,
        forall|name: Seq<char>| #[trigger] b.contains_key(name) ==> output_ref(name) is Some,
    ensures
        substituted_from(s, from, a) == substituted_from(s, from, b),
    decreases s.len() - from,
{
    lemma_placeholder_bounds(s, from);
    match placeholder(s, from) {
        Some((open, close)) => {
            let name = placeholder_name(s, open, close);
            let more = output_refs_from(s, close + 2);
            let all = output_refs_from(s, from);
            match output_ref(name) {
                Some(r) => {
                    lemma_output_ref(name, r);
                    assert(all == seq![r] + more);
                    assert(all[0] == r);
                    assert(all.contains(r));
                    assert forall|x: Seq<char>| #[trigger] more.contains(x) implies all.contains(x) by {
                        let k = choose|k: int| 0 <= k < more.len() && more[k] == x;
                        assert(all[k + 1] == x);
                    }
                },
                None => {
                    assert(all =~= more);
                    assert(!a.contains_key(name) && !b.contains_key(name));
                },
            }
            lemma_same_bindings(s, close + 2, a, b);
        },
        None => {},
    }
}

/// A condition is filled from left to right, and each of its references by
/// itself: the first placeholder takes the trimmed output of the one row of the
/// run that it names, or nothing where the run has none; one that names no
/// output stays. What follows is filled as a condition of its own.
pub proof fn law_condition_fills_each_reference(
    tasks: Seq<TaskRunView>,
    run_id: Seq<char>,
    s: Seq<char>,
    open: int,
    close: int,
    name: Seq<char>,
    i: int,
)
    requires
        first_stands(s, "{{"@, open),
        first_stands(s.skip(open + 2), "}}"@, close),
    ensures
        ({
            let mid = s.skip(open + 2).take(close);
            let rest = s.skip(open + 2).skip(close + 2);
            let mine = |t: TaskRunView| t.run_id == run_id && t.name == name;
            let names = trimmed(mid) == "tasks."@ + name + ".output"@;
            let got = filled(tasks, run_id, s);
            &&& names && 0 <= i < tasks.len() && mine(tasks[i]) && (forall|k: int|
                0 <= k < tasks.len() && mine(#[trigger] tasks[k]) ==> k == i) ==> got == s.take(open) + trimmed(
                match tasks[i].output {
                    Some(o) => o,
                    None => Seq::empty(),
                },
            ) + filled(tasks, run_id, rest)
            &&& names && (forall|k: int| 0 <= k < tasks.len() ==> !mine(#[trigger] tasks[k])) ==> got == s.take(
                open,
            ) + filled(tasks, run_id, rest)
            &&& (forall|n: Seq<char>| trimmed(mid) != #[trigger] ("tasks."@ + n + ".output"@)) ==> got == s.take(
                open,
            ) + ("{{"@ + mid + "}}"@) + filled(tasks, run_id, rest)
        }),
{
    let tail = s.skip(open + 2);
    let mid = tail.take(close);
    let rest = tail.skip(close + 2);
    let key = trimmed(mid);
    let refs = output_refs(s);
    let more = output_refs(rest);
    let ctx = output_bindings(tasks, run_id, refs, refs.len() as int);
    let after = output_bindings(tasks, run_id, more, more.len() as int);
    lemma_binds(tasks, run_id, refs, refs.len() as int);
    lemma_binds(tasks, run_id, more, more.len() as int);
    let mine = |t: TaskRunView| t.run_id == run_id && t.name == name;
    lemma_output_ref(key, name);
    match output_ref(key) {
        Some(r) => {
            law_first_placeholder_comes_first(s, open, close, ctx, r);
            lemma_output_ref(key, r);
            assert(refs == seq![r] + more);
            assert(refs[0] == r);
            assert(ctx.contains_key(output_key(refs[0])));
            assert forall|k: int| 0 <= k < more.len() implies refs.contains(#[trigger] more[k]) by {
                assert(refs[k + 1] == more[k]);
            }
        },
        None => {
            assert forall|n: Seq<char>| key != #[trigger] ("tasks."@ + n + ".output"@) by {
                lemma_output_ref(key, n);
            }
            law_first_placeholder_comes_first(s, open, close, ctx, name);
            assert(refs == more);
            assert(!ctx.contains_key(key));
            assert forall|k: int| 0 <= k < more.len() implies refs.contains(#[trigger] more[k]) by {
                assert(refs[k] == more[k]);
            }
        },
    }
    assert forall|r: Seq<char>| #[trigger] output_refs_from(rest, 0).contains(r) implies ctx.contains_key(
        output_key(r),
    ) && after.contains_key(output_key(r)) && ctx[output_key(r)] == after[output_key(r)] by {
        let k = choose|k: int| 0 <= k < more.len() && more[k] == r;
        assert(refs.contains(more[k]));
        let j = choose|j: int| 0 <= j < refs.len() && refs[j] == r;
        assert(ctx.contains_key(output_key(refs[j])));
        assert(after.contains_key(output_key(more[k])));
    }
    lemma_same_bindings(rest, 0, ctx, after);
    if key == "tasks."@ + name + ".output"@ {
        if 0 <= i < tasks.len() && mine(tasks[i]) && (forall|k: int|
            0 <= k < tasks.len() && mine(#[trigger] tasks[k]) ==> k == i) {
            assert forall|k: int|
                0 <= k < tasks.len() && (#[trigger] tasks[k]).run_id == run_id && tasks[k].name == name implies k
                == i by {
                assert(mine(tasks[k]));
            }
            lemma_only_output(tasks, run_id, name, i, 0);
        }
        if forall|k: int| 0 <= k < tasks.len() ==> !mine(#[trigger] tasks[k]) {
            assert forall|k: int| 0 <= k < tasks.len() implies !((#[trigger] tasks[k]).run_id == run_id
                && tasks[k].name == name) by {
                assert(!mine(tasks[k]));
            }
            lemma_no_output(tasks, run_id, name, 0);
            assert(trimmed(Seq::<char>::empty()) =~= Seq::<char>::empty());
            assert(s.take(open) + Seq::<char>::empty() =~= s.take(open));
        }
    }
}

/// A verdict has no effect where no pending row is left to have it on.
pub proof fn law_verdict_needs_a_pending_row(db: StoreView, c: TaskRunView, now: Seq<char>)
    requires
        forall|k: int|
            0 <= k < db.tasks.len() && (#[trigger] db.tasks[k]).id == c.id ==> db.tasks[k].status
                != TaskStatus::Pending,
    ensures
        advanced_one(db, c, now) == db,
{
    let hits = |t: TaskRunView| pending_row(t, c.id);
    assert forall|k: int| 0 <= k < db.tasks.len() implies !hits(#[trigger] db.tasks[k]) by {}
    assert(advanced_one(db, c, now).tasks =~= db.tasks);
}

/// A condition gates its task: where it holds, the task goes by its trigger rule
/// as one without a condition does; where it does not, the task is skipped; and
/// where it cannot be told, the task fails and says so.
pub proof fn law_condition_gates_its_task(db: StoreView, c: TaskRunView, cond: Seq<char>)
    requires
        c.when == Some(cond),
    ensures
        match condition(filled(db.tasks, c.run_id, cond)) {
            Some(true) => verdict(db, c) == verdict(db, TaskRunView { when: None, ..c }),
            Some(false) => verdict(db, c) is Skip,
            None => verdict(db, c) == Verdict::Fail(
                "runtime when '"@ + cond + "' failed to evaluate: "@ + ("cannot compare the operands of '"@
                    + trimmed(filled(db.tasks, c.run_id, cond)) + "' as numbers"@),
            ),
        },
{
    match verdict(db, c) {
        Verdict::Fail(m) => {
            let head = "runtime when '"@ + cond + "' failed to evaluate: "@;
            assert(m.subrange(0, head.len() as int) =~= head);
        },
        _ => {},
    }
}

// ── How its dependencies ended ───────────────────────────────────────────────

/// Row `j` is a dependency of the task `id`.
pub open spec fn depends(db: StoreView, id: Seq<char>, j: int) -> bool {
    exists|e: int|
        0 <= e < db.edges.len() && (#[trigger] db.edges[e]).dependent_id == id && db.edges[e].dependency_id
            == db.tasks[j].id
}

proof fn lemma_outcomes_hold(tasks: Seq<TaskRunView>, edges: Seq<EdgeView>, id: Seq<char>, n: int, s: TaskStatus)
    requires
        0 <= n <= edges.len(),
    ensures
        outcomes(tasks, edges, id, n).contains(s) <==> exists|e: int, j: int|
            0 <= e < n && 0 <= j < tasks.len() && (#[trigger] edges[e]).dependent_id == id && (
            #[trigger] tasks[j]).id == edges[e].dependency_id && tasks[j].status == s,
    decreases n,
{
    if n > 0 {
        lemma_outcomes_hold(tasks, edges, id, n - 1, s);
        let before = outcomes(tasks, edges, id, n - 1);
        let out = outcomes(tasks, edges, id, n);
        let dep = edges[n - 1].dependency_id;
        if edges[n - 1].dependent_id == id {
            let own = statuses_of(tasks, dep);
            lemma_statuses_hold(tasks, dep, s);
            assert(out =~= before + own);
            if out.contains(s) {
                let k = choose|k: int| 0 <= k < out.len() && out[k] == s;
                if k < before.len() {
                    assert(before[k] == s);
                    assert(before.contains(s));
                } else {
                    assert(own[k - before.len()] == s);
                    assert(own.contains(s));
                    let j = choose|j: int|
                        0 <= j < tasks.len() && (#[trigger] tasks[j]).id == dep && tasks[j].status == s;
                    assert(edges[n - 1].dependent_id == id && tasks[j].id == edges[n - 1].dependency_id);
                }
            }
            if exists|e: int, j: int|
                0 <= e < n && 0 <= j < tasks.len() && (#[trigger] edges[e]).dependent_id == id && (
                #[trigger] tasks[j]).id == edges[e].dependency_id && tasks[j].status == s {
                let (e, j) = choose|e: int, j: int|
                    0 <= e < n && 0 <= j < tasks.len() && (#[trigger] edges[e]).dependent_id == id && (
                    #[trigger] tasks[j]).id == edges[e].dependency_id && tasks[j].status == s;
                if e < n - 1 {
                    assert(before.contains(s));
                    let k = choose|k: int| 0 <= k < before.len() && before[k] == s;
                    assert(out[k] == s);
                } else {
                    assert(own.contains(s));
                    let k = choose|k: int| 0 <= k < own.len() && own[k] == s;
                    assert(out[before.len() + k] == s);
                }
            }
        } else {
            assert(out =~= before);
        }
    }
}

proof fn lemma_statuses_hold(tasks: Seq<TaskRunView>, id: Seq<char>, s: TaskStatus)
    ensures
        statuses_of(tasks, id).contains(s) <==> exists|j: int|
            0 <= j < tasks.len() && (#[trigger] tasks[j]).id == id && tasks[j].status == s,
{
    broadcast use vstd::seq_lib::group_filter_ensures;

    let p = |t: TaskRunView| t.id == id;
    let kept = tasks.filter(p);
    let out = statuses_of(tasks, id);
    if out.contains(s) {
        let k = choose|k: int| 0 <= k < out.len() && out[k] == s;
        lemma_filter_from(tasks, p, k);
        let j = choose|j: int| 0 <= j < tasks.len() && tasks[j] == kept[k];
        assert(tasks[j].id == id);
    }
    if exists|j: int| 0 <= j < tasks.len() && (#[trigger] tasks[j]).id == id && tasks[j].status == s {
        let j = choose|j: int| 0 <= j < tasks.len() && (#[trigger] tasks[j]).id == id && tasks[j].status == s;
        assert(p(tasks[j]));
        assert(kept.contains(tasks[j]));
        let k = choose|k: int| 0 <= k < kept.len() && kept[k] == tasks[j];
        assert(out[k] == s);
    }
}

/// The task runs: it becomes ready, or awaits its approval.
pub open spec fn goes_ahead(v: Verdict) -> bool {
    v is Ready || v is AwaitApproval
}

/// A task without a condition goes by its trigger rule and how its dependencies
/// ended: with `all_done` it runs in any case, with `one_failed` where one of
/// them failed, with `all_failed` where none ended otherwise, with `none_failed`
/// where none failed, and by default where all of them succeeded. Otherwise it
/// is skipped. A gate awaits approval, everything else becomes ready.
pub proof fn law_task_goes_by_its_trigger_rule(db: StoreView, c: TaskRunView)
    requires
        c.when is None,
    ensures
        ({
            let v = verdict(db, c);
            let one_failed = exists|j: int|
                0 <= j < db.tasks.len() && #[trigger] depends(db, c.id, j) && db.tasks[j].status
                    == TaskStatus::Failed;
            let all_failed = forall|j: int|
                0 <= j < db.tasks.len() && #[trigger] depends(db, c.id, j) ==> db.tasks[j].status
                    == TaskStatus::Failed;
            let all_succeeded = forall|j: int|
                0 <= j < db.tasks.len() && #[trigger] depends(db, c.id, j) ==> db.tasks[j].status
                    == TaskStatus::Succeeded;
            &&& goes_ahead(v) || v is Skip
            &&& goes_ahead(v) ==> (v is AwaitApproval <==> c.is_approval)
            &&& c.trigger_rule == "all_done"@ ==> goes_ahead(v)
            &&& c.trigger_rule == "one_failed"@ ==> (goes_ahead(v) <==> one_failed)
            &&& c.trigger_rule == "all_failed"@ ==> (goes_ahead(v) <==> all_failed)
            &&& c.trigger_rule == "none_failed"@ ==> (goes_ahead(v) <==> !one_failed)
            &&& c.trigger_rule == "all_success"@ ==> (goes_ahead(v) <==> all_succeeded)
            &&& c.trigger_rule != "all_done"@ && c.trigger_rule != "one_failed"@ && c.trigger_rule
                != "all_failed"@ && c.trigger_rule != "none_failed"@ ==> (goes_ahead(v) <==> all_succeeded)
        }),
{
    let n = db.edges.len() as int;
    let deps = outcomes(db.tasks, db.edges, c.id, n);
    lemma_rule_names();
    lemma_outcomes_hold(db.tasks, db.edges, c.id, n, TaskStatus::Failed);
    lemma_all_outcomes(db, c, TaskStatus::Failed);
    lemma_all_outcomes(db, c, TaskStatus::Succeeded);
    if deps.contains(TaskStatus::Failed) {
        let (e, j) = choose|e: int, j: int|
            0 <= e < n && 0 <= j < db.tasks.len() && (#[trigger] db.edges[e]).dependent_id == c.id && (
            #[trigger] db.tasks[j]).id == db.edges[e].dependency_id && db.tasks[j].status
                == TaskStatus::Failed;
        assert(depends(db, c.id, j));
    }
    if exists|j: int|
        0 <= j < db.tasks.len() && #[trigger] depends(db, c.id, j) && db.tasks[j].status == TaskStatus::Failed {
        let j = choose|j: int|
            0 <= j < db.tasks.len() && #[trigger] depends(db, c.id, j) && db.tasks[j].status
                == TaskStatus::Failed;
        let e = choose|e: int|
            0 <= e < db.edges.len() && (#[trigger] db.edges[e]).dependent_id == c.id
                && db.edges[e].dependency_id == db.tasks[j].id;
        assert(db.edges[e].dependent_id == c.id && db.tasks[j].id == db.edges[e].dependency_id);
    }
}

proof fn lemma_all_outcomes(db: StoreView, c: TaskRunView, s: TaskStatus)
    ensures
        all_are(outcomes(db.tasks, db.edges, c.id, db.edges.len() as int), s) <==> forall|j: int|
            0 <= j < db.tasks.len() && #[trigger] depends(db, c.id, j) ==> db.tasks[j].status == s,
{
    let n = db.edges.len() as int;
    let deps = outcomes(db.tasks, db.edges, c.id, n);
    if all_are(deps, s) {
        assert forall|j: int| 0 <= j < db.tasks.len() && #[trigger] depends(db, c.id, j) implies db.tasks[j].status
            == s by {
            let e = choose|e: int|
                0 <= e < db.edges.len() && (#[trigger] db.edges[e]).dependent_id == c.id
                    && db.edges[e].dependency_id == db.tasks[j].id;
            let t = db.tasks[j].status;
            lemma_outcomes_hold(db.tasks, db.edges, c.id, n, t);
            assert(db.edges[e].dependent_id == c.id && db.tasks[j].id == db.edges[e].dependency_id);
            assert(deps.contains(t));
            let k = choose|k: int| 0 <= k < deps.len() && deps[k] == t;
            assert(deps[k] == s);
        }
    }
    if forall|j: int|
        0 <= j < db.tasks.len() && #[trigger] depends(db, c.id, j) ==> db.tasks[j].status == s {
        assert forall|k: int| 0 <= k < deps.len() implies #[trigger] deps[k] == s by {
            let t = deps[k];
            assert(deps.contains(t));
            lemma_outcomes_hold(db.tasks, db.edges, c.id, n, t);
            let (e, j) = choose|e: int, j: int|
                0 <= e < n && 0 <= j < db.tasks.len() && (#[trigger] db.edges[e]).dependent_id == c.id && (
                #[trigger] db.tasks[j]).id == db.edges[e].dependency_id && db.tasks[j].status == t;
            assert(depends(db, c.id, j));
        }
    }
}

proof fn lemma_rule_names()
    ensures
        "all_success"@ != "all_done"@,
        "all_success"@ != "one_failed"@,
        "all_success"@ != "all_failed"@,
        "all_success"@ != "none_failed"@,
        "all_done"@ != "one_failed"@,
        "all_done"@ != "all_failed"@,
        "all_done"@ != "none_failed"@,
        "one_failed"@ != "all_failed"@,
        "one_failed"@ != "none_failed"@,
        "all_failed"@ != "none_failed"@,
{
    reveal_strlit("all_success");
    reveal_strlit("all_done");
    reveal_strlit("one_failed");
    reveal_strlit("all_failed");
    reveal_strlit("none_failed");
    assert("all_done"@.len() == 8 && "all_success"@.len() == 11 && "none_failed"@.len() == 11);
    assert("one_failed"@[0] == 'o' && "all_failed"@[0] == 'a');
    assert("none_failed"@[0] == 'n' && "all_success"@[0] == 'a');
}

// ── One step and a pass ──────────────────────────────────────────────────────

/// The verdict takes effect on the pending row it is on: ready or awaiting
/// approval, it lets nobody go on; skipped or failed, it is over, and every
/// pending dependent waits for one less. No other row changes, and nothing else.
pub proof fn law_verdict_takes_effect(db: StoreView, c: TaskRunView, now: Seq<char>, i: int)
    requires
        0 <= i < db.tasks.len(),
        exists|k: int|
            0 <= k < db.tasks.len() && (#[trigger] db.tasks[k]).id == c.id && db.tasks[k].status
                == TaskStatus::Pending,
    ensures
        ({
            let v = verdict(db, c);
            let t = db.tasks[i];
            let after = advanced_one(db, c, now);
            let u = after.tasks[i];
            let waits = exists|e: int|
                0 <= e < db.edges.len() && (#[trigger] db.edges[e]).dependent_id == t.id
                    && db.edges[e].dependency_id == c.id;
            &&& after == (StoreView { tasks: after.tasks, ..db })
            &&& after.tasks.len() == db.tasks.len()
            &&& t.id == c.id && t.status == TaskStatus::Pending ==> u == (match v {
                Verdict::Ready => TaskRunView { status: TaskStatus::Ready, ..t },
                Verdict::AwaitApproval => TaskRunView {
                    status: TaskStatus::AwaitingApproval,
                    scheduled_at: Some(now),
                    ..t
                },
                Verdict::Skip => TaskRunView {
                    status: TaskStatus::Skipped,
                    finished_at: Some(now),
                    ..t
                },
                Verdict::Fail(m) => TaskRunView {
                    status: TaskStatus::Failed,
                    finished_at: Some(now),
                    output: Some(m),
                    ..t
                },
            })
            &&& !(t.id == c.id && t.status == TaskStatus::Pending) ==> u == (if !goes_ahead(v) && t.status
                == TaskStatus::Pending && waits {
                TaskRunView { remaining_deps: t.remaining_deps - 1, ..t }
            } else {
                t
            })
        }),
{
    let k = choose|k: int|
        0 <= k < db.tasks.len() && (#[trigger] db.tasks[k]).id == c.id && db.tasks[k].status
            == TaskStatus::Pending;
    assert(pending_row(db.tasks[k], c.id));
}

/// A pass decides on the pending rows that wait for nothing, on each of them and
/// on no other, in the order of their ids.
pub proof fn law_pass_decides_on_what_is_free(tasks: Seq<TaskRunView>)
    ensures
        forall|t: TaskRunView| #[trigger]
            candidates(tasks).contains(t) <==> exists|i: int|
                0 <= i < tasks.len() && #[trigger] tasks[i] == t && t.status == TaskStatus::Pending
                    && t.remaining_deps == 0,
        candidates(tasks).len() == tasks.filter(
            |t: TaskRunView| t.status == TaskStatus::Pending && t.remaining_deps == 0,
        ).len(),
        forall|a: int, b: int|
            0 <= a < b < candidates(tasks).len() ==> !lex_lt(
                (#[trigger] candidates(tasks)[b]).id,
                (#[trigger] candidates(tasks)[a]).id,
            ),
{
    let p = |t: TaskRunView| unblocked(t);
    let free = |t: TaskRunView| t.status == TaskStatus::Pending && t.remaining_deps == 0;
    let lt = |a: TaskRunView, b: TaskRunView| lex_lt(a.id, b.id);
    let n = tasks.len() as int;
    let q = ordered(tasks, p, lt, n);
    let cands = candidates(tasks);
    assert(p =~= free);
    assert(weak_order(lt)) by {
        assert forall|a: TaskRunView, b: TaskRunView| #[trigger] lt(a, b) implies !lt(b, a) by {
            if lt(b, a) {
                lemma_lex_transitive(a.id, b.id, a.id);
                lemma_lex_irreflexive(a.id);
            }
        }
        assert forall|a: TaskRunView, b: TaskRunView, c: TaskRunView| #[trigger] lt(a, c) implies #[trigger] lt(
            a,
            b,
        ) || lt(b, c) by {
            lemma_lex_total(a.id, b.id);
            if lt(b, a) {
                lemma_lex_transitive(b.id, a.id, c.id);
            }
        }
    }
    lemma_ordered_members(tasks, p, lt, n);
    lemma_ordered_sorted(tasks, p, lt, n);
    crate::order::lemma_ordered_len(tasks, p, lt, n);
    lemma_count_filter(tasks, p);
    assert(tasks.take(n) =~= tasks);
    assert forall|t: TaskRunView| #[trigger] cands.contains(t) <==> exists|i: int|
        0 <= i < tasks.len() && #[trigger] tasks[i] == t && t.status == TaskStatus::Pending && t.remaining_deps
            == 0 by {
        if cands.contains(t) {
            let k = choose|k: int| 0 <= k < cands.len() && cands[k] == t;
            assert(q.contains(q[k]));
            assert(tasks[q[k]] == t);
        }
        if exists|i: int|
            0 <= i < tasks.len() && #[trigger] tasks[i] == t && t.status == TaskStatus::Pending
                && t.remaining_deps == 0 {
            let i = choose|i: int|
                0 <= i < tasks.len() && #[trigger] tasks[i] == t && t.status == TaskStatus::Pending
                    && t.remaining_deps == 0;
            assert(p(tasks[i]));
            assert(q.contains(i));
            let k = choose|k: int| 0 <= k < q.len() && q[k] == i;
            assert(cands[k] == t);
        }
    }
    assert forall|a: int, b: int| 0 <= a < b < cands.len() implies !lex_lt(
        (#[trigger] cands[b]).id,
        (#[trigger] cands[a]).id,
    ) by {
        assert(!lt(tasks[q[b]], tasks[q[a]]));
    }
}

/// A pass is one step after another, each on what the steps before left.
pub proof fn law_pass_goes_step_by_step(db: StoreView, cands: Seq<TaskRunView>, now: Seq<char>, k: int)
    requires
        0 <= k < cands.len(),
    ensures
        advanced(db, cands, now, 0) == (db, 0nat),
        advanced(db, cands, now, k + 1).0 == advanced_one(advanced(db, cands, now, k).0, cands[k], now),
        advanced(db, cands, now, k + 1).0.tasks.len() == advanced(db, cands, now, k).0.tasks.len(),
{
}

/// A pass says how many rows it moved: as many as are pending no more.
pub proof fn law_pass_counts_what_moved(db: StoreView, cands: Seq<TaskRunView>, now: Seq<char>, k: int)
    requires
        0 <= k <= cands.len(),
    ensures
        advanced(db, cands, now, k).1 + advanced(db, cands, now, k).0.tasks.filter(
            |t: TaskRunView| t.status == TaskStatus::Pending,
        ).len() == db.tasks.filter(|t: TaskRunView| t.status == TaskStatus::Pending).len(),
    decreases k,
{
    let p = |t: TaskRunView| t.status == TaskStatus::Pending;
    lemma_count_filter(db.tasks, p);
    if k > 0 {
        law_pass_counts_what_moved(db, cands, now, k - 1);
        let mid = advanced(db, cands, now, k - 1).0;
        let after = advanced(db, cands, now, k).0;
        crate::advance::lemma_step_pending(mid, cands[k - 1], now);
        lemma_count_filter(mid.tasks, p);
        lemma_count_filter(after.tasks, p);
    }
}

} // verus!
