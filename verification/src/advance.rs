//! Advancing pending tasks whose dependencies have all ended: ready, parked
//! for approval, skipped, or failed by an unreadable condition.
use vstd::prelude::*;
use vstd::string::*;
use crate::expand::{
    condition, condition_error, eval_when, output_refs, substitute, substituted, when_output_refs,
};
use crate::models::{rule_ready, trigger_rule_ready, TaskStatus};
use crate::order::{copy_at, lemma_no_more_places, ordered, places, rows_at, select, Keep, Order};
use crate::rows::{views, EdgeView, TaskRun, TaskRunView};
use crate::store::{Store, StoreView};
use crate::table::{
    amended, count, lemma_count_bounded, lemma_count_positive, lemma_count_same, update_all, Rule,
};
use crate::tasks::{deps_fit, release_dependents, settled};
use crate::text::{before, lex_lt, same, texts, trim, trimmed};
use crate::text_map::{text_values, TextMap};

verus! {

// ── What a decision goes by ──────────────────────────────────────────────────

/// The statuses of the rows with this id.
pub open spec fn statuses_of(tasks: Seq<TaskRunView>, id: Seq<char>) -> Seq<TaskStatus> {
    tasks.filter(|t: TaskRunView| t.id == id).map_values(|t: TaskRunView| t.status)
}

/// How the dependencies of `id` stand, by the first `n` edges.
pub open spec fn outcomes(
    tasks: Seq<TaskRunView>,
    edges: Seq<EdgeView>,
    id: Seq<char>,
    n: int,
) -> Seq<TaskStatus>
    decreases n,
{
    if n <= 0 {
        Seq::empty()
    } else {
        outcomes(tasks, edges, id, n - 1) + if edges[n - 1].dependent_id == id {
            statuses_of(tasks, edges[n - 1].dependency_id)
        } else {
            Seq::empty()
        }
    }
}

/// The output of the first row of a run with this name, from row `i` on; empty
/// where there is none.
pub open spec fn output_from(
    tasks: Seq<TaskRunView>,
    run_id: Seq<char>,
    name: Seq<char>,
    i: int,
) -> Seq<char>
    decreases tasks.len() - i,
{
    if i < 0 || i >= tasks.len() {
        Seq::empty()
    } else if tasks[i].run_id == run_id && tasks[i].name == name {
        match tasks[i].output {
            Some(o) => o,
            None => Seq::empty(),
        }
    } else {
        output_from(tasks, run_id, name, i + 1)
    }
}

/// The placeholder name of a task's output.
pub open spec fn output_key(name: Seq<char>) -> Seq<char> {
    "tasks."@ + name + ".output"@
}

/// The outputs that the first `n` references stand for, trimmed.
pub open spec fn output_bindings(
    tasks: Seq<TaskRunView>,
    run_id: Seq<char>,
    refs: Seq<Seq<char>>,
    n: int,
) -> Map<Seq<char>, Seq<char>>
    decreases n,
{
    if n <= 0 {
        Map::empty()
    } else {
        output_bindings(tasks, run_id, refs, n - 1).insert(
            output_key(refs[n - 1]),
            trimmed(output_from(tasks, run_id, refs[n - 1], 0)),
        )
    }
}

/// A condition with the outputs it refers to filled in.
pub open spec fn filled(tasks: Seq<TaskRunView>, run_id: Seq<char>, cond: Seq<char>) -> Seq<char> {
    substituted(
        cond,
        output_bindings(tasks, run_id, output_refs(cond), output_refs(cond).len() as int),
    )
}

/// What becomes of a pending row whose dependencies have all ended.
pub enum Verdict {
    Ready,
    AwaitApproval,
    Skip,
    /// The condition cannot be evaluated; the text says why.
    Fail(Seq<char>),
}

/// What the task records where its condition cannot be evaluated.
pub open spec fn gate_error(cond: Seq<char>, complaint: Seq<char>) -> Seq<char> {
    "runtime when '"@ + cond + "' failed to evaluate: "@ + complaint
}

/// What becomes of row `c`.
pub open spec fn verdict(db: StoreView, c: TaskRunView) -> Verdict {
    let passes = match c.when {
        Some(cond) => condition(filled(db.tasks, c.run_id, cond)),
        None => Some(true),
    };
    match passes {
        None => Verdict::Fail(
            gate_error(c.when->0, condition_error(filled(db.tasks, c.run_id, c.when->0))),
        ),
        Some(pass) => if pass && rule_ready(
            c.trigger_rule,
            outcomes(db.tasks, db.edges, c.id, db.edges.len() as int),
        ) {
            if c.is_approval {
                Verdict::AwaitApproval
            } else {
                Verdict::Ready
            }
        } else {
            Verdict::Skip
        },
    }
}

/// The pending row with this id.
pub open spec fn pending_row(t: TaskRunView, id: Seq<char>) -> bool {
    t.id == id && t.status == TaskStatus::Pending
}

/// The store after the verdict on row `c` took effect.
pub open spec fn advanced_one(db: StoreView, c: TaskRunView, now: Seq<char>) -> StoreView {
    let hits = |t: TaskRunView| pending_row(t, c.id);
    match verdict(db, c) {
        Verdict::Ready => StoreView {
            tasks: amended(
                db.tasks,
                hits,
                |t: TaskRunView| TaskRunView { status: TaskStatus::Ready, ..t },
            ),
            ..db
        },
        Verdict::AwaitApproval => StoreView {
            tasks: amended(
                db.tasks,
                hits,
                |t: TaskRunView|
                    TaskRunView {
                        status: TaskStatus::AwaitingApproval,
                        scheduled_at: Some(now),
                        ..t
                    },
            ),
            ..db
        },
        Verdict::Skip => settled(
            db,
            c.id,
            hits,
            |t: TaskRunView|
                TaskRunView { status: TaskStatus::Skipped, finished_at: Some(now), ..t },
        ),
        Verdict::Fail(message) => settled(
            db,
            c.id,
            hits,
            |t: TaskRunView|
                TaskRunView {
                    status: TaskStatus::Failed,
                    output: Some(message),
                    finished_at: Some(now),
                    ..t
                },
        ),
    }
}

/// The store after the first `k` candidates, and how many rows moved.
pub open spec fn advanced(db: StoreView, cands: Seq<TaskRunView>, now: Seq<char>, k: int) -> (
    StoreView,
    nat,
)
    decreases k,
{
    if k <= 0 {
        (db, 0)
    } else {
        let (d, n) = advanced(db, cands, now, k - 1);
        let c = cands[k - 1];
        (advanced_one(d, c, now), n + count(d.tasks, |t: TaskRunView| pending_row(t, c.id)))
    }
}

/// A pending row whose dependencies have all ended.
pub open spec fn unblocked(t: TaskRunView) -> bool {
    t.status == TaskStatus::Pending && t.remaining_deps == 0
}

/// The rows to decide on, by id.
pub open spec fn candidates(tasks: Seq<TaskRunView>) -> Seq<TaskRunView> {
    rows_at(
        tasks,
        ordered(
            tasks,
            |t: TaskRunView| unblocked(t),
            |a: TaskRunView, b: TaskRunView| lex_lt(a.id, b.id),
            tasks.len() as int,
        ),
    )
}

// ── Deciding ─────────────────────────────────────────────────────────────────

fn push_statuses(tasks: &Vec<TaskRun>, id: &str, out: &mut Vec<TaskStatus>)
    ensures
        final(out)@ == old(out)@ + statuses_of(views(tasks@), id@),
{
    let ghost all = views(tasks@);
    let ghost p = |t: TaskRunView| t.id == id@;
    let ghost f = |t: TaskRunView| t.status;
    let ghost was = out@;
    let mut i: usize = 0;
    proof {
        reveal(Seq::filter);
        assert(all.take(0).filter(p) =~= Seq::<TaskRunView>::empty());
        assert(was + all.take(0).filter(p).map_values(f) =~= was);
    }
    while i < tasks.len()
        invariant
            i <= tasks@.len(),
            all == views(tasks@),
            p == (|t: TaskRunView| t.id == id@),
            f == (|t: TaskRunView| t.status),
            out@ == was + all.take(i as int).filter(p).map_values(f),
        decreases tasks@.len() - i,
    {
        let ghost so_far = all.take(i as int).filter(p);
        proof {
            reveal(Seq::filter);
            assert(all.take(i as int + 1).drop_last() =~= all.take(i as int));
            assert(all[i as int] == tasks@[i as int]@);
        }
        if same(tasks[i].id.as_str(), id) {
            out.push(tasks[i].status);
            assert(so_far.push(all[i as int]).map_values(f) =~= so_far.map_values(f).push(
                f(all[i as int]),
            ));
            assert((was + so_far.map_values(f)).push(f(all[i as int])) =~= was + so_far.map_values(
                f,
            ).push(f(all[i as int])));
        }
        i += 1;
    }
    assert(all.take(all.len() as int) =~= all);
}

fn dependency_outcomes(db: &Store, id: &str) -> (r: Vec<TaskStatus>)
    ensures
        r@ == outcomes(db@.tasks, db@.edges, id@, db@.edges.len() as int),
{
    let mut out: Vec<TaskStatus> = Vec::new();
    let mut i: usize = 0;
    while i < db.edges.len()
        invariant
            i <= db.edges@.len(),
            out@ == outcomes(db@.tasks, db@.edges, id@, i as int),
        decreases db.edges@.len() - i,
    {
        assert(db@.edges[i as int] == db.edges@[i as int]@);
        if same(db.edges[i].dependent_id.as_str(), id) {
            push_statuses(&db.tasks, db.edges[i].dependency_id.as_str(), &mut out);
        } else {
            assert(out@ + Seq::<TaskStatus>::empty() =~= out@);
        }
        i += 1;
    }
    out
}

fn output_of(tasks: &Vec<TaskRun>, run_id: &str, name: &str) -> (r: String)
    ensures
        r@ == output_from(views(tasks@), run_id@, name@, 0),
{
    let ghost all = views(tasks@);
    let mut i: usize = 0;
    while i < tasks.len()
        invariant
            i <= tasks@.len(),
            all == views(tasks@),
            output_from(all, run_id@, name@, 0) == output_from(all, run_id@, name@, i as int),
        decreases tasks@.len() - i,
    {
        assert(all[i as int] == tasks@[i as int]@);
        if same(tasks[i].run_id.as_str(), run_id) && same(tasks[i].name.as_str(), name) {
            return match &tasks[i].output {
                Some(o) => o.clone(),
                None => String::new(),
            };
        }
        i += 1;
    }
    String::new()
}

fn fill(tasks: &Vec<TaskRun>, run_id: &str, cond: &str) -> (r: String)
    ensures
        r@ == filled(views(tasks@), run_id@, cond@),
{
    let ghost all = views(tasks@);
    let refs: Vec<String> = when_output_refs(cond);
    let mut ctx: TextMap<String> = TextMap::new();
    let mut i: usize = 0;
    assert(text_values(ctx@) =~= Map::<Seq<char>, Seq<char>>::empty());
    while i < refs.len()
        invariant
            i <= refs@.len(),
            all == views(tasks@),
            texts(refs@) == output_refs(cond@),
            text_values(ctx@) == output_bindings(all, run_id@, output_refs(cond@), i as int),
        decreases refs@.len() - i,
    {
        assert(output_refs(cond@)[i as int] == refs@[i as int]@);
        let mut key: String = "tasks.".to_owned();
        key.append(refs[i].as_str());
        key.append(".output");
        let value: String = output_of(tasks, run_id, refs[i].as_str());
        let ghost was = text_values(ctx@);
        let ghost k = key@;
        ctx.insert(key, trim(value.as_str()).to_owned());
        assert(text_values(ctx@) =~= was.insert(k, trimmed(value@)));
        i += 1;
    }
    assert(texts(refs@).len() == refs@.len());
    substitute(cond, &ctx)
}

/// What becomes of a row, with the message of a failure.
enum Decision {
    Ready,
    AwaitApproval,
    Skip,
    Fail(String),
}

impl Decision {
    spec fn means(self, v: Verdict) -> bool {
        match self {
            Decision::Ready => v is Ready,
            Decision::AwaitApproval => v is AwaitApproval,
            Decision::Skip => v is Skip,
            Decision::Fail(m) => v == Verdict::Fail(m@),
        }
    }
}

fn decide(db: &Store, c: &TaskRun) -> (d: Decision)
    ensures
        d.means(verdict(db@, c@)),
{
    let pass: bool = match &c.when {
        Some(cond) => {
            let text: String = fill(&db.tasks, c.run_id.as_str(), cond.as_str());
            match eval_when(text.as_str()) {
                Ok(pass) => pass,
                Err(e) => {
                    let mut m: String = "runtime when '".to_owned();
                    m.append(cond.as_str());
                    m.append("' failed to evaluate: ");
                    m.append(e.as_str());
                    return Decision::Fail(m);
                },
            }
        },
        None => true,
    };
    let deps: Vec<TaskStatus> = dependency_outcomes(db, c.id.as_str());
    if pass && trigger_rule_ready(c.trigger_rule.as_str(), &deps) {
        if c.is_approval {
            Decision::AwaitApproval
        } else {
            Decision::Ready
        }
    } else {
        Decision::Skip
    }
}

// ── Taking effect ────────────────────────────────────────────────────────────

struct Move<'a> {
    id: &'a str,
    status: TaskStatus,
    scheduled_at: Option<&'a str>,
    finished_at: Option<&'a str>,
    output: Option<&'a String>,
}

impl<'a> Rule<TaskRun> for Move<'a> {
    closed spec fn hits(&self, t: TaskRunView) -> bool {
        pending_row(t, self.id@)
    }

    closed spec fn image(&self, t: TaskRunView) -> TaskRunView {
        TaskRunView {
            status: self.status,
            scheduled_at: match self.scheduled_at {
                Some(at) => Some(at@),
                None => t.scheduled_at,
            },
            finished_at: match self.finished_at {
                Some(at) => Some(at@),
                None => t.finished_at,
            },
            output: match self.output {
                Some(o) => Some(o@),
                None => t.output,
            },
            ..t
        }
    }

    closed spec fn fits(&self, t: TaskRunView) -> bool {
        true
    }

    fn apply(&self, row: &mut TaskRun) -> (hit: bool) {
        if !(row.status == TaskStatus::Pending && same(row.id.as_str(), self.id)) {
            return false;
        }
        row.status = self.status;
        match self.scheduled_at {
            Some(at) => {
                row.scheduled_at = Some(at.to_owned());
            },
            None => {},
        }
        match self.finished_at {
            Some(at) => {
                row.finished_at = Some(at.to_owned());
            },
            None => {},
        }
        match self.output {
            Some(o) => {
                row.output = Some(o.clone());
            },
            None => {},
        }
        true
    }
}

/// Dependency counters keep their room, less one, over one step.
proof fn lemma_step_room(db: StoreView, c: TaskRunView, now: Seq<char>, n: int)
    requires
        deps_fit(db.tasks, n),
    ensures
        deps_fit(advanced_one(db, c, now).tasks, n - 1),
        advanced_one(db, c, now).tasks.len() == db.tasks.len(),
{
    let out = advanced_one(db, c, now).tasks;
    assert forall|i: int| 0 <= i < out.len() implies i64::MIN + n - 1 <= (
    #[trigger] out[i]).remaining_deps by {
        assert(i64::MIN + n <= db.tasks[i].remaining_deps);
    }
}

/// Every row that moves was pending and is so no more.
pub proof fn lemma_step_pending(db: StoreView, c: TaskRunView, now: Seq<char>)
    ensures
        count(advanced_one(db, c, now).tasks, |t: TaskRunView| t.status == TaskStatus::Pending)
            + count(db.tasks, |t: TaskRunView| pending_row(t, c.id)) == count(
            db.tasks,
            |t: TaskRunView| t.status == TaskStatus::Pending,
        ),
{
    let out = advanced_one(db, c, now).tasks;
    let p = |t: TaskRunView| t.status == TaskStatus::Pending;
    let h = |t: TaskRunView| pending_row(t, c.id);
    assert(out.len() == db.tasks.len());
    lemma_count_positive(db.tasks, h);
    assert forall|i: int| 0 <= i < out.len() implies p(#[trigger] out[i]) == (p(db.tasks[i]) && !h(
        db.tasks[i],
    )) by {}
    lemma_count_split(db.tasks, out, p, h);
}

/// Counting what is left of `p` without `h`.
proof fn lemma_count_split(
    a: Seq<TaskRunView>,
    b: Seq<TaskRunView>,
    p: spec_fn(TaskRunView) -> bool,
    h: spec_fn(TaskRunView) -> bool,
)
    requires
        a.len() == b.len(),
        forall|i: int| 0 <= i < a.len() && h(#[trigger] a[i]) ==> p(a[i]),
        forall|i: int| 0 <= i < b.len() ==> p(#[trigger] b[i]) == (p(a[i]) && !h(a[i])),
    ensures
        count(b, p) + count(a, h) == count(a, p),
    decreases a.len(),
{
    if a.len() > 0 {
        let n = a.len() - 1;
        assert(p(b[n]) == (p(a[n]) && !h(a[n])));
        assert(h(a[n]) ==> p(a[n]));
        assert forall|i: int| 0 <= i < n && h(#[trigger] a.drop_last()[i]) implies p(
            a.drop_last()[i],
        ) by {
            assert(h(a[i]) ==> p(a[i]));
        }
        assert forall|i: int| 0 <= i < n implies p(#[trigger] b.drop_last()[i]) == (p(
            a.drop_last()[i],
        ) && !h(a.drop_last()[i])) by {
            assert(p(b[i]) == (p(a[i]) && !h(a[i])));
        }
        lemma_count_split(a.drop_last(), b.drop_last(), p, h);
    }
}

fn advance_one(db: &mut Store, c: &TaskRun, now: &str) -> (n: u64)
    requires
        deps_fit(old(db)@.tasks, 1),
    ensures
        final(db)@ == advanced_one(old(db)@, c@, now@),
        n == count(old(db)@.tasks, |t: TaskRunView| pending_row(t, c@.id)),
{
    let ghost was = db@;
    let decision: Decision = decide(db, c);
    let id: &str = c.id.as_str();
    let rule: Move = match &decision {
        Decision::Ready => Move {
            id,
            status: TaskStatus::Ready,
            scheduled_at: None,
            finished_at: None,
            output: None,
        },
        Decision::AwaitApproval => Move {
            id,
            status: TaskStatus::AwaitingApproval,
            scheduled_at: Some(now),
            finished_at: None,
            output: None,
        },
        Decision::Skip => Move {
            id,
            status: TaskStatus::Skipped,
            scheduled_at: None,
            finished_at: Some(now),
            output: None,
        },
        Decision::Fail(m) => Move {
            id,
            status: TaskStatus::Failed,
            scheduled_at: None,
            finished_at: Some(now),
            output: Some(m),
        },
    };
    let ghost hits = |t: TaskRunView| pending_row(t, c@.id);
    let n: u64 = update_all(&mut db.tasks, &rule);
    proof {
        lemma_count_same(was.tasks, |t: TaskRunView| rule.hits(t), hits);
        lemma_count_positive(was.tasks, hits);
        assert forall|i: int| 0 <= i < db@.tasks.len() implies i64::MIN + 1 <= (
        #[trigger] db@.tasks[i]).remaining_deps by {
            assert(i64::MIN + 1 <= was.tasks[i].remaining_deps);
        }
    }
    let over: bool = match &decision {
        Decision::Skip | Decision::Fail(_) => true,
        _ => false,
    };
    let ghost moved = db@.tasks;
    if over && n > 0 {
        release_dependents(db, id);
    }
    proof {
        match verdict(was, c@) {
            Verdict::Ready => {
                assert(moved =~= amended(
                    was.tasks,
                    hits,
                    |t: TaskRunView| TaskRunView { status: TaskStatus::Ready, ..t },
                ));
            },
            Verdict::AwaitApproval => {
                assert(moved =~= amended(
                    was.tasks,
                    hits,
                    |t: TaskRunView|
                        TaskRunView {
                            status: TaskStatus::AwaitingApproval,
                            scheduled_at: Some(now@),
                            ..t
                        },
                ));
            },
            Verdict::Skip => {
                assert(moved =~= amended(
                    was.tasks,
                    hits,
                    |t: TaskRunView|
                        TaskRunView { status: TaskStatus::Skipped, finished_at: Some(now@), ..t },
                ));
                if n == 0 {
                    assert(moved =~= was.tasks);
                }
            },
            Verdict::Fail(message) => {
                assert(moved =~= amended(
                    was.tasks,
                    hits,
                    |t: TaskRunView|
                        TaskRunView {
                            status: TaskStatus::Failed,
                            output: Some(message),
                            finished_at: Some(now@),
                            ..t
                        },
                ));
                if n == 0 {
                    assert(moved =~= was.tasks);
                }
            },
        }
    }
    n
}

struct Unblocked {}

impl Keep<TaskRun> for Unblocked {
    closed spec fn keeps(&self, t: TaskRunView) -> bool {
        unblocked(t)
    }

    fn keep(&self, row: &TaskRun) -> (r: bool) {
        row.status == TaskStatus::Pending && row.remaining_deps == 0
    }
}

struct ById {}

impl Order<TaskRun> for ById {
    closed spec fn lt(&self, a: TaskRunView, b: TaskRunView) -> bool {
        lex_lt(a.id, b.id)
    }

    fn sorts_before(&self, a: &TaskRun, b: &TaskRun) -> (r: bool) {
        before(a.id.as_str(), b.id.as_str())
    }
}

/// Decides on every pending row whose dependencies have all ended, by id: a row
/// whose condition and trigger rule hold becomes ready, or awaits approval; the
/// others are skipped, or failed where the condition cannot be evaluated, and
/// their dependents wait for one less. Says how many rows moved.
pub fn advance_ready_tasks(db: &mut Store, now: &str) -> (n: u64)
    requires
        deps_fit(old(db)@.tasks, old(db)@.tasks.len() as int),
    ensures
        ({
            let cands = candidates(old(db)@.tasks);
            (final(db)@, n as nat) == advanced(old(db)@, cands, now@, cands.len() as int)
        }),
{
    let ghost start = db@;
    let total: usize = db.tasks.len();
    let ghost pend = |t: TaskRunView| t.status == TaskStatus::Pending;
    let keep: Unblocked = Unblocked {};
    let order: ById = ById {};
    let q: Vec<usize> = select(&db.tasks, &keep, &order);
    let cands: Vec<TaskRun> = copy_at(&db.tasks, &q, q.len());
    assert(places(q@).take(q@.len() as int) =~= places(q@));
    let ghost all = views(cands@);
    proof {
        assert((|t: TaskRunView| keep.keeps(t)) =~= (|t: TaskRunView| unblocked(t)));
        assert((|a: TaskRunView, b: TaskRunView| order.lt(a, b)) =~= (|
            a: TaskRunView,
            b: TaskRunView,
        | lex_lt(a.id, b.id)));
        assert(all == candidates(start.tasks));
        crate::order::lemma_ordered_members(
            start.tasks,
            |t: TaskRunView| unblocked(t),
            |a: TaskRunView, b: TaskRunView| lex_lt(a.id, b.id),
            start.tasks.len() as int,
        );
        lemma_no_more_places(places(q@), start.tasks.len() as int);
        lemma_count_bounded(start.tasks, pend);
    }
    let mut n: u64 = 0;
    let mut k: usize = 0;
    while k < cands.len()
        invariant
            k <= cands@.len(),
            all == views(cands@),
            all == candidates(start.tasks),
            cands@.len() <= start.tasks.len(),
            pend == (|t: TaskRunView| t.status == TaskStatus::Pending),
            start.tasks.len() == total,
            db@.tasks.len() == start.tasks.len(),
            deps_fit(db@.tasks, start.tasks.len() - k),
            (db@, n as nat) == advanced(start, all, now@, k as int),
            n + count(db@.tasks, pend) <= start.tasks.len(),
        decreases cands@.len() - k,
    {
        assert(all[k as int] == cands@[k as int]@);
        proof {
            lemma_step_room(db@, all[k as int], now@, start.tasks.len() - k);
            lemma_step_pending(db@, all[k as int], now@);
            assert forall|i: int| 0 <= i < db@.tasks.len() implies i64::MIN + 1 <= (
            #[trigger] db@.tasks[i]).remaining_deps by {
                assert(i64::MIN + (start.tasks.len() - k) <= db@.tasks[i].remaining_deps);
            }
        }
        let moved: u64 = advance_one(db, &cands[k], now);
        n = n + moved;
        k += 1;
    }
    n
}

} // verus!
