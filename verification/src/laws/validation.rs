//! Which workflows are accepted, rule by rule, and that a refusal names a rule
//! that the workflow breaks.
use vstd::prelude::*;
use crate::dag::{
    dependency_edges, dependency_fault, distinct_names, edges_fault, edges_into, edges_upto,
    fanout_fault, fanouts_fault, known, reference_fault, task_index, tasks_fault, when_fault,
    whens_fault, workflow_fault,
};
use crate::duration::duration;
use crate::expand::{output_refs, producer_row};
use crate::fault::{is_canonical, law_canonical_round_trip, FaultClass};
use crate::graph::{has_cycle, is_walk};
use crate::jsonpred::{path_fault, predicate_fault};
use crate::labels::{label_fault, LabelKind};
use crate::rules::{
    budget_fault, budget_key_fault, defer_fault, deferred_rows, external_cost, gang_fault,
    header_fault, http_fault, kind_fault, leaf_fault, on_datasets_fault, placement_fault,
    planned_rows, produces_fault, products_fault, repeat_fault, repeats, sensor_fault, tag_fault,
    task_fault, trigger_fault, Edition, Fault,
};
use crate::text::{blank, http_scheme, texts, trimmed, upper_char};
use crate::time::rfc3339_value;
use crate::workflow::{DagSpec, DeferHttpSpec, TaskSpec, WaitSpec};

verus! {

// ── One task ─────────────────────────────────────────────────────────────────

/// The task says that it is of this type.
pub open spec fn of_type(t: TaskSpec, name: Seq<char>) -> bool {
    t.task_type matches Some(s) && s@ == name
}

/// An ordinary command task.
pub open spec fn command_task(t: TaskSpec) -> bool {
    t.task_type matches Some(s) ==> s@ == "task"@
}

/// A task runs at least once, and its options are among those there are.
pub open spec fn known_options(t: TaskSpec) -> bool {
    &&& t.max_attempts >= 1
    &&& t.trigger_rule matches Some(s) ==> s@ == "all_success"@ || s@ == "all_done"@ || s@
        == "one_failed"@ || s@ == "all_failed"@ || s@ == "none_failed"@
    &&& t.hook matches Some(s) ==> s@ == "on_exit"@ || s@ == "on_failure"@
    &&& t.task_type matches Some(s) ==> s@ == "task"@ || s@ == "approval"@ || s@ == "workflow"@ || s@
        == "wait"@
    &&& t.approval_on_timeout matches Some(s) ==> s@ == "approve"@ || s@ == "reject"@
    &&& of_type(t, "approval"@) ==> t.hook is None
}

/// A retry budget is for a class of faults that there is.
pub open spec fn known_class(key: Seq<char>) -> bool {
    key == "gpu-ecc"@ || key == "fabric-ib"@ || key == "nan-loss"@ || key == "checkpoint-corrupt"@ || key
        == "cancelled"@ || key == "unknown"@
}

/// A trigger names a workflow and runs nothing itself; only a trigger names one.
pub open spec fn sound_trigger(t: TaskSpec) -> bool {
    if of_type(t, "workflow"@) {
        t.workflow matches Some(w) && !blank(w@) && t.command@.len() == 0 && t.hook is None
    } else {
        t.workflow is None
    }
}

/// A sensor waits for one thing: a time, an instant, an address or a dataset.
pub open spec fn sound_wait(w: WaitSpec) -> bool {
    ||| w.wait_for matches Some(f) && w.until is None && w.url is None && w.dataset is None && duration(
        f@,
    ) is Ok
    ||| w.until matches Some(u) && w.wait_for is None && w.url is None && w.dataset is None
        && rfc3339_value(u@) is Ok
    ||| w.url matches Some(u) && w.wait_for is None && w.until is None && w.dataset is None
        && http_scheme(trimmed(u@))
    ||| w.dataset matches Some(d) && w.wait_for is None && w.until is None && w.url is None
        && label_fault(LabelKind::Dataset, d@) is None
}

/// A sensor runs nothing itself; only a sensor waits.
pub open spec fn sound_sensor(t: TaskSpec) -> bool {
    if of_type(t, "wait"@) {
        t.wait matches Some(w) && sound_wait(w) && t.command@.len() == 0 && t.hook is None
    } else {
        t.wait is None
    }
}

/// Dataset URIs, each once.
pub open spec fn sound_uris(uris: Seq<String>) -> bool {
    &&& forall|i: int| 0 <= i < uris.len() ==> label_fault(LabelKind::Dataset, #[trigger] uris[i]@) is None
    &&& forall|i: int, j: int| 0 <= i < j < uris.len() ==> #[trigger] uris[i]@ != #[trigger] uris[j]@
}

/// Only what runs a command produces datasets.
pub open spec fn sound_products(t: TaskSpec) -> bool {
    &&& t.produces@.len() > 0 ==> !of_type(t, "approval"@) && !of_type(t, "workflow"@) && !of_type(
        t,
        "wait"@,
    )
    &&& sound_uris(t.produces@)
}

/// Where the task runs, and what it asks for there.
pub open spec fn sound_placement(t: TaskSpec) -> bool {
    &&& t.runner_class matches Some(c) ==> label_fault(LabelKind::RunnerClass, c@) is None
    &&& t.pool matches Some(p) ==> label_fault(LabelKind::Pool, p@) is None
    &&& t.cache matches Some(c) ==> !blank(c.key@)
    &&& t.isolation matches Some(i) ==> i.complaint is None
    &&& t.resources matches Some(r) ==> (r.gpu matches Some(g) ==> g.count >= 1 && (g.resource matches Some(
        k,
    ) ==> !blank(k@)))
}

/// A gang has two members or more, one attempt, and is a plain command task
/// that is not the run's result.
pub open spec fn sound_gang(spec: DagSpec, t: TaskSpec) -> bool {
    t.gang matches Some(g) ==> {
        &&& g.size >= 2
        &&& t.max_attempts <= 1
        &&& t.repeat is None
        &&& t.template is None
        &&& !of_type(t, "approval"@) && !of_type(t, "workflow"@) && !of_type(t, "wait"@)
        &&& spec.result_from matches Some(r) ==> r@ != t.name@
    }
}

/// A loop has a condition and a bound, waits a year at most, and is around a
/// command or a trigger.
pub open spec fn sound_loop(t: TaskSpec) -> bool {
    t.repeat matches Some(r) ==> {
        &&& !blank(r.until@)
        &&& r.max_iterations >= 1
        &&& r.delay_secs <= 365 * 24 * 60 * 60
        &&& command_task(t) || of_type(t, "workflow"@)
    }
}

/// A remote job can be asked for and, where that is wanted, stopped.
pub open spec fn sound_transport(h: DeferHttpSpec) -> bool {
    &&& !blank(h.url@)
    &&& http_scheme(trimmed(h.url@))
    &&& forall|i: int| 0 <= i < h.headers@.len() ==> !blank(#[trigger] h.headers@[i].name@)
    &&& h.cancel matches Some(c) ==> {
        &&& http_scheme(trimmed(c.url@))
        &&& c.method matches Some(m) ==> {
            let verb = trimmed(m@).map_values(|c: char| upper_char(c));
            verb == "DELETE"@ || verb == "POST"@ || verb == "PUT"@ || verb == "PATCH"@
        }
    }
    &&& predicate_fault(h.succeed_when@) is None
    &&& h.fail_when matches Some(f) ==> predicate_fault(f@) is None
    &&& h.error_from matches Some(e) ==> path_fault(e@) is None
}

/// A deferred task is a plain command task, polled between once a second and
/// once a year, and given up no sooner than it is polled.
pub open spec fn sound_deferral(t: TaskSpec, edition: Edition) -> bool {
    t.defer matches Some(d) ==> {
        &&& !blank(d.kind@)
        &&& 1 <= d.poll_secs <= 365 * 24 * 60 * 60
        &&& d.max_wait_secs matches Some(max) ==> max >= d.poll_secs
        &&& t.repeat is None
        &&& command_task(t)
        &&& t.gang is None
        &&& d.http matches Some(h) ==> sound_transport(h)
        &&& edition == Edition::Open ==> d.connection is None
    }
}

/// The task is a leaf: arguments only for a trigger, no template left, and a
/// command unless it is a gate, a trigger or a sensor.
pub open spec fn sound_leaf(t: TaskSpec) -> bool {
    &&& t.arguments.entries@.len() > 0 ==> of_type(t, "workflow"@)
    &&& t.template is None
    &&& t.command@.len() > 0 || of_type(t, "approval"@) || of_type(t, "workflow"@) || of_type(t, "wait"@)
}

/// Task `i` keeps every rule on its own.
pub open spec fn sound_task(spec: DagSpec, i: int, edition: Edition) -> bool {
    let t = spec.tasks@[i];
    &&& forall|j: int| 0 <= j < i ==> #[trigger] spec.tasks@[j].name@ != t.name@
    &&& forall|k: int|
        0 <= k < t.retry_budgets.entries@.len() ==> known_class(#[trigger] t.retry_budgets.entries@[k].0@)
    &&& known_options(t)
    &&& sound_trigger(t)
    &&& sound_sensor(t)
    &&& sound_products(t)
    &&& sound_placement(t)
    &&& sound_gang(spec, t)
    &&& sound_loop(t)
    &&& sound_deferral(t, edition)
    &&& sound_leaf(t)
}

// ── The workflow as a whole ──────────────────────────────────────────────────

/// The run stays within what it allows itself.
pub open spec fn sound_budget(spec: DagSpec, edition: Edition) -> bool {
    let n = spec.tasks@.len() as int;
    spec.budget matches Some(b) ==> {
        &&& b.tasks matches Some(max) ==> max >= 1 && planned_rows(spec.tasks@, n) <= max
        &&& b.external_cost matches Some(max) ==> max >= 1 && (external_cost(spec.tasks@, n) <= max || max
            == u64::MAX)
        &&& edition == Edition::Open ==> !b.external_cost_attribution
    }
}

/// What the workflow says apart from its tasks.
pub open spec fn sound_header(spec: DagSpec, edition: Edition) -> bool {
    &&& spec.run_timeout_secs matches Some(secs) ==> secs >= 1
    &&& sound_budget(spec, edition)
    &&& spec.deadline matches Some(d) ==> duration(d.within@) is Ok
    &&& spec.runner_class matches Some(c) ==> label_fault(LabelKind::RunnerClass, c@) is None
    &&& forall|i: int|
        0 <= i < spec.tags@.len() ==> label_fault(LabelKind::Tag, #[trigger] spec.tags@[i]@) is None
    &&& sound_uris(spec.on_datasets@)
    &&& spec.datasets_mode matches Some(m) ==> (m@ == "any"@ || m@ == "all"@) && spec.on_datasets@.len() > 0
}

/// Task `b` names task `a` as a dependency.
pub open spec fn names_dependency(tasks: Seq<TaskSpec>, b: int, a: int) -> bool {
    exists|k: int|
        0 <= k < tasks[b].depends_on@.len() && #[trigger] tasks[b].depends_on@[k]@ == tasks[a].name@
}

/// Every dependency is a task of the workflow, and none is a hook.
pub open spec fn sound_dependencies(tasks: Seq<TaskSpec>) -> bool {
    forall|i: int, k: int|
        0 <= i < tasks.len() && 0 <= k < tasks[i].depends_on@.len() ==> {
            let dep = #[trigger] tasks[i].depends_on@[k]@;
            &&& exists|j: int| 0 <= j < tasks.len() && #[trigger] tasks[j].name@ == dep
            &&& forall|j: int|
                0 <= j < tasks.len() && #[trigger] tasks[j].name@ == dep ==> tasks[j].hook is None
        }
}

/// No chain of dependencies leads back to where it began.
pub open spec fn no_circle(tasks: Seq<TaskSpec>) -> bool {
    forall|path: Seq<int>|
        path.len() >= 2 && #[trigger] chain(tasks, path) ==> path[0] != path[path.len() - 1]
}

/// Each task of the chain is a dependency of the next.
pub open spec fn chain(tasks: Seq<TaskSpec>, path: Seq<int>) -> bool {
    &&& forall|k: int| 0 <= k < path.len() ==> 0 <= #[trigger] path[k] < tasks.len()
    &&& forall|k: int| 0 <= k < path.len() - 1 ==> #[trigger] link(tasks, path, k)
}

/// Entry `k` of the chain is a dependency of the next.
pub open spec fn link(tasks: Seq<TaskSpec>, path: Seq<int>, k: int) -> bool {
    names_dependency(tasks, path[k + 1], path[k])
}

/// What a task reads of other tasks comes from its dependencies.
pub open spec fn sound_references(t: TaskSpec) -> bool {
    &&& t.when matches Some(cond) ==> forall|r: int|
        0 <= r < output_refs(cond@).len() ==> exists|k: int|
            0 <= k < t.depends_on@.len() && #[trigger] t.depends_on@[k]@ == #[trigger] output_refs(cond@)[r]
    &&& t.with_output_of matches Some(p) ==> p@ != t.name@ && exists|k: int|
        0 <= k < t.depends_on@.len() && producer_row(p@, #[trigger] t.depends_on@[k]@)
}

/// The run's result is that of a task which is no hook.
pub open spec fn sound_result(spec: DagSpec) -> bool {
    spec.result_from matches Some(rf) ==> {
        &&& exists|j: int| 0 <= j < spec.tasks@.len() && #[trigger] spec.tasks@[j].name@ == rf@
        &&& forall|j: int|
            0 <= j < spec.tasks@.len() && #[trigger] spec.tasks@[j].name@ == rf@ ==> spec.tasks@[j].hook
                is None
    }
}

// ── Section by section ───────────────────────────────────────────────────────

proof fn lemma_kind(t: TaskSpec)
    ensures
        kind_fault(t) is None <==> known_options(t),
{
}

proof fn lemma_trigger(t: TaskSpec)
    ensures
        trigger_fault(t) is None <==> sound_trigger(t),
{
}

proof fn lemma_sensor(t: TaskSpec)
    ensures
        sensor_fault(t) is None <==> sound_sensor(t),
{
}

proof fn lemma_products_from(uris: Seq<String>, i: int)
    requires
        0 <= i,
    ensures
        products_fault(uris, i) is None <==> forall|k: int|
            i <= k < uris.len() ==> label_fault(LabelKind::Dataset, #[trigger] uris[k]@) is None && !repeats(
                uris,
                k,
            ),
        on_datasets_fault(uris, i) is None <==> forall|k: int|
            i <= k < uris.len() ==> label_fault(LabelKind::Dataset, #[trigger] uris[k]@) is None && !repeats(
                uris,
                k,
            ),
    decreases uris.len() - i,
{
    if i < uris.len() {
        lemma_products_from(uris, i + 1);
        assert(uris[i]@ == uris[i]@);
    }
}

proof fn lemma_uris(uris: Seq<String>)
    ensures
        products_fault(uris, 0) is None <==> sound_uris(uris),
        on_datasets_fault(uris, 0) is None <==> sound_uris(uris),
{
    lemma_products_from(uris, 0);
    if products_fault(uris, 0) is None {
        assert forall|i: int, j: int| 0 <= i < j < uris.len() implies #[trigger] uris[i]@ != #[trigger] uris[j]@ by {
            assert(!repeats(uris, j));
        }
    }
    if sound_uris(uris) {
        assert forall|k: int| 0 <= k < uris.len() implies label_fault(LabelKind::Dataset, #[trigger] uris[k]@)
            is None && !repeats(uris, k) by {}
    }
}

pub proof fn lemma_products(t: TaskSpec)
    ensures
        produces_fault(t) is None <==> sound_products(t),
{
    lemma_uris(t.produces@);
}

proof fn lemma_placement(t: TaskSpec)
    ensures
        placement_fault(t) is None <==> sound_placement(t),
{
}

proof fn lemma_gang(spec: DagSpec, t: TaskSpec)
    ensures
        gang_fault(spec, t) is None <==> sound_gang(spec, t),
{
}

proof fn lemma_loop(t: TaskSpec)
    ensures
        repeat_fault(t) is None <==> sound_loop(t),
{
}

proof fn lemma_transport(h: DeferHttpSpec)
    ensures
        http_fault(h) is None <==> sound_transport(h),
{
}

proof fn lemma_deferral(t: TaskSpec, edition: Edition)
    ensures
        defer_fault(t, edition) is None <==> sound_deferral(t, edition),
{
    match t.defer {
        Some(d) => match d.http {
            Some(h) => lemma_transport(h),
            None => {},
        },
        None => {},
    }
}

proof fn lemma_leaf(t: TaskSpec)
    ensures
        leaf_fault(t) is None <==> sound_leaf(t),
{
}

pub proof fn lemma_budget_keys(entries: Seq<(String, u32)>, i: int)
    requires
        0 <= i,
    ensures
        budget_key_fault(entries, i) is None <==> forall|k: int|
            i <= k < entries.len() ==> known_class(#[trigger] entries[k].0@),
    decreases entries.len() - i,
{
    if i < entries.len() {
        lemma_budget_keys(entries, i + 1);
        lemma_canonical(entries[i].0@);
        assert(entries[i].0@ == entries[i].0@);
    }
}

pub proof fn lemma_canonical(key: Seq<char>)
    ensures
        is_canonical(key) <==> known_class(key),
{
    law_canonical_round_trip(FaultClass::GpuEcc);
    law_canonical_round_trip(FaultClass::FabricIb);
    law_canonical_round_trip(FaultClass::NanLoss);
    law_canonical_round_trip(FaultClass::CheckpointCorrupt);
    law_canonical_round_trip(FaultClass::Cancelled);
    law_canonical_round_trip(FaultClass::Unknown);
}

proof fn lemma_task(spec: DagSpec, i: int, edition: Edition)
    ensures
        task_fault(spec, i, edition) is None <==> sound_task(spec, i, edition),
{
    let t = spec.tasks@[i];
    lemma_budget_keys(t.retry_budgets.entries@, 0);
    lemma_kind(t);
    lemma_trigger(t);
    lemma_sensor(t);
    lemma_products(t);
    lemma_placement(t);
    lemma_gang(spec, t);
    lemma_loop(t);
    lemma_deferral(t, edition);
    lemma_leaf(t);
}

proof fn lemma_tasks_from(spec: DagSpec, i: int, edition: Edition)
    requires
        0 <= i,
    ensures
        tasks_fault(spec, i, edition) is None <==> forall|k: int|
            i <= k < spec.tasks@.len() ==> #[trigger] sound_task(spec, k, edition),
    decreases spec.tasks@.len() - i,
{
    if i < spec.tasks@.len() {
        lemma_tasks_from(spec, i + 1, edition);
        lemma_task(spec, i, edition);
        assert(sound_task(spec, i, edition) || !sound_task(spec, i, edition));
    }
}

proof fn lemma_tags_from(tags: Seq<String>, i: int)
    requires
        0 <= i,
    ensures
        tag_fault(tags, i) is None <==> forall|k: int|
            i <= k < tags.len() ==> label_fault(LabelKind::Tag, #[trigger] tags[k]@) is None,
    decreases tags.len() - i,
{
    if i < tags.len() {
        lemma_tags_from(tags, i + 1);
        assert(tags[i]@ == tags[i]@);
    }
}

proof fn lemma_budget(spec: DagSpec, edition: Edition)
    ensures
        budget_fault(spec, edition) is None <==> sound_budget(spec, edition),
{
}

proof fn lemma_header(spec: DagSpec, edition: Edition)
    ensures
        header_fault(spec, edition) is None <==> sound_header(spec, edition),
{
    lemma_budget(spec, edition);
    lemma_tags_from(spec.tags@, 0);
    lemma_uris(spec.on_datasets@);
}

proof fn lemma_edges_from(tasks: Seq<TaskSpec>, i: int, k: int)
    requires
        0 <= i,
        0 <= k,
    ensures
        edges_fault(tasks, i, k) is None <==> forall|a: int, b: int|
            0 <= a < tasks.len() && 0 <= b < tasks[a].depends_on@.len() && (a > i || (a == i && b >= k))
                ==> #[trigger] dependency_ok(tasks, a, b),
    decreases tasks.len() - i, (if 0 <= i < tasks.len() { tasks[i].depends_on@.len() } else { 0 }) - k,
{
    if i < tasks.len() {
        if k < tasks[i].depends_on@.len() {
            lemma_edges_from(tasks, i, k + 1);
            if edges_fault(tasks, i, k) is None {
                assert forall|a: int, b: int|
                    0 <= a < tasks.len() && 0 <= b < tasks[a].depends_on@.len() && (a > i || (a == i && b
                        >= k)) implies #[trigger] dependency_ok(tasks, a, b) by {
                    assert((a == i && b == k) || a > i || (a == i && b >= k + 1));
                }
            } else if dependency_ok(tasks, i, k) {
                let (a, b) = choose|a: int, b: int|
                    0 <= a < tasks.len() && 0 <= b < tasks[a].depends_on@.len() && (a > i || (a == i && b
                        >= k + 1)) && !#[trigger] dependency_ok(tasks, a, b);
                assert(!dependency_ok(tasks, a, b));
            }
        } else {
            lemma_edges_from(tasks, i + 1, 0);
            if edges_fault(tasks, i, k) is None {
                assert forall|a: int, b: int|
                    0 <= a < tasks.len() && 0 <= b < tasks[a].depends_on@.len() && (a > i || (a == i && b
                        >= k)) implies #[trigger] dependency_ok(tasks, a, b) by {
                    assert(a > i + 1 || (a == i + 1 && b >= 0));
                }
            } else {
                let (a, b) = choose|a: int, b: int|
                    0 <= a < tasks.len() && 0 <= b < tasks[a].depends_on@.len() && (a > i + 1 || (a == i + 1
                        && b >= 0)) && !#[trigger] dependency_ok(tasks, a, b);
                assert(!dependency_ok(tasks, a, b));
            }
        }
    }
}

spec fn dependency_ok(tasks: Seq<TaskSpec>, i: int, k: int) -> bool {
    dependency_fault(tasks, i, k) is None
}

proof fn lemma_edges(tasks: Seq<TaskSpec>)
    ensures
        edges_fault(tasks, 0, 0) is None <==> sound_dependencies(tasks),
{
    lemma_edges_from(tasks, 0, 0);
    if edges_fault(tasks, 0, 0) is None {
        assert forall|i: int, k: int| 0 <= i < tasks.len() && 0 <= k < tasks[i].depends_on@.len() implies {
            let dep = #[trigger] tasks[i].depends_on@[k]@;
            &&& exists|j: int| 0 <= j < tasks.len() && #[trigger] tasks[j].name@ == dep
            &&& forall|j: int| 0 <= j < tasks.len() && #[trigger] tasks[j].name@ == dep ==> tasks[j].hook is None
        } by {
            assert(dependency_ok(tasks, i, k));
        }
    }
    if sound_dependencies(tasks) {
        assert forall|a: int, b: int|
            0 <= a < tasks.len() && 0 <= b < tasks[a].depends_on@.len() implies #[trigger] dependency_ok(
            tasks,
            a,
            b,
        ) by {
            let dep = tasks[a].depends_on@[b]@;
            assert(known(tasks, dep));
        }
    }
}

proof fn lemma_edges_into(tasks: Seq<TaskSpec>, i: int, k: int, e: (int, int))
    requires
        0 <= k,
    ensures
        edges_into(tasks, i, k).contains(e) <==> e.1 == i && exists|d: int|
            0 <= d < k && task_index(tasks, #[trigger] tasks[i].depends_on@[d]@) == e.0,
    decreases k,
{
    if k > 0 {
        lemma_edges_into(tasks, i, k - 1, e);
        let rest = edges_into(tasks, i, k - 1);
        let out = edges_into(tasks, i, k);
        assert(tasks[i].depends_on@[k - 1]@ == tasks[i].depends_on@[k - 1]@);
        if out.contains(e) {
            let m = choose|m: int| 0 <= m < out.len() && out[m] == e;
            if m < rest.len() {
                assert(rest[m] == e);
                assert(rest.contains(e));
            }
        }
        if rest.contains(e) {
            let m = choose|m: int| 0 <= m < rest.len() && rest[m] == e;
            assert(out[m] == e);
        }
        if e == out.last() {
            assert(out[out.len() - 1] == e);
        }
    }
}

proof fn lemma_edges_upto(tasks: Seq<TaskSpec>, n: int, e: (int, int))
    requires
        0 <= n <= tasks.len(),
    ensures
        edges_upto(tasks, n).contains(e) <==> 0 <= e.1 < n && exists|d: int|
            0 <= d < tasks[e.1].depends_on@.len() && task_index(tasks, #[trigger] tasks[e.1].depends_on@[d]@)
                == e.0,
    decreases n,
{
    if n > 0 {
        lemma_edges_upto(tasks, n - 1, e);
        let rest = edges_upto(tasks, n - 1);
        let own = edges_into(tasks, n - 1, tasks[n - 1].depends_on@.len() as int);
        let out = edges_upto(tasks, n);
        lemma_edges_into(tasks, n - 1, tasks[n - 1].depends_on@.len() as int, e);
        assert(out == rest + own);
        if out.contains(e) {
            let m = choose|m: int| 0 <= m < out.len() && out[m] == e;
            if m < rest.len() {
                assert(rest[m] == e);
                assert(rest.contains(e));
            } else {
                assert(own[m - rest.len()] == e);
                assert(own.contains(e));
            }
        }
        if rest.contains(e) {
            let m = choose|m: int| 0 <= m < rest.len() && rest[m] == e;
            assert(out[m] == e);
        }
        if own.contains(e) {
            let m = choose|m: int| 0 <= m < own.len() && own[m] == e;
            assert(out[rest.len() + m] == e);
        }
    }
}

/// Where names are distinct and dependencies are known, the edges of the graph
/// are the dependencies.
proof fn lemma_edge_is_dependency(tasks: Seq<TaskSpec>, a: int, b: int)
    requires
        distinct_names(tasks),
        sound_dependencies(tasks),
    ensures
        dependency_edges(tasks).contains((a, b)) <==> 0 <= a < tasks.len() && 0 <= b < tasks.len()
            && names_dependency(tasks, b, a),
{
    let n = tasks.len() as int;
    lemma_edges_upto(tasks, n, (a, b));
    if dependency_edges(tasks).contains((a, b)) {
        let d = choose|d: int|
            0 <= d < tasks[b].depends_on@.len() && task_index(tasks, #[trigger] tasks[b].depends_on@[d]@) == a;
        let dep = tasks[b].depends_on@[d]@;
        assert(known(tasks, dep));
        assert(0 <= a < n && tasks[a].name@ == dep);
    }
    if 0 <= a < n && 0 <= b < n && names_dependency(tasks, b, a) {
        let d = choose|d: int|
            0 <= d < tasks[b].depends_on@.len() && #[trigger] tasks[b].depends_on@[d]@ == tasks[a].name@;
        let j = task_index(tasks, tasks[a].name@);
        assert(tasks[a].name@ == tasks[a].name@);
        assert(0 <= j < n && tasks[j].name@ == tasks[a].name@);
        assert(j == a);
    }
}

proof fn lemma_walk_is_chain(tasks: Seq<TaskSpec>, path: Seq<int>)
    requires
        distinct_names(tasks),
        sound_dependencies(tasks),
        path.len() >= 2,
    ensures
        is_walk(dependency_edges(tasks), path) ==> chain(tasks, path),
        chain(tasks, path) ==> is_walk(dependency_edges(tasks), path),
{
    let edges = dependency_edges(tasks);
    if is_walk(edges, path) {
        assert forall|k: int| 0 <= k < path.len() - 1 implies #[trigger] link(tasks, path, k) by {
            let (a, b) = (path[k], path[k + 1]);
            assert(edges.contains((a, b)));
            lemma_edge_is_dependency(tasks, a, b);
        }
        assert forall|k: int| 0 <= k < path.len() implies 0 <= #[trigger] path[k] < tasks.len() by {
            let e = if k == 0 { 0 } else { k - 1 };
            let (a, b) = (path[e], path[e + 1]);
            assert(edges.contains((a, b)));
            lemma_edge_is_dependency(tasks, a, b);
        }
    }
    if chain(tasks, path) {
        assert forall|k: int| 0 <= k < path.len() - 1 implies edges.contains(
            (#[trigger] path[k], path[k + 1]),
        ) by {
            let (a, b) = (path[k], path[k + 1]);
            assert(link(tasks, path, k));
            lemma_edge_is_dependency(tasks, a, b);
        }
    }
}

proof fn lemma_circle(tasks: Seq<TaskSpec>)
    requires
        distinct_names(tasks),
        sound_dependencies(tasks),
    ensures
        has_cycle(dependency_edges(tasks)) <==> !no_circle(tasks),
{
    let edges = dependency_edges(tasks);
    if has_cycle(edges) {
        let path = choose|path: Seq<int>|
            path.len() >= 2 && path[0] == path[path.len() - 1] && #[trigger] is_walk(edges, path);
        lemma_walk_is_chain(tasks, path);
        assert(chain(tasks, path));
    }
    if !no_circle(tasks) {
        let path = choose|path: Seq<int>|
            path.len() >= 2 && #[trigger] chain(tasks, path) && path[0] == path[path.len() - 1];
        lemma_walk_is_chain(tasks, path);
        assert(is_walk(edges, path));
    }
}

proof fn lemma_references_from(refs: Seq<Seq<char>>, deps: Seq<Seq<char>>, k: int)
    requires
        0 <= k,
    ensures
        reference_fault(refs, deps, k) is None <==> forall|r: int|
            k <= r < refs.len() ==> deps.contains(#[trigger] refs[r]),
    decreases refs.len() - k,
{
    if k < refs.len() {
        lemma_references_from(refs, deps, k + 1);
        assert(refs[k] == refs[k]);
    }
}

proof fn lemma_references(tasks: Seq<TaskSpec>, i: int)
    requires
        0 <= i < tasks.len(),
    ensures
        when_fault(tasks[i]) is None && fanout_fault(tasks, i) is None <==> sound_references(tasks[i]),
{
    let t = tasks[i];
    match t.when {
        Some(cond) => {
            let refs = output_refs(cond@);
            let deps = texts(t.depends_on@);
            lemma_references_from(refs, deps, 0);
            assert forall|r: int| 0 <= r < refs.len() implies (deps.contains(#[trigger] refs[r]) <==> exists|
                k: int,
            |
                0 <= k < t.depends_on@.len() && #[trigger] t.depends_on@[k]@ == refs[r]) by {
                if deps.contains(refs[r]) {
                    let k = choose|k: int| 0 <= k < deps.len() && deps[k] == refs[r];
                    assert(t.depends_on@[k]@ == refs[r]);
                }
                if exists|k: int| 0 <= k < t.depends_on@.len() && #[trigger] t.depends_on@[k]@ == refs[r] {
                    let k = choose|k: int|
                        0 <= k < t.depends_on@.len() && #[trigger] t.depends_on@[k]@ == refs[r];
                    assert(deps[k] == refs[r]);
                }
            }
            if when_fault(t) is None {
                assert forall|r: int| 0 <= r < output_refs(cond@).len() implies exists|k: int|
                    0 <= k < t.depends_on@.len() && #[trigger] t.depends_on@[k]@ == #[trigger] output_refs(
                        cond@,
                    )[r] by {
                    assert(deps.contains(refs[r]));
                }
            }
        },
        None => {},
    }
}

proof fn lemma_whens_from(tasks: Seq<TaskSpec>, i: int)
    requires
        0 <= i,
    ensures
        whens_fault(tasks, i) is None <==> forall|k: int|
            i <= k < tasks.len() ==> when_fault(#[trigger] tasks[k]) is None,
    decreases tasks.len() - i,
{
    if i < tasks.len() {
        lemma_whens_from(tasks, i + 1);
        assert(tasks[i] == tasks[i]);
    }
}

spec fn fans_out_well(tasks: Seq<TaskSpec>, k: int) -> bool {
    fanout_fault(tasks, k) is None
}

proof fn lemma_fanouts_from(tasks: Seq<TaskSpec>, i: int)
    requires
        0 <= i,
    ensures
        fanouts_fault(tasks, i) is None <==> forall|k: int|
            i <= k < tasks.len() ==> #[trigger] fans_out_well(tasks, k),
    decreases tasks.len() - i,
{
    if i < tasks.len() {
        lemma_fanouts_from(tasks, i + 1);
        if fanouts_fault(tasks, i) is None {
            assert forall|k: int| i <= k < tasks.len() implies #[trigger] fans_out_well(tasks, k) by {
                assert(k == i || k >= i + 1);
            }
        } else if fans_out_well(tasks, i) {
            let k = choose|k: int| i + 1 <= k < tasks.len() && !#[trigger] fans_out_well(tasks, k);
            assert(!fans_out_well(tasks, k));
        }
    }
}

// ── Acceptance ───────────────────────────────────────────────────────────────

/// The workflow keeps every rule.
pub open spec fn sound(spec: DagSpec, edition: Edition) -> bool {
    &&& sound_header(spec, edition)
    &&& forall|i: int| 0 <= i < spec.tasks@.len() ==> #[trigger] sound_task(spec, i, edition)
    &&& sound_dependencies(spec.tasks@)
    &&& no_circle(spec.tasks@)
    &&& forall|i: int| 0 <= i < spec.tasks@.len() ==> sound_references(#[trigger] spec.tasks@[i])
    &&& sound_result(spec)
}

/// A workflow is accepted exactly where it keeps every rule: options that there
/// are, names that are distinct, dependencies that exist and lead nowhere back,
/// outputs that are there to be read, and budgets that are kept.
pub proof fn law_sound_workflows_are_accepted(spec: DagSpec, edition: Edition)
    ensures
        workflow_fault(spec, edition) is None <==> sound(spec, edition),
{
    let tasks = spec.tasks@;
    lemma_header(spec, edition);
    lemma_tasks_from(spec, 0, edition);
    lemma_edges(tasks);
    lemma_whens_from(tasks, 0);
    lemma_fanouts_from(tasks, 0);
    if tasks_fault(spec, 0, edition) is None {
        assert forall|i: int, j: int| 0 <= i < j < tasks.len() implies #[trigger] tasks[i].name@
            != #[trigger] tasks[j].name@ by {
            assert(sound_task(spec, j, edition));
        }
        assert(distinct_names(tasks));
        if sound_dependencies(tasks) {
            lemma_circle(tasks);
        }
    }
    if whens_fault(tasks, 0) is None && fanouts_fault(tasks, 0) is None {
        assert forall|i: int| 0 <= i < tasks.len() implies sound_references(#[trigger] tasks[i]) by {
            assert(fans_out_well(tasks, i));
            lemma_references(tasks, i);
        }
    }
    if forall|i: int| 0 <= i < tasks.len() ==> sound_references(#[trigger] tasks[i]) {
        assert forall|i: int| 0 <= i < tasks.len() implies when_fault(#[trigger] tasks[i]) is None by {
            lemma_references(tasks, i);
        }
        assert forall|i: int| 0 <= i < tasks.len() implies #[trigger] fans_out_well(tasks, i) by {
            assert(sound_references(tasks[i]));
            lemma_references(tasks, i);
        }
    }
}

/// A trigger rule is one of five, and each of them is accepted: the rule alone
/// never has a sound task refused, and any other text is refused for it.
pub proof fn law_trigger_rules_are_five(t: TaskSpec)
    requires
        t.max_attempts >= 1,
    ensures
        kind_fault(t) == Some(Fault::BadTriggerRule) <==> t.trigger_rule is Some && t.trigger_rule->0@
            != "all_success"@ && t.trigger_rule->0@ != "all_done"@ && t.trigger_rule->0@ != "one_failed"@
            && t.trigger_rule->0@ != "all_failed"@ && t.trigger_rule->0@ != "none_failed"@,
{
}

// ── Refusal ──────────────────────────────────────────────────────────────────

/// The workflow breaks this rule apart from its tasks.
pub open spec fn header_breaks(spec: DagSpec, f: Fault, edition: Edition) -> bool {
    let n = spec.tasks@.len() as int;
    match f {
        Fault::ZeroRunTimeout => spec.run_timeout_secs == Some(0u64),
        Fault::ZeroTaskBudget => spec.budget matches Some(b) && b.tasks == Some(0u32),
        Fault::TaskBudget { max, planned } => spec.budget matches Some(b) && b.tasks == Some(max)
            && planned_rows(spec.tasks@, n) > max && planned == planned_rows(spec.tasks@, n) as u64,
        Fault::ZeroExternalBudget => spec.budget matches Some(b) && b.external_cost == Some(0u64),
        Fault::ExternalBudget { max, planned, deferred_tasks } => spec.budget matches Some(b)
            && b.external_cost == Some(max) && external_cost(spec.tasks@, n) > max && planned == (if external_cost(
            spec.tasks@,
            n,
        ) > u64::MAX {
            u64::MAX as int
        } else {
            external_cost(spec.tasks@, n) as int
        }) && deferred_tasks == deferred_rows(spec.tasks@, n) as u64,
        Fault::CostAttribution => edition == Edition::Open && (spec.budget matches Some(b)
            && b.external_cost_attribution),
        Fault::BadDeadline { fault } => spec.deadline matches Some(d) && duration(d.within@) == Err::<
            nat,
            crate::duration::DurationFault,
        >(fault),
        Fault::BadWorkflowClass { fault } => spec.runner_class matches Some(c) && label_fault(
            LabelKind::RunnerClass,
            c@,
        ) == Some(fault),
        Fault::BadTag { index, fault } => index < spec.tags@.len() && label_fault(
            LabelKind::Tag,
            spec.tags@[index as int]@,
        ) == Some(fault),
        Fault::BadOnDataset { index, fault } => index < spec.on_datasets@.len() && label_fault(
            LabelKind::Dataset,
            spec.on_datasets@[index as int]@,
        ) == Some(fault),
        Fault::DuplicateOnDataset { index } => index < spec.on_datasets@.len() && exists|j: int|
            0 <= j < index && #[trigger] spec.on_datasets@[j]@ == spec.on_datasets@[index as int]@,
        Fault::BadDatasetsMode => spec.datasets_mode matches Some(m) && m@ != "any"@ && m@ != "all"@,
        Fault::DatasetsModeAlone => spec.datasets_mode is Some && spec.on_datasets@.len() == 0,
        _ => false,
    }
}

/// Task `i` breaks this rule on its own.
pub open spec fn task_breaks(spec: DagSpec, i: int, f: Fault, edition: Edition) -> bool {
    let t = spec.tasks@[i];
    match f {
        Fault::DuplicateTask => exists|j: int|
            0 <= j < i && #[trigger] spec.tasks@[j].name@ == t.name@,
        Fault::UnknownFaultClass { index } => index < t.retry_budgets.entries@.len() && !known_class(
            t.retry_budgets.entries@[index as int].0@,
        ),
        Fault::ZeroMaxAttempts => t.max_attempts == 0,
        Fault::BadTriggerRule => t.trigger_rule matches Some(s) && s@ != "all_success"@ && s@ != "all_done"@
            && s@ != "one_failed"@ && s@ != "all_failed"@ && s@ != "none_failed"@,
        Fault::BadHook => t.hook matches Some(s) && s@ != "on_exit"@ && s@ != "on_failure"@,
        Fault::BadType => t.task_type matches Some(s) && s@ != "task"@ && s@ != "approval"@ && s@
            != "workflow"@ && s@ != "wait"@,
        Fault::BadApprovalAction => t.approval_on_timeout matches Some(s) && s@ != "approve"@ && s@
            != "reject"@,
        Fault::ApprovalHook => of_type(t, "approval"@) && t.hook is Some,
        Fault::NoWorkflowTarget => of_type(t, "workflow"@) && (t.workflow matches Some(w) ==> blank(w@)),
        Fault::WorkflowCommand => of_type(t, "workflow"@) && t.command@.len() > 0,
        Fault::WorkflowHook => of_type(t, "workflow"@) && t.hook is Some,
        Fault::StrayWorkflow => !of_type(t, "workflow"@) && t.workflow is Some,
        Fault::NotOneWait => of_type(t, "wait"@) && (t.wait matches Some(w) && !(w.wait_for is Some
            && w.until is None && w.url is None && w.dataset is None) && !(w.wait_for is None && w.until
            is Some && w.url is None && w.dataset is None) && !(w.wait_for is None && w.until is None
            && w.url is Some && w.dataset is None) && !(w.wait_for is None && w.until is None && w.url
            is None && w.dataset is Some)),
        Fault::BadWaitFor { fault } => of_type(t, "wait"@) && (t.wait matches Some(w) && w.wait_for matches Some(
            d,
        ) && duration(d@) == Err::<nat, crate::duration::DurationFault>(fault)),
        Fault::BadWaitUntil => of_type(t, "wait"@) && (t.wait matches Some(w) && w.until matches Some(u)
            && rfc3339_value(u@) is Err),
        Fault::BadWaitUrl => of_type(t, "wait"@) && (t.wait matches Some(w) && w.url matches Some(u)
            && !http_scheme(trimmed(u@))),
        Fault::BadWaitDataset { fault } => of_type(t, "wait"@) && (t.wait matches Some(w)
            && w.dataset matches Some(d) && label_fault(LabelKind::Dataset, d@) == Some(fault)),
        Fault::NoWaitBlock => of_type(t, "wait"@) && t.wait is None,
        Fault::WaitCommand => of_type(t, "wait"@) && t.command@.len() > 0,
        Fault::WaitHook => of_type(t, "wait"@) && t.hook is Some,
        Fault::StrayWait => !of_type(t, "wait"@) && t.wait is Some,
        Fault::ProducesKind => t.produces@.len() > 0 && (of_type(t, "approval"@) || of_type(t, "workflow"@)
            || of_type(t, "wait"@)),
        Fault::BadProduces { index, fault } => index < t.produces@.len() && label_fault(
            LabelKind::Dataset,
            t.produces@[index as int]@,
        ) == Some(fault),
        Fault::DuplicateProduces { index } => index < t.produces@.len() && exists|j: int|
            0 <= j < index && #[trigger] t.produces@[j]@ == t.produces@[index as int]@,
        Fault::BadRunnerClass { fault } => t.runner_class matches Some(c) && label_fault(
            LabelKind::RunnerClass,
            c@,
        ) == Some(fault),
        Fault::BadPool { fault } => t.pool matches Some(p) && label_fault(LabelKind::Pool, p@) == Some(fault),
        Fault::EmptyCacheKey => t.cache matches Some(c) && blank(c.key@),
        Fault::BadIsolation => t.isolation matches Some(i) && i.complaint is Some,
        Fault::ZeroGpu => t.resources matches Some(r) && r.gpu matches Some(g) && g.count == 0,
        Fault::EmptyGpuResource => t.resources matches Some(r) && r.gpu matches Some(g)
            && g.resource matches Some(k) && blank(k@),
        Fault::GangTooSmall => t.gang matches Some(g) && g.size < 2,
        Fault::GangRetries => t.gang is Some && t.max_attempts > 1,
        Fault::GangLoopOrGate => t.gang is Some && (t.repeat is Some || of_type(t, "approval"@) || t.template
            is Some),
        Fault::GangTriggerOrSensor => t.gang is Some && (of_type(t, "workflow"@) || of_type(t, "wait"@)),
        Fault::GangResult => t.gang is Some && (spec.result_from matches Some(r) && r@ == t.name@),
        Fault::EmptyUntil => t.repeat matches Some(r) && blank(r.until@),
        Fault::ZeroIterations => t.repeat matches Some(r) && r.max_iterations == 0,
        Fault::RepeatDelay => t.repeat matches Some(r) && r.delay_secs > 365 * 24 * 60 * 60,
        Fault::RepeatKind => t.repeat is Some && !command_task(t) && !of_type(t, "workflow"@),
        Fault::EmptyDeferKind => t.defer matches Some(d) && blank(d.kind@),
        Fault::ZeroPoll => t.defer matches Some(d) && d.poll_secs == 0,
        Fault::LongPoll => t.defer matches Some(d) && d.poll_secs > 365 * 24 * 60 * 60,
        Fault::ShortMaxWait => t.defer matches Some(d) && d.max_wait_secs matches Some(m) && m < d.poll_secs,
        Fault::DeferRepeat => t.defer is Some && t.repeat is Some,
        Fault::DeferKind => t.defer is Some && !command_task(t),
        Fault::DeferGang => t.defer is Some && t.gang is Some,
        Fault::EmptyDeferUrl => t.defer matches Some(d) && d.http matches Some(h) && blank(h.url@),
        Fault::BadDeferUrl => t.defer matches Some(d) && d.http matches Some(h) && !http_scheme(
            trimmed(h.url@),
        ),
        Fault::NamelessHeader => t.defer matches Some(d) && d.http matches Some(h) && exists|k: int|
            0 <= k < h.headers@.len() && blank(#[trigger] h.headers@[k].name@),
        Fault::BadCancelUrl => t.defer matches Some(d) && d.http matches Some(h) && h.cancel matches Some(c)
            && !http_scheme(trimmed(c.url@)),
        Fault::BadCancelMethod => t.defer matches Some(d) && d.http matches Some(h) && h.cancel matches Some(c)
            && c.method matches Some(m) && ({
            let verb = trimmed(m@).map_values(|c: char| upper_char(c));
            verb != "DELETE"@ && verb != "POST"@ && verb != "PUT"@ && verb != "PATCH"@
        }),
        Fault::BadSucceedWhen { fault } => t.defer matches Some(d) && d.http matches Some(h)
            && predicate_fault(h.succeed_when@) == Some(fault),
        Fault::BadFailWhen { fault } => t.defer matches Some(d) && d.http matches Some(h)
            && h.fail_when matches Some(p) && predicate_fault(p@) == Some(fault),
        Fault::BadErrorFrom { fault } => t.defer matches Some(d) && d.http matches Some(h)
            && h.error_from matches Some(p) && path_fault(p@) == Some(fault),
        Fault::DeferConnection => edition == Edition::Open && (t.defer matches Some(d) && d.connection is Some),
        Fault::StrayArguments => t.arguments.entries@.len() > 0 && !of_type(t, "workflow"@),
        Fault::SurvivingTemplate => t.template is Some,
        Fault::NoCommand => t.command@.len() == 0 && !of_type(t, "approval"@) && !of_type(t, "workflow"@)
            && !of_type(t, "wait"@),
        _ => false,
    }
}

/// The workflow breaks this rule between its tasks.
pub open spec fn graph_breaks(spec: DagSpec, f: Fault, place: Option<int>) -> bool {
    let tasks = spec.tasks@;
    match (f, place) {
        (Fault::UnknownDependency { index }, Some(i)) => index < tasks[i].depends_on@.len() && forall|j: int|
            0 <= j < tasks.len() ==> #[trigger] tasks[j].name@ != tasks[i].depends_on@[index as int]@,
        (Fault::DependsOnHook { index }, Some(i)) => index < tasks[i].depends_on@.len() && exists|j: int|
            0 <= j < tasks.len() && #[trigger] tasks[j].name@ == tasks[i].depends_on@[index as int]@
                && tasks[j].hook is Some,
        (Fault::Cycle, None) => !no_circle(tasks),
        (Fault::WhenReference { index }, Some(i)) => tasks[i].when matches Some(cond) && index < output_refs(
            cond@,
        ).len() && forall|k: int|
            0 <= k < tasks[i].depends_on@.len() ==> #[trigger] tasks[i].depends_on@[k]@ != output_refs(
                cond@,
            )[index as int],
        (Fault::UnknownProducer, Some(i)) => tasks[i].with_output_of matches Some(p) && forall|j: int|
            0 <= j < tasks.len() ==> !producer_row(p@, #[trigger] tasks[j].name@),
        (Fault::ProducerNotDependency, Some(i)) => tasks[i].with_output_of matches Some(p) && (exists|j: int|
            0 <= j < tasks.len() && producer_row(p@, #[trigger] tasks[j].name@)) && forall|k: int|
            0 <= k < tasks[i].depends_on@.len() ==> !producer_row(p@, #[trigger] tasks[i].depends_on@[k]@),
        (Fault::OwnOutput, Some(i)) => tasks[i].with_output_of matches Some(p) && p@ == tasks[i].name@,
        (Fault::UnknownResult, None) => spec.result_from matches Some(r) && forall|j: int|
            0 <= j < tasks.len() ==> #[trigger] tasks[j].name@ != r@,
        (Fault::HookResult, None) => spec.result_from matches Some(r) && exists|j: int|
            0 <= j < tasks.len() && #[trigger] tasks[j].name@ == r@ && tasks[j].hook is Some,
        _ => false,
    }
}

proof fn lemma_tag_breaks(spec: DagSpec, i: int, edition: Edition)
    requires
        0 <= i,
    ensures
        tag_fault(spec.tags@, i) matches Some(f) ==> header_breaks(spec, f, edition),
    decreases spec.tags@.len() - i,
{
    assert(spec.tags@.len() == spec.tags.len());
    if i < spec.tags@.len() {
        lemma_tag_breaks(spec, i + 1, edition);
    }
}

proof fn lemma_on_dataset_breaks(spec: DagSpec, i: int, edition: Edition)
    requires
        0 <= i,
    ensures
        on_datasets_fault(spec.on_datasets@, i) matches Some(f) ==> header_breaks(spec, f, edition),
    decreases spec.on_datasets@.len() - i,
{
    assert(spec.on_datasets@.len() == spec.on_datasets.len());
    if i < spec.on_datasets@.len() {
        lemma_on_dataset_breaks(spec, i + 1, edition);
    }
}

proof fn lemma_budget_breaks(spec: DagSpec, edition: Edition)
    ensures
        budget_fault(spec, edition) matches Some(f) ==> header_breaks(spec, f, edition),
{
}

proof fn lemma_header_breaks(spec: DagSpec, edition: Edition)
    ensures
        header_fault(spec, edition) matches Some(f) ==> header_breaks(spec, f, edition),
{
    lemma_budget_breaks(spec, edition);
    lemma_tag_breaks(spec, 0, edition);
    lemma_on_dataset_breaks(spec, 0, edition);
}

proof fn lemma_class_breaks(spec: DagSpec, i: int, k: int, edition: Edition)
    requires
        0 <= k,
    ensures
        budget_key_fault(spec.tasks@[i].retry_budgets.entries@, k) matches Some(f) ==> task_breaks(
            spec,
            i,
            f,
            edition,
        ),
    decreases spec.tasks@[i].retry_budgets.entries@.len() - k,
{
    let entries = spec.tasks@[i].retry_budgets.entries;
    assert(entries@.len() == entries.len());
    if k < entries@.len() {
        lemma_canonical(entries@[k].0@);
        lemma_class_breaks(spec, i, k + 1, edition);
    }
}

proof fn lemma_product_breaks(spec: DagSpec, i: int, k: int, edition: Edition)
    requires
        0 <= k,
    ensures
        products_fault(spec.tasks@[i].produces@, k) matches Some(f) ==> task_breaks(spec, i, f, edition),
    decreases spec.tasks@[i].produces@.len() - k,
{
    let uris = spec.tasks@[i].produces;
    assert(uris@.len() == uris.len());
    if k < uris@.len() {
        lemma_product_breaks(spec, i, k + 1, edition);
    }
}

proof fn lemma_kind_breaks(spec: DagSpec, i: int, edition: Edition)
    ensures
        kind_fault(spec.tasks@[i]) matches Some(f) ==> task_breaks(spec, i, f, edition),
        trigger_fault(spec.tasks@[i]) matches Some(f) ==> task_breaks(spec, i, f, edition),
{
}

proof fn lemma_sensor_breaks(spec: DagSpec, i: int, edition: Edition)
    ensures
        sensor_fault(spec.tasks@[i]) matches Some(f) ==> task_breaks(spec, i, f, edition),
{
}

proof fn lemma_place_breaks(spec: DagSpec, i: int, edition: Edition)
    ensures
        placement_fault(spec.tasks@[i]) matches Some(f) ==> task_breaks(spec, i, f, edition),
        gang_fault(spec, spec.tasks@[i]) matches Some(f) ==> task_breaks(spec, i, f, edition),
{
}

proof fn lemma_loop_breaks(spec: DagSpec, i: int, edition: Edition)
    ensures
        repeat_fault(spec.tasks@[i]) matches Some(f) ==> task_breaks(spec, i, f, edition),
        leaf_fault(spec.tasks@[i]) matches Some(f) ==> task_breaks(spec, i, f, edition),
{
}

proof fn lemma_defer_breaks(spec: DagSpec, i: int, edition: Edition)
    ensures
        defer_fault(spec.tasks@[i], edition) matches Some(f) ==> task_breaks(spec, i, f, edition),
{
}

proof fn lemma_task_breaks(spec: DagSpec, i: int, edition: Edition)
    ensures
        task_fault(spec, i, edition) matches Some(f) ==> task_breaks(spec, i, f, edition),
{
    lemma_class_breaks(spec, i, 0, edition);
    lemma_product_breaks(spec, i, 0, edition);
    lemma_kind_breaks(spec, i, edition);
    lemma_sensor_breaks(spec, i, edition);
    lemma_place_breaks(spec, i, edition);
    lemma_loop_breaks(spec, i, edition);
    lemma_defer_breaks(spec, i, edition);
}

proof fn lemma_tasks_break(spec: DagSpec, from: int, edition: Edition)
    requires
        0 <= from,
    ensures
        tasks_fault(spec, from, edition) matches Some((f, i)) ==> from <= i < spec.tasks@.len()
            && task_breaks(spec, i, f, edition) && forall|k: int|
            from <= k < i ==> #[trigger] sound_task(spec, k, edition),
    decreases spec.tasks@.len() - from,
{
    if from < spec.tasks@.len() {
        lemma_tasks_break(spec, from + 1, edition);
        lemma_task_breaks(spec, from, edition);
        lemma_task(spec, from, edition);
        match tasks_fault(spec, from, edition) {
            Some((f, i)) => {
                assert forall|k: int| from <= k < i implies #[trigger] sound_task(spec, k, edition) by {
                    assert(k == from || k >= from + 1);
                }
            },
            None => {},
        }
    }
}

proof fn lemma_edges_break(spec: DagSpec, i: int, k: int)
    requires
        0 <= i,
        0 <= k,
    ensures
        edges_fault(spec.tasks@, i, k) matches Some((f, at)) ==> i <= at < spec.tasks@.len() && graph_breaks(
            spec,
            f,
            Some(at),
        ),
    decreases
            spec.tasks@.len() - i,
            (if 0 <= i < spec.tasks@.len() { spec.tasks@[i].depends_on@.len() } else { 0 }) - k,
{
    let tasks = spec.tasks@;
    if i < tasks.len() {
        assert(tasks[i].depends_on@.len() == tasks[i].depends_on.len());
        if k < tasks[i].depends_on@.len() {
            lemma_edges_break(spec, i, k + 1);
        } else {
            lemma_edges_break(spec, i + 1, 0);
        }
    }
}

proof fn lemma_reference_breaks(refs: Seq<Seq<char>>, deps: Seq<Seq<char>>, k: int)
    requires
        0 <= k,
        refs.len() <= usize::MAX,
    ensures
        reference_fault(refs, deps, k) matches Some(f) ==> (f matches Fault::WhenReference { index }
            && index < refs.len() && !deps.contains(refs[index as int])),
    decreases refs.len() - k,
{
    if k < refs.len() {
        lemma_reference_breaks(refs, deps, k + 1);
    }
}

proof fn lemma_whens_break(spec: DagSpec, from: int)
    requires
        0 <= from,
        forall|i: int|
            0 <= i < spec.tasks@.len() && (#[trigger] spec.tasks@[i]).when is Some ==> output_refs(
                spec.tasks@[i].when->0@,
            ).len() <= usize::MAX,
    ensures
        whens_fault(spec.tasks@, from) matches Some((f, i)) ==> from <= i < spec.tasks@.len()
            && graph_breaks(spec, f, Some(i)),
    decreases spec.tasks@.len() - from,
{
    let tasks = spec.tasks@;
    if from < tasks.len() {
        lemma_whens_break(spec, from + 1);
        let t = tasks[from];
        if t.when is Some {
            let refs = output_refs(t.when->0@);
            let deps = texts(t.depends_on@);
            lemma_reference_breaks(refs, deps, 0);
            match when_fault(t) {
                Some(Fault::WhenReference { index }) => {
                    assert forall|k: int| 0 <= k < t.depends_on@.len() implies #[trigger] t.depends_on@[k]@
                        != refs[index as int] by {
                        assert(deps[k] == t.depends_on@[k]@);
                    }
                },
                _ => {},
            }
        }
    }
}

proof fn lemma_fanouts_break(spec: DagSpec, from: int)
    requires
        0 <= from,
    ensures
        fanouts_fault(spec.tasks@, from) matches Some((f, i)) ==> from <= i < spec.tasks@.len()
            && (sound_dependencies(spec.tasks@) ==> graph_breaks(spec, f, Some(i))),
    decreases spec.tasks@.len() - from,
{
    if from < spec.tasks@.len() {
        lemma_fanouts_break(spec, from + 1);
    }
}

/// A refusal names a rule that the workflow breaks, and the task that breaks it.
/// Rules of the workflow as a whole come first, then those of each task in turn,
/// then those between tasks.
pub proof fn law_refusal_names_a_broken_rule(spec: DagSpec, edition: Edition)
    requires
        forall|i: int|
            0 <= i < spec.tasks@.len() && (#[trigger] spec.tasks@[i]).when is Some ==> output_refs(
                spec.tasks@[i].when->0@,
            ).len() <= usize::MAX,
    ensures
        workflow_fault(spec, edition) matches Some((f, place)) ==> {
            ||| place is None && header_breaks(spec, f, edition)
            ||| {
                &&& sound_header(spec, edition)
                &&& place matches Some(i) && 0 <= i < spec.tasks@.len() && task_breaks(spec, i, f, edition)
                    && forall|k: int| 0 <= k < i ==> #[trigger] sound_task(spec, k, edition)
            }
            ||| {
                &&& sound_header(spec, edition)
                &&& forall|k: int| 0 <= k < spec.tasks@.len() ==> #[trigger] sound_task(spec, k, edition)
                &&& place matches Some(i) ==> 0 <= i < spec.tasks@.len()
                &&& graph_breaks(spec, f, place)
            }
        },
{
    let tasks = spec.tasks@;
    lemma_header(spec, edition);
    lemma_header_breaks(spec, edition);
    lemma_tasks_from(spec, 0, edition);
    lemma_tasks_break(spec, 0, edition);
    lemma_edges(tasks);
    lemma_edges_break(spec, 0, 0);
    lemma_whens_break(spec, 0);
    lemma_fanouts_break(spec, 0);
    if tasks_fault(spec, 0, edition) is None {
        assert forall|i: int, j: int| 0 <= i < j < tasks.len() implies #[trigger] tasks[i].name@
            != #[trigger] tasks[j].name@ by {
            assert(sound_task(spec, j, edition));
        }
        if sound_dependencies(tasks) {
            lemma_circle(tasks);
        }
    }
}

// ── Sums ─────────────────────────────────────────────────────────────────────

proof fn lemma_sums_prefix(a: Seq<TaskSpec>, b: Seq<TaskSpec>, n: int)
    requires
        0 <= n <= a.len(),
        n <= b.len(),
        forall|k: int| 0 <= k < n ==> #[trigger] a[k] == b[k],
    ensures
        planned_rows(a, n) == planned_rows(b, n),
        external_cost(a, n) == external_cost(b, n),
        deferred_rows(a, n) == deferred_rows(b, n),
    decreases n,
{
    if n > 0 {
        lemma_sums_prefix(a, b, n - 1);
        assert(a[n - 1] == b[n - 1]);
    }
}

/// One more task brings one row more, or one for each member of its gang. If it
/// is deferred, each of these rows costs what the task declares, or one.
pub proof fn law_each_task_adds_its_rows(tasks: Seq<TaskSpec>, t: TaskSpec)
    ensures
        ({
            let n = tasks.len() as int;
            let rows = match t.gang {
                Some(g) => g.size as int,
                None => 1,
            };
            let cost = match t.defer {
                Some(d) => match d.cost {
                    Some(c) => c as int,
                    None => 1,
                },
                None => 0,
            };
            &&& planned_rows(tasks.push(t), n + 1) == planned_rows(tasks, n) + rows
            &&& external_cost(tasks.push(t), n + 1) == external_cost(tasks, n) + cost * rows
            &&& deferred_rows(tasks.push(t), n + 1) == deferred_rows(tasks, n) + (if t.defer is Some {
                rows
            } else {
                0
            })
            &&& planned_rows(tasks, 0) == 0 && external_cost(tasks, 0) == 0 && deferred_rows(tasks, 0) == 0
        }),
{
    lemma_sums_prefix(tasks, tasks.push(t), tasks.len() as int);
    assert(tasks.push(t)[tasks.len() as int] == t);
}

} // verus!
