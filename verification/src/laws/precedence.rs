//! In which order the rules are looked at: where several are broken, the first of
//! them is reported.
use vstd::prelude::*;
use crate::labels::{label_fault, LabelKind};
use crate::laws::validation::{
    header_breaks, lemma_budget_keys, lemma_canonical, lemma_products, task_breaks,
};
use crate::rules::{
    budget_key_fault, capped_cost, defer_fault, external_cost, gang_fault, header_fault, kind_fault,
    leaf_fault, on_datasets_fault, placement_fault, produces_fault, products_fault, repeat_fault,
    repeats, sensor_fault, tag_fault, task_fault, trigger_fault, Edition, Fault,
};
use crate::workflow::DagSpec;

verus! {

/// The place of a rule on a task: the name and the budgets of its retries, what
/// kind of task it is, what it triggers, waits for and produces, where it runs,
/// its gang, its loop, its remote job, and last what it runs.
pub open spec fn place_of(f: Fault) -> int {
    match f {
        Fault::DuplicateTask => 0,
        Fault::UnknownFaultClass { .. } => 1,
        Fault::ZeroMaxAttempts => 2,
        Fault::BadTriggerRule => 3,
        Fault::BadHook => 4,
        Fault::BadType => 5,
        Fault::BadApprovalAction => 6,
        Fault::ApprovalHook => 7,
        Fault::NoWorkflowTarget => 8,
        Fault::WorkflowCommand => 9,
        Fault::WorkflowHook => 10,
        Fault::StrayWorkflow => 11,
        Fault::NotOneWait => 12,
        Fault::BadWaitFor { .. } => 13,
        Fault::BadWaitUntil => 14,
        Fault::BadWaitUrl => 15,
        Fault::BadWaitDataset { .. } => 16,
        Fault::NoWaitBlock => 17,
        Fault::WaitCommand => 18,
        Fault::WaitHook => 19,
        Fault::StrayWait => 20,
        Fault::ProducesKind => 21,
        Fault::BadProduces { .. } => 22,
        Fault::DuplicateProduces { .. } => 22,
        Fault::BadRunnerClass { .. } => 23,
        Fault::BadPool { .. } => 24,
        Fault::EmptyCacheKey => 25,
        Fault::BadIsolation => 26,
        Fault::ZeroGpu => 27,
        Fault::EmptyGpuResource => 28,
        Fault::GangTooSmall => 29,
        Fault::GangRetries => 30,
        Fault::GangLoopOrGate => 31,
        Fault::GangTriggerOrSensor => 32,
        Fault::GangResult => 33,
        Fault::EmptyUntil => 34,
        Fault::ZeroIterations => 35,
        Fault::RepeatDelay => 36,
        Fault::RepeatKind => 37,
        Fault::EmptyDeferKind => 38,
        Fault::ZeroPoll => 39,
        Fault::LongPoll => 40,
        Fault::ShortMaxWait => 41,
        Fault::DeferRepeat => 42,
        Fault::DeferKind => 43,
        Fault::DeferGang => 44,
        Fault::EmptyDeferUrl => 45,
        Fault::BadDeferUrl => 46,
        Fault::NamelessHeader => 47,
        Fault::BadCancelUrl => 48,
        Fault::BadCancelMethod => 49,
        Fault::BadSucceedWhen { .. } => 50,
        Fault::BadFailWhen { .. } => 51,
        Fault::BadErrorFrom { .. } => 52,
        Fault::DeferConnection => 53,
        Fault::StrayArguments => 54,
        Fault::SurvivingTemplate => 55,
        Fault::NoCommand => 56,
        _ => 57,
    }
}

proof fn lemma_keys_first(entries: Seq<(String, u32)>, i: int)
    requires
        0 <= i,
    ensures
        budget_key_fault(entries, i) matches Some(f) ==> f is UnknownFaultClass,
    decreases entries.len() - i,
{
    if i < entries.len() {
        lemma_keys_first(entries, i + 1);
    }
}

proof fn lemma_products_first(uris: Seq<String>, i: int)
    requires
        0 <= i,
    ensures
        products_fault(uris, i) matches Some(f) ==> f is BadProduces || f is DuplicateProduces,
    decreases uris.len() - i,
{
    if i < uris.len() {
        lemma_products_first(uris, i + 1);
    }
}

proof fn lemma_first_keys(spec: DagSpec, i: int, g: Fault, edition: Edition)
    requires
        0 <= i < spec.tasks@.len(),
    ensures
        ({
            let t = spec.tasks@[i];
            let found = budget_key_fault(t.retry_budgets.entries@, 0);
            &&& found matches Some(f) ==> 1 <= place_of(f) <= 1
            &&& task_breaks(spec, i, g, edition) && 1 <= place_of(g) <= 1 ==> (found matches Some(f) && place_of(
                f,
            ) <= place_of(g))
        }),
{
    let t = spec.tasks@[i];
    lemma_keys_first(t.retry_budgets.entries@, 0);
    lemma_budget_keys(t.retry_budgets.entries@, 0);
    if g is UnknownFaultClass && task_breaks(spec, i, g, edition) {
        let k = g->UnknownFaultClass_index as int;
        lemma_canonical(t.retry_budgets.entries@[k].0@);
    }
}

proof fn lemma_first_kind(spec: DagSpec, i: int, g: Fault, edition: Edition)
    requires
        0 <= i < spec.tasks@.len(),
    ensures
        ({
            let t = spec.tasks@[i];
            let found = kind_fault(t);
            &&& found matches Some(f) ==> 2 <= place_of(f) <= 7
            &&& task_breaks(spec, i, g, edition) && 2 <= place_of(g) <= 7 ==> (found matches Some(f) && place_of(
                f,
            ) <= place_of(g))
        }),
{
}

proof fn lemma_first_trigger(spec: DagSpec, i: int, g: Fault, edition: Edition)
    requires
        0 <= i < spec.tasks@.len(),
    ensures
        ({
            let t = spec.tasks@[i];
            let found = trigger_fault(t);
            &&& found matches Some(f) ==> 8 <= place_of(f) <= 11
            &&& task_breaks(spec, i, g, edition) && 8 <= place_of(g) <= 11 ==> (found matches Some(f) && place_of(
                f,
            ) <= place_of(g))
        }),
{
}

proof fn lemma_first_sensor(spec: DagSpec, i: int, g: Fault, edition: Edition)
    requires
        0 <= i < spec.tasks@.len(),
    ensures
        ({
            let t = spec.tasks@[i];
            let found = sensor_fault(t);
            &&& found matches Some(f) ==> 12 <= place_of(f) <= 20
            &&& task_breaks(spec, i, g, edition) && 12 <= place_of(g) <= 20 ==> (found matches Some(f) && place_of(
                f,
            ) <= place_of(g))
        }),
{
}

proof fn lemma_first_products(spec: DagSpec, i: int, g: Fault, edition: Edition)
    requires
        0 <= i < spec.tasks@.len(),
    ensures
        ({
            let t = spec.tasks@[i];
            let found = produces_fault(t);
            &&& found matches Some(f) ==> 21 <= place_of(f) <= 22
            &&& task_breaks(spec, i, g, edition) && 21 <= place_of(g) <= 22 ==> (found matches Some(f) && place_of(
                f,
            ) <= place_of(g))
        }),
{
    let t = spec.tasks@[i];
    lemma_products_first(t.produces@, 0);
    lemma_products(t);
}

proof fn lemma_first_placement(spec: DagSpec, i: int, g: Fault, edition: Edition)
    requires
        0 <= i < spec.tasks@.len(),
    ensures
        ({
            let t = spec.tasks@[i];
            let found = placement_fault(t);
            &&& found matches Some(f) ==> 23 <= place_of(f) <= 28
            &&& task_breaks(spec, i, g, edition) && 23 <= place_of(g) <= 28 ==> (found matches Some(f) && place_of(
                f,
            ) <= place_of(g))
        }),
{
}

proof fn lemma_first_gang(spec: DagSpec, i: int, g: Fault, edition: Edition)
    requires
        0 <= i < spec.tasks@.len(),
    ensures
        ({
            let t = spec.tasks@[i];
            let found = gang_fault(spec, t);
            &&& found matches Some(f) ==> 29 <= place_of(f) <= 33
            &&& task_breaks(spec, i, g, edition) && 29 <= place_of(g) <= 33 ==> (found matches Some(f) && place_of(
                f,
            ) <= place_of(g))
        }),
{
}

proof fn lemma_first_loop(spec: DagSpec, i: int, g: Fault, edition: Edition)
    requires
        0 <= i < spec.tasks@.len(),
    ensures
        ({
            let t = spec.tasks@[i];
            let found = repeat_fault(t);
            &&& found matches Some(f) ==> 34 <= place_of(f) <= 37
            &&& task_breaks(spec, i, g, edition) && 34 <= place_of(g) <= 37 ==> (found matches Some(f) && place_of(
                f,
            ) <= place_of(g))
        }),
{
}

proof fn lemma_first_deferral(spec: DagSpec, i: int, g: Fault, edition: Edition)
    requires
        0 <= i < spec.tasks@.len(),
    ensures
        ({
            let t = spec.tasks@[i];
            let found = defer_fault(t, edition);
            &&& found matches Some(f) ==> 38 <= place_of(f) <= 53
            &&& task_breaks(spec, i, g, edition) && 38 <= place_of(g) <= 53 ==> (found matches Some(f) && place_of(
                f,
            ) <= place_of(g))
        }),
{
}

proof fn lemma_first_leaf(spec: DagSpec, i: int, g: Fault, edition: Edition)
    requires
        0 <= i < spec.tasks@.len(),
    ensures
        ({
            let t = spec.tasks@[i];
            let found = leaf_fault(t);
            &&& found matches Some(f) ==> 54 <= place_of(f) <= 56
            &&& task_breaks(spec, i, g, edition) && 54 <= place_of(g) <= 56 ==> (found matches Some(f) && place_of(
                f,
            ) <= place_of(g))
        }),
{
}

/// A task that breaks several rules is refused for the first of them.
pub proof fn law_first_broken_rule_is_reported(spec: DagSpec, i: int, g: Fault, edition: Edition)
    requires
        0 <= i < spec.tasks@.len(),
        task_breaks(spec, i, g, edition),
    ensures
        task_fault(spec, i, edition) matches Some(f) && place_of(f) <= place_of(g),
{
    lemma_first_keys(spec, i, g, edition);
    lemma_first_kind(spec, i, g, edition);
    lemma_first_trigger(spec, i, g, edition);
    lemma_first_sensor(spec, i, g, edition);
    lemma_first_products(spec, i, g, edition);
    lemma_first_placement(spec, i, g, edition);
    lemma_first_gang(spec, i, g, edition);
    lemma_first_loop(spec, i, g, edition);
    lemma_first_deferral(spec, i, g, edition);
    lemma_first_leaf(spec, i, g, edition);
    assert(place_of(g) < 57);
}

// ── The workflow as a whole ──────────────────────────────────────────────────

/// The place of a rule on the workflow as a whole: its timeout, its budgets, its
/// deadline, its class, its tags, and the datasets that it subscribes to.
pub open spec fn header_place(f: Fault) -> int {
    match f {
        Fault::ZeroRunTimeout => 0,
        Fault::ZeroTaskBudget => 1,
        Fault::TaskBudget { .. } => 2,
        Fault::ZeroExternalBudget => 3,
        Fault::ExternalBudget { .. } => 4,
        Fault::CostAttribution => 5,
        Fault::BadDeadline { .. } => 6,
        Fault::BadWorkflowClass { .. } => 7,
        Fault::BadTag { .. } => 8,
        Fault::BadOnDataset { .. } => 9,
        Fault::DuplicateOnDataset { .. } => 9,
        Fault::BadDatasetsMode => 10,
        Fault::DatasetsModeAlone => 11,
        _ => 12,
    }
}

proof fn lemma_tags_first(tags: Seq<String>, i: int)
    requires
        0 <= i,
    ensures
        tag_fault(tags, i) matches Some(f) ==> f is BadTag,
        forall|k: int|
            i <= k < tags.len() && label_fault(LabelKind::Tag, #[trigger] tags[k]@) is Some ==> tag_fault(tags, i)
                is Some,
    decreases tags.len() - i,
{
    if i < tags.len() {
        lemma_tags_first(tags, i + 1);
    }
}

proof fn lemma_datasets_first(uris: Seq<String>, i: int)
    requires
        0 <= i,
    ensures
        on_datasets_fault(uris, i) matches Some(f) ==> f is BadOnDataset || f is DuplicateOnDataset,
        forall|k: int|
            i <= k < uris.len() && (label_fault(LabelKind::Dataset, #[trigger] uris[k]@) is Some || repeats(
                uris,
                k,
            )) ==> on_datasets_fault(uris, i) is Some,
    decreases uris.len() - i,
{
    if i < uris.len() {
        lemma_datasets_first(uris, i + 1);
    }
}

/// A workflow that breaks several rules as a whole is refused for the first of
/// them. A cost is counted up to the greatest number of 64 bits, so a budget of
/// that number is never exceeded.
pub proof fn law_first_broken_header_rule_is_reported(spec: DagSpec, g: Fault, edition: Edition)
    requires
        header_breaks(spec, g, edition),
        g matches Fault::ExternalBudget { max, .. } ==> max < u64::MAX,
    ensures
        header_fault(spec, edition) matches Some(f) && header_place(f) <= header_place(g),
{
    lemma_tags_first(spec.tags@, 0);
    lemma_datasets_first(spec.on_datasets@, 0);
    let n = spec.tasks@.len() as int;
    assert(external_cost(spec.tasks@, n) <= u64::MAX ==> capped_cost(spec.tasks@, n) == external_cost(
        spec.tasks@,
        n,
    ));
    match g {
        Fault::BadTag { index, .. } => {
            assert(label_fault(LabelKind::Tag, spec.tags@[index as int]@) is Some);
        },
        Fault::BadOnDataset { index, .. } => {
            assert(label_fault(LabelKind::Dataset, spec.on_datasets@[index as int]@) is Some);
        },
        Fault::DuplicateOnDataset { index } => {
            assert(repeats(spec.on_datasets@, index as int));
        },
        _ => {},
    }
}

} // verus!
