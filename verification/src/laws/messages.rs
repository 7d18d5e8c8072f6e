//! What a refusal says: whose rule was broken, and by which text.
use vstd::prelude::*;
use crate::decimal::decimal;
use crate::duration::{duration_text, DurationFault};
use crate::jsonpred::PredicateError;
use crate::labels::{label_text, LabelFault, LabelKind};
use crate::messages::{fault_text, link_text, task_text, workflow_text};
use crate::rules::Fault;
use crate::text::trimmed;
use crate::workflow::{DagSpec, TaskSpec};

verus! {

/// `part` stands somewhere in `s`.
pub open spec fn mentions(s: Seq<char>, part: Seq<char>) -> bool {
    exists|i: int| 0 <= i && i + part.len() <= s.len() && #[trigger] s.subrange(i, i + part.len()) == part
}

proof fn lemma_mentions_end(a: Seq<char>, part: Seq<char>)
    ensures
        mentions(a + part, part),
{
    let i = a.len() as int;
    assert((a + part).subrange(i, i + part.len()) =~= part);
}

proof fn lemma_mentions_more(a: Seq<char>, b: Seq<char>, part: Seq<char>)
    requires
        mentions(a, part),
    ensures
        mentions(a + b, part),
{
    let i = choose|i: int|
        0 <= i && i + part.len() <= a.len() && #[trigger] a.subrange(i, i + part.len()) == part;
    assert((a + b).subrange(i, i + part.len()) =~= part);
}

proof fn lemma_mentions_inside(a: Seq<char>, b: Seq<char>, part: Seq<char>)
    requires
        mentions(b, part),
    ensures
        mentions(a + b, part),
{
    let i = choose|i: int|
        0 <= i && i + part.len() <= b.len() && #[trigger] b.subrange(i, i + part.len()) == part;
    let k = a.len() + i;
    assert((a + b).subrange(k, k + part.len()) =~= part);
}

/// The two ways in which a text put together mentions a part of it.
proof fn lemma_mentions()
    ensures
        forall|a: Seq<char>, part: Seq<char>| #[trigger] mentions(a + part, part),
        forall|a: Seq<char>, b: Seq<char>, part: Seq<char>| mentions(a, part) ==> #[trigger] mentions(a + b, part),
{
    assert forall|a: Seq<char>, part: Seq<char>| #[trigger] mentions(a + part, part) by {
        lemma_mentions_end(a, part);
    }
    assert forall|a: Seq<char>, b: Seq<char>, part: Seq<char>| mentions(a, part) implies #[trigger] mentions(
        a + b,
        part,
    ) by {
        lemma_mentions_more(a, b, part);
    }
}

/// The rule is one on the workflow as a whole.
pub open spec fn on_the_workflow(f: Fault) -> bool {
    ||| f is ZeroRunTimeout || f is ZeroTaskBudget || f is TaskBudget || f is ZeroExternalBudget
    ||| f is ExternalBudget || f is CostAttribution || f is BadDeadline || f is BadWorkflowClass
    ||| f is BadTag || f is BadOnDataset || f is DuplicateOnDataset || f is BadDatasetsMode
    ||| f is DatasetsModeAlone || f is Cycle || f is UnknownResult || f is HookResult
}

/// The rule is one on a deferred task, a leaf or a link between tasks.
pub open spec fn on_a_link(f: Fault) -> bool {
    ||| f is EmptyDeferKind || f is ZeroPoll || f is LongPoll || f is ShortMaxWait || f is DeferRepeat
    ||| f is DeferKind || f is DeferGang || f is EmptyDeferUrl || f is BadDeferUrl || f is NamelessHeader
    ||| f is BadCancelUrl || f is BadCancelMethod || f is BadSucceedWhen || f is BadFailWhen || f is BadErrorFrom
    ||| f is DeferConnection || f is StrayArguments || f is SurvivingTemplate || f is NoCommand
    ||| f is UnknownDependency || f is DependsOnHook || f is WhenReference || f is UnknownProducer
    ||| f is ProducerNotDependency || f is OwnOutput
}

#[verifier::rlimit(60)]
proof fn lemma_workflow_text(spec: DagSpec, f: Fault)
    requires
        on_the_workflow(f),
    ensures
        mentions(workflow_text(spec, f), spec.name@),
{
    lemma_mentions();
}

#[verifier::rlimit(60)]
proof fn lemma_link_text(spec: DagSpec, t: TaskSpec, f: Fault)
    requires
        on_a_link(f),
    ensures
        mentions(link_text(spec, t, f), t.name@),
{
    lemma_mentions();
}

#[verifier::rlimit(60)]
proof fn lemma_task_text(spec: DagSpec, t: TaskSpec, f: Fault)
    requires
        !on_a_link(f),
        !on_the_workflow(f),
    ensures
        mentions(task_text(spec, t, f), t.name@),
        mentions(task_text(spec, t, f), spec.name@),
{
    lemma_mentions();
}

/// The message about a rule on the workflow names the workflow.
pub proof fn law_message_names_the_workflow(spec: DagSpec, f: Fault)
    requires
        on_the_workflow(f),
    ensures
        mentions(fault_text(spec, f, None), spec.name@),
{
    lemma_workflow_text(spec, f);
}

/// The message about a rule on a task names that task.
pub proof fn law_message_names_the_task(spec: DagSpec, f: Fault, i: int)
    requires
        0 <= i < spec.tasks@.len(),
        !on_the_workflow(f),
    ensures
        mentions(fault_text(spec, f, Some(i)), spec.tasks@[i].name@),
{
    let t = spec.tasks@[i];
    let (a, b) = (task_text(spec, t, f), link_text(spec, t, f));
    if on_a_link(f) {
        lemma_link_text(spec, t, f);
        lemma_mentions_inside(a, b, t.name@);
    } else {
        lemma_task_text(spec, t, f);
        lemma_mentions_more(a, b, t.name@);
    }
}

/// The message quotes the text at fault.
pub proof fn law_message_quotes_the_text(spec: DagSpec, i: int, k: int)
    requires
        0 <= i < spec.tasks@.len(),
        0 <= k <= usize::MAX,
    ensures
        ({
            let t = spec.tasks@[i];
            let said = |f: Fault| fault_text(spec, f, Some(i));
            let index = k as usize;
            &&& t.trigger_rule matches Some(s) ==> mentions(said(Fault::BadTriggerRule), s@)
            &&& t.hook matches Some(s) ==> mentions(said(Fault::BadHook), s@)
            &&& t.task_type matches Some(s) ==> mentions(said(Fault::BadType), s@)
            &&& t.approval_on_timeout matches Some(s) ==> mentions(said(Fault::BadApprovalAction), s@)
            &&& t.template matches Some(s) ==> mentions(said(Fault::SurvivingTemplate), s@)
            &&& t.with_output_of matches Some(s) ==> mentions(said(Fault::UnknownProducer), s@)
            &&& t.with_output_of matches Some(s) ==> mentions(said(Fault::ProducerNotDependency), s@)
            &&& k < t.depends_on@.len() ==> mentions(
                said(Fault::UnknownDependency { index }),
                t.depends_on@[k]@,
            )
            &&& k < t.depends_on@.len() ==> mentions(said(Fault::DependsOnHook { index }), t.depends_on@[k]@)
            &&& k < t.produces@.len() ==> mentions(said(Fault::DuplicateProduces { index }), t.produces@[k]@)
            &&& spec.result_from matches Some(s) ==> mentions(fault_text(spec, Fault::UnknownResult, None), s@)
                && mentions(fault_text(spec, Fault::HookResult, None), s@)
            &&& spec.datasets_mode matches Some(s) ==> mentions(
                fault_text(spec, Fault::BadDatasetsMode, None),
                s@,
            )
        }),
{
    lemma_mentions();
    let t = spec.tasks@[i];
    assert forall|f: Fault, part: Seq<char>| mentions(task_text(spec, t, f), part) implies #[trigger] mentions(
        fault_text(spec, f, Some(i)),
        part,
    ) by {}
    assert forall|f: Fault, part: Seq<char>| mentions(link_text(spec, t, f), part) implies #[trigger] mentions(
        fault_text(spec, f, Some(i)),
        part,
    ) by {
        lemma_mentions_inside(task_text(spec, t, f), link_text(spec, t, f), part);
    }
}

/// The message about a name says which kind of name it is, quotes it, and says
/// how long it may be or what it may hold.
pub proof fn law_message_about_a_name(kind: LabelKind, name: Seq<char>, length: usize)
    ensures
        ({
            let noun = match kind {
                LabelKind::RunnerClass => "runner_class"@,
                LabelKind::Tag => "tag"@,
                LabelKind::Pool => "pool"@,
                LabelKind::Dataset => "dataset URI"@,
            };
            let most: nat = if kind == LabelKind::Dataset { 512 } else { 64 };
            &&& label_text(kind, LabelFault::BadLength { length }, name) == noun + " must be 1-"@ + decimal(most)
                + " characters, got "@ + decimal(length as nat) + " ('"@ + name + "')"@
            &&& label_text(kind, LabelFault::BadCharacter, name) == noun + " '"@ + name + (match kind {
                LabelKind::RunnerClass => "' may only contain [a-z0-9_-]"@,
                LabelKind::Pool => "' may only contain [a-z0-9_-]"@,
                LabelKind::Tag => "' may only contain [A-Za-z0-9_.-]"@,
                LabelKind::Dataset => "' must not contain whitespace or control characters"@,
            })
            &&& label_text(kind, LabelFault::Reserved, name)
                == "runner_class 'other' is reserved (it is the metrics tail bucket)"@
        }),
{
}

/// The message about a duration quotes it, trimmed, and says what is wrong.
pub proof fn law_message_about_a_duration(s: Seq<char>)
    ensures
        duration_text(DurationFault::Empty, s) == "empty duration"@,
        duration_text(DurationFault::Malformed, s) == "invalid duration '"@ + trimmed(s)
            + "' (use e.g. 45m, 2h, 90s, or seconds)"@,
        duration_text(DurationFault::Zero, s) == "duration '"@ + trimmed(s) + "' must be greater than zero"@,
        duration_text(DurationFault::TooLarge, s) == "duration '"@ + trimmed(s) + "' is too large"@,
{
}

/// The message about a predicate says what is missing.
pub proof fn law_message_about_a_predicate(e: PredicateError)
    ensures
        e.text() == (match e {
            PredicateError::NoComparison => "expected `path == VALUE`, `path != VALUE` or `path in [A, B]`"@,
            PredicateError::NoList => "`in` takes a bracketed list, e.g. `path in [A, B]`"@,
            PredicateError::EmptySegment => "path has an empty segment"@,
        }),
{
}

} // verus!
