//! What a refused workflow is told: one message per rule.
use vstd::prelude::*;
use vstd::string::*;
use crate::decimal::{decimal, u64_text};
use crate::duration::{duration_message, duration_text};
use crate::expand::{output_refs, when_output_refs};
use crate::fault::{class_of, FaultClass, FAULT_CLASS_LIST};
use crate::labels::{label_message, label_text, LabelKind};
use crate::rules::Fault;
use crate::text::{texts, trim, trimmed};
use crate::time::{parse_rfc3339, rfc3339_value};
use crate::workflow::{DagSpec, TaskSpec};

verus! {

// ── The values that messages quote ───────────────────────────────────────────

/// The text an option holds; empty where it holds none.
pub open spec fn opt_text(opt: Option<String>) -> Seq<char> {
    match opt {
        Some(s) => s@,
        None => Seq::empty(),
    }
}

fn empty_text() -> (r: &'static str)
    ensures
        r@ == Seq::<char>::empty(),
{
    proof {
        reveal_strlit("");
        assert(""@ =~= Seq::<char>::empty());
    }
    ""
}

fn opt_str(opt: &Option<String>) -> (r: &str)
    ensures
        r@ == opt_text(*opt),
{
    match opt {
        Some(s) => s.as_str(),
        None => empty_text(),
    }
}

/// Entry `i` of a list; empty where there is none.
pub open spec fn nth(list: Seq<String>, i: int) -> Seq<char> {
    if 0 <= i < list.len() { list[i]@ } else { Seq::empty() }
}

fn nth_str(list: &Vec<String>, i: usize) -> (r: &str)
    ensures
        r@ == nth(list@, i as int),
{
    if i < list.len() {
        list[i].as_str()
    } else {
        empty_text()
    }
}

/// A task's type; `task` where it names none.
pub open spec fn type_text(t: TaskSpec) -> Seq<char> {
    match t.task_type {
        Some(s) => s@,
        None => "task"@,
    }
}

fn type_str(t: &TaskSpec) -> (r: &str)
    ensures
        r@ == type_text(*t),
{
    match &t.task_type {
        Some(s) => s.as_str(),
        None => "task",
    }
}

pub open spec fn deadline_text(spec: DagSpec) -> Seq<char> {
    match spec.deadline {
        Some(d) => d.within@,
        None => Seq::empty(),
    }
}

fn deadline_str(spec: &DagSpec) -> (r: &str)
    ensures
        r@ == deadline_text(*spec),
{
    match &spec.deadline {
        Some(d) => d.within.as_str(),
        None => empty_text(),
    }
}

pub open spec fn budget_key(t: TaskSpec, i: int) -> Seq<char> {
    if 0 <= i < t.retry_budgets.entries@.len() { t.retry_budgets.entries@[i].0@ } else { Seq::empty() }
}

fn budget_key_str(t: &TaskSpec, i: usize) -> (r: &str)
    ensures
        r@ == budget_key(*t, i as int),
{
    if i < t.retry_budgets.entries.len() {
        t.retry_budgets.entries[i].0.as_str()
    } else {
        empty_text()
    }
}

/// The canonical spelling that a tolerated key stands for.
pub open spec fn class_hint(key: Seq<char>) -> Seq<char> {
    if class_of(key) == FaultClass::Unknown {
        Seq::empty()
    } else {
        " (did you mean '"@ + class_of(key).spelling() + "'?)"@
    }
}

fn class_hint_for(key: &str) -> (r: String)
    ensures
        r@ == class_hint(key@),
{
    let class: FaultClass = FaultClass::parse(key);
    match class {
        FaultClass::Unknown => String::new(),
        _ => {
            let mut m: String = " (did you mean '".to_owned();
            m.append(class.as_str());
            m.append("'?)");
            m
        },
    }
}

pub open spec fn wait_for_text(t: TaskSpec) -> Seq<char> {
    match t.wait {
        Some(w) => opt_text(w.wait_for),
        None => Seq::empty(),
    }
}

fn wait_for_str(t: &TaskSpec) -> (r: &str)
    ensures
        r@ == wait_for_text(*t),
{
    match &t.wait {
        Some(w) => opt_str(&w.wait_for),
        None => empty_text(),
    }
}

pub open spec fn wait_until_text(t: TaskSpec) -> Seq<char> {
    match t.wait {
        Some(w) => opt_text(w.until),
        None => Seq::empty(),
    }
}

fn wait_until_str(t: &TaskSpec) -> (r: &str)
    ensures
        r@ == wait_until_text(*t),
{
    match &t.wait {
        Some(w) => opt_str(&w.until),
        None => empty_text(),
    }
}

pub open spec fn wait_dataset_text(t: TaskSpec) -> Seq<char> {
    match t.wait {
        Some(w) => opt_text(w.dataset),
        None => Seq::empty(),
    }
}

fn wait_dataset_str(t: &TaskSpec) -> (r: &str)
    ensures
        r@ == wait_dataset_text(*t),
{
    match &t.wait {
        Some(w) => opt_str(&w.dataset),
        None => empty_text(),
    }
}

/// What chrono says against a text that is no RFC 3339 instant.
pub open spec fn rfc3339_complaint(s: Seq<char>) -> Seq<char> {
    match rfc3339_value(s) {
        Ok(_) => Seq::empty(),
        Err(e) => e,
    }
}

fn rfc3339_complaint_for(s: &str) -> (r: String)
    ensures
        r@ == rfc3339_complaint(s@),
{
    match parse_rfc3339(s) {
        Ok(_) => String::new(),
        Err(e) => e,
    }
}

pub open spec fn isolation_text(t: TaskSpec) -> Seq<char> {
    match t.isolation {
        Some(i) => opt_text(i.complaint),
        None => Seq::empty(),
    }
}

fn isolation_str(t: &TaskSpec) -> (r: &str)
    ensures
        r@ == isolation_text(*t),
{
    match &t.isolation {
        Some(i) => opt_str(&i.complaint),
        None => empty_text(),
    }
}

pub open spec fn repeat_delay(t: TaskSpec) -> u64 {
    match t.repeat {
        Some(r) => r.delay_secs,
        None => 0,
    }
}

fn repeat_delay_of(t: &TaskSpec) -> (n: u64)
    ensures
        n == repeat_delay(*t),
{
    match &t.repeat {
        Some(r) => r.delay_secs,
        None => 0,
    }
}

pub open spec fn poll_secs(t: TaskSpec) -> u64 {
    match t.defer {
        Some(d) => d.poll_secs,
        None => 0,
    }
}

fn poll_secs_of(t: &TaskSpec) -> (n: u64)
    ensures
        n == poll_secs(*t),
{
    match &t.defer {
        Some(d) => d.poll_secs,
        None => 0,
    }
}

pub open spec fn max_wait(t: TaskSpec) -> u64 {
    match t.defer {
        Some(d) => match d.max_wait_secs {
            Some(n) => n,
            None => 0,
        },
        None => 0,
    }
}

fn max_wait_of(t: &TaskSpec) -> (n: u64)
    ensures
        n == max_wait(*t),
{
    match &t.defer {
        Some(d) => match d.max_wait_secs {
            Some(n) => n,
            None => 0,
        },
        None => 0,
    }
}

pub open spec fn http_url_text(t: TaskSpec) -> Seq<char> {
    match t.defer {
        Some(d) => match d.http {
            Some(h) => h.url@,
            None => Seq::empty(),
        },
        None => Seq::empty(),
    }
}

fn http_url_str(t: &TaskSpec) -> (r: &str)
    ensures
        r@ == http_url_text(*t),
{
    match &t.defer {
        Some(d) => match &d.http {
            Some(h) => h.url.as_str(),
            None => empty_text(),
        },
        None => empty_text(),
    }
}

pub open spec fn cancel_url_text(t: TaskSpec) -> Seq<char> {
    match t.defer {
        Some(d) => match d.http {
            Some(h) => match h.cancel {
                Some(c) => c.url@,
                None => Seq::empty(),
            },
            None => Seq::empty(),
        },
        None => Seq::empty(),
    }
}

fn cancel_url_str(t: &TaskSpec) -> (r: &str)
    ensures
        r@ == cancel_url_text(*t),
{
    match &t.defer {
        Some(d) => match &d.http {
            Some(h) => match &h.cancel {
                Some(c) => c.url.as_str(),
                None => empty_text(),
            },
            None => empty_text(),
        },
        None => empty_text(),
    }
}

pub open spec fn cancel_verb_text(t: TaskSpec) -> Seq<char> {
    match t.defer {
        Some(d) => match d.http {
            Some(h) => match h.cancel {
                Some(c) => c.verb(),
                None => Seq::empty(),
            },
            None => Seq::empty(),
        },
        None => Seq::empty(),
    }
}

fn cancel_verb_of(t: &TaskSpec) -> (r: String)
    ensures
        r@ == cancel_verb_text(*t),
{
    match &t.defer {
        Some(d) => match &d.http {
            Some(h) => match &h.cancel {
                Some(c) => c.method(),
                None => String::new(),
            },
            None => String::new(),
        },
        None => String::new(),
    }
}

pub open spec fn connection_text(t: TaskSpec) -> Seq<char> {
    match t.defer {
        Some(d) => opt_text(d.connection),
        None => Seq::empty(),
    }
}

fn connection_str(t: &TaskSpec) -> (r: &str)
    ensures
        r@ == connection_text(*t),
{
    match &t.defer {
        Some(d) => opt_str(&d.connection),
        None => empty_text(),
    }
}

/// Output reference `i` of a task's condition.
pub open spec fn when_ref(t: TaskSpec, i: int) -> Seq<char> {
    match t.when {
        Some(cond) => if 0 <= i < output_refs(cond@).len() {
            output_refs(cond@)[i]
        } else {
            Seq::empty()
        },
        None => Seq::empty(),
    }
}

fn when_ref_of(t: &TaskSpec, i: usize) -> (r: String)
    ensures
        r@ == when_ref(*t, i as int),
{
    match &t.when {
        Some(cond) => {
            let refs: Vec<String> = when_output_refs(cond.as_str());
            assert(texts(refs@).len() == refs@.len());
            if i < refs.len() {
                assert(texts(refs@)[i as int] == refs@[i as int]@);
                refs[i].clone()
            } else {
                String::new()
            }
        },
        None => String::new(),
    }
}

// ── The messages ─────────────────────────────────────────────────────────────

/// The message for a rule on the workflow as a whole.
pub open spec fn workflow_text(spec: DagSpec, fault: Fault) -> Seq<char> {
    match fault {
        Fault::ZeroRunTimeout => "invalid run_timeout_secs=0 in DAG '"@ + spec.name@
            + "'; expected >= 1 (or omit)"@,
        Fault::ZeroTaskBudget => "invalid budget.tasks=0 in DAG '"@ + spec.name@
            + "'; expected >= 1 (or omit)"@,
        Fault::TaskBudget { max, planned } => "DAG '"@ + spec.name@ + "' would create "@
            + decimal(planned as nat) + " tasks, over its budget of "@ + decimal(max as nat),
        Fault::ZeroExternalBudget => "invalid budget.external_cost=0 in DAG '"@ + spec.name@
            + "'; expected >= 1 (or omit). A run that may spend nothing externally is a run with no `defer:` tasks — just omit them."@,
        Fault::ExternalBudget { max, planned, deferred_tasks } => "DAG '"@ + spec.name@
            + "' declares an external cost of "@ + decimal(planned as nat) + " over "@
            + decimal(deferred_tasks as nat) + " deferred tasks, above its budget of "@
            + decimal(max as nat),
        Fault::CostAttribution => "DAG '"@ + spec.name@
            + "' requests external cost attribution: the ledger that reconciles each external job's actual vendor cost back to the run, workflow and team that launched it is not in this build — https://github.com/lucheeseng827/dagron#what-this-build-does-not-do. This build enforces the ceiling you declare yourself: set `budget: { external_cost: N }` with `defer.cost` per task, and a run whose declared total exceeds N is refused before it submits anything. `pool:` caps concurrent remote jobs, `run_timeout_secs` bounds the run, and a cancelled run tears its remote jobs down (docs/EXTERNAL_JOBS.md). Reconciled cost reporting plugs in through the seams on dagron_engine::Seams."@,
        Fault::BadDeadline { fault } => "invalid deadline in DAG '"@ + spec.name@ + "': "@
            + duration_text(fault, deadline_text(spec)),
        Fault::BadWorkflowClass { fault } => "invalid runner_class in DAG '"@ + spec.name@ + "': "@
            + label_text(LabelKind::RunnerClass, fault, opt_text(spec.runner_class)),
        Fault::BadTag { index, fault } => "invalid tag in DAG '"@ + spec.name@ + "': "@
            + label_text(LabelKind::Tag, fault, nth(spec.tags@, index as int)),
        Fault::BadOnDataset { index, fault } => "invalid on_datasets entry in DAG '"@ + spec.name@
            + "': "@ + label_text(LabelKind::Dataset, fault, nth(spec.on_datasets@, index as int)),
        Fault::DuplicateOnDataset { index } => "duplicate on_datasets entry '"@
            + nth(spec.on_datasets@, index as int) + "' in DAG '"@ + spec.name@ + "'"@,
        Fault::BadDatasetsMode => "invalid datasets_mode '"@ + opt_text(spec.datasets_mode)
            + "' in DAG '"@ + spec.name@ + "'; expected 'any' or 'all'"@,
        Fault::DatasetsModeAlone => "datasets_mode set but on_datasets is empty in DAG '"@ + spec.name@
            + "'"@,
        Fault::Cycle => "DAG '"@ + spec.name@ + "' contains a cycle"@,
        Fault::UnknownResult => "result_from names unknown task '"@ + opt_text(spec.result_from)
            + "' in DAG '"@ + spec.name@ + "'"@,
        Fault::HookResult => "result_from cannot name hook task '"@ + opt_text(spec.result_from)
            + "' in DAG '"@ + spec.name@ + "'"@,
        _ => Seq::empty(),
    }
}

/// The message for a rule on the workflow as a whole.
fn workflow_message(spec: &DagSpec, fault: Fault) -> (m: String)
    ensures
        m@ == workflow_text(*spec, fault),
{
    match fault {
        Fault::ZeroRunTimeout => {
            let mut m: String = "invalid run_timeout_secs=0 in DAG '".to_owned();
            m.append(spec.name.as_str());
            m.append("'; expected >= 1 (or omit)");
            m
        },
        Fault::ZeroTaskBudget => {
            let mut m: String = "invalid budget.tasks=0 in DAG '".to_owned();
            m.append(spec.name.as_str());
            m.append("'; expected >= 1 (or omit)");
            m
        },
        Fault::TaskBudget { max, planned } => {
            let mut m: String = "DAG '".to_owned();
            m.append(spec.name.as_str());
            m.append("' would create ");
            m.append(u64_text(planned as u64).as_str());
            m.append(" tasks, over its budget of ");
            m.append(u64_text(max as u64).as_str());
            m
        },
        Fault::ZeroExternalBudget => {
            let mut m: String = "invalid budget.external_cost=0 in DAG '".to_owned();
            m.append(spec.name.as_str());
            m.append("'; expected >= 1 (or omit). A run that may spend nothing externally is a run with no `defer:` tasks — just omit them.");
            m
        },
        Fault::ExternalBudget { max, planned, deferred_tasks } => {
            let mut m: String = "DAG '".to_owned();
            m.append(spec.name.as_str());
            m.append("' declares an external cost of ");
            m.append(u64_text(planned as u64).as_str());
            m.append(" over ");
            m.append(u64_text(deferred_tasks as u64).as_str());
            m.append(" deferred tasks, above its budget of ");
            m.append(u64_text(max as u64).as_str());
            m
        },
        Fault::CostAttribution => {
            let mut m: String = "DAG '".to_owned();
            m.append(spec.name.as_str());
            m.append("' requests external cost attribution: the ledger that reconciles each external job's actual vendor cost back to the run, workflow and team that launched it is not in this build — https://github.com/lucheeseng827/dagron#what-this-build-does-not-do. This build enforces the ceiling you declare yourself: set `budget: { external_cost: N }` with `defer.cost` per task, and a run whose declared total exceeds N is refused before it submits anything. `pool:` caps concurrent remote jobs, `run_timeout_secs` bounds the run, and a cancelled run tears its remote jobs down (docs/EXTERNAL_JOBS.md). Reconciled cost reporting plugs in through the seams on dagron_engine::Seams.");
            m
        },
        Fault::BadDeadline { fault } => {
            let mut m: String = "invalid deadline in DAG '".to_owned();
            m.append(spec.name.as_str());
            m.append("': ");
            m.append(duration_message(fault, deadline_str(spec)).as_str());
            m
        },
        Fault::BadWorkflowClass { fault } => {
            let mut m: String = "invalid runner_class in DAG '".to_owned();
            m.append(spec.name.as_str());
            m.append("': ");
            m.append(label_message(LabelKind::RunnerClass, fault, opt_str(&spec.runner_class)).as_str());
            m
        },
        Fault::BadTag { index, fault } => {
            let mut m: String = "invalid tag in DAG '".to_owned();
            m.append(spec.name.as_str());
            m.append("': ");
            m.append(label_message(LabelKind::Tag, fault, nth_str(&spec.tags, index)).as_str());
            m
        },
        Fault::BadOnDataset { index, fault } => {
            let mut m: String = "invalid on_datasets entry in DAG '".to_owned();
            m.append(spec.name.as_str());
            m.append("': ");
            m.append(label_message(LabelKind::Dataset, fault, nth_str(&spec.on_datasets, index)).as_str());
            m
        },
        Fault::DuplicateOnDataset { index } => {
            let mut m: String = "duplicate on_datasets entry '".to_owned();
            m.append(nth_str(&spec.on_datasets, index));
            m.append("' in DAG '");
            m.append(spec.name.as_str());
            m.append("'");
            m
        },
        Fault::BadDatasetsMode => {
            let mut m: String = "invalid datasets_mode '".to_owned();
            m.append(opt_str(&spec.datasets_mode));
            m.append("' in DAG '");
            m.append(spec.name.as_str());
            m.append("'; expected 'any' or 'all'");
            m
        },
        Fault::DatasetsModeAlone => {
            let mut m: String = "datasets_mode set but on_datasets is empty in DAG '".to_owned();
            m.append(spec.name.as_str());
            m.append("'");
            m
        },
        Fault::Cycle => {
            let mut m: String = "DAG '".to_owned();
            m.append(spec.name.as_str());
            m.append("' contains a cycle");
            m
        },
        Fault::UnknownResult => {
            let mut m: String = "result_from names unknown task '".to_owned();
            m.append(opt_str(&spec.result_from));
            m.append("' in DAG '");
            m.append(spec.name.as_str());
            m.append("'");
            m
        },
        Fault::HookResult => {
            let mut m: String = "result_from cannot name hook task '".to_owned();
            m.append(opt_str(&spec.result_from));
            m.append("' in DAG '");
            m.append(spec.name.as_str());
            m.append("'");
            m
        },
        _ => String::new(),
    }
}

/// The message for a rule on one task.
pub open spec fn task_text(spec: DagSpec, t: TaskSpec, fault: Fault) -> Seq<char> {
    match fault {
        Fault::DuplicateTask => "duplicate task name '"@ + t.name@ + "' in DAG '"@ + spec.name@ + "'"@,
        Fault::UnknownFaultClass { index } => "unknown retry_budgets fault class '"@
            + budget_key(t, index as int) + "' on task '"@ + t.name@ + "' in DAG '"@ + spec.name@ + "'"@
            + class_hint(budget_key(t, index as int)) + "; expected one of: "@ + FAULT_CLASS_LIST@,
        Fault::ZeroMaxAttempts => "invalid max_attempts=0 for task '"@ + t.name@ + "' in DAG '"@
            + spec.name@ + "'; expected >= 1"@,
        Fault::BadTriggerRule => "invalid trigger_rule '"@ + opt_text(t.trigger_rule) + "' for task '"@
            + t.name@ + "' in DAG '"@ + spec.name@
            + "'; expected one of [\"all_success\", \"all_done\", \"one_failed\", \"all_failed\", \"none_failed\"]"@,
        Fault::BadHook => "invalid hook '"@ + opt_text(t.hook) + "' for task '"@ + t.name@
            + "' in DAG '"@ + spec.name@ + "'; expected one of [\"on_exit\", \"on_failure\"]"@,
        Fault::BadType => "invalid type '"@ + opt_text(t.task_type) + "' for task '"@ + t.name@
            + "' in DAG '"@ + spec.name@
            + "'; expected one of [\"task\", \"approval\", \"workflow\", \"wait\"]"@,
        Fault::BadApprovalAction => "invalid approval_on_timeout '"@ + opt_text(t.approval_on_timeout)
            + "' for task '"@ + t.name@ + "' in DAG '"@ + spec.name@
            + "'; expected one of [\"approve\", \"reject\"]"@,
        Fault::ApprovalHook => "task '"@ + t.name@
            + "' cannot be both an approval gate and a hook in DAG '"@ + spec.name@ + "'"@,
        Fault::NoWorkflowTarget => "task '"@ + t.name@
            + "' is type: workflow but names no `workflow:` to trigger in DAG '"@ + spec.name@ + "'"@,
        Fault::WorkflowCommand => "task '"@ + t.name@
            + "' (type: workflow) must not set a command in DAG '"@ + spec.name@ + "'"@,
        Fault::WorkflowHook => "task '"@ + t.name@
            + "' cannot be both a sub-workflow trigger and a hook in DAG '"@ + spec.name@ + "'"@,
        Fault::StrayWorkflow => "task '"@ + t.name@
            + "' sets `workflow:` but is not `type: workflow` in DAG '"@ + spec.name@ + "'"@,
        Fault::NotOneWait => "task '"@ + t.name@
            + "' (type: wait) needs exactly one of wait.for / wait.until / wait.url / wait.dataset in DAG '"@
            + spec.name@ + "'"@,
        Fault::BadWaitFor { fault } => "invalid wait.for for task '"@ + t.name@ + "' in DAG '"@
            + spec.name@ + "': "@ + duration_text(fault, wait_for_text(t)),
        Fault::BadWaitUntil => "invalid wait.until (expected RFC-3339) for task '"@ + t.name@
            + "' in DAG '"@ + spec.name@ + "': "@ + rfc3339_complaint(wait_until_text(t)),
        Fault::BadWaitUrl => "invalid wait.url for task '"@ + t.name@ + "' in DAG '"@ + spec.name@
            + "': must be an http(s) URL"@,
        Fault::BadWaitDataset { fault } => "invalid wait.dataset for task '"@ + t.name@ + "' in DAG '"@
            + spec.name@ + "': "@ + label_text(LabelKind::Dataset, fault, wait_dataset_text(t)),
        Fault::NoWaitBlock => "task '"@ + t.name@ + "' is type: wait but has no `wait:` block in DAG '"@
            + spec.name@ + "'"@,
        Fault::WaitCommand => "task '"@ + t.name@ + "' (type: wait) must not set a command in DAG '"@
            + spec.name@ + "'"@,
        Fault::WaitHook => "task '"@ + t.name@ + "' cannot be both a wait sensor and a hook in DAG '"@
            + spec.name@ + "'"@,
        Fault::StrayWait => "task '"@ + t.name@ + "' sets `wait:` but is not `type: wait` in DAG '"@
            + spec.name@ + "'"@,
        Fault::ProducesKind => "task '"@ + t.name@ + "' (type: "@ + type_text(t)
            + ") cannot declare `produces:` in DAG '"@ + spec.name@
            + "' — only command tasks record dataset updates"@,
        Fault::BadProduces { index, fault } => "invalid produces entry for task '"@ + t.name@
            + "' in DAG '"@ + spec.name@ + "': "@
            + label_text(LabelKind::Dataset, fault, nth(t.produces@, index as int)),
        Fault::DuplicateProduces { index } => "duplicate produces entry '"@
            + nth(t.produces@, index as int) + "' for task '"@ + t.name@ + "' in DAG '"@ + spec.name@
            + "'"@,
        Fault::BadRunnerClass { fault } => "invalid runner_class for task '"@ + t.name@ + "' in DAG '"@
            + spec.name@ + "': "@ + label_text(LabelKind::RunnerClass, fault, opt_text(t.runner_class)),
        Fault::BadPool { fault } => "invalid pool for task '"@ + t.name@ + "' in DAG '"@ + spec.name@
            + "': "@ + label_text(LabelKind::Pool, fault, opt_text(t.pool)),
        Fault::EmptyCacheKey => "empty cache.key for task '"@ + t.name@ + "' in DAG '"@ + spec.name@ + "'"@,
        Fault::BadIsolation => "invalid isolation for task '"@ + t.name@ + "' in DAG '"@ + spec.name@
            + "': "@ + isolation_text(t),
        Fault::ZeroGpu => "invalid resources.gpu.count=0 for task '"@ + t.name@ + "' in DAG '"@
            + spec.name@ + "'; expected >= 1 (or omit gpu)"@,
        Fault::EmptyGpuResource => "empty resources.gpu.resource for task '"@ + t.name@ + "' in DAG '"@
            + spec.name@ + "'; omit it for the default (nvidia.com/gpu)"@,
        Fault::GangTooSmall => "invalid gang.size="@ + decimal(t.rows()) + " for task '"@ + t.name@
            + "' in DAG '"@ + spec.name@ + "'; expected >= 2 (or omit gang)"@,
        Fault::GangRetries => "task '"@ + t.name@
            + "' cannot combine `gang` with retries (max_attempts > 1) in DAG '"@ + spec.name@
            + "': a gang retries as a unit via run-level rerun, not per member"@,
        Fault::GangLoopOrGate => "task '"@ + t.name@
            + "' cannot combine `gang` with repeat/approval/template in DAG '"@ + spec.name@ + "'"@,
        Fault::GangTriggerOrSensor => "task '"@ + t.name@
            + "' cannot combine `gang` with a sub-workflow trigger or wait sensor in DAG '"@
            + spec.name@ + "'"@,
        Fault::GangResult => "result_from cannot name gang task '"@ + t.name@ + "' in DAG '"@
            + spec.name@ + "' (members are '"@ + t.name@ + ".<rank>')"@,
        Fault::EmptyUntil => "task '"@ + t.name@ + "' repeat.until is empty in DAG '"@ + spec.name@ + "'"@,
        Fault::ZeroIterations => "invalid repeat.max_iterations=0 for task '"@ + t.name@ + "' in DAG '"@
            + spec.name@ + "'; expected >= 1"@,
        Fault::RepeatDelay => "invalid repeat.delay_secs="@ + decimal(repeat_delay(t) as nat)
            + " for task '"@ + t.name@ + "' in DAG '"@ + spec.name@
            + "'; expected <= 31536000 (one year)"@,
        Fault::RepeatKind => "task '"@ + t.name@ + "' cannot combine `repeat` with `type: "@
            + type_text(t) + "` in DAG '"@ + spec.name@
            + "' — `repeat` applies to command tasks and sub-workflow triggers"@,
        _ => Seq::empty(),
    }
}

/// The message for a rule on one task.
fn task_message(spec: &DagSpec, t: &TaskSpec, fault: Fault) -> (m: String)
    ensures
        m@ == task_text(*spec, *t, fault),
{
    match fault {
        Fault::DuplicateTask => {
            let mut m: String = "duplicate task name '".to_owned();
            m.append(t.name.as_str());
            m.append("' in DAG '");
            m.append(spec.name.as_str());
            m.append("'");
            m
        },
        Fault::UnknownFaultClass { index } => {
            let mut m: String = "unknown retry_budgets fault class '".to_owned();
            m.append(budget_key_str(t, index));
            m.append("' on task '");
            m.append(t.name.as_str());
            m.append("' in DAG '");
            m.append(spec.name.as_str());
            m.append("'");
            m.append(class_hint_for(budget_key_str(t, index)).as_str());
            m.append("; expected one of: ");
            m.append(FAULT_CLASS_LIST);
            m
        },
        Fault::ZeroMaxAttempts => {
            let mut m: String = "invalid max_attempts=0 for task '".to_owned();
            m.append(t.name.as_str());
            m.append("' in DAG '");
            m.append(spec.name.as_str());
            m.append("'; expected >= 1");
            m
        },
        Fault::BadTriggerRule => {
            let mut m: String = "invalid trigger_rule '".to_owned();
            m.append(opt_str(&t.trigger_rule));
            m.append("' for task '");
            m.append(t.name.as_str());
            m.append("' in DAG '");
            m.append(spec.name.as_str());
            m.append("'; expected one of [\"all_success\", \"all_done\", \"one_failed\", \"all_failed\", \"none_failed\"]");
            m
        },
        Fault::BadHook => {
            let mut m: String = "invalid hook '".to_owned();
            m.append(opt_str(&t.hook));
            m.append("' for task '");
            m.append(t.name.as_str());
            m.append("' in DAG '");
            m.append(spec.name.as_str());
            m.append("'; expected one of [\"on_exit\", \"on_failure\"]");
            m
        },
        Fault::BadType => {
            let mut m: String = "invalid type '".to_owned();
            m.append(opt_str(&t.task_type));
            m.append("' for task '");
            m.append(t.name.as_str());
            m.append("' in DAG '");
            m.append(spec.name.as_str());
            m.append("'; expected one of [\"task\", \"approval\", \"workflow\", \"wait\"]");
            m
        },
        Fault::BadApprovalAction => {
            let mut m: String = "invalid approval_on_timeout '".to_owned();
            m.append(opt_str(&t.approval_on_timeout));
            m.append("' for task '");
            m.append(t.name.as_str());
            m.append("' in DAG '");
            m.append(spec.name.as_str());
            m.append("'; expected one of [\"approve\", \"reject\"]");
            m
        },
        Fault::ApprovalHook => {
            let mut m: String = "task '".to_owned();
            m.append(t.name.as_str());
            m.append("' cannot be both an approval gate and a hook in DAG '");
            m.append(spec.name.as_str());
            m.append("'");
            m
        },
        Fault::NoWorkflowTarget => {
            let mut m: String = "task '".to_owned();
            m.append(t.name.as_str());
            m.append("' is type: workflow but names no `workflow:` to trigger in DAG '");
            m.append(spec.name.as_str());
            m.append("'");
            m
        },
        Fault::WorkflowCommand => {
            let mut m: String = "task '".to_owned();
            m.append(t.name.as_str());
            m.append("' (type: workflow) must not set a command in DAG '");
            m.append(spec.name.as_str());
            m.append("'");
            m
        },
        Fault::WorkflowHook => {
            let mut m: String = "task '".to_owned();
            m.append(t.name.as_str());
            m.append("' cannot be both a sub-workflow trigger and a hook in DAG '");
            m.append(spec.name.as_str());
            m.append("'");
            m
        },
        Fault::StrayWorkflow => {
            let mut m: String = "task '".to_owned();
            m.append(t.name.as_str());
            m.append("' sets `workflow:` but is not `type: workflow` in DAG '");
            m.append(spec.name.as_str());
            m.append("'");
            m
        },
        Fault::NotOneWait => {
            let mut m: String = "task '".to_owned();
            m.append(t.name.as_str());
            m.append("' (type: wait) needs exactly one of wait.for / wait.until / wait.url / wait.dataset in DAG '");
            m.append(spec.name.as_str());
            m.append("'");
            m
        },
        Fault::BadWaitFor { fault } => {
            let mut m: String = "invalid wait.for for task '".to_owned();
            m.append(t.name.as_str());
            m.append("' in DAG '");
            m.append(spec.name.as_str());
            m.append("': ");
            m.append(duration_message(fault, wait_for_str(t)).as_str());
            m
        },
        Fault::BadWaitUntil => {
            let mut m: String = "invalid wait.until (expected RFC-3339) for task '".to_owned();
            m.append(t.name.as_str());
            m.append("' in DAG '");
            m.append(spec.name.as_str());
            m.append("': ");
            m.append(rfc3339_complaint_for(wait_until_str(t)).as_str());
            m
        },
        Fault::BadWaitUrl => {
            let mut m: String = "invalid wait.url for task '".to_owned();
            m.append(t.name.as_str());
            m.append("' in DAG '");
            m.append(spec.name.as_str());
            m.append("': must be an http(s) URL");
            m
        },
        Fault::BadWaitDataset { fault } => {
            let mut m: String = "invalid wait.dataset for task '".to_owned();
            m.append(t.name.as_str());
            m.append("' in DAG '");
            m.append(spec.name.as_str());
            m.append("': ");
            m.append(label_message(LabelKind::Dataset, fault, wait_dataset_str(t)).as_str());
            m
        },
        Fault::NoWaitBlock => {
            let mut m: String = "task '".to_owned();
            m.append(t.name.as_str());
            m.append("' is type: wait but has no `wait:` block in DAG '");
            m.append(spec.name.as_str());
            m.append("'");
            m
        },
        Fault::WaitCommand => {
            let mut m: String = "task '".to_owned();
            m.append(t.name.as_str());
            m.append("' (type: wait) must not set a command in DAG '");
            m.append(spec.name.as_str());
            m.append("'");
            m
        },
        Fault::WaitHook => {
            let mut m: String = "task '".to_owned();
            m.append(t.name.as_str());
            m.append("' cannot be both a wait sensor and a hook in DAG '");
            m.append(spec.name.as_str());
            m.append("'");
            m
        },
        Fault::StrayWait => {
            let mut m: String = "task '".to_owned();
            m.append(t.name.as_str());
            m.append("' sets `wait:` but is not `type: wait` in DAG '");
            m.append(spec.name.as_str());
            m.append("'");
            m
        },
        Fault::ProducesKind => {
            let mut m: String = "task '".to_owned();
            m.append(t.name.as_str());
            m.append("' (type: ");
            m.append(type_str(t));
            m.append(") cannot declare `produces:` in DAG '");
            m.append(spec.name.as_str());
            m.append("' — only command tasks record dataset updates");
            m
        },
        Fault::BadProduces { index, fault } => {
            let mut m: String = "invalid produces entry for task '".to_owned();
            m.append(t.name.as_str());
            m.append("' in DAG '");
            m.append(spec.name.as_str());
            m.append("': ");
            m.append(label_message(LabelKind::Dataset, fault, nth_str(&t.produces, index)).as_str());
            m
        },
        Fault::DuplicateProduces { index } => {
            let mut m: String = "duplicate produces entry '".to_owned();
            m.append(nth_str(&t.produces, index));
            m.append("' for task '");
            m.append(t.name.as_str());
            m.append("' in DAG '");
            m.append(spec.name.as_str());
            m.append("'");
            m
        },
        Fault::BadRunnerClass { fault } => {
            let mut m: String = "invalid runner_class for task '".to_owned();
            m.append(t.name.as_str());
            m.append("' in DAG '");
            m.append(spec.name.as_str());
            m.append("': ");
            m.append(label_message(LabelKind::RunnerClass, fault, opt_str(&t.runner_class)).as_str());
            m
        },
        Fault::BadPool { fault } => {
            let mut m: String = "invalid pool for task '".to_owned();
            m.append(t.name.as_str());
            m.append("' in DAG '");
            m.append(spec.name.as_str());
            m.append("': ");
            m.append(label_message(LabelKind::Pool, fault, opt_str(&t.pool)).as_str());
            m
        },
        Fault::EmptyCacheKey => {
            let mut m: String = "empty cache.key for task '".to_owned();
            m.append(t.name.as_str());
            m.append("' in DAG '");
            m.append(spec.name.as_str());
            m.append("'");
            m
        },
        Fault::BadIsolation => {
            let mut m: String = "invalid isolation for task '".to_owned();
            m.append(t.name.as_str());
            m.append("' in DAG '");
            m.append(spec.name.as_str());
            m.append("': ");
            m.append(isolation_str(t));
            m
        },
        Fault::ZeroGpu => {
            let mut m: String = "invalid resources.gpu.count=0 for task '".to_owned();
            m.append(t.name.as_str());
            m.append("' in DAG '");
            m.append(spec.name.as_str());
            m.append("'; expected >= 1 (or omit gpu)");
            m
        },
        Fault::EmptyGpuResource => {
            let mut m: String = "empty resources.gpu.resource for task '".to_owned();
            m.append(t.name.as_str());
            m.append("' in DAG '");
            m.append(spec.name.as_str());
            m.append("'; omit it for the default (nvidia.com/gpu)");
            m
        },
        Fault::GangTooSmall => {
            let mut m: String = "invalid gang.size=".to_owned();
            m.append(u64_text(t.row_count() as u64).as_str());
            m.append(" for task '");
            m.append(t.name.as_str());
            m.append("' in DAG '");
            m.append(spec.name.as_str());
            m.append("'; expected >= 2 (or omit gang)");
            m
        },
        Fault::GangRetries => {
            let mut m: String = "task '".to_owned();
            m.append(t.name.as_str());
            m.append("' cannot combine `gang` with retries (max_attempts > 1) in DAG '");
            m.append(spec.name.as_str());
            m.append("': a gang retries as a unit via run-level rerun, not per member");
            m
        },
        Fault::GangLoopOrGate => {
            let mut m: String = "task '".to_owned();
            m.append(t.name.as_str());
            m.append("' cannot combine `gang` with repeat/approval/template in DAG '");
            m.append(spec.name.as_str());
            m.append("'");
            m
        },
        Fault::GangTriggerOrSensor => {
            let mut m: String = "task '".to_owned();
            m.append(t.name.as_str());
            m.append("' cannot combine `gang` with a sub-workflow trigger or wait sensor in DAG '");
            m.append(spec.name.as_str());
            m.append("'");
            m
        },
        Fault::GangResult => {
            let mut m: String = "result_from cannot name gang task '".to_owned();
            m.append(t.name.as_str());
            m.append("' in DAG '");
            m.append(spec.name.as_str());
            m.append("' (members are '");
            m.append(t.name.as_str());
            m.append(".<rank>')");
            m
        },
        Fault::EmptyUntil => {
            let mut m: String = "task '".to_owned();
            m.append(t.name.as_str());
            m.append("' repeat.until is empty in DAG '");
            m.append(spec.name.as_str());
            m.append("'");
            m
        },
        Fault::ZeroIterations => {
            let mut m: String = "invalid repeat.max_iterations=0 for task '".to_owned();
            m.append(t.name.as_str());
            m.append("' in DAG '");
            m.append(spec.name.as_str());
            m.append("'; expected >= 1");
            m
        },
        Fault::RepeatDelay => {
            let mut m: String = "invalid repeat.delay_secs=".to_owned();
            m.append(u64_text(repeat_delay_of(t)).as_str());
            m.append(" for task '");
            m.append(t.name.as_str());
            m.append("' in DAG '");
            m.append(spec.name.as_str());
            m.append("'; expected <= 31536000 (one year)");
            m
        },
        Fault::RepeatKind => {
            let mut m: String = "task '".to_owned();
            m.append(t.name.as_str());
            m.append("' cannot combine `repeat` with `type: ");
            m.append(type_str(t));
            m.append("` in DAG '");
            m.append(spec.name.as_str());
            m.append("' — `repeat` applies to command tasks and sub-workflow triggers");
            m
        },
        _ => String::new(),
    }
}

/// The message for a rule on a deferred task, a leaf or a link between tasks.
pub open spec fn link_text(spec: DagSpec, t: TaskSpec, fault: Fault) -> Seq<char> {
    match fault {
        Fault::EmptyDeferKind => "task '"@ + t.name@ + "' defer.kind is empty in DAG '"@ + spec.name@ + "'"@,
        Fault::ZeroPoll => "invalid defer.poll_secs=0 for task '"@ + t.name@ + "' in DAG '"@
            + spec.name@
            + "'; expected >= 1 (a zero interval hot-loops the sweep against the remote API)"@,
        Fault::LongPoll => "invalid defer.poll_secs="@ + decimal(poll_secs(t) as nat) + " for task '"@
            + t.name@ + "' in DAG '"@ + spec.name@ + "'; expected <= 31536000 (one year)"@,
        Fault::ShortMaxWait => "invalid defer.max_wait_secs="@ + decimal(max_wait(t) as nat)
            + " for task '"@ + t.name@ + "' in DAG '"@ + spec.name@ + "'; must be >= defer.poll_secs ("@
            + decimal(poll_secs(t) as nat)
            + ") — a shorter ceiling fails the task before its remote job is polled even once"@,
        Fault::DeferRepeat => "task '"@ + t.name@ + "' cannot combine `defer` with `repeat` in DAG '"@
            + spec.name@
            + "' — both are loop operators: `repeat` re-runs the command after each success, `defer` parks on success until the remote job finishes. Poll with `defer` alone (defer.poll_secs), or drop `defer` and poll by re-running the command"@,
        Fault::DeferKind => "task '"@ + t.name@ + "' cannot combine `defer` with `type: "@
            + type_text(t) + "` in DAG '"@ + spec.name@
            + "' — `defer` applies to command tasks: the command is the submit that names the remote job"@,
        Fault::DeferGang => "task '"@ + t.name@ + "' cannot combine `defer` with `gang` in DAG '"@
            + spec.name@
            + "': a gang is N co-scheduled members of one command, and deferring makes each member park on its own remote job — the all-or-nothing the gang exists for is gone. Defer a single task that submits the parallel job instead"@,
        Fault::EmptyDeferUrl => "task '"@ + t.name@ + "' defer.http.url is empty in DAG '"@ + spec.name@
            + "'"@,
        Fault::BadDeferUrl => "task '"@ + t.name@ + "' defer.http.url must be http(s) in DAG '"@
            + spec.name@ + "' — got '"@ + trimmed(http_url_text(t)) + "'"@,
        Fault::NamelessHeader => "task '"@ + t.name@
            + "' has a defer.http header with no name in DAG '"@ + spec.name@ + "'"@,
        Fault::BadCancelUrl => "task '"@ + t.name@ + "' defer.http.cancel.url must be http(s) in DAG '"@
            + spec.name@ + "' — got '"@ + trimmed(cancel_url_text(t)) + "'"@,
        Fault::BadCancelMethod => "task '"@ + t.name@ + "' defer.http.cancel.method in DAG '"@
            + spec.name@ + "' must be one of DELETE, POST, PUT, PATCH — got '"@ + cancel_verb_text(t)
            + "'"@,
        Fault::BadSucceedWhen { fault } => "task '"@ + t.name@ + "' defer.http.succeed_when in DAG '"@
            + spec.name@ + "': "@ + fault.text(),
        Fault::BadFailWhen { fault } => "task '"@ + t.name@ + "' defer.http.fail_when in DAG '"@
            + spec.name@ + "': "@ + fault.text(),
        Fault::BadErrorFrom { fault } => "task '"@ + t.name@ + "' defer.http.error_from in DAG '"@
            + spec.name@ + "': "@ + fault.text(),
        Fault::DeferConnection => "task '"@ + t.name@ + "' in DAG '"@ + spec.name@
            + "' defers on connection '"@ + connection_text(t)
            + "': named connections — one access-controlled, audited registry of compute and warehouse endpoints, with credentials the workflow never names and a record of which run used which endpoint — are not in this build — https://github.com/lucheeseng827/dagron#what-this-build-does-not-do. This build carries the endpoint with the run: put the host in the run's `environment:` variables and the credential in the task's env, resolved at dispatch and masked in task output (docs/CONFIG.md) — `env: [{ name: SPARK_API, value: \"{{ env.SPARK_API }}\" }, { name: SPARK_TOKEN, value_from: { secret: SPARK_TOKEN } }]`. One team with one cluster needs nothing else (docs/EXTERNAL_JOBS.md). Endpoint resolution plugs in via the ExternalPoller seam (dagron_engine::Seams)."@,
        Fault::StrayArguments => "task '"@ + t.name@
            + "' sets `arguments` with no `template` or `type: workflow` to pass them to in DAG '"@
            + spec.name@ + "'"@,
        Fault::SurvivingTemplate => "task '"@ + t.name@ + "' still references template '"@
            + opt_text(t.template) + "' after expansion in DAG '"@ + spec.name@ + "'"@,
        Fault::NoCommand => "task '"@ + t.name@ + "' has no command in DAG '"@ + spec.name@
            + "' (a leaf task needs a command)"@,
        Fault::UnknownDependency { index } => "unknown dependency '"@ + nth(t.depends_on@, index as int)
            + "' in task '"@ + t.name@ + "'"@,
        Fault::DependsOnHook { index } => "task '"@ + t.name@ + "' cannot depend on hook task '"@
            + nth(t.depends_on@, index as int) + "'"@,
        Fault::WhenReference { index } => "task '"@ + t.name@ + "' when references '{{ tasks."@
            + when_ref(t, index as int) + ".output }}' but does not depend on '"@
            + when_ref(t, index as int) + "' in DAG '"@ + spec.name@ + "' — add it to depends_on"@,
        Fault::UnknownProducer => "task '"@ + t.name@ + "' with_output_of names unknown task '"@
            + opt_text(t.with_output_of) + "' in DAG '"@ + spec.name@ + "'"@,
        Fault::ProducerNotDependency => "task '"@ + t.name@ + "' fans out over '"@
            + opt_text(t.with_output_of) + "' output but does not depend on '"@
            + opt_text(t.with_output_of) + "' in DAG '"@ + spec.name@ + "' — add it to depends_on"@,
        Fault::OwnOutput => "task '"@ + t.name@ + "' cannot fan out over its own output in DAG '"@
            + spec.name@ + "'"@,
        _ => Seq::empty(),
    }
}

/// The message for a rule on a deferred task, a leaf or a link between tasks.
fn link_message(spec: &DagSpec, t: &TaskSpec, fault: Fault) -> (m: String)
    ensures
        m@ == link_text(*spec, *t, fault),
{
    match fault {
        Fault::EmptyDeferKind => {
            let mut m: String = "task '".to_owned();
            m.append(t.name.as_str());
            m.append("' defer.kind is empty in DAG '");
            m.append(spec.name.as_str());
            m.append("'");
            m
        },
        Fault::ZeroPoll => {
            let mut m: String = "invalid defer.poll_secs=0 for task '".to_owned();
            m.append(t.name.as_str());
            m.append("' in DAG '");
            m.append(spec.name.as_str());
            m.append("'; expected >= 1 (a zero interval hot-loops the sweep against the remote API)");
            m
        },
        Fault::LongPoll => {
            let mut m: String = "invalid defer.poll_secs=".to_owned();
            m.append(u64_text(poll_secs_of(t)).as_str());
            m.append(" for task '");
            m.append(t.name.as_str());
            m.append("' in DAG '");
            m.append(spec.name.as_str());
            m.append("'; expected <= 31536000 (one year)");
            m
        },
        Fault::ShortMaxWait => {
            let mut m: String = "invalid defer.max_wait_secs=".to_owned();
            m.append(u64_text(max_wait_of(t)).as_str());
            m.append(" for task '");
            m.append(t.name.as_str());
            m.append("' in DAG '");
            m.append(spec.name.as_str());
            m.append("'; must be >= defer.poll_secs (");
            m.append(u64_text(poll_secs_of(t)).as_str());
            m.append(") — a shorter ceiling fails the task before its remote job is polled even once");
            m
        },
        Fault::DeferRepeat => {
            let mut m: String = "task '".to_owned();
            m.append(t.name.as_str());
            m.append("' cannot combine `defer` with `repeat` in DAG '");
            m.append(spec.name.as_str());
            m.append("' — both are loop operators: `repeat` re-runs the command after each success, `defer` parks on success until the remote job finishes. Poll with `defer` alone (defer.poll_secs), or drop `defer` and poll by re-running the command");
            m
        },
        Fault::DeferKind => {
            let mut m: String = "task '".to_owned();
            m.append(t.name.as_str());
            m.append("' cannot combine `defer` with `type: ");
            m.append(type_str(t));
            m.append("` in DAG '");
            m.append(spec.name.as_str());
            m.append("' — `defer` applies to command tasks: the command is the submit that names the remote job");
            m
        },
        Fault::DeferGang => {
            let mut m: String = "task '".to_owned();
            m.append(t.name.as_str());
            m.append("' cannot combine `defer` with `gang` in DAG '");
            m.append(spec.name.as_str());
            m.append("': a gang is N co-scheduled members of one command, and deferring makes each member park on its own remote job — the all-or-nothing the gang exists for is gone. Defer a single task that submits the parallel job instead");
            m
        },
        Fault::EmptyDeferUrl => {
            let mut m: String = "task '".to_owned();
            m.append(t.name.as_str());
            m.append("' defer.http.url is empty in DAG '");
            m.append(spec.name.as_str());
            m.append("'");
            m
        },
        Fault::BadDeferUrl => {
            let mut m: String = "task '".to_owned();
            m.append(t.name.as_str());
            m.append("' defer.http.url must be http(s) in DAG '");
            m.append(spec.name.as_str());
            m.append("' — got '");
            m.append(trim(http_url_str(t)));
            m.append("'");
            m
        },
        Fault::NamelessHeader => {
            let mut m: String = "task '".to_owned();
            m.append(t.name.as_str());
            m.append("' has a defer.http header with no name in DAG '");
            m.append(spec.name.as_str());
            m.append("'");
            m
        },
        Fault::BadCancelUrl => {
            let mut m: String = "task '".to_owned();
            m.append(t.name.as_str());
            m.append("' defer.http.cancel.url must be http(s) in DAG '");
            m.append(spec.name.as_str());
            m.append("' — got '");
            m.append(trim(cancel_url_str(t)));
            m.append("'");
            m
        },
        Fault::BadCancelMethod => {
            let mut m: String = "task '".to_owned();
            m.append(t.name.as_str());
            m.append("' defer.http.cancel.method in DAG '");
            m.append(spec.name.as_str());
            m.append("' must be one of DELETE, POST, PUT, PATCH — got '");
            m.append(cancel_verb_of(t).as_str());
            m.append("'");
            m
        },
        Fault::BadSucceedWhen { fault } => {
            let mut m: String = "task '".to_owned();
            m.append(t.name.as_str());
            m.append("' defer.http.succeed_when in DAG '");
            m.append(spec.name.as_str());
            m.append("': ");
            m.append(fault.message().as_str());
            m
        },
        Fault::BadFailWhen { fault } => {
            let mut m: String = "task '".to_owned();
            m.append(t.name.as_str());
            m.append("' defer.http.fail_when in DAG '");
            m.append(spec.name.as_str());
            m.append("': ");
            m.append(fault.message().as_str());
            m
        },
        Fault::BadErrorFrom { fault } => {
            let mut m: String = "task '".to_owned();
            m.append(t.name.as_str());
            m.append("' defer.http.error_from in DAG '");
            m.append(spec.name.as_str());
            m.append("': ");
            m.append(fault.message().as_str());
            m
        },
        Fault::DeferConnection => {
            let mut m: String = "task '".to_owned();
            m.append(t.name.as_str());
            m.append("' in DAG '");
            m.append(spec.name.as_str());
            m.append("' defers on connection '");
            m.append(connection_str(t));
            m.append("': named connections — one access-controlled, audited registry of compute and warehouse endpoints, with credentials the workflow never names and a record of which run used which endpoint — are not in this build — https://github.com/lucheeseng827/dagron#what-this-build-does-not-do. This build carries the endpoint with the run: put the host in the run's `environment:` variables and the credential in the task's env, resolved at dispatch and masked in task output (docs/CONFIG.md) — `env: [{ name: SPARK_API, value: \"{{ env.SPARK_API }}\" }, { name: SPARK_TOKEN, value_from: { secret: SPARK_TOKEN } }]`. One team with one cluster needs nothing else (docs/EXTERNAL_JOBS.md). Endpoint resolution plugs in via the ExternalPoller seam (dagron_engine::Seams).");
            m
        },
        Fault::StrayArguments => {
            let mut m: String = "task '".to_owned();
            m.append(t.name.as_str());
            m.append("' sets `arguments` with no `template` or `type: workflow` to pass them to in DAG '");
            m.append(spec.name.as_str());
            m.append("'");
            m
        },
        Fault::SurvivingTemplate => {
            let mut m: String = "task '".to_owned();
            m.append(t.name.as_str());
            m.append("' still references template '");
            m.append(opt_str(&t.template));
            m.append("' after expansion in DAG '");
            m.append(spec.name.as_str());
            m.append("'");
            m
        },
        Fault::NoCommand => {
            let mut m: String = "task '".to_owned();
            m.append(t.name.as_str());
            m.append("' has no command in DAG '");
            m.append(spec.name.as_str());
            m.append("' (a leaf task needs a command)");
            m
        },
        Fault::UnknownDependency { index } => {
            let mut m: String = "unknown dependency '".to_owned();
            m.append(nth_str(&t.depends_on, index));
            m.append("' in task '");
            m.append(t.name.as_str());
            m.append("'");
            m
        },
        Fault::DependsOnHook { index } => {
            let mut m: String = "task '".to_owned();
            m.append(t.name.as_str());
            m.append("' cannot depend on hook task '");
            m.append(nth_str(&t.depends_on, index));
            m.append("'");
            m
        },
        Fault::WhenReference { index } => {
            let mut m: String = "task '".to_owned();
            m.append(t.name.as_str());
            m.append("' when references '{{ tasks.");
            m.append(when_ref_of(t, index).as_str());
            m.append(".output }}' but does not depend on '");
            m.append(when_ref_of(t, index).as_str());
            m.append("' in DAG '");
            m.append(spec.name.as_str());
            m.append("' — add it to depends_on");
            m
        },
        Fault::UnknownProducer => {
            let mut m: String = "task '".to_owned();
            m.append(t.name.as_str());
            m.append("' with_output_of names unknown task '");
            m.append(opt_str(&t.with_output_of));
            m.append("' in DAG '");
            m.append(spec.name.as_str());
            m.append("'");
            m
        },
        Fault::ProducerNotDependency => {
            let mut m: String = "task '".to_owned();
            m.append(t.name.as_str());
            m.append("' fans out over '");
            m.append(opt_str(&t.with_output_of));
            m.append("' output but does not depend on '");
            m.append(opt_str(&t.with_output_of));
            m.append("' in DAG '");
            m.append(spec.name.as_str());
            m.append("' — add it to depends_on");
            m
        },
        Fault::OwnOutput => {
            let mut m: String = "task '".to_owned();
            m.append(t.name.as_str());
            m.append("' cannot fan out over its own output in DAG '");
            m.append(spec.name.as_str());
            m.append("'");
            m
        },
        _ => String::new(),
    }
}

/// The message for a broken rule.
pub open spec fn fault_text(spec: DagSpec, fault: Fault, task: Option<int>) -> Seq<char> {
    match task {
        Some(i) => if 0 <= i < spec.tasks@.len() {
            task_text(spec, spec.tasks@[i], fault) + link_text(spec, spec.tasks@[i], fault)
        } else {
            Seq::empty()
        },
        None => workflow_text(spec, fault),
    }
}

/// The message for a broken rule.
pub fn fault_message(spec: &DagSpec, fault: Fault, task: Option<usize>) -> (m: String)
    ensures
        m@ == fault_text(
            *spec,
            fault,
            match task {
                Some(i) => Some(i as int),
                None => None,
            },
        ),
{
    match task {
        Some(i) => {
            if i < spec.tasks.len() {
                let mut m: String = task_message(spec, &spec.tasks[i], fault);
                m.append(link_message(spec, &spec.tasks[i], fault).as_str());
                m
            } else {
                String::new()
            }
        },
        None => workflow_message(spec, fault),
    }
}

} // verus!
