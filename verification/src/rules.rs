//! The rules a workflow must meet before a run of it is created.
use vstd::prelude::*;
use vstd::string::*;
use crate::duration::{duration, parse_duration_secs, DurationFault};
use crate::fault::{is_canonical, FaultClass};
use crate::jsonpred::{check_path, check_predicate, path_fault, predicate_fault, PredicateError};
use crate::labels::{check_label, label_fault, LabelFault, LabelKind};
use crate::text::{blank, holds, http_scheme, is_blank, is_http, same, trim, trimmed};
use crate::time::{parse_rfc3339, rfc3339_value};
use crate::workflow::{
    is_cancel_verb, cancel_verb, says, DagSpec, DeferHttpSpec, TaskSpec, WaitSpec,
    MAX_REPEAT_DELAY_SECS,
};

verus! {

/// Which capabilities the build carries.
#[derive(Debug, Clone, Copy, PartialEq, Eq, Structural)]
pub enum Edition {
    Open,
    Enterprise,
}

/// The rule a workflow breaks. Indices count the entries of the list at fault.
#[allow(inconsistent_fields)]
#[derive(Debug, Clone, Copy, PartialEq, Eq, Structural)]
pub enum Fault {
    ZeroRunTimeout,
    ZeroTaskBudget,
    TaskBudget { max: u32, planned: u64 },
    ZeroExternalBudget,
    ExternalBudget { max: u64, planned: u64, deferred_tasks: u64 },
    CostAttribution,
    BadDeadline { fault: DurationFault },
    BadWorkflowClass { fault: LabelFault },
    BadTag { index: usize, fault: LabelFault },
    BadOnDataset { index: usize, fault: LabelFault },
    DuplicateOnDataset { index: usize },
    BadDatasetsMode,
    DatasetsModeAlone,
    DuplicateTask,
    UnknownFaultClass { index: usize },
    ZeroMaxAttempts,
    BadTriggerRule,
    BadHook,
    BadType,
    BadApprovalAction,
    ApprovalHook,
    NoWorkflowTarget,
    WorkflowCommand,
    WorkflowHook,
    StrayWorkflow,
    NotOneWait,
    BadWaitFor { fault: DurationFault },
    BadWaitUntil,
    BadWaitUrl,
    BadWaitDataset { fault: LabelFault },
    NoWaitBlock,
    WaitCommand,
    WaitHook,
    StrayWait,
    ProducesKind,
    BadProduces { index: usize, fault: LabelFault },
    DuplicateProduces { index: usize },
    BadRunnerClass { fault: LabelFault },
    BadPool { fault: LabelFault },
    EmptyCacheKey,
    BadIsolation,
    ZeroGpu,
    EmptyGpuResource,
    GangTooSmall,
    GangRetries,
    GangLoopOrGate,
    GangTriggerOrSensor,
    GangResult,
    EmptyUntil,
    ZeroIterations,
    RepeatDelay,
    RepeatKind,
    EmptyDeferKind,
    ZeroPoll,
    LongPoll,
    ShortMaxWait,
    DeferRepeat,
    DeferKind,
    DeferGang,
    EmptyDeferUrl,
    BadDeferUrl,
    NamelessHeader,
    BadCancelUrl,
    BadCancelMethod,
    BadSucceedWhen { fault: PredicateError },
    BadFailWhen { fault: PredicateError },
    BadErrorFrom { fault: PredicateError },
    DeferConnection,
    StrayArguments,
    SurvivingTemplate,
    NoCommand,
    UnknownDependency { index: usize },
    DependsOnHook { index: usize },
    Cycle,
    WhenReference { index: usize },
    UnknownProducer,
    ProducerNotDependency,
    OwnOutput,
    UnknownResult,
    HookResult,
}

/// The first complaint of two.
pub open spec fn first(a: Option<Fault>, b: Option<Fault>) -> Option<Fault> {
    if a is Some { a } else { b }
}

/// The fault, where the condition holds.
pub open spec fn fault_if(broken: bool, fault: Fault) -> Option<Fault> {
    if broken { Some(fault) } else { None }
}

// ── Names ────────────────────────────────────────────────────────────────────

pub open spec fn trigger_rule_name(s: Seq<char>) -> bool {
    s == "all_success"@ || s == "all_done"@ || s == "one_failed"@ || s == "all_failed"@ || s
        == "none_failed"@
}

pub open spec fn hook_kind(s: Seq<char>) -> bool {
    s == "on_exit"@ || s == "on_failure"@
}

pub open spec fn task_kind(s: Seq<char>) -> bool {
    s == "task"@ || s == "approval"@ || s == "workflow"@ || s == "wait"@
}

pub open spec fn approval_action(s: Seq<char>) -> bool {
    s == "approve"@ || s == "reject"@
}

fn is_trigger_rule(s: &str) -> (r: bool)
    ensures
        r == trigger_rule_name(s@),
{
    same(s, "all_success") || same(s, "all_done") || same(s, "one_failed") || same(s, "all_failed")
        || same(s, "none_failed")
}

fn is_hook_kind(s: &str) -> (r: bool)
    ensures
        r == hook_kind(s@),
{
    same(s, "on_exit") || same(s, "on_failure")
}

fn is_task_kind(s: &str) -> (r: bool)
    ensures
        r == task_kind(s@),
{
    same(s, "task") || same(s, "approval") || same(s, "workflow") || same(s, "wait")
}

fn is_approval_action(s: &str) -> (r: bool)
    ensures
        r == approval_action(s@),
{
    same(s, "approve") || same(s, "reject")
}

// ── Budgets ──────────────────────────────────────────────────────────────────

/// The task rows the first `n` tasks become: one each, or one per gang member.
pub open spec fn planned_rows(tasks: Seq<TaskSpec>, n: int) -> nat
    decreases n,
{
    if n <= 0 {
        0
    } else {
        planned_rows(tasks, n - 1) + tasks[n - 1].rows()
    }
}

/// The declared cost of one submission of a task.
pub open spec fn unit_cost(t: TaskSpec) -> nat {
    match t.defer {
        Some(d) => match d.cost {
            Some(c) => c as nat,
            None => 1,
        },
        None => 0,
    }
}

/// The declared external cost of the first `n` tasks: each deferred row counts.
pub open spec fn external_cost(tasks: Seq<TaskSpec>, n: int) -> nat
    decreases n,
{
    if n <= 0 {
        0
    } else {
        external_cost(tasks, n - 1) + unit_cost(tasks[n - 1]) * tasks[n - 1].rows()
    }
}

/// The deferred rows among the first `n` tasks.
pub open spec fn deferred_rows(tasks: Seq<TaskSpec>, n: int) -> nat
    decreases n,
{
    if n <= 0 {
        0
    } else {
        deferred_rows(tasks, n - 1) + if tasks[n - 1].defer is Some { tasks[n - 1].rows() } else { 0 }
    }
}

/// The declared external cost as the budget compares it: it stops growing at `u64::MAX`.
pub open spec fn capped_cost(tasks: Seq<TaskSpec>, n: int) -> nat {
    if external_cost(tasks, n) > u64::MAX { u64::MAX as nat } else { external_cost(tasks, n) }
}

pub open spec fn budget_fault(spec: DagSpec, edition: Edition) -> Option<Fault> {
    match spec.budget {
        None => None,
        Some(b) => {
            let n = spec.tasks@.len() as int;
            let planned = planned_rows(spec.tasks@, n);
            let cost = capped_cost(spec.tasks@, n);
            let deferred = deferred_rows(spec.tasks@, n);
            let on_tasks = match b.tasks {
                None => None,
                Some(max) => if max == 0 {
                    Some(Fault::ZeroTaskBudget)
                } else {
                    fault_if(planned > max, Fault::TaskBudget { max, planned: planned as u64 })
                },
            };
            let on_cost = match b.external_cost {
                None => None,
                Some(max) => if max == 0 {
                    Some(Fault::ZeroExternalBudget)
                } else {
                    fault_if(
                        cost > max,
                        Fault::ExternalBudget {
                            max,
                            planned: cost as u64,
                            deferred_tasks: deferred as u64,
                        },
                    )
                },
            };
            first(
                on_tasks,
                first(
                    on_cost,
                    fault_if(
                        edition == Edition::Open && b.external_cost_attribution,
                        Fault::CostAttribution,
                    ),
                ),
            )
        },
    }
}

proof fn lemma_rows_bounded(tasks: Seq<TaskSpec>, n: int)
    requires
        0 <= n <= tasks.len(),
    ensures
        planned_rows(tasks, n) <= n * u32::MAX,
        deferred_rows(tasks, n) <= n * u32::MAX,
    decreases n,
{
    if n > 0 {
        lemma_rows_bounded(tasks, n - 1);
        assert(n * u32::MAX == (n - 1) * u32::MAX + u32::MAX) by (nonlinear_arith);
    }
}

/// The task rows the workflow becomes.
pub fn count_rows(tasks: &Vec<TaskSpec>) -> (n: u64)
    requires
        tasks@.len() <= u32::MAX,
    ensures
        n == planned_rows(tasks@, tasks@.len() as int),
{
    let mut n: u64 = 0;
    let mut i: usize = 0;
    while i < tasks.len()
        invariant
            i <= tasks@.len() <= u32::MAX,
            n == planned_rows(tasks@, i as int),
        decreases tasks@.len() - i,
    {
        proof {
            lemma_rows_bounded(tasks@, i as int);
            assert(i * u32::MAX <= (u32::MAX - 1) * u32::MAX) by (nonlinear_arith)
                requires
                    i < u32::MAX,
            ;
        }
        n = n + tasks[i].row_count() as u64;
        i += 1;
    }
    n
}

/// The declared external cost and the deferred rows of the workflow.
fn count_external(tasks: &Vec<TaskSpec>) -> (r: (u64, u64))
    requires
        tasks@.len() <= u32::MAX,
    ensures
        r.0 == capped_cost(tasks@, tasks@.len() as int),
        r.1 == deferred_rows(tasks@, tasks@.len() as int),
{
    let mut cost: u64 = 0;
    let mut rows: u64 = 0;
    let mut i: usize = 0;
    while i < tasks.len()
        invariant
            i <= tasks@.len() <= u32::MAX,
            cost == capped_cost(tasks@, i as int),
            rows == deferred_rows(tasks@, i as int),
        decreases tasks@.len() - i,
    {
        proof {
            lemma_rows_bounded(tasks@, i as int);
            assert(i * u32::MAX <= (u32::MAX - 1) * u32::MAX) by (nonlinear_arith)
                requires
                    i < u32::MAX,
            ;
        }
        let ghost t = tasks@[i as int];
        match &tasks[i].defer {
            Some(d) => {
                let size: u32 = tasks[i].row_count();
                let unit: u64 = match d.cost {
                    Some(c) => c,
                    None => 1,
                };
                assert(unit * size <= u64::MAX * u32::MAX) by (nonlinear_arith)
                    requires
                        unit <= u64::MAX,
                        size <= u32::MAX,
                ;
                assert(0 <= unit * size) by (nonlinear_arith)
                    requires
                        0 <= unit,
                        0 <= size,
                ;
                let wide: u128 = cost as u128 + (unit as u128) * (size as u128);
                assert(unit_cost(t) * t.rows() == unit * size);
                cost = if wide > u64::MAX as u128 {
                    u64::MAX
                } else {
                    wide as u64
                };
                rows = rows + size as u64;
            },
            None => {
                assert(unit_cost(t) * t.rows() == 0) by (nonlinear_arith)
                    requires
                        unit_cost(t) == 0,
                ;
            },
        }
        i += 1;
    }
    (cost, rows)
}

fn check_budget(spec: &DagSpec, edition: Edition) -> (r: Option<Fault>)
    requires
        spec.tasks@.len() <= u32::MAX,
    ensures
        r == budget_fault(*spec, edition),
{
    match &spec.budget {
        None => None,
        Some(b) => {
            match b.tasks {
                None => {},
                Some(max) => {
                    if max == 0 {
                        return Some(Fault::ZeroTaskBudget);
                    }
                    let planned: u64 = count_rows(&spec.tasks);
                    if planned > max as u64 {
                        return Some(Fault::TaskBudget { max, planned });
                    }
                },
            }
            match b.external_cost {
                None => {},
                Some(max) => {
                    if max == 0 {
                        return Some(Fault::ZeroExternalBudget);
                    }
                    let (planned, deferred_tasks): (u64, u64) = count_external(&spec.tasks);
                    if planned > max {
                        return Some(Fault::ExternalBudget { max, planned, deferred_tasks });
                    }
                },
            }
            let open: bool = match edition {
                Edition::Open => true,
                Edition::Enterprise => false,
            };
            if open && b.external_cost_attribution {
                Some(Fault::CostAttribution)
            } else {
                None
            }
        },
    }
}

// ── The workflow as a whole ──────────────────────────────────────────────────

/// The complaint about the first bad entry of a list of names from `i` on.
pub open spec fn tag_fault(tags: Seq<String>, i: int) -> Option<Fault>
    decreases tags.len() - i,
{
    if i < 0 || i >= tags.len() {
        None
    } else {
        match label_fault(LabelKind::Tag, tags[i]@) {
            Some(fault) => Some(Fault::BadTag { index: i as usize, fault }),
            None => tag_fault(tags, i + 1),
        }
    }
}

/// `uris[i]` stands earlier in the list too.
pub open spec fn repeats(uris: Seq<String>, i: int) -> bool {
    exists|j: int| 0 <= j < i && #[trigger] uris[j]@ == uris[i]@
}

/// The complaint about the first bad or repeated subscription from `i` on.
pub open spec fn on_datasets_fault(uris: Seq<String>, i: int) -> Option<Fault>
    decreases uris.len() - i,
{
    if i < 0 || i >= uris.len() {
        None
    } else {
        match label_fault(LabelKind::Dataset, uris[i]@) {
            Some(fault) => Some(Fault::BadOnDataset { index: i as usize, fault }),
            None => if repeats(uris, i) {
                Some(Fault::DuplicateOnDataset { index: i as usize })
            } else {
                on_datasets_fault(uris, i + 1)
            },
        }
    }
}

pub open spec fn datasets_mode_fault(spec: DagSpec) -> Option<Fault> {
    match spec.datasets_mode {
        Some(mode) => if mode@ != "any"@ && mode@ != "all"@ {
            Some(Fault::BadDatasetsMode)
        } else {
            fault_if(spec.on_datasets@.len() == 0, Fault::DatasetsModeAlone)
        },
        None => None,
    }
}

pub open spec fn deadline_fault(spec: DagSpec) -> Option<Fault> {
    match spec.deadline {
        Some(d) => match duration(d.within@) {
            Ok(_) => None,
            Err(fault) => Some(Fault::BadDeadline { fault }),
        },
        None => None,
    }
}

pub open spec fn workflow_class_fault(spec: DagSpec) -> Option<Fault> {
    match spec.runner_class {
        Some(c) => match label_fault(LabelKind::RunnerClass, c@) {
            Some(fault) => Some(Fault::BadWorkflowClass { fault }),
            None => None,
        },
        None => None,
    }
}

/// The first rule that the workflow breaks apart from its tasks.
pub open spec fn header_fault(spec: DagSpec, edition: Edition) -> Option<Fault> {
    first(
        fault_if(spec.run_timeout_secs == Some(0u64), Fault::ZeroRunTimeout),
        first(
            budget_fault(spec, edition),
            first(
                deadline_fault(spec),
                first(
                    workflow_class_fault(spec),
                    first(
                        tag_fault(spec.tags@, 0),
                        first(on_datasets_fault(spec.on_datasets@, 0), datasets_mode_fault(spec)),
                    ),
                ),
            ),
        ),
    )
}

fn check_tags(tags: &Vec<String>) -> (r: Option<Fault>)
    ensures
        r == tag_fault(tags@, 0),
{
    let mut i: usize = 0;
    while i < tags.len()
        invariant
            i <= tags@.len(),
            tag_fault(tags@, 0) == tag_fault(tags@, i as int),
        decreases tags@.len() - i,
    {
        match check_label(LabelKind::Tag, tags[i].as_str()) {
            Some(fault) => {
                return Some(Fault::BadTag { index: i, fault });
            },
            None => {},
        }
        i += 1;
    }
    None
}

/// Whether `uris[i]` stands earlier in the list too.
fn is_repeated(uris: &Vec<String>, i: usize) -> (r: bool)
    requires
        i < uris@.len(),
    ensures
        r == repeats(uris@, i as int),
{
    let mut j: usize = 0;
    while j < i
        invariant
            j <= i < uris@.len(),
            forall|k: int| 0 <= k < j ==> #[trigger] uris@[k]@ != uris@[i as int]@,
        decreases i - j,
    {
        if same(uris[j].as_str(), uris[i].as_str()) {
            return true;
        }
        j += 1;
    }
    false
}

fn check_on_datasets(uris: &Vec<String>) -> (r: Option<Fault>)
    ensures
        r == on_datasets_fault(uris@, 0),
{
    let mut i: usize = 0;
    while i < uris.len()
        invariant
            i <= uris@.len(),
            on_datasets_fault(uris@, 0) == on_datasets_fault(uris@, i as int),
        decreases uris@.len() - i,
    {
        match check_label(LabelKind::Dataset, uris[i].as_str()) {
            Some(fault) => {
                return Some(Fault::BadOnDataset { index: i, fault });
            },
            None => {},
        }
        if is_repeated(uris, i) {
            return Some(Fault::DuplicateOnDataset { index: i });
        }
        i += 1;
    }
    None
}

/// The first rule that the workflow breaks apart from its tasks.
pub fn check_header(spec: &DagSpec, edition: Edition) -> (r: Option<Fault>)
    requires
        spec.tasks@.len() <= u32::MAX,
    ensures
        r == header_fault(*spec, edition),
{
    match spec.run_timeout_secs {
        Some(secs) => {
            if secs == 0 {
                return Some(Fault::ZeroRunTimeout);
            }
        },
        None => {},
    }
    let f: Option<Fault> = check_budget(spec, edition);
    if f.is_some() {
        return f;
    }
    match &spec.deadline {
        Some(d) => match parse_duration_secs(d.within.as_str()) {
            Ok(_) => {},
            Err(fault) => {
                return Some(Fault::BadDeadline { fault });
            },
        },
        None => {},
    }
    match &spec.runner_class {
        Some(c) => match check_label(LabelKind::RunnerClass, c.as_str()) {
            Some(fault) => {
                return Some(Fault::BadWorkflowClass { fault });
            },
            None => {},
        },
        None => {},
    }
    let f: Option<Fault> = check_tags(&spec.tags);
    if f.is_some() {
        return f;
    }
    let f: Option<Fault> = check_on_datasets(&spec.on_datasets);
    if f.is_some() {
        return f;
    }
    match &spec.datasets_mode {
        Some(mode) => {
            if !same(mode.as_str(), "any") && !same(mode.as_str(), "all") {
                Some(Fault::BadDatasetsMode)
            } else if spec.on_datasets.len() == 0 {
                Some(Fault::DatasetsModeAlone)
            } else {
                None
            }
        },
        None => None,
    }
}

// ── One task ─────────────────────────────────────────────────────────────────

/// An earlier task has the name of task `i`.
pub open spec fn duplicate_name(tasks: Seq<TaskSpec>, i: int) -> bool {
    exists|j: int| 0 <= j < i && #[trigger] tasks[j].name@ == tasks[i].name@
}

/// The first retry budget from `i` on whose key is no canonical fault class.
pub open spec fn budget_key_fault(entries: Seq<(String, u32)>, i: int) -> Option<Fault>
    decreases entries.len() - i,
{
    if i < 0 || i >= entries.len() {
        None
    } else if !is_canonical(entries[i].0@) {
        Some(Fault::UnknownFaultClass { index: i as usize })
    } else {
        budget_key_fault(entries, i + 1)
    }
}

/// The option names something outside its list.
pub open spec fn names_other(opt: Option<String>, known: spec_fn(Seq<char>) -> bool) -> bool {
    opt is Some && !known(opt->0@)
}

/// Attempts, trigger rule, hook and type.
pub open spec fn kind_fault(t: TaskSpec) -> Option<Fault> {
    if t.max_attempts == 0 {
        Some(Fault::ZeroMaxAttempts)
    } else if names_other(t.trigger_rule, |s: Seq<char>| trigger_rule_name(s)) {
        Some(Fault::BadTriggerRule)
    } else if names_other(t.hook, |s: Seq<char>| hook_kind(s)) {
        Some(Fault::BadHook)
    } else if names_other(t.task_type, |s: Seq<char>| task_kind(s)) {
        Some(Fault::BadType)
    } else if names_other(t.approval_on_timeout, |s: Seq<char>| approval_action(s)) {
        Some(Fault::BadApprovalAction)
    } else {
        fault_if(t.approval() && t.hook is Some, Fault::ApprovalHook)
    }
}

/// A sub-workflow trigger names its target, and nothing else does.
pub open spec fn trigger_fault(t: TaskSpec) -> Option<Fault> {
    if t.triggers_workflow() {
        if t.workflow is None || blank(t.workflow->0@) {
            Some(Fault::NoWorkflowTarget)
        } else if t.command@.len() > 0 {
            Some(Fault::WorkflowCommand)
        } else {
            fault_if(t.hook is Some, Fault::WorkflowHook)
        }
    } else {
        fault_if(t.workflow is Some, Fault::StrayWorkflow)
    }
}

/// How many of a sensor's conditions are set.
pub open spec fn wait_conditions(w: WaitSpec) -> int {
    (if w.wait_for is Some { 1int } else { 0 }) + (if w.until is Some { 1int } else { 0 }) + (if w.url is Some {
        1int
    } else {
        0
    }) + (if w.dataset is Some { 1int } else { 0 })
}

pub open spec fn wait_block_fault(w: WaitSpec) -> Option<Fault> {
    if wait_conditions(w) != 1 {
        Some(Fault::NotOneWait)
    } else if w.wait_for matches Some(f) && duration(f@) is Err {
        Some(Fault::BadWaitFor { fault: duration(w.wait_for->0@)->Err_0 })
    } else if w.until matches Some(u) && rfc3339_value(u@) is Err {
        Some(Fault::BadWaitUntil)
    } else if w.url matches Some(u) && !http_scheme(trimmed(u@)) {
        Some(Fault::BadWaitUrl)
    } else if w.dataset matches Some(d) && label_fault(LabelKind::Dataset, d@) is Some {
        Some(Fault::BadWaitDataset { fault: label_fault(LabelKind::Dataset, w.dataset->0@)->0 })
    } else {
        None
    }
}

/// A sensor waits for exactly one well-formed condition, and nothing else waits.
pub open spec fn sensor_fault(t: TaskSpec) -> Option<Fault> {
    if t.waits() {
        match t.wait {
            None => Some(Fault::NoWaitBlock),
            Some(w) => first(
                wait_block_fault(w),
                if t.command@.len() > 0 {
                    Some(Fault::WaitCommand)
                } else {
                    fault_if(t.hook is Some, Fault::WaitHook)
                },
            ),
        }
    } else {
        fault_if(t.wait is Some, Fault::StrayWait)
    }
}

/// The complaint about the first bad or repeated product from `i` on.
pub open spec fn products_fault(uris: Seq<String>, i: int) -> Option<Fault>
    decreases uris.len() - i,
{
    if i < 0 || i >= uris.len() {
        None
    } else {
        match label_fault(LabelKind::Dataset, uris[i]@) {
            Some(fault) => Some(Fault::BadProduces { index: i as usize, fault }),
            None => if repeats(uris, i) {
                Some(Fault::DuplicateProduces { index: i as usize })
            } else {
                products_fault(uris, i + 1)
            },
        }
    }
}

/// Only command tasks produce datasets.
pub open spec fn produces_fault(t: TaskSpec) -> Option<Fault> {
    if t.produces@.len() > 0 && (t.approval() || t.triggers_workflow() || t.waits()) {
        Some(Fault::ProducesKind)
    } else {
        products_fault(t.produces@, 0)
    }
}

/// Runner class, pool, cache key, trust envelope and accelerator.
pub open spec fn placement_fault(t: TaskSpec) -> Option<Fault> {
    if t.runner_class matches Some(c) && label_fault(LabelKind::RunnerClass, c@) is Some {
        Some(Fault::BadRunnerClass { fault: label_fault(LabelKind::RunnerClass, t.runner_class->0@)->0 })
    } else if t.pool matches Some(p) && label_fault(LabelKind::Pool, p@) is Some {
        Some(Fault::BadPool { fault: label_fault(LabelKind::Pool, t.pool->0@)->0 })
    } else if t.cache matches Some(c) && blank(c.key@) {
        Some(Fault::EmptyCacheKey)
    } else if t.isolation matches Some(i) && i.complaint is Some {
        Some(Fault::BadIsolation)
    } else if t.resources matches Some(r) && r.gpu matches Some(g) && g.count == 0 {
        Some(Fault::ZeroGpu)
    } else if t.resources matches Some(r) && r.gpu matches Some(g) && g.resource matches Some(k)
        && blank(k@) {
        Some(Fault::EmptyGpuResource)
    } else {
        None
    }
}

/// A gang has members, dies together, and is a plain command task.
pub open spec fn gang_fault(spec: DagSpec, t: TaskSpec) -> Option<Fault> {
    match t.gang {
        None => None,
        Some(g) => if g.size < 2 {
            Some(Fault::GangTooSmall)
        } else if t.max_attempts > 1 {
            Some(Fault::GangRetries)
        } else if t.repeat is Some || t.approval() || t.template is Some {
            Some(Fault::GangLoopOrGate)
        } else if t.triggers_workflow() || t.waits() {
            Some(Fault::GangTriggerOrSensor)
        } else {
            fault_if(says(spec.result_from, t.name@), Fault::GangResult)
        },
    }
}

/// A loop has a condition, a bound and something that evaluates it.
pub open spec fn repeat_fault(t: TaskSpec) -> Option<Fault> {
    match t.repeat {
        None => None,
        Some(r) => if blank(r.until@) {
            Some(Fault::EmptyUntil)
        } else if r.max_iterations == 0 {
            Some(Fault::ZeroIterations)
        } else if r.delay_secs > MAX_REPEAT_DELAY_SECS {
            Some(Fault::RepeatDelay)
        } else {
            fault_if(
                !(t.task_type is None || says(t.task_type, "task"@) || t.triggers_workflow()),
                Fault::RepeatKind,
            )
        },
    }
}

/// The HTTP transport of a deferred task can be polled and read.
pub open spec fn http_fault(h: DeferHttpSpec) -> Option<Fault> {
    if blank(h.url@) {
        Some(Fault::EmptyDeferUrl)
    } else if !http_scheme(trimmed(h.url@)) {
        Some(Fault::BadDeferUrl)
    } else if exists|i: int| 0 <= i < h.headers@.len() && blank(#[trigger] h.headers@[i].name@) {
        Some(Fault::NamelessHeader)
    } else if h.cancel matches Some(c) && !http_scheme(trimmed(c.url@)) {
        Some(Fault::BadCancelUrl)
    } else if h.cancel matches Some(c) && !cancel_verb(c.verb()) {
        Some(Fault::BadCancelMethod)
    } else if predicate_fault(h.succeed_when@) is Some {
        Some(Fault::BadSucceedWhen { fault: predicate_fault(h.succeed_when@)->0 })
    } else if h.fail_when matches Some(f) && predicate_fault(f@) is Some {
        Some(Fault::BadFailWhen { fault: predicate_fault(h.fail_when->0@)->0 })
    } else if h.error_from matches Some(e) && path_fault(e@) is Some {
        Some(Fault::BadErrorFrom { fault: path_fault(h.error_from->0@)->0 })
    } else {
        None
    }
}

/// A deferred task is a plain command task that can be polled.
pub open spec fn defer_fault(t: TaskSpec, edition: Edition) -> Option<Fault> {
    match t.defer {
        None => None,
        Some(d) => if blank(d.kind@) {
            Some(Fault::EmptyDeferKind)
        } else if d.poll_secs == 0 {
            Some(Fault::ZeroPoll)
        } else if d.poll_secs > MAX_REPEAT_DELAY_SECS {
            Some(Fault::LongPoll)
        } else if d.max_wait_secs matches Some(max) && max < d.poll_secs {
            Some(Fault::ShortMaxWait)
        } else if t.repeat is Some {
            Some(Fault::DeferRepeat)
        } else if !(t.task_type is None || says(t.task_type, "task"@)) {
            Some(Fault::DeferKind)
        } else if t.gang is Some {
            Some(Fault::DeferGang)
        } else {
            first(
                match d.http {
                    Some(h) => http_fault(h),
                    None => None,
                },
                fault_if(edition == Edition::Open && d.connection is Some, Fault::DeferConnection),
            )
        },
    }
}

/// After expansion a task is a leaf: something to run, and nothing to expand.
pub open spec fn leaf_fault(t: TaskSpec) -> Option<Fault> {
    if t.arguments.entries@.len() > 0 && !t.triggers_workflow() {
        Some(Fault::StrayArguments)
    } else if t.template is Some {
        Some(Fault::SurvivingTemplate)
    } else {
        fault_if(
            t.command@.len() == 0 && !t.approval() && !t.triggers_workflow() && !t.waits(),
            Fault::NoCommand,
        )
    }
}

/// The first rule that task `i` breaks on its own.
pub open spec fn task_fault(spec: DagSpec, i: int, edition: Edition) -> Option<Fault> {
    let t = spec.tasks@[i];
    first(
        fault_if(duplicate_name(spec.tasks@, i), Fault::DuplicateTask),
        first(
            budget_key_fault(t.retry_budgets.entries@, 0),
            first(
                kind_fault(t),
                first(
                    trigger_fault(t),
                    first(
                        sensor_fault(t),
                        first(
                            produces_fault(t),
                            first(
                                placement_fault(t),
                                first(
                                    gang_fault(spec, t),
                                    first(
                                        repeat_fault(t),
                                        first(defer_fault(t, edition), leaf_fault(t)),
                                    ),
                                ),
                            ),
                        ),
                    ),
                ),
            ),
        ),
    )
}

fn check_budget_keys(t: &TaskSpec) -> (r: Option<Fault>)
    ensures
        r == budget_key_fault(t.retry_budgets.entries@, 0),
{
    let entries: &Vec<(String, u32)> = &t.retry_budgets.entries;
    let mut i: usize = 0;
    while i < entries.len()
        invariant
            i <= entries@.len(),
            entries@ == t.retry_budgets.entries@,
            budget_key_fault(entries@, 0) == budget_key_fault(entries@, i as int),
        decreases entries@.len() - i,
    {
        let key: &str = entries[i].0.as_str();
        if !same(key, FaultClass::parse(key).as_str()) {
            return Some(Fault::UnknownFaultClass { index: i });
        }
        i += 1;
    }
    None
}

fn check_kind(t: &TaskSpec) -> (r: Option<Fault>)
    ensures
        r == kind_fault(*t),
{
    if t.max_attempts == 0 {
        return Some(Fault::ZeroMaxAttempts);
    }
    match &t.trigger_rule {
        Some(s) => {
            if !is_trigger_rule(s.as_str()) {
                return Some(Fault::BadTriggerRule);
            }
        },
        None => {},
    }
    match &t.hook {
        Some(s) => {
            if !is_hook_kind(s.as_str()) {
                return Some(Fault::BadHook);
            }
        },
        None => {},
    }
    match &t.task_type {
        Some(s) => {
            if !is_task_kind(s.as_str()) {
                return Some(Fault::BadType);
            }
        },
        None => {},
    }
    match &t.approval_on_timeout {
        Some(s) => {
            if !is_approval_action(s.as_str()) {
                return Some(Fault::BadApprovalAction);
            }
        },
        None => {},
    }
    if t.is_approval() && t.hook.is_some() {
        Some(Fault::ApprovalHook)
    } else {
        None
    }
}

fn check_trigger(t: &TaskSpec) -> (r: Option<Fault>)
    ensures
        r == trigger_fault(*t),
{
    if t.is_workflow() {
        let named: bool = match &t.workflow {
            Some(w) => !is_blank(w.as_str()),
            None => false,
        };
        if !named {
            Some(Fault::NoWorkflowTarget)
        } else if t.command.len() > 0 {
            Some(Fault::WorkflowCommand)
        } else if t.hook.is_some() {
            Some(Fault::WorkflowHook)
        } else {
            None
        }
    } else if t.workflow.is_some() {
        Some(Fault::StrayWorkflow)
    } else {
        None
    }
}

fn check_wait_block(w: &WaitSpec) -> (r: Option<Fault>)
    ensures
        r == wait_block_fault(*w),
{
    let a: u8 = if w.wait_for.is_some() { 1 } else { 0 };
    let b: u8 = if w.until.is_some() { 1 } else { 0 };
    let c: u8 = if w.url.is_some() { 1 } else { 0 };
    let d: u8 = if w.dataset.is_some() { 1 } else { 0 };
    if a + b + c + d != 1 {
        return Some(Fault::NotOneWait);
    }
    match &w.wait_for {
        Some(f) => match parse_duration_secs(f.as_str()) {
            Ok(_) => {},
            Err(fault) => {
                return Some(Fault::BadWaitFor { fault });
            },
        },
        None => {},
    }
    match &w.until {
        Some(u) => {
            if parse_rfc3339(u.as_str()).is_err() {
                return Some(Fault::BadWaitUntil);
            }
        },
        None => {},
    }
    match &w.url {
        Some(u) => {
            if !is_http(trim(u.as_str())) {
                return Some(Fault::BadWaitUrl);
            }
        },
        None => {},
    }
    match &w.dataset {
        Some(ds) => match check_label(LabelKind::Dataset, ds.as_str()) {
            Some(fault) => Some(Fault::BadWaitDataset { fault }),
            None => None,
        },
        None => None,
    }
}

fn check_sensor(t: &TaskSpec) -> (r: Option<Fault>)
    ensures
        r == sensor_fault(*t),
{
    if t.is_wait() {
        match &t.wait {
            None => Some(Fault::NoWaitBlock),
            Some(w) => {
                let f: Option<Fault> = check_wait_block(w);
                if f.is_some() {
                    f
                } else if t.command.len() > 0 {
                    Some(Fault::WaitCommand)
                } else if t.hook.is_some() {
                    Some(Fault::WaitHook)
                } else {
                    None
                }
            },
        }
    } else if t.wait.is_some() {
        Some(Fault::StrayWait)
    } else {
        None
    }
}

fn check_produces(t: &TaskSpec) -> (r: Option<Fault>)
    ensures
        r == produces_fault(*t),
{
    let uris: &Vec<String> = &t.produces;
    if uris.len() > 0 && (t.is_approval() || t.is_workflow() || t.is_wait()) {
        return Some(Fault::ProducesKind);
    }
    let mut i: usize = 0;
    while i < uris.len()
        invariant
            i <= uris@.len(),
            products_fault(uris@, 0) == products_fault(uris@, i as int),
            produces_fault(*t) == products_fault(uris@, 0),
        decreases uris@.len() - i,
    {
        match check_label(LabelKind::Dataset, uris[i].as_str()) {
            Some(fault) => {
                return Some(Fault::BadProduces { index: i, fault });
            },
            None => {},
        }
        if is_repeated(uris, i) {
            return Some(Fault::DuplicateProduces { index: i });
        }
        i += 1;
    }
    None
}

fn check_placement(t: &TaskSpec) -> (r: Option<Fault>)
    ensures
        r == placement_fault(*t),
{
    match &t.runner_class {
        Some(c) => match check_label(LabelKind::RunnerClass, c.as_str()) {
            Some(fault) => {
                return Some(Fault::BadRunnerClass { fault });
            },
            None => {},
        },
        None => {},
    }
    match &t.pool {
        Some(p) => match check_label(LabelKind::Pool, p.as_str()) {
            Some(fault) => {
                return Some(Fault::BadPool { fault });
            },
            None => {},
        },
        None => {},
    }
    match &t.cache {
        Some(c) => {
            if is_blank(c.key.as_str()) {
                return Some(Fault::EmptyCacheKey);
            }
        },
        None => {},
    }
    match &t.isolation {
        Some(i) => {
            if i.complaint.is_some() {
                return Some(Fault::BadIsolation);
            }
        },
        None => {},
    }
    match &t.resources {
        Some(r) => match &r.gpu {
            Some(g) => {
                if g.count == 0 {
                    return Some(Fault::ZeroGpu);
                }
                match &g.resource {
                    Some(k) => {
                        if is_blank(k.as_str()) {
                            return Some(Fault::EmptyGpuResource);
                        }
                    },
                    None => {},
                }
            },
            None => {},
        },
        None => {},
    }
    None
}

fn check_gang(spec: &DagSpec, t: &TaskSpec) -> (r: Option<Fault>)
    ensures
        r == gang_fault(*spec, *t),
{
    match &t.gang {
        None => None,
        Some(g) => {
            if g.size < 2 {
                Some(Fault::GangTooSmall)
            } else if t.max_attempts > 1 {
                Some(Fault::GangRetries)
            } else if t.repeat.is_some() || t.is_approval() || t.template.is_some() {
                Some(Fault::GangLoopOrGate)
            } else if t.is_workflow() || t.is_wait() {
                Some(Fault::GangTriggerOrSensor)
            } else if holds(&spec.result_from, t.name.as_str()) {
                Some(Fault::GangResult)
            } else {
                None
            }
        },
    }
}

fn check_repeat(t: &TaskSpec) -> (r: Option<Fault>)
    ensures
        r == repeat_fault(*t),
{
    match &t.repeat {
        None => None,
        Some(r) => {
            if is_blank(r.until.as_str()) {
                Some(Fault::EmptyUntil)
            } else if r.max_iterations == 0 {
                Some(Fault::ZeroIterations)
            } else if r.delay_secs > MAX_REPEAT_DELAY_SECS {
                Some(Fault::RepeatDelay)
            } else if !(t.task_type.is_none() || holds(&t.task_type, "task") || t.is_workflow()) {
                Some(Fault::RepeatKind)
            } else {
                None
            }
        },
    }
}

fn check_http(h: &DeferHttpSpec) -> (r: Option<Fault>)
    ensures
        r == http_fault(*h),
{
    let url: &str = trim(h.url.as_str());
    if url.is_empty() {
        return Some(Fault::EmptyDeferUrl);
    }
    if !is_http(url) {
        return Some(Fault::BadDeferUrl);
    }
    let mut i: usize = 0;
    while i < h.headers.len()
        invariant
            i <= h.headers@.len(),
            !blank(h.url@),
            http_scheme(trimmed(h.url@)),
            forall|k: int| 0 <= k < i ==> !blank(#[trigger] h.headers@[k].name@),
        decreases h.headers@.len() - i,
    {
        if is_blank(h.headers[i].name.as_str()) {
            return Some(Fault::NamelessHeader);
        }
        i += 1;
    }
    match &h.cancel {
        Some(c) => {
            if !is_http(trim(c.url.as_str())) {
                return Some(Fault::BadCancelUrl);
            }
            if !is_cancel_verb(c.method().as_str()) {
                return Some(Fault::BadCancelMethod);
            }
        },
        None => {},
    }
    match check_predicate(h.succeed_when.as_str()) {
        Some(fault) => {
            return Some(Fault::BadSucceedWhen { fault });
        },
        None => {},
    }
    match &h.fail_when {
        Some(f) => match check_predicate(f.as_str()) {
            Some(fault) => {
                return Some(Fault::BadFailWhen { fault });
            },
            None => {},
        },
        None => {},
    }
    match &h.error_from {
        Some(e) => match check_path(e.as_str()) {
            Some(fault) => Some(Fault::BadErrorFrom { fault }),
            None => None,
        },
        None => None,
    }
}

fn check_defer(t: &TaskSpec, edition: Edition) -> (r: Option<Fault>)
    ensures
        r == defer_fault(*t, edition),
{
    match &t.defer {
        None => None,
        Some(d) => {
            if is_blank(d.kind.as_str()) {
                return Some(Fault::EmptyDeferKind);
            }
            if d.poll_secs == 0 {
                return Some(Fault::ZeroPoll);
            }
            if d.poll_secs > MAX_REPEAT_DELAY_SECS {
                return Some(Fault::LongPoll);
            }
            match d.max_wait_secs {
                Some(max) => {
                    if max < d.poll_secs {
                        return Some(Fault::ShortMaxWait);
                    }
                },
                None => {},
            }
            if t.repeat.is_some() {
                return Some(Fault::DeferRepeat);
            }
            if !(t.task_type.is_none() || holds(&t.task_type, "task")) {
                return Some(Fault::DeferKind);
            }
            if t.gang.is_some() {
                return Some(Fault::DeferGang);
            }
            match &d.http {
                Some(h) => {
                    let f: Option<Fault> = check_http(h);
                    if f.is_some() {
                        return f;
                    }
                },
                None => {},
            }
            let open: bool = match edition {
                Edition::Open => true,
                Edition::Enterprise => false,
            };
            if open && d.connection.is_some() {
                Some(Fault::DeferConnection)
            } else {
                None
            }
        },
    }
}

fn check_leaf(t: &TaskSpec) -> (r: Option<Fault>)
    ensures
        r == leaf_fault(*t),
{
    if t.arguments.entries.len() > 0 && !t.is_workflow() {
        Some(Fault::StrayArguments)
    } else if t.template.is_some() {
        Some(Fault::SurvivingTemplate)
    } else if t.command.len() == 0 && !t.is_approval() && !t.is_workflow() && !t.is_wait() {
        Some(Fault::NoCommand)
    } else {
        None
    }
}

/// The first rule that task `i` breaks on its own; `duplicate` tells whether an
/// earlier task has its name.
pub fn check_task(spec: &DagSpec, i: usize, duplicate: bool, edition: Edition) -> (r: Option<Fault>)
    requires
        i < spec.tasks@.len(),
        duplicate == duplicate_name(spec.tasks@, i as int),
    ensures
        r == task_fault(*spec, i as int, edition),
{
    if duplicate {
        return Some(Fault::DuplicateTask);
    }
    let t: &TaskSpec = &spec.tasks[i];
    let f: Option<Fault> = check_budget_keys(t);
    if f.is_some() {
        return f;
    }
    let f: Option<Fault> = check_kind(t);
    if f.is_some() {
        return f;
    }
    let f: Option<Fault> = check_trigger(t);
    if f.is_some() {
        return f;
    }
    let f: Option<Fault> = check_sensor(t);
    if f.is_some() {
        return f;
    }
    let f: Option<Fault> = check_produces(t);
    if f.is_some() {
        return f;
    }
    let f: Option<Fault> = check_placement(t);
    if f.is_some() {
        return f;
    }
    let f: Option<Fault> = check_gang(spec, t);
    if f.is_some() {
        return f;
    }
    let f: Option<Fault> = check_repeat(t);
    if f.is_some() {
        return f;
    }
    let f: Option<Fault> = check_defer(t, edition);
    if f.is_some() {
        return f;
    }
    check_leaf(t)
}

} // verus!
