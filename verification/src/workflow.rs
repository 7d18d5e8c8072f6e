//! The workflow specification: what an author writes, after expansion.
use vstd::prelude::*;
use vstd::string::*;
use crate::decimal::{decimal, i64_text, signed_decimal, u64_text};
use crate::expand::{condition, condition_error, eval_when, substitute, substituted};
use crate::text::{
    ascii_upper, holds, same, split, split_on, strip_prefix, texts, trim, trimmed, upper_char,
};
use crate::text_map::{entries_map, in_key_order, text_values, TextMap};
use crate::time::{add_seconds, rfc3339_text, shifted, to_rfc3339, utc_now, Timestamp};

verus! {

/// serde_json's document type, carried without being looked into.
#[verifier::external_type_specification]
#[verifier::external_body]
pub struct ExJsonValue(serde_json::Value);

/// One task of a workflow.
#[derive(Debug, Clone)]
pub struct TaskSpec {
    pub name: String,
    /// The command to run; empty for a gate, a trigger or a sensor.
    pub command: Vec<String>,
    pub depends_on: Vec<String>,
    pub input: Option<serde_json::Value>,
    /// The template the task calls; gone once the workflow is expanded.
    pub template: Option<String>,
    /// Arguments for the callee: a template, or a sub-workflow.
    pub arguments: TextMap<String>,
    pub with_items: Option<Vec<serde_json::Value>>,
    pub with_param: Option<String>,
    /// Fans out at run time over the task's output.
    pub with_output_of: Option<String>,
    /// Runs only where the condition holds.
    pub when: Option<String>,
    pub instance_key: Option<String>,
    /// When the task runs relative to its dependencies' outcomes.
    pub trigger_rule: Option<String>,
    /// `on_exit` or `on_failure`.
    pub hook: Option<String>,
    /// A failure of the task does not fail the run.
    pub allow_failure: bool,
    /// `task`, `approval`, `workflow` or `wait`.
    pub task_type: Option<String>,
    /// The registered workflow a `workflow` task triggers.
    pub workflow: Option<String>,
    pub wait: Option<WaitSpec>,
    pub approval_timeout_secs: Option<u64>,
    /// What an expired approval defaults to: `approve` or `reject`.
    pub approval_on_timeout: Option<String>,
    pub max_attempts: u32,
    pub retry_delay_secs: u64,
    pub retry_max_delay_secs: Option<u64>,
    pub retry_on_timeout: Option<bool>,
    /// Attempts per fault class.
    pub retry_budgets: TextMap<u32>,
    pub timeout_secs: Option<u64>,
    pub docker_image: Option<String>,
    pub env: Vec<EnvVar>,
    pub resources: Option<ResourceRequirements>,
    pub service_account: Option<String>,
    /// The pool of schedulers that may claim the task.
    pub runner_class: Option<String>,
    /// Among ready tasks, the higher is claimed first.
    pub priority: i64,
    /// The concurrency pool the task draws a slot from.
    pub pool: Option<String>,
    pub cache: Option<CacheSpec>,
    pub repeat: Option<RepeatSpec>,
    pub defer: Option<DeferSpec>,
    /// Datasets the task updates when it succeeds.
    pub produces: Vec<String>,
    pub gang: Option<GangSpec>,
    /// Set on the rows of a gang at run creation.
    pub gang_member: Option<GangMember>,
    /// The privileges the task runs under.
    pub isolation: Option<IsolationSpec>,
}

/// A task's trust envelope. Its fields belong to the executor that applies
/// them; validation needs only the executor's complaint about them, if any.
#[derive(Debug, Clone)]
pub struct IsolationSpec {
    pub complaint: Option<String>,
}

/// All-or-nothing co-scheduling: `size` rows of one task, claimed together.
#[derive(Debug, Clone)]
pub struct GangSpec {
    pub size: u32,
}

/// Which gang a row belongs to, and its rank.
#[derive(Debug, Clone)]
pub struct GangMember {
    pub id: String,
    pub rank: u32,
    pub size: u32,
}

/// Runs a task again until a condition on its own output holds.
#[derive(Debug, Clone)]
pub struct RepeatSpec {
    pub until: String,
    pub max_iterations: u32,
    pub delay_secs: u64,
}

/// What `repeat` decides after one successful iteration.
#[derive(Debug, Clone, PartialEq, Eq)]
pub enum RepeatDecision {
    /// The condition holds: the task succeeded.
    Done,
    /// Not yet, and iterations remain.
    Again { delay_secs: u64 },
    /// Give up; `reason` is what the task's output records.
    Fail { reason: String },
}

/// Hands the work to a system outside and parks the row while it runs there.
#[derive(Debug, Clone)]
pub struct DeferSpec {
    pub kind: String,
    pub poll_secs: u64,
    pub cost: Option<u64>,
    pub max_wait_secs: Option<u64>,
    pub http: Option<DeferHttpSpec>,
    pub connection: Option<String>,
}

/// Polls the remote job over HTTP.
#[derive(Debug, Clone)]
pub struct DeferHttpSpec {
    pub url: String,
    pub headers: Vec<EnvVar>,
    pub succeed_when: String,
    pub fail_when: Option<String>,
    pub error_from: Option<String>,
    pub cancel: Option<DeferHttpCancel>,
}

/// The request that stops the remote job.
#[derive(Debug, Clone)]
pub struct DeferHttpCancel {
    pub url: String,
    pub method: Option<String>,
    pub body: Option<String>,
}

/// A sensor: exactly one of its fields is set.
#[derive(Debug, Clone)]
pub struct WaitSpec {
    pub wait_for: Option<String>,
    pub until: Option<String>,
    pub url: Option<String>,
    pub dataset: Option<String>,
}

/// Reuses an earlier result under the same key.
#[derive(Debug, Clone)]
pub struct CacheSpec {
    pub key: String,
    pub max_age_secs: Option<u64>,
}

/// One environment variable: a value, or a reference to a secret.
#[derive(Debug, Clone)]
pub struct EnvVar {
    pub name: String,
    pub value: String,
    pub value_from: Option<SecretRef>,
}

#[derive(Debug, Clone)]
pub struct SecretRef {
    pub secret: String,
}

/// Requests and limits for the task's container, with GPU sugar.
#[derive(Debug, Clone)]
pub struct ResourceRequirements {
    pub requests: TextMap<String>,
    pub limits: TextMap<String>,
    pub gpu: Option<GpuRequest>,
}

#[derive(Debug, Clone)]
pub struct GpuRequest {
    pub count: u32,
    pub resource: Option<String>,
}

/// A soft deadline: a duration after the run's start.
#[derive(Debug, Clone)]
pub struct DeadlineSpec {
    pub within: String,
}

/// A reusable sub-graph.
#[derive(Debug, Clone)]
pub struct TemplateSpec {
    pub name: String,
    pub parameters: TextMap<String>,
    pub tasks: Vec<TaskSpec>,
}

/// The ceilings a run declares for itself.
#[derive(Debug, Clone, Copy, PartialEq, Eq)]
pub struct RunBudget {
    /// The most task rows the run may create.
    pub tasks: Option<u32>,
    /// The most declared cost of external work.
    pub external_cost: Option<u64>,
    pub external_cost_attribution: bool,
}

/// A workflow.
#[derive(Debug, Clone)]
pub struct DagSpec {
    pub name: String,
    pub parameters: TextMap<String>,
    pub templates: Vec<TemplateSpec>,
    pub tags: Vec<String>,
    pub run_timeout_secs: Option<u64>,
    /// The most runs of this workflow at once; 0 and `None` mean no limit.
    pub max_active_runs: Option<u32>,
    pub budget: Option<RunBudget>,
    pub deadline: Option<DeadlineSpec>,
    pub notify: Option<NotifySpec>,
    /// The task whose output becomes the run's result.
    pub result_from: Option<String>,
    pub runner_class: Option<String>,
    pub environment: Option<String>,
    pub task_defaults: Option<TaskDefaults>,
    /// Datasets whose updates trigger the workflow.
    pub on_datasets: Vec<String>,
    /// `any` or `all`.
    pub datasets_mode: Option<String>,
    pub tasks: Vec<TaskSpec>,
}

/// Values that apply to each task that does not set its own.
#[derive(Debug, Clone)]
pub struct TaskDefaults {
    pub max_attempts: Option<u32>,
    pub retry_delay_secs: Option<u64>,
    pub retry_max_delay_secs: Option<u64>,
    pub retry_on_timeout: Option<bool>,
    pub retry_budgets: TextMap<u32>,
    pub timeout_secs: Option<u64>,
    pub docker_image: Option<String>,
    pub runner_class: Option<String>,
    pub priority: Option<i64>,
    pub pool: Option<String>,
    pub env: Vec<EnvVar>,
}

/// Where to report a finished run.
#[derive(Debug, Clone)]
pub struct NotifySpec {
    pub git: Option<GitNotify>,
    pub webhook: Option<WebhookNotify>,
    pub slack: Option<SlackNotify>,
}

#[derive(Debug, Clone)]
pub struct WebhookNotify {
    pub url: String,
    pub on: Vec<String>,
}

#[derive(Debug, Clone)]
pub struct SlackNotify {
    pub webhook_url: String,
    pub on: Vec<String>,
}

#[derive(Debug, Clone)]
pub struct GitNotify {
    pub provider: String,
    pub repo: String,
    pub sha: String,
    pub context: Option<String>,
    pub target_url: Option<String>,
    pub description: Option<String>,
}

impl Default for ResourceRequirements {
    /// Nothing is asked for.
    fn default() -> (r: Self)
        ensures
            r.requests@ == Map::<Seq<char>, String>::empty(),
            r.limits@ == Map::<Seq<char>, String>::empty(),
            r.gpu is None,
    {
        ResourceRequirements { requests: TextMap::new(), limits: TextMap::new(), gpu: None }
    }
}

impl Default for RunBudget {
    /// No ceiling.
    fn default() -> (r: Self)
        ensures
            r.tasks is None,
            r.external_cost is None,
            !r.external_cost_attribution,
    {
        RunBudget { tasks: None, external_cost: None, external_cost_attribution: false }
    }
}

impl Default for TaskDefaults {
    /// No values of its own.
    fn default() -> (r: Self)
        ensures
            r.max_attempts is None,
            r.retry_delay_secs is None,
            r.retry_max_delay_secs is None,
            r.retry_on_timeout is None,
            r.retry_budgets@ == Map::<Seq<char>, u32>::empty(),
            r.timeout_secs is None,
            r.docker_image is None,
            r.runner_class is None,
            r.priority is None,
            r.pool is None,
            r.env@.len() == 0,
    {
        TaskDefaults {
            max_attempts: None,
            retry_delay_secs: None,
            retry_max_delay_secs: None,
            retry_on_timeout: None,
            retry_budgets: TextMap::new(),
            timeout_secs: None,
            docker_image: None,
            runner_class: None,
            priority: None,
            pool: None,
            env: Vec::new(),
        }
    }
}

/// The `{{ handle }}` placeholder a deferred task's URL may carry.
pub const HANDLE_PLACEHOLDER: &'static str = "{{ handle }}";

/// How much of a remote job's error text reaches the task's output.
pub const MAX_EXTERNAL_ERROR_BYTES: usize = 2048;

/// Seconds between polls of a remote job, unless the task says otherwise.
pub const DEFAULT_DEFER_POLL_SECS: u64 = 30;

/// What a submit prints in front of the remote handle.
pub const HANDLE_PREFIX: &'static str = "dagron::handle=";

/// The largest delay between iterations or polls: one year.
pub const MAX_REPEAT_DELAY_SECS: u64 = 31_536_000;

/// The accelerator key that `gpu` stands for by default.
pub const DEFAULT_GPU_RESOURCE: &'static str = "nvidia.com/gpu";

/// The runner class of a task where neither it nor its workflow names one.
pub const DEFAULT_RUNNER_CLASS: &'static str = "default";

/// Attempts of a task that does not say.
pub fn default_max_attempts() -> (n: u32)
    ensures
        n == 1,
{
    1
}

/// Poll interval of a deferred task that does not say.
pub fn default_defer_poll_secs() -> (n: u64)
    ensures
        n == DEFAULT_DEFER_POLL_SECS,
{
    DEFAULT_DEFER_POLL_SECS
}

/// Whether a flag has its default value, so that it need not be written out.
pub fn is_false(b: &bool) -> (r: bool)
    ensures
        r == !*b,
{
    !*b
}

/// `opt` holds exactly `text`.
pub open spec fn says(opt: Option<String>, text: Seq<char>) -> bool {
    opt is Some && opt->0@ == text
}

impl TaskSpec {
    pub open spec fn approval(self) -> bool {
        says(self.task_type, "approval"@)
    }

    pub open spec fn triggers_workflow(self) -> bool {
        says(self.task_type, "workflow"@)
    }

    pub open spec fn waits(self) -> bool {
        says(self.task_type, "wait"@)
    }

    /// The rows the task becomes: one, or one per gang member.
    pub open spec fn rows(self) -> nat {
        match self.gang {
            Some(g) => g.size as nat,
            None => 1,
        }
    }

    /// Whether this is a human approval gate.
    pub fn is_approval(&self) -> (r: bool)
        ensures
            r == self.approval(),
    {
        holds(&self.task_type, "approval")
    }

    /// Whether this triggers a sub-workflow.
    pub fn is_workflow(&self) -> (r: bool)
        ensures
            r == self.triggers_workflow(),
    {
        holds(&self.task_type, "workflow")
    }

    /// Whether this is a wait sensor.
    pub fn is_wait(&self) -> (r: bool)
        ensures
            r == self.waits(),
    {
        holds(&self.task_type, "wait")
    }

    /// The number of rows the task becomes.
    pub fn row_count(&self) -> (n: u32)
        ensures
            n == self.rows(),
    {
        match &self.gang {
            Some(g) => g.size,
            None => 1,
        }
    }
}

/// The bindings `until` sees: the trimmed output and the iteration's number.
pub open spec fn repeat_bindings(output: Seq<char>, iteration: int) -> Map<Seq<char>, Seq<char>> {
    map!["output"@ => trimmed(output), "attempt"@ => signed_decimal(iteration)]
}

/// A decision by its meaning.
pub enum RepeatOutcome {
    Done,
    Again { delay_secs: u64 },
    Fail { reason: Seq<char> },
}

impl View for RepeatDecision {
    type V = RepeatOutcome;

    open spec fn view(&self) -> RepeatOutcome {
        match self {
            RepeatDecision::Done => RepeatOutcome::Done,
            RepeatDecision::Again { delay_secs } => RepeatOutcome::Again { delay_secs: *delay_secs },
            RepeatDecision::Fail { reason } => RepeatOutcome::Fail { reason: reason@ },
        }
    }
}

impl RepeatSpec {
    /// What follows from the value of the condition: `value` is `None` where it
    /// could not be evaluated, with `complaint` saying why.
    pub open spec fn outcome(
        self,
        value: Option<bool>,
        complaint: Seq<char>,
        output: Seq<char>,
        iteration: int,
    ) -> RepeatOutcome {
        match value {
            Some(true) => RepeatOutcome::Done,
            Some(false) => if iteration < self.max_iterations {
                RepeatOutcome::Again { delay_secs: self.delay_secs }
            } else {
                RepeatOutcome::Fail {
                    reason: "repeat.until '"@ + self.until@ + "' not satisfied after "@
                        + signed_decimal(iteration) + " iterations; last output:\n"@
                        + output,
                }
            },
            None => RepeatOutcome::Fail {
                reason: "repeat.until '"@ + self.until@ + "' failed to evaluate: "@ + complaint,
            },
        }
    }

    /// What follows from the value of the condition.
    pub fn decide_on(&self, value: &Result<bool, String>, output: &str, iteration: i64) -> (r:
        RepeatDecision)
        ensures
            r@ == match value {
                Ok(b) => self.outcome(Some(*b), Seq::empty(), output@, iteration as int),
                Err(e) => self.outcome(None, e@, output@, iteration as int),
            },
    {
        match value {
            Ok(true) => RepeatDecision::Done,
            Ok(false) => {
                if iteration < self.max_iterations as i64 {
                    RepeatDecision::Again { delay_secs: self.delay_secs }
                } else {
                    let mut reason: String = "repeat.until '".to_owned();
                    reason.append(self.until.as_str());
                    reason.append("' not satisfied after ");
                    reason.append(i64_text(iteration).as_str());
                    reason.append(" iterations; last output:\n");
                    reason.append(output);
                    RepeatDecision::Fail { reason }
                }
            },
            Err(e) => {
                let mut reason: String = "repeat.until '".to_owned();
                reason.append(self.until.as_str());
                reason.append("' failed to evaluate: ");
                reason.append(e.as_str());
                RepeatDecision::Fail { reason }
            },
        }
    }

    /// Decides what happens after the iteration numbered `iteration` (from 1)
    /// produced `output`.
    pub fn decide(&self, output: &str, iteration: i64) -> (r: RepeatDecision)
        ensures
            r@ == ({
                let cond = substituted(self.until@, repeat_bindings(output@, iteration as int));
                self.outcome(condition(cond), condition_error(cond), output@, iteration as int)
            }),
    {
        let mut ctx: TextMap<String> = TextMap::new();
        ctx.insert("output".to_owned(), trim(output).to_owned());
        ctx.insert("attempt".to_owned(), i64_text(iteration));
        proof {
            reveal_strlit("output");
            reveal_strlit("attempt");
            assert("output"@.len() != "attempt"@.len());
        }
        assert(text_values(ctx@) =~= repeat_bindings(output@, iteration as int));
        let cond: String = substitute(self.until.as_str(), &ctx);
        let value: Result<bool, String> = eval_when(cond.as_str());
        self.decide_on(&value, output, iteration)
    }
}

impl DeferHttpCancel {
    /// The verb to send: `DELETE` unless the task names one.
    pub open spec fn verb(self) -> Seq<char> {
        match self.method {
            Some(m) => trimmed(m@).map_values(|c: char| upper_char(c)),
            None => "DELETE"@,
        }
    }

    /// The verb to send, upper-cased.
    pub fn method(&self) -> (r: String)
        ensures
            r@ == self.verb(),
    {
        match &self.method {
            Some(m) => ascii_upper(trim(m.as_str())),
            None => "DELETE".to_owned(),
        }
    }
}

/// The verbs a cancel request may use.
pub open spec fn cancel_verb(s: Seq<char>) -> bool {
    s == "DELETE"@ || s == "POST"@ || s == "PUT"@ || s == "PATCH"@
}

/// Whether a cancel request may use this verb.
pub fn is_cancel_verb(s: &str) -> (r: bool)
    ensures
        r == cancel_verb(s@),
{
    same(s, "DELETE") || same(s, "POST") || same(s, "PUT") || same(s, "PATCH")
}

/// What the last line that starts with the handle prefix says after it.
pub open spec fn last_handle(lines: Seq<Seq<char>>) -> Option<Seq<char>>
    decreases lines.len(),
{
    if lines.len() == 0 {
        None
    } else {
        let line = trimmed(lines.last());
        if HANDLE_PREFIX@.is_prefix_of(line) {
            Some(trimmed(line.skip(HANDLE_PREFIX@.len() as int)))
        } else {
            last_handle(lines.drop_last())
        }
    }
}

/// The remote handle a submit's output declares: that of its last handle line,
/// unless it is empty.
pub open spec fn declared_handle(output: Seq<char>) -> Option<Seq<char>> {
    match last_handle(split_on(output, "\n"@)) {
        Some(h) => if h.len() > 0 { Some(h) } else { None },
        None => None,
    }
}

/// The remote handle a deferred submit declared, if it declared one.
pub fn parse_handle(output: &str) -> (r: Option<String>)
    ensures
        match r {
            Some(h) => declared_handle(output@) == Some(h@),
            None => declared_handle(output@) is None,
        },
{
    proof {
        reveal_strlit("\n");
    }
    let lines: Vec<String> = split(output, "\n");
    let mut i: usize = lines.len();
    let ghost all = split_on(output@, "\n"@);
    assert(all.take(all.len() as int) =~= all);
    while i > 0
        invariant
            i <= lines@.len(),
            texts(lines@) == all,
            all == split_on(output@, "\n"@),
            last_handle(all) == last_handle(all.take(i as int)),
        decreases i,
    {
        assert(all.take(i as int).last() == lines@[i - 1]@);
        assert(all.take(i as int).drop_last() =~= all.take(i - 1));
        match strip_prefix(trim(lines[i - 1].as_str()), HANDLE_PREFIX) {
            Some(rest) => {
                let h: &str = trim(rest);
                return if h.is_empty() {
                    None
                } else {
                    Some(h.to_owned())
                };
            },
            None => {},
        }
        i -= 1;
    }
    None
}

impl ResourceRequirements {
    /// The key that the GPU sugar sets.
    pub open spec fn gpu_key(gpu: GpuRequest) -> Seq<char> {
        match gpu.resource {
            Some(r) => r@,
            None => DEFAULT_GPU_RESOURCE@,
        }
    }

    /// The limits with the GPU sugar folded in.
    pub open spec fn limits_with_gpu(self) -> Map<Seq<char>, Seq<char>> {
        let limits = text_values(self.limits@);
        match self.gpu {
            Some(gpu) => if limits.contains_key(Self::gpu_key(gpu)) {
                limits
            } else {
                limits.insert(Self::gpu_key(gpu), decimal(gpu.count as nat))
            },
            None => limits,
        }
    }

    /// The limits with the GPU sugar folded in; an explicit entry for the same
    /// key wins.
    pub fn effective_limits(&self) -> (r: TextMap<String>)
        ensures
            text_values(r@) == self.limits_with_gpu(),
    {
        let mut limits: TextMap<String> = self.limits.duplicate();
        match &self.gpu {
            Some(gpu) => {
                let key: &str = match &gpu.resource {
                    Some(r) => r.as_str(),
                    None => DEFAULT_GPU_RESOURCE,
                };
                if !limits.contains_key(key) {
                    limits.insert(key.to_owned(), u64_text(gpu.count as u64));
                }
            },
            None => {},
        }
        assert(text_values(limits@) =~= self.limits_with_gpu());
        limits
    }
}

// ── Retries and subscriptions ────────────────────────────────────────────────

/// A delay within what a workflow may ask for.
pub open spec fn capped_delay(delay_secs: u64) -> int {
    if delay_secs > MAX_REPEAT_DELAY_SECS { MAX_REPEAT_DELAY_SECS as int } else { delay_secs as int }
}

/// The text of the instant a delay after `now`; of `now` itself where the
/// calendar does not hold that instant.
pub open spec fn retry_text(now: Timestamp, delay_secs: u64) -> Seq<char> {
    match shifted(now, capped_delay(delay_secs)) {
        Some(at) => rfc3339_text(at.0, at.1),
        None => rfc3339_text(now.secs as int, now.nanos as int),
    }
}

/// The instant `delay_secs` after `now`, for whatever delay.
pub fn retry_at(now: Timestamp, delay_secs: u64) -> (s: String)
    requires
        now.valid(),
    ensures
        s@ == retry_text(now, delay_secs),
{
    let secs: i64 = if delay_secs > MAX_REPEAT_DELAY_SECS {
        MAX_REPEAT_DELAY_SECS as i64
    } else {
        delay_secs as i64
    };
    match add_seconds(now, secs) {
        Some(at) => to_rfc3339(at),
        None => to_rfc3339(now),
    }
}

/// The instant `delay_secs` from now, for whatever delay.
pub fn delayed_retry_at(delay_secs: u64) -> (s: String)
    ensures
        exists|now: Timestamp| #[trigger] now.valid() && s@ == retry_text(now, delay_secs),
{
    let now: Timestamp = utc_now();
    retry_at(now, delay_secs)
}

/// The datasets that a workflow subscribes to, and whether any or all of them
/// must be fresh; `None` where it subscribes to none.
pub fn dataset_subscriptions(spec: &DagSpec) -> (r: Option<(Vec<String>, String)>)
    ensures
        match r {
            Some(s) => spec.on_datasets@.len() > 0 && texts(s.0@) == texts(spec.on_datasets@) && s.1@
                == (match spec.datasets_mode {
                Some(m) => m@,
                None => "any"@,
            }),
            None => spec.on_datasets@.len() == 0,
        },
{
    if spec.on_datasets.len() == 0 {
        return None;
    }
    let mode: String = match &spec.datasets_mode {
        Some(m) => m.clone(),
        None => "any".to_owned(),
    };
    let mut uris: Vec<String> = Vec::new();
    let mut i: usize = 0;
    while i < spec.on_datasets.len()
        invariant
            i <= spec.on_datasets@.len(),
            uris@.len() == i,
            forall|k: int| 0 <= k < i ==> (#[trigger] uris@[k])@ == spec.on_datasets@[k]@,
        decreases spec.on_datasets@.len() - i,
    {
        uris.push(spec.on_datasets[i].clone());
        i += 1;
    }
    assert(texts(uris@) =~= texts(spec.on_datasets@));
    Some((uris, mode))
}

/// The workflow with parameters in place of the declared ones: a parameter that
/// is overridden has its new value, every other one keeps its own.
pub fn with_overrides(spec: DagSpec, overrides: &TextMap<String>) -> (r: DagSpec)
    ensures
        r.parameters@ == spec.parameters@.union_prefer_right(overrides@),
        r == (DagSpec { parameters: r.parameters, ..spec }),
        in_key_order(spec.parameters.entries@) ==> in_key_order(r.parameters.entries@),
{
    let ghost entries = overrides.entries@;
    let mut r: DagSpec = spec;
    let mut i: usize = overrides.entries.len();
    assert(entries.skip(i as int) =~= Seq::<(String, String)>::empty());
    assert(r.parameters@ =~= spec.parameters@.union_prefer_right(entries_map(entries.skip(i as int))));
    while i > 0
        invariant
            i <= entries.len(),
            entries == overrides.entries@,
            r.parameters@ == spec.parameters@.union_prefer_right(entries_map(entries.skip(i as int))),
            r == (DagSpec { parameters: r.parameters, ..spec }),
            in_key_order(spec.parameters.entries@) ==> in_key_order(r.parameters.entries@),
        decreases i,
    {
        i -= 1;
        let ghost was = r.parameters@;
        let ghost rest = entries.skip(i as int + 1);
        assert(entries.skip(i as int).drop_first() =~= rest);
        r.parameters.insert(overrides.entries[i].0.clone(), overrides.entries[i].1.clone());
        assert(r.parameters@ =~= spec.parameters@.union_prefer_right(
            entries_map(entries.skip(i as int)),
        ));
    }
    assert(entries.skip(0) =~= entries);
    r
}

} // verus!
