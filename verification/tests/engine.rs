use dagron_core::advance::advance_ready_tasks;
use dagron_core::claims::{claim_ready, claim_ready_classes, claim_ready_classes_nongang};
use dagron_core::clock::ClockStatus;
use dagron_core::dag::{DagError, DagGraph};
use dagron_core::datasets::{
    list_dataset_events, list_datasets, park_wait_dataset, reconcile_dataset_waits, record_dataset_updates,
    record_external_dataset_event,
};
use dagron_core::expand::substitute;
use dagron_core::gangs::{cancel_gang_siblings, claim_ready_gang, oversized_ready_gangs};
use dagron_core::labels::{validate_runner_class, validate_tag};
use dagron_core::leadership::try_acquire_leadership;
use dagron_core::leases::{
    claim_outbox_batch_for, claim_ready_classes_for, claim_ready_classes_nongang_for, claim_ready_for,
    claim_ready_gang_for, claim_source_partitions_for, reclass_ready_tasks_for,
    reclass_ready_tasks_near_deadline_for, renew_source_partitions_for, renew_task_lease_for,
    try_acquire_leadership_for,
};
use dagron_core::models::{OutboxStatus, RunStatus, TaskStatus};
use dagron_core::outbox::{
    claim_outbox_batch, enqueue_outbox_event, mark_outbox_dead, mark_outbox_delivered, mark_outbox_failed,
};
use dagron_core::parks::{
    due_url_waits, park_subworkflow, park_wait, park_wait_url, reconcile_subworkflows, reconcile_waits,
    release_subworkflow_task, repark_url_wait, resolve_approval, resolve_expired_approvals,
    resolve_url_wait, sub_workflow_depth,
};
use dagron_core::queries::{
    get_run, list_runs, list_tasks, ready_backlog_by_class, run_environment, spec_for_run, status_counts,
    task_input_json, workflow_name_for_run, workflow_name_for_task,
};
use dagron_core::reap::{
    cancel_overdue_runs, cancel_run, fire_deadline_alerts, is_run_complete, reap_completed_runs,
};
use dagron_core::records::{
    delete_dead_letter, environment_secret, environment_vars, get_dead_letter, list_dead_letters, memo_lookup,
    memo_store, record_dead_letter, record_dead_letter_with_offset, ui_setting,
};
use dagron_core::reruns::{
    clear_task_with_downstream, reclass_ready_tasks, reclass_ready_tasks_near_deadline, rerun_from_failed,
    retry_task_from_ui, task_checkpoint, task_exists,
};
use dagron_core::retention::{
    archivable_runs, gc_old_runs, index_archived_run, mark_runs_compacted, purge_runs_by_id,
};
use dagron_core::rows::{
    BackfillJob, Environment, EnvironmentSecret, RegisteredWorkflow, Schedule, Setting, TaskRun,
};
use dagron_core::rules::{Edition, Fault};
use dagron_core::runs::{checked_run_stamp, create_run, create_run_with_offset, CreateRunError, RunSeed};
use dagron_core::schedules::{
    advance_backfill, advance_schedule, advance_schedule_gated, bump_rerun_attempt, cancel_backfill,
    claim_backfill_slot, claim_due_schedules, complete_backfill, count_active_runs, count_incomplete_runs,
    create_backfill, get_backfill, list_active_backfills, list_backfills, list_catchup_schedules,
    list_failed_runs_for_rerun, record_backfill_run, release_backfill_slot, schedule_run_counts,
    stamp_run_schedule, stop_schedule,
};
use dagron_core::sources::{
    claim_source_partitions, held_source_partitions, register_source_partitions, release_source_partitions,
    renew_source_partitions, source_offset,
};
use dagron_core::store::Store;
use dagron_core::tasks::{
    append_task_output, mark_task_failed, mark_task_succeeded, mark_task_succeeded_cached,
    record_task_checkpoint, recover_expired_leases, renew_task_lease, retry_task,
};
use dagron_core::text_map::TextMap;
use dagron_core::time::{now, stamp, stamp_in, Timestamp};
use dagron_core::triggers::{
    claim_due_dataset_triggers, list_registered_workflows, prune_dataset_triggers,
    stamp_dataset_trigger_fired, sync_dataset_triggers, unclaim_dataset_trigger, workflow_spec_by_name,
};
use dagron_core::workflow::{
    dataset_subscriptions, default_defer_poll_secs, default_max_attempts, with_overrides, CacheSpec, DagSpec, DeadlineSpec,
    DeferHttpCancel, DeferHttpSpec, DeferSpec, EnvVar, GangSpec, GitNotify, GpuRequest, NotifySpec,
    RepeatSpec, ResourceRequirements, RunBudget, SecretRef, TaskDefaults, TaskSpec, WaitSpec,
    DEFAULT_DEFER_POLL_SECS, HANDLE_PLACEHOLDER,
};
use serde_yaml::Value;

// ── Workflows from YAML ──────────────────────────────────────────────────────

fn text(v: &Value) -> String {
    match v {
        Value::String(s) => s.clone(),
        Value::Number(n) => n.to_string(),
        Value::Bool(b) => b.to_string(),
        other => panic!("not a text: {other:?}"),
    }
}

fn opt_text(v: &Value, key: &str) -> Option<String> {
    v.get(key).map(text)
}

fn opt_u64(v: &Value, key: &str) -> Option<u64> {
    v.get(key).map(|n| n.as_u64().unwrap())
}

fn opt_u32(v: &Value, key: &str) -> Option<u32> {
    opt_u64(v, key).map(|n| u32::try_from(n).unwrap())
}

fn flag(v: &Value, key: &str) -> bool {
    v.get(key).is_some_and(|b| b.as_bool().unwrap())
}

fn items<'a>(v: &'a Value, key: &str) -> &'a [Value] {
    match v.get(key) {
        Some(list) => list.as_sequence().unwrap(),
        None => &[],
    }
}

fn list_of(v: &Value, key: &str) -> Vec<String> {
    items(v, key).iter().map(text).collect()
}

fn map_of(v: &Value, key: &str) -> TextMap<String> {
    let mut map = TextMap::new();
    if let Some(m) = v.get(key) {
        for (k, value) in m.as_mapping().unwrap() {
            map.insert(text(k), text(value));
        }
    }
    map
}

fn counts_of(v: &Value, key: &str) -> TextMap<u32> {
    let mut map = TextMap::new();
    if let Some(m) = v.get(key) {
        for (k, value) in m.as_mapping().unwrap() {
            map.insert(text(k), u32::try_from(value.as_u64().unwrap()).unwrap());
        }
    }
    map
}

fn env_of(v: &Value, key: &str) -> Vec<EnvVar> {
    items(v, key)
        .iter()
        .map(|e| EnvVar {
            name: text(&e["name"]),
            value: opt_text(e, "value").unwrap_or_default(),
            value_from: e.get("value_from").map(|s| SecretRef { secret: text(&s["secret"]) }),
        })
        .collect()
}

fn defer_of(v: &Value) -> DeferSpec {
    DeferSpec {
        kind: text(&v["kind"]),
        poll_secs: opt_u64(v, "poll_secs").unwrap_or_else(default_defer_poll_secs),
        cost: opt_u64(v, "cost"),
        max_wait_secs: opt_u64(v, "max_wait_secs"),
        http: v.get("http").map(|h| DeferHttpSpec {
            url: text(&h["url"]),
            headers: env_of(h, "headers"),
            succeed_when: text(&h["succeed_when"]),
            fail_when: opt_text(h, "fail_when"),
            error_from: opt_text(h, "error_from"),
            cancel: h.get("cancel").map(|c| DeferHttpCancel {
                url: text(&c["url"]),
                method: opt_text(c, "method"),
                body: opt_text(c, "body"),
            }),
        }),
        connection: opt_text(v, "connection"),
    }
}

fn task_of(v: &Value) -> TaskSpec {
    TaskSpec {
        name: text(&v["name"]),
        command: list_of(v, "command"),
        depends_on: list_of(v, "depends_on"),
        input: v.get("input").map(|i| serde_json::to_value(i).unwrap()),
        template: opt_text(v, "template"),
        arguments: map_of(v, "arguments"),
        with_items: None,
        with_param: opt_text(v, "with_param"),
        with_output_of: opt_text(v, "with_output_of"),
        when: opt_text(v, "when"),
        instance_key: opt_text(v, "instance_key"),
        trigger_rule: opt_text(v, "trigger_rule"),
        hook: opt_text(v, "hook"),
        allow_failure: flag(v, "allow_failure"),
        task_type: opt_text(v, "type"),
        workflow: opt_text(v, "workflow"),
        wait: v.get("wait").map(|w| WaitSpec {
            wait_for: opt_text(w, "for"),
            until: opt_text(w, "until"),
            url: opt_text(w, "url"),
            dataset: opt_text(w, "dataset"),
        }),
        approval_timeout_secs: opt_u64(v, "approval_timeout_secs"),
        approval_on_timeout: opt_text(v, "approval_on_timeout"),
        max_attempts: opt_u32(v, "max_attempts").unwrap_or_else(default_max_attempts),
        retry_delay_secs: opt_u64(v, "retry_delay_secs").unwrap_or(0),
        retry_max_delay_secs: opt_u64(v, "retry_max_delay_secs"),
        retry_on_timeout: v.get("retry_on_timeout").map(|b| b.as_bool().unwrap()),
        retry_budgets: counts_of(v, "retry_budgets"),
        timeout_secs: opt_u64(v, "timeout_secs"),
        docker_image: opt_text(v, "docker_image"),
        env: env_of(v, "env"),
        resources: v.get("resources").map(|r| ResourceRequirements {
            requests: map_of(r, "requests"),
            limits: map_of(r, "limits"),
            gpu: r.get("gpu").map(|g| GpuRequest {
                count: opt_u32(g, "count").unwrap(),
                resource: opt_text(g, "resource"),
            }),
        }),
        service_account: opt_text(v, "service_account"),
        runner_class: opt_text(v, "runner_class"),
        priority: v.get("priority").map_or(0, |n| n.as_i64().unwrap()),
        pool: opt_text(v, "pool"),
        cache: v.get("cache").map(|c| CacheSpec {
            key: text(&c["key"]),
            max_age_secs: opt_u64(c, "max_age_secs"),
        }),
        repeat: v.get("repeat").map(|r| RepeatSpec {
            until: text(&r["until"]),
            max_iterations: opt_u32(r, "max_iterations").unwrap(),
            delay_secs: opt_u64(r, "delay_secs").unwrap_or(0),
        }),
        defer: v.get("defer").map(defer_of),
        produces: list_of(v, "produces"),
        gang: v.get("gang").map(|g| GangSpec { size: opt_u32(g, "size").unwrap() }),
        gang_member: None,
        isolation: None,
    }
}

fn spec_of(yaml: &str) -> DagSpec {
    let v: Value = serde_yaml::from_str(yaml).unwrap();
    DagSpec {
        name: text(&v["name"]),
        parameters: map_of(&v, "parameters"),
        templates: Vec::new(),
        tags: list_of(&v, "tags"),
        run_timeout_secs: opt_u64(&v, "run_timeout_secs"),
        max_active_runs: opt_u32(&v, "max_active_runs"),
        budget: v.get("budget").map(|b| RunBudget {
            tasks: opt_u32(b, "tasks"),
            external_cost: opt_u64(b, "external_cost"),
            external_cost_attribution: flag(b, "external_cost_attribution"),
        }),
        deadline: v.get("deadline").map(|d| DeadlineSpec { within: text(&d["in"]) }),
        notify: v.get("notify").map(|n| NotifySpec {
            git: n.get("git").map(|g| GitNotify {
                provider: text(&g["provider"]),
                repo: text(&g["repo"]),
                sha: text(&g["sha"]),
                context: opt_text(g, "context"),
                target_url: opt_text(g, "target_url"),
                description: opt_text(g, "description"),
            }),
            webhook: None,
            slack: None,
        }),
        result_from: opt_text(&v, "result_from"),
        runner_class: opt_text(&v, "runner_class"),
        environment: opt_text(&v, "environment"),
        task_defaults: None,
        on_datasets: list_of(&v, "on_datasets"),
        datasets_mode: opt_text(&v, "datasets_mode"),
        tasks: items(&v, "tasks").iter().map(task_of).collect(),
    }
}

fn load(yaml: &str) -> Result<DagGraph, DagError> {
    DagGraph::from_spec(spec_of(yaml))
}

fn graph(yaml: &str) -> DagGraph {
    match load(yaml) {
        Ok(g) => g,
        Err(e) => panic!("refused: {}", e.message),
    }
}

/// The message with which the workflow is refused.
fn refusal(yaml: &str) -> String {
    match load(yaml) {
        Ok(_) => panic!("must be refused: {yaml}"),
        Err(e) => e.message,
    }
}

fn fault(yaml: &str) -> Fault {
    match load(yaml) {
        Ok(_) => panic!("must be refused: {yaml}"),
        Err(e) => e.fault,
    }
}

// ── Validation ───────────────────────────────────────────────────────────────

#[test]
fn runner_class_validation_rules() {
    // `resources.gpu` folds into the effective limits; explicit keys win.
    let gpu_yaml = r#"
name: gpu_sugar
tasks:
  - name: train
    command: ["python", "train.py"]
    resources: { gpu: { count: 2 } }
  - name: mig
    command: ["python", "infer.py"]
    resources:
      limits: { "nvidia.com/mig-1g.5gb": "4" }
      gpu: { count: 1, resource: "nvidia.com/mig-1g.5gb" }
"#;
    let g = graph(gpu_yaml);
    let train = g.task_spec("train").unwrap().resources.as_ref().unwrap();
    assert_eq!(train.effective_limits().get("nvidia.com/gpu"), Some(&"2".to_string()));
    let mig = g.task_spec("mig").unwrap().resources.as_ref().unwrap();
    assert_eq!(
        mig.effective_limits().get("nvidia.com/mig-1g.5gb"),
        Some(&"4".to_string()),
        "an explicit limits entry outranks the sugar"
    );
    assert!(
        load("name: g0\ntasks:\n  - name: t\n    command: [\"true\"]\n    resources: { gpu: { count: 0 } }\n").is_err(),
        "gpu.count=0 is rejected"
    );

    // `gang:`: size >= 2, leaf single-attempt tasks only.
    assert!(load("name: g\ntasks:\n  - name: t\n    command: [\"true\"]\n    gang: { size: 4 }\n").is_ok());
    for bad in [
        "name: g\ntasks:\n  - name: t\n    command: [\"true\"]\n    gang: { size: 1 }\n",
        "name: g\ntasks:\n  - name: t\n    command: [\"true\"]\n    gang: { size: 2 }\n    max_attempts: 3\n",
        "name: g\ntasks:\n  - name: t\n    command: [\"true\"]\n    gang: { size: 2 }\n    repeat: { until: \"{{ output }} == done\", max_iterations: 3 }\n",
        "name: g\nresult_from: t\ntasks:\n  - name: t\n    command: [\"true\"]\n    gang: { size: 2 }\n",
    ] {
        assert!(load(bad).is_err(), "must reject: {bad}");
    }

    assert!(validate_runner_class("etl").is_ok());
    assert!(validate_runner_class("ml_training-2").is_ok());
    assert!(validate_runner_class("").is_err());
    assert!(validate_runner_class(&"x".repeat(65)).is_err());
    assert!(validate_runner_class("ETL").is_err());
    assert!(validate_runner_class("a,b").is_err());
    assert!(validate_runner_class("other").is_err(), "'other' is reserved");
    let err = refusal("name: w\nrunner_class: other\ntasks:\n  - { name: a, command: [\"true\"] }\n");
    assert!(err.contains("reserved"), "spec-level 'other' rejected: {err}");
}

#[test]
fn workflow_tags_parse_and_validate() {
    let dag = graph("name: w\ntags: [etl, prod, team.data]\ntasks:\n  - { name: a, command: [\"true\"] }\n");
    assert_eq!(dag.spec.tags, vec!["etl", "prod", "team.data"]);

    // A comma would break the filter contract.
    assert!(validate_tag("etl").is_ok());
    assert!(validate_tag("team.data-1").is_ok());
    assert!(validate_tag("").is_err());
    assert!(validate_tag(&"x".repeat(65)).is_err());
    assert!(validate_tag("a b").is_err());
    assert!(validate_tag("a,b").is_err());

    let err = refusal("name: w\ntags: [\"bad tag\"]\ntasks:\n  - { name: a, command: [\"true\"] }\n");
    assert!(err.contains("tag"), "invalid tag rejected: {err}");
}

#[test]
fn subworkflow_trigger_validation() {
    let dag = graph("name: p\ntasks:\n  - { name: t, type: workflow, workflow: child }\n");
    let t = dag.spec.tasks.iter().find(|t| t.name == "t").unwrap();
    assert!(t.is_workflow());
    assert_eq!(t.workflow.as_deref(), Some("child"));

    let err = refusal("name: p\ntasks:\n  - { name: t, type: workflow }\n");
    assert!(err.contains("workflow"), "target required: {err}");

    let err = refusal("name: p\ntasks:\n  - { name: t, command: [\"true\"], workflow: child }\n");
    assert!(err.contains("workflow"), "misplaced workflow field: {err}");

    let err = refusal("name: p\ntasks:\n  - { name: t, type: workflow, workflow: c, command: [\"true\"] }\n");
    assert!(err.contains("command"), "trigger command rejected: {err}");
}

#[test]
fn wait_sensor_validation() {
    let dag = graph("name: p\ntasks:\n  - { name: w, type: wait, wait: { for: 30s } }\n");
    assert!(dag.spec.tasks[0].is_wait());
    graph("name: p\ntasks:\n  - { name: w, type: wait, wait: { until: \"2030-01-01T00:00:00Z\" } }\n");

    // Neither, both, or no block at all.
    assert!(load("name: p\ntasks:\n  - { name: w, type: wait, wait: {} }\n").is_err());
    assert!(load(
        "name: p\ntasks:\n  - { name: w, type: wait, wait: { for: 1s, until: \"2030-01-01T00:00:00Z\" } }\n"
    )
    .is_err());
    assert!(load("name: p\ntasks:\n  - { name: w, type: wait }\n").is_err());

    let dag =
        graph("name: p\ntasks:\n  - { name: w, type: wait, wait: { url: \"https://example.com/ready\" } }\n");
    assert_eq!(dag.spec.tasks[0].wait.as_ref().unwrap().url.as_deref(), Some("https://example.com/ready"));

    let err = refusal("name: p\ntasks:\n  - { name: w, type: wait, wait: { url: \"ftp://example.com\" } }\n");
    assert!(err.contains("http"), "url scheme rejected: {err}");

    // `url` together with `for` is more than one.
    assert!(load("name: p\ntasks:\n  - { name: w, type: wait, wait: { url: \"https://x/y\", for: 1s } }\n")
        .is_err());

    // `wait:` on another kind, and a sensor with a command.
    assert!(load("name: p\ntasks:\n  - { name: w, command: [\"true\"], wait: { for: 1s } }\n").is_err());
    assert!(load("name: p\ntasks:\n  - { name: w, type: wait, wait: { for: 1s }, command: [\"true\"] }\n")
        .is_err());
}

/// `produces:` on tasks, the `wait.dataset` sensor, and `on_datasets:` triggers.
#[test]
fn dataset_spec_validation() {
    let dag =
        graph("name: p\ntasks:\n  - { name: t, command: [\"true\"], produces: [\"s3://lake/orders\"] }\n");
    assert_eq!(dag.spec.tasks[0].produces, vec!["s3://lake/orders"]);

    // Invalid URIs and duplicates.
    assert!(load("name: p\ntasks:\n  - { name: t, command: [\"true\"], produces: [\"has space\"] }\n").is_err());
    assert!(
        load("name: p\ntasks:\n  - { name: t, command: [\"true\"], produces: [\"a://b\", \"a://b\"] }\n").is_err()
    );

    // A sensor's success bypasses the worker, so it cannot produce.
    assert!(
        load("name: p\ntasks:\n  - { name: w, type: wait, wait: { for: 1s }, produces: [\"a://b\"] }\n").is_err()
    );

    let dag =
        graph("name: p\ntasks:\n  - { name: w, type: wait, wait: { dataset: \"s3://lake/orders\" } }\n");
    assert_eq!(dag.spec.tasks[0].wait.as_ref().unwrap().dataset.as_deref(), Some("s3://lake/orders"));
    assert!(
        load("name: p\ntasks:\n  - { name: w, type: wait, wait: { dataset: \"a://b\", for: 1s } }\n").is_err()
    );

    let dag = graph(
        "name: p\non_datasets: [\"s3://lake/orders\"]\ntasks:\n  - { name: t, command: [\"true\"] }\n",
    );
    assert_eq!(dag.spec.on_datasets, vec!["s3://lake/orders"]);

    assert!(load("name: p\non_datasets: [\"a://b\", \"a://b\"]\ntasks:\n  - { name: t, command: [\"true\"] }\n")
        .is_err());
    assert!(load(
        "name: p\non_datasets: [\"a://b\"]\ndatasets_mode: sometimes\ntasks:\n  - { name: t, command: [\"true\"] }\n"
    )
    .is_err());
    // A mode without subscriptions is meaningless.
    assert!(load("name: p\ndatasets_mode: any\ntasks:\n  - { name: t, command: [\"true\"] }\n").is_err());

    // Several datasets, all or any of them, are open to every edition.
    let multi = "name: p\non_datasets: [\"a://b\", \"a://c\"]\ndatasets_mode: all\ntasks:\n  - { name: t, command: [\"true\"] }\n";
    let dag = graph(multi);
    assert_eq!(dag.spec.on_datasets.len(), 2);
    assert_eq!(dag.spec.datasets_mode.as_deref(), Some("all"));
    let any = "name: p\non_datasets: [\"a://b\", \"a://c\"]\ntasks:\n  - { name: t, command: [\"true\"] }\n";
    assert!(load(any).is_ok(), "multi-dataset any-of is open");
}

#[test]
fn dataset_subscriptions_extraction() {
    assert_eq!(
        dataset_subscriptions(&spec_of("name: p\non_datasets: [\"a://b\"]\ntasks: []\n")),
        Some((vec!["a://b".to_string()], "any".to_string()))
    );
    assert_eq!(
        dataset_subscriptions(&spec_of(
            "name: p\non_datasets: [\"a://b\", \"a://c\"]\ndatasets_mode: all\ntasks: []\n"
        )),
        Some((vec!["a://b".to_string(), "a://c".to_string()], "all".to_string()))
    );
    assert_eq!(dataset_subscriptions(&spec_of("name: p\ntasks: []\n")), None);
}

#[test]
fn run_timeout_zero_is_rejected() {
    let err = refusal("name: w\nrun_timeout_secs: 0\ntasks:\n  - { name: a, command: [\"true\"] }\n");
    assert!(err.contains("run_timeout_secs=0"), "got: {err}");
}

/// Otherwise the number of instances would depend on scheduling order.
#[test]
fn a_runtime_fan_out_must_depend_on_the_task_it_reads() {
    let ok = load(
        "name: w\ntasks:\n\
         \x20 - { name: list, command: [\"ls\"] }\n\
         \x20 - { name: use, command: [\"x\"], depends_on: [list], with_output_of: list }\n",
    );
    assert!(ok.is_ok(), "a dependency is a valid producer");

    let err = refusal(
        "name: w\ntasks:\n\
         \x20 - { name: list, command: [\"ls\"] }\n\
         \x20 - { name: use, command: [\"x\"], with_output_of: list }\n",
    );
    assert!(err.contains("depends_on"), "the error says how to fix it: {err}");

    let err = refusal(
        "name: w\ntasks:\n\
         \x20 - { name: use, command: [\"x\"], with_output_of: ghost }\n",
    );
    assert!(err.contains("unknown task 'ghost'"), "got: {err}");
}

/// Only an executor's result is ever held against `until`.
#[test]
fn repeat_is_rejected_on_task_kinds_that_never_evaluate_it() {
    let cases = [
        ("wait", "  - { name: a, type: wait, wait: { for: 5m }, repeat: { until: \"{{ output }} == done\", max_iterations: 3 } }"),
        ("approval", "  - { name: a, type: approval, repeat: { until: \"{{ output }} == done\", max_iterations: 3 } }"),
    ];
    for (kind, task) in cases {
        let err = refusal(&format!("name: w\ntasks:\n{task}\n"));
        assert!(
            err.contains("repeat") && err.contains(kind),
            "the error should name both the operator and the kind, got: {err}"
        );
    }
}

// ── Budgets ──────────────────────────────────────────────────────────────────

const DEFER: &str = "defer: { kind: spark-k8s }";

#[test]
fn the_external_ceiling_counts_submissions_by_default() {
    let yaml = format!(
        "name: p\nbudget: {{ external_cost: 2 }}\ntasks:\n  \
         - {{ name: a, command: [x], {DEFER} }}\n  \
         - {{ name: b, command: [x], {DEFER} }}\n"
    );
    graph(&yaml);

    let over = format!(
        "name: p\nbudget: {{ external_cost: 2 }}\ntasks:\n  \
         - {{ name: a, command: [x], {DEFER} }}\n  \
         - {{ name: b, command: [x], {DEFER} }}\n  \
         - {{ name: c, command: [x], {DEFER} }}\n"
    );
    let Fault::ExternalBudget { max, planned, deferred_tasks } = fault(&over) else {
        panic!("three is over");
    };
    assert_eq!(planned, 3);
    assert_eq!(deferred_tasks, 3);
    assert_eq!(max, 2);
}

#[test]
fn a_declared_unit_cost_is_summed_not_counted() {
    let yaml = "name: p\nbudget: { external_cost: 100 }\ntasks:\n  \
         - { name: big,      command: [x], defer: { kind: spark-k8s, cost: 60 } }\n  \
         - { name: also_big, command: [x], defer: { kind: spark-k8s, cost: 60 } }\n";
    let Fault::ExternalBudget { planned, deferred_tasks, .. } = fault(yaml) else {
        panic!("120 > 100");
    };
    assert_eq!(planned, 120, "summed, not counted");
    assert_eq!(deferred_tasks, 2, "and it says how many jobs made up that sum");
}

#[test]
fn ordinary_tasks_do_not_consume_the_external_ceiling() {
    let yaml = "name: p\nbudget: { external_cost: 1 }\ntasks:\n  \
         - { name: a, command: [x] }\n  \
         - { name: b, command: [x] }\n  \
         - { name: c, command: [x], defer: { kind: spark-k8s } }\n";
    graph(yaml);
}

#[test]
fn a_gang_costs_its_size_not_one() {
    let yaml = "name: p\nbudget: { external_cost: 2 }\ntasks:\n  \
         - { name: fan, command: [x], gang: { size: 10 }, defer: { kind: spark-k8s } }\n";
    let Fault::ExternalBudget { planned, deferred_tasks, .. } = fault(yaml) else {
        panic!("ten submits is over a ceiling of two");
    };
    assert_eq!(planned, 10, "size rows, not one spec");
    assert_eq!(deferred_tasks, 10);
}

#[test]
fn a_gangs_unit_cost_multiplies_across_its_rows() {
    let yaml = "name: p\nbudget: { external_cost: 100 }\ntasks:\n  \
         - { name: fan, command: [x], gang: { size: 4 }, defer: { kind: spark-k8s, cost: 30 } }\n";
    let Fault::ExternalBudget { planned, .. } = fault(yaml) else {
        panic!("4 x 30 = 120 > 100");
    };
    assert_eq!(planned, 120);
}

#[test]
fn an_external_ceiling_of_zero_is_refused_as_meaningless() {
    let err = refusal("name: p\nbudget: { external_cost: 0 }\ntasks:\n  - { name: a, command: [x] }\n");
    assert!(err.contains("external_cost=0"), "{err}");
}

#[test]
fn attribution_is_gated_and_the_signpost_names_the_open_ceiling() {
    let err = refusal(
        "name: p\nbudget: { external_cost_attribution: true }\ntasks:\n  - { name: a, command: [x] }\n",
    );
    assert!(err.contains("not in this build"), "names the gap: {err}");
    assert!(err.contains("#what-this-build-does-not-do"), "links the anchor: {err}");
    assert!(err.contains("external_cost"), "names the open ceiling: {err}");
    assert!(err.contains("`pool:`"), "names the other open bound: {err}");
    assert!(err.contains("docs/EXTERNAL_JOBS.md"), "names the open doc: {err}");
    assert!(err.contains("dagron_engine::Seams"), "names the seam: {err}");
}

#[test]
fn attribution_is_accepted_where_it_ships() {
    let spec = spec_of(
        "name: p\nbudget: { external_cost_attribution: true }\ntasks:\n  - { name: a, command: [x] }\n",
    );
    assert!(DagGraph::from_spec_in(spec, Edition::Enterprise).is_ok());
}

#[test]
fn arguments_with_no_callee_are_rejected() {
    let err = refusal("name: p\ntasks:\n  - { name: a, command: [\"true\"], arguments: { x: \"1\" } }\n");
    assert!(err.contains("`arguments`"), "got: {err}");
}

#[test]
fn repeat_is_allowed_on_a_sub_workflow_trigger() {
    let g = graph(
        "name: conversation\ntasks:\n  - { name: turn, type: workflow, workflow: agent-turn, repeat: { until: \"{{ output }} == done\", max_iterations: 40 } }\n",
    );
    assert!(g.spec.tasks[0].repeat.is_some());
    assert!(g.spec.tasks[0].is_workflow());
}

#[test]
fn repeat_is_still_allowed_on_an_ordinary_command_task() {
    graph(
        "name: w\ntasks:\n  - { name: a, command: [\"true\"], repeat: { until: \"{{ output }} == done\", max_iterations: 3 } }\n",
    );
}

#[test]
fn a_run_over_its_task_budget_is_refused_before_anything_runs() {
    let refused = fault(
        "name: w\nbudget: { tasks: 2 }\ntasks:\n  - { name: a, command: [\"true\"] }\n  - { name: b, command: [\"true\"] }\n  - { name: c, command: [\"true\"] }\n",
    );
    assert!(matches!(refused, Fault::TaskBudget { max: 2, planned: 3 }));
}

#[test]
fn the_budget_counts_gang_members_not_the_gang_spec() {
    let yaml =
        "name: w\nbudget: { tasks: 2 }\ntasks:\n  - { name: a, command: [\"true\"], gang: { size: 4 } }\n";
    assert!(matches!(fault(yaml), Fault::TaskBudget { planned: 4, .. }));
}

#[test]
fn a_run_within_its_budget_is_built_normally() {
    let g = graph("name: w\nbudget: { tasks: 5 }\ntasks:\n  - { name: a, command: [\"true\"] }\n");
    assert_eq!(g.spec.tasks.len(), 1);
}

#[test]
fn a_zero_task_budget_is_rejected_as_a_mistake() {
    let err = refusal("name: w\nbudget: { tasks: 0 }\ntasks:\n  - { name: a, command: [\"true\"] }\n");
    assert!(err.contains("budget.tasks=0"), "got: {err}");
}

#[test]
fn a_spec_without_a_budget_is_unaffected() {
    let g = graph("name: w\ntasks:\n  - { name: a, command: [\"true\"] }\n");
    assert!(g.spec.budget.is_none());
}

#[test]
fn run_timeout_survives_expansion() {
    let g = graph("name: w\nrun_timeout_secs: 90\ntasks:\n  - { name: a, command: [\"true\"] }\n");
    assert_eq!(g.spec.run_timeout_secs, Some(90));
}

#[test]
fn retry_max_delay_survives_expansion() {
    let yaml = "name: w\ntasks:\n  - { name: a, command: [\"true\"], max_attempts: 5, retry_delay_secs: 3, retry_max_delay_secs: 10 }\n";
    let g = graph(yaml);
    assert_eq!(g.task_spec("a").unwrap().retry_max_delay_secs, Some(10));
}

#[test]
fn notify_git_survives_expansion_and_resolves_from_params() {
    let yaml = "name: ci\nparameters: { commit_sha: abc123 }\n\
                notify:\n  git:\n    provider: github\n    repo: acme/etl\n    sha: \"{{ commit_sha }}\"\n    context: dagron/ci\n\
                tasks:\n  - { name: a, command: [\"true\"] }\n";
    let built = graph(yaml);
    assert!(built.spec.notify.and_then(|n| n.git).is_some());

    // The parameters of the raw workflow resolve the templated sha.
    let raw = spec_of(yaml);
    let git = raw.notify.as_ref().and_then(|n| n.git.as_ref()).unwrap();
    assert_eq!(git.provider, "github");
    assert_eq!(substitute(&git.sha, &raw.parameters), "abc123");
}

#[test]
fn result_from_survives_expansion_and_is_validated() {
    let ok = graph(
        "name: w\nresult_from: b\ntasks:\n  - { name: a, command: [\"true\"] }\n  - { name: b, command: [\"true\"], depends_on: [\"a\"] }\n",
    );
    assert_eq!(ok.spec.result_from.as_deref(), Some("b"));

    let err = refusal("name: w\nresult_from: nope\ntasks:\n  - { name: a, command: [\"true\"] }\n");
    assert!(err.contains("result_from names unknown task 'nope'"), "got: {err}");

    let err = refusal(
        "name: w\nresult_from: fin\ntasks:\n  - { name: a, command: [\"true\"] }\n  - { name: fin, command: [\"true\"], hook: on_exit }\n",
    );
    assert!(err.contains("result_from cannot name hook task 'fin'"), "got: {err}");
}

#[test]
fn approval_task_is_validated_and_needs_no_command() {
    let g = graph(
        "name: w\ntasks:\n  - { name: build, command: [\"make\"] }\n  - { name: gate, type: approval, depends_on: [build], approval_timeout_secs: 3600, approval_on_timeout: approve }\n  - { name: deploy, command: [\"ship\"], depends_on: [gate] }\n",
    );
    let gate = g.task_spec("gate").unwrap();
    assert!(gate.is_approval());
    assert_eq!(gate.approval_timeout_secs, Some(3600));
    assert_eq!(gate.approval_on_timeout.as_deref(), Some("approve"));

    let err = refusal("name: w\ntasks:\n  - { name: a, type: wizardry, command: [\"true\"] }\n");
    assert!(err.contains("invalid type 'wizardry'"), "got: {err}");

    let err = refusal("name: w\ntasks:\n  - { name: a, type: approval, approval_on_timeout: maybe }\n");
    assert!(err.contains("invalid approval_on_timeout 'maybe'"), "got: {err}");

    // Another kind of task needs a command.
    assert!(matches!(fault("name: w\ntasks:\n  - { name: a }\n"), Fault::NoCommand));
}

#[test]
fn retry_budgets_parse_and_survive_expansion() {
    let yaml = "\
name: w
tasks:
  - name: train
    command: [\"true\"]
    max_attempts: 3
    retry_budgets:
      gpu-ecc: 8
      nan-loss: 0
";
    let g = graph(yaml);
    let t = g.task_spec("train").unwrap();
    assert_eq!(t.retry_budgets.get("gpu-ecc"), Some(&8));
    assert_eq!(t.retry_budgets.get("nan-loss"), Some(&0));
    assert_eq!(t.max_attempts, 3);
}

#[test]
fn a_misspelled_fault_class_is_a_parse_error_not_a_silent_no_op() {
    let yaml = "\
name: w
tasks:
  - name: train
    command: [\"true\"]
    retry_budgets:
      gpu_ecc_error: 8
";
    let err = refusal(yaml);
    assert!(err.contains("unknown retry_budgets fault class"), "{err}");
    // The error lists the legal alternatives.
    assert!(err.contains("gpu-ecc"), "{err}");
}

/// A tolerated spelling would pass, be stored, and never match at run time.
#[test]
fn a_non_canonical_spelling_is_rejected_rather_than_silently_never_firing() {
    for bad in ["GPU_ECC", "Gpu-Ecc", "gpu_ecc", "canceled"] {
        let yaml = format!(
            "name: w\ntasks:\n  - {{ name: t, command: [\"true\"], retry_budgets: {{ {bad}: 8 }} }}\n"
        );
        let err = refusal(&yaml);
        assert!(err.contains("unknown retry_budgets fault class"), "{bad}: {err}");
    }
    let yaml = "name: w\ntasks:\n  - { name: t, command: [\"true\"], retry_budgets: { GPU_ECC: 8 } }\n";
    let err = refusal(yaml);
    assert!(err.contains("did you mean 'gpu-ecc'?"), "{err}");
}

#[test]
fn the_literal_unknown_class_is_a_legal_budget_key() {
    let yaml = "name: w\ntasks:\n  - { name: t, command: [\"true\"], retry_budgets: { unknown: 2 } }\n";
    let g = graph(yaml);
    assert_eq!(g.task_spec("t").unwrap().retry_budgets.get("unknown"), Some(&2));
}

// ── Deferred work ────────────────────────────────────────────────────────────

#[test]
fn defer_validation() {
    let g = graph("name: p\ntasks:\n  - { name: s, command: [submit], defer: { kind: spark-k8s } }\n");
    let d = g.task_spec("s").unwrap().defer.as_ref().unwrap();
    assert_eq!(d.kind, "spark-k8s");
    assert_eq!(d.poll_secs, DEFAULT_DEFER_POLL_SECS, "poll_secs defaults");
    assert!(d.max_wait_secs.is_none(), "no ceiling by default: the run's deadline bounds it");

    // An empty kind routes to no poller.
    assert!(refusal("name: p\ntasks:\n  - { name: s, command: [x], defer: { kind: \"  \" } }\n")
        .contains("defer.kind is empty"));

    // A zero interval would hot-loop the sweep.
    let zero = refusal("name: p\ntasks:\n  - { name: s, command: [x], defer: { kind: k, poll_secs: 0 } }\n");
    assert!(zero.contains("defer.poll_secs=0"), "{zero}");
    assert!(zero.contains("hot-loops"), "says why, not just that: {zero}");

    // A ceiling under one interval fails the task before the first poll.
    let tight = refusal(
        "name: p\ntasks:\n  - { name: s, command: [x], defer: { kind: k, poll_secs: 60, max_wait_secs: 30 } }\n",
    );
    assert!(tight.contains("max_wait_secs=30"), "{tight}");
    assert!(tight.contains("polled even once"), "{tight}");
    // Exactly one poll is a legitimate budget.
    graph(
        "name: p\ntasks:\n  - { name: s, command: [x], defer: { kind: k, poll_secs: 60, max_wait_secs: 60 } }\n",
    );

    // Two loop operators on one row would re-submit on every "still running".
    let both = refusal(
        "name: p\ntasks:\n  - { name: s, command: [x], defer: { kind: k }, repeat: { until: \"{{ output }} == done\", max_iterations: 3 } }\n",
    );
    assert!(both.contains("cannot combine `defer` with `repeat`"), "{both}");
    assert!(both.contains("both are loop operators"), "names the conflict: {both}");

    // The kinds without a command have no submit to defer.
    for (kind, extra) in [("approval", ""), ("wait", ", wait: { for: 5s }"), ("workflow", ", workflow: other")] {
        let msg = refusal(&format!(
            "name: p\ntasks:\n  - {{ name: s, type: {kind}{extra}, defer: {{ kind: k }} }}\n"
        ));
        assert!(
            msg.contains("cannot combine `defer` with `type:"),
            "type: {kind} must be refused: {msg}"
        );
    }

    // A deferred gang would park its members on as many jobs.
    let gang =
        refusal("name: p\ntasks:\n  - { name: s, command: [x], gang: { size: 4 }, defer: { kind: k } }\n");
    assert!(gang.contains("cannot combine `defer` with `gang`"), "{gang}");

    // A deferred task may produce datasets.
    graph(
        "name: p\ntasks:\n  - { name: s, command: [x], defer: { kind: k }, produces: [\"s3://b/o\"] }\n",
    );
}

#[test]
fn defer_connection_is_gated_with_a_signpost() {
    let spec =
        "name: p\ntasks:\n  - { name: s, command: [x], defer: { kind: k, connection: prod-spark } }\n";
    let Ok(g) = DagGraph::from_spec_in(spec_of(spec), Edition::Enterprise) else {
        panic!("the enterprise edition accepts a named connection");
    };
    assert_eq!(
        g.task_spec("s").unwrap().defer.as_ref().unwrap().connection.as_deref(),
        Some("prod-spark")
    );

    let msg = refusal(spec);
    assert!(msg.contains("prod-spark"), "names what was attempted: {msg}");
    assert!(msg.contains("not in this build"), "names the gap: {msg}");
    assert!(msg.contains("#what-this-build-does-not-do"), "links the anchor: {msg}");
    assert!(msg.contains("environment:"), "names the open endpoint path: {msg}");
    assert!(msg.contains("value_from"), "names the open credential path: {msg}");
    assert!(msg.contains("dagron_engine::Seams"), "names the seam: {msg}");
}

/// A typo in a predicate must not survive until four hours into a poll.
#[test]
fn defer_http_validation() {
    let ok = graph(
        "name: p\ntasks:\n  - name: s\n    command: [submit]\n    defer:\n      kind: spark-k8s\n      http:\n        url: \"https://api.example/jobs/{{ handle }}\"\n        headers: [{ name: Authorization, value_from: { secret: TOK } }]\n        succeed_when: \"status.applicationState.state == COMPLETED\"\n        fail_when: \"status.applicationState.state in [FAILED, SUBMISSION_FAILED]\"\n        error_from: \"status.applicationState.errorMessage\"\n",
    );
    let h = ok.task_spec("s").unwrap().defer.as_ref().unwrap().http.as_ref().unwrap();
    assert!(h.url.contains(HANDLE_PLACEHOLDER));
    assert_eq!(h.headers[0].value_from.as_ref().unwrap().secret, "TOK");

    let spec = |http: &str| {
        format!("name: p\ntasks:\n  - name: s\n    command: [x]\n    defer:\n      kind: k\n      http:\n{http}")
    };

    // Scheme, not reachability: the URL still holds placeholders.
    let scheme = refusal(&spec("        url: \"ftp://h/j\"\n        succeed_when: \"a == b\"\n"));
    assert!(scheme.contains("must be http(s)"), "{scheme}");
    assert!(
        refusal(&spec("        url: \"  \"\n        succeed_when: \"a == b\"\n")).contains("url is empty")
    );

    // Every predicate field is parsed, and the message names which one.
    let bad_succeed =
        refusal(&spec("        url: \"https://h/j\"\n        succeed_when: \"status.phase\"\n"));
    assert!(bad_succeed.contains("defer.http.succeed_when"), "{bad_succeed}");
    assert!(bad_succeed.contains("expected `path == VALUE`"), "{bad_succeed}");

    let bad_fail = refusal(&spec(
        "        url: \"https://h/j\"\n        succeed_when: \"a == b\"\n        fail_when: \"a in b\"\n",
    ));
    assert!(bad_fail.contains("defer.http.fail_when"), "{bad_fail}");
    assert!(bad_fail.contains("bracketed list"), "{bad_fail}");

    let bad_path = refusal(&spec(
        "        url: \"https://h/j\"\n        succeed_when: \"a == b\"\n        error_from: \"a..b\"\n",
    ));
    assert!(bad_path.contains("defer.http.error_from"), "{bad_path}");
    assert!(bad_path.contains("empty segment"), "{bad_path}");

    let no_name = refusal(&spec(
        "        url: \"https://h/j\"\n        succeed_when: \"a == b\"\n        headers: [{ name: \"\", value: v }]\n",
    ));
    assert!(no_name.contains("header with no name"), "{no_name}");
}

#[test]
fn defer_http_cancel_validation() {
    let spec = |cancel: &str| {
        format!(
            "name: p\ntasks:\n  - name: s\n    command: [x]\n    defer:\n      kind: k\n      http:\n        url: \"https://h/j/{{{{ handle }}}}\"\n        succeed_when: \"a == b\"\n        cancel:\n{cancel}"
        )
    };
    let ok = graph(&spec("          url: \"https://h/j/{{ handle }}\"\n"));
    let http = ok.task_spec("s").unwrap().defer.as_ref().unwrap().http.as_ref().unwrap();
    let c = http.cancel.as_ref().unwrap();
    assert_eq!(c.method(), "DELETE", "DELETE is the default");
    assert!(c.url.contains(HANDLE_PLACEHOLDER));
    assert!(c.body.is_none());

    let post = graph(&spec(
        "          url: \"https://h/cancel\"\n          method: post\n          body: '{\"run_id\": \"{{ handle }}\"}'\n",
    ));
    let http = post.task_spec("s").unwrap().defer.as_ref().unwrap().http.as_ref().unwrap();
    let c = http.cancel.as_ref().unwrap();
    assert_eq!(c.method(), "POST", "case-insensitive");
    assert!(c.body.as_ref().unwrap().contains("{{ handle }}"));

    let scheme = refusal(&spec("          url: \"ftp://h/j\"\n"));
    assert!(scheme.contains("defer.http.cancel.url must be http(s)"), "{scheme}");
    let verb = refusal(&spec("          url: \"https://h/j\"\n          method: GET\n"));
    assert!(verb.contains("defer.http.cancel.method"), "{verb}");
    assert!(verb.contains("DELETE, POST, PUT, PATCH"), "{verb}");
}

// ── The engine ───────────────────────────────────────────────────────────────

const LONG_AGO: &str = "2000-01-01T00:00:00+00:00";

fn clock() -> String {
    stamp(now())
}

fn at(secs: i64) -> String {
    stamp_in(now(), secs).unwrap()
}

fn fresh_id() -> String {
    uuid::Uuid::new_v4().to_string()
}

fn ids(n: usize) -> Vec<String> {
    (0..n).map(|_| fresh_id()).collect()
}

fn texts(list: &[&str]) -> Vec<String> {
    list.iter().map(|s| s.to_string()).collect()
}

fn seed_for(dag: &DagGraph) -> RunSeed {
    let rows = usize::try_from(dag.task_row_count()).unwrap();
    RunSeed {
        definition_id: fresh_id(),
        run_id: fresh_id(),
        task_ids: ids(rows),
        gang_ids: ids(dag.spec.tasks.len()),
        inputs: (0..rows).map(|n| format!("{{\"row\":{n}}}")).collect(),
    }
}

fn try_start(db: &mut Store, yaml: &str) -> Result<String, CreateRunError> {
    let dag = graph(yaml);
    let seed = seed_for(&dag);
    let times = checked_run_stamp(&dag.spec, now(), &ClockStatus::unknown()).unwrap();
    create_run(db, &dag, yaml, &seed, &times)
}

fn start(db: &mut Store, yaml: &str) -> String {
    try_start(db, yaml).unwrap()
}

fn advance(db: &mut Store) -> u64 {
    advance_ready_tasks(db, &clock())
}

fn claim(db: &mut Store, worker: &str, limit: i64) -> Vec<TaskRun> {
    claim_ready(db, worker, limit, &clock(), &at(30))
}

fn no_caps() -> TextMap<i64> {
    TextMap::new()
}

fn caps(pool: &str, n: i64) -> TextMap<i64> {
    let mut map = TextMap::new();
    map.insert(pool.to_string(), n);
    map
}

fn claim_pooled(db: &mut Store, limit: i64, pools: &TextMap<i64>) -> Vec<TaskRun> {
    claim_ready_classes(db, "w", limit, &Vec::new(), pools, &clock(), &at(30))
}

fn claim_single(db: &mut Store, limit: i64, pools: &TextMap<i64>) -> Vec<TaskRun> {
    claim_ready_classes_nongang(db, "w", limit, &Vec::new(), pools, &clock(), &at(30))
}

fn claim_gang(db: &mut Store, capacity: i64, pools: &TextMap<i64>) -> Vec<TaskRun> {
    claim_ready_gang(db, "w", capacity, &Vec::new(), pools, &clock(), &at(30))
}

fn succeed(db: &mut Store, task: &TaskRun, output: Option<&str>) -> bool {
    mark_task_succeeded(db, &task.id, "w", task.version + 1, output.map(str::to_string), &clock())
}

fn fail(db: &mut Store, task: &TaskRun, error: &str) -> bool {
    mark_task_failed(db, &task.id, "w", task.version + 1, Some(error.to_string()), &clock())
}

fn reap(db: &mut Store) -> Vec<(String, RunStatus)> {
    let events = ids(db.runs.len());
    reap_completed_runs(db, &events, &clock())
}

fn row<'a>(db: &'a mut Store, id: &str) -> &'a mut TaskRun {
    db.tasks.iter_mut().find(|t| t.id == id).unwrap()
}

fn named<'a>(tasks: &'a [TaskRun], name: &str) -> &'a TaskRun {
    tasks.iter().find(|t| t.name == name).unwrap()
}

fn set_run(db: &mut Store, id: &str, status: RunStatus, finished_at: Option<&str>) {
    let run = db.runs.iter_mut().find(|r| r.id == id).unwrap();
    run.status = status;
    run.finished_at = finished_at.map(str::to_string);
}

fn register(db: &mut Store, id: &str, name: &str, spec: &str) {
    db.workflows.push(RegisteredWorkflow {
        id: id.to_string(),
        name: name.to_string(),
        spec: spec.to_string(),
        state: "active".to_string(),
    });
}

fn hourly(id: &str, workflow_id: &str) -> Schedule {
    Schedule {
        id: id.to_string(),
        workflow_id: workflow_id.to_string(),
        cron_expr: "0 0 * * * *".to_string(),
        timezone: None,
        when_expr: None,
        stop_expr: None,
        enabled: true,
        catchup: false,
        catchup_window_secs: None,
        catchup_max_runs: None,
        next_fire_at: None,
        last_fired_at: None,
        stopped_at: None,
        stop_reason: None,
        updated_at: clock(),
    }
}

/// A stale attempt, whose lease was reclaimed, cannot mark the row; the current
/// attempt can.
#[test]
fn stale_fence_is_rejected() {
    let mut db = Store::new();
    start(&mut db, "name: t\ntasks:\n  - name: a\n    command: [\"true\"]\n");

    advance(&mut db);
    let claimed = claim(&mut db, "worker-A", 10);
    assert_eq!(claimed.len(), 1, "the single root task should be claimed");
    let task = &claimed[0];
    let fence = task.version + 1;

    // The same worker reclaims its own expired lease.
    row(&mut db, &task.id).version += 1;

    let stale = mark_task_succeeded(&mut db, &task.id, "worker-A", fence, Some("stale".into()), &clock());
    assert!(!stale, "stale fence must be rejected");
    let current = mark_task_succeeded(&mut db, &task.id, "worker-A", fence + 1, Some("ok".into()), &clock());
    assert!(current, "current fence must be accepted");
}

#[test]
fn renew_task_lease_extends_only_live_claims() {
    let mut db = Store::new();
    start(&mut db, "name: hb\ntasks:\n  - name: long\n    command: [\"true\"]\n");
    advance(&mut db);
    let claimed = claim(&mut db, "worker-A", 10);
    let task = &claimed[0];
    let fence = task.version + 1;
    let before = row(&mut db, &task.id).lease_expires_at.clone();

    // A live claim renews, past the horizon it was claimed for.
    assert!(renew_task_lease(&mut db, &task.id, "worker-A", fence, &at(300)));
    let after = row(&mut db, &task.id).lease_expires_at.clone();
    assert!(after > before, "renewal must push the lease forward");

    assert!(!renew_task_lease(&mut db, &task.id, "worker-A", fence + 1, &at(300)));
    assert!(!renew_task_lease(&mut db, &task.id, "worker-B", fence, &at(300)));

    // A finished task has no lease to renew.
    mark_task_succeeded(&mut db, &task.id, "worker-A", fence, None, &clock());
    assert!(!renew_task_lease(&mut db, &task.id, "worker-A", fence, &at(300)));
}

/// The pointer survives the retry, so the next attempt resumes; only a running
/// task of the right run can write it.
#[test]
fn checkpoint_pointer_survives_retry() {
    let mut db = Store::new();
    let run_id = start(
        &mut db,
        "name: ck\ntasks:\n  - name: train\n    command: [\"true\"]\n    max_attempts: 3\n",
    );
    advance(&mut db);
    let claimed = claim(&mut db, "worker-A", 10);
    let task = &claimed[0];
    let fence = task.version + 1;

    assert!(task_checkpoint(&db, &task.id).is_none());

    assert!(!record_task_checkpoint(&mut db, "other-run", &task.id, "x", None));
    assert!(record_task_checkpoint(
        &mut db,
        &run_id,
        &task.id,
        "artifacts/ck/epoch-7.pt",
        Some("epoch=7".into()),
    ));
    assert_eq!(
        task_checkpoint(&db, &task.id),
        Some(("artifacts/ck/epoch-7.pt".into(), Some("epoch=7".into())))
    );

    // The attempt dies; the retry keeps the pointer.
    retry_task(&mut db, &task.id, "worker-A", fence, Some("preempted".into()), clock());
    assert_eq!(
        task_checkpoint(&db, &task.id),
        Some(("artifacts/ck/epoch-7.pt".into(), Some("epoch=7".into()))),
        "checkpoint pointer must survive the retry path"
    );

    // Once parked, further writes are refused.
    assert!(!record_task_checkpoint(&mut db, &run_id, &task.id, "y", None));
}

/// A gang becomes member rows, is claimed whole or not at all, and dies together.
#[test]
fn gang_expands_claims_whole_and_dies_together() {
    let mut db = Store::new();
    start(
        &mut db,
        "name: g\ntasks:\n  - name: prep\n    command: [\"true\"]\n  - name: train\n    command: [\"true\"]\n    gang: { size: 3 }\n    depends_on: [prep]\n  - name: publish\n    command: [\"true\"]\n    depends_on: [train]\n",
    );

    assert_eq!(db.tasks.len(), 5);
    assert_eq!(db.tasks.iter().filter(|t| t.gang_id.is_some()).count(), 3, "three gang member rows");
    assert_eq!(named(&db.tasks, "publish").remaining_deps, 3, "dependent waits for every member");

    // Members become ready only after prep succeeds.
    advance(&mut db);
    let prep = claim(&mut db, "w", 10).remove(0);
    assert_eq!(prep.name, "prep");
    assert!(claim_gang(&mut db, 10, &no_caps()).is_empty());

    succeed(&mut db, &prep, None);
    advance(&mut db);

    // Too little capacity; and the ordinary claim skips members.
    assert!(claim_gang(&mut db, 2, &no_caps()).is_empty());
    assert!(claim_single(&mut db, 10, &no_caps()).is_empty());

    let gang = claim_gang(&mut db, 3, &no_caps());
    assert_eq!(gang.len(), 3, "all members claimed together");

    // One member fails: its siblings are cancelled and fenced off.
    let victim = &gang[0];
    fail(&mut db, victim, "rank died");
    assert_eq!(cancel_gang_siblings(&mut db, &victim.id, &clock()), 2);
    let sibling = &gang[1];
    assert!(
        !renew_task_lease(&mut db, &sibling.id, "w", sibling.version + 1, &at(30)),
        "cancelled sibling's heartbeat is fenced off"
    );
}

#[test]
fn gang_claim_respects_pool_budget_and_priority() {
    let mut db = Store::new();
    start(
        &mut db,
        "name: g\ntasks:\n  - name: train\n    command: [\"true\"]\n    pool: gpu\n    gang: { size: 3 }\n",
    );
    advance(&mut db);
    let pooled = db.tasks.iter().filter(|t| t.pool.as_deref() == Some("gpu")).count();
    assert_eq!(pooled, 3, "gang members inherit the task's pool");

    // A pool of two cannot seat three.
    assert!(
        claim_gang(&mut db, 10, &caps("gpu", 2)).is_empty(),
        "gang larger than its pool budget is not claimed"
    );
    assert!(
        claim_single(&mut db, 10, &caps("gpu", 2)).is_empty(),
        "gang members are never claimed individually"
    );

    let gang = claim_gang(&mut db, 10, &caps("gpu", 3));
    assert_eq!(gang.len(), 3, "gang claimed whole once the pool can seat it");
    assert!(gang.iter().all(|t| t.pool.as_deref() == Some("gpu")), "pool survives the claim");
}

#[test]
fn nongang_claim_keeps_priority_and_pools() {
    let mut db = Store::new();
    start(
        &mut db,
        "name: p\ntasks:\n  - { name: low, command: [\"true\"], priority: 1 }\n  - { name: high, command: [\"true\"], priority: 9 }\n  - { name: mid, command: [\"true\"], priority: 5 }\n",
    );
    advance(&mut db);

    let first = claim_single(&mut db, 1, &no_caps());
    assert_eq!(first.len(), 1);
    assert_eq!(first[0].name, "high", "highest priority first on the gang-aware path");
    let second = claim_single(&mut db, 1, &no_caps());
    assert_eq!(second[0].name, "mid");
}

#[test]
fn partition_leases_split_renew_and_rebalance() {
    let mut db = Store::new();
    let parts = texts(&["p0", "p1", "p2"]);
    register_source_partitions(&mut db, "stream", &parts, &clock());
    register_source_partitions(&mut db, "stream", &parts, &clock()); // idempotent

    let a = claim_source_partitions(&mut db, "stream", "worker-A", 2, &clock(), &at(30));
    assert_eq!(a.len(), 2, "capped claim");
    let b = claim_source_partitions(&mut db, "stream", "worker-B", 10, &clock(), &at(30));
    assert_eq!(b.len(), 1, "only the remainder is claimable");
    assert!(a.iter().all(|p| !b.contains(p)), "claims are disjoint");

    assert_eq!(renew_source_partitions(&mut db, "stream", "worker-A", &clock(), &at(30)), 2);

    // B dies: its lease lapses and A takes the partition over.
    for p in db.partitions.iter_mut().filter(|p| p.claimed_by.as_deref() == Some("worker-B")) {
        p.lease_expires_at = Some(at(-5));
    }
    let more = claim_source_partitions(&mut db, "stream", "worker-A", 10, &clock(), &at(30));
    assert_eq!(more, b, "the expired partition rebalances");
    assert_eq!(held_source_partitions(&db, "stream", "worker-A").len(), 3);

    // Clean shutdown: released partitions are claimable at once.
    assert_eq!(release_source_partitions(&mut db, "stream", "worker-A", &clock()), 3);
    let c = claim_source_partitions(&mut db, "stream", "worker-C", 10, &clock(), &at(30));
    assert_eq!(c.len(), 3);
}

#[test]
fn reclass_near_deadline_moves_only_pressed_runs() {
    let mut db = Store::new();
    let urgent = start(
        &mut db,
        "name: urgent\nrun_timeout_secs: 60\nrunner_class: spot-gpu\ntasks:\n  - name: t\n    command: [\"true\"]\n",
    );
    start(&mut db, "name: calm\nrunner_class: spot-gpu\ntasks:\n  - name: t\n    command: [\"true\"]\n");
    advance(&mut db);

    let moved = reclass_ready_tasks_near_deadline(&mut db, "spot-gpu", "ondemand-gpu", &at(120));
    assert_eq!(moved, 1, "only the deadline-pressed run's task moves");
    assert_eq!(list_tasks(&db, &urgent)[0].runner_class, "ondemand-gpu");
}

#[test]
fn reclass_ready_tasks_moves_only_aged_or_preempted() {
    let mut db = Store::new();
    start(
        &mut db,
        "name: pl\nrunner_class: spot-gpu\ntasks:\n  - name: aged\n    command: [\"true\"]\n  - name: fresh\n    command: [\"true\"]\n  - name: other\n    runner_class: cpu\n    command: [\"true\"]\n",
    );
    advance(&mut db);

    let aged = named(&db.tasks, "aged").id.clone();
    row(&mut db, &aged).scheduled_at = Some(at(-600));

    let moved = reclass_ready_tasks(&mut db, "spot-gpu", "ondemand-gpu", &at(-120), i64::MAX);
    assert_eq!(moved, 1, "only the aged spot task moves");
    assert_eq!(named(&db.tasks, "aged").runner_class, "ondemand-gpu");
    assert_eq!(named(&db.tasks, "fresh").runner_class, "spot-gpu");
    assert_eq!(named(&db.tasks, "other").runner_class, "cpu");

    // A much-retried task moves whatever its age.
    let retried = named(&db.tasks, "fresh").id.clone();
    row(&mut db, &retried).attempt = 5;
    let moved = reclass_ready_tasks(&mut db, "spot-gpu", "ondemand-gpu", &at(-999_999), 3);
    assert_eq!(moved, 1, "the preemption-burned task moves on attempts");
}

#[test]
fn runner_class_filter_routes_claims() {
    let mut db = Store::new();
    start(
        &mut db,
        "name: seg\nrunner_class: etl\ntasks:\n  - name: extract\n    command: [\"true\"]\n  - name: check\n    runner_class: pulse\n    command: [\"true\"]\n",
    );
    advance(&mut db);
    assert_eq!(named(&db.tasks, "check").runner_class, "pulse");
    assert_eq!(named(&db.tasks, "extract").runner_class, "etl");

    let claim_class = |db: &mut Store, class: &str| {
        claim_ready_classes(db, "runner", 10, &texts(&[class]), &no_caps(), &clock(), &at(30))
    };
    assert!(
        claim_class(&mut db, "ml_training").is_empty(),
        "class-restricted claim must not take other classes"
    );
    let pulse = claim_class(&mut db, "pulse");
    assert_eq!(pulse.len(), 1);
    assert_eq!(pulse[0].name, "check");

    // No class at all claims whatever remains.
    let rest = claim(&mut db, "any-runner", 10);
    assert_eq!(rest.len(), 1);
    assert_eq!(rest[0].name, "extract");
}

#[test]
fn priority_orders_the_ready_claim() {
    let mut db = Store::new();
    start(
        &mut db,
        "name: prio\ntasks:\n  - name: low\n    command: [\"true\"]\n  - name: mid\n    priority: 5\n    command: [\"true\"]\n  - name: high\n    priority: 10\n    command: [\"true\"]\n",
    );
    advance(&mut db);
    assert_eq!(named(&db.tasks, "high").priority, 10);
    assert_eq!(named(&db.tasks, "low").priority, 0);
    assert_eq!(named(&db.tasks, "mid").priority, 5);

    let claimed = claim(&mut db, "worker-A", 10);
    let order: Vec<&str> = claimed.iter().map(|t| t.name.as_str()).collect();
    assert_eq!(order, vec!["high", "mid", "low"], "highest priority claimed first");
}

/// A trigger parks on its child run; the sweep resolves it once the child ends.
#[test]
fn subworkflow_park_and_reconcile() {
    let mut db = Store::new();
    let child_yaml = "name: child\ntasks:\n  - { name: c, command: [\"true\"] }\n";
    register(&mut db, "wf-child", "child", child_yaml);
    assert_eq!(workflow_spec_by_name(&db, "child").as_deref(), Some(child_yaml));
    assert!(workflow_spec_by_name(&db, "nope").is_none());

    let parent_run = start(
        &mut db,
        "name: parent\ntasks:\n  - { name: trigger, type: workflow, workflow: child }\n  - name: down\n    command: [\"true\"]\n    depends_on: [trigger]\n",
    );
    advance(&mut db);
    let claimed = claim(&mut db, "w", 10);
    let trigger = named(&claimed, "trigger");
    let child_run = start(&mut db, child_yaml);
    assert!(park_subworkflow(&mut db, &trigger.id, trigger.version + 1, &child_run));

    let parked = row(&mut db, &trigger.id);
    assert_eq!(parked.status.as_str(), "running");
    assert!(parked.lease_expires_at.is_none(), "lease cleared so recovery won't reclaim it");
    assert_eq!(parked.sub_run_id.as_deref(), Some(child_run.as_str()));

    recover_expired_leases(&mut db, &clock());
    assert!(reconcile_subworkflows(&mut db, &clock()).is_empty(), "child still running: no resolution");

    set_run(&mut db, &child_run, RunStatus::Succeeded, None);
    assert_eq!(reconcile_subworkflows(&mut db, &clock()), vec![(trigger.id.clone(), true)]);
    advance(&mut db);
    let down = list_tasks(&db, &parent_run);
    assert_eq!(named(&down, "down").status.as_str(), "ready", "downstream advanced");
}

#[test]
fn subworkflow_depth_walks_the_chain_and_terminates() {
    let mut db = Store::new();
    let yaml = "name: rec\ntasks:\n  - { name: t, type: workflow, workflow: rec }\n";
    let root = start(&mut db, yaml);
    let r1 = start(&mut db, yaml);
    let r2 = start(&mut db, yaml);
    let park = |db: &mut Store, parent: &str, child: &str| {
        for t in db.tasks.iter_mut().filter(|t| t.run_id == parent) {
            t.status = TaskStatus::Running;
            t.sub_run_id = Some(child.to_string());
        }
    };
    park(&mut db, &root, &r1);
    park(&mut db, &r1, &r2);

    assert_eq!(sub_workflow_depth(&db, &root, 8), 0, "root has no parent");
    assert_eq!(sub_workflow_depth(&db, &r1, 8), 1);
    assert_eq!(sub_workflow_depth(&db, &r2, 8), 2);
    assert_eq!(sub_workflow_depth(&db, &r2, 1), 1, "walk stops at the cap");

    // A cycle must not hang the walk.
    park(&mut db, &r2, &root);
    assert_eq!(sub_workflow_depth(&db, &root, 4), 4, "a cycle saturates at the limit");
}

#[test]
fn wait_sensor_park_and_reconcile() {
    let mut db = Store::new();
    let run = start(
        &mut db,
        "name: p\ntasks:\n  - { name: pause, type: wait, wait: { for: 1h } }\n  - name: down\n    command: [\"true\"]\n    depends_on: [pause]\n",
    );
    advance(&mut db);
    let claimed = claim(&mut db, "w", 10);
    let pause = named(&claimed, "pause");
    assert!(park_wait(&mut db, &pause.id, pause.version + 1, &at(3600)));

    let parked = row(&mut db, &pause.id);
    assert_eq!(parked.status.as_str(), "running");
    assert!(parked.lease_expires_at.is_none());
    recover_expired_leases(&mut db, &clock());
    assert!(reconcile_waits(&mut db, &clock()).is_empty(), "future deadline: not resolved");

    row(&mut db, &pause.id).wake_at = Some(LONG_AGO.to_string());
    assert_eq!(reconcile_waits(&mut db, &clock()), vec![pause.id.clone()]);
    advance(&mut db);
    assert_eq!(named(&list_tasks(&db, &run), "down").status.as_str(), "ready");
}

#[test]
fn url_wait_park_poll_and_resolve() {
    let mut db = Store::new();
    let run = start(
        &mut db,
        "name: p\ntasks:\n  - { name: probe, type: wait, wait: { url: \"https://example.com/ready\" } }\n  - name: down\n    command: [\"true\"]\n    depends_on: [probe]\n",
    );
    advance(&mut db);
    let claimed = claim(&mut db, "w", 10);
    let probe = named(&claimed, "probe");
    assert!(park_wait_url(&mut db, &probe.id, probe.version + 1, "https://example.com/ready", &clock()));

    let parked = row(&mut db, &probe.id);
    assert_eq!(parked.status.as_str(), "running");
    assert!(parked.lease_expires_at.is_none());
    assert!(parked.wake_at.is_none());
    recover_expired_leases(&mut db, &clock());
    assert!(reconcile_waits(&mut db, &clock()).is_empty(), "url sensor is not a time sensor");

    let due = due_url_waits(&db, 32, &clock());
    assert_eq!(due, vec![(probe.id.clone(), "https://example.com/ready".to_string())]);

    // A miss parks it again, far ahead.
    assert!(repark_url_wait(&mut db, &probe.id, &at(3600)));
    assert!(due_url_waits(&db, 32, &clock()).is_empty(), "not due until next_poll_at");

    assert!(resolve_url_wait(&mut db, &probe.id, &clock()));
    assert!(!resolve_url_wait(&mut db, &probe.id, &clock()), "second resolve is a no-op");
    advance(&mut db);
    let tasks = list_tasks(&db, &run);
    assert_eq!(named(&tasks, "down").status.as_str(), "ready");
    assert_eq!(named(&tasks, "probe").status.as_str(), "succeeded");
}

#[test]
fn dataset_produce_track_and_sensor() {
    let mut db = Store::new();
    let uri = "s3://lake/orders".to_string();
    let prod_run = start(
        &mut db,
        "name: producer\ntasks:\n  - { name: load, command: [\"true\"], produces: [\"s3://lake/orders\"] }\n",
    );
    advance(&mut db);
    let load = claim(&mut db, "w", 10).remove(0);
    assert!(succeed(&mut db, &load, None));
    record_dataset_updates(&mut db, "producer", &load.id, "load", &vec![uri.clone()], &clock());

    assert_eq!(db.datasets.len(), 1);
    assert!(!db.datasets[0].updated_at.is_empty());
    assert_eq!(db.datasets[0].last_run_id.as_deref(), Some(prod_run.as_str()));
    assert_eq!(db.datasets[0].last_task.as_deref(), Some("load"));
    assert_eq!(db.datasets[0].updates, 1);
    assert_eq!(list_dataset_events(&db, Some(&uri), 10).len(), 1);

    // A second update increments, never duplicates, the registry row.
    record_dataset_updates(&mut db, "producer", &load.id, "load", &vec![uri.clone()], &clock());
    let listed = list_datasets(&db, 10);
    assert_eq!(listed.len(), 1);
    assert_eq!(listed[0].updates, 2);

    // A sensor that parks now is not resolved by history.
    let cons_run = start(
        &mut db,
        "name: consumer\ntasks:\n  - { name: sense, type: wait, wait: { dataset: \"s3://lake/orders\" } }\n  - name: down\n    command: [\"true\"]\n    depends_on: [sense]\n",
    );
    advance(&mut db);
    let claimed = claim(&mut db, "w", 10);
    let sense = named(&claimed, "sense");
    assert!(park_wait_dataset(&mut db, &sense.id, sense.version + 1, &uri));

    let parked = row(&mut db, &sense.id);
    assert_eq!(parked.status.as_str(), "running");
    assert!(parked.lease_expires_at.is_none());
    assert_eq!(parked.wait_dataset_cursor, Some(2), "cursor = max event id at park time");
    recover_expired_leases(&mut db, &clock());
    assert!(reconcile_dataset_waits(&mut db, &clock()).is_empty(), "history never resolves the sensor");

    record_external_dataset_event(&mut db, &uri, &clock());
    assert_eq!(reconcile_dataset_waits(&mut db, &clock()), vec![(sense.id.clone(), uri.clone())]);
    assert!(reconcile_dataset_waits(&mut db, &clock()).is_empty(), "second sweep is a no-op");
    advance(&mut db);
    assert_eq!(named(&list_tasks(&db, &cons_run), "down").status.as_str(), "ready");
}

#[test]
fn dataset_triggers_sync_claim_and_compose() {
    let mut db = Store::new();
    let (a, b) = ("lake://a".to_string(), "lake://b".to_string());
    register(&mut db, "wf-c", "consumer", "name: consumer\ntasks: []");

    // History before the subscription does not fire it.
    record_external_dataset_event(&mut db, &a, &clock());
    sync_dataset_triggers(&mut db, "consumer", &vec![a.clone()], "any");
    assert!(claim_due_dataset_triggers(&mut db).is_empty(), "no fire on pre-subscription history");

    // Two updates make one fire.
    record_external_dataset_event(&mut db, &a, &clock());
    record_external_dataset_event(&mut db, &a, &clock());
    let fires = claim_due_dataset_triggers(&mut db);
    assert_eq!(fires.len(), 1);
    assert_eq!(fires[0].workflow_name, "consumer");
    assert_eq!(fires[0].trigger_uri, a);
    assert!(claim_due_dataset_triggers(&mut db).is_empty(), "no double fire");

    // A refused fire rolls back and is due again.
    unclaim_dataset_trigger(&mut db, "consumer", &fires[0].advanced);
    assert_eq!(claim_due_dataset_triggers(&mut db).len(), 1, "rollback re-armed the fire");

    // `all`: one fresh dataset of two is not enough.
    sync_dataset_triggers(&mut db, "consumer", &vec![a.clone(), b.clone()], "all");
    record_external_dataset_event(&mut db, &a, &clock());
    assert!(claim_due_dataset_triggers(&mut db).is_empty(), "all-of waits for every dataset");
    record_external_dataset_event(&mut db, &b, &clock());
    let fires = claim_due_dataset_triggers(&mut db);
    assert_eq!(fires.len(), 1, "all fresh: fire");
    assert_eq!(fires[0].advanced.len(), 2, "both cursors advanced");

    // A narrower set drops the other subscription.
    sync_dataset_triggers(&mut db, "consumer", &vec![a.clone()], "any");
    assert_eq!(db.triggers.iter().filter(|t| t.workflow_name == "consumer").count(), 1);

    // Without its workflow the subscription is an orphan.
    db.workflows.clear();
    assert_eq!(prune_dataset_triggers(&mut db), 1);
}

#[test]
fn memo_store_and_lookup_roundtrip() {
    let mut db = Store::new();
    let look = |db: &Store, key: &str, age: Option<u64>| memo_lookup(db, "wf", "t", key, age, now());
    assert!(look(&db, "k1", None).is_none());

    memo_store(&mut db, "wf", "t", "k1", "cached-output", &clock());
    assert_eq!(look(&db, "k1", None).as_deref(), Some("cached-output"));
    assert!(look(&db, "k2", None).is_none());

    memo_store(&mut db, "wf", "t", "k1", "v2", &clock());
    assert_eq!(look(&db, "k1", None).as_deref(), Some("v2"));

    for m in db.memos.iter_mut().filter(|m| m.cache_key == "k1") {
        m.created_at = LONG_AGO.to_string();
    }
    assert!(look(&db, "k1", Some(60)).is_none(), "stale entry misses under max_age_secs");
    assert!(look(&db, "k1", None).is_some(), "no max_age: never stale");
}

#[test]
fn pooled_gang_never_overcommits_its_pool() {
    let yaml = "name: g\ntasks:\n  - { name: solo, command: [\"true\"], pool: gpu }\n  - { name: train, command: [\"true\"], pool: gpu, gang: { size: 3 } }\n";
    let mut db = Store::new();
    start(&mut db, yaml);
    advance(&mut db);

    // A cap of four: `solo` takes one slot and leaves exactly enough.
    let solo = claim_single(&mut db, 1, &caps("gpu", 4));
    assert_eq!(solo.len(), 1);
    assert_eq!(solo[0].name, "solo");
    let gang = claim_gang(&mut db, 10, &caps("gpu", 4));
    assert_eq!(gang.len(), 3, "gang admitted when the pool has exactly enough");

    // A tighter cap leaves too few slots for the whole gang.
    let mut db2 = Store::new();
    start(&mut db2, yaml);
    advance(&mut db2);
    assert_eq!(claim_single(&mut db2, 1, &caps("gpu", 3)).len(), 1);
    assert!(
        claim_gang(&mut db2, 10, &caps("gpu", 3)).is_empty(),
        "gang must not be admitted into a pool that cannot seat all members"
    );
    let running = db2
        .tasks
        .iter()
        .filter(|t| t.status == TaskStatus::Running && t.pool.as_deref() == Some("gpu"))
        .count();
    assert_eq!(running, 1, "pool cap never exceeded");
}

#[test]
fn parked_tasks_do_not_consume_pool_slots() {
    let mut db = Store::new();
    let cap = caps("db", 1);
    start(
        &mut db,
        "name: p\ntasks:\n  - { name: sensor, type: wait, wait: { for: 1h }, pool: db }\n  - { name: work, command: [\"true\"], pool: db }\n",
    );
    advance(&mut db);

    let claimed = claim_pooled(&mut db, 1, &cap);
    assert_eq!(claimed.len(), 1);
    let sensor = named(&claimed, "sensor");
    assert!(park_wait(&mut db, &sensor.id, sensor.version + 1, &at(3600)));

    let next = claim_pooled(&mut db, 1, &cap);
    assert_eq!(next.len(), 1, "parked sensor must not squat the pool budget");
    assert_eq!(next[0].name, "work");

    assert!(claim_pooled(&mut db, 1, &cap).is_empty(), "the running task still consumes the pool");
}

#[test]
fn pool_caps_limit_concurrent_claims() {
    let mut db = Store::new();
    let cap = caps("db", 1);
    start(
        &mut db,
        "name: pooled\ntasks:\n  - name: a\n    pool: db\n    command: [\"true\"]\n  - name: b\n    pool: db\n    command: [\"true\"]\n  - name: c\n    command: [\"true\"]\n",
    );
    advance(&mut db);
    let in_pool = |t: &&TaskRun| t.pool.as_deref() == Some("db");

    let first = claim_pooled(&mut db, 10, &cap);
    assert_eq!(first.iter().filter(in_pool).count(), 1, "exactly one db task claimed");
    assert!(first.iter().any(|t| t.name == "c"), "unpooled task is never gated");
    assert_eq!(first.len(), 2);
    let running = db.tasks.iter().filter(in_pool).filter(|t| t.status == TaskStatus::Running).count();
    assert_eq!(running, 1, "pool db is at its cap");

    let mid = claim_pooled(&mut db, 10, &cap);
    assert!(mid.iter().all(|t| t.pool.as_deref() != Some("db")), "pool db full");

    for t in db.tasks.iter_mut() {
        if t.status == TaskStatus::Running && t.pool.as_deref() == Some("db") {
            t.status = TaskStatus::Succeeded;
        }
    }
    let after = claim_pooled(&mut db, 10, &cap);
    assert_eq!(after.iter().filter(in_pool).count(), 1, "slot freed: the second db task claims");
}

#[test]
fn max_active_runs_caps_concurrent_runs() {
    let mut db = Store::new();
    let yaml = "name: capped\nmax_active_runs: 1\ntasks:\n  - name: a\n    command: [\"true\"]\n";
    let run1 = start(&mut db, yaml);
    assert_eq!(
        try_start(&mut db, yaml),
        Err(CreateRunError::MaxActiveRunsReached { name: "capped".to_string(), max: 1, active: 1 }),
        "cap reached"
    );

    set_run(&mut db, &run1, RunStatus::Succeeded, None);
    assert!(try_start(&mut db, yaml).is_ok(), "a slot freed once the first run finished");
}

#[test]
fn run_deadline_sweep_fails_overdue_run() {
    let mut db = Store::new();
    let deadlined = "name: slow\nrun_timeout_secs: 3600\ntasks:\n  - name: a\n    command: [\"true\"]\n";
    let overdue_run = start(&mut db, deadlined);
    let ontime_run = start(&mut db, deadlined);
    let free_run = start(&mut db, "name: free\ntasks:\n  - name: a\n    command: [\"true\"]\n");

    let run = get_run(&db, &overdue_run).unwrap();
    assert!(run.deadline_at.is_some(), "run_timeout_secs must persist a deadline_at");
    assert!(get_run(&db, &free_run).unwrap().deadline_at.is_none(), "no timeout: no deadline");

    db.runs.iter_mut().find(|r| r.id == overdue_run).unwrap().deadline_at = Some(at(-5));
    assert_eq!(cancel_overdue_runs(&mut db, &clock()), vec![overdue_run.clone()]);

    let run = get_run(&db, &overdue_run).unwrap();
    assert_eq!(run.status.as_str(), "failed");
    assert!(run.output.unwrap().contains("deadline exceeded"));
    assert_eq!(list_tasks(&db, &overdue_run)[0].status.as_str(), "cancelled");

    for id in [&ontime_run, &free_run] {
        assert_eq!(get_run(&db, id).unwrap().status.as_str(), "running", "run {id} must be untouched");
    }
    assert!(cancel_overdue_runs(&mut db, &clock()).is_empty());
}

#[test]
fn schedule_stop_strategy_counts_and_stops() {
    let mut db = Store::new();
    register(&mut db, "wf1", "w", "name: w\ntasks: []");
    let mut schedule = hourly("sch1", "wf1");
    schedule.next_fire_at = Some(clock());
    db.schedules.push(schedule);

    let yaml = "name: r\ntasks:\n  - name: a\n    command: [\"true\"]\n";
    for status in [RunStatus::Succeeded, RunStatus::Succeeded, RunStatus::Failed] {
        let id = start(&mut db, yaml);
        stamp_run_schedule(&mut db, &id, "sch1");
        set_run(&mut db, &id, status, None);
    }
    assert_eq!(schedule_run_counts(&db, "sch1"), (2, 1, 3));
    assert_eq!(schedule_run_counts(&db, "other"), (0, 0, 0));

    stop_schedule(&mut db, "sch1", "{{ failed }} >= 1 (failed=1)", &clock());
    assert!(!db.schedules[0].enabled);
    assert!(db.schedules[0].stopped_at.is_some());
    assert!(db.schedules[0].stop_reason.as_ref().unwrap().contains("failed"));
    let due = claim_due_schedules(&db, &clock());
    assert!(due.iter().all(|s| s.schedule.id != "sch1"), "stopped schedule must not be due");
}

#[test]
fn trigger_rules_route_around_a_failed_dep() {
    let mut db = Store::new();
    let run_id = start(
        &mut db,
        "name: tr\ntasks:\n  \
        - { name: a, command: [\"false\"] }\n  \
        - { name: b, command: [\"true\"], depends_on: [a] }\n  \
        - { name: c, command: [\"true\"], depends_on: [a], trigger_rule: all_done }\n  \
        - { name: d, command: [\"true\"], depends_on: [a], trigger_rule: one_failed }\n  \
        - { name: e, command: [\"true\"], depends_on: [a], trigger_rule: none_failed }\n  \
        - { name: f, command: [\"true\"], depends_on: [b] }\n",
    );
    advance(&mut db);
    let claimed = claim(&mut db, "w", 10);
    assert!(fail(&mut db, named(&claimed, "a"), "boom"));
    for _ in 0..4 {
        advance(&mut db);
    }

    let tasks = list_tasks(&db, &run_id);
    assert_eq!(named(&tasks, "a").status, TaskStatus::Failed);
    assert_eq!(named(&tasks, "b").status, TaskStatus::Skipped, "all_success dep failed: skipped");
    assert_eq!(named(&tasks, "c").status, TaskStatus::Ready, "all_done runs regardless");
    assert_eq!(named(&tasks, "d").status, TaskStatus::Ready, "one_failed runs because a failed");
    assert_eq!(named(&tasks, "e").status, TaskStatus::Skipped, "none_failed skips because a failed");
    assert_eq!(named(&tasks, "f").status, TaskStatus::Skipped, "the skip of b cascades");
}

#[test]
fn deadline_alert_fires_once_without_cancelling() {
    let mut db = Store::new();
    let run_id = start(
        &mut db,
        "name: slo\ndeadline: { in: 1h }\ntasks:\n  - { name: a, command: [\"true\"] }\n",
    );
    assert!(get_run(&db, &run_id).unwrap().alert_deadline_at.is_some());
    db.runs[0].alert_deadline_at = Some(at(-5));

    assert_eq!(fire_deadline_alerts(&mut db, &ids(1), &clock()), vec![run_id.clone()]);
    assert_eq!(get_run(&db, &run_id).unwrap().status.as_str(), "running");
    let alerts = db
        .outbox
        .iter()
        .filter(|e| e.run_id == run_id && e.event_type == "run.deadline_exceeded")
        .count();
    assert_eq!(alerts, 1);
    assert!(fire_deadline_alerts(&mut db, &ids(1), &clock()).is_empty());
}

#[test]
fn allow_failure_task_does_not_fail_the_run() {
    let mut db = Store::new();
    let run_id = start(
        &mut db,
        "name: opt\ntasks:\n  \
        - { name: main, command: [\"true\"] }\n  \
        - { name: best_effort, command: [\"false\"], allow_failure: true }\n",
    );
    advance(&mut db);
    for t in claim(&mut db, "w", 10) {
        if t.name == "main" {
            succeed(&mut db, &t, None);
        } else {
            fail(&mut db, &t, "boom");
        }
    }
    let finalized = reap(&mut db);
    assert_eq!(finalized.len(), 1);
    assert_eq!(finalized[0].1.as_str(), "succeeded");
    assert_eq!(named(&list_tasks(&db, &run_id), "best_effort").status.as_str(), "failed");
}

#[test]
fn append_task_output_streams_then_guards() {
    let mut db = Store::new();
    start(&mut db, "name: t\ntasks:\n  - name: a\n    command: [\"true\"]\n");
    advance(&mut db);
    let task = claim(&mut db, "w", 10).remove(0);
    let fence = task.version + 1;

    append_task_output(&mut db, &task.id, fence, "hello\n", true);
    append_task_output(&mut db, &task.id, fence, "world\n", false);
    assert_eq!(db.tasks[0].output.as_deref(), Some("hello\nworld\n"));

    append_task_output(&mut db, &task.id, fence + 5, "STALE\n", false);
    assert_eq!(db.tasks[0].output.as_deref(), Some("hello\nworld\n"), "stale fence must not append");

    assert!(succeed(&mut db, &task, Some("final")));
    append_task_output(&mut db, &task.id, fence, "LATE\n", false);
    assert_eq!(db.tasks[0].output.as_deref(), Some("final"), "terminal row is immutable to appends");
}

#[test]
fn result_from_populates_run_output_on_success() {
    let mut db = Store::new();
    let run_id = start(
        &mut db,
        "name: fn\nresult_from: b\ntasks:\n  \
        - { name: a, command: [\"true\"] }\n  \
        - { name: b, command: [\"true\"], depends_on: [\"a\"] }\n",
    );
    assert_eq!(get_run(&db, &run_id).unwrap().result_from.as_deref(), Some("b"));

    for _round in 0..2 {
        advance(&mut db);
        for t in claim(&mut db, "w", 10) {
            let output = if t.name == "b" { Some("the-answer") } else { None };
            succeed(&mut db, &t, output);
        }
    }
    let finalized = reap(&mut db);
    assert_eq!(finalized.len(), 1);
    assert_eq!(finalized[0].1.as_str(), "succeeded");
    assert_eq!(get_run(&db, &run_id).unwrap().output.as_deref(), Some("the-answer"));
}

#[test]
fn reap_emits_outbox_event_then_drains() {
    let mut db = Store::new();
    let run_id = start(&mut db, "name: ob\ntasks:\n  - name: a\n    command: [\"true\"]\n");
    advance(&mut db);
    let task = claim(&mut db, "w", 10).remove(0);
    assert!(succeed(&mut db, &task, None));
    assert_eq!(reap(&mut db).len(), 1, "the run finalizes");

    let pending = db
        .outbox
        .iter()
        .filter(|e| e.run_id == run_id && e.status == OutboxStatus::Pending)
        .count();
    assert_eq!(pending, 1, "finalization emitted exactly one pending event");

    let batch = claim_outbox_batch(&mut db, 10, &clock(), &at(30));
    assert_eq!(batch.len(), 1);
    assert_eq!(batch[0].event_type, "run.completed");
    assert_eq!(batch[0].run_id, run_id);
    assert!(
        claim_outbox_batch(&mut db, 10, &clock(), &at(30)).is_empty(),
        "a leased event is not re-claimed"
    );

    mark_outbox_delivered(&mut db, &batch[0].id, &clock());
    let delivered = db.outbox.iter().filter(|e| e.status == OutboxStatus::Delivered).count();
    assert_eq!(delivered, 1, "delivered event is marked");
}

fn seed_run(db: &mut Store) -> String {
    start(
        db,
        "name: demo\ntasks:\n  - name: a\n    command: [\"true\"]\n  - name: b\n    command: [\"true\"]\n    depends_on: [\"a\"]\n",
    )
}

#[test]
fn cancel_run_is_idempotent() {
    let mut db = Store::new();
    let run_id = seed_run(&mut db);
    assert!(cancel_run(&mut db, &run_id, &clock()), "first cancel succeeds");
    assert_eq!(get_run(&db, &run_id).unwrap().status.as_str(), "cancelled");
    assert!(
        list_tasks(&db, &run_id).iter().all(|t| t.status == TaskStatus::Cancelled),
        "all tasks cancelled"
    );
    assert!(!cancel_run(&mut db, &run_id, &clock()), "second cancel is a no-op");
}

#[test]
fn rerun_from_failed_resets_broken_cone() {
    let mut db = Store::new();
    let run_id = start(
        &mut db,
        "name: chain\ntasks:\n  - name: a\n    command: [\"true\"]\n  - name: b\n    command: [\"true\"]\n    depends_on: [\"a\"]\n  - name: c\n    command: [\"true\"]\n    depends_on: [\"b\"]\n",
    );
    let tasks = list_tasks(&db, &run_id);
    let (v_b, v_c) = (named(&tasks, "b").version, named(&tasks, "c").version);
    for (name, status) in
        [("a", TaskStatus::Succeeded), ("b", TaskStatus::Failed), ("c", TaskStatus::Cancelled)]
    {
        row(&mut db, &named(&tasks, name).id).status = status;
    }
    set_run(&mut db, &run_id, RunStatus::Failed, Some("2026-01-01T00:00:00Z"));

    assert_eq!(rerun_from_failed(&mut db, &run_id, &clock()), Some(2), "only b and c are reset");

    let after = list_tasks(&db, &run_id);
    assert_eq!(named(&after, "a").status, TaskStatus::Succeeded);
    assert_eq!(named(&after, "b").status, TaskStatus::Pending);
    assert_eq!(named(&after, "b").remaining_deps, 0, "b's only dep (a) succeeded");
    assert!(named(&after, "b").version > v_b, "b version bumped to fence stale workers");
    assert_eq!(named(&after, "c").status, TaskStatus::Pending);
    assert_eq!(named(&after, "c").remaining_deps, 1, "c waits on b to re-succeed");
    assert!(named(&after, "c").version > v_c);
    let run = get_run(&db, &run_id).unwrap();
    assert_eq!(run.status.as_str(), "running");
    assert!(run.finished_at.is_none(), "finished_at cleared on re-arm");

    assert_eq!(rerun_from_failed(&mut db, &run_id, &clock()), None);
    assert_eq!(rerun_from_failed(&mut db, "does-not-exist", &clock()), None);
}

#[test]
fn clear_task_resets_target_and_downstream() {
    let mut db = Store::new();
    let run_id = start(
        &mut db,
        "name: chain\ntasks:\n  - name: a\n    command: [\"true\"]\n  - name: b\n    command: [\"true\"]\n    depends_on: [\"a\"]\n  - name: c\n    command: [\"true\"]\n    depends_on: [\"b\"]\n  - name: d\n    command: [\"true\"]\n",
    );
    let tasks = list_tasks(&db, &run_id);
    let (v_b, v_c) = (named(&tasks, "b").version, named(&tasks, "c").version);
    let b = named(&tasks, "b").id.clone();
    for t in db.tasks.iter_mut() {
        t.status = TaskStatus::Succeeded;
    }
    set_run(&mut db, &run_id, RunStatus::Succeeded, Some("2026-01-01T00:00:00Z"));

    let reset = clear_task_with_downstream(&mut db, &run_id, &b, &clock());
    assert_eq!(reset, Some(2), "b and its downstream c reset");

    let after = list_tasks(&db, &run_id);
    assert_eq!(named(&after, "a").status, TaskStatus::Succeeded, "ancestor intact");
    assert_eq!(named(&after, "d").status, TaskStatus::Succeeded, "sibling intact");
    assert_eq!(named(&after, "b").status, TaskStatus::Pending);
    assert_eq!(named(&after, "b").remaining_deps, 0, "b's only dep (a) still succeeded");
    assert!(named(&after, "b").version > v_b, "b version bumped to fence stale workers");
    assert_eq!(named(&after, "c").status, TaskStatus::Pending);
    assert_eq!(named(&after, "c").remaining_deps, 1, "c waits on b to re-succeed");
    assert!(named(&after, "c").version > v_c);
    let run = get_run(&db, &run_id).unwrap();
    assert_eq!(run.status.as_str(), "running");
    assert!(run.finished_at.is_none(), "finished_at cleared on re-arm");

    assert_eq!(clear_task_with_downstream(&mut db, &run_id, &b, &clock()), None);
    assert_eq!(clear_task_with_downstream(&mut db, &run_id, "nope", &clock()), None);
    assert!(!task_exists(&db, &run_id, "nope"));
    assert!(task_exists(&db, &run_id, &b));
}

#[test]
fn approval_gate_parks_then_resolves() {
    let mut db = Store::new();
    let run_id = start(
        &mut db,
        "name: appr\ntasks:\n  \
        - { name: build, command: [\"true\"] }\n  \
        - { name: gate, type: approval, depends_on: [build] }\n  \
        - { name: deploy, command: [\"true\"], depends_on: [gate] }\n",
    );
    advance(&mut db);
    let build = claim(&mut db, "w", 10);
    assert_eq!(build.len(), 1, "only build is claimable");
    succeed(&mut db, &build[0], None);
    advance(&mut db);

    let tasks = list_tasks(&db, &run_id);
    let gate = named(&tasks, "gate").id.clone();
    assert_eq!(named(&tasks, "gate").status, TaskStatus::AwaitingApproval);
    assert!(claim(&mut db, "w", 10).is_empty());

    assert!(resolve_approval(&mut db, &run_id, &gate, true, &clock()));
    advance(&mut db);
    let tasks = list_tasks(&db, &run_id);
    assert_eq!(named(&tasks, "gate").status, TaskStatus::Succeeded);
    assert_eq!(named(&tasks, "deploy").status, TaskStatus::Ready);
    assert!(!resolve_approval(&mut db, &run_id, &gate, true, &clock()));
}

#[test]
fn approval_reject_and_timeout() {
    let mut db = Store::new();
    let run_id = start(
        &mut db,
        "name: rej\ntasks:\n  \
        - { name: gate, type: approval }\n  \
        - { name: deploy, command: [\"true\"], depends_on: [gate] }\n",
    );
    advance(&mut db);
    let tasks = list_tasks(&db, &run_id);
    assert_eq!(named(&tasks, "gate").status, TaskStatus::AwaitingApproval);
    assert!(resolve_approval(&mut db, &run_id, &named(&tasks, "gate").id, false, &clock()));
    advance(&mut db);
    let tasks = list_tasks(&db, &run_id);
    assert_eq!(named(&tasks, "gate").status, TaskStatus::Failed);
    assert_eq!(named(&tasks, "deploy").status, TaskStatus::Skipped, "all_success dependent skipped");

    let run2 = start(
        &mut db,
        "name: to\ntasks:\n  - { name: gate, type: approval, approval_timeout_secs: 60 }\n",
    );
    advance(&mut db);
    let gate2 = named(&list_tasks(&db, &run2), "gate").id.clone();
    assert_eq!(resolve_expired_approvals(&mut db, now(), &clock()), Vec::new());
    row(&mut db, &gate2).scheduled_at = Some(at(-120));
    assert_eq!(
        resolve_expired_approvals(&mut db, now(), &clock()),
        vec![(gate2.clone(), false)],
        "default reject"
    );
    assert_eq!(row(&mut db, &gate2).status.as_str(), "failed");
}

#[test]
fn list_runs_and_counts() {
    let mut db = Store::new();
    let run_id = seed_run(&mut db);

    let runs = list_runs(&db, None, 50).unwrap();
    assert_eq!(runs.len(), 1);
    assert_eq!(runs[0].id, run_id);
    assert_eq!(runs[0].name, "demo");
    assert!(list_runs(&db, Some("succeeded"), 50).unwrap().is_empty());

    let snap = status_counts(&db);
    assert_eq!(snap.runs_by_status, vec![("running".to_string(), 1)]);
    let pending = snap.tasks_by_status.iter().find(|(s, _)| s == "pending").map_or(0, |(_, n)| *n);
    assert_eq!(pending, 2, "two pending tasks seeded");
}

#[test]
fn gc_purges_old_terminal_runs() {
    let mut db = Store::new();
    let run_id = seed_run(&mut db);
    assert_eq!(gc_old_runs(&mut db, &at(86_400)), 0);

    set_run(&mut db, &run_id, RunStatus::Succeeded, Some(&at(-2 * 86_400)));
    for t in db.tasks.iter_mut() {
        t.status = TaskStatus::Succeeded;
    }
    assert_eq!(gc_old_runs(&mut db, &clock()), 1, "the old run is purged");
    assert!(get_run(&db, &run_id).is_none());
    assert!(list_tasks(&db, &run_id).is_empty());
    assert_eq!(db.definitions.len(), 0, "orphaned definition removed too");
}

#[test]
fn leadership_is_exclusive() {
    let mut db = Store::new();
    let acquire =
        |db: &mut Store, holder: &str| try_acquire_leadership(db, "ops", holder, &clock(), &at(30));
    assert!(acquire(&mut db, "A"), "A takes a free role");
    assert!(!acquire(&mut db, "B"), "B blocked while A holds");
    assert!(acquire(&mut db, "A"), "A renews its own lease");

    db.leaders[0].lease_expires_at = at(-1);
    assert!(acquire(&mut db, "B"), "B takes the expired role");
    assert!(!acquire(&mut db, "A"), "A now blocked");
}

#[test]
fn dead_letters_record_list_delete() {
    let mut db = Store::new();
    record_dead_letter(&mut db, "dl-1", "name: x\n bad", "parse error", "redis", 2, &clock());
    let listed = list_dead_letters(&db, 50);
    assert_eq!(listed.len(), 1);
    assert_eq!(listed[0].source, "redis");
    assert_eq!(listed[0].failures, 2);
    assert!(get_dead_letter(&db, "dl-1").is_some());

    assert!(delete_dead_letter(&mut db, "dl-1"), "first delete removes it");
    assert!(!delete_dead_letter(&mut db, "dl-1"), "second delete is a no-op");
    assert!(list_dead_letters(&db, 50).is_empty());
}

/// A task whose holder died is reclaimed and driven to its end.
#[test]
fn expired_lease_recovers_and_run_completes() {
    let mut db = Store::new();
    let run_id = start(&mut db, "name: r\ntasks:\n  - name: a\n    command: [\"true\"]\n");
    advance(&mut db);
    let claimed = claim(&mut db, "worker-dead", 10);
    assert_eq!(claimed.len(), 1, "root task claimed");

    row(&mut db, &claimed[0].id).lease_expires_at = Some("1970-01-01T00:00:00+00:00".to_string());
    assert_eq!(recover_expired_leases(&mut db, &clock()), 1, "expired lease reclaimed");
    advance(&mut db);
    let reclaimed = claim(&mut db, "worker-live", 10);
    assert_eq!(reclaimed.len(), 1, "task is re-claimable after lease expiry");
    assert_eq!(reclaimed[0].attempt, 1, "the snapshot shows the prior attempt");

    let fence = reclaimed[0].version + 1;
    assert!(
        mark_task_succeeded(&mut db, &reclaimed[0].id, "worker-live", fence, Some("ok".into()), &clock()),
        "the live worker's fence is accepted"
    );
    let finalized = reap(&mut db);
    assert!(
        finalized.iter().any(|(rid, st)| *rid == run_id && matches!(st, RunStatus::Succeeded)),
        "run finalizes succeeded"
    );
}

#[test]
fn claimed_task_is_not_reclaimed() {
    let mut db = Store::new();
    start(&mut db, "name: r\ntasks:\n  - name: a\n    command: [\"true\"]\n");
    advance(&mut db);
    assert_eq!(claim(&mut db, "w1", 10).len(), 1, "first claim wins the task");
    assert!(claim(&mut db, "w2", 10).is_empty(), "a running task cannot be claimed a second time");
}

#[test]
fn catchup_listing_and_slot_dedup() {
    let mut db = Store::new();
    let yaml = "name: nightly\ntasks:\n  - name: a\n    command: [\"true\"]\n";
    register(&mut db, "wf", "wf-nightly", yaml);
    let mut schedule = hourly("sch", "wf");
    schedule.catchup = true;
    db.schedules.push(schedule);

    let listed = list_catchup_schedules(&db);
    assert_eq!(listed.len(), 1, "the catch-up schedule is listed");
    assert_eq!(listed[0].schedule.id, "sch");
    assert_eq!(listed[0].spec, yaml, "the workflow spec travels with the row");

    let logical = "2026-01-01T00:00:00+00:00";
    assert!(claim_backfill_slot(&mut db, "sch", logical, &clock()), "first claim of a fresh slot wins");
    assert!(!claim_backfill_slot(&mut db, "sch", logical, &clock()), "re-claiming is a no-op");

    db.schedules[0].catchup = false;
    assert!(list_catchup_schedules(&db).is_empty());

    release_backfill_slot(&mut db, "sch", logical);
    assert!(claim_backfill_slot(&mut db, "sch", logical, &clock()), "a released slot can be re-claimed");
}

#[test]
fn failed_run_rerun_cap_and_cooldown() {
    let mut db = Store::new();
    let run_id = start(&mut db, "name: r\ntasks:\n  - name: a\n    command: [\"true\"]\n");
    set_run(&mut db, &run_id, RunStatus::Failed, Some(&clock()));

    let future = at(86_400);
    assert_eq!(
        list_failed_runs_for_rerun(&db, 3, LONG_AGO, 100),
        vec![run_id.clone()],
        "fresh failed run is a candidate"
    );

    bump_rerun_attempt(&mut db, &run_id, &clock());
    bump_rerun_attempt(&mut db, &run_id, &clock());
    assert_eq!(
        list_failed_runs_for_rerun(&db, 3, &future, 100).len(),
        1,
        "attempts=2 < cap=3: still a candidate"
    );
    bump_rerun_attempt(&mut db, &run_id, &clock());
    assert!(
        list_failed_runs_for_rerun(&db, 3, &future, 100).is_empty(),
        "attempts=3 == cap: no longer rerun"
    );

    assert!(list_failed_runs_for_rerun(&db, 99, LONG_AGO, 100).is_empty(), "cooldown blocks it");
    assert_eq!(
        list_failed_runs_for_rerun(&db, 99, &future, 100).len(),
        1,
        "once the cutoff passes last_rerun_at the cooldown clears"
    );
}

#[test]
fn incomplete_count_and_outbox_enqueue() {
    let mut db = Store::new();
    let run_id = start(&mut db, "name: r\ntasks:\n  - name: a\n    command: [\"true\"]\n");
    db.runs[0].created_at = at(-5 * 3600);

    assert_eq!(count_incomplete_runs(&db, &at(-3600)), 1, "a 5h-old running run is past the 1h cutoff");
    assert_eq!(count_incomplete_runs(&db, &at(-9 * 3600)), 0, "not yet stalled under a 9h cutoff");

    enqueue_outbox_event(&mut db, "ev-1", &run_id, "backfill.catchup", "{\"k\":1}", &clock());
    let batch = claim_outbox_batch(&mut db, 10, &clock(), &at(30));
    assert_eq!(batch.len(), 1, "the enqueued event is claimable");
    assert_eq!(batch[0].event_type, "backfill.catchup");
    assert_eq!(batch[0].run_id, run_id);
}

// ── Every rule ───────────────────────────────────────────────────────────────

#[test]
fn every_workflow_rule_can_be_broken() {
    let cases = [
        ("ZeroRunTimeout", "run_timeout_secs: 0"),
        ("ZeroTaskBudget", "budget: { tasks: 0 }"),
        ("ZeroExternalBudget", "budget: { external_cost: 0 }"),
        ("CostAttribution", "budget: { external_cost_attribution: true }"),
        ("BadDeadline", "deadline: { in: soon }"),
        ("BadWorkflowClass", "runner_class: ETL"),
        ("BadTag { index: 1", "tags: [ok, \"not ok\"]"),
        ("BadOnDataset { index: 0", "on_datasets: [\"has space\"]"),
        ("DuplicateOnDataset { index: 1", "on_datasets: [\"a://b\", \"a://b\"]"),
        ("BadDatasetsMode", "on_datasets: [\"a://b\"]\ndatasets_mode: some"),
        ("DatasetsModeAlone", "datasets_mode: any"),
        ("UnknownResult", "result_from: nope"),
    ];
    for (name, header) in cases {
        let yaml = format!("name: w\n{header}\ntasks:\n  - {{ name: a, command: [x] }}\n");
        let found = format!("{:?}", fault(&yaml));
        assert!(found.starts_with(name), "{header}: {found}");
    }
}

#[test]
fn every_task_rule_can_be_broken() {
    let cases = [
        ("DuplicateTask", "name: b, command: [x]"),
        ("UnknownFaultClass { index: 0", "name: a, command: [x], retry_budgets: { gremlins: 1 }"),
        ("ZeroMaxAttempts", "name: a, command: [x], max_attempts: 0"),
        ("BadTriggerRule", "name: a, command: [x], trigger_rule: sometimes"),
        ("BadHook", "name: a, command: [x], hook: on_monday"),
        ("BadType", "name: a, command: [x], type: wizardry"),
        ("BadApprovalAction", "name: a, type: approval, approval_on_timeout: maybe"),
        ("ApprovalHook", "name: a, type: approval, hook: on_exit"),
        ("NoWorkflowTarget", "name: a, type: workflow"),
        ("WorkflowCommand", "name: a, type: workflow, workflow: c, command: [x]"),
        ("WorkflowHook", "name: a, type: workflow, workflow: c, hook: on_exit"),
        ("StrayWorkflow", "name: a, command: [x], workflow: c"),
        ("NotOneWait", "name: a, type: wait, wait: {}"),
        ("BadWaitFor", "name: a, type: wait, wait: { for: soon }"),
        ("BadWaitUntil", "name: a, type: wait, wait: { until: tomorrow }"),
        ("BadWaitUrl", "name: a, type: wait, wait: { url: \"ftp://h\" }"),
        ("BadWaitDataset", "name: a, type: wait, wait: { dataset: \"has space\" }"),
        ("NoWaitBlock", "name: a, type: wait"),
        ("WaitCommand", "name: a, type: wait, wait: { for: 1s }, command: [x]"),
        ("WaitHook", "name: a, type: wait, wait: { for: 1s }, hook: on_exit"),
        ("StrayWait", "name: a, command: [x], wait: { for: 1s }"),
        ("ProducesKind", "name: a, type: approval, produces: [\"a://b\"]"),
        ("BadProduces { index: 1", "name: a, command: [x], produces: [\"a://b\", \"has space\"]"),
        ("DuplicateProduces { index: 1", "name: a, command: [x], produces: [\"a://b\", \"a://b\"]"),
        ("BadRunnerClass", "name: a, command: [x], runner_class: other"),
        ("BadPool", "name: a, command: [x], pool: GPU"),
        ("EmptyCacheKey", "name: a, command: [x], cache: { key: \" \" }"),
        ("ZeroGpu", "name: a, command: [x], resources: { gpu: { count: 0 } }"),
        ("EmptyGpuResource", "name: a, command: [x], resources: { gpu: { count: 1, resource: \" \" } }"),
        ("GangTooSmall", "name: a, command: [x], gang: { size: 1 }"),
        ("GangRetries", "name: a, command: [x], gang: { size: 2 }, max_attempts: 2"),
        ("GangLoopOrGate", "name: a, type: approval, gang: { size: 2 }"),
        ("GangTriggerOrSensor", "name: a, type: wait, wait: { for: 1s }, gang: { size: 2 }"),
        ("EmptyUntil", "name: a, command: [x], repeat: { until: \" \", max_iterations: 3 }"),
        ("ZeroIterations", "name: a, command: [x], repeat: { until: u, max_iterations: 0 }"),
        ("RepeatDelay", "name: a, command: [x], repeat: { until: u, max_iterations: 3, delay_secs: 31536001 }"),
        ("RepeatKind", "name: a, type: approval, repeat: { until: u, max_iterations: 3 }"),
        ("EmptyDeferKind", "name: a, command: [x], defer: { kind: \" \" }"),
        ("ZeroPoll", "name: a, command: [x], defer: { kind: k, poll_secs: 0 }"),
        ("LongPoll", "name: a, command: [x], defer: { kind: k, poll_secs: 31536001 }"),
        ("ShortMaxWait", "name: a, command: [x], defer: { kind: k, poll_secs: 60, max_wait_secs: 59 }"),
        ("DeferRepeat", "name: a, command: [x], defer: { kind: k }, repeat: { until: u, max_iterations: 3 }"),
        ("DeferKind", "name: a, type: approval, defer: { kind: k }"),
        ("DeferGang", "name: a, command: [x], gang: { size: 2 }, defer: { kind: k }"),
        ("EmptyDeferUrl", "name: a, command: [x], defer: { kind: k, http: { url: \"\", succeed_when: \"a == b\" } }"),
        ("BadDeferUrl", "name: a, command: [x], defer: { kind: k, http: { url: \"ftp://h\", succeed_when: \"a == b\" } }"),
        ("NamelessHeader", "name: a, command: [x], defer: { kind: k, http: { url: \"http://h\", succeed_when: \"a == b\", headers: [{ name: \"\", value: v }] } }"),
        ("BadCancelUrl", "name: a, command: [x], defer: { kind: k, http: { url: \"http://h\", succeed_when: \"a == b\", cancel: { url: \"ftp://h\" } } }"),
        ("BadCancelMethod", "name: a, command: [x], defer: { kind: k, http: { url: \"http://h\", succeed_when: \"a == b\", cancel: { url: \"http://h\", method: GET } } }"),
        ("BadSucceedWhen", "name: a, command: [x], defer: { kind: k, http: { url: \"http://h\", succeed_when: a } }"),
        ("BadFailWhen", "name: a, command: [x], defer: { kind: k, http: { url: \"http://h\", succeed_when: \"a == b\", fail_when: \"a in b\" } }"),
        ("BadErrorFrom", "name: a, command: [x], defer: { kind: k, http: { url: \"http://h\", succeed_when: \"a == b\", error_from: \"a..b\" } }"),
        ("DeferConnection", "name: a, command: [x], defer: { kind: k, connection: c }"),
        ("StrayArguments", "name: a, command: [x], arguments: { k: v }"),
        ("SurvivingTemplate", "name: a, template: t"),
        ("NoCommand", "name: a"),
        ("UnknownDependency { index: 1", "name: a, command: [x], depends_on: [b, ghost]"),
        ("DependsOnHook { index: 0", "name: a, command: [x], depends_on: [fin]"),
        ("Cycle", "name: a, command: [x], depends_on: [a]"),
        ("WhenReference { index: 0", "name: a, command: [x], when: \"{{ tasks.b.output }} == go\""),
        ("UnknownProducer", "name: a, command: [x], with_output_of: ghost"),
        ("ProducerNotDependency", "name: a, command: [x], with_output_of: b"),
    ];
    for (name, task) in cases {
        let yaml = format!(
            "name: w\ntasks:\n  - {{ name: b, command: [x] }}\n  - {{ name: fin, command: [x], hook: on_exit }}\n  - {{ {task} }}\n"
        );
        let found = format!("{:?}", fault(&yaml));
        assert!(found.starts_with(name), "{task}: {found}");
    }

    let mut walled = spec_of("name: w\ntasks:\n  - { name: a, command: [x] }\n");
    walled.tasks[0].isolation =
        Some(dagron_core::workflow::IsolationSpec { complaint: Some("no such sandbox".into()) });
    let Err(refused) = DagGraph::from_spec(walled) else {
        panic!("a broken isolation block is refused");
    };
    assert_eq!(refused.fault, Fault::BadIsolation);
    assert_eq!(refused.task, Some(0));
    assert!(refused.message.contains("no such sandbox"), "{}", refused.message);
}

#[test]
fn a_result_is_neither_a_gang_nor_a_hook() {
    let gang = "name: w\nresult_from: a\ntasks:\n  - { name: a, command: [x], gang: { size: 2 } }\n";
    assert_eq!(fault(gang), Fault::GangResult);
    let hook = "name: w\nresult_from: a\ntasks:\n  - { name: a, command: [x], hook: on_exit }\n";
    assert_eq!(fault(hook), Fault::HookResult);
}

#[test]
fn a_task_cannot_fan_out_over_itself() {
    let own = "name: w\ntasks:\n  - { name: a.0, command: [x] }\n  - { name: a, command: [x], depends_on: [a.0], with_output_of: a }\n";
    assert_eq!(fault(own), Fault::OwnOutput);
}

#[test]
fn a_longer_cycle_is_found() {
    let yaml = "name: w\ntasks:\n  - { name: a, command: [x], depends_on: [c] }\n  - { name: b, command: [x], depends_on: [a] }\n  - { name: c, command: [x], depends_on: [b] }\n";
    assert_eq!(fault(yaml), Fault::Cycle);
}

#[test]
fn an_accepted_graph_counts_its_edges_and_rows() {
    let g = graph(
        "name: w\ntasks:\n  - { name: a, command: [x] }\n  - { name: b, command: [x], gang: { size: 3 } }\n  - { name: c, command: [x], depends_on: [a, b] }\n",
    );
    assert_eq!(g.dep_count("a"), 0);
    assert_eq!(g.dep_count("c"), 2);
    assert_eq!(g.task_row_count(), 5);
    assert!(g.task_spec("nope").is_none());
}

// ── What holds across calls ──────────────────────────────────────────────────

const ONE: &str = "name: one\ntasks:\n  - { name: a, command: [x] }\n";

/// A store with one claimed task, and that claim.
fn claimed_one() -> (Store, TaskRun) {
    let mut db = Store::new();
    start(&mut db, ONE);
    advance(&mut db);
    let task = claim(&mut db, "w", 1).remove(0);
    (db, task)
}

#[test]
fn a_lost_claim_stays_lost_after_the_next() {
    let (mut db, first) = claimed_one();
    row(&mut db, &first.id).lease_expires_at = Some(LONG_AGO.into());
    assert_eq!(recover_expired_leases(&mut db, &clock()), 1);
    assert!(!succeed(&mut db, &first, None), "the row waits in the queue");
    let second = claim(&mut db, "w", 1).remove(0);
    assert!(!succeed(&mut db, &first, None), "the worker holds a later claim");
    assert!(!fail(&mut db, &first, "late"));
    assert!(succeed(&mut db, &second, None));
    assert_eq!(recover_expired_leases(&mut db, &clock()), 0, "nothing is left to recover");
}

#[test]
fn a_retried_task_waits_for_its_time() {
    let (mut db, task) = claimed_one();
    assert!(retry_task(&mut db, &task.id, "w", task.version + 1, Some("again".into()), at(3600)));
    assert!(claim(&mut db, "w", 1).is_empty());
    db.tasks[0].scheduled_at = Some(LONG_AGO.into());
    advance(&mut db);
    let again = claim(&mut db, "w", 1);
    assert_eq!(again.len(), 1);
    assert_eq!(again[0].output.as_deref(), Some("again"));
}

#[test]
fn an_end_releases_each_dependent_once() {
    let mut db = Store::new();
    start(
        &mut db,
        "name: d\ntasks:\n  - { name: a, command: [x] }\n  - { name: b, command: [x] }\n  - { name: c, command: [x], depends_on: [a, b] }\n",
    );
    assert_eq!(named(&db.tasks, "c").remaining_deps, 2);
    advance(&mut db);
    let claimed = claim(&mut db, "w", 10);
    assert!(succeed(&mut db, named(&claimed, "a"), None));
    assert_eq!(named(&db.tasks, "c").remaining_deps, 1);
    assert!(!succeed(&mut db, named(&claimed, "a"), None));
    assert_eq!(named(&db.tasks, "c").remaining_deps, 1, "a second end releases nothing");
}

#[test]
fn a_cached_success_is_marked() {
    let (mut db, task) = claimed_one();
    assert!(mark_task_succeeded_cached(
        &mut db,
        &task.id,
        "w",
        task.version + 1,
        Some("kept".into()),
        &clock()
    ));
    assert!(db.tasks[0].cache_hit);
    assert_eq!(db.tasks[0].output.as_deref(), Some("kept"));
}

#[test]
fn a_false_condition_skips_and_a_broken_one_fails() {
    let mut db = Store::new();
    start(
        &mut db,
        "name: c\ntasks:\n  - { name: no, command: [x], when: \"1 == 2\" }\n  - { name: yes, command: [x], when: \"1 == 1\" }\n  - { name: odd, command: [x], when: \"1 >< 2\" }\n",
    );
    advance(&mut db);
    assert_eq!(named(&db.tasks, "no").status, TaskStatus::Skipped);
    assert_eq!(named(&db.tasks, "yes").status, TaskStatus::Ready);
    assert_eq!(named(&db.tasks, "odd").status, TaskStatus::Failed);
}

#[test]
fn a_condition_reads_what_its_dependency_said() {
    let yaml = "name: c\ntasks:\n  - { name: a, command: [x] }\n  - { name: b, command: [x], depends_on: [a], when: \"{{ tasks.a.output }} == go\" }\n";
    for (said, state) in [("go\n", TaskStatus::Ready), ("stop", TaskStatus::Skipped)] {
        let mut db = Store::new();
        start(&mut db, yaml);
        advance(&mut db);
        let a = claim(&mut db, "w", 1).remove(0);
        succeed(&mut db, &a, Some(said));
        advance(&mut db);
        assert_eq!(named(&db.tasks, "b").status, state, "{said}");
    }
}

#[test]
fn oversized_gangs_are_reported() {
    let mut db = Store::new();
    start(&mut db, "name: g\ntasks:\n  - { name: a, command: [x], gang: { size: 4 } }\n");
    advance(&mut db);
    let gang = db.tasks[0].gang_id.clone().unwrap();
    assert_eq!(oversized_ready_gangs(&db, 3), vec![(gang, 4)]);
    assert!(oversized_ready_gangs(&db, 4).is_empty());
}

#[test]
fn a_released_trigger_can_be_claimed_again() {
    let mut db = Store::new();
    start(&mut db, "name: p\ntasks:\n  - { name: t, type: workflow, workflow: c }\n");
    advance(&mut db);
    let t = claim(&mut db, "w", 1).remove(0);
    assert!(!release_subworkflow_task(&mut db, &t.id, t.version), "an older fence");
    assert!(release_subworkflow_task(&mut db, &t.id, t.version + 1));
    assert_eq!(claim(&mut db, "w", 1).len(), 1);
}

#[test]
fn a_failed_child_fails_its_trigger() {
    let mut db = Store::new();
    start(&mut db, "name: p\ntasks:\n  - { name: t, type: workflow, workflow: c }\n");
    advance(&mut db);
    let t = claim(&mut db, "w", 1).remove(0);
    let child = start(&mut db, ONE);
    assert!(park_subworkflow(&mut db, &t.id, t.version + 1, &child));
    assert!(cancel_run(&mut db, &child, &clock()));
    assert_eq!(reconcile_subworkflows(&mut db, &clock()), vec![(t.id.clone(), false)]);
    assert_eq!(row(&mut db, &t.id).status, TaskStatus::Failed);
}

#[test]
fn a_run_and_its_source_position_are_stored_together() {
    let mut db = Store::new();
    assert_eq!(source_offset(&db, "stream"), None);
    let dag = graph(ONE);
    let seed = seed_for(&dag);
    let times = checked_run_stamp(&dag.spec, now(), &ClockStatus::drifted(-7, "step")).unwrap();
    let run =
        create_run_with_offset(&mut db, &dag, ONE, &seed, &times, "stream".into(), "42".into()).unwrap();
    assert_eq!(source_offset(&db, "stream").as_deref(), Some("42"));
    let stored = get_run(&db, &run).unwrap();
    assert_eq!(stored.clock_confidence.as_deref(), Some("drifted"));
    assert_eq!(stored.clock_offset_ms, Some(-7));
    assert_eq!(stored.clock_source.as_deref(), Some("step"));

    record_dead_letter_with_offset(&mut db, "dl", "junk", "bad", "stream", 1, "43", &clock());
    assert_eq!(source_offset(&db, "stream").as_deref(), Some("43"), "a poison message moves on too");
    assert_eq!(db.dead_letters.len(), 1);
}

#[test]
fn a_deadline_beyond_the_calendar_has_no_stamp() {
    let mut spec = spec_of(ONE);
    spec.run_timeout_secs = Some(u64::MAX);
    assert!(checked_run_stamp(&spec, now(), &ClockStatus::unknown()).is_none());
    spec.run_timeout_secs = Some(60);
    let made = Timestamp { secs: 0, nanos: 0 };
    let times = checked_run_stamp(&spec, made, &ClockStatus::unknown()).unwrap();
    assert_eq!(times.created_at, "1970-01-01T00:00:00+00:00");
    assert_eq!(times.deadline_at.as_deref(), Some("1970-01-01T00:01:00+00:00"));
    assert_eq!(times.alert_deadline_at, None);
}

#[test]
fn a_hand_made_graph_is_held_to_its_names() {
    let mut db = Store::new();
    let times = checked_run_stamp(&spec_of(ONE), now(), &ClockStatus::unknown()).unwrap();

    let mut twice = graph(ONE);
    twice.spec.tasks.push(task_of(&serde_yaml::from_str("{ name: a, command: [x] }").unwrap()));
    let seed = seed_for(&twice);
    assert_eq!(
        create_run(&mut db, &twice, ONE, &seed, &times),
        Err(CreateRunError::DuplicateTask { task: 1 })
    );

    let mut lost = graph(ONE);
    lost.spec.tasks[0].depends_on.push("ghost".into());
    let seed = seed_for(&lost);
    assert_eq!(
        create_run(&mut db, &lost, ONE, &seed, &times),
        Err(CreateRunError::UnknownDependency { task: 0, index: 0 })
    );
    assert!(db.runs.is_empty() && db.tasks.is_empty() && db.definitions.is_empty());
}

#[test]
fn queries_find_their_rows() {
    let mut db = Store::new();
    let yaml = "name: q\nenvironment: prod\ntasks:\n  - { name: a, command: [x] }\n";
    let run = start(&mut db, yaml);
    let task = db.tasks[0].id.clone();
    assert_eq!(workflow_name_for_run(&db, &run).as_deref(), Some("q"));
    assert_eq!(workflow_name_for_task(&db, &task).as_deref(), Some("q"));
    assert_eq!(spec_for_run(&db, &run).as_deref(), Some(yaml));
    assert_eq!(run_environment(&db, &run).as_deref(), Some("prod"));
    assert_eq!(task_input_json(&db, &task).as_deref(), Some("{\"row\":0}"));
    assert_eq!(workflow_name_for_run(&db, "nope"), None);
    assert_eq!(count_active_runs(&db), 1);
    assert_eq!(list_runs(&db, Some("wizardry"), 10).unwrap_err(), "invalid run status filter 'wizardry'");
    advance(&mut db);
    let backlog = ready_backlog_by_class(&db);
    assert_eq!(backlog.len(), 1);
    assert_eq!((backlog[0].runner_class.as_str(), backlog[0].count), ("default", 1));
    assert_eq!(backlog[0].oldest_scheduled_at, db.tasks[0].scheduled_at);
}

#[test]
fn a_run_is_complete_when_its_tasks_are() {
    let (mut db, task) = claimed_one();
    let run = db.runs[0].id.clone();
    assert_eq!(is_run_complete(&mut db, &run, &clock()), None);
    assert!(fail(&mut db, &task, "boom"));
    assert_eq!(is_run_complete(&mut db, &run, &clock()), Some(RunStatus::Failed));
    assert_eq!(db.runs[0].status, RunStatus::Failed);
    assert!(reap(&mut db).is_empty(), "a run ends once");
}

#[test]
fn a_tolerated_failure_does_not_fail_the_run() {
    let yaml = "name: w\ntasks:\n  - { name: a, command: [x], allow_failure: true }\n  - { name: b, command: [x] }\n";
    for b_fails in [false, true] {
        let mut db = Store::new();
        let run = start(&mut db, yaml);
        advance(&mut db);
        let claimed = claim(&mut db, "w", 2);
        for task in &claimed {
            if task.name == "a" || b_fails {
                assert!(fail(&mut db, task, "boom"));
            } else {
                assert!(succeed(&mut db, task, None));
            }
        }
        let want = if b_fails { RunStatus::Failed } else { RunStatus::Succeeded };
        assert_eq!(is_run_complete(&mut db, &run, &clock()), Some(want));
        assert_eq!(db.runs[0].status, want);
    }
}

#[test]
fn the_payload_of_an_event_is_json() {
    let (mut db, task) = claimed_one();
    assert!(succeed(&mut db, &task, None));
    reap(&mut db);
    let payload: serde_json::Value = serde_json::from_str(&db.outbox[0].payload).unwrap();
    assert_eq!(payload["run_id"], db.runs[0].id.as_str());
    assert_eq!(payload["status"], "succeeded");
    assert_eq!(payload.as_object().unwrap().len(), 2);
}

#[test]
fn an_event_is_retried_and_then_given_up() {
    let mut db = Store::new();
    enqueue_outbox_event(&mut db, "e", "r", "t", "{}", &clock());
    assert_eq!(claim_outbox_batch(&mut db, 1, &clock(), &at(30)).len(), 1);
    mark_outbox_failed(&mut db, "e", "no route", LONG_AGO);
    assert_eq!(db.outbox[0].attempts, 1);
    assert_eq!(db.outbox[0].last_error.as_deref(), Some("no route"));
    assert_eq!(claim_outbox_batch(&mut db, 1, &clock(), &at(30)).len(), 1);
    mark_outbox_dead(&mut db, "e", "gave up");
    assert_eq!(db.outbox[0].status, OutboxStatus::Dead);
    db.outbox[0].next_attempt_at = LONG_AGO.into();
    assert!(claim_outbox_batch(&mut db, 1, &clock(), &at(30)).is_empty());
}

#[test]
fn settings_and_environments_are_read() {
    let mut db = Store::new();
    db.settings.push(Setting { key: "theme".into(), value: "dark".into() });
    assert_eq!(ui_setting(&db, "theme").as_deref(), Some("dark"));
    assert_eq!(ui_setting(&db, "nope"), None);

    assert_eq!(environment_vars(&db, "prod"), Ok(None));
    db.environments.push(Environment {
        id: "e1".into(),
        name: "prod".into(),
        variables: "{\"B\":\"2\",\"A\":\"1\"}".into(),
    });
    let pairs = vec![("A".to_string(), "1".to_string()), ("B".to_string(), "2".to_string())];
    assert_eq!(environment_vars(&db, "prod"), Ok(Some(pairs)));
    db.environments[0].variables = "[]".into();
    assert!(environment_vars(&db, "prod").is_err());

    db.secrets.push(EnvironmentSecret {
        environment_id: "e1".into(),
        name: "TOK".into(),
        ciphertext: "sealed".into(),
    });
    assert_eq!(environment_secret(&db, "prod", "TOK").as_deref(), Some("sealed"));
    assert_eq!(environment_secret(&db, "dev", "TOK"), None);
}

#[test]
fn a_schedule_moves_on_and_may_be_skipped() {
    let mut db = Store::new();
    register(&mut db, "wf", "w", ONE);
    let mut schedule = hourly("s", "wf");
    schedule.next_fire_at = Some(LONG_AGO.into());
    db.schedules.push(schedule);
    let due = claim_due_schedules(&db, &clock());
    assert_eq!(due.len(), 1);
    assert_eq!(due[0].spec, ONE);

    advance_schedule(&mut db, "s", &at(3600), "fired");
    assert_eq!(db.schedules[0].last_fired_at.as_deref(), Some("fired"));
    assert!(claim_due_schedules(&db, &clock()).is_empty());
    advance_schedule_gated(&mut db, "s", LONG_AGO, &clock());
    assert_eq!(db.schedules[0].last_fired_at.as_deref(), Some("fired"), "a skipped fire leaves no mark");
    assert_eq!(claim_due_schedules(&db, &clock()).len(), 1);
}

fn backfill(id: &str) -> BackfillJob {
    BackfillJob {
        id: id.into(),
        schedule_id: "s".into(),
        cron_expr: "0 0 * * * *".into(),
        timezone: None,
        spec: ONE.into(),
        range_from: "a".into(),
        range_to: "z".into(),
        cursor: "a".into(),
        status: "running".into(),
        max_runs: None,
        requested: 3,
        fired: 0,
        created_at: LONG_AGO.into(),
        updated_at: LONG_AGO.into(),
    }
}

#[test]
fn a_backfill_runs_until_it_ends() {
    let mut db = Store::new();
    assert!(create_backfill(&mut db, backfill("j1")));
    assert_eq!(list_active_backfills(&db).len(), 1);
    advance_backfill(&mut db, "j1", "c", 2, &clock());
    let job = get_backfill(&db, "j1").unwrap();
    assert_eq!((job.cursor.as_str(), job.fired), ("c", 2));
    complete_backfill(&mut db, "j1", &clock());
    assert!(list_active_backfills(&db).is_empty());
    assert!(!cancel_backfill(&mut db, "j1", &clock()), "it has ended");
    assert_eq!(list_backfills(&db, Some("s"), 10).len(), 1);
    assert!(list_backfills(&db, Some("other"), 10).is_empty());

    assert!(claim_backfill_slot(&mut db, "s", "d", &clock()));
    record_backfill_run(&mut db, "s", "d", "r9");
    assert_eq!(db.slots[0].run_id.as_deref(), Some("r9"));
}

#[test]
fn a_failed_task_can_be_retried_by_hand() {
    let (mut db, task) = claimed_one();
    assert!(!retry_task_from_ui(&mut db, &task.id), "it is still running");
    assert!(fail(&mut db, &task, "boom"));
    assert!(retry_task_from_ui(&mut db, &task.id));
    assert!(db.tasks[0].version > task.version + 1, "older attempts are fenced");
}

#[test]
fn a_fire_is_stamped_with_its_run() {
    let mut db = Store::new();
    register(&mut db, "wf", "c", ONE);
    assert_eq!(list_registered_workflows(&db), vec![("c".to_string(), ONE.to_string())]);
    sync_dataset_triggers(&mut db, "c", &texts(&["lake://a"]), "any");
    stamp_dataset_trigger_fired(&mut db, "c", "r1", LONG_AGO);
    assert_eq!(db.triggers[0].last_fired_run_id.as_deref(), Some("r1"));
    assert_eq!(db.triggers[0].last_fired_at.as_deref(), Some(LONG_AGO));
}

#[test]
fn an_archived_run_is_indexed_compacted_and_purged() {
    let mut db = Store::new();
    let run = start(&mut db, ONE);
    let other = start(&mut db, ONE);
    set_run(&mut db, &run, RunStatus::Succeeded, Some(LONG_AGO));
    let archives = archivable_runs(&db, &clock(), 10).unwrap();
    assert_eq!(archives.len(), 1);
    assert_eq!(archives[0].run.id, run);
    assert_eq!(archives[0].definition_name, "one");
    assert_eq!(archives[0].tasks.len(), 1);

    index_archived_run(&mut db, &run, "one", "succeeded", None, Some(LONG_AGO.into()), &clock());
    assert_eq!(mark_runs_compacted(&mut db, &vec![run.clone()], "part-0", &clock()), 1);
    assert_eq!(mark_runs_compacted(&mut db, &texts(&["nope"]), "part-1", &clock()), 0);
    assert_eq!(db.archived[0].parquet_path.as_deref(), Some("part-0"));

    assert_eq!(purge_runs_by_id(&mut db, &vec![run.clone()]), 1);
    assert!(get_run(&db, &run).is_none());
    assert!(get_run(&db, &other).is_some(), "other runs are spared");
    assert!(db.tasks.iter().all(|t| t.run_id == other), "no orphans");
}

#[test]
fn dataset_listings_are_capped() {
    let mut db = Store::new();
    for uri in ["lake://a", "lake://b", "lake://a"] {
        record_external_dataset_event(&mut db, uri, &clock());
    }
    let events = list_dataset_events(&db, None, 2);
    assert_eq!(events.iter().map(|e| e.id).collect::<Vec<_>>(), vec![3, 2], "newest first");
    assert_eq!(list_dataset_events(&db, Some("lake://a"), 10).len(), 2);
    assert_eq!(list_datasets(&db, 1).len(), 1);
    assert_eq!(list_datasets(&db, 10).len(), 2);
}

#[test]
fn a_kept_subscription_keeps_its_cursor() {
    let mut db = Store::new();
    register(&mut db, "wf", "c", ONE);
    sync_dataset_triggers(&mut db, "c", &texts(&["lake://a"]), "any");
    record_external_dataset_event(&mut db, "lake://a", &clock());
    sync_dataset_triggers(&mut db, "c", &texts(&["lake://a", "lake://b"]), "any");
    assert_eq!(db.triggers.len(), 2);
    let fires = claim_due_dataset_triggers(&mut db);
    assert_eq!(fires.len(), 1, "the news from before the sync still counts");
    assert_eq!(fires[0].trigger_uri, "lake://a");
}

#[test]
fn an_expired_gate_may_be_approved() {
    let mut db = Store::new();
    start(
        &mut db,
        "name: g\ntasks:\n  - { name: a, type: approval, approval_timeout_secs: 60, approval_on_timeout: approve }\n",
    );
    advance(&mut db);
    db.tasks[0].scheduled_at = Some(at(-61));
    let id = db.tasks[0].id.clone();
    assert_eq!(resolve_expired_approvals(&mut db, now(), &clock()), vec![(id, true)]);
    assert_eq!(db.tasks[0].status, TaskStatus::Succeeded);
}

#[test]
fn a_memo_is_usable_up_to_any_age() {
    let mut db = Store::new();
    let t = now();
    memo_store(&mut db, "wf", "t", "k", "out", &stamp(t));
    for max in [0, 1, i64::MAX as u64, i64::MAX as u64 + 1, u64::MAX] {
        assert_eq!(memo_lookup(&db, "wf", "t", "k", Some(max), t).as_deref(), Some("out"), "{max}");
    }
    let later = Timestamp { secs: t.secs + 60, nanos: t.nanos };
    assert_eq!(memo_lookup(&db, "wf", "t", "k", Some(60), later).as_deref(), Some("out"));
    assert_eq!(memo_lookup(&db, "wf", "t", "k", Some(59), later), None);
}

#[test]
fn a_gate_may_wait_longer_than_the_clock_counts() {
    let mut db = Store::new();
    start(
        &mut db,
        "name: g\ntasks:\n  - { name: a, type: approval, approval_timeout_secs: 18446744073709551615 }\n  - { name: b, type: approval, approval_timeout_secs: 60 }\n",
    );
    assert_eq!(db.tasks[0].approval_timeout_secs, Some(i64::MAX));
    advance(&mut db);
    db.tasks[1].scheduled_at = Some(at(-61));
    let other = db.tasks[1].id.clone();
    let decided = resolve_expired_approvals(&mut db, now(), &clock());
    assert_eq!(decided, vec![(other, false)], "the gates beside it are decided");
    assert_eq!(db.tasks[0].status, TaskStatus::AwaitingApproval);
    db.tasks[0].approval_timeout_secs = Some(i64::MIN);
    assert_eq!(resolve_expired_approvals(&mut db, now(), &clock()).len(), 1);
}

#[test]
fn a_claim_names_only_what_it_took() {
    let mut db = Store::new();
    register_source_partitions(&mut db, "s", &texts(&["p2", "p0", "p1"]), &clock());
    let (t, until) = (clock(), at(30));
    let first = claim_source_partitions(&mut db, "s", "w", 2, &t, &until);
    assert_eq!(first, texts(&["p0", "p2"]));
    let second = claim_source_partitions(&mut db, "s", "w", 10, &t, &until);
    assert_eq!(second, texts(&["p1"]), "the same lease, but new partitions only");
    assert!(claim_source_partitions(&mut db, "s", "w", 10, &t, &until).is_empty());
    assert_eq!(held_source_partitions(&db, "s", "w").len(), 3);
}

#[test]
fn a_claim_is_leased_from_its_instant() {
    let yaml = "name: w\ntasks:\n  - { name: a, command: [x] }\n  - { name: b, command: [x] }\n  - { name: g, command: [x], gang: { size: 2 } }\n  - { name: z, command: [x] }\n";
    let mut db = Store::new();
    start(&mut db, yaml);
    advance(&mut db);
    let t = now();
    let until = stamp_in(t, 45).unwrap();
    let lease_of = |db: &Store, id: &str| {
        db.tasks.iter().find(|r| r.id == id).unwrap().lease_expires_at.clone()
    };

    assert!(claim_ready_for(&mut db, "w", 1, t, i64::MAX).is_none(), "no such instant");
    assert!(db.tasks.iter().all(|r| r.claimed_by.is_none()));

    let gang = claim_ready_gang_for(&mut db, "w", 8, &Vec::new(), &no_caps(), t, 45).unwrap();
    assert_eq!(gang.len(), 2);
    let one = claim_ready_for(&mut db, "w", 1, t, 45).unwrap();
    let two = claim_ready_classes_for(&mut db, "w", 1, &Vec::new(), &no_caps(), t, 45).unwrap();
    let three = claim_ready_classes_nongang_for(&mut db, "w", 9, &Vec::new(), &no_caps(), t, 45).unwrap();
    assert_eq!((one.len(), two.len(), three.len()), (1, 1, 1));
    for row in gang.iter().chain(&one).chain(&two).chain(&three) {
        assert_eq!(lease_of(&db, &row.id).as_deref(), Some(until.as_str()), "{}", row.name);
    }

    let fence = db.tasks.iter().find(|r| r.id == one[0].id).unwrap().version;
    assert_eq!(renew_task_lease_for(&mut db, &one[0].id, "w", fence, t, 90), Some(true));
    assert_eq!(lease_of(&db, &one[0].id), stamp_in(t, 90));
    assert_eq!(renew_task_lease_for(&mut db, &one[0].id, "w", fence, t, i64::MAX), None);
}

#[test]
fn other_leases_run_from_their_instant() {
    let mut db = Store::new();
    let t = now();
    let until = stamp_in(t, 45).unwrap();

    register_source_partitions(&mut db, "s", &texts(&["p0", "p1"]), &stamp(t));
    assert_eq!(claim_source_partitions_for(&mut db, "s", "w", 1, t, 45), Some(texts(&["p0"])));
    assert_eq!(db.partitions[0].lease_expires_at.as_deref(), Some(until.as_str()));
    assert_eq!(renew_source_partitions_for(&mut db, "s", "w", t, 90), Some(1));
    assert_eq!(db.partitions[0].lease_expires_at, stamp_in(t, 90));
    assert_eq!(claim_source_partitions_for(&mut db, "s", "w", 1, t, i64::MAX), None);
    assert_eq!(renew_source_partitions_for(&mut db, "s", "w", t, i64::MAX), None);

    enqueue_outbox_event(&mut db, "e", "r", "t", "{}", &stamp(t));
    assert!(claim_outbox_batch_for(&mut db, 5, t, i64::MAX).is_none());
    assert_eq!(claim_outbox_batch_for(&mut db, 5, t, 45).unwrap().len(), 1);
    assert_eq!(db.outbox[0].next_attempt_at, until);

    assert_eq!(try_acquire_leadership_for(&mut db, "role", "h", t, i64::MAX), None);
    assert_eq!(try_acquire_leadership_for(&mut db, "role", "h", t, 45), Some(true));
    assert_eq!(db.leaders[0].lease_expires_at, until);
    assert_eq!(try_acquire_leadership_for(&mut db, "role", "other", t, 45), Some(false));
}

#[test]
fn starved_tasks_move_by_the_clock() {
    let mut db = Store::new();
    start(&mut db, ONE);
    advance(&mut db);
    let t = now();
    db.tasks[0].scheduled_at = stamp_in(t, -60);
    assert_eq!(reclass_ready_tasks_for(&mut db, "default", "burst", t, 61, 99), Some(0));
    assert_eq!(reclass_ready_tasks_for(&mut db, "default", "burst", t, i64::MIN, 99), None);
    assert_eq!(reclass_ready_tasks_for(&mut db, "default", "burst", t, 60, 99), Some(1));
    assert_eq!(db.tasks[0].runner_class, "burst");

    db.runs[0].deadline_at = stamp_in(t, 30);
    assert_eq!(reclass_ready_tasks_near_deadline_for(&mut db, "burst", "urgent", t, 29), Some(0));
    assert_eq!(reclass_ready_tasks_near_deadline_for(&mut db, "burst", "urgent", t, i64::MAX), None);
    assert_eq!(reclass_ready_tasks_near_deadline_for(&mut db, "burst", "urgent", t, 30), Some(1));
    assert_eq!(db.tasks[0].runner_class, "urgent");
}

#[test]
fn overrides_take_the_place_of_parameters() {
    let spec = spec_of("name: w\nparameters: { day: monday, region: eu }\ntasks:\n  - { name: a, command: [x] }\n");
    let mut overrides = TextMap::new();
    overrides.insert("day".to_string(), "friday".to_string());
    overrides.insert("extra".to_string(), "1".to_string());
    let spec = with_overrides(spec, &overrides);
    let got: Vec<(&str, &str)> =
        spec.parameters.entries.iter().map(|(k, v)| (k.as_str(), v.as_str())).collect();
    assert_eq!(got, [("day", "friday"), ("extra", "1"), ("region", "eu")]);
    assert_eq!(spec.name, "w");
    assert_eq!(spec.tasks.len(), 1);
}

#[test]
fn a_sweep_fires_each_due_workflow_once() {
    let mut db = Store::new();
    for name in ["zeta", "both", "any", "idle"] {
        register(&mut db, name, name, ONE);
    }
    sync_dataset_triggers(&mut db, "zeta", &texts(&["lake://a"]), "any");
    sync_dataset_triggers(&mut db, "both", &texts(&["lake://a", "lake://c"]), "all");
    sync_dataset_triggers(&mut db, "any", &texts(&["lake://b", "lake://a"]), "any");
    sync_dataset_triggers(&mut db, "idle", &texts(&["lake://c"]), "any");
    for uri in ["lake://a", "lake://b", "lake://a"] {
        record_external_dataset_event(&mut db, uri, &clock());
    }
    let (a, b) = (3, 2);
    let fires = claim_due_dataset_triggers(&mut db);
    let names: Vec<&str> = fires.iter().map(|f| f.workflow_name.as_str()).collect();
    assert_eq!(names, ["any", "zeta"], "one fire each, and none of a workflow that waits");
    assert_eq!(
        fires[0].advanced,
        [("lake://a".to_string(), 0, a), ("lake://b".to_string(), 0, b)],
        "each fresh dataset, from the cursor to its newest event"
    );
    assert_eq!(fires[1].advanced, [("lake://a".to_string(), 0, a)]);
    for t in &db.triggers {
        let moved = t.workflow_name == "any" || t.workflow_name == "zeta";
        let newest = if t.uri == "lake://a" { a } else { b };
        assert_eq!(t.cursor, if moved { newest } else { 0 }, "{} {}", t.workflow_name, t.uri);
    }
    assert!(claim_due_dataset_triggers(&mut db).is_empty(), "the next sweep finds nothing");
}

#[test]
fn a_failed_member_takes_every_open_sibling_with_it() {
    let mut db = Store::new();
    start(&mut db, "name: w\ntasks:\n  - { name: g, command: [x], gang: { size: 7 } }\n");
    let states = [
        TaskStatus::Failed,
        TaskStatus::Pending,
        TaskStatus::Ready,
        TaskStatus::Running,
        TaskStatus::AwaitingApproval,
        TaskStatus::Succeeded,
        TaskStatus::Skipped,
    ];
    for (row, status) in db.tasks.iter_mut().zip(states) {
        row.status = status;
    }
    let failed = db.tasks[0].id.clone();
    assert_eq!(cancel_gang_siblings(&mut db, &failed, &clock()), 4);
    let after: Vec<TaskStatus> = db.tasks.iter().map(|t| t.status).collect();
    assert_eq!(after[0], TaskStatus::Failed);
    assert!(after[1..5].iter().all(|s| *s == TaskStatus::Cancelled));
    assert_eq!(after[5..], [TaskStatus::Succeeded, TaskStatus::Skipped]);
    assert_eq!(cancel_gang_siblings(&mut db, &failed, &clock()), 0);
}

#[test]
fn a_gang_never_overfills_its_pool() {
    let yaml = "name: w\ntasks:\n  - { name: a, command: [x], pool: gpu }\n  - { name: g, command: [x], pool: gpu, gang: { size: 3 } }\n";
    let running = |db: &Store| {
        db.tasks.iter().filter(|t| t.pool.as_deref() == Some("gpu") && t.status == TaskStatus::Running).count()
    };
    for cap in 0..6 {
        let mut db = Store::new();
        start(&mut db, yaml);
        advance(&mut db);
        claim_single(&mut db, 1, &caps("gpu", cap));
        let before = running(&db);
        let gang = claim_gang(&mut db, 8, &caps("gpu", cap));
        assert_eq!(gang.len(), if cap >= 4 { 3 } else { 0 }, "capacity {cap}");
        assert!(running(&db) <= before.max(cap as usize));
    }
}

#[test]
fn workflow_types_can_be_copied_and_shown() {
    let spec = spec_of("name: w\nparameters: { day: monday }\ntasks:\n  - { name: a, command: [x], repeat: { until: done, max_iterations: 3 } }\n");
    let copy = spec.clone();
    assert_eq!(copy.parameters, spec.parameters);
    assert_eq!(format!("{copy:?}"), format!("{spec:?}"));
    let none = ResourceRequirements::default();
    assert!(none.requests.entries.is_empty() && none.limits.entries.is_empty() && none.gpu.is_none());
    assert_eq!(RunBudget::default().tasks, None);
    let defaults = TaskDefaults::default();
    assert!(defaults.env.is_empty() && defaults.max_attempts.is_none() && defaults.pool.is_none());
}
