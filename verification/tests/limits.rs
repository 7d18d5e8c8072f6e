use dagron_core::attempt_log::{AttemptEnd, Policy, DEFAULT_BYTES, DEFAULT_KEEP, MAX_BYTES, MAX_READ};
use dagron_core::clock::{current, publish, Clock, ClockConfidence, ClockStatus};
use dagron_core::duration::{duration_message, parse_duration_secs, DurationFault};
use dagron_core::expand::{eval_when, substitute};
use dagron_core::fault::FaultClass;
use dagron_core::host::{free_bytes, lease_secs};
use dagron_core::jsonpred::{check_path, check_predicate};
use dagron_core::labels::{
    label_message, validate_dataset_uri, validate_pool, validate_runner_class, validate_tag, LabelFault,
    LabelKind,
};
use dagron_core::models::{trigger_rule_ready, RunStatus, TaskStatus};
use dagron_core::retention::document_name;
use dagron_core::text_map::TextMap;
use dagron_core::time::{now, stamp, stamp_in, Timestamp, FIRST_SECOND, LAST_SECOND};
use dagron_core::workflow::{delayed_retry_at, parse_handle, retry_at, RepeatDecision, RepeatSpec};

#[test]
fn a_short_output_is_stored_whole_and_not_marked_truncated() {
    let p = Policy { bytes: 16, keep: 5 };
    assert_eq!(p.tail("hello"), ("hello", false));
    // Exactly at the cap is still whole: the boundary belongs to "kept".
    assert_eq!(p.tail("0123456789abcdef"), ("0123456789abcdef", false));
}

#[test]
fn the_tail_is_kept_not_the_head() {
    let p = Policy { bytes: 4, keep: 5 };
    let (kept, truncated) = p.tail("abcdefghij");
    assert_eq!(kept, "ghij", "the end is what says why the loop stopped");
    assert!(truncated);
}

#[test]
fn the_cut_never_splits_a_character() {
    // 4 bytes of a 3-byte scalar: the cut has to move forward.
    let s = "aa€€"; // 2 + 3 + 3 = 8 bytes
    let p = Policy { bytes: 4, keep: 5 };
    let (kept, truncated) = p.tail(s);
    assert_eq!(kept, "€", "moved forward to the boundary");
    assert!(kept.len() <= 4, "never exceeds the cap");
    assert!(truncated);
    assert!(std::str::from_utf8(kept.as_bytes()).is_ok());
}

#[test]
fn zero_bytes_is_a_complete_opt_out() {
    assert!(!Policy { bytes: 0, keep: 50 }.enabled());
    assert!(Policy::default().enabled());
}

#[test]
fn eviction_is_a_prefix_and_only_once_the_window_is_full() {
    let p = Policy { bytes: 4096, keep: 3 };
    // Nothing to drop until more than `keep` attempts exist.
    assert_eq!(p.evict_below(1), None);
    assert_eq!(p.evict_below(3), None);
    // Attempt 4 stored, so attempt 1 falls out.
    assert_eq!(p.evict_below(4), Some(1));
    assert_eq!(p.evict_below(10), Some(7));
}

#[test]
fn keep_zero_means_unlimited_and_never_evicts() {
    let p = Policy { bytes: 4096, keep: 0 };
    assert_eq!(p.evict_below(1_000_000), None);
}

#[test]
fn a_huge_keep_cannot_underflow_into_deleting_everything() {
    let p = Policy { bytes: 4096, keep: usize::MAX };
    assert_eq!(p.evict_below(5), None, "saturating, not wrapping");
}

#[test]
fn the_byte_knob_cannot_widen_past_the_compiled_ceiling() {
    assert_eq!(Policy::from_env(Some("999999999"), None).bytes, MAX_BYTES);
    assert_eq!(Policy::from_env(Some("not a number"), None).bytes, DEFAULT_BYTES, "a typo is not fatal");
    assert!(!Policy::from_env(Some("0"), None).enabled(), "0 still turns it off");
}

#[test]
fn the_environment_sets_both_knobs() {
    assert_eq!(Policy::from_env(None, None), Policy { bytes: 4096, keep: 50 });
    assert_eq!(Policy::from_env(Some(" 100 "), Some("+7")), Policy { bytes: 100, keep: 7 });
    assert_eq!(Policy::from_env(Some("-1"), Some("")), Policy { bytes: DEFAULT_BYTES, keep: DEFAULT_KEEP });
    assert_eq!(Policy::from_env(None, Some("18446744073709551616")).keep, DEFAULT_KEEP);
    assert_eq!(MAX_READ, 200);
    assert_eq!(AttemptEnd::Iteration.as_str(), "iteration");
    assert_eq!(AttemptEnd::Failed.as_str(), "failed");
}

#[test]
fn constructors_shape_the_status() {
    let u = ClockStatus::unknown();
    assert_eq!(u, ClockStatus::default());
    assert_eq!(u.confidence, ClockConfidence::Unknown);
    assert_eq!((u.offset_ms, u.source), (None, None));

    let s = ClockStatus::synced("sync-file");
    assert_eq!(s.confidence, ClockConfidence::Synced);
    assert_eq!(s.offset_ms, None, "synced is not a measurement");
    assert_eq!(s.source.as_deref(), Some("sync-file"));

    let d = ClockStatus::drifted(-90_000, "behind-datastore");
    assert_eq!(d.confidence, ClockConfidence::Drifted);
    assert_eq!(d.offset_ms, Some(-90_000), "sign is preserved");
    assert_eq!(d.source.as_deref(), Some("behind-datastore"));
}

#[test]
fn publish_replaces_and_current_reads_back() {
    let mut clock = Clock::new();
    publish(&mut clock, ClockStatus::unknown());
    assert_eq!(current(&clock), ClockStatus::unknown());

    publish(&mut clock, ClockStatus::drifted(1_500, "step"));
    assert_eq!(current(&clock), ClockStatus::drifted(1_500, "step"));

    // A later verdict replaces every field: a stale offset never survives a
    // verdict that has none.
    publish(&mut clock, ClockStatus::synced("sync-file"));
    let now = current(&clock);
    assert_eq!(now.confidence, ClockConfidence::Synced);
    assert_eq!(now.offset_ms, None);

    publish(&mut clock, ClockStatus::unknown());
    assert_eq!(current(&clock), ClockStatus::unknown());
}

#[test]
fn clock_confidence_has_its_words() {
    assert_eq!(ClockConfidence::Synced.as_str(), "synced");
    assert_eq!(ClockConfidence::Drifted.as_str(), "drifted");
    assert_eq!(ClockConfidence::Unknown.as_str(), "unknown");
}

#[test]
fn a_satisfied_condition_ends_the_loop() {
    let rep = RepeatSpec { until: "{{ output }} == done".into(), max_iterations: 5, delay_secs: 0 };
    assert_eq!(rep.decide("done", 1), RepeatDecision::Done);
    // Trimmed before comparison.
    assert_eq!(rep.decide("done\n", 3), RepeatDecision::Done);
}

#[test]
fn an_unsatisfied_condition_asks_for_another_iteration() {
    let rep = RepeatSpec { until: "{{ output }} == done".into(), max_iterations: 5, delay_secs: 7 };
    assert_eq!(rep.decide("continue", 1), RepeatDecision::Again { delay_secs: 7 });
    assert_eq!(rep.decide("continue", 4), RepeatDecision::Again { delay_secs: 7 });
}

#[test]
fn exhausting_the_iterations_fails_and_says_what_it_last_saw() {
    let rep = RepeatSpec { until: "{{ output }} == done".into(), max_iterations: 5, delay_secs: 0 };
    let RepeatDecision::Fail { reason } = rep.decide("still going", 5) else {
        panic!("the last iteration must fail, not repeat forever");
    };
    assert!(reason.contains("not satisfied after 5 iterations"), "got: {reason}");
    assert!(reason.contains("still going"), "the last output has to be in the reason");
}

#[test]
fn an_unevaluable_condition_fails_immediately() {
    let rep = RepeatSpec { until: "{{ output }} >< done".into(), max_iterations: 40, delay_secs: 0 };
    let d = rep.decide("anything", 1);
    assert!(
        matches!(&d, RepeatDecision::Fail { reason } if reason.contains("failed to evaluate")),
        "got: {d:?}"
    );
}

#[test]
fn a_loop_can_read_its_own_iteration() {
    let rep = RepeatSpec { until: "{{ attempt }} >= 3".into(), max_iterations: 9, delay_secs: 2 };
    assert_eq!(rep.decide("", 2), RepeatDecision::Again { delay_secs: 2 });
    assert_eq!(rep.decide("", 3), RepeatDecision::Done);
}

#[test]
fn duration_parser_units_and_errors() {
    assert_eq!(parse_duration_secs("90s").unwrap(), 90);
    assert_eq!(parse_duration_secs("45m").unwrap(), 2700);
    assert_eq!(parse_duration_secs("2h").unwrap(), 7200);
    assert_eq!(parse_duration_secs("1d").unwrap(), 86_400);
    assert_eq!(parse_duration_secs("120").unwrap(), 120); // bare = seconds
    assert!(parse_duration_secs("0").is_err());
    assert!(parse_duration_secs("").is_err());
    assert!(parse_duration_secs("abc").is_err());
}

#[test]
fn parse_handle_takes_the_last_line_and_rejects_empty() {
    assert_eq!(parse_handle("dagron::handle=abc").as_deref(), Some("abc"));
    assert_eq!(
        parse_handle("submitting...\ndagron::handle=run-1\n").as_deref(),
        Some("run-1"),
        "a step may log before the handle"
    );
    assert_eq!(
        parse_handle("dagron::handle=stale\nretrying\ndagron::handle=fresh").as_deref(),
        Some("fresh"),
        "last wins: an echoed earlier attempt must not become the handle"
    );
    assert_eq!(parse_handle("  dagron::handle=  spaced  ").as_deref(), Some("spaced"));
    assert_eq!(parse_handle("dagron::handle=").as_deref(), None, "empty is no handle");
    assert_eq!(parse_handle("dagron::handle=   ").as_deref(), None);
    assert_eq!(parse_handle("no handle here").as_deref(), None);
}

#[test]
fn durations_refuse_what_they_cannot_hold() {
    let huge = "99999999999999999999d";
    let fault: DurationFault = parse_duration_secs(huge).unwrap_err();
    assert!(!duration_message(fault, huge).is_empty());
    assert!(parse_duration_secs("18446744073709551615d").is_err());
    assert_eq!(parse_duration_secs("  7s "), Ok(7));
}

#[test]
fn labels_keep_to_their_characters() {
    assert!(validate_pool("gpu_1").is_ok());
    assert!(validate_pool("GPU").is_err());
    assert!(validate_tag("Team.Data").is_ok());
    assert!(validate_runner_class("other").is_err());
    assert!(validate_pool("other").is_ok());
    assert!(validate_dataset_uri("s3://lake/orders").is_ok());
    assert!(validate_dataset_uri("has space").is_err());
    assert!(validate_dataset_uri("").is_err());
    assert!(validate_dataset_uri(&"x".repeat(513)).is_err());
    assert!(validate_dataset_uri(&"x".repeat(512)).is_ok());
}

#[test]
fn a_dataset_uri_counts_characters() {
    assert!(validate_dataset_uri(&"é".repeat(300)).is_ok(), "600 bytes, but 300 characters");
    assert!(validate_dataset_uri(&"é".repeat(512)).is_ok());
    let long = "é".repeat(513);
    let fault = validate_dataset_uri(&long).unwrap_err();
    assert_eq!(fault, LabelFault::BadLength { length: 513 });
    assert_eq!(
        label_message(LabelKind::Dataset, fault, &long),
        format!("dataset URI must be 1-512 characters, got 513 ('{long}')")
    );
    assert_eq!(validate_dataset_uri(""), Err(LabelFault::BadLength { length: 0 }));
}

#[test]
fn a_lease_has_a_default_and_a_floor() {
    assert_eq!(lease_secs(None), 30);
    assert_eq!(lease_secs(Some("12")), 12);
    assert_eq!(lease_secs(Some(" 5 ")), 5);
    assert_eq!(lease_secs(Some("1")), 3);
    assert_eq!(lease_secs(Some("-40")), 3);
    assert_eq!(lease_secs(Some("soon")), 30);
    assert_eq!(lease_secs(Some("9223372036854775808")), 30);
}

#[test]
fn free_space_saturates() {
    assert_eq!(free_bytes(3, 4096), 12288);
    assert_eq!(free_bytes(0, 4096), 0);
    assert_eq!(free_bytes(u64::MAX, 2), u64::MAX);
}

#[test]
fn a_document_is_named_after_its_run() {
    assert_eq!(document_name("r2"), "run-r2.json");
}

#[test]
fn instants_have_their_texts() {
    let t = Timestamp { secs: 0, nanos: 0 };
    assert_eq!(stamp(t), "1970-01-01T00:00:00+00:00");
    assert_eq!(stamp_in(t, 90).as_deref(), Some("1970-01-01T00:01:30+00:00"));
    assert_eq!(stamp_in(t, -60).as_deref(), Some("1969-12-31T23:59:00+00:00"));
    assert_eq!(stamp_in(t, i64::MAX), None);
    assert_eq!(stamp_in(t, i64::MIN), None);
    assert!(stamp(now()).as_str() > "2020-01-01T00:00:00+00:00");
}

#[test]
fn a_retry_is_never_further_off_than_a_year() {
    let t = Timestamp { secs: 0, nanos: 0 };
    assert_eq!(retry_at(t, 5), "1970-01-01T00:00:05+00:00");
    assert_eq!(retry_at(t, u64::MAX), "1971-01-01T00:00:00+00:00");
    let last = Timestamp { secs: LAST_SECOND, nanos: 0 };
    assert_eq!(retry_at(last, 5), stamp(last));
    assert!(delayed_retry_at(u64::MAX).as_str() > stamp(now()).as_str());
}

#[test]
fn the_calendar_has_two_ends() {
    let first = Timestamp { secs: FIRST_SECOND, nanos: 0 };
    assert_eq!(stamp(first), "-262143-01-01T00:00:00+00:00");
    assert_eq!(stamp_in(first, -1), None);
    let last = Timestamp { secs: LAST_SECOND, nanos: 0 };
    assert_eq!(stamp(last), "+262142-12-31T23:59:59+00:00");
    assert_eq!(stamp_in(last, 1), None);
    assert_eq!(stamp_in(last, -59).as_deref(), Some("+262142-12-31T23:59:00+00:00"));
    assert_eq!(stamp_in(first, LAST_SECOND - FIRST_SECOND), Some(stamp(last)));
}

#[test]
fn states_are_read_back_as_they_were_written() {
    for s in [
        TaskStatus::Pending,
        TaskStatus::Ready,
        TaskStatus::Running,
        TaskStatus::AwaitingApproval,
        TaskStatus::Succeeded,
        TaskStatus::Failed,
        TaskStatus::Skipped,
        TaskStatus::Cancelled,
    ] {
        assert_eq!(TaskStatus::parse(s.as_str()), Some(s));
    }
    for s in [
        RunStatus::Pending,
        RunStatus::Running,
        RunStatus::Succeeded,
        RunStatus::Failed,
        RunStatus::Cancelled,
    ] {
        assert_eq!(RunStatus::parse(s.as_str()), Some(s));
    }
    assert_eq!(RunStatus::parse("skipped"), None);
    assert!(TaskStatus::Skipped.is_terminal() && !TaskStatus::AwaitingApproval.is_terminal());
    assert!(RunStatus::Cancelled.is_terminal() && !RunStatus::Running.is_terminal());
}

#[test]
fn trigger_rules_read_their_dependencies() {
    let (won, lost, skipped) = (TaskStatus::Succeeded, TaskStatus::Failed, TaskStatus::Skipped);
    for (rule, deps, runs) in [
        ("all_success", vec![won, won], true),
        ("all_success", vec![won, skipped], false),
        ("all_done", vec![lost, skipped], true),
        ("one_failed", vec![won, lost], true),
        ("one_failed", vec![won, skipped], false),
        ("all_failed", vec![lost, lost], true),
        ("all_failed", vec![lost, won], false),
        ("none_failed", vec![won, skipped], true),
        ("none_failed", vec![won, lost], false),
        ("all_success", vec![], true),
    ] {
        assert_eq!(trigger_rule_ready(rule, &deps), runs, "{rule} {deps:?}");
    }
}

#[test]
fn fault_classes_have_one_canonical_spelling() {
    for key in ["gpu-ecc", "fabric-ib", "nan-loss", "checkpoint-corrupt", "cancelled", "unknown"] {
        assert_eq!(FaultClass::parse(key).as_str(), key);
    }
    assert_eq!(FaultClass::parse("GPU_ECC"), FaultClass::GpuEcc);
    assert_eq!(FaultClass::parse("canceled"), FaultClass::Cancelled);
    assert_eq!(FaultClass::parse("gremlins"), FaultClass::Unknown);
}

#[test]
fn placeholders_are_filled_where_they_are_bound() {
    let mut ctx = TextMap::new();
    ctx.insert("a".to_string(), "1".to_string());
    assert_eq!(substitute("x {{ a }} {{b}} {{a}}{{", &ctx), "x 1 {{b}} 1{{");
    assert_eq!(substitute("", &ctx), "");
}

#[test]
fn conditions_compare_texts_and_whole_numbers() {
    assert_eq!(eval_when("go == go"), Ok(true));
    assert_eq!(eval_when("go != go"), Ok(false));
    assert_eq!(eval_when(" 10 >= 9 "), Ok(true));
    assert_eq!(eval_when("-3 < 2"), Ok(true));
    assert!(eval_when("a < 2").is_err());
    assert_eq!(eval_when("false"), Ok(false));
    assert_eq!(eval_when("yes"), Ok(true));
}

#[test]
fn predicates_and_paths_are_held_to_their_form() {
    assert!(check_predicate("a.b == DONE").is_none());
    assert!(check_predicate("a.b in [X, Y]").is_none());
    assert!(check_predicate("a.b").is_some());
    assert!(check_path("a.b").is_none());
    assert!(check_path("a..b").is_some());
}
