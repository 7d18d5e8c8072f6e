//! The words and numbers that the engine speaks in: states, fault classes,
//! predicates, loops, handles, limits, settings and times.
use vstd::prelude::*;
use crate::attempt_log::{longest_tail, setting, AttemptEnd, Policy};
use crate::clock::{unassessed, ClockConfidence};
use crate::decimal::{decimal, signed_decimal, signed_number, unsigned_number};
use crate::fault::{class_of, folded, folded_char, is_canonical, FaultClass};
use crate::host::asked_lease;
use crate::jsonpred::{path_fault, predicate_fault, PredicateError};
use crate::laws::text::{law_no_number_without_digits, law_numbers_read_back, law_search_finds_the_first};
use crate::models::{rule_ready, RunStatus, TaskStatus};
use crate::store::{due, past};
use crate::text::{blank, first_at, lex_lt, split_on, trimmed};
use crate::time::{elapsed, shifted, Timestamp};
use crate::workflow::{
    cancel_verb, capped_delay, declared_handle, last_handle, repeat_bindings, retry_text, DeferHttpCancel,
    GpuRequest, RepeatOutcome, RepeatSpec, ResourceRequirements, TaskSpec,
};

verus! {

// ── States ───────────────────────────────────────────────────────────────────

/// The texts of the states, and the states that are ends.
pub proof fn law_states_read_as_their_names(r: RunStatus, t: TaskStatus, e: AttemptEnd)
    ensures
        r.text() == (match r {
            RunStatus::Pending => "pending"@,
            RunStatus::Running => "running"@,
            RunStatus::Succeeded => "succeeded"@,
            RunStatus::Failed => "failed"@,
            RunStatus::Cancelled => "cancelled"@,
        }),
        r.terminal() <==> r != RunStatus::Pending && r != RunStatus::Running,
        t.text() == (match t {
            TaskStatus::Pending => "pending"@,
            TaskStatus::Ready => "ready"@,
            TaskStatus::Running => "running"@,
            TaskStatus::AwaitingApproval => "awaiting_approval"@,
            TaskStatus::Succeeded => "succeeded"@,
            TaskStatus::Failed => "failed"@,
            TaskStatus::Skipped => "skipped"@,
            TaskStatus::Cancelled => "cancelled"@,
        }),
        t.terminal() <==> t != TaskStatus::Pending && t != TaskStatus::Ready && t != TaskStatus::Running && t
            != TaskStatus::AwaitingApproval,
        e.text() == (match e {
            AttemptEnd::Iteration => "iteration"@,
            AttemptEnd::Failed => "failed"@,
        }),
{
}

/// A trigger rule looks at how the dependencies ended: whether any failed, all
/// failed, none failed, or all succeeded; `all_done` asks nothing. Any other text
/// counts as `all_success`.
pub proof fn law_trigger_rule_decides(rule: Seq<char>, deps: Seq<TaskStatus>)
    ensures
        ({
            let failed = exists|i: int| 0 <= i < deps.len() && #[trigger] deps[i] == TaskStatus::Failed;
            &&& rule_ready("all_done"@, deps)
            &&& rule_ready("one_failed"@, deps) <==> failed
            &&& rule_ready("none_failed"@, deps) <==> !failed
            &&& rule_ready("all_failed"@, deps) <==> forall|i: int|
                0 <= i < deps.len() ==> #[trigger] deps[i] == TaskStatus::Failed
            &&& rule != "all_done"@ && rule != "one_failed"@ && rule != "none_failed"@ && rule
                != "all_failed"@ ==> (rule_ready(rule, deps) <==> forall|i: int|
                0 <= i < deps.len() ==> #[trigger] deps[i] == TaskStatus::Succeeded)
        }),
{
    reveal_strlit("all_done");
    reveal_strlit("one_failed");
    reveal_strlit("none_failed");
    reveal_strlit("all_failed");
    assert("all_failed"@[0] != "one_failed"@[0]);
    assert("none_failed"@.len() != "one_failed"@.len());
    assert("none_failed"@.len() != "all_failed"@.len());
}

/// Nothing is known of a clock that nothing has looked at, and the verdicts on a
/// clock have these names.
pub proof fn law_clock_verdicts(c: ClockConfidence)
    ensures
        unassessed().confidence == ClockConfidence::Unknown && unassessed().offset_ms is None
            && unassessed().source is None,
        c.text() == (match c {
            ClockConfidence::Synced => "synced"@,
            ClockConfidence::Drifted => "drifted"@,
            ClockConfidence::Unknown => "unknown"@,
        }),
{
}

/// A time is due from the moment it says, and past only after it. A time that is
/// not set is neither.
pub proof fn law_times_come_due(t: Option<Seq<char>>, now: Seq<char>)
    ensures
        t is None ==> !due(t, now) && !past(t, now),
        t matches Some(at) ==> (due(t, now) <==> at == now || lex_lt(at, now)) && (past(t, now) <==> lex_lt(
            at,
            now,
        )),
{
    if t is Some {
        let at = t->0;
        crate::text::lemma_lex_total(at, now);
        crate::text::lemma_lex_irreflexive(at);
        if lex_lt(at, now) && lex_lt(now, at) {
            crate::text::lemma_lex_transitive(at, now, at);
        }
    }
}

// ── Fault classes ────────────────────────────────────────────────────────────

/// `s` reads as `t`: the same but for ASCII capitals, and `_` in place of `-`.
pub open spec fn reads_as(s: Seq<char>, t: Seq<char>) -> bool {
    s.len() == t.len() && forall|i: int| 0 <= i < s.len() ==> reads_char(#[trigger] s[i], t[i])
}

pub open spec fn reads_char(c: char, d: char) -> bool {
    (c == d && !('A' <= c <= 'Z') && c != '_') || (c == '_' && d == '-') || ('A' <= c <= 'Z' && d as int == c as int
        + 32)
}

proof fn lemma_reads_char(c: char, d: char)
    ensures
        reads_char(c, d) <==> folded_char(c) == d,
{
}

proof fn lemma_reads_as(s: Seq<char>, t: Seq<char>)
    ensures
        reads_as(s, t) <==> folded(s) == t,
{
    let f = folded(s);
    if reads_as(s, t) {
        assert forall|i: int| 0 <= i < s.len() implies #[trigger] f[i] == t[i] by {
            assert(reads_char(s[i], t[i]));
            lemma_reads_char(s[i], t[i]);
        }
        assert(f =~= t);
    }
    if f == t {
        assert forall|i: int| 0 <= i < s.len() implies reads_char(#[trigger] s[i], t[i]) by {
            assert(f[i] == t[i]);
            lemma_reads_char(s[i], t[i]);
        }
    }
}

/// A key means the class whose name it reads as, in capitals or not and with `_`
/// for `-`; a key that reads as none of the names means an unknown class.
pub proof fn law_fault_class_is_read_tolerantly(s: Seq<char>)
    ensures
        class_of(s) == FaultClass::GpuEcc <==> reads_as(s, "gpu-ecc"@),
        class_of(s) == FaultClass::FabricIb <==> reads_as(s, "fabric-ib"@),
        class_of(s) == FaultClass::NanLoss <==> reads_as(s, "nan-loss"@),
        class_of(s) == FaultClass::CheckpointCorrupt <==> reads_as(s, "checkpoint-corrupt"@),
        class_of(s) == FaultClass::Cancelled <==> reads_as(s, "cancelled"@) || reads_as(s, "canceled"@),
{
    lemma_reads_as(s, "gpu-ecc"@);
    lemma_reads_as(s, "fabric-ib"@);
    lemma_reads_as(s, "nan-loss"@);
    lemma_reads_as(s, "checkpoint-corrupt"@);
    lemma_reads_as(s, "cancelled"@);
    lemma_reads_as(s, "canceled"@);
    reveal_strlit("gpu-ecc");
    reveal_strlit("fabric-ib");
    reveal_strlit("nan-loss");
    reveal_strlit("checkpoint-corrupt");
    reveal_strlit("cancelled");
    reveal_strlit("canceled");
    assert("nan-loss"@[0] != "canceled"@[0]);
    assert("fabric-ib"@[0] != "cancelled"@[0]);
}

/// A class has one spelling, and a key is canonical where it is one of them.
pub proof fn law_fault_classes_are_spelled(class: FaultClass, key: Seq<char>)
    ensures
        class.spelling() == (match class {
            FaultClass::GpuEcc => "gpu-ecc"@,
            FaultClass::FabricIb => "fabric-ib"@,
            FaultClass::NanLoss => "nan-loss"@,
            FaultClass::CheckpointCorrupt => "checkpoint-corrupt"@,
            FaultClass::Cancelled => "cancelled"@,
            FaultClass::Unknown => "unknown"@,
        }),
        is_canonical(key) <==> key == "gpu-ecc"@ || key == "fabric-ib"@ || key == "nan-loss"@ || key
            == "checkpoint-corrupt"@ || key == "cancelled"@ || key == "unknown"@,
        crate::fault::FAULT_CLASS_LIST@
            == "gpu-ecc, fabric-ib, nan-loss, checkpoint-corrupt, cancelled, unknown"@,
{
    crate::fault::law_canonical_round_trip(FaultClass::GpuEcc);
    crate::fault::law_canonical_round_trip(FaultClass::FabricIb);
    crate::fault::law_canonical_round_trip(FaultClass::NanLoss);
    crate::fault::law_canonical_round_trip(FaultClass::CheckpointCorrupt);
    crate::fault::law_canonical_round_trip(FaultClass::Cancelled);
    crate::fault::law_canonical_round_trip(FaultClass::Unknown);
}

// ── Predicates on a response ─────────────────────────────────────────────────

/// `s` has `pat` at `i`, and not before.
pub open spec fn first_stands(s: Seq<char>, pat: Seq<char>, i: int) -> bool {
    &&& 0 <= i && i + pat.len() <= s.len() && s.subrange(i, i + pat.len()) == pat
    &&& forall|j: int| 0 <= j < i ==> #[trigger] s.subrange(j, j + pat.len()) != pat
}

/// `s` does not have `pat`.
pub open spec fn nowhere(s: Seq<char>, pat: Seq<char>) -> bool {
    forall|j: int| 0 <= j && j + pat.len() <= s.len() ==> #[trigger] s.subrange(j, j + pat.len()) != pat
}

/// To stand first, or nowhere, is what the search finds.
pub proof fn lemma_first_stands(s: Seq<char>, pat: Seq<char>, i: int)
    ensures
        first_stands(s, pat, i) ==> first_at(s, pat, 0) == Some(i),
        nowhere(s, pat) ==> first_at(s, pat, 0) is None,
{
    law_search_finds_the_first(s, pat, 0);
    match first_at(s, pat, 0) {
        Some(k) => {
            if first_stands(s, pat, i) {
                if k < i {
                    assert(s.subrange(k, k + pat.len()) != pat);
                } else if i < k {
                    assert(s.subrange(i, i + pat.len()) != pat);
                }
            }
            if nowhere(s, pat) {
                assert(s.subrange(k, k + pat.len()) != pat);
            }
        },
        None => {
            if first_stands(s, pat, i) {
                assert(s.subrange(i, i + pat.len()) != pat);
            }
        },
    }
}

/// A predicate compares a path with a value: by `==`, or else by `!=`, or else
/// by ` in ` with a bracketed list. Both sides must say something, and no part
/// of the path between its dots may be empty. Anything else is refused.
pub proof fn law_predicate_compares_a_path(s: Seq<char>, i: int)
    ensures
        ({
            let sides = |width: int|
                if blank(s.take(i)) || blank(s.skip(i + width)) {
                    Some(PredicateError::NoComparison)
                } else if exists|k: int|
                    0 <= k < split_on(trimmed(s.take(i)), "."@).len() && blank(
                        #[trigger] split_on(trimmed(s.take(i)), "."@)[k],
                    ) {
                    Some(PredicateError::EmptySegment)
                } else {
                    None
                };
            let list = trimmed(s.skip(i + 4));
            &&& first_stands(s, "=="@, i) ==> predicate_fault(s) == sides(2)
            &&& nowhere(s, "=="@) && first_stands(s, "!="@, i) ==> predicate_fault(s) == sides(2)
            &&& nowhere(s, "=="@) && nowhere(s, "!="@) && first_stands(s, " in "@, i) ==> predicate_fault(s) == (
            if list.len() >= 2 && list[0] == '[' && list[list.len() - 1] == ']' {
                sides(4)
            } else {
                Some(PredicateError::NoList)
            })
            &&& nowhere(s, "=="@) && nowhere(s, "!="@) && nowhere(s, " in "@) ==> predicate_fault(s) == Some(
                PredicateError::NoComparison,
            )
        }),
{
    lemma_first_stands(s, "=="@, i);
    lemma_first_stands(s, "!="@, i);
    lemma_first_stands(s, " in "@, i);
}

/// A path is refused exactly where a part between its dots is empty or blank.
pub proof fn law_path_has_no_empty_part(path: Seq<char>)
    ensures
        path_fault(path) is Some <==> exists|k: int|
            0 <= k < split_on(trimmed(path), "."@).len() && blank(#[trigger] split_on(trimmed(path), "."@)[k]),
        path_fault(path) is Some ==> path_fault(path) == Some(PredicateError::EmptySegment),
{
}

// ── Loops, deferred jobs, resources ──────────────────────────────────────────

/// A loop is done once its condition holds. It goes round again, after its
/// delay, while it has iterations left. It fails when they are used up, or when
/// the condition has no value.
pub proof fn law_loop_goes_by_its_condition(
    r: RepeatSpec,
    value: Option<bool>,
    complaint: Seq<char>,
    output: Seq<char>,
    iteration: int,
)
    ensures
        ({
            let o = r.outcome(value, complaint, output, iteration);
            &&& o == RepeatOutcome::Done <==> value == Some(true)
            &&& value == Some(false) && iteration < r.max_iterations ==> o == (RepeatOutcome::Again {
                delay_secs: r.delay_secs,
            })
            &&& value == Some(false) && iteration >= r.max_iterations ==> o == (RepeatOutcome::Fail {
                reason: "repeat.until '"@ + r.until@ + "' not satisfied after "@ + signed_decimal(iteration)
                    + " iterations; last output:\n"@ + output,
            })
            &&& value is None ==> o == (RepeatOutcome::Fail {
                reason: "repeat.until '"@ + r.until@ + "' failed to evaluate: "@ + complaint,
            })
        }),
{
}

/// The condition of a loop sees the trimmed output and the iteration's number,
/// and nothing else.
pub proof fn law_loop_binds_output_and_attempt(output: Seq<char>, iteration: int, name: Seq<char>)
    ensures
        ({
            let b = repeat_bindings(output, iteration);
            &&& b.contains_key("output"@) && b["output"@] == trimmed(output)
            &&& b.contains_key("attempt"@) && b["attempt"@] == signed_decimal(iteration)
            &&& b.contains_key(name) ==> name == "output"@ || name == "attempt"@
        }),
{
    reveal_strlit("output");
    reveal_strlit("attempt");
    assert("output"@.len() != "attempt"@.len());
}

proof fn lemma_last_handle(lines: Seq<Seq<char>>, k: int)
    requires
        0 <= k < lines.len(),
        "dagron::handle="@.is_prefix_of(trimmed(lines[k])),
        forall|j: int| k < j < lines.len() ==> !"dagron::handle="@.is_prefix_of(trimmed(#[trigger] lines[j])),
    ensures
        last_handle(lines) == Some(trimmed(trimmed(lines[k]).skip("dagron::handle="@.len() as int))),
    decreases lines.len(),
{
    if k < lines.len() - 1 {
        let rest = lines.drop_last();
        assert(!"dagron::handle="@.is_prefix_of(trimmed(lines[lines.len() - 1])));
        assert forall|j: int| k < j < rest.len() implies !"dagron::handle="@.is_prefix_of(
            trimmed(#[trigger] rest[j]),
        ) by {
            assert(rest[j] == lines[j]);
        }
        assert(rest[k] == lines[k]);
        lemma_last_handle(rest, k);
    }
}

proof fn lemma_no_handle(lines: Seq<Seq<char>>)
    requires
        forall|j: int| 0 <= j < lines.len() ==> !"dagron::handle="@.is_prefix_of(trimmed(#[trigger] lines[j])),
    ensures
        last_handle(lines) is None,
    decreases lines.len(),
{
    if lines.len() > 0 {
        let rest = lines.drop_last();
        assert(!"dagron::handle="@.is_prefix_of(trimmed(lines[lines.len() - 1])));
        assert forall|j: int| 0 <= j < rest.len() implies !"dagron::handle="@.is_prefix_of(
            trimmed(#[trigger] rest[j]),
        ) by {
            assert(rest[j] == lines[j]);
        }
        lemma_no_handle(rest);
    }
}

/// The last line that starts with `dagron::handle=` names the remote job, by
/// what follows, trimmed; one that names nothing is no handle.
pub proof fn law_last_handle_counts(output: Seq<char>, k: int)
    requires
        0 <= k < split_on(output, "\n"@).len(),
        "dagron::handle="@.is_prefix_of(trimmed(split_on(output, "\n"@)[k])),
        forall|j: int|
            k < j < split_on(output, "\n"@).len() ==> !"dagron::handle="@.is_prefix_of(
                trimmed(#[trigger] split_on(output, "\n"@)[j]),
            ),
    ensures
        ({
            let named = trimmed(
                trimmed(split_on(output, "\n"@)[k]).skip("dagron::handle="@.len() as int),
            );
            declared_handle(output) == (if named.len() > 0 { Some(named) } else { None })
        }),
{
    lemma_last_handle(split_on(output, "\n"@), k);
}

/// An output without such a line names no remote job.
pub proof fn law_no_handle_without_its_line(output: Seq<char>)
    requires
        forall|j: int|
            0 <= j < split_on(output, "\n"@).len() ==> !"dagron::handle="@.is_prefix_of(
                trimmed(#[trigger] split_on(output, "\n"@)[j]),
            ),
    ensures
        declared_handle(output) is None,
{
    lemma_no_handle(split_on(output, "\n"@));
}

/// A request for GPUs becomes a limit, under its own resource or the default
/// one, unless the limits say otherwise; the other limits stay.
pub proof fn law_gpu_request_becomes_a_limit(r: ResourceRequirements, key: Seq<char>)
    ensures
        ({
            let own = crate::text_map::text_values(r.limits@);
            let all = r.limits_with_gpu();
            let asked = |gpu: GpuRequest|
                match gpu.resource {
                    Some(name) => name@,
                    None => "nvidia.com/gpu"@,
                };
            &&& r.gpu is None ==> all == own
            &&& own.contains_key(key) ==> all.contains_key(key) && all[key] == own[key]
            &&& r.gpu matches Some(gpu) ==> !own.contains_key(asked(gpu)) ==> all.contains_key(asked(gpu))
                && all[asked(gpu)] == decimal(gpu.count as nat)
            &&& r.gpu matches Some(gpu) ==> all.contains_key(key) ==> own.contains_key(key) || key == asked(gpu)
        }),
{
}

/// What a task is by its type, and how many rows it becomes.
pub proof fn law_task_is_what_its_type_says(t: TaskSpec)
    ensures
        t.approval() <==> (t.task_type matches Some(s) && s@ == "approval"@),
        t.triggers_workflow() <==> (t.task_type matches Some(s) && s@ == "workflow"@),
        t.waits() <==> (t.task_type matches Some(s) && s@ == "wait"@),
        t.rows() == (match t.gang {
            Some(g) => g.size as int,
            None => 1,
        }),
{
}

/// A cancel request is a DELETE unless it says otherwise, and may be four verbs.
pub proof fn law_cancel_verbs(c: DeferHttpCancel, verb: Seq<char>)
    ensures
        c.method is None ==> c.verb() == "DELETE"@,
        c.method matches Some(m) ==> c.verb().len() == trimmed(m@).len() && forall|i: int|
            0 <= i < trimmed(m@).len() ==> #[trigger] c.verb()[i] == crate::text::upper_char(trimmed(m@)[i]),
        cancel_verb(verb) <==> verb == "DELETE"@ || verb == "POST"@ || verb == "PUT"@ || verb == "PATCH"@,
{
}

// ── Settings ─────────────────────────────────────────────────────────────────

/// The operator's setting of the lease counts where it is a number that fits,
/// white space around it or not. Otherwise a claim lasts thirty seconds, and
/// never under three.
pub proof fn law_lease_setting_is_read(raw: Seq<char>, n: int)
    ensures
        asked_lease(None) == 30,
        trimmed(raw) == signed_decimal(n) && i64::MIN <= n <= i64::MAX ==> asked_lease(Some(raw)) == n,
        signed_number(trimmed(raw)) == Some(n) && i64::MIN <= n <= i64::MAX ==> asked_lease(Some(raw)) == n,
        signed_number(trimmed(raw)) == Some(n) && !(i64::MIN <= n <= i64::MAX) ==> asked_lease(Some(raw)) == 30,
        signed_number(trimmed(raw)) is None ==> asked_lease(Some(raw)) == 30,
        trimmed(raw).len() == 0 ==> asked_lease(Some(raw)) == 30,
        0 < n < trimmed(raw).len() && !('0' <= trimmed(raw)[n] <= '9') ==> asked_lease(Some(raw)) == 30,
        crate::host::MIN_LEASE_SECS == 3,
{
    law_numbers_read_back(0, n);
    if trimmed(raw).len() == 0 || (0 < n < trimmed(raw).len() && !('0' <= trimmed(raw)[n] <= '9')) {
        law_no_number_without_digits(trimmed(raw), n);
    }
}

/// A setting of the attempt log is the number that it says, white space around
/// it or not; one that is no number counts as none.
pub proof fn law_log_setting_is_read(raw: Seq<char>, n: nat, i: int)
    ensures
        setting(None) is None,
        trimmed(raw) == decimal(n) && n <= usize::MAX ==> setting(Some(raw)) == Some(n),
        unsigned_number(trimmed(raw)) == Some(n) && n <= usize::MAX ==> setting(Some(raw)) == Some(n),
        unsigned_number(trimmed(raw)) == Some(n) && n > usize::MAX ==> setting(Some(raw)) is None,
        unsigned_number(trimmed(raw)) is None ==> setting(Some(raw)) is None,
        trimmed(raw).len() == 0 ==> setting(Some(raw)) is None,
        0 < i < trimmed(raw).len() && !('0' <= trimmed(raw)[i] <= '9') ==> setting(Some(raw)) is None,
        crate::attempt_log::DEFAULT_BYTES == 4096,
        crate::attempt_log::DEFAULT_KEEP == 50,
        crate::attempt_log::MAX_BYTES == 65536,
        crate::attempt_log::MAX_READ == 200,
{
    law_numbers_read_back(n, 0);
    if trimmed(raw).len() == 0 || (0 < i < trimmed(raw).len() && !('0' <= trimmed(raw)[i] <= '9')) {
        law_no_number_without_digits(trimmed(raw), i);
    }
}

/// Of an output the log keeps an end that fits the cap; a longer end would not.
pub proof fn law_log_keeps_the_longest_end(s: Seq<char>, t: Seq<char>, cap: nat)
    requires
        longest_tail(s, t, cap),
    ensures
        t.len() <= s.len(),
        t == s.skip(s.len() - t.len()),
        crate::labels::byte_len(t) <= cap,
        t.len() < s.len() ==> crate::labels::byte_len(s.skip(s.len() - t.len() - 1)) > cap,
{
    let i = choose|i: int|
        0 <= i <= s.len() && t == #[trigger] s.skip(i) && crate::labels::byte_len(t) <= cap && (i > 0
            ==> crate::labels::byte_len(s.skip(i - 1)) > cap);
    assert(i == s.len() - t.len());
}

/// The window keeps as many attempts as the policy says: those after the last
/// one to go. With no bound, or with fewer attempts, none goes.
pub proof fn law_window_keeps_the_latest(p: Policy, attempt: i64)
    requires
        attempt >= 0,
    ensures
        p.keep == 0 || attempt <= p.keep ==> p.eviction(attempt) is None,
        p.keep > 0 && attempt > p.keep ==> p.eviction(attempt) is Some && attempt - p.eviction(attempt)->0
            == p.keep,
{
}

// ── Times ────────────────────────────────────────────────────────────────────

/// To move an instant by seconds and to count the seconds between are inverse,
/// outside leap seconds; a part of a second does not count, forward or back.
pub proof fn law_seconds_add_up(t: Timestamp, since: Timestamp, delta: int)
    requires
        t.nanos < 1_000_000_000,
        since.nanos < 1_000_000_000,
    ensures
        ({
            let whole = elapsed(t, since);
            let nanos = (t.secs - since.secs) * 1_000_000_000 + t.nanos - since.nanos;
            &&& nanos >= 0 ==> whole >= 0 && whole * 1_000_000_000 <= nanos < (whole + 1) * 1_000_000_000
            &&& nanos < 0 ==> whole <= 0 && (whole - 1) * 1_000_000_000 < nanos <= whole * 1_000_000_000
        }),
        match shifted(t, delta) {
            Some((secs, nanos)) => secs == t.secs + delta && nanos == t.nanos && -8334601228800 <= secs
                <= 8210266876799,
            None => !(-8334601228800 <= t.secs + delta <= 8210266876799),
        },
{
}

/// An instant comes before another by its seconds, and then by its nanoseconds.
pub proof fn law_instants_are_ordered(a: Timestamp, b: Timestamp)
    requires
        a.nanos < 2_000_000_000,
        b.nanos < 2_000_000_000,
    ensures
        a.precedes(b) <==> a.secs * 2_000_000_000 + a.nanos < b.secs * 2_000_000_000 + b.nanos,
{
}

/// A retry waits for its delay, and never longer than a year; where the calendar
/// ends before, it does not wait.
pub proof fn law_retry_waits_at_most_a_year(now: Timestamp, delay: u64)
    ensures
        capped_delay(delay) <= delay,
        capped_delay(delay) <= 31_536_000,
        delay <= 31_536_000 ==> capped_delay(delay) == delay,
        delay > 31_536_000 ==> capped_delay(delay) == 31_536_000,
        shifted(now, capped_delay(delay)) matches Some(at) ==> retry_text(now, delay)
            == crate::time::rfc3339_text(at.0, at.1),
        shifted(now, capped_delay(delay)) is None ==> retry_text(now, delay) == crate::time::rfc3339_text(
            now.secs as int,
            now.nanos as int,
        ),
        crate::workflow::DEFAULT_DEFER_POLL_SECS == 30,
        crate::workflow::MAX_EXTERNAL_ERROR_BYTES == 2048,
        crate::workflow::HANDLE_PLACEHOLDER@ == "{{ handle }}"@,
        crate::workflow::DEFAULT_RUNNER_CLASS@ == "default"@,
        crate::models::DEFAULT_TRIGGER_RULE@ == "all_success"@,
{
}

} // verus!
