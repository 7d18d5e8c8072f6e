//! The states of runs, tasks and events, and the rules that read them.
use vstd::prelude::*;
use vstd::string::*;
use crate::text::same;

verus! {

#[derive(Debug, Clone, Copy, PartialEq, Eq, Structural)]
pub enum RunStatus {
    Pending,
    Running,
    Succeeded,
    Failed,
    Cancelled,
}

#[derive(Debug, Clone, Copy, PartialEq, Eq, Structural)]
pub enum TaskStatus {
    Pending,
    Ready,
    Running,
    AwaitingApproval,
    Succeeded,
    Failed,
    Skipped,
    Cancelled,
}

#[derive(Debug, Clone, Copy, PartialEq, Eq, Structural)]
pub enum OutboxStatus {
    Pending,
    Delivered,
    Dead,
}

impl RunStatus {
    pub open spec fn text(self) -> Seq<char> {
        match self {
            RunStatus::Pending => "pending"@,
            RunStatus::Running => "running"@,
            RunStatus::Succeeded => "succeeded"@,
            RunStatus::Failed => "failed"@,
            RunStatus::Cancelled => "cancelled"@,
        }
    }

    /// Nothing more happens to the run.
    pub open spec fn terminal(self) -> bool {
        self == RunStatus::Succeeded || self == RunStatus::Failed || self == RunStatus::Cancelled
    }

    pub fn is_terminal(&self) -> (r: bool)
        ensures
            r == self.terminal(),
    {
        match self {
            RunStatus::Succeeded | RunStatus::Failed | RunStatus::Cancelled => true,
            _ => false,
        }
    }

    pub fn as_str(&self) -> (r: &'static str)
        ensures
            r@ == self.text(),
    {
        match self {
            RunStatus::Pending => "pending",
            RunStatus::Running => "running",
            RunStatus::Succeeded => "succeeded",
            RunStatus::Failed => "failed",
            RunStatus::Cancelled => "cancelled",
        }
    }

    /// The status a text names.
    pub fn parse(s: &str) -> (r: Option<RunStatus>)
        ensures
            match r {
                Some(status) => s@ == status.text(),
                None => forall|status: RunStatus| s@ != #[trigger] status.text(),
            },
    {
        if same(s, "pending") {
            Some(RunStatus::Pending)
        } else if same(s, "running") {
            Some(RunStatus::Running)
        } else if same(s, "succeeded") {
            Some(RunStatus::Succeeded)
        } else if same(s, "failed") {
            Some(RunStatus::Failed)
        } else if same(s, "cancelled") {
            Some(RunStatus::Cancelled)
        } else {
            None
        }
    }
}

impl TaskStatus {
    pub open spec fn text(self) -> Seq<char> {
        match self {
            TaskStatus::Pending => "pending"@,
            TaskStatus::Ready => "ready"@,
            TaskStatus::Running => "running"@,
            TaskStatus::AwaitingApproval => "awaiting_approval"@,
            TaskStatus::Succeeded => "succeeded"@,
            TaskStatus::Failed => "failed"@,
            TaskStatus::Skipped => "skipped"@,
            TaskStatus::Cancelled => "cancelled"@,
        }
    }

    /// The task is over, whatever came of it.
    pub open spec fn terminal(self) -> bool {
        self == TaskStatus::Succeeded || self == TaskStatus::Failed || self == TaskStatus::Skipped
            || self == TaskStatus::Cancelled
    }

    pub fn is_terminal(&self) -> (r: bool)
        ensures
            r == self.terminal(),
    {
        match self {
            TaskStatus::Succeeded | TaskStatus::Failed | TaskStatus::Skipped
            | TaskStatus::Cancelled => true,
            _ => false,
        }
    }

    pub fn as_str(&self) -> (r: &'static str)
        ensures
            r@ == self.text(),
    {
        match self {
            TaskStatus::Pending => "pending",
            TaskStatus::Ready => "ready",
            TaskStatus::Running => "running",
            TaskStatus::AwaitingApproval => "awaiting_approval",
            TaskStatus::Succeeded => "succeeded",
            TaskStatus::Failed => "failed",
            TaskStatus::Skipped => "skipped",
            TaskStatus::Cancelled => "cancelled",
        }
    }

    /// The status a text names.
    pub fn parse(s: &str) -> (r: Option<TaskStatus>)
        ensures
            match r {
                Some(status) => s@ == status.text(),
                None => forall|status: TaskStatus| s@ != #[trigger] status.text(),
            },
    {
        if same(s, "pending") {
            Some(TaskStatus::Pending)
        } else if same(s, "ready") {
            Some(TaskStatus::Ready)
        } else if same(s, "running") {
            Some(TaskStatus::Running)
        } else if same(s, "awaiting_approval") {
            Some(TaskStatus::AwaitingApproval)
        } else if same(s, "succeeded") {
            Some(TaskStatus::Succeeded)
        } else if same(s, "failed") {
            Some(TaskStatus::Failed)
        } else if same(s, "skipped") {
            Some(TaskStatus::Skipped)
        } else if same(s, "cancelled") {
            Some(TaskStatus::Cancelled)
        } else {
            None
        }
    }
}

/// The rule of a task that names none.
pub const DEFAULT_TRIGGER_RULE: &'static str = "all_success";

pub open spec fn all_are(deps: Seq<TaskStatus>, status: TaskStatus) -> bool {
    forall|i: int| 0 <= i < deps.len() ==> #[trigger] deps[i] == status
}

/// Whether a task whose dependencies ended like this runs, by its trigger rule.
/// A rule that is none of the known ones counts as the default, `all_success`.
pub open spec fn rule_ready(rule: Seq<char>, deps: Seq<TaskStatus>) -> bool {
    if rule == "all_done"@ {
        true
    } else if rule == "one_failed"@ {
        deps.contains(TaskStatus::Failed)
    } else if rule == "all_failed"@ {
        all_are(deps, TaskStatus::Failed)
    } else if rule == "none_failed"@ {
        !deps.contains(TaskStatus::Failed)
    } else {
        all_are(deps, TaskStatus::Succeeded)
    }
}

/// Whether every dependency ended as `status`, and whether some failed.
fn survey(deps: &Vec<TaskStatus>, status: TaskStatus) -> (r: (bool, bool))
    ensures
        r.0 == all_are(deps@, status),
        r.1 == deps@.contains(TaskStatus::Failed),
{
    let mut all: bool = true;
    let mut failed: bool = false;
    let mut i: usize = 0;
    while i < deps.len()
        invariant
            i <= deps@.len(),
            all == (forall|k: int| 0 <= k < i ==> #[trigger] deps@[k] == status),
            failed == (exists|k: int| 0 <= k < i && #[trigger] deps@[k] == TaskStatus::Failed),
        decreases deps@.len() - i,
    {
        if deps[i] != status {
            all = false;
        }
        if deps[i] == TaskStatus::Failed {
            failed = true;
        }
        i += 1;
    }
    (all, failed)
}

/// Whether a task whose dependencies ended like this runs.
pub fn trigger_rule_ready(rule: &str, deps: &Vec<TaskStatus>) -> (r: bool)
    ensures
        r == rule_ready(rule@, deps@),
{
    if same(rule, "all_done") {
        true
    } else if same(rule, "one_failed") {
        survey(deps, TaskStatus::Failed).1
    } else if same(rule, "all_failed") {
        survey(deps, TaskStatus::Failed).0
    } else if same(rule, "none_failed") {
        !survey(deps, TaskStatus::Failed).1
    } else {
        survey(deps, TaskStatus::Succeeded).0
    }
}

/// No two states share a text, so what is written of a state is read back as it.
pub proof fn law_states_have_distinct_texts(a: TaskStatus, b: TaskStatus, c: RunStatus, d: RunStatus)
    ensures
        a.text() == b.text() <==> a == b,
        c.text() == d.text() <==> c == d,
{
    reveal_strlit("pending");
    reveal_strlit("ready");
    reveal_strlit("running");
    reveal_strlit("awaiting_approval");
    reveal_strlit("succeeded");
    reveal_strlit("failed");
    reveal_strlit("skipped");
    reveal_strlit("cancelled");
    assert("pending"@[0] == 'p' && "ready"@[0] == 'r' && "running"@[0] == 'r' && "awaiting_approval"@[0]
        == 'a' && "succeeded"@[0] == 's' && "failed"@[0] == 'f' && "skipped"@[0] == 's'
        && "cancelled"@[0] == 'c');
    assert("ready"@.len() == 5 && "running"@.len() == 7 && "succeeded"@.len() == 9 && "skipped"@.len()
        == 7);
}

} // verus!
