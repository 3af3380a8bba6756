//! The values that pass between the loop, the task tracker and the model.
use vstd::prelude::*;
use vstd::string::*;

use crate::text::{lowercase, to_lowercase, trim, trim_str};

verus! {

/// The state of a tracker task.
#[derive(Debug, Clone, Copy, PartialEq, Eq, Structural)]
pub enum TaskStatus {
    Open,
    InProgress,
    Blocked,
    Deferred,
    Closed,
}

impl Default for TaskStatus {
    fn default() -> (r: Self)
        ensures
            r == TaskStatus::Open,
    {
        TaskStatus::Open
    }
}

/// A task of the tracker.
#[derive(Debug, Clone, PartialEq, Eq)]
pub struct Task {
    pub id: String,
    pub title: String,
    pub description: String,
    pub status: TaskStatus,
    pub labels: Vec<String>,
    pub parent_id: Option<String>,
}

/// The label that marks a child task that blocks its parent.
pub open spec fn blocking_child_label() -> Seq<char> {
    "loop:blocking"@
}

impl Task {
    /// The task carries the blocking-child label.
    pub open spec fn blocks_parent(self) -> bool {
        exists|i: int| 0 <= i < self.labels@.len() && #[trigger] self.labels@[i]@ == blocking_child_label()
    }

    /// Whether the task is a child that blocks its parent.
    pub fn is_blocking_child(&self) -> (r: bool)
        ensures
            r == self.blocks_parent(),
    {
        let label = String::from_str("loop:blocking");
        let mut i: usize = 0;
        while i < self.labels.len()
            invariant
                i <= self.labels@.len(),
                label@ == blocking_child_label(),
                forall|j: int| 0 <= j < i ==> #[trigger] self.labels@[j]@ != blocking_child_label(),
            decreases self.labels.len() - i,
        {
            if self.labels[i] == label {
                assert(self.labels@[i as int]@ == blocking_child_label());
                return true;
            }
            i = i + 1;
        }
        false
    }

    /// A task is open until it is closed.
    pub fn is_open(&self) -> (r: bool)
        ensures
            r == (self.status != TaskStatus::Closed),
    {
        !matches!(self.status, TaskStatus::Closed)
    }
}

/// What a proposed child task is for.
#[derive(Debug, Clone, Copy, PartialEq, Eq, Structural)]
pub enum SpawnTaskKind {
    Decomposition,
    Backlog,
    Performance,
    Quality,
    Tests,
}

/// A child task that the model proposes.
#[derive(Debug, Clone, PartialEq, Eq)]
pub struct SpawnTaskCandidate {
    pub title: String,
    pub description: String,
    pub kind: SpawnTaskKind,
    pub blocking: bool,
    pub estimated_minutes: u32,
    pub can_inline: bool,
    pub acceptance: Vec<String>,
    pub priority: u8,
    pub labels: Vec<String>,
}

/// The form of a title that duplicates are compared in: lowercased, then trimmed.
pub open spec fn normalized(title: Seq<char>) -> Seq<char> {
    trim(lowercase(title))
}

impl SpawnTaskCandidate {
    /// The title, lowercased and trimmed.
    pub fn normalized_title(&self) -> (r: String)
        ensures
            r@ == normalized(self.title@),
    {
        let lower = to_lowercase(self.title.as_str());
        trim_str(lower.as_str())
    }
}

/// What the product-storm step proposes for a task.
#[derive(Debug, Clone, PartialEq, Eq)]
pub struct ProductStormOutput {
    pub summary: String,
    pub spawn_candidates: Vec<SpawnTaskCandidate>,
}

impl Default for ProductStormOutput {
    fn default() -> (r: Self)
        ensures
            r.summary@ == Seq::<char>::empty(),
            r.spawn_candidates@ == Seq::<SpawnTaskCandidate>::empty(),
    {
        ProductStormOutput { summary: String::new(), spawn_candidates: Vec::new() }
    }
}

/// What the spec-first step fixes for a task.
#[derive(Debug, Clone, PartialEq, Eq)]
pub struct SpecOutput {
    pub acceptance_criteria: Vec<String>,
    pub non_goals: Vec<String>,
    pub requires_perf_gate: bool,
}

impl Default for SpecOutput {
    /// One generic acceptance criterion, no non-goals, no performance gate.
    fn default() -> (r: Self)
        ensures
            r.acceptance_criteria@.len() == 1,
            r.acceptance_criteria@[0]@ == "Task requirements are satisfied"@,
            r.non_goals@.len() == 0,
            !r.requires_perf_gate,
    {
        let mut acceptance_criteria: Vec<String> = Vec::new();
        acceptance_criteria.push(String::from_str("Task requirements are satisfied"));
        SpecOutput { acceptance_criteria, non_goals: Vec::new(), requires_perf_gate: false }
    }
}

/// The verdict of a review.
#[derive(Debug, Clone, Copy, PartialEq, Eq, Structural)]
pub enum ReviewStatus {
    Done,
    Rework,
}

/// A full coverage score, in basis points (hundredths of a percent).
pub const FULL_COVERAGE: u32 = 10000;

/// The outcome of reviewing a task.
///
/// `coverage_score` is in basis points: `FULL_COVERAGE` (10 000) is full coverage.
#[derive(Debug, Clone, PartialEq, Eq)]
pub struct ReviewOutput {
    pub status: ReviewStatus,
    pub coverage_score: u32,
    pub missing_items: Vec<String>,
    pub spawn_candidates: Vec<SpawnTaskCandidate>,
    pub risk_flags: Vec<String>,
}

impl Default for ReviewOutput {
    /// A clean review: done, full coverage, nothing missing.
    fn default() -> (r: Self)
        ensures
            r.status == ReviewStatus::Done,
            r.coverage_score == FULL_COVERAGE,
            r.missing_items@.len() == 0,
            r.spawn_candidates@.len() == 0,
            r.risk_flags@.len() == 0,
    {
        ReviewOutput {
            status: ReviewStatus::Done,
            coverage_score: FULL_COVERAGE,
            missing_items: Vec::new(),
            spawn_candidates: Vec::new(),
            risk_flags: Vec::new(),
        }
    }
}

/// The quality gates that a task is held to.
#[derive(Debug, Clone, Copy, PartialEq, Eq, Structural, Hash)]
pub enum GateName {
    Fmt,
    Clippy,
    Tests,
    Perf,
}

/// A set of quality gates.
#[derive(Debug, Clone, Copy, PartialEq, Eq, Structural)]
pub struct GateSet {
    pub fmt: bool,
    pub clippy: bool,
    pub tests: bool,
    pub perf: bool,
}

impl GateSet {
    pub open spec fn has(self, g: GateName) -> bool {
        match g {
            GateName::Fmt => self.fmt,
            GateName::Clippy => self.clippy,
            GateName::Tests => self.tests,
            GateName::Perf => self.perf,
        }
    }

    /// `self` holds every gate of `other`.
    pub open spec fn includes(self, other: GateSet) -> bool {
        forall|g: GateName| other.has(g) ==> self.has(g)
    }

    /// The empty set.
    pub fn new() -> (r: Self)
        ensures
            forall|g: GateName| !r.has(g),
    {
        GateSet { fmt: false, clippy: false, tests: false, perf: false }
    }

    /// Adds a gate; the others stay as they were.
    pub fn insert(&mut self, g: GateName)
        ensures
            final(self).has(g),
            forall|h: GateName| h != g ==> final(self).has(h) == old(self).has(h),
    {
        match g {
            GateName::Fmt => self.fmt = true,
            GateName::Clippy => self.clippy = true,
            GateName::Tests => self.tests = true,
            GateName::Perf => self.perf = true,
        }
    }

    /// Whether the set holds `g`.
    pub fn contains(&self, g: &GateName) -> (r: bool)
        ensures
            r == self.has(*g),
    {
        match g {
            GateName::Fmt => self.fmt,
            GateName::Clippy => self.clippy,
            GateName::Tests => self.tests,
            GateName::Perf => self.perf,
        }
    }
}

/// Which quality gates passed.
#[derive(Debug, Clone, Copy, PartialEq, Eq, Structural)]
pub struct GateReport {
    pub fmt_ok: bool,
    pub clippy_ok: bool,
    pub tests_ok: bool,
    pub perf_ok: bool,
}

impl GateReport {
    pub open spec fn ok(self, g: GateName) -> bool {
        match g {
            GateName::Fmt => self.fmt_ok,
            GateName::Clippy => self.clippy_ok,
            GateName::Tests => self.tests_ok,
            GateName::Perf => self.perf_ok,
        }
    }

    /// Every gate passed, or is one that does not block.
    pub open spec fn passes(self, non_blocking: GateSet) -> bool {
        forall|g: GateName| #[trigger] self.ok(g) || non_blocking.has(g)
    }

    /// A report in which every gate passed.
    pub fn all_green() -> (r: Self)
        ensures
            forall|g: GateName| #[trigger] r.ok(g),
    {
        GateReport { fmt_ok: true, clippy_ok: true, tests_ok: true, perf_ok: true }
    }

    /// Whether every gate passed.
    pub fn all_passed(&self) -> (r: bool)
        ensures
            r == (forall|g: GateName| #[trigger] self.ok(g)),
    {
        let r = self.fmt_ok && self.clippy_ok && self.tests_ok && self.perf_ok;
        proof {
            if !r {
                if !self.fmt_ok {
                    assert(!self.ok(GateName::Fmt));
                } else if !self.clippy_ok {
                    assert(!self.ok(GateName::Clippy));
                } else if !self.tests_ok {
                    assert(!self.ok(GateName::Tests));
                } else {
                    assert(!self.ok(GateName::Perf));
                }
            }
        }
        r
    }

    /// Whether every gate passed or is in `non_blocking`.
    pub fn passed_except(&self, non_blocking: &GateSet) -> (r: bool)
        ensures
            r == self.passes(*non_blocking),
    {
        let f = self.fmt_ok || non_blocking.fmt;
        let c = self.clippy_ok || non_blocking.clippy;
        let t = self.tests_ok || non_blocking.tests;
        let p = self.perf_ok || non_blocking.perf;
        proof {
            if !f {
                assert(!(self.ok(GateName::Fmt) || non_blocking.has(GateName::Fmt)));
            } else if !c {
                assert(!(self.ok(GateName::Clippy) || non_blocking.has(GateName::Clippy)));
            } else if !t {
                assert(!(self.ok(GateName::Tests) || non_blocking.has(GateName::Tests)));
            } else if !p {
                assert(!(self.ok(GateName::Perf) || non_blocking.has(GateName::Perf)));
            }
        }
        f && c && t && p
    }
}

/// What the evaluator decides about a task.
#[derive(Debug, Clone, Copy, PartialEq, Eq, Structural)]
pub enum DoneDecision {
    Done,
    Rework,
    NeedsHuman,
}

/// What a single run of the loop hands back.
#[derive(Debug, Clone, PartialEq, Eq)]
pub enum RunOutcome {
    /// No task was ready to be worked on.
    NoReadyWork,
    /// The agent has work to do on `task_id`: the `commands` in order.
    AgentActionRequired {
        task_id: String,
        commands: Vec<String>,
        created_children: Vec<String>,
        closed_children: Vec<String>,
    },
}

} // verus!
