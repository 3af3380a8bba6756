//! The done/rework/needs-human decision for parent and child tasks.
use vstd::prelude::*;
use vstd::string::*;

use crate::contracts::{
    DoneDecision, GateName, GateReport, GateSet, ReviewOutput, ReviewStatus, Task,
};
use crate::text::{
    contains, decimal, decimal_string, digit_char, has_substring, lowercase, push_char,
    to_lowercase,
};

verus! {

/// The coverage threshold that counts as done by default: 0.9, in basis points.
pub const DEFAULT_COVERAGE_THRESHOLD: u32 = 9000;

/// How demanding the evaluator is.
#[derive(Debug, Clone, Copy)]
pub struct DoneEvaluatorConfig {
    /// The least review coverage, in basis points, that counts as done.
    pub coverage_threshold: u32,
}

impl Default for DoneEvaluatorConfig {
    fn default() -> (r: Self)
        ensures
            r.coverage_threshold == DEFAULT_COVERAGE_THRESHOLD,
    {
        DoneEvaluatorConfig { coverage_threshold: DEFAULT_COVERAGE_THRESHOLD }
    }
}

/// Decides whether a task is done.
#[derive(Debug, Clone, Copy)]
pub struct DoneEvaluator {
    pub config: DoneEvaluatorConfig,
}

impl Default for DoneEvaluator {
    fn default() -> (r: Self)
        ensures
            r.config.coverage_threshold == DEFAULT_COVERAGE_THRESHOLD,
    {
        DoneEvaluator { config: DoneEvaluatorConfig::default() }
    }
}

/// What the parent decision is made from. Times are in whole seconds.
#[derive(Debug, Clone)]
pub struct ParentDecisionInput<'a> {
    pub gates: &'a GateReport,
    pub non_blocking_gates: &'a GateSet,
    pub review: &'a ReviewOutput,
    pub has_open_blocking_children: bool,
    pub parent_iteration: u32,
    pub max_iterations: u32,
    pub elapsed: u64,
    pub timeout: u64,
}

/// The review says done, covers enough and misses nothing.
pub open spec fn review_accepts(threshold: u32, review: ReviewOutput) -> bool {
    &&& review.coverage_score >= threshold
    &&& review.missing_items@.len() == 0
    &&& review.status == ReviewStatus::Done
}

/// A child is done when its blocking gates pass and its review accepts it.
pub open spec fn child_decision(
    threshold: u32,
    gates: GateReport,
    review: ReviewOutput,
    non_blocking: GateSet,
) -> DoneDecision {
    if gates.passes(non_blocking) && review_accepts(threshold, review) {
        DoneDecision::Done
    } else {
        DoneDecision::Rework
    }
}

/// A parent past its time needs a human; one whose gates pass, whose review
/// accepts it and that has no open blocking children is done; otherwise it is
/// reworked until its last iteration, after which it needs a human.
pub open spec fn parent_decision(
    threshold: u32,
    gates: GateReport,
    non_blocking: GateSet,
    review: ReviewOutput,
    has_open_blocking_children: bool,
    parent_iteration: u32,
    max_iterations: u32,
    elapsed: u64,
    timeout: u64,
) -> DoneDecision {
    if elapsed >= timeout {
        DoneDecision::NeedsHuman
    } else if gates.passes(non_blocking) && !has_open_blocking_children && review_accepts(
        threshold,
        review,
    ) {
        DoneDecision::Done
    } else if parent_iteration >= max_iterations {
        DoneDecision::NeedsHuman
    } else {
        DoneDecision::Rework
    }
}

impl<'a> ParentDecisionInput<'a> {
    pub open spec fn decision(self, threshold: u32) -> DoneDecision {
        parent_decision(
            threshold,
            *self.gates,
            *self.non_blocking_gates,
            *self.review,
            self.has_open_blocking_children,
            self.parent_iteration,
            self.max_iterations,
            self.elapsed,
            self.timeout,
        )
    }
}

impl DoneEvaluator {
    fn review_accepted(&self, review: &ReviewOutput) -> (r: bool)
        ensures
            r == review_accepts(self.config.coverage_threshold, *review),
    {
        review.coverage_score >= self.config.coverage_threshold && review.missing_items.len()
            == 0 && matches!(review.status, ReviewStatus::Done)
    }

    /// The decision for a parent task.
    pub fn decide_parent(&self, input: &ParentDecisionInput<'_>) -> (r: DoneDecision)
        ensures
            r == input.decision(self.config.coverage_threshold),
            input.review.missing_items@.len() > 0 ==> r != DoneDecision::Done,
            r == DoneDecision::Done ==> input.review.status == ReviewStatus::Done
                && input.review.coverage_score >= self.config.coverage_threshold,
    {
        if input.elapsed >= input.timeout {
            return DoneDecision::NeedsHuman;
        }
        let ready_for_done = input.gates.passed_except(input.non_blocking_gates)
            && !input.has_open_blocking_children && self.review_accepted(input.review);
        if ready_for_done {
            DoneDecision::Done
        } else if input.parent_iteration >= input.max_iterations {
            DoneDecision::NeedsHuman
        } else {
            DoneDecision::Rework
        }
    }

    /// The decision for a child task that runs inline.
    pub fn decide_child(
        &self,
        gates: &GateReport,
        review: &ReviewOutput,
        non_blocking_gates: &GateSet,
    ) -> (r: DoneDecision)
        ensures
            r == child_decision(
                self.config.coverage_threshold,
                *gates,
                *review,
                *non_blocking_gates,
            ),
            review.missing_items@.len() > 0 ==> r != DoneDecision::Done,
            r == DoneDecision::Done ==> review.status == ReviewStatus::Done && review.coverage_score
                >= self.config.coverage_threshold,
    {
        if gates.passed_except(non_blocking_gates) && self.review_accepted(review) {
            DoneDecision::Done
        } else {
            DoneDecision::Rework
        }
    }

    /// Why a parent task is handed to a human, first reason first.
    pub fn needs_human_reason(
        &self,
        gates: &GateReport,
        review: &ReviewOutput,
        has_open_blocking_children: bool,
        timed_out: bool,
    ) -> (r: String)
        ensures
            r@ == needs_human_text(
                self.config.coverage_threshold,
                *gates,
                *review,
                has_open_blocking_children,
                timed_out,
            ),
    {
        if timed_out {
            return String::from_str("timeout exceeded");
        }
        if !gates.fmt_ok || !gates.clippy_ok || !gates.tests_ok || !gates.perf_ok {
            let mut r = String::from_str("quality gates failed (fmt=");
            r.append(bool_str(gates.fmt_ok));
            r.append(", clippy=");
            r.append(bool_str(gates.clippy_ok));
            r.append(", tests=");
            r.append(bool_str(gates.tests_ok));
            r.append(", perf=");
            r.append(bool_str(gates.perf_ok));
            r.append(")");
            return r;
        }
        if has_open_blocking_children {
            return String::from_str("open blocking child tasks");
        }
        if review.missing_items.len() > 0 {
            let mut r = String::from_str("review missing item: ");
            r.append(review.missing_items[0].as_str());
            return r;
        }
        if review.coverage_score < self.config.coverage_threshold {
            let mut r = String::from_str("review coverage below threshold (coverage=");
            let c = ratio_string(review.coverage_score);
            r.append(c.as_str());
            r.append(", threshold=");
            let t = ratio_string(self.config.coverage_threshold);
            r.append(t.as_str());
            r.append(")");
            return r;
        }
        String::from_str("parent iteration limit reached")
    }
}

pub open spec fn bool_text(b: bool) -> Seq<char> {
    if b {
        "true"@
    } else {
        "false"@
    }
}

/// `bool`'s `Display`.
pub fn bool_str(b: bool) -> (r: &'static str)
    ensures
        r@ == bool_text(b),
{
    if b {
        "true"
    } else {
        "false"
    }
}

/// `s` without its trailing zero digits.
pub open spec fn strip_trailing_zeros(s: Seq<char>) -> Seq<char>
    decreases s.len(),
{
    if s.len() > 0 && s.last() == '0' {
        strip_trailing_zeros(s.drop_last())
    } else {
        s
    }
}

/// The four decimal digits of a fraction in basis points.
pub open spec fn four_digits(f: nat) -> Seq<char> {
    seq![
        digit_char((f / 1000) % 10),
        digit_char((f / 100) % 10),
        digit_char((f / 10) % 10),
        digit_char(f % 10),
    ]
}

/// A ratio given in basis points, written as the shortest decimal number, the
/// way a float that holds it displays: 10000 is `1`, 9500 is `0.95`.
pub open spec fn ratio_text(bp: nat) -> Seq<char> {
    let whole = decimal(bp / 10000);
    if bp % 10000 == 0 {
        whole
    } else {
        whole + "."@ + strip_trailing_zeros(four_digits(bp % 10000))
    }
}

fn digit_of(d: u32) -> (c: char)
    requires
        d < 10,
    ensures
        c == digit_char(d as nat),
{
    if d == 0 { '0' }
    else if d == 1 { '1' }
    else if d == 2 { '2' }
    else if d == 3 { '3' }
    else if d == 4 { '4' }
    else if d == 5 { '5' }
    else if d == 6 { '6' }
    else if d == 7 { '7' }
    else if d == 8 { '8' }
    else { '9' }
}

/// The text of a ratio in basis points.
pub fn ratio_string(bp: u32) -> (r: String)
    ensures
        r@ == ratio_text(bp as nat),
{
    let mut r = decimal_string((bp / 10000) as u64);
    let f: u32 = bp % 10000;
    if f == 0 {
        return r;
    }
    r.append(".");
    let ghost prefix = r@;
    let digits: [u32; 4] = [(f / 1000) % 10, (f / 100) % 10, (f / 10) % 10, f % 10];
    let ghost ds = four_digits(f as nat);
    let mut n: usize = 4;
    assert(ds.take(4) =~= ds);
    while n > 0 && digits[n - 1] == 0
        invariant
            0 <= n <= 4,
            digits@ == seq![(f / 1000) % 10, (f / 100) % 10, (f / 10) % 10, f % 10],
            ds == four_digits(f as nat),
            strip_trailing_zeros(ds) == strip_trailing_zeros(ds.take(n as int)),
        decreases n,
    {
        assert(ds.take(n as int).drop_last() =~= ds.take(n - 1));
        n = n - 1;
    }
    assert(strip_trailing_zeros(ds.take(n as int)) == ds.take(n as int));
    let mut i: usize = 0;
    while i < n
        invariant
            0 <= i <= n <= 4,
            digits@ == seq![(f / 1000) % 10, (f / 100) % 10, (f / 10) % 10, f % 10],
            ds == four_digits(f as nat),
            r@ == prefix + ds.take(i as int),
        decreases n - i,
    {
        push_char(&mut r, digit_of(digits[i]));
        assert(ds.take(i + 1) =~= ds.take(i as int).push(ds[i as int]));
        i = i + 1;
    }
    r
}

/// The reason a parent needs a human, as `needs_human_reason` gives it.
pub open spec fn needs_human_text(
    threshold: u32,
    gates: GateReport,
    review: ReviewOutput,
    has_open_blocking_children: bool,
    timed_out: bool,
) -> Seq<char> {
    if timed_out {
        "timeout exceeded"@
    } else if !gates.fmt_ok || !gates.clippy_ok || !gates.tests_ok || !gates.perf_ok {
        "quality gates failed (fmt="@ + bool_text(gates.fmt_ok) + ", clippy="@ + bool_text(
            gates.clippy_ok,
        ) + ", tests="@ + bool_text(gates.tests_ok) + ", perf="@ + bool_text(gates.perf_ok)
            + ")"@
    } else if has_open_blocking_children {
        "open blocking child tasks"@
    } else if review.missing_items@.len() > 0 {
        "review missing item: "@ + review.missing_items@[0]@
    } else if review.coverage_score < threshold {
        "review coverage below threshold (coverage="@ + ratio_text(review.coverage_score as nat)
            + ", threshold="@ + ratio_text(threshold as nat) + ")"@
    } else {
        "parent iteration limit reached"@
    }
}

/// The label that marks a decomposition task.
pub open spec fn decomposition_label() -> Seq<char> {
    "loop:kind:decomposition"@
}

/// A title that names decomposition or an audit, in English or Russian.
pub open spec fn decomposition_title(lower: Seq<char>) -> bool {
    ||| has_substring(lower, "decomposition"@)
    ||| has_substring(lower, "decompose"@)
    ||| has_substring(lower, "декомпози"@)
    ||| has_substring(lower, "аудит"@)
    ||| has_substring(lower, "инвентаризац"@)
}

/// A parent whose gates all pass, that has open children and that is a
/// decomposition task (by label or by title) is closed as a handoff.
pub open spec fn decomposition_handoff(
    task: Task,
    gates: GateReport,
    open_children: Seq<Task>,
) -> bool {
    &&& forall|g: GateName| #[trigger] gates.ok(g)
    &&& open_children.len() > 0
    &&& ((exists|i: int|
        0 <= i < task.labels@.len() && #[trigger] task.labels@[i]@ == decomposition_label())
        || decomposition_title(lowercase(task.title@)))
}

/// Whether a parent task is closed as a decomposition handoff.
pub fn should_close_as_decomposition_handoff(
    task: &Task,
    gates: &GateReport,
    open_children: &[Task],
) -> (r: bool)
    ensures
        r == decomposition_handoff(*task, *gates, open_children@),
        r ==> (forall|g: GateName| #[trigger] gates.ok(g)) && open_children@.len() > 0,
        ((forall|g: GateName| #[trigger] gates.ok(g)) && open_children@.len() > 0 && {
            let lower = lowercase(task.title@);
            ||| has_substring(lower, "decomposition"@)
            ||| has_substring(lower, "decompose"@)
            ||| has_substring(lower, "декомпози"@)
            ||| has_substring(lower, "аудит"@)
            ||| has_substring(lower, "инвентаризац"@)
        }) ==> r,
{
    if !gates.all_passed() || open_children.len() == 0 {
        return false;
    }
    let label = String::from_str("loop:kind:decomposition");
    let mut i: usize = 0;
    while i < task.labels.len()
        invariant
            i <= task.labels@.len(),
            label@ == decomposition_label(),
            open_children@.len() > 0,
            forall|g: GateName| #[trigger] gates.ok(g),
            forall|j: int| 0 <= j < i ==> #[trigger] task.labels@[j]@ != decomposition_label(),
        decreases task.labels.len() - i,
    {
        if task.labels[i] == label {
            assert(task.labels@[i as int]@ == decomposition_label());
            return true;
        }
        i = i + 1;
    }
    let title = to_lowercase(task.title.as_str());
    let t = title.as_str();
    contains(t, "decomposition") || contains(t, "decompose") || contains(t, "декомпози")
        || contains(t, "аудит") || contains(t, "инвентаризац")
}

/// Marking more gates as non-blocking never turns a done child into rework.
pub proof fn lemma_child_non_blocking_monotone(
    threshold: u32,
    gates: GateReport,
    review: ReviewOutput,
    fewer: GateSet,
    more: GateSet,
)
    requires
        more.includes(fewer),
        child_decision(threshold, gates, review, fewer) == DoneDecision::Done,
    ensures
        child_decision(threshold, gates, review, more) == DoneDecision::Done,
{
    assert forall|g: GateName| #[trigger] gates.ok(g) || more.has(g) by {
        assert(gates.ok(g) || fewer.has(g));
    }
}

/// Marking more gates as non-blocking never turns a done parent into anything else.
pub proof fn lemma_parent_non_blocking_monotone(
    threshold: u32,
    gates: GateReport,
    fewer: GateSet,
    more: GateSet,
    review: ReviewOutput,
    has_open_blocking_children: bool,
    parent_iteration: u32,
    max_iterations: u32,
    elapsed: u64,
    timeout: u64,
)
    requires
        more.includes(fewer),
        parent_decision(
            threshold,
            gates,
            fewer,
            review,
            has_open_blocking_children,
            parent_iteration,
            max_iterations,
            elapsed,
            timeout,
        ) == DoneDecision::Done,
    ensures
        parent_decision(
            threshold,
            gates,
            more,
            review,
            has_open_blocking_children,
            parent_iteration,
            max_iterations,
            elapsed,
            timeout,
        ) == DoneDecision::Done,
{
    assert forall|g: GateName| #[trigger] gates.ok(g) || more.has(g) by {
        assert(gates.ok(g) || fewer.has(g));
    }
}

/// A parent that is done would also be done as a child with the same gates and review.
pub proof fn lemma_parent_done_implies_child_done(
    threshold: u32,
    gates: GateReport,
    non_blocking: GateSet,
    review: ReviewOutput,
    has_open_blocking_children: bool,
    parent_iteration: u32,
    max_iterations: u32,
    elapsed: u64,
    timeout: u64,
)
    requires
        parent_decision(
            threshold,
            gates,
            non_blocking,
            review,
            has_open_blocking_children,
            parent_iteration,
            max_iterations,
            elapsed,
            timeout,
        ) == DoneDecision::Done,
    ensures
        child_decision(threshold, gates, review, non_blocking) == DoneDecision::Done,
{
}

/// Once its time is up a parent needs a human, whatever its gates and review say.
pub proof fn lemma_timeout_needs_human(
    threshold: u32,
    gates: GateReport,
    non_blocking: GateSet,
    review: ReviewOutput,
    has_open_blocking_children: bool,
    parent_iteration: u32,
    max_iterations: u32,
    elapsed: u64,
    timeout: u64,
)
    requires
        elapsed >= timeout,
    ensures
        parent_decision(
            threshold,
            gates,
            non_blocking,
            review,
            has_open_blocking_children,
            parent_iteration,
            max_iterations,
            elapsed,
            timeout,
        ) == DoneDecision::NeedsHuman,
{
}

/// Before its time is up and its last iteration, a parent is never handed to a human.
pub proof fn lemma_rework_before_limits(
    threshold: u32,
    gates: GateReport,
    non_blocking: GateSet,
    review: ReviewOutput,
    has_open_blocking_children: bool,
    parent_iteration: u32,
    max_iterations: u32,
    elapsed: u64,
    timeout: u64,
)
    requires
        elapsed < timeout,
        parent_iteration < max_iterations,
    ensures
        parent_decision(
            threshold,
            gates,
            non_blocking,
            review,
            has_open_blocking_children,
            parent_iteration,
            max_iterations,
            elapsed,
            timeout,
        ) != DoneDecision::NeedsHuman,
{
}

/// What happens to a parent task after an iteration of the agent's work.
#[derive(Debug, Clone, PartialEq, Eq)]
pub enum ParentAction {
    /// Close the task with `reason`, and retain `summary`.
    Close { reason: String, summary: String },
    /// Block the task for a human with `reason`, and retain `summary`.
    Block { reason: String, summary: String },
    /// Run another iteration.
    Rework,
}

/// Some open child blocks the parent.
pub open spec fn any_blocking_child(children: Seq<Task>) -> bool {
    exists|i: int| 0 <= i < children.len() && #[trigger] children[i].blocks_parent()
}

/// The summary retained when a task needs a human.
pub open spec fn needs_human_summary(reason: Seq<char>) -> Seq<char> {
    "Task requires human intervention: "@ + reason
}

/// `a` is the action for a parent after an iteration: a decomposition task with
/// green gates and open children is closed as a handoff; otherwise a done
/// decision closes it, a rework decision reworks it, and a needs-human decision
/// blocks it with the first reason.
pub open spec fn parent_action_holds(
    threshold: u32,
    task: Task,
    gates: GateReport,
    non_blocking: GateSet,
    review: ReviewOutput,
    open_children: Seq<Task>,
    parent_iteration: u32,
    max_iterations: u32,
    elapsed: u64,
    timeout: u64,
    a: ParentAction,
) -> bool {
    if decomposition_handoff(task, gates, open_children) {
        a matches ParentAction::Close { reason, summary } && reason@
            == "agent-loop: decomposition handoff completed"@ && summary@
            == "Task closed as decomposition handoff with delegated child tasks"@
    } else {
        match parent_decision(
            threshold,
            gates,
            non_blocking,
            review,
            any_blocking_child(open_children),
            parent_iteration,
            max_iterations,
            elapsed,
            timeout,
        ) {
            DoneDecision::Done => a matches ParentAction::Close { reason, summary } && reason@
                == "agent-loop: completed"@ && summary@ == "Task completed with done decision"@,
            DoneDecision::Rework => a matches ParentAction::Rework,
            DoneDecision::NeedsHuman => {
                let why = needs_human_text(
                    threshold,
                    gates,
                    review,
                    any_blocking_child(open_children),
                    elapsed >= timeout,
                );
                a matches ParentAction::Block { reason, summary } && reason@ == why && summary@
                    == needs_human_summary(why)
            },
        }
    }
}

/// Whether some open child blocks the parent.
pub fn has_blocking_child(children: &[Task]) -> (r: bool)
    ensures
        r == any_blocking_child(children@),
{
    let mut i: usize = 0;
    while i < children.len()
        invariant
            i <= children@.len(),
            forall|j: int| 0 <= j < i ==> !(#[trigger] children@[j]).blocks_parent(),
        decreases children.len() - i,
    {
        if children[i].is_blocking_child() {
            return true;
        }
        i = i + 1;
    }
    false
}

/// The action that blocks a task for a human.
pub fn block_for_human(reason: String) -> (r: ParentAction)
    ensures
        r matches ParentAction::Block { reason: why, summary } && why@ == reason@ && summary@
            == needs_human_summary(reason@),
{
    let mut summary = String::from_str("Task requires human intervention: ");
    summary.append(reason.as_str());
    ParentAction::Block { reason, summary }
}

impl DoneEvaluator {
    /// What happens to a parent after an iteration, from its gates, its review,
    /// its open children and its time.
    pub fn next_parent_action(
        &self,
        task: &Task,
        gates: &GateReport,
        non_blocking_gates: &GateSet,
        review: &ReviewOutput,
        open_children: &[Task],
        parent_iteration: u32,
        max_iterations: u32,
        elapsed: u64,
        timeout: u64,
    ) -> (r: ParentAction)
        ensures
            parent_action_holds(
                self.config.coverage_threshold,
                *task,
                *gates,
                *non_blocking_gates,
                *review,
                open_children@,
                parent_iteration,
                max_iterations,
                elapsed,
                timeout,
                r,
            ),
    {
        if should_close_as_decomposition_handoff(task, gates, open_children) {
            return ParentAction::Close {
                reason: String::from_str("agent-loop: decomposition handoff completed"),
                summary: String::from_str(
                    "Task closed as decomposition handoff with delegated child tasks",
                ),
            };
        }
        let has_open_blocking_children = has_blocking_child(open_children);
        let input = ParentDecisionInput {
            gates,
            non_blocking_gates,
            review,
            has_open_blocking_children,
            parent_iteration,
            max_iterations,
            elapsed,
            timeout,
        };
        match self.decide_parent(&input) {
            DoneDecision::Done => ParentAction::Close {
                reason: String::from_str("agent-loop: completed"),
                summary: String::from_str("Task completed with done decision"),
            },
            DoneDecision::Rework => ParentAction::Rework,
            DoneDecision::NeedsHuman => {
                let reason = self.needs_human_reason(
                    gates,
                    review,
                    has_open_blocking_children,
                    elapsed >= timeout,
                );
                block_for_human(reason)
            },
        }
    }

    /// The action once every iteration is used up.
    pub fn iteration_limit_action(&self) -> (r: ParentAction)
        ensures
            r matches ParentAction::Block { reason, summary } && reason@
                == "parent iteration limit reached"@ && summary@ == needs_human_summary(
                "parent iteration limit reached"@,
            ),
    {
        block_for_human(String::from_str("parent iteration limit reached"))
    }

    /// The action when the time is up before an iteration starts.
    pub fn timeout_action(&self) -> (r: ParentAction)
        ensures
            r matches ParentAction::Block { reason, summary } && reason@ == "timeout exceeded"@
                && summary@ == needs_human_summary("timeout exceeded"@),
    {
        block_for_human(String::from_str("timeout exceeded"))
    }
}


/// A review that lists a missing item never makes a child or a parent done,
/// whatever the gates, the threshold, the children and the time.
pub proof fn lemma_missing_items_never_done(
    review: ReviewOutput,
    threshold: u32,
    gates: GateReport,
    non_blocking: GateSet,
    has_open_blocking_children: bool,
    parent_iteration: u32,
    max_iterations: u32,
    elapsed: u64,
    timeout: u64,
)
    requires
        review.missing_items@.len() > 0,
    ensures
        child_decision(threshold, gates, review, non_blocking) != DoneDecision::Done,
        parent_decision(
            threshold,
            gates,
            non_blocking,
            review,
            has_open_blocking_children,
            parent_iteration,
            max_iterations,
            elapsed,
            timeout,
        ) != DoneDecision::Done,
{
}

/// A child is done exactly when every gate passes or is non-blocking and its
/// review says done, covers at least the threshold and misses nothing.
pub proof fn lemma_child_done_exactly(
    review: ReviewOutput,
    threshold: u32,
    gates: GateReport,
    non_blocking: GateSet,
)
    ensures
        (child_decision(threshold, gates, review, non_blocking) == DoneDecision::Done) <==> ({
            &&& forall|g: GateName| #[trigger] gates.ok(g) || non_blocking.has(g)
            &&& review.status == ReviewStatus::Done
            &&& review.coverage_score >= threshold
            &&& review.missing_items@.len() == 0
        }),
{
}

/// A parent is done exactly when it is within its time, every gate passes or is
/// non-blocking, no open child blocks it, and its review says done, covers at
/// least the threshold and misses nothing.
pub proof fn lemma_parent_done_exactly(
    review: ReviewOutput,
    threshold: u32,
    gates: GateReport,
    non_blocking: GateSet,
    has_open_blocking_children: bool,
    parent_iteration: u32,
    max_iterations: u32,
    elapsed: u64,
    timeout: u64,
)
    ensures
        (parent_decision(
            threshold,
            gates,
            non_blocking,
            review,
            has_open_blocking_children,
            parent_iteration,
            max_iterations,
            elapsed,
            timeout,
        ) == DoneDecision::Done) <==> ({
            &&& elapsed < timeout
            &&& forall|g: GateName| #[trigger] gates.ok(g) || non_blocking.has(g)
            &&& !has_open_blocking_children
            &&& review.status == ReviewStatus::Done
            &&& review.coverage_score >= threshold
            &&& review.missing_items@.len() == 0
        }),
{
}

/// A parent with every gate green and some open child is closed as a
/// decomposition handoff when it carries the decomposition label or its
/// lowercased title mentions decomposition, decompose, декомпози, аудит or
/// инвентаризац; it is closed so only with green gates and open children.
pub proof fn lemma_decomposition_handoff_exactly(task: Task, gates: GateReport, open_children: Seq<Task>)
    ensures
        decomposition_handoff(task, gates, open_children) <==> ({
            let lower = lowercase(task.title@);
            &&& forall|g: GateName| #[trigger] gates.ok(g)
            &&& open_children.len() > 0
            &&& {
                ||| exists|i: int|
                    0 <= i < task.labels@.len() && #[trigger] task.labels@[i]@
                        == "loop:kind:decomposition"@
                ||| has_substring(lower, "decomposition"@)
                ||| has_substring(lower, "decompose"@)
                ||| has_substring(lower, "декомпози"@)
                ||| has_substring(lower, "аудит"@)
                ||| has_substring(lower, "инвентаризац"@)
            }
        }),
{
}

/// After an iteration, a parent with every gate green, some open child and a
/// lowercased title that mentions декомпози is closed as a decomposition
/// handoff, whatever its review, its blocking children and its time.
pub proof fn lemma_russian_decomposition_closes(
    threshold: u32,
    task: Task,
    gates: GateReport,
    non_blocking: GateSet,
    review: ReviewOutput,
    open_children: Seq<Task>,
    parent_iteration: u32,
    max_iterations: u32,
    elapsed: u64,
    timeout: u64,
    a: ParentAction,
)
    requires
        parent_action_holds(
            threshold,
            task,
            gates,
            non_blocking,
            review,
            open_children,
            parent_iteration,
            max_iterations,
            elapsed,
            timeout,
            a,
        ),
        forall|g: GateName| #[trigger] gates.ok(g),
        open_children.len() > 0,
        has_substring(lowercase(task.title@), "декомпози"@),
    ensures
        a matches ParentAction::Close { reason, .. } && reason@
            == "agent-loop: decomposition handoff completed"@,
{
}

} // verus!
