//! The single-run loop and the collaborators it drives.
use vstd::prelude::*;
use vstd::string::*;

use crate::adapters::quality::{gate_command, gate_command_line};
use crate::config::{
    opt_view, ExecutionDriver, LoopProfile, RetainMode, RunCommand, model_choice, non_blank,
    profile_non_blocking,
};
use crate::contracts::{
    GateName, GateReport, GateSet, ProductStormOutput, ReviewOutput, RunOutcome,
    SpawnTaskCandidate, SpawnTaskKind, SpecOutput, Task,
};
use crate::error::{LoopError, Result};
use crate::text::{decimal, decimal_string, join, join_strings, views};

verus! {

/// The view of an optional string slice.
pub open spec fn opt_str_view(o: Option<&str>) -> Option<Seq<char>> {
    match o {
        Some(s) => Some(s@),
        None => None,
    }
}

/// A call made to the tracker, with its arguments and what it returned.
pub enum BeadsCall {
    Init { result: Result<()> },
    Bootstrap { goal: Seq<char>, claim: bool, result: Result<Task> },
    Claim { preferred: Option<Seq<char>>, claim: bool, result: Result<Option<Task>> },
    Sync { result: Result<()> },
    Duplicates { parent_id: Seq<char>, candidate: SpawnTaskCandidate, result: Result<Vec<Task>> },
    Child { parent_id: Seq<char>, candidate: SpawnTaskCandidate, result: Result<Task> },
    Dependency { child_id: Seq<char>, parent_id: Seq<char>, result: Result<()> },
    Notes { task_id: Seq<char>, notes: Seq<char>, result: Result<()> },
}

/// The task tracker.
///
/// `log` is the calls made so far, in order, each with what it returned; every
/// call appends itself to it. An implementation that keeps no log leaves it
/// empty and does not meet that promise, so what `AgentLoop::run_once` states of
/// its calls does not hold of it; the library's own clients keep it. Each
/// `..._gives` function is the implementation's account of what the matching
/// call can yield; a call yields one of those outcomes. By default an account
/// admits every outcome.
pub trait BeadsClient {
    open spec fn log(&self) -> Seq<BeadsCall> {
        Seq::empty()
    }

    open spec fn initialized_gives(&self, r: Result<()>) -> bool {
        true
    }

    open spec fn bootstrap_gives(&self, goal: Seq<char>, claim: bool, r: Result<Task>) -> bool {
        true
    }

    open spec fn claim_gives(
        &self,
        preferred: Option<Seq<char>>,
        claim: bool,
        r: Result<Option<Task>>,
    ) -> bool {
        true
    }

    open spec fn sync_gives(&self, r: Result<()>) -> bool {
        true
    }

    open spec fn duplicates_give(
        &self,
        parent_id: Seq<char>,
        candidate: SpawnTaskCandidate,
        r: Result<Vec<Task>>,
    ) -> bool {
        true
    }

    open spec fn child_gives(
        &self,
        parent_id: Seq<char>,
        candidate: SpawnTaskCandidate,
        r: Result<Task>,
    ) -> bool {
        true
    }

    open spec fn dependency_gives(&self, child_id: Seq<char>, parent_id: Seq<char>, r: Result<()>) -> bool {
        true
    }

    open spec fn notes_give(&self, task_id: Seq<char>, notes: Seq<char>, r: Result<()>) -> bool {
        true
    }

    fn ensure_initialized(&mut self) -> (r: Result<()>)
        ensures
            old(self).initialized_gives(r),
            final(self).log() == old(self).log().push((BeadsCall::Init { result: r })),
    ;

    /// Creates the bootstrap task for a goal, and claims it when `claim` is set.
    fn create_bootstrap_parent_task(&mut self, goal: &str, claim: bool) -> (r: Result<Task>)
        ensures
            old(self).bootstrap_gives(goal@, claim, r),
            final(self).log() == old(self).log().push(
                (BeadsCall::Bootstrap { goal: goal@, claim, result: r }),
            ),
    ;

    /// Takes the preferred task, or else the first ready one, and claims it
    /// when `claim` is set.
    fn claim_parent_task(&mut self, preferred_task: Option<&str>, claim: bool) -> (r: Result<
        Option<Task>,
    >)
        ensures
            old(self).claim_gives(opt_str_view(preferred_task), claim, r),
            final(self).log() == old(self).log().push(
                (BeadsCall::Claim { preferred: opt_str_view(preferred_task), claim, result: r }),
            ),
    ;

    fn sync(&mut self) -> (r: Result<()>)
        ensures
            old(self).sync_gives(r),
            final(self).log() == old(self).log().push((BeadsCall::Sync { result: r })),
    ;

    fn search_duplicates(&mut self, parent_id: &str, candidate: &SpawnTaskCandidate) -> (r: Result<
        Vec<Task>,
    >)
        ensures
            old(self).duplicates_give(parent_id@, *candidate, r),
            final(self).log() == old(self).log().push(
                (BeadsCall::Duplicates { parent_id: parent_id@, candidate: *candidate, result: r }),
            ),
    ;

    fn create_child_task(&mut self, parent_id: &str, candidate: &SpawnTaskCandidate) -> (r: Result<
        Task,
    >)
        ensures
            old(self).child_gives(parent_id@, *candidate, r),
            final(self).log() == old(self).log().push(
                (BeadsCall::Child { parent_id: parent_id@, candidate: *candidate, result: r }),
            ),
    ;

    fn add_blocking_dependency(&mut self, child_id: &str, parent_id: &str) -> (r: Result<()>)
        ensures
            old(self).dependency_gives(child_id@, parent_id@, r),
            final(self).log() == old(self).log().push(
                (BeadsCall::Dependency { child_id: child_id@, parent_id: parent_id@, result: r }),
            ),
    ;

    fn add_notes(&mut self, task_id: &str, notes: &str) -> (r: Result<()>)
        ensures
            old(self).notes_give(task_id@, notes@, r),
            final(self).log() == old(self).log().push(
                (BeadsCall::Notes { task_id: task_id@, notes: notes@, result: r }),
            ),
    ;
}

/// A call made to the memory service, with its arguments and what it returned.
pub enum HindsightCall {
    Available { result: Result<()> },
    Preferences { result: Result<()> },
    Bank { bank: Seq<char>, result: Result<()> },
    Context { bank: Seq<char>, query: Seq<char>, result: Result<()> },
    Retain {
        bank: Seq<char>,
        doc_id: Seq<char>,
        context: Seq<char>,
        content: Seq<char>,
        async_mode: bool,
        result: Result<()>,
    },
}

/// The long-term memory service, with a log and an account of each call as for
/// the tracker.
pub trait HindsightClient {
    open spec fn log(&self) -> Seq<HindsightCall> {
        Seq::empty()
    }

    open spec fn available_gives(&self, r: Result<()>) -> bool {
        true
    }

    open spec fn bank_gives(&self, bank: Seq<char>, r: Result<()>) -> bool {
        true
    }

    open spec fn preferences_give(&self, r: Result<()>) -> bool {
        true
    }

    open spec fn context_gives(&self, bank: Seq<char>, query: Seq<char>, r: Result<()>) -> bool {
        true
    }

    open spec fn retain_gives(
        &self,
        bank: Seq<char>,
        doc_id: Seq<char>,
        context: Seq<char>,
        content: Seq<char>,
        async_mode: bool,
        r: Result<()>,
    ) -> bool {
        true
    }

    fn ensure_available(&mut self) -> (r: Result<()>)
        ensures
            old(self).available_gives(r),
            final(self).log() == old(self).log().push((HindsightCall::Available { result: r })),
    ;

    fn ensure_project_bank(&mut self, bank: &str) -> (r: Result<()>)
        ensures
            old(self).bank_gives(bank@, r),
            final(self).log() == old(self).log().push((HindsightCall::Bank { bank: bank@, result: r })),
    ;

    fn recall_preferences(&mut self) -> (r: Result<()>)
        ensures
            old(self).preferences_give(r),
            final(self).log() == old(self).log().push((HindsightCall::Preferences { result: r })),
    ;

    fn recall_task_context(&mut self, bank: &str, query: &str) -> (r: Result<()>)
        ensures
            old(self).context_gives(bank@, query@, r),
            final(self).log() == old(self).log().push(
                (HindsightCall::Context { bank: bank@, query: query@, result: r }),
            ),
    ;

    fn retain_summary(
        &mut self,
        bank: &str,
        doc_id: &str,
        context: &str,
        content: &str,
        async_mode: bool,
    ) -> (r: Result<()>)
        ensures
            old(self).retain_gives(bank@, doc_id@, context@, content@, async_mode, r),
            final(self).log() == old(self).log().push(
                (HindsightCall::Retain {
                    bank: bank@,
                    doc_id: doc_id@,
                    context: context@,
                    content: content@,
                    async_mode,
                    result: r,
                }),
            ),
    ;
}

/// A call made to the memory bank, with its arguments and what it returned.
pub enum MemoryCall {
    Exists { result: Result<()> },
    Prime { result: Result<()> },
    Prepare { topic: Seq<char>, result: Result<()> },
}

/// The project's memory bank of notes, with a log and an account of each call
/// as for the tracker.
pub trait MemoryBankClient {
    open spec fn log(&self) -> Seq<MemoryCall> {
        Seq::empty()
    }

    open spec fn exists_gives(&self, r: Result<()>) -> bool {
        true
    }

    open spec fn prime_gives(&self, r: Result<()>) -> bool {
        true
    }

    open spec fn prepare_gives(&self, topic: Seq<char>, r: Result<()>) -> bool {
        true
    }

    fn ensure_exists(&mut self) -> (r: Result<()>)
        ensures
            old(self).exists_gives(r),
            final(self).log() == old(self).log().push((MemoryCall::Exists { result: r })),
    ;

    fn prime(&mut self) -> (r: Result<()>)
        ensures
            old(self).prime_gives(r),
            final(self).log() == old(self).log().push((MemoryCall::Prime { result: r })),
    ;

    fn prepare(&mut self, topic: &str) -> (r: Result<()>)
        ensures
            old(self).prepare_gives(topic@, r),
            final(self).log() == old(self).log().push((MemoryCall::Prepare { topic: topic@, result: r })),
    ;
}

/// A call made to the model, with its arguments and what it returned.
pub enum LlmCall {
    Storm { task: Task, result: Result<ProductStormOutput> },
    Spec { task: Task, storm: ProductStormOutput, result: Result<SpecOutput> },
    Phase { phase: TddPhase, task: Task, spec: SpecOutput, iteration: u32, result: Result<()> },
    Review { task: Task, spec: SpecOutput, iteration: u32, result: Result<ReviewOutput> },
}

/// The model that storms, specifies and reviews tasks, with a log and an
/// account of each call as for the tracker.
pub trait LlmClient {
    open spec fn log(&self) -> Seq<LlmCall> {
        Seq::empty()
    }

    open spec fn storm_gives(&self, task: Task, r: Result<ProductStormOutput>) -> bool {
        true
    }

    open spec fn spec_gives(&self, task: Task, storm: ProductStormOutput, r: Result<SpecOutput>) -> bool {
        true
    }

    open spec fn phase_gives(
        &self,
        phase: TddPhase,
        task: Task,
        spec: SpecOutput,
        iteration: u32,
        r: Result<()>,
    ) -> bool {
        true
    }

    open spec fn review_gives(
        &self,
        task: Task,
        spec: SpecOutput,
        iteration: u32,
        r: Result<ReviewOutput>,
    ) -> bool {
        true
    }

    fn product_storm(&mut self, task: &Task) -> (r: Result<ProductStormOutput>)
        ensures
            old(self).storm_gives(*task, r),
            final(self).log() == old(self).log().push((LlmCall::Storm { task: *task, result: r })),
    ;

    fn spec_first(&mut self, task: &Task, storm: &ProductStormOutput) -> (r: Result<SpecOutput>)
        ensures
            old(self).spec_gives(*task, *storm, r),
            final(self).log() == old(self).log().push(
                (LlmCall::Spec { task: *task, storm: *storm, result: r }),
            ),
    ;

    fn run_red_phase(&mut self, task: &Task, spec: &SpecOutput, iteration: u32) -> (r: Result<()>)
        ensures
            old(self).phase_gives(TddPhase::Red, *task, *spec, iteration, r),
            final(self).log() == old(self).log().push(
                (LlmCall::Phase { phase: TddPhase::Red, task: *task, spec: *spec, iteration, result: r }),
            ),
    ;

    fn run_green_phase(&mut self, task: &Task, spec: &SpecOutput, iteration: u32) -> (r: Result<()>)
        ensures
            old(self).phase_gives(TddPhase::Green, *task, *spec, iteration, r),
            final(self).log() == old(self).log().push(
                (LlmCall::Phase { phase: TddPhase::Green, task: *task, spec: *spec, iteration, result: r }),
            ),
    ;

    fn run_refactor_phase(&mut self, task: &Task, spec: &SpecOutput, iteration: u32) -> (r: Result<
        (),
    >)
        ensures
            old(self).phase_gives(TddPhase::Refactor, *task, *spec, iteration, r),
            final(self).log() == old(self).log().push(
                (LlmCall::Phase {
                    phase: TddPhase::Refactor,
                    task: *task,
                    spec: *spec,
                    iteration,
                    result: r,
                }),
            ),
    ;

    fn review(&mut self, task: &Task, spec: &SpecOutput, iteration: u32) -> (r: Result<ReviewOutput>)
        ensures
            old(self).review_gives(*task, *spec, iteration, r),
            final(self).log() == old(self).log().push(
                (LlmCall::Review { task: *task, spec: *spec, iteration, result: r }),
            ),
    ;
}

/// A phase of the test-driven cycle.
#[derive(Debug, Clone, Copy, PartialEq, Eq, Structural)]
pub enum TddPhase {
    Red,
    Green,
    Refactor,
}

/// Runs the project's quality gates, with an account of each run as for the tracker.
pub trait QualityGateRunner {
    open spec fn gates_give(&self, task: Task, spec: SpecOutput, r: Result<GateReport>) -> bool {
        true
    }

    fn run_core_gates(&self, task: &Task, spec: &SpecOutput) -> (r: Result<GateReport>)
        ensures
            self.gates_give(*task, *spec, r),
    ;
}

/// The settings of one run.
#[derive(Debug, Clone)]
pub struct RunConfig {
    pub task_id: Option<String>,
    pub bootstrap_goal: Option<String>,
    pub max_iterations: u32,
    pub timeout_minutes: u64,
    pub spawn_cap: usize,
    pub child_inline_timeout_minutes: u64,
    pub small_child_threshold_minutes: u32,
    pub model: String,
    pub hindsight_bank: String,
    pub driver: ExecutionDriver,
    pub profile: LoopProfile,
    pub non_blocking_gates: GateSet,
    pub retain_mode: RetainMode,
    pub json_events: bool,
    pub dry_run: bool,
}

/// Minutes as seconds, saturating at the largest `u64`.
pub open spec fn minutes_to_seconds(minutes: u64) -> u64 {
    if minutes * 60 > u64::MAX {
        u64::MAX
    } else {
        (minutes * 60) as u64
    }
}

/// Minutes as seconds, saturating at the largest `u64`.
pub fn seconds_of(minutes: u64) -> (r: u64)
    ensures
        r == minutes_to_seconds(minutes),
{
    match minutes.checked_mul(60) {
        Some(s) => s,
        None => u64::MAX,
    }
}

impl RunConfig {
    /// The settings of a run of `agent-loop run`: the bootstrap goal and model
    /// resolved, the profile's non-blocking gates added.
    pub fn from_command(value: RunCommand) -> (r: Self)
        ensures
            opt_view(r.task_id) == opt_view(value.task),
            opt_view(r.bootstrap_goal) == non_blank(opt_view(value.bootstrap)),
            r.model@ == model_choice(opt_view(value.model)),
            r.max_iterations == value.max_iterations,
            r.timeout_minutes == value.timeout_minutes,
            r.spawn_cap == value.spawn_cap,
            r.child_inline_timeout_minutes == value.child_inline_timeout_minutes,
            r.small_child_threshold_minutes == value.small_child_threshold_minutes,
            r.hindsight_bank@ == value.hindsight_bank@,
            r.driver == value.driver,
            r.profile == value.profile,
            forall|g: GateName| #[trigger]
                r.non_blocking_gates.has(g) <==> (value.non_blocking_gates@.contains(g)
                    || profile_non_blocking(value.profile, g)),
            r.retain_mode == value.retain_mode,
            r.json_events == value.json_events,
            r.dry_run == value.dry_run,
    {
        let bootstrap_goal = value.resolved_bootstrap_goal();
        let model = value.resolved_model();
        let non_blocking_gates = value.resolved_non_blocking_gates();
        RunConfig {
            task_id: value.task,
            bootstrap_goal,
            max_iterations: value.max_iterations,
            timeout_minutes: value.timeout_minutes,
            spawn_cap: value.spawn_cap,
            child_inline_timeout_minutes: value.child_inline_timeout_minutes,
            small_child_threshold_minutes: value.small_child_threshold_minutes,
            model,
            hindsight_bank: value.hindsight_bank,
            driver: value.driver,
            profile: value.profile,
            non_blocking_gates,
            retain_mode: value.retain_mode,
            json_events: value.json_events,
            dry_run: value.dry_run,
        }
    }

    /// The time budget of a parent task, in seconds.
    pub fn timeout(&self) -> (r: u64)
        ensures
            r == minutes_to_seconds(self.timeout_minutes),
    {
        seconds_of(self.timeout_minutes)
    }

    /// The time budget of an inline child, in seconds.
    pub fn child_timeout(&self) -> (r: u64)
        ensures
            r == minutes_to_seconds(self.child_inline_timeout_minutes),
    {
        seconds_of(self.child_inline_timeout_minutes)
    }
}

/// A candidate is inlined when it may be, is small enough, and is not backlog.
pub open spec fn inlines(threshold_minutes: u32, c: SpawnTaskCandidate) -> bool {
    &&& c.can_inline
    &&& c.estimated_minutes <= threshold_minutes
    &&& c.kind != SpawnTaskKind::Backlog
}

/// The steps of the test-driven cycle for a task.
pub open spec fn tdd_lines(t: Task) -> Seq<Seq<char>> {
    seq![
        "RED: write failing tests for "@ + t.id@ + " ("@ + t.title@ + ") that cover the acceptance criteria"@,
        "GREEN: make the failing tests for "@ + t.id@ + " pass"@,
        "REFACTOR: clean up "@ + t.id@ + " while the tests stay green"@,
    ]
}

/// The command line of a gate, followed by a non-blocking note where it does not block.
pub open spec fn gate_line(g: GateName, non_blocking: GateSet) -> Seq<char> {
    if non_blocking.has(g) {
        gate_command_line(g) + " (non-blocking)"@
    } else {
        gate_command_line(g)
    }
}

/// The gates' commands: fmt, clippy and tests, and the release tests where the
/// spec asks for a performance gate.
pub open spec fn gate_lines(requires_perf_gate: bool, non_blocking: GateSet) -> Seq<Seq<char>> {
    let core = seq![
        gate_line(GateName::Fmt, non_blocking),
        gate_line(GateName::Clippy, non_blocking),
        gate_line(GateName::Tests, non_blocking),
    ];
    if requires_perf_gate {
        core.push(gate_line(GateName::Perf, non_blocking))
    } else {
        core
    }
}

pub open spec fn accept_lines(criteria: Seq<Seq<char>>) -> Seq<Seq<char>> {
    criteria.map_values(|c: Seq<char>| "ACCEPT: "@ + c)
}

pub open spec fn inline_line(t: Task) -> Seq<char> {
    "INLINE "@ + t.id@ + ": "@ + t.title@
}

pub open spec fn inline_lines(children: Seq<Task>) -> Seq<Seq<char>> {
    children.map_values(|t: Task| inline_line(t))
}

pub open spec fn iterate_line(max_iterations: u32, timeout_minutes: u64) -> Seq<char> {
    "ITERATE: repeat RED/GREEN/REFACTOR up to "@ + decimal(max_iterations as nat)
        + " times within "@ + decimal(timeout_minutes as nat) + " minutes"@
}

/// The commands that the agent is handed for a parent task: the test-driven
/// cycle, the quality gates, the acceptance criteria, the small children to
/// finish inline, and the iteration budget.
pub open spec fn plan(
    parent: Task,
    spec: SpecOutput,
    non_blocking: GateSet,
    max_iterations: u32,
    timeout_minutes: u64,
    inline_children: Seq<Task>,
) -> Seq<Seq<char>> {
    tdd_lines(parent) + gate_lines(spec.requires_perf_gate, non_blocking) + accept_lines(
        views(spec.acceptance_criteria@),
    ) + inline_lines(inline_children) + seq![iterate_line(max_iterations, timeout_minutes)]
}

/// A candidate is finished inline exactly when the model said it may be, its
/// estimate is within the threshold, and it is not backlog: one that may not
/// be inlined never is.
pub proof fn lemma_inline_exactly(threshold_minutes: u32, c: SpawnTaskCandidate)
    ensures
        inlines(threshold_minutes, c) == (c.can_inline && c.estimated_minutes <= threshold_minutes
            && c.kind != SpawnTaskKind::Backlog),
        !c.can_inline ==> !inlines(threshold_minutes, c),
{
}

/// The plan's lines, in order: the three steps of the cycle, one line per gate
/// (three, or four with the performance gate), one `ACCEPT` line for every
/// acceptance criterion of the spec in its order, one `INLINE` line for every
/// inline child in its order, and the iteration budget.
pub proof fn lemma_plan_lines(
    parent: Task,
    spec: SpecOutput,
    non_blocking: GateSet,
    max_iterations: u32,
    timeout_minutes: u64,
    inline_children: Seq<Task>,
)
    ensures
        ({
            let p = plan(parent, spec, non_blocking, max_iterations, timeout_minutes, inline_children);
            let g: int = if spec.requires_perf_gate {
                4
            } else {
                3
            };
            let criteria = spec.acceptance_criteria@;
            let n = criteria.len() as int;
            &&& p.len() == 3 + g + n + inline_children.len() + 1
            &&& forall|i: int| 0 <= i < n ==> #[trigger] p[3 + g + i] == "ACCEPT: "@ + criteria[i]@
            &&& forall|k: int|
                0 <= k < inline_children.len() ==> #[trigger] p[3 + g + n + k] == "INLINE "@
                    + inline_children[k].id@ + ": "@ + inline_children[k].title@
            &&& p[3 + g + n + inline_children.len()] == iterate_line(max_iterations, timeout_minutes)
        }),
{
    let p = plan(parent, spec, non_blocking, max_iterations, timeout_minutes, inline_children);
    let g: int = if spec.requires_perf_gate {
        4
    } else {
        3
    };
    let criteria = spec.acceptance_criteria@;
    let n = criteria.len() as int;
    let a = tdd_lines(parent) + gate_lines(spec.requires_perf_gate, non_blocking);
    let acc = accept_lines(views(criteria));
    let inl = inline_lines(inline_children);
    assert(a.len() == 3 + g);
    assert(acc.len() == n);
    assert forall|i: int| 0 <= i < n implies #[trigger] p[3 + g + i] == "ACCEPT: "@ + criteria[i]@ by {
        assert(p[3 + g + i] == acc[i]);
    }
    assert forall|k: int|
        0 <= k < inline_children.len() implies #[trigger] p[3 + g + n + k] == "INLINE "@
            + inline_children[k].id@ + ": "@ + inline_children[k].title@ by {
        assert(p[3 + g + n + k] == inl[k]);
    }
}

/// The command line of a gate, followed by a non-blocking note where it does not block.
pub fn make_gate_line(g: GateName, non_blocking: &GateSet) -> (r: String)
    ensures
        r@ == gate_line(g, *non_blocking),
{
    let mut r = gate_command(g);
    if non_blocking.contains(&g) {
        r.append(" (non-blocking)");
    }
    r
}

/// The commands that the agent is handed for a parent task.
pub fn agent_commands(
    parent: &Task,
    spec: &SpecOutput,
    config: &RunConfig,
    inline_children: &Vec<Task>,
) -> (r: Vec<String>)
    ensures
        views(r@) == plan(
            *parent,
            *spec,
            config.non_blocking_gates,
            config.max_iterations,
            config.timeout_minutes,
            inline_children@,
        ),
{
    let mut r: Vec<String> = Vec::new();
    let mut red = String::from_str("RED: write failing tests for ");
    red.append(parent.id.as_str());
    red.append(" (");
    red.append(parent.title.as_str());
    red.append(") that cover the acceptance criteria");
    r.push(red);
    let mut green = String::from_str("GREEN: make the failing tests for ");
    green.append(parent.id.as_str());
    green.append(" pass");
    r.push(green);
    let mut refactor = String::from_str("REFACTOR: clean up ");
    refactor.append(parent.id.as_str());
    refactor.append(" while the tests stay green");
    r.push(refactor);
    assert(views(r@) =~= tdd_lines(*parent));
    let nb = &config.non_blocking_gates;
    r.push(make_gate_line(GateName::Fmt, nb));
    r.push(make_gate_line(GateName::Clippy, nb));
    r.push(make_gate_line(GateName::Tests, nb));
    if spec.requires_perf_gate {
        r.push(make_gate_line(GateName::Perf, nb));
    }
    let ghost head = tdd_lines(*parent) + gate_lines(spec.requires_perf_gate, *nb);
    assert(views(r@) =~= head);
    let criteria = &spec.acceptance_criteria;
    let mut i: usize = 0;
    while i < criteria.len()
        invariant
            i <= criteria@.len(),
            views(r@) == head + accept_lines(views(criteria@.take(i as int))),
        decreases criteria.len() - i,
    {
        let mut line = String::from_str("ACCEPT: ");
        line.append(criteria[i].as_str());
        let ghost before = r@;
        r.push(line);
        assert(views(criteria@.take(i + 1)) =~= views(criteria@.take(i as int)).push(
            criteria@[i as int]@,
        ));
        assert(views(r@) =~= views(before).push(line@));
        assert(accept_lines(views(criteria@.take(i + 1))) =~= accept_lines(
            views(criteria@.take(i as int)),
        ).push("ACCEPT: "@ + criteria@[i as int]@));
        i = i + 1;
    }
    assert(criteria@.take(criteria@.len() as int) =~= criteria@);
    let ghost head2 = head + accept_lines(views(criteria@));
    let mut j: usize = 0;
    while j < inline_children.len()
        invariant
            j <= inline_children@.len(),
            views(r@) == head2 + inline_lines(inline_children@.take(j as int)),
        decreases inline_children.len() - j,
    {
        let child = &inline_children[j];
        let mut line = String::from_str("INLINE ");
        line.append(child.id.as_str());
        line.append(": ");
        line.append(child.title.as_str());
        let ghost before = r@;
        r.push(line);
        assert(views(r@) =~= views(before).push(line@));
        assert(inline_lines(inline_children@.take(j + 1)) =~= inline_lines(
            inline_children@.take(j as int),
        ).push(inline_line(inline_children@[j as int])));
        j = j + 1;
    }
    assert(inline_children@.take(inline_children@.len() as int) =~= inline_children@);
    let mut iterate = String::from_str("ITERATE: repeat RED/GREEN/REFACTOR up to ");
    let n = decimal_string(config.max_iterations as u64);
    iterate.append(n.as_str());
    iterate.append(" times within ");
    let m = decimal_string(config.timeout_minutes);
    iterate.append(m.as_str());
    iterate.append(" minutes");
    let ghost before = r@;
    r.push(iterate);
    assert(views(r@) =~= views(before).push(iterate@));
    r
}

/// What to do with a spawn candidate while budget remains.
#[derive(Debug, Clone, Copy, PartialEq, Eq, Structural)]
pub enum SpawnStep {
    /// It duplicates an existing task: leave it.
    Skip,
    /// A dry run: use up budget for it, create nothing.
    Reserve,
    /// Create the child.
    Create,
}

/// A candidate with duplicates is skipped; otherwise a dry run only reserves
/// budget, and a real run creates the child.
pub open spec fn spawn_step_of(has_duplicates: bool, dry_run: bool) -> SpawnStep {
    if has_duplicates {
        SpawnStep::Skip
    } else if dry_run {
        SpawnStep::Reserve
    } else {
        SpawnStep::Create
    }
}

/// What to do with a spawn candidate while budget remains.
pub fn spawn_step(has_duplicates: bool, dry_run: bool) -> (r: SpawnStep)
    ensures
        r == spawn_step_of(has_duplicates, dry_run),
{
    if has_duplicates {
        SpawnStep::Skip
    } else if dry_run {
        SpawnStep::Reserve
    } else {
        SpawnStep::Create
    }
}


/// Where making children for a list of candidates ended: whether the tracker
/// calls were the ones the candidates call for (`shaped`), how many calls that
/// took, the budget left, the ids created and the children to be finished
/// inline, in order, and the failure that stopped it, if any.
pub struct SpawnOutcome {
    pub shaped: bool,
    pub used: nat,
    pub budget: nat,
    pub created: Seq<Seq<char>>,
    pub inline: Seq<Task>,
    pub failure: Option<LoopError>,
}

pub open spec fn spawn_done(budget: nat) -> SpawnOutcome {
    SpawnOutcome {
        shaped: true,
        used: 0,
        budget,
        created: Seq::empty(),
        inline: Seq::empty(),
        failure: None,
    }
}

pub open spec fn spawn_misshaped() -> SpawnOutcome {
    SpawnOutcome {
        shaped: false,
        used: 0,
        budget: 0,
        created: Seq::empty(),
        inline: Seq::empty(),
        failure: None,
    }
}

pub open spec fn spawn_stopped(used: nat, budget: nat, created: Seq<Seq<char>>, e: LoopError) -> SpawnOutcome {
    SpawnOutcome { shaped: true, used, budget, created, inline: Seq::empty(), failure: Some(e) }
}

/// `o` after `used` calls that created `created` and collected `inline`.
pub open spec fn spawn_after(
    used: nat,
    created: Seq<Seq<char>>,
    inline: Seq<Task>,
    o: SpawnOutcome,
) -> SpawnOutcome {
    SpawnOutcome {
        shaped: o.shaped,
        used: used + o.used,
        budget: o.budget,
        created: created + o.created,
        inline: inline + o.inline,
        failure: o.failure,
    }
}

/// What the call returned, where it returns nothing else.
pub open spec fn unit_result(c: BeadsCall) -> Result<()> {
    match c {
        BeadsCall::Init { result } => result,
        BeadsCall::Sync { result } => result,
        BeadsCall::Dependency { result, .. } => result,
        BeadsCall::Notes { result, .. } => result,
        _ => Ok(()),
    }
}

/// Making children under `parent_id` for `candidates`, in order, while
/// `budget` lasts, as the tracker `calls` answered: each candidate is searched
/// for duplicates; one with duplicates costs nothing; in a dry run one without
/// costs one unit and nothing is created; otherwise its child is created and
/// costs one unit, is made to block the parent when the candidate blocks, the
/// tracker is synced, and a small child is kept to be finished inline. The
/// first failed call stops it.
pub open spec fn spawn_out(
    parent_id: Seq<char>,
    dry_run: bool,
    threshold: u32,
    candidates: Seq<SpawnTaskCandidate>,
    budget: nat,
    calls: Seq<BeadsCall>,
) -> SpawnOutcome
    decreases candidates.len(),
{
    if candidates.len() == 0 || budget == 0 {
        spawn_done(budget)
    } else if calls.len() == 0 {
        spawn_misshaped()
    } else {
        let c = candidates[0];
        let rest = candidates.drop_first();
        match calls[0] {
            BeadsCall::Duplicates { parent_id: p, candidate: d, result } => if p != parent_id || d != c {
                spawn_misshaped()
            } else {
                match result {
                    Err(e) => spawn_stopped(1, budget, Seq::empty(), e),
                    Ok(found) => if found@.len() > 0 {
                        spawn_after(
                            1,
                            Seq::empty(),
                            Seq::empty(),
                            spawn_out(parent_id, dry_run, threshold, rest, budget, calls.skip(1)),
                        )
                    } else if dry_run {
                        spawn_after(
                            1,
                            Seq::empty(),
                            Seq::empty(),
                            spawn_out(
                                parent_id,
                                dry_run,
                                threshold,
                                rest,
                                (budget - 1) as nat,
                                calls.skip(1),
                            ),
                        )
                    } else if calls.len() < 2 {
                        spawn_misshaped()
                    } else {
                        match calls[1] {
                            BeadsCall::Child { parent_id: p2, candidate: d2, result: made } => if p2
                                != parent_id || d2 != c {
                                spawn_misshaped()
                            } else {
                                match made {
                                    Err(e) => spawn_stopped(2, budget, Seq::empty(), e),
                                    Ok(t) => {
                                        let left = (budget - 1) as nat;
                                        let dep: int = if c.blocking {
                                            1
                                        } else {
                                            0
                                        };
                                        if c.blocking && !(calls.len() > 2 && calls[2]
                                            == (BeadsCall::Dependency {
                                            child_id: t.id@,
                                            parent_id,
                                            result: unit_result(calls[2]),
                                        })) {
                                            spawn_misshaped()
                                        } else if c.blocking && unit_result(calls[2]) is Err {
                                            spawn_stopped(
                                                3,
                                                left,
                                                seq![t.id@],
                                                unit_result(calls[2])->Err_0,
                                            )
                                        } else if !(calls.len() > 2 + dep && calls[2 + dep] is Sync) {
                                            spawn_misshaped()
                                        } else if unit_result(calls[2 + dep]) is Err {
                                            spawn_stopped(
                                                (3 + dep) as nat,
                                                left,
                                                seq![t.id@],
                                                unit_result(calls[2 + dep])->Err_0,
                                            )
                                        } else {
                                            spawn_after(
                                                (3 + dep) as nat,
                                                seq![t.id@],
                                                if inlines(threshold, c) {
                                                    seq![t]
                                                } else {
                                                    Seq::empty()
                                                },
                                                spawn_out(
                                                    parent_id,
                                                    dry_run,
                                                    threshold,
                                                    rest,
                                                    left,
                                                    calls.skip(3 + dep),
                                                ),
                                            )
                                        }
                                    },
                                }
                            },
                            _ => spawn_misshaped(),
                        }
                    },
                }
            },
            _ => spawn_misshaped(),
        }
    }
}

/// The call found nothing under `parent_id` in a duplicate search for `candidate`.
pub open spec fn searched_fresh(c: BeadsCall, parent_id: Seq<char>, candidate: SpawnTaskCandidate) -> bool {
    match c {
        BeadsCall::Duplicates { parent_id: p, candidate: d, result } => p == parent_id && d == candidate
            && (result matches Ok(found) && found@.len() == 0),
        _ => false,
    }
}

/// A creation at `j` is of a child under `parent_id`, right after a duplicate
/// search for the same candidate that found nothing.
pub open spec fn created_fresh(calls: Seq<BeadsCall>, parent_id: Seq<char>, j: int) -> bool {
    match calls[j] {
        BeadsCall::Child { parent_id: p, candidate, .. } => p == parent_id && j >= 1 && searched_fresh(
            calls[j - 1],
            parent_id,
            candidate,
        ),
        _ => true,
    }
}

/// A child created at `j` for a blocking candidate is made to block the
/// parent by the next call, within the first `used` calls.
pub open spec fn blocks_parent(calls: Seq<BeadsCall>, parent_id: Seq<char>, j: int, used: int) -> bool {
    match calls[j] {
        BeadsCall::Child { candidate, result, .. } => (candidate.blocking && result is Ok) ==> {
            &&& j + 1 < used
            &&& calls[j + 1] == (BeadsCall::Dependency {
                child_id: result->Ok_0.id@,
                parent_id,
                result: unit_result(calls[j + 1]),
            })
        },
        _ => true,
    }
}

/// Making children keeps its promises, whatever the tracker answers: a child
/// is created only right after a duplicate search for its candidate found
/// nothing; a child of a blocking candidate is made to block the parent; no
/// more children are created than the budget allows, each using up one unit;
/// and a dry run creates nothing.
pub proof fn lemma_spawn_laws(
    parent_id: Seq<char>,
    dry_run: bool,
    threshold: u32,
    candidates: Seq<SpawnTaskCandidate>,
    budget: nat,
    calls: Seq<BeadsCall>,
)
    requires
        spawn_out(parent_id, dry_run, threshold, candidates, budget, calls).shaped,
    ensures
        ({
            let o = spawn_out(parent_id, dry_run, threshold, candidates, budget, calls);
            &&& o.used <= calls.len()
            &&& o.budget <= budget
            &&& o.created.len() <= budget - o.budget
            &&& dry_run ==> o.created.len() == 0
            &&& dry_run ==> forall|j: int| 0 <= j < o.used ==> (#[trigger] calls[j] is Duplicates)
            &&& forall|j: int| 0 <= j < o.used ==> #[trigger] created_fresh(calls, parent_id, j)
            &&& forall|j: int| 0 <= j < o.used ==> #[trigger] blocks_parent(calls, parent_id, j, o.used as int)
        }),
    decreases candidates.len(),
{
    let o = spawn_out(parent_id, dry_run, threshold, candidates, budget, calls);
    if candidates.len() == 0 || budget == 0 {
        return;
    }
    let c = candidates[0];
    let rest = candidates.drop_first();
    let d = calls[0];
    let found = d->Duplicates_result;
    if found is Err {
        assert(calls[0] is Duplicates);
        return;
    }
    let n: int = if found->Ok_0@.len() > 0 || dry_run {
        1
    } else {
        let t = calls[1]->Child_result;
        if t is Err {
            return;
        }
        let dep: int = if c.blocking { 1 } else { 0 };
        if c.blocking && unit_result(calls[2]) is Err {
            return;
        }
        if unit_result(calls[2 + dep]) is Err {
            return;
        }
        3 + dep
    };
    let b2: nat = if found->Ok_0@.len() > 0 { budget } else { (budget - 1) as nat };
    let tail = calls.skip(n);
    lemma_spawn_laws(parent_id, dry_run, threshold, rest, b2, tail);
    let r = spawn_out(parent_id, dry_run, threshold, rest, b2, tail);
    assert forall|j: int| 0 <= j < o.used implies #[trigger] created_fresh(calls, parent_id, j) by {
        if j >= n {
            assert(calls[j] == tail[j - n]);
            assert(created_fresh(tail, parent_id, j - n));
            if j - n >= 1 {
                assert(calls[j - 1] == tail[j - n - 1]);
            }
        }
    }
    assert forall|j: int| 0 <= j < o.used implies #[trigger] blocks_parent(calls, parent_id, j, o.used as int) by {
        if j >= n {
            assert(calls[j] == tail[j - n]);
            assert(blocks_parent(tail, parent_id, j - n, r.used as int));
            if j + 1 - n < r.used {
                assert(calls[j + 1] == tail[j + 1 - n]);
            }
        }
    }
    if dry_run {
        assert forall|j: int| 0 <= j < o.used implies (#[trigger] calls[j] is Duplicates) by {
            if j >= n {
                assert(calls[j] == tail[j - n]);
            }
        }
    }
}

/// The number of creations of a child among `calls`.
pub open spec fn child_calls(calls: Seq<BeadsCall>) -> nat
    decreases calls.len(),
{
    if calls.len() == 0 {
        0
    } else {
        child_calls(calls.drop_last()) + if calls.last() is Child {
            1nat
        } else {
            0nat
        }
    }
}

proof fn lemma_child_calls_add(a: Seq<BeadsCall>, b: Seq<BeadsCall>)
    ensures
        child_calls(a + b) == child_calls(a) + child_calls(b),
    decreases b.len(),
{
    if b.len() == 0 {
        assert(a + b =~= a);
    } else {
        assert((a + b).drop_last() =~= a + b.drop_last());
        assert((a + b).last() == b.last());
        lemma_child_calls_add(a, b.drop_last());
    }
}

/// Calls of which only the one at `k` may be a creation hold at most one.
proof fn lemma_at_most_one_child(s: Seq<BeadsCall>, k: int)
    requires
        forall|i: int| 0 <= i < s.len() && i != k ==> !(#[trigger] s[i] is Child),
    ensures
        child_calls(s) <= 1,
        (k < 0 || k >= s.len()) ==> child_calls(s) == 0,
    decreases s.len(),
{
    if s.len() > 0 {
        let t = s.drop_last();
        assert forall|i: int| 0 <= i < t.len() && i != k implies !(#[trigger] t[i] is Child) by {
            assert(t[i] == s[i]);
        }
        lemma_at_most_one_child(t, k);
        if k != s.len() - 1 {
            assert(!(s[s.len() - 1] is Child));
        }
        if t.len() > 0 && k == s.len() - 1 {
            lemma_at_most_one_child(t, -1);
        }
    }
}

/// Making children creates no more children than the budget, counting the
/// creations that failed too.
pub proof fn lemma_spawn_child_count(
    parent_id: Seq<char>,
    dry_run: bool,
    threshold: u32,
    candidates: Seq<SpawnTaskCandidate>,
    budget: nat,
    calls: Seq<BeadsCall>,
)
    requires
        spawn_out(parent_id, dry_run, threshold, candidates, budget, calls).shaped,
    ensures
        child_calls(
            calls.take(spawn_out(parent_id, dry_run, threshold, candidates, budget, calls).used as int),
        ) <= budget,
    decreases candidates.len(),
{
    let o = spawn_out(parent_id, dry_run, threshold, candidates, budget, calls);
    if candidates.len() == 0 || budget == 0 {
        assert(calls.take(0) =~= Seq::<BeadsCall>::empty());
        return;
    }
    let c = candidates[0];
    let rest = candidates.drop_first();
    let found = calls[0]->Duplicates_result;
    lemma_spawn_laws(parent_id, dry_run, threshold, candidates, budget, calls);
    let head = calls.take(o.used as int);
    assert forall|i: int| 0 <= i < head.len() implies head[i] == calls[i] by {}
    if found is Err {
        lemma_at_most_one_child(head, 1);
        return;
    }
    let n: int = if found->Ok_0@.len() > 0 || dry_run {
        1
    } else {
        let t = calls[1]->Child_result;
        if t is Err {
            lemma_at_most_one_child(head, 1);
            return;
        }
        let dep: int = if c.blocking { 1 } else { 0 };
        if c.blocking && unit_result(calls[2]) is Err {
            lemma_at_most_one_child(head, 1);
            return;
        }
        if unit_result(calls[2 + dep]) is Err {
            lemma_at_most_one_child(head, 1);
            return;
        }
        3 + dep
    };
    let b2: nat = if found->Ok_0@.len() > 0 { budget } else { (budget - 1) as nat };
    let tail = calls.skip(n);
    lemma_spawn_child_count(parent_id, dry_run, threshold, rest, b2, tail);
    let r = spawn_out(parent_id, dry_run, threshold, rest, b2, tail);
    let step = calls.take(n);
    assert(head =~= step + tail.take(r.used as int));
    lemma_child_calls_add(step, tail.take(r.used as int));
    assert forall|i: int| 0 <= i < step.len() && i != 1 implies !(#[trigger] step[i] is Child) by {
        assert(step[i] == calls[i]);
    }
    lemma_at_most_one_child(step, if n == 1 { -1 } else { 1 });
}

/// The creation call `c` made the task `t` for a candidate that may be
/// inlined, is estimated within `threshold` minutes and is not backlog.
pub open spec fn made_small(c: BeadsCall, t: Task, threshold: u32) -> bool {
    match c {
        BeadsCall::Child { candidate, result, .. } => {
            &&& result == Ok::<Task, LoopError>(t)
            &&& candidate.can_inline
            &&& candidate.estimated_minutes <= threshold
            &&& candidate.kind != SpawnTaskKind::Backlog
        },
        _ => false,
    }
}

/// Among the first `used` calls, one created `t` as a small child.
pub open spec fn made_small_within(calls: Seq<BeadsCall>, used: int, t: Task, threshold: u32) -> bool {
    exists|j: int| 0 <= j < used && #[trigger] made_small(calls[j], t, threshold)
}

/// Every child kept to be finished inline was created, among the calls made,
/// for a candidate that the model said may be inlined, estimated within the
/// threshold and not backlog.
pub proof fn lemma_spawn_inline_small(
    parent_id: Seq<char>,
    dry_run: bool,
    threshold: u32,
    candidates: Seq<SpawnTaskCandidate>,
    budget: nat,
    calls: Seq<BeadsCall>,
)
    requires
        spawn_out(parent_id, dry_run, threshold, candidates, budget, calls).shaped,
    ensures
        ({
            let o = spawn_out(parent_id, dry_run, threshold, candidates, budget, calls);
            forall|k: int|
                0 <= k < o.inline.len() ==> #[trigger] made_small_within(
                    calls,
                    o.used as int,
                    o.inline[k],
                    threshold,
                )
        }),
    decreases candidates.len(),
{
    let o = spawn_out(parent_id, dry_run, threshold, candidates, budget, calls);
    if candidates.len() == 0 || budget == 0 {
        return;
    }
    let c = candidates[0];
    let rest = candidates.drop_first();
    let found = calls[0]->Duplicates_result;
    if found is Err {
        return;
    }
    let n: int = if found->Ok_0@.len() > 0 || dry_run {
        1
    } else {
        let t = calls[1]->Child_result;
        if t is Err {
            return;
        }
        let dep: int = if c.blocking { 1 } else { 0 };
        if c.blocking && unit_result(calls[2]) is Err {
            return;
        }
        if unit_result(calls[2 + dep]) is Err {
            return;
        }
        3 + dep
    };
    let b2: nat = if found->Ok_0@.len() > 0 { budget } else { (budget - 1) as nat };
    let tail = calls.skip(n);
    lemma_spawn_inline_small(parent_id, dry_run, threshold, rest, b2, tail);
    lemma_spawn_laws(parent_id, dry_run, threshold, rest, b2, tail);
    let r = spawn_out(parent_id, dry_run, threshold, rest, b2, tail);
    let kept = (o.inline.len() - r.inline.len()) as int;
    assert forall|k: int| 0 <= k < o.inline.len() implies #[trigger] made_small_within(
        calls,
        o.used as int,
        o.inline[k],
        threshold,
    ) by {
        if k < kept {
            assert(made_small(calls[1], o.inline[k], threshold));
        } else {
            assert(o.inline[k] == r.inline[k - kept]);
            assert(made_small_within(tail, r.used as int, r.inline[k - kept], threshold));
            let j2 = choose|j2: int|
                0 <= j2 < r.used && #[trigger] made_small(tail[j2], r.inline[k - kept], threshold);
            assert(calls[n + j2] == tail[j2]);
            assert(made_small(calls[n + j2], o.inline[k], threshold));
        }
    }
}

/// Whatever calls follow `calls`, making children ends as `o`.
pub open spec fn spawn_ends(
    parent_id: Seq<char>,
    dry_run: bool,
    threshold: u32,
    candidates: Seq<SpawnTaskCandidate>,
    budget: nat,
    calls: Seq<BeadsCall>,
    o: SpawnOutcome,
) -> bool {
    forall|rest: Seq<BeadsCall>| #[trigger]
        spawn_out(parent_id, dry_run, threshold, candidates, budget, calls + rest) == o
}

/// After `calls`, the first `i` candidates are done with `created` and
/// `inline`, and the rest go on from `budget`, whatever calls follow.
pub open spec fn spawn_midway(
    parent_id: Seq<char>,
    dry_run: bool,
    threshold: u32,
    candidates: Seq<SpawnTaskCandidate>,
    budget0: nat,
    calls: Seq<BeadsCall>,
    i: int,
    budget: nat,
    created: Seq<Seq<char>>,
    inline: Seq<Task>,
) -> bool {
    forall|rest: Seq<BeadsCall>| #[trigger]
        spawn_out(parent_id, dry_run, threshold, candidates, budget0, calls + rest) == spawn_after(
            calls.len(),
            created,
            inline,
            spawn_out(parent_id, dry_run, threshold, candidates.skip(i), budget, rest),
        )
}

/// Appending nothing changes neither the created ids nor the inline children.
proof fn lemma_add_nothing(created: Seq<Seq<char>>, inline: Seq<Task>)
    ensures
        created + Seq::<Seq<char>>::empty() == created,
        inline + Seq::<Task>::empty() == inline,
{
    assert(created + Seq::<Seq<char>>::empty() =~= created);
    assert(inline + Seq::<Task>::empty() =~= inline);
}

proof fn lemma_after_after(a: nat, c1: Seq<Seq<char>>, i1: Seq<Task>, b: nat, c2: Seq<Seq<char>>, i2: Seq<Task>, o: SpawnOutcome)
    ensures
        spawn_after(a, c1, i1, spawn_after(b, c2, i2, o)) == spawn_after(a + b, c1 + c2, i1 + i2, o),
{
    assert(c1 + (c2 + o.created) =~= (c1 + c2) + o.created);
    assert(i1 + (i2 + o.inline) =~= (i1 + i2) + o.inline);
}

/// One more candidate, answered by `step`, moves the midway point on.
proof fn lemma_spawn_advance(
    parent_id: Seq<char>,
    dry_run: bool,
    threshold: u32,
    candidates: Seq<SpawnTaskCandidate>,
    budget0: nat,
    calls: Seq<BeadsCall>,
    i: int,
    budget: nat,
    created: Seq<Seq<char>>,
    inline: Seq<Task>,
    step: Seq<BeadsCall>,
    budget2: nat,
    created2: Seq<Seq<char>>,
    inline2: Seq<Task>,
)
    requires
        spawn_midway(parent_id, dry_run, threshold, candidates, budget0, calls, i, budget, created, inline),
        forall|rest: Seq<BeadsCall>| #[trigger]
            spawn_out(parent_id, dry_run, threshold, candidates.skip(i), budget, step + rest)
                == spawn_after(
                step.len(),
                created2,
                inline2,
                spawn_out(parent_id, dry_run, threshold, candidates.skip(i + 1), budget2, rest),
            ),
    ensures
        spawn_midway(
            parent_id,
            dry_run,
            threshold,
            candidates,
            budget0,
            calls + step,
            i + 1,
            budget2,
            created + created2,
            inline + inline2,
        ),
{
    assert forall|rest: Seq<BeadsCall>| #[trigger]
        spawn_out(parent_id, dry_run, threshold, candidates, budget0, (calls + step) + rest)
            == spawn_after(
            (calls + step).len(),
            created + created2,
            inline + inline2,
            spawn_out(parent_id, dry_run, threshold, candidates.skip(i + 1), budget2, rest),
        ) by {
        assert((calls + step) + rest =~= calls + (step + rest));
        let x = spawn_out(parent_id, dry_run, threshold, candidates.skip(i + 1), budget2, rest);
        assert(spawn_out(parent_id, dry_run, threshold, candidates.skip(i), budget, step + rest)
            == spawn_after(step.len(), created2, inline2, x));
        lemma_after_after(calls.len(), created, inline, step.len(), created2, inline2, x);
    }
}

/// A failure answered by `step` ends making children midway.
proof fn lemma_spawn_stop(
    parent_id: Seq<char>,
    dry_run: bool,
    threshold: u32,
    candidates: Seq<SpawnTaskCandidate>,
    budget0: nat,
    calls: Seq<BeadsCall>,
    i: int,
    budget: nat,
    created: Seq<Seq<char>>,
    inline: Seq<Task>,
    step: Seq<BeadsCall>,
    o: SpawnOutcome,
)
    requires
        spawn_midway(parent_id, dry_run, threshold, candidates, budget0, calls, i, budget, created, inline),
        spawn_ends(parent_id, dry_run, threshold, candidates.skip(i), budget, step, o),
        o.shaped,
        o.used == step.len(),
    ensures
        spawn_ends(
            parent_id,
            dry_run,
            threshold,
            candidates,
            budget0,
            calls + step,
            SpawnOutcome {
                shaped: true,
                used: (calls + step).len(),
                budget: o.budget,
                created: created + o.created,
                inline: inline + o.inline,
                failure: o.failure,
            },
        ),
{
    assert forall|rest: Seq<BeadsCall>| #[trigger]
        spawn_out(parent_id, dry_run, threshold, candidates, budget0, (calls + step) + rest)
            == SpawnOutcome {
            shaped: true,
            used: (calls + step).len(),
            budget: o.budget,
            created: created + o.created,
            inline: inline + o.inline,
            failure: o.failure,
        } by {
        assert((calls + step) + rest =~= calls + (step + rest));
        assert(spawn_out(parent_id, dry_run, threshold, candidates.skip(i), budget, step + rest) == o);
    }
}

/// What a run that hands work to the agent promises of its children: no more
/// were created than the spawn cap allows, none in a dry run, and none was
/// closed.
pub open spec fn action_required_holds(
    config: RunConfig,
    created_children: Seq<String>,
    closed_children: Seq<String>,
) -> bool {
    &&& created_children.len() <= config.spawn_cap
    &&& config.dry_run ==> created_children.len() == 0
    &&& closed_children.len() == 0
}

/// The document id under which a task's summary is retained.
pub open spec fn summary_doc_id(task_id: Seq<char>) -> Seq<char> {
    "task-"@ + task_id
}

/// The calls appended to a log that grew from `before` to `after`.
pub open spec fn appended<A>(before: Seq<A>, after: Seq<A>) -> Seq<A> {
    after.skip(before.len() as int)
}

/// `after` is `before` with calls appended.
pub open spec fn grew<A>(before: Seq<A>, after: Seq<A>) -> bool {
    before.len() <= after.len() && after.take(before.len() as int) == before
}

proof fn lemma_extends<A>(before: Seq<A>, calls: Seq<A>)
    ensures
        appended(before, before + calls) == calls,
        grew(before, before + calls),
{
    assert((before + calls).skip(before.len() as int) =~= calls);
    assert((before + calls).take(before.len() as int) =~= before);
}

pub broadcast proof fn lemma_appended<A>(before: Seq<A>, calls: Seq<A>)
    ensures
        #[trigger] appended(before, before + calls) == calls,
{
    assert((before + calls).skip(before.len() as int) =~= calls);
}

pub broadcast proof fn lemma_grew<A>(before: Seq<A>, calls: Seq<A>)
    ensures
        #[trigger] grew(before, before + calls),
{
    assert((before + calls).take(before.len() as int) =~= before);
}

pub open spec fn hindsight_result(c: HindsightCall) -> Result<()> {
    match c {
        HindsightCall::Available { result } => result,
        HindsightCall::Preferences { result } => result,
        HindsightCall::Bank { result, .. } => result,
        HindsightCall::Context { result, .. } => result,
        HindsightCall::Retain { result, .. } => result,
    }
}

pub open spec fn memory_result(c: MemoryCall) -> Result<()> {
    match c {
        MemoryCall::Exists { result } => result,
        MemoryCall::Prime { result } => result,
        MemoryCall::Prepare { result, .. } => result,
    }
}

pub open spec fn bootstrap_result(c: BeadsCall) -> Result<Task> {
    match c {
        BeadsCall::Bootstrap { result, .. } => result,
        _ => arbitrary(),
    }
}

pub open spec fn claim_result(c: BeadsCall) -> Result<Option<Task>> {
    match c {
        BeadsCall::Claim { result, .. } => result,
        _ => arbitrary(),
    }
}

pub open spec fn storm_result(c: LlmCall) -> Result<ProductStormOutput> {
    match c {
        LlmCall::Storm { result, .. } => result,
        _ => arbitrary(),
    }
}

pub open spec fn spec_result(c: LlmCall) -> Result<SpecOutput> {
    match c {
        LlmCall::Spec { result, .. } => result,
        _ => arbitrary(),
    }
}

/// The run made exactly `nh`, `nm`, `nb` and `nl` calls to the memory service,
/// the memory bank, the tracker and the model.
pub open spec fn made(
    h: Seq<HindsightCall>,
    m: Seq<MemoryCall>,
    b: Seq<BeadsCall>,
    l: Seq<LlmCall>,
    nh: int,
    nm: int,
    nb: int,
    nl: int,
) -> bool {
    h.len() == nh && m.len() == nm && b.len() == nb && l.len() == nl
}

/// A call that returned nothing: its failure ends the run there (`stop`
/// says which calls were made) with that failure; otherwise `more` holds.
pub open spec fn then(res: Result<()>, stop: bool, r: Result<RunOutcome>, more: bool) -> bool {
    match res {
        Err(e) => stop && r == Err::<RunOutcome, LoopError>(e),
        Ok(_) => more,
    }
}

/// The run's calls, in order per collaborator, and its result, as `config`
/// calls for given what each call returned: the memory service is checked,
/// the preferences recalled and the project bank made ready; the memory bank
/// made to exist and primed; the tracker initialized. Then the task is taken:
/// the bootstrap task for the bootstrap goal, else a claimed one (none ready:
/// no work); unless this is a dry run it is claimed.
pub open spec fn run_calls(
    config: RunConfig,
    h: Seq<HindsightCall>,
    m: Seq<MemoryCall>,
    b: Seq<BeadsCall>,
    l: Seq<LlmCall>,
    r: Result<RunOutcome>,
) -> bool {
    &&& h.len() >= 1 && h[0] == (HindsightCall::Available { result: hindsight_result(h[0]) })
    &&& then(
        hindsight_result(h[0]),
        made(h, m, b, l, 1, 0, 0, 0),
        r,
        h.len() >= 2 && h[1] == (HindsightCall::Preferences { result: hindsight_result(h[1]) })
            && then(
            hindsight_result(h[1]),
            made(h, m, b, l, 2, 0, 0, 0),
            r,
            h.len() >= 3 && h[2] == (HindsightCall::Bank {
                bank: config.hindsight_bank@,
                result: hindsight_result(h[2]),
            }) && then(
                hindsight_result(h[2]),
                made(h, m, b, l, 3, 0, 0, 0),
                r,
                m.len() >= 1 && m[0] == (MemoryCall::Exists { result: memory_result(m[0]) })
                    && then(
                    memory_result(m[0]),
                    made(h, m, b, l, 3, 1, 0, 0),
                    r,
                    m.len() >= 2 && m[1] == (MemoryCall::Prime { result: memory_result(m[1]) })
                        && then(
                        memory_result(m[1]),
                        made(h, m, b, l, 3, 2, 0, 0),
                        r,
                        b.len() >= 1 && b[0] == (BeadsCall::Init { result: unit_result(b[0]) })
                            && then(
                            unit_result(b[0]),
                            made(h, m, b, l, 3, 2, 1, 0),
                            r,
                            taken_calls(config, h, m, b, l, r),
                        ),
                    ),
                ),
            ),
        ),
    )
}

/// The run from taking its task on.
pub open spec fn taken_calls(
    config: RunConfig,
    h: Seq<HindsightCall>,
    m: Seq<MemoryCall>,
    b: Seq<BeadsCall>,
    l: Seq<LlmCall>,
    r: Result<RunOutcome>,
) -> bool {
    &&& b.len() >= 2
    &&& match config.bootstrap_goal {
        Some(goal) => {
            &&& b[1] == (BeadsCall::Bootstrap {
                goal: goal@,
                claim: !config.dry_run,
                result: bootstrap_result(b[1]),
            })
            &&& match bootstrap_result(b[1]) {
                Err(e) => made(h, m, b, l, 3, 2, 2, 0) && r == Err::<RunOutcome, LoopError>(e),
                Ok(parent) => work_calls(config, parent, h, m, b, l, r),
            }
        },
        None => {
            &&& b[1] == (BeadsCall::Claim {
                preferred: opt_view(config.task_id),
                claim: !config.dry_run,
                result: claim_result(b[1]),
            })
            &&& match claim_result(b[1]) {
                Err(e) => made(h, m, b, l, 3, 2, 2, 0) && r == Err::<RunOutcome, LoopError>(e),
                Ok(None) => made(h, m, b, l, 3, 2, 2, 0) && r == Ok::<RunOutcome, LoopError>(
                    RunOutcome::NoReadyWork,
                ),
                Ok(Some(parent)) => work_calls(config, parent, h, m, b, l, r),
            }
        },
    }
}

/// The run once it has `parent`: the tracker is synced, the task's context
/// recalled, the memory bank prepared for its title, and it is stormed and
/// specified.
pub open spec fn work_calls(
    config: RunConfig,
    parent: Task,
    h: Seq<HindsightCall>,
    m: Seq<MemoryCall>,
    b: Seq<BeadsCall>,
    l: Seq<LlmCall>,
    r: Result<RunOutcome>,
) -> bool {
    b.len() >= 3 && b[2] == (BeadsCall::Sync { result: unit_result(b[2]) }) && then(
        unit_result(b[2]),
        made(h, m, b, l, 3, 2, 3, 0),
        r,
        h.len() >= 4 && h[3] == (HindsightCall::Context {
            bank: config.hindsight_bank@,
            query: parent.title@,
            result: hindsight_result(h[3]),
        }) && then(
            hindsight_result(h[3]),
            made(h, m, b, l, 4, 2, 3, 0),
            r,
            m.len() >= 3 && m[2] == (MemoryCall::Prepare {
                topic: parent.title@,
                result: memory_result(m[2]),
            }) && then(
                memory_result(m[2]),
                made(h, m, b, l, 4, 3, 3, 0),
                r,
                l.len() >= 1 && l[0] == (LlmCall::Storm { task: parent, result: storm_result(l[0]) })
                    && match storm_result(l[0]) {
                    Err(e) => made(h, m, b, l, 4, 3, 3, 1) && r == Err::<RunOutcome, LoopError>(e),
                    Ok(storm) => l.len() >= 2 && l[1] == (LlmCall::Spec {
                        task: parent,
                        storm,
                        result: spec_result(l[1]),
                    }) && match spec_result(l[1]) {
                        Err(e) => made(h, m, b, l, 4, 3, 3, 2) && r == Err::<RunOutcome, LoopError>(
                            e,
                        ),
                        Ok(spec) => spawn_calls(config, parent, storm, spec, h, m, b, l, r),
                    },
                },
            ),
        ),
    )
}

/// The candidates a task makes children for: the storm's, unless the task has
/// a parent itself.
pub open spec fn spawnable(parent: Task, storm: ProductStormOutput) -> Seq<SpawnTaskCandidate> {
    if parent.parent_id is None {
        storm.spawn_candidates@
    } else {
        Seq::empty()
    }
}

/// The run once the task is specified: children are made for its candidates
/// within the spawn cap.
pub open spec fn spawn_calls(
    config: RunConfig,
    parent: Task,
    storm: ProductStormOutput,
    spec: SpecOutput,
    h: Seq<HindsightCall>,
    m: Seq<MemoryCall>,
    b: Seq<BeadsCall>,
    l: Seq<LlmCall>,
    r: Result<RunOutcome>,
) -> bool {
    let o = spawn_out(
        parent.id@,
        config.dry_run,
        config.small_child_threshold_minutes,
        spawnable(parent, storm),
        config.spawn_cap as nat,
        b.skip(3),
    );
    &&& o.shaped
    &&& match o.failure {
        Some(e) => made(h, m, b, l, 4, 3, 3 + o.used as int, 2) && r == Err::<RunOutcome, LoopError>(e),
        None => finish_calls(config, parent, spec, o, h, m, b, l, r),
    }
}

/// `r` hands the agent `commands` for `parent`, with the children `created`.
pub open spec fn hands_over(
    r: Result<RunOutcome>,
    parent: Task,
    commands: Seq<Seq<char>>,
    created: Seq<Seq<char>>,
) -> bool {
    r matches Ok(
        RunOutcome::AgentActionRequired { task_id, commands: cs, created_children, closed_children },
    ) && task_id@ == parent.id@ && views(cs@) == commands && views(created_children@) == created
        && closed_children@.len() == 0
}

/// The summary is retained, unless retaining is off: once, with the commands
/// as its content, in the background in async mode.
pub open spec fn retained(config: RunConfig, parent: Task, notes: Seq<char>, h: Seq<HindsightCall>) -> bool {
    if config.retain_mode == RetainMode::Off {
        h.len() == 4
    } else {
        h.len() == 5 && h[4] == (HindsightCall::Retain {
            bank: config.hindsight_bank@,
            doc_id: summary_doc_id(parent.id@),
            context: parent.title@,
            content: notes,
            async_mode: config.retain_mode == RetainMode::Async,
            result: hindsight_result(h[4]),
        })
    }
}

/// The run's end: the agent is handed the plan, with the small children to
/// finish inline; unless this is a dry run, the plan is recorded on the task
/// as notes, one command per line, the tracker synced and the summary retained.
pub open spec fn finish_calls(
    config: RunConfig,
    parent: Task,
    spec: SpecOutput,
    o: SpawnOutcome,
    h: Seq<HindsightCall>,
    m: Seq<MemoryCall>,
    b: Seq<BeadsCall>,
    l: Seq<LlmCall>,
    r: Result<RunOutcome>,
) -> bool {
    let k: int = 3 + o.used as int;
    let commands = plan(
        parent,
        spec,
        config.non_blocking_gates,
        config.max_iterations,
        config.timeout_minutes,
        o.inline,
    );
    let notes = join(commands, "\n"@);
    if config.dry_run {
        made(h, m, b, l, 4, 3, k, 2) && hands_over(r, parent, commands, o.created)
    } else {
        b.len() > k && b[k] == (BeadsCall::Notes {
            task_id: parent.id@,
            notes,
            result: unit_result(b[k]),
        }) && then(
            unit_result(b[k]),
            made(h, m, b, l, 4, 3, k + 1, 2),
            r,
            b.len() > k + 1 && b[k + 1] == (BeadsCall::Sync { result: unit_result(b[k + 1]) })
                && then(
                unit_result(b[k + 1]),
                made(h, m, b, l, 4, 3, k + 2, 2),
                r,
                retained(config, parent, notes, h) && m.len() == 3 && b.len() == k + 2 && l.len() == 2
                    && hands_over(r, parent, commands, o.created),
            ),
        )
    }
}

/// The parent that a run took, as the tracker returned it.
pub open spec fn taken_parent(config: RunConfig, b: Seq<BeadsCall>) -> Task {
    match config.bootstrap_goal {
        Some(_) => bootstrap_result(b[1])->Ok_0,
        None => claim_result(b[1])->Ok_0->Some_0,
    }
}

/// A task that has a parent gets no children: making children for it makes
/// no call and creates nothing.
pub proof fn lemma_child_task_spawns_nothing(
    parent: Task,
    storm: ProductStormOutput,
    dry_run: bool,
    threshold: u32,
    budget: nat,
    calls: Seq<BeadsCall>,
)
    requires
        parent.parent_id is Some,
    ensures
        spawn_out(parent.id@, dry_run, threshold, spawnable(parent, storm), budget, calls)
            == spawn_done(budget),
{
}

/// A dry run leaves no trace: it asks for no claim, creates no child, adds no
/// dependency, records no notes and retains no summary.
pub proof fn lemma_dry_run_leaves_no_trace(
    config: RunConfig,
    h: Seq<HindsightCall>,
    m: Seq<MemoryCall>,
    b: Seq<BeadsCall>,
    l: Seq<LlmCall>,
    r: Result<RunOutcome>,
)
    requires
        config.dry_run,
        run_calls(config, h, m, b, l, r),
    ensures
        forall|i: int|
            0 <= i < b.len() ==> !(#[trigger] b[i] is Child) && !(b[i] is Notes) && !(
            b[i] is Dependency),
        forall|i: int| 0 <= i < h.len() ==> !(#[trigger] h[i] is Retain),
        forall|i: int|
            0 <= i < b.len() ==> (#[trigger] b[i] matches BeadsCall::Bootstrap { claim, .. } ==> !claim),
        forall|i: int|
            0 <= i < b.len() ==> (#[trigger] b[i] matches BeadsCall::Claim { claim, .. } ==> !claim),
{
    assert(h.len() <= 4);
    if b.len() > 3 {
        let parent = taken_parent(config, b);
        assert(work_calls(config, parent, h, m, b, l, r));
        let storm = storm_result(l[0])->Ok_0;
        let spec = spec_result(l[1])->Ok_0;
        assert(spawn_calls(config, parent, storm, spec, h, m, b, l, r));
        let calls = b.skip(3);
        lemma_spawn_laws(
            parent.id@,
            true,
            config.small_child_threshold_minutes,
            spawnable(parent, storm),
            config.spawn_cap as nat,
            calls,
        );
        let o = spawn_out(
            parent.id@,
            true,
            config.small_child_threshold_minutes,
            spawnable(parent, storm),
            config.spawn_cap as nat,
            calls,
        );
        assert(b.len() == 3 + o.used);
        assert forall|i: int| 3 <= i < b.len() implies (#[trigger] b[i] is Duplicates) by {
            assert(b[i] == calls[i - 3]);
        }
    }
}

/// Over a whole run, no more children are created than the spawn cap allows,
/// counting the creations that failed too, and each creation comes right after
/// a duplicate search for its candidate under the task worked on that found
/// nothing.
pub proof fn lemma_run_creates_within_cap(
    config: RunConfig,
    h: Seq<HindsightCall>,
    m: Seq<MemoryCall>,
    b: Seq<BeadsCall>,
    l: Seq<LlmCall>,
    r: Result<RunOutcome>,
)
    requires
        run_calls(config, h, m, b, l, r),
    ensures
        child_calls(b) <= config.spawn_cap,
        forall|j: int|
            0 <= j < b.len() ==> #[trigger] created_fresh(b, taken_parent(config, b).id@, j),
{
    let pid = taken_parent(config, b).id@;
    if b.len() <= 3 {
        assert forall|i: int| 0 <= i < b.len() && i != -1 implies !(#[trigger] b[i] is Child) by {}
        lemma_at_most_one_child(b, -1);
        assert forall|j: int| 0 <= j < b.len() implies #[trigger] created_fresh(b, pid, j) by {}
    } else {
        let parent = taken_parent(config, b);
        assert(work_calls(config, parent, h, m, b, l, r));
        let storm = storm_result(l[0])->Ok_0;
        let spec = spec_result(l[1])->Ok_0;
        assert(spawn_calls(config, parent, storm, spec, h, m, b, l, r));
        let calls = b.skip(3);
        let thr = config.small_child_threshold_minutes;
        let cands = spawnable(parent, storm);
        let cap = config.spawn_cap as nat;
        lemma_spawn_laws(pid, config.dry_run, thr, cands, cap, calls);
        lemma_spawn_child_count(pid, config.dry_run, thr, cands, cap, calls);
        let o = spawn_out(pid, config.dry_run, thr, cands, cap, calls);
        let u = 3 + o.used as int;
        assert(u <= b.len());
        let head = b.take(3);
        let mid = calls.take(o.used as int);
        let end = b.skip(u);
        assert(b =~= head + mid + end);
        assert forall|i: int| 0 <= i < head.len() && i != -1 implies !(#[trigger] head[i] is Child) by {}
        lemma_at_most_one_child(head, -1);
        assert forall|i: int| 0 <= i < end.len() && i != -1 implies !(#[trigger] end[i] is Child) by {
            assert(end[i] == b[u + i]);
        }
        lemma_at_most_one_child(end, -1);
        lemma_child_calls_add(head, mid);
        lemma_child_calls_add(head + mid, end);
        assert forall|j: int| 0 <= j < b.len() implies #[trigger] created_fresh(b, pid, j) by {
            if 3 <= j < u {
                assert(b[j] == calls[j - 3]);
                assert(created_fresh(calls, pid, j - 3));
                if j - 3 >= 1 {
                    assert(b[j - 1] == calls[j - 4]);
                }
            } else if j >= u {
                assert(b[j] == end[j - u]);
            }
        }
    }
}

/// One run of the loop over its collaborators.
pub struct AgentLoop<B: BeadsClient, H: HindsightClient, M: MemoryBankClient, L: LlmClient> {
    pub config: RunConfig,
    pub beads: Box<B>,
    pub hindsight: Box<H>,
    pub memory_bank: Box<M>,
    pub llm: Box<L>,
}

/// What `process_spawn_candidates` may have changed: the budget only shrinks,
/// each created child used up one unit of it, created ids are only appended,
/// and a dry run creates nothing.
pub open spec fn spawn_progress(
    dry_run: bool,
    budget_before: usize,
    budget_after: usize,
    created_before: Seq<String>,
    created_after: Seq<String>,
) -> bool {
    &&& budget_after <= budget_before
    &&& created_after.len() - created_before.len() <= budget_before - budget_after
    &&& created_after.len() >= created_before.len()
    &&& created_after.take(created_before.len() as int) == created_before
    &&& dry_run ==> created_after == created_before
}

impl<B: BeadsClient, H: HindsightClient, M: MemoryBankClient, L: LlmClient> AgentLoop<B, H, M, L> {
    /// Whether a candidate child is small enough to be finished inline.
    pub fn should_inline_child(&self, candidate: &SpawnTaskCandidate) -> (r: bool)
        ensures
            r == inlines(self.config.small_child_threshold_minutes, *candidate),
            r == (candidate.can_inline && candidate.estimated_minutes
                <= self.config.small_child_threshold_minutes && candidate.kind
                != SpawnTaskKind::Backlog),
    {
        if !candidate.can_inline {
            return false;
        }
        if candidate.estimated_minutes > self.config.small_child_threshold_minutes {
            return false;
        }
        matches!(
            candidate.kind,
            SpawnTaskKind::Decomposition | SpawnTaskKind::Performance | SpawnTaskKind::Quality
                | SpawnTaskKind::Tests
        )
    }

    /// Stores a summary of the task in the memory service unless this is a dry
    /// run or retaining is off; a failure to store it is ignored.
    fn retain_summary_best_effort(&mut self, task: &Task, content: &str)
        ensures
            final(self).config == old(self).config,
            final(self).beads == old(self).beads,
            final(self).memory_bank == old(self).memory_bank,
            final(self).llm == old(self).llm,
            if old(self).config.dry_run || old(self).config.retain_mode == RetainMode::Off {
                final(self).hindsight.log() == old(self).hindsight.log()
            } else {
                let after = final(self).hindsight.log();
                &&& after.len() == old(self).hindsight.log().len() + 1
                &&& after.drop_last() == old(self).hindsight.log()
                &&& after.last() == (HindsightCall::Retain {
                    bank: old(self).config.hindsight_bank@,
                    doc_id: summary_doc_id(task.id@),
                    context: task.title@,
                    content: content@,
                    async_mode: old(self).config.retain_mode == RetainMode::Async,
                    result: hindsight_result(after.last()),
                })
            },
    {
        if self.config.dry_run {
            return;
        }
        if matches!(self.config.retain_mode, RetainMode::Off) {
            return;
        }
        let mut doc_id = String::from_str("task-");
        doc_id.append(task.id.as_str());
        let async_mode = matches!(self.config.retain_mode, RetainMode::Async);
        let ghost before = self.hindsight.log();
        let _ = self.hindsight.retain_summary(
            self.config.hindsight_bank.as_str(),
            doc_id.as_str(),
            task.title.as_str(),
            content,
            async_mode,
        );
        assert(self.hindsight.log().drop_last() =~= before);
    }

    /// Creates children for the candidates, in order, while the budget lasts:
    /// a candidate with duplicates is skipped; in a dry run a candidate only
    /// uses up budget; otherwise the child is created, made to block the parent
    /// when the candidate blocks, the tracker synced, and, when it is small,
    /// the child collected to be finished inline.
    fn process_spawn_candidates(
        &mut self,
        parent: &Task,
        candidates: &Vec<SpawnTaskCandidate>,
        spawn_budget: &mut usize,
        created_children: &mut Vec<String>,
        inline_children: &mut Vec<Task>,
    ) -> (r: Result<()>)
        ensures
            final(self).config == old(self).config,
            final(self).hindsight == old(self).hindsight,
            final(self).memory_bank == old(self).memory_bank,
            final(self).llm == old(self).llm,
            grew(old(self).beads.log(), final(self).beads.log()),
            grew(old(created_children)@, final(created_children)@),
            grew(old(inline_children)@, final(inline_children)@),
            spawn_ends(
                parent.id@,
                old(self).config.dry_run,
                old(self).config.small_child_threshold_minutes,
                candidates@,
                *old(spawn_budget) as nat,
                appended(old(self).beads.log(), final(self).beads.log()),
                SpawnOutcome {
                    shaped: true,
                    used: appended(old(self).beads.log(), final(self).beads.log()).len(),
                    budget: *final(spawn_budget) as nat,
                    created: views(appended(old(created_children)@, final(created_children)@)),
                    inline: appended(old(inline_children)@, final(inline_children)@),
                    failure: match r {
                        Err(e) => Some(e),
                        Ok(_) => None,
                    },
                },
            ),
            spawn_progress(
                old(self).config.dry_run,
                *old(spawn_budget),
                *final(spawn_budget),
                old(created_children)@,
                final(created_children)@,
            ),
            old(self).config.dry_run ==> final(inline_children)@ == old(inline_children)@,
    {
        broadcast use lemma_appended, lemma_grew;

        let ghost budget0 = *spawn_budget;
        let ghost created0 = created_children@;
        let ghost inline0 = inline_children@;
        let ghost log0 = self.beads.log();
        let ghost pid = parent.id@;
        let ghost dry = self.config.dry_run;
        let ghost thr = self.config.small_child_threshold_minutes;
        let ghost cands = candidates@;
        let ghost mut calls: Seq<BeadsCall> = Seq::empty();
        let ghost mut new_created: Seq<String> = Seq::empty();
        let ghost mut new_inline: Seq<Task> = Seq::empty();
        let ghost config0 = self.config;
        let ghost hindsight0 = self.hindsight;
        let ghost memory0 = self.memory_bank;
        let ghost llm0 = self.llm;
        assert(created0.take(created0.len() as int) =~= created0);
        assert(inline0.take(inline0.len() as int) =~= inline0);
        assert(created0 + new_created =~= created0);
        assert(inline0 + new_inline =~= inline0);
        assert(log0 + calls =~= log0);
        assert forall|rest: Seq<BeadsCall>| #[trigger]
            spawn_out(pid, dry, thr, cands, budget0 as nat, calls + rest) == spawn_after(
                calls.len(),
                views(new_created),
                new_inline,
                spawn_out(pid, dry, thr, cands.skip(0), budget0 as nat, rest),
            ) by {
            assert(calls + rest =~= rest);
            assert(cands.skip(0) =~= cands);
            let o = spawn_out(pid, dry, thr, cands, budget0 as nat, rest);
            assert(views(new_created) + o.created =~= o.created);
            assert(new_inline + o.inline =~= o.inline);
        }
        let mut i: usize = 0;
        while i < candidates.len() && *spawn_budget > 0
            invariant
                i <= candidates@.len(),
                cands == candidates@,
                pid == parent.id@,
                self.config == config0,
                self.hindsight == hindsight0,
                self.memory_bank == memory0,
                self.llm == llm0,
                dry == config0.dry_run,
                thr == config0.small_child_threshold_minutes,
                budget0 == *old(spawn_budget),
                created0 == old(created_children)@,
                inline0 == old(inline_children)@,
                log0 == old(self).beads.log(),
                config0 == old(self).config,
                hindsight0 == old(self).hindsight,
                memory0 == old(self).memory_bank,
                llm0 == old(self).llm,
                self.beads.log() == log0 + calls,
                created_children@ == created0 + new_created,
                inline_children@ == inline0 + new_inline,
                spawn_midway(
                    pid,
                    dry,
                    thr,
                    cands,
                    budget0 as nat,
                    calls,
                    i as int,
                    *spawn_budget as nat,
                    views(new_created),
                    new_inline,
                ),
                spawn_progress(dry, budget0, *spawn_budget, created0, created_children@),
                dry ==> inline_children@ == inline0,
            decreases candidates.len() - i,
        {
            let candidate = &candidates[i];
            let ghost c = *candidate;
            let ghost b = *spawn_budget as nat;
            proof {
                assert(cands.skip(i as int)[0] == c);
                assert(cands.skip(i as int).drop_first() =~= cands.skip(i + 1));
            }
            i = i + 1;
            let found = self.beads.search_duplicates(parent.id.as_str(), candidate);
            let ghost dup_call = BeadsCall::Duplicates { parent_id: pid, candidate: c, result: found };
            let duplicates = match found {
                Ok(d) => d,
                Err(e) => {
                    proof {
                        let step = seq![dup_call];
                        assert forall|rest: Seq<BeadsCall>| #[trigger]
                            spawn_out(pid, dry, thr, cands.skip(i - 1), b, step + rest)
                                == spawn_stopped(1, b, Seq::empty(), e) by {
                            assert((step + rest)[0] == dup_call);
                        }
                        lemma_spawn_stop(
                            pid,
                            dry,
                            thr,
                            cands,
                            budget0 as nat,
                            calls,
                            i - 1,
                            b,
                            views(new_created),
                            new_inline,
                            step,
                            spawn_stopped(1, b, Seq::empty(), e),
                        );
                        assert(self.beads.log() =~= log0 + (calls + step));
                        lemma_add_nothing(views(new_created), new_inline);
                        lemma_extends(log0, calls + step);
                        lemma_extends(created0, new_created);
                        lemma_extends(inline0, new_inline);
                    }
                    return Err(e);
                },
            };
            match spawn_step(duplicates.len() > 0, self.config.dry_run) {
                SpawnStep::Skip => {
                    proof {
                        let step = seq![dup_call];
                        assert forall|rest: Seq<BeadsCall>| #[trigger]
                            spawn_out(pid, dry, thr, cands.skip(i - 1), b, step + rest)
                                == spawn_after(
                                step.len(),
                                Seq::empty(),
                                Seq::empty(),
                                spawn_out(pid, dry, thr, cands.skip(i as int), b, rest),
                            ) by {
                            assert((step + rest)[0] == dup_call);
                            assert((step + rest).skip(1) =~= rest);
                        }
                        lemma_spawn_advance(
                            pid,
                            dry,
                            thr,
                            cands,
                            budget0 as nat,
                            calls,
                            i - 1,
                            b,
                            views(new_created),
                            new_inline,
                            step,
                            b,
                            Seq::empty(),
                            Seq::empty(),
                        );
                        calls = calls + step;
                        lemma_add_nothing(views(new_created), new_inline);
                    }
                    continue;
                },
                SpawnStep::Reserve => {
                    *spawn_budget = *spawn_budget - 1;
                    proof {
                        let step = seq![dup_call];
                        assert forall|rest: Seq<BeadsCall>| #[trigger]
                            spawn_out(pid, dry, thr, cands.skip(i - 1), b, step + rest)
                                == spawn_after(
                                step.len(),
                                Seq::empty(),
                                Seq::empty(),
                                spawn_out(pid, dry, thr, cands.skip(i as int), (b - 1) as nat, rest),
                            ) by {
                            assert((step + rest)[0] == dup_call);
                            assert((step + rest).skip(1) =~= rest);
                        }
                        lemma_spawn_advance(
                            pid,
                            dry,
                            thr,
                            cands,
                            budget0 as nat,
                            calls,
                            i - 1,
                            b,
                            views(new_created),
                            new_inline,
                            step,
                            (b - 1) as nat,
                            Seq::empty(),
                            Seq::empty(),
                        );
                        calls = calls + step;
                        lemma_add_nothing(views(new_created), new_inline);
                    }
                    continue;
                },
                SpawnStep::Create => {},
            }
            let made_child = self.beads.create_child_task(parent.id.as_str(), candidate);
            let ghost child_call = BeadsCall::Child { parent_id: pid, candidate: c, result: made_child };
            let child = match made_child {
                Ok(child) => child,
                Err(e) => {
                    proof {
                        let step = seq![dup_call, child_call];
                        assert forall|rest: Seq<BeadsCall>| #[trigger]
                            spawn_out(pid, dry, thr, cands.skip(i - 1), b, step + rest)
                                == spawn_stopped(2, b, Seq::empty(), e) by {
                            assert((step + rest)[0] == dup_call);
                            assert((step + rest)[1] == child_call);
                        }
                        lemma_spawn_stop(
                            pid,
                            dry,
                            thr,
                            cands,
                            budget0 as nat,
                            calls,
                            i - 1,
                            b,
                            views(new_created),
                            new_inline,
                            step,
                            spawn_stopped(2, b, Seq::empty(), e),
                        );
                        assert(self.beads.log() =~= log0 + (calls + step));
                        lemma_add_nothing(views(new_created), new_inline);
                        lemma_extends(log0, calls + step);
                        lemma_extends(created0, new_created);
                        lemma_extends(inline0, new_inline);
                    }
                    return Err(e);
                },
            };
            let ghost t = child;
            let ghost created_mid = created_children@;
            let ghost nc0 = new_created;
            created_children.push(child.id.clone());
            proof {
                new_created = new_created.push(created_children@.last());
                assert(created_children@ =~= created0 + new_created);
                assert(created_children@.take(created0.len() as int) =~= created_mid.take(
                    created0.len() as int,
                ));
                assert(views(new_created) =~= views(nc0) + seq![t.id@]);
                lemma_add_nothing(views(new_created), new_inline);
            }
            *spawn_budget = *spawn_budget - 1;
            let ghost mut step: Seq<BeadsCall> = seq![dup_call, child_call];
            if candidate.blocking {
                let d = self.beads.add_blocking_dependency(child.id.as_str(), parent.id.as_str());
                let ghost dep_call = BeadsCall::Dependency { child_id: t.id@, parent_id: pid, result: d };
                proof {
                    step = step.push(dep_call);
                }
                match d {
                    Ok(_) => {},
                    Err(e) => {
                        proof {
                            assert(unit_result(dep_call) == Err::<(), LoopError>(e));
                            assert forall|rest: Seq<BeadsCall>| #[trigger]
                                spawn_out(pid, dry, thr, cands.skip(i - 1), b, step + rest)
                                    == spawn_stopped(3, (b - 1) as nat, seq![t.id@], e) by {
                                assert((step + rest)[0] == dup_call);
                                assert((step + rest)[1] == child_call);
                                assert((step + rest)[2] == dep_call);
                            }
                            lemma_spawn_stop(
                                pid,
                                dry,
                                thr,
                                cands,
                                budget0 as nat,
                                calls,
                                i - 1,
                                b,
                                views(nc0),
                                new_inline,
                                step,
                                spawn_stopped(3, (b - 1) as nat, seq![t.id@], e),
                            );
                            assert(self.beads.log() =~= log0 + (calls + step));
                            lemma_add_nothing(views(new_created), new_inline);
                            lemma_extends(log0, calls + step);
                            lemma_extends(created0, new_created);
                            lemma_extends(inline0, new_inline);
                        }
                        return Err(e);
                    },
                }
            }
            let s = self.beads.sync();
            let ghost sync_call = BeadsCall::Sync { result: s };
            let ghost dep: int = if c.blocking {
                1
            } else {
                0
            };
            proof {
                step = step.push(sync_call);
                assert(step.len() == 3 + dep);
            }
            match s {
                Ok(_) => {},
                Err(e) => {
                    proof {
                        assert(unit_result(sync_call) == Err::<(), LoopError>(e));
                        assert forall|rest: Seq<BeadsCall>| #[trigger]
                            spawn_out(pid, dry, thr, cands.skip(i - 1), b, step + rest)
                                == spawn_stopped((3 + dep) as nat, (b - 1) as nat, seq![t.id@], e) by {
                            assert((step + rest)[0] == dup_call);
                            assert((step + rest)[1] == child_call);
                            assert((step + rest)[2] == step[2]);
                            assert((step + rest)[2 + dep] == sync_call);
                        }
                        lemma_spawn_stop(
                            pid,
                            dry,
                            thr,
                            cands,
                            budget0 as nat,
                            calls,
                            i - 1,
                            b,
                            views(nc0),
                            new_inline,
                            step,
                            spawn_stopped((3 + dep) as nat, (b - 1) as nat, seq![t.id@], e),
                        );
                        assert(self.beads.log() =~= log0 + (calls + step));
                        lemma_add_nothing(views(new_created), new_inline);
                        lemma_extends(log0, calls + step);
                        lemma_extends(created0, new_created);
                        lemma_extends(inline0, new_inline);
                    }
                    return Err(e);
                },
            }
            let small = self.should_inline_child(candidate);
            let ghost kept: Seq<Task> = if small {
                seq![t]
            } else {
                Seq::empty()
            };
            if small {
                let ghost inline_mid = inline_children@;
                inline_children.push(child);
                proof {
                    assert(inline_children@.take(inline0.len() as int) =~= inline_mid.take(
                        inline0.len() as int,
                    ));
                }
            }
            proof {
                assert(!(unit_result(sync_call) is Err));
                assert forall|rest: Seq<BeadsCall>| #[trigger]
                    spawn_out(pid, dry, thr, cands.skip(i - 1), b, step + rest) == spawn_after(
                        step.len(),
                        seq![t.id@],
                        kept,
                        spawn_out(pid, dry, thr, cands.skip(i as int), (b - 1) as nat, rest),
                    ) by {
                    assert((step + rest)[0] == dup_call);
                    assert((step + rest)[1] == child_call);
                    assert((step + rest)[2] == step[2]);
                    assert((step + rest)[2 + dep] == sync_call);
                    assert((step + rest).skip(3 + dep) =~= rest);
                }
                lemma_spawn_advance(
                    pid,
                    dry,
                    thr,
                    cands,
                    budget0 as nat,
                    calls,
                    i - 1,
                    b,
                    views(nc0),
                    new_inline,
                    step,
                    (b - 1) as nat,
                    seq![t.id@],
                    kept,
                );
                calls = calls + step;
                new_inline = new_inline + kept;
                assert(inline_children@ =~= inline0 + new_inline);
                assert(self.beads.log() =~= log0 + calls);
            }
        }
        proof {
            assert forall|rest: Seq<BeadsCall>| #[trigger]
                spawn_out(pid, dry, thr, cands.skip(i as int), *spawn_budget as nat, rest) == spawn_done(
                    *spawn_budget as nat,
                ) by {
            }
            let o = SpawnOutcome {
                shaped: true,
                used: calls.len(),
                budget: *spawn_budget as nat,
                created: views(new_created),
                inline: new_inline,
                failure: None,
            };
            assert(spawn_after(calls.len(), views(new_created), new_inline, spawn_done(*spawn_budget as nat)) == o) by {
                lemma_add_nothing(views(new_created), new_inline);
            }
            assert forall|rest: Seq<BeadsCall>| #[trigger]
                spawn_out(pid, dry, thr, cands, budget0 as nat, calls + rest) == o by {
            }
            lemma_extends(log0, calls);
            lemma_extends(created0, new_created);
            lemma_extends(inline0, new_inline);
        }
        Ok(())
    }

    /// Runs the loop once: makes sure the memory service, the memory bank and the
    /// tracker are ready; takes the bootstrap task or claims a ready one (none
    /// ready: no work), claiming it unless this is a dry run; storms and
    /// specifies it; creates its children within the spawn cap unless it is
    /// itself a child; and hands the agent the plan, recording it on the task and
    /// in the memory service unless this is a dry run.
    #[verifier::rlimit(100)]
    #[verifier::spinoff_prover]
    pub fn run_once(&mut self) -> (r: Result<RunOutcome>)
        ensures
            final(self).config == old(self).config,
            grew(old(self).hindsight.log(), final(self).hindsight.log()),
            grew(old(self).memory_bank.log(), final(self).memory_bank.log()),
            grew(old(self).beads.log(), final(self).beads.log()),
            grew(old(self).llm.log(), final(self).llm.log()),
            run_calls(
                old(self).config,
                appended(old(self).hindsight.log(), final(self).hindsight.log()),
                appended(old(self).memory_bank.log(), final(self).memory_bank.log()),
                appended(old(self).beads.log(), final(self).beads.log()),
                appended(old(self).llm.log(), final(self).llm.log()),
                r,
            ),
            r matches Ok(RunOutcome::NoReadyWork) ==> old(self).config.bootstrap_goal is None,
            r matches Ok(
                RunOutcome::AgentActionRequired {
                    task_id,
                    commands,
                    created_children,
                    closed_children,
                },
            ) ==> action_required_holds(old(self).config, created_children@, closed_children@),
    {
        broadcast use lemma_appended, lemma_grew;

        let ghost h0 = self.hindsight.log();
        let ghost m0 = self.memory_bank.log();
        let ghost b0 = self.beads.log();
        let ghost l0 = self.llm.log();
        let ghost cfg = self.config;
        let ghost mut hs: Seq<HindsightCall> = Seq::empty();
        let ghost mut ms: Seq<MemoryCall> = Seq::empty();
        let ghost mut bs: Seq<BeadsCall> = Seq::empty();
        let ghost mut ls: Seq<LlmCall> = Seq::empty();
        assert(h0 + hs =~= h0);
        assert(m0 + ms =~= m0);
        assert(b0 + bs =~= b0);
        assert(l0 + ls =~= l0);

        let available = self.hindsight.ensure_available();
        proof {
            hs = hs.push(HindsightCall::Available { result: available });
            assert(self.hindsight.log() =~= h0 + hs);
        }
        match available {
            Ok(_) => {},
            Err(e) => return Err(e),
        }
        let preferences = self.hindsight.recall_preferences();
        proof {
            hs = hs.push(HindsightCall::Preferences { result: preferences });
            assert(self.hindsight.log() =~= h0 + hs);
        }
        match preferences {
            Ok(_) => {},
            Err(e) => return Err(e),
        }
        let banked = self.hindsight.ensure_project_bank(self.config.hindsight_bank.as_str());
        proof {
            hs = hs.push(HindsightCall::Bank { bank: cfg.hindsight_bank@, result: banked });
            assert(self.hindsight.log() =~= h0 + hs);
        }
        match banked {
            Ok(_) => {},
            Err(e) => return Err(e),
        }
        let exists = self.memory_bank.ensure_exists();
        proof {
            ms = ms.push(MemoryCall::Exists { result: exists });
            assert(self.memory_bank.log() =~= m0 + ms);
        }
        match exists {
            Ok(_) => {},
            Err(e) => return Err(e),
        }
        let primed = self.memory_bank.prime();
        proof {
            ms = ms.push(MemoryCall::Prime { result: primed });
            assert(self.memory_bank.log() =~= m0 + ms);
        }
        match primed {
            Ok(_) => {},
            Err(e) => return Err(e),
        }
        let initialized = self.beads.ensure_initialized();
        proof {
            bs = bs.push(BeadsCall::Init { result: initialized });
            assert(self.beads.log() =~= b0 + bs);
        }
        match initialized {
            Ok(_) => {},
            Err(e) => return Err(e),
        }
        let claim = !self.config.dry_run;
        let parent = match &self.config.bootstrap_goal {
            Some(goal) => {
                let made_task = self.beads.create_bootstrap_parent_task(goal.as_str(), claim);
                proof {
                    bs = bs.push(BeadsCall::Bootstrap { goal: goal@, claim, result: made_task });
                    assert(self.beads.log() =~= b0 + bs);
                }
                match made_task {
                    Ok(task) => task,
                    Err(e) => return Err(e),
                }
            },
            None => {
                let preferred = match &self.config.task_id {
                    Some(id) => Some(id.as_str()),
                    None => None,
                };
                let taken = self.beads.claim_parent_task(preferred, claim);
                proof {
                    assert(opt_str_view(preferred) == opt_view(cfg.task_id));
                    bs = bs.push(
                        BeadsCall::Claim { preferred: opt_view(cfg.task_id), claim, result: taken },
                    );
                    assert(self.beads.log() =~= b0 + bs);
                }
                match taken {
                    Ok(Some(task)) => task,
                    Ok(None) => return Ok(RunOutcome::NoReadyWork),
                    Err(e) => return Err(e),
                }
            },
        };
        let synced = self.beads.sync();
        proof {
            bs = bs.push(BeadsCall::Sync { result: synced });
            assert(self.beads.log() =~= b0 + bs);
        }
        match synced {
            Ok(_) => {},
            Err(e) => return Err(e),
        }
        let recalled = self.hindsight.recall_task_context(
            self.config.hindsight_bank.as_str(),
            parent.title.as_str(),
        );
        proof {
            hs = hs.push(
                HindsightCall::Context {
                    bank: cfg.hindsight_bank@,
                    query: parent.title@,
                    result: recalled,
                },
            );
            assert(self.hindsight.log() =~= h0 + hs);
        }
        match recalled {
            Ok(_) => {},
            Err(e) => return Err(e),
        }
        let prepared = self.memory_bank.prepare(parent.title.as_str());
        proof {
            ms = ms.push(MemoryCall::Prepare { topic: parent.title@, result: prepared });
            assert(self.memory_bank.log() =~= m0 + ms);
        }
        match prepared {
            Ok(_) => {},
            Err(e) => return Err(e),
        }
        let stormed = self.llm.product_storm(&parent);
        proof {
            ls = ls.push(LlmCall::Storm { task: parent, result: stormed });
            assert(self.llm.log() =~= l0 + ls);
        }
        let storm = match stormed {
            Ok(storm) => storm,
            Err(e) => return Err(e),
        };
        let specified = self.llm.spec_first(&parent, &storm);
        proof {
            ls = ls.push(LlmCall::Spec { task: parent, storm, result: specified });
            assert(self.llm.log() =~= l0 + ls);
        }
        let spec = match specified {
            Ok(spec) => spec,
            Err(e) => return Err(e),
        };
        let mut spawn_budget = self.config.spawn_cap;
        let mut created_children: Vec<String> = Vec::new();
        let mut inline_children: Vec<Task> = Vec::new();
        let ghost bs3 = bs;
        let ghost mut sc: Seq<BeadsCall> = Seq::empty();
        let ghost pid = parent.id@;
        let ghost cands = spawnable(parent, storm);
        proof {
            assert(bs3.len() == 3);
            assert forall|rest: Seq<BeadsCall>| #[trigger]
                spawn_out(pid, cfg.dry_run, cfg.small_child_threshold_minutes, cands, cfg.spawn_cap as nat, sc + rest)
                    == spawn_out(pid, cfg.dry_run, cfg.small_child_threshold_minutes, cands, cfg.spawn_cap as nat, rest) by {
                assert(sc + rest =~= rest);
            }
        }
        if parent.parent_id.is_none() {
            let ghost before = self.beads.log();
            let spawned = self.process_spawn_candidates(
                &parent,
                &storm.spawn_candidates,
                &mut spawn_budget,
                &mut created_children,
                &mut inline_children,
            );
            proof {
                sc = appended(before, self.beads.log());
                assert(self.beads.log() =~= before + sc);
                bs = bs + sc;
                assert(self.beads.log() =~= b0 + bs);
                assert(appended(Seq::<String>::empty(), created_children@) =~= created_children@);
                assert(appended(Seq::<Task>::empty(), inline_children@) =~= inline_children@);
            }
            match spawned {
                Ok(_) => {},
                Err(e) => {
                    proof {
                        assert(bs.skip(3) =~= sc + Seq::<BeadsCall>::empty());
                    }
                    return Err(e);
                },
            }
        }
        let ghost o = SpawnOutcome {
            shaped: true,
            used: sc.len(),
            budget: spawn_budget as nat,
            created: views(created_children@),
            inline: inline_children@,
            failure: None,
        };
        proof {
            if parent.parent_id.is_some() {
                assert(views(created_children@) =~= Seq::<Seq<char>>::empty());
                assert(inline_children@ =~= Seq::<Task>::empty());
            }
            assert(spawn_ends(pid, cfg.dry_run, cfg.small_child_threshold_minutes, cands, cfg.spawn_cap as nat, sc, o));
        }
        let commands = agent_commands(&parent, &spec, &self.config, &inline_children);
        let notes = join_strings(&commands, "\n");
        if !self.config.dry_run {
            let noted = self.beads.add_notes(parent.id.as_str(), notes.as_str());
            proof {
                bs = bs.push(BeadsCall::Notes { task_id: pid, notes: notes@, result: noted });
                assert(self.beads.log() =~= b0 + bs);
            }
            match noted {
                Ok(_) => {},
                Err(e) => {
                    proof {
                        assert(bs.skip(3) =~= sc + bs.skip(3 + sc.len() as int));
                    }
                    return Err(e);
                },
            }
            let synced_again = self.beads.sync();
            proof {
                bs = bs.push(BeadsCall::Sync { result: synced_again });
                assert(self.beads.log() =~= b0 + bs);
            }
            match synced_again {
                Ok(_) => {},
                Err(e) => {
                    proof {
                        assert(bs.skip(3) =~= sc + bs.skip(3 + sc.len() as int));
                    }
                    return Err(e);
                },
            }
        }
        self.retain_summary_best_effort(&parent, notes.as_str());
        proof {
            if !cfg.dry_run && cfg.retain_mode != RetainMode::Off {
                let after = self.hindsight.log();
                assert(after =~= after.drop_last().push(after.last()));
                hs = hs.push(after.last());
                assert(after =~= h0 + hs);
            }
            assert(bs.skip(3) =~= sc + bs.skip(3 + sc.len() as int));
        }
        Ok(
            RunOutcome::AgentActionRequired {
                task_id: parent.id,
                commands,
                created_children,
                closed_children: Vec::new(),
            },
        )
    }
}

} // verus!
