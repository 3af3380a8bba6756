use std::cell::RefCell;

use agent_loop::config::{ExecutionDriver, LoopProfile, RetainMode};
use agent_loop::contracts::{
    GateName, GateSet, ProductStormOutput, ReviewOutput, RunOutcome, SpawnTaskCandidate,
    SpawnTaskKind, SpecOutput, Task, TaskStatus,
};
use agent_loop::error::{LoopError, Result};
use agent_loop::loop_runner::{
    spawn_step, SpawnStep, agent_commands, AgentLoop, BeadsClient, HindsightClient, LlmClient, MemoryBankClient,
    RunConfig,
};

#[derive(Default)]
struct Tracker {
    parent: RefCell<Option<Task>>,
    created: RefCell<Vec<String>>,
    deps: RefCell<Vec<(String, String)>>,
    notes: RefCell<Vec<(String, String)>>,
    syncs: RefCell<usize>,
    claims: RefCell<Vec<bool>>,
}

impl BeadsClient for Tracker {
    fn ensure_initialized(&mut self) -> Result<()> {
        Ok(())
    }
    fn create_bootstrap_parent_task(&mut self, goal: &str, claim: bool) -> Result<Task> {
        self.claims.borrow_mut().push(claim);
        Ok(task("boot-1", &format!("[Bootstrap] Product storm: {goal}"), None))
    }
    fn claim_parent_task(&mut self, _preferred_task: Option<&str>, claim: bool) -> Result<Option<Task>> {
        self.claims.borrow_mut().push(claim);
        Ok(self.parent.borrow_mut().take())
    }
    fn sync(&mut self) -> Result<()> {
        *self.syncs.borrow_mut() += 1;
        Ok(())
    }
    fn search_duplicates(&mut self, _parent_id: &str, _c: &SpawnTaskCandidate) -> Result<Vec<Task>> {
        Ok(vec![])
    }
    fn create_child_task(&mut self, parent_id: &str, c: &SpawnTaskCandidate) -> Result<Task> {
        let id = format!("child-{}", self.created.borrow().len() + 1);
        self.created.borrow_mut().push(id.clone());
        Ok(task(&id, &c.title, Some(parent_id)))
    }
    fn add_blocking_dependency(&mut self, child_id: &str, parent_id: &str) -> Result<()> {
        self.deps.borrow_mut().push((child_id.to_string(), parent_id.to_string()));
        Ok(())
    }
    fn add_notes(&mut self, task_id: &str, notes: &str) -> Result<()> {
        self.notes.borrow_mut().push((task_id.to_string(), notes.to_string()));
        Ok(())
    }
}

#[derive(Default)]
struct Memory {
    retained: RefCell<Vec<(String, String, String, bool)>>,
    available: bool,
}

impl HindsightClient for Memory {
    fn ensure_available(&mut self) -> Result<()> {
        if self.available {
            Ok(())
        } else {
            Err(LoopError::External("hindsight unavailable".to_string()))
        }
    }
    fn ensure_project_bank(&mut self, _bank: &str) -> Result<()> {
        Ok(())
    }
    fn recall_preferences(&mut self) -> Result<()> {
        Ok(())
    }
    fn recall_task_context(&mut self, _bank: &str, _query: &str) -> Result<()> {
        Ok(())
    }
    fn retain_summary(
        &mut self,
        bank: &str,
        doc_id: &str,
        context: &str,
        _content: &str,
        async_mode: bool,
    ) -> Result<()> {
        self.retained.borrow_mut().push((
            bank.to_string(),
            doc_id.to_string(),
            context.to_string(),
            async_mode,
        ));
        Err(LoopError::External("retain is best effort".to_string()))
    }
}

struct Bank;

impl MemoryBankClient for Bank {
    fn ensure_exists(&mut self) -> Result<()> {
        Ok(())
    }
    fn prime(&mut self) -> Result<()> {
        Ok(())
    }
    fn prepare(&mut self, _topic: &str) -> Result<()> {
        Ok(())
    }
}

struct Model {
    storm: ProductStormOutput,
    perf: bool,
}

impl LlmClient for Model {
    fn product_storm(&mut self, _task: &Task) -> Result<ProductStormOutput> {
        Ok(self.storm.clone())
    }
    fn spec_first(&mut self, _task: &Task, _storm: &ProductStormOutput) -> Result<SpecOutput> {
        Ok(SpecOutput {
            acceptance_criteria: vec!["parses input".to_string()],
            non_goals: vec![],
            requires_perf_gate: self.perf,
        })
    }
    fn run_red_phase(&mut self, _t: &Task, _s: &SpecOutput, _i: u32) -> Result<()> {
        Ok(())
    }
    fn run_green_phase(&mut self, _t: &Task, _s: &SpecOutput, _i: u32) -> Result<()> {
        Ok(())
    }
    fn run_refactor_phase(&mut self, _t: &Task, _s: &SpecOutput, _i: u32) -> Result<()> {
        Ok(())
    }
    fn review(&mut self, _t: &Task, _s: &SpecOutput, _i: u32) -> Result<ReviewOutput> {
        Ok(ReviewOutput::default())
    }
}

fn task(id: &str, title: &str, parent: Option<&str>) -> Task {
    Task {
        id: id.to_string(),
        title: title.to_string(),
        description: String::new(),
        status: TaskStatus::Open,
        labels: vec![],
        parent_id: parent.map(str::to_string),
    }
}

fn config() -> RunConfig {
    RunConfig {
        task_id: None,
        bootstrap_goal: None,
        max_iterations: 3,
        timeout_minutes: 45,
        spawn_cap: 5,
        child_inline_timeout_minutes: 10,
        small_child_threshold_minutes: 20,
        model: "gpt-5.3-codex".to_string(),
        hindsight_bank: "agent-loop".to_string(),
        driver: ExecutionDriver::Agent,
        profile: LoopProfile::Delivery,
        non_blocking_gates: GateSet::new(),
        retain_mode: RetainMode::Sync,
        json_events: false,
        dry_run: false,
    }
}

fn small(title: &str, kind: SpawnTaskKind, blocking: bool) -> SpawnTaskCandidate {
    SpawnTaskCandidate {
        title: title.to_string(),
        description: String::new(),
        kind,
        blocking,
        estimated_minutes: 10,
        can_inline: true,
        acceptance: vec![],
        priority: 1,
        labels: vec![],
    }
}

fn run(cfg: RunConfig, storm: ProductStormOutput, perf: bool) -> (Result<RunOutcome>, Tracker, Memory) {
    let tracker = Tracker::default();
    *tracker.parent.borrow_mut() = Some(task("p-1", "Build parser", None));
    let mut engine = AgentLoop {
        config: cfg,
        beads: Box::new(tracker),
        hindsight: Box::new(Memory { available: true, ..Default::default() }),
        memory_bank: Box::new(Bank),
        llm: Box::new(Model { storm, perf }),
    };
    let outcome = engine.run_once();
    let AgentLoop { beads, hindsight, .. } = engine;
    (outcome, *beads, *hindsight)
}

#[test]
fn plan_lists_cycle_gates_criteria_and_iteration_budget() {
    let (outcome, tracker, memory) = run(config(), ProductStormOutput::default(), false);
    let RunOutcome::AgentActionRequired { task_id, commands, created_children, closed_children } =
        outcome.unwrap()
    else {
        panic!("expected agent action required");
    };
    assert_eq!(task_id, "p-1");
    assert_eq!(
        commands,
        vec![
            "RED: write failing tests for p-1 (Build parser) that cover the acceptance criteria",
            "GREEN: make the failing tests for p-1 pass",
            "REFACTOR: clean up p-1 while the tests stay green",
            "cargo fmt -- --check",
            "cargo clippy -- -D warnings",
            "cargo test",
            "ACCEPT: parses input",
            "ITERATE: repeat RED/GREEN/REFACTOR up to 3 times within 45 minutes",
        ]
    );
    assert!(created_children.is_empty());
    assert!(closed_children.is_empty());
    let notes = tracker.notes.borrow();
    assert_eq!(notes.len(), 1);
    assert_eq!(notes[0].0, "p-1");
    assert_eq!(notes[0].1, commands.join("\n"));
    let retained = memory.retained.borrow();
    assert_eq!(retained.len(), 1);
    assert_eq!(retained[0], ("agent-loop".to_string(), "task-p-1".to_string(), "Build parser".to_string(), false));
}

#[test]
fn perf_gate_and_non_blocking_gates_show_in_the_plan() {
    let mut cfg = config();
    cfg.non_blocking_gates.insert(GateName::Clippy);
    let (outcome, _, _) = run(cfg, ProductStormOutput::default(), true);
    let RunOutcome::AgentActionRequired { commands, .. } = outcome.unwrap() else {
        panic!("expected agent action required");
    };
    assert!(commands.contains(&"cargo clippy -- -D warnings (non-blocking)".to_string()));
    assert!(commands.contains(&"cargo test --release".to_string()));
}

#[test]
fn small_children_are_handed_to_the_agent_inline_and_blocking_ones_block() {
    let storm = ProductStormOutput {
        summary: "storm".to_string(),
        spawn_candidates: vec![
            small("tests for edge cases", SpawnTaskKind::Tests, true),
            small("someday", SpawnTaskKind::Backlog, false),
        ],
    };
    let (outcome, tracker, _) = run(config(), storm, false);
    let RunOutcome::AgentActionRequired { commands, created_children, .. } = outcome.unwrap()
    else {
        panic!("expected agent action required");
    };
    assert_eq!(created_children, vec!["child-1".to_string(), "child-2".to_string()]);
    assert_eq!(
        *tracker.deps.borrow(),
        vec![("child-1".to_string(), "p-1".to_string())]
    );
    assert!(commands.contains(&"INLINE child-1: tests for edge cases".to_string()));
    assert!(!commands.iter().any(|c| c.contains("someday")));
}

#[test]
fn dry_run_creates_nothing_and_records_nothing() {
    let mut cfg = config();
    cfg.dry_run = true;
    let storm = ProductStormOutput {
        summary: "storm".to_string(),
        spawn_candidates: vec![small("a", SpawnTaskKind::Tests, true)],
    };
    let (outcome, tracker, memory) = run(cfg, storm, false);
    let RunOutcome::AgentActionRequired { created_children, commands, .. } = outcome.unwrap()
    else {
        panic!("expected agent action required");
    };
    assert!(created_children.is_empty());
    assert!(!commands.is_empty());
    assert!(tracker.created.borrow().is_empty());
    assert!(tracker.notes.borrow().is_empty());
    assert!(memory.retained.borrow().is_empty());
    assert_eq!(*tracker.claims.borrow(), vec![false]);
}

#[test]
fn real_run_claims_and_dry_bootstrap_does_not() {
    let (_, tracker, _) = run(config(), ProductStormOutput::default(), false);
    assert_eq!(*tracker.claims.borrow(), vec![true]);

    let mut boot = config();
    boot.bootstrap_goal = Some("ship".to_string());
    boot.dry_run = true;
    let (outcome, tracker, _) = run(boot, ProductStormOutput::default(), false);
    match outcome.unwrap() {
        RunOutcome::AgentActionRequired { task_id, .. } => assert_eq!(task_id, "boot-1"),
        _ => panic!("expected agent action required"),
    }
    assert_eq!(*tracker.claims.borrow(), vec![false]);
}

#[test]
fn retain_mode_off_skips_and_async_asks_for_background() {
    let mut off = config();
    off.retain_mode = RetainMode::Off;
    let (_, _, memory) = run(off, ProductStormOutput::default(), false);
    assert!(memory.retained.borrow().is_empty());

    let mut background = config();
    background.retain_mode = RetainMode::Async;
    let (outcome, _, memory) = run(background, ProductStormOutput::default(), false);
    assert!(outcome.is_ok());
    assert!(memory.retained.borrow()[0].3);
}

#[test]
fn spawn_cap_zero_creates_nothing() {
    let mut cfg = config();
    cfg.spawn_cap = 0;
    let storm = ProductStormOutput {
        summary: "storm".to_string(),
        spawn_candidates: vec![small("a", SpawnTaskKind::Tests, false)],
    };
    let (outcome, tracker, _) = run(cfg, storm, false);
    assert!(outcome.is_ok());
    assert!(tracker.created.borrow().is_empty());
}

#[test]
fn an_unavailable_memory_service_fails_the_run() {
    let mut engine = AgentLoop {
        config: config(),
        beads: Box::new(Tracker::default()),
        hindsight: Box::new(Memory::default()),
        memory_bank: Box::new(Bank),
        llm: Box::new(Model { storm: ProductStormOutput::default(), perf: false }),
    };
    match engine.run_once() {
        Err(e) => assert_eq!(e.message(), "hindsight unavailable"),
        Ok(_) => panic!("expected a failure"),
    }
}

#[test]
fn plan_is_built_from_task_spec_and_children() {
    let parent = task("p-9", "Tune", None);
    let spec = SpecOutput::default();
    let children = vec![task("c-1", "bench", Some("p-9"))];
    let commands = agent_commands(&parent, &spec, &config(), &children);
    assert_eq!(commands[6], "ACCEPT: Task requirements are satisfied");
    assert_eq!(commands[7], "INLINE c-1: bench");
    assert_eq!(commands.len(), 9);
}

#[test]
fn spawn_steps_skip_duplicates_and_reserve_in_dry_runs() {
    assert_eq!(spawn_step(true, false), SpawnStep::Skip);
    assert_eq!(spawn_step(true, true), SpawnStep::Skip);
    assert_eq!(spawn_step(false, true), SpawnStep::Reserve);
    assert_eq!(spawn_step(false, false), SpawnStep::Create);
}
