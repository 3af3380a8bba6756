use agent_loop::contracts::{
    DoneDecision, GateName, GateReport, GateSet, ReviewOutput, ReviewStatus, Task, TaskStatus,
};
use agent_loop::evaluator::{
    ratio_string, should_close_as_decomposition_handoff, DoneEvaluator, ParentDecisionInput,
};

#[test]
fn decides_done_when_all_conditions_are_green() {
    let evaluator = DoneEvaluator::default();
    let gates = GateReport::all_green();
    let review = ReviewOutput {
        status: ReviewStatus::Done,
        coverage_score: 9500,
        missing_items: vec![],
        spawn_candidates: vec![],
        risk_flags: vec![],
    };

    let decision = evaluator.decide_parent(&ParentDecisionInput {
        gates: &gates,
        non_blocking_gates: &GateSet::new(),
        review: &review,
        has_open_blocking_children: false,
        parent_iteration: 1,
        max_iterations: 3,
        elapsed: 10,
        timeout: 300,
    });

    assert_eq!(decision, DoneDecision::Done);
}

#[test]
fn decides_rework_when_gate_fails_before_limit() {
    let evaluator = DoneEvaluator::default();
    let gates = GateReport {
        fmt_ok: true,
        clippy_ok: false,
        tests_ok: true,
        perf_ok: true,
    };
    let review = ReviewOutput {
        status: ReviewStatus::Done,
        coverage_score: 10000,
        missing_items: vec![],
        spawn_candidates: vec![],
        risk_flags: vec![],
    };

    let decision = evaluator.decide_parent(&ParentDecisionInput {
        gates: &gates,
        non_blocking_gates: &GateSet::new(),
        review: &review,
        has_open_blocking_children: false,
        parent_iteration: 1,
        max_iterations: 3,
        elapsed: 10,
        timeout: 300,
    });

    assert_eq!(decision, DoneDecision::Rework);
}

#[test]
fn decides_needs_human_on_iteration_limit() {
    let evaluator = DoneEvaluator::default();
    let gates = GateReport::all_green();
    let review = ReviewOutput {
        status: ReviewStatus::Rework,
        coverage_score: 4000,
        missing_items: vec!["missing".into()],
        spawn_candidates: vec![],
        risk_flags: vec![],
    };

    let decision = evaluator.decide_parent(&ParentDecisionInput {
        gates: &gates,
        non_blocking_gates: &GateSet::new(),
        review: &review,
        has_open_blocking_children: false,
        parent_iteration: 3,
        max_iterations: 3,
        elapsed: 10,
        timeout: 300,
    });

    assert_eq!(decision, DoneDecision::NeedsHuman);
}

#[test]
fn decides_needs_human_on_timeout() {
    let evaluator = DoneEvaluator::default();
    let gates = GateReport::all_green();
    let review = ReviewOutput {
        status: ReviewStatus::Done,
        coverage_score: 10000,
        missing_items: vec![],
        spawn_candidates: vec![],
        risk_flags: vec![],
    };

    let decision = evaluator.decide_parent(&ParentDecisionInput {
        gates: &gates,
        non_blocking_gates: &GateSet::new(),
        review: &review,
        has_open_blocking_children: false,
        parent_iteration: 1,
        max_iterations: 3,
        elapsed: 301,
        timeout: 300,
    });

    assert_eq!(decision, DoneDecision::NeedsHuman);
}

#[test]
fn decides_child_done_only_when_green() {
    let evaluator = DoneEvaluator::default();
    let done = evaluator.decide_child(
        &GateReport::all_green(),
        &ReviewOutput {
            status: ReviewStatus::Done,
            coverage_score: 10000,
            missing_items: vec![],
            spawn_candidates: vec![],
            risk_flags: vec![],
        },
        &GateSet::new(),
    );
    assert_eq!(done, DoneDecision::Done);

    let rework = evaluator.decide_child(
        &GateReport {
            fmt_ok: true,
            clippy_ok: true,
            tests_ok: false,
            perf_ok: true,
        },
        &ReviewOutput {
            status: ReviewStatus::Done,
            coverage_score: 10000,
            missing_items: vec![],
            spawn_candidates: vec![],
            risk_flags: vec![],
        },
        &GateSet::new(),
    );
    assert_eq!(rework, DoneDecision::Rework);
}

#[test]
fn non_blocking_gate_can_still_be_done() {
    let evaluator = DoneEvaluator::default();
    let mut non_blocking = GateSet::new();
    non_blocking.insert(GateName::Clippy);

    let gates = GateReport {
        fmt_ok: true,
        clippy_ok: false,
        tests_ok: true,
        perf_ok: true,
    };
    let review = ReviewOutput {
        status: ReviewStatus::Done,
        coverage_score: 10000,
        missing_items: vec![],
        spawn_candidates: vec![],
        risk_flags: vec![],
    };

    let decision = evaluator.decide_parent(&ParentDecisionInput {
        gates: &gates,
        non_blocking_gates: &non_blocking,
        review: &review,
        has_open_blocking_children: false,
        parent_iteration: 1,
        max_iterations: 3,
        elapsed: 10,
        timeout: 300,
    });

    assert_eq!(decision, DoneDecision::Done);
}

fn clean_review() -> ReviewOutput {
    ReviewOutput::default()
}

#[test]
fn coverage_exactly_at_threshold_is_done_and_below_is_rework() {
    let evaluator = DoneEvaluator::default();
    let gates = GateReport::all_green();
    let mut review = clean_review();
    review.coverage_score = 9000;
    assert_eq!(evaluator.decide_child(&gates, &review, &GateSet::new()), DoneDecision::Done);
    review.coverage_score = 8999;
    assert_eq!(evaluator.decide_child(&gates, &review, &GateSet::new()), DoneDecision::Rework);
}

#[test]
fn open_blocking_children_keep_parent_in_rework() {
    let evaluator = DoneEvaluator::default();
    let gates = GateReport::all_green();
    let review = clean_review();
    let input = ParentDecisionInput {
        gates: &gates,
        non_blocking_gates: &GateSet::new(),
        review: &review,
        has_open_blocking_children: true,
        parent_iteration: 1,
        max_iterations: 3,
        elapsed: 0,
        timeout: 60,
    };
    assert_eq!(evaluator.decide_parent(&input), DoneDecision::Rework);
}

#[test]
fn timeout_wins_over_a_clean_review_at_the_exact_limit() {
    let evaluator = DoneEvaluator::default();
    let gates = GateReport::all_green();
    let review = clean_review();
    let input = ParentDecisionInput {
        gates: &gates,
        non_blocking_gates: &GateSet::new(),
        review: &review,
        has_open_blocking_children: false,
        parent_iteration: 1,
        max_iterations: 3,
        elapsed: 300,
        timeout: 300,
    };
    assert_eq!(evaluator.decide_parent(&input), DoneDecision::NeedsHuman);
}

#[test]
fn gate_set_holds_what_was_inserted() {
    let mut set = GateSet::new();
    assert!(!set.contains(&GateName::Perf));
    set.insert(GateName::Perf);
    assert!(set.contains(&GateName::Perf));
    assert!(!set.contains(&GateName::Fmt));
}

#[test]
fn all_passed_needs_every_gate() {
    assert!(GateReport::all_green().all_passed());
    let report = GateReport { fmt_ok: true, clippy_ok: true, tests_ok: true, perf_ok: false };
    assert!(!report.all_passed());
    let mut perf = GateSet::new();
    perf.insert(GateName::Perf);
    assert!(report.passed_except(&perf));
    assert!(!report.passed_except(&GateSet::new()));
}

#[test]
fn needs_human_reason_names_the_first_cause() {
    let evaluator = DoneEvaluator::default();
    let green = GateReport::all_green();
    let review = clean_review();
    assert_eq!(evaluator.needs_human_reason(&green, &review, true, true), "timeout exceeded");

    let failing = GateReport { fmt_ok: true, clippy_ok: false, tests_ok: true, perf_ok: true };
    assert_eq!(
        evaluator.needs_human_reason(&failing, &review, true, false),
        "quality gates failed (fmt=true, clippy=false, tests=true, perf=true)"
    );
    assert_eq!(
        evaluator.needs_human_reason(&green, &review, true, false),
        "open blocking child tasks"
    );

    let mut missing = clean_review();
    missing.missing_items = vec!["docs".to_string(), "bench".to_string()];
    assert_eq!(
        evaluator.needs_human_reason(&green, &missing, false, false),
        "review missing item: docs"
    );

    let mut low = clean_review();
    low.coverage_score = 4000;
    assert_eq!(
        evaluator.needs_human_reason(&green, &low, false, false),
        "review coverage below threshold (coverage=0.4, threshold=0.9)"
    );

    assert_eq!(
        evaluator.needs_human_reason(&green, &review, false, false),
        "parent iteration limit reached"
    );
}

#[test]
fn ratios_render_like_floats() {
    assert_eq!(ratio_string(0), "0");
    assert_eq!(ratio_string(10000), "1");
    assert_eq!(ratio_string(9500), "0.95");
    assert_eq!(ratio_string(9000), "0.9");
    assert_eq!(ratio_string(123), "0.0123");
    assert_eq!(ratio_string(15050), "1.505");
}

fn task(title: &str, labels: Vec<String>) -> Task {
    Task {
        id: "t-1".to_string(),
        title: title.to_string(),
        description: String::new(),
        status: TaskStatus::Open,
        labels,
        parent_id: None,
    }
}

#[test]
fn decomposition_handoff_needs_green_gates_open_children_and_a_decomposition_task() {
    let child = task("child", vec![]);
    let green = GateReport::all_green();
    let by_label = task("Plan", vec!["loop:kind:decomposition".to_string()]);
    assert!(should_close_as_decomposition_handoff(&by_label, &green, &[child.clone()]));
    assert!(!should_close_as_decomposition_handoff(&by_label, &green, &[]));
    let red = GateReport { fmt_ok: false, clippy_ok: true, tests_ok: true, perf_ok: true };
    assert!(!should_close_as_decomposition_handoff(&by_label, &red, &[child.clone()]));

    let by_title = task("Decompose the roadmap", vec![]);
    assert!(should_close_as_decomposition_handoff(&by_title, &green, &[child.clone()]));
    let russian = task("Аудит модулей", vec![]);
    assert!(should_close_as_decomposition_handoff(&russian, &green, &[child.clone()]));
    let plain = task("Implement parser", vec![]);
    assert!(!should_close_as_decomposition_handoff(&plain, &green, &[child]));
}

#[test]
fn parent_actions_follow_the_decision() {
    let evaluator = DoneEvaluator::default();
    let green = GateReport::all_green();
    let none = GateSet::new();
    let plain = task("Implement parser", vec![]);

    match evaluator.next_parent_action(&plain, &green, &none, &clean_review(), &[], 1, 3, 0, 60) {
        agent_loop::evaluator::ParentAction::Close { reason, summary } => {
            assert_eq!(reason, "agent-loop: completed");
            assert_eq!(summary, "Task completed with done decision");
        }
        other => panic!("unexpected {other:?}"),
    }

    let mut blocker = task("child", vec!["loop:blocking".to_string()]);
    blocker.id = "c".to_string();
    assert!(blocker.is_blocking_child());
    assert_eq!(
        evaluator.next_parent_action(&plain, &green, &none, &clean_review(), &[blocker.clone()], 1, 3, 0, 60),
        agent_loop::evaluator::ParentAction::Rework
    );
    match evaluator.next_parent_action(&plain, &green, &none, &clean_review(), &[blocker.clone()], 3, 3, 0, 60) {
        agent_loop::evaluator::ParentAction::Block { reason, summary } => {
            assert_eq!(reason, "open blocking child tasks");
            assert_eq!(summary, "Task requires human intervention: open blocking child tasks");
        }
        other => panic!("unexpected {other:?}"),
    }
    match evaluator.next_parent_action(&plain, &green, &none, &clean_review(), &[], 1, 3, 61, 60) {
        agent_loop::evaluator::ParentAction::Block { reason, .. } => {
            assert_eq!(reason, "timeout exceeded")
        }
        other => panic!("unexpected {other:?}"),
    }

    let decomposition = task("Decomposition of epic", vec![]);
    match evaluator.next_parent_action(&decomposition, &green, &none, &clean_review(), &[blocker], 1, 3, 0, 60) {
        agent_loop::evaluator::ParentAction::Close { reason, .. } => {
            assert_eq!(reason, "agent-loop: decomposition handoff completed")
        }
        other => panic!("unexpected {other:?}"),
    }

    match evaluator.iteration_limit_action() {
        agent_loop::evaluator::ParentAction::Block { reason, .. } => {
            assert_eq!(reason, "parent iteration limit reached")
        }
        other => panic!("unexpected {other:?}"),
    }
}

#[test]
fn a_fallback_review_never_finishes_a_task() {
    let evaluator = DoneEvaluator { config: agent_loop::evaluator::DoneEvaluatorConfig { coverage_threshold: 0 } };
    let review = agent_loop::adapters::openai::fallback_review();
    let green = GateReport::all_green();
    assert_eq!(evaluator.decide_child(&green, &review, &GateSet::new()), DoneDecision::Rework);
    let input = ParentDecisionInput {
        gates: &green,
        non_blocking_gates: &GateSet::new(),
        review: &review,
        has_open_blocking_children: false,
        parent_iteration: 3,
        max_iterations: 3,
        elapsed: 0,
        timeout: 60,
    };
    assert_eq!(evaluator.decide_parent(&input), DoneDecision::NeedsHuman);
}

#[test]
fn a_done_parent_is_a_done_child() {
    let evaluator = DoneEvaluator::default();
    let gates = GateReport { fmt_ok: false, clippy_ok: true, tests_ok: true, perf_ok: true };
    let mut fmt = GateSet::new();
    fmt.insert(GateName::Fmt);
    let review = clean_review();
    let input = ParentDecisionInput {
        gates: &gates,
        non_blocking_gates: &fmt,
        review: &review,
        has_open_blocking_children: false,
        parent_iteration: 1,
        max_iterations: 3,
        elapsed: 0,
        timeout: 60,
    };
    assert_eq!(evaluator.decide_parent(&input), DoneDecision::Done);
    assert_eq!(evaluator.decide_child(&gates, &review, &fmt), DoneDecision::Done);
}
