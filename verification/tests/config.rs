use agent_loop::config::{
    resolve_openai_api_key, resolve_openai_base_url, ExecutionDriver, LoopProfile, RetainMode,
    RunCommand, DEFAULT_CHILD_INLINE_TIMEOUT_MINUTES, DEFAULT_HINDSIGHT_BANK,
    DEFAULT_MAX_ITERATIONS, DEFAULT_MODEL, DEFAULT_SMALL_CHILD_MINUTES, DEFAULT_SPAWN_CAP,
    DEFAULT_TIMEOUT_MINUTES,
};
use agent_loop::contracts::GateName;
use agent_loop::loop_runner::RunConfig;

/// `agent-loop run` with no flags and no `AGENT_LOOP_MODEL` in the environment.
fn run_with_defaults() -> RunCommand {
    RunCommand {
        task: None,
        bootstrap: None,
        max_iterations: DEFAULT_MAX_ITERATIONS,
        timeout_minutes: DEFAULT_TIMEOUT_MINUTES,
        spawn_cap: DEFAULT_SPAWN_CAP,
        child_inline_timeout_minutes: DEFAULT_CHILD_INLINE_TIMEOUT_MINUTES,
        small_child_threshold_minutes: DEFAULT_SMALL_CHILD_MINUTES,
        model: None,
        hindsight_bank: DEFAULT_HINDSIGHT_BANK.to_string(),
        driver: ExecutionDriver::Agent,
        profile: LoopProfile::Delivery,
        non_blocking_gates: vec![],
        retain_mode: RetainMode::Sync,
        json_events: false,
        dry_run: false,
    }
}

#[test]
fn uses_default_model_gpt_5_3_codex_when_not_overridden() {
    let run = run_with_defaults();

    assert_eq!(run.resolved_model(), DEFAULT_MODEL);
    assert_eq!(DEFAULT_MODEL, "gpt-5.3-codex");
}

#[test]
fn model_override_via_flag_or_env_has_priority_over_default() {
    let mut run = run_with_defaults();
    run.model = Some("custom-model".to_string());

    assert_eq!(run.resolved_model(), "custom-model");

    let env_override = RunCommand {
        task: None,
        bootstrap: None,
        max_iterations: 3,
        timeout_minutes: 45,
        spawn_cap: 5,
        child_inline_timeout_minutes: 10,
        small_child_threshold_minutes: 20,
        model: Some("env-model".to_string()),
        hindsight_bank: "agent-loop".to_string(),
        driver: ExecutionDriver::Agent,
        profile: LoopProfile::Delivery,
        non_blocking_gates: vec![],
        retain_mode: RetainMode::Sync,
        json_events: false,
        dry_run: false,
    };

    assert_eq!(env_override.resolved_model(), "env-model");
}

#[test]
fn blank_model_falls_back_to_default() {
    let mut run = run_with_defaults();
    run.model = Some("   ".to_string());
    assert_eq!(run.resolved_model(), DEFAULT_MODEL);
}

#[test]
fn parses_bootstrap_goal_for_taskless_product_storm() {
    let mut run = run_with_defaults();
    run.bootstrap = Some("Новый продукт".to_string());

    assert_eq!(run.task, None);
    assert_eq!(run.resolved_bootstrap_goal().as_deref(), Some("Новый продукт"));
}

#[test]
fn blank_bootstrap_goal_is_dropped() {
    let mut run = run_with_defaults();
    run.bootstrap = Some(" \t".to_string());
    assert_eq!(run.resolved_bootstrap_goal(), None);
}

#[test]
fn parses_profile_and_non_blocking_gates() {
    let mut run = run_with_defaults();
    run.profile = LoopProfile::Discovery;
    run.non_blocking_gates = vec![GateName::Clippy, GateName::Fmt];
    run.retain_mode = RetainMode::Async;
    run.json_events = true;

    assert!(matches!(run.profile, LoopProfile::Discovery));
    assert!(matches!(run.retain_mode, RetainMode::Async));
    assert!(run.json_events);
    let gates = run.resolved_non_blocking_gates();
    assert!(gates.contains(&GateName::Clippy));
    assert!(gates.contains(&GateName::Fmt));
    assert!(!gates.contains(&GateName::Tests));
    assert!(!gates.contains(&GateName::Perf));
}

#[test]
fn discovery_profile_adds_default_non_blocking_clippy() {
    let mut run = run_with_defaults();
    run.profile = LoopProfile::Discovery;
    let cfg = RunConfig::from_command(run);

    assert!(cfg.non_blocking_gates.contains(&GateName::Clippy));
    assert!(!cfg.non_blocking_gates.contains(&GateName::Fmt));
}

#[test]
fn delivery_profile_blocks_every_gate() {
    let cfg = RunConfig::from_command(run_with_defaults());
    for g in [GateName::Fmt, GateName::Clippy, GateName::Tests, GateName::Perf] {
        assert!(!cfg.non_blocking_gates.contains(&g));
    }
}

#[test]
fn defaults_to_agent_driver() {
    let cfg = RunConfig::from_command(run_with_defaults());

    assert!(matches!(cfg.driver, ExecutionDriver::Agent));
    assert_eq!(cfg.model, DEFAULT_MODEL);
    assert_eq!(cfg.spawn_cap, 5);
}

#[test]
fn timeouts_are_minutes_in_seconds() {
    let mut run = run_with_defaults();
    run.timeout_minutes = 45;
    run.child_inline_timeout_minutes = 10;
    let cfg = RunConfig::from_command(run);
    assert_eq!(cfg.timeout(), 2700);
    assert_eq!(cfg.child_timeout(), 600);

    let mut huge = run_with_defaults();
    huge.timeout_minutes = u64::MAX;
    assert_eq!(RunConfig::from_command(huge).timeout(), u64::MAX);
}

#[test]
fn openai_api_key_has_priority_over_vibeproxy_key() {
    let resolved = resolve_openai_api_key(
        Some("openai-key".to_string()),
        Some("vibeproxy-key".to_string()),
    );
    assert_eq!(resolved.as_deref(), Some("openai-key"));
}

#[test]
fn falls_back_to_vibeproxy_key_when_openai_key_missing() {
    let resolved = resolve_openai_api_key(None, Some("vibeproxy-key".to_string()));
    assert_eq!(resolved.as_deref(), Some("vibeproxy-key"));
}

#[test]
fn blank_keys_are_ignored() {
    let resolved = resolve_openai_api_key(Some(" ".to_string()), Some("vibeproxy-key".to_string()));
    assert_eq!(resolved.as_deref(), Some("vibeproxy-key"));
    assert_eq!(resolve_openai_api_key(None, Some("".to_string())), None);
}

#[test]
fn openai_base_url_has_priority_over_vibeproxy_localhost_fallback() {
    let resolved = resolve_openai_base_url(
        Some("https://api.example.com".to_string()),
        Some("vibeproxy-key".to_string()),
    );
    assert_eq!(resolved.as_deref(), Some("https://api.example.com"));
}

#[test]
fn falls_back_to_local_vibeproxy_base_url_when_key_present() {
    let resolved = resolve_openai_base_url(None, Some("vibeproxy-key".to_string()));
    assert_eq!(resolved.as_deref(), Some("http://127.0.0.1:8318"));
}

#[test]
fn no_base_url_without_proxy_key() {
    assert_eq!(resolve_openai_base_url(None, None), None);
    assert_eq!(resolve_openai_base_url(Some("  ".to_string()), Some(" ".to_string())), None);
}
