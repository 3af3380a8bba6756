use agent_loop::contracts::{SpawnTaskCandidate, SpawnTaskKind};
use agent_loop::error::LoopError;
use agent_loop::text::{
    blank, chars_of, contains, decimal_string, ends_with, is_whitespace, join_strings,
    join_strs, starts_with, to_lowercase, trim_str,
};

#[test]
fn trims_unicode_whitespace() {
    assert_eq!(trim_str("  a b \n"), "a b");
    assert_eq!(trim_str("\u{3000}\u{85}x\u{2009}"), "x");
    assert_eq!(trim_str(" \t\r\n"), "");
    assert_eq!(trim_str(""), "");
    assert!(blank(" \u{a0} "));
    assert!(!blank(" . "));
    assert!(is_whitespace('\u{1680}'));
    assert!(!is_whitespace('\u{200b}'));
}

#[test]
fn searches_substrings() {
    assert!(contains("decomposition task", "compos"));
    assert!(contains("аудит модулей", "аудит"));
    assert!(contains("abc", ""));
    assert!(!contains("ab", "abc"));
    assert!(starts_with("```json {}", "```json"));
    assert!(!starts_with("``", "```"));
    assert!(ends_with("x```", "```"));
    assert!(!ends_with("x``", "```"));
}

#[test]
fn lowercases_with_unicode_rules() {
    assert_eq!(to_lowercase("ДЕКОМПОЗИЦИЯ Plan"), "декомпозиция plan");
}

#[test]
fn joins_and_renders_numbers() {
    assert_eq!(join_strings(&vec!["a".to_string(), "b".to_string()], ","), "a,b");
    assert_eq!(join_strings(&vec![], ","), "");
    assert_eq!(join_strs(&["x"], " "), "x");
    assert_eq!(decimal_string(0), "0");
    assert_eq!(decimal_string(18446744073709551615), "18446744073709551615");
    assert_eq!(chars_of("héé"), vec!['h', 'é', 'é']);
}

#[test]
fn normalized_titles_ignore_case_and_surrounding_space() {
    let c = SpawnTaskCandidate {
        title: "  Fix THE Bug\t".to_string(),
        description: String::new(),
        kind: SpawnTaskKind::Quality,
        blocking: false,
        estimated_minutes: 1,
        can_inline: false,
        acceptance: vec![],
        priority: 0,
        labels: vec![],
    };
    assert_eq!(c.normalized_title(), "fix the bug");
}

#[test]
fn errors_render_their_messages() {
    let failed = LoopError::CommandFailed {
        program: "bd".to_string(),
        args: "sync --flush-only".to_string(),
        stderr: "locked".to_string(),
    };
    assert_eq!(failed.message(), "bd sync --flush-only failed: locked");
    assert_eq!(LoopError::EmptyBootstrapGoal.message(), "bootstrap goal is empty");
    assert_eq!(
        LoopError::MissingIssueId { bootstrap: false }.message(),
        "bd create did not return issue id"
    );
    assert_eq!(LoopError::MissingApiKey.message(), "OPENAI_API_KEY is not set");
    assert_eq!(
        LoopError::ModelNotFound { body: "x".to_string() }.message(),
        "MODEL_NOT_FOUND: x"
    );
    assert_eq!(
        LoopError::NoModelCandidates.message(),
        "no model candidates available"
    );
    assert_eq!(
        LoopError::ModelOutputUndecodable { text: "{".to_string() }.message(),
        "failed to decode JSON from model output: {"
    );
}
