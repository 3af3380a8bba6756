use agent_loop::adapters::openai::{
    extract_output_text, HttpReply, ModelTransport, fallback_review, fallback_spec, fallback_storm, interpret_response,
    is_model_not_found, models_exhausted, review_prompt, should_try_next_model, spec_prompt,
    storm_prompt, strip_fences, OpenAiResponsesClient,
};
use agent_loop::contracts::{
    ProductStormOutput, ReviewStatus, SpawnTaskKind, SpecOutput, Task, TaskStatus,
};
use agent_loop::contracts::{ReviewOutput, SpawnTaskCandidate};
use agent_loop::error::{LoopError, Result};
use std::cell::RefCell;
use std::rc::Rc;
use agent_loop::json::parse_json;
use agent_loop::loop_runner::LlmClient;

fn sample_task() -> Task {
    Task {
        id: "t-1".to_string(),
        title: "sample task".to_string(),
        description: "description".to_string(),
        status: TaskStatus::Open,
        labels: vec![],
        parent_id: None,
    }
}

#[test]
fn fallback_review_is_never_done_when_api_key_missing() {
    let mut client = OpenAiResponsesClient::new("gpt-5.3-codex".to_string(), None, None);
    let task = sample_task();
    let spec = SpecOutput::default();

    let review = client.review(&task, &spec, 1).unwrap();

    assert_eq!(review.status, ReviewStatus::Rework);
    assert_eq!(review.coverage_score, 0);
    assert!(!review.missing_items.is_empty());
    assert!(review.risk_flags.iter().any(|x| x == "fallback-review"));
}

#[test]
fn fallback_storm_and_spec_work_without_api_key() {
    let mut client = OpenAiResponsesClient::new("gpt-5.3-codex".to_string(), None, None);
    let task = sample_task();

    let storm = client.product_storm(&task).unwrap();
    let spec = client.spec_first(&task, &storm).unwrap();

    assert!(!spec.acceptance_criteria.is_empty());
}

#[test]
fn fallbacks_without_api_key_are_the_library_fallbacks() {
    let mut client = OpenAiResponsesClient::new("gpt-5.3-codex".to_string(), None, None);
    assert!(!client.api_enabled());
    let task = sample_task();
    let storm = client.product_storm(&task).unwrap();
    assert_eq!(storm.summary, "Fallback storm for sample task");
    assert!(storm.spawn_candidates.is_empty());
    let spec = client.spec_first(&task, &storm).unwrap();
    assert_eq!(spec.acceptance_criteria, vec!["sample task is implemented and validated"]);
    assert!(!spec.requires_perf_gate);
    let review = client.review(&task, &spec, 1).unwrap();
    assert_eq!(review.risk_flags, fallback_review().risk_flags);
    assert_eq!(storm.summary, fallback_storm(&task).summary);
    assert_eq!(spec.acceptance_criteria, fallback_spec(&task).acceptance_criteria);
}

#[test]
fn unreachable_model_falls_back_even_with_a_key() {
    let mut client =
        OpenAiResponsesClient::new("gpt-5.3-codex".to_string(), None, Some("k".to_string()));
    assert!(client.api_enabled());
    let task = sample_task();
    let review = client.review(&task, &SpecOutput::default(), 1).unwrap();
    assert!(review.risk_flags.iter().any(|x| x == "fallback-review"));
}

#[test]
fn fallback_storm_proposes_a_perf_baseline_for_performance_work() {
    let mut task = sample_task();
    task.description = "Improve PERFORMANCE of the parser".to_string();
    let storm = fallback_storm(&task);
    assert_eq!(storm.spawn_candidates.len(), 1);
    let c = &storm.spawn_candidates[0];
    assert_eq!(c.title, "[Perf] Baseline for t-1");
    assert_eq!(c.kind, SpawnTaskKind::Performance);
    assert_eq!(c.estimated_minutes, 15);
    assert!(c.can_inline);
    assert_eq!(c.priority, 2);
    assert_eq!(c.labels, vec!["auto-generated"]);
}

#[test]
fn fallback_spec_asks_for_perf_gate_when_title_mentions_perf() {
    let mut task = sample_task();
    task.title = "Perf tuning".to_string();
    assert!(fallback_spec(&task).requires_perf_gate);
}

#[test]
fn key_enables_the_api_and_blank_key_does_not() {
    let with_key = OpenAiResponsesClient::new("m".to_string(), None, Some("k".to_string()));
    assert!(with_key.api_enabled());
    assert!(with_key.request_key().is_ok());
    let blank = OpenAiResponsesClient::new("m".to_string(), None, Some("  ".to_string()));
    assert!(!blank.api_enabled());
    assert!(matches!(blank.request_key(), Err(LoopError::MissingApiKey)));
}

#[test]
fn endpoint_uses_default_base_and_drops_trailing_slashes() {
    let default = OpenAiResponsesClient::new("m".to_string(), None, None);
    assert_eq!(default.endpoint(), "https://api.openai.com/v1/responses");
    let local = OpenAiResponsesClient::new(
        "m".to_string(),
        Some("http://127.0.0.1:8318//".to_string()),
        None,
    );
    assert_eq!(local.endpoint(), "http://127.0.0.1:8318/v1/responses");
}

#[test]
fn model_candidates_are_unique_and_non_blank() {
    let client = OpenAiResponsesClient::new("gpt-5.3-codex".to_string(), None, None);
    assert_eq!(client.model_candidates(), vec!["gpt-5.3-codex", "gpt-5-codex", "gpt-5"]);
    let same = OpenAiResponsesClient::new("gpt-5".to_string(), None, None);
    assert_eq!(same.model_candidates(), vec!["gpt-5", "gpt-5-codex"]);
    let blank = OpenAiResponsesClient::new(" ".to_string(), None, None);
    assert_eq!(blank.model_candidates(), vec!["gpt-5-codex", "gpt-5"]);
}

#[test]
fn strips_code_fences() {
    assert_eq!(strip_fences("  {\"a\":1}  "), "{\"a\":1}");
    assert_eq!(strip_fences("```json\n{\"a\":1}\n```"), "{\"a\":1}");
    assert_eq!(strip_fences("```\n[1]\n```\n"), "[1]");
    assert_eq!(strip_fences("```json {}"), "{}");
}

#[test]
fn extracts_output_text_depth_first() {
    let direct = parse_json("{\"output_text\": \"hi\"}").unwrap();
    assert_eq!(extract_output_text(&direct).as_deref(), Some("hi"));
    let nested = parse_json(
        "{\"output\": [{\"type\": \"message\", \"content\": [{\"type\": \"output_text\", \"text\": \"{}\"}]}]}",
    )
    .unwrap();
    assert_eq!(extract_output_text(&nested).as_deref(), Some("{}"));
    let none = parse_json("{\"output\": [1, 2]}").unwrap();
    assert_eq!(extract_output_text(&none), None);
}

#[test]
fn reads_responses() {
    assert_eq!(interpret_response(200, "200 OK", "{\"output_text\": \"x\"}").unwrap(), "x");
    assert!(matches!(
        interpret_response(200, "200 OK", "not json"),
        Err(LoopError::ApiBodyUndecodable)
    ));
    assert!(matches!(interpret_response(200, "200 OK", "{}"), Err(LoopError::NoOutputText)));
    match interpret_response(404, "404 Not Found", "The model `x` does not exist") {
        Err(LoopError::ModelNotFound { body }) => assert_eq!(body, "The model `x` does not exist"),
        _ => panic!("expected a missing model"),
    }
    match interpret_response(500, "500 Internal Server Error", "boom") {
        Err(e) => assert_eq!(
            e.message(),
            "OpenAI responses API returned status 500 Internal Server Error: boom"
        ),
        Ok(_) => panic!("expected a failure"),
    }
}

#[test]
fn model_not_found_needs_status_and_wording() {
    assert!(is_model_not_found(400, "Unknown MODEL"));
    assert!(is_model_not_found(404, "model not found"));
    assert!(!is_model_not_found(500, "model not found"));
    assert!(!is_model_not_found(404, "route not found"));
}

#[test]
fn only_missing_models_move_on_to_the_next_candidate() {
    let missing = LoopError::ModelNotFound { body: "nope".to_string() };
    assert!(should_try_next_model(&missing));
    assert!(!should_try_next_model(&LoopError::NoOutputText));
    assert!(matches!(models_exhausted(None), LoopError::NoModelCandidates));
    assert!(matches!(models_exhausted(Some(missing)), LoopError::ModelNotFound { .. }));
}

#[test]
fn prompts_carry_the_task() {
    let task = sample_task();
    let storm = ProductStormOutput { summary: "S".to_string(), spawn_candidates: vec![] };
    assert!(storm_prompt(&task).ends_with("Task id: t-1. Task title: sample task. Task description: description"));
    assert!(spec_prompt(&task, &storm).ends_with("Task title: sample task. Task description: description. Storm summary: S"));
    let spec = SpecOutput::default();
    assert!(review_prompt(&task, &spec, 2).ends_with(
        "Task: sample task. Iteration: 2. Acceptance criteria: [\"Task requirements are satisfied\"]"
    ));
}

/// A transport that answers from a script and records each post.
struct ScriptedModel {
    replies: RefCell<Vec<(u16, String)>>,
    posts: Rc<RefCell<Vec<(String, String, String, String)>>>,
}

impl ModelTransport for ScriptedModel {
    fn post(&self, endpoint: &str, api_key: &str, model: &str, prompt: &str) -> Result<HttpReply> {
        self.posts.borrow_mut().push((
            endpoint.to_string(),
            api_key.to_string(),
            model.to_string(),
            prompt.to_string(),
        ));
        let (status, body) = self.replies.borrow_mut().remove(0);
        Ok(HttpReply { status, status_text: format!("{status}"), body })
    }

    fn decode_storm(&self, text: &str) -> Option<ProductStormOutput> {
        if text == "{\"summary\": \"s\"}" {
            Some(ProductStormOutput { summary: "from model".to_string(), spawn_candidates: Vec::<SpawnTaskCandidate>::new() })
        } else {
            None
        }
    }

    fn decode_spec(&self, _text: &str) -> Option<SpecOutput> {
        None
    }

    fn decode_review(&self, _text: &str) -> Option<ReviewOutput> {
        None
    }
}

fn scripted(replies: Vec<(u16, &str)>) -> (ScriptedModel, Rc<RefCell<Vec<(String, String, String, String)>>>) {
    let posts = Rc::new(RefCell::new(Vec::new()));
    let model = ScriptedModel {
        replies: RefCell::new(replies.into_iter().map(|(s, b)| (s, b.to_string())).collect()),
        posts: posts.clone(),
    };
    (model, posts)
}

#[test]
fn keyed_client_posts_to_the_endpoint_and_moves_past_unknown_models() {
    let (transport, posts) = scripted(vec![
        (404, "The model `m` does not exist"),
        (200, "{\"output_text\": \"```json\\n{\\\"summary\\\": \\\"s\\\"}\\n```\"}"),
    ]);
    let mut client = OpenAiResponsesClient::with_transport(
        "m".to_string(),
        Some("http://127.0.0.1:8318/".to_string()),
        Some("k".to_string()),
        transport,
    );
    let task = sample_task();
    let storm = client.product_storm(&task).unwrap();
    assert_eq!(storm.summary, "from model");
    let posts = posts.borrow();
    assert_eq!(posts.len(), 2);
    assert_eq!(posts[0].0, "http://127.0.0.1:8318/v1/responses");
    assert_eq!(posts[0].1, "k");
    assert_eq!(posts[0].2, "m");
    assert_eq!(posts[0].3, storm_prompt(&task));
    assert_eq!(posts[1].2, "gpt-5-codex");
}

#[test]
fn keyed_client_falls_back_after_another_failure_without_trying_more_models() {
    let (transport, posts) = scripted(vec![(500, "boom")]);
    let mut client =
        OpenAiResponsesClient::with_transport("m".to_string(), None, Some("k".to_string()), transport);
    let task = sample_task();
    let storm = client.product_storm(&task).unwrap();
    assert_eq!(storm.summary, "Fallback storm for sample task");
    assert_eq!(posts.borrow().len(), 1);
}

#[test]
fn client_without_a_key_posts_nothing() {
    let (transport, posts) = scripted(vec![]);
    let mut client = OpenAiResponsesClient::with_transport("m".to_string(), None, None, transport);
    let task = sample_task();
    let storm = client.product_storm(&task).unwrap();
    let spec = client.spec_first(&task, &storm).unwrap();
    assert_eq!(spec.acceptance_criteria, vec!["sample task is implemented and validated"]);
    assert!(posts.borrow().is_empty());
}
