//! The model behind the OpenAI Responses API: what is asked of it, how its
//! answers are read, which models are tried, and what stands in for it when no
//! key is configured or no answer can be used. The HTTP exchange and the
//! decoding of the model's text are made by a transport.
use vstd::prelude::*;
use vstd::string::*;

use crate::config::{non_blank, opt_view};
use crate::contracts::{
    DoneDecision, GateReport, GateSet, ProductStormOutput, ReviewOutput, ReviewStatus,
    SpawnTaskCandidate, SpawnTaskKind, SpecOutput, Task,
};
use crate::error::{error_message, LoopError, Result};
use crate::loop_runner::{appended, grew, LlmCall, LlmClient, TddPhase};
use crate::evaluator::{child_decision, parent_decision};
use crate::json::{json_decode, parse_json, Json};
use crate::text::{
    blank, contains, has_prefix, has_substring, has_suffix, is_blank, lowercase, to_lowercase,
    trim, trim_str, views,
};

verus! {

pub const DEFAULT_BASE_URL: &'static str = "https://api.openai.com";

/// What the service answered: the status code, its text, and the body.
pub struct HttpReply {
    pub status: u16,
    pub status_text: String,
    pub body: String,
}

/// Reaches the model: posts one prompt for one model, and reads the model's
/// text as the library's outputs.
///
/// Each `..._gives` and `..._decodes` function is the implementation's account
/// of what the matching call can yield; by default it admits every outcome.
pub trait ModelTransport {
    open spec fn post_gives(
        &self,
        endpoint: Seq<char>,
        api_key: Seq<char>,
        model: Seq<char>,
        prompt: Seq<char>,
        r: Result<HttpReply>,
    ) -> bool {
        true
    }

    open spec fn storm_decodes(&self, text: Seq<char>, r: Option<ProductStormOutput>) -> bool {
        true
    }

    open spec fn spec_decodes(&self, text: Seq<char>, r: Option<SpecOutput>) -> bool {
        true
    }

    open spec fn review_decodes(&self, text: Seq<char>, r: Option<ReviewOutput>) -> bool {
        true
    }

    /// Posts `prompt` for `model` to `endpoint`, authorized by `api_key`.
    fn post(&self, endpoint: &str, api_key: &str, model: &str, prompt: &str) -> (r: Result<HttpReply>)
        ensures
            self.post_gives(endpoint@, api_key@, model@, prompt@, r),
    ;

    /// The storm that `text` describes, if it describes one.
    fn decode_storm(&self, text: &str) -> (r: Option<ProductStormOutput>)
        ensures
            self.storm_decodes(text@, r),
    ;

    /// The spec that `text` describes, if it describes one.
    fn decode_spec(&self, text: &str) -> (r: Option<SpecOutput>)
        ensures
            self.spec_decodes(text@, r),
    ;

    /// The review that `text` describes, if it describes one.
    fn decode_review(&self, text: &str) -> (r: Option<ReviewOutput>)
        ensures
            self.review_decodes(text@, r),
    ;
}

/// A transport that reaches no service: every request fails, and no text is
/// read as an output.
pub struct Offline;

impl ModelTransport for Offline {
    open spec fn post_gives(
        &self,
        endpoint: Seq<char>,
        api_key: Seq<char>,
        model: Seq<char>,
        prompt: Seq<char>,
        r: Result<HttpReply>,
    ) -> bool {
        r is Err
    }

    open spec fn storm_decodes(&self, text: Seq<char>, r: Option<ProductStormOutput>) -> bool {
        r is None
    }

    open spec fn spec_decodes(&self, text: Seq<char>, r: Option<SpecOutput>) -> bool {
        r is None
    }

    open spec fn review_decodes(&self, text: Seq<char>, r: Option<ReviewOutput>) -> bool {
        r is None
    }

    fn post(&self, endpoint: &str, api_key: &str, model: &str, prompt: &str) -> (r: Result<HttpReply>) {
        Err(LoopError::External(String::from_str("no model service is reachable")))
    }

    fn decode_storm(&self, text: &str) -> (r: Option<ProductStormOutput>) {
        None
    }

    fn decode_spec(&self, text: &str) -> (r: Option<SpecOutput>) {
        None
    }

    fn decode_review(&self, text: &str) -> (r: Option<ReviewOutput>) {
        None
    }
}

/// A request the client posted: where, with which key, for which model and
/// prompt; what came back, and what the client read from it.
pub struct ModelRequest {
    pub endpoint: Seq<char>,
    pub api_key: Seq<char>,
    pub model: Seq<char>,
    pub prompt: Seq<char>,
    pub reply: Result<HttpReply>,
    pub read: Result<String>,
}

/// `r` is what the client reads from a reply: the answer's text, or the
/// failure that the answer or the post gave.
pub open spec fn read_reply(reply: Result<HttpReply>, r: Result<String>) -> bool {
    match reply {
        Ok(x) => reads_response(x.status, x.status_text@, x.body@, r),
        Err(e) => r == Err::<String, LoopError>(e),
    }
}

/// The failure once every model was tried: the last one, or that none was tried.
pub open spec fn exhausted(last: Option<LoopError>) -> LoopError {
    match last {
        Some(e) => e,
        None => LoopError::NoModelCandidates,
    }
}

/// Asking for `prompt` over `models`, in order, with the requests `reqs`: each
/// model is asked with one request to `endpoint` with the key, or, without a
/// key, fails before any request; the first text read is the result; a
/// failure that says the model is unknown moves on to the next model, any
/// other failure is the result; once every model is unknown, the last failure.
pub open spec fn tried(
    key: Option<Seq<char>>,
    endpoint: Seq<char>,
    models: Seq<Seq<char>>,
    prompt: Seq<char>,
    reqs: Seq<ModelRequest>,
    last: Option<LoopError>,
    r: Result<String>,
) -> bool
    decreases models.len(),
{
    if models.len() == 0 {
        reqs.len() == 0 && r == Err::<String, LoopError>(exhausted(last))
    } else {
        match key {
            None => if try_next_model(LoopError::MissingApiKey) {
                tried(key, endpoint, models.drop_first(), prompt, reqs, Some(LoopError::MissingApiKey), r)
            } else {
                reqs.len() == 0 && r == Err::<String, LoopError>(LoopError::MissingApiKey)
            },
            Some(k) => {
                &&& reqs.len() >= 1
                &&& reqs[0] == (ModelRequest {
                    endpoint,
                    api_key: k,
                    model: models[0],
                    prompt,
                    reply: reqs[0].reply,
                    read: reqs[0].read,
                })
                &&& read_reply(reqs[0].reply, reqs[0].read)
                &&& match reqs[0].read {
                    Ok(t) => reqs.len() == 1 && r == Ok::<String, LoopError>(t),
                    Err(e) => if try_next_model(e) {
                        tried(key, endpoint, models.drop_first(), prompt, reqs.skip(1), Some(e), r)
                    } else {
                        reqs.len() == 1 && r == Err::<String, LoopError>(e)
                    },
                }
            },
        }
    }
}

/// Whatever requests and result follow from the `i`-th model on, with `last`
/// the failure so far, asking over all `models` gives the requests `done`
/// followed by them, and that result.
pub open spec fn tried_midway(
    key: Option<Seq<char>>,
    endpoint: Seq<char>,
    models: Seq<Seq<char>>,
    prompt: Seq<char>,
    done: Seq<ModelRequest>,
    i: int,
    last: Option<LoopError>,
) -> bool {
    forall|rest: Seq<ModelRequest>, r: Result<String>| #[trigger]
        tried(key, endpoint, models.skip(i), prompt, rest, last, r) ==> tried(
            key,
            endpoint,
            models,
            prompt,
            done + rest,
            None,
            r,
        )
}

/// `r` is the storm made from the text `t` that the model was asked for: the
/// decoding of the unfenced text, else the fallback storm.
pub open spec fn storm_from<T: ModelTransport>(
    transport: T,
    task: Task,
    t: Result<String>,
    r: Result<ProductStormOutput>,
) -> bool {
    match t {
        Ok(text) => exists|d: Option<ProductStormOutput>|
            #[trigger] transport.storm_decodes(unfenced(text@), d) && match d {
                Some(s) => r == Ok::<ProductStormOutput, LoopError>(s),
                None => r matches Ok(s) && fallback_storm_holds(task, s),
            },
        Err(_) => r matches Ok(s) && fallback_storm_holds(task, s),
    }
}

/// `r` is the spec made from the text `t`: the decoding of the unfenced text,
/// else the fallback spec.
pub open spec fn spec_from<T: ModelTransport>(
    transport: T,
    task: Task,
    t: Result<String>,
    r: Result<SpecOutput>,
) -> bool {
    match t {
        Ok(text) => exists|d: Option<SpecOutput>|
            #[trigger] transport.spec_decodes(unfenced(text@), d) && match d {
                Some(s) => r == Ok::<SpecOutput, LoopError>(s),
                None => r matches Ok(s) && fallback_spec_holds(task, s),
            },
        Err(_) => r matches Ok(s) && fallback_spec_holds(task, s),
    }
}

/// `r` is the review made from the text `t`: the decoding of the unfenced
/// text, else the fallback review.
pub open spec fn review_from<T: ModelTransport>(
    transport: T,
    t: Result<String>,
    r: Result<ReviewOutput>,
) -> bool {
    match t {
        Ok(text) => exists|d: Option<ReviewOutput>|
            #[trigger] transport.review_decodes(unfenced(text@), d) && match d {
                Some(v) => r == Ok::<ReviewOutput, LoopError>(v),
                None => r matches Ok(v) && is_fallback_review(v),
            },
        Err(_) => r matches Ok(v) && is_fallback_review(v),
    }
}

/// The client: the preferred model, the endpoint's base URL, the key, and the
/// transport that reaches the model.
pub struct OpenAiResponsesClient<T: ModelTransport> {
    model: String,
    base_url: String,
    api_key: Option<String>,
    transport: T,
    calls: Ghost<Seq<LlmCall>>,
    requests: Ghost<Seq<ModelRequest>>,
}

/// The models tried in order: the configured one, then `gpt-5-codex`, then
/// `gpt-5`, skipping blank names and names already listed.
pub open spec fn candidate_models(model: Seq<char>) -> Seq<Seq<char>> {
    let fallbacks = seq!["gpt-5-codex"@, "gpt-5"@];
    if is_blank(model) {
        fallbacks
    } else if model == "gpt-5-codex"@ {
        fallbacks
    } else if model == "gpt-5"@ {
        seq!["gpt-5"@, "gpt-5-codex"@]
    } else {
        seq![model].add(fallbacks)
    }
}

/// `s` without trailing slashes.
pub open spec fn trim_end_slashes(s: Seq<char>) -> Seq<char>
    decreases s.len(),
{
    if s.len() > 0 && s.last() == '/' {
        trim_end_slashes(s.drop_last())
    } else {
        s
    }
}

/// The endpoint of the Responses API under a base URL.
pub open spec fn responses_endpoint(base_url: Seq<char>) -> Seq<char> {
    trim_end_slashes(base_url) + "/v1/responses"@
}

/// A failed status that says the model is unknown: 400 or 404, and a body that
/// mentions a model that is not found, does not exist or is unknown.
pub open spec fn model_not_found(status: u16, body: Seq<char>) -> bool {
    let lower = lowercase(body);
    &&& (status == 400 || status == 404)
    &&& has_substring(lower, "model"@)
    &&& (has_substring(lower, "not found"@) || has_substring(lower, "does not exist"@)
        || has_substring(lower, "unknown"@))
}

/// The first output text found in a document: its `output_text` string; in an
/// object, its `text` or `content` string, else the first found in its values
/// in order; in an array, the first found in its items in order.
pub open spec fn output_text(v: Json) -> Option<Seq<char>>
    decreases v,
{
    match v.field_text("output_text"@) {
        Some(t) => Some(t),
        None => match v {
            Json::Object(keys, values) => match v.field_text("text"@) {
                Some(t) => Some(t),
                None => match v.field_text("content"@) {
                    Some(t) => Some(t),
                    None => first_output_text(values@),
                },
            },
            Json::Array(items) => first_output_text(items@),
            _ => None,
        },
    }
}

/// The first output text found in a list of documents.
pub open spec fn first_output_text(vs: Seq<Json>) -> Option<Seq<char>>
    decreases vs,
{
    if vs.len() == 0 {
        None
    } else {
        match output_text(vs[0]) {
            Some(t) => Some(t),
            None => first_output_text(vs.subrange(1, vs.len() as int)),
        }
    }
}

/// The text of a Responses API document: found in it, else in its `output` member.
pub open spec fn response_text(v: Json) -> Option<Seq<char>> {
    match output_text(v) {
        Some(t) => Some(t),
        None => match v.field("output"@) {
            Some(o) => output_text(o),
            None => None,
        },
    }
}

/// `r` is how a Responses API answer is read: a failed status is a missing
/// model or a status failure; a body that is not JSON, or holds no text, fails;
/// else the text.
pub open spec fn reads_response(
    status: u16,
    status_text: Seq<char>,
    body: Seq<char>,
    r: Result<String>,
) -> bool {
    if !(200 <= status < 300) {
        if model_not_found(status, body) {
            r matches Err(LoopError::ModelNotFound { body: b }) && b@ == body
        } else {
            r matches Err(LoopError::ApiStatus { status: s, body: b }) && s@ == status_text && b@
                == body
        }
    } else {
        match json_decode(body) {
            Err(_) => r matches Err(LoopError::ApiBodyUndecodable),
            Ok(v) => match response_text(v) {
                Some(t) => r matches Ok(s) && s@ == t,
                None => r matches Err(LoopError::NoOutputText),
            },
        }
    }
}

/// A model's text with a surrounding code fence removed: the trimmed text, and
/// when it starts with three backticks, without the opening fence (with its
/// `json` tag), without the closing fence, trimmed again.
pub open spec fn unfenced(text: Seq<char>) -> Seq<char> {
    let t = trim(text);
    let fence = "```"@;
    if !has_prefix(t, fence) {
        t
    } else {
        let opened = if has_prefix(t, "```json"@) {
            trim(t.subrange(7, t.len() as int))
        } else {
            trim(t.subrange(3, t.len() as int))
        };
        if has_suffix(opened, fence) {
            trim(opened.subrange(0, opened.len() - 3))
        } else {
            trim(opened)
        }
    }
}

/// The `Debug` rendering of a list of strings, as `format!("{:?}", ..)` gives it.
pub uninterp spec fn debug_strings(items: Seq<Seq<char>>) -> Seq<char>;

/// `<Vec<String> as Debug>::fmt` through `format!`: the bracketed, quoted,
/// escaped list.
#[verifier::external_body]
pub fn debug_list(items: &Vec<String>) -> (r: String)
    ensures
        r@ == debug_strings(views(items@)),
{
    format!("{:?}", items)
}

pub open spec fn storm_prompt_text(t: Task) -> Seq<char> {
    "You are product-storm engine. Return JSON only with fields: summary:string, spawn_candidates:array. For each spawn candidate fields: title, description, kind(decomposition|backlog|performance|quality|tests), blocking(bool), estimated_minutes(number), can_inline(bool), acceptance(array string), priority(number 0..4), labels(array string). Task id: "@
        + t.id@ + ". Task title: "@ + t.title@ + ". Task description: "@ + t.description@
}

pub open spec fn spec_prompt_text(t: Task, storm: ProductStormOutput) -> Seq<char> {
    "You are spec-first engine. Return JSON only with fields: acceptance_criteria(array string), non_goals(array string), requires_perf_gate(bool). Task title: "@
        + t.title@ + ". Task description: "@ + t.description@ + ". Storm summary: "@
        + storm.summary@
}

pub open spec fn review_prompt_text(t: Task, spec: SpecOutput, iteration: u32) -> Seq<char> {
    "You are review engine. Return JSON only with fields: status(done|rework), coverage_score(number 0..1), missing_items(array string), spawn_candidates(array), risk_flags(array string). Task: "@
        + t.title@ + ". Iteration: "@ + crate::text::decimal(iteration as nat)
        + ". Acceptance criteria: "@ + debug_strings(views(spec.acceptance_criteria@))
}

/// The text that the fallback storm looks for a performance concern in.
pub open spec fn storm_haystack(t: Task) -> Seq<char> {
    lowercase(t.title@) + " "@ + lowercase(t.description@)
}

/// The fallback storm proposes a performance baseline exactly when the task
/// mentions performance.
pub open spec fn fallback_storm_holds(t: Task, r: ProductStormOutput) -> bool {
    &&& r.summary@ == "Fallback storm for "@ + t.title@
    &&& if has_substring(storm_haystack(t), "perf"@) {
        &&& r.spawn_candidates@.len() == 1
        &&& {
            let c = r.spawn_candidates@[0];
            &&& c.title@ == "[Perf] Baseline for "@ + t.id@
            &&& c.description@ == "Capture baseline and validate hot paths"@
            &&& c.kind == SpawnTaskKind::Performance
            &&& !c.blocking
            &&& c.estimated_minutes == 15
            &&& c.can_inline
            &&& views(c.acceptance@) == seq!["Baseline captured"@]
            &&& c.priority == 2
            &&& views(c.labels@) == seq!["auto-generated"@]
        }
    } else {
        r.spawn_candidates@.len() == 0
    }
}

/// The fallback review: rework, no coverage, one missing item, the fallback flag.
pub open spec fn is_fallback_review(r: ReviewOutput) -> bool {
    &&& r.status == ReviewStatus::Rework
    &&& r.coverage_score == 0
    &&& views(r.missing_items@) == seq![
        "LLM review unavailable, fallback review cannot mark task as done"@,
    ]
    &&& r.spawn_candidates@.len() == 0
    &&& views(r.risk_flags@) == seq!["fallback-review"@]
}

/// Whether to try the next model after a failure: the failure's text, in
/// lowercase, mentions `model_not_found`.
pub open spec fn try_next_model(e: LoopError) -> bool {
    has_substring(lowercase(error_message(e)), "model_not_found"@)
}

/// What the fallback spec-first engine gives: one criterion, that the task is
/// implemented and validated; a performance gate when the title mentions `perf`.
pub open spec fn fallback_spec_holds(t: Task, r: SpecOutput) -> bool {
    &&& views(r.acceptance_criteria@) == seq![t.title@ + " is implemented and validated"@]
    &&& r.non_goals@.len() == 0
    &&& r.requires_perf_gate == has_substring(lowercase(t.title@), "perf"@)
}

impl OpenAiResponsesClient<Offline> {
    /// A client that reaches no service; without a base URL it names the
    /// public endpoint.
    pub fn new(model: String, base_url: Option<String>, api_key: Option<String>) -> (r: Self)
        ensures
            r.model_name() == model@,
            r.base() == match base_url {
                Some(u) => u@,
                None => DEFAULT_BASE_URL@,
            },
            r.key() == opt_view(api_key),
            r.log() == Seq::<LlmCall>::empty(),
            r.requests() == Seq::<ModelRequest>::empty(),
    {
        Self::with_transport(model, base_url, api_key, Offline)
    }
}

impl<T: ModelTransport> OpenAiResponsesClient<T> {
    pub closed spec fn model_name(&self) -> Seq<char> {
        self.model@
    }

    pub closed spec fn base(&self) -> Seq<char> {
        self.base_url@
    }

    pub closed spec fn key(&self) -> Option<Seq<char>> {
        opt_view(self.api_key)
    }

    /// The transport that reaches the model.
    pub closed spec fn transport(&self) -> T {
        self.transport
    }

    /// The requests posted so far, in order.
    pub closed spec fn requests(&self) -> Seq<ModelRequest> {
        self.requests@
    }

    /// A client that reaches the model through `transport`; without a base URL
    /// it uses the public endpoint.
    pub fn with_transport(
        model: String,
        base_url: Option<String>,
        api_key: Option<String>,
        transport: T,
    ) -> (r: Self)
        ensures
            r.model_name() == model@,
            r.base() == match base_url {
                Some(u) => u@,
                None => DEFAULT_BASE_URL@,
            },
            r.key() == opt_view(api_key),
            r.log() == Seq::<LlmCall>::empty(),
            r.requests() == Seq::<ModelRequest>::empty(),
            r.transport() == transport,
    {
        let base_url = match base_url {
            Some(u) => u,
            None => String::from_str(DEFAULT_BASE_URL),
        };
        OpenAiResponsesClient {
            model,
            base_url,
            api_key,
            transport,
            calls: Ghost(Seq::empty()),
            requests: Ghost(Seq::empty()),
        }
    }

    /// The model is asked only when a key is set and not blank.
    pub fn api_enabled(&self) -> (r: bool)
        ensures
            r == (non_blank(self.key()) is Some),
    {
        match &self.api_key {
            Some(k) => !blank(k.as_str()),
            None => false,
        }
    }

    /// The key to send, or the failure that none is set.
    pub fn request_key(&self) -> (r: Result<&String>)
        ensures
            match r {
                Ok(k) => non_blank(self.key()) == Some(k@),
                Err(e) => non_blank(self.key()) is None && e matches LoopError::MissingApiKey,
            },
    {
        match &self.api_key {
            Some(k) => if blank(k.as_str()) {
                Err(LoopError::MissingApiKey)
            } else {
                Ok(k)
            },
            None => Err(LoopError::MissingApiKey),
        }
    }

    /// The models to try, in order.
    pub fn model_candidates(&self) -> (r: Vec<String>)
        ensures
            views(r@) == candidate_models(self.model_name()),
    {
        let mut models: Vec<String> = Vec::new();
        let codex = String::from_str("gpt-5-codex");
        let plain = String::from_str("gpt-5");
        if blank(self.model.as_str()) || self.model == codex {
            models.push(codex);
            models.push(plain);
        } else if self.model == plain {
            models.push(plain);
            models.push(codex);
        } else {
            models.push(self.model.clone());
            models.push(codex);
            models.push(plain);
        }
        assert(views(models@) =~= candidate_models(self.model_name()));
        models
    }

    /// The URL of the Responses API.
    pub fn endpoint(&self) -> (r: String)
        ensures
            r@ == responses_endpoint(self.base()),
    {
        let v = crate::text::chars_of(self.base_url.as_str());
        let mut n: usize = v.len();
        assert(v@.subrange(0, n as int) =~= v@);
        while n > 0 && v[n - 1] == '/'
            invariant
                n <= v@.len(),
                v@ == self.base(),
                trim_end_slashes(self.base()) == trim_end_slashes(v@.subrange(0, n as int)),
            decreases n,
        {
            assert(v@.subrange(0, n as int).drop_last() =~= v@.subrange(0, n - 1));
            n = n - 1;
        }
        let mut r = crate::text::string_of(&v, 0, n);
        r.append("/v1/responses");
        r
    }

    /// One request to one model, read as an answer of the Responses API; no
    /// key is a failure before any request.
    fn request_text_for_model(&mut self, model: &str, prompt: &str) -> (r: Result<String>)
        ensures
            same_settings(*final(self), *old(self)),
            final(self).log() == old(self).log(),
            match non_blank(old(self).key()) {
                None => final(self).requests() == old(self).requests() && r == Err::<
                    String,
                    LoopError,
                >(LoopError::MissingApiKey),
                Some(k) => {
                    let req = final(self).requests().last();
                    &&& final(self).requests() == old(self).requests().push(req)
                    &&& req == (ModelRequest {
                        endpoint: responses_endpoint(old(self).base()),
                        api_key: k,
                        model: model@,
                        prompt: prompt@,
                        reply: req.reply,
                        read: r,
                    })
                    &&& old(self).transport().post_gives(
                        responses_endpoint(old(self).base()),
                        k,
                        model@,
                        prompt@,
                        req.reply,
                    )
                    &&& read_reply(req.reply, r)
                },
            },
    {
        let api_key = match self.request_key() {
            Ok(k) => k.clone(),
            Err(e) => return Err(e),
        };
        let endpoint = self.endpoint();
        let reply = self.transport.post(endpoint.as_str(), api_key.as_str(), model, prompt);
        let ghost posted = reply;
        let r = match reply {
            Ok(reply) => interpret_response(
                reply.status,
                reply.status_text.as_str(),
                reply.body.as_str(),
            ),
            Err(e) => Err(e),
        };
        self.requests = Ghost(
            self.requests@.push(
                ModelRequest {
                    endpoint: endpoint@,
                    api_key: api_key@,
                    model: model@,
                    prompt: prompt@,
                    reply: posted,
                    read: r,
                },
            ),
        );
        r
    }

    /// Asks the models in order, moving on only while the model is unknown;
    /// once every model is unknown, the last failure.
    fn request_text(&mut self, prompt: &str) -> (r: Result<String>)
        ensures
            same_settings(*final(self), *old(self)),
            final(self).log() == old(self).log(),
            grew(old(self).requests(), final(self).requests()),
            tried(
                non_blank(old(self).key()),
                responses_endpoint(old(self).base()),
                candidate_models(old(self).model_name()),
                prompt@,
                appended(old(self).requests(), final(self).requests()),
                None,
                r,
            ),
    {
        let models = self.model_candidates();
        let ghost key = non_blank(self.key());
        let ghost ep = responses_endpoint(self.base());
        let ghost ms = views(models@);
        let ghost req0 = self.requests();
        let ghost mut done: Seq<ModelRequest> = Seq::empty();
        let mut last_error: Option<LoopError> = None;
        let mut i: usize = 0;
        proof {
            assert forall|rest: Seq<ModelRequest>, r: Result<String>| #[trigger]
                tried(key, ep, ms.skip(0), prompt@, rest, None, r) implies tried(
                key,
                ep,
                ms,
                prompt@,
                done + rest,
                None,
                r,
            ) by {
                assert(ms.skip(0) =~= ms);
                assert(done + rest =~= rest);
            }
            assert(req0 + done =~= req0);
        }
        while i < models.len()
            invariant
                i <= models@.len(),
                ms == views(models@),
                ms == candidate_models(self.model_name()),
                key == non_blank(self.key()),
                ep == responses_endpoint(self.base()),
                same_settings(*self, *old(self)),
                self.log() == old(self).log(),
                req0 == old(self).requests(),
                self.requests() == req0 + done,
                tried_midway(key, ep, ms, prompt@, done, i as int, last_error),
            decreases models.len() - i,
        {
            let ghost before = self.requests();
            let attempt = self.request_text_for_model(models[i].as_str(), prompt);
            let ghost step: Seq<ModelRequest> = if key is Some {
                seq![self.requests().last()]
            } else {
                Seq::empty()
            };
            proof {
                assert(models@[i as int]@ == ms[i as int]);
                assert(ms.skip(i as int)[0] == ms[i as int]);
                assert(ms.skip(i as int).drop_first() =~= ms.skip(i + 1));
                assert(self.requests() =~= req0 + (done + step));
            }
            match attempt {
                Ok(text) => {
                    proof {
                        assert(tried(key, ep, ms.skip(i as int), prompt@, step, last_error, Ok(text)));
                        lemma_appended_requests(req0, done + step);
                    }
                    return Ok(text);
                },
                Err(err) => {
                    if !should_try_next_model(&err) {
                        proof {
                            assert(tried(key, ep, ms.skip(i as int), prompt@, step, last_error, Err(err)));
                            lemma_appended_requests(req0, done + step);
                        }
                        return Err(err);
                    }
                    proof {
                        assert forall|rest: Seq<ModelRequest>, r: Result<String>| #[trigger]
                            tried(key, ep, ms.skip(i + 1), prompt@, rest, Some(err), r) implies tried(
                            key,
                            ep,
                            ms,
                            prompt@,
                            (done + step) + rest,
                            None,
                            r,
                        ) by {
                            if key is Some {
                                assert((step + rest)[0] == step[0]);
                                assert((step + rest).skip(1) =~= rest);
                            } else {
                                assert(step + rest =~= rest);
                            }
                            assert(tried(key, ep, ms.skip(i as int), prompt@, step + rest, last_error, r));
                            assert((done + step) + rest =~= done + (step + rest));
                        }
                        done = done + step;
                    }
                    last_error = Some(err);
                },
            }
            i = i + 1;
        }
        let r = Err(models_exhausted(last_error));
        proof {
            assert(ms.skip(i as int).len() == 0);
            assert(tried(key, ep, ms.skip(i as int), prompt@, Seq::empty(), last_error, r));
            assert(done + Seq::<ModelRequest>::empty() =~= done);
            lemma_appended_requests(req0, done);
        }
        r
    }
}

/// `a` has the settings and transport of `b`.
pub open spec fn same_settings<T: ModelTransport>(a: OpenAiResponsesClient<T>, b: OpenAiResponsesClient<T>) -> bool {
    &&& a.model_name() == b.model_name()
    &&& a.base() == b.base()
    &&& a.key() == b.key()
    &&& a.transport() == b.transport()
}

proof fn lemma_appended_requests(before: Seq<ModelRequest>, added: Seq<ModelRequest>)
    ensures
        appended(before, before + added) == added,
        grew(before, before + added),
{
    assert((before + added).skip(before.len() as int) =~= added);
    assert((before + added).take(before.len() as int) =~= before);
}

impl<T: ModelTransport> LlmClient for OpenAiResponsesClient<T> {
    closed spec fn log(&self) -> Seq<LlmCall> {
        self.calls@
    }

    /// Without a key, the fallback storm.
    open spec fn storm_gives(&self, task: Task, r: Result<ProductStormOutput>) -> bool {
        r matches Ok(s) && (non_blank(self.key()) is None ==> fallback_storm_holds(task, s))
    }

    /// Without a key, the fallback spec.
    open spec fn spec_gives(&self, task: Task, storm: ProductStormOutput, r: Result<SpecOutput>) -> bool {
        r matches Ok(s) && (non_blank(self.key()) is None ==> fallback_spec_holds(task, s))
    }

    /// The agent runs the phases: nothing to do here.
    open spec fn phase_gives(
        &self,
        phase: TddPhase,
        task: Task,
        spec: SpecOutput,
        iteration: u32,
        r: Result<()>,
    ) -> bool {
        r is Ok
    }

    /// Without a key, the fallback review.
    open spec fn review_gives(
        &self,
        task: Task,
        spec: SpecOutput,
        iteration: u32,
        r: Result<ReviewOutput>,
    ) -> bool {
        r matches Ok(v) && (non_blank(self.key()) is None ==> is_fallback_review(v))
    }

    /// The model's storm when a key is set and its answer can be read, else
    /// the fallback storm.
    fn product_storm(&mut self, task: &Task) -> (r: Result<ProductStormOutput>)
        ensures
            same_settings(*final(self), *old(self)),
            grew(old(self).requests(), final(self).requests()),
            match non_blank(old(self).key()) {
                None => final(self).requests() == old(self).requests() && (r matches Ok(s) && fallback_storm_holds(*task, s)),
                Some(_) => exists|t: Result<String>|
                    #[trigger] tried(
                        non_blank(old(self).key()),
                        responses_endpoint(old(self).base()),
                        candidate_models(old(self).model_name()),
                        storm_prompt_text(*task),
                        appended(old(self).requests(), final(self).requests()),
                        None,
                        t,
                    ) && storm_from(old(self).transport(), *task, t, r),
            },
    {
        let ghost mut asked_view: Result<String> = Err(LoopError::MissingApiKey);
        let r = if !self.api_enabled() {
            Ok(fallback_storm(task))
        } else {
            let prompt = storm_prompt(task);
            let asked = self.request_text(prompt.as_str());
            proof {
                asked_view = asked;
            }
            let decoded = match asked {
                Ok(text) => {
                    let clean = strip_fences(text.as_str());
                    self.transport.decode_storm(clean.as_str())
                },
                Err(_) => None,
            };
            let r = match decoded {
                Some(s) => Ok(s),
                None => Ok(fallback_storm(task)),
            };
            assert(storm_from(self.transport(), *task, asked_view, r));
            r
        };
        proof {
            let a = old(self).requests();
            assert(a.take(a.len() as int) =~= a);
            if non_blank(old(self).key()) is Some {
                assert(tried(
                    non_blank(old(self).key()),
                    responses_endpoint(old(self).base()),
                    candidate_models(old(self).model_name()),
                    storm_prompt_text(*task),
                    appended(old(self).requests(), self.requests()),
                    None,
                    asked_view,
                ));
            }
        }
        self.calls = Ghost(self.calls@.push(LlmCall::Storm { task: *task, result: r }));
        r
    }

    /// The model's spec when a key is set and its answer can be read, else the
    /// fallback spec.
    fn spec_first(&mut self, task: &Task, storm: &ProductStormOutput) -> (r: Result<SpecOutput>)
        ensures
            same_settings(*final(self), *old(self)),
            grew(old(self).requests(), final(self).requests()),
            match non_blank(old(self).key()) {
                None => final(self).requests() == old(self).requests() && (r matches Ok(s) && fallback_spec_holds(*task, s)),
                Some(_) => exists|t: Result<String>|
                    #[trigger] tried(
                        non_blank(old(self).key()),
                        responses_endpoint(old(self).base()),
                        candidate_models(old(self).model_name()),
                        spec_prompt_text(*task, *storm),
                        appended(old(self).requests(), final(self).requests()),
                        None,
                        t,
                    ) && spec_from(old(self).transport(), *task, t, r),
            },
    {
        let ghost mut asked_view: Result<String> = Err(LoopError::MissingApiKey);
        let r = if !self.api_enabled() {
            Ok(fallback_spec(task))
        } else {
            let prompt = spec_prompt(task, storm);
            let asked = self.request_text(prompt.as_str());
            proof {
                asked_view = asked;
            }
            let decoded = match asked {
                Ok(text) => {
                    let clean = strip_fences(text.as_str());
                    self.transport.decode_spec(clean.as_str())
                },
                Err(_) => None,
            };
            let r = match decoded {
                Some(s) => Ok(s),
                None => Ok(fallback_spec(task)),
            };
            assert(spec_from(self.transport(), *task, asked_view, r));
            r
        };
        proof {
            let a = old(self).requests();
            assert(a.take(a.len() as int) =~= a);
            if non_blank(old(self).key()) is Some {
                assert(tried(
                    non_blank(old(self).key()),
                    responses_endpoint(old(self).base()),
                    candidate_models(old(self).model_name()),
                    spec_prompt_text(*task, *storm),
                    appended(old(self).requests(), self.requests()),
                    None,
                    asked_view,
                ));
            }
        }
        self.calls = Ghost(self.calls@.push(LlmCall::Spec { task: *task, storm: *storm, result: r }));
        r
    }

    fn run_red_phase(&mut self, task: &Task, spec: &SpecOutput, iteration: u32) -> (r: Result<()>)
        ensures
            same_settings(*final(self), *old(self)),
            final(self).requests() == old(self).requests(),
    {
        let r = Ok(());
        self.calls = Ghost(
            self.calls@.push(
                LlmCall::Phase { phase: TddPhase::Red, task: *task, spec: *spec, iteration, result: r },
            ),
        );
        r
    }

    fn run_green_phase(&mut self, task: &Task, spec: &SpecOutput, iteration: u32) -> (r: Result<()>)
        ensures
            same_settings(*final(self), *old(self)),
            final(self).requests() == old(self).requests(),
    {
        let r = Ok(());
        self.calls = Ghost(
            self.calls@.push(
                LlmCall::Phase { phase: TddPhase::Green, task: *task, spec: *spec, iteration, result: r },
            ),
        );
        r
    }

    fn run_refactor_phase(&mut self, task: &Task, spec: &SpecOutput, iteration: u32) -> (r: Result<
        (),
    >)
        ensures
            same_settings(*final(self), *old(self)),
            final(self).requests() == old(self).requests(),
    {
        let r = Ok(());
        self.calls = Ghost(
            self.calls@.push(
                LlmCall::Phase {
                    phase: TddPhase::Refactor,
                    task: *task,
                    spec: *spec,
                    iteration,
                    result: r,
                },
            ),
        );
        r
    }

    /// The model's review when a key is set and its answer can be read, else
    /// the fallback review, which never marks the task as done.
    fn review(&mut self, task: &Task, spec: &SpecOutput, iteration: u32) -> (r: Result<ReviewOutput>)
        ensures
            same_settings(*final(self), *old(self)),
            grew(old(self).requests(), final(self).requests()),
            match non_blank(old(self).key()) {
                None => final(self).requests() == old(self).requests() && (r matches Ok(s) && is_fallback_review(s)),
                Some(_) => exists|t: Result<String>|
                    #[trigger] tried(
                        non_blank(old(self).key()),
                        responses_endpoint(old(self).base()),
                        candidate_models(old(self).model_name()),
                        review_prompt_text(*task, *spec, iteration),
                        appended(old(self).requests(), final(self).requests()),
                        None,
                        t,
                    ) && review_from(old(self).transport(), t, r),
            },
    {
        let ghost mut asked_view: Result<String> = Err(LoopError::MissingApiKey);
        let r = if !self.api_enabled() {
            Ok(fallback_review())
        } else {
            let prompt = review_prompt(task, spec, iteration);
            let asked = self.request_text(prompt.as_str());
            proof {
                asked_view = asked;
            }
            let decoded = match asked {
                Ok(text) => {
                    let clean = strip_fences(text.as_str());
                    self.transport.decode_review(clean.as_str())
                },
                Err(_) => None,
            };
            let r = match decoded {
                Some(s) => Ok(s),
                None => Ok(fallback_review()),
            };
            assert(review_from(self.transport(), asked_view, r));
            r
        };
        self.calls = Ghost(
            self.calls@.push(LlmCall::Review { task: *task, spec: *spec, iteration, result: r }),
        );
        proof {
            let a = old(self).requests();
            assert(a.take(a.len() as int) =~= a);
            if non_blank(old(self).key()) is Some {
                assert(tried(
                    non_blank(old(self).key()),
                    responses_endpoint(old(self).base()),
                    candidate_models(old(self).model_name()),
                    review_prompt_text(*task, *spec, iteration),
                    appended(old(self).requests(), self.requests()),
                    None,
                    asked_view,
                ));
                assert(review_from(old(self).transport(), asked_view, r));
            } else {
                assert(self.requests() == old(self).requests());
                assert(is_fallback_review(r->Ok_0));
            }
        }
        r
    }
}

/// Whether a failed answer says that the model is unknown.
pub fn is_model_not_found(status: u16, body: &str) -> (r: bool)
    ensures
        r == model_not_found(status, body@),
{
    let lower = to_lowercase(body);
    let l = lower.as_str();
    (status == 400 || status == 404) && contains(l, "model") && (contains(l, "not found")
        || contains(l, "does not exist") || contains(l, "unknown"))
}

/// The first output text found in a document.
pub fn extract_output_text(value: &Json) -> (r: Option<String>)
    ensures
        match r {
            Some(t) => output_text(*value) == Some(t@),
            None => output_text(*value) is None,
        },
    decreases value,
{
    match value.get_str("output_text") {
        Some(t) => return Some(t.clone()),
        None => {},
    }
    match value {
        Json::Object(keys, values) => {
            match value.get_str("text") {
                Some(t) => return Some(t.clone()),
                None => {},
            }
            match value.get_str("content") {
                Some(t) => return Some(t.clone()),
                None => {},
            }
            assert(values@.subrange(0, values@.len() as int) =~= values@);
            first_output_text_of(values, 0)
        },
        Json::Array(items) => {
            assert(items@.subrange(0, items@.len() as int) =~= items@);
            first_output_text_of(items, 0)
        },
        _ => None,
    }
}

/// The first output text found in `items[from..]`.
fn first_output_text_of(items: &Vec<Json>, from: usize) -> (r: Option<String>)
    requires
        from <= items@.len(),
    ensures
        match r {
            Some(t) => first_output_text(items@.subrange(from as int, items@.len() as int)) == Some(
                t@,
            ),
            None => first_output_text(items@.subrange(from as int, items@.len() as int)) is None,
        },
    decreases items, items@.len() - from,
{
    let ghost rest = items@.subrange(from as int, items@.len() as int);
    if from == items.len() {
        return None;
    }
    assert(rest[0] == items@[from as int]);
    assert(rest.subrange(1, rest.len() as int) =~= items@.subrange(
        from + 1,
        items@.len() as int,
    ));
    match extract_output_text(&items[from]) {
        Some(t) => Some(t),
        None => first_output_text_of(items, from + 1),
    }
}

/// Reads an answer of the Responses API.
pub fn interpret_response(status: u16, status_text: &str, raw_body: &str) -> (r: Result<String>)
    ensures
        reads_response(status, status_text@, raw_body@, r),
{
    if !(200 <= status && status < 300) {
        if is_model_not_found(status, raw_body) {
            return Err(LoopError::ModelNotFound { body: String::from_str(raw_body) });
        }
        return Err(
            LoopError::ApiStatus {
                status: String::from_str(status_text),
                body: String::from_str(raw_body),
            },
        );
    }
    let value = match parse_json(raw_body) {
        Ok(v) => v,
        Err(_) => return Err(LoopError::ApiBodyUndecodable),
    };
    match extract_output_text(&value) {
        Some(t) => Ok(t),
        None => match value.get("output") {
            Some(o) => match extract_output_text(o) {
                Some(t) => Ok(t),
                None => Err(LoopError::NoOutputText),
            },
            None => Err(LoopError::NoOutputText),
        },
    }
}

/// Whether to try the next model after a failure.
pub fn should_try_next_model(e: &LoopError) -> (r: bool)
    ensures
        r == try_next_model(*e),
{
    let m = e.message();
    let lower = to_lowercase(m.as_str());
    contains(lower.as_str(), "model_not_found")
}

/// The failure once every model was tried: the last one, or that none was tried.
pub fn models_exhausted(last_error: Option<LoopError>) -> (r: LoopError)
    ensures
        match last_error {
            Some(e) => r == e,
            None => r matches LoopError::NoModelCandidates,
        },
{
    match last_error {
        Some(e) => e,
        None => LoopError::NoModelCandidates,
    }
}

/// A model's text with a surrounding code fence removed.
pub fn strip_fences(text: &str) -> (r: String)
    ensures
        r@ == unfenced(text@),
{
    let trimmed = trim_str(text);
    let t = trimmed.as_str();
    if !crate::text::starts_with(t, "```") {
        return trimmed;
    }
    let v = crate::text::chars_of(t);
    proof {
        reveal_strlit("```");
        reveal_strlit("```json");
    }
    let opened = if crate::text::starts_with(t, "```json") {
        let s = crate::text::string_of(&v, 7, v.len());
        trim_str(s.as_str())
    } else {
        let s = crate::text::string_of(&v, 3, v.len());
        trim_str(s.as_str())
    };
    if crate::text::ends_with(opened.as_str(), "```") {
        let w = crate::text::chars_of(opened.as_str());
        let s = crate::text::string_of(&w, 0, w.len() - 3);
        trim_str(s.as_str())
    } else {
        trim_str(opened.as_str())
    }
}

/// What the product-storm engine is asked about a task.
pub fn storm_prompt(task: &Task) -> (r: String)
    ensures
        r@ == storm_prompt_text(*task),
{
    let mut r = String::from_str(
        "You are product-storm engine. Return JSON only with fields: summary:string, spawn_candidates:array. For each spawn candidate fields: title, description, kind(decomposition|backlog|performance|quality|tests), blocking(bool), estimated_minutes(number), can_inline(bool), acceptance(array string), priority(number 0..4), labels(array string). Task id: ",
    );
    r.append(task.id.as_str());
    r.append(". Task title: ");
    r.append(task.title.as_str());
    r.append(". Task description: ");
    r.append(task.description.as_str());
    r
}

/// What the spec-first engine is asked about a task.
pub fn spec_prompt(task: &Task, storm: &ProductStormOutput) -> (r: String)
    ensures
        r@ == spec_prompt_text(*task, *storm),
{
    let mut r = String::from_str(
        "You are spec-first engine. Return JSON only with fields: acceptance_criteria(array string), non_goals(array string), requires_perf_gate(bool). Task title: ",
    );
    r.append(task.title.as_str());
    r.append(". Task description: ");
    r.append(task.description.as_str());
    r.append(". Storm summary: ");
    r.append(storm.summary.as_str());
    r
}

/// What the review engine is asked about a task.
pub fn review_prompt(task: &Task, spec: &SpecOutput, iteration: u32) -> (r: String)
    ensures
        r@ == review_prompt_text(*task, *spec, iteration),
{
    let mut r = String::from_str(
        "You are review engine. Return JSON only with fields: status(done|rework), coverage_score(number 0..1), missing_items(array string), spawn_candidates(array), risk_flags(array string). Task: ",
    );
    r.append(task.title.as_str());
    r.append(". Iteration: ");
    let n = crate::text::decimal_string(iteration as u64);
    r.append(n.as_str());
    r.append(". Acceptance criteria: ");
    let criteria = debug_list(&spec.acceptance_criteria);
    r.append(criteria.as_str());
    r
}

/// A one-item list of strings.
fn single(s: &str) -> (r: Vec<String>)
    ensures
        views(r@) == seq![s@],
{
    let mut r: Vec<String> = Vec::new();
    r.push(String::from_str(s));
    assert(views(r@) =~= seq![s@]);
    r
}

/// What stands in for the product-storm engine.
pub fn fallback_storm(task: &Task) -> (r: ProductStormOutput)
    ensures
        fallback_storm_holds(*task, r),
        r.summary@ == "Fallback storm for "@ + task.title@,
        has_substring(lowercase(task.title@) + " "@ + lowercase(task.description@), "perf"@) ==> {
            &&& r.spawn_candidates@.len() == 1
            &&& r.spawn_candidates@[0].title@ == "[Perf] Baseline for "@ + task.id@
            &&& r.spawn_candidates@[0].kind == SpawnTaskKind::Performance
            &&& r.spawn_candidates@[0].can_inline
            &&& r.spawn_candidates@[0].estimated_minutes == 15
        },
        !has_substring(lowercase(task.title@) + " "@ + lowercase(task.description@), "perf"@)
            ==> r.spawn_candidates@.len() == 0,
{
    let mut candidates: Vec<SpawnTaskCandidate> = Vec::new();
    let mut lower = to_lowercase(task.title.as_str());
    lower.append(" ");
    let d = to_lowercase(task.description.as_str());
    lower.append(d.as_str());
    if contains(lower.as_str(), "perf") || contains(lower.as_str(), "performance") {
        let mut title = String::from_str("[Perf] Baseline for ");
        title.append(task.id.as_str());
        candidates.push(
            SpawnTaskCandidate {
                title,
                description: String::from_str("Capture baseline and validate hot paths"),
                kind: SpawnTaskKind::Performance,
                blocking: false,
                estimated_minutes: 15,
                can_inline: true,
                acceptance: single("Baseline captured"),
                priority: 2,
                labels: single("auto-generated"),
            },
        );
    }
    proof {
        reveal_strlit("perf");
        reveal_strlit("performance");
        if has_substring(storm_haystack(*task), "performance"@) {
            let i = choose|i: int|
                0 <= i && i + "performance"@.len() <= storm_haystack(*task).len()
                    && #[trigger] storm_haystack(*task).subrange(i, i + "performance"@.len())
                    == "performance"@;
            assert(storm_haystack(*task).subrange(i, i + 4) =~= "perf"@);
        }
    }
    let mut summary = String::from_str("Fallback storm for ");
    summary.append(task.title.as_str());
    ProductStormOutput { summary, spawn_candidates: candidates }
}

/// What stands in for the spec-first engine: one criterion, that the task is
/// implemented and validated; a performance gate when the title mentions `perf`.
pub fn fallback_spec(task: &Task) -> (r: SpecOutput)
    ensures
        fallback_spec_holds(*task, r),
{
    let mut criterion = task.title.clone();
    criterion.append(" is implemented and validated");
    let mut acceptance_criteria: Vec<String> = Vec::new();
    acceptance_criteria.push(criterion);
    assert(views(acceptance_criteria@) =~= seq![task.title@ + " is implemented and validated"@]);
    let lower = to_lowercase(task.title.as_str());
    SpecOutput {
        acceptance_criteria,
        non_goals: Vec::new(),
        requires_perf_gate: contains(lower.as_str(), "perf"),
    }
}

/// What stands in for the review engine: it never marks a task as done.
pub fn fallback_review() -> (r: ReviewOutput)
    ensures
        is_fallback_review(r),
{
    ReviewOutput {
        status: ReviewStatus::Rework,
        coverage_score: 0,
        missing_items: single("LLM review unavailable, fallback review cannot mark task as done"),
        spawn_candidates: Vec::new(),
        risk_flags: single("fallback-review"),
    }
}

/// A fallback review never makes a child or a parent done, whatever the gates,
/// the non-blocking gates, the threshold, the children and the time.
pub proof fn lemma_fallback_review_never_done(
    review: ReviewOutput,
    threshold: u32,
    gates: GateReport,
    non_blocking: GateSet,
    has_open_blocking_children: bool,
    parent_iteration: u32,
    max_iterations: u32,
    elapsed: u64,
    timeout: u64,
)
    requires
        is_fallback_review(review),
    ensures
        child_decision(threshold, gates, review, non_blocking) != DoneDecision::Done,
        parent_decision(
            threshold,
            gates,
            non_blocking,
            review,
            has_open_blocking_children,
            parent_iteration,
            max_iterations,
            elapsed,
            timeout,
        ) != DoneDecision::Done,
{
    assert(views(review.missing_items@).len() == 1);
}


/// The fallback storm proposes the performance baseline exactly when the
/// task's lowercased title or description, joined by a space, mentions
/// `perf`, and proposes nothing otherwise.
pub proof fn lemma_fallback_storm_perf(t: Task, r: ProductStormOutput)
    requires
        fallback_storm_holds(t, r),
    ensures
        r.summary@ == "Fallback storm for "@ + t.title@,
        has_substring(lowercase(t.title@) + " "@ + lowercase(t.description@), "perf"@) ==> {
            &&& r.spawn_candidates@.len() == 1
            &&& r.spawn_candidates@[0].title@ == "[Perf] Baseline for "@ + t.id@
            &&& r.spawn_candidates@[0].kind == SpawnTaskKind::Performance
            &&& r.spawn_candidates@[0].can_inline
            &&& r.spawn_candidates@[0].estimated_minutes == 15
        },
        !has_substring(lowercase(t.title@) + " "@ + lowercase(t.description@), "perf"@)
            ==> r.spawn_candidates@.len() == 0,
{
}

} // verus!
