//! The error type shared by the loop and its collaborators.
use vstd::prelude::*;
use vstd::string::*;

verus! {

/// Why a step of the loop failed.
#[derive(Debug, Clone)]
pub enum LoopError {
    /// A collaborator (a shell, a tracker, a memory service, a model endpoint)
    /// reported a failure in its own words.
    External(String),
    /// A command ran and exited unsuccessfully; `args` are joined by spaces and
    /// `stderr` is trimmed.
    CommandFailed { program: String, args: String, stderr: String },
    /// A command printed output that is not JSON.
    InvalidJson { program: String, args: String },
    /// A JSON document could not be decoded; the decoder's own message.
    MalformedJson(String),
    /// `bd show` printed no task for the id.
    TaskNotFound { task_id: String },
    /// A bootstrap goal that is empty once trimmed.
    EmptyBootstrapGoal,
    /// `bd create` printed no issue id.
    MissingIssueId { bootstrap: bool },
    /// No API key is configured for the model endpoint.
    MissingApiKey,
    /// The model endpoint does not know the requested model; its response body.
    ModelNotFound { body: String },
    /// The model endpoint answered with an unsuccessful status.
    ApiStatus { status: String, body: String },
    /// The model endpoint's body is not JSON.
    ApiBodyUndecodable,
    /// The model endpoint's JSON holds no output text.
    NoOutputText,
    /// Every candidate model was unavailable and none was tried.
    NoModelCandidates,
    /// The model's output text does not decode into the expected shape.
    ModelOutputUndecodable { text: String },
}

/// `Result` with the loop's error.
pub type Result<T> = core::result::Result<T, LoopError>;

/// The text that an error renders to.
pub open spec fn error_message(e: LoopError) -> Seq<char> {
    match e {
        LoopError::External(m) => m@,
        LoopError::CommandFailed { program, args, stderr } => program@ + " "@ + args@
            + " failed: "@ + stderr@,
        LoopError::InvalidJson { program, args } => "failed to parse JSON for: "@ + program@
            + " "@ + args@,
        LoopError::MalformedJson(m) => m@,
        LoopError::TaskNotFound { task_id } => "bd show returned no task for "@ + task_id@,
        LoopError::EmptyBootstrapGoal => "bootstrap goal is empty"@,
        LoopError::MissingIssueId { bootstrap } => if bootstrap {
            "bd create did not return issue id for bootstrap task"@
        } else {
            "bd create did not return issue id"@
        },
        LoopError::MissingApiKey => "OPENAI_API_KEY is not set"@,
        LoopError::ModelNotFound { body } => "MODEL_NOT_FOUND: "@ + body@,
        LoopError::ApiStatus { status, body } => "OpenAI responses API returned status "@
            + status@ + ": "@ + body@,
        LoopError::ApiBodyUndecodable => "failed to decode OpenAI responses API body"@,
        LoopError::NoOutputText => "unable to extract output text from responses API"@,
        LoopError::NoModelCandidates => "no model candidates available"@,
        LoopError::ModelOutputUndecodable { text } => "failed to decode JSON from model output: "@
            + text@,
    }
}

impl LoopError {
    /// The text of the error.
    pub fn message(&self) -> (r: String)
        ensures
            r@ == error_message(*self),
    {
        match self {
            LoopError::External(m) => m.clone(),
            LoopError::CommandFailed { program, args, stderr } => {
                let mut r = program.clone();
                r.append(" ");
                r.append(args.as_str());
                r.append(" failed: ");
                r.append(stderr.as_str());
                r
            },
            LoopError::InvalidJson { program, args } => {
                let mut r = String::from_str("failed to parse JSON for: ");
                r.append(program.as_str());
                r.append(" ");
                r.append(args.as_str());
                r
            },
            LoopError::MalformedJson(m) => m.clone(),
            LoopError::TaskNotFound { task_id } => {
                let mut r = String::from_str("bd show returned no task for ");
                r.append(task_id.as_str());
                r
            },
            LoopError::EmptyBootstrapGoal => String::from_str("bootstrap goal is empty"),
            LoopError::MissingIssueId { bootstrap } => if *bootstrap {
                String::from_str("bd create did not return issue id for bootstrap task")
            } else {
                String::from_str("bd create did not return issue id")
            },
            LoopError::MissingApiKey => String::from_str("OPENAI_API_KEY is not set"),
            LoopError::ModelNotFound { body } => {
                let mut r = String::from_str("MODEL_NOT_FOUND: ");
                r.append(body.as_str());
                r
            },
            LoopError::ApiStatus { status, body } => {
                let mut r = String::from_str("OpenAI responses API returned status ");
                r.append(status.as_str());
                r.append(": ");
                r.append(body.as_str());
                r
            },
            LoopError::ApiBodyUndecodable => String::from_str(
                "failed to decode OpenAI responses API body",
            ),
            LoopError::NoOutputText => String::from_str(
                "unable to extract output text from responses API",
            ),
            LoopError::NoModelCandidates => String::from_str("no model candidates available"),
            LoopError::ModelOutputUndecodable { text } => {
                let mut r = String::from_str("failed to decode JSON from model output: ");
                r.append(text.as_str());
                r
            },
        }
    }
}

} // verus!
