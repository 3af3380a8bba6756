//! Running external commands, and reading what they print.
use vstd::prelude::*;
use vstd::string::*;

use crate::error::{LoopError, Result};
use crate::json::{json_decode, parse_json, Json};
use crate::text::{join, join_strs, trim, trim_str};

verus! {

/// What a finished command left behind.
#[derive(Debug, Clone)]
pub struct CommandOutput {
    pub exit_code: i32,
    pub stdout: String,
    pub stderr: String,
}

impl CommandOutput {
    /// A command succeeded when it exited with code 0.
    pub fn success(&self) -> (r: bool)
        ensures
            r == (self.exit_code == 0),
    {
        self.exit_code == 0
    }
}

/// The views of command arguments.
pub open spec fn arg_views(args: Seq<&str>) -> Seq<Seq<char>> {
    args.map_values(|a: &str| a@)
}

/// Runs a program with arguments, optionally feeding it standard input.
///
/// Each implementation may give its own account, `may_give`, of what running a
/// program can yield; a run yields one of those outcomes. By default the account
/// admits every outcome, and the library relies on nothing else of a run.
pub trait ShellCommandRunner {
    /// `r` is an outcome that running `program` with `args` can yield.
    open spec fn may_give(&self, program: Seq<char>, args: Seq<Seq<char>>, r: Result<CommandOutput>) -> bool {
        true
    }

    /// `r` is an outcome that running `program` with `args` and `stdin` can yield.
    open spec fn may_give_with_input(
        &self,
        program: Seq<char>,
        args: Seq<Seq<char>>,
        stdin: Seq<char>,
        r: Result<CommandOutput>,
    ) -> bool {
        true
    }

    fn run(&self, program: &str, args: &[&str]) -> (r: Result<CommandOutput>)
        ensures
            self.may_give(program@, arg_views(args@), r),
    ;

    fn run_with_input(&self, program: &str, args: &[&str], stdin: &str) -> (r: Result<
        CommandOutput,
    >)
        ensures
            self.may_give_with_input(program@, arg_views(args@), stdin@, r),
    ;
}

/// A program run with arguments, and what the run yielded.
pub struct ShellRun {
    pub program: Seq<char>,
    pub args: Seq<Seq<char>>,
    pub result: Result<CommandOutput>,
}

/// What a run printed, when it exited with code 0.
pub open spec fn printed(run: ShellRun) -> Option<Seq<char>> {
    match run.result {
        Ok(o) => if o.exit_code == 0 {
            Some(o.stdout@)
        } else {
            None
        },
        Err(_) => None,
    }
}

/// The arguments as a command line shows them: joined by single spaces.
pub open spec fn arg_line(args: Seq<Seq<char>>) -> Seq<char> {
    join(args, " "@)
}

/// `r` is the checked result of `out`.
pub open spec fn is_checked_output(
    program: Seq<char>,
    args: Seq<Seq<char>>,
    out: CommandOutput,
    r: Result<String>,
) -> bool {
    match r {
        Ok(s) => out.exit_code == 0 && s@ == out.stdout@,
        Err(LoopError::CommandFailed { program: p, args: a, stderr: e }) => {
            &&& out.exit_code != 0
            &&& p@ == program
            &&& a@ == arg_line(args)
            &&& e@ == trim(out.stderr@)
        },
        Err(_) => false,
    }
}

/// The standard output of a command that succeeded, else the failure.
pub fn check_output(program: &str, args: &[&str], out: CommandOutput) -> (r: Result<String>)
    ensures
        is_checked_output(program@, arg_views(args@), out, r),
{
    if out.success() {
        Ok(out.stdout)
    } else {
        Err(
            LoopError::CommandFailed {
                program: String::from_str(program),
                args: join_strs(args, " "),
                stderr: trim_str(out.stderr.as_str()),
            },
        )
    }
}

/// `r` is what a checked run yields from the outcome `out`: the run's own
/// failure, or the checked output of the command.
pub open spec fn checked_from(
    program: Seq<char>,
    args: Seq<Seq<char>>,
    out: Result<CommandOutput>,
    r: Result<String>,
) -> bool {
    match out {
        Err(e) => r == Err::<String, LoopError>(e),
        Ok(o) => is_checked_output(program, args, o, r),
    }
}

/// `r` is `Ok(())` when `s` is a success, else `s`'s failure.
pub open spec fn unit_of(s: Result<String>, r: Result<()>) -> bool {
    match s {
        Ok(_) => r == Ok::<(), LoopError>(()),
        Err(e) => r == Err::<(), LoopError>(e),
    }
}

/// The document that a command printed: null when it printed nothing but
/// whitespace, else the decoding of its trimmed output.
pub open spec fn json_output(stdout: Seq<char>) -> core::result::Result<Json, Seq<char>> {
    if trim(stdout).len() == 0 {
        Ok(Json::Null)
    } else {
        json_decode(trim(stdout))
    }
}

/// Decodes what a command printed as JSON.
pub fn decode_json_output(stdout: &str) -> (r: core::result::Result<Json, String>)
    ensures
        match r {
            Ok(j) => json_output(stdout@) == Ok::<Json, Seq<char>>(j),
            Err(e) => json_output(stdout@) == Err::<Json, Seq<char>>(e@),
        },
{
    let trimmed = trim_str(stdout);
    if trimmed.as_str().is_empty() {
        return Ok(Json::Null);
    }
    parse_json(trimmed.as_str())
}

} // verus!
