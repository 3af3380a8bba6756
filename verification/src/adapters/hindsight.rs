//! The long-term memory service driven through its command line, `hindsight`.
use vstd::prelude::*;
use vstd::string::*;

use crate::adapters::shell::{
    arg_views, check_output, checked_from, decode_json_output, json_output, printed, unit_of,
    CommandOutput, ShellCommandRunner, ShellRun,
};
use crate::error::{LoopError, Result};
use crate::json::Json;
use crate::loop_runner::{appended, grew, HindsightCall, HindsightClient};

verus! {

/// The memory service, reached through a shell.
pub struct HindsightCli<S: ShellCommandRunner> {
    shell: Box<S>,
    calls: Ghost<Seq<HindsightCall>>,
    runs: Ghost<Seq<ShellRun>>,
}

/// The bank list names `bank`: it is an array with a record whose `bank_id` is `bank`.
pub open spec fn lists_bank(banks: Json, bank: Seq<char>) -> bool {
    match banks {
        Json::Array(items) => exists|i: int|
            0 <= i < items@.len() && #[trigger] items@[i].field_text("bank_id"@) == Some(bank),
        _ => false,
    }
}

/// Whether a bank list names a bank.
pub fn bank_listed(banks: &Json, bank: &str) -> (r: bool)
    ensures
        r == lists_bank(*banks, bank@),
{
    match banks.as_array() {
        Some(items) => {
            let b = String::from_str(bank);
            let mut i: usize = 0;
            while i < items.len()
                invariant
                    i <= items@.len(),
                    b@ == bank@,
                    *banks == Json::Array(*items),
                    forall|j: int| 0 <= j < i ==> #[trigger] items@[j].field_text("bank_id"@)
                        != Some(bank@),
                decreases items.len() - i,
            {
                match items[i].get_str("bank_id") {
                    Some(id) => {
                        if *id == b {
                            return true;
                        }
                    },
                    None => {},
                }
                i = i + 1;
            }
            false
        },
        None => false,
    }
}

/// The arguments that retain a summary; `--async` asks for a background write.
pub open spec fn retain_args(
    bank: Seq<char>,
    doc_id: Seq<char>,
    context: Seq<char>,
    content: Seq<char>,
    async_mode: bool,
) -> Seq<Seq<char>> {
    let base = seq![
        "memory"@,
        "retain"@,
        bank,
        content,
        "--context"@,
        context,
        "--doc-id"@,
        doc_id,
    ];
    if async_mode {
        base.push("--async"@)
    } else {
        base
    }
}

/// The arguments of `hindsight memory retain`.
pub fn make_retain_args<'a>(
    bank: &'a str,
    doc_id: &'a str,
    context: &'a str,
    content: &'a str,
    async_mode: bool,
) -> (r: Vec<&'a str>)
    ensures
        r@.map_values(|a: &str| a@) == retain_args(bank@, doc_id@, context@, content@, async_mode),
{
    let mut args: Vec<&str> = Vec::new();
    args.push("memory");
    args.push("retain");
    args.push(bank);
    args.push(content);
    args.push("--context");
    args.push(context);
    args.push("--doc-id");
    args.push(doc_id);
    if async_mode {
        args.push("--async");
    }
    assert(args@.map_values(|a: &str| a@) =~= retain_args(
        bank@,
        doc_id@,
        context@,
        content@,
        async_mode,
    ));
    args
}

pub open spec fn bank_list_args() -> Seq<Seq<char>> {
    seq!["bank"@, "list"@, "--output"@, "json"@]
}

pub open spec fn bank_init_args(bank: Seq<char>) -> Seq<Seq<char>> {
    seq![
        "memory"@,
        "retain"@,
        bank,
        "Project bank initialized for agent-loop"@,
        "--context"@,
        "bootstrap"@,
        "--doc-id"@,
        "bootstrap"@,
    ]
}

pub open spec fn recall_args(bank: Seq<char>, query: Seq<char>) -> Seq<Seq<char>> {
    seq![
        "memory"@,
        "recall"@,
        bank,
        query,
        "--budget"@,
        "low"@,
        "--max-tokens"@,
        "512"@,
        "--output"@,
        "json"@,
    ]
}

pub open spec fn preferences_bank() -> Seq<char> {
    "user-preferences"@
}

pub open spec fn preferences_query() -> Seq<char> {
    "language preferences and response style"@
}

/// `r` is `Ok(())` when the run `out` finished, whatever its exit, else the
/// run's failure.
pub open spec fn ran(out: Result<CommandOutput>, r: Result<()>) -> bool {
    match out {
        Err(e) => r == Err::<(), LoopError>(e),
        Ok(_) => r == Ok::<(), LoopError>(()),
    }
}

/// `r` is what decoding the checked output `s` as JSON yields; undecodable
/// output is malformed, with the decoder's message.
pub open spec fn decoded_from(s: Result<String>, r: Result<Json>) -> bool {
    match s {
        Err(e) => r == Err::<Json, LoopError>(e),
        Ok(text) => match json_output(text@) {
            Ok(v) => r == Ok::<Json, LoopError>(v),
            Err(m) => (r matches Err(LoopError::MalformedJson(e)) && e@ == m),
        },
    }
}

/// `r` is what running `hindsight` with `args` through `runner` and checking
/// its exit yields.
pub open spec fn hs_checked<S: ShellCommandRunner>(runner: S, args: Seq<Seq<char>>, r: Result<String>) -> bool {
    exists|out: Result<CommandOutput>|
        #[trigger] runner.may_give("hindsight"@, args, out) && checked_from("hindsight"@, args, out, r)
}

/// `r` is what running `hindsight` with `args` through `runner` and decoding
/// its output as JSON yields.
pub open spec fn hs_json<S: ShellCommandRunner>(runner: S, args: Seq<Seq<char>>, r: Result<Json>) -> bool {
    exists|s: Result<String>| #[trigger] hs_checked(runner, args, s) && decoded_from(s, r)
}

/// `r` is what running `hindsight` with `args` through `runner`, whatever its
/// exit, yields.
pub open spec fn hs_ran_with<S: ShellCommandRunner>(runner: S, args: Seq<Seq<char>>, r: Result<()>) -> bool {
    exists|out: Result<CommandOutput>| #[trigger] runner.may_give("hindsight"@, args, out) && ran(out, r)
}

/// `r` is what checking the bank list, and seeding `bank` where it is
/// missing, yields.
pub open spec fn hs_bank_seeded<S: ShellCommandRunner>(
    runner: S,
    bank: Seq<char>,
    banks: Result<Json>,
    r: Result<()>,
) -> bool {
    match banks {
        Err(e) => r == Err::<(), LoopError>(e),
        Ok(v) => if lists_bank(v, bank) {
            r == Ok::<(), LoopError>(())
        } else {
            exists|s: Result<String>| #[trigger] hs_checked(runner, bank_init_args(bank), s) && unit_of(s, r)
        },
    }
}

/// `a` is `b` but for the commands it has run.
pub open spec fn same_memory<S: ShellCommandRunner>(a: HindsightCli<S>, b: HindsightCli<S>) -> bool {
    a.runner() == b.runner() && a.log() == b.log()
}

/// The run is of `hindsight` with `args`.
pub open spec fn ran_hs(run: ShellRun, args: Seq<Seq<char>>) -> bool {
    run.program == "hindsight"@ && run.args == args
}

/// The bank list that a run printed, when it succeeded and printed JSON.
pub open spec fn listed_banks(run: ShellRun) -> Option<Json> {
    match printed(run) {
        Some(out) => match json_output(out) {
            Ok(v) => Some(v),
            Err(_) => None,
        },
        None => None,
    }
}

/// Making the bank ready lists the banks, then seeds `bank` only when the
/// list was read and does not name it; nothing else.
pub open spec fn bank_runs(bank: Seq<char>, runs: Seq<ShellRun>) -> bool {
    &&& runs.len() >= 1
    &&& ran_hs(runs[0], bank_list_args())
    &&& if (listed_banks(runs[0]) matches Some(v) && !lists_bank(v, bank)) {
        runs.len() == 2 && ran_hs(runs[1], bank_init_args(bank))
    } else {
        runs.len() == 1
    }
}

impl<S: ShellCommandRunner> HindsightCli<S> {
    pub closed spec fn runner(&self) -> S {
        *self.shell
    }

    pub fn new(shell: Box<S>) -> (r: Self)
        ensures
            r.runner() == *shell,
            r.log() == Seq::<HindsightCall>::empty(),
            r.commands() == Seq::<ShellRun>::empty(),
    {
        HindsightCli { shell, calls: Ghost(Seq::empty()), runs: Ghost(Seq::empty()) }
    }

    /// `r` is what running `hindsight` with `args` and checking its exit yields.
    pub open spec fn checked(&self, args: Seq<Seq<char>>, r: Result<String>) -> bool {
        hs_checked(self.runner(), args, r)
    }

    /// `r` is what running `hindsight` with `args` and decoding its output as JSON yields.
    pub open spec fn json(&self, args: Seq<Seq<char>>, r: Result<Json>) -> bool {
        hs_json(self.runner(), args, r)
    }

    /// The commands this client has run, in order, with what each yielded.
    pub closed spec fn commands(&self) -> Seq<ShellRun> {
        self.runs@
    }

    /// Runs `hindsight` through the shell and records the run.
    fn run_hs(&mut self, args: &[&str]) -> (r: Result<CommandOutput>)
        ensures
            old(self).runner().may_give("hindsight"@, arg_views(args@), r),
            final(self).commands() == old(self).commands().push(
                (ShellRun { program: "hindsight"@, args: arg_views(args@), result: r }),
            ),
            same_memory(*final(self), *old(self)),
    {
        let r = self.shell.run("hindsight", args);
        self.runs = Ghost(
            self.runs@.push(ShellRun { program: "hindsight"@, args: arg_views(args@), result: r }),
        );
        r
    }

    /// Runs `hindsight` and yields what it printed, or the failure.
    fn run_checked(&mut self, args: &[&str]) -> (r: Result<String>)
        ensures
            old(self).checked(arg_views(args@), r),
            same_memory(*final(self), *old(self)),
            final(self).commands() == old(self).commands().push(final(self).commands().last()),
            ran_hs(final(self).commands().last(), arg_views(args@)),
            checked_from("hindsight"@, arg_views(args@), final(self).commands().last().result, r),
    {
        let out = self.run_hs(args);
        let ghost given = out;
        let r = match out {
            Ok(o) => check_output("hindsight", args, o),
            Err(e) => Err(e),
        };
        proof {
            assert(self.runner().may_give("hindsight"@, arg_views(args@), given));
        }
        r
    }

    /// Runs `hindsight` and decodes what it printed as JSON.
    fn run_json(&mut self, args: &[&str]) -> (r: Result<Json>)
        ensures
            old(self).json(arg_views(args@), r),
            same_memory(*final(self), *old(self)),
            final(self).commands() == old(self).commands().push(final(self).commands().last()),
            ran_hs(final(self).commands().last(), arg_views(args@)),
            match r {
                Ok(v) => listed_banks(final(self).commands().last()) == Some(v),
                Err(_) => listed_banks(final(self).commands().last()) is None,
            },
    {
        let s = self.run_checked(args);
        let ghost given = s;
        let r = match s {
            Err(e) => Err(e),
            Ok(stdout) => match decode_json_output(stdout.as_str()) {
                Ok(v) => Ok(v),
                Err(e) => Err(LoopError::MalformedJson(e)),
            },
        };
        proof {
            assert(self.checked(arg_views(args@), given));
        }
        r
    }

}

impl<S: ShellCommandRunner> HindsightClient for HindsightCli<S> {
    /// The bank list can be read.
    open spec fn available_gives(&self, r: Result<()>) -> bool {
        exists|s: Result<String>| #[trigger] hs_checked(self.runner(), bank_list_args(), s) && unit_of(s, r)
    }

    /// The bank list is read, and a bank it does not name is seeded.
    open spec fn bank_gives(&self, bank: Seq<char>, r: Result<()>) -> bool {
        exists|j: Result<Json>| #[trigger] hs_json(self.runner(), bank_list_args(), j) && hs_bank_seeded(self.runner(), bank, j, r)
    }

    /// The preferences are recalled; what the recall printed is not read.
    open spec fn preferences_give(&self, r: Result<()>) -> bool {
        hs_ran_with(self.runner(), recall_args(preferences_bank(), preferences_query()), r)
    }

    /// The task's context is recalled; what the recall printed is not read.
    open spec fn context_gives(&self, bank: Seq<char>, query: Seq<char>, r: Result<()>) -> bool {
        hs_ran_with(self.runner(), recall_args(bank, query), r)
    }

    /// `hindsight memory retain` with the summary.
    open spec fn retain_gives(
        &self,
        bank: Seq<char>,
        doc_id: Seq<char>,
        context: Seq<char>,
        content: Seq<char>,
        async_mode: bool,
        r: Result<()>,
    ) -> bool {
        exists|s: Result<String>|
            #[trigger] hs_checked(self.runner(), retain_args(bank, doc_id, context, content, async_mode), s)
                && unit_of(s, r)
    }

    closed spec fn log(&self) -> Seq<HindsightCall> {
        self.calls@
    }

    fn ensure_available(&mut self) -> (r: Result<()>) {
        let r = self.check_available();
        self.calls = Ghost(self.calls@.push(HindsightCall::Available { result: r }));
        r
    }

    fn ensure_project_bank(&mut self, bank: &str) -> (r: Result<()>)
        ensures
            grew(old(self).commands(), final(self).commands()),
            bank_runs(bank@, appended(old(self).commands(), final(self).commands())),
    {
        let r = self.ready_bank(bank);
        self.calls = Ghost(self.calls@.push(HindsightCall::Bank { bank: bank@, result: r }));
        r
    }

    fn recall_preferences(&mut self) -> (r: Result<()>) {
        let r = self.recall_prefs();
        self.calls = Ghost(self.calls@.push(HindsightCall::Preferences { result: r }));
        r
    }

    fn recall_task_context(&mut self, bank: &str, query: &str) -> (r: Result<()>) {
        let r = self.recall_context(bank, query);
        self.calls = Ghost(
            self.calls@.push(HindsightCall::Context { bank: bank@, query: query@, result: r }),
        );
        r
    }

    fn retain_summary(
        &mut self,
        bank: &str,
        doc_id: &str,
        context: &str,
        content: &str,
        async_mode: bool,
    ) -> (r: Result<()>)
        ensures
            final(self).commands() == old(self).commands().push(final(self).commands().last()),
            ran_hs(
                final(self).commands().last(),
                retain_args(bank@, doc_id@, context@, content@, async_mode),
            ),
    {
        let r = self.retain(bank, doc_id, context, content, async_mode);
        self.calls = Ghost(
            self.calls@.push(
                HindsightCall::Retain {
                    bank: bank@,
                    doc_id: doc_id@,
                    context: context@,
                    content: content@,
                    async_mode,
                    result: r,
                },
            ),
        );
        r
    }
}

impl<S: ShellCommandRunner> HindsightCli<S> {

    fn check_available(&mut self) -> (r: Result<()>)
        ensures
            old(self).available_gives(r),
            same_memory(*final(self), *old(self)),
    {
        let args = ["bank", "list", "--output", "json"];
        let s = self.run_checked(&args);
        proof {
            assert(arg_views(args@) =~= bank_list_args());
            assert(self.checked(bank_list_args(), s));
        }
        match s {
            Ok(_) => Ok(()),
            Err(e) => Err(e),
        }
    }

    fn ready_bank(&mut self, bank: &str) -> (r: Result<()>)
        ensures
            old(self).bank_gives(bank@, r),
            same_memory(*final(self), *old(self)),
            grew(old(self).commands(), final(self).commands()),
            bank_runs(bank@, appended(old(self).commands(), final(self).commands())),
    {
        let args = ["bank", "list", "--output", "json"];
        let ghost c0 = self.commands();
        let j = self.run_json(&args);
        let ghost given = j;
        let ghost c1 = self.commands();
        proof {
            assert(arg_views(args@) =~= bank_list_args());
            assert(self.json(bank_list_args(), given));
            assert(c1.take(c0.len() as int) =~= c0);
            assert(appended(c0, c1) =~= seq![c1.last()]);
        }
        let banks = match j {
            Ok(banks) => banks,
            Err(e) => return Err(e),
        };
        if !bank_listed(&banks, bank) {
            let retain = [
                "memory",
                "retain",
                bank,
                "Project bank initialized for agent-loop",
                "--context",
                "bootstrap",
                "--doc-id",
                "bootstrap",
            ];
            let s = self.run_checked(&retain);
            proof {
                assert(arg_views(retain@) =~= bank_init_args(bank@));
                assert(self.checked(bank_init_args(bank@), s));
                assert(self.commands().take(c0.len() as int) =~= c0);
                assert(appended(c0, self.commands()) =~= seq![c1.last(), self.commands().last()]);
            }
            match s {
                Ok(_) => {},
                Err(e) => return Err(e),
            }
        }
        Ok(())
    }

    fn recall_prefs(&mut self) -> (r: Result<()>)
        ensures
            old(self).preferences_give(r),
            same_memory(*final(self), *old(self)),
    {
        let args = [
            "memory",
            "recall",
            "user-preferences",
            "language preferences and response style",
            "--budget",
            "low",
            "--max-tokens",
            "512",
            "--output",
            "json",
        ];
        let out = self.run_hs(&args);
        proof {
            assert(arg_views(args@) =~= recall_args(preferences_bank(), preferences_query()));
            assert(self.runner().may_give("hindsight"@, arg_views(args@), out));
        }
        match out {
            Ok(_) => Ok(()),
            Err(e) => Err(e),
        }
    }

    fn recall_context(&mut self, bank: &str, query: &str) -> (r: Result<()>)
        ensures
            old(self).context_gives(bank@, query@, r),
            same_memory(*final(self), *old(self)),
    {
        let args = [
            "memory",
            "recall",
            bank,
            query,
            "--budget",
            "low",
            "--max-tokens",
            "512",
            "--output",
            "json",
        ];
        let out = self.run_hs(&args);
        proof {
            assert(arg_views(args@) =~= recall_args(bank@, query@));
            assert(self.runner().may_give("hindsight"@, arg_views(args@), out));
        }
        match out {
            Ok(_) => Ok(()),
            Err(e) => Err(e),
        }
    }

    fn retain(
        &mut self,
        bank: &str,
        doc_id: &str,
        context: &str,
        content: &str,
        async_mode: bool,
    ) -> (r: Result<()>)
        ensures
            old(self).retain_gives(bank@, doc_id@, context@, content@, async_mode, r),
            same_memory(*final(self), *old(self)),
            final(self).commands() == old(self).commands().push(final(self).commands().last()),
            ran_hs(
                final(self).commands().last(),
                retain_args(bank@, doc_id@, context@, content@, async_mode),
            ),
    {
        let args = make_retain_args(bank, doc_id, context, content, async_mode);
        let s = self.run_checked(args.as_slice());
        proof {
            assert(arg_views(args@) =~= retain_args(bank@, doc_id@, context@, content@, async_mode));
            assert(self.checked(retain_args(bank@, doc_id@, context@, content@, async_mode), s));
        }
        match s {
            Ok(_) => Ok(()),
            Err(e) => Err(e),
        }
    }
}

} // verus!
