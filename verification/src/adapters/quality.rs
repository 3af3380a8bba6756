//! The project's quality gates, run as cargo commands.
use vstd::prelude::*;
use vstd::string::*;

use crate::adapters::shell::{arg_views, CommandOutput, ShellCommandRunner};
use crate::contracts::{GateName, GateReport, SpecOutput, Task};
use crate::error::{LoopError, Result};
use crate::loop_runner::QualityGateRunner;
use crate::text::{join, join_strs};

verus! {

/// Runs cargo through a shell.
pub struct CargoQualityGates<S: ShellCommandRunner> {
    shell: Box<S>,
}

/// The cargo arguments of a gate.
pub open spec fn gate_args(g: GateName) -> Seq<Seq<char>> {
    match g {
        GateName::Fmt => seq!["fmt"@, "--"@, "--check"@],
        GateName::Clippy => seq!["clippy"@, "--"@, "-D"@, "warnings"@],
        GateName::Tests => seq!["test"@],
        GateName::Perf => seq!["test"@, "--release"@],
    }
}

/// The command line of a gate.
pub open spec fn gate_command_line(g: GateName) -> Seq<char> {
    "cargo "@ + join(gate_args(g), " "@)
}

/// The cargo arguments of a gate.
pub fn gate_arguments(g: GateName) -> (r: Vec<&'static str>)
    ensures
        r@.map_values(|a: &str| a@) == gate_args(g),
{
    let mut r: Vec<&'static str> = Vec::new();
    match g {
        GateName::Fmt => {
            r.push("fmt");
            r.push("--");
            r.push("--check");
        },
        GateName::Clippy => {
            r.push("clippy");
            r.push("--");
            r.push("-D");
            r.push("warnings");
        },
        GateName::Tests => {
            r.push("test");
        },
        GateName::Perf => {
            r.push("test");
            r.push("--release");
        },
    }
    assert(r@.map_values(|a: &str| a@) =~= gate_args(g));
    r
}

/// The command line of a gate, as an agent runs it.
pub fn gate_command(g: GateName) -> (r: String)
    ensures
        r@ == gate_command_line(g),
{
    let args = gate_arguments(g);
    let mut r = String::from_str("cargo ");
    let line = join_strs(args.as_slice(), " ");
    r.append(line.as_str());
    r
}

impl<S: ShellCommandRunner> CargoQualityGates<S> {
    pub closed spec fn runner(&self) -> S {
        *self.shell
    }

    pub fn new(shell: Box<S>) -> (r: Self)
        ensures
            r.runner() == *shell,
    {
        CargoQualityGates { shell }
    }

    /// `r` is what running a gate's cargo command yields: whether it exited
    /// with code 0, or the run's failure.
    pub open spec fn gate_result(&self, g: GateName, r: Result<bool>) -> bool {
        exists|out: Result<CommandOutput>|
            #[trigger] self.runner().may_give("cargo"@, gate_args(g), out) && match out {
                Err(e) => r == Err::<bool, LoopError>(e),
                Ok(o) => r == Ok::<bool, LoopError>(o.exit_code == 0),
            }
    }

    /// `r` is the report once fmt, clippy and the tests gave their results:
    /// with the release tests only where the spec asks for a performance gate,
    /// which otherwise passes.
    pub open spec fn report_after_tests(
        &self,
        fmt_ok: bool,
        clippy_ok: bool,
        tests_ok: bool,
        spec: SpecOutput,
        r: Result<GateReport>,
    ) -> bool {
        if spec.requires_perf_gate {
            exists|p: Result<bool>|
                #[trigger] self.gate_result(GateName::Perf, p) && match p {
                    Err(e) => r == Err::<GateReport, LoopError>(e),
                    Ok(perf_ok) => r == Ok::<GateReport, LoopError>(
                        (GateReport { fmt_ok, clippy_ok, tests_ok, perf_ok }),
                    ),
                }
        } else {
            r == Ok::<GateReport, LoopError>((GateReport { fmt_ok, clippy_ok, tests_ok, perf_ok: true }))
        }
    }

    /// `r` is the report once fmt and clippy gave their results.
    pub open spec fn report_after_clippy(
        &self,
        fmt_ok: bool,
        clippy_ok: bool,
        spec: SpecOutput,
        r: Result<GateReport>,
    ) -> bool {
        exists|t: Result<bool>|
            #[trigger] self.gate_result(GateName::Tests, t) && match t {
                Err(e) => r == Err::<GateReport, LoopError>(e),
                Ok(tests_ok) => self.report_after_tests(fmt_ok, clippy_ok, tests_ok, spec, r),
            }
    }

    /// `r` is the report once fmt gave its result.
    pub open spec fn report_after_fmt(&self, fmt_ok: bool, spec: SpecOutput, r: Result<GateReport>) -> bool {
        exists|c: Result<bool>|
            #[trigger] self.gate_result(GateName::Clippy, c) && match c {
                Err(e) => r == Err::<GateReport, LoopError>(e),
                Ok(clippy_ok) => self.report_after_clippy(fmt_ok, clippy_ok, spec, r),
            }
    }

    /// Whether a gate's cargo command succeeds.
    fn is_ok(&self, g: GateName) -> (r: Result<bool>)
        ensures
            self.gate_result(g, r),
    {
        let args = gate_arguments(g);
        let out = self.shell.run("cargo", args.as_slice());
        proof {
            assert(arg_views(args@) =~= gate_args(g));
            assert(self.runner().may_give("cargo"@, gate_args(g), out));
        }
        match out {
            Ok(o) => Ok(o.success()),
            Err(e) => Err(e),
        }
    }
}

impl<S: ShellCommandRunner> QualityGateRunner for CargoQualityGates<S> {
    /// fmt, clippy and the tests in turn, stopping at the first run that
    /// fails; then the release tests where the spec asks for them.
    open spec fn gates_give(&self, task: Task, spec: SpecOutput, r: Result<GateReport>) -> bool {
        exists|f: Result<bool>|
            #[trigger] self.gate_result(GateName::Fmt, f) && match f {
                Err(e) => r == Err::<GateReport, LoopError>(e),
                Ok(fmt_ok) => self.report_after_fmt(fmt_ok, spec, r),
            }
    }

    /// Runs fmt, clippy and the tests; the release tests only where the spec
    /// asks for a performance gate, which otherwise passes.
    fn run_core_gates(&self, _task: &Task, spec: &SpecOutput) -> (r: Result<GateReport>)
        ensures
            r matches Ok(report) ==> (!spec.requires_perf_gate ==> report.perf_ok),
    {
        let f = self.is_ok(GateName::Fmt);
        let ghost gf = f;
        let fmt_ok = match f {
            Ok(b) => b,
            Err(e) => return Err(e),
        };
        let c = self.is_ok(GateName::Clippy);
        let ghost gc = c;
        let clippy_ok = match c {
            Ok(b) => b,
            Err(e) => {
                assert(self.gate_result(GateName::Fmt, gf));
                return Err(e);
            },
        };
        let t = self.is_ok(GateName::Tests);
        let ghost gt = t;
        let tests_ok = match t {
            Ok(b) => b,
            Err(e) => {
                assert(self.gate_result(GateName::Clippy, gc));
                assert(self.report_after_fmt(fmt_ok, *spec, Err(e)));
                assert(self.gate_result(GateName::Fmt, gf));
                return Err(e);
            },
        };
        let perf_ok = if spec.requires_perf_gate {
            let p = self.is_ok(GateName::Perf);
            let ghost gp = p;
            match p {
                Ok(b) => b,
                Err(e) => {
                    assert(self.gate_result(GateName::Tests, gt));
                    assert(self.report_after_clippy(fmt_ok, clippy_ok, *spec, Err(e)));
                    assert(self.gate_result(GateName::Clippy, gc));
                    assert(self.report_after_fmt(fmt_ok, *spec, Err(e)));
                    assert(self.gate_result(GateName::Fmt, gf));
                    return Err(e);
                },
            }
        } else {
            true
        };
        let report = GateReport { fmt_ok, clippy_ok, tests_ok, perf_ok };
        proof {
            if spec.requires_perf_gate {
                assert(self.gate_result(GateName::Perf, Ok(perf_ok)));
            }
            assert(self.report_after_tests(fmt_ok, clippy_ok, tests_ok, *spec, Ok(report)));
            assert(self.gate_result(GateName::Tests, gt));
            assert(self.report_after_clippy(fmt_ok, clippy_ok, *spec, Ok(report)));
            assert(self.gate_result(GateName::Clippy, gc));
            assert(self.report_after_fmt(fmt_ok, *spec, Ok(report)));
            assert(self.gate_result(GateName::Fmt, gf));
        }
        Ok(report)
    }
}

} // verus!
