use std::cell::RefCell;
use std::collections::HashMap;
use std::rc::Rc;

use agent_loop::adapters::beads::{
    candidate_labels, map_status, parse_task, parse_tasks, sort_dedup_by_id, BeadsCli,
};
use agent_loop::adapters::hindsight::{bank_listed, make_retain_args, HindsightCli};
use agent_loop::adapters::memory_bank::{FileMemoryBank, MemoryBank, NoteFiles, GUIDE_NOTE, INDEX_NOTE};
use agent_loop::adapters::quality::{gate_command, CargoQualityGates};
use agent_loop::adapters::shell::{check_output, CommandOutput, ShellCommandRunner};
use agent_loop::contracts::{GateName, SpawnTaskCandidate, SpawnTaskKind, SpecOutput, Task, TaskStatus};
use agent_loop::error::{LoopError, Result};
use agent_loop::json::parse_json;
use agent_loop::loop_runner::{BeadsClient, HindsightClient, MemoryBankClient, QualityGateRunner};

/// A shell that answers by the first argument and records every call.
#[derive(Default)]
struct ScriptedShell {
    answers: HashMap<String, CommandOutput>,
    calls: Rc<RefCell<Vec<Vec<String>>>>,
}

impl ScriptedShell {
    fn answer(mut self, first_arg: &str, exit_code: i32, stdout: &str) -> Self {
        self.answers.insert(
            first_arg.to_string(),
            CommandOutput { exit_code, stdout: stdout.to_string(), stderr: " oops \n".to_string() },
        );
        self
    }
}

impl ShellCommandRunner for ScriptedShell {
    fn run(&self, program: &str, args: &[&str]) -> Result<CommandOutput> {
        let _ = program;
        self.calls.borrow_mut().push(args.iter().map(|a| a.to_string()).collect());
        match self.answers.get(args[0]) {
            Some(out) => Ok(out.clone()),
            None => Ok(CommandOutput { exit_code: 0, stdout: String::new(), stderr: String::new() }),
        }
    }

    fn run_with_input(&self, program: &str, args: &[&str], _stdin: &str) -> Result<CommandOutput> {
        self.run(program, args)
    }
}

/// Files kept in memory, recording every operation.
#[derive(Default)]
struct MemoryFiles {
    files: Rc<RefCell<HashMap<String, String>>>,
    ops: Rc<RefCell<Vec<String>>>,
}

impl NoteFiles for MemoryFiles {
    fn create_dir_all(&self, path: &str) -> Result<()> {
        self.ops.borrow_mut().push(format!("mkdir {path}"));
        Ok(())
    }

    fn is_present(&self, path: &str) -> bool {
        self.ops.borrow_mut().push(format!("present {path}"));
        self.files.borrow().contains_key(path)
    }

    fn write(&self, path: &str, content: &str) -> Result<()> {
        self.ops.borrow_mut().push(format!("write {path}"));
        self.files.borrow_mut().insert(path.to_string(), content.to_string());
        Ok(())
    }

    fn read(&self, path: &str) -> Result<String> {
        self.ops.borrow_mut().push(format!("read {path}"));
        match self.files.borrow().get(path) {
            Some(text) => Ok(text.clone()),
            None => Err(LoopError::External(format!("missing {path}"))),
        }
    }
}

fn candidate(title: &str) -> SpawnTaskCandidate {
    SpawnTaskCandidate {
        title: title.to_string(),
        description: "d".to_string(),
        kind: SpawnTaskKind::Quality,
        blocking: true,
        estimated_minutes: 5,
        can_inline: false,
        acceptance: vec![],
        priority: 9,
        labels: vec!["auto".to_string()],
    }
}

fn task(id: &str) -> Task {
    Task {
        id: id.to_string(),
        title: id.to_string(),
        description: String::new(),
        status: TaskStatus::Open,
        labels: vec![],
        parent_id: None,
    }
}

#[test]
fn command_output_success_is_exit_code_zero() {
    let ok = CommandOutput { exit_code: 0, stdout: "x".to_string(), stderr: String::new() };
    assert!(ok.success());
    let failed = CommandOutput { exit_code: 2, stdout: String::new(), stderr: "  bad\n".to_string() };
    assert!(!failed.success());
    match check_output("bd", &["show", "x"], failed) {
        Err(e) => assert_eq!(e.message(), "bd show x failed: bad"),
        Ok(_) => panic!("expected a failure"),
    }
    assert_eq!(check_output("bd", &["show"], ok).unwrap(), "x");
}

#[test]
fn statuses_map_with_open_as_default() {
    assert_eq!(map_status("in_progress"), TaskStatus::InProgress);
    assert_eq!(map_status("closed"), TaskStatus::Closed);
    assert_eq!(map_status("blocked"), TaskStatus::Blocked);
    assert_eq!(map_status("deferred"), TaskStatus::Deferred);
    assert_eq!(map_status("weird"), TaskStatus::Open);
}

#[test]
fn task_records_fill_defaults() {
    let v = parse_json(
        "{\"id\": \"a-1\", \"status\": \"closed\", \"labels\": [\"x\", 3, \"y\"], \"parent_id\": \"p\"}",
    )
    .unwrap();
    let t = parse_task(&v).unwrap();
    assert_eq!(t.id, "a-1");
    assert_eq!(t.title, "a-1");
    assert_eq!(t.description, "");
    assert_eq!(t.status, TaskStatus::Closed);
    assert_eq!(t.labels, vec!["x", "y"]);
    assert_eq!(t.parent_id.as_deref(), Some("p"));
    assert!(!t.is_open());

    let no_id = parse_json("{\"id\": \"\", \"title\": \"t\"}").unwrap();
    assert!(parse_task(&no_id).is_none());

    let parent_wins = parse_json("{\"id\": \"b\", \"parent\": \"p1\", \"parent_id\": \"p2\"}").unwrap();
    assert_eq!(parse_task(&parent_wins).unwrap().parent_id.as_deref(), Some("p1"));
}

#[test]
fn task_documents_come_in_three_shapes() {
    let array = parse_json("[{\"id\": \"a\"}, {\"title\": \"no id\"}, {\"id\": \"b\"}]").unwrap();
    let ids: Vec<String> = parse_tasks(&array).into_iter().map(|t| t.id).collect();
    assert_eq!(ids, vec!["a", "b"]);
    let issues = parse_json("{\"issues\": [{\"id\": \"c\"}]}").unwrap();
    assert_eq!(parse_tasks(&issues)[0].id, "c");
    let single = parse_json("{\"id\": \"d\"}").unwrap();
    assert_eq!(parse_tasks(&single)[0].id, "d");
    let number = parse_json("7").unwrap();
    assert!(parse_tasks(&number).is_empty());
}

#[test]
fn sorting_keeps_the_first_task_of_each_id() {
    let mut first_b = task("b");
    first_b.title = "first".to_string();
    let mut second_b = task("b");
    second_b.title = "second".to_string();
    let sorted = sort_dedup_by_id(vec![task("c"), first_b, task("a"), second_b, task("ab")]);
    let ids: Vec<&str> = sorted.iter().map(|t| t.id.as_str()).collect();
    assert_eq!(ids, vec!["a", "ab", "b", "c"]);
    assert_eq!(sorted[2].title, "first");
}

#[test]
fn child_labels_add_kind_and_blocking() {
    let mut c = candidate("x");
    assert_eq!(candidate_labels(&c), vec!["auto", "loop:kind:quality", "loop:blocking"]);
    c.blocking = false;
    c.kind = SpawnTaskKind::Backlog;
    assert_eq!(candidate_labels(&c), vec!["auto", "loop:kind:backlog", "loop:followup"]);
}

#[test]
fn bootstrap_goal_must_not_be_blank() {
    let mut beads = BeadsCli::new(Box::new(ScriptedShell::default()), "agent-loop");
    assert!(matches!(
        beads.create_bootstrap_parent_task("   ", true),
        Err(LoopError::EmptyBootstrapGoal)
    ));
}

#[test]
fn bootstrap_task_is_created_claimed_and_shown() {
    let shell = ScriptedShell::default()
        .answer("create", 0, " boot-7 \n")
        .answer("show", 0, "[{\"id\": \"boot-7\", \"title\": \"T\"}]");
    let log = shell.calls.clone();
    let mut beads = BeadsCli::new(Box::new(shell), "agent-loop");
    let t = beads.create_bootstrap_parent_task("  ship it ", true).unwrap();
    assert_eq!(t.id, "boot-7");
    let calls = log.borrow();
    assert_eq!(calls[0][..5], ["create", "--title", "[Bootstrap] Product storm: ship it", "--description", "Auto-created bootstrap task for agent-loop.\nProduct storm goal: ship it"]);
    assert_eq!(calls[1], vec!["update", "boot-7", "--claim"]);
    assert_eq!(calls[2], vec!["show", "boot-7", "--json"]);
}

#[test]
fn missing_issue_id_and_failed_commands_are_reported() {
    let shell = ScriptedShell::default().answer("create", 0, "  \n");
    let mut beads = BeadsCli::new(Box::new(shell), "agent-loop");
    match beads.create_bootstrap_parent_task("goal", true) {
        Err(e) => assert_eq!(e.message(), "bd create did not return issue id for bootstrap task"),
        Ok(_) => panic!("expected a failure"),
    }
    let failing = ScriptedShell::default().answer("sync", 1, "");
    let mut beads = BeadsCli::new(Box::new(failing), "agent-loop");
    match beads.sync() {
        Err(e) => assert_eq!(e.message(), "bd sync --flush-only failed: oops"),
        Ok(_) => panic!("expected a failure"),
    }
}

#[test]
fn claiming_skips_closed_tasks_and_reports_no_work() {
    let none = ScriptedShell::default().answer("ready", 0, "[]");
    let mut beads = BeadsCli::new(Box::new(none), "agent-loop");
    assert!(beads.claim_parent_task(None, true).unwrap().is_none());

    let closed = ScriptedShell::default()
        .answer("show", 0, "{\"id\": \"x\", \"status\": \"closed\"}");
    let mut beads = BeadsCli::new(Box::new(closed), "agent-loop");
    assert!(beads.claim_parent_task(Some("x"), true).unwrap().is_none());

    let open = ScriptedShell::default().answer("show", 0, "{\"id\": \"x\"}");
    let mut beads = BeadsCli::new(Box::new(open), "agent-loop");
    assert_eq!(beads.claim_parent_task(Some("x"), true).unwrap().unwrap().id, "x");

    let nothing = ScriptedShell::default().answer("show", 0, "[]");
    let mut beads = BeadsCli::new(Box::new(nothing), "agent-loop");
    match beads.claim_parent_task(Some("gone"), true) {
        Err(e) => assert_eq!(e.message(), "bd show returned no task for gone"),
        Ok(_) => panic!("expected a failure"),
    }

    let garbage = ScriptedShell::default().answer("show", 0, "not json");
    let mut beads = BeadsCli::new(Box::new(garbage), "agent-loop");
    match beads.claim_parent_task(Some("x"), true) {
        Err(e) => assert_eq!(e.message(), "failed to parse JSON for: bd show x --json"),
        Ok(_) => panic!("expected a failure"),
    }
}

#[test]
fn duplicates_come_from_children_and_search_sorted_by_id() {
    let shell = ScriptedShell::default()
        .answer(
            "children",
            0,
            "[{\"id\": \"z\", \"title\": \"  Fix Bug \"}, {\"id\": \"y\", \"title\": \"other\"}, {\"id\": \"x\", \"title\": \"fix bug\", \"status\": \"closed\"}]",
        )
        .answer(
            "search",
            0,
            "{\"issues\": [{\"id\": \"a\", \"title\": \"FIX BUG\", \"parent\": \"p\"}, {\"id\": \"b\", \"title\": \"fix bug\", \"parent\": \"q\"}, {\"id\": \"z\", \"title\": \"fix bug\", \"parent\": \"p\"}]}",
        );
    let mut beads = BeadsCli::new(Box::new(shell), "agent-loop");
    let found = beads.search_duplicates("p", &candidate("Fix bug")).unwrap();
    let ids: Vec<&str> = found.iter().map(|t| t.id.as_str()).collect();
    assert_eq!(ids, vec!["a", "z"]);
    assert_eq!(found[1].title, "  Fix Bug ");
}

#[test]
fn a_failed_search_still_reports_children() {
    let shell = ScriptedShell::default()
        .answer("children", 0, "[{\"id\": \"k\", \"title\": \"fix bug\"}]")
        .answer("search", 3, "");
    let mut beads = BeadsCli::new(Box::new(shell), "agent-loop");
    let found = beads.search_duplicates("p", &candidate("fix bug")).unwrap();
    assert_eq!(found.len(), 1);
}

#[test]
fn children_are_created_with_labels_and_capped_priority() {
    let shell = ScriptedShell::default()
        .answer("create", 0, "c-1\n")
        .answer("show", 0, "{\"id\": \"c-1\", \"parent\": \"p\"}");
    let log = shell.calls.clone();
    let mut beads = BeadsCli::new(Box::new(shell), "agent-loop");
    let child = beads.create_child_task("p", &candidate("write docs")).unwrap();
    assert_eq!(child.id, "c-1");
    assert_eq!(child.parent_id.as_deref(), Some("p"));
    assert_eq!(
        log.borrow()[0],
        vec![
            "create", "--title", "write docs", "--description", "d", "--type", "task", "--parent",
            "p", "--priority", "4", "--labels", "auto,loop:kind:quality,loop:blocking", "--silent",
        ]
    );
}

#[test]
fn initialization_runs_init_only_when_needed() {
    let ready = ScriptedShell::default();
    let mut beads = BeadsCli::new(Box::new(ready), "agent-loop");
    assert!(beads.ensure_initialized().is_ok());
    let fresh = ScriptedShell::default().answer("where", 1, "").answer("init", 1, "");
    let mut beads = BeadsCli::new(Box::new(fresh), "agent-loop");
    match beads.ensure_initialized() {
        Err(e) => assert_eq!(e.message(), "bd init --prefix agent-loop failed: oops"),
        Ok(_) => panic!("expected a failure"),
    }
}

#[test]
fn bank_lists_are_searched_by_bank_id() {
    let banks = parse_json("[{\"bank_id\": \"a\"}, {\"bank_id\": \"agent-loop\"}]").unwrap();
    assert!(bank_listed(&banks, "agent-loop"));
    assert!(!bank_listed(&banks, "other"));
    let not_a_list = parse_json("{\"bank_id\": \"agent-loop\"}").unwrap();
    assert!(!bank_listed(&not_a_list, "agent-loop"));
}

#[test]
fn retain_arguments_add_async_on_request() {
    assert_eq!(
        make_retain_args("b", "doc", "ctx", "body", false),
        vec!["memory", "retain", "b", "body", "--context", "ctx", "--doc-id", "doc"]
    );
    assert_eq!(make_retain_args("b", "doc", "ctx", "body", true).last(), Some(&"--async"));
}

#[test]
fn hindsight_creates_a_missing_bank_and_reports_bad_json() {
    let shell = ScriptedShell::default().answer("bank", 0, "[{\"bank_id\": \"x\"}]");
    let log = shell.calls.clone();
    let mut hindsight = HindsightCli::new(Box::new(shell));
    assert!(hindsight.ensure_project_bank("agent-loop").is_ok());
    assert_eq!(
        log.borrow()[1],
        vec![
            "memory", "retain", "agent-loop", "Project bank initialized for agent-loop",
            "--context", "bootstrap", "--doc-id", "bootstrap",
        ]
    );
    assert!(hindsight.ensure_available().is_ok());
    let broken = ScriptedShell::default().answer("bank", 0, "{");
    let mut hindsight = HindsightCli::new(Box::new(broken));
    assert!(matches!(
        hindsight.ensure_project_bank("agent-loop"),
        Err(LoopError::MalformedJson(_))
    ));
}

#[test]
fn memory_bank_paths_and_seed_notes() {
    let bank = FileMemoryBank::new(".memory-bank");
    assert_eq!(bank.index_path(), ".memory-bank/index.md");
    assert_eq!(bank.architecture_path(), ".memory-bank/architecture/agent-loop.md");
    assert_eq!(bank.guide_path(), ".memory-bank/guides/agent-loop.md");
    assert_eq!(bank.directories(), vec![".memory-bank/architecture", ".memory-bank/guides"]);
    let notes = bank.seed_notes();
    assert_eq!(notes.len(), 3);
    assert_eq!(notes[0].content, INDEX_NOTE);
    let slash = FileMemoryBank::new("root/");
    assert_eq!(slash.index_path(), "root/index.md");
    let empty = FileMemoryBank::new("");
    assert_eq!(empty.index_path(), "index.md");
}

#[test]
fn quality_gates_run_cargo_and_skip_perf_unless_asked() {
    assert_eq!(gate_command(GateName::Fmt), "cargo fmt -- --check");
    assert_eq!(gate_command(GateName::Clippy), "cargo clippy -- -D warnings");
    assert_eq!(gate_command(GateName::Tests), "cargo test");
    assert_eq!(gate_command(GateName::Perf), "cargo test --release");

    let shell = ScriptedShell::default().answer("clippy", 1, "");
    let gates = CargoQualityGates::new(Box::new(shell));
    let report = gates.run_core_gates(&task("t"), &SpecOutput::default()).unwrap();
    assert!(report.fmt_ok && !report.clippy_ok && report.tests_ok && report.perf_ok);
}

#[test]
fn dry_run_does_not_claim() {
    let shell = ScriptedShell::default().answer("show", 0, "{\"id\": \"x\"}");
    let log = shell.calls.clone();
    let mut beads = BeadsCli::new(Box::new(shell), "agent-loop");
    assert_eq!(beads.claim_parent_task(Some("x"), false).unwrap().unwrap().id, "x");
    assert!(log.borrow().iter().all(|call| call[0] != "update"));

    let shell = ScriptedShell::default().answer("show", 0, "{\"id\": \"x\"}");
    let log = shell.calls.clone();
    let mut beads = BeadsCli::new(Box::new(shell), "agent-loop");
    beads.claim_parent_task(Some("x"), true).unwrap();
    assert_eq!(log.borrow()[1], vec!["update", "x", "--claim"]);
}

#[test]
fn commands_run_by_the_adapters_are_exactly_the_needed_ones() {
    let shell = ScriptedShell::default();
    let log = shell.calls.clone();
    let mut beads = BeadsCli::new(Box::new(shell), "agent-loop");
    assert!(beads.create_bootstrap_parent_task(" \n", true).is_err());
    assert!(log.borrow().is_empty());

    let shell = ScriptedShell::default()
        .answer("create", 0, "c-1\n")
        .answer("show", 0, "{\"id\": \"c-1\"}");
    let log = shell.calls.clone();
    let mut beads = BeadsCli::new(Box::new(shell), "agent-loop");
    beads.create_child_task("p", &candidate("x")).unwrap();
    assert_eq!(log.borrow().len(), 2);
    assert_eq!(log.borrow()[1], vec!["show", "c-1", "--json"]);

    let closed = ScriptedShell::default().answer("show", 0, "{\"id\": \"x\", \"status\": \"closed\"}");
    let log = closed.calls.clone();
    let mut beads = BeadsCli::new(Box::new(closed), "agent-loop");
    assert!(beads.claim_parent_task(Some("x"), true).unwrap().is_none());
    assert_eq!(log.borrow().len(), 1);

    let listed = ScriptedShell::default().answer("bank", 0, "[{\"bank_id\": \"agent-loop\"}]");
    let log = listed.calls.clone();
    let mut hindsight = HindsightCli::new(Box::new(listed));
    assert!(hindsight.ensure_project_bank("agent-loop").is_ok());
    assert_eq!(log.borrow().len(), 1);

    let shell = ScriptedShell::default();
    let log = shell.calls.clone();
    let mut hindsight = HindsightCli::new(Box::new(shell));
    assert!(hindsight.retain_summary("b", "task-1", "t", "body", false).is_ok());
    assert_eq!(*log.borrow(), vec![make_retain_args("b", "task-1", "t", "body", false)
        .iter()
        .map(|a| a.to_string())
        .collect::<Vec<String>>()]);
}

#[test]
fn memory_bank_seeds_only_missing_notes_and_reads_them() {
    let files = MemoryFiles::default();
    files.files.borrow_mut().insert("mb/index.md".to_string(), "kept".to_string());
    let stored = files.files.clone();
    let ops = files.ops.clone();
    let mut bank = MemoryBank::new(FileMemoryBank::new("mb"), files);
    assert!(bank.ensure_exists().is_ok());
    assert_eq!(
        *ops.borrow(),
        vec![
            "mkdir mb/architecture",
            "mkdir mb/guides",
            "present mb/index.md",
            "present mb/architecture/agent-loop.md",
            "write mb/architecture/agent-loop.md",
            "present mb/guides/agent-loop.md",
            "write mb/guides/agent-loop.md",
        ]
    );
    assert_eq!(stored.borrow()["mb/index.md"], "kept");
    assert_eq!(stored.borrow()["mb/guides/agent-loop.md"], GUIDE_NOTE);
    assert!(bank.prime().is_ok());
    assert!(bank.prepare("topic").is_ok());
    assert_eq!(ops.borrow().len(), 10);

    let mut empty = MemoryBank::new(FileMemoryBank::new("none"), MemoryFiles::default());
    assert!(empty.prime().is_err());
    assert!(empty.prepare("topic").is_err());
}
