use skill_tool::args::{positional_args, ArgValue, ToolArgs};
use skill_tool::output::{on_outcome, shape_stdout, RunOutcome, ToolResult, MAX_OUTPUT_BYTES};
use skill_tool::skill_tool::{
    ExecStep, SecurityPolicy, SkillTool, SkillToolExecutor, Verdict, SKILL_TOOL_TIMEOUT_SECS,
};

fn tool(kind: &str, command: &str, location: Option<&str>) -> SkillTool {
    SkillTool {
        name: "list_area_reports".to_string(),
        description: "Lists the area reports".to_string(),
        kind: kind.to_string(),
        command: command.to_string(),
        location: location.map(|s| s.to_string()),
    }
}

fn executor(kind: &str, command: &str, location: Option<&str>) -> SkillToolExecutor {
    SkillToolExecutor::new(
        tool(kind, command, location),
        SecurityPolicy { workspace_dir: "/work".to_string() },
    )
}

fn strings(v: &[&str]) -> Vec<String> {
    v.iter().map(|s| s.to_string()).collect()
}

fn expect_failure(r: &ToolResult, msg: &str) {
    assert!(!r.success);
    assert_eq!(r.output, "");
    assert_eq!(r.error.as_deref(), Some(msg));
}

#[test]
fn new_keeps_tool_and_policy() {
    let e = executor("shell", "ls", Some("/skills/x"));
    assert_eq!(e.tool.name, "list_area_reports");
    assert_eq!(e.tool.command, "ls");
    assert_eq!(e.tool.location.as_deref(), Some("/skills/x"));
    assert_eq!(e.security.workspace_dir, "/work");
}

#[test]
fn name_and_description() {
    let e = executor("shell", "ls", None);
    assert_eq!(e.name(), "list_area_reports");
    assert_eq!(e.description(), "Lists the area reports");
}

#[test]
fn substitute_braced_and_bare_placeholders() {
    let e = executor("shell", "", None);
    let r = e.substitute_args("report ${1} --area $2", &strings(&["north", "q3"]));
    assert_eq!(r, "report north --area q3");
}

#[test]
fn substitute_repeated_placeholder() {
    let e = executor("shell", "", None);
    let r = e.substitute_args("${1}-${1}-$1", &strings(&["x"]));
    assert_eq!(r, "x-x-x");
}

#[test]
fn substitute_bare_placeholder_prefix_of_longer_number() {
    // `$1` is replaced inside `$10` too, as `str::replace` finds it there.
    let e = executor("shell", "", None);
    let r = e.substitute_args("$10", &strings(&["a"]));
    assert_eq!(r, "a0");
}

#[test]
fn substitute_without_args_keeps_command() {
    let e = executor("shell", "", None);
    assert_eq!(e.substitute_args("echo ${1}", &[]), "echo ${1}");
}

#[test]
fn substitute_without_placeholders_keeps_command() {
    let e = executor("shell", "", None);
    assert_eq!(e.substitute_args("echo hi", &strings(&["a", "b"])), "echo hi");
}

#[test]
fn substitute_single_placeholder_gives_argument() {
    let e = executor("shell", "", None);
    assert_eq!(e.substitute_args("${1}", &strings(&["only"])), "only");
    assert_eq!(e.substitute_args("$1", &strings(&["only"])), "only");
}

#[test]
fn substitute_later_argument_sees_earlier_replacement() {
    // The first argument brings in `${2}`, which the second pass replaces.
    let e = executor("shell", "", None);
    let r = e.substitute_args("a ${1}", &strings(&["${2}", "b"]));
    assert_eq!(r, "a b");
}

#[test]
fn substitute_tenth_argument() {
    let e = executor("shell", "", None);
    let args = strings(&["1", "2", "3", "4", "5", "6", "7", "8", "9", "ten"]);
    assert_eq!(e.substitute_args("${10}", &args), "ten");
}

#[test]
fn substitute_non_ascii() {
    let e = executor("shell", "", None);
    assert_eq!(e.substitute_args("é ${1} ü", &strings(&["ß"])), "é ß ü");
}

#[test]
fn positional_from_array() {
    let args = ToolArgs::Object(Some(ArgValue::Array(vec![
        Some("a".to_string()),
        None,
        Some("c".to_string()),
    ])));
    assert_eq!(positional_args(&args), strings(&["a", "", "c"]));
}

#[test]
fn positional_from_string_field() {
    let args = ToolArgs::Object(Some(ArgValue::Str("one".to_string())));
    assert_eq!(positional_args(&args), strings(&["one"]));
}

#[test]
fn positional_from_bare_string() {
    let args = ToolArgs::Str("solo".to_string());
    assert_eq!(positional_args(&args), strings(&["solo"]));
}

#[test]
fn positional_none() {
    assert!(positional_args(&ToolArgs::Object(None)).is_empty());
    assert!(positional_args(&ToolArgs::Object(Some(ArgValue::Other))).is_empty());
    assert!(positional_args(&ToolArgs::Other).is_empty());
}

#[test]
fn start_rejects_other_kinds() {
    let e = executor("python", "run.py ${1}", None);
    match e.start(&ToolArgs::Str("x".to_string())) {
        ExecStep::Done(r) => expect_failure(&r, "Unsupported skill tool kind: python"),
        _ => panic!("expected a finished call"),
    }
}

#[test]
fn start_substitutes_and_asks_policy() {
    let e = executor("shell", "cat ${1} $2", None);
    let args = ToolArgs::Object(Some(ArgValue::Array(vec![
        Some("a.txt".to_string()),
        Some("b.txt".to_string()),
    ])));
    match e.start(&args) {
        ExecStep::Validate { command, approved } => {
            assert_eq!(command, "cat a.txt b.txt");
            assert!(!approved);
        }
        _ => panic!("expected a security check"),
    }
}

#[test]
fn start_without_args_uses_command() {
    let e = executor("shell", "cat ${1}", None);
    match e.start(&ToolArgs::Other) {
        ExecStep::Validate { command, .. } => assert_eq!(command, "cat ${1}"),
        _ => panic!("expected a security check"),
    }
}

#[test]
fn blocked_command_fails() {
    let e = executor("shell", "rm -rf /", None);
    match e.on_verdict("rm -rf /".to_string(), Verdict::Blocked("forbidden".to_string())) {
        ExecStep::Done(r) => expect_failure(&r, "Security block: forbidden"),
        _ => panic!("expected a finished call"),
    }
}

#[test]
fn allowed_command_runs_in_workspace() {
    let e = executor("shell", "ls", None);
    match e.on_verdict("ls".to_string(), Verdict::Allowed) {
        ExecStep::Run { command, workspace_dir, inherited_env, timeout_secs } => {
            assert_eq!(command, "ls");
            assert_eq!(workspace_dir, "/work");
            assert_eq!(inherited_env, strings(&["PATH", "HOME", "USER", "SHELL", "LANG", "TERM"]));
            assert_eq!(timeout_secs, 300);
            assert_eq!(SKILL_TOOL_TIMEOUT_SECS, 300);
        }
        _ => panic!("expected a run"),
    }
}

#[test]
fn allowed_command_runs_in_tool_location() {
    let e = executor("shell", "ls", Some("/skills/macro"));
    match e.on_verdict("ls".to_string(), Verdict::Allowed) {
        ExecStep::Run { workspace_dir, .. } => assert_eq!(workspace_dir, "/skills/macro"),
        _ => panic!("expected a run"),
    }
}

#[test]
fn outcome_build_failed() {
    let r = on_outcome(RunOutcome::BuildFailed("no shell".to_string())).unwrap();
    expect_failure(&r, "Failed to build command: no shell");
}

#[test]
fn outcome_execution_failed() {
    let r = on_outcome(RunOutcome::Failed("not found".to_string())).unwrap();
    expect_failure(&r, "Execution failed: not found");
}

#[test]
fn outcome_timed_out() {
    let r = on_outcome(RunOutcome::TimedOut).unwrap();
    expect_failure(&r, "Timed out after 300s");
}

#[test]
fn outcome_completed_success() {
    let r = on_outcome(RunOutcome::Completed {
        stdout: b"hello\n".to_vec(),
        stderr: Vec::new(),
        success: true,
    })
    .unwrap();
    assert!(r.success);
    assert_eq!(r.output, "hello\n");
    assert_eq!(r.error, None);
}

#[test]
fn outcome_completed_failure_keeps_stderr() {
    let r = on_outcome(RunOutcome::Completed {
        stdout: b"partial".to_vec(),
        stderr: b"boom".to_vec(),
        success: false,
    })
    .unwrap();
    assert!(!r.success);
    assert_eq!(r.output, "partial");
    assert_eq!(r.error.as_deref(), Some("boom"));
}

#[test]
fn outcome_replaces_invalid_utf8() {
    let r = on_outcome(RunOutcome::Completed {
        stdout: vec![b'a', 0xff, b'b'],
        stderr: vec![0xc3],
        success: true,
    })
    .unwrap();
    assert_eq!(r.output, "a\u{FFFD}b");
    assert_eq!(r.error.as_deref(), Some("\u{FFFD}"));
}

#[test]
fn outcome_truncates_long_output() {
    let stdout = vec![b'x'; MAX_OUTPUT_BYTES + 10];
    let r = on_outcome(RunOutcome::Completed { stdout, stderr: Vec::new(), success: true }).unwrap();
    let mut expected = "x".repeat(MAX_OUTPUT_BYTES);
    expected.push_str("\n... [output truncated]");
    assert_eq!(r.output, expected);
}

#[test]
fn outcome_keeps_output_at_cap() {
    let stdout = vec![b'y'; MAX_OUTPUT_BYTES];
    let r = on_outcome(RunOutcome::Completed { stdout, stderr: Vec::new(), success: true }).unwrap();
    assert_eq!(r.output.len(), MAX_OUTPUT_BYTES);
    assert!(!r.output.contains("truncated"));
}

#[test]
fn outcome_cut_inside_character_is_refused() {
    // One ASCII byte, then two-byte characters: the cap falls inside one.
    let mut s = String::from("a");
    while s.len() <= MAX_OUTPUT_BYTES {
        s.push('é');
    }
    assert!(!s.is_char_boundary(MAX_OUTPUT_BYTES));
    let r = on_outcome(RunOutcome::Completed {
        stdout: s.into_bytes(),
        stderr: Vec::new(),
        success: true,
    });
    assert!(r.is_none());
}

#[test]
fn shape_stdout_cuts_at_char_boundary() {
    let mut s = String::new();
    while s.len() < MAX_OUTPUT_BYTES + 4 {
        s.push('é');
    }
    let r = shape_stdout(s.clone());
    let mut expected = s[..MAX_OUTPUT_BYTES].to_string();
    expected.push_str("\n... [output truncated]");
    assert_eq!(r, expected);
}
