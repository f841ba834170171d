use callout::hook::{
    agent_name_for, ask_output_line, base_url_for_port, decision_json, parse_choice_args,
    pretooluse_question, resolve_after_register, resolve_after_status, resolve_start,
    split_choice_arg, AskResult, ResolveAction, SessionEntry, SessionRegistry, ToolInput,
    DEFAULT_ASK_TIMEOUT_SECS, PERMISSION_DEFAULT_ANSWER,
};
use serde_json::Value;

fn bash_input(command: &str) -> ToolInput {
    let mut obj = serde_json::Map::new();
    obj.insert("command".to_string(), Value::String(command.to_string()));
    ToolInput {
        command: Some(command.to_string()),
        json_text: Value::Object(obj).to_string(),
    }
}

fn decision(answer: Option<&str>) -> Value {
    serde_json::from_str(&decision_json(answer)).unwrap()
}

#[test]
fn pretooluse_question_includes_command_for_bash() {
    let (q, choices) = pretooluse_question("Test Agent", "Bash", &bash_input("rm -rf dist"));
    assert!(q.contains("Test Agent"));
    assert!(q.contains("rm -rf dist"));
    assert_eq!(
        choices,
        vec![
            ("deny".to_string(), "deny".to_string()),
            ("allow".to_string(), "allow".to_string())
        ]
    );
}

#[test]
fn pretooluse_question_lists_deny_before_allow() {
    let (_q, choices) = pretooluse_question("Test Agent", "Bash", &bash_input("rm -rf dist"));
    assert_eq!(
        choices[0].0, "deny",
        "deny must be checked first by match_choice"
    );
    assert_eq!(choices[1].0, "allow");
}

#[test]
fn decision_json_approve_on_allow() {
    let v = decision(Some("allow"));
    assert_eq!(v["hookSpecificOutput"]["permissionDecision"], "allow");
}

#[test]
fn decision_json_approve_on_yes_lenient_fallback() {
    let v = decision(Some("y"));
    assert_eq!(v["hookSpecificOutput"]["permissionDecision"], "allow");
}

#[test]
fn decision_json_deny_on_no() {
    let v = decision(Some("n"));
    assert_eq!(v["hookSpecificOutput"]["permissionDecision"], "deny");
}

#[test]
fn decision_json_deny_on_timeout_or_missing_answer() {
    let v = decision(None);
    assert_eq!(v["hookSpecificOutput"]["permissionDecision"], "deny");
}

#[test]
fn pretooluse_question_exact_text() {
    let (q, _) = pretooluse_question("api", "Bash", &bash_input("ls"));
    assert_eq!(q, "api wants to run Bash: ls. Allow?");
}

#[test]
fn pretooluse_question_uses_json_without_command() {
    let input = ToolInput {
        command: None,
        json_text: "{\"file_path\":\"a.rs\"}".to_string(),
    };
    let (q, _) = pretooluse_question("api", "Edit", &input);
    assert_eq!(q, "api wants to run Edit: {\"file_path\":\"a.rs\"}. Allow?");
}

#[test]
fn decision_json_exact_text_and_reasons() {
    assert_eq!(
        decision_json(Some("ALLOW")),
        "{\"hookSpecificOutput\":{\"hookEventName\":\"PreToolUse\",\"permissionDecision\":\"allow\",\"permissionDecisionReason\":\"approved via voice\"}}"
    );
    let v = decision(Some("deny"));
    assert_eq!(v["hookSpecificOutput"]["hookEventName"], "PreToolUse");
    assert_eq!(
        v["hookSpecificOutput"]["permissionDecisionReason"],
        "denied via voice (or no response)"
    );
    assert_eq!(decision(Some("Yes"))["hookSpecificOutput"]["permissionDecision"], "allow");
    assert_eq!(decision(Some("yes please"))["hookSpecificOutput"]["permissionDecision"], "deny");
}

#[test]
fn new_session_registers_then_reuses_its_agent() {
    let mut reg = SessionRegistry::new();
    match resolve_start(&reg, "sess1", "my-repo") {
        ResolveAction::Register { name } => assert_eq!(name, "my-repo"),
        _ => panic!("expected Register"),
    }
    match resolve_after_register(&mut reg, "sess1", "abc123".to_string()) {
        ResolveAction::SaveThenUse { agent_id } => assert_eq!(agent_id, "abc123"),
        _ => panic!("expected SaveThenUse"),
    }
    assert_eq!(reg.get("sess1"), Some("abc123".to_string()));
    match resolve_start(&reg, "sess1", "my-repo") {
        ResolveAction::CheckStatus { cached } => assert_eq!(cached, "abc123"),
        _ => panic!("expected CheckStatus"),
    }
    let known = vec!["zzz999".to_string(), "abc123".to_string()];
    match resolve_after_status("abc123", &known, "my-repo") {
        ResolveAction::Use { agent_id } => assert_eq!(agent_id, "abc123"),
        _ => panic!("expected Use"),
    }
}

#[test]
fn forgotten_agent_is_registered_again() {
    let known = vec!["other1".to_string()];
    match resolve_after_status("abc123", &known, "my-repo") {
        ResolveAction::Register { name } => assert_eq!(name, "my-repo"),
        _ => panic!("expected Register"),
    }
    let mut reg = SessionRegistry::new();
    reg.insert("s".to_string(), SessionEntry { agent_id: "old111".to_string() });
    resolve_after_register(&mut reg, "s", "new222".to_string());
    assert_eq!(reg.get("s"), Some("new222".to_string()));
    assert_eq!(reg.to_pairs(), vec![("s".to_string(), "new222".to_string())]);
}

#[test]
fn agent_name_comes_from_working_directory() {
    assert_eq!(agent_name_for("/home/me/projects/callout"), "callout");
    assert_eq!(agent_name_for("/home/me/projects/callout/"), "callout");
    assert_eq!(agent_name_for("/"), "coding agent");
    assert_eq!(agent_name_for(""), "coding agent");
    assert_eq!(agent_name_for("."), "coding agent");
    assert_eq!(agent_name_for("/tmp/.."), "coding agent");
}

#[test]
fn base_url_uses_loopback_and_port() {
    assert_eq!(base_url_for_port(7878), "http://127.0.0.1:7878");
    assert_eq!(base_url_for_port(0), "http://127.0.0.1:0");
}

#[test]
fn ask_output_line_variants() {
    let answered = AskResult { answer: Some("B".to_string()), timed_out: false };
    assert_eq!(ask_output_line(&answered), "B");
    let timed_out = AskResult { answer: None, timed_out: true };
    assert_eq!(ask_output_line(&timed_out), "(no answer, timed out)");
    let none = AskResult { answer: None, timed_out: false };
    assert_eq!(ask_output_line(&none), "(no answer)");
}

#[test]
fn choice_args_split_at_first_colon() {
    assert_eq!(
        split_choice_arg("a:Yes: really"),
        Some(("a".to_string(), "Yes: really".to_string()))
    );
    assert_eq!(split_choice_arg("nocolon"), None);
    let args = vec!["y:Yes".to_string(), "skip".to_string(), "n:No".to_string()];
    assert_eq!(
        parse_choice_args(&args),
        vec![
            ("y".to_string(), "Yes".to_string()),
            ("n".to_string(), "No".to_string())
        ]
    );
}

#[test]
fn hook_waits_two_minutes() {
    assert_eq!(DEFAULT_ASK_TIMEOUT_SECS, 120);
}

#[test]
fn timed_out_permission_question_is_denied() {
    let v = decision(Some(PERMISSION_DEFAULT_ANSWER));
    assert_eq!(v["hookSpecificOutput"]["permissionDecision"], "deny");
    let (_q, choices) = pretooluse_question("a", "Bash", &bash_input("ls"));
    let cs: Vec<callout::router::Choice> = choices
        .into_iter()
        .map(|(key, label)| callout::router::Choice { key, label })
        .collect();
    let answer = callout::router::answer_for(&cs, "allow it, no, deny");
    assert_eq!(answer, "deny");
    assert_eq!(decision(Some(&answer))["hookSpecificOutput"]["permissionDecision"], "deny");
}

#[test]
fn hook_payload_defaults() {
    let f = callout::hook::hook_fields(None, None);
    assert_eq!(f.session_id, "unknown");
    assert_eq!(f.cwd, ".");
    let (name, input) = callout::hook::tool_call(None, None, None);
    assert_eq!(name, "a tool");
    assert_eq!(input.command, None);
    assert_eq!(input.json_text, "{}");
    assert_eq!(callout::hook::cli_session_id(None), "manual");
    assert_eq!(callout::hook::cli_session_id(Some("s1".to_string())), "s1");
}

#[test]
fn pre_tool_use_output_is_fail_safe() {
    assert_eq!(callout::hook::pre_tool_use_output(None), None);
    let timed_out = AskResult { answer: Some(PERMISSION_DEFAULT_ANSWER.to_string()), timed_out: true };
    let out = callout::hook::pre_tool_use_output(Some(timed_out)).unwrap();
    assert_eq!(out, decision_json(None));
    let approved = AskResult { answer: Some("allow".to_string()), timed_out: false };
    assert_eq!(callout::hook::pre_tool_use_output(Some(approved)), Some(decision_json(Some("allow"))));
}
