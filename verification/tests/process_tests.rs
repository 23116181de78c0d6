use rebab::config::{IpAddress, Router, Rule, SocketAddress};
use rebab::process::{
    check_all, commands, plan_command, rule_id, spawn_failure_message, spawn_message, split_words,
    stream_output, terminating_message, CommandPlan, ProcessState, SpawnRequest,
};

#[test]
fn rule_ids() {
    assert_eq!(rule_id(0), "rule_0");
    assert_eq!(rule_id(12), "rule_12");
}

#[test]
fn spawn_messages() {
    assert_eq!(spawn_message("npm run start:api", Some(8000)), "PORT=8000 npm run start:api");
    assert_eq!(spawn_message("echo hi", None), "echo hi");
}

#[test]
fn words_of_command() {
    assert_eq!(split_words("  npm\trun   dev \n"), vec!["npm", "run", "dev"]);
    assert_eq!(split_words("a\u{3000}b"), vec!["a", "b"]);
    assert!(split_words(" \t ").is_empty());
}

#[test]
fn plan_with_port() {
    assert_eq!(
        plan_command("npm run start", Some(3000)),
        Ok(CommandPlan {
            program: "npm".to_string(),
            args: vec!["run".to_string(), "start".to_string()],
            port_env: Some("3000".to_string()),
        })
    );
}

#[test]
fn plan_without_port() {
    assert_eq!(
        plan_command("echo", None),
        Ok(CommandPlan { program: "echo".to_string(), args: vec![], port_env: None })
    );
}

#[test]
fn plan_empty_command() {
    assert_eq!(plan_command("   ", Some(1)), Err("Empty command".to_string()));
    assert_eq!(plan_command("", None), Err("Empty command".to_string()));
}

#[test]
fn failure_message() {
    assert_eq!(
        spawn_failure_message("rule_0", "No such file or directory (os error 2)"),
        "Failed to execute command [rule_0]: No such file or directory (os error 2)"
    );
}

#[test]
fn commands_follow_rules_with_commands() {
    let mk = |c: Option<&str>, p: Option<u16>| Rule {
        frontend_prefix: None,
        backend_host: None,
        backend_port: p,
        command: c.map(|s| s.to_string()),
    };
    let router = Router {
        frontend: SocketAddress { ip: IpAddress::V4([0, 0, 0, 0]), port: 8080 },
        rules: vec![mk(Some("api"), Some(8000)), mk(None, Some(1)), mk(Some("web"), None)],
    };
    assert_eq!(
        commands(&router),
        vec![
            SpawnRequest { rule_id: "rule_0".to_string(), command: "api".to_string(), port: Some(8000) },
            SpawnRequest { rule_id: "rule_2".to_string(), command: "web".to_string(), port: None },
        ]
    );
}

#[test]
fn all_running_is_ok() {
    let r = check_all(&vec![("rule_0".to_string(), ProcessState::Running)]);
    assert!(r.messages.is_empty());
    assert_eq!(r.result, Ok(()));
}

#[test]
fn exited_processes_are_reported() {
    let r = check_all(&vec![
        ("rule_0".to_string(), ProcessState::Exited { success: true, code: Some(0) }),
        ("rule_1".to_string(), ProcessState::Running),
        ("rule_2".to_string(), ProcessState::Exited { success: false, code: Some(-2) }),
        ("rule_3".to_string(), ProcessState::Exited { success: false, code: None }),
        ("rule_4".to_string(), ProcessState::Unknown("boom".to_string())),
    ]);
    assert_eq!(
        r.messages,
        vec![
            "Process [rule_0] exited successfully (exit code: Some(0))",
            "Process [rule_2] exited with error (exit code: Some(-2))",
            "Process [rule_3] exited with error (exit code: None)",
            "Failed to check process [rule_4]: boom",
        ]
    );
    assert_eq!(
        r.result,
        Err("The following processes exited: rule_0, rule_2, rule_3, rule_4".to_string())
    );
}

#[test]
fn exit_code_text_matches_debug() {
    for code in [Some(0), Some(1), Some(-1), Some(i32::MIN), Some(i32::MAX), None] {
        let r = check_all(&vec![("p".to_string(), ProcessState::Exited { success: false, code })]);
        assert_eq!(r.messages[0], format!("Process [p] exited with error (exit code: {:?})", code));
    }
}

#[test]
fn stream_output_lines() {
    assert_eq!(stream_output("rule_1", Some("listening")), Some("rule_1: listening".to_string()));
    assert_eq!(stream_output("rule_1", None), None);
}

#[test]
fn terminating_line() {
    assert_eq!(terminating_message("rule_0"), "Terminating process [rule_0]...");
}

#[test]
fn readme_start_line() {
    assert_eq!(
        rebab::log::log_line(&spawn_message("npm run start:api", Some(8000))),
        "rebab: PORT=8000 npm run start:api"
    );
}
