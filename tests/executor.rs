use ikanban::executor::{direct_cli_args, format_tail, listening_url, ExecutionEnv, OpenCodeExecutor, StartupWatch};

#[test]
fn listening_line_gives_the_url() {
    assert_eq!(
        listening_url("  opencode server listening on http://127.0.0.1:4096  "),
        Some("http://127.0.0.1:4096".to_string())
    );
    assert_eq!(listening_url("starting up"), None);
}

#[test]
fn tail_keeps_the_last_twelve_lines() {
    let lines: Vec<String> = (0..20).map(|i| format!("l{}", i)).collect();
    let expected: Vec<String> = (8..20).map(|i| format!("l{}", i)).collect();
    assert_eq!(format_tail(lines), expected.join("\n"));
    assert_eq!(format_tail(vec!["a".to_string()]), "a");
}

#[test]
fn startup_watch_caps_capture() {
    let mut watch = StartupWatch::new();
    for i in 0..70 {
        assert!(watch.observe(format!("line {}", i)).is_none());
    }
    let url = watch.observe("opencode server listening on http://x".to_string());
    assert_eq!(url, Some("http://x".to_string()));
    let expected: Vec<String> = (52..64).map(|i| format!("line {}", i)).collect();
    assert_eq!(
        watch.exited(),
        format!(
            "OpenCode server exited before printing listening URL.\nServer output tail:\n{}",
            expected.join("\n")
        )
    );
}

#[test]
fn env_vars_are_set_once() {
    let env = ExecutionEnv::new()
        .with_env_var("A".to_string(), "1".to_string())
        .with_env_var("B".to_string(), "2".to_string())
        .with_env_var("A".to_string(), "3".to_string())
        .with_repo_path("/r".to_string());
    assert_eq!(
        env.env_vars,
        vec![("A".to_string(), "3".to_string()), ("B".to_string(), "2".to_string())]
    );
    assert_eq!(env.repo_paths, vec!["/r".to_string()]);
}

#[test]
fn opencode_builders() {
    let e = OpenCodeExecutor::new();
    assert!(e.auto_approve);
    assert!(e.model.is_none());
    let e = e.with_model("m1".to_string()).with_auto_approve(false);
    assert_eq!(e.model.as_deref(), Some("m1"));
    assert!(!e.auto_approve);
    assert_eq!(e.executor_type(), "opencode");
    assert_eq!(
        e.server_args(),
        vec!["-y", "opencode-ai", "serve", "--hostname", "127.0.0.1", "--port", "0"]
    );
}

#[test]
fn direct_cli_arguments() {
    assert_eq!(
        direct_cli_args("fix it", None),
        vec!["--print", "--dangerously-skip-permissions", "fix it"]
    );
    assert_eq!(
        direct_cli_args("fix it", Some("opus")),
        vec!["--print", "--dangerously-skip-permissions", "fix it", "--model", "opus"]
    );
}
