use ikanban::agent::{
    clock_string, decimal_string, is_turn_marker, padded_string, turn_id, wait_step,
    AgentError, AgentEvent, AgentProcessManager, AgentProcessStatus, StdoutPump, WaitStep,
};

#[test]
fn turn_markers() {
    assert!(is_turn_marker("---"));
    assert!(is_turn_marker("text --- more"));
    assert!(is_turn_marker("## Heading"));
    assert!(!is_turn_marker("# Heading"));
    assert!(!is_turn_marker("--"));
    assert!(!is_turn_marker(""));
}

#[test]
fn decimal_and_padding() {
    assert_eq!(decimal_string(0), "0");
    assert_eq!(decimal_string(1234567890), "1234567890");
    assert_eq!(padded_string(7, 2), "07");
    assert_eq!(padded_string(123, 2), "123");
    assert_eq!(padded_string(5, 4), "0005");
}

#[test]
fn clock_text_of_instants() {
    assert_eq!(clock_string(0), "1970-01-01 00:00:00");
    assert_eq!(clock_string(3661), "1970-01-01 01:01:01");
    assert_eq!(clock_string(31536000 + 2592000 + 86400 + 59), "1971-02-01 00:00:59");
    assert_eq!(clock_string(31104000), "1970-12-27 00:00:00");
    assert_eq!(clock_string(951782400), "2000-02-29 00:00:00");
    assert_eq!(clock_string(951868800), "2000-03-01 00:00:00");
    assert_eq!(clock_string(4102444799), "2099-12-31 23:59:59");
    assert_eq!(clock_string(4107542400), "2100-03-01 00:00:00");
    assert_eq!(ikanban::agent::chrono_now().len(), 19);
}

#[test]
fn turn_ids() {
    assert_eq!(turn_id("exec-1", 3), "exec-1-turn-3");
}

#[test]
fn pump_counts_turns_and_keeps_output() {
    let mut pump = StdoutPump::new();
    assert_eq!(pump.on_line("hello"), None);
    assert_eq!(pump.final_turn(), 1);
    assert_eq!(pump.on_line("## Step"), Some(1));
    assert_eq!(pump.on_line("---"), Some(2));
    assert_eq!(pump.final_turn(), 2);
    assert_eq!(pump.output(), "hello\n## Step\n---\n");
}

#[test]
fn wait_steps() {
    assert_eq!(wait_step(&AgentEvent::ProcessExited { exit_code: Some(0) }), WaitStep::ReadStatus);
    assert_eq!(wait_step(&AgentEvent::Error("x".to_string())), WaitStep::Failed);
    assert_eq!(wait_step(&AgentEvent::OutputLine("x".to_string())), WaitStep::KeepWaiting);
}

#[test]
fn agent_lifecycle() {
    let mut m = AgentProcessManager::new();
    m.register("s1", "e1", None);
    assert_eq!(m.get_status("s1"), Some(AgentProcessStatus::Starting));
    assert!(m.is_running("s1"));
    assert!(m.record_stdout("s1", "out".to_string()));
    assert!(m.record_stderr("s1", "err".to_string()));
    assert_eq!(m.get_status("s1"), Some(AgentProcessStatus::Running));
    assert!(m.set_turn("s1", 2));
    assert_eq!(m.get_current_turn("s1"), Some(2));
    assert_eq!(m.get_stdout_buffer("s1"), Some(vec!["out".to_string()]));
    assert_eq!(m.get_stderr_buffer("s1"), Some(vec!["err".to_string()]));
    assert_eq!(m.get_recent_output("s1", 5), Some(vec!["out".to_string()]));
    m.register("s2", "e2", None);
    let mut running = m.list_running();
    running.sort();
    assert_eq!(running, vec!["s1", "s2"]);
    assert!(m.record_exit("s1", Some(1), false));
    assert_eq!(m.get_status("s1"), Some(AgentProcessStatus::Failed));
    assert!(m.record_exit("s2", Some(0), false));
    assert_eq!(m.get_status("s2"), Some(AgentProcessStatus::Completed));
    m.register("s3", "e3", None);
    m.cleanup_finished();
    assert_eq!(m.get_status("s1"), None);
    assert_eq!(m.list_running(), vec!["s3"]);
    assert!(!m.record_stdout("s1", "x".to_string()));
}

#[test]
fn killing_an_unknown_agent_fails() {
    let mut m = AgentProcessManager::new();
    assert!(matches!(m.kill_agent("zz"), Err(AgentError::NotFound(ref s)) if s == "zz"));
    m.register("a", "e", None);
    assert!(m.kill_agent("a").unwrap().is_none());
    assert!(m.record_exit("a", None, true));
    assert_eq!(m.get_status("a"), Some(AgentProcessStatus::Cancelled));
}

#[test]
fn stdout_buffer_is_bounded() {
    let mut m = AgentProcessManager::new();
    m.register("a", "e", None);
    for i in 0..10005 {
        m.record_stdout("a", format!("{}", i));
    }
    let all = m.get_stdout_buffer("a").unwrap();
    assert_eq!(all.len(), 10000);
    assert_eq!(all[0], "5");
}

#[test]
fn late_output_keeps_the_end_status() {
    let mut m = AgentProcessManager::new();
    m.register("a", "e", None);
    m.record_exit("a", Some(0), false);
    assert!(m.record_stdout("a", "late".to_string()));
    assert_eq!(m.get_status("a"), Some(AgentProcessStatus::Completed));
}
