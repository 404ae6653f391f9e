use ikanban::log_store::{LogMsg, MsgStore, OutputBuffer};

#[test]
fn output_buffer_drops_oldest_past_bound() {
    let mut buf = OutputBuffer::new(2);
    buf.push("a".to_string());
    buf.push("b".to_string());
    buf.push("c".to_string());
    assert_eq!(buf.get_all(), vec!["b", "c"]);
    assert_eq!(buf.get_recent(1), vec!["c"]);
    assert_eq!(buf.get_recent(5), vec!["b", "c"]);
    buf.clear();
    assert!(buf.get_all().is_empty());
}

#[test]
fn output_buffer_of_zero_keeps_nothing() {
    let mut buf = OutputBuffer::new(0);
    buf.push("a".to_string());
    assert!(buf.get_all().is_empty());
    assert!(buf.get_recent(3).is_empty());
}

#[test]
fn store_keeps_order_and_bound() {
    let mut store = MsgStore::with_capacity(2);
    assert!(store.push(LogMsg::Stdout("1".to_string())));
    assert!(store.push(LogMsg::Stderr("2".to_string())));
    assert!(store.push(LogMsg::Event("3".to_string())));
    let all: Vec<String> = store.get_all().iter().map(|m| format!("{:?}", m)).collect();
    assert_eq!(all, vec!["Stderr(\"2\")", "Event(\"3\")"]);
    assert_eq!(store.recent(1).len(), 1);
}

#[test]
fn nothing_is_taken_after_finished() {
    let mut store = MsgStore::new();
    let mut rx = store.subscribe();
    assert!(store.push(LogMsg::Stdout("x".to_string())));
    assert!(store.push(LogMsg::Finished));
    assert!(store.finished());
    assert!(!store.push(LogMsg::Stdout("late".to_string())));
    assert!(!store.push(LogMsg::Finished));
    assert!(matches!(rx.try_recv().unwrap(), LogMsg::Stdout(_)));
    assert!(matches!(rx.try_recv().unwrap(), LogMsg::Finished));
    assert!(rx.try_recv().is_err());
    assert_eq!(store.get_all().len(), 2);
}

#[test]
fn subscriber_sees_only_later_messages() {
    let mut store = MsgStore::new();
    store.push(LogMsg::Stdout("before".to_string()));
    let mut rx = store.subscribe();
    store.push(LogMsg::Stdout("after".to_string()));
    assert!(matches!(rx.try_recv().unwrap(), LogMsg::Stdout(ref s) if s == "after"));
}

#[test]
fn clear_keeps_the_feed_state() {
    let mut store = MsgStore::new();
    store.push(LogMsg::SessionId("abc".to_string()));
    store.clear();
    assert!(store.get_all().is_empty());
    assert!(!store.finished());
}

#[test]
fn feed_tags_and_payloads() {
    assert_eq!(LogMsg::Stdout("a".to_string()).kind_name(), "stdout");
    assert_eq!(LogMsg::SessionId("a".to_string()).kind_name(), "session_id");
    assert_eq!(LogMsg::Finished.kind_name(), "finished");
    assert_eq!(LogMsg::Event("e".to_string()).payload(), Some("e".to_string()));
    assert_eq!(LogMsg::Finished.payload(), None);
}
