use replicated_log::log::MessageLog;

#[test]
fn a_new_log_is_empty() {
    let log = MessageLog::new();
    assert_eq!(log.len(), 0);
    assert!(log.entries().is_empty());
    assert!(log.snapshot().is_empty());
}

#[test]
fn append_adds_at_the_end() {
    let mut log = MessageLog::new();
    log.append("first".to_string());
    log.append("second".to_string());
    assert_eq!(log.len(), 2);
    assert_eq!(log.entries(), &vec!["first".to_string(), "second".to_string()]);
}

#[test]
fn append_keeps_what_was_there() {
    let mut log = MessageLog::new();
    let mut earlier: Vec<String> = Vec::new();
    for text in ["c", "a", "b", "a"] {
        log.append(text.to_string());
        let now = log.snapshot();
        assert_eq!(&now[..earlier.len()], &earlier[..]);
        assert_eq!(now.len(), earlier.len() + 1);
        assert_eq!(now[earlier.len()], text);
        earlier = now;
    }
}

#[test]
fn duplicates_are_kept() {
    let mut log = MessageLog::new();
    log.append("same".to_string());
    log.append("same".to_string());
    assert_eq!(log.len(), 2);
    assert_eq!(log.snapshot(), vec!["same".to_string(), "same".to_string()]);
}

#[test]
fn a_snapshot_does_not_follow_the_log() {
    let mut log = MessageLog::new();
    log.append("one".to_string());
    let snapshot = log.snapshot();
    log.append("two".to_string());
    assert_eq!(snapshot, vec!["one".to_string()]);
    assert_eq!(log.len(), 2);
}

#[test]
fn the_log_keeps_any_text() {
    let mut log = MessageLog::new();
    let text = " tab\there\nnew line \"quoted\" \\ é 日本 \u{0}";
    log.append(text.to_string());
    log.append(String::new());
    assert_eq!(log.snapshot(), vec![text.to_string(), String::new()]);
}
