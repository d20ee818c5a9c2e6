use devenv_cloud::logger::{Log, LogLineKey, LogStore};

fn line(msg: &str) -> Log {
    Log {
        message: msg.to_string(),
        timestamp: "2024-01-01T00:00:00Z".to_string(),
        level: "INFO".to_string(),
    }
}

#[test]
fn test_log_ordering_across_two_posts() {
    // Post ["a","b","c"], open a reader, post ["d","e"]: the reader
    // observes exactly a..e with lines 1..5, no duplicates or gaps.
    let mut store = LogStore::new();
    let session: u128 = 42;
    let count = store.post_lines(session, &vec![line("a"), line("b"), line("c")]);
    assert_eq!(count, 3);

    let first_read = store.read_from(session, 0);
    assert_eq!(first_read.len(), 3);

    let count = store.post_lines(session, &vec![line("d"), line("e")]);
    assert_eq!(count, 5);

    let records = store.read_from(session, 0);
    let messages: Vec<&str> = records.iter().map(|r| r.message.as_str()).collect();
    assert_eq!(messages, vec!["a", "b", "c", "d", "e"]);
    for (i, r) in records.iter().enumerate() {
        assert_eq!(r.line, (i + 1) as u64);
    }
}

#[test]
fn test_reader_resumes_from_cursor() {
    let mut store = LogStore::new();
    let session: u128 = 7;
    store.post_lines(session, &vec![line("a"), line("b"), line("c")]);
    let tail = store.read_from(session, 2);
    assert_eq!(tail.len(), 1);
    assert_eq!(tail[0].message, "c");
    assert_eq!(tail[0].line, 3);
}

#[test]
fn test_sessions_are_isolated() {
    let mut store = LogStore::new();
    store.post_lines(1, &vec![line("a")]);
    store.post_lines(2, &vec![line("x"), line("y")]);
    assert_eq!(store.read_from(1, 0).len(), 1);
    assert_eq!(store.read_from(2, 0).len(), 2);
    assert!(store.read_from(3, 0).is_empty());
}

#[test]
fn test_log_line_key_format() {
    // "{uuid}-{line:016x}": the fixed width keeps key order equal to
    // line order.
    let uuid: u128 = 0x0123456789abcdef0123456789abcdef;
    let key = LogLineKey::from_parts(uuid, 255);
    assert_eq!(
        key.key_string(),
        "01234567-89ab-cdef-0123-456789abcdef-00000000000000ff"
    );
    assert_eq!(key.as_bytes(), key.key_string().into_bytes());
}

#[test]
fn test_log_line_key_increment_and_range() {
    let key_a = LogLineKey::from_parts(9, 10);
    let mut key_b = LogLineKey::from_parts(9, 10);
    key_b.increment();
    assert_eq!(key_b.log_line(), 11);
    // larger lines sort later, and the range maximum bounds them all
    assert!(key_a.as_bytes() < key_b.as_bytes());
    assert!(key_b.as_bytes() < key_a.range_max());
}
