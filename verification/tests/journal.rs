use std::io::BufRead;

use matrix_irc_bridge::journal::{journal_line, load_processed_events, ProcessedEvents};

#[test]
fn empty_journal_holds_nothing() {
    assert_eq!(load_processed_events(b"").len(), 0);
    assert_eq!(ProcessedEvents::new().len(), 0);
}

#[test]
fn journal_gives_back_what_was_recorded() {
    let ids = ["$a:example.org", "$b", "$c\u{e9}", "$b"];
    let mut data: Vec<u8> = Vec::new();
    for id in ids {
        data.extend_from_slice(journal_line(id).as_bytes());
    }
    let events = load_processed_events(&data);
    assert_eq!(events.len(), 3);
    for id in ids {
        assert!(events.contains(id));
    }
    assert!(!events.contains("$d"));
    assert!(!events.contains(""));
}

#[test]
fn journal_line_ends_with_a_newline() {
    assert_eq!(journal_line("$a"), "$a\n");
}

#[test]
fn lines_are_trimmed() {
    let events = load_processed_events(b"  $a \r\n$b\t\n");
    assert_eq!(events.len(), 2);
    assert!(events.contains("$a"));
    assert!(events.contains("$b"));
}

#[test]
fn last_line_needs_no_newline() {
    let events = load_processed_events(b"$a\n$b");
    assert_eq!(events.len(), 2);
    assert!(events.contains("$b"));
}

#[test]
fn blank_line_is_an_empty_id() {
    let events = load_processed_events(b"$a\n\n$b\n");
    assert_eq!(events.len(), 3);
    assert!(events.contains(""));
}

#[test]
fn lines_that_are_not_text_are_skipped() {
    let events = load_processed_events(b"$a\n\xff\xfe\n$b\n");
    assert_eq!(events.len(), 2);
    assert!(events.contains("$a"));
    assert!(events.contains("$b"));
}

#[test]
fn journal_agrees_with_std_lines() {
    for data in [
        &b"$a\r\n$b\n"[..],
        b"\n\n",
        b"$a\r",
        b"\xc3\n$x\n\xc3\xa9\n",
        b"\r\n \n$a$b\n",
        b"\x0b$v\x0c\n\xe2\x80\x83$w",
    ] {
        let mut expected: Vec<String> = std::io::Cursor::new(data)
            .lines()
            .filter_map(|line| line.ok())
            .map(|line| line.trim().to_string())
            .collect();
        expected.sort();
        expected.dedup();
        let events = load_processed_events(data);
        assert_eq!(events.len(), expected.len());
        for id in &expected {
            assert!(events.contains(id));
        }
    }
}

#[test]
fn inserted_event_is_contained() {
    let mut events = ProcessedEvents::new();
    events.insert("$a".to_string());
    events.insert("$a".to_string());
    assert_eq!(events.len(), 1);
    assert!(events.contains("$a"));
}

#[test]
fn recorded_id_is_read_back_trimmed() {
    let mut data = journal_line("$a").into_bytes();
    data.extend_from_slice(journal_line(" \t$b\u{3000}").as_bytes());
    data.extend_from_slice(journal_line("  ").as_bytes());
    let events = load_processed_events(&data);
    assert_eq!(events.len(), 3);
    assert!(events.contains("$a"));
    assert!(events.contains("$b"));
    assert!(events.contains(""));
    assert!(!events.contains(" \t$b\u{3000}"));
}

#[test]
fn recorded_id_stays_whatever_follows() {
    for rest in [&b""[..], b"\xff\xfe", b"$b", b"\n\n", b"\r\n\xc3"] {
        let mut data = b"\xff\n \n".to_vec();
        data.extend_from_slice(journal_line("$a").as_bytes());
        data.extend_from_slice(rest);
        assert!(load_processed_events(&data).contains("$a"));
    }
}
