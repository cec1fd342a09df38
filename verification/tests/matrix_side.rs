use matrix_irc_bridge::config::BridgeConfig;
use matrix_irc_bridge::journal::{journal_line, load_processed_events, ProcessedEvents};
use matrix_irc_bridge::keyed::KeyedMap;
use matrix_irc_bridge::matrix_side::{
    FetchedMessage, IrcRelay, MatrixMessage, MatrixSide, PendingReply, Reaction,
};
use matrix_irc_bridge::replies::{RememberedMessage, ReplyCache};
use matrix_irc_bridge::rooms::RoomTable;

fn table() -> RoomTable {
    let configs = vec![
        BridgeConfig { matrix_room_id: "!a:x".to_string(), irc_channel: "#a".to_string() },
        BridgeConfig { matrix_room_id: "!b:x".to_string(), irc_channel: "#b".to_string() },
    ];
    let known = vec!["!a:x".to_string(), "!b:x".to_string()];
    RoomTable::build(&configs, &known).ok().unwrap()
}

fn side() -> MatrixSide {
    MatrixSide::new(table(), "@bridge:x".to_string(), ProcessedEvents::new())
}

fn message(event_id: &str, sender: &str, body: Option<&str>, reply_to: Option<&str>) -> MatrixMessage {
    MatrixMessage {
        room_id: "!a:x".to_string(),
        sender: sender.to_string(),
        event_id: event_id.to_string(),
        text: body.map(|s| s.to_string()),
        reply_to: reply_to.map(|s| s.to_string()),
    }
}

fn forwarded(reaction: Reaction) -> IrcRelay {
    match reaction {
        Reaction::Forward(relay) => relay,
        _ => panic!("nothing is forwarded"),
    }
}

fn fetching(reaction: Reaction) -> PendingReply {
    match reaction {
        Reaction::Fetch(pending) => pending,
        _ => panic!("nothing is fetched"),
    }
}

#[test]
fn text_is_forwarded_word_for_word() {
    let mut side = side();
    let relay = forwarded(side.receive(&message("$1", "@alice:x", Some("hello"), None)));
    assert_eq!(relay.irc_channel, "#a");
    assert_eq!(relay.username, "alice");
    assert_eq!(relay.message, "hello");
}

#[test]
fn unbridged_room_is_ignored() {
    let mut side = side();
    let mut m = message("$1", "@alice:x", Some("hello"), None);
    m.room_id = "!z:x".to_string();
    assert!(matches!(side.receive(&m), Reaction::Ignore));
    m.room_id = "!a:x".to_string();
    assert!(matches!(side.receive(&m), Reaction::Forward(_)));
}

#[test]
fn own_message_is_ignored() {
    let mut side = side();
    let m = message("$1", "@bridge:x", Some("<bob> hi"), None);
    assert!(matches!(side.receive(&m), Reaction::Ignore));
    let m = message("$1", "@alice:x", Some("hi"), None);
    assert!(matches!(side.receive(&m), Reaction::Forward(_)));
}

#[test]
fn event_is_processed_once() {
    let mut side = side();
    let m = message("$1", "@alice:x", Some("hello"), None);
    assert!(matches!(side.receive(&m), Reaction::Forward(_)));
    assert!(matches!(side.receive(&message("$2", "@bob:x", None, None)), Reaction::Record));
    assert!(!side.receive(&m).is_recorded());
    assert!(side.receive(&message("$3", "@bob:x", None, None)).is_recorded());
    assert!(matches!(side.receive(&m), Reaction::Ignore));
    assert!(matches!(side.receive(&message("$2", "@bob:x", Some("x"), None)), Reaction::Ignore));
}

#[test]
fn recorded_event_is_ignored_after_a_restart() {
    let data = journal_line("$1");
    let mut side =
        MatrixSide::new(table(), "@bridge:x".to_string(), load_processed_events(data.as_bytes()));
    assert!(matches!(side.receive(&message("$1", "@a:x", Some("x"), None)), Reaction::Ignore));
    assert!(matches!(side.receive(&message("$2", "@a:x", Some("x"), None)), Reaction::Forward(_)));
}

#[test]
fn recorded_event_is_ignored_beside_damaged_lines() {
    let mut data = b"\xff\xfe\n  \n".to_vec();
    data.extend_from_slice(journal_line("$1").as_bytes());
    data.extend_from_slice(b" $2 \n\xc3");
    let seen = load_processed_events(&data);
    let mut side = MatrixSide::new(table(), "@bridge:x".to_string(), seen);
    assert!(matches!(side.receive(&message("$1", "@a:x", Some("x"), None)), Reaction::Ignore));
    assert!(matches!(side.receive(&message("$3", "@a:x", Some("x"), None)), Reaction::Forward(_)));
}

#[test]
fn reply_quotes_what_was_said_long_before() {
    let mut side = side();
    side.receive(&message("$1", "@alice:x", Some("first"), None));
    for i in 2..500 {
        side.receive(&message(&format!("${}", i), "@eve:x", Some("noise"), None));
    }
    let pending = fetching(side.receive(&message("$r", "@bob:x", Some("a"), Some("$0"))));
    let fetched = FetchedMessage { sender: "@carol:x".to_string(), text: Some("zero".to_string()) };
    assert_eq!(side.complete(pending, Some(fetched)).message, "@carol \"zero\": a");
    let relay = forwarded(side.receive(&message("$s", "@bob:x", Some("b"), Some("$1"))));
    assert_eq!(relay.message, "@alice \"first\": b");
    let relay = forwarded(side.receive(&message("$t", "@bob:x", Some("c"), Some("$0"))));
    assert_eq!(relay.message, "@carol \"zero\": c");
}

#[test]
fn reply_quotes_as_long_as_there_is_room() {
    let mut side = side();
    side.receive(&message("$first", "@alice:x", Some("first"), None));
    let pending = fetching(side.receive(&message("$r", "@bob:x", Some("a"), Some("$0"))));
    let fetched = FetchedMessage { sender: "@carol:x".to_string(), text: Some("zero".to_string()) };
    side.complete(pending, Some(fetched));
    for i in 3..998 {
        side.receive(&message(&format!("${}", i), "@eve:x", Some("noise"), None));
    }
    let relay = forwarded(side.receive(&message("$s", "@bob:x", Some("b"), Some("$first"))));
    assert_eq!(relay.message, "@alice \"first\": b");
    let relay = forwarded(side.receive(&message("$t", "@bob:x", Some("c"), Some("$0"))));
    assert_eq!(relay.message, "@carol \"zero\": c");
}

#[test]
fn reply_quotes_a_remembered_message() {
    let mut side = side();
    let long = "y".repeat(60);
    side.receive(&message("$1", "@alice:x", Some(&long), None));
    let relay = forwarded(side.receive(&message("$2", "@bob:x", Some("indeed"), Some("$1"))));
    assert_eq!(relay.username, "bob");
    assert_eq!(relay.message, format!("@alice \"{}...\": indeed", "y".repeat(50)));
}

#[test]
fn reply_to_an_unknown_message_is_fetched() {
    let mut side = side();
    let pending = fetching(side.receive(&message("$2", "@bob:x", Some("indeed"), Some("$0"))));
    assert_eq!(pending.irc_channel, "#a");
    assert_eq!(pending.username, "bob");
    assert_eq!(pending.body, "indeed");
    assert_eq!(pending.reply_to, "$0");
    let fetched =
        FetchedMessage { sender: "@alice:x".to_string(), text: Some("hello".to_string()) };
    let relay = side.complete(pending, Some(fetched));
    assert_eq!(relay.irc_channel, "#a");
    assert_eq!(relay.username, "bob");
    assert_eq!(relay.message, "@alice \"hello\": indeed");
    let relay = forwarded(side.receive(&message("$3", "@eve:x", Some("no"), Some("$0"))));
    assert_eq!(relay.message, "@alice \"hello\": no");
}

#[test]
fn reply_to_something_that_is_no_text() {
    let mut side = side();
    let pending = fetching(side.receive(&message("$2", "@bob:x", Some("nice"), Some("$0"))));
    let relay =
        side.complete(pending, Some(FetchedMessage { sender: "@alice:x".to_string(), text: None }));
    assert_eq!(relay.message, "@alice: nice");
    assert!(matches!(
        side.receive(&message("$3", "@eve:x", Some("no"), Some("$0"))),
        Reaction::Fetch(_)
    ));
}

#[test]
fn reply_to_something_that_cannot_be_fetched() {
    let mut side = side();
    let pending = fetching(side.receive(&message("$2", "@bob:x", Some("nice"), Some("$0"))));
    assert_eq!(side.complete(pending, None).message, "[replying] nice");
}

#[test]
fn destination_of_a_channel() {
    let side = side();
    assert_eq!(side.destination("#b").as_deref(), Some("!b:x"));
    assert_eq!(side.destination("bridge_listener"), None);
}

fn remembered(user: &str) -> RememberedMessage {
    RememberedMessage { user: user.to_string(), preview: "p".to_string() }
}

#[test]
fn reply_cache_is_bounded() {
    let mut cache = ReplyCache::new();
    for i in 0..1000 {
        cache.remember(format!("${}", i), remembered("u"));
    }
    assert_eq!(cache.len(), 1000);
    for i in 0..1000 {
        assert!(cache.get(&format!("${}", i)).is_some());
    }
    cache.add("$x".to_string(), remembered("v"));
    assert_eq!(cache.len(), 1001);
    assert_eq!(cache.get("$x").unwrap().user, "v");
    cache.remember("$y".to_string(), remembered("w"));
    assert_eq!(cache.len(), 1000);
}

#[test]
fn remembering_again_replaces() {
    let mut cache = ReplyCache::new();
    cache.remember("$1".to_string(), remembered("u"));
    cache.remember("$1".to_string(), remembered("v"));
    assert_eq!(cache.len(), 1);
    assert_eq!(cache.get("$1").unwrap().user, "v");
    assert!(cache.get("$2").is_none());
}

#[test]
fn keyed_map_lists_its_keys() {
    let mut m: KeyedMap<u8> = KeyedMap::new();
    assert!(m.any_key().is_none());
    m.insert("a".to_string(), 1);
    m.insert("b".to_string(), 2);
    m.insert("a".to_string(), 3);
    assert_eq!(m.len(), 2);
    assert_eq!(m.get("a"), Some(&3));
    assert!(m.contains_key(&m.any_key().unwrap()));
    let mut keys = m.keys();
    keys.sort();
    assert_eq!(keys, vec!["a".to_string(), "b".to_string()]);
    m.remove("a");
    m.remove("z");
    assert_eq!(m.keys(), vec!["b".to_string()]);
    assert!(!m.contains_key("a"));
}
