use matrix_irc_bridge::config::{BridgeConfig, Settings};
use matrix_irc_bridge::irc_side::{IrcSide, SendAction, SendEvent};
use matrix_irc_bridge::matrix_side::IrcRelay;

const SECOND: u128 = 1_000_000_000;

fn irc_settings() -> Settings {
    Settings {
        access_token: "token".to_string(),
        user_id: "@bridge:x".to_string(),
        device_id: None,
        homeserver: "https://x".to_string(),
        irc_password: Some("secret".to_string()),
        irc_server: "irc.example.net".to_string(),
        irc_port: 6697,
        irc_use_tls: true,
        bridges: vec![
            BridgeConfig { matrix_room_id: "!a:x".to_string(), irc_channel: "#a".to_string() },
            BridgeConfig { matrix_room_id: "!b:x".to_string(), irc_channel: "#b".to_string() },
        ],
    }
}

fn irc_side() -> IrcSide<u32> {
    IrcSide::new(&irc_settings())
}

fn relay(username: &str, message: &str) -> IrcRelay {
    IrcRelay {
        irc_channel: "#a".to_string(),
        username: username.to_string(),
        message: message.to_string(),
    }
}

fn heard(
    side: &mut IrcSide<u32>,
    target: &str,
    nickname: Option<&str>,
    message: &str,
    now: u128,
) -> Option<(String, String, String)> {
    side.hear(&target.to_string(), nickname.map(|s| s.to_string()), &message.to_string(), now)
        .map(|r| (r.irc_channel, r.username, r.message))
}

fn triple(a: &str, b: &str, c: &str) -> Option<(String, String, String)> {
    Some((a.to_string(), b.to_string(), c.to_string()))
}

#[test]
fn listener_joins_all_channels() {
    let login = irc_side().listener_login();
    assert_eq!(login.nickname, "bridge_listener");
    assert_eq!(login.server, "irc.example.net");
    assert_eq!(login.port, 6697);
    assert!(login.use_tls);
    assert_eq!(login.channels, vec!["#a".to_string(), "#b".to_string()]);
    assert_eq!(login.password.as_deref(), Some("secret"));
}

fn speaks(side: &mut IrcSide<u32>, username: &str) {
    side.start_send(username);
}

fn sent(side: &mut IrcSide<u32>, relay: &IrcRelay, now: u128) {
    assert!(matches!(side.resume_send(relay, SendEvent::Transmitted(now)), SendAction::Done));
}

fn connects(side: &mut IrcSide<u32>, username: &str, connection: u32) {
    let relay = relay(username, "");
    assert!(matches!(
        side.resume_send(&relay, SendEvent::Connected(connection)),
        SendAction::Transmit
    ));
}

#[test]
fn user_without_connection_logs_in() {
    let mut side = irc_side();
    match side.start_send("alice") {
        SendAction::Connect(login) => {
            assert_eq!(login.nickname, "alice");
            assert_eq!(login.channels.len(), 2);
            assert_eq!(login.server, "irc.example.net");
        }
        _ => panic!("alice has no connection"),
    }
    assert!(side.connection("alice").is_none());
    connects(&mut side, "alice", 7);
    assert!(matches!(side.start_send("alice"), SendAction::Transmit));
    assert_eq!(side.connection("alice"), Some(&7));
    assert!(matches!(side.start_send("bob"), SendAction::Connect(_)));
}

#[test]
fn failed_attempt_changes_nothing() {
    let mut side = irc_side();
    speaks(&mut side, "alice");
    let relay = relay("alice", "hello");
    assert!(matches!(side.resume_send(&relay, SendEvent::Failed), SendAction::Done));
    assert!(matches!(side.start_send("alice"), SendAction::Connect(_)));
    assert!(heard(&mut side, "#a", Some("alice"), "hello", 1).is_some());
}

#[test]
fn finished_connections_are_dropped() {
    let mut side = irc_side();
    connects(&mut side, "alice", 1);
    connects(&mut side, "bob", 2);
    connects(&mut side, "eve", 3);
    let mut users = side.connected_users();
    users.sort();
    assert_eq!(users, vec!["alice".to_string(), "bob".to_string(), "eve".to_string()]);
    let finished = vec!["eve".to_string(), "alice".to_string(), "zoe".to_string()];
    assert_eq!(side.drop_connections(&finished), 2);
    assert_eq!(side.connected_users(), vec!["bob".to_string()]);
    assert_eq!(side.drop_connections(&vec![]), 0);
    assert!(matches!(side.start_send("alice"), SendAction::Connect(_)));
    assert!(matches!(side.start_send("bob"), SendAction::Transmit));
}

#[test]
fn message_from_irc_is_quoted() {
    let mut side = irc_side();
    assert_eq!(heard(&mut side, "#a", Some("bob"), "hi", 0), triple("#a", "bob", "<bob> hi"));
    assert_eq!(heard(&mut side, "#a", None, "hi", 0), triple("#a", "Unknown", "<Unknown> hi"));
}

#[test]
fn echo_within_five_seconds_is_ignored() {
    let mut side = irc_side();
    speaks(&mut side, "alice");
    sent(&mut side, &relay("alice", "hello"), 10 * SECOND);
    assert_eq!(heard(&mut side, "#a", Some("alice"), "hello", 10 * SECOND), None);
    assert_eq!(heard(&mut side, "#a", Some("alice"), "hello", 15 * SECOND - 1), None);
    assert_eq!(
        heard(&mut side, "#a", Some("alice"), "hello", 15 * SECOND),
        triple("#a", "alice", "<alice> hello")
    );
    assert_eq!(
        heard(&mut side, "#a", Some("alice"), "hello", 11 * SECOND),
        triple("#a", "alice", "<alice> hello")
    );
}

#[test]
fn only_the_same_message_is_an_echo() {
    let mut side = irc_side();
    speaks(&mut side, "alice");
    speaks(&mut side, "bob");
    sent(&mut side, &relay("alice", "hello"), 0);
    assert!(heard(&mut side, "#b", Some("alice"), "hello", 1).is_some());
    assert!(heard(&mut side, "#a", Some("bob"), "hello", 1).is_some());
    assert!(heard(&mut side, "#a", Some("alice"), "hello!", 1).is_some());
    assert!(heard(&mut side, "#a", Some("alice"), "hello", 1).is_none());
}

#[test]
fn stranger_is_always_heard() {
    let mut side = irc_side();
    sent(&mut side, &relay("alice", "hello"), 0);
    assert!(heard(&mut side, "#a", Some("alice"), "hello", 1).is_some());
    speaks(&mut side, "alice");
    assert!(heard(&mut side, "#a", Some("alice"), "hello", 1).is_none());
}

#[test]
fn one_hundred_messages_are_kept() {
    let mut side = irc_side();
    speaks(&mut side, "alice");
    sent(&mut side, &relay("alice", "first"), 0);
    for i in 0..99 {
        sent(&mut side, &relay("alice", &format!("m{}", i)), 0);
    }
    assert!(heard(&mut side, "#a", Some("alice"), "first", 1).is_none());
    sent(&mut side, &relay("alice", "last"), 0);
    assert!(heard(&mut side, "#a", Some("alice"), "first", 1).is_some());
    assert!(heard(&mut side, "#a", Some("alice"), "m0", 1).is_none());
    assert!(heard(&mut side, "#a", Some("alice"), "last", 1).is_none());
}

#[test]
fn message_from_the_future_is_fresh() {
    let mut side = irc_side();
    speaks(&mut side, "alice");
    sent(&mut side, &relay("alice", "hello"), 100 * SECOND);
    assert!(heard(&mut side, "#a", Some("alice"), "hello", 0).is_none());
}

#[test]
fn echo_over_a_history() {
    let mut side = irc_side();
    speaks(&mut side, "alice");
    speaks(&mut side, "bob");
    for i in 0..60 {
        sent(&mut side, &relay("alice", &format!("a{}", i)), SECOND);
    }
    assert!(heard(&mut side, "#a", Some("bob"), "noise", 3 * SECOND).is_some());
    for i in 0..60 {
        sent(&mut side, &relay("bob", &format!("b{}", i)), 4 * SECOND);
    }
    let now = 6 * SECOND - 1;
    assert!(heard(&mut side, "#a", Some("alice"), "a19", now).is_some());
    assert!(heard(&mut side, "#a", Some("alice"), "a20", now).is_none());
    assert!(heard(&mut side, "#a", Some("bob"), "b59", now).is_none());
    assert!(heard(&mut side, "#a", Some("alice"), "a20", now + 1).is_some());
    assert!(heard(&mut side, "#a", Some("bob"), "b0", now + 1).is_none());
}
