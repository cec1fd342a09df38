use matrix_irc_bridge::config::{BridgeConfig, Settings};
use matrix_irc_bridge::rooms::RoomTable;
use matrix_irc_bridge::session::{
    bridged_room, homeserver_for, homeserver_url, open_session, session_for, SetupError,
};

fn settings(user_id: &str, homeserver: &str, device_id: Option<&str>) -> Settings {
    Settings {
        access_token: "token".to_string(),
        user_id: user_id.to_string(),
        device_id: device_id.map(|s| s.to_string()),
        homeserver: homeserver.to_string(),
        irc_password: None,
        irc_server: "irc.example.net".to_string(),
        irc_port: 6697,
        irc_use_tls: true,
        bridges: vec![],
    }
}

fn bridge(room: &str, channel: &str) -> BridgeConfig {
    BridgeConfig { matrix_room_id: room.to_string(), irc_channel: channel.to_string() }
}

fn names(list: &[&str]) -> Vec<String> {
    list.iter().map(|s| s.to_string()).collect()
}

#[test]
fn homeserver_is_a_url() {
    let s = settings("@b:x", "HTTPS://Example.org", None);
    assert_eq!(homeserver_url(&s).unwrap(), "https://example.org/");
}

#[test]
fn homeserver_must_be_a_url() {
    let s = settings("@b:x", "example.org", None);
    let e = homeserver_url(&s).unwrap_err();
    assert!(matches!(e, SetupError::BadHomeserver(_)));
    assert_eq!(e.message(), "relative URL without a base");
}

#[test]
fn homeserver_for_a_checked_url() {
    assert_eq!(homeserver_for(Ok("https://x/".to_string())).unwrap(), "https://x/");
    let e = homeserver_for(Err("reason".to_string())).unwrap_err();
    assert!(matches!(e, SetupError::BadHomeserver(_)));
    assert_eq!(e.message(), "reason");
}

#[test]
fn session_of_the_account() {
    let s = open_session(&settings("@bridge:example.org", "", Some("DEV"))).unwrap();
    assert_eq!(s.user_id, "@bridge:example.org");
    assert_eq!(s.device_id, "DEV");
    assert_eq!(s.access_token, "token");
}

#[test]
fn default_device() {
    let s = open_session(&settings("@bridge:example.org:8448", "", None)).unwrap();
    assert_eq!(s.device_id, "BRIDGE_DEVICE");
}

#[test]
fn malformed_user_ids() {
    for (id, message) in [
        ("", "leading sigil is incorrect or missing"),
        ("bridge:example.org", "leading sigil is incorrect or missing"),
        ("@bridge", "required colon is missing"),
        ("@bridge:", "server name is not a valid IP address or domain name"),
        ("@bridge:exa mple.org", "server name is not a valid IP address or domain name"),
        ("@bridge:example.org:port", "server name is not a valid IP address or domain name"),
        ("@bridge:[::1", "server name is not a valid IP address or domain name"),
    ] {
        let e = open_session(&settings(id, "", None)).unwrap_err();
        assert!(matches!(e, SetupError::BadUserId(_)));
        assert_eq!(e.message(), message, "{}", id);
    }
}

#[test]
fn unusual_user_ids_are_accepted() {
    for id in ["@:example.org", "@\u{e9}:example.org", "@b:[::1]:8448", "@b:1.2.3.4"] {
        assert_eq!(open_session(&settings(id, "", None)).unwrap().user_id, id);
    }
    let long = format!("@{}:example.org", "x".repeat(300));
    assert_eq!(open_session(&settings(&long, "", None)).unwrap().user_id, long);
}

#[test]
fn server_name_is_a_host_and_a_port() {
    for server in ["a-B.9", "x:0", "x:65535", "x:+80", ":80", "-", "."] {
        let id = format!("@b:{}", server);
        assert_eq!(open_session(&settings(&id, "", None)).unwrap().user_id, id);
    }
    for server in ["a_b", "x:", "x:65536", "x:-1", "x:1:2", "\u{e9}", ":"] {
        let id = format!("@b:{}", server);
        let e = open_session(&settings(&id, "", None)).unwrap_err();
        assert_eq!(e.message(), "server name is not a valid IP address or domain name", "{}", id);
    }
}

#[test]
fn session_for_a_checked_user() {
    let s = settings("ignored", "", None);
    let session = session_for(Ok("@u:x".to_string()), &s).unwrap();
    assert_eq!(session.user_id, "@u:x");
    let e = session_for(Err("reason".to_string()), &s).unwrap_err();
    assert_eq!(e.message(), "reason");
}

#[test]
fn room_ids_begin_with_an_exclamation_mark() {
    assert_eq!(bridged_room(&bridge("!r:example.org", "#c")).unwrap(), "!r:example.org");
    assert_eq!(bridged_room(&bridge("!", "#c")).unwrap(), "!");
    let long = format!("!{}", "x".repeat(300));
    assert_eq!(bridged_room(&bridge(&long, "#c")).unwrap(), long);
    for room in ["", "r:example.org", "#r:example.org"] {
        let e = bridged_room(&bridge(room, "#c")).unwrap_err();
        assert!(matches!(e, SetupError::BadRoomId(_)));
        assert_eq!(e.message(), "leading sigil is incorrect or missing");
    }
}

#[test]
fn table_links_both_ways() {
    let configs = vec![bridge("!a:x", "#a"), bridge("!b:x", "#b")];
    let table = RoomTable::build(&configs, &names(&["!b:x", "!z:x", "!a:x"])).ok().unwrap();
    assert_eq!(table.channel_for("!a:x").as_deref(), Some("#a"));
    assert_eq!(table.channel_for("!b:x").as_deref(), Some("#b"));
    assert_eq!(table.room_for("#a").as_deref(), Some("!a:x"));
    assert_eq!(table.room_for("#b").as_deref(), Some("!b:x"));
    assert_eq!(table.channel_for("!z:x"), None);
    assert_eq!(table.room_for("#z"), None);
}

#[test]
fn later_bridge_of_a_channel_counts() {
    let configs = vec![bridge("!a:x", "#c"), bridge("!b:x", "#c"), bridge("!a:x", "#d")];
    let table = RoomTable::build(&configs, &names(&["!a:x", "!b:x"])).ok().unwrap();
    assert_eq!(table.room_for("#c").as_deref(), Some("!b:x"));
    assert_eq!(table.channel_for("!a:x").as_deref(), Some("#d"));
    assert_eq!(table.channel_for("!b:x").as_deref(), Some("#c"));
    assert_eq!(table.room_for("#d").as_deref(), Some("!a:x"));
}

#[test]
fn first_faulty_bridge_is_reported() {
    let configs = vec![bridge("!a:x", "#a"), bridge("!b:x", "#b"), bridge("c:x", "#c")];
    let e = RoomTable::build(&configs, &names(&["!a:x"])).err().unwrap();
    assert_eq!(e.message(), "Room !b:x not found");
    let e = RoomTable::build(&configs, &names(&["!a:x", "!b:x", "c:x"])).err().unwrap();
    assert_eq!(e.message(), "leading sigil is incorrect or missing");
}
