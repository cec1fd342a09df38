use matrix_irc_bridge::config::{
    channel_key, env_var, load_bridge_configs, load_settings, parse_bool, room_key, ConfigError,
    EnvVar,
};

fn var(name: &str, value: &str) -> EnvVar {
    EnvVar { name: name.to_string(), value: Some(value.to_string()) }
}

fn documented_env() -> Vec<EnvVar> {
    vec![
        var("MATRIX_ACCESS_TOKEN", "your_matrix_access_token"),
        var("MATRIX_USER_ID", "@bridge:example.org"),
        var("MATRIX_DEVICE_ID", "BRIDGE_DEVICE"),
        var("MATRIX_HOMESERVER", "https://example.org"),
        var("IRC_SERVER", "irc.example.net"),
        var("IRC_PORT", "6697"),
        var("IRC_USE_TLS", "true"),
        var("IRC_SERVER_PASSWORD", "your_irc_password"),
        var("BRIDGE_1_MATRIX_ROOM_ID", "!roomid1:example.org"),
        var("BRIDGE_1_IRC_CHANNEL", "#channel1"),
        var("BRIDGE_2_MATRIX_ROOM_ID", "!roomid2:example.org"),
        var("BRIDGE_2_IRC_CHANNEL", "#channel2"),
    ]
}

fn without(name: &str) -> Vec<EnvVar> {
    let mut env = documented_env();
    env.retain(|v| v.name != name);
    env
}

fn with(name: &str, value: &str) -> Vec<EnvVar> {
    let mut env = without(name);
    env.push(var(name, value));
    env
}

fn error_of(env: Vec<EnvVar>) -> ConfigError {
    match load_settings(&env) {
        Ok(_) => panic!("the settings are complete"),
        Err(e) => e,
    }
}

#[test]
fn documented_configuration_is_read() {
    let s = load_settings(&documented_env()).unwrap();
    assert_eq!(s.access_token, "your_matrix_access_token");
    assert_eq!(s.user_id, "@bridge:example.org");
    assert_eq!(s.device_id.as_deref(), Some("BRIDGE_DEVICE"));
    assert_eq!(s.homeserver, "https://example.org");
    assert_eq!(s.irc_password.as_deref(), Some("your_irc_password"));
    assert_eq!(s.irc_server, "irc.example.net");
    assert_eq!(s.irc_port, 6697);
    assert!(s.irc_use_tls);
    assert_eq!(s.bridges.len(), 2);
    assert_eq!(s.bridges[0].matrix_room_id, "!roomid1:example.org");
    assert_eq!(s.bridges[0].irc_channel, "#channel1");
    assert_eq!(s.bridges[1].matrix_room_id, "!roomid2:example.org");
    assert_eq!(s.bridges[1].clone().irc_channel, "#channel2");
}

#[test]
fn device_and_password_are_optional() {
    let s = load_settings(&without("MATRIX_DEVICE_ID")).unwrap();
    assert_eq!(s.device_id, None);
    let s = load_settings(&without("IRC_SERVER_PASSWORD")).unwrap();
    assert_eq!(s.irc_password, None);
}

#[test]
fn every_configuration_error() {
    assert_eq!(error_of(without("MATRIX_ACCESS_TOKEN")), ConfigError::NoAccessToken);
    assert_eq!(error_of(without("MATRIX_USER_ID")), ConfigError::NoUserId);
    assert_eq!(error_of(without("MATRIX_HOMESERVER")), ConfigError::NoHomeserver);
    assert_eq!(error_of(without("IRC_SERVER")), ConfigError::NoIrcServer);
    assert_eq!(error_of(without("IRC_PORT")), ConfigError::NoIrcPort);
    assert_eq!(error_of(with("IRC_PORT", "70000")), ConfigError::BadIrcPort);
    assert_eq!(error_of(without("IRC_USE_TLS")), ConfigError::NoIrcUseTls);
    assert_eq!(error_of(with("IRC_USE_TLS", "yes")), ConfigError::BadIrcUseTls);
    assert_eq!(error_of(without("BRIDGE_1_IRC_CHANNEL")), ConfigError::NoBridges);
    assert_eq!(error_of(vec![]), ConfigError::NoAccessToken);
}

#[test]
fn configuration_error_messages() {
    assert_eq!(
        ConfigError::NoAccessToken.message(),
        "MATRIX_ACCESS_TOKEN environment variable not set"
    );
    assert_eq!(ConfigError::NoUserId.message(), "MATRIX_USER_ID environment variable not set");
    assert_eq!(
        ConfigError::NoHomeserver.message(),
        "MATRIX_HOMESERVER environment variable not set (e.g., https://matrix.org)"
    );
    assert_eq!(ConfigError::NoIrcServer.message(), "IRC_SERVER environment variable not set");
    assert_eq!(ConfigError::NoIrcPort.message(), "IRC_PORT environment variable not set");
    assert_eq!(ConfigError::BadIrcPort.message(), "IRC_PORT must be a valid port number");
    assert_eq!(
        ConfigError::NoIrcUseTls.message(),
        "IRC_USE_TLS environment variable not set (true/false)"
    );
    assert_eq!(ConfigError::BadIrcUseTls.message(), "IRC_USE_TLS must be true or false");
    assert_eq!(
        ConfigError::NoBridges.message(),
        "No bridge configurations found. Set BRIDGE_1_MATRIX_ROOM_ID and BRIDGE_1_IRC_CHANNEL environment variables"
    );
}

#[test]
fn bridges_end_at_the_first_gap() {
    let mut env = documented_env();
    env.push(var("BRIDGE_3_MATRIX_ROOM_ID", "!three:example.org"));
    env.push(var("BRIDGE_4_MATRIX_ROOM_ID", "!four:example.org"));
    env.push(var("BRIDGE_4_IRC_CHANNEL", "#four"));
    assert_eq!(load_bridge_configs(&env).unwrap().len(), 2);
}

#[test]
fn more_than_nine_bridges() {
    let mut env = vec![];
    for i in 1..=12 {
        env.push(var(&format!("BRIDGE_{}_IRC_CHANNEL", i), &format!("#c{}", i)));
        env.push(var(&format!("BRIDGE_{}_MATRIX_ROOM_ID", i), &format!("!r{}", i)));
    }
    let bridges = load_bridge_configs(&env).unwrap();
    assert_eq!(bridges.len(), 12);
    assert_eq!(bridges[11].irc_channel, "#c12");
    assert_eq!(bridges[9].matrix_room_id, "!r10");
}

#[test]
fn keys_of_bridges() {
    assert_eq!(room_key(1), "BRIDGE_1_MATRIX_ROOM_ID");
    assert_eq!(channel_key(10), "BRIDGE_10_IRC_CHANNEL");
}

#[test]
fn first_entry_of_a_name_counts() {
    let env = vec![var("A", "1"), var("A", "2")];
    assert_eq!(env_var(&env, "A").as_deref(), Some("1"));
    let env = vec![EnvVar { name: "A".to_string(), value: None }, var("A", "2")];
    assert_eq!(env_var(&env, "A"), None);
    assert_eq!(env_var(&env, "a"), None);
}

#[test]
fn booleans_are_spelled_in_lower_case() {
    assert_eq!(parse_bool("true"), Some(true));
    assert_eq!(parse_bool("false"), Some(false));
    assert_eq!(parse_bool("True"), None);
    assert_eq!(parse_bool(""), None);
    assert_eq!(parse_bool("1"), None);
}
