//! The bridge's configuration, read from a snapshot of the environment variables.

use crate::numeral;
use crate::text;
use vstd::prelude::*;
use vstd::set_lib::*;
use vstd::string::*;

verus! {

/// One environment variable; `value` is `None` where the value is not valid Unicode.
#[derive(Debug)]
pub struct EnvVar {
    pub name: String,
    pub value: Option<String>,
}

/// The readable value of the variable `name`: that of the first entry of this name.
pub open spec fn env_value(env: Seq<EnvVar>, name: Seq<char>) -> Option<Seq<char>>
    decreases env.len(),
{
    if env.len() == 0 {
        None
    } else if env[0].name@ == name {
        text::text_of(env[0].value)
    } else {
        env_value(env.drop_first(), name)
    }
}

/// Looks a variable up in the environment.
pub fn env_var(env: &Vec<EnvVar>, name: &str) -> (value: Option<String>)
    ensures
        text::text_of(value) == env_value(env@, name@),
{
    let wanted: String = name.to_owned();
    let mut i: usize = 0;
    assert(env@.skip(0) =~= env@);
    while i < env.len()
        invariant
            i <= env.len(),
            wanted@ == name@,
            env_value(env@, name@) == env_value(env@.skip(i as int), name@),
        decreases env.len() - i,
    {
        if env[i].name == wanted {
            return env[i].value.clone();
        }
        assert(env@.skip(i as int).drop_first() =~= env@.skip(i + 1));
        i += 1;
    }
    None
}

/// A link between one Matrix room and one IRC channel.
#[derive(Debug)]
pub struct BridgeConfig {
    pub matrix_room_id: String,
    pub irc_channel: String,
}

impl Clone for BridgeConfig {
    fn clone(&self) -> (copy: Self)
        ensures
            copy == *self,
    {
        BridgeConfig {
            matrix_room_id: self.matrix_room_id.clone(),
            irc_channel: self.irc_channel.clone(),
        }
    }
}

/// What is wrong with the configuration.
#[derive(Clone, Copy, Debug, PartialEq, Eq, Structural)]
pub enum ConfigError {
    NoAccessToken,
    NoUserId,
    NoHomeserver,
    NoIrcServer,
    NoIrcPort,
    BadIrcPort,
    NoIrcUseTls,
    BadIrcUseTls,
    NoBridges,
}

/// The message for each configuration error.
pub open spec fn config_error_text(e: ConfigError) -> Seq<char> {
    match e {
        ConfigError::NoAccessToken => "MATRIX_ACCESS_TOKEN environment variable not set"@,
        ConfigError::NoUserId => "MATRIX_USER_ID environment variable not set"@,
        ConfigError::NoHomeserver =>
            "MATRIX_HOMESERVER environment variable not set (e.g., https://matrix.org)"@,
        ConfigError::NoIrcServer => "IRC_SERVER environment variable not set"@,
        ConfigError::NoIrcPort => "IRC_PORT environment variable not set"@,
        ConfigError::BadIrcPort => "IRC_PORT must be a valid port number"@,
        ConfigError::NoIrcUseTls => "IRC_USE_TLS environment variable not set (true/false)"@,
        ConfigError::BadIrcUseTls => "IRC_USE_TLS must be true or false"@,
        ConfigError::NoBridges =>
            "No bridge configurations found. Set BRIDGE_1_MATRIX_ROOM_ID and BRIDGE_1_IRC_CHANNEL environment variables"@,
    }
}

impl ConfigError {
    /// The message to show to the operator.
    pub fn message(self) -> (m: String)
        ensures
            m@ == config_error_text(self),
    {
        let m: &str = match self {
            ConfigError::NoAccessToken => "MATRIX_ACCESS_TOKEN environment variable not set",
            ConfigError::NoUserId => "MATRIX_USER_ID environment variable not set",
            ConfigError::NoHomeserver =>
                "MATRIX_HOMESERVER environment variable not set (e.g., https://matrix.org)",
            ConfigError::NoIrcServer => "IRC_SERVER environment variable not set",
            ConfigError::NoIrcPort => "IRC_PORT environment variable not set",
            ConfigError::BadIrcPort => "IRC_PORT must be a valid port number",
            ConfigError::NoIrcUseTls => "IRC_USE_TLS environment variable not set (true/false)",
            ConfigError::BadIrcUseTls => "IRC_USE_TLS must be true or false",
            ConfigError::NoBridges =>
                "No bridge configurations found. Set BRIDGE_1_MATRIX_ROOM_ID and BRIDGE_1_IRC_CHANNEL environment variables",
        };
        m.to_owned()
    }
}

/// The name of the variable with the room of bridge number `i`.
pub open spec fn room_key_text(i: nat) -> Seq<char> {
    "BRIDGE_"@ + numeral::decimal(i) + "_MATRIX_ROOM_ID"@
}

/// The name of the variable with the channel of bridge number `i`.
pub open spec fn channel_key_text(i: nat) -> Seq<char> {
    "BRIDGE_"@ + numeral::decimal(i) + "_IRC_CHANNEL"@
}

/// The name of the variable with the room of bridge number `i`.
pub fn room_key(i: u64) -> (key: String)
    ensures
        key@ == room_key_text(i as nat),
{
    let mut key = "BRIDGE_".to_owned();
    key.append(numeral::to_decimal(i).as_str());
    key.append("_MATRIX_ROOM_ID");
    key
}

/// The name of the variable with the channel of bridge number `i`.
pub fn channel_key(i: u64) -> (key: String)
    ensures
        key@ == channel_key_text(i as nat),
{
    let mut key = "BRIDGE_".to_owned();
    key.append(numeral::to_decimal(i).as_str());
    key.append("_IRC_CHANNEL");
    key
}

/// Room variables and channel variables have different names, and so have the variables of
/// different bridges.
pub proof fn lemma_keys_distinct(i: nat, j: nat)
    ensures
        room_key_text(i) == room_key_text(j) ==> i == j,
        channel_key_text(i) == channel_key_text(j) ==> i == j,
        room_key_text(i) != channel_key_text(j),
{
    reveal_strlit("BRIDGE_");
    reveal_strlit("_MATRIX_ROOM_ID");
    reveal_strlit("_IRC_CHANNEL");
    if room_key_text(i) == room_key_text(j) {
        assert(numeral::decimal(i) =~= room_key_text(i).subrange(7, room_key_text(i).len() - 15));
        assert(numeral::decimal(j) =~= room_key_text(j).subrange(7, room_key_text(j).len() - 15));
        numeral::lemma_decimal_injective(i, j);
    }
    if channel_key_text(i) == channel_key_text(j) {
        assert(numeral::decimal(i) =~= channel_key_text(i).subrange(7, channel_key_text(i).len() - 12));
        assert(numeral::decimal(j) =~= channel_key_text(j).subrange(7, channel_key_text(j).len() - 12));
        numeral::lemma_decimal_injective(i, j);
    }
    assert(room_key_text(i).last() == 'D');
    assert(channel_key_text(j).last() == 'L');
}

/// Whether the environment gives both a room and a channel for bridge number `i`.
pub open spec fn has_bridge(env: Seq<EnvVar>, i: nat) -> bool {
    env_value(env, room_key_text(i)) is Some && env_value(env, channel_key_text(i)) is Some
}

/// Whether `config` is bridge number `i` of the environment.
pub open spec fn is_bridge(env: Seq<EnvVar>, i: nat, config: BridgeConfig) -> bool {
    &&& env_value(env, room_key_text(i)) == Some(config.matrix_room_id@)
    &&& env_value(env, channel_key_text(i)) == Some(config.irc_channel@)
}

/// Whether `configs` are the bridges of the environment: those with the numbers from one on, up to
/// the first number for which a room or a channel is missing.
pub open spec fn are_bridges(env: Seq<EnvVar>, configs: Seq<BridgeConfig>) -> bool {
    &&& forall|i: int|
        0 <= i < configs.len() ==> is_bridge(env, (i + 1) as nat, #[trigger] configs[i])
    &&& !has_bridge(env, configs.len() + 1)
}

/// The place of the variable `name`, which is set.
proof fn lemma_env_index(env: Seq<EnvVar>, name: Seq<char>) -> (j: int)
    requires
        env_value(env, name) is Some,
    ensures
        0 <= j < env.len(),
        env[j].name@ == name,
    decreases env.len(),
{
    if env[0].name@ == name {
        0
    } else {
        let j = lemma_env_index(env.drop_first(), name);
        j + 1
    }
}

/// Whether the entry `j` of the environment is a variable of bridge number `i`.
spec fn is_entry_of(env: Seq<EnvVar>, j: int, i: nat) -> bool {
    env[j].name@ == room_key_text(i) || env[j].name@ == channel_key_text(i)
}

/// Whether the entry `j` of the environment is a variable of one of the first `n` bridges.
spec fn belongs(env: Seq<EnvVar>, j: int, n: nat) -> bool {
    exists|i: nat| 1 <= i <= n && #[trigger] is_entry_of(env, j, i)
}

/// `used` holds two entries of the environment for each of the first `n` bridges.
spec fn entries_used(env: Seq<EnvVar>, used: Set<int>, n: nat) -> bool {
    &&& used.finite()
    &&& used.len() == 2 * n
    &&& forall|j: int| #[trigger] used.contains(j) ==> 0 <= j < env.len() && belongs(env, j, n)
}

/// A further bridge takes two entries that no earlier bridge took.
proof fn lemma_entries_used_extend(env: Seq<EnvVar>, used: Set<int>, n: nat) -> (grown: Set<int>)
    requires
        entries_used(env, used, n),
        has_bridge(env, n + 1),
    ensures
        entries_used(env, grown, n + 1),
{
    let a = lemma_env_index(env, room_key_text(n + 1));
    let b = lemma_env_index(env, channel_key_text(n + 1));
    lemma_keys_distinct(n + 1, n + 1);
    if used.contains(a) {
        assert(belongs(env, a, n));
        let i = choose|i: nat| 1 <= i <= n && #[trigger] is_entry_of(env, a, i);
        lemma_keys_distinct(n + 1, i);
    }
    if used.contains(b) {
        assert(belongs(env, b, n));
        let i = choose|i: nat| 1 <= i <= n && #[trigger] is_entry_of(env, b, i);
        lemma_keys_distinct(i, n + 1);
    }
    let grown = used.insert(a).insert(b);
    assert forall|j: int| #[trigger] grown.contains(j) implies 0 <= j < env.len() && belongs(
        env,
        j,
        n + 1,
    ) by {
        if j == a || j == b {
            assert(is_entry_of(env, j, n + 1));
        } else {
            assert(used.contains(j));
            assert(belongs(env, j, n));
        }
    }
    grown
}

/// There are at least two environment entries for each bridge.
proof fn lemma_entries_used_bound(env: Seq<EnvVar>, used: Set<int>, n: nat)
    requires
        entries_used(env, used, n),
    ensures
        2 * n <= env.len(),
{
    let all = set_int_range(0, env.len() as int);
    lemma_int_range(0, env.len() as int);
    assert(used.subset_of(all)) by {
        assert forall|j: int| used.contains(j) implies all.contains(j) by {}
    }
    lemma_len_subset(used, all);
}

/// Reads the bridges `BRIDGE_1_..`, `BRIDGE_2_..` and so on, up to the first incomplete one.
pub fn load_bridge_configs(env: &Vec<EnvVar>) -> (r: Result<Vec<BridgeConfig>, ConfigError>)
    ensures
        match r {
            Ok(configs) => configs.len() > 0 && are_bridges(env@, configs@),
            Err(e) => e == ConfigError::NoBridges && !has_bridge(env@, 1),
        },
{
    let mut configs: Vec<BridgeConfig> = Vec::new();
    let ghost mut used: Set<int> = Set::empty();
    loop
        invariant
            entries_used(env@, used, configs@.len()),
            forall|i: int|
                0 <= i < configs.len() ==> is_bridge(env@, (i + 1) as nat, #[trigger] configs@[i]),
        ensures
            are_bridges(env@, configs@),
        decreases env.len() - configs.len(),
    {
        proof {
            lemma_entries_used_bound(env@, used, configs@.len());
        }
        let i: u64 = configs.len() as u64 + 1;
        match (env_var(env, room_key(i).as_str()), env_var(env, channel_key(i).as_str())) {
            (Some(room), Some(channel)) => {
                proof {
                    used = lemma_entries_used_extend(env@, used, configs@.len());
                    lemma_entries_used_bound(env@, used, configs@.len() + 1);
                }
                configs.push(BridgeConfig { matrix_room_id: room, irc_channel: channel });
            },
            _ => {
                break;
            },
        }
    }
    if configs.len() == 0 {
        return Err(ConfigError::NoBridges);
    }
    Ok(configs)
}

/// The environment determines its bridges: there is one list of them at most.
pub proof fn lemma_bridges_unique(env: Seq<EnvVar>, a: Seq<BridgeConfig>, b: Seq<BridgeConfig>)
    requires
        are_bridges(env, a),
        are_bridges(env, b),
    ensures
        a.len() == b.len(),
        forall|i: int|
            0 <= i < a.len() ==> (#[trigger] a[i]).matrix_room_id@ == b[i].matrix_room_id@
                && a[i].irc_channel@ == b[i].irc_channel@,
{
    if a.len() < b.len() {
        assert(is_bridge(env, a.len() + 1, b[a.len() as int]));
    }
    if b.len() < a.len() {
        assert(is_bridge(env, b.len() + 1, a[b.len() as int]));
    }
    assert forall|i: int| 0 <= i < a.len() implies (#[trigger] a[i]).matrix_room_id@
        == b[i].matrix_room_id@ && a[i].irc_channel@ == b[i].irc_channel@ by {
        assert(is_bridge(env, (i + 1) as nat, a[i]));
        assert(is_bridge(env, (i + 1) as nat, b[i]));
    }
}

/// The `bool` that `s` spells.
pub open spec fn spelled_bool(s: Seq<char>) -> Option<bool> {
    if s == "true"@ {
        Some(true)
    } else if s == "false"@ {
        Some(false)
    } else {
        None
    }
}

/// Reads `true` or `false`.
pub fn parse_bool(s: &str) -> (r: Option<bool>)
    ensures
        r == spelled_bool(s@),
{
    let s: String = s.to_owned();
    if s == "true".to_owned() {
        Some(true)
    } else if s == "false".to_owned() {
        Some(false)
    } else {
        None
    }
}

/// All that the operator configures.
#[derive(Debug)]
pub struct Settings {
    pub access_token: String,
    pub user_id: String,
    pub device_id: Option<String>,
    pub homeserver: String,
    pub irc_password: Option<String>,
    pub irc_server: String,
    pub irc_port: u16,
    pub irc_use_tls: bool,
    pub bridges: Vec<BridgeConfig>,
}

/// The first thing that is wrong with the environment, in the order in which it is read.
pub open spec fn first_config_error(env: Seq<EnvVar>) -> Option<ConfigError> {
    if env_value(env, "MATRIX_ACCESS_TOKEN"@) is None {
        Some(ConfigError::NoAccessToken)
    } else if env_value(env, "MATRIX_USER_ID"@) is None {
        Some(ConfigError::NoUserId)
    } else if env_value(env, "MATRIX_HOMESERVER"@) is None {
        Some(ConfigError::NoHomeserver)
    } else if env_value(env, "IRC_SERVER"@) is None {
        Some(ConfigError::NoIrcServer)
    } else if env_value(env, "IRC_PORT"@) is None {
        Some(ConfigError::NoIrcPort)
    } else if numeral::spelled_u16(env_value(env, "IRC_PORT"@)->0) is None {
        Some(ConfigError::BadIrcPort)
    } else if env_value(env, "IRC_USE_TLS"@) is None {
        Some(ConfigError::NoIrcUseTls)
    } else if spelled_bool(env_value(env, "IRC_USE_TLS"@)->0) is None {
        Some(ConfigError::BadIrcUseTls)
    } else if !has_bridge(env, 1) {
        Some(ConfigError::NoBridges)
    } else {
        None
    }
}

/// Whether `s` holds what the environment sets.
pub open spec fn are_settings(env: Seq<EnvVar>, s: Settings) -> bool {
    &&& env_value(env, "MATRIX_ACCESS_TOKEN"@) == Some(s.access_token@)
    &&& env_value(env, "MATRIX_USER_ID"@) == Some(s.user_id@)
    &&& env_value(env, "MATRIX_DEVICE_ID"@) == text::text_of(s.device_id)
    &&& env_value(env, "MATRIX_HOMESERVER"@) == Some(s.homeserver@)
    &&& env_value(env, "IRC_SERVER_PASSWORD"@) == text::text_of(s.irc_password)
    &&& env_value(env, "IRC_SERVER"@) == Some(s.irc_server@)
    &&& numeral::spelled_u16(env_value(env, "IRC_PORT"@)->0) == Some(s.irc_port)
    &&& spelled_bool(env_value(env, "IRC_USE_TLS"@)->0) == Some(s.irc_use_tls)
    &&& are_bridges(env, s.bridges@)
}

/// Reads the whole configuration, or finds the first thing that is wrong with it.
pub fn load_settings(env: &Vec<EnvVar>) -> (r: Result<Settings, ConfigError>)
    ensures
        match r {
            Ok(s) => first_config_error(env@) is None && are_settings(env@, s) && s.bridges.len()
                > 0,
            Err(e) => first_config_error(env@) == Some(e),
        },
{
    let access_token: String = match env_var(env, "MATRIX_ACCESS_TOKEN") {
        Some(v) => v,
        None => return Err(ConfigError::NoAccessToken),
    };
    let user_id: String = match env_var(env, "MATRIX_USER_ID") {
        Some(v) => v,
        None => return Err(ConfigError::NoUserId),
    };
    let device_id: Option<String> = env_var(env, "MATRIX_DEVICE_ID");
    let homeserver: String = match env_var(env, "MATRIX_HOMESERVER") {
        Some(v) => v,
        None => return Err(ConfigError::NoHomeserver),
    };
    let irc_password: Option<String> = env_var(env, "IRC_SERVER_PASSWORD");
    let irc_server: String = match env_var(env, "IRC_SERVER") {
        Some(v) => v,
        None => return Err(ConfigError::NoIrcServer),
    };
    let irc_port: u16 = match env_var(env, "IRC_PORT") {
        Some(v) => match numeral::parse_u16(v.as_str()) {
            Some(port) => port,
            None => return Err(ConfigError::BadIrcPort),
        },
        None => return Err(ConfigError::NoIrcPort),
    };
    let irc_use_tls: bool = match env_var(env, "IRC_USE_TLS") {
        Some(v) => match parse_bool(v.as_str()) {
            Some(b) => b,
            None => return Err(ConfigError::BadIrcUseTls),
        },
        None => return Err(ConfigError::NoIrcUseTls),
    };
    let bridges: Vec<BridgeConfig> = match load_bridge_configs(env) {
        Ok(bridges) => bridges,
        Err(e) => return Err(e),
    };
    proof {
        assert(is_bridge(env@, 1, bridges@[0]));
    }
    Ok(
        Settings {
            access_token,
            user_id,
            device_id,
            homeserver,
            irc_password,
            irc_server,
            irc_port,
            irc_use_tls,
            bridges,
        },
    )
}

/// A variable has the value of the first entry of its name, and all of that value, be it empty or
/// not.
pub proof fn lemma_first_entry_counts(env: Seq<EnvVar>, j: int, name: Seq<char>)
    requires
        0 <= j < env.len(),
        env[j].name@ == name,
        forall|i: int| 0 <= i < j ==> (#[trigger] env[i]).name@ != name,
    ensures
        env[j].value is Some ==> env_value(env, name) == Some(env[j].value->0@),
        env[j].value is None ==> env_value(env, name) is None,
    decreases env.len(),
{
    if j > 0 {
        assert(env[0].name@ != name);
        let rest = env.drop_first();
        assert forall|i: int| 0 <= i < j - 1 implies (#[trigger] rest[i]).name@ != name by {
            assert(rest[i] == env[i + 1]);
        }
        lemma_first_entry_counts(rest, j - 1, name);
    }
}

/// A variable without an entry has no value.
pub proof fn lemma_absent_has_no_value(env: Seq<EnvVar>, name: Seq<char>)
    requires
        forall|i: int| 0 <= i < env.len() ==> (#[trigger] env[i]).name@ != name,
    ensures
        env_value(env, name) is None,
{
    if env_value(env, name) is Some {
        let j = lemma_env_index(env, name);
        assert(env[j].name@ != name);
    }
}

/// The variables of a bridge are named by its number in base ten, without leading zeros, and by
/// what they hold.
pub proof fn lemma_key_parts(i: nat)
    ensures
        room_key_text(i).take(7) == "BRIDGE_"@,
        room_key_text(i).subrange(7, room_key_text(i).len() - 15) == numeral::decimal(i),
        room_key_text(i).skip(room_key_text(i).len() - 15) == "_MATRIX_ROOM_ID"@,
        room_key_text(i).len() == numeral::decimal(i).len() + 22,
        channel_key_text(i).take(7) == "BRIDGE_"@,
        channel_key_text(i).subrange(7, channel_key_text(i).len() - 12) == numeral::decimal(i),
        channel_key_text(i).skip(channel_key_text(i).len() - 12) == "_IRC_CHANNEL"@,
        channel_key_text(i).len() == numeral::decimal(i).len() + 19,
{
    reveal_strlit("BRIDGE_");
    reveal_strlit("_MATRIX_ROOM_ID");
    reveal_strlit("_IRC_CHANNEL");
    let r = room_key_text(i);
    let c = channel_key_text(i);
    assert(r.take(7) =~= "BRIDGE_"@);
    assert(r.subrange(7, r.len() - 15) =~= numeral::decimal(i));
    assert(r.skip(r.len() - 15) =~= "_MATRIX_ROOM_ID"@);
    assert(c.take(7) =~= "BRIDGE_"@);
    assert(c.subrange(7, c.len() - 12) =~= numeral::decimal(i));
    assert(c.skip(c.len() - 12) =~= "_IRC_CHANNEL"@);
}

/// The bridges that are read are those that the environment numbers from one on, each with its own
/// room and channel, and none is left out: the next number has no room or no channel.
pub proof fn lemma_bridges_are_read(env: Seq<EnvVar>, configs: Seq<BridgeConfig>)
    requires
        are_bridges(env, configs),
    ensures
        forall|i: int|
            0 <= i < configs.len() ==> env_value(
                env,
                "BRIDGE_"@ + numeral::decimal((i + 1) as nat) + "_MATRIX_ROOM_ID"@,
            ) == Some((#[trigger] configs[i]).matrix_room_id@),
        forall|i: int|
            0 <= i < configs.len() ==> env_value(
                env,
                "BRIDGE_"@ + numeral::decimal((i + 1) as nat) + "_IRC_CHANNEL"@,
            ) == Some((#[trigger] configs[i]).irc_channel@),
        env_value(
            env,
            "BRIDGE_"@ + numeral::decimal(configs.len() + 1) + "_MATRIX_ROOM_ID"@,
        ) is None || env_value(
            env,
            "BRIDGE_"@ + numeral::decimal(configs.len() + 1) + "_IRC_CHANNEL"@,
        ) is None,
{
}

/// There are as many bridges as the environment numbers without a gap.
pub proof fn lemma_bridge_count(env: Seq<EnvVar>, configs: Seq<BridgeConfig>, n: nat)
    requires
        are_bridges(env, configs),
        forall|k: nat|
            1 <= k <= n ==> env_value(env, #[trigger] room_key_text(k)) is Some && env_value(
                env,
                channel_key_text(k),
            ) is Some,
        env_value(env, room_key_text(n + 1)) is None || env_value(
            env,
            channel_key_text(n + 1),
        ) is None,
    ensures
        configs.len() == n,
{
    if configs.len() < n {
        assert(env_value(env, room_key_text(configs.len() + 1)) is Some);
    }
    if configs.len() > n {
        assert(is_bridge(env, n + 1, configs[n as int]));
    }
}

/// Just the words `true` and `false`, in small letters, are read.
pub proof fn lemma_spelled_bool(s: Seq<char>)
    ensures
        spelled_bool(s) == Some(true) <==> s == seq!['t', 'r', 'u', 'e'],
        spelled_bool(s) == Some(false) <==> s == seq!['f', 'a', 'l', 's', 'e'],
{
    reveal_strlit("true");
    reveal_strlit("false");
    assert("true"@ =~= seq!['t', 'r', 'u', 'e']);
    assert("false"@ =~= seq!['f', 'a', 'l', 's', 'e']);
    assert("true"@.len() != "false"@.len());
}

/// The variables of the first bridge.
proof fn lemma_first_bridge(env: Seq<EnvVar>)
    ensures
        has_bridge(env, 1) <==> env_value(env, "BRIDGE_1_MATRIX_ROOM_ID"@) is Some && env_value(
            env,
            "BRIDGE_1_IRC_CHANNEL"@,
        ) is Some,
{
    reveal_strlit("BRIDGE_");
    reveal_strlit("_MATRIX_ROOM_ID");
    reveal_strlit("_IRC_CHANNEL");
    reveal_strlit("BRIDGE_1_MATRIX_ROOM_ID");
    reveal_strlit("BRIDGE_1_IRC_CHANNEL");
    assert(numeral::decimal(1) =~= seq!['1']);
    assert(room_key_text(1) =~= "BRIDGE_1_MATRIX_ROOM_ID"@);
    assert(channel_key_text(1) =~= "BRIDGE_1_IRC_CHANNEL"@);
}

/// The configuration is accepted exactly if all the required variables are set, the port and the
/// switch can be read, and there is a first bridge. Nothing else is asked of any value.
pub proof fn lemma_accepted_settings(env: Seq<EnvVar>)
    ensures
        first_config_error(env) is None <==> {
            &&& env_value(env, "MATRIX_ACCESS_TOKEN"@) is Some
            &&& env_value(env, "MATRIX_USER_ID"@) is Some
            &&& env_value(env, "MATRIX_HOMESERVER"@) is Some
            &&& env_value(env, "IRC_SERVER"@) is Some
            &&& env_value(env, "IRC_PORT"@) is Some
            &&& numeral::spelled_u16(env_value(env, "IRC_PORT"@)->0) is Some
            &&& env_value(env, "IRC_USE_TLS"@) is Some
            &&& spelled_bool(env_value(env, "IRC_USE_TLS"@)->0) is Some
            &&& env_value(env, "BRIDGE_1_MATRIX_ROOM_ID"@) is Some
            &&& env_value(env, "BRIDGE_1_IRC_CHANNEL"@) is Some
        },
{
    lemma_first_bridge(env);
}

/// The variable that an error complains of.
pub open spec fn faulty_variable(e: ConfigError) -> Seq<char> {
    match e {
        ConfigError::NoAccessToken => "MATRIX_ACCESS_TOKEN"@,
        ConfigError::NoUserId => "MATRIX_USER_ID"@,
        ConfigError::NoHomeserver => "MATRIX_HOMESERVER"@,
        ConfigError::NoIrcServer => "IRC_SERVER"@,
        ConfigError::NoIrcPort | ConfigError::BadIrcPort => "IRC_PORT"@,
        ConfigError::NoIrcUseTls | ConfigError::BadIrcUseTls => "IRC_USE_TLS"@,
        ConfigError::NoBridges => "BRIDGE_1_MATRIX_ROOM_ID"@,
    }
}

/// An error is reported for a variable that is missing or cannot be read, and only if all that is
/// read before it is in order.
pub proof fn lemma_reported_error(env: Seq<EnvVar>, e: ConfigError)
    requires
        first_config_error(env) == Some(e),
    ensures
        match e {
            ConfigError::BadIrcPort => env_value(env, "IRC_PORT"@) is Some && numeral::spelled_u16(
                env_value(env, "IRC_PORT"@)->0,
            ) is None,
            ConfigError::BadIrcUseTls => env_value(env, "IRC_USE_TLS"@) is Some && spelled_bool(
                env_value(env, "IRC_USE_TLS"@)->0,
            ) is None,
            ConfigError::NoBridges => env_value(env, "BRIDGE_1_MATRIX_ROOM_ID"@) is None
                || env_value(env, "BRIDGE_1_IRC_CHANNEL"@) is None,
            _ => env_value(env, faulty_variable(e)) is None,
        },
        e != ConfigError::NoAccessToken ==> env_value(env, "MATRIX_ACCESS_TOKEN"@) is Some,
        !(e is NoAccessToken || e is NoUserId) ==> env_value(env, "MATRIX_USER_ID"@) is Some,
        !(e is NoAccessToken || e is NoUserId || e is NoHomeserver) ==> env_value(
            env,
            "MATRIX_HOMESERVER"@,
        ) is Some,
        e is NoIrcPort || e is BadIrcPort || e is NoIrcUseTls || e is BadIrcUseTls || e is NoBridges
            ==> env_value(env, "IRC_SERVER"@) is Some,
        e is NoIrcUseTls || e is BadIrcUseTls || e is NoBridges ==> env_value(
            env,
            "IRC_PORT"@,
        ) is Some && numeral::spelled_u16(env_value(env, "IRC_PORT"@)->0) is Some,
        e is NoBridges ==> env_value(env, "IRC_USE_TLS"@) is Some && spelled_bool(
            env_value(env, "IRC_USE_TLS"@)->0,
        ) is Some,
{
    lemma_first_bridge(env);
}

/// Every setting is what its own variable says; those that need not be set are present exactly if
/// their variables are.
pub proof fn lemma_settings_are_read(env: Seq<EnvVar>, s: Settings)
    requires
        first_config_error(env) is None,
        are_settings(env, s),
    ensures
        env_value(env, "MATRIX_ACCESS_TOKEN"@) == Some(s.access_token@),
        env_value(env, "MATRIX_USER_ID"@) == Some(s.user_id@),
        env_value(env, "MATRIX_HOMESERVER"@) == Some(s.homeserver@),
        env_value(env, "IRC_SERVER"@) == Some(s.irc_server@),
        s.device_id is Some <==> env_value(env, "MATRIX_DEVICE_ID"@) is Some,
        s.device_id is Some ==> s.device_id->0@ == env_value(env, "MATRIX_DEVICE_ID"@)->0,
        s.irc_password is Some <==> env_value(env, "IRC_SERVER_PASSWORD"@) is Some,
        s.irc_password is Some ==> s.irc_password->0@ == env_value(
            env,
            "IRC_SERVER_PASSWORD"@,
        )->0,
        env_value(env, "IRC_PORT"@) is Some && numeral::spelled_u16(
            env_value(env, "IRC_PORT"@)->0,
        ) == Some(s.irc_port),
        env_value(env, "IRC_USE_TLS"@) is Some,
        s.irc_use_tls <==> env_value(env, "IRC_USE_TLS"@)->0 == seq!['t', 'r', 'u', 'e'],
        !s.irc_use_tls <==> env_value(env, "IRC_USE_TLS"@)->0 == seq!['f', 'a', 'l', 's', 'e'],
        are_bridges(env, s.bridges@),
{
    lemma_spelled_bool(env_value(env, "IRC_USE_TLS"@)->0);
}

/// The message of an error begins with the variable that is missing or cannot be read, and says
/// which of the two it is; a missing bridge is called by both of its variables.
pub proof fn lemma_error_names_variable(e: ConfigError)
    ensures
        e is NoBridges ==> config_error_text(e) == "No bridge configurations found. Set "@
            + "BRIDGE_1_MATRIX_ROOM_ID"@ + " and "@ + "BRIDGE_1_IRC_CHANNEL"@
            + " environment variables"@,
        e is BadIrcPort ==> config_error_text(e) == "IRC_PORT"@ + " must be a valid port number"@,
        e is BadIrcUseTls ==> config_error_text(e) == "IRC_USE_TLS"@ + " must be true or false"@,
        !(e is NoBridges || e is BadIrcPort || e is BadIrcUseTls) ==> (faulty_variable(e)
            + " environment variable not set"@).is_prefix_of(config_error_text(e)),
        e is NoAccessToken || e is NoUserId || e is NoIrcServer || e is NoIrcPort
            ==> config_error_text(e) == faulty_variable(e) + " environment variable not set"@,
        e is NoHomeserver ==> config_error_text(e) == faulty_variable(e)
            + " environment variable not set"@ + " (e.g., https://matrix.org)"@,
        e is NoIrcUseTls ==> config_error_text(e) == faulty_variable(e)
            + " environment variable not set"@ + " (true/false)"@,
{
    reveal_strlit("MATRIX_ACCESS_TOKEN environment variable not set");
    reveal_strlit("MATRIX_USER_ID environment variable not set");
    reveal_strlit("MATRIX_HOMESERVER environment variable not set (e.g., https://matrix.org)");
    reveal_strlit("IRC_SERVER environment variable not set");
    reveal_strlit("IRC_PORT environment variable not set");
    reveal_strlit("IRC_PORT must be a valid port number");
    reveal_strlit("IRC_USE_TLS environment variable not set (true/false)");
    reveal_strlit("IRC_USE_TLS must be true or false");
    reveal_strlit(
        "No bridge configurations found. Set BRIDGE_1_MATRIX_ROOM_ID and BRIDGE_1_IRC_CHANNEL environment variables",
    );
    reveal_strlit("MATRIX_ACCESS_TOKEN");
    reveal_strlit("MATRIX_USER_ID");
    reveal_strlit("MATRIX_HOMESERVER");
    reveal_strlit("IRC_SERVER");
    reveal_strlit("IRC_PORT");
    reveal_strlit("IRC_USE_TLS");
    reveal_strlit("BRIDGE_1_MATRIX_ROOM_ID");
    reveal_strlit("BRIDGE_1_IRC_CHANNEL");
    reveal_strlit("No bridge configurations found. Set ");
    reveal_strlit(" and ");
    reveal_strlit(" environment variables");
    reveal_strlit(" environment variable not set");
    reveal_strlit(" must be a valid port number");
    reveal_strlit(" must be true or false");
    reveal_strlit(" (e.g., https://matrix.org)");
    reveal_strlit(" (true/false)");
    let t = config_error_text(e);
    let v = faulty_variable(e) + " environment variable not set"@;
    match e {
        ConfigError::NoBridges => {
            assert(t =~= "No bridge configurations found. Set "@ + "BRIDGE_1_MATRIX_ROOM_ID"@
                + " and "@ + "BRIDGE_1_IRC_CHANNEL"@ + " environment variables"@);
        },
        ConfigError::BadIrcPort => {
            assert(t =~= "IRC_PORT"@ + " must be a valid port number"@);
        },
        ConfigError::BadIrcUseTls => {
            assert(t =~= "IRC_USE_TLS"@ + " must be true or false"@);
        },
        ConfigError::NoHomeserver => {
            assert(t =~= v + " (e.g., https://matrix.org)"@);
        },
        ConfigError::NoIrcUseTls => {
            assert(t =~= v + " (true/false)"@);
        },
        _ => {
            assert(t =~= v);
        },
    }
}

} // verus!
