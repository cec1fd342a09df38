//! The Matrix session: the addresses and identifiers that it needs, checked before they are used.

use crate::config::{BridgeConfig, Settings};
use crate::numeral;
use crate::text;
use vstd::prelude::*;
use vstd::string::*;

verus! {

/// Why the Matrix side cannot be set up.
#[derive(Debug)]
pub enum SetupError {
    /// The homeserver is not a URL, for the reason given.
    BadHomeserver(String),
    /// The user ID is malformed, for the reason given.
    BadUserId(String),
    /// A room ID is malformed, for the reason given.
    BadRoomId(String),
    /// The account does not know the room with this ID.
    UnknownRoom(String),
}

/// A setup error by its texts.
pub enum SetupFault {
    BadHomeserver(Seq<char>),
    BadUserId(Seq<char>),
    BadRoomId(Seq<char>),
    UnknownRoom(Seq<char>),
}

impl View for SetupError {
    type V = SetupFault;

    open spec fn view(&self) -> SetupFault {
        match *self {
            SetupError::BadHomeserver(m) => SetupFault::BadHomeserver(m@),
            SetupError::BadUserId(m) => SetupFault::BadUserId(m@),
            SetupError::BadRoomId(m) => SetupFault::BadRoomId(m@),
            SetupError::UnknownRoom(room) => SetupFault::UnknownRoom(room@),
        }
    }
}

/// The message for a setup error.
pub open spec fn setup_fault_text(fault: SetupFault) -> Seq<char> {
    match fault {
        SetupFault::BadHomeserver(m) => m,
        SetupFault::BadUserId(m) => m,
        SetupFault::BadRoomId(m) => m,
        SetupFault::UnknownRoom(room) => "Room "@ + room + " not found"@,
    }
}

impl SetupError {
    /// The message to show to the operator.
    pub fn message(&self) -> (m: String)
        ensures
            m@ == setup_fault_text(self@),
    {
        match self {
            SetupError::BadHomeserver(m) => m.clone(),
            SetupError::BadUserId(m) => m.clone(),
            SetupError::BadRoomId(m) => m.clone(),
            SetupError::UnknownRoom(room) => {
                let mut m = "Room ".to_owned();
                m.append(room.as_str());
                m.append(" not found");
                m
            },
        }
    }
}

/// What `url::Url::parse` makes of a text: the URL's serialization, or the message of the error.
pub uninterp spec fn url_reading(s: Seq<char>) -> Result<Seq<char>, Seq<char>>;

/// Calls `url::Url::parse`. The contract says that the outcome is a function of the text: the
/// serialization of the URL, or the text of the parse error.
#[verifier::external_body]
fn parse_url(s: &str) -> (r: Result<String, String>)
    ensures
        match r {
            Ok(url) => url_reading(s@) == Ok::<Seq<char>, Seq<char>>(url@),
            Err(m) => url_reading(s@) == Err::<Seq<char>, Seq<char>>(m@),
        },
{
    match url::Url::parse(s) {
        Ok(url) => Ok(String::from(url)),
        Err(e) => Err(e.to_string()),
    }
}

/// What `UserId::parse` makes of a text: the user ID, or the message of the error.
pub uninterp spec fn user_id_reading(s: Seq<char>) -> Result<Seq<char>, Seq<char>>;

/// Why a text is not a user ID: what is wrong with it first.
pub open spec fn user_id_fault_text(s: Seq<char>) -> Seq<char> {
    if s.len() == 0 || s[0] != '@' {
        "leading sigil is incorrect or missing"@
    } else if !s.contains(':') {
        "required colon is missing"@
    } else {
        "server name is not a valid IP address or domain name"@
    }
}

/// What follows the first colon of `s`, which has one.
pub open spec fn after_colon(s: Seq<char>) -> Seq<char> {
    s.skip(text::before_colon(s).len() as int + 1)
}

/// Whether `c` may stand in a host name.
pub open spec fn is_host_char(c: char) -> bool {
    ||| 'a' <= c <= 'z'
    ||| 'A' <= c <= 'Z'
    ||| '0' <= c <= '9'
    ||| c == '-'
    ||| c == '.'
}

/// Whether `s` is a server name by its host, and not by an IPv6 address in brackets: the
/// characters of the host, and a port if there is a colon.
pub open spec fn is_host_and_port(s: Seq<char>) -> bool {
    let host = text::before_colon(s);
    &&& s.len() > 0
    &&& forall|i: int| 0 <= i < host.len() ==> is_host_char(#[trigger] host[i])
    &&& s.contains(':') ==> numeral::spelled_u16(after_colon(s)) is Some
}

/// Whether `s` is a user ID, where that does not rest on an IPv6 address: it begins with `@`, it
/// has a colon, and a server name follows the first colon.
pub open spec fn user_id_verdict(s: Seq<char>) -> Option<bool> {
    if s.len() == 0 || s[0] != '@' || !s.contains(':') {
        Some(false)
    } else if after_colon(s).len() > 0 && after_colon(s)[0] == '[' {
        None
    } else {
        Some(is_host_and_port(after_colon(s)))
    }
}

/// Calls `UserId::parse` of the Matrix SDK's identifiers. The contract says that the outcome is a
/// function of the text, that a user ID is the text itself, which texts are user IDs, and what the
/// message of the error is. Which server names in brackets are accepted is left to the name: that
/// rests on the spelling of IPv6 addresses.
#[verifier::external_body]
fn parse_user_id(s: &str) -> (r: Result<String, String>)
    ensures
        match r {
            Ok(id) => user_id_reading(s@) == Ok::<Seq<char>, Seq<char>>(id@) && id@ == s@
                && user_id_verdict(s@) != Some(false),
            Err(m) => user_id_reading(s@) == Err::<Seq<char>, Seq<char>>(m@) && m@
                == user_id_fault_text(s@) && user_id_verdict(s@) != Some(true),
        },
{
    match matrix_sdk::ruma::UserId::parse(s) {
        Ok(id) => Ok(id.to_string()),
        Err(e) => Err(e.to_string()),
    }
}

/// Whether `s` is a room ID: it begins with an exclamation mark.
pub open spec fn is_room_id(s: Seq<char>) -> bool {
    s.len() > 0 && s[0] == '!'
}

/// Why a text is not a room ID.
pub open spec fn room_id_fault_text() -> Seq<char> {
    "leading sigil is incorrect or missing"@
}

/// Calls `RoomId::parse` of the Matrix SDK's identifiers. The contract says that a text is a room
/// ID exactly if it begins with an exclamation mark, that the room ID is the text itself, and
/// what the message of the error is. The SDK builds its identifiers without a limit on their
/// length.
#[verifier::external_body]
fn parse_room_id(s: &str) -> (r: Result<String, String>)
    ensures
        match r {
            Ok(id) => is_room_id(s@) && id@ == s@,
            Err(m) => !is_room_id(s@) && m@ == room_id_fault_text(),
        },
{
    match matrix_sdk::ruma::RoomId::parse(s) {
        Ok(id) => Ok(id.to_string()),
        Err(e) => Err(e.to_string()),
    }
}

/// The URL of the homeserver, which is given as the outcome of its check.
pub fn homeserver_for(url: Result<String, String>) -> (r: Result<String, SetupError>)
    ensures
        match url {
            Ok(url) => r is Ok && r->Ok_0@ == url@,
            Err(m) => r is Err && r->Err_0@ == SetupFault::BadHomeserver(m@),
        },
{
    match url {
        Ok(url) => Ok(url),
        Err(m) => Err(SetupError::BadHomeserver(m)),
    }
}

/// The URL of the configured homeserver.
pub fn homeserver_url(settings: &Settings) -> (r: Result<String, SetupError>)
    ensures
        match r {
            Ok(url) => url_reading(settings.homeserver@) == Ok::<Seq<char>, Seq<char>>(url@),
            Err(e) => url_reading(settings.homeserver@) is Err && e@ == SetupFault::BadHomeserver(
                url_reading(settings.homeserver@)->Err_0,
            ),
        },
{
    homeserver_for(parse_url(settings.homeserver.as_str()))
}

/// What the Matrix client restores its login from.
#[derive(Debug)]
pub struct Session {
    pub user_id: String,
    pub device_id: String,
    pub access_token: String,
}

/// The device of a session: the configured one, or else `BRIDGE_DEVICE`.
pub open spec fn device_text(device_id: Option<Seq<char>>) -> Seq<char> {
    match device_id {
        Some(id) => id,
        None => "BRIDGE_DEVICE"@,
    }
}

/// The session of the account `user_id`, which is given as the outcome of its check.
pub fn session_for(user_id: Result<String, String>, settings: &Settings) -> (r: Result<
    Session,
    SetupError,
>)
    ensures
        match user_id {
            Ok(id) => r is Ok && r->Ok_0.user_id@ == id@ && r->Ok_0.device_id@ == device_text(
                text::text_of(settings.device_id),
            ) && r->Ok_0.access_token@ == settings.access_token@,
            Err(m) => r is Err && r->Err_0@ == SetupFault::BadUserId(m@),
        },
{
    match user_id {
        Ok(user_id) => {
            let device_id: String = match &settings.device_id {
                Some(id) => id.clone(),
                None => "BRIDGE_DEVICE".to_owned(),
            };
            Ok(Session { user_id, device_id, access_token: settings.access_token.clone() })
        },
        Err(m) => Err(SetupError::BadUserId(m)),
    }
}

/// The session of the configured account.
pub fn open_session(settings: &Settings) -> (r: Result<Session, SetupError>)
    ensures
        match r {
            Ok(s) => user_id_reading(settings.user_id@) == Ok::<Seq<char>, Seq<char>>(s.user_id@)
                && s.user_id@ == settings.user_id@ && user_id_verdict(settings.user_id@) != Some(
                false,
            ) && s.device_id@ == device_text(text::text_of(settings.device_id))
                && s.access_token@ == settings.access_token@,
            Err(e) => user_id_reading(settings.user_id@) == Err::<Seq<char>, Seq<char>>(
                user_id_fault_text(settings.user_id@),
            ) && e@ == SetupFault::BadUserId(user_id_fault_text(settings.user_id@))
                && user_id_verdict(settings.user_id@) != Some(true),
        },
{
    session_for(parse_user_id(settings.user_id.as_str()), settings)
}

/// The room of a bridge, checked.
pub fn bridged_room(config: &BridgeConfig) -> (r: Result<String, SetupError>)
    ensures
        match r {
            Ok(room) => is_room_id(config.matrix_room_id@) && room@ == config.matrix_room_id@,
            Err(e) => !is_room_id(config.matrix_room_id@) && e@ == SetupFault::BadRoomId(
                room_id_fault_text(),
            ),
        },
{
    match parse_room_id(config.matrix_room_id.as_str()) {
        Ok(room) => Ok(room),
        Err(m) => Err(SetupError::BadRoomId(m)),
    }
}

/// A setup error is seen by its kind and by its whole text.
pub proof fn lemma_setup_error_is_kept(e: SetupError)
    ensures
        match e {
            SetupError::BadHomeserver(m) => e@ is BadHomeserver && e@->BadHomeserver_0 == m@,
            SetupError::BadUserId(m) => e@ is BadUserId && e@->BadUserId_0 == m@,
            SetupError::BadRoomId(m) => e@ is BadRoomId && e@->BadRoomId_0 == m@,
            SetupError::UnknownRoom(room) => e@ is UnknownRoom && e@->UnknownRoom_0 == room@,
        },
{
}

/// The message of a malformed address or ID is the reason, word for word, and that of an unknown
/// room has the whole room ID between its fixed words.
pub proof fn lemma_setup_message(t: Seq<char>)
    ensures
        setup_fault_text(SetupFault::BadHomeserver(t)) == t,
        setup_fault_text(SetupFault::BadUserId(t)) == t,
        setup_fault_text(SetupFault::BadRoomId(t)) == t,
        ({
            let m = setup_fault_text(SetupFault::UnknownRoom(t));
            &&& m.len() == t.len() + 15
            &&& m.take(5) == seq!['R', 'o', 'o', 'm', ' ']
            &&& m.subrange(5, m.len() - 10) == t
            &&& m.skip(m.len() - 10) == " not found"@
        }),
{
    reveal_strlit("Room ");
    reveal_strlit(" not found");
    let m = setup_fault_text(SetupFault::UnknownRoom(t));
    assert(m.take(5) =~= seq!['R', 'o', 'o', 'm', ' ']);
    assert(m.subrange(5, m.len() - 10) =~= t);
    assert(m.skip(m.len() - 10) =~= " not found"@);
}

/// A configured device is used as it is, be it empty or not, and there is one fixed device for all
/// others.
pub proof fn lemma_device(id: Seq<char>)
    ensures
        device_text(Some(id)) == id,
        device_text(None) == seq!['B', 'R', 'I', 'D', 'G', 'E', '_', 'D', 'E', 'V', 'I', 'C', 'E'],
{
    reveal_strlit("BRIDGE_DEVICE");
    assert("BRIDGE_DEVICE"@ =~= seq![
        'B',
        'R',
        'I',
        'D',
        'G',
        'E',
        '_',
        'D',
        'E',
        'V',
        'I',
        'C',
        'E',
    ]);
}

/// Whatever follows an exclamation mark makes a room ID, and nothing else does.
pub proof fn lemma_room_id(s: Seq<char>)
    ensures
        is_room_id(seq!['!'] + s),
        is_room_id(s) ==> s == seq!['!'] + s.skip(1),
{
    if is_room_id(s) {
        assert(s =~= seq!['!'] + s.skip(1));
    }
}

/// A user ID begins with an `@` and has a colon.
pub proof fn lemma_no_user_id(s: Seq<char>)
    requires
        s.len() == 0 || s[0] != '@' || !s.contains(':'),
    ensures
        user_id_verdict(s) == Some(false),
{
}

/// `@name:host` is a user ID, whatever the name, if the host is made of letters, digits, hyphens
/// and dots; with a colon and a port behind it, it is one exactly if the port is a number of 16
/// bits.
pub proof fn lemma_plain_user_id(name: Seq<char>, host: Seq<char>, port: Seq<char>)
    requires
        !name.contains(':'),
        host.len() > 0,
        forall|i: int|
            0 <= i < host.len() ==> {
                let c = #[trigger] host[i];
                'a' <= c <= 'z' || 'A' <= c <= 'Z' || '0' <= c <= '9' || c == '-' || c == '.'
            },
    ensures
        user_id_verdict(seq!['@'] + name + seq![':'] + host) == Some(true),
        user_id_verdict(seq!['@'] + name + seq![':'] + host + seq![':'] + port) == Some(
            numeral::spelled_u16(port) is Some,
        ),
{
    let id = seq!['@'] + name + seq![':'] + host;
    lemma_after_colon(seq!['@'] + name, host);
    assert(id == (seq!['@'] + name) + seq![':'] + host);
    lemma_no_colon(host);
    assert(is_host_and_port(host));
    assert(id[0] == '@');
    let full = host + seq![':'] + port;
    assert((seq!['@'] + name) + seq![':'] + full =~= id + seq![':'] + port);
    lemma_after_colon(seq!['@'] + name, full);
    lemma_after_colon(host, port);
    assert(full[0] == host[0]);
    assert((id + seq![':'] + port)[0] == '@');
}

/// A host has no colon, and so it stands before the first one.
proof fn lemma_no_colon(host: Seq<char>)
    requires
        forall|i: int|
            0 <= i < host.len() ==> {
                let c = #[trigger] host[i];
                'a' <= c <= 'z' || 'A' <= c <= 'Z' || '0' <= c <= '9' || c == '-' || c == '.'
            },
    ensures
        !host.contains(':'),
        text::before_colon(host) == host,
        forall|i: int| 0 <= i < host.len() ==> is_host_char(#[trigger] host[i]),
{
    text::lemma_before_colon(host);
    let n = text::before_colon(host).len() as int;
    if n < host.len() {
        assert(host[n] == ':');
    }
    assert(host.take(n) =~= host);
}

/// What follows the first colon.
proof fn lemma_after_colon(head: Seq<char>, tail: Seq<char>)
    requires
        !head.contains(':'),
    ensures
        text::before_colon(head + seq![':'] + tail) == head,
        after_colon(head + seq![':'] + tail) == tail,
        (head + seq![':'] + tail).contains(':'),
{
    let s = head + seq![':'] + tail;
    text::lemma_before_colon(s);
    let b = text::before_colon(s);
    assert(s[head.len() as int] == ':');
    if b.len() < head.len() {
        assert(s[b.len() as int] == head[b.len() as int]);
        assert(head.contains(head[b.len() as int]));
    }
    if b.len() > head.len() {
        assert(b[head.len() as int] == ':');
        assert(b.contains(':'));
    }
    assert(b =~= head);
    assert(s.skip(b.len() as int + 1) =~= tail);
}

} // verus!
