//! IRC to Matrix: who speaks on IRC through which connection, and which IRC messages are relayed.

use crate::config::{BridgeConfig, Settings};
use crate::keyed::KeyedMap;
use crate::matrix_side;
use crate::matrix_side::IrcRelay;
use crate::rooms;
use crate::text;
use vstd::hash_set::StringHashSet;
use vstd::prelude::*;
use vstd::string::*;

verus! {

/// The number of sent messages that are kept.
pub const RECENT_LIMIT: usize = 100;

/// The seconds for which a message that comes back is taken for an echo.
pub const ECHO_SECONDS: u128 = 5;

/// The nanoseconds in a second.
pub const NANOS_PER_SECOND: u128 = 1_000_000_000;

/// A message that was sent to IRC, and when, in nanoseconds of a clock that does not go back.
#[derive(Debug)]
pub struct SentMessage {
    pub irc_channel: String,
    pub username: String,
    pub message: String,
    pub at: u128,
}

/// A `SentMessage` by its texts.
#[verifier::ext_equal]
pub struct Sent {
    pub irc_channel: Seq<char>,
    pub username: Seq<char>,
    pub message: Seq<char>,
    pub at: u128,
}

impl View for SentMessage {
    type V = Sent;

    open spec fn view(&self) -> Sent {
        Sent {
            irc_channel: self.irc_channel@,
            username: self.username@,
            message: self.message@,
            at: self.at,
        }
    }
}

/// Sent messages by their texts.
spec fn sents(messages: Seq<SentMessage>) -> Seq<Sent> {
    messages.map_values(|m: SentMessage| m@)
}

/// Whether a message sent then may still come back as an echo: fewer whole seconds than
/// `ECHO_SECONDS` have passed.
pub open spec fn is_fresh(m: Sent, now: u128) -> bool {
    let age = if now >= m.at {
        now - m.at
    } else {
        0
    };
    age / (NANOS_PER_SECOND as int) < ECHO_SECONDS
}

/// The messages that may still come back, in the same order.
pub open spec fn fresh_only(recent: Seq<Sent>, now: u128) -> Seq<Sent> {
    recent.filter(|m: Sent| is_fresh(m, now))
}

/// Whether `m` says this in this channel as this user.
pub open spec fn says(
    m: Sent,
    irc_channel: Seq<char>,
    username: Seq<char>,
    message: Seq<char>,
) -> bool {
    m.irc_channel == irc_channel && m.username == username && m.message == message
}

/// Whether one of `recent` says this in this channel as this user.
pub open spec fn is_among(
    recent: Seq<Sent>,
    irc_channel: Seq<char>,
    username: Seq<char>,
    message: Seq<char>,
) -> bool {
    exists|i: int|
        0 <= i < recent.len() && says(#[trigger] recent[i], irc_channel, username, message)
}

/// The message that was sent when a relay was spoken at this time.
pub open spec fn sent_relay(relay: matrix_side::IrcRelayView, now: u128) -> Sent {
    Sent {
        irc_channel: relay.irc_channel,
        username: relay.username,
        message: relay.message,
        at: now,
    }
}

/// The sent messages after one more: if there are too many, the oldest leaves.
pub open spec fn with_sent(recent: Seq<Sent>, m: Sent) -> Seq<Sent> {
    if recent.len() + 1 > RECENT_LIMIT {
        recent.push(m).drop_first()
    } else {
        recent.push(m)
    }
}

/// How to log in to the IRC server.
#[derive(Debug)]
pub struct IrcLogin {
    pub nickname: String,
    pub server: String,
    pub port: u16,
    pub use_tls: bool,
    pub channels: Vec<String>,
    pub password: Option<String>,
}

/// The IRC server and the channels to join there.
#[verifier::ext_equal]
pub struct IrcServer {
    pub server: Seq<char>,
    pub port: u16,
    pub use_tls: bool,
    pub channels: Seq<Seq<char>>,
    pub password: Option<Seq<char>>,
}

/// The texts of a list of strings.
pub open spec fn names_of(names: Seq<String>) -> Seq<Seq<char>> {
    names.map_values(|s: String| s@)
}

/// The channels of the bridges, in their order.
pub open spec fn channels_of(configs: Seq<BridgeConfig>) -> Seq<Seq<char>> {
    configs.map_values(|c: BridgeConfig| c.irc_channel@)
}

/// The server that the operator configured, with the channels of all bridges.
pub open spec fn server_of(settings: Settings) -> IrcServer {
    IrcServer {
        server: settings.irc_server@,
        port: settings.irc_port,
        use_tls: settings.irc_use_tls,
        channels: channels_of(settings.bridges@),
        password: text::text_of(settings.irc_password),
    }
}

/// Whether `login` logs in to `server` with this nickname and joins all its channels.
pub open spec fn is_login(login: IrcLogin, server: IrcServer, nickname: Seq<char>) -> bool {
    &&& login.nickname@ == nickname
    &&& server == (IrcServer {
        server: login.server@,
        port: login.port,
        use_tls: login.use_tls,
        channels: names_of(login.channels@),
        password: text::text_of(login.password),
    })
}

/// What to do next to say something on IRC.
#[derive(Debug)]
pub enum SendAction {
    /// Connect to the server with this login.
    Connect(IrcLogin),
    /// Send the message over the connection of its user.
    Transmit,
    /// Nothing more.
    Done,
}

/// How an action came out.
pub enum SendEvent<C> {
    /// The connection was made.
    Connected(C),
    /// The message was sent, at this time.
    Transmitted(u128),
    /// There is no connection, or the message could not be sent.
    Failed,
}

/// What to say in the Matrix room of a channel.
#[derive(Debug)]
pub struct MatrixRelay {
    pub irc_channel: String,
    pub username: String,
    pub message: String,
}

/// A `MatrixRelay` by its texts.
#[verifier::ext_equal]
pub struct MatrixRelayView {
    pub irc_channel: Seq<char>,
    pub username: Seq<char>,
    pub message: Seq<char>,
}

impl View for MatrixRelay {
    type V = MatrixRelayView;

    open spec fn view(&self) -> MatrixRelayView {
        MatrixRelayView {
            irc_channel: self.irc_channel@,
            username: self.username@,
            message: self.message@,
        }
    }
}

/// The state of the IRC side.
#[verifier::ext_equal]
#[verifier::reject_recursive_types(C)]
pub struct IrcState<C> {
    /// The server and its channels.
    pub server: IrcServer,
    /// The Matrix users who spoke on IRC.
    pub users: Set<Seq<char>>,
    /// The connections of Matrix users.
    pub connections: Map<Seq<char>, C>,
    /// The messages that were sent to IRC, the oldest first.
    pub recent: Seq<Sent>,
}

/// The name of who said something on IRC.
pub open spec fn speaker(nickname: Option<Seq<char>>) -> Seq<char> {
    match nickname {
        Some(name) => name,
        None => "Unknown"@,
    }
}

/// How a message from IRC reads on Matrix.
pub open spec fn quoted(username: Seq<char>, message: Seq<char>) -> Seq<char> {
    "<"@ + username + "> "@ + message
}

/// The state after something was heard on IRC: if a Matrix user seems to have said it, the
/// messages that are too old to come back are forgotten.
pub open spec fn state_after_hearing<C>(
    pre: IrcState<C>,
    nickname: Option<Seq<char>>,
    now: u128,
) -> IrcState<C> {
    if pre.users.contains(speaker(nickname)) {
        IrcState { recent: fresh_only(pre.recent, now), ..pre }
    } else {
        pre
    }
}

/// Whether what was heard on IRC is a message that the bridge itself has just sent.
pub open spec fn is_echo<C>(
    pre: IrcState<C>,
    target: Seq<char>,
    nickname: Option<Seq<char>>,
    message: Seq<char>,
    now: u128,
) -> bool {
    pre.users.contains(speaker(nickname)) && is_among(
        fresh_only(pre.recent, now),
        target,
        speaker(nickname),
        message,
    )
}

/// What can happen on the IRC side.
pub enum IrcStep<C> {
    /// A user begins to speak.
    Begin(Seq<char>),
    /// A user gets a connection.
    Attach(Seq<char>, C),
    /// A message was sent.
    Sent(Sent),
    /// Something was heard, said under this nickname and at this time.
    Heard(Option<Seq<char>>, u128),
    /// The connections of these users are dropped.
    Drop(Set<Seq<char>>),
}

/// The state after a step.
pub open spec fn after_step<C>(pre: IrcState<C>, step: IrcStep<C>) -> IrcState<C> {
    match step {
        IrcStep::Begin(user) => IrcState { users: pre.users.insert(user), ..pre },
        IrcStep::Attach(user, c) => IrcState {
            connections: pre.connections.insert(user, c),
            ..pre
        },
        IrcStep::Sent(m) => IrcState { recent: with_sent(pre.recent, m), ..pre },
        IrcStep::Heard(nickname, now) => state_after_hearing(pre, nickname, now),
        IrcStep::Drop(users) => IrcState { connections: pre.connections.remove_keys(users), ..pre },
    }
}

/// Forgets the messages that are too old to come back.
fn retain_fresh(recent: &mut Vec<SentMessage>, now: u128)
    ensures
        sents(final(recent)@) == fresh_only(sents(old(recent)@), now),
{
    let ghost all = sents(recent@);
    let ghost mut done: int = 0;
    let ghost f = |m: Sent| is_fresh(m, now);
    let mut i: usize = 0;
    proof {
        reveal(Seq::filter);
        assert(all.take(0).filter(f) =~= Seq::empty());
        assert(sents(recent@) =~= all.take(0).filter(f) + all.skip(0));
    }
    while i < recent.len()
        invariant
            0 <= done <= all.len(),
            f == (|m: Sent| is_fresh(m, now)),
            i == all.take(done).filter(f).len(),
            recent@.len() == i + (all.len() - done),
            sents(recent@) == all.take(done).filter(f) + all.skip(done),
        decreases recent.len() - i,
    {
        let ghost before = sents(recent@);
        let at: u128 = recent[i].at;
        let age: u128 = if now >= at {
            now - at
        } else {
            0
        };
        proof {
            reveal(Seq::filter);
            assert(before[i as int] == all[done]);
            assert(recent@[i as int]@ == before[i as int]);
            assert(all.take(done + 1).drop_last() =~= all.take(done));
        }
        if age / NANOS_PER_SECOND < ECHO_SECONDS {
            proof {
                assert(f(all[done]));
                assert(all.take(done + 1).filter(f) == all.take(done).filter(f).push(all[done]));
                assert(before =~= all.take(done + 1).filter(f) + all.skip(done + 1));
            }
            i += 1;
        } else {
            recent.remove(i);
            proof {
                assert(!f(all[done]));
                assert(sents(recent@) =~= before.remove(i as int));
                assert(before.remove(i as int) =~= all.take(done + 1).filter(f) + all.skip(
                    done + 1,
                ));
            }
        }
        proof {
            done = done + 1;
        }
    }
    proof {
        assert(all.take(done) =~= all);
        assert(sents(recent@) =~= all.filter(f));
    }
}

/// Whether one of `recent` says this in this channel as this user.
fn any_says(recent: &Vec<SentMessage>, irc_channel: &String, username: &String, message: &String) -> (b:
    bool)
    ensures
        b == is_among(sents(recent@), irc_channel@, username@, message@),
{
    let mut i: usize = 0;
    while i < recent.len()
        invariant
            i <= recent.len(),
            forall|j: int|
                0 <= j < i ==> !says(
                    #[trigger] sents(recent@)[j],
                    irc_channel@,
                    username@,
                    message@,
                ),
        decreases recent.len() - i,
    {
        let m = &recent[i];
        assert(sents(recent@)[i as int] == m@);
        if m.irc_channel == *irc_channel && m.username == *username && m.message == *message {
            return true;
        }
        i += 1;
    }
    false
}

/// Copies a list of strings.
fn copy_names(names: &Vec<String>) -> (copy: Vec<String>)
    ensures
        names_of(copy@) == names_of(names@),
{
    let mut copy: Vec<String> = Vec::new();
    let mut i: usize = 0;
    while i < names.len()
        invariant
            i <= names.len(),
            copy.len() == i,
            forall|j: int| 0 <= j < i ==> #[trigger] copy@[j] == names@[j],
        decreases names.len() - i,
    {
        copy.push(names[i].clone());
        i += 1;
    }
    assert(copy@ =~= names@);
    copy
}

/// The IRC side of the bridge, over the connections `C`.
#[verifier::reject_recursive_types(C)]
pub struct IrcSide<C> {
    server: String,
    port: u16,
    use_tls: bool,
    channels: Vec<String>,
    password: Option<String>,
    users: StringHashSet,
    connections: KeyedMap<C>,
    recent: Vec<SentMessage>,
}

impl<C> View for IrcSide<C> {
    type V = IrcState<C>;

    closed spec fn view(&self) -> IrcState<C> {
        IrcState {
            server: IrcServer {
                server: self.server@,
                port: self.port,
                use_tls: self.use_tls,
                channels: names_of(self.channels@),
                password: text::text_of(self.password),
            },
            users: self.users@,
            connections: self.connections@,
            recent: sents(self.recent@),
        }
    }
}

impl<C> IrcSide<C> {
    /// The connections are well formed, and there are not too many sent messages.
    pub closed spec fn wf(&self) -> bool {
        self.connections.wf() && self.recent@.len() <= RECENT_LIMIT
    }

    /// There are finitely many connections, and not too many sent messages.
    pub proof fn lemma_wf(&self)
        requires
            self.wf(),
        ensures
            self@.connections.dom().finite(),
            self@.recent.len() <= RECENT_LIMIT,
    {
        self.connections.lemma_wf();
    }

    /// The IRC side at its start.
    pub fn new(settings: &Settings) -> (side: Self)
        ensures
            side.wf(),
            side@ == (IrcState::<C> {
                server: server_of(*settings),
                users: Set::empty(),
                connections: Map::empty(),
                recent: Seq::empty(),
            }),
    {
        let mut channels: Vec<String> = Vec::new();
        let mut i: usize = 0;
        while i < settings.bridges.len()
            invariant
                i <= settings.bridges.len(),
                channels.len() == i,
                forall|j: int|
                    0 <= j < i ==> (#[trigger] channels@[j])@ == settings.bridges@[j].irc_channel@,
            decreases settings.bridges.len() - i,
        {
            channels.push(settings.bridges[i].irc_channel.clone());
            i += 1;
        }
        assert(names_of(channels@) =~= channels_of(settings.bridges@));
        let side = IrcSide {
            server: settings.irc_server.clone(),
            port: settings.irc_port,
            use_tls: settings.irc_use_tls,
            channels,
            password: settings.irc_password.clone(),
            users: StringHashSet::new(),
            connections: KeyedMap::new(),
            recent: Vec::new(),
        };
        assert(side@.recent =~= Seq::empty());
        side
    }

    /// The login with a nickname.
    fn login(&self, nickname: &str) -> (login: IrcLogin)
        ensures
            is_login(login, self@.server, nickname@),
    {
        IrcLogin {
            nickname: nickname.to_owned(),
            server: self.server.clone(),
            port: self.port,
            use_tls: self.use_tls,
            channels: copy_names(&self.channels),
            password: self.password.clone(),
        }
    }

    /// The login of the connection that listens to all channels.
    pub fn listener_login(&self) -> (login: IrcLogin)
        ensures
            is_login(login, self@.server, "bridge_listener"@),
    {
        self.login("bridge_listener")
    }

    /// Begins to speak as a Matrix user, who needs a connection first.
    pub fn start_send(&mut self, username: &str) -> (action: SendAction)
        requires
            old(self).wf(),
        ensures
            final(self).wf(),
            final(self)@ == after_step(old(self)@, IrcStep::Begin(username@)),
            match action {
                SendAction::Connect(login) => !old(self)@.connections.contains_key(username@)
                    && is_login(login, old(self)@.server, username@),
                SendAction::Transmit => old(self)@.connections.contains_key(username@),
                SendAction::Done => false,
            },
    {
        self.users.insert(username.to_owned());
        if self.connections.contains_key(username) {
            SendAction::Transmit
        } else {
            SendAction::Connect(self.login(username))
        }
    }

    /// Takes the outcome of the last action for `relay` and says what to do next.
    pub fn resume_send(&mut self, relay: &IrcRelay, event: SendEvent<C>) -> (action: SendAction)
        requires
            old(self).wf(),
        ensures
            final(self).wf(),
            match event {
                SendEvent::Connected(c) => final(self)@ == after_step(
                    old(self)@,
                    IrcStep::Attach(relay.username@, c),
                ) && action is Transmit,
                SendEvent::Transmitted(now) => final(self)@ == after_step(
                    old(self)@,
                    IrcStep::Sent(sent_relay(relay@, now)),
                ) && action is Done,
                SendEvent::Failed => final(self)@ == old(self)@ && action is Done,
            },
    {
        match event {
            SendEvent::Connected(connection) => {
                self.connections.insert(relay.username.clone(), connection);
                SendAction::Transmit
            },
            SendEvent::Transmitted(now) => {
                self.record_sent(relay, now);
                SendAction::Done
            },
            SendEvent::Failed => SendAction::Done,
        }
    }

    /// The connection of a user.
    pub fn connection(&self, username: &str) -> (connection: Option<&C>)
        ensures
            match connection {
                Some(c) => self@.connections.contains_key(username@) && *c
                    == self@.connections[username@],
                None => !self@.connections.contains_key(username@),
            },
    {
        self.connections.get(username)
    }

    /// Notes that a message was sent.
    fn record_sent(&mut self, relay: &IrcRelay, now: u128)
        requires
            old(self).wf(),
        ensures
            final(self).wf(),
            final(self)@ == after_step(old(self)@, IrcStep::Sent(sent_relay(relay@, now))),
    {
        let sent = SentMessage {
            irc_channel: relay.irc_channel.clone(),
            username: relay.username.clone(),
            message: relay.message.clone(),
            at: now,
        };
        let ghost all = old(self)@.recent.push(sent@);
        self.recent.push(sent);
        assert(sents(self.recent@) =~= all);
        if self.recent.len() > RECENT_LIMIT {
            self.recent.remove(0);
            assert(sents(self.recent@) =~= all.drop_first());
        }
    }

    /// Takes a message from IRC; `nickname` is that of its source, if it comes from a user. What to
    /// say on Matrix, or `None` if the message is an echo of what the bridge sent.
    pub fn hear(
        &mut self,
        target: &String,
        nickname: Option<String>,
        message: &String,
        now: u128,
    ) -> (relay: Option<MatrixRelay>)
        requires
            old(self).wf(),
        ensures
            final(self).wf(),
            final(self)@ == after_step(old(self)@, IrcStep::Heard(text::text_of(nickname), now)),
            match relay {
                Some(relay) => !is_echo(
                    old(self)@,
                    target@,
                    text::text_of(nickname),
                    message@,
                    now,
                ) && relay@ == (MatrixRelayView {
                    irc_channel: target@,
                    username: speaker(text::text_of(nickname)),
                    message: quoted(speaker(text::text_of(nickname)), message@),
                }),
                None => is_echo(old(self)@, target@, text::text_of(nickname), message@, now),
            },
    {
        let username: String = match nickname {
            Some(name) => name,
            None => "Unknown".to_owned(),
        };
        if self.users.contains(username.as_str()) {
            retain_fresh(&mut self.recent, now);
            proof {
                old(self)@.recent.lemma_filter_len(|m: Sent| is_fresh(m, now));
            }
            if any_says(&self.recent, target, &username, message) {
                return None;
            }
        }
        let mut said = "<".to_owned();
        said.append(username.as_str());
        said.append("> ");
        said.append(message.as_str());
        Some(MatrixRelay { irc_channel: target.clone(), username, message: said })
    }

    /// The users with a connection.
    pub fn connected_users(&self) -> (users: Vec<String>)
        requires
            self.wf(),
        ensures
            users.len() == self@.connections.len(),
            forall|u: Seq<char>|
                #![trigger self@.connections.contains_key(u)]
                self@.connections.contains_key(u) <==> rooms::is_listed(users@, u),
    {
        self.connections.keys()
    }

    /// Drops the connections of the users in `finished`, and counts the dropped connections.
    pub fn drop_connections(&mut self, finished: &Vec<String>) -> (removed: usize)
        requires
            old(self).wf(),
        ensures
            final(self).wf(),
            final(self)@ == after_step(
                old(self)@,
                IrcStep::Drop(Set::new(|u: Seq<char>| rooms::is_listed(finished@, u))),
            ),
            removed == old(self)@.connections.len() - final(self)@.connections.len(),
    {
        let before: usize = self.connections.len();
        let mut i: usize = 0;
        let ghost all = self.connections@;
        assert(all.remove_keys(Set::new(|u: Seq<char>| rooms::is_listed(finished@.take(0), u)))
            =~= all);
        while i < finished.len()
            invariant
                i <= finished.len(),
                self.connections.wf(),
                self.connections@ == all.remove_keys(
                    Set::new(|u: Seq<char>| rooms::is_listed(finished@.take(i as int), u)),
                ),
                *self == (IrcSide { connections: self.connections, ..*old(self) }),
            decreases finished.len() - i,
        {
            self.connections.remove(finished[i].as_str());
            proof {
                assert forall|u: Seq<char>| #[trigger]
                    rooms::is_listed(finished@.take(i + 1), u) <==> rooms::is_listed(
                        finished@.take(i as int),
                        u,
                    ) || u == finished@[i as int]@ by {
                    rooms::lemma_listed_one_more(finished@, i as int, u);
                }
                assert(self.connections@ =~= all.remove_keys(
                    Set::new(|u: Seq<char>| rooms::is_listed(finished@.take(i + 1), u)),
                ));
            }
            i += 1;
        }
        proof {
            assert(finished@.take(i as int) =~= finished@);
            vstd::set_lib::lemma_len_subset(self.connections@.dom(), all.dom());
        }
        before - self.connections.len()
    }
}

/// The state after all of the steps, one after the other.
pub open spec fn after_steps<C>(pre: IrcState<C>, steps: Seq<IrcStep<C>>) -> IrcState<C>
    decreases steps.len(),
{
    if steps.len() == 0 {
        pre
    } else {
        after_step(after_steps(pre, steps.drop_last()), steps.last())
    }
}

/// How many of the steps send a message.
pub open spec fn send_count<C>(steps: Seq<IrcStep<C>>) -> nat
    decreases steps.len(),
{
    if steps.len() == 0 {
        0
    } else {
        send_count(steps.drop_last()) + if steps.last() is Sent {
            1nat
        } else {
            0nat
        }
    }
}

/// Whether nothing was heard later than `now`.
pub open spec fn heard_by<C>(steps: Seq<IrcStep<C>>, now: u128) -> bool {
    forall|i: int|
        0 <= i < steps.len() ==> match #[trigger] steps[i] {
            IrcStep::Heard(_, at) => at <= now,
            _ => true,
        }
}

/// Whether `m` is among `recent`, with no more than `k` messages after it.
spec fn is_within(recent: Seq<Sent>, m: Sent, k: int) -> bool {
    exists|p: int|
        0 <= p < recent.len() && #[trigger] recent[p] == m && recent.len() - 1 - p <= k
}

/// A message that may still come back stays when the others are forgotten.
proof fn lemma_fresh_stays(recent: Seq<Sent>, m: Sent, k: int, now: u128)
    requires
        is_within(recent, m, k),
        is_fresh(m, now),
    ensures
        is_within(fresh_only(recent, now), m, k),
    decreases recent.len(),
{
    reveal(Seq::filter);
    let p = choose|p: int|
        0 <= p < recent.len() && #[trigger] recent[p] == m && recent.len() - 1 - p <= k;
    let init = recent.drop_last();
    let kept = fresh_only(init, now);
    let all = fresh_only(recent, now);
    if p == recent.len() - 1 {
        assert(all == kept.push(m));
        assert(all[all.len() - 1] == m);
    } else {
        assert(init[p] == m);
        lemma_fresh_stays(init, m, k - 1, now);
        let q = choose|q: int|
            0 <= q < kept.len() && #[trigger] kept[q] == m && kept.len() - 1 - q <= k - 1;
        assert(all[q] == m);
    }
}

/// A sent message stays until too many others were sent.
proof fn lemma_sent_stays(recent: Seq<Sent>, m: Sent, k: int, other: Sent)
    requires
        is_within(recent, m, k),
        k + 1 < RECENT_LIMIT,
        recent.len() <= RECENT_LIMIT,
    ensures
        is_within(with_sent(recent, other), m, k + 1),
{
    let p = choose|p: int|
        0 <= p < recent.len() && #[trigger] recent[p] == m && recent.len() - 1 - p <= k;
    let next = with_sent(recent, other);
    if recent.len() + 1 > RECENT_LIMIT {
        assert(next[p - 1] == m);
    } else {
        assert(next[p] == m);
    }
}

/// No step makes the list of sent messages too long, and none forgets a user.
pub proof fn lemma_step_keeps<C>(pre: IrcState<C>, step: IrcStep<C>)
    requires
        pre.recent.len() <= RECENT_LIMIT,
    ensures
        after_step(pre, step).recent.len() <= RECENT_LIMIT,
        pre.users.subset_of(after_step(pre, step).users),
        after_step(pre, step).server == pre.server,
{
    match step {
        IrcStep::Heard(nickname, now) => {
            pre.recent.lemma_filter_len(|m: Sent| is_fresh(m, now));
        },
        _ => {},
    }
}

/// A sent message is among the sent messages after further steps.
proof fn lemma_sent_stays_through<C>(
    pre: IrcState<C>,
    m: Sent,
    steps: Seq<IrcStep<C>>,
    now: u128,
)
    requires
        pre.recent.len() <= RECENT_LIMIT,
        pre.users.contains(m.username),
        is_fresh(m, now),
        heard_by(steps, now),
        send_count(steps) < RECENT_LIMIT,
    ensures
        ({
            let post = after_steps(after_step(pre, IrcStep::Sent(m)), steps);
            &&& post.recent.len() <= RECENT_LIMIT
            &&& post.users.contains(m.username)
            &&& is_within(post.recent, m, send_count(steps) as int)
        }),
    decreases steps.len(),
{
    let first = after_step(pre, IrcStep::Sent(m));
    lemma_step_keeps(pre, IrcStep::Sent(m));
    if steps.len() == 0 {
        assert(first.recent[first.recent.len() - 1] == m);
    } else {
        let init = steps.drop_last();
        assert forall|i: int| 0 <= i < init.len() implies match #[trigger] init[i] {
            IrcStep::Heard(_, at) => at <= now,
            _ => true,
        } by {
            assert(init[i] == steps[i]);
        }
        lemma_sent_stays_through(pre, m, init, now);
        let mid = after_steps(first, init);
        let last = steps[steps.len() - 1];
        assert(last == steps.last());
        lemma_step_keeps(mid, last);
        match last {
            IrcStep::Sent(other) => {
                lemma_sent_stays(mid.recent, m, send_count(init) as int, other);
            },
            IrcStep::Heard(nickname, at) => {
                lemma_fresh_stays(mid.recent, m, send_count(init) as int, at);
            },
            _ => {},
        }
    }
}

/// A message that the bridge sent for a Matrix user is taken for an echo when it comes back within
/// the echo time, whatever happens in between, if fewer messages than the limit are sent meanwhile.
pub proof fn lemma_echo_is_ignored<C>(
    pre: IrcState<C>,
    m: Sent,
    steps: Seq<IrcStep<C>>,
    now: u128,
)
    requires
        pre.recent.len() <= RECENT_LIMIT,
        pre.users.contains(m.username),
        is_fresh(m, now),
        heard_by(steps, now),
        send_count(steps) < RECENT_LIMIT,
    ensures
        is_echo(
            after_steps(after_step(pre, IrcStep::Sent(m)), steps),
            m.irc_channel,
            Some(m.username),
            m.message,
            now,
        ),
{
    let post = after_steps(after_step(pre, IrcStep::Sent(m)), steps);
    let k = send_count(steps) as int;
    lemma_sent_stays_through(pre, m, steps, now);
    lemma_fresh_stays(post.recent, m, k, now);
    let left = fresh_only(post.recent, now);
    let p = choose|p: int|
        0 <= p < left.len() && #[trigger] left[p] == m && left.len() - 1 - p <= k;
    assert(says(left[p], m.irc_channel, m.username, m.message));
}

/// No steps make the list of sent messages too long, and none forget a user.
pub proof fn lemma_steps_keep<C>(pre: IrcState<C>, steps: Seq<IrcStep<C>>)
    requires
        pre.recent.len() <= RECENT_LIMIT,
    ensures
        after_steps(pre, steps).recent.len() <= RECENT_LIMIT,
        pre.users.subset_of(after_steps(pre, steps).users),
        after_steps(pre, steps).server == pre.server,
    decreases steps.len(),
{
    if steps.len() > 0 {
        lemma_steps_keep(pre, steps.drop_last());
        lemma_step_keeps(after_steps(pre, steps.drop_last()), steps.last());
    }
}

/// A Matrix user's message does not come back to Matrix: once the user began to speak, whatever
/// happens before the message is sent and between that and its return, it is taken for an echo
/// within the echo time, if fewer messages than the limit are sent meanwhile.
pub proof fn lemma_relay_does_not_come_back<C>(
    pre: IrcState<C>,
    before: Seq<IrcStep<C>>,
    relay: matrix_side::IrcRelayView,
    at: u128,
    between: Seq<IrcStep<C>>,
    now: u128,
)
    requires
        pre.recent.len() <= RECENT_LIMIT,
        is_fresh(sent_relay(relay, at), now),
        heard_by(between, now),
        send_count(between) < RECENT_LIMIT,
    ensures
        ({
            let speaking = after_steps(after_step(pre, IrcStep::Begin(relay.username)), before);
            let sent = after_step(speaking, IrcStep::Sent(sent_relay(relay, at)));
            is_echo(
                after_steps(sent, between),
                relay.irc_channel,
                Some(relay.username),
                relay.message,
                now,
            )
        }),
{
    let begun = after_step(pre, IrcStep::Begin(relay.username));
    lemma_step_keeps(pre, IrcStep::Begin(relay.username));
    lemma_steps_keep(begun, before);
    lemma_echo_is_ignored(after_steps(begun, before), sent_relay(relay, at), between, now);
}

/// What someone says who never spoke through the bridge is never taken for an echo.
pub proof fn lemma_stranger_is_heard<C>(
    pre: IrcState<C>,
    target: Seq<char>,
    nickname: Option<Seq<char>>,
    message: Seq<char>,
    now: u128,
)
    requires
        !pre.users.contains(speaker(nickname)),
    ensures
        !is_echo(pre, target, nickname, message, now),
        state_after_hearing(pre, nickname, now) == pre,
{
}

/// Only one of the sent messages that are kept, and one sent within the echo time, makes an echo.
pub proof fn lemma_echo_was_sent<C>(
    pre: IrcState<C>,
    target: Seq<char>,
    nickname: Option<Seq<char>>,
    message: Seq<char>,
    now: u128,
) -> (m: Sent)
    requires
        is_echo(pre, target, nickname, message, now),
    ensures
        pre.recent.contains(m),
        says(m, target, speaker(nickname), message),
        is_fresh(m, now),
{
    let left = fresh_only(pre.recent, now);
    let i = choose|i: int|
        0 <= i < left.len() && says(#[trigger] left[i], target, speaker(nickname), message);
    lemma_fresh_is_recent(pre.recent, now, i);
    left[i]
}

/// What is left was there before, and may still come back.
proof fn lemma_fresh_is_recent(recent: Seq<Sent>, now: u128, i: int)
    requires
        0 <= i < fresh_only(recent, now).len(),
    ensures
        recent.contains(fresh_only(recent, now)[i]),
        is_fresh(fresh_only(recent, now)[i], now),
    decreases recent.len(),
{
    reveal(Seq::filter);
    let init = recent.drop_last();
    let kept = fresh_only(init, now);
    if i < kept.len() {
        lemma_fresh_is_recent(init, now, i);
        let j = choose|j: int| 0 <= j < init.len() && init[j] == kept[i];
        assert(recent[j] == kept[i]);
    } else {
        assert(recent[recent.len() - 1] == fresh_only(recent, now)[i]);
    }
}

/// The messages that the steps send, in their order.
pub open spec fn sent_messages<C>(steps: Seq<IrcStep<C>>) -> Seq<Sent>
    decreases steps.len(),
{
    if steps.len() == 0 {
        Seq::empty()
    } else {
        match steps.last() {
            IrcStep::Sent(m) => sent_messages(steps.drop_last()).push(m),
            _ => sent_messages(steps.drop_last()),
        }
    }
}

/// When a step happens, if that matters.
pub open spec fn step_time<C>(step: IrcStep<C>) -> Option<u128> {
    match step {
        IrcStep::Sent(m) => Some(m.at),
        IrcStep::Heard(_, at) => Some(at),
        _ => None,
    }
}

/// Whether the clock does not go back during the steps, nor after them until `now`.
pub open spec fn is_in_time<C>(steps: Seq<IrcStep<C>>, now: u128) -> bool {
    &&& forall|i: int|
        0 <= i < steps.len() && #[trigger] step_time(steps[i]) is Some ==> step_time(steps[i])->0
            <= now
    &&& forall|i: int, j: int|
        0 <= i < j < steps.len() && #[trigger] step_time(steps[i]) is Some && #[trigger] step_time(
            steps[j],
        ) is Some ==> step_time(steps[i])->0 <= step_time(steps[j])->0
}

/// Whether the user of every sent message began to speak before.
pub open spec fn is_begun<C>(steps: Seq<IrcStep<C>>) -> bool {
    forall|j: int|
        0 <= j < steps.len() ==> match #[trigger] steps[j] {
            IrcStep::Sent(m) => exists|i: int|
                0 <= i < j && #[trigger] steps[i] == IrcStep::<C>::Begin(m.username),
            _ => true,
        }
}

/// Whether one of the last sent messages, as many as are kept, says this and may still come back.
pub open spec fn was_just_sent(
    sent: Seq<Sent>,
    irc_channel: Seq<char>,
    username: Seq<char>,
    message: Seq<char>,
    now: u128,
) -> bool {
    exists|i: int|
        0 <= i < sent.len() && i >= sent.len() - RECENT_LIMIT && says(
            #[trigger] sent[i],
            irc_channel,
            username,
            message,
        ) && is_fresh(sent[i], now)
}

/// Whether the messages stand in the order of their times.
spec fn is_sorted(sent: Seq<Sent>) -> bool {
    forall|i: int, j: int|
        #![trigger sent[i], sent[j]]
        0 <= i < j < sent.len() ==> sent[i].at <= sent[j].at
}

/// Whether `recent` are the sent messages from `d` on, and the last ones before that, as many as
/// are kept, cannot come back any more.
spec fn is_rest(recent: Seq<Sent>, sent: Seq<Sent>, d: int, now: u128) -> bool {
    &&& 0 <= d <= sent.len()
    &&& sent.len() - d <= RECENT_LIMIT
    &&& recent == sent.skip(d)
    &&& forall|i: int|
        0 <= i < d && i >= sent.len() - RECENT_LIMIT ==> !is_fresh(#[trigger] sent[i], now)
}

/// Of messages in the order of their times the older ones are forgotten.
proof fn lemma_fresh_of_sorted(sent: Seq<Sent>, now: u128) -> (d: int)
    requires
        is_sorted(sent),
    ensures
        0 <= d <= sent.len(),
        fresh_only(sent, now) == sent.skip(d),
        forall|i: int| 0 <= i < d ==> !is_fresh(#[trigger] sent[i], now),
    decreases sent.len(),
{
    reveal(Seq::filter);
    if sent.len() == 0 {
        assert(fresh_only(sent, now) =~= sent.skip(0));
        0
    } else {
        let init = sent.drop_last();
        assert(is_sorted(init)) by {
            assert forall|i: int, j: int|
                #![trigger init[i], init[j]]
                0 <= i < j < init.len() implies init[i].at <= init[j].at by {
                assert(sent[i].at <= sent[j].at);
            }
        }
        let d = lemma_fresh_of_sorted(init, now);
        let n = sent.len() as int;
        assert forall|i: int| 0 <= i < d implies !is_fresh(#[trigger] sent[i], now) by {
            assert(init[i] == sent[i]);
        }
        if is_fresh(sent[n - 1], now) {
            assert(fresh_only(sent, now) == fresh_only(init, now).push(sent[n - 1]));
            assert(fresh_only(sent, now) =~= sent.skip(d));
            d
        } else {
            if d < n - 1 {
                let kept = fresh_only(init, now);
                assert(kept[0] == init[d]);
                lemma_fresh_is_recent(init, now, 0);
                assert(sent[d].at <= sent[n - 1].at);
                assert(false);
            }
            assert(fresh_only(sent, now) =~= sent.skip(n));
            n
        }
    }
}

/// The sent messages after one more are still the last ones.
proof fn lemma_rest_after_sent(recent: Seq<Sent>, sent: Seq<Sent>, d: int, m: Sent, now: u128) -> (e:
    int)
    requires
        is_rest(recent, sent, d, now),
    ensures
        is_rest(with_sent(recent, m), sent.push(m), e, now),
{
    let all = sent.push(m);
    let e = if recent.len() + 1 > RECENT_LIMIT {
        d + 1
    } else {
        d
    };
    assert(with_sent(recent, m) =~= all.skip(e));
    assert forall|i: int| 0 <= i < e && i >= all.len() - RECENT_LIMIT implies !is_fresh(
        #[trigger] all[i],
        now,
    ) by {
        assert(all[i] == sent[i]);
    }
    e
}

/// The sent messages after something was heard are still the last ones.
proof fn lemma_rest_after_heard(recent: Seq<Sent>, sent: Seq<Sent>, d: int, at: u128, now: u128) -> (e:
    int)
    requires
        is_rest(recent, sent, d, now),
        is_sorted(sent),
        at <= now,
    ensures
        is_rest(fresh_only(recent, at), sent, e, now),
{
    assert(is_sorted(recent)) by {
        assert forall|i: int, j: int|
            #![trigger recent[i], recent[j]]
            0 <= i < j < recent.len() implies recent[i].at <= recent[j].at by {
            assert(sent[i + d].at <= sent[j + d].at);
        }
    }
    let k = lemma_fresh_of_sorted(recent, at);
    let e = d + k;
    assert(recent.skip(k) =~= sent.skip(e));
    assert forall|i: int| 0 <= i < e && i >= sent.len() - RECENT_LIMIT implies !is_fresh(
        #[trigger] sent[i],
        now,
    ) by {
        if i >= d {
            assert(recent[i - d] == sent[i]);
            assert(!is_fresh(recent[i - d], at));
        }
    }
    e
}

/// What holds of the sent messages after a history.
proof fn lemma_history<C>(pre: IrcState<C>, steps: Seq<IrcStep<C>>, now: u128) -> (d: int)
    requires
        pre.recent.len() == 0,
        is_in_time(steps, now),
        is_begun(steps),
    ensures
        is_rest(after_steps(pre, steps).recent, sent_messages(steps), d, now),
        is_sorted(sent_messages(steps)),
        forall|i: int|
            0 <= i < sent_messages(steps).len() ==> steps.contains(
                IrcStep::Sent(#[trigger] sent_messages(steps)[i]),
            ),
        forall|i: int|
            0 <= i < sent_messages(steps).len() ==> after_steps(pre, steps).users.contains(
                (#[trigger] sent_messages(steps)[i]).username,
            ),
        forall|i: int|
            0 <= i < steps.len() ==> match #[trigger] steps[i] {
                IrcStep::Begin(user) => after_steps(pre, steps).users.contains(user),
                _ => true,
            },
    decreases steps.len(),
{
    let sent = sent_messages(steps);
    if steps.len() == 0 {
        assert(pre.recent =~= sent.skip(0));
        0
    } else {
        let init = steps.drop_last();
        let n = steps.len() as int;
        let last = steps[n - 1];
        let mid = after_steps(pre, init);
        let post = after_steps(pre, steps);
        let before = sent_messages(init);
        assert(last == steps.last());
        lemma_shorter_history(steps, now);
        let d = lemma_history(pre, init, now);
        assert(mid.users.subset_of(post.users));
        assert forall|i: int| 0 <= i < n implies match #[trigger] steps[i] {
            IrcStep::Begin(user) => post.users.contains(user),
            _ => true,
        } by {
            if i < n - 1 {
                assert(init[i] == steps[i]);
            }
        }
        assert forall|i: int| 0 <= i < sent.len() implies steps.contains(
            IrcStep::Sent(#[trigger] sent[i]),
        ) by {
            if i < before.len() {
                assert(sent[i] == before[i]);
                let j = choose|j: int|
                    0 <= j < init.len() && init[j] == IrcStep::<C>::Sent(before[i]);
                assert(steps[j] == IrcStep::<C>::Sent(sent[i]));
            } else {
                assert(steps[n - 1] == IrcStep::<C>::Sent(sent[i]));
            }
        }
        match last {
            IrcStep::Sent(m) => {
                assert(sent == before.push(m));
                assert(is_sorted(sent)) by {
                    assert forall|i: int, j: int|
                        #![trigger sent[i], sent[j]]
                        0 <= i < j < sent.len() implies sent[i].at <= sent[j].at by {
                        assert(sent[i] == before[i]);
                        if j < before.len() {
                            assert(sent[j] == before[j]);
                        } else {
                            let k = choose|k: int|
                                0 <= k < init.len() && init[k] == IrcStep::<C>::Sent(before[i]);
                            assert(steps[k] == init[k]);
                            assert(step_time(steps[k]) == Some(before[i].at));
                            assert(step_time(steps[n - 1]) == Some(m.at));
                        }
                    }
                }
                let b = choose|b: int|
                    0 <= b < n - 1 && #[trigger] steps[b] == IrcStep::<C>::Begin(m.username);
                assert(post.users.contains(m.username));
                assert forall|i: int| 0 <= i < sent.len() implies post.users.contains(
                    (#[trigger] sent[i]).username,
                ) by {
                    if i < before.len() {
                        assert(sent[i] == before[i]);
                    }
                }
                lemma_rest_after_sent(mid.recent, before, d, m, now)
            },
            IrcStep::Heard(nickname, at) => {
                assert(step_time(steps[n - 1]) == Some(at));
                if mid.users.contains(speaker(nickname)) {
                    lemma_rest_after_heard(mid.recent, before, d, at, now)
                } else {
                    d
                }
            },
            _ => d,
        }
    }
}

/// A history without its last step is a history.
proof fn lemma_shorter_history<C>(steps: Seq<IrcStep<C>>, now: u128)
    requires
        steps.len() > 0,
        is_in_time(steps, now),
        is_begun(steps),
    ensures
        is_in_time(steps.drop_last(), now),
        is_begun(steps.drop_last()),
{
    let init = steps.drop_last();
    assert forall|i: int| 0 <= i < init.len() && #[trigger] step_time(
        init[i],
    ) is Some implies step_time(init[i])->0 <= now by {
        assert(step_time(steps[i]) == step_time(init[i]));
    }
    assert forall|i: int, j: int|
        0 <= i < j < init.len() && #[trigger] step_time(init[i]) is Some && #[trigger] step_time(
            init[j],
        ) is Some implies step_time(init[i])->0 <= step_time(init[j])->0 by {
        assert(step_time(steps[i]) == step_time(init[i]));
        assert(step_time(steps[j]) == step_time(init[j]));
    }
    assert forall|j: int| 0 <= j < init.len() implies match #[trigger] init[j] {
        IrcStep::Sent(m) => exists|i: int|
            0 <= i < j && #[trigger] init[i] == IrcStep::<C>::Begin(m.username),
        _ => true,
    } by {
        assert(init[j] == steps[j]);
        match init[j] {
            IrcStep::Sent(m) => {
                let i = choose|i: int|
                    0 <= i < j && #[trigger] steps[i] == IrcStep::<C>::Begin(m.username);
                assert(init[i] == IrcStep::<C>::Begin(m.username));
            },
            _ => {},
        }
    }
}

/// What is an echo, over a whole history: if nothing was sent before the steps, every user began to
/// speak before sending, and the clock does not go back, then what is heard is taken for an echo if
/// and only if one of the last sent messages, as many as are kept, says just this in this channel
/// under this name and was sent within the echo time.
pub proof fn lemma_echo_over_history<C>(
    pre: IrcState<C>,
    steps: Seq<IrcStep<C>>,
    target: Seq<char>,
    nickname: Option<Seq<char>>,
    message: Seq<char>,
    now: u128,
)
    requires
        pre.recent.len() == 0,
        is_in_time(steps, now),
        is_begun(steps),
    ensures
        is_echo(after_steps(pre, steps), target, nickname, message, now) <==> was_just_sent(
            sent_messages(steps),
            target,
            speaker(nickname),
            message,
            now,
        ),
{
    let post = after_steps(pre, steps);
    let sent = sent_messages(steps);
    let d = lemma_history(pre, steps, now);
    let who = speaker(nickname);
    if is_echo(post, target, nickname, message, now) {
        let m = lemma_echo_was_sent(post, target, nickname, message, now);
        let i = choose|i: int| 0 <= i < post.recent.len() && post.recent[i] == m;
        assert(sent[i + d] == m);
    }
    if was_just_sent(sent, target, who, message, now) {
        let i = choose|i: int|
            0 <= i < sent.len() && i >= sent.len() - RECENT_LIMIT && says(
                #[trigger] sent[i],
                target,
                who,
                message,
            ) && is_fresh(sent[i], now);
        assert(i >= d);
        assert(post.recent[i - d] == sent[i]);
        assert(is_within(post.recent, sent[i], RECENT_LIMIT as int));
        lemma_fresh_stays(post.recent, sent[i], RECENT_LIMIT as int, now);
        let left = fresh_only(post.recent, now);
        let p = choose|p: int|
            0 <= p < left.len() && #[trigger] left[p] == sent[i] && left.len() - 1 - p
                <= RECENT_LIMIT;
        assert(says(left[p], target, who, message));
        assert(post.users.contains(sent[i].username));
    }
}

/// What was sent and what is said on Matrix are seen by their whole texts.
pub proof fn lemma_views_are_whole(sent: SentMessage, relay: MatrixRelay)
    ensures
        sent@.irc_channel == sent.irc_channel@,
        sent@.username == sent.username@,
        sent@.message == sent.message@,
        sent@.at == sent.at,
        relay@.irc_channel == relay.irc_channel@,
        relay@.username == relay.username@,
        relay@.message == relay.message@,
{
}

/// What is said on Matrix reads: the nickname in angle brackets, a space, and all of the message
/// that was heard, word for word, whatever its length.
pub proof fn lemma_quoted_parts(username: Seq<char>, message: Seq<char>)
    ensures
        quoted(username, message).len() == username.len() + message.len() + 3,
        quoted(username, message)[0] == '<',
        quoted(username, message).subrange(1, 1 + username.len() as int) == username,
        quoted(username, message).subrange(1 + username.len() as int, 3 + username.len() as int)
            == seq!['>', ' '],
        quoted(username, message).skip(3 + username.len() as int) == message,
{
    reveal_strlit("<");
    reveal_strlit("> ");
    let t = quoted(username, message);
    let u = username.len() as int;
    assert(t.subrange(1, 1 + u) =~= username);
    assert(t.subrange(1 + u, 3 + u) =~= seq!['>', ' ']);
    assert(t.skip(3 + u) =~= message);
}

/// Two different messages of one user never read the same on Matrix.
pub proof fn lemma_quoted_differ(username: Seq<char>, a: Seq<char>, b: Seq<char>)
    requires
        a != b,
    ensures
        quoted(username, a) != quoted(username, b),
{
    lemma_quoted_parts(username, a);
    lemma_quoted_parts(username, b);
}

/// Who has a nickname speaks under it, whatever it is, and all others speak under one fixed name.
pub proof fn lemma_speaker(name: Seq<char>)
    ensures
        speaker(Some(name)) == name,
        speaker(None) == seq!['U', 'n', 'k', 'n', 'o', 'w', 'n'],
{
    reveal_strlit("Unknown");
    assert("Unknown"@ =~= seq!['U', 'n', 'k', 'n', 'o', 'w', 'n']);
}

/// A sent message may come back as an echo for just five seconds.
pub proof fn lemma_fresh_for_five_seconds(m: Sent, now: u128)
    ensures
        is_fresh(m, now) <==> now < m.at + 5_000_000_000,
{
}

/// Of the sent messages just those leave that cannot come back any more, one by one, and the others
/// stay in their order.
pub proof fn lemma_fresh_only(recent: Seq<Sent>, m: Sent, now: u128)
    ensures
        fresh_only(Seq::empty(), now) == Seq::<Sent>::empty(),
        now < m.at + 5_000_000_000 ==> fresh_only(recent.push(m), now) == fresh_only(
            recent,
            now,
        ).push(m),
        now >= m.at + 5_000_000_000 ==> fresh_only(recent.push(m), now) == fresh_only(recent, now),
{
    reveal(Seq::filter);
    assert(recent.push(m).drop_last() =~= recent);
    lemma_fresh_for_five_seconds(m, now);
}

/// What was said in a channel as a user is among the sent messages exactly if one of them has the
/// same channel, the same user and the same text.
pub proof fn lemma_is_among(
    recent: Seq<Sent>,
    irc_channel: Seq<char>,
    username: Seq<char>,
    message: Seq<char>,
)
    ensures
        is_among(recent, irc_channel, username, message) <==> exists|i: int|
            0 <= i < recent.len() && (#[trigger] recent[i]).irc_channel == irc_channel
                && recent[i].username == username && recent[i].message == message,
{
    if is_among(recent, irc_channel, username, message) {
        let i = choose|i: int|
            0 <= i < recent.len() && says(#[trigger] recent[i], irc_channel, username, message);
        assert(recent[i].irc_channel == irc_channel);
    }
    if exists|i: int|
        0 <= i < recent.len() && (#[trigger] recent[i]).irc_channel == irc_channel
            && recent[i].username == username && recent[i].message == message {
        let i = choose|i: int|
            0 <= i < recent.len() && (#[trigger] recent[i]).irc_channel == irc_channel
                && recent[i].username == username && recent[i].message == message;
        assert(says(recent[i], irc_channel, username, message));
    }
}

/// What is heard is taken for an echo exactly if a Matrix user of this name spoke before and one of
/// the kept messages has the same channel, the same user and the same text and was sent less than
/// five seconds ago. Everything else is said on Matrix.
pub proof fn lemma_echo_exactly<C>(
    pre: IrcState<C>,
    target: Seq<char>,
    nickname: Option<Seq<char>>,
    message: Seq<char>,
    now: u128,
)
    ensures
        is_echo(pre, target, nickname, message, now) <==> pre.users.contains(speaker(nickname))
            && exists|i: int|
            0 <= i < pre.recent.len() && (#[trigger] pre.recent[i]).irc_channel == target
                && pre.recent[i].username == speaker(nickname) && pre.recent[i].message == message
                && now < pre.recent[i].at + 5_000_000_000,
{
    let who = speaker(nickname);
    let left = fresh_only(pre.recent, now);
    if is_echo(pre, target, nickname, message, now) {
        let m = lemma_echo_was_sent(pre, target, nickname, message, now);
        let i = choose|i: int| 0 <= i < pre.recent.len() && pre.recent[i] == m;
        lemma_fresh_for_five_seconds(m, now);
        assert(pre.recent[i].irc_channel == target);
    }
    if pre.users.contains(who) && exists|i: int|
        0 <= i < pre.recent.len() && (#[trigger] pre.recent[i]).irc_channel == target
            && pre.recent[i].username == who && pre.recent[i].message == message && now
            < pre.recent[i].at + 5_000_000_000 {
        let i = choose|i: int|
            0 <= i < pre.recent.len() && (#[trigger] pre.recent[i]).irc_channel == target
                && pre.recent[i].username == who && pre.recent[i].message == message && now
                < pre.recent[i].at + 5_000_000_000;
        let m = pre.recent[i];
        let k = pre.recent.len() as int;
        lemma_fresh_for_five_seconds(m, now);
        assert(is_within(pre.recent, m, k));
        lemma_fresh_stays(pre.recent, m, k, now);
        let p = choose|p: int|
            0 <= p < left.len() && #[trigger] left[p] == m && left.len() - 1 - p <= k;
        assert(says(left[p], target, who, message));
    }
}

/// A message that is sent is kept as it was said, with its time, as the newest one. The others stay
/// in their order, but for the oldest one if there are a hundred already.
pub proof fn lemma_sent_is_kept<C>(
    pre: IrcState<C>,
    relay: matrix_side::IrcRelayView,
    now: u128,
)
    requires
        pre.recent.len() <= 100,
    ensures
        ({
            let recent = pre.recent;
            let after = after_step(pre, IrcStep::Sent(sent_relay(relay, now))).recent;
            let gone: int = if recent.len() == 100 {
                1
            } else {
                0
            };
            &&& after.len() == recent.len() + 1 - gone
            &&& after.drop_last() == recent.skip(gone)
            &&& after.last().irc_channel == relay.irc_channel
            &&& after.last().username == relay.username
            &&& after.last().message == relay.message
            &&& after.last().at == now
        }),
{
    let recent = pre.recent;
    let after = after_step(pre, IrcStep::Sent(sent_relay(relay, now))).recent;
    let gone: int = if recent.len() == 100 {
        1
    } else {
        0
    };
    assert(after.drop_last() =~= recent.skip(gone));
}

/// A login goes to the configured server and port, with the configured password if there is one,
/// under the nickname as it is, and it joins the channels of all bridges in their order.
pub proof fn lemma_login_is_configured(login: IrcLogin, settings: Settings, nickname: Seq<char>)
    requires
        is_login(login, server_of(settings), nickname),
    ensures
        login.nickname@ == nickname,
        login.server@ == settings.irc_server@,
        login.port == settings.irc_port,
        login.use_tls == settings.irc_use_tls,
        login.password is Some <==> settings.irc_password is Some,
        login.password is Some ==> login.password->0@ == settings.irc_password->0@,
        login.channels.len() == settings.bridges.len(),
        forall|i: int|
            0 <= i < login.channels.len() ==> (#[trigger] login.channels@[i])@
                == settings.bridges@[i].irc_channel@,
{
    let joined = names_of(login.channels@);
    let bridged = channels_of(settings.bridges@);
    assert(joined.len() == bridged.len());
    assert forall|i: int| 0 <= i < login.channels.len() implies (#[trigger] login.channels@[i])@
        == settings.bridges@[i].irc_channel@ by {
        assert(joined[i] == bridged[i]);
    }
}

/// Connections change only when one is made or dropped: beginning to speak, sending and hearing
/// leave them as they are, a new one concerns its own user alone, and just those that are to be
/// dropped are dropped.
pub proof fn lemma_step_and_connections<C>(pre: IrcState<C>, step: IrcStep<C>, user: Seq<char>)
    ensures
        match step {
            IrcStep::Attach(u, c) => if u == user {
                rooms::entry(after_step(pre, step).connections, user) == Some(c)
            } else {
                rooms::entry(after_step(pre, step).connections, user) == rooms::entry(
                    pre.connections,
                    user,
                )
            },
            IrcStep::Drop(users) => if users.contains(user) {
                !after_step(pre, step).connections.contains_key(user)
            } else {
                rooms::entry(after_step(pre, step).connections, user) == rooms::entry(
                    pre.connections,
                    user,
                )
            },
            _ => after_step(pre, step).connections == pre.connections,
        },
{
}

/// Only beginning to speak adds a user, just the one who begins, and only sending and hearing change
/// the kept messages. No step changes the server, its channels or the password.
pub proof fn lemma_step_and_users<C>(pre: IrcState<C>, step: IrcStep<C>)
    ensures
        step is Begin ==> after_step(pre, step).users == pre.users.insert(step->Begin_0),
        !(step is Begin) ==> after_step(pre, step).users == pre.users,
        !(step is Sent || step is Heard) ==> after_step(pre, step).recent == pre.recent,
        step is Sent ==> after_step(pre, step).recent.last() == step->Sent_0,
        after_step(pre, step).server == pre.server,
{
}

/// What is heard makes the kept messages forget just those that are five seconds old, if a Matrix
/// user of this name spoke before, and changes nothing otherwise.
pub proof fn lemma_hearing_forgets_old<C>(
    pre: IrcState<C>,
    nickname: Option<Seq<char>>,
    now: u128,
    m: Sent,
)
    ensures
        ({
            let post = after_step(pre, IrcStep::Heard(nickname, now));
            &&& pre.users.contains(speaker(nickname)) ==> (post.recent.contains(m)
                <==> pre.recent.contains(m) && now < m.at + 5_000_000_000)
            &&& pre.users.contains(speaker(nickname)) ==> post.recent == fresh_only(
                pre.recent,
                now,
            )
            &&& !pre.users.contains(speaker(nickname)) ==> post == pre
        }),
{
    let left = fresh_only(pre.recent, now);
    lemma_fresh_for_five_seconds(m, now);
    if pre.users.contains(speaker(nickname)) {
        if left.contains(m) {
            let i = choose|i: int| 0 <= i < left.len() && left[i] == m;
            lemma_fresh_is_recent(pre.recent, now, i);
        }
        if pre.recent.contains(m) && is_fresh(m, now) {
            let i = choose|i: int| 0 <= i < pre.recent.len() && pre.recent[i] == m;
            let k = pre.recent.len() as int;
            assert(is_within(pre.recent, m, k));
            lemma_fresh_stays(pre.recent, m, k, now);
            let p = choose|p: int|
                0 <= p < left.len() && #[trigger] left[p] == m && left.len() - 1 - p <= k;
            assert(left[p] == m);
        }
    }
}

/// Whether a step neither makes a connection for a user nor drops the user's connection.
pub open spec fn leaves_connection<C>(step: IrcStep<C>, user: Seq<char>) -> bool {
    match step {
        IrcStep::Attach(u, _) => u != user,
        IrcStep::Drop(users) => !users.contains(user),
        _ => true,
    }
}

/// A user's connection, or the lack of one, stays through all steps in which none is made for that
/// user and the user's own is not dropped, whatever is sent and heard meanwhile.
pub proof fn lemma_connection_stays<C>(pre: IrcState<C>, steps: Seq<IrcStep<C>>, user: Seq<char>)
    requires
        forall|i: int| 0 <= i < steps.len() ==> leaves_connection(#[trigger] steps[i], user),
    ensures
        after_steps(pre, steps).connections.contains_key(user) <==> pre.connections.contains_key(
            user,
        ),
        pre.connections.contains_key(user) ==> after_steps(pre, steps).connections[user]
            == pre.connections[user],
    decreases steps.len(),
{
    if steps.len() > 0 {
        let init = steps.drop_last();
        assert forall|i: int| 0 <= i < init.len() implies leaves_connection(
            #[trigger] init[i],
            user,
        ) by {
            assert(init[i] == steps[i]);
        }
        lemma_connection_stays(pre, init, user);
        assert(leaves_connection(steps[steps.len() - 1], user));
        lemma_step_and_connections(after_steps(pre, init), steps.last(), user);
    }
}

/// One connection serves all of a user's messages: once it was made, it is that user's connection
/// through all that is said and heard, until it is dropped or another one is made for the user, and
/// no new login is needed before.
pub proof fn lemma_connection_is_reused<C>(
    pre: IrcState<C>,
    user: Seq<char>,
    c: C,
    steps: Seq<IrcStep<C>>,
)
    requires
        forall|i: int| 0 <= i < steps.len() ==> leaves_connection(#[trigger] steps[i], user),
    ensures
        ({
            let now = after_steps(after_step(pre, IrcStep::Attach(user, c)), steps);
            now.connections.contains_key(user) && now.connections[user] == c
        }),
{
    lemma_connection_stays(after_step(pre, IrcStep::Attach(user, c)), steps, user);
}

/// Steps are taken one after the other.
pub proof fn lemma_steps_in_order<C>(pre: IrcState<C>, steps: Seq<IrcStep<C>>, step: IrcStep<C>)
    ensures
        after_steps(pre, Seq::empty()) == pre,
        after_steps(pre, steps.push(step)) == after_step(after_steps(pre, steps), step),
{
    assert(steps.push(step).drop_last() =~= steps);
}

} // verus!
