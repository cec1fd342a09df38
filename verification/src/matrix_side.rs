//! Matrix to IRC: which Matrix messages are relayed, and what is said on IRC.

use crate::journal;
use crate::journal::ProcessedEvents;
use crate::replies;
use crate::replies::{RememberedMessage, ReplyCache};
use crate::rooms;
use crate::rooms::RoomTable;
use crate::text;
use vstd::prelude::*;
use vstd::string::*;
use vstd::utf8::*;

verus! {

/// A message in a Matrix room; `text` is `None` for images and the like, and `reply_to` is the
/// event that the message replies to.
#[derive(Debug)]
pub struct MatrixMessage {
    pub room_id: String,
    pub sender: String,
    pub event_id: String,
    pub text: Option<String>,
    pub reply_to: Option<String>,
}

/// What to say on IRC, where, and as whom.
#[derive(Debug)]
pub struct IrcRelay {
    pub irc_channel: String,
    pub username: String,
    pub message: String,
}

/// An `IrcRelay` by its texts.
#[verifier::ext_equal]
pub struct IrcRelayView {
    pub irc_channel: Seq<char>,
    pub username: Seq<char>,
    pub message: Seq<char>,
}

impl View for IrcRelay {
    type V = IrcRelayView;

    open spec fn view(&self) -> IrcRelayView {
        IrcRelayView {
            irc_channel: self.irc_channel@,
            username: self.username@,
            message: self.message@,
        }
    }
}

/// A reply that waits for the message that it replies to.
#[derive(Debug)]
pub struct PendingReply {
    pub irc_channel: String,
    pub username: String,
    pub body: String,
    pub reply_to: String,
}

/// A `PendingReply` by its texts.
#[verifier::ext_equal]
pub struct PendingReplyView {
    pub irc_channel: Seq<char>,
    pub username: Seq<char>,
    pub body: Seq<char>,
    pub reply_to: Seq<char>,
}

impl View for PendingReply {
    type V = PendingReplyView;

    open spec fn view(&self) -> PendingReplyView {
        PendingReplyView {
            irc_channel: self.irc_channel@,
            username: self.username@,
            body: self.body@,
            reply_to: self.reply_to@,
        }
    }
}

/// A message that was fetched from the homeserver; `text` is `None` for images and the like.
#[derive(Debug)]
pub struct FetchedMessage {
    pub sender: String,
    pub text: Option<String>,
}

/// What to do about a Matrix message. All but an ignored message are to be recorded in the journal.
#[derive(Debug)]
pub enum Reaction {
    /// Nothing.
    Ignore,
    /// Record the event, and nothing more.
    Record,
    /// Record the event and speak on IRC.
    Forward(IrcRelay),
    /// Record the event and fetch the message that it replies to.
    Fetch(PendingReply),
}

/// A `Reaction` by its texts.
#[verifier::ext_equal]
pub enum ReactionView {
    Ignore,
    Record,
    Forward(IrcRelayView),
    Fetch(PendingReplyView),
}

impl View for Reaction {
    type V = ReactionView;

    open spec fn view(&self) -> ReactionView {
        match *self {
            Reaction::Ignore => ReactionView::Ignore,
            Reaction::Record => ReactionView::Record,
            Reaction::Forward(relay) => ReactionView::Forward(relay@),
            Reaction::Fetch(pending) => ReactionView::Fetch(pending@),
        }
    }
}

impl Reaction {
    /// Whether the event is to be recorded in the journal.
    pub fn is_recorded(&self) -> (b: bool)
        ensures
            b == (self@ != ReactionView::Ignore),
    {
        match self {
            Reaction::Ignore => false,
            _ => true,
        }
    }
}

/// The state of the Matrix side.
#[verifier::ext_equal]
pub struct MatrixState {
    /// The bridged rooms and channels.
    pub rooms: rooms::RoomTableView,
    /// The user ID of the bridge's own account.
    pub own_user: Seq<char>,
    /// The events that were processed.
    pub seen: Set<Seq<char>>,
    /// The messages that a reply can quote.
    pub replies: Map<Seq<char>, replies::Quote>,
}

/// Whether a message is processed at all: its room is bridged, it is not the bridge's own, and its
/// event is new.
pub open spec fn is_accepted(state: MatrixState, m: MatrixMessage) -> bool {
    &&& state.rooms.channel_of.contains_key(m.room_id@)
    &&& m.sender@ != state.own_user
    &&& !state.seen.contains(m.event_id@)
}

/// How a reply reads on IRC; `target` is the author of the message that it replies to, with the
/// preview of that message if it is a text, and `None` if the message is not known.
pub open spec fn reply_text(
    target: Option<(Seq<char>, Option<Seq<char>>)>,
    body: Seq<char>,
) -> Seq<char> {
    match target {
        Some((user, Some(preview))) => "@"@ + user + " \""@ + preview + "\": "@ + body,
        Some((user, None)) => "@"@ + user + ": "@ + body,
        None => "[replying] "@ + body,
    }
}

/// What is done about a text message, given the messages that a reply can quote.
pub open spec fn text_reaction(
    channel: Seq<char>,
    username: Seq<char>,
    body: Seq<char>,
    reply_to: Option<Seq<char>>,
    quotable: Map<Seq<char>, replies::Quote>,
) -> ReactionView {
    match reply_to {
        None => ReactionView::Forward(
            IrcRelayView { irc_channel: channel, username, message: body },
        ),
        Some(id) => if quotable.contains_key(id) {
            ReactionView::Forward(
                IrcRelayView {
                    irc_channel: channel,
                    username,
                    message: reply_text(
                        Some((quotable[id].user, Some(quotable[id].preview))),
                        body,
                    ),
                },
            )
        } else {
            ReactionView::Fetch(
                PendingReplyView { irc_channel: channel, username, body, reply_to: id },
            )
        },
    }
}

/// Whether receiving `m` in the state `pre` leads to the state `post` and to `reaction`.
pub open spec fn is_received(
    pre: MatrixState,
    m: MatrixMessage,
    post: MatrixState,
    reaction: ReactionView,
) -> bool {
    if !is_accepted(pre, m) {
        post == pre && reaction == ReactionView::Ignore
    } else {
        &&& post.rooms == pre.rooms
        &&& post.own_user == pre.own_user
        &&& post.seen == pre.seen.insert(m.event_id@)
        &&& match m.text {
            None => post.replies == pre.replies && reaction == ReactionView::Record,
            Some(body) => {
                &&& replies::is_remembered(
                    pre.replies,
                    m.event_id@,
                    replies::quote_of(m.sender@, body@),
                    post.replies,
                )
                &&& reaction == text_reaction(
                    pre.rooms.channel_of[m.room_id@],
                    text::user_name_text(m.sender@),
                    body@,
                    text::text_of(m.reply_to),
                    post.replies,
                )
            },
        }
    }
}

/// The author of a fetched message, with its preview if it is a text.
pub open spec fn fetched_target(fetched: Option<FetchedMessage>) -> Option<
    (Seq<char>, Option<Seq<char>>),
> {
    match fetched {
        Some(f) => Some(
            (
                text::user_name_text(f.sender@),
                match f.text {
                    Some(body) => Some(text::preview_text(body@)),
                    None => None,
                },
            ),
        ),
        None => None,
    }
}

/// The state once the fetched message is known: a text is kept for later replies.
pub open spec fn state_after_fetch(
    pre: MatrixState,
    reply_to: Seq<char>,
    fetched: Option<FetchedMessage>,
) -> MatrixState {
    match fetched {
        Some(f) => match f.text {
            Some(body) => MatrixState {
                replies: pre.replies.insert(reply_to, replies::quote_of(f.sender@, body@)),
                ..pre
            },
            None => pre,
        },
        None => pre,
    }
}

/// Writes the text of a reply on IRC.
fn write_reply(target: Option<(&str, Option<&str>)>, body: &str) -> (message: String)
    ensures
        message@ == reply_text(
            match target {
                Some((user, Some(preview))) => Some((user@, Some(preview@))),
                Some((user, None)) => Some((user@, None)),
                None => None,
            },
            body@,
        ),
{
    match target {
        Some((user, Some(preview))) => {
            let mut message = "@".to_owned();
            message.append(user);
            message.append(" \"");
            message.append(preview);
            message.append("\": ");
            message.append(body);
            message
        },
        Some((user, None)) => {
            let mut message = "@".to_owned();
            message.append(user);
            message.append(": ");
            message.append(body);
            message
        },
        None => {
            let mut message = "[replying] ".to_owned();
            message.append(body);
            message
        },
    }
}

/// The Matrix side of the bridge.
pub struct MatrixSide {
    rooms: RoomTable,
    own_user: String,
    seen: ProcessedEvents,
    replies: ReplyCache,
}

impl View for MatrixSide {
    type V = MatrixState;

    closed spec fn view(&self) -> MatrixState {
        MatrixState {
            rooms: self.rooms@,
            own_user: self.own_user@,
            seen: self.seen@,
            replies: self.replies@,
        }
    }
}

impl MatrixSide {
    /// The reply cache is well formed.
    pub closed spec fn wf(&self) -> bool {
        self.replies.wf()
    }

    /// There are finitely many messages that a reply can quote.
    pub proof fn lemma_wf(&self)
        requires
            self.wf(),
        ensures
            self@.replies.dom().finite(),
    {
        self.replies.lemma_wf();
    }

    /// The Matrix side at its start: `own_user` is the account of the bridge, and `seen` are the
    /// events that were processed before.
    pub fn new(rooms: RoomTable, own_user: String, seen: ProcessedEvents) -> (side: Self)
        ensures
            side.wf(),
            side@ == (MatrixState {
                rooms: rooms@,
                own_user: own_user@,
                seen: seen@,
                replies: Map::empty(),
            }),
    {
        MatrixSide { rooms, own_user, seen, replies: ReplyCache::new() }
    }

    /// Takes a message from Matrix and says what to do about it.
    pub fn receive(&mut self, m: &MatrixMessage) -> (reaction: Reaction)
        requires
            old(self).wf(),
        ensures
            final(self).wf(),
            is_received(old(self)@, *m, final(self)@, reaction@),
    {
        let irc_channel: String = match self.rooms.channel_for(m.room_id.as_str()) {
            Some(channel) => channel,
            None => return Reaction::Ignore,
        };
        if m.sender == self.own_user {
            return Reaction::Ignore;
        }
        if self.seen.contains(m.event_id.as_str()) {
            return Reaction::Ignore;
        }
        self.seen.insert(m.event_id.clone());
        let body: &String = match &m.text {
            Some(body) => body,
            None => return Reaction::Record,
        };
        let username: String = text::user_name(m.sender.as_str());
        self.replies.remember(
            m.event_id.clone(),
            RememberedMessage { user: username.clone(), preview: text::preview(body.as_str()) },
        );
        match &m.reply_to {
            None => Reaction::Forward(IrcRelay { irc_channel, username, message: body.clone() }),
            Some(reply_to) => match self.replies.get(reply_to.as_str()) {
                Some(replied) => {
                    let message: String = write_reply(
                        Some((replied.user.as_str(), Some(replied.preview.as_str()))),
                        body.as_str(),
                    );
                    Reaction::Forward(IrcRelay { irc_channel, username, message })
                },
                None => Reaction::Fetch(
                    PendingReply {
                        irc_channel,
                        username,
                        body: body.clone(),
                        reply_to: reply_to.clone(),
                    },
                ),
            },
        }
    }

    /// Takes the message that a pending reply waits for, `None` if it could not be fetched, and
    /// says what the reply reads on IRC.
    pub fn complete(&mut self, pending: PendingReply, fetched: Option<FetchedMessage>) -> (relay:
        IrcRelay)
        requires
            old(self).wf(),
        ensures
            final(self).wf(),
            final(self)@ == state_after_fetch(old(self)@, pending.reply_to@, fetched),
            relay@ == (IrcRelayView {
                irc_channel: pending.irc_channel@,
                username: pending.username@,
                message: reply_text(fetched_target(fetched), pending.body@),
            }),
    {
        let message: String = match fetched {
            Some(f) => {
                let user: String = text::user_name(f.sender.as_str());
                match f.text {
                    Some(body) => {
                        let preview: String = text::preview(body.as_str());
                        self.replies.add(
                            pending.reply_to,
                            RememberedMessage { user: user.clone(), preview: preview.clone() },
                        );
                        write_reply(
                            Some((user.as_str(), Some(preview.as_str()))),
                            pending.body.as_str(),
                        )
                    },
                    None => write_reply(Some((user.as_str(), None)), pending.body.as_str()),
                }
            },
            None => write_reply(None, pending.body.as_str()),
        };
        IrcRelay { irc_channel: pending.irc_channel, username: pending.username, message }
    }

    /// The Matrix room to which a message in an IRC channel goes.
    pub fn destination(&self, irc_channel: &str) -> (room_id: Option<String>)
        ensures
            text::text_of(room_id) == rooms::entry(self@.rooms.room_of, irc_channel@),
    {
        self.rooms.room_for(irc_channel)
    }
}

/// Messages in rooms that are not bridged, and the bridge's own messages, are ignored.
pub proof fn lemma_foreign_and_own_are_ignored(
    pre: MatrixState,
    m: MatrixMessage,
    post: MatrixState,
    reaction: ReactionView,
)
    requires
        is_received(pre, m, post, reaction),
        !pre.rooms.channel_of.contains_key(m.room_id@) || m.sender@ == pre.own_user,
    ensures
        reaction == ReactionView::Ignore,
        post == pre,
{
}

/// A new text message from someone else in a bridged room, if it is no reply, is said on IRC word
/// for word, in the channel of its room and under the name of its author.
pub proof fn lemma_text_is_forwarded(
    pre: MatrixState,
    m: MatrixMessage,
    post: MatrixState,
    reaction: ReactionView,
)
    requires
        is_received(pre, m, post, reaction),
        is_accepted(pre, m),
        m.text is Some,
        m.reply_to is None,
    ensures
        reaction == ReactionView::Forward(
            IrcRelayView {
                irc_channel: pre.rooms.channel_of[m.room_id@],
                username: text::user_name_text(m.sender@),
                message: m.text->0@,
            },
        ),
{
}

/// Whether some received message leads from `pre` to `post`.
pub open spec fn is_receipt(pre: MatrixState, post: MatrixState) -> bool {
    exists|m: MatrixMessage, reaction: ReactionView| is_received(pre, m, post, reaction)
}

/// Whether receiving a message or a fetched message leads from `pre` to `post`.
pub open spec fn is_step(pre: MatrixState, post: MatrixState) -> bool {
    ||| is_receipt(pre, post)
    ||| exists|reply_to: Seq<char>, fetched: Option<FetchedMessage>|
        post == #[trigger] state_after_fetch(pre, reply_to, fetched)
}

/// Whether a step leads from state `i` to the next one.
pub open spec fn is_step_at(states: Seq<MatrixState>, i: int) -> bool {
    is_step(states[i], states[i + 1])
}

/// Whether the states follow each other step by step.
pub open spec fn is_run(states: Seq<MatrixState>) -> bool {
    forall|i: int| 0 <= i < states.len() - 1 ==> #[trigger] is_step_at(states, i)
}

/// A run without its last state is a run.
proof fn lemma_shorter_run(states: Seq<MatrixState>)
    requires
        is_run(states),
        states.len() > 0,
    ensures
        is_run(states.drop_last()),
{
    assert forall|i: int| 0 <= i < states.drop_last().len() - 1 implies #[trigger] is_step_at(
        states.drop_last(),
        i,
    ) by {
        assert(is_step_at(states, i));
    }
}

/// What was processed stays processed, the table and the account do not change, and there are
/// never more than finitely many messages to quote.
pub proof fn lemma_run_keeps(states: Seq<MatrixState>)
    requires
        is_run(states),
        states.len() > 0,
    ensures
        states[0].seen.subset_of(states.last().seen),
        states.last().rooms == states[0].rooms,
        states.last().own_user == states[0].own_user,
        states[0].replies.dom().finite() ==> states.last().replies.dom().finite(),
    decreases states.len(),
{
    if states.len() > 1 {
        let init = states.drop_last();
        lemma_shorter_run(states);
        lemma_run_keeps(init);
        assert(init.last() == states[states.len() - 2]);
        assert(is_step_at(states, states.len() - 2));
    }
}

/// An event is processed at most once: when it comes again, however much later, it is ignored.
pub proof fn lemma_processed_once(
    pre: MatrixState,
    first: MatrixMessage,
    reaction: ReactionView,
    states: Seq<MatrixState>,
    again: MatrixMessage,
    post: MatrixState,
    second: ReactionView,
)
    requires
        states.len() > 0,
        is_received(pre, first, states[0], reaction),
        reaction != ReactionView::Ignore,
        is_run(states),
        again.event_id@ == first.event_id@,
        is_received(states.last(), again, post, second),
    ensures
        second == ReactionView::Ignore,
        post == states.last(),
{
    lemma_run_keeps(states);
}

/// An event that was recorded is ignored by a bridge that starts from the journal, whatever was
/// recorded before it and whatever was written after it.
pub proof fn lemma_recorded_is_ignored(
    data: Seq<u8>,
    rest: Seq<u8>,
    pre: MatrixState,
    m: MatrixMessage,
    post: MatrixState,
    reaction: ReactionView,
)
    requires
        journal::is_ended(data),
        journal::is_recordable(m.event_id@),
        journal::journal_ids(
            data + encode_utf8(journal::line_text(m.event_id@)) + rest,
        ).subset_of(pre.seen),
        is_received(pre, m, post, reaction),
    ensures
        reaction == ReactionView::Ignore,
        post == pre,
{
    journal::lemma_recorded_stays(data, m.event_id@, rest);
    text::lemma_trimmed_fixed(m.event_id@);
}

/// The journal keeps up with the processed events: if it held them before a message and the event
/// of a message that is not ignored is recorded, it holds them afterwards.
pub proof fn lemma_journal_follows_state(
    data: Seq<u8>,
    pre: MatrixState,
    m: MatrixMessage,
    post: MatrixState,
    reaction: ReactionView,
)
    requires
        is_received(pre, m, post, reaction),
        pre.seen == journal::journal_ids(data),
        journal::is_ended(data),
        journal::is_recordable(m.event_id@),
    ensures
        reaction == ReactionView::Ignore ==> post.seen == journal::journal_ids(data),
        reaction != ReactionView::Ignore ==> post.seen == journal::journal_ids(
            data + encode_utf8(journal::line_text(m.event_id@)),
        ),
{
    journal::lemma_record(data, m.event_id@);
    text::lemma_trimmed_fixed(m.event_id@);
}

/// Whether the step from `pre` to `post` takes a text message under `id`, received or fetched, of
/// which a reply quotes `quote`.
pub open spec fn brings_quote(
    pre: MatrixState,
    post: MatrixState,
    id: Seq<char>,
    quote: replies::Quote,
) -> bool {
    ||| exists|m: MatrixMessage, reaction: ReactionView| #[trigger]
        is_received(pre, m, post, reaction) && is_accepted(pre, m) && m.event_id@ == id
            && m.text is Some && quote == replies::quote_of(m.sender@, m.text->0@)
    ||| exists|f: FetchedMessage|
        post == #[trigger] state_after_fetch(pre, id, Some(f)) && f.text is Some && quote
            == replies::quote_of(f.sender@, f.text->0@)
}

/// A received message brings its own quote, and no other that was not there.
proof fn lemma_received_quote(
    pre: MatrixState,
    m: MatrixMessage,
    post: MatrixState,
    reaction: ReactionView,
    id: Seq<char>,
)
    requires
        is_received(pre, m, post, reaction),
        post.replies.contains_key(id),
    ensures
        brings_quote(pre, post, id, post.replies[id]) || (pre.replies.contains_key(id)
            && pre.replies[id] == post.replies[id]),
{
    if is_accepted(pre, m) && m.text is Some {
        let full = pre.replies.insert(
            m.event_id@,
            replies::quote_of(m.sender@, m.text->0@),
        );
        assert(post.replies.submap_of(full));
        assert(post.replies.dom().contains(id));
        assert(full.dom().contains(id) && full[id] == post.replies[id]);
    }
}

/// A fetched message brings its own quote, and no other that was not there.
proof fn lemma_fetched_quote(
    pre: MatrixState,
    reply_to: Seq<char>,
    fetched: Option<FetchedMessage>,
    post: MatrixState,
    id: Seq<char>,
)
    requires
        post == state_after_fetch(pre, reply_to, fetched),
        post.replies.contains_key(id),
    ensures
        brings_quote(pre, post, id, post.replies[id]) || (pre.replies.contains_key(id)
            && pre.replies[id] == post.replies[id]),
{
    if fetched is Some && reply_to == id {
        assert(post == state_after_fetch(pre, id, Some(fetched->0)));
    }
}

/// A step brings a quote, or the quote was there before.
proof fn lemma_step_quote(pre: MatrixState, post: MatrixState, id: Seq<char>)
    requires
        is_step(pre, post),
        post.replies.contains_key(id),
    ensures
        brings_quote(pre, post, id, post.replies[id]) || (pre.replies.contains_key(id)
            && pre.replies[id] == post.replies[id]),
{
    if is_receipt(pre, post) {
        let (m, reaction) = choose|m: MatrixMessage, reaction: ReactionView|
            is_received(pre, m, post, reaction);
        lemma_received_quote(pre, m, post, reaction, id);
    } else {
        let (reply_to, fetched) = choose|reply_to: Seq<char>, fetched: Option<FetchedMessage>|
            post == #[trigger] state_after_fetch(pre, reply_to, fetched);
        lemma_fetched_quote(pre, reply_to, fetched, post, id);
    }
}

/// What a reply can quote was said: in a run that starts with nothing to quote, every quote is that
/// of a text message that was received or fetched under its event ID.
pub proof fn lemma_quotes_were_said(states: Seq<MatrixState>, id: Seq<char>) -> (k: int)
    requires
        is_run(states),
        states.len() > 0,
        states[0].replies == Map::<Seq<char>, replies::Quote>::empty(),
        states.last().replies.contains_key(id),
    ensures
        0 <= k < states.len() - 1,
        brings_quote(states[k], states[k + 1], id, states.last().replies[id]),
    decreases states.len(),
{
    let n = states.len() as int;
    let pre = states[n - 2];
    let post = states[n - 1];
    assert(is_step_at(states, n - 2));
    lemma_step_quote(pre, post, id);
    if brings_quote(pre, post, id, post.replies[id]) {
        n - 2
    } else {
        let init = states.drop_last();
        lemma_shorter_run(states);
        assert(init.last() == pre);
        let k = lemma_quotes_were_said(init, id);
        assert(init[k] == states[k] && init[k + 1] == states[k + 1]);
        k
    }
}

/// A reply that is said on IRC without a fetch quotes the author and the preview of a text message
/// that was received or fetched under the event ID that it replies to, however much earlier.
pub proof fn lemma_reply_quotes_what_was_said(
    states: Seq<MatrixState>,
    reply: MatrixMessage,
    relay: IrcRelayView,
) -> (q: (int, replies::Quote))
    requires
        is_run(states),
        states.len() > 1,
        states[0].replies == Map::<Seq<char>, replies::Quote>::empty(),
        is_received(
            states[states.len() - 2],
            reply,
            states.last(),
            ReactionView::Forward(relay),
        ),
        reply.reply_to is Some,
    ensures
        0 <= q.0 < states.len() - 1,
        brings_quote(states[q.0], states[q.0 + 1], reply.reply_to->0@, q.1),
        reply.text is Some,
        relay.message == reply_text(Some((q.1.user, Some(q.1.preview))), reply.text->0@),
{
    let id = reply.reply_to->0@;
    let k = lemma_quotes_were_said(states, id);
    (k, states.last().replies[id])
}

/// Whether a received message leads from `pre` to `post`, and is quoted as `quote` if it is a text
/// message that is processed under `id`.
pub open spec fn is_received_alike(
    pre: MatrixState,
    post: MatrixState,
    id: Seq<char>,
    quote: replies::Quote,
) -> bool {
    exists|m: MatrixMessage, reaction: ReactionView| #[trigger]
        is_received(pre, m, post, reaction) && (is_accepted(pre, m) && m.event_id@ == id
            && m.text is Some ==> replies::quote_of(m.sender@, m.text->0@) == quote)
}

/// Whether the outcome of a fetch leads from `pre` to `post`, and is quoted as `quote` if it is a
/// text message under `id`.
pub open spec fn is_fetched_alike(
    pre: MatrixState,
    post: MatrixState,
    id: Seq<char>,
    quote: replies::Quote,
) -> bool {
    exists|reply_to: Seq<char>, fetched: Option<FetchedMessage>|
        post == #[trigger] state_after_fetch(pre, reply_to, fetched) && (reply_to == id && fetched
            is Some && fetched->0.text is Some ==> replies::quote_of(
            fetched->0.sender@,
            fetched->0.text->0@,
        ) == quote)
}

/// Whether a step leads from state `i` to the next one that says nothing but `quote` under `id`.
pub open spec fn says_alike_at(
    states: Seq<MatrixState>,
    i: int,
    id: Seq<char>,
    quote: replies::Quote,
) -> bool {
    ||| is_received_alike(states[i], states[i + 1], id, quote)
    ||| is_fetched_alike(states[i], states[i + 1], id, quote)
}

/// Whether the states follow each other step by step, and all that is said under `id`, received or
/// fetched, is quoted as `quote`.
pub open spec fn is_run_saying_alike(
    states: Seq<MatrixState>,
    id: Seq<char>,
    quote: replies::Quote,
) -> bool {
    forall|i: int| 0 <= i < states.len() - 1 ==> #[trigger] says_alike_at(states, i, id, quote)
}

/// Whether a step leads from state `i` to the next one that fetches nothing but `quote` under `id`.
pub open spec fn fetches_alike_at(
    states: Seq<MatrixState>,
    i: int,
    id: Seq<char>,
    quote: replies::Quote,
) -> bool {
    ||| is_receipt(states[i], states[i + 1])
    ||| is_fetched_alike(states[i], states[i + 1], id, quote)
}

/// Whether the states follow each other step by step, and what is fetched under `id`, if anything
/// is, is quoted as `quote`.
pub open spec fn is_run_fetching_alike(
    states: Seq<MatrixState>,
    id: Seq<char>,
    quote: replies::Quote,
) -> bool {
    forall|i: int| 0 <= i < states.len() - 1 ==> #[trigger] fetches_alike_at(states, i, id, quote)
}

/// Whether the reply cache has room for one more message in every state.
pub open spec fn has_room(states: Seq<MatrixState>) -> bool {
    forall|i: int|
        0 <= i < states.len() ==> (#[trigger] states[i]).replies.len() < replies::REPLY_LIMIT
}

/// A step adds at most one message to those that a reply can quote.
proof fn lemma_step_adds_one(pre: MatrixState, post: MatrixState)
    requires
        is_step(pre, post),
        pre.replies.dom().finite(),
    ensures
        post.replies.dom().finite(),
        post.replies.len() <= pre.replies.len() + 1,
{
    if is_receipt(pre, post) {
        let (m, reaction) = choose|m: MatrixMessage, reaction: ReactionView|
            is_received(pre, m, post, reaction);
        if is_accepted(pre, m) && m.text is Some {
            let full = pre.replies.insert(
                m.event_id@,
                replies::quote_of(m.sender@, m.text->0@),
            );
            assert(full.dom() =~= pre.replies.dom().insert(m.event_id@));
        }
    } else {
        let (reply_to, fetched) = choose|reply_to: Seq<char>, fetched: Option<FetchedMessage>|
            post == #[trigger] state_after_fetch(pre, reply_to, fetched);
        if fetched is Some && fetched->0.text is Some {
            assert(post.replies.dom() =~= pre.replies.dom().insert(reply_to));
        }
    }
}

/// A run that starts with nothing to quote has room as long as it has no more states than the
/// reply cache has places.
pub proof fn lemma_short_run_has_room(states: Seq<MatrixState>)
    requires
        is_run(states),
        states.len() <= replies::REPLY_LIMIT,
        states.len() > 0 ==> states[0].replies == Map::<Seq<char>, replies::Quote>::empty(),
    ensures
        has_room(states),
{
    assert forall|i: int| 0 <= i < states.len() implies (#[trigger] states[i]).replies.len()
        < replies::REPLY_LIMIT by {
        lemma_quotes_grow_slowly(states, i);
    }
}

/// After `i` steps there are at most `i` messages that a reply can quote.
proof fn lemma_quotes_grow_slowly(states: Seq<MatrixState>, i: int)
    requires
        is_run(states),
        0 <= i < states.len(),
        states[0].replies == Map::<Seq<char>, replies::Quote>::empty(),
    ensures
        states[i].replies.dom().finite(),
        states[i].replies.len() <= i,
    decreases i,
{
    if i == 0 {
        assert(states[0].replies.dom() =~= Set::empty());
    } else {
        lemma_quotes_grow_slowly(states, i - 1);
        assert(is_step_at(states, i - 1));
        lemma_step_adds_one(states[i - 1], states[i]);
    }
}

/// With room for one more message a step keeps a quote, if it says nothing else under the same
/// event ID.
proof fn lemma_step_keeps_quote(
    states: Seq<MatrixState>,
    i: int,
    id: Seq<char>,
    quote: replies::Quote,
)
    requires
        says_alike_at(states, i, id, quote),
        states[i].replies.dom().finite(),
        states[i].replies.len() < replies::REPLY_LIMIT,
        states[i].replies.contains_key(id),
        states[i].replies[id] == quote,
    ensures
        is_step_at(states, i),
        states[i + 1].replies.contains_key(id),
        states[i + 1].replies[id] == quote,
{
    let pre = states[i];
    let post = states[i + 1];
    if is_received_alike(pre, post, id, quote) {
        let (m, reaction) = choose|m: MatrixMessage, reaction: ReactionView| #[trigger]
            is_received(pre, m, post, reaction) && (is_accepted(pre, m) && m.event_id@ == id
                && m.text is Some ==> replies::quote_of(m.sender@, m.text->0@) == quote);
        if is_accepted(pre, m) && m.text is Some {
            let said = replies::quote_of(m.sender@, m.text->0@);
            replies::lemma_remembered_is_found(pre.replies, m.event_id@, said, post.replies);
        }
    }
}

/// What a reply can quote stays: as long as the reply cache has room and nothing else is said under
/// the same event ID, a quote is there in every later state.
pub proof fn lemma_quote_stays(states: Seq<MatrixState>, id: Seq<char>, quote: replies::Quote)
    requires
        is_run_saying_alike(states, id, quote),
        states.len() > 0,
        states[0].replies.dom().finite(),
        states[0].replies.contains_key(id),
        states[0].replies[id] == quote,
        has_room(states),
    ensures
        is_run(states),
        states.last().replies.dom().finite(),
        states.last().replies.contains_key(id),
        states.last().replies[id] == quote,
    decreases states.len(),
{
    let n = states.len() as int;
    if n > 1 {
        let init = states.drop_last();
        assert forall|i: int| 0 <= i < init.len() implies (#[trigger] init[i]).replies.len()
            < replies::REPLY_LIMIT by {
            assert(init[i] == states[i]);
        }
        assert forall|i: int| 0 <= i < init.len() - 1 implies #[trigger] says_alike_at(
            init,
            i,
            id,
            quote,
        ) by {
            assert(says_alike_at(states, i, id, quote));
        }
        lemma_quote_stays(init, id, quote);
        assert(init.last() == states[n - 2]);
        assert(says_alike_at(states, n - 2, id, quote));
        lemma_step_keeps_quote(states, n - 2, id, quote);
        lemma_step_adds_one(states[n - 2], states[n - 1]);
        assert forall|i: int| 0 <= i < n - 1 implies #[trigger] is_step_at(states, i) by {
            if i < n - 2 {
                assert(is_step_at(init, i));
            }
        }
    }
}

/// Once an event was processed, nothing is received under its ID any more.
proof fn lemma_only_fetched(states: Seq<MatrixState>, id: Seq<char>, quote: replies::Quote)
    requires
        is_run_fetching_alike(states, id, quote),
        states.len() > 0,
        states[0].seen.contains(id),
    ensures
        is_run(states),
        is_run_saying_alike(states, id, quote),
{
    assert forall|i: int| 0 <= i < states.len() - 1 implies #[trigger] is_step_at(states, i) by {
        assert(fetches_alike_at(states, i, id, quote));
    }
    assert forall|i: int| 0 <= i < states.len() - 1 implies #[trigger] says_alike_at(
        states,
        i,
        id,
        quote,
    ) by {
        let so_far = states.take(i + 1);
        assert forall|j: int| 0 <= j < so_far.len() - 1 implies #[trigger] is_step_at(
            so_far,
            j,
        ) by {
            assert(is_step_at(states, j));
        }
        lemma_run_keeps(so_far);
        assert(so_far.last() == states[i]);
        assert(states[i].seen.contains(id));
        assert(fetches_alike_at(states, i, id, quote));
    }
}

/// A reply to a message that can be quoted when the reply comes, and before which there is room in
/// the reply cache, is said on IRC with that quote.
proof fn lemma_reply_finds_quote(
    pre: MatrixState,
    id: Seq<char>,
    reply: MatrixMessage,
    post: MatrixState,
    reaction: ReactionView,
)
    requires
        pre.replies.dom().finite(),
        pre.replies.len() < replies::REPLY_LIMIT,
        pre.replies.contains_key(id),
        is_received(pre, reply, post, reaction),
        is_accepted(pre, reply),
        reply.event_id@ != id,
        reply.text is Some,
        text::text_of(reply.reply_to) == Some(id),
    ensures
        reaction == ReactionView::Forward(
            IrcRelayView {
                irc_channel: pre.rooms.channel_of[reply.room_id@],
                username: text::user_name_text(reply.sender@),
                message: reply_text(
                    Some((pre.replies[id].user, Some(pre.replies[id].preview))),
                    reply.text->0@,
                ),
            },
        ),
{
    let own = replies::quote_of(reply.sender@, reply.text->0@);
    replies::lemma_remembered_is_found(pre.replies, reply.event_id@, own, post.replies);
}

/// A reply to a text message that was processed quotes its author and its preview, however much
/// later it comes, as long as the reply cache has room and what is fetched under the same event ID
/// meanwhile, if anything is, is quoted alike.
pub proof fn lemma_reply_quotes(
    pre: MatrixState,
    m: MatrixMessage,
    first: ReactionView,
    states: Seq<MatrixState>,
    reply: MatrixMessage,
    post: MatrixState,
    second: ReactionView,
)
    requires
        pre.replies.dom().finite(),
        pre.replies.len() < replies::REPLY_LIMIT,
        states.len() > 0,
        is_received(pre, m, states[0], first),
        is_accepted(pre, m),
        m.text is Some,
        is_run_fetching_alike(
            states,
            m.event_id@,
            replies::quote_of(m.sender@, m.text->0@),
        ),
        has_room(states),
        is_received(states.last(), reply, post, second),
        is_accepted(states.last(), reply),
        reply.text is Some,
        text::text_of(reply.reply_to) == Some(m.event_id@),
    ensures
        second == ReactionView::Forward(
            IrcRelayView {
                irc_channel: pre.rooms.channel_of[reply.room_id@],
                username: text::user_name_text(reply.sender@),
                message: reply_text(
                    Some(
                        (
                            text::user_name_text(m.sender@),
                            Some(text::preview_text(m.text->0@)),
                        ),
                    ),
                    reply.text->0@,
                ),
            },
        ),
{
    let id = m.event_id@;
    let quote = replies::quote_of(m.sender@, m.text->0@);
    replies::lemma_remembered_is_found(pre.replies, id, quote, states[0].replies);
    lemma_only_fetched(states, id, quote);
    lemma_quote_stays(states, id, quote);
    lemma_run_keeps(states);
    assert(states.last().seen.contains(id));
    assert(states[states.len() - 1].replies.len() < replies::REPLY_LIMIT);
    lemma_reply_finds_quote(states.last(), id, reply, post, second);
}

/// A reply to a text message that was fetched quotes its author and its preview, however much
/// later it comes, as long as the reply cache has room and what is said under the same event ID
/// meanwhile, if anything is, is quoted alike.
pub proof fn lemma_reply_quotes_fetched(
    pre: MatrixState,
    id: Seq<char>,
    f: FetchedMessage,
    states: Seq<MatrixState>,
    reply: MatrixMessage,
    post: MatrixState,
    reaction: ReactionView,
)
    requires
        pre.replies.dom().finite(),
        states.len() > 0,
        f.text is Some,
        states[0] == state_after_fetch(pre, id, Some(f)),
        is_run_saying_alike(states, id, replies::quote_of(f.sender@, f.text->0@)),
        has_room(states),
        is_received(states.last(), reply, post, reaction),
        is_accepted(states.last(), reply),
        reply.event_id@ != id,
        reply.text is Some,
        text::text_of(reply.reply_to) == Some(id),
    ensures
        reaction == ReactionView::Forward(
            IrcRelayView {
                irc_channel: pre.rooms.channel_of[reply.room_id@],
                username: text::user_name_text(reply.sender@),
                message: reply_text(
                    Some(
                        (
                            text::user_name_text(f.sender@),
                            Some(text::preview_text(f.text->0@)),
                        ),
                    ),
                    reply.text->0@,
                ),
            },
        ),
{
    assert(states[0].replies.dom() =~= pre.replies.dom().insert(id));
    lemma_quote_stays(states, id, replies::quote_of(f.sender@, f.text->0@));
    lemma_run_keeps(states);
    assert(states[states.len() - 1].replies.len() < replies::REPLY_LIMIT);
    lemma_reply_finds_quote(states.last(), id, reply, post, reaction);
}

/// What is said, what is waited for and what is done are seen by their whole texts.
pub proof fn lemma_views_are_whole(relay: IrcRelay, pending: PendingReply)
    ensures
        relay@.irc_channel == relay.irc_channel@,
        relay@.username == relay.username@,
        relay@.message == relay.message@,
        pending@.irc_channel == pending.irc_channel@,
        pending@.username == pending.username@,
        pending@.body == pending.body@,
        pending@.reply_to == pending.reply_to@,
        Reaction::Forward(relay)@ == ReactionView::Forward(relay@),
        Reaction::Fetch(pending)@ == ReactionView::Fetch(pending@),
        Reaction::Ignore@ == ReactionView::Ignore,
        Reaction::Record@ == ReactionView::Record,
{
}

/// A reply to a text reads: an `@`, the author, a space and a quotation mark, the preview, a
/// quotation mark, a colon and a space, and all of the reply's own text, word for word.
pub proof fn lemma_reply_parts(user: Seq<char>, preview: Seq<char>, body: Seq<char>)
    ensures
        ({
            let t = reply_text(Some((user, Some(preview))), body);
            let u = user.len() as int;
            let p = preview.len() as int;
            &&& t.len() == u + p + body.len() + 6
            &&& t[0] == '@'
            &&& t.subrange(1, 1 + u) == user
            &&& t.subrange(1 + u, 3 + u) == seq![' ', '"']
            &&& t.subrange(3 + u, 3 + u + p) == preview
            &&& t.subrange(3 + u + p, 6 + u + p) == seq!['"', ':', ' ']
            &&& t.skip(6 + u + p) == body
        }),
{
    reveal_strlit("@");
    reveal_strlit(" \"");
    reveal_strlit("\": ");
    let t = reply_text(Some((user, Some(preview))), body);
    let u = user.len() as int;
    let p = preview.len() as int;
    assert(t.subrange(1, 1 + u) =~= user);
    assert(t.subrange(1 + u, 3 + u) =~= seq![' ', '"']);
    assert(t.subrange(3 + u, 3 + u + p) =~= preview);
    assert(t.subrange(3 + u + p, 6 + u + p) =~= seq!['"', ':', ' ']);
    assert(t.skip(6 + u + p) =~= body);
}

/// A reply to something that is no text reads: an `@`, the author, a colon and a space, and all of
/// the reply's own text. A reply to something that is not known reads `[replying]`, a space, and
/// all of the reply's own text.
pub proof fn lemma_bare_reply_parts(user: Seq<char>, body: Seq<char>)
    ensures
        ({
            let t = reply_text(Some((user, None)), body);
            let u = user.len() as int;
            &&& t.len() == u + body.len() + 3
            &&& t[0] == '@'
            &&& t.subrange(1, 1 + u) == user
            &&& t.subrange(1 + u, 3 + u) == seq![':', ' ']
            &&& t.skip(3 + u) == body
        }),
        ({
            let t = reply_text(None, body);
            &&& t.len() == body.len() + 11
            &&& t.take(11) == seq!['[', 'r', 'e', 'p', 'l', 'y', 'i', 'n', 'g', ']', ' ']
            &&& t.skip(11) == body
        }),
{
    reveal_strlit("@");
    reveal_strlit(": ");
    reveal_strlit("[replying] ");
    let t = reply_text(Some((user, None)), body);
    let u = user.len() as int;
    assert(t.subrange(1, 1 + u) =~= user);
    assert(t.subrange(1 + u, 3 + u) =~= seq![':', ' ']);
    assert(t.skip(3 + u) =~= body);
    let n = reply_text(None, body);
    assert(n.take(11) =~= seq!['[', 'r', 'e', 'p', 'l', 'y', 'i', 'n', 'g', ']', ' ']);
    assert(n.skip(11) =~= body);
}

/// Whatever a reply replies to, its text on IRC ends with all of its own text.
pub proof fn lemma_reply_ends_with_body(
    target: Option<(Seq<char>, Option<Seq<char>>)>,
    body: Seq<char>,
)
    ensures
        reply_text(target, body).len() > body.len(),
        reply_text(target, body).skip(reply_text(target, body).len() - body.len()) == body,
{
    match target {
        Some((user, Some(preview))) => lemma_reply_parts(user, preview, body),
        Some((user, None)) => lemma_bare_reply_parts(user, body),
        None => lemma_bare_reply_parts(Seq::empty(), body),
    }
}

/// Two replies to one message with different texts never read the same.
pub proof fn lemma_replies_differ(
    target: Option<(Seq<char>, Option<Seq<char>>)>,
    a: Seq<char>,
    b: Seq<char>,
)
    requires
        a != b,
    ensures
        reply_text(target, a) != reply_text(target, b),
{
    match target {
        Some((user, Some(preview))) => {
            lemma_reply_parts(user, preview, a);
            lemma_reply_parts(user, preview, b);
        },
        Some((user, None)) => {
            lemma_bare_reply_parts(user, a);
            lemma_bare_reply_parts(user, b);
        },
        None => {
            lemma_bare_reply_parts(Seq::empty(), a);
            lemma_bare_reply_parts(Seq::empty(), b);
        },
    }
}

/// A message is ignored for three reasons and for no other: its room has no channel, the bridge's
/// own account sent it, or its event was processed before. Then nothing changes; otherwise the
/// event is processed from now on, and no other.
pub proof fn lemma_ignored_exactly(
    pre: MatrixState,
    m: MatrixMessage,
    post: MatrixState,
    reaction: ReactionView,
)
    requires
        is_received(pre, m, post, reaction),
    ensures
        reaction == ReactionView::Ignore <==> !pre.rooms.channel_of.contains_key(m.room_id@)
            || m.sender@ == pre.own_user || pre.seen.contains(m.event_id@),
        reaction == ReactionView::Ignore ==> post == pre,
        reaction != ReactionView::Ignore ==> post.seen == pre.seen.insert(m.event_id@),
        post.rooms == pre.rooms,
        post.own_user == pre.own_user,
{
}

/// A new message of anyone but the bridge, in a room with a channel, is said in that channel word
/// for word if it is a text and no reply, whoever wrote it and whatever it says. It is said under
/// the name of its author, which for `@name:server` is `name`.
pub proof fn lemma_new_text_is_said(
    pre: MatrixState,
    m: MatrixMessage,
    post: MatrixState,
    reaction: ReactionView,
    name: Seq<char>,
    server: Seq<char>,
)
    requires
        is_received(pre, m, post, reaction),
        pre.rooms.channel_of.contains_key(m.room_id@),
        m.sender@ != pre.own_user,
        !pre.seen.contains(m.event_id@),
        m.text is Some,
        m.reply_to is None,
    ensures
        reaction is Forward,
        reaction->Forward_0.irc_channel == pre.rooms.channel_of[m.room_id@],
        reaction->Forward_0.message == m.text->0@,
        reaction->Forward_0.username == text::user_name_text(m.sender@),
        m.sender@ == seq!['@'] + name + seq![':'] + server && !name.contains(':') && (name.len() > 0
            ==> name[0] != '@') ==> reaction->Forward_0.username == name,
{
    if m.sender@ == seq!['@'] + name + seq![':'] + server && !name.contains(':') && (name.len() > 0
        ==> name[0] != '@') {
        text::lemma_user_name_of_id(name, server);
    }
}

/// A new message that is no text is recorded, and nothing is said and nothing is kept of it.
pub proof fn lemma_no_text_is_recorded(
    pre: MatrixState,
    m: MatrixMessage,
    post: MatrixState,
    reaction: ReactionView,
)
    requires
        is_received(pre, m, post, reaction),
        pre.rooms.channel_of.contains_key(m.room_id@),
        m.sender@ != pre.own_user,
        !pre.seen.contains(m.event_id@),
        m.text is None,
    ensures
        reaction == ReactionView::Record,
        post.replies == pre.replies,
{
}

/// A new text can be quoted from now on, as long as fewer than a thousand messages can: by the name
/// of its author and the preview of its text. What could be quoted before stays.
pub proof fn lemma_new_text_can_be_quoted(
    pre: MatrixState,
    m: MatrixMessage,
    post: MatrixState,
    reaction: ReactionView,
)
    requires
        is_received(pre, m, post, reaction),
        pre.rooms.channel_of.contains_key(m.room_id@),
        m.sender@ != pre.own_user,
        !pre.seen.contains(m.event_id@),
        m.text is Some,
        pre.replies.dom().finite(),
        pre.replies.len() < 1000,
    ensures
        post.replies.dom() == pre.replies.dom().insert(m.event_id@),
        post.replies[m.event_id@].user == text::user_name_text(m.sender@),
        post.replies[m.event_id@].preview == text::preview_text(m.text->0@),
        forall|k: Seq<char>|
            k != m.event_id@ && #[trigger] pre.replies.contains_key(k) ==> post.replies[k]
                == pre.replies[k],
{
    replies::lemma_remembered_exactly(
        pre.replies,
        m.event_id@,
        replies::quote_of(m.sender@, m.text->0@),
        post.replies,
    );
    assert(post.replies.dom() =~= pre.replies.dom().insert(m.event_id@));
}

/// Where a thousand messages or more can be quoted, just a thousand can after a further text. What
/// can be quoted then is the new text, or it could be quoted before and is quoted as before.
pub proof fn lemma_full_cache_stays_full(
    pre: MatrixState,
    m: MatrixMessage,
    post: MatrixState,
    reaction: ReactionView,
)
    requires
        is_received(pre, m, post, reaction),
        pre.rooms.channel_of.contains_key(m.room_id@),
        m.sender@ != pre.own_user,
        !pre.seen.contains(m.event_id@),
        m.text is Some,
        pre.replies.dom().finite(),
        pre.replies.len() >= 1000,
    ensures
        post.replies.len() == 1000,
        forall|k: Seq<char>| #[trigger]
            post.replies.contains_key(k) ==> if k == m.event_id@ {
                post.replies[k].user == text::user_name_text(m.sender@) && post.replies[k].preview
                    == text::preview_text(m.text->0@)
            } else {
                pre.replies.contains_key(k) && post.replies[k] == pre.replies[k]
            },
{
    let quote = replies::quote_of(m.sender@, m.text->0@);
    replies::lemma_remembered_exactly(pre.replies, m.event_id@, quote, post.replies);
    if pre.replies.contains_key(m.event_id@) {
        assert(pre.replies.insert(m.event_id@, quote).dom() =~= pre.replies.dom());
    }
}

/// A new reply is said in its room's channel under its author's name. If the message that it
/// replies to can be quoted, it is said at once: with the author, the preview and all of its own
/// text. If not, that message is fetched, and all of the reply's own text waits for it.
pub proof fn lemma_new_reply(
    pre: MatrixState,
    m: MatrixMessage,
    post: MatrixState,
    reaction: ReactionView,
)
    requires
        is_received(pre, m, post, reaction),
        pre.rooms.channel_of.contains_key(m.room_id@),
        m.sender@ != pre.own_user,
        !pre.seen.contains(m.event_id@),
        m.text is Some,
        m.reply_to is Some,
    ensures
        post.replies.contains_key(m.reply_to->0@) ==> reaction is Forward && ({
            let relay = reaction->Forward_0;
            let quote = post.replies[m.reply_to->0@];
            let u = quote.user.len() as int;
            let p = quote.preview.len() as int;
            &&& relay.irc_channel == pre.rooms.channel_of[m.room_id@]
            &&& relay.username == text::user_name_text(m.sender@)
            &&& relay.message.len() == u + p + m.text->0@.len() + 6
            &&& relay.message.subrange(1, 1 + u) == quote.user
            &&& relay.message.subrange(3 + u, 3 + u + p) == quote.preview
            &&& relay.message.skip(6 + u + p) == m.text->0@
        }),
        !post.replies.contains_key(m.reply_to->0@) ==> reaction is Fetch && ({
            let pending = reaction->Fetch_0;
            &&& pending.irc_channel == pre.rooms.channel_of[m.room_id@]
            &&& pending.username == text::user_name_text(m.sender@)
            &&& pending.body == m.text->0@
            &&& pending.reply_to == m.reply_to->0@
        }),
{
    let id = m.reply_to->0@;
    if post.replies.contains_key(id) {
        lemma_reply_parts(post.replies[id].user, post.replies[id].preview, m.text->0@);
    }
}

/// A fetched text is quoted by the name of its author and its preview, and can be quoted from now
/// on under the event ID under which it was fetched. Nothing else changes.
pub proof fn lemma_fetched_text(
    pre: MatrixState,
    reply_to: Seq<char>,
    f: FetchedMessage,
    body: Seq<char>,
)
    requires
        f.text is Some,
    ensures
        ({
            let post = state_after_fetch(pre, reply_to, Some(f));
            &&& post.rooms == pre.rooms
            &&& post.own_user == pre.own_user
            &&& post.seen == pre.seen
            &&& post.replies.dom() == pre.replies.dom().insert(reply_to)
            &&& post.replies[reply_to].user == text::user_name_text(f.sender@)
            &&& post.replies[reply_to].preview == text::preview_text(f.text->0@)
            &&& forall|k: Seq<char>|
                k != reply_to && #[trigger] pre.replies.contains_key(k) ==> post.replies[k]
                    == pre.replies[k]
        }),
        ({
            let t = reply_text(fetched_target(Some(f)), body);
            let u = text::user_name_text(f.sender@).len() as int;
            let p = text::preview_text(f.text->0@).len() as int;
            &&& t.len() == u + p + body.len() + 6
            &&& t.subrange(1, 1 + u) == text::user_name_text(f.sender@)
            &&& t.subrange(3 + u, 3 + u + p) == text::preview_text(f.text->0@)
            &&& t.skip(6 + u + p) == body
        }),
{
    assert(state_after_fetch(pre, reply_to, Some(f)).replies.dom() =~= pre.replies.dom().insert(
        reply_to,
    ));
    lemma_reply_parts(
        text::user_name_text(f.sender@),
        text::preview_text(f.text->0@),
        body,
    );
}

/// A fetched message that is no text is quoted by the name of its author alone, and nothing is kept
/// of it; where nothing could be fetched, the reply says just that it is one.
pub proof fn lemma_fetched_no_text(
    pre: MatrixState,
    reply_to: Seq<char>,
    f: FetchedMessage,
    body: Seq<char>,
)
    requires
        f.text is None,
    ensures
        state_after_fetch(pre, reply_to, Some(f)) == pre,
        state_after_fetch(pre, reply_to, None) == pre,
        ({
            let t = reply_text(fetched_target(Some(f)), body);
            let u = text::user_name_text(f.sender@).len() as int;
            &&& t.len() == u + body.len() + 3
            &&& t.subrange(1, 1 + u) == text::user_name_text(f.sender@)
            &&& t.skip(3 + u) == body
        }),
        ({
            let t = reply_text(fetched_target(None), body);
            &&& t.len() == body.len() + 11
            &&& t.skip(11) == body
        }),
{
    lemma_bare_reply_parts(text::user_name_text(f.sender@), body);
}

} // verus!
