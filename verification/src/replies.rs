//! The recent messages that a reply may quote.

use crate::keyed::KeyedMap;
use crate::text;
use vstd::prelude::*;
use vstd::string::*;
use vstd::utf8::*;

verus! {

/// The number of messages that stay after a message was remembered.
pub const REPLY_LIMIT: usize = 1000;

/// What a reply quotes of a message: who wrote it and how it begins.
pub struct Quote {
    pub user: Seq<char>,
    pub preview: Seq<char>,
}

/// What is kept of a message.
pub struct RememberedMessage {
    pub user: String,
    pub preview: String,
}

impl View for RememberedMessage {
    type V = Quote;

    open spec fn view(&self) -> Quote {
        Quote { user: self.user@, preview: self.preview@ }
    }
}

/// What a reply quotes of the message `body` of the user with the ID `sender`.
pub open spec fn quote_of(sender: Seq<char>, body: Seq<char>) -> Quote {
    Quote { user: text::user_name_text(sender), preview: text::preview_text(body) }
}

/// Whether `after` is what `before` becomes when a message is remembered: the message is added,
/// and if there are then too many, just as many leave as are too many. Which ones leave is open.
pub open spec fn is_remembered(
    before: Map<Seq<char>, Quote>,
    event_id: Seq<char>,
    quote: Quote,
    after: Map<Seq<char>, Quote>,
) -> bool {
    let full = before.insert(event_id, quote);
    &&& after.submap_of(full)
    &&& after.dom().finite()
    &&& if full.len() <= REPLY_LIMIT {
        after == full
    } else {
        after.len() == REPLY_LIMIT
    }
}

/// The recent messages, by their event IDs.
pub struct ReplyCache {
    messages: KeyedMap<RememberedMessage>,
}

/// The quotes of remembered messages.
spec fn quotes(m: Map<Seq<char>, RememberedMessage>) -> Map<Seq<char>, Quote> {
    m.map_values(|r: RememberedMessage| r@)
}

impl View for ReplyCache {
    type V = Map<Seq<char>, Quote>;

    closed spec fn view(&self) -> Map<Seq<char>, Quote> {
        quotes(self.messages@)
    }
}

impl ReplyCache {
    /// The map behind the cache is well formed.
    pub closed spec fn wf(&self) -> bool {
        self.messages.wf()
    }

    /// There are finitely many messages.
    pub proof fn lemma_wf(&self)
        requires
            self.wf(),
        ensures
            self@.dom().finite(),
    {
        self.messages.lemma_wf();
        assert(self@.dom() =~= self.messages@.dom());
    }

    /// A cache without messages.
    pub fn new() -> (cache: Self)
        ensures
            cache.wf(),
            cache@ == Map::<Seq<char>, Quote>::empty(),
    {
        let messages = KeyedMap::new();
        assert(quotes(messages@) =~= Map::empty());
        ReplyCache { messages }
    }

    /// How many messages are remembered.
    pub fn len(&self) -> (n: usize)
        requires
            self.wf(),
        ensures
            n == self@.len(),
            self@.dom().finite(),
    {
        let n: usize = self.messages.len();
        assert(self@.dom() =~= self.messages@.dom());
        n
    }

    /// What is remembered of a message.
    pub fn get(&self, event_id: &str) -> (message: Option<&RememberedMessage>)
        ensures
            match message {
                Some(m) => self@.contains_key(event_id@) && m@ == self@[event_id@],
                None => !self@.contains_key(event_id@),
            },
    {
        self.messages.get(event_id)
    }

    /// Adds a message, whatever the number of messages.
    pub fn add(&mut self, event_id: String, message: RememberedMessage)
        requires
            old(self).wf(),
        ensures
            final(self).wf(),
            final(self)@ == old(self)@.insert(event_id@, message@),
    {
        self.messages.insert(event_id, message);
        assert(self@ =~= old(self)@.insert(event_id@, message@));
    }

    /// Adds a message and forgets others if there are then too many.
    pub fn remember(&mut self, event_id: String, message: RememberedMessage)
        requires
            old(self).wf(),
        ensures
            final(self).wf(),
            is_remembered(old(self)@, event_id@, message@, final(self)@),
    {
        self.add(event_id, message);
        let ghost full = self@;
        while self.len() > REPLY_LIMIT
            invariant
                self.wf(),
                full == old(self)@.insert(event_id@, message@),
                self@.submap_of(full),
                full.len() <= REPLY_LIMIT ==> self@ == full,
                full.len() > REPLY_LIMIT ==> self@.len() >= REPLY_LIMIT,
            decreases self@.len(),
        {
            let ghost before = *self;
            match self.messages.any_key() {
                Some(key) => {
                    self.messages.remove(key.as_str());
                    proof {
                        assert(before@.dom() =~= before.messages@.dom());
                        assert(self@ =~= before@.remove(key@));
                        assert(self@.dom() =~= before@.dom().remove(key@));
                    }
                },
                None => {
                    assert(before@ =~= Map::empty());
                    assert(before@.dom() =~= Set::empty());
                    return ;
                },
            }
        }
    }
}

/// After a message was remembered there are no more messages than the limit.
pub proof fn lemma_remembered_is_bounded(
    before: Map<Seq<char>, Quote>,
    event_id: Seq<char>,
    quote: Quote,
    after: Map<Seq<char>, Quote>,
)
    requires
        is_remembered(before, event_id, quote, after),
    ensures
        after.len() <= REPLY_LIMIT,
{
}

/// As long as there is room, a remembered message is found, and so is every earlier one.
pub proof fn lemma_remembered_is_found(
    before: Map<Seq<char>, Quote>,
    event_id: Seq<char>,
    quote: Quote,
    after: Map<Seq<char>, Quote>,
)
    requires
        is_remembered(before, event_id, quote, after),
        before.dom().finite(),
        before.len() < REPLY_LIMIT,
    ensures
        after.contains_key(event_id),
        after[event_id] == quote,
        forall|k: Seq<char>|
            k != event_id && #[trigger] before.contains_key(k) ==> after.contains_key(k)
                && after[k] == before[k],
{
    let full = before.insert(event_id, quote);
    assert(full.dom() =~= before.dom().insert(event_id));
}

/// What is kept of a message is seen by its whole texts.
pub proof fn lemma_remembered_is_kept(r: RememberedMessage)
    ensures
        r@.user == r.user@,
        r@.preview == r.preview@,
{
}

/// A reply quotes `@name:server` as `name`, and a message of at most 50 bytes word for word; of a
/// longer one it quotes a beginning and three dots.
pub proof fn lemma_quote_parts(name: Seq<char>, server: Seq<char>, body: Seq<char>)
    requires
        !name.contains(':'),
        name.len() > 0 ==> name[0] != '@',
    ensures
        ({
            let q = quote_of(seq!['@'] + name + seq![':'] + server, body);
            &&& q.user == name
            &&& encode_utf8(body).len() <= 50 ==> q.preview == body
            &&& encode_utf8(body).len() > 50 ==> q.preview.len() >= 3 && q.preview.take(
                q.preview.len() - 3,
            ).is_prefix_of(body) && q.preview.skip(q.preview.len() - 3) == seq!['.', '.', '.']
        }),
{
    text::lemma_user_name_of_id(name, server);
    if encode_utf8(body).len() > 50 {
        text::lemma_preview_of_long(body);
        let p = text::preview_text(body);
        assert(p.take(p.len() - 3) == body.take(p.len() - 3));
    }
}

/// Below a thousand messages nothing leaves when one is remembered; at the limit just as many leave
/// as are too many, so that a thousand stay. Either way nothing is changed and nothing is invented:
/// what stays is the new message or was there before, quoted as before.
pub proof fn lemma_remembered_exactly(
    before: Map<Seq<char>, Quote>,
    event_id: Seq<char>,
    quote: Quote,
    after: Map<Seq<char>, Quote>,
)
    requires
        is_remembered(before, event_id, quote, after),
        before.dom().finite(),
    ensures
        before.len() < 1000 || (before.len() == 1000 && before.contains_key(event_id)) ==> after
            == before.insert(event_id, quote),
        before.len() >= 1000 && !(before.len() == 1000 && before.contains_key(event_id))
            ==> after.len() == 1000,
        forall|k: Seq<char>| #[trigger]
            after.contains_key(k) ==> if k == event_id {
                after[k] == quote
            } else {
                before.contains_key(k) && after[k] == before[k]
            },
{
    let full = before.insert(event_id, quote);
    assert(full.dom() =~= before.dom().insert(event_id));
    if before.contains_key(event_id) {
        assert(full.dom() =~= before.dom());
    }
    assert forall|k: Seq<char>| #[trigger] after.contains_key(k) implies if k == event_id {
        after[k] == quote
    } else {
        before.contains_key(k) && after[k] == before[k]
    } by {
        assert(after.dom().contains(k));
        assert(full.dom().contains(k) && full[k] == after[k]);
    }
}

} // verus!
