//! The table of bridged rooms and channels.

use crate::config::BridgeConfig;
use crate::session;
use crate::session::SetupError;
use crate::text;
use vstd::hash_map::StringHashMap;
use vstd::prelude::*;
use vstd::string::*;

verus! {

/// A map of texts by the texts that it holds.
pub open spec fn texts(m: Map<Seq<char>, String>) -> Map<Seq<char>, Seq<char>> {
    m.map_values(|s: String| s@)
}

/// The channel of each bridged room; of two bridges of one room the later counts.
pub open spec fn channels_by_room(configs: Seq<BridgeConfig>) -> Map<Seq<char>, Seq<char>>
    decreases configs.len(),
{
    if configs.len() == 0 {
        Map::empty()
    } else {
        channels_by_room(configs.drop_last()).insert(
            configs.last().matrix_room_id@,
            configs.last().irc_channel@,
        )
    }
}

/// The room of each bridged channel; of two bridges of one channel the later counts.
pub open spec fn rooms_by_channel(configs: Seq<BridgeConfig>) -> Map<Seq<char>, Seq<char>>
    decreases configs.len(),
{
    if configs.len() == 0 {
        Map::empty()
    } else {
        rooms_by_channel(configs.drop_last()).insert(
            configs.last().irc_channel@,
            configs.last().matrix_room_id@,
        )
    }
}

/// Whether `name` is one of `names`.
pub open spec fn is_listed(names: Seq<String>, name: Seq<char>) -> bool {
    exists|i: int| 0 <= i < names.len() && (#[trigger] names[i])@ == name
}

/// One more name lists one more name.
pub(crate) proof fn lemma_listed_one_more(names: Seq<String>, i: int, name: Seq<char>)
    requires
        0 <= i < names.len(),
    ensures
        is_listed(names.take(i + 1), name) <==> is_listed(names.take(i), name) || name == names[i]@,
{
    if is_listed(names.take(i), name) {
        let j = choose|j: int| 0 <= j < i && (#[trigger] names.take(i)[j])@ == name;
        assert(names.take(i + 1)[j]@ == name);
    }
    if is_listed(names.take(i + 1), name) {
        let j = choose|j: int| 0 <= j < i + 1 && (#[trigger] names.take(i + 1)[j])@ == name;
        if j < i {
            assert(names.take(i)[j]@ == name);
        }
    }
    assert(names.take(i + 1)[i]@ == names[i]@);
}

/// What is wrong with one bridge, given the rooms that the account knows.
pub open spec fn bridge_fault(config: BridgeConfig, known: Seq<String>) -> Option<
    session::SetupFault,
> {
    if !session::is_room_id(config.matrix_room_id@) {
        Some(session::SetupFault::BadRoomId(session::room_id_fault_text()))
    } else if !is_listed(known, config.matrix_room_id@) {
        Some(session::SetupFault::UnknownRoom(config.matrix_room_id@))
    } else {
        None
    }
}

/// What is wrong with the first faulty bridge.
pub open spec fn first_bridge_fault(configs: Seq<BridgeConfig>, known: Seq<String>) -> Option<
    session::SetupFault,
>
    decreases configs.len(),
{
    if configs.len() == 0 {
        None
    } else if bridge_fault(configs[0], known) is Some {
        bridge_fault(configs[0], known)
    } else {
        first_bridge_fault(configs.drop_first(), known)
    }
}

/// Which channel belongs to which room, in both directions.
#[verifier::ext_equal]
pub struct RoomTableView {
    pub channel_of: Map<Seq<char>, Seq<char>>,
    pub room_of: Map<Seq<char>, Seq<char>>,
}

/// The entry of a map, if there is one.
pub open spec fn entry<V>(m: Map<Seq<char>, V>, key: Seq<char>) -> Option<V> {
    if m.contains_key(key) {
        Some(m[key])
    } else {
        None
    }
}

/// The table of a list of bridges.
pub open spec fn table_of(configs: Seq<BridgeConfig>) -> RoomTableView {
    RoomTableView {
        channel_of: channels_by_room(configs),
        room_of: rooms_by_channel(configs),
    }
}

/// Which channel belongs to which room, in both directions.
pub struct RoomTable {
    channels: StringHashMap<String>,
    rooms: StringHashMap<String>,
}

impl View for RoomTable {
    type V = RoomTableView;

    closed spec fn view(&self) -> RoomTableView {
        RoomTableView { channel_of: texts(self.channels@), room_of: texts(self.rooms@) }
    }
}

/// Whether `name` is one of `names`.
fn contains_name(names: &Vec<String>, name: &String) -> (b: bool)
    ensures
        b == is_listed(names@, name@),
{
    let mut i: usize = 0;
    while i < names.len()
        invariant
            i <= names.len(),
            forall|j: int| 0 <= j < i ==> (#[trigger] names@[j])@ != name@,
        decreases names.len() - i,
    {
        if names[i] == *name {
            assert(names@[i as int]@ == name@);
            return true;
        }
        i += 1;
    }
    false
}

impl RoomTable {
    /// Links the rooms and channels of `configs`; `known` are the rooms that the account knows.
    pub fn build(configs: &Vec<BridgeConfig>, known: &Vec<String>) -> (r: Result<
        RoomTable,
        SetupError,
    >)
        ensures
            match r {
                Ok(table) => first_bridge_fault(configs@, known@) is None && table@ == table_of(
                    configs@,
                ),
                Err(e) => first_bridge_fault(configs@, known@) == Some(e@),
            },
    {
        let mut channels: StringHashMap<String> = StringHashMap::new();
        let mut rooms: StringHashMap<String> = StringHashMap::new();
        let mut i: usize = 0;
        assert(configs@.take(0) =~= Seq::empty());
        assert(configs@.skip(0) =~= configs@);
        assert(texts(channels@) =~= Map::empty());
        assert(texts(rooms@) =~= Map::empty());
        while i < configs.len()
            invariant
                i <= configs.len(),
                first_bridge_fault(configs@, known@) == first_bridge_fault(
                    configs@.skip(i as int),
                    known@,
                ),
                texts(channels@) == channels_by_room(configs@.take(i as int)),
                texts(rooms@) == rooms_by_channel(configs@.take(i as int)),
            decreases configs.len() - i,
        {
            let config = &configs[i];
            let room_id: String = match session::bridged_room(config) {
                Ok(room_id) => room_id,
                Err(e) => return Err(e),
            };
            if !contains_name(known, &room_id) {
                return Err(SetupError::UnknownRoom(room_id));
            }
            proof {
                assert(configs@.skip(i as int).drop_first() =~= configs@.skip(i + 1));
                assert(configs@.take(i + 1).drop_last() =~= configs@.take(i as int));
            }
            channels.insert(config.matrix_room_id.clone(), config.irc_channel.clone());
            rooms.insert(config.irc_channel.clone(), config.matrix_room_id.clone());
            assert(texts(channels@) =~= channels_by_room(configs@.take(i + 1)));
            assert(texts(rooms@) =~= rooms_by_channel(configs@.take(i + 1)));
            i += 1;
        }
        assert(configs@.take(i as int) =~= configs@);
        Ok(RoomTable { channels, rooms })
    }

    /// The IRC channel to which the messages of a room go.
    pub fn channel_for(&self, room_id: &str) -> (channel: Option<String>)
        ensures
            text::text_of(channel) == entry(self@.channel_of, room_id@),
    {
        match self.channels.get(room_id) {
            Some(channel) => Some(channel.clone()),
            None => None,
        }
    }

    /// The Matrix room to which the messages of a channel go.
    pub fn room_for(&self, irc_channel: &str) -> (room_id: Option<String>)
        ensures
            text::text_of(room_id) == entry(self@.room_of, irc_channel@),
    {
        match self.rooms.get(irc_channel) {
            Some(room_id) => Some(room_id.clone()),
            None => None,
        }
    }
}

/// Whether bridge `i` is the last one of its room.
pub open spec fn is_last_of_room(configs: Seq<BridgeConfig>, i: int) -> bool {
    &&& 0 <= i < configs.len()
    &&& forall|j: int|
        i < j < configs.len() ==> (#[trigger] configs[j]).matrix_room_id@
            != configs[i].matrix_room_id@
}

/// Whether bridge `i` is the last one of its channel.
pub open spec fn is_last_of_channel(configs: Seq<BridgeConfig>, i: int) -> bool {
    &&& 0 <= i < configs.len()
    &&& forall|j: int|
        i < j < configs.len() ==> (#[trigger] configs[j]).irc_channel@ != configs[i].irc_channel@
}

/// The last bridge of a room decides its channel, and the last bridge of a channel its room.
pub proof fn lemma_last_bridge_counts(configs: Seq<BridgeConfig>, i: int)
    ensures
        is_last_of_room(configs, i) ==> entry(
            table_of(configs).channel_of,
            configs[i].matrix_room_id@,
        ) == Some(configs[i].irc_channel@),
        is_last_of_channel(configs, i) ==> entry(
            table_of(configs).room_of,
            configs[i].irc_channel@,
        ) == Some(configs[i].matrix_room_id@),
    decreases configs.len(),
{
    if 0 <= i < configs.len() - 1 {
        let rest = configs.drop_last();
        lemma_last_bridge_counts(rest, i);
        assert(configs[configs.len() - 1] == configs.last());
        if is_last_of_room(configs, i) {
            assert forall|j: int| i < j < rest.len() implies (#[trigger] rest[j]).matrix_room_id@
                != rest[i].matrix_room_id@ by {
                assert(rest[j] == configs[j]);
            }
        }
        if is_last_of_channel(configs, i) {
            assert forall|j: int| i < j < rest.len() implies (#[trigger] rest[j]).irc_channel@
                != rest[i].irc_channel@ by {
                assert(rest[j] == configs[j]);
            }
        }
    }
}

/// Every room in the table is the room of a bridge, and the last bridge of that room.
pub proof fn lemma_room_comes_from_bridge(configs: Seq<BridgeConfig>, room: Seq<char>) -> (i: int)
    requires
        table_of(configs).channel_of.contains_key(room),
    ensures
        is_last_of_room(configs, i),
        configs[i].matrix_room_id@ == room,
    decreases configs.len(),
{
    if configs.last().matrix_room_id@ == room {
        configs.len() - 1
    } else {
        let i = lemma_room_comes_from_bridge(configs.drop_last(), room);
        assert forall|j: int| i < j < configs.len() implies (#[trigger] configs[j]).matrix_room_id@
            != configs[i].matrix_room_id@ by {
            if j < configs.len() - 1 {
                assert(configs.drop_last()[j] == configs[j]);
            }
        }
        i
    }
}

/// Every channel in the table is the channel of a bridge, and the last bridge of that channel.
pub proof fn lemma_channel_comes_from_bridge(configs: Seq<BridgeConfig>, channel: Seq<char>) -> (i:
    int)
    requires
        table_of(configs).room_of.contains_key(channel),
    ensures
        is_last_of_channel(configs, i),
        configs[i].irc_channel@ == channel,
    decreases configs.len(),
{
    if configs.last().irc_channel@ == channel {
        configs.len() - 1
    } else {
        let i = lemma_channel_comes_from_bridge(configs.drop_last(), channel);
        assert forall|j: int| i < j < configs.len() implies (#[trigger] configs[j]).irc_channel@
            != configs[i].irc_channel@ by {
            if j < configs.len() - 1 {
                assert(configs.drop_last()[j] == configs[j]);
            }
        }
        i
    }
}

/// Every bridged room has a channel, and every bridged channel has a room.
pub proof fn lemma_every_bridge_is_linked(configs: Seq<BridgeConfig>, i: int)
    requires
        0 <= i < configs.len(),
    ensures
        table_of(configs).channel_of.contains_key(configs[i].matrix_room_id@),
        table_of(configs).room_of.contains_key(configs[i].irc_channel@),
    decreases configs.len(),
{
    if i < configs.len() - 1 {
        lemma_every_bridge_is_linked(configs.drop_last(), i);
    }
}

/// Whether no room and no channel is bridged twice.
pub open spec fn is_one_to_one(configs: Seq<BridgeConfig>) -> bool {
    forall|i: int, j: int|
        #![trigger configs[i], configs[j]]
        0 <= i < j < configs.len() ==> configs[i].matrix_room_id@ != configs[j].matrix_room_id@
            && configs[i].irc_channel@ != configs[j].irc_channel@
}

/// Where no room and no channel is bridged twice, the two directions of the table undo each other:
/// what is said in a channel goes to the room whose messages go to that channel.
pub proof fn lemma_table_is_invertible(configs: Seq<BridgeConfig>, room: Seq<char>, channel: Seq<
    char,
>)
    requires
        is_one_to_one(configs),
    ensures
        entry(table_of(configs).channel_of, room) == Some(channel) <==> entry(
            table_of(configs).room_of,
            channel,
        ) == Some(room),
{
    if entry(table_of(configs).channel_of, room) == Some(channel) {
        let i = lemma_room_comes_from_bridge(configs, room);
        lemma_last_bridge_counts(configs, i);
        assert(is_last_of_channel(configs, i));
    }
    if entry(table_of(configs).room_of, channel) == Some(room) {
        let i = lemma_channel_comes_from_bridge(configs, channel);
        lemma_last_bridge_counts(configs, i);
        assert(is_last_of_room(configs, i));
    }
}

/// No fault means that no single bridge is faulty.
proof fn lemma_no_fault(configs: Seq<BridgeConfig>, known: Seq<String>, i: int)
    requires
        first_bridge_fault(configs, known) is None,
        0 <= i < configs.len(),
    ensures
        bridge_fault(configs[i], known) is None,
    decreases configs.len(),
{
    if i > 0 {
        lemma_no_fault(configs.drop_first(), known, i - 1);
    }
}

/// Every room to which a channel's messages go is a room ID, and one that the account knows.
pub proof fn lemma_destinations_are_known(
    configs: Seq<BridgeConfig>,
    known: Seq<String>,
    channel: Seq<char>,
)
    requires
        first_bridge_fault(configs, known) is None,
        table_of(configs).room_of.contains_key(channel),
    ensures
        session::is_room_id(table_of(configs).room_of[channel]),
        is_listed(known, table_of(configs).room_of[channel]),
{
    let i = lemma_channel_comes_from_bridge(configs, channel);
    lemma_last_bridge_counts(configs, i);
    lemma_no_fault(configs, known, i);
}

/// A name is listed exactly if one of the names reads the same, character by character.
pub proof fn lemma_listed(names: Seq<String>, name: Seq<char>)
    ensures
        is_listed(names, name) <==> names.map_values(|s: String| s@).contains(name),
{
    let all = names.map_values(|s: String| s@);
    if is_listed(names, name) {
        let i = choose|i: int| 0 <= i < names.len() && (#[trigger] names[i])@ == name;
        assert(all[i] == name);
    }
    if all.contains(name) {
        let i = choose|i: int| 0 <= i < all.len() && all[i] == name;
        assert(names[i]@ == name);
    }
}

/// An entry is looked up under just its own key.
pub proof fn lemma_entry<V>(m: Map<Seq<char>, V>, key: Seq<char>, value: V)
    ensures
        entry(m.insert(key, value), key) == Some(value),
        entry(m.remove(key), key) is None,
        forall|k: Seq<char>| k != key ==> #[trigger] entry(m.insert(key, value), k) == entry(m, k),
        entry(Map::<Seq<char>, V>::empty(), key) is None,
{
}

/// A room's messages go to a channel exactly if some bridge links the two and no later bridge has
/// the same room, whatever the room and the channel are called.
pub proof fn lemma_channel_of_room(configs: Seq<BridgeConfig>, room: Seq<char>, channel: Seq<char>)
    ensures
        entry(table_of(configs).channel_of, room) == Some(channel) <==> exists|i: int|
            #![trigger configs[i]]
            0 <= i < configs.len() && configs[i].matrix_room_id@ == room
                && configs[i].irc_channel@ == channel && forall|j: int|
                i < j < configs.len() ==> (#[trigger] configs[j]).matrix_room_id@ != room,
{
    if entry(table_of(configs).channel_of, room) == Some(channel) {
        let i = lemma_room_comes_from_bridge(configs, room);
        lemma_last_bridge_counts(configs, i);
        assert(configs[i].irc_channel@ == channel);
    }
    if exists|i: int|
        #![trigger configs[i]]
        0 <= i < configs.len() && configs[i].matrix_room_id@ == room && configs[i].irc_channel@
            == channel && forall|j: int|
            i < j < configs.len() ==> (#[trigger] configs[j]).matrix_room_id@ != room {
        let i = choose|i: int|
            #![trigger configs[i]]
            0 <= i < configs.len() && configs[i].matrix_room_id@ == room && configs[i].irc_channel@
                == channel && forall|j: int|
                i < j < configs.len() ==> (#[trigger] configs[j]).matrix_room_id@ != room;
        assert(is_last_of_room(configs, i));
        lemma_last_bridge_counts(configs, i);
    }
}

/// A channel's messages go to a room exactly if some bridge links the two and no later bridge has
/// the same channel, whatever the room and the channel are called.
pub proof fn lemma_room_of_channel(configs: Seq<BridgeConfig>, channel: Seq<char>, room: Seq<char>)
    ensures
        entry(table_of(configs).room_of, channel) == Some(room) <==> exists|i: int|
            #![trigger configs[i]]
            0 <= i < configs.len() && configs[i].irc_channel@ == channel
                && configs[i].matrix_room_id@ == room && forall|j: int|
                i < j < configs.len() ==> (#[trigger] configs[j]).irc_channel@ != channel,
{
    if entry(table_of(configs).room_of, channel) == Some(room) {
        let i = lemma_channel_comes_from_bridge(configs, channel);
        lemma_last_bridge_counts(configs, i);
        assert(configs[i].matrix_room_id@ == room);
    }
    if exists|i: int|
        #![trigger configs[i]]
        0 <= i < configs.len() && configs[i].irc_channel@ == channel && configs[i].matrix_room_id@
            == room && forall|j: int|
            i < j < configs.len() ==> (#[trigger] configs[j]).irc_channel@ != channel {
        let i = choose|i: int|
            #![trigger configs[i]]
            0 <= i < configs.len() && configs[i].irc_channel@ == channel
                && configs[i].matrix_room_id@ == room && forall|j: int|
                i < j < configs.len() ==> (#[trigger] configs[j]).irc_channel@ != channel;
        assert(is_last_of_channel(configs, i));
        lemma_last_bridge_counts(configs, i);
    }
}

/// A list of bridges is accepted exactly if every room begins with an exclamation mark and is known
/// to the account. Nothing is asked of the channels.
pub proof fn lemma_accepted_bridges(configs: Seq<BridgeConfig>, known: Seq<String>)
    ensures
        first_bridge_fault(configs, known) is None <==> forall|i: int|
            0 <= i < configs.len() ==> {
                let room = (#[trigger] configs[i]).matrix_room_id@;
                &&& room.len() > 0 && room[0] == '!'
                &&& known.map_values(|s: String| s@).contains(room)
            },
{
    if first_bridge_fault(configs, known) is None {
        assert forall|i: int| 0 <= i < configs.len() implies {
            let room = (#[trigger] configs[i]).matrix_room_id@;
            &&& room.len() > 0 && room[0] == '!'
            &&& known.map_values(|s: String| s@).contains(room)
        } by {
            lemma_no_fault(configs, known, i);
            lemma_listed(known, configs[i].matrix_room_id@);
        }
    } else {
        let i = lemma_first_fault(configs, known);
        lemma_listed(known, configs[i].matrix_room_id@);
    }
}

/// The fault that is reported is that of the first faulty bridge: its room does not begin with an
/// exclamation mark, or it does and the account does not know it.
pub proof fn lemma_first_fault(configs: Seq<BridgeConfig>, known: Seq<String>) -> (i: int)
    requires
        first_bridge_fault(configs, known) is Some,
    ensures
        0 <= i < configs.len(),
        first_bridge_fault(configs.take(i), known) is None,
        match first_bridge_fault(configs, known)->0 {
            session::SetupFault::BadRoomId(m) => (configs[i].matrix_room_id@.len() == 0
                || configs[i].matrix_room_id@[0] != '!') && m == session::room_id_fault_text(),
            session::SetupFault::UnknownRoom(room) => room == configs[i].matrix_room_id@
                && room.len() > 0 && room[0] == '!' && !is_listed(known, room),
            _ => false,
        },
    decreases configs.len(),
{
    if bridge_fault(configs[0], known) is Some {
        assert(configs.take(0) =~= Seq::empty());
        0
    } else {
        let rest = configs.drop_first();
        let i = lemma_first_fault(rest, known);
        assert(configs.take(i + 1).drop_first() =~= rest.take(i));
        assert(configs.take(i + 1)[0] == configs[0]);
        i + 1
    }
}

} // verus!
