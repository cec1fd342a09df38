//! The journal of processed events: one event ID on each line of a file.

use crate::text;
use vstd::hash_set::StringHashSet;
use vstd::prelude::*;
use vstd::slice::*;
use vstd::string::*;
use vstd::utf8::*;

verus! {

/// The byte that ends a line.
pub const NEWLINE: u8 = 0x0a;

/// Whether the bytes from `a` up to `b` are a line of `data`, without the byte that ends it. The
/// last line need not be ended, unless it is empty.
pub open spec fn is_line(data: Seq<u8>, a: int, b: int) -> bool {
    &&& 0 <= a <= b <= data.len()
    &&& a < data.len()
    &&& a == 0 || data[a - 1] == NEWLINE
    &&& b == data.len() || data[b] == NEWLINE
    &&& forall|i: int| a <= i < b ==> #[trigger] data[i] != NEWLINE
}

/// The event ID on a line: its text without the white space around it, if it is text at all.
pub open spec fn line_id(line: Seq<u8>) -> Option<Seq<char>> {
    if valid_utf8(line) {
        Some(text::trimmed(decode_utf8(line)))
    } else {
        None
    }
}

/// Whether a line of the journal that ends before `limit` holds `id`.
spec fn holds_before(data: Seq<u8>, limit: int, id: Seq<char>) -> bool {
    exists|a: int, b: int|
        #[trigger] is_line(data, a, b) && b < limit && line_id(data.subrange(a, b)) == Some(id)
}

/// Whether a line of the journal holds `id`.
pub open spec fn holds(data: Seq<u8>, id: Seq<char>) -> bool {
    exists|a: int, b: int|
        #[trigger] is_line(data, a, b) && line_id(data.subrange(a, b)) == Some(id)
}

/// The event IDs that a journal holds.
pub open spec fn journal_ids(data: Seq<u8>) -> Set<Seq<char>> {
    Set::new(|id: Seq<char>| holds(data, id))
}

/// Calls `core::str::from_utf8` and copies the text. The contract says that it succeeds exactly
/// on valid UTF-8, and that the text is what the bytes encode.
#[verifier::external_body]
fn decode(bytes: &[u8]) -> (r: Option<String>)
    ensures
        match r {
            Some(s) => valid_utf8(bytes@) && s@ == decode_utf8(bytes@),
            None => !valid_utf8(bytes@),
        },
{
    match core::str::from_utf8(bytes) {
        Ok(s) => Some(s.to_string()),
        Err(_) => None,
    }
}

/// The events that were processed already.
pub struct ProcessedEvents {
    ids: StringHashSet,
}

impl View for ProcessedEvents {
    type V = Set<Seq<char>>;

    closed spec fn view(&self) -> Set<Seq<char>> {
        self.ids@
    }
}

impl ProcessedEvents {
    /// No events at all.
    pub fn new() -> (events: Self)
        ensures
            events@ == Set::<Seq<char>>::empty(),
    {
        ProcessedEvents { ids: StringHashSet::new() }
    }

    /// How many events there are.
    pub fn len(&self) -> (n: usize)
        ensures
            n == self@.len(),
    {
        self.ids.len()
    }

    /// Whether an event was processed.
    pub fn contains(&self, event_id: &str) -> (b: bool)
        ensures
            b == self@.contains(event_id@),
    {
        self.ids.contains(event_id)
    }

    /// Adds an event.
    pub fn insert(&mut self, event_id: String)
        ensures
            final(self)@ == old(self)@.insert(event_id@),
    {
        self.ids.insert(event_id);
    }
}

/// Adds the event ID on one line, if the line is text.
fn insert_line(events: &mut ProcessedEvents, line: &[u8])
    ensures
        final(events)@ == match line_id(line@) {
            Some(id) => old(events)@.insert(id),
            None => old(events)@,
        },
{
    if let Some(s) = decode(line) {
        events.insert(text::trim(s.as_str()));
    }
}

/// The line that ends at `i` is the one that begins at `start`.
proof fn lemma_line_start(data: Seq<u8>, start: int, a: int, b: int)
    requires
        0 <= start <= b <= data.len(),
        start == 0 || data[start - 1] == NEWLINE,
        forall|j: int| start <= j < b ==> #[trigger] data[j] != NEWLINE,
        is_line(data, a, b),
    ensures
        a == start,
{
    if a < start {
        assert(data[start - 1] != NEWLINE);
    }
    if a > start {
        assert(data[a - 1] == NEWLINE);
    }
}

/// Reads the journal: the event ID of every line that is text.
pub fn load_processed_events(data: &[u8]) -> (events: ProcessedEvents)
    ensures
        events@ == journal_ids(data@),
{
    let n: usize = data.len();
    let mut events = ProcessedEvents::new();
    let mut start: usize = 0;
    let mut i: usize = 0;
    while i < n
        invariant
            start <= i <= n == data@.len(),
            start == 0 || data@[start - 1] == NEWLINE,
            forall|j: int| start <= j < i ==> #[trigger] data@[j] != NEWLINE,
            forall|id: Seq<char>|
                #[trigger] events@.contains(id) <==> holds_before(data@, start as int, id),
        decreases n - i,
    {
        if data[i] == NEWLINE {
            let ghost before = events@;
            insert_line(&mut events, slice_subrange(data, start, i));
            proof {
                assert(is_line(data@, start as int, i as int));
                assert forall|id: Seq<char>| #[trigger] events@.contains(id) <==> holds_before(
                    data@,
                    i + 1,
                    id,
                ) by {
                    assert(before.contains(id) <==> holds_before(data@, start as int, id));
                    if holds_before(data@, i + 1, id) {
                        let (a, b) = choose|a: int, b: int|
                            #[trigger] is_line(data@, a, b) && b < i + 1 && line_id(
                                data@.subrange(a, b),
                            ) == Some(id);
                        if b >= start {
                            assert(b == i);
                            lemma_line_start(data@, start as int, a, b);
                        }
                    }
                }
            }
            start = i + 1;
        }
        i += 1;
    }
    let ghost before = events@;
    if start < n {
        insert_line(&mut events, slice_subrange(data, start, n));
    }
    proof {
        if start < n {
            assert(is_line(data@, start as int, n as int));
        }
        assert forall|id: Seq<char>| #[trigger] events@.contains(id) <==> holds(data@, id) by {
            assert(before.contains(id) <==> holds_before(data@, start as int, id));
            if holds(data@, id) {
                let (a, b) = choose|a: int, b: int|
                    #[trigger] is_line(data@, a, b) && line_id(data@.subrange(a, b)) == Some(id);
                if b >= start {
                    assert(b == n);
                    lemma_line_start(data@, start as int, a, b);
                }
            }
        }
        assert(events@ =~= journal_ids(data@));
    }
    events
}

/// The line that records an event.
pub open spec fn line_text(event_id: Seq<char>) -> Seq<char> {
    event_id + "\n"@
}

/// The line that records an event.
pub fn journal_line(event_id: &str) -> (line: String)
    ensures
        line@ == line_text(event_id@),
{
    let mut line = event_id.to_owned();
    line.append("\n");
    line
}

/// Whether the journal reads `id` back as it was written: `id` is one line, with no white space at
/// its ends.
pub open spec fn is_recordable(id: Seq<char>) -> bool {
    &&& !id.contains('\n')
    &&& id.len() > 0 ==> !text::is_white_space(id[0]) && !text::is_white_space(id.last())
}

/// Whether the last line of the journal is ended.
pub open spec fn is_ended(data: Seq<u8>) -> bool {
    data.len() == 0 || data.last() == NEWLINE
}

/// The journal that records `ids` one after the other.
pub open spec fn journal_of(ids: Seq<Seq<char>>) -> Seq<u8>
    decreases ids.len(),
{
    if ids.len() == 0 {
        Seq::empty()
    } else {
        journal_of(ids.drop_last()) + encode_utf8(line_text(ids.last()))
    }
}

/// Only the newline character is encoded with the newline byte.
proof fn lemma_newline_bytes(c: char, i: int)
    requires
        0 <= i < encode_scalar(c as u32).len(),
    ensures
        encode_scalar(c as u32)[i] == NEWLINE ==> c == '\n',
{
    let v = c as u32;
    assert(v <= 0x7f ==> (v & 0x7f) as u8 == v) by (bit_vector);
    assert((0xC0u8 | ((v >> 6) & 0x1F) as u8) >= 0x80) by (bit_vector);
    assert((0xE0u8 | ((v >> 12) & 0x0F) as u8) >= 0x80) by (bit_vector);
    assert((0xF0u8 | ((v >> 18) & 0x7) as u8) >= 0x80) by (bit_vector);
    assert((0x80u8 | (v & 0x3F) as u8) >= 0x80) by (bit_vector);
    assert((0x80u8 | ((v >> 6) & 0x3F) as u8) >= 0x80) by (bit_vector);
    assert((0x80u8 | ((v >> 12) & 0x3F) as u8) >= 0x80) by (bit_vector);
}

/// The encoding of a text without newlines has no newline byte.
proof fn lemma_no_newline(s: Seq<char>)
    requires
        !s.contains('\n'),
    ensures
        forall|i: int| 0 <= i < encode_utf8(s).len() ==> #[trigger] encode_utf8(s)[i] != NEWLINE,
    decreases s.len(),
{
    if s.len() > 0 {
        let rest = s.drop_first();
        assert(s.contains(s[0]));
        assert forall|i: int| 0 <= i < rest.len() implies rest[i] != '\n' by {
            assert(s.contains(s[i + 1]));
        }
        lemma_no_newline(rest);
        let head = encode_scalar(s[0] as u32);
        assert forall|i: int| 0 <= i < encode_utf8(s).len() implies #[trigger] encode_utf8(s)[i]
            != NEWLINE by {
            if i < head.len() {
                lemma_newline_bytes(s[0], i);
            } else {
                assert(encode_utf8(s)[i] == encode_utf8(rest)[i - head.len()]);
            }
        }
    }
}

/// The bytes of a journal line: those of the event ID and the newline.
proof fn lemma_line_bytes(id: Seq<char>)
    ensures
        encode_utf8(line_text(id)) == encode_utf8(id).push(NEWLINE),
{
    reveal_strlit("\n");
    assert("\n"@ =~= seq!['\n']);
    text::lemma_encode_utf8_concat(id, "\n"@);
    assert(is_ascii_chars("\n"@));
    is_ascii_chars_encode_utf8("\n"@);
    assert(encode_utf8("\n"@)[0] == "\n"@[0] as u8);
    assert(encode_utf8("\n"@) =~= seq![NEWLINE]);
    assert(encode_utf8(id) + seq![NEWLINE] =~= encode_utf8(id).push(NEWLINE));
}

/// Two journals one after the other hold what each of them holds, if the first one is ended.
pub proof fn lemma_journal_concat(data: Seq<u8>, more: Seq<u8>)
    requires
        is_ended(data),
    ensures
        journal_ids(data + more) == journal_ids(data).union(journal_ids(more)),
{
    let all = data + more;
    let n = data.len() as int;
    assert(forall|j: int| 0 <= j < n ==> #[trigger] data[j] == all[j]);
    assert(forall|j: int| 0 <= j < more.len() ==> #[trigger] more[j] == all[j + n]);
    assert forall|t: Seq<char>| #[trigger] holds(all, t) <==> holds(data, t) || holds(more, t) by {
        if holds(data, t) {
            let (a, b) = choose|a: int, b: int|
                #[trigger] is_line(data, a, b) && line_id(data.subrange(a, b)) == Some(t);
            if b == n {
                assert(data[n - 1] != NEWLINE);
            }
            assert forall|j: int| a <= j < b implies #[trigger] all[j] != NEWLINE by {
                assert(data[j] != NEWLINE);
            }
            assert(is_line(all, a, b));
            assert(all.subrange(a, b) =~= data.subrange(a, b));
        }
        if holds(more, t) {
            let (a, b) = choose|a: int, b: int|
                #[trigger] is_line(more, a, b) && line_id(more.subrange(a, b)) == Some(t);
            assert forall|j: int| a + n <= j < b + n implies #[trigger] all[j] != NEWLINE by {
                assert(more[j - n] != NEWLINE);
            }
            assert(is_line(all, a + n, b + n));
            assert(all.subrange(a + n, b + n) =~= more.subrange(a, b));
        }
        if holds(all, t) {
            let (a, b) = choose|a: int, b: int|
                #[trigger] is_line(all, a, b) && line_id(all.subrange(a, b)) == Some(t);
            if b < n {
                assert forall|j: int| a <= j < b implies #[trigger] data[j] != NEWLINE by {
                    assert(all[j] != NEWLINE);
                }
                assert(is_line(data, a, b));
                assert(all.subrange(a, b) =~= data.subrange(a, b));
            } else {
                if a < n {
                    if b == n && b < all.len() {
                        assert(all[n - 1] != NEWLINE);
                    }
                    assert(all[n - 1] != NEWLINE);
                }
                assert forall|j: int| a - n <= j < b - n implies #[trigger] more[j] != NEWLINE by {
                    assert(all[j + n] != NEWLINE);
                }
                assert(is_line(more, a - n, b - n));
                assert(all.subrange(a, b) =~= more.subrange(a - n, b - n));
            }
        }
    }
    assert(journal_ids(all) =~= journal_ids(data).union(journal_ids(more)));
}

/// The line that records an event without a newline holds its ID, without the white space around
/// it, and nothing else.
proof fn lemma_line_holds(id: Seq<char>)
    requires
        !id.contains('\n'),
    ensures
        journal_ids(encode_utf8(line_text(id))) == Set::<Seq<char>>::empty().insert(
            text::trimmed(id),
        ),
        is_ended(encode_utf8(line_text(id))),
{
    let enc = encode_utf8(id);
    let line = encode_utf8(line_text(id));
    let n = enc.len() as int;
    lemma_line_bytes(id);
    lemma_no_newline(id);
    encode_utf8_valid_utf8(id);
    encode_utf8_decode_utf8(id);
    assert(forall|j: int| 0 <= j < n ==> #[trigger] line[j] == enc[j]);
    assert(line[n] == NEWLINE);
    assert(is_line(line, 0, n));
    assert(line.subrange(0, n) =~= enc);
    assert(holds(line, text::trimmed(id)));
    assert forall|t: Seq<char>| #[trigger] holds(line, t) implies t == text::trimmed(id) by {
        let (a, b) = choose|a: int, b: int|
            #[trigger] is_line(line, a, b) && line_id(line.subrange(a, b)) == Some(t);
        if b == n + 1 {
            assert(line[n] != NEWLINE);
        }
        assert(b == n);
        lemma_line_start(line, 0, a, b);
    }
    assert(journal_ids(line) =~= Set::empty().insert(text::trimmed(id)));
    assert(line.last() == NEWLINE);
}

/// Recording an event without a newline adds its ID, without the white space around it, to those
/// that the journal holds, and nothing else.
pub proof fn lemma_record(data: Seq<u8>, id: Seq<char>)
    requires
        is_ended(data),
        !id.contains('\n'),
    ensures
        journal_ids(data + encode_utf8(line_text(id))) == journal_ids(data).insert(
            text::trimmed(id),
        ),
        is_ended(data + encode_utf8(line_text(id))),
{
    lemma_line_holds(id);
    lemma_line_bytes(id);
    lemma_journal_concat(data, encode_utf8(line_text(id)));
    assert(journal_ids(data).union(Set::<Seq<char>>::empty().insert(text::trimmed(id)))
        =~= journal_ids(data).insert(text::trimmed(id)));
    let grown = data + encode_utf8(line_text(id));
    assert(grown.last() == encode_utf8(line_text(id)).last());
}

/// What was recorded stays recorded, whatever is written after it.
pub proof fn lemma_recorded_stays(data: Seq<u8>, id: Seq<char>, rest: Seq<u8>)
    requires
        is_ended(data),
        !id.contains('\n'),
    ensures
        journal_ids(data + encode_utf8(line_text(id)) + rest).contains(text::trimmed(id)),
{
    lemma_record(data, id);
    lemma_journal_concat(data + encode_utf8(line_text(id)), rest);
}

/// The IDs as the journal reads them back.
pub open spec fn trimmed_ids(ids: Seq<Seq<char>>) -> Set<Seq<char>> {
    ids.map_values(|id: Seq<char>| text::trimmed(id)).to_set()
}

/// Reading a journal gives back exactly the events that were recorded in it, without the white
/// space around their IDs.
pub proof fn lemma_journal_holds_recorded(ids: Seq<Seq<char>>)
    requires
        forall|i: int| 0 <= i < ids.len() ==> !(#[trigger] ids[i]).contains('\n'),
    ensures
        journal_ids(journal_of(ids)) == trimmed_ids(ids),
        is_ended(journal_of(ids)),
    decreases ids.len(),
{
    let all = ids.map_values(|id: Seq<char>| text::trimmed(id));
    if ids.len() == 0 {
        assert(journal_ids(Seq::<u8>::empty()) =~= Set::empty());
        assert(all.to_set() =~= Set::empty());
    } else {
        let init = ids.drop_last();
        let some = init.map_values(|id: Seq<char>| text::trimmed(id));
        assert forall|i: int| 0 <= i < init.len() implies !(#[trigger] init[i]).contains(
            '\n',
        ) by {
            assert(init[i] == ids[i]);
        }
        lemma_journal_holds_recorded(init);
        assert(!ids[ids.len() - 1].contains('\n'));
        lemma_record(journal_of(init), ids.last());
        assert(all =~= some.push(text::trimmed(ids.last())));
        assert forall|t: Seq<char>| all.contains(t) <==> some.contains(t) || t == text::trimmed(
            ids.last(),
        ) by {
            if all.contains(t) {
                let i = choose|i: int| 0 <= i < all.len() && all[i] == t;
                if i < some.len() {
                    assert(some[i] == t);
                }
            }
            if some.contains(t) {
                let i = choose|i: int| 0 <= i < some.len() && some[i] == t;
                assert(all[i] == t);
            }
            assert(all[all.len() - 1] == text::trimmed(ids.last()));
        }
        assert(all.to_set() =~= some.to_set().insert(text::trimmed(ids.last())));
    }
}

/// Reading a journal gives back exactly the events that were recorded in it.
pub proof fn lemma_journal_round_trip(ids: Seq<Seq<char>>)
    requires
        forall|i: int| 0 <= i < ids.len() ==> is_recordable(#[trigger] ids[i]),
    ensures
        journal_ids(journal_of(ids)) == ids.to_set(),
{
    assert forall|i: int| 0 <= i < ids.len() implies !(#[trigger] ids[i]).contains('\n') by {
        assert(is_recordable(ids[i]));
    }
    lemma_journal_holds_recorded(ids);
    assert(ids.map_values(|id: Seq<char>| text::trimmed(id)) =~= ids) by {
        assert forall|i: int| 0 <= i < ids.len() implies text::trimmed(#[trigger] ids[i])
            == ids[i] by {
            assert(is_recordable(ids[i]));
            text::lemma_trimmed_fixed(ids[i]);
        }
    }
}

/// An ID of visible ASCII characters, as homeservers give them, is recordable, whatever its length.
pub proof fn lemma_visible_is_recordable(id: Seq<char>)
    requires
        forall|i: int| 0 <= i < id.len() ==> 0x21 <= #[trigger] id[i] as u32 <= 0x7e,
    ensures
        is_recordable(id),
        text::trimmed(id) == id,
{
    if id.contains('\n') {
        let i = choose|i: int| 0 <= i < id.len() && id[i] == '\n';
        assert(0x21 <= id[i] as u32);
    }
    text::lemma_trimmed_fixed(id);
}

/// A line of the journal, ended or not, holds its text without the white space around it if it is
/// text, and nothing otherwise.
pub proof fn lemma_line_is_read(line: Seq<u8>)
    requires
        forall|i: int| 0 <= i < line.len() ==> #[trigger] line[i] != 0x0a,
    ensures
        valid_utf8(line) ==> journal_ids(line.push(0x0a)) == set![
            text::trimmed(decode_utf8(line)),
        ],
        valid_utf8(line) && line.len() > 0 ==> journal_ids(line) == set![
            text::trimmed(decode_utf8(line)),
        ],
        !valid_utf8(line) ==> journal_ids(line.push(0x0a)) == Set::<Seq<char>>::empty(),
        !valid_utf8(line) ==> journal_ids(line) == Set::<Seq<char>>::empty(),
        line.len() == 0 ==> journal_ids(line) == Set::<Seq<char>>::empty(),
{
    let n = line.len() as int;
    let ended = line.push(0x0a);
    assert(forall|j: int| 0 <= j < n ==> #[trigger] ended[j] == line[j]);
    assert(is_line(ended, 0, n));
    assert(ended.subrange(0, n) =~= line);
    assert forall|t: Seq<char>| #[trigger] holds(ended, t) <==> line_id(line) == Some(t) by {
        if holds(ended, t) {
            let (a, b) = choose|a: int, b: int|
                #[trigger] is_line(ended, a, b) && line_id(ended.subrange(a, b)) == Some(t);
            if b == n + 1 {
                assert(ended[n] != NEWLINE);
            }
            lemma_line_start(ended, 0, a, b);
        }
    }
    assert forall|t: Seq<char>| #[trigger] holds(line, t) <==> n > 0 && line_id(line) == Some(
        t,
    ) by {
        if holds(line, t) {
            let (a, b) = choose|a: int, b: int|
                #[trigger] is_line(line, a, b) && line_id(line.subrange(a, b)) == Some(t);
            lemma_line_start(line, 0, a, b);
            assert(line.subrange(0, n) =~= line);
        }
        if n > 0 {
            assert(is_line(line, 0, n));
            assert(line.subrange(0, n) =~= line);
        }
    }
    if valid_utf8(line) {
        assert(journal_ids(ended) =~= set![text::trimmed(decode_utf8(line))]);
        if n > 0 {
            assert(journal_ids(line) =~= set![text::trimmed(decode_utf8(line))]);
        }
    } else {
        assert(journal_ids(ended) =~= Set::<Seq<char>>::empty());
        assert(journal_ids(line) =~= Set::<Seq<char>>::empty());
    }
    if n == 0 {
        assert(journal_ids(line) =~= Set::<Seq<char>>::empty());
    }
}

/// A journal is read line by line: what the first line holds, and what the rest holds.
pub proof fn lemma_first_line_and_rest(line: Seq<u8>, rest: Seq<u8>)
    requires
        forall|i: int| 0 <= i < line.len() ==> #[trigger] line[i] != 0x0a,
    ensures
        valid_utf8(line) ==> journal_ids(line.push(0x0a) + rest) == journal_ids(rest).insert(
            text::trimmed(decode_utf8(line)),
        ),
        !valid_utf8(line) ==> journal_ids(line.push(0x0a) + rest) == journal_ids(rest),
{
    lemma_line_is_read(line);
    lemma_journal_concat(line.push(0x0a), rest);
    if valid_utf8(line) {
        assert(journal_ids(line.push(0x0a) + rest) =~= journal_ids(rest).insert(
            text::trimmed(decode_utf8(line)),
        ));
    } else {
        assert(journal_ids(line.push(0x0a) + rest) =~= journal_ids(rest));
    }
}

/// The line that records an event is the whole event ID and a newline, and nothing more.
pub proof fn lemma_line_is_whole(event_id: Seq<char>)
    ensures
        line_text(event_id).len() == event_id.len() + 1,
        line_text(event_id).take(event_id.len() as int) == event_id,
        line_text(event_id).last() == '\n',
{
    reveal_strlit("\n");
    assert(line_text(event_id).take(event_id.len() as int) =~= event_id);
}

/// An event whose ID is made of visible ASCII characters, as homeservers give them, is read back as
/// it was written, whatever its length and whatever is written after it.
pub proof fn lemma_visible_is_read_back(data: Seq<u8>, id: Seq<char>, rest: Seq<u8>)
    requires
        data.len() == 0 || data.last() == 0x0a,
        forall|i: int| 0 <= i < id.len() ==> 0x21 <= #[trigger] id[i] as u32 <= 0x7e,
    ensures
        journal_ids(data + encode_utf8(line_text(id)) + rest).contains(id),
        journal_ids(data + encode_utf8(line_text(id))) == journal_ids(data).insert(id),
{
    lemma_visible_is_recordable(id);
    lemma_recorded_stays(data, id, rest);
    lemma_record(data, id);
}

} // verus!
