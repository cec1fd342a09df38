//! Text shaping: previews cut at character boundaries, user names and trimming.

use vstd::prelude::*;
use vstd::string::*;
use vstd::utf8::*;

verus! {

/// The text in an optional string.
pub open spec fn text_of(s: Option<String>) -> Option<Seq<char>> {
    match s {
        Some(s) => Some(s@),
        None => None,
    }
}

/// An optional string is present as text exactly if it is present, be it empty or not, and its text
/// is all of its characters.
pub proof fn lemma_text_is_kept(s: Option<String>)
    ensures
        text_of(s) is Some <==> s is Some,
        s is Some ==> text_of(s)->0 == s->0@,
{
}

/// The number of bytes that the UTF-8 encoding of `c` takes.
pub open spec fn utf8_width(c: char) -> nat {
    encode_scalar(c as u32).len()
}

/// The longest prefix of `chars` whose UTF-8 encoding takes at most `max_bytes` bytes.
pub open spec fn utf8_prefix(chars: Seq<char>, max_bytes: int) -> Seq<char>
    decreases chars.len(),
{
    if chars.len() == 0 || utf8_width(chars[0]) > max_bytes {
        Seq::empty()
    } else {
        seq![chars[0]] + utf8_prefix(chars.drop_first(), max_bytes - utf8_width(chars[0]))
    }
}

/// `utf8_prefix` is a prefix, it fits, and one more character would not fit.
pub proof fn lemma_utf8_prefix_is_longest(chars: Seq<char>, max_bytes: int)
    requires
        max_bytes >= 0,
    ensures
        utf8_prefix(chars, max_bytes).len() <= chars.len(),
        utf8_prefix(chars, max_bytes) == chars.take(utf8_prefix(chars, max_bytes).len() as int),
        encode_utf8(utf8_prefix(chars, max_bytes)).len() <= max_bytes,
        forall|n: int|
            #![trigger chars.take(n)]
            utf8_prefix(chars, max_bytes).len() < n <= chars.len() ==> encode_utf8(
                chars.take(n),
            ).len() > max_bytes,
    decreases chars.len(),
{
    let p = utf8_prefix(chars, max_bytes);
    if chars.len() > 0 && utf8_width(chars[0]) <= max_bytes {
        let rest = chars.drop_first();
        let left = max_bytes - utf8_width(chars[0]);
        lemma_utf8_prefix_is_longest(rest, left);
        assert(p.drop_first() =~= utf8_prefix(rest, left));
        assert(p =~= chars.take(p.len() as int));
        assert forall|n: int|
            #![trigger chars.take(n)]
            p.len() < n <= chars.len() implies encode_utf8(chars.take(n)).len() > max_bytes by {
            assert(chars.take(n).drop_first() =~= rest.take(n - 1));
        }
    } else {
        assert(p =~= chars.take(0));
        assert forall|n: int|
            #![trigger chars.take(n)]
            p.len() < n <= chars.len() implies encode_utf8(chars.take(n)).len() > max_bytes by {
            assert(chars.take(n)[0] == chars[0]);
        }
    }
}

/// A text that fits is its own longest prefix.
pub proof fn lemma_utf8_prefix_of_short(chars: Seq<char>, max_bytes: int)
    requires
        encode_utf8(chars).len() <= max_bytes,
    ensures
        utf8_prefix(chars, max_bytes) == chars,
{
    lemma_utf8_prefix_is_longest(chars, max_bytes);
    assert(chars.take(chars.len() as int) =~= chars);
}

/// Cutting at the last character boundary at or before `max_bytes` leaves the longest prefix.
proof fn lemma_boundary_cut(chars: Seq<char>, max_bytes: int, cut: int)
    requires
        0 <= cut <= max_bytes <= encode_utf8(chars).len(),
        is_char_boundary(encode_utf8(chars), cut),
        forall|i: int| cut < i <= max_bytes ==> !#[trigger] is_char_boundary(encode_utf8(chars), i),
    ensures
        encode_utf8(utf8_prefix(chars, max_bytes)) == encode_utf8(chars).subrange(0, cut),
    decreases chars.len(),
{
    let bytes = encode_utf8(chars);
    encode_utf8_valid_utf8(chars);
    if chars.len() == 0 {
        assert(bytes.subrange(0, cut) =~= Seq::empty());
    } else {
        let rest = chars.drop_first();
        let w = utf8_width(chars[0]) as int;
        encode_utf8_first_scalar(chars);
        encode_utf8_valid_utf8(rest);
        assert(pop_first_scalar(bytes) =~= encode_utf8(rest));
        if w > max_bytes {
            if cut > 0 {
                reveal_with_fuel(is_char_boundary, 2);
                assert(false);
            }
            assert(bytes.subrange(0, cut) =~= Seq::empty());
        } else {
            assert(is_char_boundary(encode_utf8(rest), 0));
            assert(is_char_boundary(bytes, w));
            assert(cut >= w);
            assert forall|i: int| cut - w < i <= max_bytes - w implies !#[trigger] is_char_boundary(
                encode_utf8(rest),
                i,
            ) by {
                assert(!is_char_boundary(bytes, i + w));
            }
            lemma_boundary_cut(rest, max_bytes - w, cut - w);
            let p = utf8_prefix(chars, max_bytes);
            assert(p.drop_first() =~= utf8_prefix(rest, max_bytes - w));
            assert(encode_utf8(p) =~= bytes.subrange(0, cut));
        }
    }
}

/// The longest prefix of `s` that takes at most `max_bytes` bytes and ends between two characters.
pub fn truncate_at_char_boundary<'a>(s: &'a str, max_bytes: usize) -> (cut: &'a str)
    ensures
        cut@ == utf8_prefix(s@, max_bytes as int),
{
    let bytes = s.as_bytes();
    if bytes.len() <= max_bytes {
        proof {
            lemma_utf8_prefix_of_short(s@, max_bytes as int);
        }
        return s;
    }
    let mut idx: usize = max_bytes;
    proof {
        encode_utf8_valid_utf8(s@);
    }
    while idx > 0 && !s.is_char_boundary(idx)
        invariant
            idx <= max_bytes < s.spec_bytes().len(),
            s.spec_bytes() == encode_utf8(s@),
            valid_utf8(encode_utf8(s@)),
            forall|i: int|
                idx < i <= max_bytes ==> !#[trigger] is_char_boundary(encode_utf8(s@), i),
        decreases idx,
    {
        idx -= 1;
    }
    let (head, _tail) = s.split_at(idx);
    proof {
        lemma_boundary_cut(s@, max_bytes as int, idx as int);
        encode_utf8_decode_utf8(head@);
        encode_utf8_decode_utf8(utf8_prefix(s@, max_bytes as int));
    }
    head
}

/// The number of bytes of a message that a preview keeps.
pub const PREVIEW_BYTES: usize = 50;

/// What a preview shows of a message: all of a short one, the beginning of a long one and `...`.
pub open spec fn preview_text(body: Seq<char>) -> Seq<char> {
    if encode_utf8(body).len() > PREVIEW_BYTES {
        utf8_prefix(body, PREVIEW_BYTES as int) + "..."@
    } else {
        body
    }
}

/// The preview that a reply quotes of the message `body`.
pub fn preview(body: &str) -> (shown: String)
    ensures
        shown@ == preview_text(body@),
{
    if body.as_bytes().len() > PREVIEW_BYTES {
        let mut shown = truncate_at_char_boundary(body, PREVIEW_BYTES).to_owned();
        shown.append("...");
        shown
    } else {
        body.to_owned()
    }
}

/// `s` without the `@` signs at its beginning.
pub open spec fn without_leading_ats(s: Seq<char>) -> Seq<char>
    decreases s.len(),
{
    if s.len() > 0 && s[0] == '@' {
        without_leading_ats(s.drop_first())
    } else {
        s
    }
}

/// The part of `s` before its first colon; all of `s` if it has none.
pub open spec fn before_colon(s: Seq<char>) -> Seq<char>
    decreases s.len(),
{
    if s.len() == 0 || s[0] == ':' {
        Seq::empty()
    } else {
        seq![s[0]] + before_colon(s.drop_first())
    }
}

/// The name under which a Matrix user appears on IRC: the localpart of the user ID.
pub open spec fn user_name_text(user_id: Seq<char>) -> Seq<char> {
    before_colon(without_leading_ats(user_id))
}

/// The localpart of a Matrix user ID: what stands between the leading `@` and the first colon.
pub fn user_name(user_id: &str) -> (name: String)
    ensures
        name@ == user_name_text(user_id@),
{
    let n: usize = user_id.unicode_len();
    let mut start: usize = 0;
    assert(user_id@.skip(0) =~= user_id@);
    while start < n && user_id.get_char(start) == '@'
        invariant
            start <= n == user_id@.len(),
            without_leading_ats(user_id@) == without_leading_ats(user_id@.skip(start as int)),
        decreases n - start,
    {
        assert(user_id@.skip(start as int).drop_first() =~= user_id@.skip(start + 1));
        start += 1;
    }
    let ghost rest = user_id@.skip(start as int);
    assert(without_leading_ats(user_id@) == rest);
    let mut end: usize = start;
    assert(rest =~= rest.skip(0));
    assert(before_colon(rest) =~= user_id@.subrange(start as int, start as int) + before_colon(
        rest.skip(0),
    ));
    while end < n && user_id.get_char(end) != ':'
        invariant
            start <= end <= n == user_id@.len(),
            rest == user_id@.skip(start as int),
            before_colon(rest) == user_id@.subrange(start as int, end as int) + before_colon(
                rest.skip(end - start),
            ),
        decreases n - end,
    {
        assert(rest.skip(end - start).drop_first() =~= rest.skip(end + 1 - start));
        assert(user_id@.subrange(start as int, end + 1) =~= user_id@.subrange(
            start as int,
            end as int,
        ) + seq![user_id@[end as int]]);
        assert(before_colon(rest) =~= user_id@.subrange(start as int, end + 1) + before_colon(
            rest.skip(end + 1 - start),
        ));
        end += 1;
    }
    assert(before_colon(rest) =~= user_id@.subrange(start as int, end as int));
    user_id.substring_char(start, end).to_owned()
}

/// What stands before the first colon is a beginning without a colon, and it ends at a colon or at
/// the end of the text.
pub proof fn lemma_before_colon(s: Seq<char>)
    ensures
        before_colon(s).len() <= s.len(),
        before_colon(s) == s.take(before_colon(s).len() as int),
        !before_colon(s).contains(':'),
        before_colon(s).len() < s.len() ==> s[before_colon(s).len() as int] == ':',
    decreases s.len(),
{
    let b = before_colon(s);
    if s.len() > 0 && s[0] != ':' {
        lemma_before_colon(s.drop_first());
        assert(b.drop_first() =~= before_colon(s.drop_first()));
        assert(b =~= s.take(b.len() as int));
        assert forall|i: int| 0 <= i < b.len() implies b[i] != ':' by {
            if i > 0 {
                assert(b[i] == before_colon(s.drop_first())[i - 1]);
            }
        }
    } else {
        assert(b =~= s.take(0));
    }
}

/// Only `@` signs are taken away from the beginning, and all of them.
proof fn lemma_leading_ats(s: Seq<char>) -> (k: int)
    ensures
        0 <= k <= s.len(),
        forall|i: int| 0 <= i < k ==> #[trigger] s[i] == '@',
        k < s.len() ==> s[k] != '@',
        without_leading_ats(s) == s.skip(k),
    decreases s.len(),
{
    if s.len() > 0 && s[0] == '@' {
        let rest = s.drop_first();
        let k = lemma_leading_ats(rest);
        assert forall|i: int| 0 <= i < k + 1 implies #[trigger] s[i] == '@' by {
            if i > 0 {
                assert(rest[i - 1] == '@');
            }
        }
        assert(rest.skip(k) =~= s.skip(k + 1));
        k + 1
    } else {
        assert(s.skip(0) =~= s);
        0
    }
}

/// The user name of any user ID, well formed or not: the characters from the first one that is no
/// `@` up to the first colon after it, or up to the end if there is no colon.
pub proof fn lemma_user_name_place(user_id: Seq<char>) -> (place: (int, int))
    ensures
        0 <= place.0 <= place.1 <= user_id.len(),
        user_name_text(user_id) == user_id.subrange(place.0, place.1),
        forall|i: int| 0 <= i < place.0 ==> #[trigger] user_id[i] == '@',
        place.0 < user_id.len() ==> user_id[place.0] != '@',
        forall|i: int| place.0 <= i < place.1 ==> #[trigger] user_id[i] != ':',
        place.1 < user_id.len() ==> user_id[place.1] == ':',
{
    let k = lemma_leading_ats(user_id);
    let rest = user_id.skip(k);
    lemma_before_colon(rest);
    let b = before_colon(rest);
    let e = k + b.len();
    assert(b =~= user_id.subrange(k, e));
    assert forall|i: int| k <= i < e implies #[trigger] user_id[i] != ':' by {
        assert(b[i - k] == user_id[i]);
        assert(b.contains(b[i - k]));
    }
    (k, e)
}

/// Two accounts of one homeserver have different names on IRC.
pub proof fn lemma_user_names_differ(a: Seq<char>, b: Seq<char>, server: Seq<char>)
    requires
        !a.contains(':'),
        !b.contains(':'),
        a.len() > 0 ==> a[0] != '@',
        b.len() > 0 ==> b[0] != '@',
        a != b,
    ensures
        user_name_text(seq!['@'] + a + seq![':'] + server) != user_name_text(
            seq!['@'] + b + seq![':'] + server,
        ),
{
    lemma_user_name_of_id(a, server);
    lemma_user_name_of_id(b, server);
}

proof fn lemma_without_leading_ats(s: Seq<char>)
    ensures
        without_leading_ats(s).len() > 0 ==> without_leading_ats(s)[0] != '@',
    decreases s.len(),
{
    if s.len() > 0 && s[0] == '@' {
        lemma_without_leading_ats(s.drop_first());
    }
}

/// A user name holds no colon and does not begin with an `@`.
pub proof fn lemma_user_name_is_plain(user_id: Seq<char>)
    ensures
        !user_name_text(user_id).contains(':'),
        user_name_text(user_id).len() > 0 ==> user_name_text(user_id)[0] != '@',
{
    lemma_before_colon(without_leading_ats(user_id));
    lemma_without_leading_ats(user_id);
}

/// The user name of `@name:server` is `name`.
pub proof fn lemma_user_name_of_id(name: Seq<char>, server: Seq<char>)
    requires
        !name.contains(':'),
        name.len() > 0 ==> name[0] != '@',
    ensures
        user_name_text(seq!['@'] + name + seq![':'] + server) == name,
{
    let id = seq!['@'] + name + seq![':'] + server;
    let rest = name + seq![':'] + server;
    assert(id.drop_first() =~= rest);
    assert(without_leading_ats(rest) == rest);
    lemma_before_colon(rest);
    let b = before_colon(rest);
    if b.len() < name.len() {
        assert(rest[b.len() as int] == name[b.len() as int]);
        assert(name.contains(name[b.len() as int]));
    }
    if b.len() > name.len() {
        assert(b[name.len() as int] == ':');
        assert(b.contains(':'));
    }
    assert(b =~= name);
}

/// A preview takes at most three bytes more than the part of the message that it keeps.
pub proof fn lemma_preview_is_short(body: Seq<char>)
    ensures
        encode_utf8(preview_text(body)).len() <= PREVIEW_BYTES + 3,
{
    if encode_utf8(body).len() > PREVIEW_BYTES {
        lemma_utf8_prefix_is_longest(body, PREVIEW_BYTES as int);
        reveal_strlit("...");
        assert(is_ascii_chars("..."@));
        is_ascii_chars_encode_utf8("..."@);
        lemma_encode_utf8_concat(utf8_prefix(body, PREVIEW_BYTES as int), "..."@);
    }
}

/// A message of at most 50 bytes is its own preview.
pub proof fn lemma_preview_of_short(body: Seq<char>)
    requires
        encode_utf8(body).len() <= 50,
    ensures
        preview_text(body) == body,
{
}

/// The preview of a message of more than 50 bytes is as much of its beginning as fits into 50
/// bytes, in whole characters, and three dots.
pub proof fn lemma_preview_of_long(body: Seq<char>)
    requires
        encode_utf8(body).len() > 50,
    ensures
        ({
            let n = preview_text(body).len() - 3;
            &&& 0 <= n <= body.len()
            &&& preview_text(body).take(n) == body.take(n)
            &&& preview_text(body).skip(n) == seq!['.', '.', '.']
            &&& encode_utf8(body.take(n)).len() <= 50
            &&& forall|k: int|
                #![trigger body.take(k)]
                n < k <= body.len() ==> encode_utf8(body.take(k)).len() > 50
        }),
{
    lemma_utf8_prefix_is_longest(body, 50);
    reveal_strlit("...");
    let p = utf8_prefix(body, 50);
    assert(preview_text(body).take(p.len() as int) =~= p);
    assert(preview_text(body).skip(p.len() as int) =~= seq!['.', '.', '.']);
}

/// The encoding of two texts one after the other is the two encodings one after the other.
pub proof fn lemma_encode_utf8_concat(a: Seq<char>, b: Seq<char>)
    ensures
        encode_utf8(a + b) == encode_utf8(a) + encode_utf8(b),
    decreases a.len(),
{
    if a.len() == 0 {
        assert(a + b =~= b);
        assert(encode_utf8(a) + encode_utf8(b) =~= encode_utf8(b));
    } else {
        lemma_encode_utf8_concat(a.drop_first(), b);
        assert((a + b).drop_first() =~= a.drop_first() + b);
        assert(encode_utf8(a + b) =~= encode_utf8(a) + encode_utf8(b));
    }
}

/// The characters with the Unicode property `White_Space`.
pub open spec fn is_white_space(c: char) -> bool {
    let v = c as u32;
    ||| 0x9 <= v <= 0xd
    ||| v == 0x20
    ||| v == 0x85
    ||| v == 0xa0
    ||| v == 0x1680
    ||| 0x2000 <= v <= 0x200a
    ||| v == 0x2028
    ||| v == 0x2029
    ||| v == 0x202f
    ||| v == 0x205f
    ||| v == 0x3000
}

/// `s` without the white space at its beginning.
pub open spec fn trimmed_start(s: Seq<char>) -> Seq<char>
    decreases s.len(),
{
    if s.len() > 0 && is_white_space(s[0]) {
        trimmed_start(s.drop_first())
    } else {
        s
    }
}

/// `s` without the white space at its end.
pub open spec fn trimmed_end(s: Seq<char>) -> Seq<char>
    decreases s.len(),
{
    if s.len() > 0 && is_white_space(s.last()) {
        trimmed_end(s.drop_last())
    } else {
        s
    }
}

/// `s` without the white space at its beginning and at its end.
pub open spec fn trimmed(s: Seq<char>) -> Seq<char> {
    trimmed_end(trimmed_start(s))
}

/// Whether `c` has the Unicode property `White_Space`.
fn white_space(c: char) -> (b: bool)
    ensures
        b == is_white_space(c),
{
    let v: u32 = c as u32;
    (0x9 <= v && v <= 0xd) || v == 0x20 || v == 0x85 || v == 0xa0 || v == 0x1680 || (0x2000 <= v
        && v <= 0x200a) || v == 0x2028 || v == 0x2029 || v == 0x202f || v == 0x205f || v == 0x3000
}

/// `s` without leading and trailing white space.
pub fn trim(s: &str) -> (t: String)
    ensures
        t@ == trimmed(s@),
{
    let n: usize = s.unicode_len();
    let mut start: usize = 0;
    assert(s@.skip(0) =~= s@);
    while start < n && white_space(s.get_char(start))
        invariant
            start <= n == s@.len(),
            trimmed_start(s@) == trimmed_start(s@.skip(start as int)),
        decreases n - start,
    {
        assert(s@.skip(start as int).drop_first() =~= s@.skip(start + 1));
        start += 1;
    }
    let mut end: usize = n;
    assert(s@.subrange(start as int, n as int) =~= s@.skip(start as int));
    while start < end && white_space(s.get_char(end - 1))
        invariant
            start <= end <= n == s@.len(),
            trimmed(s@) == trimmed_end(s@.subrange(start as int, end as int)),
        decreases end - start,
    {
        assert(s@.subrange(start as int, end as int).drop_last() =~= s@.subrange(
            start as int,
            end - 1,
        ));
        end -= 1;
    }
    s.substring_char(start, end).to_owned()
}

/// The white space characters, by their code points.
pub proof fn lemma_white_space(c: char)
    ensures
        is_white_space(c) <==> seq![
            0x9u32,
            0xa,
            0xb,
            0xc,
            0xd,
            0x20,
            0x85,
            0xa0,
            0x1680,
            0x2000,
            0x2001,
            0x2002,
            0x2003,
            0x2004,
            0x2005,
            0x2006,
            0x2007,
            0x2008,
            0x2009,
            0x200a,
            0x2028,
            0x2029,
            0x202f,
            0x205f,
            0x3000,
        ].contains(c as u32),
{
    let all = seq![
        0x9u32,
        0xa,
        0xb,
        0xc,
        0xd,
        0x20,
        0x85,
        0xa0,
        0x1680,
        0x2000,
        0x2001,
        0x2002,
        0x2003,
        0x2004,
        0x2005,
        0x2006,
        0x2007,
        0x2008,
        0x2009,
        0x200a,
        0x2028,
        0x2029,
        0x202f,
        0x205f,
        0x3000,
    ];
    let v = c as u32;
    if is_white_space(c) {
        let i: int = if v <= 0xd {
            v - 9
        } else if v == 0x20 {
            5
        } else if v == 0x85 {
            6
        } else if v == 0xa0 {
            7
        } else if v == 0x1680 {
            8
        } else if v <= 0x200a {
            9 + (v - 0x2000)
        } else if v == 0x2028 {
            20
        } else if v == 0x2029 {
            21
        } else if v == 0x202f {
            22
        } else if v == 0x205f {
            23
        } else {
            24
        };
        assert(all[i] == v);
    }
}

/// What is taken away at the beginning is white space, and what is left does not begin with any.
proof fn lemma_trimmed_start(s: Seq<char>) -> (a: int)
    ensures
        0 <= a <= s.len(),
        trimmed_start(s) == s.skip(a),
        forall|i: int| 0 <= i < a ==> is_white_space(#[trigger] s[i]),
        a < s.len() ==> !is_white_space(s[a]),
    decreases s.len(),
{
    if s.len() > 0 && is_white_space(s[0]) {
        let rest = s.drop_first();
        let a = lemma_trimmed_start(rest);
        assert forall|i: int| 0 <= i < a + 1 implies is_white_space(#[trigger] s[i]) by {
            if i > 0 {
                assert(is_white_space(rest[i - 1]));
            }
        }
        assert(rest.skip(a) =~= s.skip(a + 1));
        a + 1
    } else {
        assert(s.skip(0) =~= s);
        0
    }
}

/// What is taken away at the end is white space, and what is left does not end with any.
proof fn lemma_trimmed_end(s: Seq<char>) -> (b: int)
    ensures
        0 <= b <= s.len(),
        trimmed_end(s) == s.take(b),
        forall|i: int| b <= i < s.len() ==> is_white_space(#[trigger] s[i]),
        b > 0 ==> !is_white_space(s[b - 1]),
    decreases s.len(),
{
    if s.len() > 0 && is_white_space(s.last()) {
        let init = s.drop_last();
        let b = lemma_trimmed_end(init);
        assert forall|i: int| b <= i < s.len() implies is_white_space(#[trigger] s[i]) by {
            if i < init.len() {
                assert(is_white_space(init[i]));
            }
        }
        assert(init.take(b) =~= s.take(b));
        b
    } else {
        assert(s.take(s.len() as int) =~= s);
        s.len() as int
    }
}

/// Trimming takes away nothing but white space: a text is some white space, the trimmed text, and
/// some white space again, and the trimmed text neither begins nor ends with white space.
pub proof fn lemma_trimmed_place(s: Seq<char>) -> (place: (int, int))
    ensures
        0 <= place.0 <= place.1 <= s.len(),
        trimmed(s) == s.subrange(place.0, place.1),
        forall|i: int| 0 <= i < place.0 ==> is_white_space(#[trigger] s[i]),
        forall|i: int| place.1 <= i < s.len() ==> is_white_space(#[trigger] s[i]),
        place.0 < place.1 ==> !is_white_space(s[place.0]) && !is_white_space(s[place.1 - 1]),
{
    let a = lemma_trimmed_start(s);
    let rest = s.skip(a);
    let b = lemma_trimmed_end(rest);
    assert(rest.take(b) =~= s.subrange(a, a + b));
    assert forall|i: int| a + b <= i < s.len() implies is_white_space(#[trigger] s[i]) by {
        assert(is_white_space(rest[i - a]));
    }
    if b > 0 {
        assert(rest[b - 1] == s[a + b - 1]);
    }
    (a, a + b)
}

/// Trimming gives back any text between white space, whatever its length, that neither begins nor
/// ends with white space.
pub proof fn lemma_trim_undoes_padding(before: Seq<char>, core: Seq<char>, after: Seq<char>)
    requires
        forall|i: int| 0 <= i < before.len() ==> is_white_space(#[trigger] before[i]),
        forall|i: int| 0 <= i < after.len() ==> is_white_space(#[trigger] after[i]),
        core.len() > 0 ==> !is_white_space(core[0]) && !is_white_space(core.last()),
    ensures
        trimmed(before + core + after) == core,
{
    let s = before + core + after;
    let n = before.len() as int;
    let m = n + core.len();
    let (a, b) = lemma_trimmed_place(s);
    assert(forall|i: int| 0 <= i < n ==> #[trigger] s[i] == before[i]);
    assert(forall|i: int| m <= i < s.len() ==> #[trigger] s[i] == after[i - m]);
    if core.len() == 0 {
        if a < b {
            assert(is_white_space(s[a]));
        }
        assert(trimmed(s) =~= core);
    } else {
        assert(s[n] == core[0]);
        assert(s[m - 1] == core.last());
        assert(a <= n && m <= b);
        assert(a == n && b == m) by {
            assert(a < b);
            if a < n {
                assert(is_white_space(before[a]));
            }
            if b > m {
                assert(is_white_space(after[b - 1 - m]));
            }
        }
        assert(s.subrange(n, m) =~= core);
    }
}

/// A text that neither begins nor ends with white space is its own trimmed text, whatever its
/// length, and no other text is.
pub proof fn lemma_trimmed_fixed(s: Seq<char>)
    ensures
        trimmed(s) == s <==> (s.len() > 0 ==> !is_white_space(s[0]) && !is_white_space(s.last())),
        trimmed(trimmed(s)) == trimmed(s),
{
    let (a, b) = lemma_trimmed_place(s);
    let t = trimmed(s);
    if s.len() > 0 ==> !is_white_space(s[0]) && !is_white_space(s.last()) {
        lemma_trim_undoes_padding(Seq::empty(), s, Seq::empty());
        assert(Seq::<char>::empty() + s + Seq::<char>::empty() =~= s);
    } else if t == s {
        assert(a == 0 && b == s.len());
    }
    lemma_trim_undoes_padding(Seq::empty(), t, Seq::empty());
    assert(Seq::<char>::empty() + t + Seq::<char>::empty() =~= t);
}

} // verus!
