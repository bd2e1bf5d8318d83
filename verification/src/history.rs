use vstd::prelude::*;
use vstd::utf8::{decode_utf8, encode_utf8, is_char_boundary};
use vstd::string::StringSliceAdditionalSpecFns;
use crate::text::{decimal, is_blank, is_blank_str, push_char, push_decimal, push_str, str_eq};
use crate::json::{
    get, get_str, json_get, json_get_str, json_str, json_text, lemma_array_view, lemma_object_view,
    member, members_view, Json, JsonV, write_json,
};

verus! {

broadcast use vstd::utf8::encode_utf8_valid_utf8, vstd::utf8::encode_utf8_decode_utf8;

/// Maximum size, in bytes, that one history turn field may keep untouched.
pub const MAX_HISTORY_TURN_CHARS: usize = 16000;

/// Bytes kept from the start of an over-long field.
pub const HEAD_CHARS: usize = 4000;

/// Bytes kept from the end of an over-long field.
pub const TAIL_CHARS: usize = 12000;

/// The greatest character boundary of `b` that is at most `i`.
pub open spec fn boundary_at_or_before(b: Seq<u8>, i: int) -> int
    decreases i,
{
    if i <= 0 {
        0
    } else if is_char_boundary(b, i) {
        i
    } else {
        boundary_at_or_before(b, i - 1)
    }
}

/// The least character boundary of `b` that is at least `i` (the end of `b` at most).
pub open spec fn boundary_at_or_after(b: Seq<u8>, i: int) -> int
    decreases b.len() - i,
{
    if i >= b.len() {
        b.len() as int
    } else if is_char_boundary(b, i) {
        i
    } else {
        boundary_at_or_after(b, i + 1)
    }
}

/// The marker that replaces the dropped middle of a field.
pub open spec fn truncation_marker(dropped: nat) -> Seq<char> {
    "\n[... "@ + decimal(dropped) + " chars truncated from middle ...]\n"@
}

/// A history field as it is kept: unchanged up to the size limit, otherwise
/// its head and tail (cut at character boundaries) around a marker that
/// counts the dropped bytes.
pub open spec fn truncated_turn(s: Seq<char>) -> Seq<char> {
    let b = encode_utf8(s);
    if b.len() <= MAX_HISTORY_TURN_CHARS {
        s
    } else {
        let h = boundary_at_or_before(b, HEAD_CHARS as int);
        let t = boundary_at_or_after(b, b.len() - TAIL_CHARS);
        decode_utf8(b.subrange(0, h)) + truncation_marker((t - h) as nat) + decode_utf8(
            b.subrange(t, b.len() as int),
        )
    }
}

pub proof fn lemma_boundary_before_bounds(b: Seq<u8>, i: int)
    ensures
        0 <= boundary_at_or_before(b, i),
        i >= 0 ==> boundary_at_or_before(b, i) <= i,
    decreases i,
{
    if i > 0 && !is_char_boundary(b, i) {
        lemma_boundary_before_bounds(b, i - 1);
    }
}

proof fn lemma_boundary_after_bounds(b: Seq<u8>, i: int)
    ensures
        boundary_at_or_after(b, i) <= b.len(),
        i <= b.len() ==> i <= boundary_at_or_after(b, i),
        is_char_boundary(b, boundary_at_or_after(b, i)) || boundary_at_or_after(b, i) == b.len(),
    decreases b.len() - i,
{
    if i < b.len() && !is_char_boundary(b, i) {
        lemma_boundary_after_bounds(b, i + 1);
    }
}

pub proof fn lemma_boundary_before_is_boundary(b: Seq<u8>, i: int)
    ensures
        boundary_at_or_before(b, i) == 0 || is_char_boundary(b, boundary_at_or_before(b, i)),
    decreases i,
{
    if i > 0 && !is_char_boundary(b, i) {
        lemma_boundary_before_is_boundary(b, i - 1);
    }
}

/// A field over the size limit keeps a head and a tail of it around the
/// marker: the head is a prefix of the field of at most `HEAD_CHARS` bytes,
/// the tail a suffix of at most `TAIL_CHARS` bytes, the two do not overlap,
/// and the marker counts the bytes between them. A field within the limit is kept whole.
pub proof fn lemma_truncated_turn_keeps_head_and_tail(s: Seq<char>)
    ensures
        encode_utf8(s).len() <= MAX_HISTORY_TURN_CHARS ==> truncated_turn(s) == s,
        encode_utf8(s).len() > MAX_HISTORY_TURN_CHARS ==> exists|p: Seq<char>, q: Seq<char>|
            #![trigger encode_utf8(p), encode_utf8(q)]
            s.take(p.len() as int) == p && s.skip(
                s.len() - q.len(),
            ) == q && encode_utf8(p).len() <= HEAD_CHARS && encode_utf8(q).len() <= TAIL_CHARS
                && encode_utf8(p).len() + encode_utf8(q).len() <= encode_utf8(s).len()
                && truncated_turn(s) == p + truncation_marker(
                (encode_utf8(s).len() - encode_utf8(p).len() - encode_utf8(q).len()) as nat,
            ) + q,
{
    let b = encode_utf8(s);
    if b.len() > MAX_HISTORY_TURN_CHARS {
        broadcast use vstd::utf8::decode_utf8_split, vstd::utf8::valid_utf8_split,
            vstd::utf8::decode_utf8_encode_utf8, vstd::utf8::is_char_boundary_start_end_of_seq;

        let h = boundary_at_or_before(b, HEAD_CHARS as int);
        let t = boundary_at_or_after(b, b.len() - TAIL_CHARS);
        lemma_boundary_before_bounds(b, HEAD_CHARS as int);
        lemma_boundary_before_is_boundary(b, HEAD_CHARS as int);
        lemma_boundary_after_bounds(b, b.len() - TAIL_CHARS);
        assert(is_char_boundary(b, 0));
        assert(is_char_boundary(b, b.len() as int));
        assert(is_char_boundary(b, h));
        assert(is_char_boundary(b, t));
        let p = decode_utf8(b.subrange(0, h));
        let q = decode_utf8(b.subrange(t, b.len() as int));
        vstd::utf8::decode_utf8_split(b, h);
        vstd::utf8::decode_utf8_split(b, t);
        vstd::utf8::valid_utf8_split(b, h);
        vstd::utf8::valid_utf8_split(b, t);
        assert(decode_utf8(b) == s);
        assert(encode_utf8(p) == b.subrange(0, h));
        assert(encode_utf8(q) == b.subrange(t, b.len() as int));
        let rest = decode_utf8(b.subrange(h, b.len() as int));
        assert(s =~= p + rest);
        assert(s.take(p.len() as int) =~= p);
        let front = decode_utf8(b.subrange(0, t));
        assert(s =~= front + q);
        assert(s.skip(s.len() - q.len()) =~= q);
        assert(truncated_turn(s) == p + truncation_marker((t - h) as nat) + q);
    }
}

/// Keeps a history field within `MAX_HISTORY_TURN_CHARS` bytes by dropping
/// its middle, as `truncated_turn` describes.
pub fn truncate_turn_content(content: &str) -> (res: String)
    ensures
        res@ == truncated_turn(content@),
{
    let ghost b = content.spec_bytes();
    let len = content.as_bytes().len();
    if len <= MAX_HISTORY_TURN_CHARS {
        return content.to_owned();
    }
    let mut head_end: usize = HEAD_CHARS;
    while head_end > 0 && !content.is_char_boundary(head_end)
        invariant
            head_end <= HEAD_CHARS,
            b == content.spec_bytes(),
            boundary_at_or_before(b, head_end as int) == boundary_at_or_before(
                b,
                HEAD_CHARS as int,
            ),
        decreases head_end,
    {
        head_end = head_end - 1;
    }
    let tail_target = len - TAIL_CHARS;
    let mut tail_start: usize = tail_target;
    while tail_start < len && !content.is_char_boundary(tail_start)
        invariant
            tail_target <= tail_start <= len,
            len == b.len(),
            b == content.spec_bytes(),
            boundary_at_or_after(b, tail_start as int) == boundary_at_or_after(
                b,
                tail_target as int,
            ),
        decreases len - tail_start,
    {
        tail_start = tail_start + 1;
    }
    proof {
        vstd::utf8::is_char_boundary_start_end_of_seq(b);
        lemma_boundary_before_bounds(b, HEAD_CHARS as int);
        lemma_boundary_before_is_boundary(b, HEAD_CHARS as int);
        lemma_boundary_after_bounds(b, tail_target as int);
    }
    let dropped = tail_start - head_end;
    let (head, _) = content.split_at(head_end);
    let (_, tail) = content.split_at(tail_start);
    let mut out = String::new();
    push_str(&mut out, head);
    push_str(&mut out, "\n[... ");
    push_decimal(&mut out, dropped as u64);
    push_str(&mut out, " chars truncated from middle ...]\n");
    push_str(&mut out, tail);
    proof {
        assert(encode_utf8(head@) == b.subrange(0, head_end as int));
        assert(encode_utf8(tail@) == b.subrange(tail_start as int, b.len() as int));
    }
    out
}


/// One user/assistant exchange taken from the `llm_history_turns` array.
#[derive(Debug, Clone)]
pub struct VimHistoryTurn {
    pub user: String,
    pub assistant: String,
}

impl View for VimHistoryTurn {
    type V = (Seq<char>, Seq<char>);

    open spec fn view(&self) -> (Seq<char>, Seq<char>) {
        (self.user@, self.assistant@)
    }
}

/// The turn that one element of `llm_history_turns` gives: none when its
/// `user` is missing, not a string, or blank; a missing or non-string
/// `assistant` counts as empty. Both fields are truncated.
pub open spec fn turn_of(j: JsonV) -> Option<(Seq<char>, Seq<char>)> {
    match json_get_str(j, "user"@) {
        Some(u) => if is_blank(u) {
            None
        } else {
            let a = match json_get_str(j, "assistant"@) {
                Some(a) => a,
                None => Seq::empty(),
            };
            Some((truncated_turn(u), truncated_turn(a)))
        },
        None => None,
    }
}

pub open spec fn turns_from(items: Seq<JsonV>) -> Seq<(Seq<char>, Seq<char>)>
    decreases items.len(),
{
    if items.len() == 0 {
        Seq::empty()
    } else {
        turns_from(items.drop_last()) + match turn_of(items.last()) {
            Some(t) => seq![t],
            None => Seq::empty(),
        }
    }
}

/// The history turns a document holds: those of its `llm_history_turns`
/// array, in order; none when the content is not JSON or has no such array.
pub open spec fn history_turns(doc: Option<JsonV>) -> Seq<(Seq<char>, Seq<char>)> {
    match doc {
        Some(d) => match json_get(d, "llm_history_turns"@) {
            Some(JsonV::Array(v)) => turns_from(v),
            _ => Seq::empty(),
        },
        None => Seq::empty(),
    }
}

pub open spec fn turns_view(v: Seq<VimHistoryTurn>) -> Seq<(Seq<char>, Seq<char>)> {
    v.map_values(|t: VimHistoryTurn| t@)
}

/// Reads the history turns of a document (`doc` is `None` when the content
/// did not parse as JSON).
pub fn parse_vim_history_turns(doc: Option<&Json>) -> (res: Vec<VimHistoryTurn>)
    ensures
        turns_view(res@) == history_turns(match doc {
            Some(d) => Some(d@),
            None => None,
        }),
{
    let mut turns: Vec<VimHistoryTurn> = Vec::new();
    let d = match doc {
        Some(d) => d,
        None => {
            assert(turns_view(turns@) =~= Seq::empty());
            return turns;
        },
    };
    let items = match get(d, "llm_history_turns") {
        Some(Json::Array(items)) => items,
        _ => {
            assert(turns_view(turns@) =~= Seq::empty());
            return turns;
        },
    };
    let ghost iv = crate::json::items_view(items@, items@.len());
    proof {
        lemma_array_view(*items);
    }
    let mut i: usize = 0;
    while i < items.len()
        invariant
            i <= items.len(),
            iv.len() == items@.len(),
            forall|k: int| 0 <= k < items@.len() ==> #[trigger] iv[k] == items@[k]@,
            turns_view(turns@) == turns_from(iv.take(i as int)),
        decreases items.len() - i,
    {
        let turn = &items[i];
        assert(iv.take(i + 1).drop_last() =~= iv.take(i as int));
        assert(iv.take(i + 1).last() == items@[i as int]@);
        let ghost before = turns@;
        match get_str(turn, "user") {
            Some(user) => {
                if !is_blank_str(user) {
                    let assistant = match get_str(turn, "assistant") {
                        Some(a) => a,
                        None => "",
                    };
                    proof {
                        reveal_strlit("");
                    }
                    let t = VimHistoryTurn {
                        user: truncate_turn_content(user),
                        assistant: truncate_turn_content(assistant),
                    };
                    turns.push(t);
                    assert(turn_of(items@[i as int]@) == Some(t@));
                    assert(turns_view(turns@) =~= turns_view(before) + seq![t@]);
                } else {
                    assert(turn_of(items@[i as int]@) is None);
                    assert(turns_view(turns@) =~= turns_view(before) + Seq::empty());
                }
            },
            None => {
                assert(turns_view(turns@) =~= turns_view(before) + Seq::empty());
            },
        }
        i = i + 1;
    }
    assert(iv.take(items.len() as int) =~= iv);
    turns
}

/// A piece of the user message, cut at a top-level field of the JSON input.
#[derive(Debug, Clone)]
pub struct CacheContentBlock {
    /// The field the block comes from.
    pub field_name: String,
    /// The text of the block.
    pub text: String,
    /// Whether a cache breakpoint goes after this block.
    pub is_breakpoint: bool,
}

impl View for CacheContentBlock {
    type V = (Seq<char>, Seq<char>, bool);

    open spec fn view(&self) -> (Seq<char>, Seq<char>, bool) {
        (self.field_name@, self.text@, self.is_breakpoint)
    }
}

/// The string elements of a JSON array, in order.
pub open spec fn string_items(items: Seq<JsonV>) -> Seq<Seq<char>>
    decreases items.len(),
{
    if items.len() == 0 {
        Seq::empty()
    } else {
        string_items(items.drop_last()) + match json_str(items.last()) {
            Some(s) => seq![s],
            None => Seq::empty(),
        }
    }
}

/// The block that one member gives: metadata members (names that start
/// with `_`) and `llm_history_turns` give none, as do nulls and empty strings;
/// strings give their text, other values `name:` and their compact JSON.
pub open spec fn block_of(key: Seq<char>, value: JsonV, breakpoints: Seq<Seq<char>>) -> Option<
    (Seq<char>, Seq<char>, bool),
> {
    if key == "llm_history_turns"@ || (key.len() > 0 && key[0] == '_') {
        None
    } else {
        match value {
            JsonV::Null => None,
            JsonV::Str(s) => if s.len() == 0 {
                None
            } else {
                Some((key, s, breakpoints.contains(key)))
            },
            _ => Some((key, key + seq![':'] + json_text(value), breakpoints.contains(key))),
        }
    }
}

pub open spec fn blocks_from(members: Seq<(Seq<char>, JsonV)>, breakpoints: Seq<Seq<char>>) -> Seq<
    (Seq<char>, Seq<char>, bool),
>
    decreases members.len(),
{
    if members.len() == 0 {
        Seq::empty()
    } else {
        blocks_from(members.drop_last(), breakpoints) + match block_of(
            members.last().0,
            members.last().1,
            breakpoints,
        ) {
            Some(b) => seq![b],
            None => Seq::empty(),
        }
    }
}

/// The names listed in `_cache_hints.breakpoint_after`.
pub open spec fn breakpoints_of(hints: JsonV) -> Seq<Seq<char>> {
    match json_get(hints, "breakpoint_after"@) {
        Some(JsonV::Array(v)) => string_items(v),
        _ => Seq::empty(),
    }
}

/// The content blocks of a document: one per member in document order when
/// the document is an object whose `_cache_hints.breakpoint_after` names at
/// least one field; none otherwise.
pub open spec fn content_blocks(doc: Option<JsonV>) -> Seq<(Seq<char>, Seq<char>, bool)> {
    match doc {
        Some(JsonV::Object(m)) => match member(m, "_cache_hints"@) {
            Some(h) => if breakpoints_of(h).len() == 0 {
                Seq::empty()
            } else {
                blocks_from(m, breakpoints_of(h))
            },
            None => Seq::empty(),
        },
        _ => Seq::empty(),
    }
}

pub open spec fn blocks_view(v: Seq<CacheContentBlock>) -> Seq<(Seq<char>, Seq<char>, bool)> {
    v.map_values(|b: CacheContentBlock| b@)
}

fn breakpoint_names(hints: &Json) -> (res: Vec<String>)
    ensures
        res@.map_values(|s: String| s@) == breakpoints_of(hints@),
{
    let mut names: Vec<String> = Vec::new();
    let items = match get(hints, "breakpoint_after") {
        Some(Json::Array(items)) => items,
        _ => {
            assert(names@.map_values(|s: String| s@) =~= Seq::empty());
            return names;
        },
    };
    let ghost iv = crate::json::items_view(items@, items@.len());
    proof {
        lemma_array_view(*items);
    }
    let mut i: usize = 0;
    while i < items.len()
        invariant
            i <= items.len(),
            iv.len() == items@.len(),
            forall|k: int| 0 <= k < items@.len() ==> #[trigger] iv[k] == items@[k]@,
            names@.map_values(|s: String| s@) == string_items(iv.take(i as int)),
        decreases items.len() - i,
    {
        assert(iv.take(i + 1).drop_last() =~= iv.take(i as int));
        assert(iv.take(i + 1).last() == items@[i as int]@);
        let ghost before = names@;
        match &items[i] {
            Json::Str(s) => {
                names.push(s.clone());
                assert(names@.map_values(|s: String| s@) =~= before.map_values(|s: String| s@)
                    + seq![s@]);
            },
            _ => {
                assert(names@.map_values(|s: String| s@) =~= before.map_values(|s: String| s@)
                    + Seq::empty());
            },
        }
        i = i + 1;
    }
    assert(iv.take(items.len() as int) =~= iv);
    names
}

fn contains_name(names: &Vec<String>, key: &str) -> (r: bool)
    ensures
        r == names@.map_values(|s: String| s@).contains(key@),
{
    let ghost view = names@.map_values(|s: String| s@);
    let mut i: usize = 0;
    while i < names.len()
        invariant
            i <= names.len(),
            view == names@.map_values(|s: String| s@),
            forall|k: int| 0 <= k < i ==> view[k] != key@,
        decreases names.len() - i,
    {
        if str_eq(names[i].as_str(), key) {
            assert(view[i as int] == key@);
            return true;
        }
        i = i + 1;
    }
    false
}

/// Splits a document into content blocks as `content_blocks` describes
/// (`doc` is `None` when the content did not parse as JSON).
pub fn split_json_content_blocks(doc: Option<&Json>) -> (res: Vec<CacheContentBlock>)
    ensures
        blocks_view(res@) == content_blocks(match doc {
            Some(d) => Some(d@),
            None => None,
        }),
{
    let mut blocks: Vec<CacheContentBlock> = Vec::new();
    let (d, members) = match doc {
        Some(d) => match d {
            Json::Object(m) => (d, m),
            _ => {
                assert(blocks_view(blocks@) =~= Seq::empty());
                return blocks;
            },
        },
        None => {
            assert(blocks_view(blocks@) =~= Seq::empty());
            return blocks;
        },
    };
    let hints = match get(d, "_cache_hints") {
        Some(h) => h,
        None => {
            assert(blocks_view(blocks@) =~= Seq::empty());
            return blocks;
        },
    };
    let names = breakpoint_names(hints);
    if names.len() == 0 {
        assert(blocks_view(blocks@) =~= Seq::empty());
        return blocks;
    }
    let ghost bps = names@.map_values(|s: String| s@);
    let ghost mv = members_view(members@, members@.len());
    proof {
        lemma_object_view(*members);
    }
    let mut i: usize = 0;
    while i < members.len()
        invariant
            i <= members.len(),
            bps == names@.map_values(|s: String| s@),
            mv.len() == members@.len(),
            forall|k: int|
                0 <= k < members@.len() ==> #[trigger] mv[k] == (members@[k].0@, members@[k].1@),
            blocks_view(blocks@) == blocks_from(mv.take(i as int), bps),
        decreases members.len() - i,
    {
        assert(mv.take(i + 1).drop_last() =~= mv.take(i as int));
        assert(mv.take(i + 1).last() == (members@[i as int].0@, members@[i as int].1@));
        let ghost before = blocks@;
        let key = members[i].0.as_str();
        let value = &members[i].1;
        proof {
            reveal_strlit("llm_history_turns");
        }
        let skip = str_eq(key, "llm_history_turns") || (!key.is_empty() && key.get_char(0)
            == '_');
        let text: Option<String> = if skip {
            None
        } else {
            match value {
                Json::Null => None,
                Json::Str(s) => if s.as_str().is_empty() {
                    None
                } else {
                    Some(s.clone())
                },
                _ => {
                    let mut t = String::new();
                    push_str(&mut t, key);
                    push_char(&mut t, ':');
                    write_json(value, &mut t);
                    Some(t)
                },
            }
        };
        match text {
            Some(t) => {
                let b = CacheContentBlock {
                    field_name: members[i].0.clone(),
                    text: t,
                    is_breakpoint: contains_name(&names, key),
                };
                blocks.push(b);
                assert(block_of(members@[i as int].0@, members@[i as int].1@, bps) == Some(b@));
                assert(blocks_view(blocks@) =~= blocks_view(before) + seq![b@]);
            },
            None => {
                assert(block_of(members@[i as int].0@, members@[i as int].1@, bps) is None);
                assert(blocks_view(blocks@) =~= blocks_view(before) + Seq::empty());
            },
        }
        i = i + 1;
    }
    assert(mv.take(members.len() as int) =~= mv);
    blocks
}

/// Whether the document asks for cache warming: its `_cache_warm` member is
/// `true`, the number 1, or the string `"1"` or `"true"`.
pub open spec fn cache_warm_requested(doc: Option<JsonV>) -> bool {
    match doc {
        Some(d) => match json_get(d, "_cache_warm"@) {
            Some(JsonV::Bool(b)) => b,
            Some(JsonV::Number(_, u, _)) => u == Some(1u64),
            Some(JsonV::Str(s)) => s == "1"@ || s == "true"@,
            _ => false,
        },
        None => false,
    }
}

/// Reads the `_cache_warm` flag of a document (`doc` is `None` when the
/// content did not parse as JSON).
pub fn detect_cache_warm_field(doc: Option<&Json>) -> (res: bool)
    ensures
        res == cache_warm_requested(match doc {
            Some(d) => Some(d@),
            None => None,
        }),
{
    let d = match doc {
        Some(d) => d,
        None => return false,
    };
    match get(d, "_cache_warm") {
        Some(Json::Bool(b)) => *b,
        Some(Json::Number(n)) => n.as_u64 == Some(1u64),
        Some(Json::Str(s)) => str_eq(s.as_str(), "1") || str_eq(s.as_str(), "true"),
        _ => false,
    }
}

} // verus!
