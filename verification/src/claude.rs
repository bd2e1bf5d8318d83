use vstd::prelude::*;
use crate::client::{lemma_key_index, pairs_view, ChatCompletionsData, ChatCompletionsOutput, OutputV, RequestData};
use crate::function::{
    opt_member, opt_view, push_opt, schema_json, schema_value, FunctionDeclaration, ToolCall, ToolCallV,
    ToolResult,
};
use crate::history::{blocks_view, CacheContentBlock};
use crate::json::{
    arr_push, arr_replace, clone_json, get, get_str, get_u64, int_value, json_get_u64, opt_u64_json,
    opt_u64_value, items_view, jarray, jint, jobject,
    json_get, json_get_str, json_set_key, json_text, jstr, lemma_array_view, lemma_items_view,
    lemma_find_member, lemma_member_absent, lemma_member_at, lemma_member_concat, lemma_member_single,
    lemma_set_key_get,
    member, members_view, obj_push, set_key, to_json_string, Json, JsonNumber, JsonV,
};
use crate::message::{
    after_system, extract_system_message, system_prompt, Message, MessageContent,
    MessageContentPart, MessageRole,
};
use crate::model::Model;
use crate::text::{
    chars_of, push_char, push_str, str_eq, contains_str, contains_seq, first_occurrence, lowercase, starts_with_str,
    strip_think, strip_think_tag, to_lowercase,
};

verus! {

/// A `{"type": "text", "text": t}` part.
pub open spec fn text_part(t: Seq<char>) -> JsonV {
    JsonV::Object(seq![("type"@, JsonV::Str("text"@)), ("text"@, JsonV::Str(t))])
}

/// The media type and payload of a `data:<type>;base64,<payload>` URL.
pub open spec fn data_url_parts(url: Seq<char>) -> Option<(Seq<char>, Seq<char>)> {
    if url.len() >= 5 && url.take(5) == "data:"@ {
        let rest = url.skip(5);
        match first_occurrence(rest, ";base64,"@, 0) {
            Some(j) => Some((rest.take(j), rest.skip(j + 8))),
            None => None,
        }
    } else {
        None
    }
}

/// How a message part is sent to the messages API.
pub open spec fn claude_part(p: MessageContentPart) -> JsonV {
    match p {
        MessageContentPart::Text { text } => text_part(text@),
        MessageContentPart::ImageUrl { image_url } => match data_url_parts(image_url.url@) {
            Some((mime, data)) => JsonV::Object(
                seq![
                    ("type"@, JsonV::Str("image"@)),
                    (
                        "source"@,
                        JsonV::Object(
                            seq![
                                ("type"@, JsonV::Str("base64"@)),
                                ("media_type"@, JsonV::Str(mime)),
                                ("data"@, JsonV::Str(data)),
                            ],
                        ),
                    ),
                ],
            ),
            None => JsonV::Object(seq![("url"@, JsonV::Str(image_url.url@))]),
        },
    }
}

/// An optional string: the string, or null.
pub open spec fn opt_str_value(o: Option<String>) -> JsonV {
    match o {
        Some(s) => JsonV::Str(s@),
        None => JsonV::Null,
    }
}

pub open spec fn tool_use_part(r: ToolResult) -> JsonV {
    JsonV::Object(
        seq![
            ("type"@, JsonV::Str("tool_use"@)),
            ("id"@, opt_str_value(r.call.id)),
            ("name"@, JsonV::Str(r.call.name@)),
            ("input"@, r.call.arguments@),
        ],
    )
}

pub open spec fn tool_result_part(r: ToolResult) -> JsonV {
    JsonV::Object(
        seq![
            ("type"@, JsonV::Str("tool_result"@)),
            ("tool_use_id"@, opt_str_value(r.call.id)),
            ("content"@, JsonV::Str(json_text(r.output@))),
        ],
    )
}

pub open spec fn role_message(role: Seq<char>, content: JsonV) -> JsonV {
    JsonV::Object(seq![("role"@, JsonV::Str(role)), ("content"@, content)])
}

/// The API messages one chat message becomes; `last` tells whether it is
/// the final message (earlier assistant replies lose their reasoning block).
pub open spec fn claude_message_values(m: Message, last: bool) -> Seq<JsonV> {
    match m.content {
        MessageContent::Text(t) => seq![
            role_message(
                m.role.spec_name(),
                JsonV::Str(
                    if m.role == MessageRole::Assistant && !last {
                        strip_think(t@)
                    } else {
                        t@
                    },
                ),
            ),
        ],
        MessageContent::Array(parts) => seq![
            role_message(
                m.role.spec_name(),
                JsonV::Array(parts@.map_values(|p: MessageContentPart| claude_part(p))),
            ),
        ],
        MessageContent::ToolCalls(tc) => seq![
            role_message(
                "assistant"@,
                JsonV::Array(
                    (if tc.text@.len() > 0 {
                        seq![text_part(tc.text@)]
                    } else {
                        Seq::empty()
                    }) + tc.tool_results@.map_values(|r: ToolResult| tool_use_part(r)),
                ),
            ),
            role_message(
                "user"@,
                JsonV::Array(tc.tool_results@.map_values(|r: ToolResult| tool_result_part(r))),
            ),
        ],
    }
}

/// The API messages the first `n` chat messages become.
pub open spec fn claude_messages(ms: Seq<Message>, n: nat) -> Seq<JsonV>
    decreases n,
{
    if n == 0 || n > ms.len() {
        Seq::empty()
    } else {
        claude_messages(ms, (n - 1) as nat) + claude_message_values(
            ms[n - 1],
            n == ms.len(),
        )
    }
}

/// The network (non-`data:`) image URLs of a message, in order.
pub open spec fn message_network_images(m: Message) -> Seq<Seq<char>> {
    match m.content {
        MessageContent::Array(parts) => parts_network_images(parts@, parts@.len()),
        _ => Seq::empty(),
    }
}

/// The network image URL of a part, if it is one.
pub open spec fn part_network_images(p: MessageContentPart) -> Seq<Seq<char>> {
    match p {
        MessageContentPart::ImageUrl { image_url } => if data_url_parts(image_url.url@) is None {
            seq![image_url.url@]
        } else {
            Seq::empty()
        },
        _ => Seq::empty(),
    }
}

pub open spec fn parts_network_images(parts: Seq<MessageContentPart>, n: nat) -> Seq<Seq<char>>
    decreases n,
{
    if n == 0 || n > parts.len() {
        Seq::empty()
    } else {
        parts_network_images(parts, (n - 1) as nat) + part_network_images(parts[n - 1])
    }
}

/// The texts of a list of strings.
pub open spec fn strings_view(v: Seq<String>) -> Seq<Seq<char>> {
    v.map_values(|s: String| s@)
}

/// The network image URLs of the first `n` messages, in order.
pub open spec fn network_images(ms: Seq<Message>, n: nat) -> Seq<Seq<char>>
    decreases n,
{
    if n == 0 || n > ms.len() {
        Seq::empty()
    } else {
        network_images(ms, (n - 1) as nat) + message_network_images(ms[n - 1])
    }
}

fn text_part_json(t: &str) -> (r: Json)
    ensures
        r@ == text_part(t@),
{
    let mut m: Vec<(String, Json)> = Vec::new();
    obj_push(&mut m, "type", jstr("text"));
    obj_push(&mut m, "text", jstr(t));
    assert(members_view(Seq::<(String, Json)>::empty(), 0) =~= Seq::empty());
    assert(members_view(m@, m@.len()) =~= seq![("type"@, JsonV::Str("text"@)), ("text"@, JsonV::Str(t@))]);
    jobject(m)
}

pub(crate) fn role_message_json(role: &str, content: Json) -> (r: Json)
    ensures
        r@ == role_message(role@, content@),
{
    let mut m: Vec<(String, Json)> = Vec::new();
    obj_push(&mut m, "role", jstr(role));
    obj_push(&mut m, "content", content);
    assert(members_view(Seq::<(String, Json)>::empty(), 0) =~= Seq::empty());
    assert(members_view(m@, m@.len()) =~= seq![("role"@, JsonV::Str(role@)), ("content"@, content@)]);
    jobject(m)
}

pub(crate) fn opt_str_json(o: &Option<String>) -> (r: Json)
    ensures
        r@ == opt_str_value(*o),
{
    match o {
        Some(s) => jstr(s.as_str()),
        None => Json::Null,
    }
}

/// Splits a `data:<type>;base64,<payload>` URL.
pub fn split_data_url(url: &str) -> (res: Option<(String, String)>)
    ensures
        match res {
            Some((a, b)) => data_url_parts(url@) == Some((a@, b@)),
            None => data_url_parts(url@) is None,
        },
{
    proof {
        reveal_strlit("data:");
        reveal_strlit(";base64,");
    }
    if !starts_with_str(url, "data:") {
        return None;
    }
    let rest = crate::text::skip_chars(url, 5);
    match crate::text::find_str(rest.as_str(), ";base64,") {
        Some(j) => {
            let mime = crate::text::take_chars(rest.as_str(), j);
            let data = crate::text::skip_chars(rest.as_str(), j + 8);
            Some((mime, data))
        },
        None => None,
    }
}

fn claude_part_json(p: &MessageContentPart, urls: &mut Vec<String>) -> (r: Json)
    ensures
        r@ == claude_part(*p),
        strings_view(final(urls)@) == strings_view(old(urls)@) + part_network_images(*p),
{
    match p {
        MessageContentPart::Text { text } => {
            assert(strings_view(urls@) =~= strings_view(old(urls)@) + part_network_images(*p));
            text_part_json(text.as_str())
        },
        MessageContentPart::ImageUrl { image_url } => {
            match split_data_url(image_url.url.as_str()) {
                Some((mime, data)) => {
                    let mut src: Vec<(String, Json)> = Vec::new();
                    obj_push(&mut src, "type", jstr("base64"));
                    obj_push(&mut src, "media_type", Json::Str(mime));
                    obj_push(&mut src, "data", Json::Str(data));
                    let mut m: Vec<(String, Json)> = Vec::new();
                    let ghost sv = members_view(src@, src@.len());
                    obj_push(&mut m, "type", jstr("image"));
                    obj_push(&mut m, "source", jobject(src));
                    assert(members_view(Seq::<(String, Json)>::empty(), 0) =~= Seq::empty());
                    assert(sv =~= seq![
                        ("type"@, JsonV::Str("base64"@)),
                        ("media_type"@, JsonV::Str(mime@)),
                        ("data"@, JsonV::Str(data@)),
                    ]);
                    assert(members_view(m@, m@.len()) =~= seq![
                        ("type"@, JsonV::Str("image"@)),
                        ("source"@, JsonV::Object(sv)),
                    ]);
                    assert(strings_view(urls@) =~= strings_view(old(urls)@) + part_network_images(
                        *p,
                    ));
                    jobject(m)
                },
                None => {
                    let ghost before = urls@;
                    urls.push(image_url.url.clone());
                    assert(strings_view(urls@) =~= strings_view(before) + part_network_images(*p));
                    let mut m: Vec<(String, Json)> = Vec::new();
                    obj_push(&mut m, "url", jstr(image_url.url.as_str()));
                    assert(members_view(Seq::<(String, Json)>::empty(), 0) =~= Seq::empty());
                    assert(members_view(m@, m@.len()) =~= seq![
                        ("url"@, JsonV::Str(image_url.url@)),
                    ]);
                    jobject(m)
                },
            }
        },
    }
}

fn claude_parts_json(parts: &Vec<MessageContentPart>, urls: &mut Vec<String>) -> (r: Json)
    ensures
        r@ == JsonV::Array(parts@.map_values(|p: MessageContentPart| claude_part(p))),
        strings_view(final(urls)@) == strings_view(old(urls)@) + parts_network_images(
            parts@,
            parts@.len(),
        ),
{
    let mut out: Vec<Json> = Vec::new();
    let mut i: usize = 0;
    assert(items_view(out@, 0) =~= Seq::<JsonV>::empty());
    assert(strings_view(urls@) =~= strings_view(old(urls)@) + parts_network_images(parts@, 0));
    while i < parts.len()
        invariant
            i <= parts@.len(),
            items_view(out@, out@.len()) == parts@.take(i as int).map_values(
                |p: MessageContentPart| claude_part(p),
            ),
            strings_view(urls@) == strings_view(old(urls)@) + parts_network_images(
                parts@,
                i as nat,
            ),
        decreases parts.len() - i,
    {
        let x = claude_part_json(&parts[i], urls);
        arr_push(&mut out, x);
        assert(parts@.take(i + 1).map_values(|p: MessageContentPart| claude_part(p))
            =~= parts@.take(i as int).map_values(|p: MessageContentPart| claude_part(p)).push(
            claude_part(parts@[i as int]),
        ));
        assert(strings_view(urls@) =~= strings_view(old(urls)@) + parts_network_images(
            parts@,
            (i + 1) as nat,
        ));
        i = i + 1;
    }
    assert(parts@.take(parts@.len() as int) =~= parts@);
    jarray(out)
}

fn tool_use_json(r: &ToolResult) -> (j: Json)
    ensures
        j@ == tool_use_part(*r),
{
    let mut m: Vec<(String, Json)> = Vec::new();
    obj_push(&mut m, "type", jstr("tool_use"));
    obj_push(&mut m, "id", opt_str_json(&r.call.id));
    obj_push(&mut m, "name", jstr(r.call.name.as_str()));
    obj_push(&mut m, "input", clone_json(&r.call.arguments));
    assert(members_view(Seq::<(String, Json)>::empty(), 0) =~= Seq::empty());
    assert(members_view(m@, m@.len()) =~= seq![
        ("type"@, JsonV::Str("tool_use"@)),
        ("id"@, opt_str_value(r.call.id)),
        ("name"@, JsonV::Str(r.call.name@)),
        ("input"@, r.call.arguments@),
    ]);
    jobject(m)
}

fn tool_result_json(r: &ToolResult) -> (j: Json)
    ensures
        j@ == tool_result_part(*r),
{
    let mut m: Vec<(String, Json)> = Vec::new();
    obj_push(&mut m, "type", jstr("tool_result"));
    obj_push(&mut m, "tool_use_id", opt_str_json(&r.call.id));
    let out = to_json_string(&r.output);
    obj_push(&mut m, "content", Json::Str(out));
    assert(members_view(Seq::<(String, Json)>::empty(), 0) =~= Seq::empty());
    assert(members_view(m@, m@.len()) =~= seq![
        ("type"@, JsonV::Str("tool_result"@)),
        ("tool_use_id"@, opt_str_value(r.call.id)),
        ("content"@, JsonV::Str(json_text(r.output@))),
    ]);
    jobject(m)
}

/// Appends the API messages that `m` becomes.
fn push_claude_message(m: &Message, last: bool, out: &mut Vec<Json>, urls: &mut Vec<String>)
    ensures
        items_view(final(out)@, final(out)@.len()) == items_view(old(out)@, old(out)@.len())
            + claude_message_values(*m, last),
        strings_view(final(urls)@) == strings_view(old(urls)@) + message_network_images(*m),
{
    match &m.content {
        MessageContent::Text(t) => {
            let text = if m.role.is_assistant() && !last {
                strip_think_tag(t.as_str())
            } else {
                t.clone()
            };
            let x = role_message_json(m.role.name(), Json::Str(text));
            arr_push(out, x);
            assert(strings_view(urls@) =~= strings_view(old(urls)@) + message_network_images(*m));
        },
        MessageContent::Array(parts) => {
            let c = claude_parts_json(parts, urls);
            let x = role_message_json(m.role.name(), c);
            arr_push(out, x);
        },
        MessageContent::ToolCalls(tc) => {
            let mut assistant_parts: Vec<Json> = Vec::new();
            let mut user_parts: Vec<Json> = Vec::new();
            if !tc.text.as_str().is_empty() {
                arr_push(&mut assistant_parts, text_part_json(tc.text.as_str()));
            }
            let ghost head = if tc.text@.len() > 0 {
                seq![text_part(tc.text@)]
            } else {
                Seq::<JsonV>::empty()
            };
            assert(items_view(assistant_parts@, assistant_parts@.len()) =~= head);
            assert(items_view(user_parts@, 0) =~= Seq::<JsonV>::empty());
            let rs = &tc.tool_results;
            let mut i: usize = 0;
            while i < rs.len()
                invariant
                    i <= rs@.len(),
                    items_view(assistant_parts@, assistant_parts@.len()) == head + rs@.take(
                        i as int,
                    ).map_values(|r: ToolResult| tool_use_part(r)),
                    items_view(user_parts@, user_parts@.len()) == rs@.take(i as int).map_values(
                        |r: ToolResult| tool_result_part(r),
                    ),
                decreases rs.len() - i,
            {
                arr_push(&mut assistant_parts, tool_use_json(&rs[i]));
                arr_push(&mut user_parts, tool_result_json(&rs[i]));
                assert(rs@.take(i + 1).map_values(|r: ToolResult| tool_use_part(r)) =~= rs@.take(
                    i as int,
                ).map_values(|r: ToolResult| tool_use_part(r)).push(tool_use_part(rs@[i as int])));
                assert(rs@.take(i + 1).map_values(|r: ToolResult| tool_result_part(r))
                    =~= rs@.take(i as int).map_values(|r: ToolResult| tool_result_part(r)).push(
                    tool_result_part(rs@[i as int]),
                ));
                i = i + 1;
            }
            assert(rs@.take(rs@.len() as int) =~= rs@);
            let ghost mid = items_view(out@, out@.len());
            arr_push(out, role_message_json("assistant", jarray(assistant_parts)));
            arr_push(out, role_message_json("user", jarray(user_parts)));
            assert(strings_view(urls@) =~= strings_view(old(urls)@) + message_network_images(*m));
        },
    }
}

/// The API messages of a chat, with the network image URLs met on the way.
fn claude_messages_json(ms: &Vec<Message>, urls: &mut Vec<String>) -> (r: Vec<Json>)
    ensures
        items_view(r@, r@.len()) == claude_messages(ms@, ms@.len()),
        strings_view(final(urls)@) == strings_view(old(urls)@) + network_images(ms@, ms@.len()),
{
    let mut out: Vec<Json> = Vec::new();
    let mut i: usize = 0;
    assert(items_view(out@, 0) =~= Seq::<JsonV>::empty());
    assert(strings_view(urls@) =~= strings_view(old(urls)@) + network_images(ms@, 0));
    while i < ms.len()
        invariant
            i <= ms@.len(),
            items_view(out@, out@.len()) == claude_messages(ms@, i as nat),
            strings_view(urls@) == strings_view(old(urls)@) + network_images(ms@, i as nat),
        decreases ms.len() - i,
    {
        push_claude_message(&ms[i], i + 1 == ms.len(), &mut out, urls);
        assert(strings_view(urls@) =~= strings_view(old(urls)@) + network_images(
            ms@,
            (i + 1) as nat,
        ));
        i = i + 1;
    }
    out
}

/// `{"type": "ephemeral"}`: a cache mark with the default five-minute TTL.
pub open spec fn ephemeral() -> JsonV {
    JsonV::Object(seq![("type"@, JsonV::Str("ephemeral"@))])
}

/// The cache mark of the tools and the system prompt: one hour where the
/// model supports the extended TTL.
pub open spec fn system_cache_control(extended: bool) -> JsonV {
    if extended {
        JsonV::Object(seq![("type"@, JsonV::Str("ephemeral"@)), ("ttl"@, JsonV::Str("1h"@))])
    } else {
        ephemeral()
    }
}

/// One text block that carries the cache mark `cc`.
pub open spec fn cached_text(t: Seq<char>, cc: JsonV) -> JsonV {
    JsonV::Array(
        seq![
            JsonV::Object(
                seq![
                    ("type"@, JsonV::Str("text"@)),
                    ("text"@, JsonV::Str(t)),
                    ("cache_control"@, cc),
                ],
            ),
        ],
    )
}

/// Whether a message's `role` is the string `role`.
pub open spec fn role_is(m: JsonV, role: Seq<char>) -> bool {
    json_get_str(m, "role"@) == Some(role)
}

/// The last index below `n` whose message has the role.
pub open spec fn last_with_role(ms: Seq<JsonV>, role: Seq<char>, n: int) -> Option<int>
    decreases n,
{
    if n <= 0 {
        None
    } else if role_is(ms[n - 1], role) {
        Some(n - 1)
    } else {
        last_with_role(ms, role, n - 1)
    }
}

/// The first index in `lo..hi` whose message has the role.
pub open spec fn first_with_role(ms: Seq<JsonV>, role: Seq<char>, lo: int, hi: int) -> Option<int>
    decreases hi - lo,
{
    if lo >= hi {
        None
    } else if role_is(ms[lo], role) {
        Some(lo)
    } else {
        first_with_role(ms, role, lo + 1, hi)
    }
}

/// A message after a cache breakpoint is put on it: a string content becomes
/// one marked text block, an array content gets its last block marked.
pub open spec fn mark_message(m: JsonV) -> JsonV {
    match json_get(m, "content"@) {
        Some(JsonV::Str(t)) => set_key(m, "content"@, cached_text(t, ephemeral())),
        Some(JsonV::Array(a)) => if a.len() > 0 {
            set_key(
                m,
                "content"@,
                JsonV::Array(
                    a.update(a.len() - 1, set_key(a[a.len() - 1], "cache_control"@, ephemeral())),
                ),
            )
        } else {
            m
        },
        _ => m,
    }
}

/// The text block of a cache content block, marked if it is a breakpoint.
pub open spec fn block_value(b: (Seq<char>, Seq<char>, bool)) -> JsonV {
    if b.2 {
        JsonV::Object(
            seq![
                ("type"@, JsonV::Str("text"@)),
                ("text"@, JsonV::Str(b.1)),
                ("cache_control"@, ephemeral()),
            ],
        )
    } else {
        JsonV::Object(seq![("type"@, JsonV::Str("text"@)), ("text"@, JsonV::Str(b.1))])
    }
}

/// The last user message takes the content blocks, when there are any.
pub open spec fn with_content_blocks(ms: Seq<JsonV>, blocks: Seq<(Seq<char>, Seq<char>, bool)>) -> Seq<
    JsonV,
> {
    if blocks.len() > 0 {
        match last_with_role(ms, "user"@, ms.len() as int) {
            Some(i) => ms.update(
                i,
                set_key(
                    ms[i],
                    "content"@,
                    JsonV::Array(blocks.map_values(|b: (Seq<char>, Seq<char>, bool)| block_value(b))),
                ),
            ),
            None => ms,
        }
    } else {
        ms
    }
}

/// A breakpoint on the last message of a multi-turn conversation.
pub open spec fn mark_last_message(ms: Seq<JsonV>) -> Seq<JsonV> {
    if ms.len() > 1 {
        ms.update(ms.len() - 1, mark_message(ms[ms.len() - 1]))
    } else {
        ms
    }
}

/// The last assistant message before the final one, when there are more than
/// three messages.
pub open spec fn history_end(ms: Seq<JsonV>) -> Option<int> {
    if ms.len() > 3 {
        last_with_role(ms, "assistant"@, ms.len() - 1)
    } else {
        None
    }
}

/// A breakpoint at the end of the conversation history.
pub open spec fn mark_history_end(ms: Seq<JsonV>) -> Seq<JsonV> {
    match history_end(ms) {
        Some(i) => ms.update(i, mark_message(ms[i])),
        None => ms,
    }
}

/// Where the stepping-stone breakpoint of a long history goes: a user message
/// from the middle of the history on, else the last one before it, else the
/// middle itself; only inside the history.
pub open spec fn stepping_stone(ms: Seq<JsonV>) -> Option<int> {
    if ms.len() > 3 {
        let he = match history_end(ms) {
            Some(i) => i,
            None => 0,
        };
        if he > 10 {
            let mid = he / 2;
            let t = match first_with_role(ms, "user"@, mid, he) {
                Some(i) => i,
                None => match last_with_role(ms, "user"@, mid) {
                    Some(i) => i,
                    None => mid,
                },
            };
            if t < he && t < ms.len() - 1 {
                Some(t)
            } else {
                None
            }
        } else {
            None
        }
    } else {
        None
    }
}

pub open spec fn mark_stepping_stone(ms: Seq<JsonV>) -> Seq<JsonV> {
    match stepping_stone(ms) {
        Some(t) => ms.update(t, mark_message(ms[t])),
        None => ms,
    }
}

/// The messages with every cache breakpoint placed, in the order the
/// request builder places them.
pub open spec fn cached_messages(ms: Seq<JsonV>, blocks: Seq<(Seq<char>, Seq<char>, bool)>) -> Seq<
    JsonV,
> {
    mark_stepping_stone(mark_history_end(mark_last_message(with_content_blocks(ms, blocks))))
}

fn ephemeral_json() -> (r: Json)
    ensures
        r@ == ephemeral(),
{
    let mut m: Vec<(String, Json)> = Vec::new();
    obj_push(&mut m, "type", jstr("ephemeral"));
    assert(members_view(Seq::<(String, Json)>::empty(), 0) =~= Seq::empty());
    assert(members_view(m@, m@.len()) =~= seq![("type"@, JsonV::Str("ephemeral"@))]);
    jobject(m)
}

fn system_cache_control_json(extended: bool) -> (r: Json)
    ensures
        r@ == system_cache_control(extended),
{
    if extended {
        let mut m: Vec<(String, Json)> = Vec::new();
        obj_push(&mut m, "type", jstr("ephemeral"));
        obj_push(&mut m, "ttl", jstr("1h"));
        assert(members_view(Seq::<(String, Json)>::empty(), 0) =~= Seq::empty());
        assert(members_view(m@, m@.len()) =~= seq![
            ("type"@, JsonV::Str("ephemeral"@)),
            ("ttl"@, JsonV::Str("1h"@)),
        ]);
        jobject(m)
    } else {
        ephemeral_json()
    }
}

fn cached_text_json(t: &str, cc: Json) -> (r: Json)
    ensures
        r@ == cached_text(t@, cc@),
{
    let mut m: Vec<(String, Json)> = Vec::new();
    let ghost ccv = cc@;
    obj_push(&mut m, "type", jstr("text"));
    obj_push(&mut m, "text", jstr(t));
    obj_push(&mut m, "cache_control", cc);
    assert(members_view(Seq::<(String, Json)>::empty(), 0) =~= Seq::empty());
    let ghost mv = members_view(m@, m@.len());
    assert(mv =~= seq![
        ("type"@, JsonV::Str("text"@)),
        ("text"@, JsonV::Str(t@)),
        ("cache_control"@, ccv),
    ]);
    let mut a: Vec<Json> = Vec::new();
    arr_push(&mut a, jobject(m));
    assert(items_view(Seq::<Json>::empty(), 0) =~= Seq::empty());
    assert(items_view(a@, a@.len()) =~= seq![JsonV::Object(mv)]);
    jarray(a)
}

fn role_is_json(m: &Json, role: &str) -> (r: bool)
    ensures
        r == role_is(m@, role@),
{
    match get_str(m, "role") {
        Some(r) => str_eq(r, role),
        None => false,
    }
}

fn last_with_role_json(ms: &Vec<Json>, role: &str, n: usize) -> (r: Option<usize>)
    requires
        n <= ms@.len(),
    ensures
        match r {
            Some(i) => last_with_role(items_view(ms@, ms@.len()), role@, n as int) == Some(
                i as int,
            ) && i < n,
            None => last_with_role(items_view(ms@, ms@.len()), role@, n as int) is None,
        },
{
    let ghost mv = items_view(ms@, ms@.len());
    proof {
        lemma_items_view(ms@, ms@.len());
    }
    let mut k = n;
    while k > 0
        invariant
            k <= n <= ms@.len(),
            mv == items_view(ms@, ms@.len()),
            forall|i: int| 0 <= i < ms@.len() ==> #[trigger] mv[i] == ms@[i]@,
            last_with_role(mv, role@, n as int) == last_with_role(mv, role@, k as int),
        decreases k,
    {
        if role_is_json(&ms[k - 1], role) {
            return Some(k - 1);
        }
        k = k - 1;
    }
    None
}

fn first_with_role_json(ms: &Vec<Json>, role: &str, lo: usize, hi: usize) -> (r: Option<usize>)
    requires
        hi <= ms@.len(),
    ensures
        match r {
            Some(i) => first_with_role(items_view(ms@, ms@.len()), role@, lo as int, hi as int)
                == Some(i as int) && lo <= i < hi,
            None => first_with_role(items_view(ms@, ms@.len()), role@, lo as int, hi as int) is None,
        },
{
    let ghost mv = items_view(ms@, ms@.len());
    proof {
        lemma_items_view(ms@, ms@.len());
    }
    let mut k = lo;
    while k < hi
        invariant
            hi <= ms@.len(),
            lo <= k,
            mv == items_view(ms@, ms@.len()),
            forall|i: int| 0 <= i < ms@.len() ==> #[trigger] mv[i] == ms@[i]@,
            first_with_role(mv, role@, lo as int, hi as int) == first_with_role(
                mv,
                role@,
                k as int,
                hi as int,
            ),
        decreases hi - k,
    {
        if role_is_json(&ms[k], role) {
            return Some(k);
        }
        k = k + 1;
    }
    None
}

fn mark_message_json(m: Json) -> (r: Json)
    ensures
        r@ == mark_message(m@),
{
    let content = match get(&m, "content") {
        Some(c) => Some(clone_json(c)),
        None => None,
    };
    match content {
        Some(Json::Str(t)) => {
            let c = cached_text_json(t.as_str(), ephemeral_json());
            json_set_key(m, "content", c)
        },
        Some(Json::Array(a)) => {
            proof {
                lemma_array_view(a);
            }
            if a.len() > 0 {
                let mut a = a;
                let last = a.len() - 1;
                let ghost av = items_view(a@, a@.len());
                let old_last = arr_replace(&mut a, last, Json::Null);
                let x = json_set_key(old_last, "cache_control", ephemeral_json());
                arr_replace(&mut a, last, x);
                assert(items_view(a@, a@.len()) =~= av.update(
                    av.len() - 1,
                    set_key(av[av.len() - 1], "cache_control"@, ephemeral()),
                ));
                json_set_key(m, "content", jarray(a))
            } else {
                m
            }
        },
        _ => m,
    }
}

/// Puts a cache breakpoint on message `i`.
fn mark_at(ms: &mut Vec<Json>, i: usize)
    requires
        i < old(ms)@.len(),
    ensures
        final(ms)@.len() == old(ms)@.len(),
        items_view(final(ms)@, final(ms)@.len()) == items_view(old(ms)@, old(ms)@.len()).update(
            i as int,
            mark_message(items_view(old(ms)@, old(ms)@.len())[i as int]),
        ),
{
    let ghost mv = items_view(ms@, ms@.len());
    proof {
        lemma_items_view(ms@, ms@.len());
    }
    let old_m = arr_replace(ms, i, Json::Null);
    let x = mark_message_json(old_m);
    arr_replace(ms, i, x);
    assert(items_view(ms@, ms@.len()) =~= mv.update(i as int, mark_message(mv[i as int])));
}

fn blocks_json(blocks: &Vec<CacheContentBlock>) -> (r: Json)
    ensures
        r@ == JsonV::Array(
            blocks_view(blocks@).map_values(|b: (Seq<char>, Seq<char>, bool)| block_value(b)),
        ),
{
    let mut out: Vec<Json> = Vec::new();
    let ghost bv = blocks_view(blocks@).map_values(
        |b: (Seq<char>, Seq<char>, bool)| block_value(b),
    );
    assert(items_view(out@, 0) =~= Seq::<JsonV>::empty());
    let mut i: usize = 0;
    while i < blocks.len()
        invariant
            i <= blocks@.len(),
            bv == blocks_view(blocks@).map_values(
                |b: (Seq<char>, Seq<char>, bool)| block_value(b),
            ),
            items_view(out@, out@.len()) == bv.take(i as int),
        decreases blocks.len() - i,
    {
        let b = &blocks[i];
        let mut m: Vec<(String, Json)> = Vec::new();
        obj_push(&mut m, "type", jstr("text"));
        obj_push(&mut m, "text", jstr(b.text.as_str()));
        assert(members_view(Seq::<(String, Json)>::empty(), 0) =~= Seq::empty());
        if b.is_breakpoint {
            obj_push(&mut m, "cache_control", ephemeral_json());
            assert(members_view(m@, m@.len()) =~= seq![
                ("type"@, JsonV::Str("text"@)),
                ("text"@, JsonV::Str(b.text@)),
                ("cache_control"@, ephemeral()),
            ]);
        } else {
            assert(members_view(m@, m@.len()) =~= seq![
                ("type"@, JsonV::Str("text"@)),
                ("text"@, JsonV::Str(b.text@)),
            ]);
        }
        assert(JsonV::Object(members_view(m@, m@.len())) == block_value(b@));
        arr_push(&mut out, jobject(m));
        assert(bv.take(i + 1) =~= bv.take(i as int).push(bv[i as int]));
        i = i + 1;
    }
    assert(bv.take(blocks@.len() as int) =~= bv);
    jarray(out)
}

/// Places every cache breakpoint on the messages, as `cached_messages` says.
fn cache_messages_json(ms: Vec<Json>, blocks: &Vec<CacheContentBlock>) -> (r: Vec<Json>)
    ensures
        items_view(r@, r@.len()) == cached_messages(
            items_view(ms@, ms@.len()),
            blocks_view(blocks@),
        ),
{
    let mut ms = ms;
    let ghost m0 = items_view(ms@, ms@.len());
    proof {
        lemma_items_view(ms@, ms@.len());
    }
    if blocks.len() > 0 {
        let n = ms.len();
        match last_with_role_json(&ms, "user", n) {
            Some(i) => {
                let old_m = arr_replace(&mut ms, i, Json::Null);
                let x = json_set_key(old_m, "content", blocks_json(blocks));
                arr_replace(&mut ms, i, x);
            },
            None => {},
        }
    }
    let ghost m1 = items_view(ms@, ms@.len());
    assert(m1 =~= with_content_blocks(m0, blocks_view(blocks@)));
    proof {
        lemma_items_view(ms@, ms@.len());
    }
    if ms.len() > 1 {
        let last = ms.len() - 1;
        mark_at(&mut ms, last);
    }
    let ghost m2 = items_view(ms@, ms@.len());
    assert(m2 == mark_last_message(m1));
    proof {
        lemma_items_view(ms@, ms@.len());
    }
    if ms.len() > 3 {
        let n = ms.len() - 1;
        match last_with_role_json(&ms, "assistant", n) {
            Some(i) => mark_at(&mut ms, i),
            None => {},
        }
    }
    let ghost m3 = items_view(ms@, ms@.len());
    assert(m3 == mark_history_end(m2));
    proof {
        lemma_items_view(ms@, ms@.len());
    }
    if ms.len() > 3 {
        let n = ms.len() - 1;
        let he = match last_with_role_json(&ms, "assistant", n) {
            Some(i) => i,
            None => 0,
        };
        if he > 10 {
            let mid = he / 2;
            let t = match first_with_role_json(&ms, "user", mid, he) {
                Some(i) => i,
                None => match last_with_role_json(&ms, "user", mid) {
                    Some(i) => i,
                    None => mid,
                },
            };
            if t < he && t < ms.len() - 1 {
                mark_at(&mut ms, t);
            }
        }
    }
    assert(items_view(ms@, ms@.len()) == mark_stepping_stone(m3));
    ms
}

/// A tool as the messages API takes it.
pub open spec fn tool_value(f: FunctionDeclaration) -> JsonV {
    JsonV::Object(
        seq![
            ("name"@, JsonV::Str(f.name@)),
            ("description"@, JsonV::Str(f.description@)),
            ("input_schema"@, schema_value(f.parameters)),
        ],
    )
}

/// Whether `a` comes no later than `b` in code-point order (the order of
/// their UTF-8 bytes).
pub open spec fn name_le(a: Seq<char>, b: Seq<char>) -> bool
    decreases a.len(),
{
    if a.len() == 0 {
        true
    } else if b.len() == 0 {
        false
    } else if a[0] != b[0] {
        (a[0] as u32) < (b[0] as u32)
    } else {
        name_le(a.drop_first(), b.drop_first())
    }
}

/// Where a stable sort puts an element named `name` among the sorted `s`:
/// after every element whose name is not greater.
pub open spec fn insert_position(s: Seq<FunctionDeclaration>, name: Seq<char>, i: int) -> int
    decreases s.len() - i,
{
    if i >= s.len() {
        s.len() as int
    } else if !name_le(s[i].name@, name) {
        i
    } else {
        insert_position(s, name, i + 1)
    }
}

/// The first `n` declarations, stably sorted by name.
pub open spec fn sorted_by_name(fs: Seq<FunctionDeclaration>, n: nat) -> Seq<FunctionDeclaration>
    decreases n,
{
    if n == 0 || n > fs.len() {
        Seq::empty()
    } else {
        let s = sorted_by_name(fs, (n - 1) as nat);
        s.insert(insert_position(s, fs[n - 1].name@, 0), fs[n - 1])
    }
}

/// The tools with the cache mark `cc` on the last one.
pub open spec fn stamp_last(t: Seq<JsonV>, cc: JsonV) -> Seq<JsonV> {
    if t.len() > 0 {
        t.update(t.len() - 1, set_key(t[t.len() - 1], "cache_control"@, cc))
    } else {
        t
    }
}

/// Whether a lower-cased model name belongs to a family with the one-hour
/// cache TTL (generation 4 and later).
pub open spec fn extended_cache_family(lowered: Seq<char>) -> bool {
    ||| contains_seq(lowered, "4-5"@)
    ||| contains_seq(lowered, "4-6"@)
    ||| contains_seq(lowered, "opus-4"@)
    ||| contains_seq(lowered, "sonnet-4"@)
    ||| contains_seq(lowered, "haiku-4"@)
    ||| contains_seq(lowered, "sonnet-5"@)
    ||| contains_seq(lowered, "opus-5"@)
}

/// A number parameter as sent.
pub open spec fn number_value(n: Option<JsonNumber>) -> Option<JsonV> {
    match n {
        Some(x) => Some(JsonV::Number(x.text@, x.as_u64, x.as_i64)),
        None => None,
    }
}

/// The request body for the messages API, or the network image URLs
/// that the messages API cannot take. Members come in this order: model, messages,
/// system, max_tokens, temperature, top_p, stream, tools. Cache breakpoints
/// are placed when there is a stable prefix (a system prompt, more than one
/// message, or tools).
pub open spec fn claude_body(d: ChatCompletionsData, model: Model) -> Result<JsonV, Seq<Seq<char>>> {
    let ms = after_system(d.messages@);
    let images = network_images(ms, ms.len());
    if images.len() > 0 {
        Err(images)
    } else {
        let msgs = claude_messages(ms, ms.len());
        let system = system_prompt(d.messages@);
        let cache = system is Some || msgs.len() > 1 || d.functions is Some;
        let cc = system_cache_control(extended_cache_family(lowercase(model.name@)));
        Ok(
            JsonV::Object(
                seq![
                    ("model"@, JsonV::Str(model.spec_real_name())),
                    (
                        "messages"@,
                        JsonV::Array(
                            if cache {
                                cached_messages(msgs, blocks_view(d.cache_content_blocks@))
                            } else {
                                msgs
                            },
                        ),
                    ),
                ] + opt_member(
                    "system"@,
                    match system {
                        Some(s) => Some(
                            if cache {
                                cached_text(s, cc)
                            } else {
                                JsonV::Str(s)
                            },
                        ),
                        None => None,
                    },
                ) + opt_member(
                    "max_tokens"@,
                    if d.cache_warm {
                        Some(int_value(1))
                    } else {
                        match model.spec_max_tokens_param() {
                            Some(v) => Some(int_value(v)),
                            None => None,
                        }
                    },
                ) + opt_member("temperature"@, number_value(d.temperature)) + opt_member(
                    "top_p"@,
                    number_value(d.top_p),
                ) + opt_member(
                    "stream"@,
                    if d.stream {
                        Some(JsonV::Bool(true))
                    } else {
                        None
                    },
                ) + opt_member(
                    "tools"@,
                    match d.functions {
                        Some(fs) => {
                            let t = sorted_by_name(fs@, fs@.len()).map_values(
                                |f: FunctionDeclaration| tool_value(f),
                            );
                            Some(
                                JsonV::Array(
                                    if cache {
                                        stamp_last(t, cc)
                                    } else {
                                        t
                                    },
                                ),
                            )
                        },
                        None => None,
                    },
                ),
            ),
        )
    }
}

pub(crate) fn name_le_str(a: &str, b: &str) -> (r: bool)
    ensures
        r == name_le(a@, b@),
{
    let va = chars_of(a);
    let vb = chars_of(b);
    let mut i: usize = 0;
    assert(a@.skip(0) =~= a@);
    assert(b@.skip(0) =~= b@);
    while i < va.len() && i < vb.len()
        invariant
            va@ == a@,
            vb@ == b@,
            i <= va@.len(),
            i <= vb@.len(),
            name_le(a@, b@) == name_le(a@.skip(i as int), b@.skip(i as int)),
        decreases va.len() - i,
    {
        if va[i] != vb[i] {
            return (va[i] as u32) < (vb[i] as u32);
        }
        assert(a@.skip(i as int).drop_first() =~= a@.skip(i + 1));
        assert(b@.skip(i as int).drop_first() =~= b@.skip(i + 1));
        i = i + 1;
    }
    i == va.len()
}

/// The declarations stably sorted by name.
fn sort_by_name(fs: Vec<FunctionDeclaration>) -> (r: Vec<FunctionDeclaration>)
    ensures
        r@ == sorted_by_name(fs@, fs@.len()),
{
    let ghost orig = fs@;
    let mut fs = fs;
    let mut out: Vec<FunctionDeclaration> = Vec::new();
    let mut i: usize = 0;
    assert(orig.skip(0) =~= orig);
    assert(orig.len() == fs.len());
    while fs.len() > 0
        invariant
            i <= orig.len(),
            orig.len() <= usize::MAX,
            fs@ == orig.skip(i as int),
            out@ == sorted_by_name(orig, i as nat),
        decreases fs.len(),
    {
        let f = fs.remove(0);
        assert(fs@ =~= orig.skip(i + 1));
        let mut p: usize = 0;
        while p < out.len() && name_le_str(out[p].name.as_str(), f.name.as_str())
            invariant
                p <= out@.len(),
                insert_position(out@, f.name@, 0) == insert_position(out@, f.name@, p as int),
            decreases out.len() - p,
        {
            p = p + 1;
        }
        out.insert(p, f);
        i = i + 1;
    }
    out
}

fn tool_json(f: &FunctionDeclaration) -> (r: Json)
    ensures
        r@ == tool_value(*f),
{
    let mut m: Vec<(String, Json)> = Vec::new();
    obj_push(&mut m, "name", jstr(f.name.as_str()));
    obj_push(&mut m, "description", jstr(f.description.as_str()));
    obj_push(&mut m, "input_schema", schema_json(&f.parameters));
    assert(members_view(Seq::<(String, Json)>::empty(), 0) =~= Seq::empty());
    assert(members_view(m@, m@.len()) =~= seq![
        ("name"@, JsonV::Str(f.name@)),
        ("description"@, JsonV::Str(f.description@)),
        ("input_schema"@, schema_value(f.parameters)),
    ]);
    jobject(m)
}

fn tools_json(fs: &Vec<FunctionDeclaration>) -> (r: Vec<Json>)
    ensures
        items_view(r@, r@.len()) == fs@.map_values(|f: FunctionDeclaration| tool_value(f)),
{
    let mut out: Vec<Json> = Vec::new();
    let mut i: usize = 0;
    assert(items_view(out@, 0) =~= Seq::<JsonV>::empty());
    while i < fs.len()
        invariant
            i <= fs@.len(),
            items_view(out@, out@.len()) == fs@.take(i as int).map_values(
                |f: FunctionDeclaration| tool_value(f),
            ),
        decreases fs.len() - i,
    {
        arr_push(&mut out, tool_json(&fs[i]));
        assert(fs@.take(i + 1).map_values(|f: FunctionDeclaration| tool_value(f)) =~= fs@.take(
            i as int,
        ).map_values(|f: FunctionDeclaration| tool_value(f)).push(tool_value(fs@[i as int])));
        i = i + 1;
    }
    assert(fs@.take(fs@.len() as int) =~= fs@);
    out
}

fn stamp_last_json(t: &mut Vec<Json>, cc: Json)
    ensures
        items_view(final(t)@, final(t)@.len()) == stamp_last(
            items_view(old(t)@, old(t)@.len()),
            cc@,
        ),
{
    let ghost tv = items_view(t@, t@.len());
    proof {
        lemma_items_view(t@, t@.len());
    }
    if t.len() > 0 {
        let last = t.len() - 1;
        let ghost ccv = cc@;
        let old_last = arr_replace(t, last, Json::Null);
        let x = json_set_key(old_last, "cache_control", cc);
        arr_replace(t, last, x);
        assert(items_view(t@, t@.len()) =~= tv.update(
            tv.len() - 1,
            set_key(tv[tv.len() - 1], "cache_control"@, ccv),
        ));
    }
}

/// Whether a lower-cased model name belongs to a family with the one-hour
/// cache TTL.
pub fn extended_cache_name(lowered: &str) -> (r: bool)
    ensures
        r == extended_cache_family(lowered@),
{
    contains_str(lowered, "4-5") || contains_str(lowered, "4-6") || contains_str(lowered, "opus-4")
        || contains_str(lowered, "sonnet-4") || contains_str(lowered, "haiku-4") || contains_str(
        lowered,
        "sonnet-5",
    ) || contains_str(lowered, "opus-5")
}

/// Whether the model supports the extended one-hour cache TTL (generation 4 and
/// later), judged by its lower-cased name.
pub fn claude_supports_extended_cache(model: &Model) -> (r: bool)
    ensures
        r == extended_cache_family(lowercase(model.name@)),
{
    let lowered = to_lowercase(model.name.as_str());
    extended_cache_name(lowered.as_str())
}

/// Builds the request body for the messages API, as `claude_body`
/// describes; fails with the network image URLs, which the messages API cannot take.
#[verifier::rlimit(40)]
pub fn claude_build_chat_completions_body(data: ChatCompletionsData, model: &Model) -> (res: Result<
    Json,
    Vec<String>,
>)
    ensures
        match res {
            Ok(b) => claude_body(data, *model) == Ok::<JsonV, Seq<Seq<char>>>(b@),
            Err(urls) => claude_body(data, *model) == Err::<JsonV, Seq<Seq<char>>>(
                strings_view(urls@),
            ),
        },
{
    let ChatCompletionsData {
        messages,
        temperature,
        top_p,
        functions,
        stream,
        cache_content_blocks,
        cache_warm,
    } = data;
    let mut messages = messages;
    let system = extract_system_message(&mut messages);
    let mut urls: Vec<String> = Vec::new();
    assert(strings_view(urls@) =~= Seq::<Seq<char>>::empty());
    let msgs = claude_messages_json(&messages, &mut urls);
    assert(strings_view(urls@) =~= network_images(messages@, messages@.len()));
    if urls.len() > 0 {
        return Err(urls);
    }
    proof {
        lemma_items_view(msgs@, msgs@.len());
    }
    let ghost base = claude_messages(messages@, messages@.len());
    let cache = system.is_some() || msgs.len() > 1 || functions.is_some();
    assert(cache == (system_prompt(data.messages@) is Some || base.len() > 1 || data.functions is Some));
    let extended = claude_supports_extended_cache(model);
    let msgs = if cache {
        cache_messages_json(msgs, &cache_content_blocks)
    } else {
        msgs
    };
    let ghost expected_msgs = if cache {
        cached_messages(base, blocks_view(data.cache_content_blocks@))
    } else {
        base
    };
    assert(items_view(msgs@, msgs@.len()) == expected_msgs);
    let mut body: Vec<(String, Json)> = Vec::new();
    obj_push(&mut body, "model", jstr(model.real_name()));
    obj_push(&mut body, "messages", jarray(msgs));
    assert(members_view(Seq::<(String, Json)>::empty(), 0) =~= Seq::empty());
    assert(members_view(body@, body@.len()) =~= seq![
        ("model"@, JsonV::Str(model.spec_real_name())),
        ("messages"@, JsonV::Array(expected_msgs)),
    ]);
    assert(network_images(after_system(data.messages@), after_system(data.messages@).len()).len() == 0);
    let sys_json = match system {
        Some(s) => Some(
            if cache {
                cached_text_json(s.as_str(), system_cache_control_json(extended))
            } else {
                Json::Str(s)
            },
        ),
        None => None,
    };
    let ghost sys_expected = match system_prompt(data.messages@) {
        Some(s) => Some(
            if cache {
                cached_text(s, system_cache_control(extended_cache_family(lowercase(model.name@))))
            } else {
                JsonV::Str(s)
            },
        ),
        None => None,
    };
    assert(opt_view(sys_json) == sys_expected);
    push_opt(&mut body, "system", sys_json);
    let max_tokens = if cache_warm {
        Some(jint(1))
    } else {
        match model.max_tokens_param() {
            Some(v) => Some(jint(v)),
            None => None,
        }
    };
    assert(opt_view(max_tokens) == if data.cache_warm {
        Some(int_value(1))
    } else {
        match model.spec_max_tokens_param() {
            Some(v) => Some(int_value(v)),
            None => None,
        }
    });
    push_opt(&mut body, "max_tokens", max_tokens);
    let temp_json = match temperature {
        Some(t) => Some(Json::Number(t)),
        None => None,
    };
    assert(opt_view(temp_json) == number_value(data.temperature));
    push_opt(&mut body, "temperature", temp_json);
    let top_p_json = match top_p {
        Some(t) => Some(Json::Number(t)),
        None => None,
    };
    assert(opt_view(top_p_json) == number_value(data.top_p));
    push_opt(&mut body, "top_p", top_p_json);
    let stream_json = if stream {
        Some(Json::Bool(true))
    } else {
        None
    };
    push_opt(&mut body, "stream", stream_json);
    let tools = match functions {
        Some(fs) => {
            let sorted = sort_by_name(fs);
            let mut t = tools_json(&sorted);
            if cache {
                stamp_last_json(&mut t, system_cache_control_json(extended));
            }
            Some(jarray(t))
        },
        None => None,
    };
    assert(opt_view(tools) == match data.functions {
        Some(fs) => {
            let t = sorted_by_name(fs@, fs@.len()).map_values(|f: FunctionDeclaration| tool_value(f));
            Some(
                JsonV::Array(
                    if cache {
                        stamp_last(t, system_cache_control(extended_cache_family(lowercase(model.name@))))
                    } else {
                        t
                    },
                ),
            )
        },
        None => None,
    });
    push_opt(&mut body, "tools", tools);
    let ghost cc = system_cache_control(extended_cache_family(lowercase(model.name@)));
    let ghost parts = seq![
        ("model"@, JsonV::Str(model.spec_real_name())),
        ("messages"@, JsonV::Array(expected_msgs)),
    ];
    assert(claude_body(data, *model) == Ok::<JsonV, Seq<Seq<char>>>(JsonV::Object(members_view(body@, body@.len()))));
    Ok(jobject(body))
}

/// The TTL in seconds that a cache mark asks for: an hour for `"1h"`, else
/// the default five minutes.
pub open spec fn ttl_seconds(cc: JsonV) -> int {
    if json_get_str(cc, "ttl"@) == Some("1h"@) {
        3600
    } else {
        300
    }
}

/// The TTLs of the cache marks among the first `n` blocks, in order.
pub open spec fn block_ttls(bs: Seq<JsonV>, n: nat) -> Seq<int>
    decreases n,
{
    if n == 0 || n > bs.len() {
        Seq::empty()
    } else {
        block_ttls(bs, (n - 1) as nat) + match json_get(bs[n - 1], "cache_control"@) {
            Some(cc) => seq![ttl_seconds(cc)],
            None => Seq::empty(),
        }
    }
}

/// The TTLs of the cache marks of a list of blocks.
pub open spec fn content_ttls(c: Option<JsonV>) -> Seq<int> {
    match c {
        Some(JsonV::Array(bs)) => block_ttls(bs, bs.len()),
        _ => Seq::empty(),
    }
}

/// The TTLs of the cache marks in the contents of the first `n` messages.
pub open spec fn message_ttls(ms: Seq<JsonV>, n: nat) -> Seq<int>
    decreases n,
{
    if n == 0 || n > ms.len() {
        Seq::empty()
    } else {
        message_ttls(ms, (n - 1) as nat) + content_ttls(json_get(ms[n - 1], "content"@))
    }
}

/// The TTLs of all cache marks of a request body in the order the messages API
/// processes them: tools, then system, then messages.
pub open spec fn ttl_sequence(body: JsonV) -> Seq<int> {
    content_ttls(json_get(body, "tools"@)) + content_ttls(json_get(body, "system"@)) + match json_get(
        body,
        "messages"@,
    ) {
        Some(JsonV::Array(ms)) => message_ttls(ms, ms.len()),
        _ => Seq::empty(),
    }
}

spec fn mark_ttl_is(b: JsonV, t: int) -> bool {
    match json_get(b, "cache_control"@) {
        Some(cc) => ttl_seconds(cc) == t,
        None => true,
    }
}

spec fn unmarked(b: JsonV) -> bool {
    json_get(b, "cache_control"@) is None
}

/// Every cache mark in the message's content is a five-minute one.
spec fn msg_ok(m: JsonV) -> bool {
    match json_get(m, "content"@) {
        Some(JsonV::Array(bs)) => forall|k: int| 0 <= k < bs.len() ==> mark_ttl_is(#[trigger] bs[k], 300),
        _ => true,
    }
}

spec fn msgs_ok(ms: Seq<JsonV>) -> bool {
    forall|k: int| 0 <= k < ms.len() ==> msg_ok(#[trigger] ms[k])
}

proof fn lemma_block_ttls_all(bs: Seq<JsonV>, n: nat, t: int)
    requires
        n <= bs.len(),
        forall|k: int| 0 <= k < n ==> mark_ttl_is(#[trigger] bs[k], t),
    ensures
        forall|i: int| 0 <= i < block_ttls(bs, n).len() ==> block_ttls(bs, n)[i] == t,
    decreases n,
{
    if n > 0 {
        lemma_block_ttls_all(bs, (n - 1) as nat, t);
        assert(mark_ttl_is(bs[n - 1], t));
        let prev = block_ttls(bs, (n - 1) as nat);
        let tail = match json_get(bs[n - 1], "cache_control"@) {
            Some(cc) => seq![ttl_seconds(cc)],
            None => Seq::<int>::empty(),
        };
        assert forall|i: int| 0 <= i < (prev + tail).len() implies (prev + tail)[i] == t by {
            if i >= prev.len() {
                assert((prev + tail)[i] == tail[i - prev.len()]);
            }
        }
    }
}

proof fn lemma_block_ttls_unmarked(bs: Seq<JsonV>, n: nat)
    requires
        n <= bs.len(),
        forall|k: int| 0 <= k < n ==> unmarked(#[trigger] bs[k]),
    ensures
        block_ttls(bs, n) == Seq::<int>::empty(),
    decreases n,
{
    if n > 0 {
        lemma_block_ttls_unmarked(bs, (n - 1) as nat);
        assert(unmarked(bs[n - 1]));
        assert(block_ttls(bs, n) =~= Seq::<int>::empty());
    }
}

proof fn lemma_block_ttls_prefix(bs: Seq<JsonV>, cs: Seq<JsonV>, n: nat)
    requires
        n <= bs.len(),
        n <= cs.len(),
        forall|k: int| 0 <= k < n ==> bs[k] == cs[k],
    ensures
        block_ttls(bs, n) == block_ttls(cs, n),
    decreases n,
{
    if n > 0 {
        lemma_block_ttls_prefix(bs, cs, (n - 1) as nat);
    }
}

proof fn lemma_message_ttls_all(ms: Seq<JsonV>, n: nat)
    requires
        n <= ms.len(),
        msgs_ok(ms),
    ensures
        forall|i: int| 0 <= i < message_ttls(ms, n).len() ==> message_ttls(ms, n)[i] == 300,
    decreases n,
{
    if n > 0 {
        lemma_message_ttls_all(ms, (n - 1) as nat);
        assert(msg_ok(ms[n - 1]));
        match json_get(ms[n - 1], "content"@) {
            Some(JsonV::Array(bs)) => {
                lemma_block_ttls_all(bs, bs.len(), 300);
            },
            _ => {},
        }
        let prev = message_ttls(ms, (n - 1) as nat);
        let tail = content_ttls(json_get(ms[n - 1], "content"@));
        assert forall|i: int| 0 <= i < (prev + tail).len() implies (prev + tail)[i] == 300 by {
            if i >= prev.len() {
                assert((prev + tail)[i] == tail[i - prev.len()]);
            }
        }
    }
}

proof fn lemma_role_message_content(role: Seq<char>, c: JsonV)
    ensures
        json_get(role_message(role, c), "content"@) == Some(c),
{
    reveal_strlit("role");
    reveal_strlit("content");
    let m = seq![("role"@, JsonV::Str(role)), ("content"@, c)];
    assert(m[0].0.len() != "content"@.len());
    lemma_member_at(m, "content"@, 1);
}

/// The keys of the parts built here all differ from `cache_control` in length.
proof fn lemma_unmarked_object(m: Seq<(Seq<char>, JsonV)>)
    requires
        forall|k: int| 0 <= k < m.len() ==> (#[trigger] m[k]).0.len() != 13,
    ensures
        unmarked(JsonV::Object(m)),
{
    reveal_strlit("cache_control");
    assert forall|k: int| 0 <= k < m.len() implies (#[trigger] m[k]).0 != "cache_control"@ by {
        assert(m[k].0.len() != "cache_control"@.len());
    }
    lemma_member_absent(m, "cache_control"@);
}

proof fn lemma_part_unmarked(p: MessageContentPart)
    ensures
        unmarked(claude_part(p)),
{
    reveal_strlit("type");
    reveal_strlit("source");
    reveal_strlit("url");
    match p {
        MessageContentPart::Text { text } => {
            lemma_text_part_unmarked(text@);
        },
        MessageContentPart::ImageUrl { image_url } => match data_url_parts(image_url.url@) {
            Some((mime, data)) => {
                let src = JsonV::Object(
                    seq![
                        ("type"@, JsonV::Str("base64"@)),
                        ("media_type"@, JsonV::Str(mime)),
                        ("data"@, JsonV::Str(data)),
                    ],
                );
                lemma_unmarked_object(seq![("type"@, JsonV::Str("image"@)), ("source"@, src)]);
            },
            None => {
                lemma_unmarked_object(seq![("url"@, JsonV::Str(image_url.url@))]);
            },
        },
    }
}

proof fn lemma_text_part_unmarked(t: Seq<char>)
    ensures
        unmarked(text_part(t)),
{
    reveal_strlit("type");
    reveal_strlit("text");
    lemma_unmarked_object(seq![("type"@, JsonV::Str("text"@)), ("text"@, JsonV::Str(t))]);
}

proof fn lemma_tool_parts_unmarked(r: ToolResult)
    ensures
        unmarked(tool_use_part(r)),
        unmarked(tool_result_part(r)),
{
    reveal_strlit("type");
    reveal_strlit("id");
    reveal_strlit("name");
    reveal_strlit("input");
    reveal_strlit("tool_use_id");
    reveal_strlit("content");
    lemma_unmarked_object(
        seq![
            ("type"@, JsonV::Str("tool_use"@)),
            ("id"@, opt_str_value(r.call.id)),
            ("name"@, JsonV::Str(r.call.name@)),
            ("input"@, r.call.arguments@),
        ],
    );
    lemma_unmarked_object(
        seq![
            ("type"@, JsonV::Str("tool_result"@)),
            ("tool_use_id"@, opt_str_value(r.call.id)),
            ("content"@, JsonV::Str(json_text(r.output@))),
        ],
    );
}

proof fn lemma_message_values_ok(m: Message, last: bool)
    ensures
        msgs_ok(claude_message_values(m, last)),
{
    let vals = claude_message_values(m, last);
    match m.content {
        MessageContent::Text(t) => {
            lemma_role_message_content(
                m.role.spec_name(),
                JsonV::Str(
                    if m.role == MessageRole::Assistant && !last {
                        strip_think(t@)
                    } else {
                        t@
                    },
                ),
            );
        },
        MessageContent::Array(parts) => {
            let bs = parts@.map_values(|p: MessageContentPart| claude_part(p));
            lemma_role_message_content(m.role.spec_name(), JsonV::Array(bs));
            assert forall|k: int| 0 <= k < bs.len() implies mark_ttl_is(#[trigger] bs[k], 300) by {
                lemma_part_unmarked(parts@[k]);
            }
        },
        MessageContent::ToolCalls(tc) => {
            let head = if tc.text@.len() > 0 {
                seq![text_part(tc.text@)]
            } else {
                Seq::empty()
            };
            let a = head + tc.tool_results@.map_values(|r: ToolResult| tool_use_part(r));
            let u = tc.tool_results@.map_values(|r: ToolResult| tool_result_part(r));
            lemma_role_message_content("assistant"@, JsonV::Array(a));
            lemma_role_message_content("user"@, JsonV::Array(u));
            lemma_text_part_unmarked(tc.text@);
            assert forall|k: int| 0 <= k < a.len() implies mark_ttl_is(#[trigger] a[k], 300) by {
                if k >= head.len() {
                    lemma_tool_parts_unmarked(tc.tool_results@[k - head.len()]);
                }
            }
            assert forall|k: int| 0 <= k < u.len() implies mark_ttl_is(#[trigger] u[k], 300) by {
                lemma_tool_parts_unmarked(tc.tool_results@[k]);
            }
            assert(msg_ok(vals[0]));
            assert(msg_ok(vals[1]));
        },
    }
}

proof fn lemma_claude_messages_ok(ms: Seq<Message>, n: nat)
    ensures
        msgs_ok(claude_messages(ms, n)),
    decreases n,
{
    if n > 0 && n <= ms.len() {
        lemma_claude_messages_ok(ms, (n - 1) as nat);
        let prev = claude_messages(ms, (n - 1) as nat);
        let vals = claude_message_values(ms[n - 1], n == ms.len());
        lemma_message_values_ok(ms[n - 1], n == ms.len());
        assert forall|k: int| 0 <= k < (prev + vals).len() implies msg_ok(
            #[trigger] (prev + vals)[k],
        ) by {
            if k < prev.len() {
                assert(msg_ok(prev[k]));
            } else {
                assert(msg_ok(vals[k - prev.len()]));
            }
        }
    }
}

proof fn lemma_ephemeral_ttl()
    ensures
        ttl_seconds(ephemeral()) == 300,
{
    reveal_strlit("type");
    reveal_strlit("ttl");
    assert("type"@.len() != "ttl"@.len());
    lemma_member_single("type"@, JsonV::Str("ephemeral"@), "ttl"@);
}

proof fn lemma_mark_message_ok(m: JsonV)
    requires
        msg_ok(m),
    ensures
        msg_ok(mark_message(m)),
{
    lemma_ephemeral_ttl();
    match json_get(m, "content"@) {
        Some(JsonV::Str(t)) => {
            let c = cached_text(t, ephemeral());
            lemma_set_key_get(m, "content"@, c);
            reveal_strlit("type");
            reveal_strlit("text");
            reveal_strlit("cache_control");
            let b = seq![
                ("type"@, JsonV::Str("text"@)),
                ("text"@, JsonV::Str(t)),
                ("cache_control"@, ephemeral()),
            ];
            assert(b[0].0.len() != "cache_control"@.len());
            assert(b[1].0.len() != "cache_control"@.len());
            lemma_member_at(b, "cache_control"@, 2);
            assert(mark_ttl_is(JsonV::Object(b), 300));
        },
        Some(JsonV::Array(a)) => {
            if a.len() > 0 {
                let x = set_key(a[a.len() - 1], "cache_control"@, ephemeral());
                let a2 = a.update(a.len() - 1, x);
                lemma_set_key_get(a[a.len() - 1], "cache_control"@, ephemeral());
                lemma_set_key_get(m, "content"@, JsonV::Array(a2));
                assert forall|k: int| 0 <= k < a2.len() implies mark_ttl_is(#[trigger] a2[k], 300) by {
                    if k < a.len() - 1 {
                        assert(a2[k] == a[k]);
                    }
                }
            }
        },
        _ => {},
    }
}

proof fn lemma_mark_at_ok(ms: Seq<JsonV>, i: int)
    requires
        msgs_ok(ms),
        0 <= i < ms.len(),
    ensures
        msgs_ok(ms.update(i, mark_message(ms[i]))),
{
    lemma_mark_message_ok(ms[i]);
    assert forall|k: int| 0 <= k < ms.len() implies msg_ok(
        #[trigger] ms.update(i, mark_message(ms[i]))[k],
    ) by {
        if k != i {
            assert(msg_ok(ms[k]));
        }
    }
}

proof fn lemma_last_with_role_bounds(ms: Seq<JsonV>, role: Seq<char>, n: int)
    ensures
        match last_with_role(ms, role, n) {
            Some(i) => 0 <= i < n,
            None => true,
        },
    decreases n,
{
    if n > 0 {
        lemma_last_with_role_bounds(ms, role, n - 1);
    }
}

proof fn lemma_first_with_role_bounds(ms: Seq<JsonV>, role: Seq<char>, lo: int, hi: int)
    ensures
        match first_with_role(ms, role, lo, hi) {
            Some(i) => lo <= i < hi,
            None => true,
        },
    decreases hi - lo,
{
    if lo < hi {
        lemma_first_with_role_bounds(ms, role, lo + 1, hi);
    }
}

proof fn lemma_cached_messages_ok(ms: Seq<JsonV>, blocks: Seq<(Seq<char>, Seq<char>, bool)>)
    requires
        msgs_ok(ms),
    ensures
        msgs_ok(cached_messages(ms, blocks)),
{
    lemma_ephemeral_ttl();
    let m1 = with_content_blocks(ms, blocks);
    if blocks.len() > 0 {
        lemma_last_with_role_bounds(ms, "user"@, ms.len() as int);
        match last_with_role(ms, "user"@, ms.len() as int) {
            Some(i) => {
                let bs = blocks.map_values(|b: (Seq<char>, Seq<char>, bool)| block_value(b));
                lemma_set_key_get(ms[i], "content"@, JsonV::Array(bs));
                reveal_strlit("type");
                reveal_strlit("text");
                reveal_strlit("cache_control");
                assert forall|k: int| 0 <= k < bs.len() implies mark_ttl_is(#[trigger] bs[k], 300) by {
                    let b = blocks[k];
                    if b.2 {
                        let mb = seq![
                            ("type"@, JsonV::Str("text"@)),
                            ("text"@, JsonV::Str(b.1)),
                            ("cache_control"@, ephemeral()),
                        ];
                        assert(mb[0].0.len() != "cache_control"@.len());
                        assert(mb[1].0.len() != "cache_control"@.len());
                        lemma_member_at(mb, "cache_control"@, 2);
                    } else {
                        lemma_unmarked_object(
                            seq![("type"@, JsonV::Str("text"@)), ("text"@, JsonV::Str(b.1))],
                        );
                    }
                }
                assert forall|k: int| 0 <= k < m1.len() implies msg_ok(#[trigger] m1[k]) by {
                    if k != i {
                        assert(msg_ok(ms[k]));
                    }
                }
            },
            None => {},
        }
    }
    assert(msgs_ok(m1));
    let m2 = mark_last_message(m1);
    if m1.len() > 1 {
        lemma_mark_at_ok(m1, m1.len() - 1);
    }
    let m3 = mark_history_end(m2);
    lemma_last_with_role_bounds(m2, "assistant"@, m2.len() - 1);
    match history_end(m2) {
        Some(i) => lemma_mark_at_ok(m2, i),
        None => {},
    }
    assert(msgs_ok(m3));
    lemma_last_with_role_bounds(m3, "assistant"@, m3.len() - 1);
    match stepping_stone(m3) {
        Some(t) => {
            let he = match history_end(m3) {
                Some(i) => i,
                None => 0,
            };
            lemma_first_with_role_bounds(m3, "user"@, he / 2, he);
            lemma_last_with_role_bounds(m3, "user"@, he / 2);
            lemma_mark_at_ok(m3, t);
        },
        None => {},
    }
}

/// The members of an optional member list.
pub proof fn lemma_member_opt(k: Seq<char>, v: Option<JsonV>)
    ensures
        forall|key: Seq<char>|
            #[trigger] member(opt_member(k, v), key) == if k == key {
                v
            } else {
                None::<JsonV>
            },
{
    assert forall|key: Seq<char>|
        #[trigger] member(opt_member(k, v), key) == if k == key {
            v
        } else {
            None::<JsonV>
        } by {
        match v {
            Some(x) => lemma_member_single(k, x, key),
            None => {},
        }
    }
}

proof fn lemma_stamp_last_ttls(t: Seq<JsonV>, cc: JsonV)
    requires
        forall|k: int| 0 <= k < t.len() ==> unmarked(#[trigger] t[k]) && t[k] is Object,
    ensures
        block_ttls(stamp_last(t, cc), t.len()) == if t.len() > 0 {
            seq![ttl_seconds(cc)]
        } else {
            Seq::<int>::empty()
        },
{
    if t.len() > 0 {
        let n = (t.len() - 1) as nat;
        let t2 = stamp_last(t, cc);
        lemma_block_ttls_prefix(t, t2, n);
        lemma_block_ttls_unmarked(t, n);
        lemma_set_key_get(t[t.len() - 1], "cache_control"@, cc);
        assert(block_ttls(t2, t.len()) =~= seq![ttl_seconds(cc)]);
    }
}

proof fn lemma_tools_shape(fs: Seq<FunctionDeclaration>)
    ensures
        ({
            let t = fs.map_values(|f: FunctionDeclaration| tool_value(f));
            forall|k: int| 0 <= k < t.len() ==> unmarked(#[trigger] t[k]) && t[k] is Object
        }),
{
    reveal_strlit("name");
    reveal_strlit("description");
    reveal_strlit("input_schema");
    let t = fs.map_values(|f: FunctionDeclaration| tool_value(f));
    assert forall|k: int| 0 <= k < t.len() implies unmarked(#[trigger] t[k]) && t[k] is Object by {
        let f = fs[k];
        lemma_unmarked_object(
            seq![
                ("name"@, JsonV::Str(f.name@)),
                ("description"@, JsonV::Str(f.description@)),
                ("input_schema"@, schema_value(f.parameters)),
            ],
        );
    }
}

proof fn lemma_cached_text_ttls(s: Seq<char>, cc: JsonV)
    ensures
        content_ttls(Some(cached_text(s, cc))) == seq![ttl_seconds(cc)],
{
    reveal_strlit("type");
    reveal_strlit("text");
    reveal_strlit("cache_control");
    let b = seq![("type"@, JsonV::Str("text"@)), ("text"@, JsonV::Str(s)), ("cache_control"@, cc)];
    assert(b[0].0.len() != "cache_control"@.len());
    assert(b[1].0.len() != "cache_control"@.len());
    lemma_member_at(b, "cache_control"@, 2);
    let bs = seq![JsonV::Object(b)];
    assert(block_ttls(bs, 0) =~= Seq::<int>::empty());
    assert(block_ttls(bs, 1) =~= seq![ttl_seconds(cc)]);
}

proof fn lemma_non_increasing(a: Seq<int>, b: Seq<int>, c: Seq<int>, t: int)
    requires
        t >= 300,
        forall|i: int| 0 <= i < a.len() ==> a[i] == t,
        forall|i: int| 0 <= i < b.len() ==> b[i] == t,
        forall|i: int| 0 <= i < c.len() ==> c[i] == 300,
    ensures
        forall|i: int, j: int| 0 <= i < j < (a + b + c).len() ==> (a + b + c)[i] >= (a + b + c)[j],
{
    let s = a + b + c;
    assert forall|i: int| 0 <= i < s.len() implies s[i] >= 300 && (i < a.len() + b.len() ==> s[i]
        == t) && (i >= a.len() + b.len() ==> s[i] == 300) by {
        if i < a.len() {
            assert(s[i] == a[i]);
        } else if i < a.len() + b.len() {
            assert(s[i] == b[i - a.len()]);
        } else {
            assert(s[i] == c[i - a.len() - b.len()]);
        }
    }
}

/// Whether a request body has a system block or a non-empty tool list.
pub open spec fn has_system_or_tools(body: JsonV) -> bool {
    json_get(body, "system"@) is Some || (json_get(body, "tools"@) matches Some(JsonV::Array(t))
        && t.len() > 0)
}

/// The messages API processes cache marks in a fixed order, tools, then system, then
/// messages, and refuses a request whose TTLs grow along that order: in every
/// body built, the TTLs never grow along that order.
pub proof fn lemma_claude_cache_ttls_non_increasing(d: ChatCompletionsData, model: Model)
    requires
        claude_body(d, model) is Ok,
    ensures
        ({
            let s = ttl_sequence(claude_body(d, model)->Ok_0);
            forall|i: int, j: int| 0 <= i < j < s.len() ==> s[i] >= s[j]
        }),
{
    lemma_claude_ttls(d, model);
}

/// A one-hour cache mark appears in a body built exactly when the model
/// supports the extended cache TTL and the body has a system block or a
/// non-empty tool list.
pub proof fn lemma_claude_hour_mark_iff(d: ChatCompletionsData, model: Model)
    requires
        claude_body(d, model) is Ok,
    ensures
        ({
            let body = claude_body(d, model)->Ok_0;
            ttl_sequence(body).contains(3600) <==> (extended_cache_family(lowercase(model.name@))
                && has_system_or_tools(body))
        }),
{
    lemma_claude_ttls(d, model);
}

proof fn lemma_ttl_of_system_cache_control(extended: bool)
    ensures
        ttl_seconds(system_cache_control(extended)) == if extended {
            3600int
        } else {
            300int
        },
{
    reveal_strlit("type");
    reveal_strlit("ttl");
    reveal_strlit("1h");
    reveal_strlit("ephemeral");
    assert("type"@.len() != "ttl"@.len());
    if extended {
        let m = seq![("type"@, JsonV::Str("ephemeral"@)), ("ttl"@, JsonV::Str("1h"@))];
        lemma_member_at(m, "ttl"@, 1);
    } else {
        let m = seq![("type"@, JsonV::Str("ephemeral"@))];
        lemma_member_absent(m, "ttl"@);
    }
}

proof fn lemma_claude_ttls(d: ChatCompletionsData, model: Model)
    requires
        claude_body(d, model) is Ok,
    ensures
        ({
            let s = ttl_sequence(claude_body(d, model)->Ok_0);
            forall|i: int, j: int| 0 <= i < j < s.len() ==> s[i] >= s[j]
        }),
        ({
            let body = claude_body(d, model)->Ok_0;
            ttl_sequence(body).contains(3600) <==> (extended_cache_family(lowercase(model.name@))
                && has_system_or_tools(body))
        }),
{
    let ms = after_system(d.messages@);
    let msgs = claude_messages(ms, ms.len());
    let system = system_prompt(d.messages@);
    let cache = system is Some || msgs.len() > 1 || d.functions is Some;
    let cc = system_cache_control(extended_cache_family(lowercase(model.name@)));
    let final_msgs = if cache {
        cached_messages(msgs, blocks_view(d.cache_content_blocks@))
    } else {
        msgs
    };
    let sys_v = match system {
        Some(s) => Some(
            if cache {
                cached_text(s, cc)
            } else {
                JsonV::Str(s)
            },
        ),
        None => None,
    };
    let max_v = if d.cache_warm {
        Some(int_value(1))
    } else {
        match model.spec_max_tokens_param() {
            Some(v) => Some(int_value(v)),
            None => None,
        }
    };
    let stream_v = if d.stream {
        Some(JsonV::Bool(true))
    } else {
        None
    };
    let tools_v = match d.functions {
        Some(fs) => {
            let t = sorted_by_name(fs@, fs@.len()).map_values(
                |f: FunctionDeclaration| tool_value(f),
            );
            Some(
                JsonV::Array(
                    if cache {
                        stamp_last(t, cc)
                    } else {
                        t
                    },
                ),
            )
        },
        None => None,
    };
    let s0 = seq![("model"@, JsonV::Str(model.spec_real_name())), ("messages"@, JsonV::Array(final_msgs))];
    let o1 = opt_member("system"@, sys_v);
    let o2 = opt_member("max_tokens"@, max_v);
    let o3 = opt_member("temperature"@, number_value(d.temperature));
    let o4 = opt_member("top_p"@, number_value(d.top_p));
    let o5 = opt_member("stream"@, stream_v);
    let o6 = opt_member("tools"@, tools_v);
    let m = s0 + o1 + o2 + o3 + o4 + o5 + o6;
    assert(claude_body(d, model)->Ok_0 == JsonV::Object(m));
    lemma_member_concat(s0, o1);
    lemma_member_concat(s0 + o1, o2);
    lemma_member_concat(s0 + o1 + o2, o3);
    lemma_member_concat(s0 + o1 + o2 + o3, o4);
    lemma_member_concat(s0 + o1 + o2 + o3 + o4, o5);
    lemma_member_concat(s0 + o1 + o2 + o3 + o4 + o5, o6);
    lemma_member_opt("system"@, sys_v);
    lemma_member_opt("max_tokens"@, max_v);
    lemma_member_opt("temperature"@, number_value(d.temperature));
    lemma_member_opt("top_p"@, number_value(d.top_p));
    lemma_member_opt("stream"@, stream_v);
    lemma_member_opt("tools"@, tools_v);
    reveal_strlit("model");
    reveal_strlit("messages");
    reveal_strlit("system");
    reveal_strlit("max_tokens");
    reveal_strlit("temperature");
    reveal_strlit("top_p");
    reveal_strlit("stream");
    reveal_strlit("tools");
    assert("model"@ != "tools"@ && "messages"@ != "tools"@ && "model"@ != "system"@
        && "messages"@ != "system"@ && "model"@ != "messages"@) by {
        assert("model"@[0] != "tools"@[0]);
        assert("messages"@.len() != "tools"@.len());
        assert("model"@.len() != "system"@.len());
        assert("messages"@.len() != "system"@.len());
        assert("model"@.len() != "messages"@.len());
    }
    assert("system"@ != "tools"@ && "max_tokens"@ != "tools"@ && "temperature"@ != "tools"@
        && "top_p"@ != "tools"@ && "stream"@ != "tools"@) by {
        assert("system"@.len() != "tools"@.len());
        assert("max_tokens"@.len() != "tools"@.len());
        assert("temperature"@.len() != "tools"@.len());
        assert("top_p"@[2] != "tools"@[2]);
        assert("stream"@.len() != "tools"@.len());
    }
    assert("max_tokens"@ != "system"@ && "temperature"@ != "system"@ && "top_p"@ != "system"@
        && "stream"@ != "system"@ && "tools"@ != "system"@) by {
        assert("max_tokens"@.len() != "system"@.len());
        assert("temperature"@.len() != "system"@.len());
        assert("top_p"@.len() != "system"@.len());
        assert("stream"@[1] != "system"@[1]);
        assert("tools"@.len() != "system"@.len());
    }
    assert("system"@ != "messages"@ && "max_tokens"@ != "messages"@ && "temperature"@
        != "messages"@ && "top_p"@ != "messages"@ && "stream"@ != "messages"@ && "tools"@
        != "messages"@) by {
        assert("system"@.len() != "messages"@.len());
        assert("max_tokens"@.len() != "messages"@.len());
        assert("temperature"@.len() != "messages"@.len());
        assert("top_p"@.len() != "messages"@.len());
        assert("stream"@.len() != "messages"@.len());
        assert("tools"@.len() != "messages"@.len());
    }
    lemma_member_absent(s0, "tools"@);
    lemma_member_absent(s0, "system"@);
    lemma_member_at(s0, "messages"@, 1);
    assert(json_get(JsonV::Object(m), "tools"@) == tools_v);
    assert(json_get(JsonV::Object(m), "system"@) == sys_v);
    assert(json_get(JsonV::Object(m), "messages"@) == Some(JsonV::Array(final_msgs)));
    let t_ttl = ttl_seconds(cc);
    // the tools' marks
    let a = content_ttls(tools_v);
    match d.functions {
        Some(fs) => {
            let t = sorted_by_name(fs@, fs@.len()).map_values(
                |f: FunctionDeclaration| tool_value(f),
            );
            lemma_tools_shape(sorted_by_name(fs@, fs@.len()));
            if cache {
                lemma_stamp_last_ttls(t, cc);
            } else {
                lemma_block_ttls_unmarked(t, t.len());
            }
        },
        None => {},
    }
    assert(forall|i: int| 0 <= i < a.len() ==> a[i] == t_ttl);
    // the system prompt's marks
    let b = content_ttls(sys_v);
    match system {
        Some(s) => {
            if cache {
                lemma_cached_text_ttls(s, cc);
            }
        },
        None => {},
    }
    assert(forall|i: int| 0 <= i < b.len() ==> b[i] == t_ttl);
    // the messages' marks
    lemma_claude_messages_ok(ms, ms.len());
    if cache {
        lemma_cached_messages_ok(msgs, blocks_view(d.cache_content_blocks@));
    }
    lemma_message_ttls_all(final_msgs, final_msgs.len());
    let c = message_ttls(final_msgs, final_msgs.len());
    assert(ttl_sequence(JsonV::Object(m)) == a + b + c);
    lemma_non_increasing(a, b, c, t_ttl);
    // where a one-hour mark can come from
    let ext = extended_cache_family(lowercase(model.name@));
    lemma_ttl_of_system_cache_control(ext);
    let sq = a + b + c;
    assert(a.len() > 0 <==> (json_get(JsonV::Object(m), "tools"@) matches Some(JsonV::Array(t))
        && t.len() > 0));
    assert(b.len() > 0 <==> json_get(JsonV::Object(m), "system"@) is Some);
    if ext && (a.len() > 0 || b.len() > 0) {
        if a.len() > 0 {
            assert(sq[0] == a[0]);
            assert(sq.contains(3600));
        } else {
            assert(sq[a.len() as int] == b[0]);
            assert(sq.contains(3600));
        }
    }
    if sq.contains(3600) {
        let i = choose|i: int| 0 <= i < sq.len() && sq[i] == 3600;
        if i < a.len() {
            assert(sq[i] == a[i]);
        } else if i < a.len() + b.len() {
            assert(sq[i] == b[i - a.len()]);
        } else {
            assert(sq[i] == c[i - a.len() - b.len()]);
        }
    }
}

/// The text, the reasoning and the tool calls the first `n` content items
/// of a messages API response give: text items joined by a blank line, the last
/// thinking item, the complete tool-use items.
pub open spec fn claude_scan(items: Seq<JsonV>, n: nat) -> (Seq<char>, Option<Seq<char>>, Seq<ToolCallV>)
    decreases n,
{
    if n == 0 || n > items.len() {
        (Seq::empty(), None, Seq::empty())
    } else {
        let (text, reasoning, calls) = claude_scan(items, (n - 1) as nat);
        let item = items[n - 1];
        let t = json_get_str(item, "type"@);
        if t == Some("thinking"@) {
            match json_get_str(item, "thinking"@) {
                Some(v) => (text, Some(v), calls),
                None => (text, reasoning, calls),
            }
        } else if t == Some("text"@) {
            match json_get_str(item, "text"@) {
                Some(v) => (
                    if text.len() > 0 {
                        text + "\n\n"@ + v
                    } else {
                        v
                    },
                    reasoning,
                    calls,
                ),
                None => (text, reasoning, calls),
            }
        } else if t == Some("tool_use"@) {
            match (json_get_str(item, "name"@), json_get(item, "input"@), json_get_str(item, "id"@)) {
                (Some(name), Some(input), Some(id)) => (
                    text,
                    reasoning,
                    calls.push((name, input, Some(id), None)),
                ),
                _ => (text, reasoning, calls),
            }
        } else {
            (text, reasoning, calls)
        }
    }
}

/// `data.usage[key]` read as an unsigned integer.
pub open spec fn usage_u64(data: JsonV, key: Seq<char>) -> Option<u64> {
    match json_get(data, "usage"@) {
        Some(u) => json_get_u64(u, key),
        None => None,
    }
}

/// The cache token counts of a response, when it reports either.
pub open spec fn cache_usage_extra(data: JsonV) -> Option<JsonV> {
    let creation = usage_u64(data, "cache_creation_input_tokens"@);
    let read = usage_u64(data, "cache_read_input_tokens"@);
    if creation is Some || read is Some {
        Some(
            JsonV::Object(
                seq![
                    ("cache_creation_input_tokens"@, opt_u64_value(creation)),
                    ("cache_read_input_tokens"@, opt_u64_value(read)),
                ],
            ),
        )
    } else {
        None
    }
}

/// What a messages API response gives, or the error for a response with neither
/// text nor tool calls. Reasoning comes first in the text, inside a
/// `<think>` block.
pub open spec fn claude_output(data: JsonV) -> Result<OutputV, Seq<char>> {
    let items = match json_get(data, "content"@) {
        Some(JsonV::Array(a)) => a,
        _ => Seq::empty(),
    };
    let (text0, reasoning, calls) = claude_scan(items, items.len());
    let text = match reasoning {
        Some(r) => "<think>\n"@ + r + "\n</think>\n\n"@ + text0,
        None => text0,
    };
    if text.len() == 0 && calls.len() == 0 {
        Err("Invalid response data: "@ + json_text(data))
    } else {
        Ok(
            (
                text,
                calls,
                json_get_str(data, "id"@),
                usage_u64(data, "input_tokens"@),
                usage_u64(data, "output_tokens"@),
                cache_usage_extra(data),
            ),
        )
    }
}

fn usage_u64_json(data: &Json, key: &str) -> (r: Option<u64>)
    ensures
        r == usage_u64(data@, key@),
{
    match get(data, "usage") {
        Some(u) => get_u64(u, key),
        None => None,
    }
}

fn opt_string(s: Option<&str>) -> (r: Option<String>)
    ensures
        match r {
            Some(t) => s.is_some() && t@ == s.unwrap()@,
            None => s.is_none(),
        },
{
    match s {
        Some(t) => Some(t.to_owned()),
        None => None,
    }
}

/// Reads a messages API response, as `claude_output` describes.
pub fn claude_extract_chat_completions(data: &Json) -> (res: Result<ChatCompletionsOutput, String>)
    ensures
        match res {
            Ok(out) => claude_output(data@) == Ok::<OutputV, Seq<char>>(out@),
            Err(e) => claude_output(data@) == Err::<OutputV, Seq<char>>(e@),
        },
{
    let empty: Vec<Json> = Vec::new();
    let items: &Vec<Json> = match get(data, "content") {
        Some(Json::Array(a)) => a,
        _ => &empty,
    };
    let ghost iv = items_view(items@, items@.len());
    proof {
        lemma_items_view(items@, items@.len());
        assert(items_view(empty@, 0) =~= Seq::<JsonV>::empty());
    }
    let mut text = String::new();
    let mut reasoning: Option<String> = None;
    let mut tool_calls: Vec<ToolCall> = Vec::new();
    let mut i: usize = 0;
    while i < items.len()
        invariant
            i <= items@.len(),
            iv == items_view(items@, items@.len()),
            iv.len() == items@.len(),
            forall|k: int| 0 <= k < items@.len() ==> #[trigger] iv[k] == items@[k]@,
            ({
                let (t, r, c) = claude_scan(iv, i as nat);
                &&& t == text@
                &&& r == match reasoning {
                    Some(x) => Some(x@),
                    None => None,
                }
                &&& c == tool_calls@.map_values(|x: ToolCall| x@)
            }),
        decreases items.len() - i,
    {
        let item = &items[i];
        let ghost prev_calls = tool_calls@;
        match get_str(item, "type") {
            Some(t) => {
                if str_eq(t, "thinking") {
                    match get_str(item, "thinking") {
                        Some(v) => {
                            reasoning = Some(v.to_owned());
                        },
                        None => {},
                    }
                } else if str_eq(t, "text") {
                    match get_str(item, "text") {
                        Some(v) => {
                            if !text.as_str().is_empty() {
                                push_str(&mut text, "\n\n");
                            }
                            push_str(&mut text, v);
                        },
                        None => {},
                    }
                } else if str_eq(t, "tool_use") {
                    match (get_str(item, "name"), get(item, "input"), get_str(item, "id")) {
                        (Some(name), Some(input), Some(id)) => {
                            let call = ToolCall::new(
                                name.to_owned(),
                                clone_json(input),
                                Some(id.to_owned()),
                            );
                            tool_calls.push(call);
                            assert(tool_calls@.map_values(|x: ToolCall| x@) =~= prev_calls.map_values(
                                |x: ToolCall| x@,
                            ).push(call@));
                        },
                        _ => {},
                    }
                }
            },
            None => {},
        }
        i = i + 1;
    }
    let mut out_text = match reasoning {
        Some(r) => {
            let mut t = String::new();
            push_str(&mut t, "<think>\n");
            push_str(&mut t, r.as_str());
            push_str(&mut t, "\n</think>\n\n");
            push_str(&mut t, text.as_str());
            t
        },
        None => text,
    };
    if out_text.as_str().is_empty() && tool_calls.len() == 0 {
        let mut e = String::new();
        push_str(&mut e, "Invalid response data: ");
        let dt = to_json_string(data);
        push_str(&mut e, dt.as_str());
        return Err(e);
    }
    let creation = usage_u64_json(data, "cache_creation_input_tokens");
    let read = usage_u64_json(data, "cache_read_input_tokens");
    let extra = if creation.is_some() || read.is_some() {
        let mut m: Vec<(String, Json)> = Vec::new();
        obj_push(&mut m, "cache_creation_input_tokens", opt_u64_json(creation));
        obj_push(&mut m, "cache_read_input_tokens", opt_u64_json(read));
        assert(members_view(Seq::<(String, Json)>::empty(), 0) =~= Seq::empty());
        assert(members_view(m@, m@.len()) =~= seq![
            ("cache_creation_input_tokens"@, opt_u64_value(creation)),
            ("cache_read_input_tokens"@, opt_u64_value(read)),
        ]);
        Some(jobject(m))
    } else {
        None
    };
    let out = ChatCompletionsOutput {
        text: out_text,
        tool_calls,
        id: opt_string(get_str(data, "id")),
        input_tokens: usage_u64_json(data, "input_tokens"),
        output_tokens: usage_u64_json(data, "output_tokens"),
        extra,
    };
    Ok(out)
}

/// What the streaming reader keeps between events: the tool call being
/// received (name, argument text, id) and whether a `<think>` block is open.
pub struct MessagesStreamState {
    pub function_name: String,
    pub function_arguments: String,
    pub function_id: String,
    pub reasoning: bool,
}

pub type StreamStateV = (Seq<char>, Seq<char>, Seq<char>, bool);

impl View for MessagesStreamState {
    type V = StreamStateV;

    open spec fn view(&self) -> StreamStateV {
        (self.function_name@, self.function_arguments@, self.function_id@, self.reasoning)
    }
}

/// What the caller does for a streamed event: hand on text, or hand on a
/// tool call whose arguments are the given JSON text.
pub enum StreamAction {
    Text(String),
    ToolCall { name: String, arguments: String, id: String },
}

pub enum StreamActionV {
    Text(Seq<char>),
    ToolCall(Seq<char>, Seq<char>, Seq<char>),
}

impl View for StreamAction {
    type V = StreamActionV;

    open spec fn view(&self) -> StreamActionV {
        match self {
            StreamAction::Text(t) => StreamActionV::Text(t@),
            StreamAction::ToolCall { name, arguments, id } => StreamActionV::ToolCall(
                name@,
                arguments@,
                id@,
            ),
        }
    }
}

/// `j[a][b]` as a string.
pub open spec fn nested_str(j: JsonV, a: Seq<char>, b: Seq<char>) -> Option<Seq<char>> {
    match json_get(j, a) {
        Some(x) => json_get_str(x, b),
        None => None,
    }
}

/// The state after one event of the messages stream and the actions it calls for.
/// A tool-use block start hands on the call received so far, if any; a
/// block stop closes an open `<think>` block and hands on the current call,
/// with `{}` for empty arguments.
pub open spec fn claude_stream_step(st: StreamStateV, data: JsonV) -> (StreamStateV, Seq<StreamActionV>) {
    let (name, args, id, reasoning) = st;
    let t = json_get_str(data, "type"@);
    if t == Some("content_block_start"@) {
        match (
            nested_str(data, "content_block"@, "type"@),
            nested_str(data, "content_block"@, "name"@),
            nested_str(data, "content_block"@, "id"@),
        ) {
            (Some(ty), Some(new_name), Some(new_id)) => if ty == "tool_use"@ {
                (
                    (new_name, Seq::empty(), new_id, reasoning),
                    if name.len() > 0 {
                        seq![StreamActionV::ToolCall(name, args, id)]
                    } else {
                        Seq::empty()
                    },
                )
            } else {
                (st, Seq::empty())
            },
            _ => (st, Seq::empty()),
        }
    } else if t == Some("content_block_delta"@) {
        match nested_str(data, "delta"@, "text"@) {
            Some(x) => (st, seq![StreamActionV::Text(x)]),
            None => match nested_str(data, "delta"@, "thinking"@) {
                Some(x) => if reasoning {
                    (st, seq![StreamActionV::Text(x)])
                } else {
                    (
                        (name, args, id, true),
                        seq![StreamActionV::Text("<think>\n"@), StreamActionV::Text(x)],
                    )
                },
                None => match nested_str(data, "delta"@, "partial_json"@) {
                    Some(p) => if name.len() > 0 {
                        ((name, args + p, id, reasoning), Seq::empty())
                    } else {
                        (st, Seq::empty())
                    },
                    None => (st, Seq::empty()),
                },
            },
        }
    } else if t == Some("content_block_stop"@) {
        (
            (name, args, id, false),
            (if reasoning {
                seq![StreamActionV::Text("\n</think>\n\n"@)]
            } else {
                Seq::empty()
            }) + if name.len() > 0 {
                seq![
                    StreamActionV::ToolCall(
                        name,
                        if args.len() > 0 {
                            args
                        } else {
                            "{}"@
                        },
                        id,
                    ),
                ]
            } else {
                Seq::empty()
            },
        )
    } else {
        (st, Seq::empty())
    }
}

pub(crate) fn nested_str_json<'a>(j: &'a Json, a: &str, b: &str) -> (r: Option<&'a str>)
    ensures
        match r {
            Some(s) => nested_str(j@, a@, b@) == Some(s@),
            None => nested_str(j@, a@, b@) is None,
        },
{
    match get(j, a) {
        Some(x) => get_str(x, b),
        None => None,
    }
}

impl MessagesStreamState {
    /// The state before the first event.
    pub fn new() -> (res: Self)
        ensures
            res@ == (Seq::<char>::empty(), Seq::<char>::empty(), Seq::<char>::empty(), false),
    {
        MessagesStreamState {
            function_name: String::new(),
            function_arguments: String::new(),
            function_id: String::new(),
            reasoning: false,
        }
    }

    /// Takes one event of the stream, as `claude_stream_step` describes.
    pub fn step(&mut self, data: &Json) -> (actions: Vec<StreamAction>)
        ensures
            claude_stream_step(old(self)@, data@) == (
                final(self)@,
                actions@.map_values(|a: StreamAction| a@),
            ),
    {
        let mut actions: Vec<StreamAction> = Vec::new();
        let t = get_str(data, "type");
        let is = |s: &str| -> (r: bool)
            ensures
                r == (t.is_some() && t.unwrap()@ == s@),
            {
                match t {
                    Some(x) => str_eq(x, s),
                    None => false,
                }
            };
        if is("content_block_start") {
            match (
                nested_str_json(data, "content_block", "type"),
                nested_str_json(data, "content_block", "name"),
                nested_str_json(data, "content_block", "id"),
            ) {
                (Some(ty), Some(name), Some(id)) => {
                    if str_eq(ty, "tool_use") {
                        if !self.function_name.as_str().is_empty() {
                            actions.push(
                                StreamAction::ToolCall {
                                    name: self.function_name.clone(),
                                    arguments: self.function_arguments.clone(),
                                    id: self.function_id.clone(),
                                },
                            );
                        }
                        self.function_name = name.to_owned();
                        self.function_arguments = String::new();
                        self.function_id = id.to_owned();
                    }
                },
                _ => {},
            }
        } else if is("content_block_delta") {
            match nested_str_json(data, "delta", "text") {
                Some(x) => {
                    actions.push(StreamAction::Text(x.to_owned()));
                },
                None => match nested_str_json(data, "delta", "thinking") {
                    Some(x) => {
                        if !self.reasoning {
                            actions.push(StreamAction::Text("<think>\n".to_owned()));
                            self.reasoning = true;
                        }
                        actions.push(StreamAction::Text(x.to_owned()));
                    },
                    None => match nested_str_json(data, "delta", "partial_json") {
                        Some(p) => {
                            if !self.function_name.as_str().is_empty() {
                                push_str(&mut self.function_arguments, p);
                            }
                        },
                        None => {},
                    },
                },
            }
        } else if is("content_block_stop") {
            if self.reasoning {
                actions.push(StreamAction::Text("\n</think>\n\n".to_owned()));
                self.reasoning = false;
            }
            if !self.function_name.as_str().is_empty() {
                let arguments = if self.function_arguments.as_str().is_empty() {
                    "{}".to_owned()
                } else {
                    self.function_arguments.clone()
                };
                actions.push(
                    StreamAction::ToolCall {
                        name: self.function_name.clone(),
                        arguments,
                        id: self.function_id.clone(),
                    },
                );
            }
        }
        assert(actions@.map_values(|a: StreamAction| a@) =~= claude_stream_step(
            old(self)@,
            data@,
        ).1);
        actions
    }
}


/// An object whose first member is `role`.
pub open spec fn role_first(v: JsonV) -> bool {
    &&& v is Object
    &&& v->Object_0.len() > 0
    &&& v->Object_0[0].0 == "role"@
}

/// A content that a cache breakpoint can go on: a string, or an array of objects.
pub open spec fn markable_content(c: JsonV) -> bool {
    ||| c is Str
    ||| (c is Array && forall|k: int|
        0 <= k < c->Array_0.len() ==> (#[trigger] c->Array_0[k]) is Object)
}

/// Every message of `b` is its counterpart in `a` with the `role` member kept in front.
pub open spec fn heads_kept(a: Seq<JsonV>, b: Seq<JsonV>) -> bool {
    &&& a.len() == b.len()
    &&& forall|j: int|
        0 <= j < a.len() ==> role_first(#[trigger] b[j]) && b[j]->Object_0[0] == a[j]->Object_0[0]
}

proof fn lemma_set_content_keeps_head(v: JsonV, x: JsonV)
    requires
        role_first(v),
    ensures
        role_first(set_key(v, "content"@, x)),
        set_key(v, "content"@, x)->Object_0[0] == v->Object_0[0],
{
    reveal_strlit("role");
    reveal_strlit("content");
    assert("role"@[0] != "content"@[0]);
    let m = v->Object_0;
    lemma_find_member(m, "content"@);
}

proof fn lemma_mark_keeps_head(v: JsonV)
    requires
        role_first(v),
    ensures
        role_first(mark_message(v)),
        mark_message(v)->Object_0[0] == v->Object_0[0],
{
    match json_get(v, "content"@) {
        Some(JsonV::Str(t)) => lemma_set_content_keeps_head(v, cached_text(t, ephemeral())),
        Some(JsonV::Array(a)) => if a.len() > 0 {
            lemma_set_content_keeps_head(
                v,
                JsonV::Array(
                    a.update(a.len() - 1, set_key(a[a.len() - 1], "cache_control"@, ephemeral())),
                ),
            );
        },
        _ => {},
    }
}

proof fn lemma_heads_update(a: Seq<JsonV>, k: int, x: JsonV)
    requires
        forall|j: int| 0 <= j < a.len() ==> role_first(#[trigger] a[j]),
        0 <= k < a.len(),
        role_first(x),
        x->Object_0[0] == a[k]->Object_0[0],
    ensures
        heads_kept(a, a.update(k, x)),
{
}

proof fn lemma_heads_trans(a: Seq<JsonV>, b: Seq<JsonV>, c: Seq<JsonV>)
    requires
        heads_kept(a, b),
        heads_kept(b, c),
    ensures
        heads_kept(a, c),
{
    assert forall|j: int| 0 <= j < a.len() implies role_first(#[trigger] c[j]) && c[j]->Object_0[0]
        == a[j]->Object_0[0] by {
        assert(role_first(b[j]));
    }
}

proof fn lemma_heads_refl(a: Seq<JsonV>)
    requires
        forall|j: int| 0 <= j < a.len() ==> role_first(#[trigger] a[j]),
    ensures
        heads_kept(a, a),
{
}

/// Messages with the same `role` member in front have the same role.
proof fn lemma_heads_roles(a: Seq<JsonV>, b: Seq<JsonV>, r: Seq<char>)
    requires
        forall|j: int| 0 <= j < a.len() ==> role_first(#[trigger] a[j]),
        heads_kept(a, b),
    ensures
        forall|j: int| 0 <= j < a.len() ==> (role_is(#[trigger] b[j], r) == role_is(a[j], r)),
{
    assert forall|j: int| 0 <= j < a.len() implies (role_is(#[trigger] b[j], r) == role_is(a[j], r)) by {
        assert(role_first(b[j]));
        assert(json_get(b[j], "role"@) == Some(b[j]->Object_0[0].1));
        assert(json_get(a[j], "role"@) == Some(a[j]->Object_0[0].1));
    }
}

proof fn lemma_last_with_role_found(ms: Seq<JsonV>, role: Seq<char>, n: int)
    ensures
        match last_with_role(ms, role, n) {
            Some(i) => 0 <= i < n && role_is(ms[i], role),
            None => true,
        },
    decreases n,
{
    if n > 0 {
        lemma_last_with_role_found(ms, role, n - 1);
    }
}

/// The last message with a role before `n` is the one `last_with_role` finds.
proof fn lemma_last_with_role_is(ms: Seq<JsonV>, role: Seq<char>, n: int, i: int)
    requires
        0 <= i < n,
        role_is(ms[i], role),
        forall|j: int| i < j < n ==> !role_is(#[trigger] ms[j], role),
    ensures
        last_with_role(ms, role, n) == Some(i),
    decreases n,
{
    if n - 1 > i {
        assert(!role_is(ms[n - 1], role));
        lemma_last_with_role_is(ms, role, n - 1, i);
    }
}

/// Each message the chat messages become has its role in front and a
/// content a breakpoint can go on.
proof fn lemma_claude_messages_markable(ms: Seq<Message>, n: nat)
    ensures
        forall|k: int|
            0 <= k < claude_messages(ms, n).len() ==> role_first(#[trigger] claude_messages(ms, n)[k])
                && (json_get(claude_messages(ms, n)[k], "content"@) matches Some(c)
                && markable_content(c)),
    decreases n,
{
    if n > 0 && n <= ms.len() {
        lemma_claude_messages_markable(ms, (n - 1) as nat);
        let prev = claude_messages(ms, (n - 1) as nat);
        let m = ms[n - 1];
        let vals = claude_message_values(m, n == ms.len());
        match m.content {
            MessageContent::Text(t) => {
                lemma_role_message_content(
                    m.role.spec_name(),
                    JsonV::Str(
                        if m.role == MessageRole::Assistant && !(n == ms.len()) {
                            strip_think(t@)
                        } else {
                            t@
                        },
                    ),
                );
            },
            MessageContent::Array(parts) => {
                let bs = parts@.map_values(|p: MessageContentPart| claude_part(p));
                lemma_role_message_content(m.role.spec_name(), JsonV::Array(bs));
                assert forall|k: int| 0 <= k < bs.len() implies (#[trigger] bs[k]) is Object by {
                    let p = parts@[k];
                    match p {
                        MessageContentPart::Text { text } => {},
                        MessageContentPart::ImageUrl { image_url } => {},
                    }
                }
            },
            MessageContent::ToolCalls(tc) => {
                let head = if tc.text@.len() > 0 {
                    seq![text_part(tc.text@)]
                } else {
                    Seq::empty()
                };
                let a = head + tc.tool_results@.map_values(|r: ToolResult| tool_use_part(r));
                let u = tc.tool_results@.map_values(|r: ToolResult| tool_result_part(r));
                lemma_role_message_content("assistant"@, JsonV::Array(a));
                lemma_role_message_content("user"@, JsonV::Array(u));
                assert forall|k: int| 0 <= k < a.len() implies (#[trigger] a[k]) is Object by {
                    if k >= head.len() {
                        assert(a[k] == tool_use_part(tc.tool_results@[k - head.len()]));
                    }
                }
                assert forall|k: int| 0 <= k < u.len() implies (#[trigger] u[k]) is Object by {
                    assert(u[k] == tool_result_part(tc.tool_results@[k]));
                }
            },
        }
        assert forall|k: int|
            0 <= k < vals.len() implies role_first(#[trigger] vals[k]) && (json_get(
                vals[k],
                "content"@,
            ) matches Some(c) && markable_content(c)) by {
            reveal_strlit("role");
        }
        assert forall|k: int|
            0 <= k < claude_messages(ms, n).len() implies role_first(
                #[trigger] claude_messages(ms, n)[k],
            ) && (json_get(claude_messages(ms, n)[k], "content"@) matches Some(c)
                && markable_content(c)) by {
            if k < prev.len() {
                assert(claude_messages(ms, n)[k] == prev[k]);
            } else {
                assert(claude_messages(ms, n)[k] == vals[k - prev.len()]);
            }
        }
    }
}

/// A breakpoint put on a message whose content can take one leaves that
/// content an array whose last block (if any) carries `{"type": "ephemeral"}`.
proof fn lemma_mark_message_marks(m: JsonV, c: JsonV)
    requires
        m is Object,
        json_get(m, "content"@) == Some(c),
        markable_content(c),
    ensures
        json_get(mark_message(m), "content"@) matches Some(JsonV::Array(a)) && (a.len() > 0
            ==> json_get(a.last(), "cache_control"@) == Some(ephemeral())),
{
    match c {
        JsonV::Str(t) => {
            let x = cached_text(t, ephemeral());
            lemma_set_key_get(m, "content"@, x);
            reveal_strlit("type");
            reveal_strlit("text");
            reveal_strlit("cache_control");
            let b = seq![
                ("type"@, JsonV::Str("text"@)),
                ("text"@, JsonV::Str(t)),
                ("cache_control"@, ephemeral()),
            ];
            assert(b[0].0.len() != "cache_control"@.len());
            assert(b[1].0.len() != "cache_control"@.len());
            lemma_member_at(b, "cache_control"@, 2);
        },
        JsonV::Array(a) => {
            if a.len() > 0 {
                let y = set_key(a[a.len() - 1], "cache_control"@, ephemeral());
                let a2 = a.update(a.len() - 1, y);
                assert(a[a.len() - 1] is Object);
                lemma_set_key_get(a[a.len() - 1], "cache_control"@, ephemeral());
                lemma_set_key_get(m, "content"@, JsonV::Array(a2));
            }
        },
        _ => {},
    }
}

/// The `messages` member of a messages API body.
proof fn lemma_claude_body_messages(d: ChatCompletionsData, model: Model)
    requires
        claude_body(d, model) is Ok,
    ensures
        ({
            let ms = after_system(d.messages@);
            let msgs = claude_messages(ms, ms.len());
            let cache = system_prompt(d.messages@) is Some || msgs.len() > 1
                || d.functions is Some;
            json_get(claude_body(d, model)->Ok_0, "messages"@) == Some(
                JsonV::Array(
                    if cache {
                        cached_messages(msgs, blocks_view(d.cache_content_blocks@))
                    } else {
                        msgs
                    },
                ),
            )
        }),
{
    let ms = after_system(d.messages@);
    let msgs = claude_messages(ms, ms.len());
    let cache = system_prompt(d.messages@) is Some || msgs.len() > 1 || d.functions is Some;
    let final_msgs = if cache {
        cached_messages(msgs, blocks_view(d.cache_content_blocks@))
    } else {
        msgs
    };
    let body = claude_body(d, model)->Ok_0;
    let mb = match body {
        JsonV::Object(m) => m,
        _ => Seq::empty(),
    };
    let s0 = seq![
        ("model"@, JsonV::Str(model.spec_real_name())),
        ("messages"@, JsonV::Array(final_msgs)),
    ];
    let rest = mb.subrange(2, mb.len() as int);
    assert(mb =~= s0 + rest);
    lemma_member_concat(s0, rest);
    reveal_strlit("model");
    reveal_strlit("messages");
    assert("model"@[1] != "messages"@[1]);
    assert(s0.drop_first()[0] == ("messages"@, JsonV::Array(final_msgs)));
    assert(member(s0.drop_first(), "messages"@) == Some(JsonV::Array(final_msgs)));
}

/// In a multi-turn body the final message carries a cache breakpoint: its
/// content is an array whose last block has `cache_control`
/// `{"type": "ephemeral"}`.
pub proof fn lemma_claude_last_message_marked(d: ChatCompletionsData, model: Model)
    requires
        claude_body(d, model) is Ok,
    ensures
        ({
            let body = claude_body(d, model)->Ok_0;
            json_get(body, "messages"@) matches Some(JsonV::Array(out)) && (out.len() > 1 ==> (
            json_get(out.last(), "content"@) matches Some(JsonV::Array(a)) && (a.len() > 0
                ==> json_get(a.last(), "cache_control"@) == Some(
                JsonV::Object(seq![("type"@, JsonV::Str("ephemeral"@))]),
            ))))
        }),
{
    let ms = after_system(d.messages@);
    let msgs = claude_messages(ms, ms.len());
    let system = system_prompt(d.messages@);
    let cache = system is Some || msgs.len() > 1 || d.functions is Some;
    let blocks = blocks_view(d.cache_content_blocks@);
    let out = if cache {
        cached_messages(msgs, blocks)
    } else {
        msgs
    };
    lemma_claude_body_messages(d, model);
    let n = msgs.len();
    if out.len() > 1 {
        assert(cache);
        lemma_claude_messages_markable(ms, ms.len());
        let m1 = with_content_blocks(msgs, blocks);
        lemma_last_with_role_found(msgs, "user"@, n as int);
        assert forall|k: int| 0 <= k < n implies (#[trigger] m1[k]) is Object && (json_get(
            m1[k],
            "content"@,
        ) matches Some(c) && markable_content(c)) by {
            assert(role_first(msgs[k]));
            if blocks.len() > 0 {
                match last_with_role(msgs, "user"@, n as int) {
                    Some(u) => {
                        if k == u {
                            let bv = blocks.map_values(
                                |b: (Seq<char>, Seq<char>, bool)| block_value(b),
                            );
                            lemma_set_key_get(msgs[u], "content"@, JsonV::Array(bv));
                            lemma_set_content_keeps_head(msgs[u], JsonV::Array(bv));
                            assert forall|q: int| 0 <= q < bv.len() implies (#[trigger] bv[q]) is Object by {
                                assert(bv[q] == block_value(blocks[q]));
                            }
                        }
                    },
                    None => {},
                }
            }
        }
        let m2 = mark_last_message(m1);
        let m3 = mark_history_end(m2);
        lemma_last_with_role_bounds(m2, "assistant"@, n - 1);
        let m4 = mark_stepping_stone(m3);
        lemma_last_with_role_bounds(m3, "assistant"@, n - 1);
        match stepping_stone(m3) {
            Some(t) => {
                let he = match history_end(m3) {
                    Some(h) => h,
                    None => 0,
                };
                lemma_first_with_role_bounds(m3, "user"@, he / 2, he);
                lemma_last_with_role_bounds(m3, "user"@, he / 2);
            },
            None => {},
        }
        assert(m4 == out);
        assert(m4[n - 1] == mark_message(m1[n - 1]));
        let c = json_get(m1[n - 1], "content"@)->Some_0;
        lemma_mark_message_marks(m1[n - 1], c);
    }
}

/// In a body built from more than three messages, the last assistant
/// message before the final one carries a cache breakpoint: its content is
/// an array whose last block has `cache_control` `{"type": "ephemeral"}`
/// (a string content is turned into one such block).
pub proof fn lemma_claude_history_end_marked(d: ChatCompletionsData, model: Model, i: int)
    requires
        claude_body(d, model) is Ok,
    ensures
        ({
            let body = claude_body(d, model)->Ok_0;
            json_get(body, "messages"@) matches Some(JsonV::Array(out)) && ((out.len() > 3 && 0 <= i
                < out.len() - 1 && json_get_str(out[i], "role"@) == Some("assistant"@) && (forall|
                j: int,
            |
                i < j < out.len() - 1 ==> json_get_str(#[trigger] out[j], "role"@) != Some(
                    "assistant"@,
                ))) ==> (json_get(out[i], "content"@) matches Some(JsonV::Array(a)) && (a.len()
                > 0 ==> json_get(a.last(), "cache_control"@) == Some(
                JsonV::Object(seq![("type"@, JsonV::Str("ephemeral"@))]),
            ))))
        }),
{
    let ms = after_system(d.messages@);
    let msgs = claude_messages(ms, ms.len());
    let system = system_prompt(d.messages@);
    let cache = system is Some || msgs.len() > 1 || d.functions is Some;
    let blocks = blocks_view(d.cache_content_blocks@);
    let final_msgs = if cache {
        cached_messages(msgs, blocks)
    } else {
        msgs
    };
    lemma_claude_body_messages(d, model);
    let out = final_msgs;
    let n = msgs.len();
    if out.len() > 3 && 0 <= i < out.len() - 1 && json_get_str(out[i], "role"@) == Some(
        "assistant"@,
    ) && (forall|j: int|
        i < j < out.len() - 1 ==> json_get_str(#[trigger] out[j], "role"@) != Some("assistant"@)) {
        lemma_claude_messages_markable(ms, ms.len());
        assert(forall|j: int| 0 <= j < n ==> role_first(#[trigger] msgs[j]));
        assert(cache);
        // The stages of the breakpoint placement, each keeping every role in front.
        let m1 = with_content_blocks(msgs, blocks);
        lemma_last_with_role_found(msgs, "user"@, n as int);
        if blocks.len() > 0 {
            match last_with_role(msgs, "user"@, n as int) {
                Some(u) => {
                    let x = set_key(
                        msgs[u],
                        "content"@,
                        JsonV::Array(
                            blocks.map_values(|b: (Seq<char>, Seq<char>, bool)| block_value(b)),
                        ),
                    );
                    lemma_set_content_keeps_head(
                        msgs[u],
                        JsonV::Array(
                            blocks.map_values(|b: (Seq<char>, Seq<char>, bool)| block_value(b)),
                        ),
                    );
                    lemma_heads_update(msgs, u, x);
                },
                None => lemma_heads_refl(msgs),
            }
        } else {
            lemma_heads_refl(msgs);
        }
        assert(heads_kept(msgs, m1));
        let m2 = mark_last_message(m1);
        lemma_mark_keeps_head(m1[n - 1]);
        lemma_heads_update(m1, n - 1, mark_message(m1[n - 1]));
        lemma_heads_trans(msgs, m1, m2);
        let m3 = mark_history_end(m2);
        lemma_last_with_role_bounds(m2, "assistant"@, n - 1);
        match history_end(m2) {
            Some(h) => {
                lemma_mark_keeps_head(m2[h]);
                lemma_heads_update(m2, h, mark_message(m2[h]));
            },
            None => lemma_heads_refl(m2),
        }
        lemma_heads_trans(msgs, m2, m3);
        let m4 = mark_stepping_stone(m3);
        lemma_last_with_role_bounds(m3, "assistant"@, n - 1);
        match stepping_stone(m3) {
            Some(t) => {
                let he = match history_end(m3) {
                    Some(h) => h,
                    None => 0,
                };
                lemma_first_with_role_bounds(m3, "user"@, he / 2, he);
                lemma_last_with_role_bounds(m3, "user"@, he / 2);
                lemma_mark_keeps_head(m3[t]);
                lemma_heads_update(m3, t, mark_message(m3[t]));
            },
            None => lemma_heads_refl(m3),
        }
        assert(m4 == out);
        lemma_heads_trans(m2, m3, m4);
        lemma_heads_trans(msgs, m3, m4);
        // The roles at every stage are those of the result.
        lemma_heads_roles(msgs, m4, "assistant"@);
        lemma_heads_roles(msgs, m2, "assistant"@);
        lemma_heads_roles(msgs, m3, "assistant"@);
        lemma_heads_roles(msgs, m4, "user"@);
        assert(role_is(msgs[i], "assistant"@));
        assert forall|j: int| i < j < n - 1 implies !role_is(#[trigger] m2[j], "assistant"@) by {
            assert(!role_is(out[j], "assistant"@));
        }
        assert forall|j: int| i < j < n - 1 implies !role_is(#[trigger] m3[j], "assistant"@) by {
            assert(!role_is(out[j], "assistant"@));
        }
        // The message at `i` is untouched until the history end marks it.
        reveal_strlit("user");
        reveal_strlit("assistant");
        assert("user"@.len() != "assistant"@.len());
        assert(m1[i] == msgs[i]);
        assert(m2[i] == msgs[i]);
        lemma_last_with_role_is(m2, "assistant"@, n - 1, i);
        assert(m3[i] == mark_message(msgs[i]));
        lemma_last_with_role_is(m3, "assistant"@, n - 1, i);
        assert(m4[i] == m3[i]);
        let c = json_get(msgs[i], "content"@)->Some_0;
        lemma_mark_message_marks(msgs[i], c);
    }
}

/// The text of a thinking delta event: a `content_block_delta` whose delta
/// carries no `text` string and a `thinking` string; `None` for any other event.
pub open spec fn thinking_delta_text(data: JsonV) -> Option<Seq<char>> {
    if json_get_str(data, "type"@) == Some("content_block_delta"@) {
        match json_get(data, "delta"@) {
            Some(d) => if json_get_str(d, "text"@) is Some {
                None
            } else {
                json_get_str(d, "thinking"@)
            },
            None => None,
        }
    } else {
        None
    }
}

/// Whether an event ends a content block.
pub open spec fn is_block_stop(data: JsonV) -> bool {
    json_get_str(data, "type"@) == Some("content_block_stop"@)
}

/// The reader's state after taking the events in order.
pub open spec fn claude_stream_after(st: StreamStateV, events: Seq<JsonV>) -> StreamStateV
    decreases events.len(),
{
    if events.len() == 0 {
        st
    } else {
        claude_stream_after(claude_stream_step(st, events[0]).0, events.drop_first())
    }
}

/// Once a `<think>` block is open, events that do not stop a block keep it open.
proof fn lemma_think_kept_open(st: StreamStateV, events: Seq<JsonV>)
    requires
        st.3,
        forall|i: int| 0 <= i < events.len() ==> !is_block_stop(#[trigger] events[i]),
    ensures
        claude_stream_after(st, events).3,
    decreases events.len(),
{
    if events.len() > 0 {
        let e = events[0];
        assert(!is_block_stop(e));
        let s1 = claude_stream_step(st, e).0;
        assert(s1.3);
        assert forall|i: int| 0 <= i < events.drop_first().len() implies !is_block_stop(
            #[trigger] events.drop_first()[i],
        ) by {
            assert(events.drop_first()[i] == events[i + 1]);
        }
        lemma_think_kept_open(s1, events.drop_first());
    }
}

/// Within one content block, `<think>` is opened at most once: after a
/// thinking delta, every later thinking delta before the next block stop
/// hands on exactly its own text and nothing else.
pub proof fn lemma_claude_think_opened_once(
    st: StreamStateV,
    events: Seq<JsonV>,
    n: int,
    x: Seq<char>,
)
    requires
        0 < n < events.len(),
        thinking_delta_text(events[0]) is Some,
        forall|i: int| 0 <= i < n ==> !is_block_stop(#[trigger] events[i]),
        thinking_delta_text(events[n]) == Some(x),
    ensures
        claude_stream_step(claude_stream_after(st, events.take(n)), events[n]).1 == seq![
            StreamActionV::Text(x),
        ],
{
    reveal_strlit("content_block_start");
    reveal_strlit("content_block_delta");
    assert("content_block_start"@ != "content_block_delta"@) by {
        assert("content_block_start"@[14] != "content_block_delta"@[14]);
    }
    let e0 = events[0];
    let s1 = claude_stream_step(st, e0).0;
    assert(s1.3);
    let rest = events.take(n).drop_first();
    assert forall|i: int| 0 <= i < rest.len() implies !is_block_stop(#[trigger] rest[i]) by {
        assert(rest[i] == events[i + 1]);
    }
    lemma_think_kept_open(s1, rest);
    assert(events.take(n)[0] == e0);
    assert(claude_stream_after(st, events.take(n)) == claude_stream_after(s1, rest));
}


/// The `<think>` tags are balanced around a content block: after a block
/// stop, a thinking delta opens the block with `<think>` and then hands on its
/// text; after a thinking delta, a block stop first closes the block.
pub proof fn lemma_claude_think_tags_balanced(
    st: StreamStateV,
    stop: JsonV,
    think: JsonV,
    x: Seq<char>,
)
    requires
        is_block_stop(stop),
        thinking_delta_text(think) == Some(x),
    ensures
        claude_stream_step(claude_stream_step(st, stop).0, think).1 == seq![
            StreamActionV::Text("<think>\n"@),
            StreamActionV::Text(x),
        ],
        claude_stream_step(claude_stream_step(st, think).0, stop).1.len() > 0,
        claude_stream_step(claude_stream_step(st, think).0, stop).1[0] == StreamActionV::Text(
            "\n</think>\n\n"@,
        ),
{
    reveal_strlit("content_block_start");
    reveal_strlit("content_block_delta");
    reveal_strlit("content_block_stop");
    assert("content_block_start"@ != "content_block_delta"@) by {
        assert("content_block_start"@[14] != "content_block_delta"@[14]);
    }
    assert("content_block_stop"@.len() != "content_block_delta"@.len());
    assert("content_block_stop"@.len() != "content_block_start"@.len());
    let s1 = claude_stream_step(st, stop).0;
    assert(!s1.3);
    let s2 = claude_stream_step(st, think).0;
    assert(s2.3);
}

/// The API base used when none is configured.
pub const API_BASE: &'static str = "https://api.anthropic.com/v1";

/// `s` without the trailing `c`s.
pub open spec fn trim_end_char(s: Seq<char>, c: char) -> Seq<char>
    decreases s.len(),
{
    if s.len() > 0 && s.last() == c {
        trim_end_char(s.drop_last(), c)
    } else {
        s
    }
}

/// The messages endpoint under an API base.
pub open spec fn messages_url(api_base: Seq<char>) -> Seq<char> {
    trim_end_char(api_base, '/') + "/messages"@
}

/// The headers of a request to the messages API, in order: the API version, the key
/// (as a bearer token or as `x-api-key`), and the extended-cache beta where
/// the model supports it.
pub open spec fn claude_headers(api_key: Seq<char>, use_bearer_auth: bool, extended: bool) -> Seq<
    (Seq<char>, Seq<char>),
> {
    seq![
        ("anthropic-version"@, "2023-06-01"@),
        if use_bearer_auth {
            ("authorization"@, "Bearer "@ + api_key)
        } else {
            ("x-api-key"@, api_key)
        },
    ] + if extended {
        seq![("anthropic-beta"@, "extended-cache-ttl-2025-04-11"@)]
    } else {
        Seq::empty()
    }
}

fn trim_end_slashes(s: &str) -> (r: String)
    ensures
        r@ == trim_end_char(s@, '/'),
{
    let v = chars_of(s);
    let mut n = v.len();
    assert(v@.take(n as int) =~= s@);
    while n > 0 && v[n - 1] == '/'
        invariant
            n <= v@.len(),
            v@ == s@,
            trim_end_char(s@, '/') == trim_end_char(v@.take(n as int), '/'),
        decreases n,
    {
        assert(v@.take(n as int).drop_last() =~= v@.take(n - 1));
        n = n - 1;
    }
    let mut out = String::new();
    let mut i: usize = 0;
    while i < n
        invariant
            i <= n <= v@.len(),
            out@ == v@.take(i as int),
        decreases n - i,
    {
        push_char(&mut out, v[i]);
        assert(out@ =~= v@.take(i + 1));
        i = i + 1;
    }
    out
}

/// The request for a chat completion from the messages API: the messages endpoint
/// under the API base (the default one when none is configured), the
/// headers of `claude_headers`, and the body of `claude_body`; fails with
/// the network image URLs, which the messages API cannot take.
pub fn claude_prepare_chat_completions(
    api_key: &str,
    api_base: Option<&str>,
    use_bearer_auth: bool,
    data: ChatCompletionsData,
    model: &Model,
) -> (res: Result<RequestData, Vec<String>>)
    ensures
        match res {
            Ok(r) => r.url@ == messages_url(
                match api_base {
                    Some(b) => b@,
                    None => API_BASE@,
                },
            ) && pairs_view(r.headers@) == claude_headers(
                api_key@,
                use_bearer_auth,
                extended_cache_family(lowercase(model.name@)),
            ) && claude_body(data, *model) == Ok::<JsonV, Seq<Seq<char>>>(r.body@),
            Err(urls) => claude_body(data, *model) == Err::<JsonV, Seq<Seq<char>>>(
                strings_view(urls@),
            ),
        },
{
    let base = match api_base {
        Some(b) => b,
        None => API_BASE,
    };
    let mut url = trim_end_slashes(base);
    push_str(&mut url, "/messages");
    let body = match claude_build_chat_completions_body(data, model) {
        Ok(b) => b,
        Err(urls) => {
            return Err(urls);
        },
    };
    let mut request_data = RequestData::new(url.as_str(), body);
    proof {
        reveal_strlit("anthropic-version");
        reveal_strlit("authorization");
        reveal_strlit("x-api-key");
        reveal_strlit("anthropic-beta");
    }
    request_data.header("anthropic-version", "2023-06-01");
    assert(pairs_view(request_data.headers@) =~= seq![("anthropic-version"@, "2023-06-01"@)]);
    proof {
        let h1 = pairs_view(request_data.headers@);
        lemma_key_index(h1, "authorization"@);
        lemma_key_index(h1, "x-api-key"@);
        assert(h1[0].0.len() != "authorization"@.len());
        assert(h1[0].0.len() != "x-api-key"@.len());
    }
    if use_bearer_auth {
        request_data.bearer_auth(api_key);
    } else {
        request_data.header("x-api-key", api_key);
    }
    assert(pairs_view(request_data.headers@) =~= claude_headers(api_key@, use_bearer_auth, false));
    proof {
        let h2 = pairs_view(request_data.headers@);
        lemma_key_index(h2, "anthropic-beta"@);
        assert(h2[0].0.len() != "anthropic-beta"@.len());
        assert(h2[1].0.len() != "anthropic-beta"@.len());
    }
    if claude_supports_extended_cache(model) {
        request_data.header("anthropic-beta", "extended-cache-ttl-2025-04-11");
    }
    Ok(request_data)
}

} // verus!
