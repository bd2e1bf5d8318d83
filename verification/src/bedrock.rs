use vstd::prelude::*;
use crate::claude::{
    lemma_member_opt, name_le, name_le_str, nested_str, nested_str_json, usage_u64, StreamAction, StreamActionV, StreamStateV, data_url_parts, message_network_images, network_images, number_value, opt_str_json,
    opt_str_value, part_network_images, parts_network_images, role_message, role_message_json,
    split_data_url, strings_view,
};
use crate::client::{
    find_key, header_insert, lemma_map_insert_get, map_get, map_insert, opt_patch_map_view,
    opt_patch_view, pairs_view, patch_request_data, patched_request, ChatCompletionsData,
    ChatCompletionsOutput, EmbeddingsData, OutputV, RequestData,
};
use crate::digest::{
    base64_decode, base64_standard_decoded, hex_encode, hex_lower, hmac_sha256, hmac_sha256_of,
    sha256, sha256_hex,
};
use crate::sse::{lossy_utf8, utf8_lossy};
use crate::function::{
    opt_member, opt_view, push_opt, schema_json, schema_value, strings_json, strings_value,
    FunctionDeclaration, ToolCall,
    ToolCallV, ToolResult,
};
use crate::json::{
    arr_push, arr_replace, clone_json, get, get_str, get_u64, int_value, items_view, jarray, jint,
    find_member, jobject, json_get, json_get_str, lemma_find_member, lemma_member_concat, member, obj_set, json_set_key, json_text, jstr,
    lemma_array_view, lemma_items_view, members_view, obj_push, set_key, to_json_string, Json,
    JsonV,
};
use crate::message::{
    after_system, extract_system_message, system_prompt, Message, MessageContent,
    MessageContentPart, MessageRole,
};
use crate::model::Model;
use crate::text::{
    chars_of, join_strs, join_with, push_char, string_of, texts_of, contains_seq, contains_str, lowercase, push_str, replace_all, replace_str, starts_with_str,
    str_eq, strip_think, strip_think_tag, to_lowercase,
};

verus! {

/// Which API a Bedrock model is reached through.
#[derive(Debug, Clone, Copy, PartialEq, Eq, Structural)]
pub enum BedrockModelCategory {
    /// The Converse API (`/model/{id}/converse`).
    Converse,
    /// The OpenAI Responses API (`/openai/v1/responses`).
    OpenAI,
}

impl BedrockModelCategory {
    /// Models whose id starts with `openai.` use the OpenAI API; the others
    /// use Converse.
    pub fn from_model_name(model_name: &str) -> (r: Self)
        ensures
            r == category_of(model_name@),
    {
        proof {
            reveal_strlit("openai.");
            assert(model_name@.len() >= 7 ==> model_name@.take(7) =~= model_name@.subrange(0, 7));
        }
        if starts_with_str(model_name, "openai.") {
            BedrockModelCategory::OpenAI
        } else {
            BedrockModelCategory::Converse
        }
    }
}

/// Whether a lower-cased model name belongs to a family with the one-hour
/// cache TTL on Bedrock: the same families that have the extended cache TTL
/// on the messages API.
pub open spec fn bedrock_ttl_family(lowered: Seq<char>) -> bool {
    ||| contains_seq(lowered, "4-5"@)
    ||| contains_seq(lowered, "4-6"@)
    ||| contains_seq(lowered, "opus-4"@)
    ||| contains_seq(lowered, "sonnet-4"@)
    ||| contains_seq(lowered, "haiku-4"@)
    ||| contains_seq(lowered, "sonnet-5"@)
    ||| contains_seq(lowered, "opus-5"@)
}

/// Whether a lower-cased model name has the one-hour cache TTL on Bedrock.
pub fn bedrock_ttl_name(lowered: &str) -> (r: bool)
    ensures
        r == bedrock_ttl_family(lowered@),
{
    contains_str(lowered, "4-5") || contains_str(lowered, "4-6") || contains_str(lowered, "opus-4")
        || contains_str(lowered, "sonnet-4") || contains_str(lowered, "haiku-4")
        || contains_str(lowered, "sonnet-5") || contains_str(lowered, "opus-5")
}

/// The cache TTL to ask Bedrock for: `1h` for recent models of the family, else
/// none (the default five minutes).
pub fn bedrock_cache_ttl(model: &Model) -> (r: Option<&'static str>)
    ensures
        match r {
            Some(t) => bedrock_ttl_family(lowercase(model.name@)) && t@ == "1h"@,
            None => !bedrock_ttl_family(lowercase(model.name@)),
        },
{
    let lowered = to_lowercase(model.name.as_str());
    if bedrock_ttl_name(lowered.as_str()) {
        Some("1h")
    } else {
        None
    }
}

/// The one-hour cache checks of Bedrock and of the messages API are kept in
/// sync: a model gets the one-hour TTL on Bedrock exactly when it has the
/// extended cache TTL on the messages API.
pub proof fn lemma_bedrock_ttl_iff_claude_extended(lowered: Seq<char>)
    ensures
        bedrock_ttl_family(lowered) <==> crate::claude::extended_cache_family(lowered),
{
}

/// A value as Bedrock takes a tool result: objects as they are, anything
/// else wrapped as `{"result": value}`.
pub open spec fn json_object_of(v: JsonV) -> JsonV {
    match v {
        JsonV::Object(_) => v,
        _ => JsonV::Object(seq![("result"@, v)]),
    }
}

/// Wraps a value that is not an object as `{"result": value}`.
pub fn ensure_json_object(value: Json) -> (r: Json)
    ensures
        r@ == json_object_of(value@),
{
    match value {
        Json::Object(m) => Json::Object(m),
        other => {
            let mut m: Vec<(String, Json)> = Vec::new();
            let ghost v = other@;
            obj_push(&mut m, "result", other);
            assert(members_view(Seq::<(String, Json)>::empty(), 0) =~= Seq::empty());
            assert(members_view(m@, m@.len()) =~= seq![("result"@, v)]);
            jobject(m)
        },
    }
}


/// `{"text": t}`.
pub open spec fn text_block(t: Seq<char>) -> JsonV {
    JsonV::Object(seq![("text"@, JsonV::Str(t))])
}

/// How a message part is sent to Bedrock.
pub open spec fn bedrock_part(p: MessageContentPart) -> JsonV {
    match p {
        MessageContentPart::Text { text } => text_block(text@),
        MessageContentPart::ImageUrl { image_url } => match data_url_parts(image_url.url@) {
            Some((mime, data)) => JsonV::Object(
                seq![
                    (
                        "image"@,
                        JsonV::Object(
                            seq![
                                ("format"@, JsonV::Str(replace_all(mime, "image/"@, Seq::empty()))),
                                ("source"@, JsonV::Object(seq![("bytes"@, JsonV::Str(data))])),
                            ],
                        ),
                    ),
                ],
            ),
            None => JsonV::Object(seq![("url"@, JsonV::Str(image_url.url@))]),
        },
    }
}

pub open spec fn tool_use_block(r: ToolResult) -> JsonV {
    JsonV::Object(
        seq![
            (
                "toolUse"@,
                JsonV::Object(
                    seq![
                        ("toolUseId"@, opt_str_value(r.call.id)),
                        ("name"@, JsonV::Str(r.call.name@)),
                        ("input"@, r.call.arguments@),
                    ],
                ),
            ),
        ],
    )
}

pub open spec fn tool_result_block(r: ToolResult) -> JsonV {
    JsonV::Object(
        seq![
            (
                "toolResult"@,
                JsonV::Object(
                    seq![
                        ("toolUseId"@, opt_str_value(r.call.id)),
                        (
                            "content"@,
                            JsonV::Array(
                                seq![JsonV::Object(seq![("json"@, json_object_of(r.output@))])],
                            ),
                        ),
                    ],
                ),
            ),
        ],
    )
}

/// The Bedrock messages one chat message becomes; `last` tells whether it is
/// the final message (earlier assistant replies lose their reasoning block).
pub open spec fn bedrock_message_values(m: Message, last: bool) -> Seq<JsonV> {
    match m.content {
        MessageContent::Text(t) => seq![
            role_message(
                m.role.spec_name(),
                JsonV::Array(
                    seq![
                        text_block(
                            if m.role == MessageRole::Assistant && !last {
                                strip_think(t@)
                            } else {
                                t@
                            },
                        ),
                    ],
                ),
            ),
        ],
        MessageContent::Array(parts) => seq![
            role_message(
                m.role.spec_name(),
                JsonV::Array(parts@.map_values(|p: MessageContentPart| bedrock_part(p))),
            ),
        ],
        MessageContent::ToolCalls(tc) => seq![
            role_message(
                "assistant"@,
                JsonV::Array(
                    (if tc.text@.len() > 0 {
                        seq![text_block(tc.text@)]
                    } else {
                        Seq::empty()
                    }) + tc.tool_results@.map_values(|r: ToolResult| tool_use_block(r)),
                ),
            ),
            role_message(
                "user"@,
                JsonV::Array(tc.tool_results@.map_values(|r: ToolResult| tool_result_block(r))),
            ),
        ],
    }
}

/// The Bedrock messages the first `n` chat messages become.
pub open spec fn bedrock_messages(ms: Seq<Message>, n: nat) -> Seq<JsonV>
    decreases n,
{
    if n == 0 || n > ms.len() {
        Seq::empty()
    } else {
        bedrock_messages(ms, (n - 1) as nat) + bedrock_message_values(ms[n - 1], n == ms.len())
    }
}

/// A cache point, with the TTL when one is asked for.
pub open spec fn cache_point(ttl: Option<Seq<char>>) -> JsonV {
    JsonV::Object(
        seq![
            (
                "cachePoint"@,
                JsonV::Object(
                    seq![("type"@, JsonV::Str("default"@))] + opt_member(
                        "ttl"@,
                        match ttl {
                            Some(t) => Some(JsonV::Str(t)),
                            None => None,
                        },
                    ),
                ),
            ),
        ],
    )
}

/// The messages with a cache point after the last message's content, in a
/// multi-turn conversation.
pub open spec fn with_last_cache_point(ms: Seq<JsonV>, cp: JsonV) -> Seq<JsonV> {
    if ms.len() > 1 {
        let last = ms[ms.len() - 1];
        match json_get(last, "content"@) {
            Some(JsonV::Array(a)) => ms.update(
                ms.len() - 1,
                set_key(last, "content"@, JsonV::Array(a.push(cp))),
            ),
            _ => ms,
        }
    } else {
        ms
    }
}

/// A tool as Bedrock takes it.
pub open spec fn tool_spec_value(f: FunctionDeclaration) -> JsonV {
    JsonV::Object(
        seq![
            (
                "toolSpec"@,
                JsonV::Object(
                    seq![
                        ("name"@, JsonV::Str(f.name@)),
                        ("description"@, JsonV::Str(f.description@)),
                        (
                            "inputSchema"@,
                            JsonV::Object(seq![("json"@, schema_value(f.parameters))]),
                        ),
                    ],
                ),
            ),
        ],
    )
}

/// The request body for Bedrock's Converse API, or the network image URLs it
/// cannot take. Cache points follow the system prompt, the last message of a
/// multi-turn conversation and the tools, when there is a stable prefix.
pub open spec fn bedrock_body(d: ChatCompletionsData, model: Model) -> Result<JsonV, Seq<Seq<char>>> {
    let ms = after_system(d.messages@);
    let images = network_images(ms, ms.len());
    if images.len() > 0 {
        Err(images)
    } else {
        let msgs = bedrock_messages(ms, ms.len());
        let system = system_prompt(d.messages@);
        let cache = system is Some || msgs.len() > 1 || d.functions is Some;
        let cp = cache_point(
            if bedrock_ttl_family(lowercase(model.name@)) {
                Some("1h"@)
            } else {
                None
            },
        );
        let tail = if cache {
            seq![cp]
        } else {
            Seq::empty()
        };
        let ic = opt_member(
            "maxTokens"@,
            match model.spec_max_tokens_param() {
                Some(v) => Some(int_value(v)),
                None => None,
            },
        ) + opt_member("temperature"@, number_value(d.temperature)) + opt_member(
            "topP"@,
            number_value(d.top_p),
        );
        Ok(
            JsonV::Object(
                seq![
                    ("inferenceConfig"@, JsonV::Object(ic)),
                    (
                        "messages"@,
                        JsonV::Array(
                            if cache {
                                with_last_cache_point(msgs, cp)
                            } else {
                                msgs
                            },
                        ),
                    ),
                ] + opt_member(
                    "system"@,
                    match system {
                        Some(s) => Some(JsonV::Array(seq![text_block(s)] + tail)),
                        None => None,
                    },
                ) + opt_member(
                    "toolConfig"@,
                    match d.functions {
                        Some(fs) => Some(
                            JsonV::Object(
                                seq![
                                    (
                                        "tools"@,
                                        JsonV::Array(
                                            fs@.map_values(
                                                |f: FunctionDeclaration| tool_spec_value(f),
                                            ) + tail,
                                        ),
                                    ),
                                ],
                            ),
                        ),
                        None => None,
                    },
                ),
            ),
        )
    }
}

/// A message object of the two members `role` (a string) and `content` (an array).
pub open spec fn role_blocks_message(v: JsonV) -> bool {
    &&& v is Object
    &&& v->Object_0.len() == 2
    &&& v->Object_0[0].0 == "role"@
    &&& v->Object_0[0].1 is Str
    &&& v->Object_0[1].0 == "content"@
    &&& v->Object_0[1].1 is Array
}

proof fn lemma_bedrock_messages_shape(ms: Seq<Message>, n: nat)
    ensures
        forall|i: int|
            0 <= i < bedrock_messages(ms, n).len() ==> role_blocks_message(
                #[trigger] bedrock_messages(ms, n)[i],
            ),
    decreases n,
{
    if n > 0 && n <= ms.len() {
        lemma_bedrock_messages_shape(ms, (n - 1) as nat);
        let prev = bedrock_messages(ms, (n - 1) as nat);
        let vals = bedrock_message_values(ms[n - 1], n == ms.len());
        assert forall|i: int| 0 <= i < vals.len() implies role_blocks_message(#[trigger] vals[i]) by {
        }
        assert forall|i: int|
            0 <= i < bedrock_messages(ms, n).len() implies role_blocks_message(
                #[trigger] bedrock_messages(ms, n)[i],
            ) by {
            if i < prev.len() {
                assert(bedrock_messages(ms, n)[i] == prev[i]);
            } else {
                assert(bedrock_messages(ms, n)[i] == vals[i - prev.len()]);
            }
        }
    }
}

/// With caching on, the cache point goes once after the content of the last
/// message of a multi-turn conversation (the other messages and the last
/// one's role unchanged), after the system prompt and after the tools: the
/// same point each time, with the one-hour TTL for the models that have it.
pub proof fn lemma_bedrock_cache_points(d: ChatCompletionsData, model: Model)
    requires
        bedrock_body(d, model) is Ok,
    ensures
        ({
            let body = bedrock_body(d, model)->Ok_0;
            let ms = after_system(d.messages@);
            let msgs = bedrock_messages(ms, ms.len());
            let cp = cache_point(
                if bedrock_ttl_family(lowercase(model.name@)) {
                    Some("1h"@)
                } else {
                    None
                },
            );
            &&& msgs.len() > 1 ==> exists|role: Seq<char>, blocks: Seq<JsonV>|
                msgs.last() == #[trigger] role_message(role, JsonV::Array(blocks)) && json_get(
                    body,
                    "messages"@,
                ) == Some(
                    JsonV::Array(
                        msgs.update(
                            msgs.len() - 1,
                            role_message(role, JsonV::Array(blocks.push(cp))),
                        ),
                    ),
                )
            &&& match system_prompt(d.messages@) {
                Some(s) => json_get(body, "system"@) == Some(
                    JsonV::Array(seq![text_block(s), cp]),
                ),
                None => true,
            }
            &&& match d.functions {
                Some(fs) => json_get(body, "toolConfig"@) == Some(
                    JsonV::Object(
                        seq![
                            (
                                "tools"@,
                                JsonV::Array(
                                    fs@.map_values(|f: FunctionDeclaration| tool_spec_value(f)).push(
                                        cp,
                                    ),
                                ),
                            ),
                        ],
                    ),
                ),
                None => true,
            }
        }),
{
    let body = bedrock_body(d, model)->Ok_0;
    let ms = after_system(d.messages@);
    let msgs = bedrock_messages(ms, ms.len());
    let system = system_prompt(d.messages@);
    let cache = system is Some || msgs.len() > 1 || d.functions is Some;
    let cp = cache_point(
        if bedrock_ttl_family(lowercase(model.name@)) {
            Some("1h"@)
        } else {
            None
        },
    );
    let tail = if cache {
        seq![cp]
    } else {
        Seq::empty()
    };
    let ic = opt_member(
        "maxTokens"@,
        match model.spec_max_tokens_param() {
            Some(v) => Some(int_value(v)),
            None => None,
        },
    ) + opt_member("temperature"@, number_value(d.temperature)) + opt_member(
        "topP"@,
        number_value(d.top_p),
    );
    let mm = if cache {
        with_last_cache_point(msgs, cp)
    } else {
        msgs
    };
    let s0 = seq![("inferenceConfig"@, JsonV::Object(ic)), ("messages"@, JsonV::Array(mm))];
    let sys_v = match system {
        Some(s) => Some(JsonV::Array(seq![text_block(s)] + tail)),
        None => None,
    };
    let tool_v = match d.functions {
        Some(fs) => Some(
            JsonV::Object(
                seq![
                    (
                        "tools"@,
                        JsonV::Array(
                            fs@.map_values(|f: FunctionDeclaration| tool_spec_value(f)) + tail,
                        ),
                    ),
                ],
            ),
        ),
        None => None,
    };
    let os = opt_member("system"@, sys_v);
    let ot = opt_member("toolConfig"@, tool_v);
    assert(body == JsonV::Object(s0 + os + ot));
    lemma_member_concat(s0, os);
    lemma_member_concat(s0 + os, ot);
    lemma_member_opt("system"@, sys_v);
    lemma_member_opt("toolConfig"@, tool_v);
    reveal_strlit("inferenceConfig");
    reveal_strlit("messages");
    reveal_strlit("system");
    reveal_strlit("toolConfig");
    reveal_strlit("role");
    reveal_strlit("content");
    assert("inferenceConfig"@[0] != "messages"@[0]);
    assert("inferenceConfig"@[0] != "system"@[0]);
    assert("inferenceConfig"@[0] != "toolConfig"@[0]);
    assert("messages"@[0] != "system"@[0]);
    assert("messages"@[0] != "toolConfig"@[0]);
    assert("system"@[0] != "toolConfig"@[0]);
    assert("role"@[0] != "content"@[0]);
    reveal_with_fuel(member, 3);
    assert(json_get(body, "messages"@) == Some(JsonV::Array(mm)));
    match system {
        Some(s) => {
            assert(seq![text_block(s)] + tail =~= seq![text_block(s), cp]);
        },
        None => {},
    }
    match d.functions {
        Some(fs) => {
            assert(fs@.map_values(|f: FunctionDeclaration| tool_spec_value(f)) + tail
                =~= fs@.map_values(|f: FunctionDeclaration| tool_spec_value(f)).push(cp));
        },
        None => {},
    }
    if msgs.len() > 1 {
        lemma_bedrock_messages_shape(ms, ms.len());
        let last = msgs[msgs.len() - 1];
        assert(role_blocks_message(last));
        let m = last->Object_0;
        let role = m[0].1->Str_0;
        let blocks = m[1].1->Array_0;
        assert(m =~= seq![("role"@, JsonV::Str(role)), ("content"@, JsonV::Array(blocks))]);
        assert(last == role_message(role, JsonV::Array(blocks)));
        assert(json_get(last, "content"@) == Some(JsonV::Array(blocks)));
        lemma_find_member(m, "content"@);
        assert(find_member(m, "content"@) == Some(1int));
        let nm = seq![("role"@, JsonV::Str(role)), ("content"@, JsonV::Array(blocks.push(cp)))];
        assert(obj_set(m, "content"@, JsonV::Array(blocks.push(cp))) =~= nm);
        assert(set_key(last, "content"@, JsonV::Array(blocks.push(cp))) == role_message(
            role,
            JsonV::Array(blocks.push(cp)),
        ));
        assert(mm == msgs.update(msgs.len() - 1, role_message(role, JsonV::Array(blocks.push(cp)))));
    }
}

fn text_block_json(t: &str) -> (r: Json)
    ensures
        r@ == text_block(t@),
{
    let mut m: Vec<(String, Json)> = Vec::new();
    obj_push(&mut m, "text", jstr(t));
    assert(members_view(Seq::<(String, Json)>::empty(), 0) =~= Seq::empty());
    assert(members_view(m@, m@.len()) =~= seq![("text"@, JsonV::Str(t@))]);
    jobject(m)
}

/// An object of one member.
fn single_json(key: &str, v: Json) -> (r: Json)
    ensures
        r@ == JsonV::Object(seq![(key@, v@)]),
{
    let ghost vv = v@;
    let mut m: Vec<(String, Json)> = Vec::new();
    obj_push(&mut m, key, v);
    assert(members_view(Seq::<(String, Json)>::empty(), 0) =~= Seq::empty());
    assert(members_view(m@, m@.len()) =~= seq![(key@, vv)]);
    jobject(m)
}

/// An array of one element.
fn single_array(v: Json) -> (r: Json)
    ensures
        r@ == JsonV::Array(seq![v@]),
{
    let ghost vv = v@;
    let mut a: Vec<Json> = Vec::new();
    arr_push(&mut a, v);
    assert(items_view(Seq::<Json>::empty(), 0) =~= Seq::empty());
    assert(items_view(a@, a@.len()) =~= seq![vv]);
    jarray(a)
}

fn bedrock_part_json(p: &MessageContentPart, urls: &mut Vec<String>) -> (r: Json)
    ensures
        r@ == bedrock_part(*p),
        strings_view(final(urls)@) == strings_view(old(urls)@) + part_network_images(*p),
{
    match p {
        MessageContentPart::Text { text } => {
            assert(strings_view(urls@) =~= strings_view(old(urls)@) + part_network_images(*p));
            text_block_json(text.as_str())
        },
        MessageContentPart::ImageUrl { image_url } => {
            match split_data_url(image_url.url.as_str()) {
                Some((mime, data)) => {
                    proof {
                        reveal_strlit("image/");
                    }
                    let format = replace_str(mime.as_str(), "image/", "");
                    proof {
                        reveal_strlit("");
                    }
                    assert(""@ =~= Seq::<char>::empty());
                    let source = single_json("bytes", Json::Str(data));
                    let mut img: Vec<(String, Json)> = Vec::new();
                    obj_push(&mut img, "format", Json::Str(format));
                    let ghost sv = source@;
                    obj_push(&mut img, "source", source);
                    assert(members_view(Seq::<(String, Json)>::empty(), 0) =~= Seq::empty());
                    let ghost iv = members_view(img@, img@.len());
                    assert(iv =~= seq![
                        ("format"@, JsonV::Str(replace_all(mime@, "image/"@, Seq::empty()))),
                        ("source"@, sv),
                    ]);
                    assert(strings_view(urls@) =~= strings_view(old(urls)@) + part_network_images(
                        *p,
                    ));
                    single_json("image", jobject(img))
                },
                None => {
                    let ghost before = urls@;
                    urls.push(image_url.url.clone());
                    assert(strings_view(urls@) =~= strings_view(before) + part_network_images(*p));
                    single_json("url", jstr(image_url.url.as_str()))
                },
            }
        },
    }
}

fn bedrock_parts_json(parts: &Vec<MessageContentPart>, urls: &mut Vec<String>) -> (r: Json)
    ensures
        r@ == JsonV::Array(parts@.map_values(|p: MessageContentPart| bedrock_part(p))),
        strings_view(final(urls)@) == strings_view(old(urls)@) + parts_network_images(
            parts@,
            parts@.len(),
        ),
{
    let mut out: Vec<Json> = Vec::new();
    let mut i: usize = 0;
    assert(items_view(out@, 0) =~= Seq::<JsonV>::empty());
    assert(strings_view(urls@) =~= strings_view(old(urls)@) + parts_network_images(parts@, 0));
    while i < parts.len()
        invariant
            i <= parts@.len(),
            items_view(out@, out@.len()) == parts@.take(i as int).map_values(
                |p: MessageContentPart| bedrock_part(p),
            ),
            strings_view(urls@) == strings_view(old(urls)@) + parts_network_images(
                parts@,
                i as nat,
            ),
        decreases parts.len() - i,
    {
        let x = bedrock_part_json(&parts[i], urls);
        arr_push(&mut out, x);
        assert(parts@.take(i + 1).map_values(|p: MessageContentPart| bedrock_part(p))
            =~= parts@.take(i as int).map_values(|p: MessageContentPart| bedrock_part(p)).push(
            bedrock_part(parts@[i as int]),
        ));
        assert(strings_view(urls@) =~= strings_view(old(urls)@) + parts_network_images(
            parts@,
            (i + 1) as nat,
        ));
        i = i + 1;
    }
    assert(parts@.take(parts@.len() as int) =~= parts@);
    jarray(out)
}

fn tool_use_block_json(r: &ToolResult) -> (j: Json)
    ensures
        j@ == tool_use_block(*r),
{
    let mut m: Vec<(String, Json)> = Vec::new();
    obj_push(&mut m, "toolUseId", opt_str_json(&r.call.id));
    obj_push(&mut m, "name", jstr(r.call.name.as_str()));
    obj_push(&mut m, "input", clone_json(&r.call.arguments));
    assert(members_view(Seq::<(String, Json)>::empty(), 0) =~= Seq::empty());
    assert(members_view(m@, m@.len()) =~= seq![
        ("toolUseId"@, opt_str_value(r.call.id)),
        ("name"@, JsonV::Str(r.call.name@)),
        ("input"@, r.call.arguments@),
    ]);
    single_json("toolUse", jobject(m))
}

fn tool_result_block_json(r: &ToolResult) -> (j: Json)
    ensures
        j@ == tool_result_block(*r),
{
    let inner = single_json("json", ensure_json_object(clone_json(&r.output)));
    let content = single_array(inner);
    let mut m: Vec<(String, Json)> = Vec::new();
    obj_push(&mut m, "toolUseId", opt_str_json(&r.call.id));
    let ghost cv = content@;
    obj_push(&mut m, "content", content);
    assert(members_view(Seq::<(String, Json)>::empty(), 0) =~= Seq::empty());
    assert(members_view(m@, m@.len()) =~= seq![
        ("toolUseId"@, opt_str_value(r.call.id)),
        ("content"@, cv),
    ]);
    single_json("toolResult", jobject(m))
}

fn push_bedrock_message(m: &Message, last: bool, out: &mut Vec<Json>, urls: &mut Vec<String>)
    ensures
        items_view(final(out)@, final(out)@.len()) == items_view(old(out)@, old(out)@.len())
            + bedrock_message_values(*m, last),
        strings_view(final(urls)@) == strings_view(old(urls)@) + message_network_images(*m),
{
    match &m.content {
        MessageContent::Text(t) => {
            let text = if m.role.is_assistant() && !last {
                strip_think_tag(t.as_str())
            } else {
                t.clone()
            };
            let x = role_message_json(m.role.name(), single_array(text_block_json(text.as_str())));
            arr_push(out, x);
            assert(strings_view(urls@) =~= strings_view(old(urls)@) + message_network_images(*m));
        },
        MessageContent::Array(parts) => {
            let c = bedrock_parts_json(parts, urls);
            let x = role_message_json(m.role.name(), c);
            arr_push(out, x);
        },
        MessageContent::ToolCalls(tc) => {
            let mut assistant_parts: Vec<Json> = Vec::new();
            let mut user_parts: Vec<Json> = Vec::new();
            if !tc.text.as_str().is_empty() {
                arr_push(&mut assistant_parts, text_block_json(tc.text.as_str()));
            }
            let ghost head = if tc.text@.len() > 0 {
                seq![text_block(tc.text@)]
            } else {
                Seq::<JsonV>::empty()
            };
            assert(items_view(assistant_parts@, assistant_parts@.len()) =~= head);
            assert(items_view(user_parts@, 0) =~= Seq::<JsonV>::empty());
            let rs = &tc.tool_results;
            let mut i: usize = 0;
            while i < rs.len()
                invariant
                    i <= rs@.len(),
                    items_view(assistant_parts@, assistant_parts@.len()) == head + rs@.take(
                        i as int,
                    ).map_values(|r: ToolResult| tool_use_block(r)),
                    items_view(user_parts@, user_parts@.len()) == rs@.take(i as int).map_values(
                        |r: ToolResult| tool_result_block(r),
                    ),
                decreases rs.len() - i,
            {
                arr_push(&mut assistant_parts, tool_use_block_json(&rs[i]));
                arr_push(&mut user_parts, tool_result_block_json(&rs[i]));
                assert(rs@.take(i + 1).map_values(|r: ToolResult| tool_use_block(r)) =~= rs@.take(
                    i as int,
                ).map_values(|r: ToolResult| tool_use_block(r)).push(tool_use_block(rs@[i as int])));
                assert(rs@.take(i + 1).map_values(|r: ToolResult| tool_result_block(r))
                    =~= rs@.take(i as int).map_values(|r: ToolResult| tool_result_block(r)).push(
                    tool_result_block(rs@[i as int]),
                ));
                i = i + 1;
            }
            assert(rs@.take(rs@.len() as int) =~= rs@);
            arr_push(out, role_message_json("assistant", jarray(assistant_parts)));
            arr_push(out, role_message_json("user", jarray(user_parts)));
            assert(strings_view(urls@) =~= strings_view(old(urls)@) + message_network_images(*m));
        },
    }
}

fn bedrock_messages_json(ms: &Vec<Message>, urls: &mut Vec<String>) -> (r: Vec<Json>)
    ensures
        items_view(r@, r@.len()) == bedrock_messages(ms@, ms@.len()),
        strings_view(final(urls)@) == strings_view(old(urls)@) + network_images(ms@, ms@.len()),
{
    let mut out: Vec<Json> = Vec::new();
    let mut i: usize = 0;
    assert(items_view(out@, 0) =~= Seq::<JsonV>::empty());
    assert(strings_view(urls@) =~= strings_view(old(urls)@) + network_images(ms@, 0));
    while i < ms.len()
        invariant
            i <= ms@.len(),
            items_view(out@, out@.len()) == bedrock_messages(ms@, i as nat),
            strings_view(urls@) == strings_view(old(urls)@) + network_images(ms@, i as nat),
        decreases ms.len() - i,
    {
        push_bedrock_message(&ms[i], i + 1 == ms.len(), &mut out, urls);
        assert(strings_view(urls@) =~= strings_view(old(urls)@) + network_images(
            ms@,
            (i + 1) as nat,
        ));
        i = i + 1;
    }
    out
}


fn cache_point_json(ttl: Option<&str>) -> (r: Json)
    ensures
        r@ == cache_point(
            match ttl {
                Some(t) => Some(t@),
                None => None,
            },
        ),
{
    let mut inner: Vec<(String, Json)> = Vec::new();
    obj_push(&mut inner, "type", jstr("default"));
    assert(members_view(Seq::<(String, Json)>::empty(), 0) =~= Seq::empty());
    let t = match ttl {
        Some(t) => Some(jstr(t)),
        None => None,
    };
    push_opt(&mut inner, "ttl", t);
    single_json("cachePoint", jobject(inner))
}

fn tool_spec_json(f: &FunctionDeclaration) -> (r: Json)
    ensures
        r@ == tool_spec_value(*f),
{
    let schema = single_json("json", schema_json(&f.parameters));
    let mut m: Vec<(String, Json)> = Vec::new();
    obj_push(&mut m, "name", jstr(f.name.as_str()));
    obj_push(&mut m, "description", jstr(f.description.as_str()));
    let ghost sv = schema@;
    obj_push(&mut m, "inputSchema", schema);
    assert(members_view(Seq::<(String, Json)>::empty(), 0) =~= Seq::empty());
    assert(members_view(m@, m@.len()) =~= seq![
        ("name"@, JsonV::Str(f.name@)),
        ("description"@, JsonV::Str(f.description@)),
        ("inputSchema"@, sv),
    ]);
    single_json("toolSpec", jobject(m))
}

fn with_last_cache_point_json(ms: &mut Vec<Json>, cp: Json)
    ensures
        items_view(final(ms)@, final(ms)@.len()) == with_last_cache_point(
            items_view(old(ms)@, old(ms)@.len()),
            cp@,
        ),
{
    let ghost mv = items_view(ms@, ms@.len());
    proof {
        lemma_items_view(ms@, ms@.len());
    }
    if ms.len() > 1 {
        let last = ms.len() - 1;
        let content = match get(&ms[last], "content") {
            Some(Json::Array(a)) => {
                proof {
                    lemma_array_view(*a);
                }
                let mut a2: Vec<Json> = Vec::new();
                let mut i: usize = 0;
                assert(items_view(a2@, 0) =~= Seq::<JsonV>::empty());
                while i < a.len()
                    invariant
                        i <= a@.len(),
                        items_view(a2@, a2@.len()) == items_view(a@, a@.len()).take(i as int),
                        items_view(a@, a@.len()).len() == a@.len(),
                        forall|k: int| 0 <= k < a@.len() ==> #[trigger] items_view(a@, a@.len())[k]
                            == a@[k]@,
                    decreases a.len() - i,
                {
                    arr_push(&mut a2, clone_json(&a[i]));
                    assert(items_view(a@, a@.len()).take(i + 1) =~= items_view(a@, a@.len()).take(
                        i as int,
                    ).push(a@[i as int]@));
                    i = i + 1;
                }
                assert(items_view(a@, a@.len()).take(a@.len() as int) =~= items_view(a@, a@.len()));
                Some(a2)
            },
            _ => None,
        };
        match content {
            Some(a2) => {
                let mut a2 = a2;
                arr_push(&mut a2, cp);
                let old_m = arr_replace(ms, last, Json::Null);
                let x = json_set_key(old_m, "content", jarray(a2));
                arr_replace(ms, last, x);
                assert(items_view(ms@, ms@.len()) =~= with_last_cache_point(mv, cp@));
            },
            None => {},
        }
    }
}

/// Builds the request body for Bedrock's Converse API, as `bedrock_body`
/// describes; fails with the network image URLs, which it cannot take.
#[verifier::rlimit(40)]
pub fn build_chat_completions_body(data: ChatCompletionsData, model: &Model) -> (res: Result<
    Json,
    Vec<String>,
>)
    ensures
        match res {
            Ok(b) => bedrock_body(data, *model) == Ok::<JsonV, Seq<Seq<char>>>(b@),
            Err(urls) => bedrock_body(data, *model) == Err::<JsonV, Seq<Seq<char>>>(
                strings_view(urls@),
            ),
        },
{
    let ChatCompletionsData { messages, temperature, top_p, functions, .. } = data;
    let mut messages = messages;
    let system = extract_system_message(&mut messages);
    let mut urls: Vec<String> = Vec::new();
    assert(strings_view(urls@) =~= Seq::<Seq<char>>::empty());
    let msgs = bedrock_messages_json(&messages, &mut urls);
    assert(strings_view(urls@) =~= network_images(messages@, messages@.len()));
    if urls.len() > 0 {
        return Err(urls);
    }
    proof {
        lemma_items_view(msgs@, msgs@.len());
    }
    let ghost base = bedrock_messages(messages@, messages@.len());
    let cache = system.is_some() || msgs.len() > 1 || functions.is_some();
    let ttl = bedrock_cache_ttl(model);
    let mut msgs = msgs;
    if cache {
        with_last_cache_point_json(&mut msgs, cache_point_json(ttl));
    }
    let ghost cp = cache_point(
        if bedrock_ttl_family(lowercase(model.name@)) {
            Some("1h"@)
        } else {
            None
        },
    );
    proof {
        reveal_strlit("1h");
    }
    assert(items_view(msgs@, msgs@.len()) == if cache {
        with_last_cache_point(base, cp)
    } else {
        base
    });
    let mut ic: Vec<(String, Json)> = Vec::new();
    assert(members_view(Seq::<(String, Json)>::empty(), 0) =~= Seq::empty());
    let max_tokens = match model.max_tokens_param() {
        Some(v) => Some(jint(v)),
        None => None,
    };
    push_opt(&mut ic, "maxTokens", max_tokens);
    let temp_json = match temperature {
        Some(t) => Some(Json::Number(t)),
        None => None,
    };
    push_opt(&mut ic, "temperature", temp_json);
    let top_p_json = match top_p {
        Some(t) => Some(Json::Number(t)),
        None => None,
    };
    push_opt(&mut ic, "topP", top_p_json);
    let ghost icv = members_view(ic@, ic@.len());
    assert(icv == opt_member(
        "maxTokens"@,
        match model.spec_max_tokens_param() {
            Some(v) => Some(int_value(v)),
            None => None,
        },
    ) + opt_member("temperature"@, number_value(data.temperature)) + opt_member(
        "topP"@,
        number_value(data.top_p),
    ));
    let ghost mv = items_view(msgs@, msgs@.len());
    let mut body: Vec<(String, Json)> = Vec::new();
    obj_push(&mut body, "inferenceConfig", jobject(ic));
    obj_push(&mut body, "messages", jarray(msgs));
    assert(members_view(body@, body@.len()) =~= seq![
        ("inferenceConfig"@, JsonV::Object(icv)),
        ("messages"@, JsonV::Array(mv)),
    ]);
    assert(network_images(after_system(data.messages@), after_system(data.messages@).len()).len() == 0);
    let ghost tail = if cache {
        seq![cp]
    } else {
        Seq::<JsonV>::empty()
    };
    let sys_json = match system {
        Some(s) => {
            let mut a: Vec<Json> = Vec::new();
            arr_push(&mut a, text_block_json(s.as_str()));
            assert(items_view(Seq::<Json>::empty(), 0) =~= Seq::empty());
            if cache {
                arr_push(&mut a, cache_point_json(ttl));
            }
            assert(items_view(a@, a@.len()) =~= seq![text_block(s@)] + tail);
            Some(jarray(a))
        },
        None => None,
    };
    push_opt(&mut body, "system", sys_json);
    let tools_json = match functions {
        Some(fs) => {
            let mut t: Vec<Json> = Vec::new();
            let mut i: usize = 0;
            assert(items_view(t@, 0) =~= Seq::<JsonV>::empty());
            while i < fs.len()
                invariant
                    i <= fs@.len(),
                    items_view(t@, t@.len()) == fs@.take(i as int).map_values(
                        |f: FunctionDeclaration| tool_spec_value(f),
                    ),
                decreases fs.len() - i,
            {
                arr_push(&mut t, tool_spec_json(&fs[i]));
                assert(fs@.take(i + 1).map_values(|f: FunctionDeclaration| tool_spec_value(f))
                    =~= fs@.take(i as int).map_values(
                    |f: FunctionDeclaration| tool_spec_value(f),
                ).push(tool_spec_value(fs@[i as int])));
                i = i + 1;
            }
            assert(fs@.take(fs@.len() as int) =~= fs@);
            let ghost tv = items_view(t@, t@.len());
            if cache {
                arr_push(&mut t, cache_point_json(ttl));
            }
            assert(items_view(t@, t@.len()) =~= tv + tail);
            Some(single_json("tools", jarray(t)))
        },
        None => None,
    };
    push_opt(&mut body, "toolConfig", tools_json);
    Ok(jobject(body))
}


/// `j[a][b]` when it is an object: its members.
pub open spec fn nested_object(j: JsonV, a: Seq<char>, b: Seq<char>) -> Option<Seq<(Seq<char>, JsonV)>> {
    match json_get(j, a) {
        Some(x) => match json_get(x, b) {
            Some(JsonV::Object(m)) => Some(m),
            _ => None,
        },
        None => None,
    }
}

/// A member of an object as a string.
pub open spec fn member_str(m: Seq<(Seq<char>, JsonV)>, key: Seq<char>) -> Option<Seq<char>> {
    match member(m, key) {
        Some(JsonV::Str(s)) => Some(s),
        _ => None,
    }
}

/// What the first `n` content items of a Converse response give: text items
/// joined by a blank line, the last reasoning text, the complete tool uses.
pub open spec fn bedrock_scan(items: Seq<JsonV>, n: nat) -> (Seq<char>, Option<Seq<char>>, Seq<ToolCallV>)
    decreases n,
{
    if n == 0 || n > items.len() {
        (Seq::empty(), None, Seq::empty())
    } else {
        let (text, reasoning, calls) = bedrock_scan(items, (n - 1) as nat);
        let item = items[n - 1];
        match json_get_str(item, "text"@) {
            Some(v) => (
                if text.len() > 0 {
                    text + "\n\n"@ + v
                } else {
                    v
                },
                reasoning,
                calls,
            ),
            None => match nested_object(item, "reasoningContent"@, "reasoningText"@) {
                Some(m) => match member_str(m, "text"@) {
                    Some(t) => (text, Some(t), calls),
                    None => (text, reasoning, calls),
                },
                None => match json_get(item, "toolUse"@) {
                    Some(JsonV::Object(m)) => match (
                        member_str(m, "toolUseId"@),
                        member_str(m, "name"@),
                        member(m, "input"@),
                    ) {
                        (Some(id), Some(name), Some(input)) => (
                            text,
                            reasoning,
                            calls.push((name, input, Some(id), None)),
                        ),
                        _ => (text, reasoning, calls),
                    },
                    _ => (text, reasoning, calls),
                },
            },
        }
    }
}

/// The content items of a Converse response (`output.message.content`).
pub open spec fn converse_items(data: JsonV) -> Seq<JsonV> {
    match json_get(data, "output"@) {
        Some(o) => match json_get(o, "message"@) {
            Some(m) => match json_get(m, "content"@) {
                Some(JsonV::Array(a)) => a,
                _ => Seq::empty(),
            },
            None => Seq::empty(),
        },
        None => Seq::empty(),
    }
}

/// What a Converse response gives, or the error for one with neither text
/// nor tool calls.
pub open spec fn bedrock_output(data: JsonV) -> Result<OutputV, Seq<char>> {
    let items = converse_items(data);
    let (text0, reasoning, calls) = bedrock_scan(items, items.len());
    let text = match reasoning {
        Some(r) => "<think>\n"@ + r + "\n</think>\n\n"@ + text0,
        None => text0,
    };
    if text.len() == 0 && calls.len() == 0 {
        Err("Invalid response data: "@ + json_text(data))
    } else {
        Ok(
            (
                text,
                calls,
                None,
                usage_u64(data, "inputTokens"@),
                usage_u64(data, "outputTokens"@),
                None,
            ),
        )
    }
}

fn member_str_json<'a>(m: &'a Vec<(String, Json)>, key: &str) -> (r: Option<&'a str>)
    ensures
        match r {
            Some(s) => member_str(members_view(m@, m@.len()), key@) == Some(s@),
            None => member_str(members_view(m@, m@.len()), key@) is None,
        },
{
    match crate::json::get_member(m, key) {
        Some(Json::Str(s)) => Some(s.as_str()),
        _ => None,
    }
}

/// Reads a Converse response, as `bedrock_output` describes.
pub fn extract_chat_completions(data: &Json) -> (res: Result<ChatCompletionsOutput, String>)
    ensures
        match res {
            Ok(out) => bedrock_output(data@) == Ok::<OutputV, Seq<char>>(out@),
            Err(e) => bedrock_output(data@) == Err::<OutputV, Seq<char>>(e@),
        },
{
    let empty: Vec<Json> = Vec::new();
    let items: &Vec<Json> = match get(data, "output") {
        Some(o) => match get(o, "message") {
            Some(m) => match get(m, "content") {
                Some(Json::Array(a)) => a,
                _ => &empty,
            },
            None => &empty,
        },
        None => &empty,
    };
    let ghost iv = items_view(items@, items@.len());
    proof {
        lemma_items_view(items@, items@.len());
        assert(items_view(empty@, 0) =~= Seq::<JsonV>::empty());
    }
    assert(iv == converse_items(data@));
    let mut text = String::new();
    let mut reasoning: Option<String> = None;
    let mut tool_calls: Vec<ToolCall> = Vec::new();
    let mut i: usize = 0;
    while i < items.len()
        invariant
            i <= items@.len(),
            iv == items_view(items@, items@.len()),
            iv.len() == items@.len(),
            forall|k: int| 0 <= k < items@.len() ==> #[trigger] iv[k] == items@[k]@,
            ({
                let (t, r, c) = bedrock_scan(iv, i as nat);
                &&& t == text@
                &&& r == match reasoning {
                    Some(x) => Some(x@),
                    None => None,
                }
                &&& c == tool_calls@.map_values(|x: ToolCall| x@)
            }),
        decreases items.len() - i,
    {
        let item = &items[i];
        let ghost prev_calls = tool_calls@;
        match get_str(item, "text") {
            Some(v) => {
                if !text.as_str().is_empty() {
                    push_str(&mut text, "\n\n");
                }
                push_str(&mut text, v);
            },
            None => {
                let rt = match get(item, "reasoningContent") {
                    Some(x) => match get(x, "reasoningText") {
                        Some(Json::Object(m)) => Some(m),
                        _ => None,
                    },
                    None => None,
                };
                match rt {
                    Some(m) => match member_str_json(m, "text") {
                        Some(t) => {
                            reasoning = Some(t.to_owned());
                        },
                        None => {},
                    },
                    None => match get(item, "toolUse") {
                        Some(Json::Object(m)) => {
                            match (
                                member_str_json(m, "toolUseId"),
                                member_str_json(m, "name"),
                                crate::json::get_member(m, "input"),
                            ) {
                                (Some(id), Some(name), Some(input)) => {
                                    let call = ToolCall::new(
                                        name.to_owned(),
                                        clone_json(input),
                                        Some(id.to_owned()),
                                    );
                                    tool_calls.push(call);
                                    assert(tool_calls@.map_values(|x: ToolCall| x@)
                                        =~= prev_calls.map_values(|x: ToolCall| x@).push(call@));
                                },
                                _ => {},
                            }
                        },
                        _ => {},
                    },
                }
            },
        }
        i = i + 1;
    }
    let out_text = match reasoning {
        Some(r) => {
            let mut t = String::new();
            push_str(&mut t, "<think>\n");
            push_str(&mut t, r.as_str());
            push_str(&mut t, "\n</think>\n\n");
            push_str(&mut t, text.as_str());
            t
        },
        None => text,
    };
    if out_text.as_str().is_empty() && tool_calls.len() == 0 {
        let mut e = String::new();
        push_str(&mut e, "Invalid response data: ");
        let dt = to_json_string(data);
        push_str(&mut e, dt.as_str());
        return Err(e);
    }
    let input_tokens = match get(data, "usage") {
        Some(u) => get_u64(u, "inputTokens"),
        None => None,
    };
    let output_tokens = match get(data, "usage") {
        Some(u) => get_u64(u, "outputTokens"),
        None => None,
    };
    Ok(
        ChatCompletionsOutput {
            text: out_text,
            tool_calls,
            id: None,
            input_tokens,
            output_tokens,
            extra: None,
        },
    )
}


/// `j[a][b][c]` as a string.
pub open spec fn nested_str3(j: JsonV, a: Seq<char>, b: Seq<char>, c: Seq<char>) -> Option<Seq<char>> {
    match json_get(j, a) {
        Some(x) => nested_str(x, b, c),
        None => None,
    }
}

/// The state after one event of a Converse stream (of the given event type)
/// and the actions it calls for. A tool-use block start hands on the call
/// received so far, if any; a block stop closes an open `<think>` block and
/// hands on the current call; empty arguments are sent as `{}`.
pub open spec fn converse_stream_step(st: StreamStateV, event: Seq<char>, data: JsonV) -> (StreamStateV, Seq<StreamActionV>) {
    let (name, args, id, reasoning) = st;
    if event == "contentBlockStart"@ {
        match nested_object(data, "start"@, "toolUse"@) {
            Some(m) => match (member_str(m, "toolUseId"@), member_str(m, "name"@)) {
                (Some(new_id), Some(new_name)) => (
                    (new_name, Seq::empty(), new_id, reasoning),
                    if name.len() > 0 {
                        seq![
                            StreamActionV::ToolCall(
                                name,
                                if args.len() > 0 {
                                    args
                                } else {
                                    "{}"@
                                },
                                id,
                            ),
                        ]
                    } else {
                        Seq::empty()
                    },
                ),
                _ => (st, Seq::empty()),
            },
            None => (st, Seq::empty()),
        }
    } else if event == "contentBlockDelta"@ {
        match nested_str(data, "delta"@, "text"@) {
            Some(x) => (st, seq![StreamActionV::Text(x)]),
            None => match nested_str3(data, "delta"@, "reasoningContent"@, "text"@) {
                Some(x) => if reasoning {
                    (st, seq![StreamActionV::Text(x)])
                } else {
                    (
                        (name, args, id, true),
                        seq![StreamActionV::Text("<think>\n"@), StreamActionV::Text(x)],
                    )
                },
                None => match nested_str3(data, "delta"@, "toolUse"@, "input"@) {
                    Some(p) => ((name, args + p, id, reasoning), Seq::empty()),
                    None => (st, Seq::empty()),
                },
            },
        }
    } else if event == "contentBlockStop"@ {
        let args2 = if name.len() > 0 && args.len() == 0 {
            "{}"@
        } else {
            args
        };
        (
            (name, args2, id, false),
            (if reasoning {
                seq![StreamActionV::Text("\n</think>\n\n"@)]
            } else {
                Seq::empty()
            }) + if name.len() > 0 {
                seq![StreamActionV::ToolCall(name, args2, id)]
            } else {
                Seq::empty()
            },
        )
    } else {
        (st, Seq::empty())
    }
}

/// What the Converse stream reader keeps between events: the tool call
/// being received (name, argument text, id) and whether a `<think>` block is
/// open.
pub struct ConverseStreamState {
    pub function_name: String,
    pub function_arguments: String,
    pub function_id: String,
    pub reasoning: bool,
}

impl View for ConverseStreamState {
    type V = StreamStateV;

    open spec fn view(&self) -> StreamStateV {
        (self.function_name@, self.function_arguments@, self.function_id@, self.reasoning)
    }
}

fn nested_str3_json<'a>(j: &'a Json, a: &str, b: &str, c: &str) -> (r: Option<&'a str>)
    ensures
        match r {
            Some(s) => nested_str3(j@, a@, b@, c@) == Some(s@),
            None => nested_str3(j@, a@, b@, c@) is None,
        },
{
    match get(j, a) {
        Some(x) => nested_str_json(x, b, c),
        None => None,
    }
}

impl ConverseStreamState {
    /// The state before the first event.
    pub fn new() -> (res: Self)
        ensures
            res@ == (Seq::<char>::empty(), Seq::<char>::empty(), Seq::<char>::empty(), false),
    {
        ConverseStreamState {
            function_name: String::new(),
            function_arguments: String::new(),
            function_id: String::new(),
            reasoning: false,
        }
    }

    /// Takes one event of the stream, as `converse_stream_step` describes.
    pub fn step(&mut self, event: &str, data: &Json) -> (actions: Vec<StreamAction>)
        ensures
            converse_stream_step(old(self)@, event@, data@) == (
                final(self)@,
                actions@.map_values(|a: StreamAction| a@),
            ),
    {
        let mut actions: Vec<StreamAction> = Vec::new();
        proof {
            reveal_strlit("{}");
        }
        if str_eq(event, "contentBlockStart") {
            let tool_use = match get(data, "start") {
                Some(x) => match get(x, "toolUse") {
                    Some(Json::Object(m)) => Some(m),
                    _ => None,
                },
                None => None,
            };
            match tool_use {
                Some(m) => match (member_str_json(m, "toolUseId"), member_str_json(m, "name")) {
                    (Some(id), Some(name)) => {
                        if !self.function_name.as_str().is_empty() {
                            let arguments = if self.function_arguments.as_str().is_empty() {
                                "{}".to_owned()
                            } else {
                                self.function_arguments.clone()
                            };
                            actions.push(
                                StreamAction::ToolCall {
                                    name: self.function_name.clone(),
                                    arguments,
                                    id: self.function_id.clone(),
                                },
                            );
                        }
                        self.function_arguments = String::new();
                        self.function_name = name.to_owned();
                        self.function_id = id.to_owned();
                    },
                    _ => {},
                },
                None => {},
            }
        } else if str_eq(event, "contentBlockDelta") {
            match nested_str_json(data, "delta", "text") {
                Some(x) => {
                    actions.push(StreamAction::Text(x.to_owned()));
                },
                None => match nested_str3_json(data, "delta", "reasoningContent", "text") {
                    Some(x) => {
                        if !self.reasoning {
                            actions.push(StreamAction::Text("<think>\n".to_owned()));
                            self.reasoning = true;
                        }
                        actions.push(StreamAction::Text(x.to_owned()));
                    },
                    None => match nested_str3_json(data, "delta", "toolUse", "input") {
                        Some(p) => {
                            push_str(&mut self.function_arguments, p);
                        },
                        None => {},
                    },
                },
            }
        } else if str_eq(event, "contentBlockStop") {
            if self.reasoning {
                actions.push(StreamAction::Text("\n</think>\n\n".to_owned()));
                self.reasoning = false;
            }
            if !self.function_name.as_str().is_empty() {
                if self.function_arguments.as_str().is_empty() {
                    self.function_arguments = "{}".to_owned();
                }
                actions.push(
                    StreamAction::ToolCall {
                        name: self.function_name.clone(),
                        arguments: self.function_arguments.clone(),
                        id: self.function_id.clone(),
                    },
                );
            }
        }
        assert(actions@.map_values(|a: StreamAction| a@) =~= converse_stream_step(
            old(self)@,
            event@,
            data@,
        ).1);
        actions
    }
}

/// How a message of the Converse event stream that is not an event ends
/// the stream: an exception's payload is base64 text, shown decoded with
/// the message's smithy type; any other message type is unrecognized.
/// Events (`None`) go on to `converse_stream_step`.
pub open spec fn stream_message_failure(message_type: Seq<char>, smithy_type: Seq<char>, payload: Seq<u8>) -> Option<Seq<char>> {
    if message_type == "event"@ {
        None
    } else if message_type == "exception"@ {
        Some(
            match base64_standard_decoded(payload) {
                Ok(b) => "Invalid response data: "@ + lossy_utf8(b) + " (smithy_type: "@
                    + smithy_type + ")"@,
                Err(e) => e,
            },
        )
    } else {
        Some(
            "Unrecognized message, message_type: "@ + message_type + ", smithy_type: "@
                + smithy_type,
        )
    }
}

/// The error a Converse stream message ends the stream with, as
/// `stream_message_failure` describes.
pub fn stream_message_failure_text(message_type: &str, smithy_type: &str, payload: &[u8]) -> (r: Option<String>)
    ensures
        opt_text_of(r) == stream_message_failure(message_type@, smithy_type@, payload@),
{
    if str_eq(message_type, "event") {
        None
    } else if str_eq(message_type, "exception") {
        match base64_decode(payload) {
            Ok(b) => {
                let text = utf8_lossy(b.as_slice());
                let mut e = String::new();
                push_str(&mut e, "Invalid response data: ");
                push_str(&mut e, text.as_str());
                push_str(&mut e, " (smithy_type: ");
                push_str(&mut e, smithy_type);
                push_str(&mut e, ")");
                Some(e)
            },
            Err(e) => Some(e),
        }
    } else {
        let mut e = String::new();
        push_str(&mut e, "Unrecognized message, message_type: ");
        push_str(&mut e, message_type);
        push_str(&mut e, ", smithy_type: ");
        push_str(&mut e, smithy_type);
        Some(e)
    }
}


/// Whether a byte stands for itself in an encoded URI path: ASCII letters
/// and digits, `-`, `_`, `.`, `~`, and the `/` between segments.
pub open spec fn uri_keeps(b: u8) -> bool {
    (48 <= b <= 57) || (65 <= b <= 90) || (97 <= b <= 122) || b == 45 || b == 95 || b == 46 || b
        == 126 || b == 47
}

pub open spec fn hex_upper(n: u8) -> char {
    if n < 10 {
        (n + 48) as char
    } else {
        (n + 55) as char
    }
}

/// The percent-encoding of a URI path's bytes, segment by segment.
pub open spec fn encode_uri_bytes(b: Seq<u8>) -> Seq<char>
    decreases b.len(),
{
    if b.len() == 0 {
        Seq::empty()
    } else {
        encode_uri_bytes(b.drop_last()) + if uri_keeps(b.last()) {
            seq![b.last() as char]
        } else {
            seq!['%', hex_upper(b.last() / 16), hex_upper(b.last() % 16)]
        }
    }
}

/// A URI path with each segment percent-encoded.
pub open spec fn encode_uri(s: Seq<char>) -> Seq<char> {
    encode_uri_bytes(vstd::utf8::encode_utf8(s))
}

fn hex_upper_char(n: u8) -> (c: char)
    requires
        n < 16,
    ensures
        c == hex_upper(n),
{
    if n < 10 {
        (n + 48) as char
    } else {
        (n + 55) as char
    }
}

/// Percent-encodes each segment of a URI path.
pub fn encode_uri_str(s: &str) -> (r: String)
    ensures
        r@ == encode_uri(s@),
{
    let b = s.as_bytes();
    let mut out = String::new();
    let mut i: usize = 0;
    assert(b@.take(0) =~= Seq::<u8>::empty());
    while i < b.len()
        invariant
            i <= b@.len(),
            b@ == vstd::utf8::encode_utf8(s@),
            out@ == encode_uri_bytes(b@.take(i as int)),
        decreases b.len() - i,
    {
        let x = b[i];
        if (48 <= x && x <= 57) || (65 <= x && x <= 90) || (97 <= x && x <= 122) || x == 45 || x
            == 95 || x == 46 || x == 126 || x == 47 {
            push_char(&mut out, x as char);
        } else {
            push_char(&mut out, '%');
            push_char(&mut out, hex_upper_char(x / 16));
            push_char(&mut out, hex_upper_char(x % 16));
        }
        assert(b@.take(i + 1).drop_last() =~= b@.take(i as int));
        i = i + 1;
    }
    assert(b@.take(b@.len() as int) =~= b@);
    out
}

/// The signing key of AWS Signature Version 4 for a day, region and service.
pub open spec fn signing_key_of(key: Seq<char>, date_stamp: Seq<char>, region: Seq<char>, service: Seq<char>) -> Seq<u8> {
    let k_date = hmac_sha256_of(
        vstd::utf8::encode_utf8("AWS4"@ + key),
        vstd::utf8::encode_utf8(date_stamp),
    );
    let k_region = hmac_sha256_of(k_date, vstd::utf8::encode_utf8(region));
    let k_service = hmac_sha256_of(k_region, vstd::utf8::encode_utf8(service));
    hmac_sha256_of(k_service, vstd::utf8::encode_utf8("aws4_request"@))
}

/// The signing key of AWS Signature Version 4, as `signing_key_of` says.
pub fn gen_signing_key(key: &str, date_stamp: &str, region: &str, service: &str) -> (r: Vec<u8>)
    ensures
        r@ == signing_key_of(key@, date_stamp@, region@, service@),
{
    let mut k = String::new();
    push_str(&mut k, "AWS4");
    push_str(&mut k, key);
    let k_date = hmac_sha256(k.as_str().as_bytes(), date_stamp.as_bytes());
    let k_region = hmac_sha256(k_date.as_slice(), region.as_bytes());
    let k_service = hmac_sha256(k_region.as_slice(), service.as_bytes());
    hmac_sha256(k_service.as_slice(), "aws4_request".as_bytes())
}

/// Where a stable sort puts `k` among the sorted `s`.
pub open spec fn key_position(s: Seq<Seq<char>>, k: Seq<char>, i: int) -> int
    decreases s.len() - i,
{
    if i >= s.len() {
        s.len() as int
    } else if !name_le(s[i], k) {
        i
    } else {
        key_position(s, k, i + 1)
    }
}

/// The first `n` keys, sorted (by code point).
pub open spec fn sorted_keys(ks: Seq<Seq<char>>, n: nat) -> Seq<Seq<char>>
    decreases n,
{
    if n == 0 || n > ks.len() {
        Seq::empty()
    } else {
        let s = sorted_keys(ks, (n - 1) as nat);
        s.insert(key_position(s, ks[n - 1], 0), ks[n - 1])
    }
}

/// The value under a header name (empty when there is none).
pub open spec fn header_value(h: Seq<(Seq<char>, Seq<char>)>, k: Seq<char>) -> Seq<char> {
    match map_get(h, k) {
        Some(v) => v,
        None => Seq::empty(),
    }
}

/// The canonical header lines `name:value` of the named headers.
pub open spec fn canonical_headers(keys: Seq<Seq<char>>, h: Seq<(Seq<char>, Seq<char>)>) -> Seq<char>
    decreases keys.len(),
{
    if keys.len() == 0 {
        Seq::empty()
    } else {
        canonical_headers(keys.drop_last(), h) + keys.last() + ":"@ + header_value(h, keys.last())
            + "\n"@
    }
}

/// The headers that take part in signing: the request's, with the host,
/// the content type, the date and the session token set.
pub open spec fn signing_headers(h: Seq<(Seq<char>, Seq<char>)>, host: Seq<char>, amz_date: Seq<char>, token: Option<Seq<char>>) -> Seq<
    (Seq<char>, Seq<char>),
> {
    let h1 = map_insert(
        map_insert(map_insert(h, "host"@, host), "content-type"@, "application/json"@),
        "x-amz-date"@,
        amz_date,
    );
    match token {
        Some(t) => map_insert(h1, "x-amz-security-token"@, t),
        None => h1,
    }
}

/// The headers without the one named `k`.
pub open spec fn without_key(h: Seq<(Seq<char>, Seq<char>)>, k: Seq<char>) -> Seq<(Seq<char>, Seq<char>)>
    decreases h.len(),
{
    if h.len() == 0 {
        Seq::empty()
    } else {
        without_key(h.drop_last(), k) + if h.last().0 == k {
            Seq::empty()
        } else {
            seq![h.last()]
        }
    }
}

/// Credentials for AWS.
pub struct AwsCredentials {
    pub access_key_id: String,
    pub secret_access_key: String,
    pub region: String,
    pub session_token: Option<String>,
}

/// A request to sign.
pub struct AwsRequest {
    pub method: String,
    pub host: String,
    pub service: String,
    pub uri: String,
    pub querystring: String,
    pub headers: Vec<(String, String)>,
    pub body: String,
}

/// A signed request: where it goes, the headers to send (all but `host`,
/// which the connection gives), and the body.
pub struct SignedRequest {
    pub endpoint: String,
    pub headers: Vec<(String, String)>,
    pub body: String,
}

/// The headers of a request signed with AWS Signature Version 4 at
/// `amz_date` (`YYYYMMDDTHHMMSSZ`), the `authorization` header included.
pub open spec fn aws_signed_headers(c: AwsCredentials, r: AwsRequest, amz_date: Seq<char>) -> Seq<
    (Seq<char>, Seq<char>),
> {
    let date_stamp = amz_date.take(8);
    let hs = signing_headers(
        pairs_view(r.headers@),
        r.host@,
        amz_date,
        match c.session_token {
            Some(t) => Some(t@),
            None => None,
        },
    );
    let keys = sorted_keys(hs.map_values(|p: (Seq<char>, Seq<char>)| p.0), hs.len());
    let signed = join_with(keys, ";"@);
    let canonical_request = r.method@ + "\n"@ + encode_uri(r.uri@) + "\n"@ + r.querystring@ + "\n"@
        + canonical_headers(keys, hs) + "\n"@ + signed + "\n"@ + sha256_hex(r.body@);
    let scope = date_stamp + "/"@ + c.region@ + "/"@ + r.service@ + "/aws4_request"@;
    let string_to_sign = "AWS4-HMAC-SHA256\n"@ + amz_date + "\n"@ + scope + "\n"@ + sha256_hex(
        canonical_request,
    );
    let signature = hex_lower(
        hmac_sha256_of(
            signing_key_of(c.secret_access_key@, date_stamp, c.region@, r.service@),
            vstd::utf8::encode_utf8(string_to_sign),
        ),
    );
    let auth = "AWS4-HMAC-SHA256 Credential="@ + c.access_key_id@ + "/"@ + scope
        + ", SignedHeaders="@ + signed + ", Signature="@ + signature;
    map_insert(hs, "authorization"@, auth)
}

/// The `authorization` header that AWS Signature Version 4 gives a canonical
/// request, with `signed` as the list of signed header names.
pub open spec fn sigv4_authorization(
    c: AwsCredentials,
    service: Seq<char>,
    amz_date: Seq<char>,
    signed: Seq<char>,
    canonical_request: Seq<char>,
) -> Seq<char> {
    let date_stamp = amz_date.take(8);
    let scope = date_stamp + "/"@ + c.region@ + "/"@ + service + "/aws4_request"@;
    let string_to_sign = "AWS4-HMAC-SHA256\n"@ + amz_date + "\n"@ + scope + "\n"@ + sha256_hex(
        canonical_request,
    );
    "AWS4-HMAC-SHA256 Credential="@ + c.access_key_id@ + "/"@ + scope + ", SignedHeaders="@
        + signed + ", Signature="@ + hex_lower(
        hmac_sha256_of(
            signing_key_of(c.secret_access_key@, date_stamp, c.region@, service),
            vstd::utf8::encode_utf8(string_to_sign),
        ),
    )
}

/// The signature covers the body: the canonical request that is signed ends
/// with a line holding the lowercase hex SHA-256 of the request body, after a
/// part that the body does not touch. Two requests that differ only in their
/// bodies are signed over canonical requests that differ only in that hash.
pub proof fn lemma_aws_signature_covers_body(
    c: AwsCredentials,
    r1: AwsRequest,
    r2: AwsRequest,
    amz_date: Seq<char>,
)
    requires
        r1.method@ == r2.method@,
        r1.host@ == r2.host@,
        r1.service@ == r2.service@,
        r1.uri@ == r2.uri@,
        r1.querystring@ == r2.querystring@,
        pairs_view(r1.headers@) == pairs_view(r2.headers@),
    ensures
        exists|head: Seq<char>, signed: Seq<char>|
            map_get(aws_signed_headers(c, r1, amz_date), "authorization"@) == Some(
                #[trigger] sigv4_authorization(
                    c,
                    r1.service@,
                    amz_date,
                    signed,
                    head + "\n"@ + sha256_hex(r1.body@),
                ),
            ) && map_get(aws_signed_headers(c, r2, amz_date), "authorization"@) == Some(
                sigv4_authorization(
                    c,
                    r2.service@,
                    amz_date,
                    signed,
                    head + "\n"@ + sha256_hex(r2.body@),
                ),
            ),
{
    let hs = signing_headers(
        pairs_view(r1.headers@),
        r1.host@,
        amz_date,
        match c.session_token {
            Some(t) => Some(t@),
            None => None,
        },
    );
    let keys = sorted_keys(hs.map_values(|p: (Seq<char>, Seq<char>)| p.0), hs.len());
    let signed = join_with(keys, ";"@);
    let head = r1.method@ + "\n"@ + encode_uri(r1.uri@) + "\n"@ + r1.querystring@ + "\n"@
        + canonical_headers(keys, hs) + "\n"@ + signed;
    let a1 = sigv4_authorization(c, r1.service@, amz_date, signed, head + "\n"@ + sha256_hex(r1.body@));
    let a2 = sigv4_authorization(c, r2.service@, amz_date, signed, head + "\n"@ + sha256_hex(r2.body@));
    lemma_map_insert_get(hs, "authorization"@, a1);
    lemma_map_insert_get(hs, "authorization"@, a2);
    assert(aws_signed_headers(c, r1, amz_date) == map_insert(hs, "authorization"@, a1));
    assert(aws_signed_headers(c, r2, amz_date) == map_insert(hs, "authorization"@, a2));
}

fn sort_keys(h: &Vec<(String, String)>) -> (r: Vec<String>)
    ensures
        texts_of(r@) == sorted_keys(
            pairs_view(h@).map_values(|p: (Seq<char>, Seq<char>)| p.0),
            h@.len(),
        ),
{
    let ghost ks = pairs_view(h@).map_values(|p: (Seq<char>, Seq<char>)| p.0);
    let mut out: Vec<String> = Vec::new();
    let mut i: usize = 0;
    while i < h.len()
        invariant
            i <= h@.len(),
            ks == pairs_view(h@).map_values(|p: (Seq<char>, Seq<char>)| p.0),
            texts_of(out@) == sorted_keys(ks, i as nat),
        decreases h.len() - i,
    {
        let k = &h[i].0;
        assert(ks[i as int] == k@);
        let mut p: usize = 0;
        while p < out.len() && name_le_str(out[p].as_str(), k.as_str())
            invariant
                p <= out@.len(),
                key_position(texts_of(out@), k@, 0) == key_position(texts_of(out@), k@, p as int),
            decreases out.len() - p,
        {
            p = p + 1;
        }
        let ghost before = out@;
        out.insert(p, k.clone());
        assert(texts_of(out@) =~= texts_of(before).insert(p as int, k@));
        i = i + 1;
    }
    out
}

fn header_value_of(h: &Vec<(String, String)>, k: &str) -> (r: String)
    ensures
        r@ == header_value(pairs_view(h@), k@),
{
    match find_key(h, k) {
        Some(i) => h[i].1.clone(),
        None => String::new(),
    }
}

/// Signs a request with AWS Signature Version 4 at `amz_date`
/// (`YYYYMMDDTHHMMSSZ`, whose first eight characters are the day), as
/// `aws_signed_headers` describes; the request goes to `https://<host><uri>`.
pub fn aws_sign(credentials: &AwsCredentials, request: AwsRequest, amz_date: &str) -> (r: SignedRequest)
    requires
        amz_date@.len() >= 8,
    ensures
        r.endpoint@ == "https://"@ + request.host@ + request.uri@,
        pairs_view(r.headers@) == without_key(
            aws_signed_headers(*credentials, request, amz_date@),
            "host"@,
        ),
        r.body == request.body,
{
    let AwsRequest { method, host, service, uri, querystring, headers, body } = request;
    let mut headers = headers;
    let mut endpoint = String::new();
    push_str(&mut endpoint, "https://");
    push_str(&mut endpoint, host.as_str());
    push_str(&mut endpoint, uri.as_str());
    let date_stamp = crate::text::take_chars(amz_date, 8);
    header_insert(&mut headers, "host", host.as_str());
    header_insert(&mut headers, "content-type", "application/json");
    header_insert(&mut headers, "x-amz-date", amz_date);
    match &credentials.session_token {
        Some(t) => header_insert(&mut headers, "x-amz-security-token", t.as_str()),
        None => {},
    }
    let ghost hs = pairs_view(headers@);
    let keys = sort_keys(&headers);
    let mut canonical = String::new();
    let mut i: usize = 0;
    let ghost kv = texts_of(keys@);
    assert(kv.take(0) =~= Seq::<Seq<char>>::empty());
    while i < keys.len()
        invariant
            i <= keys@.len(),
            kv == texts_of(keys@),
            hs == pairs_view(headers@),
            canonical@ == canonical_headers(kv.take(i as int), hs),
        decreases keys.len() - i,
    {
        push_str(&mut canonical, keys[i].as_str());
        push_str(&mut canonical, ":");
        let v = header_value_of(&headers, keys[i].as_str());
        push_str(&mut canonical, v.as_str());
        push_str(&mut canonical, "\n");
        assert(kv.take(i + 1).drop_last() =~= kv.take(i as int));
        i = i + 1;
    }
    assert(kv.take(kv.len() as int) =~= kv);
    let signed = join_strs(&keys, ";");
    let payload_hash = sha256(body.as_str());
    let mut canonical_request = String::new();
    push_str(&mut canonical_request, method.as_str());
    push_str(&mut canonical_request, "\n");
    let encoded = encode_uri_str(uri.as_str());
    push_str(&mut canonical_request, encoded.as_str());
    push_str(&mut canonical_request, "\n");
    push_str(&mut canonical_request, querystring.as_str());
    push_str(&mut canonical_request, "\n");
    push_str(&mut canonical_request, canonical.as_str());
    push_str(&mut canonical_request, "\n");
    push_str(&mut canonical_request, signed.as_str());
    push_str(&mut canonical_request, "\n");
    push_str(&mut canonical_request, payload_hash.as_str());
    let mut scope = String::new();
    push_str(&mut scope, date_stamp.as_str());
    push_str(&mut scope, "/");
    push_str(&mut scope, credentials.region.as_str());
    push_str(&mut scope, "/");
    push_str(&mut scope, service.as_str());
    push_str(&mut scope, "/aws4_request");
    let mut string_to_sign = String::new();
    push_str(&mut string_to_sign, "AWS4-HMAC-SHA256\n");
    push_str(&mut string_to_sign, amz_date);
    push_str(&mut string_to_sign, "\n");
    push_str(&mut string_to_sign, scope.as_str());
    push_str(&mut string_to_sign, "\n");
    let request_hash = sha256(canonical_request.as_str());
    push_str(&mut string_to_sign, request_hash.as_str());
    let signing_key = gen_signing_key(
        credentials.secret_access_key.as_str(),
        date_stamp.as_str(),
        credentials.region.as_str(),
        service.as_str(),
    );
    let mac = hmac_sha256(signing_key.as_slice(), string_to_sign.as_str().as_bytes());
    let signature = hex_encode(mac.as_slice());
    let mut auth = String::new();
    push_str(&mut auth, "AWS4-HMAC-SHA256 Credential=");
    push_str(&mut auth, credentials.access_key_id.as_str());
    push_str(&mut auth, "/");
    push_str(&mut auth, scope.as_str());
    push_str(&mut auth, ", SignedHeaders=");
    push_str(&mut auth, signed.as_str());
    push_str(&mut auth, ", Signature=");
    push_str(&mut auth, signature.as_str());
    header_insert(&mut headers, "authorization", auth.as_str());
    assert(pairs_view(headers@) == aws_signed_headers(*credentials, request, amz_date@));
    let ghost all = pairs_view(headers@);
    let mut out: Vec<(String, String)> = Vec::new();
    let mut j: usize = 0;
    assert(all.take(0) =~= Seq::<(Seq<char>, Seq<char>)>::empty());
    while j < headers.len()
        invariant
            j <= headers@.len(),
            all == pairs_view(headers@),
            pairs_view(out@) == without_key(all.take(j as int), "host"@),
        decreases headers.len() - j,
    {
        let ghost before = pairs_view(out@);
        assert(all.take(j + 1).drop_last() =~= all.take(j as int));
        assert(all.take(j + 1).last() == (headers@[j as int].0@, headers@[j as int].1@));
        if !str_eq(headers[j].0.as_str(), "host") {
            out.push((headers[j].0.clone(), headers[j].1.clone()));
            assert(pairs_view(out@) =~= before + seq![all.take(j + 1).last()]);
        } else {
            assert(pairs_view(out@) =~= before + Seq::empty());
        }
        j = j + 1;
    }
    assert(all.take(all.len() as int) =~= all);
    SignedRequest { endpoint, headers: out, body }
}


/// The category of a model by its provider name.
pub open spec fn category_of(model_name: Seq<char>) -> BedrockModelCategory {
    if model_name.len() >= 7 && model_name.take(7) == "openai."@ {
        BedrockModelCategory::OpenAI
    } else {
        BedrockModelCategory::Converse
    }
}

/// The host that serves a category of models in a region.
pub open spec fn bedrock_host(c: BedrockModelCategory, region: Seq<char>) -> Seq<char> {
    match c {
        BedrockModelCategory::OpenAI => "bedrock-mantle."@ + region + ".api.aws"@,
        BedrockModelCategory::Converse => "bedrock-runtime."@ + region + ".amazonaws.com"@,
    }
}

/// The service name that requests for a category are signed for.
pub open spec fn bedrock_service(c: BedrockModelCategory) -> Seq<char> {
    match c {
        BedrockModelCategory::OpenAI => "bedrock-mantle"@,
        BedrockModelCategory::Converse => "bedrock"@,
    }
}

/// The path of a chat request: the model's converse endpoint (the stream
/// one for a streaming request), or the Responses endpoint.
pub open spec fn bedrock_chat_uri(c: BedrockModelCategory, model_name: Seq<char>, stream: bool) -> Seq<char> {
    match c {
        BedrockModelCategory::Converse => "/model/"@ + model_name + if stream {
            "/converse-stream"@
        } else {
            "/converse"@
        },
        BedrockModelCategory::OpenAI => "/openai/v1/responses"@,
    }
}

/// The body of a chat request: the Converse body, or the Responses body.
pub open spec fn bedrock_chat_body(d: ChatCompletionsData, model: Model) -> Result<JsonV, Seq<Seq<char>>> {
    match category_of(model.spec_real_name()) {
        BedrockModelCategory::Converse => bedrock_body(d, model),
        BedrockModelCategory::OpenAI => Ok(responses_body(d, model)),
    }
}

/// The request to sign for a chat completion from a Bedrock model in
/// `region`: a POST to the host, path and service of the model's category,
/// with the body of `bedrock_chat_body` and no headers, as patched for the
/// model (`patched_request`, by the model's name); a request to the
/// Responses API also carries `x-amzn-mantle-client-agent: codex`. Fails
/// with the network image URLs that the Converse API cannot take.
pub fn bedrock_chat_request(
    model: &Model,
    region: &str,
    data: ChatCompletionsData,
    model_patch: Option<&Json>,
    patch_map: Option<&Vec<(String, Json)>>,
) -> (r: Result<(AwsRequest, BedrockModelCategory), Vec<String>>)
    ensures
        match r {
            Ok((req, c)) => {
                let p = patched_request(
                    (""@, Seq::empty(), bedrock_chat_body(data, *model)->Ok_0),
                    opt_patch_view(model_patch),
                    opt_patch_map_view(patch_map),
                    model.name@,
                );
                &&& bedrock_chat_body(data, *model) is Ok
                &&& c == category_of(model.spec_real_name())
                &&& req.method@ == "POST"@
                &&& req.host@ == bedrock_host(c, region@)
                &&& req.service@ == bedrock_service(c)
                &&& req.uri@ == bedrock_chat_uri(c, model.spec_real_name(), data.stream)
                &&& req.querystring@ == Seq::<char>::empty()
                &&& pairs_view(req.headers@) == match c {
                    BedrockModelCategory::OpenAI => map_insert(
                        p.1,
                        "x-amzn-mantle-client-agent"@,
                        "codex"@,
                    ),
                    BedrockModelCategory::Converse => p.1,
                }
                &&& req.body@ == json_text(p.2)
            },
            Err(urls) => bedrock_chat_body(data, *model) == Err::<JsonV, Seq<Seq<char>>>(
                strings_view(urls@),
            ),
        },
{
    let ghost d0 = data;
    let model_name = model.real_name();
    let category = BedrockModelCategory::from_model_name(model_name);
    let stream = data.stream;
    let mut host = String::new();
    let mut uri = String::new();
    let service: &str;
    let body = match category {
        BedrockModelCategory::Converse => {
            push_str(&mut host, "bedrock-runtime.");
            push_str(&mut host, region);
            push_str(&mut host, ".amazonaws.com");
            push_str(&mut uri, "/model/");
            push_str(&mut uri, model_name);
            if stream {
                push_str(&mut uri, "/converse-stream");
            } else {
                push_str(&mut uri, "/converse");
            }
            service = "bedrock";
            match build_chat_completions_body(data, model) {
                Ok(b) => b,
                Err(urls) => {
                    return Err(urls);
                },
            }
        },
        BedrockModelCategory::OpenAI => {
            push_str(&mut host, "bedrock-mantle.");
            push_str(&mut host, region);
            push_str(&mut host, ".api.aws");
            push_str(&mut uri, "/openai/v1/responses");
            service = "bedrock-mantle";
            build_responses_api_body(data, model)
        },
    };
    let mut request_data = RequestData::new("", body);
    proof {
        reveal_strlit("");
        assert(pairs_view(request_data.headers@) =~= Seq::empty());
    }
    patch_request_data(&mut request_data, model_patch, patch_map, model.name.as_str());
    let RequestData { url: _, headers, body } = request_data;
    let mut headers = headers;
    match category {
        BedrockModelCategory::OpenAI => {
            header_insert(&mut headers, "x-amzn-mantle-client-agent", "codex");
        },
        BedrockModelCategory::Converse => {},
    }
    let text = to_json_string(&body);
    Ok((
        AwsRequest {
            method: string_of("POST"),
            host,
            service: string_of(service),
            uri,
            querystring: String::new(),
            headers,
            body: text,
        },
        category,
    ))
}

/// The body of an embeddings request: the texts, and the input type
/// `search_query` for a query or `search_document` for documents.
pub open spec fn embeddings_body(texts: Seq<String>, query: bool) -> JsonV {
    JsonV::Object(
        seq![
            ("texts"@, strings_value(texts)),
            ("input_type"@, JsonV::Str(if query {
                "search_query"@
            } else {
                "search_document"@
            })),
        ],
    )
}

/// The request to sign for embeddings from a Bedrock model in `region`: a
/// POST to the model's `invoke` endpoint on the runtime host, signed for
/// `bedrock`, with the body of `embeddings_body` and no headers, as patched
/// for the model.
pub fn bedrock_embeddings_request(
    model: &Model,
    region: &str,
    data: &EmbeddingsData,
    model_patch: Option<&Json>,
    patch_map: Option<&Vec<(String, Json)>>,
) -> (r: AwsRequest)
    ensures
        ({
            let p = patched_request(
                (""@, Seq::empty(), embeddings_body(data.texts@, data.query)),
                opt_patch_view(model_patch),
                opt_patch_map_view(patch_map),
                model.name@,
            );
            &&& r.method@ == "POST"@
            &&& r.host@ == bedrock_host(BedrockModelCategory::Converse, region@)
            &&& r.service@ == "bedrock"@
            &&& r.uri@ == "/model/"@ + model.spec_real_name() + "/invoke"@
            &&& r.querystring@ == Seq::<char>::empty()
            &&& pairs_view(r.headers@) == p.1
            &&& r.body@ == json_text(p.2)
        }),
{
    let mut host = String::new();
    push_str(&mut host, "bedrock-runtime.");
    push_str(&mut host, region);
    push_str(&mut host, ".amazonaws.com");
    let mut uri = String::new();
    push_str(&mut uri, "/model/");
    push_str(&mut uri, model.real_name());
    push_str(&mut uri, "/invoke");
    let input_type = if data.query {
        "search_query"
    } else {
        "search_document"
    };
    let mut members: Vec<(String, Json)> = Vec::new();
    let texts = strings_json(&data.texts);
    let ghost tv = texts@;
    obj_push(&mut members, "texts", texts);
    assert(members_view(Seq::<(String, Json)>::empty(), 0) =~= Seq::empty());
    obj_push(&mut members, "input_type", jstr(input_type));
    assert(members_view(members@, members@.len()) =~= seq![
        ("texts"@, tv),
        ("input_type"@, JsonV::Str(input_type@)),
    ]);
    let body = jobject(members);
    assert(body@ == embeddings_body(data.texts@, data.query));
    let mut request_data = RequestData::new("", body);
    proof {
        reveal_strlit("");
        assert(pairs_view(request_data.headers@) =~= Seq::empty());
    }
    patch_request_data(&mut request_data, model_patch, patch_map, model.name.as_str());
    let RequestData { url: _, headers, body } = request_data;
    let text = to_json_string(&body);
    AwsRequest {
        method: string_of("POST"),
        host,
        service: string_of("bedrock"),
        uri,
        querystring: String::new(),
        headers,
        body: text,
    }
}

/// A message part as the Responses API takes it.
pub open spec fn input_part(p: MessageContentPart) -> JsonV {
    match p {
        MessageContentPart::Text { text } => JsonV::Object(
            seq![("type"@, JsonV::Str("input_text"@)), ("text"@, JsonV::Str(text@))],
        ),
        MessageContentPart::ImageUrl { image_url } => JsonV::Object(
            seq![("type"@, JsonV::Str("input_image"@)), ("image_url"@, JsonV::Str(image_url.url@))],
        ),
    }
}

/// A call id, empty when there is none.
pub open spec fn call_id_text(id: Option<String>) -> Seq<char> {
    match id {
        Some(i) => i@,
        None => Seq::empty(),
    }
}

pub open spec fn function_call_item(r: ToolResult) -> JsonV {
    JsonV::Object(
        seq![
            ("type"@, JsonV::Str("function_call"@)),
            ("name"@, JsonV::Str(r.call.name@)),
            ("call_id"@, JsonV::Str(call_id_text(r.call.id))),
            ("arguments"@, JsonV::Str(json_text(r.call.arguments@))),
        ],
    )
}

pub open spec fn function_call_output_item(r: ToolResult) -> JsonV {
    JsonV::Object(
        seq![
            ("type"@, JsonV::Str("function_call_output"@)),
            ("call_id"@, JsonV::Str(call_id_text(r.call.id))),
            ("output"@, JsonV::Str(json_text(r.output@))),
        ],
    )
}

/// The input items of the first `n` tool results: each call, then its output.
pub open spec fn call_items(rs: Seq<ToolResult>, n: nat) -> Seq<JsonV>
    decreases n,
{
    if n == 0 || n > rs.len() {
        Seq::empty()
    } else {
        call_items(rs, (n - 1) as nat) + seq![
            function_call_item(rs[n - 1]),
            function_call_output_item(rs[n - 1]),
        ]
    }
}

/// The instructions (system texts, one per line) and the input items of
/// the first `n` messages.
pub open spec fn responses_scan(ms: Seq<Message>, n: nat) -> (Seq<char>, Seq<JsonV>)
    decreases n,
{
    if n == 0 || n > ms.len() {
        (Seq::empty(), Seq::empty())
    } else {
        let (ins, input) = responses_scan(ms, (n - 1) as nat);
        let m = ms[n - 1];
        if m.role == MessageRole::System {
            match m.content {
                MessageContent::Text(t) => (
                    if ins.len() > 0 {
                        ins + "\n"@ + t@
                    } else {
                        t@
                    },
                    input,
                ),
                _ => (ins, input),
            }
        } else {
            match m.content {
                MessageContent::Text(t) => (
                    ins,
                    input.push(role_message(m.role.spec_name(), JsonV::Str(t@))),
                ),
                MessageContent::Array(parts) => (
                    ins,
                    input.push(
                        role_message(
                            m.role.spec_name(),
                            JsonV::Array(parts@.map_values(|p: MessageContentPart| input_part(p))),
                        ),
                    ),
                ),
                MessageContent::ToolCalls(tc) => (
                    ins,
                    input + call_items(tc.tool_results@, tc.tool_results@.len()),
                ),
            }
        }
    }
}

/// A function as the Responses API takes it.
pub open spec fn function_tool_value(f: FunctionDeclaration) -> JsonV {
    JsonV::Object(
        seq![
            ("type"@, JsonV::Str("function"@)),
            ("name"@, JsonV::Str(f.name@)),
            ("description"@, JsonV::Str(f.description@)),
            ("parameters"@, schema_value(f.parameters)),
            ("strict"@, JsonV::Bool(false)),
        ],
    )
}

/// The request body for the OpenAI Responses API: system texts become the
/// instructions, the other messages the input.
pub open spec fn responses_body(d: ChatCompletionsData, model: Model) -> JsonV {
    let (ins, input) = responses_scan(d.messages@, d.messages@.len());
    JsonV::Object(
        seq![
            ("model"@, JsonV::Str(model.spec_real_name())),
            ("input"@, JsonV::Array(input)),
            ("stream"@, JsonV::Bool(d.stream)),
        ] + opt_member(
            "instructions"@,
            if ins.len() > 0 {
                Some(JsonV::Str(ins))
            } else {
                None
            },
        ) + opt_member("temperature"@, number_value(d.temperature)) + opt_member(
            "top_p"@,
            number_value(d.top_p),
        ) + opt_member(
            "max_output_tokens"@,
            match model.spec_max_tokens_param() {
                Some(v) => Some(int_value(v)),
                None => None,
            },
        ) + opt_member(
            "tools"@,
            match d.functions {
                Some(fs) => Some(
                    JsonV::Array(fs@.map_values(|f: FunctionDeclaration| function_tool_value(f))),
                ),
                None => None,
            },
        ),
    )
}

/// The text of a plain-text message; empty for any other content.
pub open spec fn message_plain_text(m: Message) -> Seq<char> {
    match m.content {
        MessageContent::Text(t) => t@,
        _ => Seq::empty(),
    }
}

/// The input item a plain-text message is sent as: its own role name and its text.
pub open spec fn plain_input_item(m: Message) -> JsonV {
    JsonV::Object(
        seq![
            ("role"@, JsonV::Str(m.role.spec_name())),
            ("content"@, JsonV::Str(message_plain_text(m))),
        ],
    )
}

proof fn lemma_responses_scan_plain(ms: Seq<Message>, n: nat)
    requires
        n <= ms.len(),
        forall|i: int|
            0 <= i < ms.len() ==> (#[trigger] ms[i]).role != MessageRole::System
                && ms[i].content is Text,
    ensures
        responses_scan(ms, n).1 =~= Seq::new(n, |i: int| plain_input_item(ms[i])),
    decreases n,
{
    if n > 0 {
        lemma_responses_scan_plain(ms, (n - 1) as nat);
        let m = ms[n - 1];
        assert(m.role != MessageRole::System && m.content is Text);
    }
}

/// In a conversation with no system message and only plain texts, the
/// Responses API body's input holds one item per message, in order, each
/// under that message's own role name and with its text as the content.
pub proof fn lemma_responses_input_roles(d: ChatCompletionsData, model: Model)
    requires
        forall|i: int|
            0 <= i < d.messages@.len() ==> (#[trigger] d.messages@[i]).role
                != MessageRole::System && d.messages@[i].content is Text,
    ensures
        json_get(responses_body(d, model), "input"@) == Some(
            JsonV::Array(
                Seq::new(d.messages@.len(), |i: int| plain_input_item(d.messages@[i])),
            ),
        ),
{
    let ms = d.messages@;
    lemma_responses_scan_plain(ms, ms.len());
    let (ins, input) = responses_scan(ms, ms.len());
    let s0 = seq![
        ("model"@, JsonV::Str(model.spec_real_name())),
        ("input"@, JsonV::Array(input)),
        ("stream"@, JsonV::Bool(d.stream)),
    ];
    let body = responses_body(d, model);
    let mb = match body {
        JsonV::Object(m) => m,
        _ => Seq::empty(),
    };
    let rest = mb.subrange(3, mb.len() as int);
    assert(mb =~= s0 + rest);
    lemma_member_concat(s0, rest);
    reveal_strlit("model");
    reveal_strlit("input");
    assert("model"@ != "input"@) by {
        assert("model"@[0] != "input"@[0]);
    }
    assert(s0.drop_first()[0] == ("input"@, JsonV::Array(input)));
    assert(member(s0.drop_first(), "input"@) == Some(JsonV::Array(input)));
    assert(member(s0, "input"@) == Some(JsonV::Array(input)));
}

fn input_part_json(p: &MessageContentPart) -> (r: Json)
    ensures
        r@ == input_part(*p),
{
    let mut m: Vec<(String, Json)> = Vec::new();
    assert(members_view(Seq::<(String, Json)>::empty(), 0) =~= Seq::empty());
    match p {
        MessageContentPart::Text { text } => {
            obj_push(&mut m, "type", jstr("input_text"));
            obj_push(&mut m, "text", jstr(text.as_str()));
            assert(members_view(m@, m@.len()) =~= seq![
                ("type"@, JsonV::Str("input_text"@)),
                ("text"@, JsonV::Str(text@)),
            ]);
        },
        MessageContentPart::ImageUrl { image_url } => {
            obj_push(&mut m, "type", jstr("input_image"));
            obj_push(&mut m, "image_url", jstr(image_url.url.as_str()));
            assert(members_view(m@, m@.len()) =~= seq![
                ("type"@, JsonV::Str("input_image"@)),
                ("image_url"@, JsonV::Str(image_url.url@)),
            ]);
        },
    }
    jobject(m)
}

fn call_id_string(id: &Option<String>) -> (r: String)
    ensures
        r@ == call_id_text(*id),
{
    match id {
        Some(i) => i.clone(),
        None => String::new(),
    }
}

fn function_call_item_json(r: &ToolResult) -> (j: Json)
    ensures
        j@ == function_call_item(*r),
{
    let mut a: Vec<(String, Json)> = Vec::new();
    assert(members_view(Seq::<(String, Json)>::empty(), 0) =~= Seq::empty());
    obj_push(&mut a, "type", jstr("function_call"));
    obj_push(&mut a, "name", jstr(r.call.name.as_str()));
    obj_push(&mut a, "call_id", Json::Str(call_id_string(&r.call.id)));
    obj_push(&mut a, "arguments", Json::Str(to_json_string(&r.call.arguments)));
    assert(members_view(a@, a@.len()) =~= seq![
        ("type"@, JsonV::Str("function_call"@)),
        ("name"@, JsonV::Str(r.call.name@)),
        ("call_id"@, JsonV::Str(call_id_text(r.call.id))),
        ("arguments"@, JsonV::Str(json_text(r.call.arguments@))),
    ]);
    jobject(a)
}

fn function_call_output_json(r: &ToolResult) -> (j: Json)
    ensures
        j@ == function_call_output_item(*r),
{
    let mut b: Vec<(String, Json)> = Vec::new();
    assert(members_view(Seq::<(String, Json)>::empty(), 0) =~= Seq::empty());
    obj_push(&mut b, "type", jstr("function_call_output"));
    obj_push(&mut b, "call_id", Json::Str(call_id_string(&r.call.id)));
    obj_push(&mut b, "output", Json::Str(to_json_string(&r.output)));
    assert(members_view(b@, b@.len()) =~= seq![
        ("type"@, JsonV::Str("function_call_output"@)),
        ("call_id"@, JsonV::Str(call_id_text(r.call.id))),
        ("output"@, JsonV::Str(json_text(r.output@))),
    ]);
    jobject(b)
}

fn push_call_items(r: &ToolResult, out: &mut Vec<Json>)
    ensures
        items_view(final(out)@, final(out)@.len()) == items_view(old(out)@, old(out)@.len())
            + seq![function_call_item(*r), function_call_output_item(*r)],
{
    let ghost before = items_view(out@, out@.len());
    arr_push(out, function_call_item_json(r));
    arr_push(out, function_call_output_json(r));
    assert(items_view(out@, out@.len()) =~= before + seq![
        function_call_item(*r),
        function_call_output_item(*r),
    ]);
}

fn function_tool_json(f: &FunctionDeclaration) -> (r: Json)
    ensures
        r@ == function_tool_value(*f),
{
    let mut m: Vec<(String, Json)> = Vec::new();
    assert(members_view(Seq::<(String, Json)>::empty(), 0) =~= Seq::empty());
    obj_push(&mut m, "type", jstr("function"));
    obj_push(&mut m, "name", jstr(f.name.as_str()));
    obj_push(&mut m, "description", jstr(f.description.as_str()));
    obj_push(&mut m, "parameters", schema_json(&f.parameters));
    obj_push(&mut m, "strict", Json::Bool(false));
    assert(members_view(m@, m@.len()) =~= seq![
        ("type"@, JsonV::Str("function"@)),
        ("name"@, JsonV::Str(f.name@)),
        ("description"@, JsonV::Str(f.description@)),
        ("parameters"@, schema_value(f.parameters)),
        ("strict"@, JsonV::Bool(false)),
    ]);
    jobject(m)
}

/// Builds the request body for the OpenAI Responses API, as
/// `responses_body` describes.
#[verifier::rlimit(40)]
pub fn build_responses_api_body(data: ChatCompletionsData, model: &Model) -> (r: Json)
    ensures
        r@ == responses_body(data, *model),
{
    let ms = &data.messages;
    proof {
        reveal_strlit("\n");
    }
    assert("\n"@ =~= seq!['\n']);
    let mut instructions = String::new();
    let mut input: Vec<Json> = Vec::new();
    let mut i: usize = 0;
    assert(items_view(input@, 0) =~= Seq::<JsonV>::empty());
    while i < ms.len()
        invariant
            i <= ms@.len(),
            "\n"@ =~= seq!['\n'],
            ({
                let (ins, inp) = responses_scan(ms@, i as nat);
                ins == instructions@ && inp == items_view(input@, input@.len())
            }),
        decreases ms.len() - i,
    {
        let m = &ms[i];
        if m.role.is_system() {
            match &m.content {
                MessageContent::Text(t) => {
                    if !instructions.as_str().is_empty() {
                        push_char(&mut instructions, '\n');
                    }
                    push_str(&mut instructions, t.as_str());
                },
                _ => {},
            }
        } else {
            match &m.content {
                MessageContent::Text(t) => {
                    arr_push(&mut input, role_message_json(m.role.name(), jstr(t.as_str())));
                },
                MessageContent::Array(parts) => {
                    let mut c: Vec<Json> = Vec::new();
                    let mut k: usize = 0;
                    assert(items_view(c@, 0) =~= Seq::<JsonV>::empty());
                    while k < parts.len()
                        invariant
                            k <= parts@.len(),
                            items_view(c@, c@.len()) == parts@.take(k as int).map_values(
                                |p: MessageContentPart| input_part(p),
                            ),
                        decreases parts.len() - k,
                    {
                        arr_push(&mut c, input_part_json(&parts[k]));
                        assert(parts@.take(k + 1).map_values(|p: MessageContentPart| input_part(p))
                            =~= parts@.take(k as int).map_values(
                            |p: MessageContentPart| input_part(p),
                        ).push(input_part(parts@[k as int])));
                        k = k + 1;
                    }
                    assert(parts@.take(parts@.len() as int) =~= parts@);
                    arr_push(&mut input, role_message_json(m.role.name(), jarray(c)));
                },
                MessageContent::ToolCalls(tc) => {
                    let rs = &tc.tool_results;
                    let ghost start = items_view(input@, input@.len());
                    let mut k: usize = 0;
                    assert(start + call_items(rs@, 0) =~= start);
                    while k < rs.len()
                        invariant
                            k <= rs@.len(),
                            items_view(input@, input@.len()) == start + call_items(rs@, k as nat),
                        decreases rs.len() - k,
                    {
                        push_call_items(&rs[k], &mut input);
                        assert(start + call_items(rs@, (k + 1) as nat) =~= start + call_items(
                            rs@,
                            k as nat,
                        ) + seq![function_call_item(rs@[k as int]), function_call_output_item(rs@[k as int])]);
                        k = k + 1;
                    }
                },
            }
        }
        i = i + 1;
    }
    let mut body: Vec<(String, Json)> = Vec::new();
    assert(members_view(Seq::<(String, Json)>::empty(), 0) =~= Seq::empty());
    obj_push(&mut body, "model", jstr(model.real_name()));
    let ghost iv = items_view(input@, input@.len());
    obj_push(&mut body, "input", jarray(input));
    obj_push(&mut body, "stream", Json::Bool(data.stream));
    assert(members_view(body@, body@.len()) =~= seq![
        ("model"@, JsonV::Str(model.spec_real_name())),
        ("input"@, JsonV::Array(iv)),
        ("stream"@, JsonV::Bool(data.stream)),
    ]);
    let ins_json = if !instructions.as_str().is_empty() {
        Some(Json::Str(instructions))
    } else {
        None
    };
    push_opt(&mut body, "instructions", ins_json);
    let temp_json = match &data.temperature {
        Some(t) => Some(Json::Number(crate::input::duplicate_number(t))),
        None => None,
    };
    push_opt(&mut body, "temperature", temp_json);
    let top_p_json = match &data.top_p {
        Some(t) => Some(Json::Number(crate::input::duplicate_number(t))),
        None => None,
    };
    push_opt(&mut body, "top_p", top_p_json);
    let max_tokens = match model.max_tokens_param() {
        Some(v) => Some(jint(v)),
        None => None,
    };
    push_opt(&mut body, "max_output_tokens", max_tokens);
    let tools = match &data.functions {
        Some(fs) => {
            let mut t: Vec<Json> = Vec::new();
            let mut k: usize = 0;
            assert(items_view(t@, 0) =~= Seq::<JsonV>::empty());
            while k < fs.len()
                invariant
                    k <= fs@.len(),
                    items_view(t@, t@.len()) == fs@.take(k as int).map_values(
                        |f: FunctionDeclaration| function_tool_value(f),
                    ),
                decreases fs.len() - k,
            {
                arr_push(&mut t, function_tool_json(&fs[k]));
                assert(fs@.take(k + 1).map_values(|f: FunctionDeclaration| function_tool_value(f))
                    =~= fs@.take(k as int).map_values(
                    |f: FunctionDeclaration| function_tool_value(f),
                ).push(function_tool_value(fs@[k as int])));
                k = k + 1;
            }
            assert(fs@.take(fs@.len() as int) =~= fs@);
            Some(jarray(t))
        },
        None => None,
    };
    push_opt(&mut body, "tools", tools);
    jobject(body)
}


/// `text` with the texts among the first `n` content items appended, each
/// after a blank line when there is text before it.
pub open spec fn append_texts(text: Seq<char>, cs: Seq<JsonV>, n: nat) -> Seq<char>
    decreases n,
{
    if n == 0 || n > cs.len() {
        text
    } else {
        let t = append_texts(text, cs, (n - 1) as nat);
        match json_get_str(cs[n - 1], "text"@) {
            Some(v) => if t.len() > 0 {
                t + "\n\n"@ + v
            } else {
                v
            },
            None => t,
        }
    }
}

/// A tool call of a Responses API reply before its arguments are parsed:
/// name, argument text, call id.
pub type RawCallV = (Seq<char>, Seq<char>, Option<Seq<char>>);

/// The text and the function calls of the first `n` output items of a
/// Responses API reply.
pub open spec fn responses_output_scan(items: Seq<JsonV>, n: nat) -> (Seq<char>, Seq<RawCallV>)
    decreases n,
{
    if n == 0 || n > items.len() {
        (Seq::empty(), Seq::empty())
    } else {
        let (t, c) = responses_output_scan(items, (n - 1) as nat);
        let item = items[n - 1];
        let t2 = match json_get(item, "content"@) {
            Some(JsonV::Array(cs)) => append_texts(t, cs, cs.len()),
            _ => t,
        };
        let c2 = if json_get_str(item, "type"@) == Some("function_call"@) {
            match (json_get_str(item, "name"@), json_get_str(item, "arguments"@)) {
                (Some(nm), Some(a)) => c.push((nm, a, json_get_str(item, "call_id"@))),
                _ => c,
            }
        } else {
            c
        };
        (t2, c2)
    }
}

/// A tool call of a Responses API reply before its arguments are parsed.
pub struct RawToolCall {
    pub name: String,
    pub arguments: String,
    pub call_id: Option<String>,
}

impl View for RawToolCall {
    type V = RawCallV;

    open spec fn view(&self) -> RawCallV {
        (
            self.name@,
            self.arguments@,
            match self.call_id {
                Some(c) => Some(c@),
                None => None,
            },
        )
    }
}

/// What a Responses API reply gives: text, function calls (arguments still
/// as text), id, token counts, extra fields.
pub struct ResponsesOutput {
    pub text: String,
    pub calls: Vec<RawToolCall>,
    pub id: Option<String>,
    pub input_tokens: Option<u64>,
    pub output_tokens: Option<u64>,
    pub extra: Option<Json>,
}

/// The output items of a reply.
pub open spec fn output_items(data: JsonV) -> Seq<JsonV> {
    match json_get(data, "output"@) {
        Some(JsonV::Array(a)) => a,
        _ => Seq::empty(),
    }
}

fn append_texts_json(text: &mut String, cs: &Vec<Json>)
    ensures
        final(text)@ == append_texts(old(text)@, items_view(cs@, cs@.len()), cs@.len()),
{
    let ghost cv = items_view(cs@, cs@.len());
    proof {
        lemma_items_view(cs@, cs@.len());
    }
    let mut k: usize = 0;
    while k < cs.len()
        invariant
            k <= cs@.len(),
            cv == items_view(cs@, cs@.len()),
            cv.len() == cs@.len(),
            forall|j: int| 0 <= j < cs@.len() ==> #[trigger] cv[j] == cs@[j]@,
            text@ == append_texts(old(text)@, cv, k as nat),
        decreases cs.len() - k,
    {
        match get_str(&cs[k], "text") {
            Some(t) => {
                if !text.as_str().is_empty() {
                    push_str(text, "\n\n");
                }
                push_str(text, t);
            },
            None => {},
        }
        k = k + 1;
    }
}

/// Reads a Responses API reply: the texts of the output items' contents
/// joined by blank lines, the function calls, the id, the token counts and
/// the extra fields.
pub fn responses_output(data: &Json) -> (r: ResponsesOutput)
    ensures
        ({
            let (t, c) = responses_output_scan(output_items(data@), output_items(data@).len());
            &&& r.text@ == t
            &&& r.calls@.map_values(|x: RawToolCall| x@) == c
            &&& opt_text_of(r.id) == json_get_str(data@, "id"@)
            &&& r.input_tokens == usage_u64(data@, "input_tokens"@)
            &&& r.output_tokens == usage_u64(data@, "output_tokens"@)
            &&& opt_view(r.extra) == json_get(data@, "extra_fields"@)
        }),
{
    let empty: Vec<Json> = Vec::new();
    let items: &Vec<Json> = match get(data, "output") {
        Some(Json::Array(a)) => a,
        _ => &empty,
    };
    let ghost iv = items_view(items@, items@.len());
    proof {
        lemma_items_view(items@, items@.len());
        assert(items_view(empty@, 0) =~= Seq::<JsonV>::empty());
    }
    assert(iv == output_items(data@));
    let mut text = String::new();
    let mut calls: Vec<RawToolCall> = Vec::new();
    let mut i: usize = 0;
    while i < items.len()
        invariant
            i <= items@.len(),
            iv == items_view(items@, items@.len()),
            iv.len() == items@.len(),
            forall|k: int| 0 <= k < items@.len() ==> #[trigger] iv[k] == items@[k]@,
            ({
                let (t, c) = responses_output_scan(iv, i as nat);
                t == text@ && c == calls@.map_values(|x: RawToolCall| x@)
            }),
        decreases items.len() - i,
    {
        let item = &items[i];
        let ghost prev = responses_output_scan(iv, i as nat);
        assert(iv[i as int] == item@);
        match get(item, "content") {
            Some(c) => {
                match c {
                    Json::Array(cs) => {
                        proof {
                            lemma_items_view(cs@, cs@.len());
                        }
                        append_texts_json(&mut text, cs);
                    },
                    _ => {
                        assert(!(c@ is Array));
                    },
                }
            },
            None => {},
        }
        assert(text@ == match json_get(item@, "content"@) {
            Some(JsonV::Array(cs)) => append_texts(prev.0, cs, cs.len()),
            _ => prev.0,
        });
        let is_call = match get_str(item, "type") {
            Some(t) => str_eq(t, "function_call"),
            None => false,
        };
        if is_call {
            match (get_str(item, "name"), get_str(item, "arguments")) {
                (Some(nm), Some(a)) => {
                    let ghost before = calls@;
                    let c = RawToolCall {
                        name: nm.to_owned(),
                        arguments: a.to_owned(),
                        call_id: match get_str(item, "call_id") {
                            Some(x) => Some(x.to_owned()),
                            None => None,
                        },
                    };
                    let ghost cv = c@;
                    calls.push(c);
                    assert(calls@.map_values(|x: RawToolCall| x@) =~= before.map_values(
                        |x: RawToolCall| x@,
                    ).push(cv));
                },
                _ => {},
            }
        }
        i = i + 1;
    }
    ResponsesOutput {
        text,
        calls,
        id: match get_str(data, "id") {
            Some(x) => Some(x.to_owned()),
            None => None,
        },
        input_tokens: match get(data, "usage") {
            Some(u) => get_u64(u, "input_tokens"),
            None => None,
        },
        output_tokens: match get(data, "usage") {
            Some(u) => get_u64(u, "output_tokens"),
            None => None,
        },
        extra: match get(data, "extra_fields") {
            Some(x) => Some(clone_json(x)),
            None => None,
        },
    }
}

/// The error for a function call whose arguments are not JSON.
pub open spec fn non_json_arguments_message(c: RawCallV) -> Seq<char> {
    "Tool call '"@ + c.0 + "' has non-JSON arguments '"@ + c.1 + "'"@
}

/// The output of a Responses API reply, given each function call's
/// arguments as read from their text (`None` where they are not JSON): the
/// error for the first call whose arguments are not JSON, else the text, the
/// calls with their read arguments, the id, the token counts and the extra
/// fields of the reply.
pub fn responses_chat_output(out: ResponsesOutput, arguments: Vec<Option<Json>>) -> (r: Result<
    ChatCompletionsOutput,
    String,
>)
    requires
        arguments@.len() == out.calls@.len(),
    ensures
        match r {
            Ok(o) => {
                &&& forall|i: int| 0 <= i < arguments@.len() ==> #[trigger] arguments@[i] is Some
                &&& o.text == out.text
                &&& o.id == out.id
                &&& o.input_tokens == out.input_tokens
                &&& o.output_tokens == out.output_tokens
                &&& o.extra == out.extra
                &&& o.tool_calls@.len() == out.calls@.len()
                &&& forall|i: int|
                    0 <= i < out.calls@.len() ==> #[trigger] o.tool_calls@[i]@ == (
                        out.calls@[i].name@,
                        arguments@[i]->Some_0@,
                        opt_text_of(out.calls@[i].call_id),
                        None::<JsonV>,
                    )
            },
            Err(e) => exists|i: int|
                #![trigger arguments@[i]]
                0 <= i < arguments@.len() && arguments@[i] is None && (forall|j: int|
                    0 <= j < i ==> arguments@[j] is Some) && e@ == non_json_arguments_message(
                    out.calls@[i]@,
                ),
        },
{
    let ResponsesOutput { text, calls, id, input_tokens, output_tokens, extra } = out;
    let mut slots = arguments;
    let mut tool_calls: Vec<ToolCall> = Vec::new();
    let ghost args0 = slots@;
    let mut i: usize = 0;
    while i < calls.len()
        invariant
            i <= calls@.len(),
            calls@ == out.calls@,
            slots@.len() == calls@.len(),
            args0 == arguments@,
            args0.len() == calls@.len(),
            forall|k: int| i <= k < calls@.len() ==> slots@[k] == args0[k],
            forall|k: int| 0 <= k < i ==> #[trigger] args0[k] is Some,
            tool_calls@.len() == i,
            forall|k: int|
                0 <= k < i ==> #[trigger] tool_calls@[k]@ == (
                    calls@[k].name@,
                    args0[k]->Some_0@,
                    opt_text_of(calls@[k].call_id),
                    None::<JsonV>,
                ),
        decreases calls.len() - i,
    {
        let mut slot: Option<Json> = None;
        std::mem::swap(&mut slot, &mut slots[i]);
        match slot {
            Some(a) => {
                let call_id = match &calls[i].call_id {
                    Some(c) => Some(c.clone()),
                    None => None,
                };
                tool_calls.push(ToolCall::new(calls[i].name.clone(), a, call_id));
            },
            None => {
                let mut e = String::new();
                push_str(&mut e, "Tool call '");
                push_str(&mut e, calls[i].name.as_str());
                push_str(&mut e, "' has non-JSON arguments '");
                push_str(&mut e, calls[i].arguments.as_str());
                push_str(&mut e, "'");
                assert(args0[i as int] is None);
                assert(e@ =~= non_json_arguments_message(calls@[i as int]@));
                assert(forall|j: int| 0 <= j < i ==> args0[j] is Some);
                return Err(e);
            },
        }
        i = i + 1;
    }
    Ok(ChatCompletionsOutput { text, tool_calls, id, input_tokens, output_tokens, extra })
}


/// The text of an optional string.
pub open spec fn opt_text_of(s: Option<String>) -> Option<Seq<char>> {
    match s {
        Some(t) => Some(t@),
        None => None,
    }
}

/// What the Responses stream reader does for an event: hand on text, hand
/// on a function call (arguments as text), or stop.
pub enum ResponsesAction {
    Text(String),
    ToolCall { name: String, arguments: String, call_id: Option<String> },
    Done,
}

pub enum ResponsesActionV {
    Text(Seq<char>),
    ToolCall(Seq<char>, Seq<char>, Option<Seq<char>>),
    Done,
}

impl View for ResponsesAction {
    type V = ResponsesActionV;

    open spec fn view(&self) -> ResponsesActionV {
        match self {
            ResponsesAction::Text(t) => ResponsesActionV::Text(t@),
            ResponsesAction::ToolCall { name, arguments, call_id } => ResponsesActionV::ToolCall(
                name@,
                arguments@,
                opt_text_of(*call_id),
            ),
            ResponsesAction::Done => ResponsesActionV::Done,
        }
    }
}

/// The function call being received: name, argument text, call id.
pub struct ResponsesStreamState {
    pub function_name: String,
    pub function_arguments: String,
    pub function_call_id: String,
}

impl View for ResponsesStreamState {
    type V = (Seq<char>, Seq<char>, Seq<char>);

    open spec fn view(&self) -> (Seq<char>, Seq<char>, Seq<char>) {
        (self.function_name@, self.function_arguments@, self.function_call_id@)
    }
}

/// The state after one event of a Responses API stream and what it calls
/// for. Argument deltas accumulate (the first name and call id seen are
/// kept); a `done` event hands on the call (its own fields first, then the
/// accumulated ones) and starts afresh; a completion event stops.
pub open spec fn responses_stream_step(st: (Seq<char>, Seq<char>, Seq<char>), data: JsonV) -> ((Seq<char>, Seq<char>, Seq<char>), Option<ResponsesActionV>) {
    let (name, args, call_id) = st;
    let t = match json_get_str(data, "type"@) {
        Some(t) => t,
        None => Seq::empty(),
    };
    if t == "response.output_text.delta"@ {
        match json_get_str(data, "delta"@) {
            Some(d) => (st, Some(ResponsesActionV::Text(d))),
            None => (st, None),
        }
    } else if t == "response.function_call_arguments.delta"@ {
        let args2 = match json_get_str(data, "delta"@) {
            Some(d) => args + d,
            None => args,
        };
        let name2 = if name.len() == 0 {
            match json_get_str(data, "name"@) {
                Some(n) => n,
                None => name,
            }
        } else {
            name
        };
        let id2 = if call_id.len() == 0 {
            match json_get_str(data, "call_id"@) {
                Some(c) => c,
                None => call_id,
            }
        } else {
            call_id
        };
        ((name2, args2, id2), None)
    } else if t == "response.function_call_arguments.done"@ {
        let n = match json_get_str(data, "name"@) {
            Some(x) => x,
            None => name,
        };
        let a = match json_get_str(data, "arguments"@) {
            Some(x) => x,
            None => args,
        };
        let c = match json_get_str(data, "call_id"@) {
            Some(x) => Some(x),
            None => if call_id.len() == 0 {
                None
            } else {
                Some(call_id)
            },
        };
        ((Seq::empty(), Seq::empty(), Seq::empty()), Some(ResponsesActionV::ToolCall(n, a, c)))
    } else if t == "response.completed"@ || t == "response.done"@ || t == "response.finished"@ {
        (st, Some(ResponsesActionV::Done))
    } else {
        (st, None)
    }
}

impl ResponsesStreamState {
    pub fn new() -> (r: Self)
        ensures
            r@ == (Seq::<char>::empty(), Seq::<char>::empty(), Seq::<char>::empty()),
    {
        ResponsesStreamState {
            function_name: String::new(),
            function_arguments: String::new(),
            function_call_id: String::new(),
        }
    }

    /// Takes one event of the stream, as `responses_stream_step` describes.
    pub fn step(&mut self, data: &Json) -> (r: Option<ResponsesAction>)
        ensures
            responses_stream_step(old(self)@, data@) == (
                final(self)@,
                match r {
                    Some(a) => Some(a@),
                    None => None,
                },
            ),
    {
        proof {
            reveal_strlit("");
        }
        let t = match get_str(data, "type") {
            Some(t) => t,
            None => "",
        };
        assert(t@ == match json_get_str(data@, "type"@) {
            Some(t) => t,
            None => Seq::<char>::empty(),
        });
        if str_eq(t, "response.output_text.delta") {
            match get_str(data, "delta") {
                Some(d) => Some(ResponsesAction::Text(d.to_owned())),
                None => None,
            }
        } else if str_eq(t, "response.function_call_arguments.delta") {
            match get_str(data, "delta") {
                Some(d) => push_str(&mut self.function_arguments, d),
                None => {},
            }
            if self.function_name.as_str().is_empty() {
                match get_str(data, "name") {
                    Some(n) => {
                        self.function_name = n.to_owned();
                    },
                    None => {},
                }
            }
            if self.function_call_id.as_str().is_empty() {
                match get_str(data, "call_id") {
                    Some(c) => {
                        self.function_call_id = c.to_owned();
                    },
                    None => {},
                }
            }
            None
        } else if str_eq(t, "response.function_call_arguments.done") {
            let name = match get_str(data, "name") {
                Some(x) => x.to_owned(),
                None => self.function_name.clone(),
            };
            let arguments = match get_str(data, "arguments") {
                Some(x) => x.to_owned(),
                None => self.function_arguments.clone(),
            };
            let call_id = match get_str(data, "call_id") {
                Some(x) => Some(x.to_owned()),
                None => if self.function_call_id.as_str().is_empty() {
                    None
                } else {
                    Some(self.function_call_id.clone())
                },
            };
            self.function_name = String::new();
            self.function_arguments = String::new();
            self.function_call_id = String::new();
            Some(ResponsesAction::ToolCall { name, arguments, call_id })
        } else if str_eq(t, "response.completed") || str_eq(t, "response.done") || str_eq(
            t,
            "response.finished",
        ) {
            Some(ResponsesAction::Done)
        } else {
            None
        }
    }
}


/// The first position of `c` in `s`.
pub open spec fn first_index_of(s: Seq<char>, c: char) -> Option<int>
    decreases s.len(),
{
    if s.len() == 0 {
        None
    } else if s[0] == c {
        Some(0)
    } else {
        match first_index_of(s.drop_first(), c) {
            Some(i) => Some(i + 1),
            None => None,
        }
    }
}

pub proof fn lemma_first_index_of(s: Seq<char>, c: char)
    ensures
        match first_index_of(s, c) {
            Some(i) => 0 <= i < s.len() && s[i] == c && forall|k: int| 0 <= k < i ==> s[k] != c,
            None => forall|k: int| 0 <= k < s.len() ==> s[k] != c,
        },
    decreases s.len(),
{
    if s.len() > 0 && s[0] != c {
        lemma_first_index_of(s.drop_first(), c);
        assert forall|k: int| 1 <= k < s.len() implies s[k] == s.drop_first()[k - 1] by {}
    }
}

/// The lines of a text: split at `\n`, a `\r` before the `\n` dropped, no
/// line after a final `\n`.
pub open spec fn text_lines(s: Seq<char>) -> Seq<Seq<char>>
    decreases s.len(),
{
    match first_index_of(s, '\n') {
        Some(i) => {
            proof {
                lemma_first_index_of(s, '\n');
            }
            let line = s.take(i);
            seq![
                if line.len() > 0 && line.last() == '\r' {
                    line.drop_last()
                } else {
                    line
                },
            ] + text_lines(s.skip(i + 1))
        },
        None => if s.len() == 0 {
            Seq::empty()
        } else {
            seq![s]
        },
    }
}

/// The credentials named among the first `n` lines of `aws configure
/// export-credentials` output (`NAME=value` lines; the last mention wins).
pub open spec fn creds_scan(lines: Seq<Seq<char>>, n: nat) -> (Option<Seq<char>>, Option<Seq<char>>, Option<Seq<char>>)
    decreases n,
{
    if n == 0 || n > lines.len() {
        (None, None, None)
    } else {
        let (a, b, c) = creds_scan(lines, (n - 1) as nat);
        let line = lines[n - 1];
        match first_index_of(line, '=') {
            Some(i) => {
                let k = crate::text::trim(line.take(i));
                let v = crate::text::trim(line.skip(i + 1));
                if k == "AWS_ACCESS_KEY_ID"@ {
                    (Some(v), b, c)
                } else if k == "AWS_SECRET_ACCESS_KEY"@ {
                    (a, Some(v), c)
                } else if k == "AWS_SESSION_TOKEN"@ {
                    (a, b, Some(v))
                } else {
                    (a, b, c)
                }
            },
            None => (a, b, c),
        }
    }
}

/// The access key id, secret key and session token in the output of `aws
/// configure export-credentials`, when both keys are there.
pub open spec fn export_credentials(text: Seq<char>) -> Option<(Seq<char>, Seq<char>, Option<Seq<char>>)> {
    let lines = text_lines(text);
    match creds_scan(lines, lines.len()) {
        (Some(a), Some(b), c) => Some((a, b, c)),
        _ => None,
    }
}

fn sub_string(v: &Vec<char>, from: usize, to: usize) -> (r: String)
    requires
        from <= to <= v@.len(),
    ensures
        r@ == v@.subrange(from as int, to as int),
{
    let mut out = String::new();
    let mut k = from;
    while k < to
        invariant
            from <= k <= to <= v@.len(),
            out@ == v@.subrange(from as int, k as int),
        decreases to - k,
    {
        push_char(&mut out, v[k]);
        assert(out@ =~= v@.subrange(from as int, k + 1));
        k = k + 1;
    }
    out
}

fn first_index_from(v: &Vec<char>, from: usize, to: usize, c: char) -> (r: Option<usize>)
    requires
        from <= to <= v@.len(),
    ensures
        match r {
            Some(i) => first_index_of(v@.subrange(from as int, to as int), c) == Some(i - from)
                && from <= i < to,
            None => first_index_of(v@.subrange(from as int, to as int), c) is None,
        },
{
    let ghost s = v@.subrange(from as int, to as int);
    proof {
        lemma_first_index_of(s, c);
    }
    let mut k = from;
    while k < to
        invariant
            from <= k <= to <= v@.len(),
            s == v@.subrange(from as int, to as int),
            forall|j: int| from <= j < k ==> v@[j] != c,
            match first_index_of(s, c) {
                Some(i) => 0 <= i < s.len() && s[i] == c && forall|j: int| 0 <= j < i ==> s[j] != c,
                None => forall|j: int| 0 <= j < s.len() ==> s[j] != c,
            },
        decreases to - k,
    {
        if v[k] == c {
            assert(s[k - from] == c);
            assert(first_index_of(s, c) == Some(k - from));
            return Some(k);
        }
        k = k + 1;
    }
    None
}

/// The end of the line that starts at `pos` (before `\r\n` or `\n`, or
/// the end of the text) and where the next line starts.
fn next_line(v: &Vec<char>, pos: usize) -> (r: (usize, usize))
    requires
        pos < v@.len(),
    ensures
        pos <= r.0 <= r.1 <= v@.len(),
        pos < r.1,
        text_lines(v@.skip(pos as int)) == seq![v@.subrange(pos as int, r.0 as int)] + text_lines(
            v@.skip(r.1 as int),
        ),
{
    let ghost rest = v@.skip(pos as int);
    assert(v@.subrange(pos as int, v@.len() as int) =~= rest);
    proof {
        lemma_first_index_of(rest, '\n');
    }
    match first_index_from(v, pos, v.len(), '\n') {
        Some(i) => {
            let e = if i > pos && v[i - 1] == '\r' {
                i - 1
            } else {
                i
            };
            assert(rest.skip(i - pos + 1) =~= v@.skip(i + 1));
            assert(rest.take(i - pos) =~= v@.subrange(pos as int, i as int));
            if e < i {
                assert(v@.subrange(pos as int, i as int).drop_last() =~= v@.subrange(
                    pos as int,
                    e as int,
                ));
            }
            (e, i + 1)
        },
        None => {
            assert(v@.skip(v@.len() as int) =~= Seq::<char>::empty());
            assert(rest =~= v@.subrange(pos as int, v@.len() as int));
            (v.len(), v.len())
        },
    }
}

/// The credentials after one more line.
fn scan_line(
    v: &Vec<char>,
    from: usize,
    to: usize,
    akid: &mut Option<String>,
    sak: &mut Option<String>,
    st: &mut Option<String>,
)
    requires
        from <= to <= v@.len(),
    ensures
        ({
            let line = v@.subrange(from as int, to as int);
            let prev = (opt_text_of(*old(akid)), opt_text_of(*old(sak)), opt_text_of(*old(st)));
            let next = (opt_text_of(*final(akid)), opt_text_of(*final(sak)), opt_text_of(*final(st)));
            next == match first_index_of(line, '=') {
                Some(i) => {
                    let k = crate::text::trim(line.take(i));
                    let val = crate::text::trim(line.skip(i + 1));
                    if k == "AWS_ACCESS_KEY_ID"@ {
                        (Some(val), prev.1, prev.2)
                    } else if k == "AWS_SECRET_ACCESS_KEY"@ {
                        (prev.0, Some(val), prev.2)
                    } else if k == "AWS_SESSION_TOKEN"@ {
                        (prev.0, prev.1, Some(val))
                    } else {
                        prev
                    }
                },
                None => prev,
            }
        }),
{
    let ghost line = v@.subrange(from as int, to as int);
    match first_index_from(v, from, to, '=') {
        Some(eq) => {
            let k = sub_string(v, from, eq);
            let val = sub_string(v, eq + 1, to);
            let kt = crate::text::trim_str(k.as_str());
            let vt = crate::text::trim_str(val.as_str());
            assert(line.take(eq - from) =~= k@);
            assert(line.skip(eq - from + 1) =~= val@);
            if str_eq(kt.as_str(), "AWS_ACCESS_KEY_ID") {
                *akid = Some(vt);
            } else if str_eq(kt.as_str(), "AWS_SECRET_ACCESS_KEY") {
                *sak = Some(vt);
            } else if str_eq(kt.as_str(), "AWS_SESSION_TOKEN") {
                *st = Some(vt);
            }
        },
        None => {},
    }
}

/// Reads the output of `aws configure export-credentials`, as
/// `export_credentials` describes.
#[verifier::spinoff_prover]
#[verifier::rlimit(40)]
pub fn parse_export_credentials(text: &str) -> (r: Option<(String, String, Option<String>)>)
    ensures
        match r {
            Some((a, b, c)) => export_credentials(text@) == Some((a@, b@, opt_text_of(c))),
            None => export_credentials(text@) is None,
        },
{
    let v = chars_of(text);
    let mut akid: Option<String> = None;
    let mut sak: Option<String> = None;
    let mut st: Option<String> = None;
    let mut pos: usize = 0;
    let ghost all = text_lines(text@);
    let ghost mut done: int = 0;
    assert(v@.skip(0) =~= text@);
    assert(all.take(0) + text_lines(v@.skip(0)) =~= all);
    while pos < v.len()
        invariant
            v@ == text@,
            pos <= v@.len(),
            all == text_lines(text@),
            0 <= done <= all.len(),
            all == all.take(done) + text_lines(v@.skip(pos as int)),
            creds_scan(all, done as nat) == (opt_text_of(akid), opt_text_of(sak), opt_text_of(st)),
        decreases v.len() - pos,
    {
        let (end, next) = next_line(&v, pos);
        let ghost line = v@.subrange(pos as int, end as int);
        proof {
            assert(all[done] == line) by {
                assert((all.take(done) + text_lines(v@.skip(pos as int)))[done] == line);
            }
            assert(all.take(done + 1) =~= all.take(done).push(line));
            assert(all == all.take(done + 1) + text_lines(v@.skip(next as int)));
        }
        scan_line(&v, pos, end, &mut akid, &mut sak, &mut st);
        proof {
            done = done + 1;
        }
        pos = next;
    }
    assert(v@.skip(pos as int) =~= Seq::<char>::empty());
    assert(all.take(done) =~= all);
    match (akid, sak) {
        (Some(a), Some(b)) => Some((a, b, st)),
        _ => None,
    }
}

} // verus!
