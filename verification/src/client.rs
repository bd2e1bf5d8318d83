use vstd::prelude::*;
use fancy_regex::Regex;
use crate::function::{FunctionDeclaration, ToolCall, ToolCallV};
use crate::history::CacheContentBlock;
use crate::json::{
    get, get_str, json_get, json_get_str, lemma_members_view, members_view, merge, merge_patch, Json,
    JsonNumber, JsonV,
};
use crate::message::Message;
use crate::text::{push_str, str_eq};

verus! {

/// Everything a chat-completions request is built from.
pub struct ChatCompletionsData {
    pub messages: Vec<Message>,
    pub temperature: Option<JsonNumber>,
    pub top_p: Option<JsonNumber>,
    pub functions: Option<Vec<FunctionDeclaration>>,
    pub stream: bool,
    pub cache_content_blocks: Vec<CacheContentBlock>,
    pub cache_warm: bool,
}

/// What a chat-completions call produced.
pub struct ChatCompletionsOutput {
    pub text: String,
    pub tool_calls: Vec<ToolCall>,
    pub id: Option<String>,
    pub input_tokens: Option<u64>,
    pub output_tokens: Option<u64>,
    pub extra: Option<Json>,
}

/// An output as a value: text, tool calls, id, input and output token
/// counts, extra data.
pub type OutputV = (Seq<char>, Seq<ToolCallV>, Option<Seq<char>>, Option<u64>, Option<u64>, Option<JsonV>);

impl View for ChatCompletionsOutput {
    type V = OutputV;

    open spec fn view(&self) -> OutputV {
        (
            self.text@,
            self.tool_calls@.map_values(|c: ToolCall| c@),
            match self.id {
                Some(i) => Some(i@),
                None => None,
            },
            self.input_tokens,
            self.output_tokens,
            match self.extra {
                Some(e) => Some(e@),
                None => None,
            },
        )
    }
}

impl ChatCompletionsOutput {
    /// An output made of text only.
    pub fn new(text: &str) -> (res: Self)
        ensures
            res.text@ == text@,
            res.tool_calls@.len() == 0,
            res.id is None,
            res.input_tokens is None,
            res.output_tokens is None,
            res.extra is None,
    {
        ChatCompletionsOutput {
            text: text.to_owned(),
            tool_calls: Vec::new(),
            id: None,
            input_tokens: None,
            output_tokens: None,
            extra: None,
        }
    }
}

/// Texts to embed.
pub struct EmbeddingsData {
    pub texts: Vec<String>,
    pub query: bool,
}

impl EmbeddingsData {
    pub fn new(texts: Vec<String>, query: bool) -> (res: Self)
        ensures
            res.texts == texts,
            res.query == query,
    {
        EmbeddingsData { texts, query }
    }
}

/// Documents to rank against a query.
pub struct RerankData {
    pub query: String,
    pub documents: Vec<String>,
    pub top_n: usize,
}

impl RerankData {
    pub fn new(query: String, documents: Vec<String>, top_n: usize) -> (res: Self)
        ensures
            res.query == query,
            res.documents == documents,
            res.top_n == top_n,
    {
        RerankData { query, documents, top_n }
    }
}

/// Connection settings of a client.
pub struct ExtraConfig {
    pub proxy: Option<String>,
    pub connect_timeout: Option<u64>,
}


/// The texts of a list of string pairs.
pub open spec fn pairs_view(v: Seq<(String, String)>) -> Seq<(Seq<char>, Seq<char>)> {
    v.map_values(|p: (String, String)| (p.0@, p.1@))
}

/// The position of the entry with key `k`, if any.
pub open spec fn key_index(s: Seq<(Seq<char>, Seq<char>)>, k: Seq<char>) -> Option<int>
    decreases s.len(),
{
    if s.len() == 0 {
        None
    } else if s.last().0 == k {
        Some(s.len() - 1)
    } else {
        key_index(s.drop_last(), k)
    }
}

/// An ordered map after inserting `k`: an existing entry keeps its place
/// and takes the new value, a new one goes last.
pub open spec fn map_insert(s: Seq<(Seq<char>, Seq<char>)>, k: Seq<char>, v: Seq<char>) -> Seq<
    (Seq<char>, Seq<char>),
> {
    match key_index(s, k) {
        Some(i) => s.update(i, (k, v)),
        None => s.push((k, v)),
    }
}

/// An ordered map after removing `k` the fast way: the last entry takes the
/// removed entry's place.
pub open spec fn map_swap_remove(s: Seq<(Seq<char>, Seq<char>)>, k: Seq<char>) -> Seq<
    (Seq<char>, Seq<char>),
> {
    match key_index(s, k) {
        Some(i) => s.update(i, s.last()).drop_last(),
        None => s,
    }
}

/// The value under `k`, if any.
pub open spec fn map_get(s: Seq<(Seq<char>, Seq<char>)>, k: Seq<char>) -> Option<Seq<char>> {
    match key_index(s, k) {
        Some(i) => Some(s[i].1),
        None => None,
    }
}

pub proof fn lemma_key_index(s: Seq<(Seq<char>, Seq<char>)>, k: Seq<char>)
    ensures
        match key_index(s, k) {
            Some(i) => 0 <= i < s.len() && s[i].0 == k,
            None => forall|j: int| 0 <= j < s.len() ==> s[j].0 != k,
        },
    decreases s.len(),
{
    if s.len() > 0 && s.last().0 != k {
        lemma_key_index(s.drop_last(), k);
        assert forall|j: int| 0 <= j < s.len() - 1 implies s.drop_last()[j] == s[j] by {}
    }
}

/// The entry `key_index` finds is the last one with the key.
proof fn lemma_key_index_last(s: Seq<(Seq<char>, Seq<char>)>, k: Seq<char>)
    ensures
        match key_index(s, k) {
            Some(i) => forall|j: int| i < j < s.len() ==> (#[trigger] s[j]).0 != k,
            None => true,
        },
    decreases s.len(),
{
    if s.len() > 0 && s.last().0 != k {
        lemma_key_index_last(s.drop_last(), k);
        lemma_key_index(s.drop_last(), k);
        match key_index(s.drop_last(), k) {
            Some(i) => {
                assert forall|j: int| i < j < s.len() implies (#[trigger] s[j]).0 != k by {
                    if j < s.len() - 1 {
                        assert(s.drop_last()[j] == s[j]);
                    }
                }
            },
            None => {},
        }
    }
}

/// The last entry with the key is the one `key_index` finds.
proof fn lemma_key_index_at(s: Seq<(Seq<char>, Seq<char>)>, k: Seq<char>, i: int)
    requires
        0 <= i < s.len(),
        s[i].0 == k,
        forall|j: int| i < j < s.len() ==> (#[trigger] s[j]).0 != k,
    ensures
        key_index(s, k) == Some(i),
    decreases s.len(),
{
    if i < s.len() - 1 {
        assert(s[s.len() - 1].0 != k);
        assert forall|j: int| i < j < s.len() - 1 implies (#[trigger] s.drop_last()[j]).0 != k by {
            assert(s.drop_last()[j] == s[j]);
        }
        lemma_key_index_at(s.drop_last(), k, i);
    }
}

/// Reading a key back after inserting it gives the inserted value.
pub proof fn lemma_map_insert_get(s: Seq<(Seq<char>, Seq<char>)>, k: Seq<char>, v: Seq<char>)
    ensures
        map_get(map_insert(s, k, v), k) == Some(v),
{
    lemma_key_index(s, k);
    lemma_key_index_last(s, k);
    match key_index(s, k) {
        Some(i) => {
            let s2 = s.update(i, (k, v));
            assert forall|j: int| i < j < s2.len() implies (#[trigger] s2[j]).0 != k by {
                assert(s2[j] == s[j]);
            }
            lemma_key_index_at(s2, k, i);
        },
        None => {
            let s2 = s.push((k, v));
            lemma_key_index_at(s2, k, s.len() as int);
        },
    }
}

/// The position of the entry with key `k`.
pub fn find_key(h: &Vec<(String, String)>, k: &str) -> (r: Option<usize>)
    ensures
        match r {
            Some(i) => key_index(pairs_view(h@), k@) == Some(i as int) && i < h@.len(),
            None => key_index(pairs_view(h@), k@) is None,
        },
{
    let ghost hv = pairs_view(h@);
    let mut n = h.len();
    assert(hv.take(n as int) =~= hv);
    while n > 0
        invariant
            n <= h@.len(),
            hv == pairs_view(h@),
            key_index(hv, k@) == key_index(hv.take(n as int), k@),
        decreases n,
    {
        assert(hv.take(n as int).drop_last() =~= hv.take(n - 1));
        assert(hv.take(n as int).last() == (h@[n - 1].0@, h@[n - 1].1@));
        if str_eq(h[n - 1].0.as_str(), k) {
            return Some(n - 1);
        }
        n = n - 1;
    }
    None
}

/// Sets `k` to `v`, as `map_insert` describes.
pub fn header_insert(h: &mut Vec<(String, String)>, k: &str, v: &str)
    ensures
        pairs_view(final(h)@) == map_insert(pairs_view(old(h)@), k@, v@),
{
    let ghost before = pairs_view(h@);
    match find_key(h, k) {
        Some(i) => {
            h.set(i, (k.to_owned(), v.to_owned()));
            assert(pairs_view(h@) =~= before.update(i as int, (k@, v@)));
        },
        None => {
            h.push((k.to_owned(), v.to_owned()));
            assert(pairs_view(h@) =~= before.push((k@, v@)));
        },
    }
}

/// Removes `k`, as `map_swap_remove` describes.
pub fn header_swap_remove(h: &mut Vec<(String, String)>, k: &str)
    ensures
        pairs_view(final(h)@) == map_swap_remove(pairs_view(old(h)@), k@),
{
    let ghost before = pairs_view(h@);
    match find_key(h, k) {
        Some(i) => {
            let last = h.pop();
            match last {
                Some(e) => {
                    if i < h.len() {
                        h.set(i, e);
                    }
                },
                None => {},
            }
            assert(pairs_view(h@) =~= before.update(i as int, before.last()).drop_last());
        },
        None => {},
    }
}


/// The headers after the header members of a patch: a string sets the
/// header, a null removes it, anything else leaves it.
pub open spec fn patched_headers(h: Seq<(Seq<char>, Seq<char>)>, hm: Seq<(Seq<char>, JsonV)>, n: nat) -> Seq<
    (Seq<char>, Seq<char>),
>
    decreases n,
{
    if n == 0 || n > hm.len() {
        h
    } else {
        let h1 = patched_headers(h, hm, (n - 1) as nat);
        match hm[n - 1].1 {
            JsonV::Str(s) => map_insert(h1, hm[n - 1].0, s),
            JsonV::Null => map_swap_remove(h1, hm[n - 1].0),
            _ => h1,
        }
    }
}

/// A request as a value: URL, headers, body.
pub type RequestV = (Seq<char>, Seq<(Seq<char>, Seq<char>)>, JsonV);

/// A request after a patch: `url` replaces the URL, `body` is merged into
/// the body as a JSON merge patch, and each member of `headers` sets (a
/// string) or removes (null) a header.
pub open spec fn apply_patch_spec(r: RequestV, patch: JsonV) -> RequestV {
    (
        match json_get_str(patch, "url"@) {
            Some(u) => u,
            None => r.0,
        },
        match json_get(patch, "headers"@) {
            Some(JsonV::Object(hm)) => patched_headers(r.1, hm, hm.len()),
            _ => r.1,
        },
        match json_get(patch, "body"@) {
            Some(b) => merge_patch(r.2, b),
            None => r.2,
        },
    )
}

/// An HTTP request to make: where it goes, its headers in order, its body.
pub struct RequestData {
    pub url: String,
    pub headers: Vec<(String, String)>,
    pub body: Json,
}

impl View for RequestData {
    type V = RequestV;

    open spec fn view(&self) -> RequestV {
        (self.url@, pairs_view(self.headers@), self.body@)
    }
}

impl RequestData {
    /// A request to `url` with the body and no headers.
    pub fn new(url: &str, body: Json) -> (r: Self)
        ensures
            r.url@ == url@,
            r.headers@.len() == 0,
            r.body == body,
    {
        RequestData { url: url.to_owned(), headers: Vec::new(), body }
    }

    /// Sets the `authorization` header to `Bearer <auth>`.
    pub fn bearer_auth(&mut self, auth: &str)
        ensures
            pairs_view(final(self).headers@) == map_insert(
                pairs_view(old(self).headers@),
                "authorization"@,
                "Bearer "@ + auth@,
            ),
            final(self).url == old(self).url,
            final(self).body == old(self).body,
    {
        let mut v = String::new();
        push_str(&mut v, "Bearer ");
        push_str(&mut v, auth);
        header_insert(&mut self.headers, "authorization", v.as_str());
    }

    /// Sets a header.
    pub fn header(&mut self, key: &str, value: &str)
        ensures
            pairs_view(final(self).headers@) == map_insert(
                pairs_view(old(self).headers@),
                key@,
                value@,
            ),
            final(self).url == old(self).url,
            final(self).body == old(self).body,
    {
        header_insert(&mut self.headers, key, value);
    }

    /// Applies a patch: `url` replaces the URL, `body` is merged into the
    /// body as a JSON merge patch, and each member of `headers` sets (a
    /// string) or removes (null) a header.
    pub fn apply_patch(&mut self, patch: &Json)
        ensures
            final(self)@ == apply_patch_spec(old(self)@, patch@),
            final(self).url@ == match json_get_str(patch@, "url"@) {
                Some(u) => u,
                None => old(self).url@,
            },
            final(self).body@ == match json_get(patch@, "body"@) {
                Some(b) => merge_patch(old(self).body@, b),
                None => old(self).body@,
            },
            pairs_view(final(self).headers@) == match json_get(patch@, "headers"@) {
                Some(JsonV::Object(hm)) => patched_headers(
                    pairs_view(old(self).headers@),
                    hm,
                    hm.len(),
                ),
                _ => pairs_view(old(self).headers@),
            },
    {
        match get_str(patch, "url") {
            Some(u) => {
                self.url = u.to_owned();
            },
            None => {},
        }
        match get(patch, "body") {
            Some(b) => {
                let mut body = Json::Null;
                std::mem::swap(&mut body, &mut self.body);
                self.body = merge(body, b);
            },
            None => {},
        }
        match get(patch, "headers") {
            Some(Json::Object(hm)) => {
                let ghost hv = members_view(hm@, hm@.len());
                let ghost h0 = pairs_view(self.headers@);
                let ghost url1 = self.url;
                let ghost body1 = self.body;
                proof {
                    lemma_members_view(hm@, hm@.len());
                }
                let mut i: usize = 0;
                while i < hm.len()
                    invariant
                        i <= hm@.len(),
                        hv == members_view(hm@, hm@.len()),
                        hv.len() == hm@.len(),
                        forall|k: int| 0 <= k < hm@.len() ==> #[trigger] hv[k] == (
                            hm@[k].0@,
                            hm@[k].1@,
                        ),
                        pairs_view(self.headers@) == patched_headers(h0, hv, i as nat),
                        self.url == url1,
                        self.body == body1,
                    decreases hm.len() - i,
                {
                    let k = hm[i].0.as_str();
                    match &hm[i].1 {
                        Json::Str(v) => {
                            header_insert(&mut self.headers, k, v.as_str());
                        },
                        Json::Null => {
                            header_swap_remove(&mut self.headers, k);
                        },
                        _ => {},
                    }
                    i = i + 1;
                }
            },
            _ => {},
        }
    }
}


/// The request for embeddings from a client that has no embeddings API:
/// always refused.
pub fn noop_prepare_embeddings<T>(_client: &T, _data: &EmbeddingsData) -> (r: Result<RequestData, String>)
    ensures
        match r {
            Ok(_) => false,
            Err(e) => e@ == "The client doesn't support embeddings api"@,
        },
{
    Err("The client doesn't support embeddings api".to_owned())
}

/// The request for a reranking from a client that has no rerank API:
/// always refused.
pub fn noop_prepare_rerank<T>(_client: &T, _data: &RerankData) -> (r: Result<RequestData, String>)
    ensures
        match r {
            Ok(_) => false,
            Err(e) => e@ == "The client doesn't support rerank api"@,
        },
{
    Err("The client doesn't support rerank api".to_owned())
}


/// A pattern key with every `/` that does not follow a backslash turned
/// into a backslash and `/`.
pub open spec fn slash_escaped(key: Seq<char>) -> Seq<char>
    decreases key.len(),
{
    if key.len() == 0 {
        Seq::empty()
    } else {
        let prev = slash_escaped(key.drop_last());
        let c = key.last();
        if c == '/' && !(key.len() >= 2 && key[key.len() - 2] == '\\') {
            prev + seq!['\\', '/']
        } else {
            prev.push(c)
        }
    }
}

/// Whether escaping a key's slashes with the regex engine fails (its
/// backtracking limit is exceeded on the key).
pub uninterp spec fn slash_escape_fails(key: Seq<char>) -> bool;

/// Whether `text` matches `pattern`, or none when the pattern does not
/// compile or the match fails (`fancy_regex::Regex::new`, then `is_match`).
pub uninterp spec fn regex_matches(pattern: Seq<char>, text: Seq<char>) -> Option<bool>;

/// Calls `fancy_regex::Regex::try_replacen` with the pattern `(?<!\\)/`,
/// no limit and the replacement `\/` (a constant pattern that compiles, and
/// a replacement without `$` expansions): each `/` that does not follow a
/// backslash becomes `\/`. The call fails, and the result is none, where the
/// engine's backtracking limit is exceeded; on which keys that happens is
/// left to the name `slash_escape_fails`.
#[verifier::external_body]
fn escape_slashes(key: &str) -> (r: Option<String>)
    ensures
        match r {
            Some(s) => !slash_escape_fails(key@) && s@ == slash_escaped(key@),
            None => slash_escape_fails(key@),
        },
{
    match Regex::new(r"(?<!\\)/") {
        Ok(re) => re.try_replacen(key, 0, r"\/").ok().map(|c| c.into_owned()),
        Err(_) => None,
    }
}

/// Calls `fancy_regex::Regex::new` on the pattern and `is_match` on the text.
#[verifier::external_body]
pub(crate) fn regex_match(pattern: &str, text: &str) -> (r: Option<bool>)
    ensures
        r == regex_matches(pattern@, text@),
{
    match Regex::new(pattern) {
        Ok(re) => re.is_match(text).ok(),
        Err(_) => None,
    }
}

/// The anchored pattern a patch key stands for: `^(<key>)$` with its
/// slashes escaped.
pub open spec fn key_pattern(key: Seq<char>) -> Seq<char> {
    "^("@ + slash_escaped(key) + ")$"@
}

/// The position of the first patch whose key, as an anchored pattern,
/// matches the model name, among the patches from `i` on; a key whose
/// slashes cannot be escaped matches nothing.
pub open spec fn first_matching_patch(patches: Seq<(Seq<char>, JsonV)>, name: Seq<char>, i: int) -> Option<int>
    decreases patches.len() - i,
{
    if i < 0 || i >= patches.len() {
        None
    } else if !slash_escape_fails(patches[i].0) && regex_matches(key_pattern(patches[i].0), name)
        == Some(true) {
        Some(i)
    } else {
        first_matching_patch(patches, name, i + 1)
    }
}

/// The patch for a model among patches keyed by model-name patterns: the
/// first whose key matches the whole name (a key whose slashes the regex
/// engine cannot escape matches nothing).
pub fn select_patch<'a>(patches: &'a Vec<(String, Json)>, model_name: &str) -> (r: Option<&'a Json>)
    ensures
        match first_matching_patch(members_view(patches@, patches@.len()), model_name@, 0) {
            Some(i) => r is Some && r->Some_0@ == members_view(patches@, patches@.len())[i].1,
            None => r is None,
        },
{
    let ghost pv = members_view(patches@, patches@.len());
    proof {
        lemma_members_view(patches@, patches@.len());
    }
    let mut i: usize = 0;
    while i < patches.len()
        invariant
            i <= patches@.len(),
            pv == members_view(patches@, patches@.len()),
            pv.len() == patches@.len(),
            forall|k: int| 0 <= k < patches@.len() ==> #[trigger] pv[k] == (
                patches@[k].0@,
                patches@[k].1@,
            ),
            first_matching_patch(pv, model_name@, 0) == first_matching_patch(
                pv,
                model_name@,
                i as int,
            ),
        decreases patches.len() - i,
    {
        match escape_slashes(patches[i].0.as_str()) {
            Some(escaped) => {
                let mut pattern = String::new();
                push_str(&mut pattern, "^(");
                push_str(&mut pattern, escaped.as_str());
                push_str(&mut pattern, ")$");
                proof {
                    reveal_strlit("^(");
                    reveal_strlit(")$");
                }
                assert(pattern@ == key_pattern(pv[i as int].0));
                let matched = regex_match(pattern.as_str(), model_name);
                if matched == Some(true) {
                    return Some(&patches[i].1);
                }
            },
            None => {},
        }
        i = i + 1;
    }
    None
}


/// Which API a request is for.
#[derive(Debug, Clone, Copy, PartialEq, Eq, Structural)]
pub enum ApiKind {
    ChatCompletions,
    Embeddings,
    Rerank,
}

/// Patches for each API, keyed by model-name patterns.
pub struct RequestPatch {
    pub chat_completions: Option<Vec<(String, Json)>>,
    pub embeddings: Option<Vec<(String, Json)>>,
    pub rerank: Option<Vec<(String, Json)>>,
}

impl RequestPatch {
    /// The patches for one API.
    pub fn extract(&self, kind: ApiKind) -> (r: &Option<Vec<(String, Json)>>)
        ensures
            *r == match kind {
                ApiKind::ChatCompletions => self.chat_completions,
                ApiKind::Embeddings => self.embeddings,
                ApiKind::Rerank => self.rerank,
            },
    {
        match kind {
            ApiKind::ChatCompletions => &self.chat_completions,
            ApiKind::Embeddings => &self.embeddings,
            ApiKind::Rerank => &self.rerank,
        }
    }
}

/// A request after the patches for a model: the model's own patch first,
/// then the first patch of the map whose key pattern matches the model's
/// name.
pub open spec fn patched_request(
    r: RequestV,
    model_patch: Option<JsonV>,
    patch_map: Option<Seq<(Seq<char>, JsonV)>>,
    model_name: Seq<char>,
) -> RequestV {
    let mid = match model_patch {
        Some(p) => apply_patch_spec(r, p),
        None => r,
    };
    match patch_map {
        Some(m) => match first_matching_patch(m, model_name, 0) {
            Some(i) => apply_patch_spec(mid, m[i].1),
            None => mid,
        },
        None => mid,
    }
}

/// The view of an optional patch.
pub open spec fn opt_patch_view(p: Option<&Json>) -> Option<JsonV> {
    match p {
        Some(j) => Some(j@),
        None => None,
    }
}

/// The view of an optional patch map.
pub open spec fn opt_patch_map_view(m: Option<&Vec<(String, Json)>>) -> Option<Seq<(Seq<char>, JsonV)>> {
    match m {
        Some(v) => Some(members_view(v@, v@.len())),
        None => None,
    }
}

/// Patches a request for a model, as `patched_request` describes.
pub fn patch_request_data(
    request_data: &mut RequestData,
    model_patch: Option<&Json>,
    patch_map: Option<&Vec<(String, Json)>>,
    model_name: &str,
)
    ensures
        final(request_data)@ == patched_request(
            old(request_data)@,
            opt_patch_view(model_patch),
            opt_patch_map_view(patch_map),
            model_name@,
        ),
{
    match model_patch {
        Some(p) => request_data.apply_patch(p),
        None => {},
    }
    match patch_map {
        Some(m) => match select_patch(m, model_name) {
            Some(p) => request_data.apply_patch(p),
            None => {},
        },
        None => {},
    }
}

} // verus!
