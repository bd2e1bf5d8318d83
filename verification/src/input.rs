use vstd::prelude::*;
use unicode_width::{UnicodeWidthChar, UnicodeWidthStr};
use crate::digest::{base64_encode, base64_standard, sha256, sha256_hex};
use crate::client::ChatCompletionsData;
use crate::function::{FunctionDeclaration, ToolCall, ToolCallV, ToolResult};
use crate::history::{
    blocks_view, cache_warm_requested, content_blocks, detect_cache_warm_field, history_turns,
    parse_vim_history_turns, split_json_content_blocks, turns_view, CacheContentBlock,
    VimHistoryTurn,
};
use crate::json::{clone_json, Json, JsonNumber, JsonV};
use crate::message::{
    ImageUrl, Message, MessageContent, MessageContentPart, MessageContentToolCalls, MessageRole,
};
use crate::model::Model;
use crate::text::{
    chars_of, contains_seq, contains_str, is_control, is_control_char, join_strs, join_with,
    lowercase, push_char, push_str, replace_all, replace_str, starts_with_str, str_eq, texts_of,
    to_lowercase, trim, trim_str,
};

verus! {

/// The widest summary shown, in columns.
pub const SUMMARY_MAX_WIDTH: usize = 80;

/// A copy of a number.
pub fn duplicate_number(n: &JsonNumber) -> (r: JsonNumber)
    ensures
        r == *n,
{
    JsonNumber { text: n.text.clone(), as_u64: n.as_u64, as_i64: n.as_i64 }
}

fn duplicate_opt_number(n: &Option<JsonNumber>) -> (r: Option<JsonNumber>)
    ensures
        r == *n,
{
    match n {
        Some(x) => Some(duplicate_number(x)),
        None => None,
    }
}

fn duplicate_opt_string(s: &Option<String>) -> (r: Option<String>)
    ensures
        r == *s,
{
    match s {
        Some(x) => Some(x.clone()),
        None => None,
    }
}

/// A role: a named prompt, the model it runs on, and its sampling settings.
pub struct Role {
    pub name: String,
    pub prompt: String,
    pub model: Model,
    pub temperature: Option<JsonNumber>,
    pub top_p: Option<JsonNumber>,
}

impl Role {
    pub fn new(name: &str, prompt: &str, model: Model) -> (r: Role)
        ensures
            r.name@ == name@,
            r.prompt@ == prompt@,
            r.model == model,
            r.temperature is None,
            r.top_p is None,
    {
        Role {
            name: name.to_owned(),
            prompt: prompt.to_owned(),
            model,
            temperature: None,
            top_p: None,
        }
    }

    /// A copy of the role.
    pub fn duplicate(&self) -> (r: Role)
        ensures
            r == *self,
    {
        Role {
            name: self.name.clone(),
            prompt: self.prompt.clone(),
            model: self.model.duplicate(),
            temperature: duplicate_opt_number(&self.temperature),
            top_p: duplicate_opt_number(&self.top_p),
        }
    }
}

/// What an input reads from the configuration: the role in use, whether a
/// session and an agent are active, and whether streaming is on.
pub struct Config {
    pub role: Role,
    pub has_session: bool,
    pub has_agent: bool,
    pub stream: bool,
}

impl Config {
    /// The role the configuration currently uses.
    pub fn extract_role(&self) -> (r: Role)
        ensures
            r == self.role,
    {
        self.role.duplicate()
    }
}

/// The role an input runs with, and whether it belongs to the session and
/// the agent: a role given explicitly stands alone.
pub fn resolve_role(config: &Config, role: Option<Role>) -> (r: (Role, bool, bool))
    ensures
        r == match role {
            Some(v) => (v, false, false),
            None => (config.role, config.has_session, config.has_agent),
        },
{
    match role {
        Some(v) => (v, false, false),
        None => (config.extract_role(), config.has_session, config.has_agent),
    }
}

/// A user's request: its text, the files it came with, and how it is to
/// be sent.
pub struct Input {
    pub text: String,
    pub raw: (String, Vec<String>),
    pub patched_text: Option<String>,
    pub last_reply: Option<String>,
    pub continue_output: Option<String>,
    pub regenerate: bool,
    pub medias: Vec<String>,
    pub data_urls: Vec<(String, String)>,
    pub tool_calls: Option<MessageContentToolCalls>,
    pub role: Role,
    pub rag_name: Option<String>,
    pub vim_history_turns: Vec<VimHistoryTurn>,
    pub cache_content_blocks: Vec<CacheContentBlock>,
    pub cache_warm: bool,
    pub with_session: bool,
    pub with_agent: bool,
}

/// The texts of an optional string.
pub open spec fn opt_text(s: Option<String>) -> Option<Seq<char>> {
    match s {
        Some(t) => Some(t@),
        None => None,
    }
}

/// The value stored under `key`: the first entry with that key.
pub open spec fn lookup(entries: Seq<(String, String)>, key: Seq<char>) -> Option<String>
    decreases entries.len(),
{
    if entries.len() == 0 {
        None
    } else if entries[0].0@ == key {
        Some(entries[0].1)
    } else {
        lookup(entries.drop_first(), key)
    }
}

/// The position of the first entry under `key`.
pub open spec fn first_key_index(entries: Seq<(String, String)>, key: Seq<char>) -> Option<int>
    decreases entries.len(),
{
    if entries.len() == 0 {
        None
    } else if entries[0].0@ == key {
        Some(0)
    } else {
        match first_key_index(entries.drop_first(), key) {
            Some(i) => Some(i + 1),
            None => None,
        }
    }
}

proof fn lemma_first_key_index(entries: Seq<(String, String)>, key: Seq<char>)
    ensures
        match first_key_index(entries, key) {
            Some(i) => 0 <= i < entries.len() && entries[i].0@ == key && lookup(entries, key)
                == Some(entries[i].1) && forall|k: int| 0 <= k < i ==> entries[k].0@ != key,
            None => lookup(entries, key) is None && forall|k: int|
                0 <= k < entries.len() ==> entries[k].0@ != key,
        },
    decreases entries.len(),
{
    if entries.len() > 0 && entries[0].0@ != key {
        lemma_first_key_index(entries.drop_first(), key);
        assert forall|k: int| 0 < k < entries.len() implies entries[k] == entries.drop_first()[k
            - 1] by {}
    }
}

/// The entries after storing `value` under `key`: an entry under the key
/// keeps its place and takes the value, else the pair goes last.
pub open spec fn entries_insert(entries: Seq<(String, String)>, key: String, value: String) -> Seq<
    (String, String),
> {
    match first_key_index(entries, key@) {
        Some(i) => entries.update(i, (entries[i].0, value)),
        None => entries.push((key, value)),
    }
}

/// What is stored under a key after storing a value under it: that value.
proof fn lemma_entries_insert_lookup(entries: Seq<(String, String)>, key: String, value: String)
    ensures
        lookup(entries_insert(entries, key, value), key@) == Some(value),
    decreases entries.len(),
{
    lemma_first_key_index(entries, key@);
    let r = entries_insert(entries, key, value);
    match first_key_index(entries, key@) {
        Some(i) => {
            assert(r[i].0@ == key@);
            assert forall|k: int| 0 <= k < i implies r[k].0@ != key@ by {}
            lemma_lookup_at(r, key@, i);
        },
        None => {
            assert(r[entries.len() as int].0@ == key@);
            assert forall|k: int| 0 <= k < entries.len() implies r[k].0@ != key@ by {}
            lemma_lookup_at(r, key@, entries.len() as int);
        },
    }
}

proof fn lemma_lookup_at(entries: Seq<(String, String)>, key: Seq<char>, i: int)
    requires
        0 <= i < entries.len(),
        entries[i].0@ == key,
        forall|k: int| 0 <= k < i ==> entries[k].0@ != key,
    ensures
        lookup(entries, key) == Some(entries[i].1),
    decreases i,
{
    if i > 0 {
        assert forall|k: int| 0 <= k < i - 1 implies entries.drop_first()[k].0@ != key by {
            assert(entries.drop_first()[k] == entries[k + 1]);
        }
        lemma_lookup_at(entries.drop_first(), key, i - 1);
    }
}

/// Stores `value` under `key`, as `entries_insert` describes.
pub fn insert_entry(entries: &mut Vec<(String, String)>, key: String, value: String)
    ensures
        final(entries)@ == entries_insert(old(entries)@, key, value),
{
    proof {
        lemma_first_key_index(entries@, key@);
    }
    let mut i: usize = 0;
    while i < entries.len()
        invariant
            i <= entries@.len(),
            entries@ == old(entries)@,
            forall|k: int| 0 <= k < i ==> entries@[k].0@ != key@,
            match first_key_index(entries@, key@) {
                Some(j) => 0 <= j < entries@.len() && entries@[j].0@ == key@ && forall|k: int|
                    0 <= k < j ==> entries@[k].0@ != key@,
                None => forall|k: int| 0 <= k < entries@.len() ==> entries@[k].0@ != key@,
            },
        decreases entries.len() - i,
    {
        if str_eq(entries[i].0.as_str(), key.as_str()) {
            let k0 = entries[i].0.clone();
            entries.set(i, (k0, value));
            return;
        }
        i = i + 1;
    }
    entries.push((key, value));
}

/// Takes up a media read as a data URL from `path`: the data URL joins the
/// media, and the digest table maps its digest to the path.
pub fn add_media(medias: &mut Vec<String>, data_urls: &mut Vec<(String, String)>, contents: String, path: String)
    ensures
        final(medias)@ == old(medias)@.push(contents),
        exists|digest: String|
            digest@ == sha256_hex(contents@) && final(data_urls)@ == entries_insert(
                old(data_urls)@,
                digest,
                path,
            ),
{
    let digest = sha256(contents.as_str());
    let ghost d = digest;
    insert_entry(data_urls, digest, path);
    medias.push(contents);
    assert(d@ == sha256_hex(contents@));
}

/// A media taken up from a path is shown as that path: once `add_media`
/// has stored a data URL, `resolve_data_url` gives the path back for it.
pub proof fn lemma_added_media_resolves(
    data_urls: Seq<(String, String)>,
    digest: String,
    contents: Seq<char>,
    path: String,
)
    requires
        digest@ == sha256_hex(contents),
        contents.len() >= 5,
        contents.take(5) == "data:"@,
    ensures
        resolved_data_url(entries_insert(data_urls, digest, path), contents) == path@,
{
    lemma_entries_insert_lookup(data_urls, digest, path);
}

/// What a path given with a request stands for: the last reply (`%%`), a
/// shell command between backticks, a URL, a path for a document loader,
/// or a local path.
pub enum PathKind {
    LastReply,
    Command,
    Url,
    Protocol,
    Local,
}

/// A set kept as a list in insertion order: a value already in it is not
/// added again.
pub open spec fn set_insert(s: Seq<Seq<char>>, v: Seq<char>) -> Seq<Seq<char>> {
    if s.contains(v) {
        s
    } else {
        s.push(v)
    }
}

fn set_insert_str(s: &mut Vec<String>, v: String)
    ensures
        texts_of(final(s)@) == set_insert(texts_of(old(s)@), v@),
{
    let mut i: usize = 0;
    while i < s.len()
        invariant
            i <= s@.len(),
            s@ == old(s)@,
            forall|k: int| 0 <= k < i ==> s@[k]@ != v@,
        decreases s.len() - i,
    {
        if str_eq(s[i].as_str(), v.as_str()) {
            assert(texts_of(s@)[i as int] == v@);
            return;
        }
        i = i + 1;
    }
    assert(!texts_of(s@).contains(v@)) by {
        assert forall|k: int| 0 <= k < texts_of(s@).len() implies texts_of(s@)[k] != v@ by {}
    }
    let ghost before = s@;
    s.push(v);
    assert(texts_of(s@) =~= texts_of(before).push(v@));
}

/// The paths given with a request, sorted by what they stand for, each set
/// in the order first given; `raw_paths` holds them all as shown (a local
/// path made absolute).
pub struct ResolvedPaths {
    pub raw_paths: Vec<String>,
    pub local_paths: Vec<String>,
    pub remote_urls: Vec<String>,
    pub external_cmds: Vec<String>,
    pub protocol_paths: Vec<String>,
    pub with_last_reply: bool,
}

/// What a path stands for, given whether it is a URL and whether a document
/// loader takes it; a URL ending in `**` is refused.
pub open spec fn path_kind(path: Seq<char>, is_url: bool, is_protocol: bool) -> Result<PathKind, Seq<char>> {
    if path == "%%"@ {
        Ok(PathKind::LastReply)
    } else if path.len() > 2 && path[0] == '`' && path.last() == '`' {
        Ok(PathKind::Command)
    } else if is_url {
        if path.len() >= 2 && path.skip(path.len() - 2) == "**"@ {
            Err("Invalid website '"@ + path + "'"@)
        } else {
            Ok(PathKind::Url)
        }
    } else if is_protocol {
        Ok(PathKind::Protocol)
    } else {
        Ok(PathKind::Local)
    }
}

impl ResolvedPaths {
    /// No path yet.
    pub fn new() -> (r: Self)
        ensures
            r.raw_paths@.len() == 0,
            r.local_paths@.len() == 0,
            r.remote_urls@.len() == 0,
            r.external_cmds@.len() == 0,
            r.protocol_paths@.len() == 0,
            !r.with_last_reply,
    {
        ResolvedPaths {
            raw_paths: Vec::new(),
            local_paths: Vec::new(),
            remote_urls: Vec::new(),
            external_cmds: Vec::new(),
            protocol_paths: Vec::new(),
            with_last_reply: false,
        }
    }

    /// Takes up one path, given whether it is a URL and whether a document
    /// loader takes it: `%%` asks for the last reply; `` `cmd` `` adds the
    /// command between the backticks; a URL (not ending in `**`) and a
    /// loader path are added as they are; each of these also joins
    /// `raw_paths`. A local path is left for `take_local` (`Ok(true)`),
    /// once it is resolved. Fails on a URL ending in `**`.
    pub fn take_path(&mut self, path: String, is_url: bool, is_protocol: bool) -> (r: Result<bool, String>)
        ensures
            match path_kind(path@, is_url, is_protocol) {
                Ok(PathKind::LastReply) => r == Ok::<bool, String>(false) && final(self).with_last_reply
                    && texts_of(final(self).raw_paths@) == set_insert(texts_of(old(self).raw_paths@), path@)
                    && final(self).local_paths == old(self).local_paths
                    && final(self).remote_urls == old(self).remote_urls
                    && final(self).external_cmds == old(self).external_cmds
                    && final(self).protocol_paths == old(self).protocol_paths,
                Ok(PathKind::Command) => r == Ok::<bool, String>(false)
                    && final(self).with_last_reply == old(self).with_last_reply
                    && texts_of(final(self).raw_paths@) == set_insert(texts_of(old(self).raw_paths@), path@)
                    && texts_of(final(self).external_cmds@) == set_insert(
                        texts_of(old(self).external_cmds@),
                        path@.subrange(1, path@.len() - 1),
                    )
                    && final(self).local_paths == old(self).local_paths
                    && final(self).remote_urls == old(self).remote_urls
                    && final(self).protocol_paths == old(self).protocol_paths,
                Ok(PathKind::Url) => r == Ok::<bool, String>(false)
                    && final(self).with_last_reply == old(self).with_last_reply
                    && texts_of(final(self).raw_paths@) == set_insert(texts_of(old(self).raw_paths@), path@)
                    && texts_of(final(self).remote_urls@) == set_insert(texts_of(old(self).remote_urls@), path@)
                    && final(self).local_paths == old(self).local_paths
                    && final(self).external_cmds == old(self).external_cmds
                    && final(self).protocol_paths == old(self).protocol_paths,
                Ok(PathKind::Protocol) => r == Ok::<bool, String>(false)
                    && final(self).with_last_reply == old(self).with_last_reply
                    && texts_of(final(self).raw_paths@) == set_insert(texts_of(old(self).raw_paths@), path@)
                    && texts_of(final(self).protocol_paths@) == set_insert(
                        texts_of(old(self).protocol_paths@),
                        path@,
                    )
                    && final(self).local_paths == old(self).local_paths
                    && final(self).remote_urls == old(self).remote_urls
                    && final(self).external_cmds == old(self).external_cmds,
                Ok(PathKind::Local) => r == Ok::<bool, String>(true) && *final(self) == *old(self),
                Err(e) => r is Err && r->Err_0@ == e && *final(self) == *old(self),
            },
    {
        proof {
            reveal_strlit("%%");
            reveal_strlit("**");
        }
        let v = chars_of(path.as_str());
        let n = v.len();
        if str_eq(path.as_str(), "%%") {
            self.with_last_reply = true;
            set_insert_str(&mut self.raw_paths, path);
            Ok(false)
        } else if n > 2 && v[0] == '`' && v[n - 1] == '`' {
            let mut cmd = String::new();
            let mut i: usize = 1;
            while i < n - 1
                invariant
                    v@ == path@,
                    n == v@.len(),
                    n > 2,
                    1 <= i <= n - 1,
                    cmd@ == v@.subrange(1, i as int),
                decreases n - 1 - i,
            {
                push_char(&mut cmd, v[i]);
                assert(v@.subrange(1, i + 1) =~= v@.subrange(1, i as int).push(v@[i as int]));
                i = i + 1;
            }
            set_insert_str(&mut self.external_cmds, cmd);
            set_insert_str(&mut self.raw_paths, path);
            Ok(false)
        } else if is_url {
            if n >= 2 && v[n - 2] == '*' && v[n - 1] == '*' {
                assert(path@.skip(path@.len() - 2) =~= "**"@);
                let mut e = String::new();
                push_str(&mut e, "Invalid website '");
                push_str(&mut e, path.as_str());
                push_str(&mut e, "'");
                return Err(e);
            }
            assert(n >= 2 ==> path@.skip(path@.len() - 2) != "**"@) by {
                if n >= 2 && path@.skip(path@.len() - 2) == "**"@ {
                    assert(path@.skip(path@.len() - 2)[0] == path@[n - 2]);
                    assert(path@.skip(path@.len() - 2)[1] == path@[n - 1]);
                }
            }
            set_insert_str(&mut self.remote_urls, path.clone());
            set_insert_str(&mut self.raw_paths, path);
            Ok(false)
        } else if is_protocol {
            set_insert_str(&mut self.protocol_paths, path.clone());
            set_insert_str(&mut self.raw_paths, path);
            Ok(false)
        } else {
            Ok(true)
        }
    }

    /// Takes up a local path, as resolved (home directory expanded) and as
    /// made absolute.
    pub fn take_local(&mut self, resolved: String, absolute: String)
        ensures
            texts_of(final(self).local_paths@) == set_insert(texts_of(old(self).local_paths@), resolved@),
            texts_of(final(self).raw_paths@) == set_insert(texts_of(old(self).raw_paths@), absolute@),
            final(self).remote_urls == old(self).remote_urls,
            final(self).external_cmds == old(self).external_cmds,
            final(self).protocol_paths == old(self).protocol_paths,
            final(self).with_last_reply == old(self).with_last_reply,
    {
        set_insert_str(&mut self.local_paths, resolved);
        set_insert_str(&mut self.raw_paths, absolute);
    }
}

impl Input {
    /// An input made of a text alone.
    pub fn from_str(config: &Config, text: &str, role: Option<Role>) -> (r: Input)
        ensures
            r.text@ == text@,
            r.raw.0@ == text@,
            r.raw.1@.len() == 0,
            r.patched_text is None,
            r.last_reply is None,
            r.continue_output is None,
            !r.regenerate,
            r.medias@.len() == 0,
            r.data_urls@.len() == 0,
            r.tool_calls is None,
            (r.role, r.with_session, r.with_agent) == match role {
                Some(v) => (v, false, false),
                None => (config.role, config.has_session, config.has_agent),
            },
            r.rag_name is None,
            r.vim_history_turns@.len() == 0,
            r.cache_content_blocks@.len() == 0,
            !r.cache_warm,
    {
        let (role, with_session, with_agent) = resolve_role(config, role);
        Input {
            text: text.to_owned(),
            raw: (text.to_owned(), Vec::new()),
            patched_text: None,
            last_reply: None,
            continue_output: None,
            regenerate: false,
            medias: Vec::new(),
            data_urls: Vec::new(),
            tool_calls: None,
            role,
            rag_name: None,
            vim_history_turns: Vec::new(),
            cache_content_blocks: Vec::new(),
            cache_warm: false,
            with_session,
            with_agent,
        }
    }

    /// Whether there is neither text nor media.
    pub fn is_empty(&self) -> (r: bool)
        ensures
            r == (self.text@.len() == 0 && self.medias@.len() == 0),
    {
        self.text.as_str().is_empty() && self.medias.len() == 0
    }

    /// The media data URLs by digest, with the paths they came from.
    pub fn data_urls(&self) -> (r: Vec<(String, String)>)
        ensures
            r@ == self.data_urls@,
    {
        let mut out: Vec<(String, String)> = Vec::new();
        let mut i: usize = 0;
        while i < self.data_urls.len()
            invariant
                i <= self.data_urls@.len(),
                out@ == self.data_urls@.take(i as int),
            decreases self.data_urls.len() - i,
        {
            let e = &self.data_urls[i];
            out.push((e.0.clone(), e.1.clone()));
            assert(out@ =~= self.data_urls@.take(i + 1));
            i = i + 1;
        }
        assert(self.data_urls@.take(self.data_urls@.len() as int) =~= self.data_urls@);
        out
    }

    /// The tool calls made so far for this input, with their results.
    pub fn tool_calls(&self) -> (r: &Option<MessageContentToolCalls>)
        ensures
            *r == self.tool_calls,
    {
        &self.tool_calls
    }

    /// The text sent: the text as a retrieval step patched it, else as given.
    pub open spec fn spec_text(&self) -> String {
        match self.patched_text {
            Some(t) => t,
            None => self.text,
        }
    }

    /// The text sent: the text as a retrieval step patched it, else as given.
    pub fn text(&self) -> (r: String)
        ensures
            r == self.spec_text(),
    {
        match &self.patched_text {
            Some(t) => t.clone(),
            None => self.text.clone(),
        }
    }

    /// Drops the patched text.
    pub fn clear_patch(&mut self)
        ensures
            *final(self) == (Input { patched_text: None, ..*old(self) }),
    {
        self.patched_text = None;
    }

    pub fn set_text(&mut self, text: String)
        ensures
            *final(self) == (Input { text: text, ..*old(self) }),
    {
        self.text = text;
    }

    /// Whether to stream the reply: when the configuration asks for it and
    /// the model can.
    pub fn stream(&self, config: &Config) -> (r: bool)
        ensures
            r == (config.stream && !self.role.model.no_stream),
    {
        config.stream && !self.role.model.no_stream
    }

    /// The partial reply to continue from, if any.
    pub fn continue_output(&self) -> (r: Option<&str>)
        ensures
            match r {
                Some(s) => self.continue_output is Some && s@ == self.continue_output->Some_0@,
                None => self.continue_output is None,
            },
    {
        match &self.continue_output {
            Some(s) => Some(s.as_str()),
            None => None,
        }
    }

    /// Appends to the partial reply to continue from.
    pub fn set_continue_output(&mut self, output: &str)
        ensures
            opt_text(final(self).continue_output) == Some(
                match old(self).continue_output {
                    Some(v) => v@ + output@,
                    None => output@,
                },
            ),
            *final(self) == (Input { continue_output: final(self).continue_output, ..*old(self) }),
    {
        let new_output = match &self.continue_output {
            Some(v) => {
                let mut t = v.clone();
                push_str(&mut t, output);
                t
            },
            None => output.to_owned(),
        };
        self.continue_output = Some(new_output);
    }

    pub fn regenerate(&self) -> (r: bool)
        ensures
            r == self.regenerate,
    {
        self.regenerate
    }

    /// Marks the input for regeneration: it takes up the configuration's
    /// current role when that has the same name, and drops its tool calls.
    pub fn set_regenerate(&mut self, config: &Config)
        ensures
            *final(self) == (Input {
                role: if config.role.name@ == old(self).role.name@ {
                    config.role
                } else {
                    old(self).role
                },
                regenerate: true,
                tool_calls: None,
                ..*old(self)
            }),
    {
        let role = config.extract_role();
        if str_eq(role.name.as_str(), self.role.name.as_str()) {
            self.role = role;
        }
        self.regenerate = true;
        self.tool_calls = None;
    }

    /// The name of the knowledge base that patched the text, if any.
    pub fn rag_name(&self) -> (r: Option<&str>)
        ensures
            match r {
                Some(s) => self.rag_name is Some && s@ == self.rag_name->Some_0@,
                None => self.rag_name is None,
            },
    {
        match &self.rag_name {
            Some(s) => Some(s.as_str()),
            None => None,
        }
    }

    /// Adds a round of tool results (with the text that came with them) and
    /// drops the cache content blocks, which only the first call uses.
    pub fn merge_tool_results(self, output: String, tool_results: Vec<ToolResult>) -> (r: Self)
        ensures
            r == (Input {
                tool_calls: r.tool_calls,
                cache_content_blocks: r.cache_content_blocks,
                ..self
            }),
            r.cache_content_blocks@.len() == 0,
            match self.tool_calls {
                Some(tc) => r.tool_calls is Some && r.tool_calls->Some_0.tool_results@
                    == tc.tool_results@ + tool_results@ && r.tool_calls->Some_0.text@.len() == 0
                    && r.tool_calls->Some_0.sequence,
                None => r.tool_calls == Some(
                    MessageContentToolCalls { tool_results, text: output, sequence: false },
                ),
            },
    {
        let mut s = self;
        match s.tool_calls {
            Some(mut tc) => {
                tc.merge(tool_results, output);
                s.tool_calls = Some(tc);
            },
            None => {
                s.tool_calls = Some(MessageContentToolCalls::new(tool_results, output));
            },
        }
        s.cache_content_blocks = Vec::new();
        s
    }

    /// The role the input runs with.
    pub fn role(&self) -> (r: &Role)
        ensures
            *r == self.role,
    {
        &self.role
    }

    /// The session, when the input belongs to it.
    pub fn session<'a, S>(&self, session: &'a Option<S>) -> (r: Option<&'a S>)
        ensures
            match r {
                Some(s) => self.with_session && *session == Some(*s),
                None => !self.with_session || session is None,
            },
    {
        if self.with_session {
            match session {
                Some(s) => Some(s),
                None => None,
            }
        } else {
            None
        }
    }

    /// The session, for changing it, when the input belongs to it.
    pub fn session_mut<'a, S>(&self, session: &'a mut Option<S>) -> (r: Option<&'a mut S>)
        ensures
            match r {
                Some(s) => self.with_session && *old(session) == Some(*s) && *final(session) == Some(
                    *final(s),
                ),
                None => (!self.with_session || *old(session) is None) && *final(session) == *old(
                    session,
                ),
            },
    {
        if self.with_session {
            match session {
                Some(s) => Some(s),
                None => None,
            }
        } else {
            None
        }
    }

    /// Whether the input belongs to the agent.
    pub fn with_agent(&self) -> (r: bool)
        ensures
            r == self.with_agent,
    {
        self.with_agent
    }
}


/// The display width of a text in columns, ambiguous characters counted as
/// two (`UnicodeWidthStr::width_cjk`).
pub uninterp spec fn display_width_cjk(s: Seq<char>) -> usize;

/// The display width of a character in columns, ambiguous characters counted
/// as two, or none for a control character (`UnicodeWidthChar::width_cjk`).
pub uninterp spec fn char_width_cjk(c: char) -> Option<usize>;

/// Calls `UnicodeWidthStr::width_cjk`.
#[verifier::external_body]
fn str_width_cjk(s: &str) -> (r: usize)
    ensures
        r == display_width_cjk(s@),
{
    s.width_cjk()
}

/// Calls `UnicodeWidthChar::width_cjk`.
#[verifier::external_body]
fn char_width(c: char) -> (r: Option<usize>)
    ensures
        r == char_width_cjk(c),
{
    c.width_cjk()
}

/// The text of a summary: trimmed, control characters shown as spaces.
pub open spec fn summary_text(t: Seq<char>) -> Seq<char> {
    trim(t).map_values(|c: char| if is_control(c) { ' ' } else { c })
}

/// The characters that fit in `budget` columns, given each character's
/// width (one column where it has none), then `...` if some did not fit.
pub open spec fn fit_prefix(s: Seq<char>, widths: Seq<Option<usize>>, budget: int) -> Seq<char>
    decreases s.len(),
{
    if s.len() == 0 {
        Seq::empty()
    } else {
        let w = match widths[0] {
            Some(w) => w as int,
            None => 1,
        };
        if w > budget {
            "..."@
        } else {
            seq![s[0]] + fit_prefix(s.drop_first(), widths.drop_first(), budget - w)
        }
    }
}

/// A summary of a text `total` columns wide whose characters have the given
/// widths: the text itself when it fits in the summary width, else what fits
/// in three columns less, followed by `...`.
pub open spec fn fit_summary_spec(s: Seq<char>, total: usize, widths: Seq<Option<usize>>) -> Seq<char> {
    if total > SUMMARY_MAX_WIDTH {
        fit_prefix(s, widths, SUMMARY_MAX_WIDTH - 3)
    } else {
        s
    }
}

/// The one-line summary of a text.
pub open spec fn summary_of(t: Seq<char>) -> Seq<char> {
    let s = summary_text(t);
    fit_summary_spec(s, display_width_cjk(s), s.map_values(|c: char| char_width_cjk(c)))
}

/// Shortens a text `total` columns wide whose characters have the given
/// widths, as `fit_summary_spec` describes.
pub fn fit_summary(s: &str, total: usize, widths: &Vec<Option<usize>>) -> (res: String)
    requires
        widths@.len() == s@.len(),
    ensures
        res@ == fit_summary_spec(s@, total, widths@),
{
    if total <= SUMMARY_MAX_WIDTH {
        return s.to_owned();
    }
    let v = chars_of(s);
    let mut out = String::new();
    let mut budget: usize = SUMMARY_MAX_WIDTH - 3;
    let mut i: usize = 0;
    assert(v@.skip(0) =~= v@);
    assert(widths@.skip(0) =~= widths@);
    while i < v.len()
        invariant
            v@ == s@,
            widths@.len() == s@.len(),
            total > SUMMARY_MAX_WIDTH,
            i <= v@.len(),
            out@ + fit_prefix(v@.skip(i as int), widths@.skip(i as int), budget as int)
                == fit_prefix(s@, widths@, SUMMARY_MAX_WIDTH - 3),
        decreases v.len() - i,
    {
        let w: usize = match widths[i] {
            Some(w) => w,
            None => 1,
        };
        assert(v@.skip(i as int)[0] == v@[i as int]);
        assert(widths@.skip(i as int)[0] == widths@[i as int]);
        assert(v@.skip(i as int).drop_first() =~= v@.skip(i + 1));
        assert(widths@.skip(i as int).drop_first() =~= widths@.skip(i + 1));
        if w > budget {
            push_str(&mut out, "...");
            assert(out@ == fit_prefix(s@, widths@, SUMMARY_MAX_WIDTH - 3));
            return out;
        }
        let ghost before = out@;
        push_char(&mut out, v[i]);
        assert(out@ =~= before + seq![v@[i as int]]);
        budget = budget - w;
        i = i + 1;
    }
    assert(v@.skip(i as int) =~= Seq::<char>::empty());
    out
}

impl Input {
    /// A one-line summary of the text, at most `SUMMARY_MAX_WIDTH` columns
    /// wide as the character widths go.
    pub fn summary(&self) -> (r: String)
        ensures
            r@ == summary_of(self.text@),
    {
        let trimmed = trim_str(self.text.as_str());
        let v = chars_of(trimmed.as_str());
        let mut text = String::new();
        let mut widths: Vec<Option<usize>> = Vec::new();
        let mut i: usize = 0;
        let ghost st = summary_text(self.text@);
        while i < v.len()
            invariant
                v@ == trim(self.text@),
                st == summary_text(self.text@),
                i <= v@.len(),
                text@ == st.take(i as int),
            decreases v.len() - i,
        {
            let c = if is_control_char(v[i]) {
                ' '
            } else {
                v[i]
            };
            push_char(&mut text, c);
            assert(text@ =~= st.take(i + 1));
            i = i + 1;
        }
        assert(text@ =~= st);
        let tv = chars_of(text.as_str());
        let mut k: usize = 0;
        while k < tv.len()
            invariant
                tv@ == st,
                k <= tv@.len(),
                widths@ == st.take(k as int).map_values(|c: char| char_width_cjk(c)),
            decreases tv.len() - k,
        {
            widths.push(char_width(tv[k]));
            assert(widths@ =~= st.take(k + 1).map_values(|c: char| char_width_cjk(c)));
            k = k + 1;
        }
        assert(st.take(st.len() as int) =~= st);
        let total = str_width_cjk(text.as_str());
        fit_summary(text.as_str(), total, &widths)
    }
}


/// The words of the command line an input came from: `.file`, the files,
/// `--`, the text (each part only when there is one).
pub open spec fn raw_segments(text: Seq<char>, files: Seq<Seq<char>>) -> Seq<Seq<char>> {
    let seg = if files.len() > 0 {
        seq![".file"@] + files
    } else {
        files
    };
    if text.len() > 0 {
        (if seg.len() > 0 {
            seg.push("--"@)
        } else {
            seg
        }).push(text)
    } else {
        seg
    }
}

fn copy_blocks(v: &Vec<CacheContentBlock>) -> (r: Vec<CacheContentBlock>)
    ensures
        r@ == v@,
{
    let mut out: Vec<CacheContentBlock> = Vec::new();
    let mut i: usize = 0;
    while i < v.len()
        invariant
            i <= v@.len(),
            out@ == v@.take(i as int),
        decreases v.len() - i,
    {
        out.push(
            CacheContentBlock {
                field_name: v[i].field_name.clone(),
                text: v[i].text.clone(),
                is_breakpoint: v[i].is_breakpoint,
            },
        );
        assert(v@.take(i + 1) =~= v@.take(i as int).push(v@[i as int]));
        i = i + 1;
    }
    assert(v@.take(v@.len() as int) =~= v@);
    out
}

/// The MIME type of a media file by its lower-cased extension, or the
/// error for a file that is not a known image.
pub open spec fn media_mime(path: Seq<char>) -> Result<Seq<char>, Seq<char>> {
    let e = match path_extension(path) {
        Some(x) => lowercase(x),
        None => Seq::empty(),
    };
    if e == "png"@ {
        Ok("image/png"@)
    } else if e == "jpg"@ || e == "jpeg"@ {
        Ok("image/jpeg"@)
    } else if e == "webp"@ {
        Ok("image/webp"@)
    } else if e == "gif"@ {
        Ok("image/gif"@)
    } else {
        Err("Unexpected media type"@)
    }
}

/// The data URL of a media file read from `path`: its MIME type and its
/// bytes in base64; fails for a file that is not a known image.
pub fn media_data_url(path: &str, bytes: &[u8]) -> (r: Result<String, String>)
    ensures
        match media_mime(path@) {
            Ok(m) => r is Ok && r->Ok_0@ == "data:"@ + m + ";base64,"@ + base64_standard(bytes@),
            Err(e) => r is Err && r->Err_0@ == e,
        },
{
    let e = match path_extension_of(path) {
        Some(x) => to_lowercase(x.as_str()),
        None => String::new(),
    };
    let mime = if str_eq(e.as_str(), "png") {
        "image/png"
    } else if str_eq(e.as_str(), "jpg") || str_eq(e.as_str(), "jpeg") {
        "image/jpeg"
    } else if str_eq(e.as_str(), "webp") {
        "image/webp"
    } else if str_eq(e.as_str(), "gif") {
        "image/gif"
    } else {
        return Err("Unexpected media type".to_owned());
    };
    let mut out = String::new();
    push_str(&mut out, "data:");
    push_str(&mut out, mime);
    push_str(&mut out, ";base64,");
    let encoded = base64_encode(bytes);
    push_str(&mut out, encoded.as_str());
    Ok(out)
}

/// A media data URL shown as the path it was read from, when the digest
/// table knows it.
pub open spec fn resolved_data_url(data_urls: Seq<(String, String)>, url: Seq<char>) -> Seq<char> {
    if url.len() >= 5 && url.take(5) == "data:"@ {
        match lookup(data_urls, sha256_hex(url)) {
            Some(p) => p@,
            None => url,
        }
    } else {
        url
    }
}

/// The value stored under `key`, when there is one.
pub fn lookup_str<'a>(entries: &'a Vec<(String, String)>, key: &str) -> (r: Option<&'a String>)
    ensures
        match r {
            Some(v) => lookup(entries@, key@) == Some(*v),
            None => lookup(entries@, key@) is None,
        },
{
    let mut i: usize = 0;
    assert(entries@.skip(0) =~= entries@);
    while i < entries.len()
        invariant
            i <= entries@.len(),
            lookup(entries@, key@) == lookup(entries@.skip(i as int), key@),
        decreases entries.len() - i,
    {
        assert(entries@.skip(i as int)[0] == entries@[i as int]);
        assert(entries@.skip(i as int).drop_first() =~= entries@.skip(i + 1));
        if str_eq(entries[i].0.as_str(), key) {
            return Some(&entries[i].1);
        }
        i = i + 1;
    }
    None
}

/// Shows a media data URL as the path it was read from, when the digest
/// table (data URL digest to path) knows it.
pub fn resolve_data_url(data_urls: &Vec<(String, String)>, data_url: String) -> (r: String)
    ensures
        r@ == resolved_data_url(data_urls@, data_url@),
{
    proof {
        reveal_strlit("data:");
    }
    if starts_with_str(data_url.as_str(), "data:") {
        let hash = sha256(data_url.as_str());
        match lookup_str(data_urls, hash.as_str()) {
            Some(p) => p.clone(),
            None => data_url,
        }
    } else {
        data_url
    }
}

/// The message views of the turns of a conversation history: each turn's
/// user text and assistant text, when not empty.
pub open spec fn history_messages(turns: Seq<VimHistoryTurn>) -> Seq<Message>
    decreases turns.len(),
{
    if turns.len() == 0 {
        Seq::empty()
    } else {
        let t = turns.last();
        history_messages(turns.drop_last()) + (if t.user@.len() > 0 {
            seq![Message { role: MessageRole::User, content: MessageContent::Text(t.user) }]
        } else {
            Seq::empty()
        }) + (if t.assistant@.len() > 0 {
            seq![Message { role: MessageRole::Assistant, content: MessageContent::Text(t.assistant) }]
        } else {
            Seq::empty()
        })
    }
}

/// The position of the last user message below `n`.
pub open spec fn last_user_below(ms: Seq<Message>, n: int) -> Option<int>
    decreases n,
{
    if n <= 0 {
        None
    } else if ms[n - 1].role == MessageRole::User {
        Some(n - 1)
    } else {
        last_user_below(ms, n - 1)
    }
}

/// The messages with the history turns spliced in before the last user
/// message (the current context), when there are turns and such a message.
pub open spec fn with_history(ms: Seq<Message>, turns: Seq<VimHistoryTurn>) -> Seq<Message> {
    if turns.len() > 0 {
        match last_user_below(ms, ms.len() as int) {
            Some(p) => ms.take(p) + history_messages(turns) + ms.skip(p),
            None => ms,
        }
    } else {
        ms
    }
}

/// A tool call result as a value: the call and the output.
pub open spec fn tool_result_view(r: ToolResult) -> (ToolCallV, JsonV) {
    (r.call@, r.output@)
}

/// Tool calls with their results as a value.
pub open spec fn tool_calls_view(tc: MessageContentToolCalls) -> (Seq<(ToolCallV, JsonV)>, Seq<char>, bool) {
    (tc.tool_results@.map_values(|r: ToolResult| tool_result_view(r)), tc.text@, tc.sequence)
}

fn copy_tool_call(c: &ToolCall) -> (r: ToolCall)
    ensures
        r@ == c@,
{
    ToolCall {
        name: c.name.clone(),
        arguments: clone_json(&c.arguments),
        id: duplicate_opt_string(&c.id),
        extra_content: match &c.extra_content {
            Some(e) => Some(clone_json(e)),
            None => None,
        },
    }
}

fn copy_tool_calls(tc: &MessageContentToolCalls) -> (r: MessageContentToolCalls)
    ensures
        tool_calls_view(r) == tool_calls_view(*tc),
{
    let mut results: Vec<ToolResult> = Vec::new();
    let mut i: usize = 0;
    while i < tc.tool_results.len()
        invariant
            i <= tc.tool_results@.len(),
            results@.map_values(|r: ToolResult| tool_result_view(r)) == tc.tool_results@.take(
                i as int,
            ).map_values(|r: ToolResult| tool_result_view(r)),
        decreases tc.tool_results.len() - i,
    {
        let r = &tc.tool_results[i];
        let c = ToolResult { call: copy_tool_call(&r.call), output: clone_json(&r.output) };
        let ghost before = results@;
        let ghost cv = tool_result_view(c);
        assert(cv == tool_result_view(tc.tool_results@[i as int]));
        results.push(c);
        assert(results@.map_values(|r: ToolResult| tool_result_view(r)) =~= before.map_values(
            |r: ToolResult| tool_result_view(r),
        ).push(cv));
        assert(tc.tool_results@.take(i + 1).map_values(|r: ToolResult| tool_result_view(r))
            =~= tc.tool_results@.take(i as int).map_values(|r: ToolResult| tool_result_view(r)).push(
            cv,
        ));
        i = i + 1;
    }
    assert(tc.tool_results@.take(tc.tool_results@.len() as int) =~= tc.tool_results@);
    MessageContentToolCalls { tool_results: results, text: tc.text.clone(), sequence: tc.sequence }
}

/// How a role echoes an input instead of sending it: the rendered input,
/// put in place of `__INPUT__` in the prompt, or after the prompt.
pub open spec fn role_echo(prompt: Seq<char>, rendered: Seq<char>) -> Seq<char> {
    if prompt.len() == 0 {
        rendered
    } else if contains_seq(prompt, "__INPUT__"@) {
        replace_all(prompt, "__INPUT__"@, rendered)
    } else {
        prompt + "\n\n"@ + rendered
    }
}

impl Input {
    /// The command line the input came from.
    pub fn raw(&self) -> (r: String)
        ensures
            r@ == join_with(raw_segments(self.raw.0@, texts_of(self.raw.1@)), " "@),
    {
        let (text, files) = (&self.raw.0, &self.raw.1);
        let mut segments: Vec<String> = Vec::new();
        if files.len() > 0 {
            segments.push(".file".to_owned());
        }
        let mut i: usize = 0;
        let ghost head = if files@.len() > 0 {
            seq![".file"@]
        } else {
            Seq::<Seq<char>>::empty()
        };
        assert(texts_of(segments@) =~= head);
        while i < files.len()
            invariant
                i <= files@.len(),
                texts_of(segments@) == head + texts_of(files@).take(i as int),
            decreases files.len() - i,
        {
            let ghost before = segments@;
            segments.push(files[i].clone());
            assert(texts_of(segments@) =~= texts_of(before).push(files@[i as int]@));
            assert(texts_of(files@).take(i + 1) =~= texts_of(files@).take(i as int).push(
                files@[i as int]@,
            ));
            assert(texts_of(segments@) =~= head + texts_of(files@).take(i + 1));
            i = i + 1;
        }
        assert(texts_of(files@).take(files@.len() as int) =~= texts_of(files@));
        if !text.as_str().is_empty() {
            if segments.len() > 0 {
                segments.push("--".to_owned());
            }
            segments.push(text.clone());
        }
        assert(texts_of(segments@) =~= raw_segments(self.raw.0@, texts_of(self.raw.1@)));
        join_strs(&segments, " ")
    }

    /// The input as shown back to the user: `.file` and the media (by the
    /// paths they came from), then `--` and the text.
    pub open spec fn spec_render(&self) -> Seq<char> {
        if self.medias@.len() == 0 {
            self.spec_text()@
        } else {
            ".file "@ + join_with(
                self.medias@.map_values(|u: String| resolved_data_url(self.data_urls@, u@)),
                " "@,
            ) + if self.spec_text()@.len() == 0 {
                Seq::<char>::empty()
            } else {
                " -- "@ + self.spec_text()@
            }
        }
    }

    /// The input as shown back to the user, as `spec_render` describes.
    pub fn render(&self) -> (r: String)
        ensures
            r@ == self.spec_render(),
    {
        let text = self.text();
        if self.medias.len() == 0 {
            return text;
        }
        let mut files: Vec<String> = Vec::new();
        let mut i: usize = 0;
        while i < self.medias.len()
            invariant
                i <= self.medias@.len(),
                texts_of(files@) == self.medias@.take(i as int).map_values(
                    |u: String| resolved_data_url(self.data_urls@, u@),
                ),
            decreases self.medias.len() - i,
        {
            let ghost before = files@;
            let f = resolve_data_url(&self.data_urls, self.medias[i].clone());
            files.push(f);
            assert(texts_of(files@) =~= texts_of(before).push(
                resolved_data_url(self.data_urls@, self.medias@[i as int]@),
            ));
            assert(texts_of(files@) =~= self.medias@.take(i + 1).map_values(
                |u: String| resolved_data_url(self.data_urls@, u@),
            ));
            i = i + 1;
        }
        assert(self.medias@.take(self.medias@.len() as int) =~= self.medias@);
        let mut out = String::new();
        push_str(&mut out, ".file ");
        let joined = join_strs(&files, " ");
        push_str(&mut out, joined.as_str());
        if !text.as_str().is_empty() {
            push_str(&mut out, " -- ");
            push_str(&mut out, text.as_str());
        }
        out
    }

    /// The content of the user message: the text alone, or the text (when
    /// there is one) followed by the media as images.
    pub fn message_content(&self) -> (r: MessageContent)
        ensures
            match r {
                MessageContent::Text(t) => self.medias@.len() == 0 && t == self.spec_text(),
                MessageContent::Array(list) => self.medias@.len() > 0 && list@ == (if self.text@.len()
                    > 0 {
                    seq![MessageContentPart::Text { text: self.spec_text() }]
                } else {
                    Seq::empty()
                }) + self.medias@.map_values(
                    |u: String| MessageContentPart::ImageUrl { image_url: ImageUrl { url: u } },
                ),
                _ => false,
            },
    {
        if self.medias.len() == 0 {
            MessageContent::Text(self.text())
        } else {
            let mut list: Vec<MessageContentPart> = Vec::new();
            if !self.text.as_str().is_empty() {
                list.push(MessageContentPart::Text { text: self.text() });
            }
            let ghost head = list@;
            let mut i: usize = 0;
            while i < self.medias.len()
                invariant
                    i <= self.medias@.len(),
                    list@ == head + self.medias@.take(i as int).map_values(
                        |u: String| MessageContentPart::ImageUrl { image_url: ImageUrl { url: u } },
                    ),
                decreases self.medias.len() - i,
            {
                list.push(
                    MessageContentPart::ImageUrl { image_url: ImageUrl { url: self.medias[i].clone() } },
                );
                assert(list@ =~= head + self.medias@.take(i + 1).map_values(
                    |u: String| MessageContentPart::ImageUrl { image_url: ImageUrl { url: u } },
                ));
                i = i + 1;
            }
            assert(self.medias@.take(self.medias@.len() as int) =~= self.medias@);
            MessageContent::Array(list)
        }
    }
}


/// The last position of `c` in `s`.
pub open spec fn last_index_of(s: Seq<char>, c: char) -> Option<int>
    decreases s.len(),
{
    if s.len() == 0 {
        None
    } else if s.last() == c {
        Some(s.len() - 1)
    } else {
        last_index_of(s.drop_last(), c)
    }
}

/// The file name of a path: its last component, when that is a name (not
/// `..`, the root or the current directory).
pub open spec fn file_name(p: Seq<char>) -> Option<Seq<char>>
    decreases p.len(),
{
    match last_index_of(p, '/') {
        Some(i) => {
            let seg = p.skip(i + 1);
            if seg.len() == 0 || seg == seq!['.'] {
                proof {
                    lemma_last_index_of(p, '/');
                }
                file_name(p.take(i))
            } else if seg == seq!['.', '.'] {
                None
            } else {
                Some(seg)
            }
        },
        None => if p.len() == 0 || p == seq!['.'] || p == seq!['.', '.'] {
            None
        } else {
            Some(p)
        },
    }
}

/// The extension of a path: what follows the last `.` of the file name,
/// when that dot does not open the name.
pub open spec fn path_extension(p: Seq<char>) -> Option<Seq<char>> {
    match file_name(p) {
        Some(n) => match last_index_of(n, '.') {
            Some(i) => if i == 0 {
                None
            } else {
                Some(n.skip(i + 1))
            },
            None => None,
        },
        None => None,
    }
}

/// The extensions of image files.
pub open spec fn image_extension(e: Seq<char>) -> bool {
    e == "png"@ || e == "jpeg"@ || e == "jpg"@ || e == "webp"@ || e == "gif"@
}

pub proof fn lemma_last_index_of(s: Seq<char>, c: char)
    ensures
        match last_index_of(s, c) {
            Some(i) => 0 <= i < s.len() && s[i] == c && forall|k: int| i < k < s.len() ==> s[k] != c,
            None => forall|k: int| 0 <= k < s.len() ==> s[k] != c,
        },
    decreases s.len(),
{
    if s.len() > 0 && s.last() != c {
        lemma_last_index_of(s.drop_last(), c);
        assert forall|k: int| 0 <= k < s.len() - 1 implies s.drop_last()[k] == s[k] by {}
    }
}

fn last_index_of_vec(v: &Vec<char>, n: usize, c: char) -> (r: Option<usize>)
    requires
        n <= v@.len(),
    ensures
        match r {
            Some(i) => last_index_of(v@.take(n as int), c) == Some(i as int) && i < n,
            None => last_index_of(v@.take(n as int), c) is None,
        },
{
    let mut k = n;
    while k > 0
        invariant
            k <= n <= v@.len(),
            last_index_of(v@.take(n as int), c) == last_index_of(v@.take(k as int), c),
        decreases k,
    {
        assert(v@.take(k as int).drop_last() =~= v@.take(k - 1));
        assert(v@.take(k as int).last() == v@[k - 1]);
        if v[k - 1] == c {
            return Some(k - 1);
        }
        k = k - 1;
    }
    None
}

fn is_seg(v: &Vec<char>, from: usize, to: usize, dots: usize) -> (r: bool)
    requires
        from <= to <= v@.len(),
        dots <= 2,
    ensures
        r == (v@.subrange(from as int, to as int) == Seq::new(dots as nat, |_i: int| '.')),
{
    if to - from != dots {
        assert(v@.subrange(from as int, to as int).len() != Seq::new(dots as nat, |_i: int| '.').len());
        return false;
    }
    let mut k = from;
    while k < to
        invariant
            from <= k <= to <= v@.len(),
            to - from == dots,
            forall|j: int| from <= j < k ==> v@[j] == '.',
        decreases to - k,
    {
        if v[k] != '.' {
            assert(v@.subrange(from as int, to as int)[k - from] != '.');
            return false;
        }
        k = k + 1;
    }
    assert(v@.subrange(from as int, to as int) =~= Seq::new(dots as nat, |_i: int| '.'));
    true
}

/// The extension of a path, as `path_extension` describes.
pub fn path_extension_of(path: &str) -> (r: Option<String>)
    ensures
        opt_text(r) == path_extension(path@),
{
    let v = chars_of(path);
    let mut end = v.len();
    assert(v@.take(end as int) =~= path@);
    assert(seq!['.'] =~= Seq::new(1, |_i: int| '.'));
    assert(seq!['.', '.'] =~= Seq::new(2, |_i: int| '.'));
    // find the last component
    let mut name_start: usize = 0;
    let mut found = false;
    while !found
        invariant
            end <= v@.len(),
            v@ == path@,
            found ==> name_start <= end,
            file_name(path@) == if found {
                Some(v@.subrange(name_start as int, end as int))
            } else {
                file_name(v@.take(end as int))
            },
            seq!['.'] =~= Seq::new(1, |_i: int| '.'),
            seq!['.', '.'] =~= Seq::new(2, |_i: int| '.'),
        decreases end as int + if found {
            0int
        } else {
            1int
        },
    {
        let ghost p = v@.take(end as int);
        match last_index_of_vec(&v, end, '/') {
            Some(i) => {
                assert(p.skip(i + 1) =~= v@.subrange(i + 1, end as int));
                if end == i + 1 || is_seg(&v, i + 1, end, 1) {
                    assert(p.take(i as int) =~= v@.take(i as int));
                    end = i;
                } else if is_seg(&v, i + 1, end, 2) {
                    return None;
                } else {
                    name_start = i + 1;
                    found = true;
                }
            },
            None => {
                if end == 0 || is_seg(&v, 0, end, 1) || is_seg(&v, 0, end, 2) {
                    assert(v@.subrange(0, end as int) =~= p);
                    return None;
                }
                assert(v@.subrange(0, end as int) =~= p);
                name_start = 0;
                found = true;
            },
        }
    }
    let ghost name = v@.subrange(name_start as int, end as int);
    assert(name.take(end - name_start) =~= name);
    // the extension of the name
    let mut k = end;
    while k > name_start
        invariant
            name_start <= k <= end <= v@.len(),
            name == v@.subrange(name_start as int, end as int),
            file_name(path@) == Some(name),
            last_index_of(name, '.') == last_index_of(name.take(k - name_start), '.'),
        decreases k,
    {
        assert(name.take(k - name_start).drop_last() =~= name.take(k - 1 - name_start));
        assert(name.take(k - name_start).last() == v@[k - 1]);
        if v[k - 1] == '.' {
            assert(last_index_of(name, '.') == Some(k - 1 - name_start));
            if k - 1 == name_start {
                return None;
            }
            let mut out = String::new();
            let mut q = k;
            while q < end
                invariant
                    k <= q <= end <= v@.len(),
                    out@ == v@.subrange(k as int, q as int),
                decreases end - q,
            {
                push_char(&mut out, v[q]);
                assert(out@ =~= v@.subrange(k as int, q + 1));
                q = q + 1;
            }
            assert(name.skip(k - name_start) =~= v@.subrange(k as int, end as int));
            return Some(out);
        }
        k = k - 1;
    }
    assert(name.take(0) =~= Seq::<char>::empty());
    None
}

/// Whether a path names an image file, by its lower-cased extension.
pub fn is_image(path: &str) -> (r: bool)
    ensures
        r == match path_extension(path@) {
            Some(e) => image_extension(lowercase(e)),
            None => false,
        },
{
    match path_extension_of(path) {
        Some(e) => {
            let l = to_lowercase(e.as_str());
            str_eq(l.as_str(), "png") || str_eq(l.as_str(), "jpeg") || str_eq(l.as_str(), "jpg")
                || str_eq(l.as_str(), "webp") || str_eq(l.as_str(), "gif")
        },
        None => false,
    }
}

fn last_user_position(ms: &Vec<Message>) -> (r: Option<usize>)
    ensures
        match r {
            Some(i) => last_user_below(ms@, ms@.len() as int) == Some(i as int) && i < ms@.len(),
            None => last_user_below(ms@, ms@.len() as int) is None,
        },
{
    let mut p = ms.len();
    while p > 0
        invariant
            p <= ms@.len(),
            last_user_below(ms@, ms@.len() as int) == last_user_below(ms@, p as int),
        decreases p,
    {
        if ms[p - 1].role.is_user() {
            return Some(p - 1);
        }
        p = p - 1;
    }
    None
}

impl Input {
    /// The data of a chat-completions request for this input: the messages
    /// to send (as built and patched for the model), the role's temperature
    /// and top-p, the functions offered, whether to stream, and the input's
    /// cache content blocks and cache warming request.
    pub fn prepare_completion_data(
        &self,
        messages: Vec<Message>,
        functions: Option<Vec<FunctionDeclaration>>,
        stream: bool,
    ) -> (r: ChatCompletionsData)
        ensures
            r.messages == messages,
            r.temperature == self.role.temperature,
            r.top_p == self.role.top_p,
            r.functions == functions,
            r.stream == stream,
            r.cache_content_blocks@ == self.cache_content_blocks@,
            r.cache_warm == self.cache_warm,
    {
        ChatCompletionsData {
            messages,
            temperature: duplicate_opt_number(&self.role.temperature),
            top_p: duplicate_opt_number(&self.role.top_p),
            functions,
            stream,
            cache_content_blocks: copy_blocks(&self.cache_content_blocks),
            cache_warm: self.cache_warm,
        }
    }
}

impl Input {
    /// The messages to send: the role's or session's `base` messages with the
    /// history turns spliced in before the current user message, and the
    /// tool calls made so far at the end.
    pub fn build_messages(&self, base: Vec<Message>) -> (r: Vec<Message>)
        ensures
            ({
                let wh = with_history(base@, self.vim_history_turns@);
                match self.tool_calls {
                    Some(tc) => r@.len() == wh.len() + 1 && r@.take(wh.len() as int) == wh
                        && r@.last().role == MessageRole::Assistant && match r@.last().content {
                        MessageContent::ToolCalls(c) => tool_calls_view(c) == tool_calls_view(tc),
                        _ => false,
                    },
                    None => r@ == wh,
                }
            }),
    {
        let mut messages = base;
        let turns = &self.vim_history_turns;
        if turns.len() > 0 {
            let pos = last_user_position(&messages);
            match pos {
                Some(at) => {
                    assert(last_user_below(base@, base@.len() as int) == Some(at as int));
                    let mut j: usize = 0;
                    let mut count: usize = 0;
                    assert(turns@.take(0) =~= Seq::<VimHistoryTurn>::empty());
                    assert(base@ =~= base@.take(at as int) + history_messages(turns@.take(0))
                        + base@.skip(at as int));
                    while j < turns.len()
                        invariant
                            at < base@.len(),
                            j <= turns@.len(),
                            count == history_messages(turns@.take(j as int)).len(),
                            count <= 2 * j,
                            messages@ == base@.take(at as int) + history_messages(
                                turns@.take(j as int),
                            ) + base@.skip(at as int),
                        decreases turns.len() - j,
                    {
                        let t = &turns[j];
                        let ghost prev = history_messages(turns@.take(j as int));
                        assert(turns@.take(j + 1).drop_last() =~= turns@.take(j as int));
                        assert(turns@.take(j + 1).last() == turns@[j as int]);
                        assert(messages@.len() == base@.len() + count);
                        let cur_len = messages.len();
                        assert(at + count < cur_len);
                        if !t.user.as_str().is_empty() {
                            let m = Message::new(
                                MessageRole::User,
                                MessageContent::Text(t.user.clone()),
                            );
                            messages.insert(at + count, m);
                            count = count + 1;
                        }
                        let ghost mid = if t.user@.len() > 0 {
                            prev + seq![Message { role: MessageRole::User, content: MessageContent::Text(t.user) }]
                        } else {
                            prev
                        };
                        assert(messages@ =~= base@.take(at as int) + mid + base@.skip(at as int));
                        assert(messages@.len() == base@.len() + count);
                        let cur_len = messages.len();
                        assert(at + count < cur_len);
                        if !t.assistant.as_str().is_empty() {
                            let m = Message::new(
                                MessageRole::Assistant,
                                MessageContent::Text(t.assistant.clone()),
                            );
                            messages.insert(at + count, m);
                            count = count + 1;
                        }
                        let ghost next = history_messages(turns@.take(j + 1));
                        assert(messages@ =~= base@.take(at as int) + next + base@.skip(at as int));
                        j = j + 1;
                    }
                    assert(turns@.take(turns@.len() as int) =~= turns@);
                },
                None => {},
            }
        }
        let ghost wh = messages@;
        assert(wh == with_history(base@, self.vim_history_turns@));
        match &self.tool_calls {
            Some(tc) => {
                messages.push(
                    Message::new(MessageRole::Assistant, MessageContent::ToolCalls(copy_tool_calls(tc))),
                );
                assert(messages@.take(wh.len() as int) =~= wh);
            },
            None => {},
        }
        messages
    }

    /// What is shown instead of sending the input: the session's echo when
    /// the input belongs to the session and the configuration has one,
    /// else the role's prompt with the rendered input.
    pub fn echo_messages(&self, session_echo: Option<String>) -> (r: String)
        ensures
            r@ == match session_echo {
                Some(e) => if self.with_session {
                    e@
                } else {
                    role_echo(self.role.prompt@, self.spec_render())
                },
                None => role_echo(self.role.prompt@, self.spec_render()),
            },
    {
        if self.with_session {
            match session_echo {
                Some(e) => {
                    return e;
                },
                None => {},
            }
        }
        let rendered = self.render();
        proof {
            reveal_strlit("__INPUT__");
        }
        if self.role.prompt.as_str().is_empty() {
            rendered
        } else if contains_str(self.role.prompt.as_str(), "__INPUT__") {
            replace_str(self.role.prompt.as_str(), "__INPUT__", rendered.as_str())
        } else {
            let mut out = self.role.prompt.clone();
            push_str(&mut out, "\n\n");
            push_str(&mut out, rendered.as_str());
            out
        }
    }
}


/// A loaded document: its kind (`CMD`, `FILE`, `URL`, `FROM`), where it came
/// from, its contents, and the contents read as JSON when they are JSON.
pub struct Document {
    pub kind: String,
    pub path: String,
    pub contents: String,
    pub json: Option<Json>,
}

pub open spec fn doc_json(d: Document) -> Option<JsonV> {
    match d.json {
        Some(j) => Some(j@),
        None => None,
    }
}

/// The history turns of the first `n` documents, in order.
pub open spec fn docs_turns(ds: Seq<Document>, n: nat) -> Seq<(Seq<char>, Seq<char>)>
    decreases n,
{
    if n == 0 || n > ds.len() {
        Seq::empty()
    } else {
        docs_turns(ds, (n - 1) as nat) + history_turns(doc_json(ds[n - 1]))
    }
}

/// The cache content blocks of the first `n` documents, in order.
pub open spec fn docs_blocks(ds: Seq<Document>, n: nat) -> Seq<(Seq<char>, Seq<char>, bool)>
    decreases n,
{
    if n == 0 || n > ds.len() {
        Seq::empty()
    } else {
        docs_blocks(ds, (n - 1) as nat) + content_blocks(doc_json(ds[n - 1]))
    }
}

/// Whether one of the first `n` documents asks for cache warming.
pub open spec fn docs_warm(ds: Seq<Document>, n: nat) -> bool
    decreases n,
{
    if n == 0 || n > ds.len() {
        false
    } else {
        docs_warm(ds, (n - 1) as nat) || cache_warm_requested(doc_json(ds[n - 1]))
    }
}

/// How a document is quoted in the text: alone (when it is the only one and
/// there is no prompt text), or followed by a line naming it.
pub open spec fn doc_text(d: Document, alone: bool) -> Seq<char> {
    if alone {
        "\n"@ + d.contents@
    } else {
        "\n"@ + d.contents@ + "\n============ "@ + d.kind@ + ": "@ + d.path@ + " ============"@
    }
}

/// The last reply an input that asks for it takes up: the last output when
/// not empty, else the last reply of the last input.
pub open spec fn last_reply_of(last_message: Option<(String, Option<String>)>) -> Option<Seq<char>> {
    match last_message {
        Some((output, input_reply)) => if output@.len() > 0 {
            Some(output@)
        } else {
            match input_reply {
                Some(v) => Some(v@),
                None => None,
            }
        },
        None => None,
    }
}

/// The parts of an input's text, in order: the documents (static content
/// first), the last reply, the prompt text, the cursor position.
pub open spec fn input_texts(
    raw_text: Seq<char>,
    docs: Seq<Document>,
    last_reply: Option<Seq<char>>,
    cursor: Option<(Seq<char>, Seq<char>)>,
) -> Seq<Seq<char>> {
    let alone = docs.len() == 1 && raw_text.len() == 0;
    docs.map_values(|d: Document| doc_text(d, alone)) + (match last_reply {
        Some(v) => seq!["\n"@ + v],
        None => Seq::empty(),
    }) + (if raw_text.len() > 0 {
        seq![raw_text]
    } else {
        Seq::empty()
    }) + match cursor {
        Some((l, c)) => if l.len() > 0 && c.len() > 0 {
            seq!["\ncursor_line:"@ + l + ", cursor_col:"@ + c]
        } else {
            Seq::empty()
        },
        None => Seq::empty(),
    }
}

fn doc_text_string(d: &Document, alone: bool) -> (r: String)
    ensures
        r@ == doc_text(*d, alone),
{
    let mut t = String::new();
    push_str(&mut t, "\n");
    push_str(&mut t, d.contents.as_str());
    if !alone {
        push_str(&mut t, "\n============ ");
        push_str(&mut t, d.kind.as_str());
        push_str(&mut t, ": ");
        push_str(&mut t, d.path.as_str());
        push_str(&mut t, " ============");
    }
    t
}

impl Input {
    /// An input made of loaded documents and media, the last reply when it
    /// is asked for (`%%`), the prompt text and the cursor position: the
    /// documents' history turns, cache content blocks and cache warming
    /// requests are taken up. Fails when the last reply is asked for and
    /// there is none, nor any document or media.
    pub fn from_documents(
        config: &Config,
        raw_text: &str,
        raw_paths: Vec<String>,
        documents: Vec<Document>,
        medias: Vec<String>,
        data_urls: Vec<(String, String)>,
        with_last_reply: bool,
        last_message: Option<(String, Option<String>)>,
        cursor: Option<(String, String)>,
        env_cache_warm: bool,
        role: Option<Role>,
    ) -> (r: Result<Input, String>)
        ensures
            ({
                let last_reply = if with_last_reply {
                    last_reply_of(last_message)
                } else {
                    None
                };
                match r {
                    Ok(i) => !(with_last_reply && last_reply is None && documents@.len() == 0
                        && medias@.len() == 0) && i.text@ == join_with(
                        input_texts(
                            raw_text@,
                            documents@,
                            last_reply,
                            match cursor {
                                Some((l, c)) => Some((l@, c@)),
                                None => None,
                            },
                        ),
                        "\n"@,
                    ) && i.raw.0@ == raw_text@ && i.raw.1 == raw_paths && i.patched_text is None
                        && opt_text(i.last_reply) == last_reply && i.continue_output is None
                        && !i.regenerate && i.medias == medias && i.data_urls == data_urls
                        && i.tool_calls is None && (i.role, i.with_session, i.with_agent) == match role {
                        Some(v) => (v, false, false),
                        None => (config.role, config.has_session, config.has_agent),
                    } && i.rag_name is None && turns_view(i.vim_history_turns@) == docs_turns(
                        documents@,
                        documents@.len(),
                    ) && blocks_view(i.cache_content_blocks@) == docs_blocks(
                        documents@,
                        documents@.len(),
                    ) && i.cache_warm == (docs_warm(documents@, documents@.len())
                        || env_cache_warm),
                    Err(e) => with_last_reply && last_reply is None && documents@.len() == 0
                        && medias@.len() == 0 && e@ == "No last reply found"@,
                }
            }),
    {
        let mut turns: Vec<VimHistoryTurn> = Vec::new();
        let mut blocks: Vec<CacheContentBlock> = Vec::new();
        let mut warm = false;
        let mut texts: Vec<String> = Vec::new();
        let alone = documents.len() == 1 && raw_text.is_empty();
        let mut i: usize = 0;
        while i < documents.len()
            invariant
                i <= documents@.len(),
                alone == (documents@.len() == 1 && raw_text@.len() == 0),
                turns_view(turns@) == docs_turns(documents@, i as nat),
                blocks_view(blocks@) == docs_blocks(documents@, i as nat),
                warm == docs_warm(documents@, i as nat),
                texts_of(texts@) == documents@.take(i as int).map_values(
                    |d: Document| doc_text(d, alone),
                ),
            decreases documents.len() - i,
        {
            let d = &documents[i];
            let j = match &d.json {
                Some(j) => Some(j),
                None => None,
            };
            assert(match j {
                Some(x) => Some(x@),
                None => None,
            } == doc_json(documents@[i as int]));
            let mut t = parse_vim_history_turns(j);
            let ghost tb = turns@;
            turns.append(&mut t);
            assert(turns_view(turns@) =~= turns_view(tb) + history_turns(doc_json(documents@[i as int])));
            let mut b = split_json_content_blocks(j);
            let ghost bb = blocks@;
            blocks.append(&mut b);
            assert(blocks_view(blocks@) =~= blocks_view(bb) + content_blocks(doc_json(documents@[i as int])));
            warm = warm || detect_cache_warm_field(j);
            let ghost before = texts@;
            texts.push(doc_text_string(d, alone));
            assert(texts_of(texts@) =~= texts_of(before).push(doc_text(documents@[i as int], alone)));
            assert(documents@.take(i + 1).map_values(|d: Document| doc_text(d, alone))
                =~= documents@.take(i as int).map_values(|d: Document| doc_text(d, alone)).push(
                doc_text(documents@[i as int], alone),
            ));
            i = i + 1;
        }
        assert(documents@.take(documents@.len() as int) =~= documents@);
        let ghost t0 = texts_of(texts@);
        let mut last_reply: Option<String> = None;
        if with_last_reply {
            match &last_message {
                Some((output, input_reply)) => {
                    if !output.as_str().is_empty() {
                        last_reply = Some(output.clone());
                    } else {
                        match input_reply {
                            Some(v) => {
                                last_reply = Some(v.clone());
                            },
                            None => {},
                        }
                    }
                },
                None => {},
            }
            match &last_reply {
                Some(v) => {
                    let mut t = String::new();
                    push_str(&mut t, "\n");
                    push_str(&mut t, v.as_str());
                    texts.push(t);
                },
                None => {},
            }
            if last_reply.is_none() && documents.len() == 0 && medias.len() == 0 {
                return Err("No last reply found".to_owned());
            }
        }
        let ghost t1 = texts_of(texts@);
        assert(t1 == t0 + match opt_text(last_reply) {
            Some(v) => seq!["\n"@ + v],
            None => Seq::<Seq<char>>::empty(),
        });
        if !raw_text.is_empty() {
            texts.push(raw_text.to_owned());
        }
        let ghost t2 = texts_of(texts@);
        assert(t2 == t1 + if raw_text@.len() > 0 {
            seq![raw_text@]
        } else {
            Seq::<Seq<char>>::empty()
        });
        match &cursor {
            Some((l, c)) => {
                if !l.as_str().is_empty() && !c.as_str().is_empty() {
                    let mut t = String::new();
                    push_str(&mut t, "\ncursor_line:");
                    push_str(&mut t, l.as_str());
                    push_str(&mut t, ", cursor_col:");
                    push_str(&mut t, c.as_str());
                    texts.push(t);
                }
            },
            None => {},
        }
        assert(texts_of(texts@) =~= input_texts(
            raw_text@,
            documents@,
            opt_text(last_reply),
            match cursor {
                Some((l, c)) => Some((l@, c@)),
                None => None,
            },
        ));
        let text = join_strs(&texts, "\n");
        let (role, with_session, with_agent) = resolve_role(config, role);
        Ok(
            Input {
                text,
                raw: (raw_text.to_owned(), raw_paths),
                patched_text: None,
                last_reply,
                continue_output: None,
                regenerate: false,
                medias,
                data_urls,
                tool_calls: None,
                role,
                rag_name: None,
                vim_history_turns: turns,
                cache_content_blocks: blocks,
                cache_warm: warm || env_cache_warm,
                with_session,
                with_agent,
            },
        )
    }
}

} // verus!
