use vstd::prelude::*;
use crate::client::{regex_match, regex_matches};
use crate::json::{arr_push, items_view, jstr, members_view, obj_push, u64_value, ju64, Json, JsonV};
use crate::text::{
    chars_of, contains_seq, contains_str, lowercase, push_char, push_str, replace_all,
    replace_str, to_lowercase, trim, trim_str,
};

verus! {

/// The names of a comma-separated list read so far, and the piece being
/// read: each piece is trimmed, and empty pieces are dropped.
pub open spec fn names_scan(s: Seq<char>, n: nat) -> (Seq<Seq<char>>, Seq<char>)
    decreases n,
{
    if n == 0 || n > s.len() {
        (Seq::empty(), Seq::empty())
    } else {
        let (names, cur) = names_scan(s, (n - 1) as nat);
        if s[n - 1] == ',' {
            (add_name(names, cur), Seq::empty())
        } else {
            (names, cur.push(s[n - 1]))
        }
    }
}

/// The names after a finished piece: its trimmed text, unless that is empty.
pub open spec fn add_name(names: Seq<Seq<char>>, piece: Seq<char>) -> Seq<Seq<char>> {
    if trim(piece).len() == 0 {
        names
    } else {
        names.push(trim(piece))
    }
}

/// The names of a comma-separated list: the pieces between commas, trimmed,
/// the empty ones dropped.
pub open spec fn model_names_of(s: Seq<char>) -> Seq<Seq<char>> {
    let (names, cur) = names_scan(s, s.len());
    add_name(names, cur)
}

fn add_name_str(names: &mut Vec<String>, piece: &str)
    ensures
        final(names)@.map_values(|n: String| n@) == add_name(
            old(names)@.map_values(|n: String| n@),
            piece@,
        ),
{
    let t = trim_str(piece);
    if !t.as_str().is_empty() {
        let ghost before = names@;
        names.push(t);
        assert(names@.map_values(|n: String| n@) =~= before.map_values(|n: String| n@).push(
            trim(piece@),
        ));
    }
}

/// The model names typed as a comma-separated list, as `model_names_of`
/// describes.
pub fn parse_model_names(input: &str) -> (r: Vec<String>)
    ensures
        r@.map_values(|n: String| n@) == model_names_of(input@),
{
    let v = chars_of(input);
    let mut names: Vec<String> = Vec::new();
    let mut cur = String::new();
    let mut i: usize = 0;
    assert(names@.map_values(|n: String| n@) =~= Seq::<Seq<char>>::empty());
    while i < v.len()
        invariant
            v@ == input@,
            i <= v@.len(),
            (names@.map_values(|n: String| n@), cur@) == names_scan(input@, i as nat),
        decreases v.len() - i,
    {
        let c = v[i];
        if c == ',' {
            add_name_str(&mut names, cur.as_str());
            cur = String::new();
        } else {
            push_char(&mut cur, c);
        }
        i = i + 1;
    }
    add_name_str(&mut names, cur.as_str());
    names
}

/// The pattern that marks a model name (lower-cased) as an embedding model.
pub open spec fn embedding_pattern() -> Seq<char> {
    "((^|/)(bge-|e5-|uae-|gte-|text-)|embed|multilingual|minilm)"@
}

/// The configuration entry of a model typed by name: a name whose
/// lower-cased form contains `rank` is a reranker; one whose lower-cased
/// form matches the embedding pattern is an embedding model with a chunk
/// size of 1000 and a batch size of 100; one containing `vision` supports
/// vision; any other is a plain chat model.
pub open spec fn model_entry_value(name: Seq<char>) -> JsonV {
    let l = lowercase(name);
    if contains_seq(l, "rank"@) {
        JsonV::Object(seq![("name"@, JsonV::Str(name)), ("type"@, JsonV::Str("reranker"@))])
    } else if regex_matches(embedding_pattern(), l) == Some(true) {
        JsonV::Object(
            seq![
                ("name"@, JsonV::Str(name)),
                ("type"@, JsonV::Str("embedding"@)),
                ("default_chunk_size"@, u64_value(1000)),
                ("max_batch_size"@, u64_value(100)),
            ],
        )
    } else if contains_seq(name, "vision"@) {
        JsonV::Object(seq![("name"@, JsonV::Str(name)), ("supports_vision"@, JsonV::Bool(true))])
    } else {
        JsonV::Object(seq![("name"@, JsonV::Str(name))])
    }
}

/// The configuration entry of a model, as `model_entry_value` describes.
pub fn model_entry(name: &str) -> (r: Json)
    ensures
        r@ == model_entry_value(name@),
{
    let l = to_lowercase(name);
    let mut m: Vec<(String, Json)> = Vec::new();
    assert(members_view(Seq::<(String, Json)>::empty(), 0) =~= Seq::empty());
    obj_push(&mut m, "name", jstr(name));
    if contains_str(l.as_str(), "rank") {
        obj_push(&mut m, "type", jstr("reranker"));
        assert(members_view(m@, m@.len()) =~= seq![
            ("name"@, JsonV::Str(name@)),
            ("type"@, JsonV::Str("reranker"@)),
        ]);
    } else if regex_match("((^|/)(bge-|e5-|uae-|gte-|text-)|embed|multilingual|minilm)", l.as_str())
        == Some(true) {
        obj_push(&mut m, "type", jstr("embedding"));
        obj_push(&mut m, "default_chunk_size", ju64(1000));
        obj_push(&mut m, "max_batch_size", ju64(100));
        assert(members_view(m@, m@.len()) =~= seq![
            ("name"@, JsonV::Str(name@)),
            ("type"@, JsonV::Str("embedding"@)),
            ("default_chunk_size"@, u64_value(1000)),
            ("max_batch_size"@, u64_value(100)),
        ]);
    } else if contains_str(name, "vision") {
        obj_push(&mut m, "supports_vision", Json::Bool(true));
        assert(members_view(m@, m@.len()) =~= seq![
            ("name"@, JsonV::Str(name@)),
            ("supports_vision"@, JsonV::Bool(true)),
        ]);
    } else {
        assert(members_view(m@, m@.len()) =~= seq![("name"@, JsonV::Str(name@))]);
    }
    Json::Object(m)
}

/// The `models` list of a client's configuration: one entry per name, in
/// order, as `model_entry_value` describes.
pub fn models_config(names: &Vec<String>) -> (r: Json)
    ensures
        r@ == JsonV::Array(names@.map_values(|n: String| model_entry_value(n@))),
{
    let mut a: Vec<Json> = Vec::new();
    let mut i: usize = 0;
    while i < names.len()
        invariant
            i <= names@.len(),
            items_view(a@, a@.len()) == names@.take(i as int).map_values(
                |n: String| model_entry_value(n@),
            ),
        decreases names.len() - i,
    {
        arr_push(&mut a, model_entry(names[i].as_str()));
        assert(names@.take(i + 1).map_values(|n: String| model_entry_value(n@)) =~= names@.take(
            i as int,
        ).map_values(|n: String| model_entry_value(n@)).push(model_entry_value(names@[i as int]@)));
        i = i + 1;
    }
    assert(names@.take(names@.len() as int) =~= names@);
    Json::Array(a)
}

/// The default model among the configured ones: none configured is refused
/// with `No models`; a single one is the default; among several the user
/// picks (`None`).
pub fn default_model_choice(names: &Vec<String>) -> (r: Result<Option<String>, String>)
    ensures
        match r {
            Ok(Some(n)) => names@.len() == 1 && n == names@[0],
            Ok(None) => names@.len() > 1,
            Err(e) => names@.len() == 0 && e@ == "No models"@,
        },
{
    if names.len() == 0 {
        Err("No models".to_owned())
    } else if names.len() == 1 {
        Ok(Some(names[0].clone()))
    } else {
        Ok(None)
    }
}

/// The id a chosen model is known by: `<client>:<model>`.
pub fn model_id(client: &str, model_name: &str) -> (r: String)
    ensures
        r@ == client@ + ":"@ + model_name@,
{
    let mut r = String::new();
    push_str(&mut r, client);
    push_str(&mut r, ":");
    push_str(&mut r, model_name);
    r
}

/// An ASCII lower-case letter made upper-case; any other character as it is.
pub open spec fn ascii_upper(c: char) -> char {
    if 'a' <= c <= 'z' {
        ((c as u32) - 32) as char
    } else {
        c
    }
}

/// The name of the environment variable for a client's setting:
/// `<client>_<key>` with ASCII letters upper-cased.
pub fn env_name(client: &str, key: &str) -> (r: String)
    ensures
        r@ == (client@ + "_"@ + key@).map_values(|c: char| ascii_upper(c)),
{
    let mut joined = String::new();
    push_str(&mut joined, client);
    push_str(&mut joined, "_");
    push_str(&mut joined, key);
    let v = chars_of(joined.as_str());
    let mut out = String::new();
    let mut i: usize = 0;
    while i < v.len()
        invariant
            i <= v@.len(),
            v@ == joined@,
            out@ == v@.take(i as int).map_values(|c: char| ascii_upper(c)),
        decreases v.len() - i,
    {
        let c = v[i];
        let u = if 'a' <= c && c <= 'z' {
            let b = (c as u8) - 32;
            b as char
        } else {
            c
        };
        assert(u == ascii_upper(c));
        push_char(&mut out, u);
        assert(v@.take(i + 1).map_values(|c: char| ascii_upper(c)) =~= v@.take(i as int).map_values(
            |c: char| ascii_upper(c),
        ).push(ascii_upper(c)));
        i = i + 1;
    }
    assert(v@.take(v@.len() as int) =~= v@);
    out
}

/// A provider name as typed, with spaces turned into hyphens.
pub fn provider_name(typed: &str) -> (r: String)
    ensures
        r@ == replace_all(typed@, " "@, "-"@),
{
    proof {
        reveal_strlit(" ");
    }
    replace_str(typed, " ", "-")
}

} // verus!
