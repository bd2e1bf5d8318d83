use vstd::prelude::*;
use crate::text::{
    decimal, escape_str, push_char, push_decimal, push_escaped, push_signed, push_str, signed_decimal, str_eq,
    string_of,
};

verus! {

/// A JSON number as the parser delivered it: its canonical text and its
/// integer readings, when it has them.
pub struct JsonNumber {
    pub text: String,
    pub as_u64: Option<u64>,
    pub as_i64: Option<i64>,
}

/// A JSON document. Object members keep their document order.
pub enum Json {
    Null,
    Bool(bool),
    Number(JsonNumber),
    Str(String),
    Array(Vec<Json>),
    Object(Vec<(String, Json)>),
}

/// The mathematical value of a JSON document.
#[verifier::ext_equal]
pub enum JsonV {
    Null,
    Bool(bool),
    /// Canonical text, reading as u64, reading as i64.
    Number(Seq<char>, Option<u64>, Option<i64>),
    Str(Seq<char>),
    Array(Seq<JsonV>),
    Object(Seq<(Seq<char>, JsonV)>),
}

pub open spec fn items_view(items: Seq<Json>, n: nat) -> Seq<JsonV>
    decreases items, n,
{
    if n == 0 || n > items.len() {
        Seq::empty()
    } else {
        items_view(items, (n - 1) as nat).push(json_view(items[n - 1]))
    }
}

pub open spec fn members_view(m: Seq<(String, Json)>, n: nat) -> Seq<(Seq<char>, JsonV)>
    decreases m, n,
{
    if n == 0 || n > m.len() {
        Seq::empty()
    } else {
        members_view(m, (n - 1) as nat).push((m[n - 1].0@, json_view(m[n - 1].1)))
    }
}

pub open spec fn json_view(j: Json) -> JsonV
    decreases j, 0nat,
{
    match j {
        Json::Null => JsonV::Null,
        Json::Bool(b) => JsonV::Bool(b),
        Json::Number(n) => JsonV::Number(n.text@, n.as_u64, n.as_i64),
        Json::Str(s) => JsonV::Str(s@),
        Json::Array(v) => JsonV::Array(items_view(v@, v@.len())),
        Json::Object(m) => JsonV::Object(members_view(m@, m@.len())),
    }
}

impl View for Json {
    type V = JsonV;

    open spec fn view(&self) -> JsonV {
        json_view(*self)
    }
}

pub proof fn lemma_items_view(items: Seq<Json>, n: nat)
    requires
        n <= items.len(),
    ensures
        items_view(items, n).len() == n,
        forall|i: int| 0 <= i < n ==> #[trigger] items_view(items, n)[i] == json_view(items[i]),
    decreases n,
{
    if n > 0 {
        lemma_items_view(items, (n - 1) as nat);
    }
}

pub proof fn lemma_members_view(m: Seq<(String, Json)>, n: nat)
    requires
        n <= m.len(),
    ensures
        members_view(m, n).len() == n,
        forall|i: int|
            0 <= i < n ==> #[trigger] members_view(m, n)[i] == (m[i].0@, json_view(m[i].1)),
    decreases n,
{
    if n > 0 {
        lemma_members_view(m, (n - 1) as nat);
    }
}

/// The view of an array's elements.
pub proof fn lemma_array_view(v: Vec<Json>)
    ensures
        Json::Array(v)@ == JsonV::Array(items_view(v@, v@.len())),
        items_view(v@, v@.len()).len() == v@.len(),
        forall|i: int| 0 <= i < v@.len() ==> #[trigger] items_view(v@, v@.len())[i] == v@[i]@,
{
    lemma_items_view(v@, v@.len());
}

/// The view of an object's members.
pub proof fn lemma_object_view(m: Vec<(String, Json)>)
    ensures
        Json::Object(m)@ == JsonV::Object(members_view(m@, m@.len())),
        members_view(m@, m@.len()).len() == m@.len(),
        forall|i: int|
            0 <= i < m@.len() ==> #[trigger] members_view(m@, m@.len())[i] == (
                m@[i].0@,
                m@[i].1@,
            ),
{
    lemma_members_view(m@, m@.len());
}

/// The compact JSON text of a string: quoted and escaped.
pub open spec fn quoted(s: Seq<char>) -> Seq<char> {
    seq!['"'] + escape_str(s) + seq!['"']
}

pub open spec fn join_items(items: Seq<JsonV>, n: nat) -> Seq<char>
    decreases items, n,
{
    if n == 0 || n > items.len() {
        Seq::empty()
    } else if n == 1 {
        json_text(items[0])
    } else {
        join_items(items, (n - 1) as nat) + seq![','] + json_text(items[n - 1])
    }
}

pub open spec fn join_members(members: Seq<(Seq<char>, JsonV)>, n: nat) -> Seq<char>
    decreases members, n,
{
    if n == 0 || n > members.len() {
        Seq::empty()
    } else if n == 1 {
        quoted(members[0].0) + seq![':'] + json_text(members[0].1)
    } else {
        join_members(members, (n - 1) as nat) + seq![','] + quoted(members[n - 1].0) + seq![':']
            + json_text(members[n - 1].1)
    }
}

/// The compact JSON text of a value (no white space between tokens), as
/// serde_json writes it.
pub open spec fn json_text(j: JsonV) -> Seq<char>
    decreases j, 0nat,
{
    match j {
        JsonV::Null => seq!['n', 'u', 'l', 'l'],
        JsonV::Bool(b) => if b {
            seq!['t', 'r', 'u', 'e']
        } else {
            seq!['f', 'a', 'l', 's', 'e']
        },
        JsonV::Number(t, _, _) => t,
        JsonV::Str(s) => quoted(s),
        JsonV::Array(v) => seq!['['] + join_items(v, v.len()) + seq![']'],
        JsonV::Object(m) => seq!['{'] + join_members(m, m.len()) + seq!['}'],
    }
}

fn write_quoted(s: &str, out: &mut String)
    ensures
        final(out)@ == old(out)@ + quoted(s@),
{
    push_char(out, '"');
    push_escaped(s, out);
    push_char(out, '"');
}

fn write_items(items: &Vec<Json>, out: &mut String)
    ensures
        final(out)@ == old(out)@ + join_items(
            items_view(items@, items@.len()),
            items@.len(),
        ),
    decreases items, 0nat,
{
    let ghost start = out@;
    let ghost iv = items_view(items@, items@.len());
    proof {
        lemma_items_view(items@, items@.len());
    }
    let mut i: usize = 0;
    while i < items.len()
        invariant
            i <= items.len(),
            iv == items_view(items@, items@.len()),
            iv.len() == items@.len(),
            forall|k: int| 0 <= k < items@.len() ==> #[trigger] iv[k] == json_view(items@[k]),
            out@ == start + join_items(iv, i as nat),
        decreases items.len() - i,
    {
        if i > 0 {
            push_char(out, ',');
        }
        proof {
            assert(decreases_to!(*items => items@));
            assert(decreases_to!(items@ => items@[i as int]));
        }
        write_json(&items[i], out);
        i = i + 1;
    }
}

fn write_members(members: &Vec<(String, Json)>, out: &mut String)
    ensures
        final(out)@ == old(out)@ + join_members(
            members_view(members@, members@.len()),
            members@.len(),
        ),
    decreases members, 0nat,
{
    let ghost start = out@;
    let ghost mv = members_view(members@, members@.len());
    proof {
        lemma_members_view(members@, members@.len());
    }
    let mut i: usize = 0;
    while i < members.len()
        invariant
            i <= members.len(),
            mv == members_view(members@, members@.len()),
            mv.len() == members@.len(),
            forall|k: int|
                0 <= k < members@.len() ==> #[trigger] mv[k] == (
                    members@[k].0@,
                    json_view(members@[k].1),
                ),
            out@ == start + join_members(mv, i as nat),
        decreases members.len() - i,
    {
        if i > 0 {
            push_char(out, ',');
        }
        write_quoted(members[i].0.as_str(), out);
        push_char(out, ':');
        proof {
            assert(decreases_to!(*members => members@));
            assert(decreases_to!(members@ => members@[i as int]));
            assert(decreases_to!(members@[i as int] => members@[i as int].1));
        }
        write_json(&members[i].1, out);
        i = i + 1;
    }
}

/// Appends the compact JSON text of `j` to `out`.
pub fn write_json(j: &Json, out: &mut String)
    ensures
        final(out)@ == old(out)@ + json_text(j@),
    decreases j, 1nat,
{
    match j {
        Json::Null => {
            proof {
                reveal_strlit("null");
            }
            push_str(out, "null");
        },
        Json::Bool(b) => {
            if *b {
                proof {
                    reveal_strlit("true");
                }
                push_str(out, "true");
            } else {
                proof {
                    reveal_strlit("false");
                }
                push_str(out, "false");
            }
        },
        Json::Number(n) => {
            push_str(out, n.text.as_str());
        },
        Json::Str(s) => {
            write_quoted(s.as_str(), out);
        },
        Json::Array(v) => {
            proof {
                lemma_items_view(v@, v@.len());
            }
            push_char(out, '[');
            write_items(v, out);
            push_char(out, ']');
        },
        Json::Object(m) => {
            proof {
                lemma_members_view(m@, m@.len());
            }
            push_char(out, '{');
            write_members(m, out);
            push_char(out, '}');
        },
    }
}

/// The compact JSON text of a document.
pub fn to_json_string(j: &Json) -> (res: String)
    ensures
        res@ == json_text(j@),
{
    let mut out = String::new();
    write_json(j, &mut out);
    out
}

/// The value of the first member named `key`.
pub open spec fn member(m: Seq<(Seq<char>, JsonV)>, key: Seq<char>) -> Option<JsonV>
    decreases m.len(),
{
    if m.len() == 0 {
        None
    } else if m[0].0 == key {
        Some(m[0].1)
    } else {
        member(m.drop_first(), key)
    }
}

/// `j[key]` when `j` is an object that has that member.
pub open spec fn json_get(j: JsonV, key: Seq<char>) -> Option<JsonV> {
    match j {
        JsonV::Object(m) => member(m, key),
        _ => None,
    }
}

/// The text of a string value.
pub open spec fn json_str(j: JsonV) -> Option<Seq<char>> {
    match j {
        JsonV::Str(s) => Some(s),
        _ => None,
    }
}

/// `j[key]` as a string, when it is one.
pub open spec fn json_get_str(j: JsonV, key: Seq<char>) -> Option<Seq<char>> {
    match json_get(j, key) {
        Some(v) => json_str(v),
        None => None,
    }
}

/// `j[key]` read as an unsigned integer, when it is one.
pub open spec fn json_get_u64(j: JsonV, key: Seq<char>) -> Option<u64> {
    match json_get(j, key) {
        Some(JsonV::Number(_, u, _)) => u,
        _ => None,
    }
}

/// `j[key]` read as a signed integer, when it is one.
pub open spec fn json_get_i64(j: JsonV, key: Seq<char>) -> Option<i64> {
    match json_get(j, key) {
        Some(JsonV::Number(_, _, i)) => i,
        _ => None,
    }
}

/// The member named `key` of an object, when there is one.
pub fn get<'a>(j: &'a Json, key: &str) -> (r: Option<&'a Json>)
    ensures
        match r {
            Some(v) => json_get(j@, key@) == Some(v@),
            None => json_get(j@, key@) is None,
        },
{
    match j {
        Json::Object(m) => get_member(m, key),
        _ => None,
    }
}

/// The value of the first member named `key`.
pub fn get_member<'a>(m: &'a Vec<(String, Json)>, key: &str) -> (r: Option<&'a Json>)
    ensures
        match r {
            Some(v) => member(members_view(m@, m@.len()), key@) == Some(v@),
            None => member(members_view(m@, m@.len()), key@) is None,
        },
{
    let ghost mv = members_view(m@, m@.len());
    proof {
        lemma_members_view(m@, m@.len());
    }
    let mut i: usize = 0;
    assert(mv.skip(0) =~= mv);
    while i < m.len()
        invariant
            i <= m.len(),
            mv == members_view(m@, m@.len()),
            mv.len() == m@.len(),
            forall|k: int| 0 <= k < m@.len() ==> #[trigger] mv[k] == (m@[k].0@, m@[k].1@),
            member(mv, key@) == member(mv.skip(i as int), key@),
        decreases m.len() - i,
    {
        assert(mv.skip(i as int).drop_first() =~= mv.skip(i + 1));
        assert(mv.skip(i as int)[0] == mv[i as int]);
        if str_eq(m[i].0.as_str(), key) {
            return Some(&m[i].1);
        }
        i = i + 1;
    }
    None
}

/// The text of a string value.
pub fn as_str(j: &Json) -> (r: Option<&str>)
    ensures
        match r {
            Some(s) => json_str(j@) == Some(s@),
            None => json_str(j@) is None,
        },
{
    match j {
        Json::Str(s) => Some(s.as_str()),
        _ => None,
    }
}

/// `j[key]` as a string, when it is one.
pub fn get_str<'a>(j: &'a Json, key: &str) -> (r: Option<&'a str>)
    ensures
        match r {
            Some(s) => json_get_str(j@, key@) == Some(s@),
            None => json_get_str(j@, key@) is None,
        },
{
    match get(j, key) {
        Some(v) => as_str(v),
        None => None,
    }
}

/// `j[key]` read as an unsigned integer.
pub fn get_u64(j: &Json, key: &str) -> (r: Option<u64>)
    ensures
        r == json_get_u64(j@, key@),
{
    match get(j, key) {
        Some(Json::Number(n)) => n.as_u64,
        _ => None,
    }
}

/// `j[key]` read as a signed integer.
pub fn get_i64(j: &Json, key: &str) -> (r: Option<i64>)
    ensures
        r == json_get_i64(j@, key@),
{
    match get(j, key) {
        Some(Json::Number(n)) => n.as_i64,
        _ => None,
    }
}


proof fn lemma_items_view_same_prefix(s: Seq<Json>, t: Seq<Json>, n: nat)
    requires
        n <= s.len(),
        n <= t.len(),
        forall|i: int| 0 <= i < n ==> s[i] == t[i],
    ensures
        items_view(s, n) == items_view(t, n),
    decreases n,
{
    if n > 0 {
        lemma_items_view_same_prefix(s, t, (n - 1) as nat);
    }
}

proof fn lemma_members_view_same_prefix(s: Seq<(String, Json)>, t: Seq<(String, Json)>, n: nat)
    requires
        n <= s.len(),
        n <= t.len(),
        forall|i: int| 0 <= i < n ==> s[i] == t[i],
    ensures
        members_view(s, n) == members_view(t, n),
    decreases n,
{
    if n > 0 {
        lemma_members_view_same_prefix(s, t, (n - 1) as nat);
    }
}

/// Appending an element appends its view.
pub proof fn lemma_items_view_push(s: Seq<Json>, x: Json)
    ensures
        items_view(s.push(x), s.len() + 1) == items_view(s, s.len()).push(x@),
{
    lemma_items_view_same_prefix(s.push(x), s, s.len());
}

/// Appending a member appends its view.
pub proof fn lemma_members_view_push(s: Seq<(String, Json)>, x: (String, Json))
    ensures
        members_view(s.push(x), s.len() + 1) == members_view(s, s.len()).push((x.0@, x.1@)),
{
    lemma_members_view_same_prefix(s.push(x), s, s.len());
}

/// Replacing a member replaces its view.
pub proof fn lemma_members_view_update(s: Seq<(String, Json)>, i: int, x: (String, Json))
    requires
        0 <= i < s.len(),
    ensures
        members_view(s.update(i, x), s.len()) == members_view(s, s.len()).update(
            i,
            (x.0@, x.1@),
        ),
{
    lemma_members_view(s.update(i, x), s.len());
    lemma_members_view(s, s.len());
    assert(members_view(s.update(i, x), s.len()) =~= members_view(s, s.len()).update(
        i,
        (x.0@, x.1@),
    ));
}

/// A string value.
pub fn jstr(s: &str) -> (r: Json)
    ensures
        r@ == JsonV::Str(s@),
{
    Json::Str(string_of(s))
}

/// The JSON number for a signed integer.
pub open spec fn int_value(n: i64) -> JsonV {
    JsonV::Number(
        signed_decimal(n as int),
        if n >= 0 {
            Some(n as u64)
        } else {
            None
        },
        Some(n),
    )
}

/// The JSON number for a signed integer.
pub fn jint(n: i64) -> (r: Json)
    ensures
        r@ == int_value(n),
{
    let mut text = String::new();
    push_signed(&mut text, n);
    Json::Number(
        JsonNumber {
            text,
            as_u64: if n >= 0 {
                Some(n as u64)
            } else {
                None
            },
            as_i64: Some(n),
        },
    )
}

/// The JSON number for an unsigned integer.
pub open spec fn u64_value(n: u64) -> JsonV {
    JsonV::Number(
        decimal(n as nat),
        Some(n),
        if n <= i64::MAX {
            Some(n as i64)
        } else {
            None
        },
    )
}

/// The JSON number for an unsigned integer.
pub fn ju64(n: u64) -> (r: Json)
    ensures
        r@ == u64_value(n),
{
    let mut text = String::new();
    push_decimal(&mut text, n);
    assert(text@ =~= decimal(n as nat));
    Json::Number(
        JsonNumber {
            text,
            as_u64: Some(n),
            as_i64: if n <= 9223372036854775807u64 {
                Some(n as i64)
            } else {
                None
            },
        },
    )
}

/// An optional unsigned integer: the number, or null.
pub open spec fn opt_u64_value(o: Option<u64>) -> JsonV {
    match o {
        Some(n) => u64_value(n),
        None => JsonV::Null,
    }
}

pub fn opt_u64_json(o: Option<u64>) -> (r: Json)
    ensures
        r@ == opt_u64_value(o),
{
    match o {
        Some(n) => ju64(n),
        None => Json::Null,
    }
}

/// Appends a member to an object under construction.
pub fn obj_push(m: &mut Vec<(String, Json)>, key: &str, v: Json)
    ensures
        members_view(final(m)@, final(m)@.len()) == members_view(old(m)@, old(m)@.len()).push(
            (key@, v@),
        ),
{
    let ghost before = m@;
    let k = string_of(key);
    proof {
        lemma_members_view_push(before, (k, v));
    }
    m.push((k, v));
}

/// Appends an element to an array under construction.
pub fn arr_push(a: &mut Vec<Json>, v: Json)
    ensures
        items_view(final(a)@, final(a)@.len()) == items_view(old(a)@, old(a)@.len()).push(v@),
{
    let ghost before = a@;
    proof {
        lemma_items_view_push(before, v);
    }
    a.push(v);
}

/// The index of the first member named `key`.
pub open spec fn find_member(m: Seq<(Seq<char>, JsonV)>, key: Seq<char>) -> Option<int>
    decreases m.len(),
{
    if m.len() == 0 {
        None
    } else if m[0].0 == key {
        Some(0)
    } else {
        match find_member(m.drop_first(), key) {
            Some(i) => Some(i + 1),
            None => None,
        }
    }
}

pub proof fn lemma_find_member(m: Seq<(Seq<char>, JsonV)>, key: Seq<char>)
    ensures
        match find_member(m, key) {
            Some(i) => 0 <= i < m.len() && m[i].0 == key && member(m, key) == Some(m[i].1)
                && forall|k: int| 0 <= k < i ==> m[k].0 != key,
            None => member(m, key) is None && forall|k: int| 0 <= k < m.len() ==> m[k].0 != key,
        },
    decreases m.len(),
{
    if m.len() > 0 && m[0].0 != key {
        lemma_find_member(m.drop_first(), key);
        match find_member(m.drop_first(), key) {
            Some(i) => {
                assert forall|k: int| 0 <= k < i + 1 implies m[k].0 != key by {
                    if k > 0 {
                        assert(m[k] == m.drop_first()[k - 1]);
                    }
                }
            },
            None => {
                assert forall|k: int| 0 <= k < m.len() implies m[k].0 != key by {
                    if k > 0 {
                        assert(m[k] == m.drop_first()[k - 1]);
                    }
                }
            },
        }
    }
}

/// An object's members after `obj[key] = v`: the first member of that name
/// gets the new value in place, or a new member is appended.
pub open spec fn obj_set(m: Seq<(Seq<char>, JsonV)>, key: Seq<char>, v: JsonV) -> Seq<
    (Seq<char>, JsonV),
> {
    match find_member(m, key) {
        Some(i) => m.update(i, (key, v)),
        None => m.push((key, v)),
    }
}

/// `obj[key] = v` on an object under construction.
pub fn obj_set_member(m: &mut Vec<(String, Json)>, key: &str, v: Json)
    ensures
        members_view(final(m)@, final(m)@.len()) == obj_set(
            members_view(old(m)@, old(m)@.len()),
            key@,
            v@,
        ),
{
    let ghost mv = members_view(m@, m@.len());
    proof {
        lemma_members_view(m@, m@.len());
        lemma_find_member(mv, key@);
    }
    let mut i: usize = 0;
    while i < m.len()
        invariant
            i <= m.len(),
            m@ == old(m)@,
            mv == members_view(m@, m@.len()),
            mv.len() == m@.len(),
            forall|k: int| 0 <= k < m@.len() ==> #[trigger] mv[k] == (m@[k].0@, m@[k].1@),
            forall|k: int| 0 <= k < i ==> mv[k].0 != key@,
            match find_member(mv, key@) {
                Some(j) => 0 <= j < mv.len() && mv[j].0 == key@ && forall|k: int|
                    0 <= k < j ==> mv[k].0 != key@,
                None => forall|k: int| 0 <= k < mv.len() ==> mv[k].0 != key@,
            },
        decreases m.len() - i,
    {
        if str_eq(m[i].0.as_str(), key) {
            let ghost before = m@;
            let k = string_of(key);
            proof {
                lemma_members_view_update(before, i as int, (k, v));
                assert(mv[i as int].0 == key@);
                assert(find_member(mv, key@) == Some(i as int));
            }
            let ghost kv = (k, v);
            m.set(i, (k, v));
            assert(m@ == before.update(i as int, kv));
            assert(m@.len() == before.len());
            return;
        }
        i = i + 1;
    }
    obj_push(m, key, v);
}


fn clone_items(v: &Vec<Json>) -> (r: Vec<Json>)
    ensures
        items_view(r@, r@.len()) == items_view(v@, v@.len()),
    decreases v, 0nat,
{
    let mut a: Vec<Json> = Vec::new();
    proof {
        lemma_items_view(v@, v@.len());
    }
    let mut i: usize = 0;
    while i < v.len()
        invariant
            i <= v.len(),
            items_view(a@, a@.len()) == items_view(v@, v@.len()).take(i as int),
            items_view(v@, v@.len()).len() == v@.len(),
            forall|k: int| 0 <= k < v@.len() ==> #[trigger] items_view(v@, v@.len())[k] == v@[k]@,
        decreases v.len() - i,
    {
        proof {
            assert(decreases_to!(*v => v@));
            assert(decreases_to!(v@ => v@[i as int]));
        }
        let x = clone_json(&v[i]);
        arr_push(&mut a, x);
        assert(items_view(v@, v@.len()).take(i + 1) =~= items_view(v@, v@.len()).take(
            i as int,
        ).push(v@[i as int]@));
        i = i + 1;
    }
    assert(items_view(v@, v@.len()).take(v@.len() as int) =~= items_view(v@, v@.len()));
    a
}

fn clone_members(m: &Vec<(String, Json)>) -> (r: Vec<(String, Json)>)
    ensures
        members_view(r@, r@.len()) == members_view(m@, m@.len()),
    decreases m, 0nat,
{
    let mut a: Vec<(String, Json)> = Vec::new();
    proof {
        lemma_members_view(m@, m@.len());
    }
    let mut i: usize = 0;
    while i < m.len()
        invariant
            i <= m.len(),
            members_view(a@, a@.len()) == members_view(m@, m@.len()).take(i as int),
            members_view(m@, m@.len()).len() == m@.len(),
            forall|k: int|
                0 <= k < m@.len() ==> #[trigger] members_view(m@, m@.len())[k] == (
                    m@[k].0@,
                    m@[k].1@,
                ),
        decreases m.len() - i,
    {
        proof {
            assert(decreases_to!(*m => m@));
            assert(decreases_to!(m@ => m@[i as int]));
            assert(decreases_to!(m@[i as int] => m@[i as int].1));
        }
        let x = clone_json(&m[i].1);
        obj_push(&mut a, m[i].0.as_str(), x);
        assert(members_view(m@, m@.len()).take(i + 1) =~= members_view(m@, m@.len()).take(
            i as int,
        ).push((m@[i as int].0@, m@[i as int].1@)));
        i = i + 1;
    }
    assert(members_view(m@, m@.len()).take(m@.len() as int) =~= members_view(m@, m@.len()));
    a
}

/// A copy of a document.
pub fn clone_json(j: &Json) -> (r: Json)
    ensures
        r@ == j@,
    decreases j, 1nat,
{
    match j {
        Json::Null => Json::Null,
        Json::Bool(b) => Json::Bool(*b),
        Json::Number(n) => Json::Number(
            JsonNumber { text: n.text.clone(), as_u64: n.as_u64, as_i64: n.as_i64 },
        ),
        Json::Str(s) => Json::Str(s.clone()),
        Json::Array(v) => Json::Array(clone_items(v)),
        Json::Object(m) => Json::Object(clone_members(m)),
    }
}


/// A value after `value[key] = x`: objects get the member set, null becomes
/// an object of that one member, other values are left as they are.
pub open spec fn set_key(v: JsonV, key: Seq<char>, x: JsonV) -> JsonV {
    match v {
        JsonV::Object(m) => JsonV::Object(obj_set(m, key, x)),
        JsonV::Null => JsonV::Object(seq![(key, x)]),
        _ => v,
    }
}

/// `value[key] = x`, as `set_key` describes.
pub fn json_set_key(v: Json, key: &str, x: Json) -> (r: Json)
    ensures
        r@ == set_key(v@, key@, x@),
{
    match v {
        Json::Object(m) => {
            let mut m = m;
            proof {
                lemma_object_view(m);
            }
            obj_set_member(&mut m, key, x);
            Json::Object(m)
        },
        Json::Null => {
            let mut m: Vec<(String, Json)> = Vec::new();
            obj_push(&mut m, key, x);
            assert(members_view(Seq::<(String, Json)>::empty(), 0) =~= Seq::empty());
            Json::Object(m)
        },
        other => other,
    }
}

/// An object of the given members.
pub fn jobject(m: Vec<(String, Json)>) -> (r: Json)
    ensures
        r@ == JsonV::Object(members_view(m@, m@.len())),
{
    Json::Object(m)
}

/// An array of the given elements.
pub fn jarray(a: Vec<Json>) -> (r: Json)
    ensures
        r@ == JsonV::Array(items_view(a@, a@.len())),
{
    Json::Array(a)
}

/// Replaces element `i` of an array by `f`'s result on it, where the caller
/// hands the new element; gives back the old one's view.
pub fn arr_replace(a: &mut Vec<Json>, i: usize, x: Json) -> (old_v: Json)
    requires
        i < old(a)@.len(),
    ensures
        final(a)@.len() == old(a)@.len(),
        items_view(final(a)@, final(a)@.len()) == items_view(old(a)@, old(a)@.len()).update(
            i as int,
            x@,
        ),
        old_v@ == items_view(old(a)@, old(a)@.len())[i as int],
{
    proof {
        lemma_items_view(a@, a@.len());
    }
    let old_v = a.remove(i);
    a.insert(i, x);
    proof {
        lemma_items_view(a@, a@.len());
        assert(items_view(a@, a@.len()) =~= items_view(old(a)@, old(a)@.len()).update(
            i as int,
            x@,
        ));
    }
    old_v
}


/// Looking a key up in two member lists one after the other.
pub proof fn lemma_member_concat(a: Seq<(Seq<char>, JsonV)>, b: Seq<(Seq<char>, JsonV)>)
    ensures
        forall|key: Seq<char>|
            #[trigger] member(a + b, key) == if member(a, key) is Some {
                member(a, key)
            } else {
                member(b, key)
            },
    decreases a.len(),
{
    if a.len() > 0 {
        assert((a + b).drop_first() =~= a.drop_first() + b);
        assert((a + b)[0] == a[0]);
        lemma_member_concat(a.drop_first(), b);
        assert forall|key: Seq<char>|
            #[trigger] member(a + b, key) == if member(a, key) is Some {
                member(a, key)
            } else {
                member(b, key)
            } by {
            if a[0].0 != key {
                assert(member(a + b, key) == member(a.drop_first() + b, key));
            }
        }
    } else {
        assert(a + b =~= b);
    }
}

/// The member of a one-member list.
pub proof fn lemma_member_single(k: Seq<char>, x: JsonV, key: Seq<char>)
    ensures
        member(seq![(k, x)], key) == if k == key {
            Some(x)
        } else {
            None::<JsonV>
        },
{
    reveal_with_fuel(member, 2);
    assert(seq![(k, x)].drop_first().len() == 0);
}

/// A list none of whose members has the name has no such member.
pub proof fn lemma_member_absent(m: Seq<(Seq<char>, JsonV)>, key: Seq<char>)
    requires
        forall|k: int| 0 <= k < m.len() ==> (#[trigger] m[k]).0 != key,
    ensures
        member(m, key) is None,
    decreases m.len(),
{
    if m.len() > 0 {
        assert forall|k: int| 0 <= k < m.drop_first().len() implies (
        #[trigger] m.drop_first()[k]).0 != key by {
            assert(m.drop_first()[k] == m[k + 1]);
        }
        lemma_member_absent(m.drop_first(), key);
    }
}

/// The first member of a name is found at its place.
pub proof fn lemma_member_at(m: Seq<(Seq<char>, JsonV)>, key: Seq<char>, i: int)
    requires
        0 <= i < m.len(),
        m[i].0 == key,
        forall|k: int| 0 <= k < i ==> (#[trigger] m[k]).0 != key,
    ensures
        member(m, key) == Some(m[i].1),
    decreases i,
{
    if i > 0 {
        assert forall|k: int| 0 <= k < i - 1 implies (#[trigger] m.drop_first()[k]).0 != key by {
            assert(m.drop_first()[k] == m[k + 1]);
        }
        assert(m.drop_first()[i - 1] == m[i]);
        lemma_member_at(m.drop_first(), key, i - 1);
    }
}

/// Reading back a member just set.
pub proof fn lemma_set_key_get(v: JsonV, key: Seq<char>, x: JsonV)
    ensures
        json_get(set_key(v, key, x), key) == if v is Object || v is Null {
            Some(x)
        } else {
            None::<JsonV>
        },
{
    match v {
        JsonV::Object(m) => {
            lemma_find_member(m, key);
            match find_member(m, key) {
                Some(i) => {
                    let m2 = m.update(i, (key, x));
                    assert forall|k: int| 0 <= k < i implies (#[trigger] m2[k]).0 != key by {
                        assert(m2[k] == m[k]);
                    }
                    lemma_member_at(m2, key, i);
                },
                None => {
                    lemma_member_concat(m, seq![(key, x)]);
                    lemma_member_absent(m, key);
                    lemma_member_single(key, x, key);
                    assert(m.push((key, x)) =~= m + seq![(key, x)]);
                },
            }
        },
        JsonV::Null => {
            lemma_member_single(key, x, key);
        },
        _ => {},
    }
}


/// An object's members after removing `key` the fast way (the last member
/// takes the removed member's place), as a JSON object keeping insertion
/// order removes it.
pub open spec fn members_remove(m: Seq<(Seq<char>, JsonV)>, key: Seq<char>) -> Seq<(Seq<char>, JsonV)> {
    match find_member(m, key) {
        Some(i) => m.update(i, m.last()).drop_last(),
        None => m,
    }
}

/// A document after a JSON merge patch (RFC 7396): a patch that is not an
/// object replaces the document; an object patch is applied member by
/// member to the document's members (to none if it is not an object): a
/// null removes the member, anything else is merged into it.
pub open spec fn merge_patch(doc: JsonV, patch: JsonV) -> JsonV
    decreases patch, 0nat,
{
    match patch {
        JsonV::Object(pm) => {
            let start = match doc {
                JsonV::Object(m) => m,
                _ => Seq::empty(),
            };
            JsonV::Object(merge_members(start, pm, pm.len()))
        },
        _ => patch,
    }
}

/// The members after the first `n` members of a patch.
pub open spec fn merge_members(m: Seq<(Seq<char>, JsonV)>, pm: Seq<(Seq<char>, JsonV)>, n: nat) -> Seq<
    (Seq<char>, JsonV),
>
    decreases pm, n,
{
    if n == 0 || n > pm.len() {
        m
    } else {
        let m1 = merge_members(m, pm, (n - 1) as nat);
        let k = pm[n - 1].0;
        let v = pm[n - 1].1;
        if v is Null {
            members_remove(m1, k)
        } else {
            let cur = match member(m1, k) {
                Some(x) => x,
                None => JsonV::Null,
            };
            obj_set(m1, k, merge_patch(cur, v))
        }
    }
}

/// Removes the first member named `key`, as `members_remove` describes.
pub fn members_swap_remove(m: &mut Vec<(String, Json)>, key: &str)
    ensures
        members_view(final(m)@, final(m)@.len()) == members_remove(
            members_view(old(m)@, old(m)@.len()),
            key@,
        ),
{
    let ghost mv = members_view(m@, m@.len());
    proof {
        lemma_members_view(m@, m@.len());
        lemma_find_member(mv, key@);
    }
    let mut i: usize = 0;
    while i < m.len()
        invariant
            i <= m.len(),
            m@ == old(m)@,
            mv == members_view(m@, m@.len()),
            mv.len() == m@.len(),
            forall|k: int| 0 <= k < m@.len() ==> #[trigger] mv[k] == (m@[k].0@, m@[k].1@),
            forall|k: int| 0 <= k < i ==> mv[k].0 != key@,
            match find_member(mv, key@) {
                Some(j) => 0 <= j < mv.len() && mv[j].0 == key@ && forall|k: int|
                    0 <= k < j ==> mv[k].0 != key@,
                None => forall|k: int| 0 <= k < mv.len() ==> mv[k].0 != key@,
            },
        decreases m.len() - i,
    {
        if str_eq(m[i].0.as_str(), key) {
            assert(mv[i as int].0 == key@);
            assert(find_member(mv, key@) == Some(i as int));
            let ghost before = m@;
            let last = m.pop();
            match last {
                Some(e) => {
                    if i < m.len() {
                        m.set(i, e);
                    }
                },
                None => {},
            }
            proof {
                lemma_members_view(m@, m@.len());
                assert(members_view(m@, m@.len()) =~= mv.update(i as int, mv.last()).drop_last());
            }
            return;
        }
        i = i + 1;
    }
}

/// Applies a JSON merge patch, as `merge_patch` describes.
pub fn merge(doc: Json, patch: &Json) -> (r: Json)
    ensures
        r@ == merge_patch(doc@, patch@),
    decreases patch,
{
    match patch {
        Json::Object(pm) => {
            let mut m: Vec<(String, Json)> = match doc {
                Json::Object(m) => m,
                _ => Vec::new(),
            };
            let ghost start = members_view(m@, m@.len());
            let ghost pv = members_view(pm@, pm@.len());
            proof {
                lemma_members_view(pm@, pm@.len());
                assert(members_view(Seq::<(String, Json)>::empty(), 0) =~= Seq::empty());
            }
            let mut i: usize = 0;
            while i < pm.len()
                invariant
                    i <= pm@.len(),
                    *patch == Json::Object(*pm),
                    pv == members_view(pm@, pm@.len()),
                    pv.len() == pm@.len(),
                    forall|k: int| 0 <= k < pm@.len() ==> #[trigger] pv[k] == (pm@[k].0@, pm@[k].1@),
                    members_view(m@, m@.len()) == merge_members(start, pv, i as nat),
                decreases pm.len() - i,
            {
                proof {
                    assert(decreases_to!(*patch => patch->Object_0));
                    assert(decreases_to!(*pm => pm@));
                    assert(decreases_to!(pm@ => pm@[i as int]));
                    assert(decreases_to!(pm@[i as int] => pm@[i as int].1));
                }
                let k = pm[i].0.as_str();
                let v = &pm[i].1;
                assert(pv[i as int] == (k@, v@));
                match v {
                    Json::Null => {
                        members_swap_remove(&mut m, k);
                    },
                    _ => {
                        let cur = match get_member(&m, k) {
                            Some(x) => clone_json(x),
                            None => Json::Null,
                        };
                        let merged = merge(cur, v);
                        obj_set_member(&mut m, k, merged);
                    },
                }
                i = i + 1;
            }
            Json::Object(m)
        },
        _ => clone_json(patch),
    }
}


/// No two members share a name.
pub open spec fn unique_keys(m: Seq<(Seq<char>, JsonV)>) -> bool {
    forall|i: int, j: int| 0 <= i < j < m.len() ==> m[i].0 != m[j].0
}

/// With unique names, the member of a name is the one at its place.
proof fn lemma_unique_member(m: Seq<(Seq<char>, JsonV)>, k: Seq<char>)
    requires
        unique_keys(m),
    ensures
        forall|i: int| 0 <= i < m.len() && m[i].0 == k ==> member(m, k) == Some(m[i].1),
        (forall|i: int| 0 <= i < m.len() ==> m[i].0 != k) ==> member(m, k) is None,
{
    assert forall|i: int| 0 <= i < m.len() && m[i].0 == k implies member(m, k) == Some(m[i].1) by {
        assert forall|l: int| 0 <= l < i implies (#[trigger] m[l]).0 != k by {}
        lemma_member_at(m, k, i);
    }
    if forall|i: int| 0 <= i < m.len() ==> m[i].0 != k {
        assert forall|i: int| 0 <= i < m.len() implies (#[trigger] m[i]).0 != k by {}
        lemma_member_absent(m, k);
    }
}

proof fn lemma_remove_member(m: Seq<(Seq<char>, JsonV)>, k: Seq<char>, k2: Seq<char>)
    requires
        unique_keys(m),
    ensures
        unique_keys(members_remove(m, k)),
        member(members_remove(m, k), k2) == if k == k2 {
            None
        } else {
            member(m, k2)
        },
{
    lemma_find_member(m, k);
    let r = members_remove(m, k);
    match find_member(m, k) {
        Some(i) => {
            let n = m.len() - 1;
            assert(r.len() == n);
            assert forall|a: int| 0 <= a < n implies #[trigger] r[a] == if a == i {
                m[n]
            } else {
                m[a]
            } by {}
            assert forall|a: int, b: int| 0 <= a < b < r.len() implies r[a].0 != r[b].0 by {
                if a == i {
                    assert(r[a] == m[n] && r[b] == m[b]);
                } else if b == i {
                    assert(r[a] == m[a] && r[b] == m[n]);
                } else {
                    assert(r[a] == m[a] && r[b] == m[b]);
                }
            }
            lemma_unique_member(r, k2);
            lemma_unique_member(m, k2);
            if k == k2 {
                assert forall|a: int| 0 <= a < r.len() implies r[a].0 != k2 by {
                    if a == i {
                        assert(r[a] == m[n]);
                    } else {
                        assert(r[a] == m[a]);
                    }
                }
            } else {
                if exists|j: int| 0 <= j < m.len() && m[j].0 == k2 {
                    let j = choose|j: int| 0 <= j < m.len() && m[j].0 == k2;
                    if j == n {
                        assert(r[i] == m[n]);
                    } else {
                        assert(r[j] == m[j]);
                    }
                } else {
                    assert forall|a: int| 0 <= a < r.len() implies r[a].0 != k2 by {
                        if a == i {
                            assert(r[a] == m[n]);
                        } else {
                            assert(r[a] == m[a]);
                        }
                    }
                }
            }
        },
        None => {
            lemma_unique_member(m, k2);
        },
    }
}

proof fn lemma_set_member(m: Seq<(Seq<char>, JsonV)>, k: Seq<char>, v: JsonV, k2: Seq<char>)
    requires
        unique_keys(m),
    ensures
        unique_keys(obj_set(m, k, v)),
        member(obj_set(m, k, v), k2) == if k == k2 {
            Some(v)
        } else {
            member(m, k2)
        },
{
    lemma_find_member(m, k);
    let r = obj_set(m, k, v);
    lemma_unique_member(m, k2);
    match find_member(m, k) {
        Some(i) => {
            assert forall|a: int, b: int| 0 <= a < b < r.len() implies r[a].0 != r[b].0 by {
                assert(r[a].0 == m[a].0 && r[b].0 == m[b].0);
            }
            lemma_unique_member(r, k2);
            if k == k2 {
                assert(r[i] == (k, v));
            } else {
                if exists|j: int| 0 <= j < m.len() && m[j].0 == k2 {
                    let j = choose|j: int| 0 <= j < m.len() && m[j].0 == k2;
                    assert(r[j] == m[j]);
                } else {
                    assert forall|a: int| 0 <= a < r.len() implies r[a].0 != k2 by {
                        assert(r[a].0 == m[a].0 || a == i);
                    }
                }
            }
        },
        None => {
            assert forall|a: int, b: int| 0 <= a < b < r.len() implies r[a].0 != r[b].0 by {
                if b == m.len() {
                    assert(r[a] == m[a]);
                } else {
                    assert(r[a] == m[a] && r[b] == m[b]);
                }
            }
            lemma_unique_member(r, k2);
            if k == k2 {
                assert(r[m.len() as int] == (k, v));
            } else {
                if exists|j: int| 0 <= j < m.len() && m[j].0 == k2 {
                    let j = choose|j: int| 0 <= j < m.len() && m[j].0 == k2;
                    assert(r[j] == m[j]);
                } else {
                    assert forall|a: int| 0 <= a < r.len() implies r[a].0 != k2 by {
                        if a < m.len() {
                            assert(r[a] == m[a]);
                        }
                    }
                }
            }
        },
    }
}

/// The value a merge patch's members give a key: the last patch member for
/// it among the first `n`, as merging sees it.
proof fn lemma_merge_members(
    m: Seq<(Seq<char>, JsonV)>,
    pm: Seq<(Seq<char>, JsonV)>,
    n: nat,
    key: Seq<char>,
)
    requires
        unique_keys(m),
        unique_keys(pm),
        n <= pm.len(),
    ensures
        unique_keys(merge_members(m, pm, n)),
        member(merge_members(m, pm, n), key) == match member(pm.take(n as int), key) {
            Some(JsonV::Null) => None,
            Some(v) => Some(
                merge_patch(
                    match member(m, key) {
                        Some(x) => x,
                        None => JsonV::Null,
                    },
                    v,
                ),
            ),
            None => member(m, key),
        },
    decreases n,
{
    if n > 0 {
        let n1 = (n - 1) as nat;
        lemma_merge_members(m, pm, n1, key);
        lemma_merge_members(m, pm, n1, pm[n1 as int].0);
        let m1 = merge_members(m, pm, n1);
        let k = pm[n1 as int].0;
        let v = pm[n1 as int].1;
        assert(pm.take(n as int) =~= pm.take(n1 as int) + seq![(k, v)]);
        lemma_member_concat(pm.take(n1 as int), seq![(k, v)]);
        lemma_member_single(k, v, key);
        assert(unique_keys(pm.take(n1 as int))) by {
            assert forall|i: int, j: int| 0 <= i < j < pm.take(n1 as int).len() implies pm.take(
                n1 as int,
            )[i].0 != pm.take(n1 as int)[j].0 by {
                assert(pm.take(n1 as int)[i] == pm[i] && pm.take(n1 as int)[j] == pm[j]);
            }
        }
        lemma_unique_member(pm.take(n1 as int), k);
        assert forall|i: int| 0 <= i < pm.take(n1 as int).len() implies pm.take(n1 as int)[i].0
            != k by {
            assert(pm.take(n1 as int)[i] == pm[i]);
        }
        if v is Null {
            lemma_remove_member(m1, k, key);
        } else {
            let cur = match member(m1, k) {
                Some(x) => x,
                None => JsonV::Null,
            };
            lemma_set_member(m1, k, merge_patch(cur, v), key);
        }
    }
}

/// A merge patch (RFC 7396) with an object patch, member by member: a name
/// the patch sets to null is gone, a name it gives a value holds the
/// document's value for it (null if none) merged with that value, and every
/// other name keeps its value. Names are unique in the patch and in an
/// object document, as in any parsed JSON.
pub proof fn lemma_merge_patch_member(doc: JsonV, pm: Seq<(Seq<char>, JsonV)>, key: Seq<char>)
    requires
        unique_keys(pm),
        doc matches JsonV::Object(m) ==> unique_keys(m),
    ensures
        ({
            let before = match doc {
                JsonV::Object(m) => member(m, key),
                _ => None,
            };
            let after = json_get(merge_patch(doc, JsonV::Object(pm)), key);
            after == match member(pm, key) {
                Some(JsonV::Null) => None,
                Some(v) => Some(
                    merge_patch(
                        match before {
                            Some(x) => x,
                            None => JsonV::Null,
                        },
                        v,
                    ),
                ),
                None => before,
            }
        }),
{
    let start = match doc {
        JsonV::Object(m) => m,
        _ => Seq::empty(),
    };
    assert(pm.take(pm.len() as int) =~= pm);
    lemma_merge_members(start, pm, pm.len(), key);
}

} // verus!
