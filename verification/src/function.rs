use vstd::prelude::*;
use crate::json::{
    arr_push, items_view, jstr, json_text, members_view, obj_push, write_json, Json, JsonV,
};
use crate::text::{push_char, push_str, str_eq, texts_of};

verus! {

/// A tool invocation requested by the model.
pub struct ToolCall {
    pub name: String,
    pub arguments: Json,
    pub id: Option<String>,
    pub extra_content: Option<Json>,
}

/// A tool invocation together with what the tool returned.
pub struct ToolResult {
    pub call: ToolCall,
    pub output: Json,
}

/// A tool call as a value: name, arguments, id, extra content.
pub type ToolCallV = (Seq<char>, JsonV, Option<Seq<char>>, Option<JsonV>);

impl View for ToolCall {
    type V = ToolCallV;

    open spec fn view(&self) -> ToolCallV {
        (
            self.name@,
            self.arguments@,
            match self.id {
                Some(i) => Some(i@),
                None => None,
            },
            match self.extra_content {
                Some(e) => Some(e@),
                None => None,
            },
        )
    }
}

impl ToolResult {
    pub fn new(call: ToolCall, output: Json) -> (res: Self)
        ensures
            res.call == call,
            res.output == output,
    {
        ToolResult { call, output }
    }
}

impl ToolCall {
    pub fn new(name: String, arguments: Json, id: Option<String>) -> (res: Self)
        ensures
            res.name == name,
            res.arguments == arguments,
            res.id == id,
            res.extra_content is None,
    {
        ToolCall { name, arguments, id, extra_content: None }
    }

    pub fn with_extra_content(self, extra_content: Option<Json>) -> (res: Self)
        ensures
            res.name == self.name,
            res.arguments == self.arguments,
            res.id == self.id,
            res.extra_content == extra_content,
    {
        ToolCall { extra_content, ..self }
    }
}

/// What identifies a call for de-duplication: `name:arguments`, the
/// arguments in compact JSON.
pub open spec fn call_signature(c: ToolCall) -> Seq<char> {
    c.name@ + seq![':'] + json_text(c.arguments@)
}

pub open spec fn call_id(c: ToolCall) -> Option<Seq<char>> {
    match c.id {
        Some(id) => Some(id@),
        None => None,
    }
}

/// The ids and signatures seen, and the calls kept (in order), when the
/// calls from index `k` to the end are scanned from last to first.
pub open spec fn dedup_scan(calls: Seq<ToolCall>, k: int) -> (Set<Seq<char>>, Set<Seq<char>>, Seq<
    ToolCall,
>)
    decreases calls.len() - k,
{
    if k < 0 || k >= calls.len() {
        (Set::empty(), Set::empty(), Seq::empty())
    } else {
        let (ids, sigs, kept) = dedup_scan(calls, k + 1);
        let c = calls[k];
        let sig = call_signature(c);
        match call_id(c) {
            Some(id) => if ids.contains(id) {
                (ids, sigs, kept)
            } else if sigs.contains(sig) {
                (ids.insert(id), sigs, kept)
            } else {
                (ids.insert(id), sigs.insert(sig), seq![c] + kept)
            },
            None => if sigs.contains(sig) {
                (ids, sigs, kept)
            } else {
                (ids, sigs.insert(sig), seq![c] + kept)
            },
        }
    }
}

/// The calls that survive de-duplication: scanning from the last call
/// backwards, a call is dropped when its id was already seen, or when its
/// signature was; the survivors keep their order.
pub open spec fn deduped(calls: Seq<ToolCall>) -> Seq<ToolCall> {
    dedup_scan(calls, 0).2
}

fn seen(list: &Vec<String>, s: &str) -> (r: bool)
    ensures
        r == list@.map_values(|x: String| x@).contains(s@),
{
    let ghost v = list@.map_values(|x: String| x@);
    let mut i: usize = 0;
    while i < list.len()
        invariant
            i <= list.len(),
            v == list@.map_values(|x: String| x@),
            forall|k: int| 0 <= k < i ==> v[k] != s@,
        decreases list.len() - i,
    {
        if str_eq(list[i].as_str(), s) {
            assert(v[i as int] == s@);
            return true;
        }
        i = i + 1;
    }
    false
}

fn signature(c: &ToolCall) -> (r: String)
    ensures
        r@ == call_signature(*c),
{
    let mut s = String::new();
    push_str(&mut s, c.name.as_str());
    push_char(&mut s, ':');
    write_json(&c.arguments, &mut s);
    s
}

proof fn lemma_push_contains<A>(s: Seq<A>, y: A)
    ensures
        forall|x: A| #[trigger] s.push(y).contains(x) <==> (s.contains(x) || x == y),
{
    assert forall|x: A| #[trigger] s.push(y).contains(x) implies (s.contains(x) || x == y) by {
        let i = choose|i: int| 0 <= i < s.push(y).len() && s.push(y)[i] == x;
        if i < s.len() {
            assert(s[i] == x);
        }
    }
    assert forall|x: A| (s.contains(x) || x == y) implies #[trigger] s.push(y).contains(x) by {
        if s.contains(x) {
            let i = choose|i: int| 0 <= i < s.len() && s[i] == x;
            assert(s.push(y)[i] == x);
        } else {
            assert(s.push(y)[s.len() as int] == x);
        }
    }
}

impl ToolCall {
    /// Drops repeated calls as `deduped` describes.
    pub fn dedup(calls: Vec<ToolCall>) -> (res: Vec<ToolCall>)
        ensures
            res@ == deduped(calls@),
    {
        let mut calls = calls;
        let ghost all = calls@;
        let mut ids: Vec<String> = Vec::new();
        let mut sigs: Vec<String> = Vec::new();
        let mut kept_rev: Vec<ToolCall> = Vec::new();
        while calls.len() > 0
            invariant
                all.len() >= calls@.len(),
                calls@ == all.take(calls@.len() as int),
                forall|x: Seq<char>|
                    ids@.map_values(|v: String| v@).contains(x) <==> #[trigger] dedup_scan(
                        all,
                        calls@.len() as int,
                    ).0.contains(x),
                forall|x: Seq<char>|
                    sigs@.map_values(|v: String| v@).contains(x) <==> #[trigger] dedup_scan(
                        all,
                        calls@.len() as int,
                    ).1.contains(x),
                kept_rev@.reverse() == dedup_scan(all, calls@.len() as int).2,
            decreases calls.len(),
        {
            let ghost k = calls@.len() - 1;
            let ghost prev = dedup_scan(all, k + 1);
            let c = calls.pop().unwrap();
            assert(c == all[k]);
            assert(calls@ =~= all.take(k));
            let ghost ids_before = ids@.map_values(|v: String| v@);
            let ghost sigs_before = sigs@.map_values(|v: String| v@);
            let ghost kept_before = kept_rev@;
            let sig = signature(&c);
            let keep: bool;
            match &c.id {
                Some(id) => {
                    if seen(&ids, id.as_str()) {
                        keep = false;
                    } else {
                        ids.push(id.clone());
                        assert(ids@.map_values(|v: String| v@) =~= ids_before.push(id@));
                        proof {
                            lemma_push_contains(ids_before, id@);
                        }
                        if seen(&sigs, sig.as_str()) {
                            keep = false;
                        } else {
                            sigs.push(sig);
                            assert(sigs@.map_values(|v: String| v@) =~= sigs_before.push(
                                call_signature(c),
                            ));
                            proof {
                                lemma_push_contains(sigs_before, call_signature(c));
                            }
                            keep = true;
                        }
                    }
                },
                None => {
                    if seen(&sigs, sig.as_str()) {
                        keep = false;
                    } else {
                        sigs.push(sig);
                        assert(sigs@.map_values(|v: String| v@) =~= sigs_before.push(
                            call_signature(c),
                        ));
                        proof {
                            lemma_push_contains(sigs_before, call_signature(c));
                        }
                        keep = true;
                    }
                },
            }
            if keep {
                kept_rev.push(c);
                assert(kept_rev@.reverse() =~= seq![all[k]] + kept_before.reverse());
            }
        }
        let ghost kr = kept_rev@;
        let mut res: Vec<ToolCall> = Vec::new();
        while kept_rev.len() > 0
            invariant
                kept_rev@.len() <= kr.len(),
                kept_rev@ == kr.take(kept_rev@.len() as int),
                res@ == kr.reverse().take(kr.len() - kept_rev@.len()),
            decreases kept_rev.len(),
        {
            let ghost n = kept_rev@.len();
            let x = kept_rev.pop().unwrap();
            assert(x == kr[n - 1]);
            res.push(x);
            assert(kept_rev@ =~= kr.take(n - 1));
            assert(res@ =~= kr.reverse().take(kr.len() - (n - 1)));
        }
        assert(res@ =~= kr.reverse());
        res
    }
}


/// The JSON Schema of a function's parameters.
pub struct JsonSchema {
    pub type_value: Option<String>,
    pub description: Option<String>,
    pub properties: Option<Vec<(String, JsonSchema)>>,
    pub items: Option<Box<JsonSchema>>,
    pub any_of: Option<Vec<JsonSchema>>,
    pub enum_value: Option<Vec<String>>,
    pub default: Option<Json>,
    pub required: Option<Vec<String>>,
}

impl JsonSchema {
    /// The schema lists no properties.
    pub fn is_empty_properties(&self) -> (res: bool)
        ensures
            res == match self.properties {
                Some(v) => v@.len() == 0,
                None => true,
            },
    {
        match &self.properties {
            Some(v) => v.len() == 0,
            None => true,
        }
    }
}

pub open spec fn strings_value(v: Seq<String>) -> JsonV {
    JsonV::Array(v.map_values(|s: String| JsonV::Str(s@)))
}

pub open spec fn schema_list_value(list: Seq<JsonSchema>, n: nat) -> Seq<JsonV>
    decreases list, n,
{
    if n == 0 || n > list.len() {
        Seq::empty()
    } else {
        schema_list_value(list, (n - 1) as nat).push(schema_value(list[n - 1]))
    }
}

pub open spec fn schema_props_value(props: Seq<(String, JsonSchema)>, n: nat) -> Seq<
    (Seq<char>, JsonV),
>
    decreases props, n,
{
    if n == 0 || n > props.len() {
        Seq::empty()
    } else {
        schema_props_value(props, (n - 1) as nat).push(
            (props[n - 1].0@, schema_value(props[n - 1].1)),
        )
    }
}

pub open spec fn opt_member(key: Seq<char>, v: Option<JsonV>) -> Seq<(Seq<char>, JsonV)> {
    match v {
        Some(x) => seq![(key, x)],
        None => Seq::empty(),
    }
}

/// The JSON form of a schema: its present fields, in declaration order,
/// under their JSON Schema names.
pub open spec fn schema_value(s: JsonSchema) -> JsonV
    decreases s, 0nat,
{
    JsonV::Object(
        opt_member(
            "type"@,
            match s.type_value {
                Some(t) => Some(JsonV::Str(t@)),
                None => None,
            },
        ) + opt_member(
            "description"@,
            match s.description {
                Some(t) => Some(JsonV::Str(t@)),
                None => None,
            },
        ) + opt_member(
            "properties"@,
            match s.properties {
                Some(p) => Some(JsonV::Object(schema_props_value(p@, p@.len()))),
                None => None,
            },
        ) + opt_member(
            "items"@,
            match s.items {
                Some(b) => Some(schema_value(*b)),
                None => None,
            },
        ) + opt_member(
            "anyOf"@,
            match s.any_of {
                Some(l) => Some(JsonV::Array(schema_list_value(l@, l@.len()))),
                None => None,
            },
        ) + opt_member(
            "enum"@,
            match s.enum_value {
                Some(e) => Some(strings_value(e@)),
                None => None,
            },
        ) + opt_member(
            "default"@,
            match s.default {
                Some(d) => Some(d@),
                None => None,
            },
        ) + opt_member(
            "required"@,
            match s.required {
                Some(r) => Some(strings_value(r@)),
                None => None,
            },
        ),
    )
}

pub(crate) fn strings_json(v: &Vec<String>) -> (r: Json)
    ensures
        r@ == strings_value(v@),
{
    let mut a: Vec<Json> = Vec::new();
    let mut i: usize = 0;
    while i < v.len()
        invariant
            i <= v.len(),
            items_view(a@, a@.len()) == v@.take(i as int).map_values(|s: String| JsonV::Str(s@)),
        decreases v.len() - i,
    {
        arr_push(&mut a, jstr(v[i].as_str()));
        assert(v@.take(i + 1).map_values(|s: String| JsonV::Str(s@)) =~= v@.take(
            i as int,
        ).map_values(|s: String| JsonV::Str(s@)).push(JsonV::Str(v@[i as int]@)));
        i = i + 1;
    }
    assert(v@.take(v@.len() as int) =~= v@);
    Json::Array(a)
}

fn schema_list_json(list: &Vec<JsonSchema>) -> (r: Vec<Json>)
    ensures
        items_view(r@, r@.len()) == schema_list_value(list@, list@.len()),
    decreases list, 0nat,
{
    let mut a: Vec<Json> = Vec::new();
    let mut i: usize = 0;
    while i < list.len()
        invariant
            i <= list.len(),
            items_view(a@, a@.len()) == schema_list_value(list@, i as nat),
        decreases list.len() - i,
    {
        proof {
            assert(decreases_to!(*list => list@));
            assert(decreases_to!(list@ => list@[i as int]));
        }
        let x = schema_json(&list[i]);
        arr_push(&mut a, x);
        i = i + 1;
    }
    a
}

fn schema_props_json(props: &Vec<(String, JsonSchema)>) -> (r: Vec<(String, Json)>)
    ensures
        members_view(r@, r@.len()) == schema_props_value(props@, props@.len()),
    decreases props, 0nat,
{
    let mut m: Vec<(String, Json)> = Vec::new();
    let mut i: usize = 0;
    while i < props.len()
        invariant
            i <= props.len(),
            members_view(m@, m@.len()) == schema_props_value(props@, i as nat),
        decreases props.len() - i,
    {
        proof {
            assert(decreases_to!(*props => props@));
            assert(decreases_to!(props@ => props@[i as int]));
            assert(decreases_to!(props@[i as int] => props@[i as int].1));
        }
        let x = schema_json(&props[i].1);
        obj_push(&mut m, props[i].0.as_str(), x);
        i = i + 1;
    }
    m
}

pub open spec fn opt_view(v: Option<Json>) -> Option<JsonV> {
    match v {
        Some(x) => Some(x@),
        None => None,
    }
}

pub fn push_opt(m: &mut Vec<(String, Json)>, key: &str, v: Option<Json>)
    ensures
        members_view(final(m)@, final(m)@.len()) == members_view(old(m)@, old(m)@.len())
            + opt_member(key@, opt_view(v)),
{
    match v {
        Some(x) => {
            let ghost xv = x@;
            obj_push(m, key, x);
            assert(members_view(m@, m@.len()) =~= members_view(old(m)@, old(m)@.len()) + seq![
                (key@, xv),
            ]);
        },
        None => {
            assert(members_view(m@, m@.len()) =~= members_view(old(m)@, old(m)@.len())
                + Seq::empty());
        },
    }
}

fn opt_str_json(v: &Option<String>) -> (r: Option<Json>)
    ensures
        opt_view(r) == match *v {
            Some(t) => Some(JsonV::Str(t@)),
            None => None,
        },
{
    match v {
        Some(t) => Some(jstr(t.as_str())),
        None => None,
    }
}

fn opt_strings_json(v: &Option<Vec<String>>) -> (r: Option<Json>)
    ensures
        opt_view(r) == match *v {
            Some(e) => Some(strings_value(e@)),
            None => None,
        },
{
    match v {
        Some(e) => Some(strings_json(e)),
        None => None,
    }
}

/// The JSON form of a schema, as `schema_value` describes.
#[verifier::rlimit(30)]
pub fn schema_json(s: &JsonSchema) -> (r: Json)
    ensures
        r@ == schema_value(*s),
    decreases s, 1nat,
{
    let props: Option<Json> = match &s.properties {
        Some(p) => {
            proof {
                assert(decreases_to!(*s => s.properties));
                assert(decreases_to!(s.properties => s.properties->Some_0));
            }
            Some(Json::Object(schema_props_json(p)))
        },
        None => None,
    };
    let items: Option<Json> = match &s.items {
        Some(b) => {
            proof {
                assert(decreases_to!(*s => s.items));
                assert(decreases_to!(s.items => s.items->Some_0));
            }
            Some(schema_json(b))
        },
        None => None,
    };
    let any_of: Option<Json> = match &s.any_of {
        Some(l) => {
            proof {
                assert(decreases_to!(*s => s.any_of));
                assert(decreases_to!(s.any_of => s.any_of->Some_0));
            }
            Some(Json::Array(schema_list_json(l)))
        },
        None => None,
    };
    let default: Option<Json> = match &s.default {
        Some(d) => Some(crate::json::clone_json(d)),
        None => None,
    };
    let mut m: Vec<(String, Json)> = Vec::new();
    push_opt(&mut m, "type", opt_str_json(&s.type_value));
    push_opt(&mut m, "description", opt_str_json(&s.description));
    push_opt(&mut m, "properties", props);
    push_opt(&mut m, "items", items);
    push_opt(&mut m, "anyOf", any_of);
    push_opt(&mut m, "enum", opt_strings_json(&s.enum_value));
    push_opt(&mut m, "default", default);
    push_opt(&mut m, "required", opt_strings_json(&s.required));
    assert(members_view(Seq::<(String, Json)>::empty(), 0) =~= Seq::empty());
    Json::Object(m)
}

/// A function the model may call.
pub struct FunctionDeclaration {
    pub name: String,
    pub description: String,
    pub parameters: JsonSchema,
    pub agent: bool,
}

/// The functions available to the model.
pub struct Functions {
    declarations: Vec<FunctionDeclaration>,
}

/// The index of the first declaration named `name`.
pub open spec fn find_declaration(ds: Seq<FunctionDeclaration>, name: Seq<char>) -> Option<int>
    decreases ds.len(),
{
    if ds.len() == 0 {
        None
    } else if ds[0].name@ == name {
        Some(0)
    } else {
        match find_declaration(ds.drop_first(), name) {
            Some(i) => Some(i + 1),
            None => None,
        }
    }
}

proof fn lemma_find_declaration(ds: Seq<FunctionDeclaration>, name: Seq<char>)
    ensures
        match find_declaration(ds, name) {
            Some(i) => 0 <= i < ds.len() && ds[i].name@ == name && forall|k: int|
                0 <= k < i ==> ds[k].name@ != name,
            None => forall|k: int| 0 <= k < ds.len() ==> ds[k].name@ != name,
        },
    decreases ds.len(),
{
    if ds.len() > 0 && ds[0].name@ != name {
        lemma_find_declaration(ds.drop_first(), name);
        assert forall|k: int| 0 < k < ds.len() implies ds[k] == ds.drop_first()[k - 1] by {}
    }
}

impl Functions {
    pub closed spec fn spec_declarations(&self) -> Seq<FunctionDeclaration> {
        self.declarations@
    }

    /// The functions with the given declarations.
    pub fn from_declarations(declarations: Vec<FunctionDeclaration>) -> (res: Self)
        ensures
            res.spec_declarations() == declarations@,
    {
        Functions { declarations }
    }

    /// No function at all.
    pub fn empty() -> (res: Self)
        ensures
            res.spec_declarations() == Seq::<FunctionDeclaration>::empty(),
    {
        Functions { declarations: Vec::new() }
    }

    fn position(&self, name: &str) -> (res: Option<usize>)
        ensures
            match res {
                Some(i) => find_declaration(self.declarations@, name@) == Some(i as int) && i
                    < self.declarations@.len(),
                None => find_declaration(self.declarations@, name@) is None,
            },
    {
        proof {
            lemma_find_declaration(self.declarations@, name@);
        }
        let mut i: usize = 0;
        while i < self.declarations.len()
            invariant
                i <= self.declarations@.len(),
                forall|k: int| 0 <= k < i ==> self.declarations@[k].name@ != name@,
                match find_declaration(self.declarations@, name@) {
                    Some(j) => 0 <= j < self.declarations@.len()
                        && self.declarations@[j].name@ == name@ && forall|k: int|
                        0 <= k < j ==> self.declarations@[k].name@ != name@,
                    None => forall|k: int|
                        0 <= k < self.declarations@.len() ==> self.declarations@[k].name@
                            != name@,
                },
            decreases self.declarations.len() - i,
        {
            if str_eq(self.declarations[i].name.as_str(), name) {
                return Some(i);
            }
            i = i + 1;
        }
        None
    }

    /// The first declaration with the given name.
    pub fn find(&self, name: &str) -> (res: Option<&FunctionDeclaration>)
        ensures
            match res {
                Some(d) => exists|i: int|
                    find_declaration(self.spec_declarations(), name@) == Some(i)
                        && self.spec_declarations()[i] == *d,
                None => find_declaration(self.spec_declarations(), name@) is None,
            },
    {
        match self.position(name) {
            Some(i) => Some(&self.declarations[i]),
            None => None,
        }
    }

    /// Whether some declaration has the given name.
    pub fn contains(&self, name: &str) -> (res: bool)
        ensures
            res == (find_declaration(self.spec_declarations(), name@) is Some),
    {
        self.position(name).is_some()
    }

    pub fn declarations(&self) -> (res: &Vec<FunctionDeclaration>)
        ensures
            res@ == self.spec_declarations(),
    {
        &self.declarations
    }

    pub fn is_empty(&self) -> (res: bool)
        ensures
            res == (self.spec_declarations().len() == 0),
    {
        self.declarations.len() == 0
    }
}


/// The positions of the calls `dedup_scan` keeps, scanning from `k` on.
pub open spec fn dedup_positions(calls: Seq<ToolCall>, k: int) -> Seq<int>
    decreases calls.len() - k,
{
    if k < 0 || k >= calls.len() {
        Seq::empty()
    } else {
        let (ids, sigs, _) = dedup_scan(calls, k + 1);
        let rest = dedup_positions(calls, k + 1);
        let c = calls[k];
        let sig = call_signature(c);
        match call_id(c) {
            Some(id) => if ids.contains(id) || sigs.contains(sig) {
                rest
            } else {
                seq![k] + rest
            },
            None => if sigs.contains(sig) {
                rest
            } else {
                seq![k] + rest
            },
        }
    }
}

proof fn lemma_dedup_scan(calls: Seq<ToolCall>, k: int)
    requires
        0 <= k <= calls.len(),
    ensures
        ({
            let (ids, sigs, kept) = dedup_scan(calls, k);
            let pos = dedup_positions(calls, k);
            &&& kept.len() == pos.len()
            &&& forall|j: int| 0 <= j < pos.len() ==> k <= #[trigger] pos[j] < calls.len()
            &&& forall|j: int| 0 <= j < pos.len() ==> #[trigger] kept[j] == calls[pos[j]]
            &&& forall|a: int, b: int| 0 <= a < b < pos.len() ==> pos[a] < pos[b]
            &&& forall|x: Seq<char>|
                sigs.contains(x) <==> exists|j: int|
                    0 <= j < kept.len() && call_signature(#[trigger] kept[j]) == x
            &&& forall|j: int|
                0 <= j < kept.len() ==> (call_id(#[trigger] kept[j]) matches Some(id) ==> ids.contains(
                    id,
                ))
            &&& forall|a: int, b: int|
                0 <= a < b < kept.len() ==> call_signature(kept[a]) != call_signature(kept[b])
            &&& forall|a: int, b: int|
                0 <= a < b < kept.len() && call_id(kept[a]) is Some ==> call_id(kept[a]) != call_id(
                    kept[b],
                )
            &&& (k < calls.len() ==> kept.len() > 0)
        }),
    decreases calls.len() - k,
{
    if k < calls.len() {
        lemma_dedup_scan(calls, k + 1);
        let (ids, sigs, kept) = dedup_scan(calls, k + 1);
        let pos = dedup_positions(calls, k + 1);
        let c = calls[k];
        let sig = call_signature(c);
        let (ids2, sigs2, kept2) = dedup_scan(calls, k);
        let pos2 = dedup_positions(calls, k);
        if kept2.len() != kept.len() {
            // the call is kept, in front
            assert(kept2 == seq![c] + kept);
            assert(pos2 == seq![k] + pos);
            assert forall|x: Seq<char>|
                sigs2.contains(x) <==> exists|j: int|
                    0 <= j < kept2.len() && call_signature(#[trigger] kept2[j]) == x by {
                if sigs2.contains(x) {
                    if x == sig {
                        assert(call_signature(kept2[0]) == x);
                    } else {
                        assert(sigs.contains(x));
                        let j = choose|j: int| 0 <= j < kept.len() && call_signature(#[trigger] kept[j]) == x;
                        assert(kept2[j + 1] == kept[j]);
                    }
                }
                if exists|j: int| 0 <= j < kept2.len() && call_signature(#[trigger] kept2[j]) == x {
                    let j = choose|j: int| 0 <= j < kept2.len() && call_signature(#[trigger] kept2[j]) == x;
                    if j > 0 {
                        assert(kept2[j] == kept[j - 1]);
                    }
                }
            }
            assert forall|a: int, b: int| 0 <= a < b < kept2.len() implies call_signature(kept2[a])
                != call_signature(kept2[b]) by {
                if a == 0 {
                    assert(kept2[b] == kept[b - 1]);
                    assert(sigs.contains(call_signature(kept[b - 1])));
                } else {
                    assert(kept2[a] == kept[a - 1] && kept2[b] == kept[b - 1]);
                }
            }
            assert forall|a: int, b: int|
                0 <= a < b < kept2.len() && call_id(kept2[a]) is Some implies call_id(kept2[a])
                != call_id(kept2[b]) by {
                if a == 0 {
                    assert(kept2[b] == kept[b - 1]);
                    if call_id(kept[b - 1]) is Some {
                        assert(ids.contains(call_id(kept[b - 1])->Some_0));
                    }
                } else {
                    assert(kept2[a] == kept[a - 1] && kept2[b] == kept[b - 1]);
                }
            }
            assert forall|j: int| 0 <= j < kept2.len() implies (call_id(#[trigger] kept2[j]) matches Some(
                id,
            ) ==> ids2.contains(id)) by {
                if j > 0 {
                    assert(kept2[j] == kept[j - 1]);
                }
            }
            assert forall|j: int| 0 <= j < pos2.len() implies #[trigger] kept2[j] == calls[pos2[j]] by {
                if j > 0 {
                    assert(kept2[j] == kept[j - 1] && pos2[j] == pos[j - 1]);
                }
            }
            assert forall|j: int| 0 <= j < pos2.len() implies k <= #[trigger] pos2[j] < calls.len() by {
                if j > 0 {
                    assert(pos2[j] == pos[j - 1]);
                }
            }
            assert forall|a: int, b: int| 0 <= a < b < pos2.len() implies pos2[a] < pos2[b] by {
                if a == 0 {
                    assert(pos2[b] == pos[b - 1]);
                } else {
                    assert(pos2[a] == pos[a - 1] && pos2[b] == pos[b - 1]);
                }
            }
        } else {
            assert(kept2 == kept);
            assert(pos2 == pos);
            assert forall|j: int| 0 <= j < kept2.len() implies (call_id(#[trigger] kept2[j]) matches Some(
                id,
            ) ==> ids2.contains(id)) by {}
            if k + 1 == calls.len() {
                assert(kept2.len() > 0);
            }
        }
    }
}

/// De-duplication never drops every call: the last call is always kept.
/// (So the refusal for a loop of repeated calls is never reached.)
pub proof fn lemma_dedup_nonempty(calls: Seq<ToolCall>)
    requires
        calls.len() > 0,
    ensures
        deduped(calls).len() > 0,
{
    lemma_dedup_scan(calls, 0);
}

/// De-duplication keeps calls in their order: the kept calls are the calls
/// at strictly increasing positions of the input.
pub proof fn lemma_dedup_preserves_order(calls: Seq<ToolCall>)
    ensures
        ({
            let pos = dedup_positions(calls, 0);
            &&& deduped(calls).len() == pos.len()
            &&& forall|j: int| 0 <= j < pos.len() ==> 0 <= #[trigger] pos[j] < calls.len()
            &&& forall|j: int| 0 <= j < pos.len() ==> #[trigger] deduped(calls)[j] == calls[pos[j]]
            &&& forall|a: int, b: int| 0 <= a < b < pos.len() ==> pos[a] < pos[b]
        }),
{
    lemma_dedup_scan(calls, 0);
}

/// No two kept calls have the same signature, nor the same id.
pub proof fn lemma_dedup_distinct(calls: Seq<ToolCall>)
    ensures
        forall|a: int, b: int|
            0 <= a < b < deduped(calls).len() ==> call_signature(deduped(calls)[a]) != call_signature(
                deduped(calls)[b],
            ),
        forall|a: int, b: int|
            0 <= a < b < deduped(calls).len() && call_id(deduped(calls)[a]) is Some ==> call_id(
                deduped(calls)[a],
            ) != call_id(deduped(calls)[b]),
{
    lemma_dedup_scan(calls, 0);
}


/// The tools of the active agent: its name, its functions, and the
/// environment its own functions run with.
pub struct AgentTools {
    pub name: String,
    pub functions: Functions,
    pub variable_envs: Vec<(String, String)>,
}

/// How a call is run: the name it is reported under, the command, the
/// command's leading arguments, and extra environment variables.
pub struct CallConfig {
    pub call_name: String,
    pub cmd_name: String,
    pub cmd_args: Vec<String>,
    pub envs: Vec<(String, String)>,
}

/// A call config as a value.
pub type CallConfigV = (Seq<char>, Seq<char>, Seq<Seq<char>>, Seq<(Seq<char>, Seq<char>)>);

impl View for CallConfig {
    type V = CallConfigV;

    open spec fn view(&self) -> CallConfigV {
        (
            self.call_name@,
            self.cmd_name@,
            self.cmd_args@.map_values(|a: String| a@),
            self.envs@.map_values(|p: (String, String)| (p.0@, p.1@)),
        )
    }
}

/// The error for a call of a function that nobody declared.
pub open spec fn unexpected_call_message(name: Seq<char>, arguments: JsonV) -> Seq<char> {
    "Unexpected call: "@ + name + " "@ + json_text(arguments)
}

/// How a call of a declared function runs: under its own name, as the
/// command of that name, with no leading arguments and no extra
/// environment; a call of an undeclared one is refused.
pub open spec fn config_call(name: Seq<char>, arguments: JsonV, functions: Seq<FunctionDeclaration>) -> Result<
    CallConfigV,
    Seq<char>,
> {
    if find_declaration(functions, name) is Some {
        Ok((name, name, Seq::empty(), Seq::empty()))
    } else {
        Err(unexpected_call_message(name, arguments))
    }
}

/// How a call runs with an agent active: a function of the agent's own runs
/// as `<agent>-<function>`, through the agent's command with the function's
/// name as first argument and the agent's environment; another function of
/// the agent runs as a plain command; a function the agent does not declare
/// is looked up among the other functions.
pub open spec fn agent_call(
    name: Seq<char>,
    arguments: JsonV,
    agent_name: Seq<char>,
    agent_functions: Seq<FunctionDeclaration>,
    agent_envs: Seq<(Seq<char>, Seq<char>)>,
    functions: Seq<FunctionDeclaration>,
) -> Result<CallConfigV, Seq<char>> {
    match find_declaration(agent_functions, name) {
        Some(i) => if agent_functions[i].agent {
            Ok((agent_name + "-"@ + name, agent_name, seq![name], agent_envs))
        } else {
            Ok((name, name, Seq::empty(), Seq::empty()))
        },
        None => config_call(name, arguments, functions),
    }
}

fn plain_call_config(name: &str) -> (r: CallConfig)
    ensures
        r@ == (name@, name@, Seq::<Seq<char>>::empty(), Seq::<(Seq<char>, Seq<char>)>::empty()),
{
    let r = CallConfig {
        call_name: name.to_owned(),
        cmd_name: name.to_owned(),
        cmd_args: Vec::new(),
        envs: Vec::new(),
    };
    assert(r.cmd_args@.map_values(|a: String| a@) =~= Seq::<Seq<char>>::empty());
    assert(r.envs@.map_values(|p: (String, String)| (p.0@, p.1@)) =~= Seq::<
        (Seq<char>, Seq<char>),
    >::empty());
    r
}

fn copy_pairs(v: &Vec<(String, String)>) -> (r: Vec<(String, String)>)
    ensures
        r@.map_values(|p: (String, String)| (p.0@, p.1@)) == v@.map_values(
            |p: (String, String)| (p.0@, p.1@),
        ),
{
    let mut out: Vec<(String, String)> = Vec::new();
    let mut i: usize = 0;
    while i < v.len()
        invariant
            i <= v@.len(),
            out@.map_values(|p: (String, String)| (p.0@, p.1@)) == v@.take(i as int).map_values(
                |p: (String, String)| (p.0@, p.1@),
            ),
        decreases v.len() - i,
    {
        out.push((v[i].0.clone(), v[i].1.clone()));
        assert(v@.take(i + 1).map_values(|p: (String, String)| (p.0@, p.1@)) =~= v@.take(
            i as int,
        ).map_values(|p: (String, String)| (p.0@, p.1@)).push((v@[i as int].0@, v@[i as int].1@)));
        assert(out@.map_values(|p: (String, String)| (p.0@, p.1@)) =~= v@.take(i + 1).map_values(
            |p: (String, String)| (p.0@, p.1@),
        ));
        i = i + 1;
    }
    assert(v@.take(v@.len() as int) =~= v@);
    out
}

impl ToolCall {
    /// How the call runs with no agent active, as `config_call` describes.
    pub fn extract_call_config_from_config(&self, functions: &Functions) -> (r: Result<CallConfig, String>)
        ensures
            match r {
                Ok(c) => config_call(self.name@, self.arguments@, functions.spec_declarations())
                    == Ok::<CallConfigV, Seq<char>>(c@),
                Err(e) => config_call(self.name@, self.arguments@, functions.spec_declarations())
                    == Err::<CallConfigV, Seq<char>>(e@),
            },
    {
        if functions.contains(self.name.as_str()) {
            Ok(plain_call_config(self.name.as_str()))
        } else {
            let mut e = String::new();
            push_str(&mut e, "Unexpected call: ");
            push_str(&mut e, self.name.as_str());
            push_str(&mut e, " ");
            write_json(&self.arguments, &mut e);
            Err(e)
        }
    }

    /// How the call runs with an agent active, as `agent_call` describes.
    pub fn extract_call_config_from_agent(&self, agent: &AgentTools, functions: &Functions) -> (r:
        Result<CallConfig, String>)
        ensures
            ({
                let expected = agent_call(
                    self.name@,
                    self.arguments@,
                    agent.name@,
                    agent.functions.spec_declarations(),
                    agent.variable_envs@.map_values(|p: (String, String)| (p.0@, p.1@)),
                    functions.spec_declarations(),
                );
                match r {
                    Ok(c) => expected == Ok::<CallConfigV, Seq<char>>(c@),
                    Err(e) => expected == Err::<CallConfigV, Seq<char>>(e@),
                }
            }),
    {
        match agent.functions.find(self.name.as_str()) {
            Some(function) => {
                if function.agent {
                    let mut call_name = String::new();
                    push_str(&mut call_name, agent.name.as_str());
                    push_str(&mut call_name, "-");
                    push_str(&mut call_name, self.name.as_str());
                    let mut cmd_args: Vec<String> = Vec::new();
                    cmd_args.push(self.name.clone());
                    assert(cmd_args@.map_values(|a: String| a@) =~= seq![self.name@]);
                    Ok(CallConfig {
                        call_name,
                        cmd_name: agent.name.clone(),
                        cmd_args,
                        envs: copy_pairs(&agent.variable_envs),
                    })
                } else {
                    Ok(plain_call_config(self.name.as_str()))
                }
            },
            None => self.extract_call_config_from_config(functions),
        }
    }
}

/// The error for arguments that are neither an object nor a text.
pub open spec fn invalid_arguments_message(call_name: Seq<char>, arguments: JsonV) -> Seq<char> {
    "The call '"@ + call_name + "' has invalid arguments: "@ + json_text(arguments)
}

/// How a call's arguments are read: an object is taken as it is (`None`), a
/// text is to be read as JSON (`Some` of the text), anything else is
/// refused.
pub fn arguments_text(call_name: &str, arguments: &Json) -> (r: Result<Option<String>, String>)
    ensures
        match arguments@ {
            JsonV::Object(_) => r == Ok::<Option<String>, String>(None),
            JsonV::Str(t) => r is Ok && r->Ok_0 is Some && r->Ok_0->Some_0@ == t,
            _ => r is Err && r->Err_0@ == invalid_arguments_message(call_name@, arguments@),
        },
{
    match arguments {
        Json::Object(_) => Ok(None),
        Json::Str(t) => Ok(Some(t.clone())),
        _ => {
            let mut e = String::new();
            push_str(&mut e, "The call '");
            push_str(&mut e, call_name);
            push_str(&mut e, "' has invalid arguments: ");
            write_json(arguments, &mut e);
            Err(e)
        },
    }
}

/// What jsonic's lenient parser makes of a text: the text of the object or
/// array it reads at the start, or its error message.
pub uninterp spec fn lenient_json_parse(source: Seq<char>) -> Result<Seq<char>, Seq<char>>;

/// Whether `t` is an object's or an array's text found in `source` after
/// leading whitespace only.
pub open spec fn leading_item_of(source: Seq<char>, t: Seq<char>) -> bool {
    exists|i: int, j: int|
        #![trigger source.subrange(i, j)]
        0 <= i <= j <= source.len() && source.subrange(i, j) == t && (forall|k: int|
            0 <= k < i ==> (source[k] == ' ' || source[k] == '\n' || source[k] == '\r' || source[k]
                == '\t')) && t.len() > 0 && (t[0] == '{' || t[0] == '[')
}

/// Calls `jsonic::parse` and takes the text of the item it read
/// (`JsonItem::as_str`, which the crate documents as the item's text as
/// found in the source data), or the error's message. The parser reads an
/// object or an array after leading whitespace and ignores what follows it;
/// which texts it accepts is not stated here.
#[verifier::external_body]
fn lenient_json(source: &str) -> (r: Result<String, String>)
    ensures
        match r {
            Ok(t) => lenient_json_parse(source@) == Ok::<Seq<char>, Seq<char>>(t@) && leading_item_of(
                source@,
                t@,
            ),
            Err(e) => lenient_json_parse(source@) == Err::<Seq<char>, Seq<char>>(e@),
        },
{
    match jsonic::parse(source) {
        Ok(item) => Ok(item.as_str().unwrap_or_default().to_owned()),
        Err(err) => Err(err.to_string()),
    }
}

/// The error for arguments that the lenient parser cannot read.
pub open spec fn malformed_arguments_message(call_name: Seq<char>, text: Seq<char>, err: Seq<char>) -> Seq<char> {
    "The call '"@ + call_name + "' has malformed JSON arguments: "@ + text + ". Error: "@ + err
}

/// The JSON text to read for arguments that are not strict JSON: the part
/// the lenient parser delimits, or the error naming the call.
pub fn lenient_arguments(call_name: &str, text: &str) -> (r: Result<String, String>)
    ensures
        match lenient_json_parse(text@) {
            Ok(t) => r is Ok && r->Ok_0@ == t && leading_item_of(text@, t),
            Err(err) => r is Err && r->Err_0@ == malformed_arguments_message(call_name@, text@, err),
        },
{
    match lenient_json(text) {
        Ok(t) => Ok(t),
        Err(err) => {
            let mut e = String::new();
            push_str(&mut e, "The call '");
            push_str(&mut e, call_name);
            push_str(&mut e, "' has malformed JSON arguments: ");
            push_str(&mut e, text);
            push_str(&mut e, ". Error: ");
            push_str(&mut e, err.as_str());
            Err(e)
        },
    }
}

/// The JSON text of a function declarations file: the part the lenient
/// parser delimits, or the error naming the file's kind.
pub fn declarations_text(content: &str) -> (r: Result<String, String>)
    ensures
        match lenient_json_parse(content@) {
            Ok(t) => r is Ok && r->Ok_0@ == t,
            Err(e) => r is Err && r->Err_0@ == "Failed to parse function declarations: "@ + e,
        },
{
    match lenient_json(content) {
        Ok(t) => Ok(t),
        Err(err) => {
            let mut e = String::new();
            push_str(&mut e, "Failed to parse function declarations: ");
            push_str(&mut e, err.as_str());
            Err(e)
        },
    }
}

/// What a tool's run gives: nothing for no output; else the output read as
/// JSON, or the output text under `output` where it is not JSON.
pub open spec fn tool_run_value(contents: Option<Seq<char>>, parsed: Option<JsonV>) -> JsonV {
    match contents {
        None => JsonV::Null,
        Some(c) => match parsed {
            Some(v) => v,
            None => JsonV::Object(seq![("output"@, JsonV::Str(c))]),
        },
    }
}

/// The value of a tool's run, as `tool_run_value` describes, given the
/// output text and what it reads as JSON.
pub fn tool_run_output(contents: Option<String>, parsed: Option<Json>) -> (r: Json)
    ensures
        r@ == tool_run_value(
            match contents {
                Some(c) => Some(c@),
                None => None,
            },
            match parsed {
                Some(v) => Some(v@),
                None => None,
            },
        ),
{
    match contents {
        None => Json::Null,
        Some(c) => match parsed {
            Some(v) => v,
            None => {
                let ghost cv = c@;
                let mut m: Vec<(String, Json)> = Vec::new();
                assert(members_view(Seq::<(String, Json)>::empty(), 0) =~= Seq::empty());
                obj_push(&mut m, "output", Json::Str(c));
                assert(members_view(m@, m@.len()) =~= seq![("output"@, JsonV::Str(cv))]);
                Json::Object(m)
            },
        },
    }
}

/// How many times a failing tool is tried: as configured, but at least once.
pub fn retry_attempts(max_attempts: u32) -> (r: u32)
    ensures
        r == if max_attempts == 0 {
            1
        } else {
            max_attempts
        },
{
    if max_attempts == 0 {
        1
    } else {
        max_attempts
    }
}

/// Whether a tool that failed on attempt `attempt` (counted from 0) is tried
/// again: while attempts are left; after the last one its error stands.
pub fn retry_after_failure(attempt: u32, max_attempts: u32) -> (r: bool)
    ensures
        r == (attempt + 1 < if max_attempts == 0 {
            1
        } else {
            max_attempts
        }),
{
    let n = retry_attempts(max_attempts);
    attempt < n - 1
}

/// The directories joined, each followed by `:`.
pub open spec fn dirs_prefix(dirs: Seq<Seq<char>>) -> Seq<char>
    decreases dirs.len(),
{
    if dirs.len() == 0 {
        Seq::empty()
    } else {
        dirs_prefix(dirs.drop_last()) + dirs.last() + ":"@
    }
}

/// The search path a tool runs with: the tool directories, each followed by
/// `:`, in front of the current path.
pub fn search_path(bin_dirs: &Vec<String>, current_path: &str) -> (r: String)
    ensures
        r@ == dirs_prefix(texts_of(bin_dirs@)) + current_path@,
{
    let mut out = String::new();
    let mut i: usize = 0;
    while i < bin_dirs.len()
        invariant
            i <= bin_dirs@.len(),
            out@ == dirs_prefix(texts_of(bin_dirs@).take(i as int)),
        decreases bin_dirs.len() - i,
    {
        push_str(&mut out, bin_dirs[i].as_str());
        push_str(&mut out, ":");
        assert(texts_of(bin_dirs@).take(i + 1).drop_last() =~= texts_of(bin_dirs@).take(i as int));
        i = i + 1;
    }
    assert(texts_of(bin_dirs@).take(bin_dirs@.len() as int) =~= texts_of(bin_dirs@));
    push_str(&mut out, current_path);
    out
}

/// The calls to run for a round of tool calls: none for none, else the
/// de-duplicated calls; a round whose calls would all be dropped is refused
/// as a loop of repeated calls.
pub fn tool_calls_to_run(calls: Vec<ToolCall>) -> (r: Result<Vec<ToolCall>, String>)
    ensures
        match r {
            Ok(v) => if calls@.len() == 0 {
                v@.len() == 0
            } else {
                v@ == deduped(calls@)
            },
            Err(e) => calls@.len() > 0 && deduped(calls@).len() == 0
                && e@ == "The request was aborted because an infinite loop of function calls was detected."@,
        },
{
    if calls.len() == 0 {
        return Ok(Vec::new());
    }
    let deduped_calls = ToolCall::dedup(calls);
    if deduped_calls.len() == 0 {
        return Err(
            "The request was aborted because an infinite loop of function calls was detected.".to_owned(),
        );
    }
    Ok(deduped_calls)
}

/// What a tool's run gives as the tool result: its output (a message for
/// no output), or for a failed run an object with the error, the tool's
/// name and a `failed_after_retries` status.
pub open spec fn tool_output_value(outcome: Result<JsonV, Seq<char>>, name: Seq<char>) -> JsonV {
    match outcome {
        Ok(v) => if v is Null {
            JsonV::Str("Tool returned no response."@)
        } else {
            v
        },
        Err(e) => JsonV::Object(
            seq![
                ("error"@, JsonV::Str(e)),
                ("tool_call"@, JsonV::Str(name)),
                ("status"@, JsonV::Str("failed_after_retries"@)),
            ],
        ),
    }
}

/// The tool result for a run's outcome, as `tool_output_value` describes.
pub fn tool_output(outcome: Result<Json, String>, name: &str) -> (r: Json)
    ensures
        r@ == tool_output_value(
            match outcome {
                Ok(v) => Ok(v@),
                Err(e) => Err(e@),
            },
            name@,
        ),
{
    match outcome {
        Ok(v) => match v {
            Json::Null => jstr("Tool returned no response."),
            other => other,
        },
        Err(e) => {
            let mut m: Vec<(String, Json)> = Vec::new();
            assert(members_view(Seq::<(String, Json)>::empty(), 0) =~= Seq::empty());
            let ghost ev = e@;
            obj_push(&mut m, "error", Json::Str(e));
            obj_push(&mut m, "tool_call", jstr(name));
            obj_push(&mut m, "status", jstr("failed_after_retries"));
            assert(members_view(m@, m@.len()) =~= seq![
                ("error"@, JsonV::Str(ev)),
                ("tool_call"@, JsonV::Str(name@)),
                ("status"@, JsonV::Str("failed_after_retries"@)),
            ]);
            Json::Object(m)
        },
    }
}

} // verus!
