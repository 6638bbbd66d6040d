use vstd::prelude::*;

use crate::ast::{Ast, AstNode, view_nodes, lemma_view_nodes_push};

verus! {

broadcast use vstd::string::group_string_axioms;

/// A JSON value. Objects keep their members in order; a reader looks
/// members up by key, never by position.
#[derive(Debug)]
pub enum Json {
    Null,
    Number(u32),
    Text(String),
    Array(Vec<Json>),
    Object(Vec<(String, Json)>),
}

/// The mathematical value of a `Json`.
pub enum JsonValue {
    Null,
    Number(u32),
    Text(Seq<char>),
    Array(Seq<JsonValue>),
    Object(Seq<(Seq<char>, JsonValue)>),
}

impl View for Json {
    type V = JsonValue;

    open spec fn view(&self) -> JsonValue
        decreases self,
    {
        match self {
            Json::Null => JsonValue::Null,
            Json::Number(n) => JsonValue::Number(*n),
            Json::Text(s) => JsonValue::Text(s@),
            Json::Array(v) => JsonValue::Array(view_items(v@)),
            Json::Object(fs) => JsonValue::Object(view_members(fs@)),
        }
    }
}

pub open spec fn view_items(s: Seq<Json>) -> Seq<JsonValue>
    decreases s,
{
    if s.len() == 0 {
        Seq::empty()
    } else {
        view_items(s.drop_last()).push(s.last().view())
    }
}

pub open spec fn view_members(s: Seq<(String, Json)>) -> Seq<(Seq<char>, JsonValue)>
    decreases s,
{
    if s.len() == 0 {
        Seq::empty()
    } else {
        view_members(s.drop_last()).push((s.last().0@, s.last().1.view()))
    }
}

proof fn lemma_view_items_push(s: Seq<Json>, x: Json)
    ensures
        view_items(s.push(x)) == view_items(s).push(x@),
{
    assert(s.push(x).drop_last() =~= s);
}

/// The JSON shape of each node kind: an object with a fixed key set for the
/// structured kinds, a bare string, number or null for the leaves.
pub open spec fn encode(a: Ast) -> JsonValue
    decreases a,
{
    match a {
        Ast::Gen { entity, architecture } => JsonValue::Object(
            seq![("entity"@, encode(*entity)), ("architecture"@, encode(*architecture))],
        ),
        Ast::Entity { ident, generics, ports, signals } => JsonValue::Object(
            seq![
                ("ident"@, JsonValue::Text(ident)),
                ("generics"@, encode_opt_list(generics)),
                ("ports"@, JsonValue::Array(encode_list(ports))),
                ("signals"@, JsonValue::Array(encode_list(signals))),
            ],
        ),
        Ast::DefineGeneric { ident, def_type, value } => JsonValue::Object(
            seq![
                ("ident"@, JsonValue::Text(ident)),
                ("def_type"@, encode(*def_type)),
                ("value"@, encode_opt_text(value)),
            ],
        ),
        Ast::DefinePort { ident, direction, def_type } => JsonValue::Object(
            seq![
                ("ident"@, JsonValue::Text(ident)),
                ("direction"@, JsonValue::Text(direction)),
                ("def_type"@, encode(*def_type)),
            ],
        ),
        Ast::DefineSignal { ident, def_type } => JsonValue::Object(
            seq![("ident"@, JsonValue::Text(ident)), ("def_type"@, encode(*def_type))],
        ),
        Ast::Type { name, vector } => JsonValue::Object(
            seq![
                ("name"@, JsonValue::Text(name)),
                ("vector"@, encode_opt(vector)),
            ],
        ),
        Ast::Vector { start, end } => JsonValue::Object(
            seq![("start"@, encode(*start)), ("end"@, encode(*end))],
        ),
        Ast::Operation { left, operator, right } => JsonValue::Object(
            seq![
                ("left"@, encode(*left)),
                ("operator"@, JsonValue::Text(operator)),
                ("right"@, encode(*right)),
            ],
        ),
        Ast::Architecture { ident, entity_name, machines } => JsonValue::Object(
            seq![
                ("ident"@, JsonValue::Text(ident)),
                ("entity_name"@, JsonValue::Text(entity_name)),
                ("machines"@, JsonValue::Array(encode_list(machines))),
            ],
        ),
        Ast::StateMachine { ident, sensibility, states } => JsonValue::Object(
            seq![
                ("ident"@, JsonValue::Text(ident)),
                ("sensibility"@, JsonValue::Text(sensibility)),
                ("states"@, JsonValue::Array(encode_list(states))),
            ],
        ),
        Ast::State { ident, transitions } => JsonValue::Object(
            seq![
                ("ident"@, JsonValue::Text(ident)),
                ("transitions"@, JsonValue::Array(encode_list(transitions))),
            ],
        ),
        Ast::TransitionSimple { to } => JsonValue::Object(seq![("to"@, JsonValue::Text(to))]),
        Ast::TransitionActived { activator, to } => JsonValue::Object(
            seq![("activator"@, encode(*activator)), ("to"@, JsonValue::Text(to))],
        ),
        Ast::TransitionComposed { terms } => JsonValue::Object(
            seq![("terms"@, JsonValue::Array(encode_list(terms)))],
        ),
        Ast::TransitionLast { fallback } => JsonValue::Object(
            seq![("fallback"@, JsonValue::Text(fallback))],
        ),
        Ast::Str(s) => JsonValue::Text(s),
        Ast::Int(n) => JsonValue::Number(n),
        Ast::Null => JsonValue::Null,
    }
}

pub open spec fn encode_opt(o: Option<Box<Ast>>) -> JsonValue
    decreases o,
{
    match o {
        Some(v) => encode(*v),
        None => JsonValue::Null,
    }
}

pub open spec fn encode_opt_list(o: Option<Seq<Ast>>) -> JsonValue
    decreases o,
{
    match o {
        Some(l) => JsonValue::Array(encode_list(l)),
        None => JsonValue::Null,
    }
}

pub open spec fn encode_opt_text(o: Option<Seq<char>>) -> JsonValue {
    match o {
        Some(t) => JsonValue::Text(t),
        None => JsonValue::Null,
    }
}

pub open spec fn encode_list(s: Seq<Ast>) -> Seq<JsonValue>
    decreases s,
{
    if s.len() == 0 {
        Seq::empty()
    } else {
        encode_list(s.drop_last()).push(encode(s.last()))
    }
}

} // verus!

verus! {

proof fn lemma_view_members_push(s: Seq<(String, Json)>, k: String, v: Json)
    ensures
        view_members(s.push((k, v))) == view_members(s).push((k@, v@)),
{
    assert(s.push((k, v)).drop_last() =~= s);
}

proof fn lemma_encode_list_push(s: Seq<Ast>, a: Ast)
    ensures
        encode_list(s.push(a)) == encode_list(s).push(encode(a)),
{
    assert(s.push(a).drop_last() =~= s);
}

fn push_member(fs: &mut Vec<(String, Json)>, k: &str, v: Json)
    ensures
        view_members(final(fs)@) == view_members(old(fs)@).push((k@, v@)),
{
    let key = k.to_string();
    proof {
        lemma_view_members_push(fs@, key, v);
    }
    fs.push((key, v));
}

fn object1(k1: &str, v1: Json) -> (r: Json)
    ensures
        r@ == JsonValue::Object(seq![(k1@, v1@)]),
{
    let mut fs: Vec<(String, Json)> = Vec::new();
    push_member(&mut fs, k1, v1);
    proof {
        assert(view_members(fs@) =~= seq![(k1@, v1@)]);
    }
    Json::Object(fs)
}

fn object2(k1: &str, v1: Json, k2: &str, v2: Json) -> (r: Json)
    ensures
        r@ == JsonValue::Object(seq![(k1@, v1@), (k2@, v2@)]),
{
    let mut fs: Vec<(String, Json)> = Vec::new();
    let ghost (j1, j2) = (v1@, v2@);
    push_member(&mut fs, k1, v1);
    push_member(&mut fs, k2, v2);
    proof {
        assert(view_members(fs@) =~= seq![(k1@, j1), (k2@, j2)]);
    }
    Json::Object(fs)
}

fn object3(k1: &str, v1: Json, k2: &str, v2: Json, k3: &str, v3: Json) -> (r: Json)
    ensures
        r@ == JsonValue::Object(seq![(k1@, v1@), (k2@, v2@), (k3@, v3@)]),
{
    let mut fs: Vec<(String, Json)> = Vec::new();
    let ghost (j1, j2, j3) = (v1@, v2@, v3@);
    push_member(&mut fs, k1, v1);
    push_member(&mut fs, k2, v2);
    push_member(&mut fs, k3, v3);
    proof {
        assert(view_members(fs@) =~= seq![(k1@, j1), (k2@, j2), (k3@, j3)]);
    }
    Json::Object(fs)
}

fn object4(k1: &str, v1: Json, k2: &str, v2: Json, k3: &str, v3: Json, k4: &str, v4: Json) -> (r:
    Json)
    ensures
        r@ == JsonValue::Object(seq![(k1@, v1@), (k2@, v2@), (k3@, v3@), (k4@, v4@)]),
{
    let mut fs: Vec<(String, Json)> = Vec::new();
    let ghost (j1, j2, j3, j4) = (v1@, v2@, v3@, v4@);
    push_member(&mut fs, k1, v1);
    push_member(&mut fs, k2, v2);
    push_member(&mut fs, k3, v3);
    push_member(&mut fs, k4, v4);
    proof {
        assert(view_members(fs@) =~= seq![(k1@, j1), (k2@, j2), (k3@, j3), (k4@, j4)]);
    }
    Json::Object(fs)
}

fn text(s: &String) -> (r: Json)
    ensures
        r@ == JsonValue::Text(s@),
{
    Json::Text(s.clone())
}

fn encode_nodes(v: &Vec<AstNode>) -> (r: Json)
    ensures
        r@ == JsonValue::Array(encode_list(view_nodes(v@))),
    decreases v, 0nat,
{
    let mut out: Vec<Json> = Vec::new();
    let mut i: usize = 0;
    proof {
        assert(v@.subrange(0, 0) =~= Seq::<AstNode>::empty());
    }
    while i < v.len()
        invariant
            i <= v@.len(),
            view_items(out@) == encode_list(view_nodes(v@.subrange(0, i as int))),
        decreases v@.len() - i,
    {
        proof {
            assert(decreases_to!(v => v@[i as int]));
        }
        let j = encode_ast(&v[i]);
        proof {
            assert(v@.subrange(0, i + 1) =~= v@.subrange(0, i as int).push(v@[i as int]));
            lemma_view_nodes_push(v@.subrange(0, i as int), v@[i as int]);
            lemma_encode_list_push(view_nodes(v@.subrange(0, i as int)), v@[i as int]@);
            lemma_view_items_push(out@, j);
        }
        out.push(j);
        i = i + 1;
    }
    proof {
        assert(v@.subrange(0, i as int) =~= v@);
    }
    Json::Array(out)
}

/// Encodes a tree as the JSON value of its shape.
pub fn encode_ast(a: &AstNode) -> (r: Json)
    ensures
        r@ == encode(a@),
    decreases a, 1nat,
{
    match a {
        AstNode::Gen { entity, architecture } => object2(
            "entity",
            encode_ast(entity),
            "architecture",
            encode_ast(architecture),
        ),
        AstNode::Entity { ident, generics, ports, signals } => match generics {
            Some(g) => {
                proof {
                    assert(encode_opt_list(Some(view_nodes(g@))) == JsonValue::Array(
                        encode_list(view_nodes(g@)),
                    ));
                }
                object4(
                "ident",
                text(ident),
                "generics",
                encode_nodes(g),
                "ports",
                encode_nodes(ports),
                "signals",
                encode_nodes(signals),
                )
            },
            None => {
                proof {
                    assert(encode_opt_list(None) == JsonValue::Null);
                }
                object4(
                "ident",
                text(ident),
                "generics",
                Json::Null,
                "ports",
                encode_nodes(ports),
                "signals",
                encode_nodes(signals),
                )
            },
        },
        AstNode::DefineGeneric { ident, def_type, value } => match value {
            Some(v) => object3("ident", text(ident), "def_type", encode_ast(def_type), "value", text(v)),
            None => object3("ident", text(ident), "def_type", encode_ast(def_type), "value", Json::Null),
        },
        AstNode::DefinePort { ident, direction, def_type } => object3(
            "ident",
            text(ident),
            "direction",
            text(direction),
            "def_type",
            encode_ast(def_type),
        ),
        AstNode::DefineSignal { ident, def_type } => object2(
            "ident",
            text(ident),
            "def_type",
            encode_ast(def_type),
        ),
        AstNode::Type { name, vector } => match vector {
            Some(v) => {
                proof {
                    assert(encode_opt(Some(Box::new((**v)@))) == encode((**v)@));
                }
                object2("name", text(name), "vector", encode_ast(v))
            },
            None => {
                proof {
                    assert(encode_opt(None) == JsonValue::Null);
                }
                object2("name", text(name), "vector", Json::Null)
            },
        },
        AstNode::Vector { start, end } => object2(
            "start",
            encode_ast(start),
            "end",
            encode_ast(end),
        ),
        AstNode::Operation { left, operator, right } => object3(
            "left",
            encode_ast(left),
            "operator",
            text(operator),
            "right",
            encode_ast(right),
        ),
        AstNode::Architecture { ident, entity_name, machines } => object3(
            "ident",
            text(ident),
            "entity_name",
            text(entity_name),
            "machines",
            encode_nodes(machines),
        ),
        AstNode::StateMachine { ident, sensibility, states } => object3(
            "ident",
            text(ident),
            "sensibility",
            text(sensibility),
            "states",
            encode_nodes(states),
        ),
        AstNode::State { ident, transitions } => object2(
            "ident",
            text(ident),
            "transitions",
            encode_nodes(transitions),
        ),
        AstNode::TransitionSimple { to } => object1("to", text(to)),
        AstNode::TransitionActived { activator, to } => object2(
            "activator",
            encode_ast(activator),
            "to",
            text(to),
        ),
        AstNode::TransitionComposed { terms } => object1("terms", encode_nodes(terms)),
        AstNode::TransitionLast { fallback } => object1("fallback", text(fallback)),
        AstNode::Str(s) => text(s),
        AstNode::Int(n) => Json::Number(*n),
        AstNode::Null => Json::Null,
    }
}

} // verus!

verus! {

/// Index of the first member with key `k`, or -1 when there is none.
pub open spec fn find(fs: Seq<(Seq<char>, JsonValue)>, k: Seq<char>) -> int
    decreases fs.len(),
{
    if fs.len() == 0 {
        -1
    } else {
        let i = find(fs.drop_last(), k);
        if i >= 0 {
            i
        } else if fs.last().0 == k {
            fs.len() - 1
        } else {
            -1
        }
    }
}

pub open spec fn has_key(fs: Seq<(Seq<char>, JsonValue)>, k: Seq<char>) -> bool {
    find(fs, k) >= 0
}

pub proof fn lemma_find(fs: Seq<(Seq<char>, JsonValue)>, k: Seq<char>)
    ensures
        find(fs, k) == -1 ==> forall|i: int| 0 <= i < fs.len() ==> (#[trigger] fs[i]).0 != k,
        find(fs, k) != -1 ==> 0 <= find(fs, k) < fs.len() && fs[find(fs, k)].0 == k,
        forall|i: int| 0 <= i < find(fs, k) ==> (#[trigger] fs[i]).0 != k,
    decreases fs.len(),
{
    if fs.len() > 0 {
        let p = fs.drop_last();
        lemma_find(p, k);
        assert forall|i: int| 0 <= i < p.len() implies #[trigger] p[i] == fs[i] by {}
        if find(fs, k) == -1 {
            assert forall|i: int| 0 <= i < fs.len() implies (#[trigger] fs[i]).0 != k by {
                if i < p.len() {
                    assert(p[i] == fs[i]);
                }
            }
        }
        assert forall|i: int| 0 <= i < find(fs, k) implies (#[trigger] fs[i]).0 != k by {
            if i < p.len() {
                assert(p[i] == fs[i]);
            }
        }
    }
}

/// The JSON type of a value; for an object also its key set and its number
/// of members, for an array its length.
pub enum Shape {
    Null,
    Number,
    Text,
    Array(nat),
    Object(Set<Seq<char>>, nat),
}

pub open spec fn key_set(fs: Seq<(Seq<char>, JsonValue)>) -> Set<Seq<char>> {
    Set::new(|k: Seq<char>| has_key(fs, k))
}

pub open spec fn shape(j: JsonValue) -> Shape {
    match j {
        JsonValue::Null => Shape::Null,
        JsonValue::Number(_) => Shape::Number,
        JsonValue::Text(_) => Shape::Text,
        JsonValue::Array(s) => Shape::Array(s.len()),
        JsonValue::Object(fs) => Shape::Object(key_set(fs), fs.len()),
    }
}

/// The kinds of node, one per variant of `Ast`.
pub enum Kind {
    Gen,
    Entity,
    DefineGeneric,
    DefinePort,
    DefineSignal,
    Type,
    Vector,
    Operation,
    Architecture,
    StateMachine,
    State,
    TransitionSimple,
    TransitionActived,
    TransitionComposed,
    TransitionLast,
    Str,
    Int,
    Null,
}

pub open spec fn kind(a: Ast) -> Kind {
    match a {
        Ast::Gen { .. } => Kind::Gen,
        Ast::Entity { .. } => Kind::Entity,
        Ast::DefineGeneric { .. } => Kind::DefineGeneric,
        Ast::DefinePort { .. } => Kind::DefinePort,
        Ast::DefineSignal { .. } => Kind::DefineSignal,
        Ast::Type { .. } => Kind::Type,
        Ast::Vector { .. } => Kind::Vector,
        Ast::Operation { .. } => Kind::Operation,
        Ast::Architecture { .. } => Kind::Architecture,
        Ast::StateMachine { .. } => Kind::StateMachine,
        Ast::State { .. } => Kind::State,
        Ast::TransitionSimple { .. } => Kind::TransitionSimple,
        Ast::TransitionActived { .. } => Kind::TransitionActived,
        Ast::TransitionComposed { .. } => Kind::TransitionComposed,
        Ast::TransitionLast { .. } => Kind::TransitionLast,
        Ast::Str(_) => Kind::Str,
        Ast::Int(_) => Kind::Int,
        Ast::Null => Kind::Null,
    }
}

/// The kind of node that a JSON shape stands for, if any. An object is told
/// apart by one key that only its kind has, then checked for its arity.
pub open spec fn kind_of_shape(s: Shape) -> Option<Kind> {
    match s {
        Shape::Null => Some(Kind::Null),
        Shape::Number => Some(Kind::Int),
        Shape::Text => Some(Kind::Str),
        Shape::Array(_) => None,
        Shape::Object(keys, n) => {
            let k = if keys.contains("architecture"@) {
                Kind::Gen
            } else if keys.contains("generics"@) {
                Kind::Entity
            } else if keys.contains("value"@) {
                Kind::DefineGeneric
            } else if keys.contains("direction"@) {
                Kind::DefinePort
            } else if keys.contains("def_type"@) {
                Kind::DefineSignal
            } else if keys.contains("name"@) {
                Kind::Type
            } else if keys.contains("start"@) {
                Kind::Vector
            } else if keys.contains("operator"@) {
                Kind::Operation
            } else if keys.contains("machines"@) {
                Kind::Architecture
            } else if keys.contains("sensibility"@) {
                Kind::StateMachine
            } else if keys.contains("transitions"@) {
                Kind::State
            } else if keys.contains("activator"@) {
                Kind::TransitionActived
            } else if keys.contains("to"@) {
                Kind::TransitionSimple
            } else if keys.contains("terms"@) {
                Kind::TransitionComposed
            } else {
                Kind::TransitionLast
            };
            if n == arity(k) {
                Some(k)
            } else {
                None
            }
        },
    }
}

/// The number of members of the object that each structured kind encodes to.
pub open spec fn arity(k: Kind) -> nat {
    match k {
        Kind::Entity => 4,
        Kind::DefineGeneric | Kind::DefinePort | Kind::Operation | Kind::Architecture
        | Kind::StateMachine => 3,
        Kind::Gen | Kind::DefineSignal | Kind::Type | Kind::Vector | Kind::State
        | Kind::TransitionActived => 2,
        _ => 1,
    }
}

} // verus!

verus! {

/// The length and first character of each member key, enough to tell any
/// two of them apart.
pub proof fn lemma_keys()
    ensures
        "entity"@.len() == 6 && "entity"@[0] == 'e',
        "architecture"@.len() == 12 && "architecture"@[0] == 'a',
        "ident"@.len() == 5 && "ident"@[0] == 'i',
        "generics"@.len() == 8 && "generics"@[0] == 'g',
        "ports"@.len() == 5 && "ports"@[0] == 'p',
        "signals"@.len() == 7 && "signals"@[0] == 's',
        "def_type"@.len() == 8 && "def_type"@[0] == 'd',
        "value"@.len() == 5 && "value"@[0] == 'v',
        "direction"@.len() == 9 && "direction"@[0] == 'd',
        "name"@.len() == 4 && "name"@[0] == 'n',
        "vector"@.len() == 6 && "vector"@[0] == 'v',
        "start"@.len() == 5 && "start"@[0] == 's',
        "end"@.len() == 3 && "end"@[0] == 'e',
        "left"@.len() == 4 && "left"@[0] == 'l',
        "operator"@.len() == 8 && "operator"@[0] == 'o',
        "right"@.len() == 5 && "right"@[0] == 'r',
        "entity_name"@.len() == 11 && "entity_name"@[0] == 'e',
        "machines"@.len() == 8 && "machines"@[0] == 'm',
        "sensibility"@.len() == 11 && "sensibility"@[0] == 's',
        "states"@.len() == 6 && "states"@[0] == 's',
        "transitions"@.len() == 11 && "transitions"@[0] == 't',
        "to"@.len() == 2 && "to"@[0] == 't',
        "activator"@.len() == 9 && "activator"@[0] == 'a',
        "terms"@.len() == 5 && "terms"@[0] == 't',
        "fallback"@.len() == 8 && "fallback"@[0] == 'f',
{
    reveal_strlit("entity");
    reveal_strlit("architecture");
    reveal_strlit("ident");
    reveal_strlit("generics");
    reveal_strlit("ports");
    reveal_strlit("signals");
    reveal_strlit("def_type");
    reveal_strlit("value");
    reveal_strlit("direction");
    reveal_strlit("name");
    reveal_strlit("vector");
    reveal_strlit("start");
    reveal_strlit("end");
    reveal_strlit("left");
    reveal_strlit("operator");
    reveal_strlit("right");
    reveal_strlit("entity_name");
    reveal_strlit("machines");
    reveal_strlit("sensibility");
    reveal_strlit("states");
    reveal_strlit("transitions");
    reveal_strlit("to");
    reveal_strlit("activator");
    reveal_strlit("terms");
    reveal_strlit("fallback");
}

proof fn lemma_key_set(fs: Seq<(Seq<char>, JsonValue)>)
    ensures
        forall|k: Seq<char>| #[trigger] key_set(fs).contains(k) <==> has_key(fs, k),
{
}

/// Each node's encoding has the shape of its own kind.
pub proof fn lemma_shape_kind(a: Ast)
    ensures
        kind_of_shape(shape(encode(a))) == Some(kind(a)),
{
    lemma_keys();
    match encode(a) {
        JsonValue::Object(fs) => {
            lemma_key_set(fs);
            lemma_find(fs, "architecture"@);
            lemma_find(fs, "generics"@);
            lemma_find(fs, "value"@);
            lemma_find(fs, "direction"@);
            lemma_find(fs, "def_type"@);
            lemma_find(fs, "name"@);
            lemma_find(fs, "start"@);
            lemma_find(fs, "operator"@);
            lemma_find(fs, "machines"@);
            lemma_find(fs, "sensibility"@);
            lemma_find(fs, "transitions"@);
            lemma_find(fs, "activator"@);
            lemma_find(fs, "to"@);
            lemma_find(fs, "terms"@);
        },
        _ => {},
    }
}

/// Nodes of two different kinds never encode to the same shape: they differ
/// in JSON type, in key set, or in arity.
pub proof fn lemma_shapes_differ(a: Ast, b: Ast)
    requires
        kind(a) != kind(b),
    ensures
        shape(encode(a)) != shape(encode(b)),
{
    lemma_shape_kind(a);
    lemma_shape_kind(b);
}

} // verus!

verus! {

/// The node that a JSON value encodes, if it encodes one.
pub open spec fn decode(j: JsonValue) -> Option<Ast>
    decreases j, 3nat,
{
    match j {
        JsonValue::Null => Some(Ast::Null),
        JsonValue::Number(n) => Some(Ast::Int(n)),
        JsonValue::Text(s) => Some(Ast::Str(s)),
        JsonValue::Array(_) => None,
        JsonValue::Object(fs) => decode_object(fs),
    }
}

pub open spec fn decode_list(s: Seq<JsonValue>) -> Option<Seq<Ast>>
    decreases s, 3nat,
{
    if s.len() == 0 {
        Some(Seq::empty())
    } else {
        match decode_list(s.drop_last()) {
            None => None,
            Some(l) => match decode(s[s.len() - 1]) {
                None => None,
                Some(a) => Some(l.push(a)),
            },
        }
    }
}

pub open spec fn field_text(fs: Seq<(Seq<char>, JsonValue)>, k: Seq<char>) -> Option<Seq<char>> {
    let i = find(fs, k);
    if 0 <= i < fs.len() {
        match fs[i].1 {
            JsonValue::Text(s) => Some(s),
            _ => None,
        }
    } else {
        None
    }
}

pub open spec fn field_opt_text(fs: Seq<(Seq<char>, JsonValue)>, k: Seq<char>) -> Option<
    Option<Seq<char>>,
> {
    let i = find(fs, k);
    if 0 <= i < fs.len() {
        match fs[i].1 {
            JsonValue::Null => Some(None),
            JsonValue::Text(s) => Some(Some(s)),
            _ => None,
        }
    } else {
        None
    }
}

pub open spec fn field_node(fs: Seq<(Seq<char>, JsonValue)>, k: Seq<char>) -> Option<Ast>
    decreases fs, 1nat,
{
    let i = find(fs, k);
    if 0 <= i < fs.len() {
        decode(fs[i].1)
    } else {
        None
    }
}

pub open spec fn field_opt_node(fs: Seq<(Seq<char>, JsonValue)>, k: Seq<char>) -> Option<
    Option<Ast>,
>
    decreases fs, 1nat,
{
    let i = find(fs, k);
    if 0 <= i < fs.len() {
        if fs[i].1 is Null {
            Some(None)
        } else {
            match decode(fs[i].1) {
                Some(a) => Some(Some(a)),
                None => None,
            }
        }
    } else {
        None
    }
}

pub open spec fn field_list(fs: Seq<(Seq<char>, JsonValue)>, k: Seq<char>) -> Option<Seq<Ast>>
    decreases fs, 1nat,
{
    let i = find(fs, k);
    if 0 <= i < fs.len() {
        match fs[i].1 {
            JsonValue::Array(items) => decode_list(items),
            _ => None,
        }
    } else {
        None
    }
}

pub open spec fn field_opt_list(fs: Seq<(Seq<char>, JsonValue)>, k: Seq<char>) -> Option<
    Option<Seq<Ast>>,
>
    decreases fs, 1nat,
{
    let i = find(fs, k);
    if 0 <= i < fs.len() {
        match fs[i].1 {
            JsonValue::Null => Some(None),
            JsonValue::Array(items) => match decode_list(items) {
                Some(l) => Some(Some(l)),
                None => None,
            },
            _ => None,
        }
    } else {
        None
    }
}

pub open spec fn boxed(o: Option<Ast>) -> Option<Box<Ast>> {
    match o {
        Some(a) => Some(Box::new(a)),
        None => None,
    }
}

/// The node that an object encodes: its kind comes from its shape alone,
/// each member is then looked up by key.
pub open spec fn decode_object(fs: Seq<(Seq<char>, JsonValue)>) -> Option<Ast>
    decreases fs, 2nat,
{
    match kind_of_shape(shape(JsonValue::Object(fs))) {
        Some(Kind::Gen) => match (field_node(fs, "entity"@), field_node(fs, "architecture"@)) {
            (Some(e), Some(a)) => Some(Ast::Gen { entity: Box::new(e), architecture: Box::new(a) }),
            _ => None,
        },
        Some(Kind::Entity) => match (
            field_text(fs, "ident"@),
            field_opt_list(fs, "generics"@),
            field_list(fs, "ports"@),
            field_list(fs, "signals"@),
        ) {
            (Some(i), Some(g), Some(p), Some(s)) => Some(
                Ast::Entity { ident: i, generics: g, ports: p, signals: s },
            ),
            _ => None,
        },
        Some(Kind::DefineGeneric) => match (
            field_text(fs, "ident"@),
            field_node(fs, "def_type"@),
            field_opt_text(fs, "value"@),
        ) {
            (Some(i), Some(t), Some(v)) => Some(
                Ast::DefineGeneric { ident: i, def_type: Box::new(t), value: v },
            ),
            _ => None,
        },
        Some(Kind::DefinePort) => match (
            field_text(fs, "ident"@),
            field_text(fs, "direction"@),
            field_node(fs, "def_type"@),
        ) {
            (Some(i), Some(d), Some(t)) => Some(
                Ast::DefinePort { ident: i, direction: d, def_type: Box::new(t) },
            ),
            _ => None,
        },
        Some(Kind::DefineSignal) => match (field_text(fs, "ident"@), field_node(fs, "def_type"@)) {
            (Some(i), Some(t)) => Some(Ast::DefineSignal { ident: i, def_type: Box::new(t) }),
            _ => None,
        },
        Some(Kind::Type) => match (field_text(fs, "name"@), field_opt_node(fs, "vector"@)) {
            (Some(n), Some(v)) => Some(Ast::Type { name: n, vector: boxed(v) }),
            _ => None,
        },
        Some(Kind::Vector) => match (field_node(fs, "start"@), field_node(fs, "end"@)) {
            (Some(s), Some(e)) => Some(Ast::Vector { start: Box::new(s), end: Box::new(e) }),
            _ => None,
        },
        Some(Kind::Operation) => match (
            field_node(fs, "left"@),
            field_text(fs, "operator"@),
            field_node(fs, "right"@),
        ) {
            (Some(l), Some(o), Some(r)) => Some(
                Ast::Operation { left: Box::new(l), operator: o, right: Box::new(r) },
            ),
            _ => None,
        },
        Some(Kind::Architecture) => match (
            field_text(fs, "ident"@),
            field_text(fs, "entity_name"@),
            field_list(fs, "machines"@),
        ) {
            (Some(i), Some(e), Some(m)) => Some(
                Ast::Architecture { ident: i, entity_name: e, machines: m },
            ),
            _ => None,
        },
        Some(Kind::StateMachine) => match (
            field_text(fs, "ident"@),
            field_text(fs, "sensibility"@),
            field_list(fs, "states"@),
        ) {
            (Some(i), Some(s), Some(st)) => Some(
                Ast::StateMachine { ident: i, sensibility: s, states: st },
            ),
            _ => None,
        },
        Some(Kind::State) => match (field_text(fs, "ident"@), field_list(fs, "transitions"@)) {
            (Some(i), Some(t)) => Some(Ast::State { ident: i, transitions: t }),
            _ => None,
        },
        Some(Kind::TransitionSimple) => match field_text(fs, "to"@) {
            Some(t) => Some(Ast::TransitionSimple { to: t }),
            None => None,
        },
        Some(Kind::TransitionActived) => match (field_node(fs, "activator"@), field_text(fs, "to"@)) {
            (Some(a), Some(t)) => Some(Ast::TransitionActived { activator: Box::new(a), to: t }),
            _ => None,
        },
        Some(Kind::TransitionComposed) => match field_list(fs, "terms"@) {
            Some(t) => Some(Ast::TransitionComposed { terms: t }),
            None => None,
        },
        Some(Kind::TransitionLast) => match field_text(fs, "fallback"@) {
            Some(f) => Some(Ast::TransitionLast { fallback: f }),
            None => None,
        },
        _ => None,
    }
}

} // verus!

