use vstd::prelude::*;

use crate::ast::Ast;
use crate::builder::{assemble, build, build_list, classify};
use crate::tree::{ParseNode, Rule};
use crate::json::{
    decode, decode_list, decode_object, encode, encode_list, encode_opt, encode_opt_list,
    encode_opt_text, field_list, field_node, field_opt_list, field_opt_node, find, lemma_find,
    lemma_keys, lemma_shape_kind, JsonValue,
};

verus! {

/// Trees that the encoding keeps apart from their neighbours: an optional
/// vector bound is never the empty node, whose encoding is the same `null`
/// that stands for an absent bound.
pub open spec fn encodable(a: Ast) -> bool
    decreases a,
{
    match a {
        Ast::Gen { entity, architecture } => encodable(*entity) && encodable(*architecture),
        Ast::Entity { generics, ports, signals, .. } => {
            &&& match generics {
                Some(g) => all_encodable(g),
                None => true,
            }
            &&& all_encodable(ports)
            &&& all_encodable(signals)
        },
        Ast::DefineGeneric { def_type, .. } => encodable(*def_type),
        Ast::DefinePort { def_type, .. } => encodable(*def_type),
        Ast::DefineSignal { def_type, .. } => encodable(*def_type),
        Ast::Type { vector, .. } => match vector {
            Some(v) => !(*v is Null) && encodable(*v),
            None => true,
        },
        Ast::Vector { start, end } => encodable(*start) && encodable(*end),
        Ast::Operation { left, right, .. } => encodable(*left) && encodable(*right),
        Ast::Architecture { machines, .. } => all_encodable(machines),
        Ast::StateMachine { states, .. } => all_encodable(states),
        Ast::State { transitions, .. } => all_encodable(transitions),
        Ast::TransitionActived { activator, .. } => encodable(*activator),
        Ast::TransitionComposed { terms } => all_encodable(terms),
        _ => true,
    }
}

pub open spec fn all_encodable(s: Seq<Ast>) -> bool
    decreases s,
{
    if s.len() == 0 {
        true
    } else {
        all_encodable(s.drop_last()) && encodable(s[s.len() - 1])
    }
}

pub proof fn lemma_field_at(fs: Seq<(Seq<char>, JsonValue)>, i: int, k: Seq<char>)
    requires
        0 <= i < fs.len(),
        fs[i].0 == k,
        forall|j: int| 0 <= j < i ==> (#[trigger] fs[j]).0 != k,
    ensures
        find(fs, k) == i,
{
    lemma_find(fs, k);
}


#[verifier::spinoff_prover]
#[verifier::rlimit(30)]
proof fn lemma_round_trip_gen(e: Ast, r: Ast)
    requires
        decode(encode(e)) == Some(e),
        decode(encode(r)) == Some(r),
    ensures
        decode(encode(Ast::Gen { entity: Box::new(e), architecture: Box::new(r) })) == Some(
            Ast::Gen { entity: Box::new(e), architecture: Box::new(r) },
        ),
{
    let a = Ast::Gen { entity: Box::new(e), architecture: Box::new(r) };
    lemma_keys();
    lemma_shape_kind(a);
    let fs = seq![("entity"@, encode(e)), ("architecture"@, encode(r))];
    assert(encode(a) == JsonValue::Object(fs));
    lemma_field_at(fs, 0, "entity"@);
    lemma_field_at(fs, 1, "architecture"@);
    assert(field_node(fs, "entity"@) == Some(e));
    assert(field_node(fs, "architecture"@) == Some(r));
    assert(decode_object(fs) == Some(a));
}


#[verifier::spinoff_prover]
#[verifier::rlimit(30)]
proof fn lemma_round_trip_entity(ident: Seq<char>, generics: Option<Seq<Ast>>, ports: Seq<Ast>, signals: Seq<Ast>)
    requires
        generics matches Some(g) ==> decode_list(encode_list(g)) == Some(g),
        decode_list(encode_list(ports)) == Some(ports),
        decode_list(encode_list(signals)) == Some(signals),
    ensures
        decode(encode(Ast::Entity { ident, generics, ports, signals })) == Some(Ast::Entity { ident, generics, ports, signals }),
{
    let a = Ast::Entity { ident, generics, ports, signals };
    lemma_keys();
    lemma_shape_kind(a);
    let fs = seq![
        ("ident"@, JsonValue::Text(ident)),
        ("generics"@, encode_opt_list(generics)),
        ("ports"@, JsonValue::Array(encode_list(ports))),
        ("signals"@, JsonValue::Array(encode_list(signals))),
    ];
    assert(encode(a) == JsonValue::Object(fs));
    lemma_field_at(fs, 0, "ident"@);
    lemma_field_at(fs, 1, "generics"@);
    lemma_field_at(fs, 2, "ports"@);
    lemma_field_at(fs, 3, "signals"@);
    match generics {
        Some(g) => {
            assert(encode_opt_list(generics) == JsonValue::Array(encode_list(g)));
        },
        None => {
            assert(encode_opt_list(generics) == JsonValue::Null);
        },
    }
    assert(field_opt_list(fs, "generics"@) == Some(generics));
    assert(field_list(fs, "ports"@) == Some(ports));
    assert(field_list(fs, "signals"@) == Some(signals));
    assert(decode_object(fs) == Some(a));
}

#[verifier::spinoff_prover]
#[verifier::rlimit(30)]
proof fn lemma_round_trip_define_generic(ident: Seq<char>, def_type: Ast, value: Option<Seq<char>>)
    requires
        decode(encode(def_type)) == Some(def_type),
    ensures
        decode(encode(Ast::DefineGeneric { ident, def_type: Box::new(def_type), value })) == Some(Ast::DefineGeneric { ident, def_type: Box::new(def_type), value }),
{
    let a = Ast::DefineGeneric { ident, def_type: Box::new(def_type), value };
    lemma_keys();
    lemma_shape_kind(a);
    let fs = seq![
        ("ident"@, JsonValue::Text(ident)),
        ("def_type"@, encode(def_type)),
        ("value"@, encode_opt_text(value)),
    ];
    assert(encode(a) == JsonValue::Object(fs));
    lemma_field_at(fs, 0, "ident"@);
    lemma_field_at(fs, 1, "def_type"@);
    lemma_field_at(fs, 2, "value"@);
    assert(field_node(fs, "def_type"@) == Some(def_type));
    assert(decode_object(fs) == Some(a));
}

#[verifier::spinoff_prover]
#[verifier::rlimit(30)]
proof fn lemma_round_trip_define_port(ident: Seq<char>, direction: Seq<char>, def_type: Ast)
    requires
        decode(encode(def_type)) == Some(def_type),
    ensures
        decode(encode(Ast::DefinePort { ident, direction, def_type: Box::new(def_type) })) == Some(Ast::DefinePort { ident, direction, def_type: Box::new(def_type) }),
{
    let a = Ast::DefinePort { ident, direction, def_type: Box::new(def_type) };
    lemma_keys();
    lemma_shape_kind(a);
    let fs = seq![
        ("ident"@, JsonValue::Text(ident)),
        ("direction"@, JsonValue::Text(direction)),
        ("def_type"@, encode(def_type)),
    ];
    assert(encode(a) == JsonValue::Object(fs));
    lemma_field_at(fs, 0, "ident"@);
    lemma_field_at(fs, 1, "direction"@);
    lemma_field_at(fs, 2, "def_type"@);
    assert(field_node(fs, "def_type"@) == Some(def_type));
    assert(decode_object(fs) == Some(a));
}

#[verifier::spinoff_prover]
#[verifier::rlimit(30)]
proof fn lemma_round_trip_define_signal(ident: Seq<char>, def_type: Ast)
    requires
        decode(encode(def_type)) == Some(def_type),
    ensures
        decode(encode(Ast::DefineSignal { ident, def_type: Box::new(def_type) })) == Some(Ast::DefineSignal { ident, def_type: Box::new(def_type) }),
{
    let a = Ast::DefineSignal { ident, def_type: Box::new(def_type) };
    lemma_keys();
    lemma_shape_kind(a);
    let fs = seq![
        ("ident"@, JsonValue::Text(ident)),
        ("def_type"@, encode(def_type)),
    ];
    assert(encode(a) == JsonValue::Object(fs));
    lemma_field_at(fs, 0, "ident"@);
    lemma_field_at(fs, 1, "def_type"@);
    assert(field_node(fs, "def_type"@) == Some(def_type));
    assert(decode_object(fs) == Some(a));
}

#[verifier::spinoff_prover]
#[verifier::rlimit(30)]
proof fn lemma_round_trip_type(name: Seq<char>, vector: Option<Box<Ast>>)
    requires
        vector matches Some(v) ==> !(*v is Null) && decode(encode(*v)) == Some(*v),
    ensures
        decode(encode(Ast::Type { name, vector })) == Some(Ast::Type { name, vector }),
{
    let a = Ast::Type { name, vector };
    lemma_keys();
    lemma_shape_kind(a);
    let fs = seq![
        ("name"@, JsonValue::Text(name)),
        ("vector"@, encode_opt(vector)),
    ];
    assert(encode(a) == JsonValue::Object(fs));
    lemma_field_at(fs, 0, "name"@);
    lemma_field_at(fs, 1, "vector"@);
    match vector {
        Some(v) => {
            lemma_shape_kind(*v);
            assert(encode_opt(vector) == encode(*v));
        },
        None => {
            assert(encode_opt(vector) == JsonValue::Null);
        },
    }
    assert(field_opt_node(fs, "vector"@) == Some(match vector { Some(v) => Some(*v), None => None }));
    assert(decode_object(fs) == Some(a));
}

#[verifier::spinoff_prover]
#[verifier::rlimit(30)]
proof fn lemma_round_trip_vector(start: Ast, end: Ast)
    requires
        decode(encode(start)) == Some(start),
        decode(encode(end)) == Some(end),
    ensures
        decode(encode(Ast::Vector { start: Box::new(start), end: Box::new(end) })) == Some(Ast::Vector { start: Box::new(start), end: Box::new(end) }),
{
    let a = Ast::Vector { start: Box::new(start), end: Box::new(end) };
    lemma_keys();
    lemma_shape_kind(a);
    let fs = seq![
        ("start"@, encode(start)),
        ("end"@, encode(end)),
    ];
    assert(encode(a) == JsonValue::Object(fs));
    lemma_field_at(fs, 0, "start"@);
    lemma_field_at(fs, 1, "end"@);
    assert(field_node(fs, "start"@) == Some(start));
    assert(field_node(fs, "end"@) == Some(end));
    assert(decode_object(fs) == Some(a));
}

#[verifier::spinoff_prover]
#[verifier::rlimit(30)]
proof fn lemma_round_trip_operation(left: Ast, operator: Seq<char>, right: Ast)
    requires
        decode(encode(left)) == Some(left),
        decode(encode(right)) == Some(right),
    ensures
        decode(encode(Ast::Operation { left: Box::new(left), operator, right: Box::new(right) })) == Some(Ast::Operation { left: Box::new(left), operator, right: Box::new(right) }),
{
    let a = Ast::Operation { left: Box::new(left), operator, right: Box::new(right) };
    lemma_keys();
    lemma_shape_kind(a);
    let fs = seq![
        ("left"@, encode(left)),
        ("operator"@, JsonValue::Text(operator)),
        ("right"@, encode(right)),
    ];
    assert(encode(a) == JsonValue::Object(fs));
    lemma_field_at(fs, 0, "left"@);
    lemma_field_at(fs, 1, "operator"@);
    lemma_field_at(fs, 2, "right"@);
    assert(field_node(fs, "left"@) == Some(left));
    assert(field_node(fs, "right"@) == Some(right));
    assert(decode_object(fs) == Some(a));
}

#[verifier::spinoff_prover]
#[verifier::rlimit(30)]
proof fn lemma_round_trip_architecture(ident: Seq<char>, entity_name: Seq<char>, machines: Seq<Ast>)
    requires
        decode_list(encode_list(machines)) == Some(machines),
    ensures
        decode(encode(Ast::Architecture { ident, entity_name, machines })) == Some(Ast::Architecture { ident, entity_name, machines }),
{
    let a = Ast::Architecture { ident, entity_name, machines };
    lemma_keys();
    lemma_shape_kind(a);
    let fs = seq![
        ("ident"@, JsonValue::Text(ident)),
        ("entity_name"@, JsonValue::Text(entity_name)),
        ("machines"@, JsonValue::Array(encode_list(machines))),
    ];
    assert(encode(a) == JsonValue::Object(fs));
    lemma_field_at(fs, 0, "ident"@);
    lemma_field_at(fs, 1, "entity_name"@);
    lemma_field_at(fs, 2, "machines"@);
    assert(field_list(fs, "machines"@) == Some(machines));
    assert(decode_object(fs) == Some(a));
}

#[verifier::spinoff_prover]
#[verifier::rlimit(30)]
proof fn lemma_round_trip_state_machine(ident: Seq<char>, sensibility: Seq<char>, states: Seq<Ast>)
    requires
        decode_list(encode_list(states)) == Some(states),
    ensures
        decode(encode(Ast::StateMachine { ident, sensibility, states })) == Some(Ast::StateMachine { ident, sensibility, states }),
{
    let a = Ast::StateMachine { ident, sensibility, states };
    lemma_keys();
    lemma_shape_kind(a);
    let fs = seq![
        ("ident"@, JsonValue::Text(ident)),
        ("sensibility"@, JsonValue::Text(sensibility)),
        ("states"@, JsonValue::Array(encode_list(states))),
    ];
    assert(encode(a) == JsonValue::Object(fs));
    lemma_field_at(fs, 0, "ident"@);
    lemma_field_at(fs, 1, "sensibility"@);
    lemma_field_at(fs, 2, "states"@);
    assert(field_list(fs, "states"@) == Some(states));
    assert(decode_object(fs) == Some(a));
}

#[verifier::spinoff_prover]
#[verifier::rlimit(30)]
proof fn lemma_round_trip_state(ident: Seq<char>, transitions: Seq<Ast>)
    requires
        decode_list(encode_list(transitions)) == Some(transitions),
    ensures
        decode(encode(Ast::State { ident, transitions })) == Some(Ast::State { ident, transitions }),
{
    let a = Ast::State { ident, transitions };
    lemma_keys();
    lemma_shape_kind(a);
    let fs = seq![
        ("ident"@, JsonValue::Text(ident)),
        ("transitions"@, JsonValue::Array(encode_list(transitions))),
    ];
    assert(encode(a) == JsonValue::Object(fs));
    lemma_field_at(fs, 0, "ident"@);
    lemma_field_at(fs, 1, "transitions"@);
    assert(field_list(fs, "transitions"@) == Some(transitions));
    assert(decode_object(fs) == Some(a));
}

#[verifier::spinoff_prover]
#[verifier::rlimit(30)]
proof fn lemma_round_trip_transition_simple(to: Seq<char>)
    ensures
        decode(encode(Ast::TransitionSimple { to })) == Some(Ast::TransitionSimple { to }),
{
    let a = Ast::TransitionSimple { to };
    lemma_keys();
    lemma_shape_kind(a);
    let fs = seq![
        ("to"@, JsonValue::Text(to)),
    ];
    assert(encode(a) == JsonValue::Object(fs));
    lemma_field_at(fs, 0, "to"@);

    assert(decode_object(fs) == Some(a));
}

#[verifier::spinoff_prover]
#[verifier::rlimit(30)]
proof fn lemma_round_trip_transition_actived(activator: Ast, to: Seq<char>)
    requires
        decode(encode(activator)) == Some(activator),
    ensures
        decode(encode(Ast::TransitionActived { activator: Box::new(activator), to })) == Some(Ast::TransitionActived { activator: Box::new(activator), to }),
{
    let a = Ast::TransitionActived { activator: Box::new(activator), to };
    lemma_keys();
    lemma_shape_kind(a);
    let fs = seq![
        ("activator"@, encode(activator)),
        ("to"@, JsonValue::Text(to)),
    ];
    assert(encode(a) == JsonValue::Object(fs));
    lemma_field_at(fs, 0, "activator"@);
    lemma_field_at(fs, 1, "to"@);
    assert(field_node(fs, "activator"@) == Some(activator));
    assert(decode_object(fs) == Some(a));
}

#[verifier::spinoff_prover]
#[verifier::rlimit(30)]
proof fn lemma_round_trip_transition_composed(terms: Seq<Ast>)
    requires
        decode_list(encode_list(terms)) == Some(terms),
    ensures
        decode(encode(Ast::TransitionComposed { terms })) == Some(Ast::TransitionComposed { terms }),
{
    let a = Ast::TransitionComposed { terms };
    lemma_keys();
    lemma_shape_kind(a);
    let fs = seq![
        ("terms"@, JsonValue::Array(encode_list(terms))),
    ];
    assert(encode(a) == JsonValue::Object(fs));
    lemma_field_at(fs, 0, "terms"@);
    assert(field_list(fs, "terms"@) == Some(terms));
    assert(decode_object(fs) == Some(a));
}

#[verifier::spinoff_prover]
#[verifier::rlimit(30)]
proof fn lemma_round_trip_transition_last(fallback: Seq<char>)
    ensures
        decode(encode(Ast::TransitionLast { fallback })) == Some(Ast::TransitionLast { fallback }),
{
    let a = Ast::TransitionLast { fallback };
    lemma_keys();
    lemma_shape_kind(a);
    let fs = seq![
        ("fallback"@, JsonValue::Text(fallback)),
    ];
    assert(encode(a) == JsonValue::Object(fs));
    lemma_field_at(fs, 0, "fallback"@);

    assert(decode_object(fs) == Some(a));
}


/// Decoding the encoding of a list gives the list back.
pub proof fn lemma_round_trip_list(s: Seq<Ast>)
    requires
        all_encodable(s),
    ensures
        decode_list(encode_list(s)) == Some(s),
    decreases s,
{
    if s.len() > 0 {
        lemma_round_trip_list(s.drop_last());
        lemma_round_trip(s[s.len() - 1]);
        let e = encode_list(s);
        assert(e.drop_last() == encode_list(s.drop_last()));
        assert(s.drop_last().push(s[s.len() - 1]) =~= s);
    }
}

/// Decoding the encoding of a tree gives the tree back.
pub proof fn lemma_round_trip(a: Ast)
    requires
        encodable(a),
    ensures
        decode(encode(a)) == Some(a),
    decreases a,
{
    match a {
        Ast::Gen { entity, architecture } => {
            lemma_round_trip(*entity);
            lemma_round_trip(*architecture);
            lemma_round_trip_gen(*entity, *architecture);
        },
        Ast::Entity { ident, generics, ports, signals } => {
            if let Some(g) = generics {
                lemma_round_trip_list(g);
            }
            lemma_round_trip_list(ports);
            lemma_round_trip_list(signals);
            lemma_round_trip_entity(ident, generics, ports, signals);
        },
        Ast::DefineGeneric { ident, def_type, value } => {
            lemma_round_trip(*def_type);
            lemma_round_trip_define_generic(ident, *def_type, value);
        },
        Ast::DefinePort { ident, direction, def_type } => {
            lemma_round_trip(*def_type);
            lemma_round_trip_define_port(ident, direction, *def_type);
        },
        Ast::DefineSignal { ident, def_type } => {
            lemma_round_trip(*def_type);
            lemma_round_trip_define_signal(ident, *def_type);
        },
        Ast::Type { name, vector } => {
            if let Some(v) = vector {
                lemma_round_trip(*v);
            }
            lemma_round_trip_type(name, vector);
        },
        Ast::Vector { start, end } => {
            lemma_round_trip(*start);
            lemma_round_trip(*end);
            lemma_round_trip_vector(*start, *end);
        },
        Ast::Operation { left, operator, right } => {
            lemma_round_trip(*left);
            lemma_round_trip(*right);
            lemma_round_trip_operation(*left, operator, *right);
        },
        Ast::Architecture { ident, entity_name, machines } => {
            lemma_round_trip_list(machines);
            lemma_round_trip_architecture(ident, entity_name, machines);
        },
        Ast::StateMachine { ident, sensibility, states } => {
            lemma_round_trip_list(states);
            lemma_round_trip_state_machine(ident, sensibility, states);
        },
        Ast::State { ident, transitions } => {
            lemma_round_trip_list(transitions);
            lemma_round_trip_state(ident, transitions);
        },
        Ast::TransitionSimple { to } => {
            lemma_round_trip_transition_simple(to);
        },
        Ast::TransitionActived { activator, to } => {
            lemma_round_trip(*activator);
            lemma_round_trip_transition_actived(*activator, to);
        },
        Ast::TransitionComposed { terms } => {
            lemma_round_trip_list(terms);
            lemma_round_trip_transition_composed(terms);
        },
        Ast::TransitionLast { fallback } => {
            lemma_round_trip_transition_last(fallback);
        },
        _ => {},
    }
}


proof fn lemma_all_encodable_push(s: Seq<Ast>, a: Ast)
    requires
        all_encodable(s),
        encodable(a),
    ensures
        all_encodable(s.push(a)),
{
    assert(s.push(a).drop_last() =~= s);
}

proof fn lemma_all_encodable_concat(a: Seq<Ast>, b: Seq<Ast>)
    requires
        all_encodable(a),
        all_encodable(b),
    ensures
        all_encodable(a + b),
    decreases b.len(),
{
    if b.len() == 0 {
        assert(a + b =~= a);
    } else {
        lemma_all_encodable_concat(a, b.drop_last());
        assert((a + b).drop_last() =~= a + b.drop_last());
        assert((a + b)[(a + b).len() - 1] == b[b.len() - 1]);
    }
}

proof fn lemma_build_list_encodable(s: Seq<ParseNode>)
    ensures
        build_list(s) matches Ok(l) ==> all_encodable(l),
    decreases s,
{
    if s.len() > 0 {
        lemma_build_list_encodable(s.drop_last());
        lemma_build_encodable(s[s.len() - 1]);
        if let Ok(l) = build_list(s.drop_last()) {
            if let Ok(a) = build(s[s.len() - 1]) {
                lemma_all_encodable_push(l, a);
            }
        }
    }
}

proof fn lemma_assemble_encodable(items: Seq<ParseNode>)
    ensures
        assemble(items) matches Ok(parts) ==> all_encodable(parts.0) && all_encodable(parts.1)
            && all_encodable(parts.2),
    decreases items,
{
    if items.len() > 0 {
        let it = items[items.len() - 1];
        lemma_assemble_encodable(items.drop_last());
        lemma_build_list_encodable(it.children@);
        lemma_build_encodable(it);
        if let Ok(parts) = assemble(items.drop_last()) {
            if let Ok(l) = build_list(it.children@) {
                lemma_all_encodable_concat(parts.0, l);
                lemma_all_encodable_concat(parts.1, l);
            }
            if let Ok(a) = build(it) {
                lemma_all_encodable_push(parts.2, a);
            }
        }
    }
}

/// Every tree that the builder returns is one that the JSON encoding keeps
/// apart: a type's bound is always a vector node.
pub proof fn lemma_build_encodable(t: ParseNode)
    ensures
        build(t) matches Ok(a) ==> encodable(a),
    decreases t,
{
    let c = t.children@;
    if c.len() >= 1 {
        lemma_build_encodable(c[0]);
        let g = c[0].children@;
        if g.len() >= 1 {
            lemma_build_encodable(g[0]);
        }
        lemma_build_list_encodable(c);
        lemma_build_list_encodable(c.subrange(1, c.len() as int));
    }
    if c.len() >= 2 {
        lemma_build_encodable(c[1]);
        lemma_assemble_encodable(c[1].children@);
        lemma_build_list_encodable(c.subrange(2, c.len() as int));
        if c[1].rule == Rule::Vector {
            assert(build(c[1]) is Err || build(c[1]) matches Ok(Ast::Vector { .. }));
        }
    }
    if c.len() >= 3 {
        lemma_build_encodable(c[2]);
    }
    if t.rule == Rule::Vector && c.len() >= 2 {
        assert(encodable(classify(c[0].text@)));
        assert(encodable(classify(c[1].text@)));
    }
}

} // verus!
