use vstd::prelude::*;

use crate::ast::{Ast, AstNode, lemma_view_nodes_push, view_nodes};
use crate::builder::same_text;
use crate::json::{
    decode, decode_list, decode_object, field_list, field_node, field_opt_list, field_opt_node,
    field_opt_text, field_text, find, key_set, kind_of_shape, lemma_find, shape, view_items,
    view_members, Json, JsonValue, Kind,
};

verus! {

pub open spec fn node_view(r: Option<AstNode>) -> Option<Ast> {
    match r {
        Some(a) => Some(a@),
        None => None,
    }
}

pub open spec fn nodes_view(r: Option<Vec<AstNode>>) -> Option<Seq<Ast>> {
    match r {
        Some(v) => Some(view_nodes(v@)),
        None => None,
    }
}

proof fn lemma_view_members(s: Seq<(String, Json)>)
    ensures
        view_members(s).len() == s.len(),
        forall|i: int|
            0 <= i < s.len() ==> #[trigger] view_members(s)[i] == (s[i].0@, s[i].1@),
    decreases s.len(),
{
    if s.len() > 0 {
        lemma_view_members(s.drop_last());
        assert(view_members(s) == view_members(s.drop_last()).push(
            (s.last().0@, s.last().1@),
        ));
        assert forall|i: int| 0 <= i < s.len() implies #[trigger] view_members(s)[i] == (
        s[i].0@, s[i].1@) by {
            if i < s.len() - 1 {
                assert(s.drop_last()[i] == s[i]);
            }
        }
    }
}

proof fn lemma_view_items(s: Seq<Json>)
    ensures
        view_items(s).len() == s.len(),
        forall|i: int| 0 <= i < s.len() ==> #[trigger] view_items(s)[i] == s[i]@,
    decreases s.len(),
{
    if s.len() > 0 {
        lemma_view_items(s.drop_last());
        assert(view_items(s) == view_items(s.drop_last()).push(s.last()@));
        assert forall|i: int| 0 <= i < s.len() implies #[trigger] view_items(s)[i] == s[i]@ by {
            if i < s.len() - 1 {
                assert(s.drop_last()[i] == s[i]);
            }
        }
    }
}

/// Index of the first member with key `k`.
fn find_key(fs: &Vec<(String, Json)>, k: &str) -> (r: Option<usize>)
    ensures
        match r {
            Some(i) => i < fs@.len() && find(view_members(fs@), k@) == i,
            None => find(view_members(fs@), k@) == -1,
        },
{
    let ghost m = view_members(fs@);
    proof {
        lemma_view_members(fs@);
        lemma_find(m, k@);
    }
    let mut i: usize = 0;
    while i < fs.len()
        invariant
            i <= fs@.len(),
            m == view_members(fs@),
            m.len() == fs@.len(),
            forall|j: int| 0 <= j < fs@.len() ==> #[trigger] m[j] == (fs@[j].0@, fs@[j].1@),
            forall|j: int| 0 <= j < i ==> (#[trigger] m[j]).0 != k@,
            find(m, k@) == -1 ==> forall|j: int| 0 <= j < m.len() ==> (#[trigger] m[j]).0 != k@,
            find(m, k@) != -1 ==> 0 <= find(m, k@) < m.len() && m[find(m, k@)].0 == k@,
            forall|j: int| 0 <= j < find(m, k@) ==> (#[trigger] m[j]).0 != k@,
        decreases fs@.len() - i,
    {
        if same_text(fs[i].0.as_str(), k) {
            proof {
                assert(m[i as int].0 == k@);
            }
            return Some(i);
        }
        proof {
            assert(m[i as int].0 != k@);
        }
        i = i + 1;
    }
    None
}

fn has(fs: &Vec<(String, Json)>, k: &str) -> (r: bool)
    ensures
        r == key_set(view_members(fs@)).contains(k@),
{
    find_key(fs, k).is_some()
}

/// The kind that an object's shape stands for.
fn member_kind(fs: &Vec<(String, Json)>) -> (r: Option<Kind>)
    ensures
        r == kind_of_shape(shape(JsonValue::Object(view_members(fs@)))),
{
    proof {
        lemma_view_members(fs@);
    }
    let (k, n): (Kind, usize) = if has(fs, "architecture") {
        (Kind::Gen, 2)
    } else if has(fs, "generics") {
        (Kind::Entity, 4)
    } else if has(fs, "value") {
        (Kind::DefineGeneric, 3)
    } else if has(fs, "direction") {
        (Kind::DefinePort, 3)
    } else if has(fs, "def_type") {
        (Kind::DefineSignal, 2)
    } else if has(fs, "name") {
        (Kind::Type, 2)
    } else if has(fs, "start") {
        (Kind::Vector, 2)
    } else if has(fs, "operator") {
        (Kind::Operation, 3)
    } else if has(fs, "machines") {
        (Kind::Architecture, 3)
    } else if has(fs, "sensibility") {
        (Kind::StateMachine, 3)
    } else if has(fs, "transitions") {
        (Kind::State, 2)
    } else if has(fs, "activator") {
        (Kind::TransitionActived, 2)
    } else if has(fs, "to") {
        (Kind::TransitionSimple, 1)
    } else if has(fs, "terms") {
        (Kind::TransitionComposed, 1)
    } else {
        (Kind::TransitionLast, 1)
    };
    if fs.len() == n {
        Some(k)
    } else {
        None
    }
}


pub open spec fn text_view(r: Option<String>) -> Option<Seq<char>> {
    match r {
        Some(t) => Some(t@),
        None => None,
    }
}

fn text_field(fs: &Vec<(String, Json)>, k: &str) -> (r: Option<String>)
    ensures
        text_view(r) == field_text(view_members(fs@), k@),
{
    proof {
        lemma_view_members(fs@);
    }
    match find_key(fs, k) {
        Some(i) => match &fs[i].1 {
            Json::Text(t) => Some(t.clone()),
            _ => None,
        },
        None => None,
    }
}

fn opt_text_field(fs: &Vec<(String, Json)>, k: &str) -> (r: Option<Option<String>>)
    ensures
        match r {
            Some(o) => field_opt_text(view_members(fs@), k@) == Some(text_view(o)),
            None => field_opt_text(view_members(fs@), k@) is None,
        },
{
    proof {
        lemma_view_members(fs@);
    }
    match find_key(fs, k) {
        Some(i) => match &fs[i].1 {
            Json::Null => Some(None),
            Json::Text(t) => Some(Some(t.clone())),
            _ => None,
        },
        None => None,
    }
}

fn node_field(fs: &Vec<(String, Json)>, k: &str) -> (r: Option<AstNode>)
    ensures
        node_view(r) == field_node(view_members(fs@), k@),
    decreases fs, 1nat,
{
    proof {
        lemma_view_members(fs@);
    }
    match find_key(fs, k) {
        Some(i) => {
            proof {
                assert(decreases_to!(fs => fs@[i as int].1));
            }
            decode_json(&fs[i].1)
        },
        None => None,
    }
}

fn opt_node_field(fs: &Vec<(String, Json)>, k: &str) -> (r: Option<Option<AstNode>>)
    ensures
        match r {
            Some(o) => field_opt_node(view_members(fs@), k@) == Some(node_view(o)),
            None => field_opt_node(view_members(fs@), k@) is None,
        },
    decreases fs, 1nat,
{
    proof {
        lemma_view_members(fs@);
    }
    match find_key(fs, k) {
        Some(i) => {
            if let Json::Null = &fs[i].1 {
                return Some(None);
            }
            proof {
                assert(decreases_to!(fs => fs@[i as int].1));
            }
            match decode_json(&fs[i].1) {
                Some(a) => Some(Some(a)),
                None => None,
            }
        },
        None => None,
    }
}

fn list_field(fs: &Vec<(String, Json)>, k: &str) -> (r: Option<Vec<AstNode>>)
    ensures
        nodes_view(r) == field_list(view_members(fs@), k@),
    decreases fs, 1nat,
{
    proof {
        lemma_view_members(fs@);
    }
    match find_key(fs, k) {
        Some(i) => match &fs[i].1 {
            Json::Array(items) => {
                proof {
                    assert(decreases_to!(fs => fs@[i as int].1));
                }
                decode_items(items)
            },
            _ => None,
        },
        None => None,
    }
}

fn opt_list_field(fs: &Vec<(String, Json)>, k: &str) -> (r: Option<Option<Vec<AstNode>>>)
    ensures
        match r {
            Some(o) => field_opt_list(view_members(fs@), k@) == Some(nodes_view(o)),
            None => field_opt_list(view_members(fs@), k@) is None,
        },
    decreases fs, 1nat,
{
    proof {
        lemma_view_members(fs@);
    }
    match find_key(fs, k) {
        Some(i) => match &fs[i].1 {
            Json::Null => Some(None),
            Json::Array(items) => {
                proof {
                    assert(decreases_to!(fs => fs@[i as int].1));
                }
                match decode_items(items) {
                    Some(l) => Some(Some(l)),
                    None => None,
                }
            },
            _ => None,
        },
        None => None,
    }
}

proof fn lemma_decode_list_prefix_none(s: Seq<JsonValue>, i: int)
    requires
        0 <= i <= s.len(),
        decode_list(s.subrange(0, i)) is None,
    ensures
        decode_list(s) is None,
    decreases s.len(),
{
    if i == s.len() {
        assert(s.subrange(0, i) =~= s);
    } else {
        assert(s.drop_last().subrange(0, i) =~= s.subrange(0, i));
        lemma_decode_list_prefix_none(s.drop_last(), i);
    }
}

/// Decodes the items of a JSON array, left to right.
fn decode_items(items: &Vec<Json>) -> (r: Option<Vec<AstNode>>)
    ensures
        nodes_view(r) == decode_list(view_items(items@)),
    decreases items, 3nat,
{
    let ghost w = view_items(items@);
    proof {
        lemma_view_items(items@);
        assert(w.subrange(0, 0) =~= Seq::<JsonValue>::empty());
    }
    let mut out: Vec<AstNode> = Vec::new();
    let mut i: usize = 0;
    while i < items.len()
        invariant
            i <= items@.len(),
            w == view_items(items@),
            w.len() == items@.len(),
            forall|j: int| 0 <= j < items@.len() ==> #[trigger] w[j] == items@[j]@,
            decode_list(w.subrange(0, i as int)) == Some(view_nodes(out@)),
        decreases items@.len() - i,
    {
        proof {
            assert(decreases_to!(items => items@[i as int]));
            assert(w.subrange(0, i + 1).drop_last() =~= w.subrange(0, i as int));
            assert(w.subrange(0, i + 1)[i as int] == w[i as int]);
        }
        match decode_json(&items[i]) {
            None => {
                proof {
                    lemma_decode_list_prefix_none(w, i + 1);
                }
                return None;
            },
            Some(a) => {
                proof {
                    lemma_view_nodes_push(out@, a);
                }
                out.push(a);
            },
        }
        i = i + 1;
    }
    proof {
        assert(w.subrange(0, i as int) =~= w);
    }
    Some(out)
}

/// Reads a tree back from its JSON value; `None` where the value has no
/// node's shape.
pub fn decode_json(j: &Json) -> (r: Option<AstNode>)
    ensures
        node_view(r) == decode(j@),
    decreases j, 3nat,
{
    match j {
        Json::Null => Some(AstNode::Null),
        Json::Number(n) => Some(AstNode::Int(*n)),
        Json::Text(t) => Some(AstNode::Str(t.clone())),
        Json::Array(_) => None,
        Json::Object(fs) => decode_members(fs),
    }
}

fn decode_members(fs: &Vec<(String, Json)>) -> (r: Option<AstNode>)
    ensures
        node_view(r) == decode_object(view_members(fs@)),
    decreases fs, 2nat,
{
    let kind = match member_kind(fs) {
        Some(k) => k,
        None => return None,
    };
    match kind {
        Kind::Gen => {
            let e = match node_field(fs, "entity") { Some(x) => x, None => return None };
            let a = match node_field(fs, "architecture") { Some(x) => x, None => return None };
            Some(AstNode::Gen { entity: Box::new(e), architecture: Box::new(a) })
        },
        Kind::Entity => {
            let i = match text_field(fs, "ident") { Some(x) => x, None => return None };
            let g = match opt_list_field(fs, "generics") { Some(x) => x, None => return None };
            let p = match list_field(fs, "ports") { Some(x) => x, None => return None };
            let s = match list_field(fs, "signals") { Some(x) => x, None => return None };
            Some(AstNode::Entity { ident: i, generics: g, ports: p, signals: s })
        },
        Kind::DefineGeneric => {
            let i = match text_field(fs, "ident") { Some(x) => x, None => return None };
            let t = match node_field(fs, "def_type") { Some(x) => x, None => return None };
            let v = match opt_text_field(fs, "value") { Some(x) => x, None => return None };
            Some(AstNode::DefineGeneric { ident: i, def_type: Box::new(t), value: v })
        },
        Kind::DefinePort => {
            let i = match text_field(fs, "ident") { Some(x) => x, None => return None };
            let d = match text_field(fs, "direction") { Some(x) => x, None => return None };
            let t = match node_field(fs, "def_type") { Some(x) => x, None => return None };
            Some(AstNode::DefinePort { ident: i, direction: d, def_type: Box::new(t) })
        },
        Kind::DefineSignal => {
            let i = match text_field(fs, "ident") { Some(x) => x, None => return None };
            let t = match node_field(fs, "def_type") { Some(x) => x, None => return None };
            Some(AstNode::DefineSignal { ident: i, def_type: Box::new(t) })
        },
        Kind::Type => {
            let n = match text_field(fs, "name") { Some(x) => x, None => return None };
            let v = match opt_node_field(fs, "vector") { Some(x) => x, None => return None };
            let vector = match v {
                Some(x) => Some(Box::new(x)),
                None => None,
            };
            Some(AstNode::Type { name: n, vector })
        },
        Kind::Vector => {
            let s = match node_field(fs, "start") { Some(x) => x, None => return None };
            let e = match node_field(fs, "end") { Some(x) => x, None => return None };
            Some(AstNode::Vector { start: Box::new(s), end: Box::new(e) })
        },
        Kind::Operation => {
            let l = match node_field(fs, "left") { Some(x) => x, None => return None };
            let o = match text_field(fs, "operator") { Some(x) => x, None => return None };
            let r = match node_field(fs, "right") { Some(x) => x, None => return None };
            Some(AstNode::Operation { left: Box::new(l), operator: o, right: Box::new(r) })
        },
        Kind::Architecture => {
            let i = match text_field(fs, "ident") { Some(x) => x, None => return None };
            let e = match text_field(fs, "entity_name") { Some(x) => x, None => return None };
            let m = match list_field(fs, "machines") { Some(x) => x, None => return None };
            Some(AstNode::Architecture { ident: i, entity_name: e, machines: m })
        },
        Kind::StateMachine => {
            let i = match text_field(fs, "ident") { Some(x) => x, None => return None };
            let s = match text_field(fs, "sensibility") { Some(x) => x, None => return None };
            let st = match list_field(fs, "states") { Some(x) => x, None => return None };
            Some(AstNode::StateMachine { ident: i, sensibility: s, states: st })
        },
        Kind::State => {
            let i = match text_field(fs, "ident") { Some(x) => x, None => return None };
            let t = match list_field(fs, "transitions") { Some(x) => x, None => return None };
            Some(AstNode::State { ident: i, transitions: t })
        },
        Kind::TransitionSimple => {
            let t = match text_field(fs, "to") { Some(x) => x, None => return None };
            Some(AstNode::TransitionSimple { to: t })
        },
        Kind::TransitionActived => {
            let a = match node_field(fs, "activator") { Some(x) => x, None => return None };
            let t = match text_field(fs, "to") { Some(x) => x, None => return None };
            Some(AstNode::TransitionActived { activator: Box::new(a), to: t })
        },
        Kind::TransitionComposed => {
            let t = match list_field(fs, "terms") { Some(x) => x, None => return None };
            Some(AstNode::TransitionComposed { terms: t })
        },
        Kind::TransitionLast => {
            let f = match text_field(fs, "fallback") { Some(x) => x, None => return None };
            Some(AstNode::TransitionLast { fallback: f })
        },
        _ => None,
    }
}

} // verus!
