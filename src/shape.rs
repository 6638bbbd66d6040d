use vstd::prelude::*;

use crate::ast::Ast;
use crate::builder::{assemble, build, build_list, classify, is_direction, BuildFault};
use crate::tree::{ParseNode, Rule};

verus! {

/// Whether a node has the children that the builder expects of its rule.
pub open spec fn named(t: ParseNode, i: int) -> bool {
    t.children@[i].rule == Rule::Identifier
}

/// Rules whose nodes stand for an expression.
pub open spec fn is_expr(r: Rule) -> bool {
    r == Rule::MaxTerm || r == Rule::MinTerm || r == Rule::MinminTerm || r == Rule::Term || r
        == Rule::Identifier || r == Rule::IntegerValue || r == Rule::CharValue
}

pub open spec fn expr_at(t: ParseNode, i: int) -> bool {
    is_expr(t.children@[i].rule)
}

/// Whether a node has the children that the builder expects of its rule,
/// names in the places where the builder reads a name, and no empty name.
pub open spec fn arity_ok(t: ParseNode) -> bool {
    let n = t.children@.len();
    match t.rule {
        Rule::Identifier | Rule::TypeDefGeneric | Rule::Direction => t.text@.len() > 0,
        Rule::Vhdl | Rule::Guard => n >= 1,
        Rule::State | Rule::Fallback => n >= 1 && named(t, 0),
        Rule::TypeDef => n >= 1 && named(t, 0) && (n >= 2 ==> t.children@[1].rule == Rule::Vector),
        Rule::Entity | Rule::DefSignal => n >= 2 && named(t, 0),
        Rule::DefGeneric => n >= 2 && named(t, 0) && t.children@[1].rule == Rule::TypeDefGeneric,
        Rule::Architecture | Rule::StateMachine => n >= 2 && named(t, 0) && named(t, 1),
        Rule::Vector => n >= 2 && expr_at(t, 0) && expr_at(t, 1),
        Rule::DefPort => n >= 3 && named(t, 0) && t.children@[1].rule == Rule::Direction,
        Rule::MaxTerm | Rule::MinTerm | Rule::MinminTerm | Rule::Term => (n == 1 && expr_at(t, 0))
            || (n >= 3 && expr_at(t, 0) && expr_at(t, 2)),
        Rule::Transition => n >= 1 && (t.children@[0].rule == Rule::Guard ==> n >= 2 && named(t, 1))
            && (t.children@[0].rule != Rule::Guard && n == 1 ==> named(t, 0)),
        _ => true,
    }
}

/// Whether every node of a tree has the children its rule expects.
pub open spec fn shaped(t: ParseNode) -> bool
    decreases t,
{
    arity_ok(t) && all_shaped(t.children@)
}

pub open spec fn all_shaped(s: Seq<ParseNode>) -> bool
    decreases s,
{
    if s.len() == 0 {
        true
    } else {
        all_shaped(s.drop_last()) && shaped(s[s.len() - 1])
    }
}

pub proof fn lemma_all_shaped(s: Seq<ParseNode>)
    ensures
        all_shaped(s) <==> forall|i: int| 0 <= i < s.len() ==> shaped(#[trigger] s[i]),
    decreases s.len(),
{
    if s.len() > 0 {
        let p = s.drop_last();
        lemma_all_shaped(p);
        assert forall|i: int| 0 <= i < p.len() implies #[trigger] p[i] == s[i] by {}
        if forall|i: int| 0 <= i < s.len() ==> shaped(#[trigger] s[i]) {
            assert forall|i: int| 0 <= i < p.len() implies shaped(#[trigger] p[i]) by {
                assert(p[i] == s[i]);
            }
        }
        if all_shaped(s) {
            assert forall|i: int| 0 <= i < s.len() implies shaped(#[trigger] s[i]) by {
                if i < p.len() {
                    assert(p[i] == s[i]);
                }
            }
        }
    }
}

pub open spec fn not_missing<T>(r: Result<T, BuildFault>) -> bool {
    !(r matches Err(BuildFault::MissingChild { .. }))
}

proof fn lemma_list_not_missing(s: Seq<ParseNode>)
    requires
        all_shaped(s),
    ensures
        not_missing(build_list(s)),
    decreases s,
{
    if s.len() > 0 {
        lemma_list_not_missing(s.drop_last());
        lemma_not_missing(s[s.len() - 1]);
    }
}

proof fn lemma_assemble_not_missing(items: Seq<ParseNode>)
    requires
        all_shaped(items),
    ensures
        not_missing(assemble(items)),
    decreases items,
{
    if items.len() > 0 {
        lemma_assemble_not_missing(items.drop_last());
        let it = items[items.len() - 1];
        assert(shaped(it));
        lemma_list_not_missing(it.children@);
        lemma_not_missing(it);
    }
}

proof fn lemma_sub_shaped(s: Seq<ParseNode>, k: int)
    requires
        all_shaped(s),
        0 <= k <= s.len(),
    ensures
        all_shaped(s.subrange(k, s.len() as int)),
{
    lemma_all_shaped(s);
    let t = s.subrange(k, s.len() as int);
    lemma_all_shaped(t);
    assert forall|i: int| 0 <= i < t.len() implies shaped(#[trigger] t[i]) by {
        assert(t[i] == s[i + k]);
    }
}

/// The builder never reports a missing child on a tree whose nodes all
/// have the children their rules expect.
pub proof fn lemma_not_missing(t: ParseNode)
    requires
        shaped(t),
    ensures
        not_missing(build(t)),
    decreases t,
{
    let c = t.children@;
    lemma_all_shaped(c);
    if c.len() >= 1 {
        lemma_not_missing(c[0]);
        let g = c[0].children@;
        lemma_all_shaped(g);
        if g.len() >= 1 {
            lemma_not_missing(g[0]);
        }
        lemma_list_not_missing(c);
        lemma_sub_shaped(c, 1);
        lemma_list_not_missing(c.subrange(1, c.len() as int));
    }
    if c.len() >= 2 {
        lemma_not_missing(c[1]);
        lemma_all_shaped(c[1].children@);
        lemma_assemble_not_missing(c[1].children@);
        lemma_sub_shaped(c, 2);
        lemma_list_not_missing(c.subrange(2, c.len() as int));
    }
    if c.len() >= 3 {
        lemma_not_missing(c[2]);
    }
}


/// The data-model rules on names: identifiers, type names and transition
/// targets are never empty, and a port's direction is one of the known ones.
pub open spec fn well_named(a: Ast) -> bool
    decreases a,
{
    match a {
        Ast::Gen { entity, architecture } => well_named(*entity) && well_named(*architecture),
        Ast::Entity { ident, generics, ports, signals } => {
            &&& ident.len() > 0
            &&& match generics {
                Some(g) => all_named(g),
                None => true,
            }
            &&& all_named(ports)
            &&& all_named(signals)
        },
        Ast::DefineGeneric { ident, def_type, .. } => ident.len() > 0 && well_named(*def_type),
        Ast::DefinePort { ident, direction, def_type } => ident.len() > 0 && is_direction(direction)
            && well_named(*def_type),
        Ast::DefineSignal { ident, def_type } => ident.len() > 0 && well_named(*def_type),
        Ast::Type { name, vector } => name.len() > 0 && match vector {
            Some(v) => well_named(*v),
            None => true,
        },
        Ast::Vector { start, end } => is_value(*start) && is_value(*end) && well_named(*start)
            && well_named(*end),
        Ast::Operation { left, right, .. } => well_named(*left) && well_named(*right),
        Ast::Architecture { ident, entity_name, machines } => ident.len() > 0 && entity_name.len()
            > 0 && all_named(machines),
        Ast::StateMachine { ident, sensibility, states } => ident.len() > 0 && sensibility.len()
            > 0 && all_named(states),
        Ast::State { ident, transitions } => ident.len() > 0 && all_named(transitions),
        Ast::TransitionSimple { to } => to.len() > 0,
        Ast::TransitionActived { activator, to } => to.len() > 0 && well_named(*activator),
        Ast::TransitionComposed { terms } => all_named(terms),
        Ast::TransitionLast { fallback } => fallback.len() > 0,
        _ => true,
    }
}

/// A number, a name or an operation: what an expression builds to.
pub open spec fn is_value(a: Ast) -> bool {
    a is Int || a is Str || a is Operation
}

proof fn lemma_expr_value(t: ParseNode)
    requires
        shaped(t),
        is_expr(t.rule),
    ensures
        build(t) matches Ok(a) ==> is_value(a),
    decreases t,
{
    let c = t.children@;
    lemma_all_shaped(c);
    if c.len() >= 1 && is_expr(c[0].rule) {
        lemma_expr_value(c[0]);
    }
}

pub open spec fn all_named(s: Seq<Ast>) -> bool
    decreases s,
{
    if s.len() == 0 {
        true
    } else {
        all_named(s.drop_last()) && well_named(s[s.len() - 1])
    }
}

proof fn lemma_all_named_push(s: Seq<Ast>, a: Ast)
    requires
        all_named(s),
        well_named(a),
    ensures
        all_named(s.push(a)),
{
    assert(s.push(a).drop_last() =~= s);
}

proof fn lemma_all_named_concat(a: Seq<Ast>, b: Seq<Ast>)
    requires
        all_named(a),
        all_named(b),
    ensures
        all_named(a + b),
    decreases b.len(),
{
    if b.len() == 0 {
        assert(a + b =~= a);
    } else {
        lemma_all_named_concat(a, b.drop_last());
        assert((a + b).drop_last() =~= a + b.drop_last());
        assert((a + b)[(a + b).len() - 1] == b[b.len() - 1]);
    }
}

proof fn lemma_build_list_named(s: Seq<ParseNode>)
    requires
        all_shaped(s),
    ensures
        build_list(s) matches Ok(l) ==> all_named(l),
    decreases s,
{
    if s.len() > 0 {
        lemma_build_list_named(s.drop_last());
        lemma_build_named(s[s.len() - 1]);
        if let Ok(l) = build_list(s.drop_last()) {
            if let Ok(a) = build(s[s.len() - 1]) {
                lemma_all_named_push(l, a);
            }
        }
    }
}

proof fn lemma_assemble_named(items: Seq<ParseNode>)
    requires
        all_shaped(items),
    ensures
        assemble(items) matches Ok(parts) ==> all_named(parts.0) && all_named(parts.1)
            && all_named(parts.2),
    decreases items,
{
    if items.len() > 0 {
        let it = items[items.len() - 1];
        assert(shaped(it));
        lemma_assemble_named(items.drop_last());
        lemma_build_list_named(it.children@);
        lemma_build_named(it);
        if let Ok(parts) = assemble(items.drop_last()) {
            if let Ok(l) = build_list(it.children@) {
                lemma_all_named_concat(parts.0, l);
                lemma_all_named_concat(parts.1, l);
            }
            if let Ok(a) = build(it) {
                lemma_all_named_push(parts.2, a);
            }
        }
    }
}

/// A tree whose nodes all have the shape their rules expect builds, if at
/// all, to an AST that keeps the data model's rules on names.
pub proof fn lemma_build_named(t: ParseNode)
    requires
        shaped(t),
    ensures
        build(t) matches Ok(a) ==> well_named(a),
    decreases t,
{
    let c = t.children@;
    lemma_all_shaped(c);
    if c.len() >= 1 {
        lemma_build_named(c[0]);
        let g = c[0].children@;
        lemma_all_shaped(g);
        if g.len() >= 1 {
            lemma_build_named(g[0]);
        }
        lemma_build_list_named(c);
        lemma_sub_shaped(c, 1);
        lemma_build_list_named(c.subrange(1, c.len() as int));
    }
    if c.len() >= 2 {
        lemma_build_named(c[1]);
        lemma_all_shaped(c[1].children@);
        lemma_assemble_named(c[1].children@);
        lemma_sub_shaped(c, 2);
        lemma_build_list_named(c.subrange(2, c.len() as int));
        assert(well_named(classify(c[0].text@)));
        assert(well_named(classify(c[1].text@)));
        assert(is_value(classify(c[0].text@)));
        assert(is_value(classify(c[1].text@)));
        if t.rule == Rule::Vector {
            lemma_expr_value(c[0]);
            lemma_expr_value(c[1]);
        }
    }
    if c.len() >= 3 {
        lemma_build_named(c[2]);
    }
}

} // verus!
