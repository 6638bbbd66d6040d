use vstd::prelude::*;

use crate::ast::{
    Ast, AstNode, count_fallbacks, fallback_last, lemma_view_nodes, lemma_view_nodes_push, view_nodes,
};
use crate::number::{is_unsigned, digits_value, parse_u32};
use crate::tree::{
    ParseNode, Rule, Tree, lemma_view_trees, lemma_view_trees_subrange, view_trees,
};

verus! {

/// Why a concrete parse tree could not be turned into an AST.
#[derive(Debug)]
pub enum BuildError {
    /// A node of rule `rule` lacks the child of rule `expected` that the
    /// grammar guarantees.
    MissingChild { rule: Rule, expected: Rule },
    /// A port direction outside `in`, `out`, `inout` and `buffer`.
    UnknownDirection { text: String },
    /// An integer literal, starting at character `position`, that does not
    /// fit in 32 unsigned bits.
    MalformedNumber { text: String, position: usize },
    /// A state whose fallback transition is not its last one.
    MisplacedFallback { state: String },
    /// A composite transition, starting at character `position`, that holds
    /// a fallback transition.
    NestedFallback { position: usize },
}

pub enum BuildFault {
    MissingChild { rule: Rule, expected: Rule },
    UnknownDirection { text: Seq<char> },
    MalformedNumber { text: Seq<char>, position: usize },
    MisplacedFallback { state: Seq<char> },
    NestedFallback { position: usize },
}

impl View for BuildError {
    type V = BuildFault;

    open spec fn view(&self) -> BuildFault {
        match self {
            BuildError::MissingChild { rule, expected } => BuildFault::MissingChild {
                rule: *rule,
                expected: *expected,
            },
            BuildError::UnknownDirection { text } => BuildFault::UnknownDirection { text: text@ },
            BuildError::MalformedNumber { text, position } => BuildFault::MalformedNumber {
                text: text@,
                position: *position,
            },
            BuildError::NestedFallback { position } => BuildFault::NestedFallback {
                position: *position,
            },
            BuildError::MisplacedFallback { state } => BuildFault::MisplacedFallback {
                state: state@,
            },
        }
    }
}

pub open spec fn missing(rule: Rule, expected: Rule) -> Result<Ast, BuildFault> {
    Err(BuildFault::MissingChild { rule, expected })
}

pub open spec fn is_direction(s: Seq<char>) -> bool {
    s == "in"@ || s == "out"@ || s == "inout"@ || s == "buffer"@
}

/// A vector bound given as a single word is classified by its text alone:
/// a number if it reads as an unsigned integer, a symbol otherwise.
pub open spec fn classify(s: Seq<char>) -> Ast {
    if is_unsigned(s) {
        Ast::Int(digits_value(s) as u32)
    } else {
        Ast::Str(s)
    }
}

pub open spec fn is_word(t: ParseNode) -> bool {
    is_word_rule(t.rule)
}

/// Whether a list of transitions holds no fallback transition.
pub open spec fn no_fallback(ts: Seq<Ast>) -> bool {
    forall|i: int| 0 <= i < ts.len() ==> !(#[trigger] ts[i] is TransitionLast)
}

pub open spec fn is_word_rule(r: Rule) -> bool {
    r == Rule::Identifier || r == Rule::IntegerValue
}

pub open spec fn is_term(r: Rule) -> bool {
    r == Rule::MaxTerm || r == Rule::MinTerm || r == Rule::MinminTerm || r == Rule::Term
}

/// The AST that a concrete parse tree stands for.
pub open spec fn build(t: ParseNode) -> Result<Ast, BuildFault>
    decreases t,
{
    let c = t.children@;
    match t.rule {
        Rule::Vhdl => {
            if c.len() == 0 {
                missing(Rule::Vhdl, Rule::Entity)
            } else {
                match build(c[0]) {
                    Err(e) => Err(e),
                    Ok(entity) => {
                        if c.len() == 1 {
                            Ok(entity)
                        } else {
                            match build(c[1]) {
                                Err(e) => Err(e),
                                Ok(arch) => Ok(
                                    Ast::Gen { entity: Box::new(entity), architecture: Box::new(arch) },
                                ),
                            }
                        }
                    },
                }
            }
        },
        Rule::Entity => {
            if c.len() == 0 {
                missing(Rule::Entity, Rule::Identifier)
            } else if c.len() == 1 {
                missing(Rule::Entity, Rule::EntityBlock)
            } else {
                match assemble(c[1].children@) {
                    Err(e) => Err(e),
                    Ok(parts) => Ok(
                        Ast::Entity {
                            ident: c[0].text@,
                            generics: if parts.0.len() == 0 {
                                None
                            } else {
                                Some(parts.0)
                            },
                            ports: parts.1,
                            signals: parts.2,
                        },
                    ),
                }
            }
        },
        Rule::DefSignal => {
            if c.len() == 0 {
                missing(Rule::DefSignal, Rule::Identifier)
            } else if c.len() == 1 {
                missing(Rule::DefSignal, Rule::TypeDef)
            } else {
                match build(c[1]) {
                    Err(e) => Err(e),
                    Ok(ty) => Ok(Ast::DefineSignal { ident: c[0].text@, def_type: Box::new(ty) }),
                }
            }
        },
        Rule::TypeDefGeneric => Ok(Ast::Type { name: t.text@, vector: None }),
        Rule::TypeDef => {
            if c.len() == 0 {
                missing(Rule::TypeDef, Rule::Identifier)
            } else if c.len() == 1 {
                Ok(Ast::Type { name: c[0].text@, vector: None })
            } else if c[1].rule != Rule::Vector {
                missing(Rule::TypeDef, Rule::Vector)
            } else {
                match build(c[1]) {
                    Err(e) => Err(e),
                    Ok(v) => Ok(Ast::Type { name: c[0].text@, vector: Some(Box::new(v)) }),
                }
            }
        },
        Rule::DefGeneric => {
            if c.len() == 0 {
                missing(Rule::DefGeneric, Rule::Identifier)
            } else if c.len() == 1 {
                missing(Rule::DefGeneric, Rule::TypeDefGeneric)
            } else {
                match build(c[1]) {
                    Err(e) => Err(e),
                    Ok(ty) => Ok(
                        Ast::DefineGeneric {
                            ident: c[0].text@,
                            def_type: Box::new(ty),
                            value: if c.len() == 2 {
                                None
                            } else {
                                Some(c[2].text@)
                            },
                        },
                    ),
                }
            }
        },
        Rule::DefPort => {
            if c.len() == 0 {
                missing(Rule::DefPort, Rule::Identifier)
            } else if c.len() == 1 {
                missing(Rule::DefPort, Rule::Direction)
            } else if c.len() == 2 {
                missing(Rule::DefPort, Rule::TypeDef)
            } else if !is_direction(c[1].text@) {
                Err(BuildFault::UnknownDirection { text: c[1].text@ })
            } else {
                match build(c[2]) {
                    Err(e) => Err(e),
                    Ok(ty) => Ok(
                        Ast::DefinePort {
                            ident: c[0].text@,
                            direction: c[1].text@,
                            def_type: Box::new(ty),
                        },
                    ),
                }
            }
        },
        Rule::Vector => {
            if c.len() < 2 {
                missing(Rule::Vector, Rule::Term)
            } else {
                let start = if is_word(c[0]) {
                    Ok(classify(c[0].text@))
                } else {
                    build(c[0])
                };
                match start {
                    Err(e) => Err(e),
                    Ok(s) => {
                        let end = if is_word(c[1]) {
                            Ok(classify(c[1].text@))
                        } else {
                            build(c[1])
                        };
                        match end {
                            Err(e) => Err(e),
                            Ok(e) => Ok(Ast::Vector { start: Box::new(s), end: Box::new(e) }),
                        }
                    },
                }
            }
        },
        Rule::MaxTerm | Rule::MinTerm | Rule::MinminTerm | Rule::Term => {
            if c.len() == 0 {
                missing(t.rule, Rule::Term)
            } else if c.len() == 1 {
                build(c[0])
            } else if c.len() == 2 {
                missing(t.rule, Rule::Term)
            } else {
                match build(c[0]) {
                    Err(e) => Err(e),
                    Ok(l) => match build(c[2]) {
                        Err(e) => Err(e),
                        Ok(r) => Ok(
                            Ast::Operation {
                                left: Box::new(l),
                                operator: c[1].text@,
                                right: Box::new(r),
                            },
                        ),
                    },
                }
            }
        },
        Rule::Identifier | Rule::CharValue => Ok(Ast::Str(t.text@)),
        Rule::IntegerValue => {
            if is_unsigned(t.text@) {
                Ok(Ast::Int(digits_value(t.text@) as u32))
            } else {
                Err(BuildFault::MalformedNumber { text: t.text@, position: t.position })
            }
        },
        Rule::Architecture => {
            if c.len() < 2 {
                missing(Rule::Architecture, Rule::Identifier)
            } else {
                match build_list(c.subrange(2, c.len() as int)) {
                    Err(e) => Err(e),
                    Ok(ms) => Ok(
                        Ast::Architecture { ident: c[0].text@, entity_name: c[1].text@, machines: ms },
                    ),
                }
            }
        },
        Rule::StateMachine => {
            if c.len() < 2 {
                missing(Rule::StateMachine, Rule::Identifier)
            } else {
                match build_list(c.subrange(2, c.len() as int)) {
                    Err(e) => Err(e),
                    Ok(ss) => Ok(
                        Ast::StateMachine { ident: c[0].text@, sensibility: c[1].text@, states: ss },
                    ),
                }
            }
        },
        Rule::State => {
            if c.len() == 0 {
                missing(Rule::State, Rule::Identifier)
            } else {
                match build_list(c.subrange(1, c.len() as int)) {
                    Err(e) => Err(e),
                    Ok(ts) => {
                        if fallback_last(ts) {
                            Ok(Ast::State { ident: c[0].text@, transitions: ts })
                        } else {
                            Err(BuildFault::MisplacedFallback { state: c[0].text@ })
                        }
                    },
                }
            }
        },
        Rule::Transition => {
            if c.len() == 0 {
                missing(Rule::Transition, Rule::Identifier)
            } else if c[0].rule == Rule::Guard {
                if c[0].children@.len() == 0 {
                    missing(Rule::Guard, Rule::Term)
                } else if c.len() == 1 {
                    missing(Rule::Transition, Rule::Identifier)
                } else {
                    match build(c[0].children@[0]) {
                        Err(e) => Err(e),
                        Ok(g) => Ok(Ast::TransitionActived { activator: Box::new(g), to: c[1].text@ }),
                    }
                }
            } else if c.len() >= 2 {
                match build_list(c) {
                    Err(e) => Err(e),
                    Ok(ts) => if no_fallback(ts) {
                        Ok(Ast::TransitionComposed { terms: ts })
                    } else {
                        Err(BuildFault::NestedFallback { position: t.position })
                    },
                }
            } else {
                Ok(Ast::TransitionSimple { to: c[0].text@ })
            }
        },
        Rule::Fallback => {
            if c.len() == 0 {
                missing(Rule::Fallback, Rule::Identifier)
            } else {
                Ok(Ast::TransitionLast { fallback: c[0].text@ })
            }
        },
        _ => Ok(Ast::Null),
    }
}

/// The ASTs of a list of nodes, left to right; the first failure wins.
pub open spec fn build_list(s: Seq<ParseNode>) -> Result<Seq<Ast>, BuildFault>
    decreases s,
{
    if s.len() == 0 {
        Ok(Seq::empty())
    } else {
        match build_list(s.drop_last()) {
            Err(e) => Err(e),
            Ok(l) => match build(s.last()) {
                Err(e) => Err(e),
                Ok(a) => Ok(l.push(a)),
            },
        }
    }
}

/// The generics, ports and signals that the items of an entity body declare,
/// each list in declaration order; items of other rules are skipped.
pub open spec fn assemble(items: Seq<ParseNode>) -> Result<
    (Seq<Ast>, Seq<Ast>, Seq<Ast>),
    BuildFault,
>
    decreases items,
{
    if items.len() == 0 {
        Ok((Seq::empty(), Seq::empty(), Seq::empty()))
    } else {
        match assemble(items.drop_last()) {
            Err(e) => Err(e),
            Ok(parts) => {
                let it = items.last();
                if it.rule == Rule::Generics {
                    match build_list(it.children@) {
                        Err(e) => Err(e),
                        Ok(l) => Ok((parts.0 + l, parts.1, parts.2)),
                    }
                } else if it.rule == Rule::Ports {
                    match build_list(it.children@) {
                        Err(e) => Err(e),
                        Ok(l) => Ok((parts.0, parts.1 + l, parts.2)),
                    }
                } else if it.rule == Rule::DefSignal {
                    match build(it) {
                        Err(e) => Err(e),
                        Ok(a) => Ok((parts.0, parts.1, parts.2.push(a))),
                    }
                } else {
                    Ok(parts)
                }
            },
        }
    }
}

} // verus!

verus! {

pub open spec fn built(r: Result<AstNode, BuildError>) -> Result<Ast, BuildFault> {
    match r {
        Ok(a) => Ok(a@),
        Err(e) => Err(e@),
    }
}

pub open spec fn built_list(r: Result<Vec<AstNode>, BuildError>) -> Result<Seq<Ast>, BuildFault> {
    match r {
        Ok(v) => Ok(view_nodes(v@)),
        Err(e) => Err(e@),
    }
}

proof fn lemma_build_list_step(s: Seq<ParseNode>, i: int)
    requires
        0 <= i < s.len(),
    ensures
        build_list(s.subrange(0, i + 1)) == (match build_list(s.subrange(0, i)) {
            Err(e) => Err(e),
            Ok(l) => match build(s[i]) {
                Err(e) => Err(e),
                Ok(a) => Ok(l.push(a)),
            },
        }),
{
    assert(s.subrange(0, i + 1).drop_last() =~= s.subrange(0, i));
}

proof fn lemma_build_list_prefix_err(s: Seq<ParseNode>, i: int)
    requires
        0 <= i <= s.len(),
        build_list(s.subrange(0, i)) is Err,
    ensures
        build_list(s) == build_list(s.subrange(0, i)),
    decreases s.len(),
{
    if i == s.len() {
        assert(s.subrange(0, i) =~= s);
    } else {
        assert(s.drop_last().subrange(0, i) =~= s.subrange(0, i));
        lemma_build_list_prefix_err(s.drop_last(), i);
    }
}

proof fn lemma_assemble_step(s: Seq<ParseNode>, i: int)
    requires
        0 <= i < s.len(),
    ensures
        s.subrange(0, i + 1).drop_last() == s.subrange(0, i),
        s.subrange(0, i + 1).last() == s[i],
{
    assert(s.subrange(0, i + 1).drop_last() =~= s.subrange(0, i));
}

proof fn lemma_assemble_prefix_err(s: Seq<ParseNode>, i: int)
    requires
        0 <= i <= s.len(),
        assemble(s.subrange(0, i)) is Err,
    ensures
        assemble(s) == assemble(s.subrange(0, i)),
    decreases s.len(),
{
    if i == s.len() {
        assert(s.subrange(0, i) =~= s);
    } else {
        assert(s.drop_last().subrange(0, i) =~= s.subrange(0, i));
        lemma_assemble_prefix_err(s.drop_last(), i);
    }
}

proof fn lemma_view_nodes_concat(a: Seq<AstNode>, b: Seq<AstNode>)
    ensures
        view_nodes(a + b) == view_nodes(a) + view_nodes(b),
{
    lemma_view_nodes(a);
    lemma_view_nodes(b);
    lemma_view_nodes(a + b);
    assert(view_nodes(a + b) =~= view_nodes(a) + view_nodes(b)) by {
        assert forall|i: int| 0 <= i < (a + b).len() implies view_nodes(a + b)[i] == (
        view_nodes(a) + view_nodes(b))[i] by {
            if i < a.len() {
                assert((a + b)[i] == a[i]);
            } else {
                assert((a + b)[i] == b[i - a.len()]);
            }
        }
    }
}

/// Whether two strings hold the same characters.
pub fn same_text(s: &str, lit: &str) -> (r: bool)
    ensures
        r == (s@ == lit@),
{
    let n = s.unicode_len();
    let m = lit.unicode_len();
    if n != m {
        return false;
    }
    let mut i: usize = 0;
    while i < n
        invariant
            n == s@.len(),
            m == lit@.len(),
            n == m,
            i <= n,
            s@.subrange(0, i as int) =~= lit@.subrange(0, i as int),
        decreases n - i,
    {
        if s.get_char(i) != lit.get_char(i) {
            return false;
        }
        i = i + 1;
    }
    proof {
        assert(s@.subrange(0, n as int) =~= s@);
        assert(lit@.subrange(0, n as int) =~= lit@);
    }
    true
}

fn is_direction_text(s: &String) -> (r: bool)
    ensures
        r == is_direction(s@),
{
    same_text(s.as_str(), "in") || same_text(s.as_str(), "out") || same_text(s.as_str(), "inout")
        || same_text(s.as_str(), "buffer")
}

/// Classifies the text of a one-word vector bound.
pub fn classify_bound(text: &String) -> (r: AstNode)
    ensures
        r@ == classify(text@),
{
    match parse_u32(text.as_str()) {
        Some(n) => AstNode::Int(n),
        None => AstNode::Str(text.clone()),
    }
}

/// Builds the ASTs of `s[start..]`, left to right.
fn build_nodes(s: &Vec<ParseNode>, start: usize) -> (r: Result<Vec<AstNode>, BuildError>)
    requires
        start <= s@.len(),
    ensures
        built_list(r) == build_list(s@.subrange(start as int, s@.len() as int)),
    decreases s, 0nat,
{
    let ghost w = s@.subrange(start as int, s@.len() as int);
    let mut out: Vec<AstNode> = Vec::new();
    let mut i: usize = start;
    proof {
        assert(w.subrange(0, 0) =~= Seq::<ParseNode>::empty());
    }
    while i < s.len()
        invariant
            start <= i <= s@.len(),
            w == s@.subrange(start as int, s@.len() as int),
            build_list(w.subrange(0, i - start)) == Ok::<Seq<Ast>, BuildFault>(view_nodes(out@)),
        decreases s@.len() - i,
    {
        proof {
            lemma_build_list_step(w, i - start);
            assert(w[i - start] == s@[i as int]);
            assert(decreases_to!(s => s@[i as int]));
        }
        match build_ast(&s[i]) {
            Err(e) => {
                proof {
                    lemma_build_list_prefix_err(w, i - start + 1);
                }
                return Err(e);
            },
            Ok(a) => {
                proof {
                    lemma_view_nodes_push(out@, a);
                }
                out.push(a);
            },
        }
        i = i + 1;
    }
    proof {
        assert(w.subrange(0, i - start) =~= w);
    }
    Ok(out)
}

/// Builds the generics, ports and signals of an entity body.
fn assemble_block(items: &Vec<ParseNode>) -> (r: Result<
    (Vec<AstNode>, Vec<AstNode>, Vec<AstNode>),
    BuildError,
>)
    ensures
        match r {
            Ok(parts) => assemble(items@) == Ok::<_, BuildFault>(
                (view_nodes(parts.0@), view_nodes(parts.1@), view_nodes(parts.2@)),
            ),
            Err(e) => assemble(items@) == Err::<(Seq<Ast>, Seq<Ast>, Seq<Ast>), _>(e@),
        },
    decreases items, 0nat,
{
    let mut g: Vec<AstNode> = Vec::new();
    let mut p: Vec<AstNode> = Vec::new();
    let mut sig: Vec<AstNode> = Vec::new();
    let mut i: usize = 0;
    proof {
        assert(items@.subrange(0, 0) =~= Seq::<ParseNode>::empty());
    }
    while i < items.len()
        invariant
            i <= items@.len(),
            assemble(items@.subrange(0, i as int)) == Ok::<_, BuildFault>(
                (view_nodes(g@), view_nodes(p@), view_nodes(sig@)),
            ),
        decreases items@.len() - i,
    {
        let it = &items[i];
        proof {
            lemma_assemble_step(items@, i as int);
            assert(decreases_to!(items => items@[i as int]));
            assert(decreases_to!(items => items@[i as int].children));
        }
        if it.rule == Rule::Generics || it.rule == Rule::Ports {
            match build_nodes(&it.children, 0) {
                Err(e) => {
                    proof {
                        assert(it.children@.subrange(0, it.children@.len() as int)
                            =~= it.children@);
                        lemma_assemble_prefix_err(items@, i + 1);
                    }
                    return Err(e);
                },
                Ok(mut l) => {
                    proof {
                        assert(it.children@.subrange(0, it.children@.len() as int)
                            =~= it.children@);
                    }
                    if it.rule == Rule::Generics {
                        proof {
                            lemma_view_nodes_concat(g@, l@);
                        }
                        g.append(&mut l);
                    } else {
                        proof {
                            lemma_view_nodes_concat(p@, l@);
                        }
                        p.append(&mut l);
                    }
                },
            }
        } else if it.rule == Rule::DefSignal {
            match build_ast(it) {
                Err(e) => {
                    proof {
                        lemma_assemble_prefix_err(items@, i + 1);
                    }
                    return Err(e);
                },
                Ok(a) => {
                    proof {
                        lemma_view_nodes_push(sig@, a);
                    }
                    sig.push(a);
                },
            }
        }
        i = i + 1;
    }
    proof {
        assert(items@.subrange(0, i as int) =~= items@);
    }
    Ok((g, p, sig))
}

} // verus!

verus! {

fn missing_child(rule: Rule, expected: Rule) -> (r: Result<AstNode, BuildError>)
    ensures
        built(r) == missing(rule, expected),
{
    Err(BuildError::MissingChild { rule, expected })
}

/// Builds one vector bound: a one-word bound is classified by its text,
/// anything else is built as an expression.
fn build_bound(n: &ParseNode) -> (r: Result<AstNode, BuildError>)
    ensures
        built(r) == (if is_word(*n) {
            Ok(classify(n.text@))
        } else {
            build(*n)
        }),
    decreases n, 1nat,
{
    if n.rule == Rule::Identifier || n.rule == Rule::IntegerValue {
        Ok(classify_bound(&n.text))
    } else {
        build_ast(n)
    }
}

/// Turns a node of the concrete parse tree into the AST it stands for.
pub fn build_ast(node: &ParseNode) -> (r: Result<AstNode, BuildError>)
    ensures
        built(r) == build(*node),
    decreases node, 0nat,
{
    let c = &node.children;
    let n = c.len();
    proof {
        assert(decreases_to!(node => node.children));
        assert forall|i: int| 0 <= i < n implies decreases_to!(node => #[trigger] c@[i]) by {
            assert(decreases_to!(node.children => node.children@[i]));
        }
        assert(c@.subrange(0, n as int) =~= c@);
    }
    match node.rule {
        Rule::Vhdl => {
            if n == 0 {
                return missing_child(Rule::Vhdl, Rule::Entity);
            }
            let entity = build_ast(&c[0])?;
            if n == 1 {
                return Ok(entity);
            }
            let arch = build_ast(&c[1])?;
            Ok(AstNode::Gen { entity: Box::new(entity), architecture: Box::new(arch) })
        },
        Rule::Entity => {
            if n == 0 {
                return missing_child(Rule::Entity, Rule::Identifier);
            }
            if n == 1 {
                return missing_child(Rule::Entity, Rule::EntityBlock);
            }
            proof {
                assert(decreases_to!(node => c@[1].children));
            }
            let (g, p, s) = match assemble_block(&c[1].children) {
                Err(e) => return Err(e),
                Ok(parts) => parts,
            };
            proof {
                lemma_view_nodes(g@);
            }
            let generics = if g.len() == 0 {
                None
            } else {
                Some(g)
            };
            Ok(AstNode::Entity { ident: c[0].text.clone(), generics, ports: p, signals: s })
        },
        Rule::DefSignal => {
            if n == 0 {
                return missing_child(Rule::DefSignal, Rule::Identifier);
            }
            if n == 1 {
                return missing_child(Rule::DefSignal, Rule::TypeDef);
            }
            let ty = build_ast(&c[1])?;
            Ok(AstNode::DefineSignal { ident: c[0].text.clone(), def_type: Box::new(ty) })
        },
        Rule::TypeDefGeneric => Ok(AstNode::Type { name: node.text.clone(), vector: None }),
        Rule::TypeDef => {
            if n == 0 {
                return missing_child(Rule::TypeDef, Rule::Identifier);
            }
            if n == 1 {
                return Ok(AstNode::Type { name: c[0].text.clone(), vector: None });
            }
            if c[1].rule != Rule::Vector {
                return missing_child(Rule::TypeDef, Rule::Vector);
            }
            let v = build_ast(&c[1])?;
            Ok(AstNode::Type { name: c[0].text.clone(), vector: Some(Box::new(v)) })
        },
        Rule::DefGeneric => {
            if n == 0 {
                return missing_child(Rule::DefGeneric, Rule::Identifier);
            }
            if n == 1 {
                return missing_child(Rule::DefGeneric, Rule::TypeDefGeneric);
            }
            let ty = build_ast(&c[1])?;
            let value = if n == 2 {
                None
            } else {
                Some(c[2].text.clone())
            };
            Ok(AstNode::DefineGeneric { ident: c[0].text.clone(), def_type: Box::new(ty), value })
        },
        Rule::DefPort => {
            if n == 0 {
                return missing_child(Rule::DefPort, Rule::Identifier);
            }
            if n == 1 {
                return missing_child(Rule::DefPort, Rule::Direction);
            }
            if n == 2 {
                return missing_child(Rule::DefPort, Rule::TypeDef);
            }
            if !is_direction_text(&c[1].text) {
                return Err(BuildError::UnknownDirection { text: c[1].text.clone() });
            }
            let ty = build_ast(&c[2])?;
            Ok(
                AstNode::DefinePort {
                    ident: c[0].text.clone(),
                    direction: c[1].text.clone(),
                    def_type: Box::new(ty),
                },
            )
        },
        Rule::Vector => {
            if n < 2 {
                return missing_child(Rule::Vector, Rule::Term);
            }
            let start = build_bound(&c[0])?;
            let end = build_bound(&c[1])?;
            Ok(AstNode::Vector { start: Box::new(start), end: Box::new(end) })
        },
        Rule::MaxTerm | Rule::MinTerm | Rule::MinminTerm | Rule::Term => {
            if n == 0 || n == 2 {
                return missing_child(node.rule, Rule::Term);
            }
            if n == 1 {
                return build_ast(&c[0]);
            }
            let l = build_ast(&c[0])?;
            let r = build_ast(&c[2])?;
            Ok(
                AstNode::Operation {
                    left: Box::new(l),
                    operator: c[1].text.clone(),
                    right: Box::new(r),
                },
            )
        },
        Rule::Identifier | Rule::CharValue => Ok(AstNode::Str(node.text.clone())),
        Rule::IntegerValue => match parse_u32(node.text.as_str()) {
            Some(v) => Ok(AstNode::Int(v)),
            None => Err(
                BuildError::MalformedNumber { text: node.text.clone(), position: node.position },
            ),
        },
        Rule::Architecture => {
            if n < 2 {
                return missing_child(Rule::Architecture, Rule::Identifier);
            }
            let ms = match build_nodes(c, 2) {
                Err(e) => return Err(e),
                Ok(v) => v,
            };
            Ok(
                AstNode::Architecture {
                    ident: c[0].text.clone(),
                    entity_name: c[1].text.clone(),
                    machines: ms,
                },
            )
        },
        Rule::StateMachine => {
            if n < 2 {
                return missing_child(Rule::StateMachine, Rule::Identifier);
            }
            let ss = match build_nodes(c, 2) {
                Err(e) => return Err(e),
                Ok(v) => v,
            };
            Ok(
                AstNode::StateMachine {
                    ident: c[0].text.clone(),
                    sensibility: c[1].text.clone(),
                    states: ss,
                },
            )
        },
        Rule::State => {
            if n == 0 {
                return missing_child(Rule::State, Rule::Identifier);
            }
            let ts = match build_nodes(c, 1) {
                Err(e) => return Err(e),
                Ok(v) => v,
            };
            proof {
                lemma_view_nodes(ts@);
            }
            let mut j: usize = 0;
            while j < ts.len()
                invariant
                    node.rule == Rule::State,
                    c == node.children,
                    n == c@.len(),
                    n >= 1,
                    build_list(c@.subrange(1, n as int)) == Ok::<Seq<Ast>, BuildFault>(view_nodes(ts@)),
                    view_nodes(ts@).len() == ts@.len(),
                    forall|k: int| 0 <= k < ts@.len() ==> #[trigger] view_nodes(ts@)[k] == ts@[k]@,
                    forall|k: int| 0 <= k < j && k < ts@.len() - 1 ==> !(#[trigger] view_nodes(ts@)[k] is TransitionLast),
                decreases ts@.len() - j,
            {
                if j + 1 < ts.len() {
                    if let AstNode::TransitionLast { .. } = &ts[j] {
                        proof {
                            assert(view_nodes(ts@)[j as int] == ts@[j as int]@);
                            assert(view_nodes(ts@)[j as int] is TransitionLast);
                            assert(!fallback_last(view_nodes(ts@)));

                        }
                        return Err(BuildError::MisplacedFallback { state: c[0].text.clone() });
                    }
                }
                j = j + 1;
            }
            Ok(AstNode::State { ident: c[0].text.clone(), transitions: ts })
        },
        Rule::Transition => {
            if n == 0 {
                return missing_child(Rule::Transition, Rule::Identifier);
            }
            if c[0].rule == Rule::Guard {
                if c[0].children.len() == 0 {
                    return missing_child(Rule::Guard, Rule::Term);
                }
                if n == 1 {
                    return missing_child(Rule::Transition, Rule::Identifier);
                }
                proof {
                    assert(decreases_to!(node => c@[0].children@[0]));
                }
                let g = build_ast(&c[0].children[0])?;
                return Ok(AstNode::TransitionActived { activator: Box::new(g), to: c[1].text.clone() });
            }
            if n >= 2 {
                let ts = match build_nodes(c, 0) {
                    Err(e) => return Err(e),
                    Ok(v) => v,
                };
                proof {
                    lemma_view_nodes(ts@);
                }
                let mut j: usize = 0;
                while j < ts.len()
                    invariant
                        node.rule == Rule::Transition,
                        c == node.children,
                        n == c@.len(),
                        n >= 2,
                        c@[0].rule != Rule::Guard,
                        build_list(c@) == Ok::<Seq<Ast>, BuildFault>(view_nodes(ts@)),
                        view_nodes(ts@).len() == ts@.len(),
                        forall|k: int| 0 <= k < ts@.len() ==> #[trigger] view_nodes(ts@)[k] == ts@[k]@,
                        forall|k: int| 0 <= k < j ==> !(#[trigger] view_nodes(ts@)[k] is TransitionLast),
                    decreases ts@.len() - j,
                {
                    if let AstNode::TransitionLast { .. } = &ts[j] {
                        proof {
                            assert(view_nodes(ts@)[j as int] == ts@[j as int]@);
                            assert(view_nodes(ts@)[j as int] is TransitionLast);
                            assert(!no_fallback(view_nodes(ts@)));
                        }
                        return Err(BuildError::NestedFallback { position: node.position });
                    }
                    j = j + 1;
                }
                return Ok(AstNode::TransitionComposed { terms: ts });
            }
            Ok(AstNode::TransitionSimple { to: c[0].text.clone() })
        },
        Rule::Fallback => {
            if n == 0 {
                return missing_child(Rule::Fallback, Rule::Identifier);
            }
            Ok(AstNode::TransitionLast { fallback: c[0].text.clone() })
        },
        _ => Ok(AstNode::Null),
    }
}

} // verus!

verus! {

proof fn lemma_no_fallback_count(ts: Seq<Ast>)
    requires
        forall|i: int| 0 <= i < ts.len() ==> !(#[trigger] ts[i] is TransitionLast),
    ensures
        count_fallbacks(ts) == 0,
    decreases ts.len(),
{
    if ts.len() > 0 {
        let p = ts.drop_last();
        assert forall|i: int| 0 <= i < p.len() implies !(#[trigger] p[i] is TransitionLast) by {
            assert(p[i] == ts[i]);
        }
        lemma_no_fallback_count(p);
        assert(!(ts[ts.len() - 1] is TransitionLast));
    }
}

proof fn lemma_build_list_elems(s: Seq<ParseNode>)
    ensures
        build_list(s) matches Ok(l) ==> l.len() == s.len() && forall|i: int|
            0 <= i < s.len() ==> build(#[trigger] s[i]) == Ok::<Ast, BuildFault>(l[i]),
    decreases s.len(),
{
    if s.len() > 0 {
        let p = s.drop_last();
        lemma_build_list_elems(p);
        if let Ok(l) = build_list(s) {
            assert forall|i: int| 0 <= i < s.len() implies build(#[trigger] s[i]) == Ok::<
                Ast,
                BuildFault,
            >(l[i]) by {
                if i < p.len() {
                    assert(p[i] == s[i]);
                }
            }
        }
    }
}

proof fn lemma_composed_clean(x: ParseNode)
    ensures
        build(x) matches Ok(Ast::TransitionComposed { terms }) ==> no_fallback(terms),
    decreases x,
{
    if x.children@.len() >= 1 {
        lemma_composed_clean(x.children@[0]);
    }
}

/// A state builds only with its fallback transition, if any, in last
/// position, and no composite transition of it holds a fallback: a state
/// never holds more than one fallback.
pub proof fn lemma_single_fallback(t: ParseNode)
    requires
        t.rule == Rule::State,
    ensures
        build(t) matches Ok(Ast::State { transitions, .. }) ==> {
            &&& fallback_last(transitions)
            &&& count_fallbacks(transitions) <= 1
            &&& forall|i: int|
                0 <= i < transitions.len() ==> (#[trigger] transitions[i] matches Ast::TransitionComposed {
                    terms,
                } ==> no_fallback(terms))
        },
{
    if let Ok(Ast::State { transitions: ts, .. }) = build(t) {
        let c = t.children@;
        let s = c.subrange(1, c.len() as int);
        lemma_build_list_elems(s);
        assert forall|i: int| 0 <= i < ts.len() implies (#[trigger] ts[i] matches Ast::TransitionComposed {
            terms,
        } ==> no_fallback(terms)) by {
            lemma_composed_clean(s[i]);
        }
        if ts.len() > 0 {
            let p = ts.drop_last();
            assert forall|i: int| 0 <= i < p.len() implies !(#[trigger] p[i] is TransitionLast) by {
                assert(p[i] == ts[i]);
            }
            lemma_no_fallback_count(p);
        }
    }
}

/// How many generic declarations the clauses of an entity body hold.
pub open spec fn generic_count(items: Seq<ParseNode>) -> nat
    decreases items.len(),
{
    if items.len() == 0 {
        0
    } else {
        generic_count(items.drop_last()) + if items.last().rule == Rule::Generics {
            items.last().children@.len()
        } else {
            0
        }
    }
}

proof fn lemma_build_list_len(s: Seq<ParseNode>)
    ensures
        build_list(s) matches Ok(l) ==> l.len() == s.len(),
    decreases s.len(),
{
    if s.len() > 0 {
        lemma_build_list_len(s.drop_last());
    }
}

proof fn lemma_assemble_generics(items: Seq<ParseNode>)
    ensures
        assemble(items) matches Ok(parts) ==> parts.0.len() == generic_count(items),
    decreases items.len(),
{
    if items.len() > 0 {
        lemma_assemble_generics(items.drop_last());
        lemma_build_list_len(items.last().children@);
    }
}

/// The generics list of an entity holds one entry per generic declaration
/// of its body, and is absent, not empty, when there is none.
pub proof fn lemma_generics_count(t: ParseNode)
    requires
        t.rule == Rule::Entity,
    ensures
        build(t) matches Ok(Ast::Entity { generics, .. }) ==> {
            let n = generic_count(t.children@[1].children@);
            &&& generics is None <==> n == 0
            &&& generics matches Some(g) ==> g.len() == n
        },
{
    if t.children@.len() >= 2 {
        lemma_assemble_generics(t.children@[1].children@);
    }
}

} // verus!

verus! {

/// The AST that a parse tree value stands for; `build` on nodes agrees with
/// it on their views (`lemma_build_view`).
pub open spec fn build_tree(t: Tree) -> Result<Ast, BuildFault>
    decreases t,
{
    let c = t.children;
    match t.rule {
        Rule::Vhdl => {
            if c.len() == 0 {
                missing(Rule::Vhdl, Rule::Entity)
            } else {
                match build_tree(c[0]) {
                    Err(e) => Err(e),
                    Ok(entity) => {
                        if c.len() == 1 {
                            Ok(entity)
                        } else {
                            match build_tree(c[1]) {
                                Err(e) => Err(e),
                                Ok(arch) => Ok(
                                    Ast::Gen { entity: Box::new(entity), architecture: Box::new(arch) },
                                ),
                            }
                        }
                    },
                }
            }
        },
        Rule::Entity => {
            if c.len() == 0 {
                missing(Rule::Entity, Rule::Identifier)
            } else if c.len() == 1 {
                missing(Rule::Entity, Rule::EntityBlock)
            } else {
                match assemble_tree(c[1].children) {
                    Err(e) => Err(e),
                    Ok(parts) => Ok(
                        Ast::Entity {
                            ident: c[0].text,
                            generics: if parts.0.len() == 0 {
                                None
                            } else {
                                Some(parts.0)
                            },
                            ports: parts.1,
                            signals: parts.2,
                        },
                    ),
                }
            }
        },
        Rule::DefSignal => {
            if c.len() == 0 {
                missing(Rule::DefSignal, Rule::Identifier)
            } else if c.len() == 1 {
                missing(Rule::DefSignal, Rule::TypeDef)
            } else {
                match build_tree(c[1]) {
                    Err(e) => Err(e),
                    Ok(ty) => Ok(Ast::DefineSignal { ident: c[0].text, def_type: Box::new(ty) }),
                }
            }
        },
        Rule::TypeDefGeneric => Ok(Ast::Type { name: t.text, vector: None }),
        Rule::TypeDef => {
            if c.len() == 0 {
                missing(Rule::TypeDef, Rule::Identifier)
            } else if c.len() == 1 {
                Ok(Ast::Type { name: c[0].text, vector: None })
            } else if c[1].rule != Rule::Vector {
                missing(Rule::TypeDef, Rule::Vector)
            } else {
                match build_tree(c[1]) {
                    Err(e) => Err(e),
                    Ok(v) => Ok(Ast::Type { name: c[0].text, vector: Some(Box::new(v)) }),
                }
            }
        },
        Rule::DefGeneric => {
            if c.len() == 0 {
                missing(Rule::DefGeneric, Rule::Identifier)
            } else if c.len() == 1 {
                missing(Rule::DefGeneric, Rule::TypeDefGeneric)
            } else {
                match build_tree(c[1]) {
                    Err(e) => Err(e),
                    Ok(ty) => Ok(
                        Ast::DefineGeneric {
                            ident: c[0].text,
                            def_type: Box::new(ty),
                            value: if c.len() == 2 {
                                None
                            } else {
                                Some(c[2].text)
                            },
                        },
                    ),
                }
            }
        },
        Rule::DefPort => {
            if c.len() == 0 {
                missing(Rule::DefPort, Rule::Identifier)
            } else if c.len() == 1 {
                missing(Rule::DefPort, Rule::Direction)
            } else if c.len() == 2 {
                missing(Rule::DefPort, Rule::TypeDef)
            } else if !is_direction(c[1].text) {
                Err(BuildFault::UnknownDirection { text: c[1].text })
            } else {
                match build_tree(c[2]) {
                    Err(e) => Err(e),
                    Ok(ty) => Ok(
                        Ast::DefinePort {
                            ident: c[0].text,
                            direction: c[1].text,
                            def_type: Box::new(ty),
                        },
                    ),
                }
            }
        },
        Rule::Vector => {
            if c.len() < 2 {
                missing(Rule::Vector, Rule::Term)
            } else {
                let start = if is_word_rule(c[0].rule) {
                    Ok(classify(c[0].text))
                } else {
                    build_tree(c[0])
                };
                match start {
                    Err(e) => Err(e),
                    Ok(s) => {
                        let end = if is_word_rule(c[1].rule) {
                            Ok(classify(c[1].text))
                        } else {
                            build_tree(c[1])
                        };
                        match end {
                            Err(e) => Err(e),
                            Ok(e) => Ok(Ast::Vector { start: Box::new(s), end: Box::new(e) }),
                        }
                    },
                }
            }
        },
        Rule::MaxTerm | Rule::MinTerm | Rule::MinminTerm | Rule::Term => {
            if c.len() == 0 {
                missing(t.rule, Rule::Term)
            } else if c.len() == 1 {
                build_tree(c[0])
            } else if c.len() == 2 {
                missing(t.rule, Rule::Term)
            } else {
                match build_tree(c[0]) {
                    Err(e) => Err(e),
                    Ok(l) => match build_tree(c[2]) {
                        Err(e) => Err(e),
                        Ok(r) => Ok(
                            Ast::Operation {
                                left: Box::new(l),
                                operator: c[1].text,
                                right: Box::new(r),
                            },
                        ),
                    },
                }
            }
        },
        Rule::Identifier | Rule::CharValue => Ok(Ast::Str(t.text)),
        Rule::IntegerValue => {
            if is_unsigned(t.text) {
                Ok(Ast::Int(digits_value(t.text) as u32))
            } else {
                Err(BuildFault::MalformedNumber { text: t.text, position: t.position })
            }
        },
        Rule::Architecture => {
            if c.len() < 2 {
                missing(Rule::Architecture, Rule::Identifier)
            } else {
                match build_tree_list(c.subrange(2, c.len() as int)) {
                    Err(e) => Err(e),
                    Ok(ms) => Ok(
                        Ast::Architecture { ident: c[0].text, entity_name: c[1].text, machines: ms },
                    ),
                }
            }
        },
        Rule::StateMachine => {
            if c.len() < 2 {
                missing(Rule::StateMachine, Rule::Identifier)
            } else {
                match build_tree_list(c.subrange(2, c.len() as int)) {
                    Err(e) => Err(e),
                    Ok(ss) => Ok(
                        Ast::StateMachine { ident: c[0].text, sensibility: c[1].text, states: ss },
                    ),
                }
            }
        },
        Rule::State => {
            if c.len() == 0 {
                missing(Rule::State, Rule::Identifier)
            } else {
                match build_tree_list(c.subrange(1, c.len() as int)) {
                    Err(e) => Err(e),
                    Ok(ts) => {
                        if fallback_last(ts) {
                            Ok(Ast::State { ident: c[0].text, transitions: ts })
                        } else {
                            Err(BuildFault::MisplacedFallback { state: c[0].text })
                        }
                    },
                }
            }
        },
        Rule::Transition => {
            if c.len() == 0 {
                missing(Rule::Transition, Rule::Identifier)
            } else if c[0].rule == Rule::Guard {
                if c[0].children.len() == 0 {
                    missing(Rule::Guard, Rule::Term)
                } else if c.len() == 1 {
                    missing(Rule::Transition, Rule::Identifier)
                } else {
                    match build_tree(c[0].children[0]) {
                        Err(e) => Err(e),
                        Ok(g) => Ok(Ast::TransitionActived { activator: Box::new(g), to: c[1].text }),
                    }
                }
            } else if c.len() >= 2 {
                match build_tree_list(c) {
                    Err(e) => Err(e),
                    Ok(ts) => if no_fallback(ts) {
                        Ok(Ast::TransitionComposed { terms: ts })
                    } else {
                        Err(BuildFault::NestedFallback { position: t.position })
                    },
                }
            } else {
                Ok(Ast::TransitionSimple { to: c[0].text })
            }
        },
        Rule::Fallback => {
            if c.len() == 0 {
                missing(Rule::Fallback, Rule::Identifier)
            } else {
                Ok(Ast::TransitionLast { fallback: c[0].text })
            }
        },
        _ => Ok(Ast::Null),
    }
}

pub open spec fn build_tree_list(s: Seq<Tree>) -> Result<Seq<Ast>, BuildFault>
    decreases s,
{
    if s.len() == 0 {
        Ok(Seq::empty())
    } else {
        match build_tree_list(s.drop_last()) {
            Err(e) => Err(e),
            Ok(l) => match build_tree(s.last()) {
                Err(e) => Err(e),
                Ok(a) => Ok(l.push(a)),
            },
        }
    }
}

pub open spec fn assemble_tree(items: Seq<Tree>) -> Result<
    (Seq<Ast>, Seq<Ast>, Seq<Ast>),
    BuildFault,
>
    decreases items,
{
    if items.len() == 0 {
        Ok((Seq::empty(), Seq::empty(), Seq::empty()))
    } else {
        match assemble_tree(items.drop_last()) {
            Err(e) => Err(e),
            Ok(parts) => {
                let it = items.last();
                if it.rule == Rule::Generics {
                    match build_tree_list(it.children) {
                        Err(e) => Err(e),
                        Ok(l) => Ok((parts.0 + l, parts.1, parts.2)),
                    }
                } else if it.rule == Rule::Ports {
                    match build_tree_list(it.children) {
                        Err(e) => Err(e),
                        Ok(l) => Ok((parts.0, parts.1 + l, parts.2)),
                    }
                } else if it.rule == Rule::DefSignal {
                    match build_tree(it) {
                        Err(e) => Err(e),
                        Ok(a) => Ok((parts.0, parts.1, parts.2.push(a))),
                    }
                } else {
                    Ok(parts)
                }
            },
        }
    }
}


proof fn lemma_build_list_view(s: Seq<ParseNode>)
    ensures
        build_list(s) == build_tree_list(view_trees(s)),
    decreases s,
{
    if s.len() > 0 {
        lemma_build_list_view(s.drop_last());
        lemma_build_view(s.last());
        let v = view_trees(s);
        assert(v == view_trees(s.drop_last()).push(s.last()@));
        assert(v.drop_last() =~= view_trees(s.drop_last()));
    }
}

proof fn lemma_assemble_view(items: Seq<ParseNode>)
    ensures
        assemble(items) == assemble_tree(view_trees(items)),
    decreases items,
{
    if items.len() > 0 {
        let it = items.last();
        lemma_assemble_view(items.drop_last());
        lemma_build_list_view(it.children@);
        lemma_build_view(it);
        let v = view_trees(items);
        assert(v == view_trees(items.drop_last()).push(it@));
        assert(v.drop_last() =~= view_trees(items.drop_last()));
    }
}

/// Building a node gives what building its view gives.
pub proof fn lemma_build_view(t: ParseNode)
    ensures
        build(t) == build_tree(t@),
    decreases t,
{
    let c = t.children@;
    lemma_view_trees(c);
    assert(t@.children == view_trees(c));
    if c.len() >= 1 {
        lemma_build_view(c[0]);
        lemma_view_trees(c[0].children@);
        if c[0].children@.len() >= 1 {
            lemma_build_view(c[0].children@[0]);
        }
        lemma_build_list_view(c);
        lemma_build_list_view(c.subrange(1, c.len() as int));
        lemma_view_trees_subrange(c, 1, c.len() as int);
    }
    if c.len() >= 2 {
        lemma_build_view(c[1]);
        lemma_assemble_view(c[1].children@);
        lemma_build_list_view(c.subrange(2, c.len() as int));
        lemma_view_trees_subrange(c, 2, c.len() as int);
    }
    if c.len() >= 3 {
        lemma_build_view(c[2]);
    }
}

} // verus!
