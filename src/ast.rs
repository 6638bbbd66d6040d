use vstd::prelude::*;

verus! {

/// A node of the abstract syntax tree of an entity and its architecture.
///
/// Every variant has its own JSON shape (see `json`), so a tree can be read
/// back from its encoding without a type tag.
#[derive(Debug, PartialEq)]
pub enum AstNode {
    Gen { entity: Box<AstNode>, architecture: Box<AstNode> },
    Entity {
        ident: String,
        generics: Option<Vec<AstNode>>,
        ports: Vec<AstNode>,
        signals: Vec<AstNode>,
    },
    DefineGeneric { ident: String, def_type: Box<AstNode>, value: Option<String> },
    DefinePort { ident: String, direction: String, def_type: Box<AstNode> },
    DefineSignal { ident: String, def_type: Box<AstNode> },
    Type { name: String, vector: Option<Box<AstNode>> },
    Vector { start: Box<AstNode>, end: Box<AstNode> },
    Operation { left: Box<AstNode>, operator: String, right: Box<AstNode> },
    Architecture { ident: String, entity_name: String, machines: Vec<AstNode> },
    StateMachine { ident: String, sensibility: String, states: Vec<AstNode> },
    State { ident: String, transitions: Vec<AstNode> },
    TransitionSimple { to: String },
    TransitionActived { activator: Box<AstNode>, to: String },
    TransitionComposed { terms: Vec<AstNode> },
    TransitionLast { fallback: String },
    Str(String),
    Int(u32),
    Null,
}

/// The mathematical value of an `AstNode`: strings as character sequences,
/// lists as sequences.
pub enum Ast {
    Gen { entity: Box<Ast>, architecture: Box<Ast> },
    Entity {
        ident: Seq<char>,
        generics: Option<Seq<Ast>>,
        ports: Seq<Ast>,
        signals: Seq<Ast>,
    },
    DefineGeneric { ident: Seq<char>, def_type: Box<Ast>, value: Option<Seq<char>> },
    DefinePort { ident: Seq<char>, direction: Seq<char>, def_type: Box<Ast> },
    DefineSignal { ident: Seq<char>, def_type: Box<Ast> },
    Type { name: Seq<char>, vector: Option<Box<Ast>> },
    Vector { start: Box<Ast>, end: Box<Ast> },
    Operation { left: Box<Ast>, operator: Seq<char>, right: Box<Ast> },
    Architecture { ident: Seq<char>, entity_name: Seq<char>, machines: Seq<Ast> },
    StateMachine { ident: Seq<char>, sensibility: Seq<char>, states: Seq<Ast> },
    State { ident: Seq<char>, transitions: Seq<Ast> },
    TransitionSimple { to: Seq<char> },
    TransitionActived { activator: Box<Ast>, to: Seq<char> },
    TransitionComposed { terms: Seq<Ast> },
    TransitionLast { fallback: Seq<char> },
    Str(Seq<char>),
    Int(u32),
    Null,
}

impl View for AstNode {
    type V = Ast;

    open spec fn view(&self) -> Ast
        decreases self,
    {
        match self {
            AstNode::Gen { entity, architecture } => Ast::Gen {
                entity: Box::new((**entity).view()),
                architecture: Box::new((**architecture).view()),
            },
            AstNode::Entity { ident, generics, ports, signals } => Ast::Entity {
                ident: ident@,
                generics: match generics {
                    Some(g) => Some(view_nodes(g@)),
                    None => None,
                },
                ports: view_nodes(ports@),
                signals: view_nodes(signals@),
            },
            AstNode::DefineGeneric { ident, def_type, value } => Ast::DefineGeneric {
                ident: ident@,
                def_type: Box::new((**def_type).view()),
                value: match value {
                    Some(v) => Some(v@),
                    None => None,
                },
            },
            AstNode::DefinePort { ident, direction, def_type } => Ast::DefinePort {
                ident: ident@,
                direction: direction@,
                def_type: Box::new((**def_type).view()),
            },
            AstNode::DefineSignal { ident, def_type } => Ast::DefineSignal {
                ident: ident@,
                def_type: Box::new((**def_type).view()),
            },
            AstNode::Type { name, vector } => Ast::Type {
                name: name@,
                vector: match vector {
                    Some(v) => Some(Box::new((**v).view())),
                    None => None,
                },
            },
            AstNode::Vector { start, end } => Ast::Vector {
                start: Box::new((**start).view()),
                end: Box::new((**end).view()),
            },
            AstNode::Operation { left, operator, right } => Ast::Operation {
                left: Box::new((**left).view()),
                operator: operator@,
                right: Box::new((**right).view()),
            },
            AstNode::Architecture { ident, entity_name, machines } => Ast::Architecture {
                ident: ident@,
                entity_name: entity_name@,
                machines: view_nodes(machines@),
            },
            AstNode::StateMachine { ident, sensibility, states } => Ast::StateMachine {
                ident: ident@,
                sensibility: sensibility@,
                states: view_nodes(states@),
            },
            AstNode::State { ident, transitions } => Ast::State {
                ident: ident@,
                transitions: view_nodes(transitions@),
            },
            AstNode::TransitionSimple { to } => Ast::TransitionSimple { to: to@ },
            AstNode::TransitionActived { activator, to } => Ast::TransitionActived {
                activator: Box::new((**activator).view()),
                to: to@,
            },
            AstNode::TransitionComposed { terms } => Ast::TransitionComposed {
                terms: view_nodes(terms@),
            },
            AstNode::TransitionLast { fallback } => Ast::TransitionLast { fallback: fallback@ },
            AstNode::Str(s) => Ast::Str(s@),
            AstNode::Int(n) => Ast::Int(*n),
            AstNode::Null => Ast::Null,
        }
    }
}

/// The views of a sequence of nodes, element by element.
pub open spec fn view_nodes(s: Seq<AstNode>) -> Seq<Ast>
    decreases s,
{
    if s.len() == 0 {
        Seq::empty()
    } else {
        view_nodes(s.drop_last()).push(s.last().view())
    }
}

pub proof fn lemma_view_nodes(s: Seq<AstNode>)
    ensures
        view_nodes(s).len() == s.len(),
        forall|i: int| 0 <= i < s.len() ==> #[trigger] view_nodes(s)[i] == s[i].view(),
    decreases s.len(),
{
    if s.len() > 0 {
        lemma_view_nodes(s.drop_last());
        assert(view_nodes(s) == view_nodes(s.drop_last()).push(s.last().view()));
        assert forall|i: int| 0 <= i < s.len() implies #[trigger] view_nodes(s)[i] == s[i].view() by {
            if i < s.len() - 1 {
                assert(s.drop_last()[i] == s[i]);
            }
        }
    }
}

pub proof fn lemma_view_nodes_push(s: Seq<AstNode>, x: AstNode)
    ensures
        view_nodes(s.push(x)) == view_nodes(s).push(x.view()),
{
    assert(s.push(x).drop_last() =~= s);
}

/// Whether a transition list keeps a fallback transition, if any, in last
/// position only.
pub open spec fn fallback_last(ts: Seq<Ast>) -> bool {
    forall|i: int| 0 <= i < ts.len() - 1 ==> !(#[trigger] ts[i] is TransitionLast)
}

/// How many fallback transitions a transition list holds.
pub open spec fn count_fallbacks(ts: Seq<Ast>) -> nat
    decreases ts.len(),
{
    if ts.len() == 0 {
        0
    } else {
        count_fallbacks(ts.drop_last()) + if ts.last() is TransitionLast {
            1nat
        } else {
            0nat
        }
    }
}

} // verus!
