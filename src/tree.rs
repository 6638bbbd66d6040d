use vstd::prelude::*;

verus! {

/// The grammar rule that a node of the concrete parse tree was matched by.
#[derive(Debug, Clone, Copy, PartialEq, Eq, Structural)]
pub enum Rule {
    Vhdl,
    Entity,
    EntityBlock,
    Generics,
    Ports,
    DefGeneric,
    TypeDefGeneric,
    DefaultValue,
    DefPort,
    Direction,
    DefSignal,
    TypeDef,
    Vector,
    MaxTerm,
    MinTerm,
    MinminTerm,
    Term,
    Operator,
    Identifier,
    IntegerValue,
    CharValue,
    Architecture,
    StateMachine,
    State,
    Transition,
    Guard,
    Fallback,
}

/// A node of the concrete parse tree: the rule that matched, the exact source
/// text it matched, the character position where that text starts, and its
/// children in source order.
#[derive(Debug)]
pub struct ParseNode {
    pub rule: Rule,
    pub text: String,
    pub position: usize,
    pub children: Vec<ParseNode>,
}

impl ParseNode {
    pub fn new(rule: Rule, text: String, position: usize, children: Vec<ParseNode>) -> (r: ParseNode)
        ensures
            r.rule == rule,
            r.text == text,
            r.position == position,
            r.children == children,
    {
        ParseNode { rule, text, position, children }
    }
}

/// The mathematical value of a parse tree node.
pub struct Tree {
    pub rule: Rule,
    pub text: Seq<char>,
    pub position: usize,
    pub children: Seq<Tree>,
}

impl View for ParseNode {
    type V = Tree;

    open spec fn view(&self) -> Tree
        decreases self,
    {
        Tree {
            rule: self.rule,
            text: self.text@,
            position: self.position,
            children: view_trees(self.children@),
        }
    }
}

pub open spec fn view_trees(s: Seq<ParseNode>) -> Seq<Tree>
    decreases s,
{
    if s.len() == 0 {
        Seq::empty()
    } else {
        view_trees(s.drop_last()).push(s.last().view())
    }
}

pub proof fn lemma_view_trees(s: Seq<ParseNode>)
    ensures
        view_trees(s).len() == s.len(),
        forall|i: int| 0 <= i < s.len() ==> #[trigger] view_trees(s)[i] == s[i]@,
    decreases s.len(),
{
    if s.len() > 0 {
        lemma_view_trees(s.drop_last());
        assert(view_trees(s) == view_trees(s.drop_last()).push(s.last()@));
        assert forall|i: int| 0 <= i < s.len() implies #[trigger] view_trees(s)[i] == s[i]@ by {
            if i < s.len() - 1 {
                assert(s.drop_last()[i] == s[i]);
            }
        }
    }
}

pub proof fn lemma_view_trees_push(s: Seq<ParseNode>, x: ParseNode)
    ensures
        view_trees(s.push(x)) == view_trees(s).push(x@),
{
    assert(s.push(x).drop_last() =~= s);
}

pub proof fn lemma_view_trees_subrange(s: Seq<ParseNode>, a: int, b: int)
    requires
        0 <= a <= b <= s.len(),
    ensures
        view_trees(s.subrange(a, b)) == view_trees(s).subrange(a, b),
{
    lemma_view_trees(s);
    lemma_view_trees(s.subrange(a, b));
    assert(view_trees(s.subrange(a, b)) =~= view_trees(s).subrange(a, b));
}

} // verus!
