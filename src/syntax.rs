use vstd::prelude::*;

use crate::lexer::{lex_spec, Lexeme, TokenKind};
use crate::tree::{Rule, Tree};

verus! {

/// A source text and its tokens, as the grammar reads them.
pub struct Gram {
    pub src: Seq<char>,
    pub ts: Seq<Lexeme>,
}

/// A node and the index of the first token after it, or `None` where the
/// tokens do not follow the grammar.
pub type Step = Option<(Tree, int)>;

pub open spec fn same_ci(c: char, k: char) -> bool {
    c == k || ('a' <= k <= 'z' && c as u32 + 32 == k as u32)
}

/// Equality of a word with a lower-case keyword, ignoring case.
pub open spec fn ci_eq(s: Seq<char>, kw: Seq<char>) -> bool {
    s.len() == kw.len() && forall|i: int| 0 <= i < s.len() ==> same_ci(#[trigger] s[i], kw[i])
}

pub open spec fn tok_text(g: Gram, i: int) -> Seq<char> {
    g.src.subrange(g.ts[i].start, g.ts[i].end)
}

pub open spec fn kw_at(g: Gram, pos: int, kw: Seq<char>) -> bool {
    0 <= pos < g.ts.len() && g.ts[pos].kind == TokenKind::Word && ci_eq(tok_text(g, pos), kw)
}

pub open spec fn punct_at(g: Gram, pos: int, p: Seq<char>) -> bool {
    0 <= pos < g.ts.len() && g.ts[pos].kind == TokenKind::Punct && tok_text(g, pos) == p
}

pub open spec fn expect_kw(g: Gram, pos: int, kw: Seq<char>) -> Option<int> {
    if kw_at(g, pos, kw) {
        Some(pos + 1)
    } else {
        None
    }
}

pub open spec fn expect_punct(g: Gram, pos: int, p: Seq<char>) -> Option<int> {
    if punct_at(g, pos, p) {
        Some(pos + 1)
    } else {
        None
    }
}

/// Where token `pos` starts, or the end of the text after the last token.
pub open spec fn position(g: Gram, pos: int) -> usize {
    if 0 <= pos < g.ts.len() {
        g.ts[pos].start as usize
    } else {
        g.src.len() as usize
    }
}

/// The source text from the start of token `from` to the end of token
/// `to - 1`.
pub open spec fn span(g: Gram, from: int, to: int) -> Seq<char> {
    if 0 <= from < to <= g.ts.len() {
        let s = g.ts[from].start;
        let e = g.ts[to - 1].end;
        if 0 <= s <= e <= g.src.len() {
            g.src.subrange(s, e)
        } else {
            Seq::empty()
        }
    } else {
        Seq::empty()
    }
}

pub open spec fn leaf(g: Gram, rule: Rule, pos: int) -> Tree {
    Tree {
        rule,
        text: tok_text(g, pos),
        position: g.ts[pos].start as usize,
        children: Seq::empty(),
    }
}

pub open spec fn node(g: Gram, rule: Rule, from: int, to: int, kids: Seq<Tree>) -> Tree {
    Tree { rule, text: span(g, from, to), position: position(g, from), children: kids }
}

pub open spec fn relabel(t: Tree, rule: Rule) -> Tree {
    Tree { rule, text: t.text, position: t.position, children: Seq::empty() }
}

pub open spec fn word(g: Gram, pos: int) -> Step {
    if 0 <= pos < g.ts.len() && g.ts[pos].kind == TokenKind::Word {
        Some((leaf(g, Rule::Identifier, pos), pos + 1))
    } else {
        None
    }
}

/// `name | number | 'c' | "(" expression ")"`
pub open spec fn term(g: Gram, pos: int) -> Step
    decreases g.ts.len() - pos, 0int,
{
    if pos < 0 || pos >= g.ts.len() {
        None
    } else {
        let k = g.ts[pos].kind;
        if k == TokenKind::Word {
            Some((node(g, Rule::Term, pos, pos + 1, seq![leaf(g, Rule::Identifier, pos)]), pos + 1))
        } else if k == TokenKind::Number {
            Some(
                (node(g, Rule::Term, pos, pos + 1, seq![leaf(g, Rule::IntegerValue, pos)]), pos + 1),
            )
        } else if k == TokenKind::CharLit {
            Some((node(g, Rule::Term, pos, pos + 1, seq![leaf(g, Rule::CharValue, pos)]), pos + 1))
        } else if punct_at(g, pos, "("@) {
            match expr(g, pos + 1, 3) {
                None => None,
                Some((e, p)) => match expect_punct(g, p, ")"@) {
                    None => None,
                    Some(q) => Some((node(g, Rule::Term, pos, q, seq![e]), q)),
                },
            }
        } else {
            None
        }
    }
}

pub open spec fn operator_at(g: Gram, pos: int, tier: int) -> bool {
    if tier == 1 {
        punct_at(g, pos, "*"@) || punct_at(g, pos, "/"@)
    } else if tier == 2 {
        punct_at(g, pos, "+"@) || punct_at(g, pos, "-"@)
    } else {
        punct_at(g, pos, "="@) || punct_at(g, pos, "/="@) || punct_at(g, pos, "<"@) || punct_at(
            g,
            pos,
            ">"@,
        ) || punct_at(g, pos, "<="@) || punct_at(g, pos, ">="@)
    }
}

pub open spec fn tier_rule(tier: int) -> Rule {
    if tier == 1 {
        Rule::MinminTerm
    } else if tier == 2 {
        Rule::MinTerm
    } else {
        Rule::MaxTerm
    }
}

/// An expression at precedence tier `tier` (0: operand, 1: `* /`,
/// 2: `+ -`, 3: comparisons); a chain at one tier nests to the left.
pub open spec fn expr(g: Gram, pos: int, tier: int) -> Step
    decreases g.ts.len() - pos, tier + 1,
{
    if tier < 0 {
        None
    } else if tier == 0 {
        term(g, pos)
    } else {
        match expr(g, pos, tier - 1) {
            None => None,
            Some((first, p)) => {
                if pos < p <= g.ts.len() {
                    expr_chain(
                        g,
                        pos,
                        p,
                        tier,
                        node(g, tier_rule(tier), pos, p, seq![first]),
                    )
                } else {
                    None
                }
            },
        }
    }
}

/// The rest of a chain at one tier, after `acc`, which ends before token `p`.
pub open spec fn expr_chain(g: Gram, pos: int, p: int, tier: int, acc: Tree) -> Step
    decreases g.ts.len() - p, 0int,
{
    if 1 <= tier && operator_at(g, p, tier) {
        match expr(g, p + 1, tier - 1) {
            None => None,
            Some((rhs, q)) => {
                if p + 1 < q <= g.ts.len() {
                    expr_chain(
                        g,
                        pos,
                        q,
                        tier,
                        node(g, tier_rule(tier), pos, q, seq![acc, leaf(g, Rule::Operator, p), rhs]),
                    )
                } else {
                    None
                }
            },
        }
    } else {
        Some((acc, p))
    }
}

/// A vector bound: a lone word or number is a bare leaf.
pub open spec fn bound(g: Gram, pos: int) -> Step {
    match expr(g, pos, 3) {
        None => None,
        Some((e, p)) => {
            if p == pos + 1 && g.ts[pos].kind == TokenKind::Word {
                Some((leaf(g, Rule::Identifier, pos), p))
            } else if p == pos + 1 && g.ts[pos].kind == TokenKind::Number {
                Some((leaf(g, Rule::IntegerValue, pos), p))
            } else {
                Some((e, p))
            }
        },
    }
}

/// `name [ "(" bound ("downto" | "to") bound ")" ]`
pub open spec fn type_def(g: Gram, pos: int) -> Step {
    match word(g, pos) {
        None => None,
        Some((name, p)) => {
            if !punct_at(g, p, "("@) {
                Some((node(g, Rule::TypeDef, pos, p, seq![name]), p))
            } else {
                match bound(g, p + 1) {
                    None => None,
                    Some((start, q)) => {
                        let q1 = if kw_at(g, q, "downto"@) {
                            Some(q + 1)
                        } else {
                            expect_kw(g, q, "to"@)
                        };
                        match q1 {
                            None => None,
                            Some(q1) => match bound(g, q1) {
                                None => None,
                                Some((end, q2)) => match expect_punct(g, q2, ")"@) {
                                    None => None,
                                    Some(q3) => {
                                        let v = node(g, Rule::Vector, p, q3, seq![start, end]);
                                        Some((node(g, Rule::TypeDef, pos, q3, seq![name, v]), q3))
                                    },
                                },
                            },
                        }
                    },
                }
            }
        },
    }
}

/// `name ":" type [":=" expression]`
pub open spec fn def_generic(g: Gram, pos: int) -> Step {
    match word(g, pos) {
        None => None,
        Some((ident, p)) => match expect_punct(g, p, ":"@) {
            None => None,
            Some(p) => match word(g, p) {
                None => None,
                Some((ty, p)) => {
                    let ty = relabel(ty, Rule::TypeDefGeneric);
                    if !punct_at(g, p, ":="@) {
                        Some((node(g, Rule::DefGeneric, pos, p, seq![ident, ty]), p))
                    } else {
                        match expr(g, p + 1, 3) {
                            None => None,
                            Some((value, q)) => {
                                let v = node(g, Rule::DefaultValue, p + 1, q, seq![value]);
                                Some((node(g, Rule::DefGeneric, pos, q, seq![ident, ty, v]), q))
                            },
                        }
                    }
                },
            },
        },
    }
}

/// `name ":" direction type`
pub open spec fn def_port(g: Gram, pos: int) -> Step {
    match word(g, pos) {
        None => None,
        Some((ident, p)) => match expect_punct(g, p, ":"@) {
            None => None,
            Some(p) => match word(g, p) {
                None => None,
                Some((dir, p)) => match type_def(g, p) {
                    None => None,
                    Some((ty, q)) => Some(
                        (
                            node(
                                g,
                                Rule::DefPort,
                                pos,
                                q,
                                seq![ident, relabel(dir, Rule::Direction), ty],
                            ),
                            q,
                        ),
                    ),
                },
            },
        },
    }
}

pub open spec fn clause_item(g: Gram, generic: bool, pos: int) -> Step {
    if generic {
        def_generic(g, pos)
    } else {
        def_port(g, pos)
    }
}

/// `("generic" | "port") "(" item { ";" item } ")" ";"`
pub open spec fn clause(g: Gram, pos: int, generic: bool) -> Step {
    match expect_kw(g, pos, if generic { "generic"@ } else { "port"@ }) {
        None => None,
        Some(p) => match expect_punct(g, p, "("@) {
            None => None,
            Some(p) => match clause_item(g, generic, p) {
                None => None,
                Some((item, q)) => {
                    if p < q <= g.ts.len() {
                        clause_rest(g, pos, generic, q, seq![item])
                    } else {
                        None
                    }
                },
            },
        },
    }
}

pub open spec fn clause_rest(g: Gram, pos: int, generic: bool, p: int, items: Seq<Tree>) -> Step
    decreases g.ts.len() - p,
{
    if punct_at(g, p, ";"@) {
        match clause_item(g, generic, p + 1) {
            None => None,
            Some((item, q)) => {
                if p + 1 < q <= g.ts.len() {
                    clause_rest(g, pos, generic, q, items.push(item))
                } else {
                    None
                }
            },
        }
    } else {
        match expect_punct(g, p, ")"@) {
            None => None,
            Some(p) => match expect_punct(g, p, ";"@) {
                None => None,
                Some(p) => Some(
                    (
                        node(g, if generic { Rule::Generics } else { Rule::Ports }, pos, p, items),
                        p,
                    ),
                ),
            },
        }
    }
}

/// `"signal" name ":" type ";"`
pub open spec fn def_signal(g: Gram, pos: int) -> Step {
    match expect_kw(g, pos, "signal"@) {
        None => None,
        Some(p) => match word(g, p) {
            None => None,
            Some((ident, p)) => match expect_punct(g, p, ":"@) {
                None => None,
                Some(p) => match type_def(g, p) {
                    None => None,
                    Some((ty, p)) => match expect_punct(g, p, ";"@) {
                        None => None,
                        Some(p) => Some((node(g, Rule::DefSignal, pos, p, seq![ident, ty]), p)),
                    },
                },
            },
        },
    }
}

/// `"end" [kw] [name] ";"`
pub open spec fn end(g: Gram, pos: int, kw: Seq<char>) -> Option<int> {
    match expect_kw(g, pos, "end"@) {
        None => None,
        Some(p) => {
            let p1 = if kw_at(g, p, kw) {
                p + 1
            } else {
                p
            };
            let p2 = if 0 <= p1 < g.ts.len() && g.ts[p1].kind == TokenKind::Word {
                p1 + 1
            } else {
                p1
            };
            expect_punct(g, p2, ";"@)
        },
    }
}

pub open spec fn entity_item(g: Gram, p: int) -> Step {
    if kw_at(g, p, "generic"@) {
        clause(g, p, true)
    } else if kw_at(g, p, "port"@) {
        clause(g, p, false)
    } else if kw_at(g, p, "signal"@) {
        def_signal(g, p)
    } else {
        None
    }
}

/// `"entity" name "is" { clause | signal } end`
pub open spec fn entity(g: Gram, pos: int) -> Step {
    match expect_kw(g, pos, "entity"@) {
        None => None,
        Some(p) => match word(g, p) {
            None => None,
            Some((ident, p)) => match expect_kw(g, p, "is"@) {
                None => None,
                Some(p) => entity_items(g, pos, ident, p, p, Seq::empty()),
            },
        },
    }
}

pub open spec fn entity_items(
    g: Gram,
    pos: int,
    ident: Tree,
    block_start: int,
    p: int,
    items: Seq<Tree>,
) -> Step
    decreases g.ts.len() - p,
{
    if kw_at(g, p, "end"@) {
        let block = node(g, Rule::EntityBlock, block_start, p, items);
        match end(g, p, "entity"@) {
            None => None,
            Some(q) => Some((node(g, Rule::Entity, pos, q, seq![ident, block]), q)),
        }
    } else {
        match entity_item(g, p) {
            None => None,
            Some((item, q)) => {
                if p < q <= g.ts.len() {
                    entity_items(g, pos, ident, block_start, q, items.push(item))
                } else {
                    None
                }
            },
        }
    }
}

/// `"=>" name ";"`, `"when" "others" "=>" name ";"`,
/// `"when" condition "=>" name ";"`, or a group
/// `"(" transition transition { transition } ")"`, which holds no fallback.
pub open spec fn transition(g: Gram, pos: int) -> Step
    decreases g.ts.len() - pos, 1int,
{
    if punct_at(g, pos, "=>"@) {
        match word(g, pos + 1) {
            None => None,
            Some((to, p)) => match expect_punct(g, p, ";"@) {
                None => None,
                Some(q) => Some((node(g, Rule::Transition, pos, q, seq![to]), q)),
            },
        }
    } else if kw_at(g, pos, "when"@) {
        if kw_at(g, pos + 1, "others"@) {
            match expect_punct(g, pos + 2, "=>"@) {
                None => None,
                Some(p) => match word(g, p) {
                    None => None,
                    Some((to, p)) => match expect_punct(g, p, ";"@) {
                        None => None,
                        Some(q) => Some((node(g, Rule::Fallback, pos, q, seq![to]), q)),
                    },
                },
            }
        } else {
            match expr(g, pos + 1, 3) {
                None => None,
                Some((cond, p)) => {
                    let guard = node(g, Rule::Guard, pos + 1, p, seq![cond]);
                    match expect_punct(g, p, "=>"@) {
                        None => None,
                        Some(p) => match word(g, p) {
                            None => None,
                            Some((to, p)) => match expect_punct(g, p, ";"@) {
                                None => None,
                                Some(q) => Some(
                                    (node(g, Rule::Transition, pos, q, seq![guard, to]), q),
                                ),
                            },
                        },
                    }
                },
            }
        }
    } else if punct_at(g, pos, "("@) {
        group(g, pos, pos + 1, Seq::empty())
    } else {
        None
    }
}

pub open spec fn group(g: Gram, pos: int, p: int, parts: Seq<Tree>) -> Step
    decreases g.ts.len() - p, 2int,
{
    if punct_at(g, p, ")"@) {
        if parts.len() < 2 {
            None
        } else {
            Some((node(g, Rule::Transition, pos, p + 1, parts), p + 1))
        }
    } else if 0 <= p <= g.ts.len() {
        match transition(g, p) {
            None => None,
            Some((t, q)) => {
                if p < q <= g.ts.len() && t.rule != Rule::Fallback {
                    group(g, pos, q, parts.push(t))
                } else {
                    None
                }
            },
        }
    } else {
        None
    }
}

/// `"state" name "is" { transition } "end" "state" ";"`
pub open spec fn state(g: Gram, pos: int) -> Step {
    match expect_kw(g, pos, "state"@) {
        None => None,
        Some(p) => match word(g, p) {
            None => None,
            Some((ident, p)) => match expect_kw(g, p, "is"@) {
                None => None,
                Some(p) => state_items(g, pos, p, seq![ident]),
            },
        },
    }
}

pub open spec fn state_items(g: Gram, pos: int, p: int, kids: Seq<Tree>) -> Step
    decreases g.ts.len() - p,
{
    if kw_at(g, p, "end"@) {
        match end(g, p, "state"@) {
            None => None,
            Some(q) => Some((node(g, Rule::State, pos, q, kids), q)),
        }
    } else if 0 <= p <= g.ts.len() {
        match transition(g, p) {
            None => None,
            Some((t, q)) => {
                if p < q <= g.ts.len() {
                    state_items(g, pos, q, kids.push(t))
                } else {
                    None
                }
            },
        }
    } else {
        None
    }
}

/// `name ":" "process" "(" name ")" "is" "begin" { state } "end" "process" ";"`
pub open spec fn state_machine(g: Gram, pos: int) -> Step {
    match word(g, pos) {
        None => None,
        Some((ident, p)) => match expect_punct(g, p, ":"@) {
            None => None,
            Some(p) => match expect_kw(g, p, "process"@) {
                None => None,
                Some(p) => match expect_punct(g, p, "("@) {
                    None => None,
                    Some(p) => match word(g, p) {
                        None => None,
                        Some((sens, p)) => match expect_punct(g, p, ")"@) {
                            None => None,
                            Some(p) => match expect_kw(g, p, "is"@) {
                                None => None,
                                Some(p) => match expect_kw(g, p, "begin"@) {
                                    None => None,
                                    Some(p) => machine_items(g, pos, p, seq![ident, sens]),
                                },
                            },
                        },
                    },
                },
            },
        },
    }
}

pub open spec fn machine_items(g: Gram, pos: int, p: int, kids: Seq<Tree>) -> Step
    decreases g.ts.len() - p,
{
    if kw_at(g, p, "end"@) {
        match end(g, p, "process"@) {
            None => None,
            Some(q) => Some((node(g, Rule::StateMachine, pos, q, kids), q)),
        }
    } else {
        match state(g, p) {
            None => None,
            Some((s, q)) => {
                if p < q <= g.ts.len() {
                    machine_items(g, pos, q, kids.push(s))
                } else {
                    None
                }
            },
        }
    }
}

/// `"architecture" name "of" name "is" "begin" { state machine } end`
pub open spec fn architecture(g: Gram, pos: int) -> Step {
    match expect_kw(g, pos, "architecture"@) {
        None => None,
        Some(p) => match word(g, p) {
            None => None,
            Some((ident, p)) => match expect_kw(g, p, "of"@) {
                None => None,
                Some(p) => match word(g, p) {
                    None => None,
                    Some((of, p)) => match expect_kw(g, p, "is"@) {
                        None => None,
                        Some(p) => match expect_kw(g, p, "begin"@) {
                            None => None,
                            Some(p) => arch_items(g, pos, p, seq![ident, of]),
                        },
                    },
                },
            },
        },
    }
}

pub open spec fn arch_items(g: Gram, pos: int, p: int, kids: Seq<Tree>) -> Step
    decreases g.ts.len() - p,
{
    if kw_at(g, p, "end"@) {
        match end(g, p, "architecture"@) {
            None => None,
            Some(q) => Some((node(g, Rule::Architecture, pos, q, kids), q)),
        }
    } else {
        match state_machine(g, p) {
            None => None,
            Some((m, q)) => {
                if p < q <= g.ts.len() {
                    arch_items(g, pos, q, kids.push(m))
                } else {
                    None
                }
            },
        }
    }
}

/// A whole design over its tokens: an entity, optionally followed by its
/// architecture, and nothing after.
pub open spec fn design(g: Gram) -> Option<Tree> {
    let n = g.ts.len() as int;
    match entity(g, 0) {
        None => None,
        Some((e, p)) => {
            if p == n {
                Some(node(g, Rule::Vhdl, 0, n, seq![e]))
            } else {
                match architecture(g, p) {
                    None => None,
                    Some((a, q)) => {
                        if q != n {
                            None
                        } else {
                            Some(node(g, Rule::Vhdl, 0, n, seq![e, a]))
                        }
                    },
                }
            }
        },
    }
}

/// The concrete parse tree of a source text, or `None` where the text does
/// not follow the grammar.
pub open spec fn design_tree(src: Seq<char>) -> Option<Tree> {
    match lex_spec(src) {
        None => None,
        Some(ts) => design(Gram { src, ts }),
    }
}

} // verus!
