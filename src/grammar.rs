use vstd::prelude::*;

use crate::builder::same_text;
use crate::lexer::{Lexeme, SyntaxError, Token, TokenKind, lexemes, tokens_of};
use crate::shape::{all_shaped, is_expr, shaped};
use crate::syntax::{self, Gram, Step};
use crate::tree::{ParseNode, Rule, lemma_view_trees_push, view_trees};

verus! {

broadcast use vstd::string::group_string_axioms;

/// Parsing state: the tokens and the source they were read from.
pub struct Input<'a> {
    pub src: &'a str,
    pub toks: &'a Vec<Token>,
}

/// A node and the index of the first token after it.
pub type Parsed = Result<(ParseNode, usize), SyntaxError>;

pub open spec fn advanced(r: Parsed, pos: usize, len: nat) -> bool {
    r matches Ok((n, next)) ==> pos < next <= len && shaped(n)
}

/// The grammar's reading of a parse result.
pub open spec fn parsed(r: Parsed) -> Step {
    match r {
        Ok((n, q)) => Some((n@, q as int)),
        Err(_) => None,
    }
}

pub open spec fn next_pos(r: Result<usize, SyntaxError>) -> Option<int> {
    match r {
        Ok(q) => Some(q as int),
        Err(_) => None,
    }
}

proof fn lemma_push_shaped(s: Seq<ParseNode>, x: ParseNode)
    ensures
        all_shaped(s.push(x)) == (all_shaped(s) && shaped(x)),
{
    assert(s.push(x).drop_last() =~= s);
}

fn kids1(a: ParseNode) -> (r: Vec<ParseNode>)
    ensures
        r@ == seq![a],
        view_trees(r@) == seq![a@],
        shaped(a) ==> all_shaped(r@),
{
    let mut v: Vec<ParseNode> = Vec::new();
    proof {
        lemma_push_shaped(v@, a);
        lemma_view_trees_push(v@, a);
    }
    v.push(a);
    proof {
        assert(v@ =~= seq![a]);
        assert(view_trees(v@) =~= seq![a@]);
    }
    v
}

fn kids2(a: ParseNode, b: ParseNode) -> (r: Vec<ParseNode>)
    ensures
        r@ == seq![a, b],
        view_trees(r@) == seq![a@, b@],
        shaped(a) && shaped(b) ==> all_shaped(r@),
{
    let ghost (va, vb) = (a@, b@);
    let mut v = kids1(a);
    proof {
        lemma_push_shaped(v@, b);
        lemma_view_trees_push(v@, b);
    }
    v.push(b);
    proof {
        assert(v@ =~= seq![a, b]);
        assert(view_trees(v@) =~= seq![va, vb]);
    }
    v
}

fn kids3(a: ParseNode, b: ParseNode, c: ParseNode) -> (r: Vec<ParseNode>)
    ensures
        r@ == seq![a, b, c],
        view_trees(r@) == seq![a@, b@, c@],
        shaped(a) && shaped(b) && shaped(c) ==> all_shaped(r@),
{
    let ghost (va, vb, vc) = (a@, b@, c@);
    let mut v = kids2(a, b);
    proof {
        lemma_push_shaped(v@, c);
        lemma_view_trees_push(v@, c);
    }
    v.push(c);
    proof {
        assert(v@ =~= seq![a, b, c]);
        assert(view_trees(v@) =~= seq![va, vb, vc]);
    }
    v
}

/// Whether `c` equals the lower-case letter or symbol `k`, ignoring case.
fn same_ci(c: char, k: char) -> (r: bool)
    ensures
        r == syntax::same_ci(c, k),
{
    c == k || ('a' <= k && k <= 'z' && c as u32 + 32 == k as u32)
}

/// Whether the word `s` is the keyword `kw`, ignoring case.
fn is_keyword(s: &str, kw: &str) -> (r: bool)
    ensures
        r == syntax::ci_eq(s@, kw@),
{
    let n = s.unicode_len();
    if n != kw.unicode_len() {
        return false;
    }
    let mut i: usize = 0;
    while i < n
        invariant
            n == s@.len(),
            n == kw@.len(),
            i <= n,
            forall|j: int| 0 <= j < i ==> syntax::same_ci(#[trigger] s@[j], kw@[j]),
        decreases n - i,
    {
        if !same_ci(s.get_char(i), kw.get_char(i)) {
            return false;
        }
        i = i + 1;
    }
    true
}

impl<'a> Input<'a> {
    /// The grammar's view of the input.
    pub open spec fn gram(&self) -> Gram {
        Gram { src: self.src@, ts: lexemes(self.toks@) }
    }

    /// The tokens hold the text of their spans.
    pub open spec fn wf(&self) -> bool {
        tokens_of(self.toks@, self.src@)
    }

    proof fn lemma_token(&self, i: int)
        requires
            self.wf(),
            0 <= i < self.toks@.len(),
        ensures
            self.gram().ts.len() == self.toks@.len(),
            self.gram().ts[i] == (Lexeme {
                kind: self.toks@[i].kind,
                start: self.toks@[i].start as int,
                end: self.toks@[i].end as int,
            }),
            syntax::tok_text(self.gram(), i) == self.toks@[i].text@,
    {
    }

    fn position(&self, pos: usize) -> (r: usize)
        requires
            self.wf(),
        ensures
            r == syntax::position(self.gram(), pos as int),
    {
        if pos < self.toks.len() {
            proof {
                self.lemma_token(pos as int);
            }
            self.toks[pos].start
        } else {
            self.src.unicode_len()
        }
    }

    fn fail(&self, pos: usize, expected: &str) -> (r: SyntaxError)
        requires
            self.wf(),
    {
        SyntaxError { position: self.position(pos), expected: expected.to_string() }
    }

    fn kw_at(&self, pos: usize, kw: &str) -> (r: bool)
        requires
            self.wf(),
        ensures
            r ==> pos < self.toks@.len() <= usize::MAX,
            r == syntax::kw_at(self.gram(), pos as int, kw@),
    {
        if pos < self.toks.len() {
            proof {
                self.lemma_token(pos as int);
            }
            self.toks[pos].kind == TokenKind::Word && is_keyword(self.toks[pos].text.as_str(), kw)
        } else {
            false
        }
    }

    fn punct_at(&self, pos: usize, p: &str) -> (r: bool)
        requires
            self.wf(),
        ensures
            r ==> pos < self.toks@.len() <= usize::MAX,
            r == syntax::punct_at(self.gram(), pos as int, p@),
    {
        if pos < self.toks.len() {
            proof {
                self.lemma_token(pos as int);
            }
            self.toks[pos].kind == TokenKind::Punct && same_text(self.toks[pos].text.as_str(), p)
        } else {
            false
        }
    }

    fn expect_kw(&self, pos: usize, kw: &str) -> (r: Result<usize, SyntaxError>)
        requires
            self.wf(),
        ensures
            r matches Ok(next) ==> pos < self.toks@.len() <= usize::MAX && next == pos + 1,
            next_pos(r) == syntax::expect_kw(self.gram(), pos as int, kw@),
    {
        if self.kw_at(pos, kw) {
            Ok(pos + 1)
        } else {
            Err(self.fail(pos, kw))
        }
    }

    fn expect_punct(&self, pos: usize, p: &str) -> (r: Result<usize, SyntaxError>)
        requires
            self.wf(),
        ensures
            r matches Ok(next) ==> pos < self.toks@.len() <= usize::MAX && next == pos + 1,
            next_pos(r) == syntax::expect_punct(self.gram(), pos as int, p@),
    {
        if self.punct_at(pos, p) {
            Ok(pos + 1)
        } else {
            Err(self.fail(pos, p))
        }
    }

    /// The source text from the start of token `from` to the end of token
    /// `to - 1`.
    fn span(&self, from: usize, to: usize) -> (r: String)
        requires
            self.wf(),
        ensures
            r@ == syntax::span(self.gram(), from as int, to as int),
    {
        if from < to && to <= self.toks.len() {
            proof {
                self.lemma_token(from as int);
                self.lemma_token(to - 1);
            }
            let s = self.toks[from].start;
            let e = self.toks[to - 1].end;
            if s <= e && e <= self.src.unicode_len() {
                return self.src.substring_char(s, e).to_string();
            }
        }
        String::new()
    }

    fn node(&self, rule: Rule, from: usize, to: usize, children: Vec<ParseNode>) -> (r: ParseNode)
        requires
            self.wf(),
        ensures
            r.rule == rule,
            r.children == children,
            r@ == syntax::node(self.gram(), rule, from as int, to as int, view_trees(children@)),
    {
        ParseNode { rule, text: self.span(from, to), position: self.position(from), children }
    }

    fn leaf(&self, rule: Rule, pos: usize) -> (r: ParseNode)
        requires
            self.wf(),
            pos < self.toks@.len(),
        ensures
            r.rule == rule,
            r.text == self.toks@[pos as int].text,
            r.text@.len() > 0,
            r.children@.len() == 0,
            r@ == syntax::leaf(self.gram(), rule, pos as int),
    {
        proof {
            self.lemma_token(pos as int);
        }
        let r = ParseNode {
            rule,
            text: self.toks[pos].text.clone(),
            position: self.toks[pos].start,
            children: Vec::new(),
        };
        proof {
            assert(view_trees(r.children@) =~= Seq::empty());
        }
        r
    }

    /// A copy of a leaf under another rule.
    fn relabel(n: ParseNode, rule: Rule) -> (r: ParseNode)
        requires
            n.children@.len() == 0,
        ensures
            r.rule == rule,
            r.text == n.text,
            r.children@.len() == 0,
            r@ == syntax::relabel(n@, rule),
    {
        let r = ParseNode { rule, text: n.text, position: n.position, children: Vec::new() };
        proof {
            assert(view_trees(r.children@) =~= Seq::empty());
        }
        r
    }

    fn word(&self, pos: usize, what: &str) -> (r: Parsed)
        requires
            self.wf(),
        ensures
            advanced(r, pos, self.toks@.len()),
            r matches Ok((n, _)) ==> n.rule == Rule::Identifier && n.children@.len() == 0
                && n.text@.len() > 0,
            parsed(r) == syntax::word(self.gram(), pos as int),
    {
        if pos < self.toks.len() && self.toks[pos].kind == TokenKind::Word {
            proof {
                self.lemma_token(pos as int);
            }
            Ok((self.leaf(Rule::Identifier, pos), pos + 1))
        } else {
            proof {
                if pos < self.toks@.len() {
                    self.lemma_token(pos as int);
                }
            }
            Err(self.fail(pos, what))
        }
    }

    /// An operand: a name, a number, a character literal or a parenthesised
    /// expression.
    fn term(&self, pos: usize) -> (r: Parsed)
        requires
            self.wf(),
        ensures
            advanced(r, pos, self.toks@.len()),
            r matches Ok((n, _)) ==> is_expr(n.rule),
            parsed(r) == syntax::term(self.gram(), pos as int),
        decreases self.toks@.len() - pos, 0nat,
    {
        if pos >= self.toks.len() {
            return Err(self.fail(pos, "an operand"));
        }
        proof {
            self.lemma_token(pos as int);
        }
        let k = self.toks[pos].kind;
        let inner = if k == TokenKind::Word {
            self.leaf(Rule::Identifier, pos)
        } else if k == TokenKind::Number {
            self.leaf(Rule::IntegerValue, pos)
        } else if k == TokenKind::CharLit {
            self.leaf(Rule::CharValue, pos)
        } else if self.punct_at(pos, "(") {
            let (e, p) = self.expr(pos + 1, 3)?;
            let q = self.expect_punct(p, ")")?;
            return Ok((self.node(Rule::Term, pos, q, kids1(e)), q));
        } else {
            return Err(self.fail(pos, "an operand"));
        };
        Ok((self.node(Rule::Term, pos, pos + 1, kids1(inner)), pos + 1))
    }

    /// Whether the token at `pos` is an operator of precedence tier `tier`.
    fn operator_at(&self, pos: usize, tier: u8) -> (r: bool)
        requires
            self.wf(),
        ensures
            r ==> pos < self.toks@.len() <= usize::MAX,
            r == syntax::operator_at(self.gram(), pos as int, tier as int),
    {
        if tier == 1 {
            self.punct_at(pos, "*") || self.punct_at(pos, "/")
        } else if tier == 2 {
            self.punct_at(pos, "+") || self.punct_at(pos, "-")
        } else {
            self.punct_at(pos, "=") || self.punct_at(pos, "/=") || self.punct_at(pos, "<")
                || self.punct_at(pos, ">") || self.punct_at(pos, "<=") || self.punct_at(pos, ">=")
        }
    }

    /// An expression at precedence tier `tier` (0: operand, 1: `* /`,
    /// 2: `+ -`, 3: comparisons); a chain at one tier nests to the left.
    #[verifier::spinoff_prover]
    #[verifier::rlimit(50)]
    fn expr(&self, pos: usize, tier: u8) -> (r: Parsed)
        requires
            self.wf(),
            tier <= 3,
        ensures
            advanced(r, pos, self.toks@.len()),
            r matches Ok((n, _)) ==> is_expr(n.rule),
            parsed(r) == syntax::expr(self.gram(), pos as int, tier as int),
        decreases self.toks@.len() - pos, tier + 1,
    {
        if tier == 0 {
            return self.term(pos);
        }
        let rule = if tier == 1 {
            Rule::MinminTerm
        } else if tier == 2 {
            Rule::MinTerm
        } else {
            Rule::MaxTerm
        };
        let (first, mut p) = self.expr(pos, tier - 1)?;
        let mut acc = self.node(rule, pos, p, kids1(first));
        while self.operator_at(p, tier)
            invariant
                self.wf(),
                shaped(acc),
                acc.rule == rule,
                rule == syntax::tier_rule(tier as int),
                rule == Rule::MinminTerm || rule == Rule::MinTerm || rule == Rule::MaxTerm,
                pos < p <= self.toks@.len(),
                1 <= tier <= 3,
                syntax::expr_chain(self.gram(), pos as int, p as int, tier as int, acc@)
                    == syntax::expr(self.gram(), pos as int, tier as int),
            decreases self.toks@.len() - p,
        {
            let op = self.leaf(Rule::Operator, p);
            let (rhs, q) = self.expr(p + 1, tier - 1)?;
            acc = self.node(rule, pos, q, kids3(acc, op, rhs));
            p = q;
        }
        Ok((acc, p))
    }

    /// A vector bound: a lone word or number stays a bare leaf, whose text
    /// the builder classifies; anything longer is an expression.
    fn bound(&self, pos: usize) -> (r: Parsed)
        requires
            self.wf(),
        ensures
            advanced(r, pos, self.toks@.len()),
            r matches Ok((n, _)) ==> is_expr(n.rule),
            parsed(r) == syntax::bound(self.gram(), pos as int),
    {
        let (e, p) = self.expr(pos, 3)?;
        if p == pos + 1 {
            proof {
                self.lemma_token(pos as int);
            }
            let k = self.toks[pos].kind;
            if k == TokenKind::Word {
                return Ok((self.leaf(Rule::Identifier, pos), p));
            } else if k == TokenKind::Number {
                return Ok((self.leaf(Rule::IntegerValue, pos), p));
            }
        }
        Ok((e, p))
    }

    /// `name [ "(" bound ("downto" | "to") bound ")" ]`
    #[verifier::spinoff_prover]
    #[verifier::rlimit(50)]
    fn type_def(&self, pos: usize) -> (r: Parsed)
        requires
            self.wf(),
        ensures
            advanced(r, pos, self.toks@.len()),
            parsed(r) == syntax::type_def(self.gram(), pos as int),
    {
        let (name, p) = self.word(pos, "a type name")?;
        if !self.punct_at(p, "(") {
            return Ok((self.node(Rule::TypeDef, pos, p, kids1(name)), p));
        }
        let (start, q) = self.bound(p + 1)?;
        let q = if self.kw_at(q, "downto") {
            q + 1
        } else {
            self.expect_kw(q, "to")?
        };
        let (end, q) = self.bound(q)?;
        let q = self.expect_punct(q, ")")?;
        let vector = self.node(Rule::Vector, p, q, kids2(start, end));
        Ok((self.node(Rule::TypeDef, pos, q, kids2(name, vector)), q))
    }

    /// `name ":" type [":=" expression]`
    fn def_generic(&self, pos: usize) -> (r: Parsed)
        requires
            self.wf(),
        ensures
            advanced(r, pos, self.toks@.len()),
            parsed(r) == syntax::def_generic(self.gram(), pos as int),
    {
        let (ident, p) = self.word(pos, "a generic name")?;
        let p = self.expect_punct(p, ":")?;
        let (ty, p) = self.word(p, "a generic type")?;
        let ty = Self::relabel(ty, Rule::TypeDefGeneric);
        if !self.punct_at(p, ":=") {
            return Ok((self.node(Rule::DefGeneric, pos, p, kids2(ident, ty)), p));
        }
        let (value, q) = self.expr(p + 1, 3)?;
        let value = self.node(Rule::DefaultValue, p + 1, q, kids1(value));
        Ok((self.node(Rule::DefGeneric, pos, q, kids3(ident, ty, value)), q))
    }

    /// `name ":" direction type`
    fn def_port(&self, pos: usize) -> (r: Parsed)
        requires
            self.wf(),
        ensures
            advanced(r, pos, self.toks@.len()),
            parsed(r) == syntax::def_port(self.gram(), pos as int),
    {
        let (ident, p) = self.word(pos, "a port name")?;
        let p = self.expect_punct(p, ":")?;
        let (dir, p) = self.word(p, "a port direction")?;
        let dir = Self::relabel(dir, Rule::Direction);
        let (ty, q) = self.type_def(p)?;
        Ok((self.node(Rule::DefPort, pos, q, kids3(ident, dir, ty)), q))
    }

    fn clause_item(&self, generic: bool, pos: usize) -> (r: Parsed)
        requires
            self.wf(),
        ensures
            advanced(r, pos, self.toks@.len()),
            parsed(r) == syntax::clause_item(self.gram(), generic, pos as int),
    {
        if generic {
            self.def_generic(pos)
        } else {
            self.def_port(pos)
        }
    }

    /// `("generic" | "port") "(" item { ";" item } ")" ";"`
    #[verifier::spinoff_prover]
    #[verifier::rlimit(50)]
    fn clause(&self, pos: usize, generic: bool) -> (r: Parsed)
        requires
            self.wf(),
        ensures
            advanced(r, pos, self.toks@.len()),
            parsed(r) == syntax::clause(self.gram(), pos as int, generic),
    {
        let p = self.expect_kw(pos, if generic { "generic" } else { "port" })?;
        let p = self.expect_punct(p, "(")?;
        let (first, q) = self.clause_item(generic, p)?;
        let mut items = kids1(first);
        let mut p = q;
        while self.punct_at(p, ";")
            invariant
                self.wf(),
                all_shaped(items@),
                pos < p <= self.toks@.len(),
                syntax::clause_rest(self.gram(), pos as int, generic, p as int, view_trees(items@))
                    == syntax::clause(self.gram(), pos as int, generic),
            decreases self.toks@.len() - p,
        {
            let (item, q) = self.clause_item(generic, p + 1)?;
            proof {
                lemma_push_shaped(items@, item);
                lemma_view_trees_push(items@, item);
            }
            items.push(item);
            p = q;
        }
        let p = self.expect_punct(p, ")")?;
        let p = self.expect_punct(p, ";")?;
        Ok((self.node(if generic { Rule::Generics } else { Rule::Ports }, pos, p, items), p))
    }

    /// `"signal" name ":" type ";"`
    fn def_signal(&self, pos: usize) -> (r: Parsed)
        requires
            self.wf(),
        ensures
            advanced(r, pos, self.toks@.len()),
            parsed(r) == syntax::def_signal(self.gram(), pos as int),
    {
        let p = self.expect_kw(pos, "signal")?;
        let (ident, p) = self.word(p, "a signal name")?;
        let p = self.expect_punct(p, ":")?;
        let (ty, p) = self.type_def(p)?;
        let p = self.expect_punct(p, ";")?;
        Ok((self.node(Rule::DefSignal, pos, p, kids2(ident, ty)), p))
    }

    /// `"end" [kw] [name] ";"`
    fn end(&self, pos: usize, kw: &str) -> (r: Result<usize, SyntaxError>)
        requires
            self.wf(),
        ensures
            r matches Ok(next) ==> pos < next <= self.toks@.len(),
            next_pos(r) == syntax::end(self.gram(), pos as int, kw@),
    {
        let mut p = self.expect_kw(pos, "end")?;
        if self.kw_at(p, kw) {
            p = p + 1;
        }
        if p < self.toks.len() && self.toks[p].kind == TokenKind::Word {
            proof {
                self.lemma_token(p as int);
            }
            p = p + 1;
        } else {
            proof {
                if p < self.toks@.len() {
                    self.lemma_token(p as int);
                }
            }
        }
        self.expect_punct(p, ";")
    }

    fn entity_item(&self, p: usize) -> (r: Parsed)
        requires
            self.wf(),
        ensures
            advanced(r, p, self.toks@.len()),
            parsed(r) == syntax::entity_item(self.gram(), p as int),
    {
        if self.kw_at(p, "generic") {
            self.clause(p, true)
        } else if self.kw_at(p, "port") {
            self.clause(p, false)
        } else if self.kw_at(p, "signal") {
            self.def_signal(p)
        } else {
            Err(self.fail(p, "generic, port, signal or end"))
        }
    }

    /// `"entity" name "is" { clause | signal } end`
    #[verifier::spinoff_prover]
    #[verifier::rlimit(50)]
    fn entity(&self, pos: usize) -> (r: Parsed)
        requires
            self.wf(),
        ensures
            advanced(r, pos, self.toks@.len()),
            r matches Ok((n, _)) ==> n.rule == Rule::Entity,
            parsed(r) == syntax::entity(self.gram(), pos as int),
    {
        let p = self.expect_kw(pos, "entity")?;
        let (ident, p) = self.word(p, "an entity name")?;
        let p = self.expect_kw(p, "is")?;
        let block_start = p;
        let mut p = p;
        let mut items: Vec<ParseNode> = Vec::new();
        proof {
            assert(view_trees(items@) =~= Seq::empty());
        }
        while !self.kw_at(p, "end")
            invariant
                self.wf(),
                shaped(ident),
                all_shaped(items@),
                pos < block_start <= p <= self.toks@.len(),
                syntax::entity_items(
                    self.gram(),
                    pos as int,
                    ident@,
                    block_start as int,
                    p as int,
                    view_trees(items@),
                ) == syntax::entity(self.gram(), pos as int),
            decreases self.toks@.len() - p,
        {
            let (item, q) = self.entity_item(p)?;
            proof {
                lemma_push_shaped(items@, item);
                lemma_view_trees_push(items@, item);
            }
            items.push(item);
            p = q;
        }
        let block = self.node(Rule::EntityBlock, block_start, p, items);
        let q = self.end(p, "entity")?;
        Ok((self.node(Rule::Entity, pos, q, kids2(ident, block)), q))
    }

    /// `"=>" name ";"`, `"when" "others" "=>" name ";"`,
    /// `"when" condition "=>" name ";"`, or a group
    /// `"(" transition transition { transition } ")"`, which holds no
    /// fallback.
    #[verifier::spinoff_prover]
    #[verifier::rlimit(50)]
    fn transition(&self, pos: usize) -> (r: Parsed)
        requires
            self.wf(),
        ensures
            advanced(r, pos, self.toks@.len()),
            r matches Ok((n, _)) ==> n.rule == Rule::Transition || n.rule == Rule::Fallback,
            parsed(r) == syntax::transition(self.gram(), pos as int),
        decreases self.toks@.len() - pos,
    {
        if self.punct_at(pos, "=>") {
            let (to, p) = self.word(pos + 1, "a target state")?;
            let p = self.expect_punct(p, ";")?;
            return Ok((self.node(Rule::Transition, pos, p, kids1(to)), p));
        }
        if self.kw_at(pos, "when") {
            if self.kw_at(pos + 1, "others") {
                let p = self.expect_punct(pos + 2, "=>")?;
                let (to, p) = self.word(p, "a target state")?;
                let p = self.expect_punct(p, ";")?;
                return Ok((self.node(Rule::Fallback, pos, p, kids1(to)), p));
            }
            let (cond, p) = self.expr(pos + 1, 3)?;
            let guard = self.node(Rule::Guard, pos + 1, p, kids1(cond));
            let p = self.expect_punct(p, "=>")?;
            let (to, p) = self.word(p, "a target state")?;
            let p = self.expect_punct(p, ";")?;
            return Ok((self.node(Rule::Transition, pos, p, kids2(guard, to)), p));
        }
        if self.punct_at(pos, "(") {
            let mut p = pos + 1;
            let mut parts: Vec<ParseNode> = Vec::new();
            proof {
                assert(view_trees(parts@) =~= Seq::empty());
            }
            while !self.punct_at(p, ")")
                invariant
                    self.wf(),
                    all_shaped(parts@),
                    parts@.len() > 0 ==> parts@[0].rule != Rule::Guard,
                    pos < p <= self.toks@.len(),
                    syntax::group(self.gram(), pos as int, p as int, view_trees(parts@))
                        == syntax::transition(self.gram(), pos as int),
                decreases self.toks@.len() - p,
            {
                let (t, q) = self.transition(p)?;
                if t.rule == Rule::Fallback {
                    return Err(self.fail(p, "a transition other than a fallback"));
                }
                proof {
                    lemma_push_shaped(parts@, t);
                    lemma_view_trees_push(parts@, t);
                }
                parts.push(t);
                p = q;
            }
            proof {
                crate::tree::lemma_view_trees(parts@);
            }
            if parts.len() < 2 {
                return Err(self.fail(p, "a second transition"));
            }
            return Ok((self.node(Rule::Transition, pos, p + 1, parts), p + 1));
        }
        Err(self.fail(pos, "a transition"))
    }

    /// `"state" name "is" { transition } "end" "state" ";"`
    fn state(&self, pos: usize) -> (r: Parsed)
        requires
            self.wf(),
        ensures
            advanced(r, pos, self.toks@.len()),
            parsed(r) == syntax::state(self.gram(), pos as int),
    {
        let p = self.expect_kw(pos, "state")?;
        let (ident, p) = self.word(p, "a state name")?;
        let mut p = self.expect_kw(p, "is")?;
        let mut children = kids1(ident);
        while !self.kw_at(p, "end")
            invariant
                self.wf(),
                all_shaped(children@),
                children@.len() >= 1,
                children@[0].rule == Rule::Identifier,
                pos < p <= self.toks@.len(),
                syntax::state_items(self.gram(), pos as int, p as int, view_trees(children@))
                    == syntax::state(self.gram(), pos as int),
            decreases self.toks@.len() - p,
        {
            let (t, q) = self.transition(p)?;
            proof {
                lemma_push_shaped(children@, t);
                lemma_view_trees_push(children@, t);
            }
            children.push(t);
            p = q;
        }
        let p = self.end(p, "state")?;
        Ok((self.node(Rule::State, pos, p, children), p))
    }

    /// `name ":" "process" "(" name ")" "is" "begin" { state } "end" "process" ";"`
    fn state_machine(&self, pos: usize) -> (r: Parsed)
        requires
            self.wf(),
        ensures
            advanced(r, pos, self.toks@.len()),
            parsed(r) == syntax::state_machine(self.gram(), pos as int),
    {
        let (ident, p) = self.word(pos, "a state machine name")?;
        let p = self.expect_punct(p, ":")?;
        let p = self.expect_kw(p, "process")?;
        let p = self.expect_punct(p, "(")?;
        let (sens, p) = self.word(p, "a sensitivity signal")?;
        let p = self.expect_punct(p, ")")?;
        let p = self.expect_kw(p, "is")?;
        let mut p = self.expect_kw(p, "begin")?;
        let mut children = kids2(ident, sens);
        while !self.kw_at(p, "end")
            invariant
                self.wf(),
                all_shaped(children@),
                children@.len() >= 2,
                children@[0].rule == Rule::Identifier,
                children@[1].rule == Rule::Identifier,
                pos < p <= self.toks@.len(),
                syntax::machine_items(self.gram(), pos as int, p as int, view_trees(children@))
                    == syntax::state_machine(self.gram(), pos as int),
            decreases self.toks@.len() - p,
        {
            let (s, q) = self.state(p)?;
            proof {
                lemma_push_shaped(children@, s);
                lemma_view_trees_push(children@, s);
            }
            children.push(s);
            p = q;
        }
        let p = self.end(p, "process")?;
        Ok((self.node(Rule::StateMachine, pos, p, children), p))
    }

    /// `"architecture" name "of" name "is" "begin" { state machine } end`
    fn architecture(&self, pos: usize) -> (r: Parsed)
        requires
            self.wf(),
        ensures
            advanced(r, pos, self.toks@.len()),
            parsed(r) == syntax::architecture(self.gram(), pos as int),
    {
        let p = self.expect_kw(pos, "architecture")?;
        let (ident, p) = self.word(p, "an architecture name")?;
        let p = self.expect_kw(p, "of")?;
        let (of, p) = self.word(p, "an entity name")?;
        let p = self.expect_kw(p, "is")?;
        let mut p = self.expect_kw(p, "begin")?;
        let mut children = kids2(ident, of);
        while !self.kw_at(p, "end")
            invariant
                self.wf(),
                all_shaped(children@),
                children@.len() >= 2,
                children@[0].rule == Rule::Identifier,
                children@[1].rule == Rule::Identifier,
                pos < p <= self.toks@.len(),
                syntax::arch_items(self.gram(), pos as int, p as int, view_trees(children@))
                    == syntax::architecture(self.gram(), pos as int),
            decreases self.toks@.len() - p,
        {
            let (m, q) = self.state_machine(p)?;
            proof {
                lemma_push_shaped(children@, m);
                lemma_view_trees_push(children@, m);
            }
            children.push(m);
            p = q;
        }
        let p = self.end(p, "architecture")?;
        Ok((self.node(Rule::Architecture, pos, p, children), p))
    }

    /// A whole design: an entity, optionally followed by its architecture,
    /// and nothing after.
    pub fn design(&self) -> (r: Result<ParseNode, SyntaxError>)
        requires
            self.wf(),
        ensures
            r matches Ok(t) ==> t.rule == Rule::Vhdl && t.children@.len() >= 1
                && t.children@[0].rule == Rule::Entity && shaped(t),
            match r {
                Ok(t) => syntax::design(self.gram()) == Some(t@),
                Err(_) => syntax::design(self.gram()) is None,
            },
    {
        let (entity, p) = self.entity(0)?;
        let n = self.toks.len();
        if p == n {
            return Ok(self.node(Rule::Vhdl, 0, n, kids1(entity)));
        }
        let (arch, q) = self.architecture(p)?;
        if q != n {
            return Err(self.fail(q, "the end of the source"));
        }
        Ok(self.node(Rule::Vhdl, 0, n, kids2(entity, arch)))
    }
}

} // verus!
