//! Turns the entity and state-machine subset of a hardware description into
//! an abstract syntax tree with a self-describing JSON encoding.

use vstd::prelude::*;

pub mod ast;
pub mod builder;
pub mod decode;
pub mod grammar;
pub mod json;
pub mod lexer;
pub mod number;
pub mod roundtrip;
pub mod shape;
pub mod syntax;
pub mod tree;

use crate::ast::AstNode;
use crate::builder::{build, build_ast, build_tree, lemma_build_view, BuildError};
use crate::syntax::design_tree;
use crate::grammar::Input;
use crate::json::{decode, encode, encode_ast, Json};
use crate::roundtrip::{encodable, lemma_build_encodable, lemma_round_trip};
use crate::lexer::{lex, SyntaxError};
use crate::shape::{lemma_build_named, lemma_not_missing, shaped, well_named};
use crate::tree::{ParseNode, Rule};

verus! {

/// Reads source text into its concrete parse tree.
pub struct GenParser;

/// Why a source text has no AST.
#[derive(Debug)]
pub enum ParseError {
    /// The text does not follow the grammar.
    Syntax(SyntaxError),
    /// The parse tree breaks a rule of the AST.
    Build(BuildError),
}

impl GenParser {
    /// The concrete parse tree of a whole design: an entity and, optionally,
    /// its architecture. It fails exactly where the text does not follow the
    /// grammar.
    pub fn parse_tree(source: &str) -> (r: Result<ParseNode, SyntaxError>)
        ensures
            match r {
                Ok(t) => design_tree(source@) == Some(t@),
                Err(_) => design_tree(source@) is None,
            },
            r matches Ok(t) ==> t.rule == Rule::Vhdl && t.children@.len() >= 1
                && t.children@[0].rule == Rule::Entity && shaped(t),
    {
        let toks = lex(source)?;
        let input = Input { src: source, toks: &toks };
        input.design()
    }
}

/// The AST of a source text: a syntax error where the text does not follow
/// the grammar, else what the builder makes of its parse tree. A design is
/// an entity, or an entity with its architecture; the grammar only makes
/// trees that the builder accepts structurally, so no child is ever
/// reported missing.
pub fn parse(source: &str) -> (r: Result<AstNode, ParseError>)
    ensures
        match design_tree(source@) {
            None => r matches Err(ParseError::Syntax(_)),
            Some(t) => match build_tree(t) {
                Ok(a) => r matches Ok(x) && x@ == a,
                Err(e) => r matches Err(ParseError::Build(x)) && x@ == e,
            },
        },
        r matches Ok(a) ==> a@ is Entity || a@ is Gen,
        r matches Ok(a) ==> encodable(a@) && decode(encode(a@)) == Some(a@),
        r matches Ok(a) ==> well_named(a@),
        !(r matches Err(ParseError::Build(BuildError::MissingChild { .. }))),
{
    let tree = match GenParser::parse_tree(source) {
        Ok(t) => t,
        Err(e) => return Err(ParseError::Syntax(e)),
    };
    proof {
        lemma_build_view(tree);
        lemma_not_missing(tree);
        lemma_build_named(tree);
        lemma_build_encodable(tree);
        if let Ok(a) = build(tree) {
            lemma_round_trip(a);
        }
        assert(build(tree.children@[0]) is Err || build(tree.children@[0]) matches Ok(
            ast::Ast::Entity { .. },
        ));
    }
    match build_ast(&tree) {
        Ok(a) => Ok(a),
        Err(e) => Err(ParseError::Build(e)),
    }
}

/// The JSON value of the AST of a source text, which decodes back to that
/// AST; the errors are those of `parse`.
pub fn vhdl_to_json(vhdl: &str) -> (r: Result<Json, ParseError>)
    ensures
        match design_tree(vhdl@) {
            None => r matches Err(ParseError::Syntax(_)),
            Some(t) => match build_tree(t) {
                Ok(a) => r matches Ok(j) && j@ == encode(a) && decode(j@) == Some(a),
                Err(e) => r matches Err(ParseError::Build(x)) && x@ == e,
            },
        },
{
    let a = parse(vhdl)?;
    Ok(encode_ast(&a))
}

} // verus!
