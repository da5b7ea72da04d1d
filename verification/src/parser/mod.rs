//! The Jutsu parser: a Pratt parser for expressions and a recursive-descent
//! parser for statements.
//!
//! The parser works on the token vector that the lexer produced. Each rule
//! takes a position and returns what it recognised with the position it
//! reached, exactly as the rule of the same name in `grammar` says.
pub mod grammar;
pub mod expressions;
pub mod statements;
pub mod system;
pub mod ai;
pub mod laws;

use vstd::prelude::*;
use crate::lexer::{Token, TokenKind, tokenize, tokens_view, lex, SpecToken};
use crate::ast::{Expression, Statement, Program, SExpr, SStmt, exprs_view, stmts_view};
use self::grammar::{
    SyntaxErrorKind, SynErr, ExprRes, StmtRes, kind_at, at, text_at, err_at, parse_program_from,
    parse_program,
};

verus! {

/// A syntax error: its kind and the text of the token it was found at (empty
/// at the end of the input).
#[derive(Debug)]
pub struct SyntaxError {
    pub kind: SyntaxErrorKind,
    pub near: String,
}

impl View for SyntaxError {
    type V = SynErr;

    open spec fn view(&self) -> SynErr {
        SynErr { kind: self.kind, near: self.near@ }
    }
}

/// The parser: the tokens of a source text and the position reached.
pub struct Parser {
    pub tokens: Vec<Token>,
    pub pos: usize,
}

/// Model of the result of an expression rule.
pub open spec fn expr_res_view(r: Result<(Option<Expression>, usize), SyntaxError>) -> ExprRes {
    match r {
        Err(e) => Err(e@),
        Ok((Some(e), q)) => Ok((Some(e@), q as int)),
        Ok((None, q)) => Ok((None, q as int)),
    }
}

/// Model of the result of a statement rule.
pub open spec fn stmt_res_view(r: Result<(Option<Statement>, usize), SyntaxError>) -> StmtRes {
    match r {
        Err(e) => Err(e@),
        Ok((Some(s), q)) => Ok((Some(s@), q as int)),
        Ok((None, q)) => Ok((None, q as int)),
    }
}

/// Model of the result of a rule that yields a list of expressions.
pub open spec fn exprs_res_view(r: Result<(Vec<Expression>, usize), SyntaxError>) -> Result<
    (Seq<SExpr>, int),
    SynErr,
> {
    match r {
        Err(e) => Err(e@),
        Ok((v, q)) => Ok((exprs_view(v@), q as int)),
    }
}

/// Model of the result of a rule that yields a list of statements.
pub open spec fn stmts_res_view(r: Result<(Vec<Statement>, usize), SyntaxError>) -> Result<
    (Seq<SStmt>, int),
    SynErr,
> {
    match r {
        Err(e) => Err(e@),
        Ok((v, q)) => Ok((stmts_view(v@), q as int)),
    }
}

/// A position reached by a rule that started at `p`, on an `Ok` result.
pub open spec fn res_pos_ok<T>(r: Result<(T, usize), SyntaxError>, p: int, len: int) -> bool {
    r matches Ok((_, q)) ==> p <= q <= len
}

impl Parser {
    /// The model of the parser's tokens.
    pub open spec fn ts(&self) -> Seq<SpecToken> {
        tokens_view(self.tokens@)
    }

    /// Reads the tokens of a source text; the parser starts at the first one.
    pub fn new(source: &str) -> (p: Parser)
        ensures
            p.ts() == lex(source@),
            p.pos == 0,
    {
        Parser { tokens: tokenize(source), pos: 0 }
    }

    pub(crate) fn kind_at(&self, p: usize) -> (k: Option<TokenKind>)
        ensures
            k == kind_at(self.ts(), p as int),
    {
        if p < self.tokens.len() {
            Some(self.tokens[p].kind)
        } else {
            None
        }
    }

    pub(crate) fn at(&self, p: usize, k: TokenKind) -> (b: bool)
        ensures
            b == at(self.ts(), p as int, k),
            b ==> p < self.tokens.len(),
    {
        p < self.tokens.len() && self.tokens[p].kind == k
    }

    pub(crate) fn text_at(&self, p: usize) -> (s: String)
        ensures
            s@ == text_at(self.ts(), p as int),
    {
        if p < self.tokens.len() {
            self.tokens[p].text.clone()
        } else {
            String::new()
        }
    }

    pub(crate) fn err_at(&self, p: usize, k: SyntaxErrorKind) -> (e: SyntaxError)
        ensures
            e@ == err_at(self.ts(), p as int, k),
    {
        SyntaxError { kind: k, near: self.text_at(p) }
    }

    /// The string value of the string literal token at `p`, quotes trimmed.
    pub(crate) fn trimmed_text_at(&self, p: usize) -> (s: String)
        ensures
            s@ == crate::text::trim_matches_spec(text_at(self.ts(), p as int), '"'),
    {
        let t = self.text_at(p);
        crate::text::trim_matches(t.as_str(), '"')
    }

}

} // verus!
