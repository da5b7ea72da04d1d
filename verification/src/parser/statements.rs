//! Statements: the statement router, declarations, control flow and blocks,
//! and whole programs.
use vstd::prelude::*;
use crate::lexer::TokenKind;
use crate::ast::{
    Statement, Expression, Program, SStmt, stmts_view, exprs_view, texts_view,
    lemma_stmts_view_push,
};
use super::{Parser, SyntaxError, stmt_res_view, stmts_res_view};
use super::grammar::{
    SyntaxErrorKind, SynErr, text_at, parse_stmt, parse_body_lenient, parse_body_strict,
    parse_braced_body, parse_let, parse_print, parse_if, parse_while, parse_params, parse_def,
    parse_identifier_stmt, opt_ident_after_comma, parse_program_from, parse_program, adv,
    ends_with_return,
};

verus! {

/// Model of the result of a block rule.
pub open spec fn block_res_view(r: Result<(Option<Vec<Statement>>, usize), SyntaxError>) -> Result<
    (Option<Seq<SStmt>>, int),
    SynErr,
> {
    match r {
        Err(e) => Err(e@),
        Ok((Some(v), q)) => Ok((Some(stmts_view(v@)), q as int)),
        Ok((None, q)) => Ok((None, q as int)),
    }
}

/// Whether a function body is closed by a `return` statement.
fn ends_with_return_exec(body: &Vec<Statement>) -> (b: bool)
    ensures
        b == ends_with_return(stmts_view(body@)),
{
    if body.len() == 0 {
        assert(stmts_view(body@) =~= Seq::<SStmt>::empty());
        return false;
    }
    assert(stmts_view(body@) == stmts_view(body@.drop_last()).push(crate::ast::stmt_view(&body@.last())));
    match &body[body.len() - 1] {
        Statement::ReturnStatement { .. } => true,
        _ => false,
    }
}

impl Parser {
    /// One statement, chosen by its first token.
    #[verifier::rlimit(80)]
    pub fn parse_statement(&self, p: usize) -> (r: Result<(Option<Statement>, usize), SyntaxError>)
        requires
            p <= self.tokens.len(),
        ensures
            stmt_res_view(r) == parse_stmt(self.ts(), p as int),
            r matches Ok((o, q)) ==> p <= q <= self.tokens.len() && (o is Some ==> p < q),
        decreases self.tokens.len() - p, 2int,
    {
        if p >= self.tokens.len() {
            return Ok((None, p));
        }
        let k = self.tokens[p].kind;
        match k {
            TokenKind::Vessel => self.parse_vessel_declaration(p),
            TokenKind::Let => self.parse_let_statement(p),
            TokenKind::Print => self.parse_print_statement(p),
            TokenKind::Import => self.parse_import_statement(p),
            TokenKind::If => self.parse_if_statement(p),
            TokenKind::While => self.parse_while_statement(p),
            TokenKind::Def => self.parse_function_declaration(p),
            TokenKind::Return => self.parse_return_statement(p),
            TokenKind::HexTrace => self.parse_hextrace_block(p),
            TokenKind::Worker => self.parse_worker_block(p),
            TokenKind::Backward => self.parse_backward_statement(p),
            TokenKind::Optim => self.parse_optim_statement(p),
            TokenKind::Reply => self.parse_reply_statement(p),
            TokenKind::Identifier => self.parse_identifier_driven_statement(p),
            TokenKind::Shield => self.parse_shield_block(p),
            TokenKind::McpServer => self.parse_mcp_server_block(p),
            TokenKind::ExposeTool => self.parse_expose_tool_statement(p),
            TokenKind::Veil => self.parse_veil_block(p),
            _ => match self.parse_expression(p) {
                Err(e) => Err(e),
                Ok((None, q)) => Ok((None, q)),
                Ok((Some(e), q)) => Ok((Some(Statement::ExpressionStatement(e)), q)),
            },
        }
    }

    /// Statements up to `}`, skipping one token after each one that fails.
    pub(crate) fn parse_body_lenient(&self, q: usize, acc: Vec<Statement>) -> (r: Result<
        (Vec<Statement>, usize),
        SyntaxError,
    >)
        requires
            q <= self.tokens.len(),
        ensures
            stmts_res_view(r) == parse_body_lenient(self.ts(), q as int, stmts_view(acc@)),
            r matches Ok((_, q2)) ==> q <= q2 <= self.tokens.len(),
        decreases self.tokens.len() - q, 3int,
    {
        if !(q < self.tokens.len() && self.tokens[q].kind != TokenKind::BraceClose) {
            return Ok((acc, q));
        }
        match self.parse_statement(q) {
            Err(e) => Err(e),
            Ok((None, q2)) => {
                let next = if q2 < self.tokens.len() {
                    q2 + 1
                } else {
                    q2
                };
                assert(next == adv(self.ts(), q2 as int));
                self.parse_body_lenient(next, acc)
            },
            Ok((Some(s), q2)) => {
                let mut acc = acc;
                proof {
                    lemma_stmts_view_push(acc@, s);
                }
                acc.push(s);
                self.parse_body_lenient(q2, acc)
            },
        }
    }

    /// Statements up to `}`, where a statement that fails is an error of kind `bad`.
    pub(crate) fn parse_body_strict(&self, q: usize, bad: SyntaxErrorKind, acc: Vec<Statement>) -> (r:
        Result<(Vec<Statement>, usize), SyntaxError>)
        requires
            q <= self.tokens.len(),
        ensures
            stmts_res_view(r) == parse_body_strict(self.ts(), q as int, bad, stmts_view(acc@)),
            r matches Ok((_, q2)) ==> q <= q2 <= self.tokens.len(),
        decreases self.tokens.len() - q, 3int,
    {
        if !(q < self.tokens.len() && self.tokens[q].kind != TokenKind::BraceClose) {
            return Ok((acc, q));
        }
        match self.parse_statement(q) {
            Err(e) => Err(e),
            Ok((None, q2)) => Err(self.err_at(q2, bad)),
            Ok((Some(s), q2)) => {
                let mut acc = acc;
                proof {
                    lemma_stmts_view_push(acc@, s);
                }
                acc.push(s);
                self.parse_body_strict(q2, bad, acc)
            },
        }
    }

    /// `{ statements }` with lenient recovery inside; `q` is at the `{`.
    pub(crate) fn parse_braced_body(&self, q: usize) -> (r: Result<
        (Option<Vec<Statement>>, usize),
        SyntaxError,
    >)
        requires
            q <= self.tokens.len(),
        ensures
            block_res_view(r) == parse_braced_body(self.ts(), q as int),
            r matches Ok((o, q2)) ==> q <= q2 <= self.tokens.len() && (o is Some ==> q < q2),
        decreases self.tokens.len() - q, 4int,
    {
        if !self.at(q, TokenKind::BraceOpen) {
            return Ok((None, q));
        }
        match self.parse_body_lenient(q + 1, Vec::new()) {
            Err(e) => Err(e),
            Ok((body, q2)) => if self.at(q2, TokenKind::BraceClose) {
                Ok((Some(body), q2 + 1))
            } else {
                Ok((None, q2))
            },
        }
    }

    /// `import "path"`.
    fn parse_import_statement(&self, p: usize) -> (r: Result<(Option<Statement>, usize), SyntaxError>)
        requires
            p < self.tokens.len(),
            self.tokens[p as int].kind == TokenKind::Import,
        ensures
            stmt_res_view(r) == parse_stmt(self.ts(), p as int),
            r matches Ok((o, q)) ==> p <= q <= self.tokens.len() && (o is Some ==> p < q),
        decreases self.tokens.len() - p, 1int,
    {
        if self.at(p + 1, TokenKind::StringLiteral) {
            let path = self.trimmed_text_at(p + 1);
            Ok((Some(Statement::ImportStatement { path }), p + 2))
        } else {
            Ok((None, p + 1))
        }
    }

    /// `return e`.
    fn parse_return_statement(&self, p: usize) -> (r: Result<(Option<Statement>, usize), SyntaxError>)
        requires
            p < self.tokens.len(),
            self.tokens[p as int].kind == TokenKind::Return,
        ensures
            stmt_res_view(r) == parse_stmt(self.ts(), p as int),
            r matches Ok((o, q)) ==> p <= q <= self.tokens.len() && (o is Some ==> p < q),
        decreases self.tokens.len() - p, 1int,
    {
        match self.parse_expression(p + 1) {
            Err(e) => Err(e),
            Ok((None, q)) => Ok((None, q)),
            Ok((Some(v), q)) => Ok((Some(Statement::ReturnStatement { value: v }), q)),
        }
    }

    /// `let name = e`.
    fn parse_let_statement(&self, p: usize) -> (r: Result<(Option<Statement>, usize), SyntaxError>)
        requires
            p <= self.tokens.len(),
        ensures
            stmt_res_view(r) == parse_let(self.ts(), p as int),
            r matches Ok((o, q)) ==> p <= q <= self.tokens.len() && (o is Some ==> p < q),
        decreases self.tokens.len() - p, 1int,
    {
        if p >= self.tokens.len() {
            return Ok((None, p));
        }
        if !self.at(p + 1, TokenKind::Identifier) {
            return Ok((None, p + 1));
        }
        if !self.at(p + 2, TokenKind::Equal) {
            return Ok((None, p + 2));
        }
        match self.parse_expression(p + 3) {
            Err(e) => Err(e),
            Ok((None, q)) => Ok((None, q)),
            Ok((Some(v), q)) => Ok((Some(Statement::LetStatement { name: self.text_at(p + 1), value: v }), q)),
        }
    }

    /// `print ( e )`.
    fn parse_print_statement(&self, p: usize) -> (r: Result<(Option<Statement>, usize), SyntaxError>)
        requires
            p <= self.tokens.len(),
        ensures
            stmt_res_view(r) == parse_print(self.ts(), p as int),
            r matches Ok((o, q)) ==> p <= q <= self.tokens.len() && (o is Some ==> p < q),
        decreases self.tokens.len() - p, 1int,
    {
        match self.paren_expr(p) {
            Err(e) => Err(e),
            Ok((None, q)) => Ok((None, q)),
            Ok((Some(v), q)) => Ok((Some(Statement::PrintStatement { value: v }), q)),
        }
    }

    /// `if cond { ... } [else if ... | else { ... }]`.
    fn parse_if_statement(&self, p: usize) -> (r: Result<(Option<Statement>, usize), SyntaxError>)
        requires
            p <= self.tokens.len(),
        ensures
            stmt_res_view(r) == parse_if(self.ts(), p as int),
            r matches Ok((o, q)) ==> p <= q <= self.tokens.len() && (o is Some ==> p < q),
        decreases self.tokens.len() - p, 1int,
    {
        if p >= self.tokens.len() {
            return Ok((None, p));
        }
        let (cond, q) = match self.parse_expression(p + 1) {
            Err(e) => {
                return Err(e);
            },
            Ok((None, q)) => {
                return Ok((None, q));
            },
            Ok((Some(c), q)) => (c, q),
        };
        if !self.at(q, TokenKind::BraceOpen) {
            return Err(self.err_at(q, SyntaxErrorKind::IfExpectedBrace));
        }
        let (cons, q2) = match self.parse_body_strict(q + 1, SyntaxErrorKind::IfInvalidBody, Vec::new()) {
            Err(e) => {
                return Err(e);
            },
            Ok((c, q2)) => (c, q2),
        };
        if !self.at(q2, TokenKind::BraceClose) {
            return Err(self.err_at(q2, SyntaxErrorKind::IfMissingBrace));
        }
        if !self.at(q2 + 1, TokenKind::Else) {
            return Ok(
                (
                    Some(Statement::IfStatement { condition: cond, consequence: cons, alternative: None }),
                    q2 + 1,
                ),
            );
        }
        if self.at(q2 + 2, TokenKind::If) {
            match self.parse_if_statement(q2 + 2) {
                Err(e) => Err(e),
                Ok((alt, q3)) => {
                    let alternative = match alt {
                        Some(s) => {
                            let v = vec![s];
                            proof {
                                lemma_stmts_view_push(Seq::empty(), v@[0]);
                                assert(Seq::<Statement>::empty().push(v@[0]) =~= v@);
                            }
                            Some(v)
                        },
                        None => None,
                    };
                    Ok(
                        (
                            Some(
                                Statement::IfStatement {
                                    condition: cond,
                                    consequence: cons,
                                    alternative,
                                },
                            ),
                            q3,
                        ),
                    )
                },
            }
        } else if !self.at(q2 + 2, TokenKind::BraceOpen) {
            Err(self.err_at(q2 + 2, SyntaxErrorKind::ElseExpectedBrace))
        } else {
            match self.parse_body_strict(q2 + 3, SyntaxErrorKind::ElseInvalidBody, Vec::new()) {
                Err(e) => Err(e),
                Ok((alt, q3)) => if self.at(q3, TokenKind::BraceClose) {
                    Ok(
                        (
                            Some(
                                Statement::IfStatement {
                                    condition: cond,
                                    consequence: cons,
                                    alternative: Some(alt),
                                },
                            ),
                            q3 + 1,
                        ),
                    )
                } else {
                    Err(self.err_at(q3, SyntaxErrorKind::ElseMissingBrace))
                },
            }
        }
    }

    /// `while cond { ... }`.
    fn parse_while_statement(&self, p: usize) -> (r: Result<(Option<Statement>, usize), SyntaxError>)
        requires
            p <= self.tokens.len(),
        ensures
            stmt_res_view(r) == parse_while(self.ts(), p as int),
            r matches Ok((o, q)) ==> p <= q <= self.tokens.len() && (o is Some ==> p < q),
        decreases self.tokens.len() - p, 1int,
    {
        if p >= self.tokens.len() {
            return Ok((None, p));
        }
        match self.parse_expression(p + 1) {
            Err(e) => Err(e),
            Ok((None, q)) => Ok((None, q)),
            Ok((Some(cond), q)) => match self.parse_braced_body(q) {
                Err(e) => Err(e),
                Ok((None, q2)) => Ok((None, q2)),
                Ok((Some(body), q2)) => Ok((Some(Statement::WhileStatement { condition: cond, body }), q2)),
            },
        }
    }

    /// Parameter names up to `)`.
    fn parse_params(&self, q: usize, first: bool, acc: Vec<String>) -> (r: Result<
        (Vec<String>, usize),
        SyntaxError,
    >)
        requires
            q <= self.tokens.len(),
        ensures
            match r {
                Err(e) => parse_params(self.ts(), q as int, first, texts_view(acc@)) == Err::<
                    (Seq<Seq<char>>, int),
                    SynErr,
                >(e@),
                Ok((v, q2)) => parse_params(self.ts(), q as int, first, texts_view(acc@)) == Ok::<
                    (Seq<Seq<char>>, int),
                    SynErr,
                >((texts_view(v@), q2 as int)) && q <= q2 <= self.tokens.len(),
            },
        decreases self.tokens.len() - q,
    {
        if !(q < self.tokens.len() && self.tokens[q].kind != TokenKind::ParenClose) {
            return Ok((acc, q));
        }
        if !first && !self.at(q, TokenKind::Comma) {
            return Err(self.err_at(q, SyntaxErrorKind::ParamsExpectedComma));
        }
        let q1 = if first {
            q
        } else {
            q + 1
        };
        if self.at(q1, TokenKind::Identifier) {
            let mut acc = acc;
            let ghost before = acc@;
            acc.push(self.text_at(q1));
            assert(texts_view(acc@) =~= texts_view(before).push(text_at(self.ts(), q1 as int)));
            self.parse_params(q1 + 1, false, acc)
        } else {
            Err(self.err_at(q1, SyntaxErrorKind::ParamExpectedName))
        }
    }

    /// `def name ( params ) { ... }`, whose body must end with a `return`.
    fn parse_function_declaration(&self, p: usize) -> (r: Result<(Option<Statement>, usize), SyntaxError>)
        requires
            p <= self.tokens.len(),
        ensures
            stmt_res_view(r) == parse_def(self.ts(), p as int),
            r matches Ok((o, q)) ==> p <= q <= self.tokens.len() && (o is Some ==> p < q),
        decreases self.tokens.len() - p, 1int,
    {
        if p >= self.tokens.len() {
            return Ok((None, p));
        }
        if !self.at(p + 1, TokenKind::Identifier) {
            return Ok((None, p + 1));
        }
        if !self.at(p + 2, TokenKind::ParenOpen) {
            return Ok((None, p + 2));
        }
        proof {
            assert(texts_view(Seq::<String>::empty()) =~= Seq::<Seq<char>>::empty());
        }
        let (params, q) = match self.parse_params(p + 3, true, Vec::new()) {
            Err(e) => {
                return Err(e);
            },
            Ok(x) => x,
        };
        if !self.at(q, TokenKind::ParenClose) {
            return Err(self.err_at(q, SyntaxErrorKind::ParamsMissingParen));
        }
        if !self.at(q + 1, TokenKind::BraceOpen) {
            return Err(self.err_at(q + 1, SyntaxErrorKind::FnExpectedBrace));
        }
        match self.parse_body_strict(q + 2, SyntaxErrorKind::FnInvalidBody, Vec::new()) {
            Err(e) => Err(e),
            Ok((body, q2)) => if !self.at(q2, TokenKind::BraceClose) {
                Err(self.err_at(q2, SyntaxErrorKind::FnMissingBrace))
            } else if !ends_with_return_exec(&body) {
                Err(self.err_at(q2, SyntaxErrorKind::FnMissingReturn))
            } else {
                Ok(
                    (
                        Some(
                            Statement::FunctionDeclaration { name: self.text_at(p + 1), params, body },
                        ),
                        q2 + 1,
                    ),
                )
            },
        }
    }

    /// `x = e`, `f(args)` (kept as `let _ = f(args)`), or
    /// `v.infer(prompt [, context [, grammar]])`.
    fn parse_identifier_driven_statement(&self, p: usize) -> (r: Result<
        (Option<Statement>, usize),
        SyntaxError,
    >)
        requires
            p <= self.tokens.len(),
        ensures
            stmt_res_view(r) == parse_identifier_stmt(self.ts(), p as int),
            r matches Ok((o, q)) ==> p <= q <= self.tokens.len() && (o is Some ==> p < q),
        decreases self.tokens.len() - p, 1int,
    {
        if p >= self.tokens.len() {
            return Ok((None, p));
        }
        let name = self.text_at(p);
        let q = p + 1;
        if self.at(q, TokenKind::Equal) {
            match self.parse_expression(q + 1) {
                Err(e) => Err(e),
                Ok((None, q2)) => Ok((None, q2)),
                Ok((Some(v), q2)) => Ok((Some(Statement::AssignmentStatement { name, value: v }), q2)),
            }
        } else if self.at(q, TokenKind::ParenOpen) {
            match self.parse_args(q + 1, true, Vec::new()) {
                Err(e) => Err(e),
                Ok((args, q2)) => if self.at(q2, TokenKind::ParenClose) {
                    let call = Expression::FunctionCall { name, args };
                    let underscore = String::from_str("_");
                    Ok((Some(Statement::LetStatement { name: underscore, value: call }), q2 + 1))
                } else {
                    Err(self.err_at(q2, SyntaxErrorKind::CallMissingParen))
                },
            }
        } else if self.at(q, TokenKind::Dot) {
            if !self.at(q + 1, TokenKind::Infer) {
                Ok((None, q + 1))
            } else if !self.at(q + 2, TokenKind::ParenOpen) {
                Ok((None, q + 2))
            } else if !self.at(q + 3, TokenKind::Identifier) {
                Ok((None, q + 3))
            } else {
                let (ctx, q4) = self.opt_ident_after_comma(q + 4);
                let (grm, q5) = self.opt_ident_after_comma(q4);
                if self.at(q5, TokenKind::ParenClose) {
                    Ok(
                        (
                            Some(
                                Statement::InferStatement {
                                    model_name: name,
                                    prompt_var: self.text_at(q + 3),
                                    context_var: ctx,
                                    grammar_var: grm,
                                },
                            ),
                            q5 + 1,
                        ),
                    )
                } else {
                    Ok((None, q5))
                }
            }
        } else {
            Ok((None, q))
        }
    }

    /// Parses a program from position `p` on, appending to `acc`.
    #[verifier::rlimit(80)]
    pub(crate) fn parse_program_from(&self, p: usize, acc: Vec<Statement>) -> (r: Result<
        Vec<Statement>,
        SyntaxError,
    >)
        requires
            p <= self.tokens.len(),
        ensures
            match r {
                Ok(v) => parse_program_from(self.ts(), p as int, stmts_view(acc@)) == Ok::<
                    Seq<SStmt>,
                    SynErr,
                >(stmts_view(v@)),
                Err(e) => parse_program_from(self.ts(), p as int, stmts_view(acc@)) == Err::<
                    Seq<SStmt>,
                    SynErr,
                >(e@),
            },
        decreases self.tokens.len() - p,
    {
        if p >= self.tokens.len() {
            return Ok(acc);
        }
        match self.parse_statement(p) {
            Err(e) => Err(e),
            Ok((None, q)) => Err(self.err_at(q, SyntaxErrorKind::UnrecognizedStatement)),
            Ok((Some(s), q)) => {
                let mut acc = acc;
                proof {
                    lemma_stmts_view_push(acc@, s);
                }
                acc.push(s);
                self.parse_program_from(q, acc)
            },
        }
    }

    /// Parses the whole program from the parser's position; a token sequence
    /// that starts no statement is a syntax error. The parser ends at the end
    /// of the input.
    pub fn parse(&mut self) -> (r: Result<Program, SyntaxError>)
        ensures
            final(self).tokens@ == old(self).tokens@,
            final(self).pos == old(self).tokens@.len(),
            match r {
                Ok(prog) => parse_program_from(old(self).ts(), old(self).pos as int, Seq::empty())
                    == Ok::<Seq<SStmt>, SynErr>(prog@),
                Err(e) => parse_program_from(old(self).ts(), old(self).pos as int, Seq::empty())
                    == Err::<Seq<SStmt>, SynErr>(e@),
            },
    {
        let start = self.pos;
        if start > self.tokens.len() {
            self.pos = self.tokens.len();
            return Ok(Program { statements: Vec::new() });
        }
        let r = self.parse_program_from(start, Vec::new());
        self.pos = self.tokens.len();
        match r {
            Ok(statements) => Ok(Program { statements }),
            Err(e) => Err(e),
        }
    }
}

/// Parses a whole source text.
pub fn parse_source(source: &str) -> (r: Result<Program, SyntaxError>)
    ensures
        match r {
            Ok(prog) => parse_program(crate::lexer::lex(source@)) == Ok::<Seq<SStmt>, SynErr>(prog@),
            Err(e) => parse_program(crate::lexer::lex(source@)) == Err::<Seq<SStmt>, SynErr>(e@),
        },
{
    let mut parser = Parser::new(source);
    parser.parse()
}

} // verus!
