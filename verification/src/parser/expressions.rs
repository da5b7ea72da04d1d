//! Expressions: precedence climbing over the binary operators, and the
//! prefix forms (literals, calls, collections, tensors, built-in calls).
use vstd::prelude::*;
use crate::lexer::TokenKind;
use crate::ast::{Expression, SExpr, exprs_view, pairs_view, lemma_exprs_view_push, lemma_pairs_view_push};
use super::{Parser, SyntaxError, expr_res_view, exprs_res_view};
use super::grammar::{
    SyntaxErrorKind, SynErr, text_at, precedence, parse_expr, parse_infix, paren_expr,
    opt_ident_after_comma, infer_args, parse_prefix, parse_identifier_expr, parse_array_items,
    parse_dict_items, parse_args, parse_tensor_row, parse_tensor_rows, tensor_tail, parse_tensor,
};

verus! {

impl Parser {
    /// Binding power of a token as a binary operator (0: not an operator).
    pub fn get_precedence(token: Option<TokenKind>) -> (p: u8)
        ensures
            p == precedence(token),
    {
        match token {
            Some(TokenKind::Or) => 1,
            Some(TokenKind::And) => 2,
            Some(TokenKind::EqualEqual) | Some(TokenKind::NotEqual) => 3,
            Some(TokenKind::LessThan) | Some(TokenKind::GreaterThan) | Some(TokenKind::LessEqual)
            | Some(TokenKind::GreaterEqual) => 4,
            Some(TokenKind::Plus) | Some(TokenKind::Minus) => 5,
            Some(TokenKind::Star) | Some(TokenKind::Slash) | Some(TokenKind::Modulo) => 6,
            _ => 0,
        }
    }

    /// An expression at the lowest precedence.
    pub fn parse_expression(&self, p: usize) -> (r: Result<(Option<Expression>, usize), SyntaxError>)
        requires
            p <= self.tokens.len(),
        ensures
            expr_res_view(r) == parse_expr(self.ts(), p as int, 0),
            r matches Ok((o, q)) ==> p <= q <= self.tokens.len() && (o is Some ==> p < q),
    {
        self.parse_expression_with_precedence(p, 0)
    }

    /// An expression whose binary operators bind tighter than `precedence`.
    pub fn parse_expression_with_precedence(&self, p: usize, precedence: u8) -> (r: Result<
        (Option<Expression>, usize),
        SyntaxError,
    >)
        requires
            p <= self.tokens.len(),
        ensures
            expr_res_view(r) == parse_expr(self.ts(), p as int, precedence),
            r matches Ok((o, q)) ==> p <= q <= self.tokens.len() && (o is Some ==> p < q),
        decreases self.tokens.len() - p, 2int,
    {
        match self.parse_prefix(p) {
            Err(e) => Err(e),
            Ok((None, q)) => Ok((None, q)),
            Ok((Some(left), q)) => self.parse_infix(left, q, precedence),
        }
    }

    /// The binary operators that follow `left`.
    fn parse_infix(&self, left: Expression, q: usize, prec: u8) -> (r: Result<
        (Option<Expression>, usize),
        SyntaxError,
    >)
        requires
            q <= self.tokens.len(),
        ensures
            expr_res_view(r) == parse_infix(self.ts(), left@, q as int, prec),
            r matches Ok((o, q2)) ==> q <= q2 <= self.tokens.len() && o is Some,
        decreases self.tokens.len() - q, 1int,
    {
        if q >= self.tokens.len() {
            return Ok((Some(left), q));
        }
        let cp = Self::get_precedence(self.kind_at(q));
        if prec >= cp {
            return Ok((Some(left), q));
        }
        let op = self.text_at(q);
        match self.parse_expression_with_precedence(q + 1, cp) {
            Err(e) => Err(e),
            Ok((None, q2)) => Ok((Some(left), q2)),
            Ok((Some(right), q2)) => {
                let e = Expression::InfixOp { left: Box::new(left), operator: op, right: Box::new(right) };
                self.parse_infix(e, q2, prec)
            },
        }
    }

    /// `kw ( expr )` with the keyword at `p`.
    pub(crate) fn paren_expr(&self, p: usize) -> (r: Result<(Option<Expression>, usize), SyntaxError>)
        requires
            p <= self.tokens.len(),
        ensures
            expr_res_view(r) == paren_expr(self.ts(), p as int),
            r matches Ok((o, q)) ==> p <= q <= self.tokens.len() && (o is Some ==> p < q),
        decreases self.tokens.len() - p, 0int,
    {
        if p >= self.tokens.len() {
            return Ok((None, p));
        }
        if !self.at(p + 1, TokenKind::ParenOpen) {
            return Ok((None, p + 1));
        }
        match self.parse_expression_with_precedence(p + 2, 0) {
            Err(e) => Err(e),
            Ok((None, q)) => Ok((None, q)),
            Ok((Some(inner), q)) => if !self.at(q, TokenKind::ParenClose) {
                Ok((None, q))
            } else {
                Ok((Some(inner), q + 1))
            },
        }
    }

    /// An optional `, identifier`.
    pub(crate) fn opt_ident_after_comma(&self, q: usize) -> (r: (Option<String>, usize))
        requires
            q <= self.tokens.len(),
        ensures
            crate::ast::opt_text_view(r.0) == opt_ident_after_comma(self.ts(), q as int).0,
            r.1 == opt_ident_after_comma(self.ts(), q as int).1,
            q <= r.1 <= self.tokens.len(),
    {
        if self.at(q, TokenKind::Comma) {
            if self.at(q + 1, TokenKind::Identifier) {
                (Some(self.text_at(q + 1)), q + 2)
            } else {
                (None, q + 1)
            }
        } else {
            (None, q)
        }
    }

    /// The arguments of an inference call from the prompt variable on.
    fn infer_args(&self, q: usize, model: String) -> (r: Result<(Option<Expression>, usize), SyntaxError>)
        requires
            q <= self.tokens.len(),
        ensures
            expr_res_view(r) == infer_args(self.ts(), q as int, model@),
            r matches Ok((o, q2)) ==> q <= q2 <= self.tokens.len() && (o is Some ==> q < q2),
    {
        if !self.at(q, TokenKind::Identifier) {
            return Ok((None, q));
        }
        let prompt = self.text_at(q);
        let (ctx, q1) = self.opt_ident_after_comma(q + 1);
        let (grm, q2) = self.opt_ident_after_comma(q1);
        if !self.at(q2, TokenKind::ParenClose) {
            return Ok((None, q2));
        }
        Ok(
            (
                Some(
                    Expression::InferCall {
                        model_name: model,
                        prompt_var: prompt,
                        context_var: ctx,
                        grammar_var: grm,
                    },
                ),
                q2 + 1,
            ),
        )
    }

    /// The expression that starts at `p`, without the operators after it.
    #[verifier::rlimit(40)]
    fn parse_prefix(&self, p: usize) -> (r: Result<(Option<Expression>, usize), SyntaxError>)
        requires
            p <= self.tokens.len(),
        ensures
            expr_res_view(r) == parse_prefix(self.ts(), p as int),
            r matches Ok((o, q)) ==> p <= q <= self.tokens.len() && (o is Some ==> p < q),
        decreases self.tokens.len() - p, 1int,
    {
        if p >= self.tokens.len() {
            return Ok((None, p));
        }
        let k = self.tokens[p].kind;
        if k == TokenKind::Minus || k == TokenKind::Bang {
            let op = self.text_at(p);
            match self.parse_expression_with_precedence(p + 1, 7) {
                Err(e) => Err(e),
                Ok((None, q)) => Ok((None, q)),
                Ok((Some(r), q)) => Ok((Some(Expression::PrefixOp { operator: op, right: Box::new(r) }), q)),
            }
        } else if k == TokenKind::ParenOpen {
            match self.parse_expression_with_precedence(p + 1, 0) {
                Err(e) => Err(e),
                Ok((None, q)) => Ok((None, q)),
                Ok((Some(e), q)) => if self.at(q, TokenKind::ParenClose) {
                    Ok((Some(e), q + 1))
                } else {
                    Ok((None, q))
                },
            }
        } else if k == TokenKind::Recv {
            if !self.at(p + 1, TokenKind::ParenOpen) {
                Ok((None, p + 1))
            } else if !self.at(p + 2, TokenKind::ParenClose) {
                Ok((None, p + 2))
            } else {
                Ok((Some(Expression::RecvCall), p + 3))
            }
        } else if k == TokenKind::True {
            Ok((Some(Expression::BooleanLiteral(true)), p + 1))
        } else if k == TokenKind::False {
            Ok((Some(Expression::BooleanLiteral(false)), p + 1))
        } else if k == TokenKind::Number {
            Ok((Some(Expression::NumberLiteral(self.text_at(p))), p + 1))
        } else if k == TokenKind::StringLiteral {
            let raw = self.text_at(p);
            let s = crate::text::string_literal_value_exec(raw.as_str());
            Ok((Some(Expression::StringLiteral(s)), p + 1))
        } else if k == TokenKind::Tensor {
            self.parse_tensor(p)
        } else if k == TokenKind::Infer {
            if !self.at(p + 1, TokenKind::ParenOpen) {
                Ok((None, p + 1))
            } else if !self.at(p + 2, TokenKind::Identifier) {
                Ok((None, p + 2))
            } else if !self.at(p + 3, TokenKind::Comma) {
                Ok((None, p + 3))
            } else {
                let model = self.text_at(p + 2);
                self.infer_args(p + 4, model)
            }
        } else if k == TokenKind::Input || k == TokenKind::Share || k == TokenKind::SysExec || k
            == TokenKind::HttpGet {
            match self.paren_expr(p) {
                Err(e) => Err(e),
                Ok((None, q)) => Ok((None, q)),
                Ok((Some(inner), q)) => {
                    let e = if k == TokenKind::Input {
                        Expression::InputCall(Box::new(inner))
                    } else if k == TokenKind::Share {
                        Expression::Share { value: Box::new(inner) }
                    } else if k == TokenKind::SysExec {
                        Expression::SysExecCall(Box::new(inner))
                    } else {
                        Expression::HttpGetCall(Box::new(inner))
                    };
                    Ok((Some(e), q))
                },
            }
        } else if k == TokenKind::ReadText {
            if !self.at(p + 1, TokenKind::ParenOpen) {
                Ok((None, p + 1))
            } else if !self.at(p + 2, TokenKind::StringLiteral) {
                Ok((None, p + 2))
            } else if !self.at(p + 3, TokenKind::ParenClose) {
                Ok((None, p + 3))
            } else {
                Ok((Some(Expression::ReadTextCall(self.trimmed_text_at(p + 2))), p + 4))
            }
        } else if k == TokenKind::Rag {
            if !self.at(p + 1, TokenKind::ParenOpen) {
                Ok((None, p + 1))
            } else if !self.at(p + 2, TokenKind::Identifier) {
                Ok((None, p + 2))
            } else if !self.at(p + 3, TokenKind::Comma) {
                Ok((None, p + 3))
            } else if !self.at(p + 4, TokenKind::Identifier) {
                Ok((None, p + 4))
            } else if !self.at(p + 5, TokenKind::ParenClose) {
                Ok((None, p + 5))
            } else {
                Ok(
                    (
                        Some(
                            Expression::RagCall {
                                query_var: self.text_at(p + 2),
                                doc_var: self.text_at(p + 4),
                            },
                        ),
                        p + 6,
                    ),
                )
            }
        } else if k == TokenKind::BracketOpen {
            match self.parse_array_items(p + 1, true, Vec::new()) {
                Err(e) => Err(e),
                Ok((items, q)) => if self.at(q, TokenKind::BracketClose) {
                    let ghost iv = exprs_view(items@);
                    let e = Expression::Array(items);
                    Ok((Some(e), q + 1))
                } else {
                    Err(self.err_at(q, SyntaxErrorKind::ArrayMissingBracket))
                },
            }
        } else if k == TokenKind::BraceOpen {
            match self.parse_dict_items(p + 1, true, Vec::new()) {
                Err(e) => Err(e),
                Ok((pairs, q)) => if self.at(q, TokenKind::BraceClose) {
                    let ghost pv = pairs_view(pairs@);
                    let e = Expression::Dictionary(pairs);
                    Ok((Some(e), q + 1))
                } else {
                    Err(self.err_at(q, SyntaxErrorKind::DictMissingBrace))
                },
            }
        } else if k == TokenKind::Identifier {
            self.parse_identifier_expr(p)
        } else {
            Ok((None, p))
        }
    }

    /// An expression that starts with an identifier.
    fn parse_identifier_expr(&self, p: usize) -> (r: Result<(Option<Expression>, usize), SyntaxError>)
        requires
            p <= self.tokens.len(),
        ensures
            expr_res_view(r) == parse_identifier_expr(self.ts(), p as int),
            r matches Ok((o, q)) ==> p <= q <= self.tokens.len() && (o is Some ==> p < q),
        decreases self.tokens.len() - p, 0int,
    {
        if p >= self.tokens.len() {
            return Ok((None, p));
        }
        let id = self.text_at(p);
        let q = p + 1;
        if self.at(q, TokenKind::Dot) {
            let q1 = q + 1;
            if self.at(q1, TokenKind::Infer) {
                if !self.at(q1 + 1, TokenKind::ParenOpen) {
                    Ok((None, q1 + 1))
                } else {
                    self.infer_args(q1 + 2, id)
                }
            } else if self.at(q1, TokenKind::CallTool) {
                let q2 = q1 + 1;
                if !self.at(q2, TokenKind::ParenOpen) {
                    Ok((None, q2))
                } else if !self.at(q2 + 1, TokenKind::StringLiteral) {
                    Err(self.err_at(q2 + 1, SyntaxErrorKind::CallToolExpectedName))
                } else if !self.at(q2 + 2, TokenKind::Comma) {
                    Err(self.err_at(q2 + 2, SyntaxErrorKind::CallToolExpectedComma))
                } else {
                    let tool = self.trimmed_text_at(q2 + 1);
                    match self.parse_expression_with_precedence(q2 + 3, 0) {
                        Err(e) => Err(e),
                        Ok((None, q3)) => Err(self.err_at(q3, SyntaxErrorKind::CallToolExpectedParams)),
                        Ok((Some(params), q3)) => if self.at(q3, TokenKind::ParenClose) {
                            Ok(
                                (
                                    Some(
                                        Expression::CallToolCall {
                                            vessel_name: id,
                                            tool_name: tool,
                                            params: Box::new(params),
                                        },
                                    ),
                                    q3 + 1,
                                ),
                            )
                        } else {
                            Err(self.err_at(q3, SyntaxErrorKind::CallToolMissingParen))
                        },
                    }
                }
            } else {
                Ok((Some(Expression::Variable(id)), q1))
            }
        } else if self.at(q, TokenKind::ParenOpen) {
            match self.parse_args(q + 1, true, Vec::new()) {
                Err(e) => Err(e),
                Ok((args, q2)) => if self.at(q2, TokenKind::ParenClose) {
                    let ghost av = exprs_view(args@);
                    let ghost nv = id@;
                    let e = Expression::FunctionCall { name: id, args };
                    Ok((Some(e), q2 + 1))
                } else {
                    Err(self.err_at(q2, SyntaxErrorKind::CallMissingParen))
                },
            }
        } else if self.at(q, TokenKind::BracketOpen) {
            match self.parse_expression_with_precedence(q + 1, 0) {
                Err(e) => Err(e),
                Ok((None, q2)) => Err(self.err_at(q2, SyntaxErrorKind::IndexExpected)),
                Ok((Some(index), q2)) => if self.at(q2, TokenKind::BracketClose) {
                    let var = Expression::Variable(id);
                    assert(var@ == SExpr::Variable(text_at(self.ts(), p as int)));
                    Ok(
                        (
                            Some(
                                Expression::IndexAccess {
                                    left: Box::new(var),
                                    index: Box::new(index),
                                },
                            ),
                            q2 + 1,
                        ),
                    )
                } else {
                    Err(self.err_at(q2, SyntaxErrorKind::IndexMissingBracket))
                },
            }
        } else {
            Ok((Some(Expression::Variable(id)), q))
        }
    }

    /// Array elements up to `]`.
    fn parse_array_items(&self, q: usize, first: bool, acc: Vec<Expression>) -> (r: Result<
        (Vec<Expression>, usize),
        SyntaxError,
    >)
        requires
            q <= self.tokens.len(),
        ensures
            exprs_res_view(r) == parse_array_items(self.ts(), q as int, first, exprs_view(acc@)),
            r matches Ok((_, q2)) ==> q <= q2 <= self.tokens.len(),
        decreases self.tokens.len() - q, if first { 4int } else { 3int },
    {
        if !(q < self.tokens.len() && self.tokens[q].kind != TokenKind::BracketClose) {
            return Ok((acc, q));
        }
        if !first && !self.at(q, TokenKind::Comma) {
            return Err(self.err_at(q, SyntaxErrorKind::ArrayExpectedComma));
        }
        let q1 = if first {
            q
        } else {
            q + 1
        };
        match self.parse_expression_with_precedence(q1, 0) {
            Err(e) => Err(e),
            Ok((oe, q2)) => {
                let mut acc = acc;
                let ghost before = acc@;
                match oe {
                    Some(e) => {
                        proof {
                            lemma_exprs_view_push(acc@, e);
                        }
                        acc.push(e);
                    },
                    None => {},
                }
                self.parse_array_items(q2, false, acc)
            },
        }
    }

    /// Dictionary entries up to `}`.
    fn parse_dict_items(&self, q: usize, first: bool, acc: Vec<(String, Expression)>) -> (r: Result<
        (Vec<(String, Expression)>, usize),
        SyntaxError,
    >)
        requires
            q <= self.tokens.len(),
        ensures
            match r {
                Err(e) => parse_dict_items(self.ts(), q as int, first, pairs_view(acc@)) == Err::<
                    (Seq<(Seq<char>, SExpr)>, int),
                    SynErr,
                >(e@),
                Ok((v, q2)) => parse_dict_items(self.ts(), q as int, first, pairs_view(acc@)) == Ok::<
                    (Seq<(Seq<char>, SExpr)>, int),
                    SynErr,
                >((pairs_view(v@), q2 as int)) && q <= q2 <= self.tokens.len(),
            },
        decreases self.tokens.len() - q, 3int,
    {
        if !(q < self.tokens.len() && self.tokens[q].kind != TokenKind::BraceClose) {
            return Ok((acc, q));
        }
        if !first && !self.at(q, TokenKind::Comma) {
            return Err(self.err_at(q, SyntaxErrorKind::DictExpectedComma));
        }
        let q1 = if first {
            q
        } else {
            q + 1
        };
        if !(self.at(q1, TokenKind::StringLiteral) || self.at(q1, TokenKind::Identifier)) {
            return Err(self.err_at(q1, SyntaxErrorKind::DictKeyNotText));
        }
        if !self.at(q1 + 1, TokenKind::Colon) {
            return Err(self.err_at(q1 + 1, SyntaxErrorKind::DictExpectedColon));
        }
        let key = if self.at(q1, TokenKind::StringLiteral) {
            self.trimmed_text_at(q1)
        } else {
            self.text_at(q1)
        };
        match self.parse_expression_with_precedence(q1 + 2, 0) {
            Err(e) => Err(e),
            Ok((ov, q2)) => {
                let mut acc = acc;
                let ghost before = acc@;
                match ov {
                    Some(v) => {
                        proof {
                            lemma_pairs_view_push(acc@, key, v);
                        }
                        acc.push((key, v));
                    },
                    None => {},
                }
                self.parse_dict_items(q2, false, acc)
            },
        }
    }

    /// Call arguments up to `)`.
    pub(crate) fn parse_args(&self, q: usize, first: bool, acc: Vec<Expression>) -> (r: Result<
        (Vec<Expression>, usize),
        SyntaxError,
    >)
        requires
            q <= self.tokens.len(),
        ensures
            exprs_res_view(r) == parse_args(self.ts(), q as int, first, exprs_view(acc@)),
            r matches Ok((_, q2)) ==> q <= q2 <= self.tokens.len(),
        decreases self.tokens.len() - q, if first { 4int } else { 3int },
    {
        if !(q < self.tokens.len() && self.tokens[q].kind != TokenKind::ParenClose) {
            return Ok((acc, q));
        }
        if !first && !self.at(q, TokenKind::Comma) {
            return Err(self.err_at(q, SyntaxErrorKind::ArgsExpectedComma));
        }
        let q1 = if first {
            q
        } else {
            q + 1
        };
        match self.parse_expression_with_precedence(q1, 0) {
            Err(e) => Err(e),
            Ok((None, q2)) => Err(self.err_at(q2, SyntaxErrorKind::ArgsInvalidExpression)),
            Ok((Some(e), q2)) => {
                let mut acc = acc;
                let ghost before = acc@;
                proof {
                    lemma_exprs_view_push(acc@, e);
                }
                acc.push(e);
                self.parse_args(q2, false, acc)
            },
        }
    }

    /// The elements of one tensor row.
    fn parse_tensor_row(&self, q: usize, count: usize, data: Vec<Expression>) -> (r: Result<
        (Vec<Expression>, usize, usize),
        SyntaxError,
    >)
        requires
            q <= self.tokens.len(),
            count <= q,
        ensures
            match r {
                Err(e) => parse_tensor_row(self.ts(), q as int, count as nat, exprs_view(data@))
                    == Err::<(Seq<SExpr>, nat, int), SynErr>(e@),
                Ok((d, c, q2)) => parse_tensor_row(self.ts(), q as int, count as nat, exprs_view(data@))
                    == Ok::<(Seq<SExpr>, nat, int), SynErr>((exprs_view(d@), c as nat, q2 as int))
                    && q <= q2 <= self.tokens.len() && c <= q2,
            },
        decreases self.tokens.len() - q, 3int,
    {
        if !(q < self.tokens.len() && self.tokens[q].kind != TokenKind::BracketClose) {
            return Ok((data, count, q));
        }
        match self.parse_expression_with_precedence(q, 0) {
            Err(e) => Err(e),
            Ok((oe, q2)) => {
                let q3 = if self.at(q2, TokenKind::Comma) {
                    q2 + 1
                } else {
                    q2
                };
                if q3 == q {
                    return Err(self.err_at(q, SyntaxErrorKind::TensorStalled));
                }
                match oe {
                    Some(e) => {
                        let mut data = data;
                        let ghost before = data@;
                        proof {
                            lemma_exprs_view_push(data@, e);
                        }
                        data.push(e);
                        self.parse_tensor_row(q3, count + 1, data)
                    },
                    None => self.parse_tensor_row(q3, count, data),
                }
            },
        }
    }

    /// The rows of a two-dimensional tensor.
    fn parse_tensor_rows(&self, q: usize, rows: usize, cols: usize, data: Vec<Expression>) -> (r:
        Result<(Vec<Expression>, usize, usize, usize), SyntaxError>)
        requires
            q <= self.tokens.len(),
            rows <= q,
            cols <= q,
        ensures
            match r {
                Err(e) => parse_tensor_rows(
                    self.ts(),
                    q as int,
                    rows as nat,
                    cols as nat,
                    exprs_view(data@),
                ) == Err::<(Seq<SExpr>, nat, nat, int), SynErr>(e@),
                Ok((d, rs, cs, q2)) => parse_tensor_rows(
                    self.ts(),
                    q as int,
                    rows as nat,
                    cols as nat,
                    exprs_view(data@),
                ) == Ok::<(Seq<SExpr>, nat, nat, int), SynErr>(
                    (exprs_view(d@), rs as nat, cs as nat, q2 as int),
                ) && q <= q2 <= self.tokens.len(),
            },
        decreases self.tokens.len() - q, 3int,
    {
        if !self.at(q, TokenKind::BracketOpen) {
            return Ok((data, rows, cols, q));
        }
        match self.parse_tensor_row(q + 1, 0, data) {
            Err(e) => Err(e),
            Ok((d, cc, q2)) => {
                let q3 = if self.at(q2, TokenKind::BracketClose) {
                    q2 + 1
                } else {
                    q2
                };
                let q4 = if self.at(q3, TokenKind::Comma) {
                    q3 + 1
                } else {
                    q3
                };
                let new_cols = if rows == 0 {
                    cc
                } else {
                    cols
                };
                self.parse_tensor_rows(q4, rows + 1, new_cols, d)
            },
        }
    }

    /// What follows a tensor's data: `] ,? grad = b )`.
    fn tensor_tail(&self, q: usize, data: Vec<Expression>, shape: Vec<usize>) -> (r: Result<
        (Option<Expression>, usize),
        SyntaxError,
    >)
        requires
            q <= self.tokens.len(),
        ensures
            expr_res_view(r) == tensor_tail(self.ts(), q as int, exprs_view(data@), shape@),
            r matches Ok((o, q2)) ==> q <= q2 <= self.tokens.len() && (o is Some ==> q < q2),
    {
        let q1 = if self.at(q, TokenKind::BracketClose) {
            q + 1
        } else {
            q
        };
        let q2 = if self.at(q1, TokenKind::Comma) {
            q1 + 1
        } else {
            q1
        };
        let (grad, q3) = if self.at(q2, TokenKind::Grad) {
            let g1 = if self.at(q2 + 1, TokenKind::Equal) {
                q2 + 2
            } else {
                q2 + 1
            };
            if self.at(g1, TokenKind::True) {
                (true, g1 + 1)
            } else if self.at(g1, TokenKind::False) {
                (false, g1 + 1)
            } else {
                (false, g1)
            }
        } else {
            (false, q2)
        };
        if self.at(q3, TokenKind::ParenClose) {
            let ghost dv = exprs_view(data@);
            let ghost sv = shape@;
            let e = Expression::TensorDeclaration { data, shape, requires_grad: grad };
            Ok((Some(e), q3 + 1))
        } else {
            Ok((None, q3))
        }
    }

    /// `tensor ( [ ... ] , grad = b )`.
    fn parse_tensor(&self, p: usize) -> (r: Result<(Option<Expression>, usize), SyntaxError>)
        requires
            p <= self.tokens.len(),
        ensures
            expr_res_view(r) == parse_tensor(self.ts(), p as int),
            r matches Ok((o, q)) ==> p <= q <= self.tokens.len() && (o is Some ==> p < q),
        decreases self.tokens.len() - p, 0int,
    {
        if p >= self.tokens.len() {
            return Ok((None, p));
        }
        if !self.at(p + 1, TokenKind::ParenOpen) {
            return Ok((None, p + 1));
        }
        if !self.at(p + 2, TokenKind::BracketOpen) {
            return Ok((None, p + 2));
        }
        let q = p + 3;
        if self.at(q, TokenKind::BracketOpen) {
            match self.parse_tensor_rows(q, 0, 0, Vec::new()) {
                Err(e) => Err(e),
                Ok((data, rows, cols, q2)) => {
                    let shape = vec![rows, cols];
                    assert(shape@ =~= seq![rows, cols]);
                    self.tensor_tail(q2, data, shape)
                },
            }
        } else {
            match self.parse_tensor_row(q, 0, Vec::new()) {
                Err(e) => Err(e),
                Ok((data, cols, q2)) => {
                    let shape = vec![cols];
                    assert(shape@ =~= seq![cols]);
                    self.tensor_tail(q2, data, shape)
                },
            }
        }
    }
}

} // verus!
