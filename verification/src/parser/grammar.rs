//! The grammar of Jutsu, as functions over the token sequence.
//!
//! Each function reads the tokens from a position and returns either a syntax
//! error, or what it recognised (`None` when the construct is incomplete) with
//! the position the parser reached. An incomplete construct keeps the tokens it
//! consumed consumed, and the enclosing rule decides what to do next.
use vstd::prelude::*;
use crate::lexer::{SpecToken, TokenKind};
use crate::ast::{SExpr, SStmt};
use crate::text::{trim_matches_spec, string_literal_value};

verus! {

/// Why a program is rejected.
#[derive(Clone, Copy, Debug, PartialEq, Eq, Structural)]
pub enum SyntaxErrorKind {
    UnrecognizedStatement,
    ArrayExpectedComma,
    ArrayMissingBracket,
    DictExpectedComma,
    DictKeyNotText,
    DictExpectedColon,
    DictMissingBrace,
    CallToolExpectedName,
    CallToolExpectedComma,
    CallToolExpectedParams,
    CallToolMissingParen,
    ArgsExpectedComma,
    ArgsInvalidExpression,
    CallMissingParen,
    IndexExpected,
    IndexMissingBracket,
    IfExpectedBrace,
    IfInvalidBody,
    IfMissingBrace,
    ElseExpectedBrace,
    ElseInvalidBody,
    ElseMissingBrace,
    ParamsExpectedComma,
    ParamExpectedName,
    ParamsMissingParen,
    FnExpectedBrace,
    FnInvalidBody,
    FnMissingBrace,
    /// A function body that does not end with a `return` statement: every
    /// function must be closed by one.
    FnMissingReturn,
    /// A tensor element that is neither an expression nor a comma: the parser
    /// would make no further progress.
    TensorStalled,
    /// A rule ended before the position it started at or past the end of the
    /// tokens; the grammar checks this so that parsing provably ends.
    NoProgress,
}

/// Model of a syntax error: its kind and the text of the token it was found at.
pub struct SynErr {
    pub kind: SyntaxErrorKind,
    pub near: Seq<char>,
}

// ---------------------------------------------------------------------------
// Looking at tokens
// ---------------------------------------------------------------------------
pub open spec fn kind_at(ts: Seq<SpecToken>, p: int) -> Option<TokenKind> {
    if 0 <= p < ts.len() {
        Some(ts[p].kind)
    } else {
        None
    }
}

pub open spec fn at(ts: Seq<SpecToken>, p: int, k: TokenKind) -> bool {
    kind_at(ts, p) == Some(k)
}

pub open spec fn text_at(ts: Seq<SpecToken>, p: int) -> Seq<char> {
    if 0 <= p < ts.len() {
        ts[p].text
    } else {
        Seq::empty()
    }
}

/// The position after moving past the current token (staying at the end).
pub open spec fn adv(ts: Seq<SpecToken>, p: int) -> int {
    if 0 <= p < ts.len() {
        p + 1
    } else {
        p
    }
}

pub open spec fn err_at(ts: Seq<SpecToken>, p: int, k: SyntaxErrorKind) -> SynErr {
    SynErr { kind: k, near: text_at(ts, p) }
}

/// Binding power of a token as a binary operator (0: not an operator).
pub open spec fn precedence(k: Option<TokenKind>) -> u8 {
    match k {
        Some(TokenKind::Or) => 1,
        Some(TokenKind::And) => 2,
        Some(TokenKind::EqualEqual) | Some(TokenKind::NotEqual) => 3,
        Some(TokenKind::LessThan) | Some(TokenKind::GreaterThan) | Some(TokenKind::LessEqual)
        | Some(TokenKind::GreaterEqual) => 4,
        Some(TokenKind::Plus) | Some(TokenKind::Minus) => 5,
        Some(TokenKind::Star) | Some(TokenKind::Slash) | Some(TokenKind::Modulo) => 6,
        _ => 0,
    }
}

/// A position reached by a sub-rule that started at `from`.
pub open spec fn reached(ts: Seq<SpecToken>, from: int, to: int) -> bool {
    from <= to <= ts.len()
}

/// Result of a rule that yields an expression.
pub type ExprRes = Result<(Option<SExpr>, int), SynErr>;

/// Result of a rule that yields a statement.
pub type StmtRes = Result<(Option<SStmt>, int), SynErr>;

/// An optional `, identifier` (the identifier itself may be missing).
pub open spec fn opt_ident_after_comma(ts: Seq<SpecToken>, q: int) -> (Option<Seq<char>>, int) {
    if at(ts, q, TokenKind::Comma) {
        if at(ts, q + 1, TokenKind::Identifier) {
            (Some(text_at(ts, q + 1)), q + 2)
        } else {
            (None, q + 1)
        }
    } else {
        (None, q)
    }
}

/// The argument list of an inference call, from the prompt variable on:
/// `prompt [, [context]] [, [grammar]] )`. `model` names the vessel.
pub open spec fn infer_args(ts: Seq<SpecToken>, q: int, model: Seq<char>) -> ExprRes {
    if !at(ts, q, TokenKind::Identifier) {
        Ok((None, q))
    } else {
        let prompt = text_at(ts, q);
        let (ctx, q1) = opt_ident_after_comma(ts, q + 1);
        let (grm, q2) = opt_ident_after_comma(ts, q1);
        if !at(ts, q2, TokenKind::ParenClose) {
            Ok((None, q2))
        } else {
            Ok(
                (
                    Some(
                        SExpr::InferCall {
                            model_name: model,
                            prompt_var: prompt,
                            context_var: ctx,
                            grammar_var: grm,
                        },
                    ),
                    q2 + 1,
                ),
            )
        }
    }
}

// ---------------------------------------------------------------------------
// Expressions
// ---------------------------------------------------------------------------
/// An expression whose binary operators bind tighter than `prec`.
pub open spec fn parse_expr(ts: Seq<SpecToken>, p: int, prec: u8) -> ExprRes
    decreases ts.len() - p, 2int,
{
    if p < 0 || p > ts.len() {
        Ok((None, p))
    } else {
        match parse_prefix(ts, p) {
            Err(e) => Err(e),
            Ok((None, q)) => Ok((None, q)),
            Ok((Some(left), q)) => if reached(ts, p, q) {
                parse_infix(ts, left, q, prec)
            } else {
                Err(err_at(ts, q, SyntaxErrorKind::NoProgress))
            },
        }
    }
}

/// The binary operators that follow `left`, by precedence climbing.
pub open spec fn parse_infix(ts: Seq<SpecToken>, left: SExpr, q: int, prec: u8) -> ExprRes
    decreases ts.len() - q, 1int,
{
    if q < 0 || q >= ts.len() {
        Ok((Some(left), q))
    } else {
        let cp = precedence(kind_at(ts, q));
        if prec >= cp {
            Ok((Some(left), q))
        } else {
            let op = text_at(ts, q);
            match parse_expr(ts, q + 1, cp) {
                Err(e) => Err(e),
                Ok((None, q2)) => Ok((Some(left), q2)),
                Ok((Some(right), q2)) => if reached(ts, q + 1, q2) {
                    parse_infix(
                        ts,
                        SExpr::InfixOp { left: Box::new(left), operator: op, right: Box::new(right) },
                        q2,
                        prec,
                    )
                } else {
                    Err(err_at(ts, q2, SyntaxErrorKind::NoProgress))
                },
            }
        }
    }
}

/// `kw ( expr )` where the keyword is at `p`: the expression in the parentheses.
pub open spec fn paren_expr(ts: Seq<SpecToken>, p: int) -> ExprRes
    decreases ts.len() - p, 0int,
{
    if !(0 <= p < ts.len()) {
        Ok((None, p))
    } else if !at(ts, p + 1, TokenKind::ParenOpen) {
        Ok((None, p + 1))
    } else {
        match parse_expr(ts, p + 2, 0) {
            Err(e) => Err(e),
            Ok((None, q)) => Ok((None, q)),
            Ok((Some(inner), q)) => if !at(ts, q, TokenKind::ParenClose) {
                Ok((None, q))
            } else {
                Ok((Some(inner), q + 1))
            },
        }
    }
}

/// The expression that starts at `p`, without the binary operators after it.
pub open spec fn parse_prefix(ts: Seq<SpecToken>, p: int) -> ExprRes
    decreases ts.len() - p, 1int,
{
    if !(0 <= p < ts.len()) {
        Ok((None, p))
    } else {
        let k = ts[p].kind;
        if k == TokenKind::Minus || k == TokenKind::Bang {
            let op = text_at(ts, p);
            match parse_expr(ts, p + 1, 7) {
                Err(e) => Err(e),
                Ok((None, q)) => Ok((None, q)),
                Ok((Some(r), q)) => Ok((Some(SExpr::PrefixOp { operator: op, right: Box::new(r) }), q)),
            }
        } else if k == TokenKind::ParenOpen {
            match parse_expr(ts, p + 1, 0) {
                Err(e) => Err(e),
                Ok((None, q)) => Ok((None, q)),
                Ok((Some(e), q)) => if at(ts, q, TokenKind::ParenClose) {
                    Ok((Some(e), q + 1))
                } else {
                    Ok((None, q))
                },
            }
        } else if k == TokenKind::Recv {
            if !at(ts, p + 1, TokenKind::ParenOpen) {
                Ok((None, p + 1))
            } else if !at(ts, p + 2, TokenKind::ParenClose) {
                Ok((None, p + 2))
            } else {
                Ok((Some(SExpr::RecvCall), p + 3))
            }
        } else if k == TokenKind::True {
            Ok((Some(SExpr::BooleanLiteral(true)), p + 1))
        } else if k == TokenKind::False {
            Ok((Some(SExpr::BooleanLiteral(false)), p + 1))
        } else if k == TokenKind::Number {
            Ok((Some(SExpr::NumberLiteral(text_at(ts, p))), p + 1))
        } else if k == TokenKind::StringLiteral {
            Ok((Some(SExpr::StringLiteral(string_literal_value(text_at(ts, p)))), p + 1))
        } else if k == TokenKind::Tensor {
            parse_tensor(ts, p)
        } else if k == TokenKind::Infer {
            if !at(ts, p + 1, TokenKind::ParenOpen) {
                Ok((None, p + 1))
            } else if !at(ts, p + 2, TokenKind::Identifier) {
                Ok((None, p + 2))
            } else if !at(ts, p + 3, TokenKind::Comma) {
                Ok((None, p + 3))
            } else {
                infer_args(ts, p + 4, text_at(ts, p + 2))
            }
        } else if k == TokenKind::Input || k == TokenKind::Share || k == TokenKind::SysExec || k
            == TokenKind::HttpGet {
            match paren_expr(ts, p) {
                Err(e) => Err(e),
                Ok((None, q)) => Ok((None, q)),
                Ok((Some(inner), q)) => Ok(
                    (
                        Some(
                            if k == TokenKind::Input {
                                SExpr::InputCall(Box::new(inner))
                            } else if k == TokenKind::Share {
                                SExpr::Share { value: Box::new(inner) }
                            } else if k == TokenKind::SysExec {
                                SExpr::SysExecCall(Box::new(inner))
                            } else {
                                SExpr::HttpGetCall(Box::new(inner))
                            },
                        ),
                        q,
                    ),
                ),
            }
        } else if k == TokenKind::ReadText {
            if !at(ts, p + 1, TokenKind::ParenOpen) {
                Ok((None, p + 1))
            } else if !at(ts, p + 2, TokenKind::StringLiteral) {
                Ok((None, p + 2))
            } else if !at(ts, p + 3, TokenKind::ParenClose) {
                Ok((None, p + 3))
            } else {
                Ok((Some(SExpr::ReadTextCall(trim_matches_spec(text_at(ts, p + 2), '"'))), p + 4))
            }
        } else if k == TokenKind::Rag {
            if !at(ts, p + 1, TokenKind::ParenOpen) {
                Ok((None, p + 1))
            } else if !at(ts, p + 2, TokenKind::Identifier) {
                Ok((None, p + 2))
            } else if !at(ts, p + 3, TokenKind::Comma) {
                Ok((None, p + 3))
            } else if !at(ts, p + 4, TokenKind::Identifier) {
                Ok((None, p + 4))
            } else if !at(ts, p + 5, TokenKind::ParenClose) {
                Ok((None, p + 5))
            } else {
                Ok(
                    (
                        Some(
                            SExpr::RagCall {
                                query_var: text_at(ts, p + 2),
                                doc_var: text_at(ts, p + 4),
                            },
                        ),
                        p + 6,
                    ),
                )
            }
        } else if k == TokenKind::BracketOpen {
            match parse_array_items(ts, p + 1, true, Seq::empty()) {
                Err(e) => Err(e),
                Ok((items, q)) => if at(ts, q, TokenKind::BracketClose) {
                    Ok((Some(SExpr::Array(items)), q + 1))
                } else {
                    Err(err_at(ts, q, SyntaxErrorKind::ArrayMissingBracket))
                },
            }
        } else if k == TokenKind::BraceOpen {
            match parse_dict_items(ts, p + 1, true, Seq::empty()) {
                Err(e) => Err(e),
                Ok((pairs, q)) => if at(ts, q, TokenKind::BraceClose) {
                    Ok((Some(SExpr::Dictionary(pairs)), q + 1))
                } else {
                    Err(err_at(ts, q, SyntaxErrorKind::DictMissingBrace))
                },
            }
        } else if k == TokenKind::Identifier {
            parse_identifier_expr(ts, p)
        } else {
            Ok((None, p))
        }
    }
}

/// An expression that starts with an identifier: a variable, a call, an index
/// access, or a method call on a vessel (`.infer(..)`, `.call(..)`).
pub open spec fn parse_identifier_expr(ts: Seq<SpecToken>, p: int) -> ExprRes
    decreases ts.len() - p, 0int,
{
    if !(0 <= p < ts.len()) {
        Ok((None, p))
    } else {
        let id = text_at(ts, p);
        let q = p + 1;
        if at(ts, q, TokenKind::Dot) {
            let q1 = q + 1;
            if at(ts, q1, TokenKind::Infer) {
                if !at(ts, q1 + 1, TokenKind::ParenOpen) {
                    Ok((None, q1 + 1))
                } else {
                    infer_args(ts, q1 + 2, id)
                }
            } else if at(ts, q1, TokenKind::CallTool) {
                let q2 = q1 + 1;
                if !at(ts, q2, TokenKind::ParenOpen) {
                    Ok((None, q2))
                } else if !at(ts, q2 + 1, TokenKind::StringLiteral) {
                    Err(err_at(ts, q2 + 1, SyntaxErrorKind::CallToolExpectedName))
                } else if !at(ts, q2 + 2, TokenKind::Comma) {
                    Err(err_at(ts, q2 + 2, SyntaxErrorKind::CallToolExpectedComma))
                } else {
                    let tool = trim_matches_spec(text_at(ts, q2 + 1), '"');
                    match parse_expr(ts, q2 + 3, 0) {
                        Err(e) => Err(e),
                        Ok((None, q3)) => Err(err_at(ts, q3, SyntaxErrorKind::CallToolExpectedParams)),
                        Ok((Some(params), q3)) => if at(ts, q3, TokenKind::ParenClose) {
                            Ok(
                                (
                                    Some(
                                        SExpr::CallToolCall {
                                            vessel_name: id,
                                            tool_name: tool,
                                            params: Box::new(params),
                                        },
                                    ),
                                    q3 + 1,
                                ),
                            )
                        } else {
                            Err(err_at(ts, q3, SyntaxErrorKind::CallToolMissingParen))
                        },
                    }
                }
            } else {
                Ok((Some(SExpr::Variable(id)), q1))
            }
        } else if at(ts, q, TokenKind::ParenOpen) {
            match parse_args(ts, q + 1, true, Seq::empty()) {
                Err(e) => Err(e),
                Ok((args, q2)) => if at(ts, q2, TokenKind::ParenClose) {
                    Ok((Some(SExpr::FunctionCall { name: id, args }), q2 + 1))
                } else {
                    Err(err_at(ts, q2, SyntaxErrorKind::CallMissingParen))
                },
            }
        } else if at(ts, q, TokenKind::BracketOpen) {
            match parse_expr(ts, q + 1, 0) {
                Err(e) => Err(e),
                Ok((None, q2)) => Err(err_at(ts, q2, SyntaxErrorKind::IndexExpected)),
                Ok((Some(index), q2)) => if at(ts, q2, TokenKind::BracketClose) {
                    Ok(
                        (
                            Some(
                                SExpr::IndexAccess {
                                    left: Box::new(SExpr::Variable(id)),
                                    index: Box::new(index),
                                },
                            ),
                            q2 + 1,
                        ),
                    )
                } else {
                    Err(err_at(ts, q2, SyntaxErrorKind::IndexMissingBracket))
                },
            }
        } else {
            Ok((Some(SExpr::Variable(id)), q))
        }
    }
}

/// Whether the token at `q` continues a list closed by `close`.
pub open spec fn in_list(ts: Seq<SpecToken>, q: int, close: TokenKind) -> bool {
    0 <= q < ts.len() && ts[q].kind != close
}

/// Array elements up to the closing bracket: `e (, e)*`.
pub open spec fn parse_array_items(ts: Seq<SpecToken>, q: int, first: bool, acc: Seq<SExpr>) -> Result<
    (Seq<SExpr>, int),
    SynErr,
>
    decreases ts.len() - q, if first { 4int } else { 3int },
{
    if !in_list(ts, q, TokenKind::BracketClose) {
        Ok((acc, q))
    } else if !first && !at(ts, q, TokenKind::Comma) {
        Err(err_at(ts, q, SyntaxErrorKind::ArrayExpectedComma))
    } else {
        let q1 = if first { q } else { q + 1 };
        match parse_expr(ts, q1, 0) {
            Err(e) => Err(e),
            Ok((oe, q2)) => if reached(ts, q1, q2) {
                parse_array_items(
                    ts,
                    q2,
                    false,
                    match oe {
                        Some(e) => acc.push(e),
                        None => acc,
                    },
                )
            } else {
                Err(err_at(ts, q2, SyntaxErrorKind::NoProgress))
            },
        }
    }
}

/// Dictionary entries up to the closing brace: `key : e (, key : e)*`.
pub open spec fn parse_dict_items(
    ts: Seq<SpecToken>,
    q: int,
    first: bool,
    acc: Seq<(Seq<char>, SExpr)>,
) -> Result<(Seq<(Seq<char>, SExpr)>, int), SynErr>
    decreases ts.len() - q, 3int,
{
    if !in_list(ts, q, TokenKind::BraceClose) {
        Ok((acc, q))
    } else if !first && !at(ts, q, TokenKind::Comma) {
        Err(err_at(ts, q, SyntaxErrorKind::DictExpectedComma))
    } else {
        let q1 = if first { q } else { q + 1 };
        if !(at(ts, q1, TokenKind::StringLiteral) || at(ts, q1, TokenKind::Identifier)) {
            Err(err_at(ts, q1, SyntaxErrorKind::DictKeyNotText))
        } else if !at(ts, q1 + 1, TokenKind::Colon) {
            Err(err_at(ts, q1 + 1, SyntaxErrorKind::DictExpectedColon))
        } else {
            let key = if at(ts, q1, TokenKind::StringLiteral) {
                trim_matches_spec(text_at(ts, q1), '"')
            } else {
                text_at(ts, q1)
            };
            match parse_expr(ts, q1 + 2, 0) {
                Err(e) => Err(e),
                Ok((ov, q2)) => if reached(ts, q1 + 2, q2) {
                    parse_dict_items(
                        ts,
                        q2,
                        false,
                        match ov {
                            Some(v) => acc.push((key, v)),
                            None => acc,
                        },
                    )
                } else {
                    Err(err_at(ts, q2, SyntaxErrorKind::NoProgress))
                },
            }
        }
    }
}

/// Call arguments up to the closing parenthesis: `e (, e)*`.
pub open spec fn parse_args(ts: Seq<SpecToken>, q: int, first: bool, acc: Seq<SExpr>) -> Result<
    (Seq<SExpr>, int),
    SynErr,
>
    decreases ts.len() - q, if first { 4int } else { 3int },
{
    if !in_list(ts, q, TokenKind::ParenClose) {
        Ok((acc, q))
    } else if !first && !at(ts, q, TokenKind::Comma) {
        Err(err_at(ts, q, SyntaxErrorKind::ArgsExpectedComma))
    } else {
        let q1 = if first { q } else { q + 1 };
        match parse_expr(ts, q1, 0) {
            Err(e) => Err(e),
            Ok((None, q2)) => Err(err_at(ts, q2, SyntaxErrorKind::ArgsInvalidExpression)),
            Ok((Some(e), q2)) => if reached(ts, q1, q2) {
                parse_args(ts, q2, false, acc.push(e))
            } else {
                Err(err_at(ts, q2, SyntaxErrorKind::NoProgress))
            },
        }
    }
}

/// The elements of one tensor row, up to `]`: expressions, each optionally
/// followed by a comma. Returns the elements so far, the count in this row,
/// and the position.
pub open spec fn parse_tensor_row(ts: Seq<SpecToken>, q: int, count: nat, data: Seq<SExpr>) -> Result<
    (Seq<SExpr>, nat, int),
    SynErr,
>
    decreases ts.len() - q, 3int,
{
    if !in_list(ts, q, TokenKind::BracketClose) {
        Ok((data, count, q))
    } else {
        match parse_expr(ts, q, 0) {
            Err(e) => Err(e),
            Ok((oe, q2)) => if !reached(ts, q, q2) {
                Err(err_at(ts, q2, SyntaxErrorKind::NoProgress))
            } else {
                let q3 = if at(ts, q2, TokenKind::Comma) {
                    q2 + 1
                } else {
                    q2
                };
                if q3 == q {
                    Err(err_at(ts, q, SyntaxErrorKind::TensorStalled))
                } else {
                    match oe {
                        Some(e) => parse_tensor_row(ts, q3, count + 1, data.push(e)),
                        None => parse_tensor_row(ts, q3, count, data),
                    }
                }
            },
        }
    }
}

/// The rows of a two-dimensional tensor: `[row] ,? [row] ,? ...`.
/// `cols` is the element count of the first row.
pub open spec fn parse_tensor_rows(
    ts: Seq<SpecToken>,
    q: int,
    rows: nat,
    cols: nat,
    data: Seq<SExpr>,
) -> Result<(Seq<SExpr>, nat, nat, int), SynErr>
    decreases ts.len() - q, 3int,
{
    if !at(ts, q, TokenKind::BracketOpen) {
        Ok((data, rows, cols, q))
    } else {
        match parse_tensor_row(ts, q + 1, 0, data) {
            Err(e) => Err(e),
            Ok((d, cc, q2)) => if !reached(ts, q + 1, q2) {
                Err(err_at(ts, q2, SyntaxErrorKind::NoProgress))
            } else {
                let q3 = if at(ts, q2, TokenKind::BracketClose) {
                    q2 + 1
                } else {
                    q2
                };
                let q4 = if at(ts, q3, TokenKind::Comma) {
                    q3 + 1
                } else {
                    q3
                };
                parse_tensor_rows(
                    ts,
                    q4,
                    rows + 1,
                    if rows == 0 {
                        cc
                    } else {
                        cols
                    },
                    d,
                )
            },
        }
    }
}

/// What follows a tensor's data: `] ,? (grad =? (true|false)?)? )`.
pub open spec fn tensor_tail(ts: Seq<SpecToken>, q: int, data: Seq<SExpr>, shape: Seq<usize>) -> ExprRes {
    let q1 = if at(ts, q, TokenKind::BracketClose) {
        q + 1
    } else {
        q
    };
    let q2 = if at(ts, q1, TokenKind::Comma) {
        q1 + 1
    } else {
        q1
    };
    let (grad, q3) = if at(ts, q2, TokenKind::Grad) {
        let g1 = if at(ts, q2 + 1, TokenKind::Equal) {
            q2 + 2
        } else {
            q2 + 1
        };
        if at(ts, g1, TokenKind::True) {
            (true, g1 + 1)
        } else if at(ts, g1, TokenKind::False) {
            (false, g1 + 1)
        } else {
            (false, g1)
        }
    } else {
        (false, q2)
    };
    if at(ts, q3, TokenKind::ParenClose) {
        Ok((Some(SExpr::TensorDeclaration { data, shape, requires_grad: grad }), q3 + 1))
    } else {
        Ok((None, q3))
    }
}

/// `tensor ( [ ... ] , grad = b )` with one- or two-dimensional data.
pub open spec fn parse_tensor(ts: Seq<SpecToken>, p: int) -> ExprRes
    decreases ts.len() - p, 0int,
{
    if !(0 <= p < ts.len()) {
        Ok((None, p))
    } else if !at(ts, p + 1, TokenKind::ParenOpen) {
        Ok((None, p + 1))
    } else if !at(ts, p + 2, TokenKind::BracketOpen) {
        Ok((None, p + 2))
    } else {
        let q = p + 3;
        if at(ts, q, TokenKind::BracketOpen) {
            match parse_tensor_rows(ts, q, 0, 0, Seq::empty()) {
                Err(e) => Err(e),
                Ok((data, rows, cols, q2)) => tensor_tail(
                    ts,
                    q2,
                    data,
                    seq![rows as usize, cols as usize],
                ),
            }
        } else {
            match parse_tensor_row(ts, q, 0, Seq::empty()) {
                Err(e) => Err(e),
                Ok((data, cols, q2)) => tensor_tail(ts, q2, data, seq![cols as usize]),
            }
        }
    }
}

// ---------------------------------------------------------------------------
// Statements
// ---------------------------------------------------------------------------
/// One statement, chosen by its first token.
pub open spec fn parse_stmt(ts: Seq<SpecToken>, p: int) -> StmtRes
    decreases ts.len() - p, 2int,
{
    if !(0 <= p < ts.len()) {
        Ok((None, p))
    } else {
        let k = ts[p].kind;
        if k == TokenKind::Vessel {
            parse_vessel(ts, p)
        } else if k == TokenKind::Let {
            parse_let(ts, p)
        } else if k == TokenKind::Print {
            parse_print(ts, p)
        } else if k == TokenKind::Import {
            if at(ts, p + 1, TokenKind::StringLiteral) {
                Ok(
                    (
                        Some(SStmt::ImportStatement { path: trim_matches_spec(text_at(ts, p + 1), '"') }),
                        p + 2,
                    ),
                )
            } else {
                Ok((None, p + 1))
            }
        } else if k == TokenKind::If {
            parse_if(ts, p)
        } else if k == TokenKind::While {
            parse_while(ts, p)
        } else if k == TokenKind::Def {
            parse_def(ts, p)
        } else if k == TokenKind::Return {
            match parse_expr(ts, p + 1, 0) {
                Err(e) => Err(e),
                Ok((None, q)) => Ok((None, q)),
                Ok((Some(v), q)) => Ok((Some(SStmt::ReturnStatement { value: v }), q)),
            }
        } else if k == TokenKind::HexTrace || k == TokenKind::Worker {
            match parse_braced_body(ts, p + 1) {
                Err(e) => Err(e),
                Ok((None, q)) => Ok((None, q)),
                Ok((Some(body), q)) => Ok(
                    (
                        Some(
                            if k == TokenKind::HexTrace {
                                SStmt::HexTraceBlock { body }
                            } else {
                                SStmt::WorkerBlock { body }
                            },
                        ),
                        q,
                    ),
                ),
            }
        } else if k == TokenKind::Backward {
            if !at(ts, p + 1, TokenKind::ParenOpen) {
                Ok((None, p + 1))
            } else if !at(ts, p + 2, TokenKind::Identifier) {
                Ok((None, p + 2))
            } else if !at(ts, p + 3, TokenKind::ParenClose) {
                Ok((None, p + 3))
            } else {
                Ok((Some(SStmt::BackwardStatement { target_var: text_at(ts, p + 2) }), p + 4))
            }
        } else if k == TokenKind::Optim {
            parse_optim(ts, p)
        } else if k == TokenKind::Reply {
            match paren_expr(ts, p) {
                Err(e) => Err(e),
                Ok((None, q)) => Ok((None, q)),
                Ok((Some(v), q)) => Ok((Some(SStmt::ReplyStatement { value: v }), q)),
            }
        } else if k == TokenKind::Identifier {
            parse_identifier_stmt(ts, p)
        } else if k == TokenKind::Shield {
            parse_shield(ts, p)
        } else if k == TokenKind::McpServer {
            parse_mcp_server(ts, p)
        } else if k == TokenKind::ExposeTool {
            parse_expose_tool(ts, p)
        } else if k == TokenKind::Veil {
            parse_veil(ts, p)
        } else {
            match parse_expr(ts, p, 0) {
                Err(e) => Err(e),
                Ok((None, q)) => Ok((None, q)),
                Ok((Some(e), q)) => Ok((Some(SStmt::ExpressionStatement(e)), q)),
            }
        }
    }
}

/// Statements up to `}`, skipping one token after each one that fails.
pub open spec fn parse_body_lenient(ts: Seq<SpecToken>, q: int, acc: Seq<SStmt>) -> Result<
    (Seq<SStmt>, int),
    SynErr,
>
    decreases ts.len() - q, 3int,
{
    if !in_list(ts, q, TokenKind::BraceClose) {
        Ok((acc, q))
    } else {
        match parse_stmt(ts, q) {
            Err(e) => Err(e),
            Ok((None, q2)) => if reached(ts, q, q2) {
                parse_body_lenient(ts, adv(ts, q2), acc)
            } else {
                Err(err_at(ts, q2, SyntaxErrorKind::NoProgress))
            },
            Ok((Some(s), q2)) => if q < q2 <= ts.len() {
                parse_body_lenient(ts, q2, acc.push(s))
            } else {
                Err(err_at(ts, q2, SyntaxErrorKind::NoProgress))
            },
        }
    }
}

/// Statements up to `}`, where a statement that fails is an error of kind `bad`.
pub open spec fn parse_body_strict(
    ts: Seq<SpecToken>,
    q: int,
    bad: SyntaxErrorKind,
    acc: Seq<SStmt>,
) -> Result<(Seq<SStmt>, int), SynErr>
    decreases ts.len() - q, 3int,
{
    if !in_list(ts, q, TokenKind::BraceClose) {
        Ok((acc, q))
    } else {
        match parse_stmt(ts, q) {
            Err(e) => Err(e),
            Ok((None, q2)) => Err(err_at(ts, q2, bad)),
            Ok((Some(s), q2)) => if q < q2 <= ts.len() {
                parse_body_strict(ts, q2, bad, acc.push(s))
            } else {
                Err(err_at(ts, q2, SyntaxErrorKind::NoProgress))
            },
        }
    }
}

/// `{ statements }` with lenient error recovery inside; `q` is at the `{`.
pub open spec fn parse_braced_body(ts: Seq<SpecToken>, q: int) -> Result<
    (Option<Seq<SStmt>>, int),
    SynErr,
>
    decreases ts.len() - q, 4int,
{
    if !at(ts, q, TokenKind::BraceOpen) {
        Ok((None, q))
    } else {
        match parse_body_lenient(ts, q + 1, Seq::empty()) {
            Err(e) => Err(e),
            Ok((body, q2)) => if at(ts, q2, TokenKind::BraceClose) {
                Ok((Some(body), q2 + 1))
            } else {
                Ok((None, q2))
            },
        }
    }
}

pub open spec fn parse_let(ts: Seq<SpecToken>, p: int) -> StmtRes
    decreases ts.len() - p, 1int,
{
    if !(0 <= p < ts.len()) {
        Ok((None, p))
    } else if !at(ts, p + 1, TokenKind::Identifier) {
        Ok((None, p + 1))
    } else if !at(ts, p + 2, TokenKind::Equal) {
        Ok((None, p + 2))
    } else {
        match parse_expr(ts, p + 3, 0) {
            Err(e) => Err(e),
            Ok((None, q)) => Ok((None, q)),
            Ok((Some(v), q)) => Ok((Some(SStmt::LetStatement { name: text_at(ts, p + 1), value: v }), q)),
        }
    }
}

pub open spec fn parse_print(ts: Seq<SpecToken>, p: int) -> StmtRes
    decreases ts.len() - p, 1int,
{
    match paren_expr(ts, p) {
        Err(e) => Err(e),
        Ok((None, q)) => Ok((None, q)),
        Ok((Some(v), q)) => Ok((Some(SStmt::PrintStatement { value: v }), q)),
    }
}

pub open spec fn parse_optim(ts: Seq<SpecToken>, p: int) -> StmtRes
    decreases ts.len() - p, 1int,
{
    if !(0 <= p < ts.len()) {
        Ok((None, p))
    } else if !at(ts, p + 1, TokenKind::ParenOpen) {
        Ok((None, p + 1))
    } else if !at(ts, p + 2, TokenKind::Identifier) {
        Ok((None, p + 2))
    } else if !at(ts, p + 3, TokenKind::Comma) {
        Ok((None, p + 3))
    } else {
        match parse_expr(ts, p + 4, 0) {
            Err(e) => Err(e),
            Ok((None, q)) => Ok((None, q)),
            Ok((Some(lr), q)) => if at(ts, q, TokenKind::ParenClose) {
                Ok(
                    (
                        Some(
                            SStmt::OptimStatement { target_var: text_at(ts, p + 2), learning_rate: lr },
                        ),
                        q + 1,
                    ),
                )
            } else {
                Ok((None, q))
            },
        }
    }
}

/// `if cond { ... } [else if ... | else { ... }]`.
pub open spec fn parse_if(ts: Seq<SpecToken>, p: int) -> StmtRes
    decreases ts.len() - p, 1int,
{
    if !(0 <= p < ts.len()) {
        Ok((None, p))
    } else {
        match parse_expr(ts, p + 1, 0) {
            Err(e) => Err(e),
            Ok((None, q)) => Ok((None, q)),
            Ok((Some(cond), q)) => if !reached(ts, p + 1, q) {
                Err(err_at(ts, q, SyntaxErrorKind::NoProgress))
            } else if !at(ts, q, TokenKind::BraceOpen) {
                Err(err_at(ts, q, SyntaxErrorKind::IfExpectedBrace))
            } else {
                match parse_body_strict(ts, q + 1, SyntaxErrorKind::IfInvalidBody, Seq::empty()) {
                    Err(e) => Err(e),
                    Ok((cons, q2)) => if !reached(ts, q + 1, q2) {
                        Err(err_at(ts, q2, SyntaxErrorKind::NoProgress))
                    } else if !at(ts, q2, TokenKind::BraceClose) {
                        Err(err_at(ts, q2, SyntaxErrorKind::IfMissingBrace))
                    } else if !at(ts, q2 + 1, TokenKind::Else) {
                        Ok(
                            (
                                Some(
                                    SStmt::IfStatement {
                                        condition: cond,
                                        consequence: cons,
                                        alternative: None,
                                    },
                                ),
                                q2 + 1,
                            ),
                        )
                    } else if at(ts, q2 + 2, TokenKind::If) {
                        match parse_if(ts, q2 + 2) {
                            Err(e) => Err(e),
                            Ok((alt, q3)) => Ok(
                                (
                                    Some(
                                        SStmt::IfStatement {
                                            condition: cond,
                                            consequence: cons,
                                            alternative: match alt {
                                                Some(s) => Some(seq![s]),
                                                None => None,
                                            },
                                        },
                                    ),
                                    q3,
                                ),
                            ),
                        }
                    } else if !at(ts, q2 + 2, TokenKind::BraceOpen) {
                        Err(err_at(ts, q2 + 2, SyntaxErrorKind::ElseExpectedBrace))
                    } else {
                        match parse_body_strict(
                            ts,
                            q2 + 3,
                            SyntaxErrorKind::ElseInvalidBody,
                            Seq::empty(),
                        ) {
                            Err(e) => Err(e),
                            Ok((alt, q3)) => if at(ts, q3, TokenKind::BraceClose) {
                                Ok(
                                    (
                                        Some(
                                            SStmt::IfStatement {
                                                condition: cond,
                                                consequence: cons,
                                                alternative: Some(alt),
                                            },
                                        ),
                                        q3 + 1,
                                    ),
                                )
                            } else {
                                Err(err_at(ts, q3, SyntaxErrorKind::ElseMissingBrace))
                            },
                        }
                    },
                }
            },
        }
    }
}

/// `while cond { ... }`.
pub open spec fn parse_while(ts: Seq<SpecToken>, p: int) -> StmtRes
    decreases ts.len() - p, 1int,
{
    if !(0 <= p < ts.len()) {
        Ok((None, p))
    } else {
        match parse_expr(ts, p + 1, 0) {
            Err(e) => Err(e),
            Ok((None, q)) => Ok((None, q)),
            Ok((Some(cond), q)) => if !reached(ts, p + 1, q) {
                Err(err_at(ts, q, SyntaxErrorKind::NoProgress))
            } else {
                match parse_braced_body(ts, q) {
                    Err(e) => Err(e),
                    Ok((None, q2)) => Ok((None, q2)),
                    Ok((Some(body), q2)) => Ok((Some(SStmt::WhileStatement { condition: cond, body }), q2)),
                }
            },
        }
    }
}

/// Parameter names up to `)`: `name (, name)*`.
pub open spec fn parse_params(ts: Seq<SpecToken>, q: int, first: bool, acc: Seq<Seq<char>>) -> Result<
    (Seq<Seq<char>>, int),
    SynErr,
>
    decreases ts.len() - q,
{
    if !in_list(ts, q, TokenKind::ParenClose) {
        Ok((acc, q))
    } else if !first && !at(ts, q, TokenKind::Comma) {
        Err(err_at(ts, q, SyntaxErrorKind::ParamsExpectedComma))
    } else {
        let q1 = if first { q } else { q + 1 };
        if at(ts, q1, TokenKind::Identifier) {
            parse_params(ts, q1 + 1, false, acc.push(text_at(ts, q1)))
        } else {
            Err(err_at(ts, q1, SyntaxErrorKind::ParamExpectedName))
        }
    }
}

/// Whether a function body is closed by a `return` statement.
pub open spec fn ends_with_return(body: Seq<SStmt>) -> bool {
    body.len() > 0 && body.last() is ReturnStatement
}

/// `def name ( params ) { ... }`, whose body must end with a `return`.
pub open spec fn parse_def(ts: Seq<SpecToken>, p: int) -> StmtRes
    decreases ts.len() - p, 1int,
{
    if !(0 <= p < ts.len()) {
        Ok((None, p))
    } else if !at(ts, p + 1, TokenKind::Identifier) {
        Ok((None, p + 1))
    } else if !at(ts, p + 2, TokenKind::ParenOpen) {
        Ok((None, p + 2))
    } else {
        match parse_params(ts, p + 3, true, Seq::empty()) {
            Err(e) => Err(e),
            Ok((params, q)) => if !reached(ts, p + 3, q) {
                Err(err_at(ts, q, SyntaxErrorKind::NoProgress))
            } else if !at(ts, q, TokenKind::ParenClose) {
                Err(err_at(ts, q, SyntaxErrorKind::ParamsMissingParen))
            } else if !at(ts, q + 1, TokenKind::BraceOpen) {
                Err(err_at(ts, q + 1, SyntaxErrorKind::FnExpectedBrace))
            } else {
                match parse_body_strict(ts, q + 2, SyntaxErrorKind::FnInvalidBody, Seq::empty()) {
                    Err(e) => Err(e),
                    Ok((body, q2)) => if !at(ts, q2, TokenKind::BraceClose) {
                        Err(err_at(ts, q2, SyntaxErrorKind::FnMissingBrace))
                    } else if !ends_with_return(body) {
                        Err(err_at(ts, q2, SyntaxErrorKind::FnMissingReturn))
                    } else {
                        Ok(
                            (
                                Some(
                                    SStmt::FunctionDeclaration {
                                        name: text_at(ts, p + 1),
                                        params,
                                        body,
                                    },
                                ),
                                q2 + 1,
                            ),
                        )
                    },
                }
            },
        }
    }
}

/// A statement that starts with an identifier: `x = e`, `f(args)` (kept as
/// `let _ = f(args)`), or `vessel.infer(prompt [, context [, grammar]])`.
pub open spec fn parse_identifier_stmt(ts: Seq<SpecToken>, p: int) -> StmtRes
    decreases ts.len() - p, 1int,
{
    if !(0 <= p < ts.len()) {
        Ok((None, p))
    } else {
        let name = text_at(ts, p);
        let q = p + 1;
        if at(ts, q, TokenKind::Equal) {
            match parse_expr(ts, q + 1, 0) {
                Err(e) => Err(e),
                Ok((None, q2)) => Ok((None, q2)),
                Ok((Some(v), q2)) => Ok((Some(SStmt::AssignmentStatement { name, value: v }), q2)),
            }
        } else if at(ts, q, TokenKind::ParenOpen) {
            match parse_args(ts, q + 1, true, Seq::empty()) {
                Err(e) => Err(e),
                Ok((args, q2)) => if at(ts, q2, TokenKind::ParenClose) {
                    Ok(
                        (
                            Some(
                                SStmt::LetStatement {
                                    name: "_"@,
                                    value: SExpr::FunctionCall { name, args },
                                },
                            ),
                            q2 + 1,
                        ),
                    )
                } else {
                    Err(err_at(ts, q2, SyntaxErrorKind::CallMissingParen))
                },
            }
        } else if at(ts, q, TokenKind::Dot) {
            if !at(ts, q + 1, TokenKind::Infer) {
                Ok((None, q + 1))
            } else if !at(ts, q + 2, TokenKind::ParenOpen) {
                Ok((None, q + 2))
            } else if !at(ts, q + 3, TokenKind::Identifier) {
                Ok((None, q + 3))
            } else {
                let (ctx, q4) = opt_ident_after_comma(ts, q + 4);
                let (grm, q5) = opt_ident_after_comma(ts, q4);
                if at(ts, q5, TokenKind::ParenClose) {
                    Ok(
                        (
                            Some(
                                SStmt::InferStatement {
                                    model_name: name,
                                    prompt_var: text_at(ts, q + 3),
                                    context_var: ctx,
                                    grammar_var: grm,
                                },
                            ),
                            q5 + 1,
                        ),
                    )
                } else {
                    Ok((None, q5))
                }
            }
        } else {
            Ok((None, q))
        }
    }
}

/// `shield ( name = "limit" ) { ... }`.
pub open spec fn parse_shield(ts: Seq<SpecToken>, p: int) -> StmtRes
    decreases ts.len() - p, 1int,
{
    if !(0 <= p < ts.len()) {
        Ok((None, p))
    } else if !at(ts, p + 1, TokenKind::ParenOpen) {
        Ok((None, p + 1))
    } else if !at(ts, p + 2, TokenKind::Identifier) {
        Ok((None, p + 2))
    } else if !at(ts, p + 3, TokenKind::Equal) {
        Ok((None, p + 3))
    } else if !at(ts, p + 4, TokenKind::StringLiteral) {
        Ok((None, p + 4))
    } else if !at(ts, p + 5, TokenKind::ParenClose) {
        Ok((None, p + 5))
    } else {
        match parse_braced_body(ts, p + 6) {
            Err(e) => Err(e),
            Ok((None, q)) => Ok((None, q)),
            Ok((Some(body), q)) => Ok(
                (
                    Some(
                        SStmt::ShieldBlock {
                            max_vram: trim_matches_spec(text_at(ts, p + 4), '"'),
                            body,
                        },
                    ),
                    q,
                ),
            ),
        }
    }
}

/// Skips one token of kind `k` if it is there.
pub open spec fn skip_opt(ts: Seq<SpecToken>, q: int, k: TokenKind) -> int {
    if at(ts, q, k) {
        q + 1
    } else {
        q
    }
}

/// `mcp_server ( [port] [=] e ) { ... }`.
pub open spec fn parse_mcp_server(ts: Seq<SpecToken>, p: int) -> StmtRes
    decreases ts.len() - p, 1int,
{
    if !(0 <= p < ts.len()) {
        Ok((None, p))
    } else if !at(ts, p + 1, TokenKind::ParenOpen) {
        Ok((None, p + 1))
    } else {
        let q = skip_opt(ts, skip_opt(ts, p + 2, TokenKind::Identifier), TokenKind::Equal);
        match parse_expr(ts, q, 0) {
            Err(e) => Err(e),
            Ok((None, q2)) => Ok((None, q2)),
            Ok((Some(port), q2)) => if !reached(ts, q, q2) {
                Err(err_at(ts, q2, SyntaxErrorKind::NoProgress))
            } else if !at(ts, q2, TokenKind::ParenClose) {
                Ok((None, q2))
            } else {
                match parse_braced_body(ts, q2 + 1) {
                    Err(e) => Err(e),
                    Ok((None, q3)) => Ok((None, q3)),
                    Ok((Some(body), q3)) => Ok((Some(SStmt::McpServerBlock { port, body }), q3)),
                }
            },
        }
    }
}

/// `[label] [=] "text"` inside `expose_tool`: the text, and the position after it.
pub open spec fn labelled_string(ts: Seq<SpecToken>, q: int) -> (Option<Seq<char>>, int) {
    let q1 = skip_opt(ts, skip_opt(ts, q, TokenKind::Identifier), TokenKind::Equal);
    if at(ts, q1, TokenKind::StringLiteral) {
        (Some(trim_matches_spec(text_at(ts, q1), '"')), q1 + 1)
    } else {
        (None, q1)
    }
}

/// `expose_tool ( name = "n", desc = "d", function = f )`.
pub open spec fn parse_expose_tool(ts: Seq<SpecToken>, p: int) -> StmtRes
    decreases ts.len() - p, 1int,
{
    if !(0 <= p < ts.len()) {
        Ok((None, p))
    } else if !at(ts, p + 1, TokenKind::ParenOpen) {
        Ok((None, p + 1))
    } else {
        let (name, q1) = labelled_string(ts, p + 2);
        match name {
            None => Ok((None, q1)),
            Some(name) => {
                let (desc, q2) = labelled_string(ts, skip_opt(ts, q1, TokenKind::Comma));
                match desc {
                    None => Ok((None, q2)),
                    Some(desc) => {
                        let q3 = skip_opt(
                            ts,
                            skip_opt(
                                ts,
                                skip_opt(ts, q2, TokenKind::Comma),
                                TokenKind::Identifier,
                            ),
                            TokenKind::Equal,
                        );
                        if !at(ts, q3, TokenKind::Identifier) {
                            Ok((None, q3))
                        } else if !at(ts, q3 + 1, TokenKind::ParenClose) {
                            Ok((None, q3 + 1))
                        } else {
                            Ok(
                                (
                                    Some(
                                        SStmt::ExposeToolStatement {
                                            name,
                                            description: desc,
                                            function_name: text_at(ts, q3),
                                        },
                                    ),
                                    q3 + 2,
                                ),
                            )
                        }
                    },
                }
            },
        }
    }
}

/// `veil [name] ( port = e ) { ... }`.
pub open spec fn parse_veil(ts: Seq<SpecToken>, p: int) -> StmtRes
    decreases ts.len() - p, 1int,
{
    if !(0 <= p < ts.len()) {
        Ok((None, p))
    } else {
        let named = at(ts, p + 1, TokenKind::Identifier);
        let name = if named {
            text_at(ts, p + 1)
        } else {
            "backend_server"@
        };
        let q = if named {
            p + 2
        } else {
            p + 1
        };
        if !at(ts, q, TokenKind::ParenOpen) {
            Ok((None, q))
        } else if !at(ts, q + 1, TokenKind::Identifier) {
            Ok((None, q + 1))
        } else if !at(ts, q + 2, TokenKind::Equal) {
            Ok((None, q + 2))
        } else {
            match parse_expr(ts, q + 3, 0) {
                Err(e) => Err(e),
                Ok((None, q2)) => Ok((None, q2)),
                Ok((Some(port), q2)) => if !reached(ts, q + 3, q2) {
                    Err(err_at(ts, q2, SyntaxErrorKind::NoProgress))
                } else if !at(ts, q2, TokenKind::ParenClose) {
                    Ok((None, q2))
                } else {
                    match parse_braced_body(ts, q2 + 1) {
                        Err(e) => Err(e),
                        Ok((None, q3)) => Ok((None, q3)),
                        Ok((Some(body), q3)) => Ok((Some(SStmt::VeilBlock { name, port, body }), q3)),
                    }
                },
            }
        }
    }
}

/// The settings of an `absorb`: tier, temperature text, bind text, quantize.
pub struct VesselOpts {
    pub tier: Seq<char>,
    pub temp: Option<Seq<char>>,
    pub bind: Option<Seq<char>>,
    pub quantize: bool,
}

/// `, setting` repeated: `bare_metal`, `vram_only`, `temp = n`, `bind = n`,
/// `quantize = b`. An unknown setting ends the list after its comma.
pub open spec fn parse_vessel_opts(ts: Seq<SpecToken>, q: int, o: VesselOpts) -> (VesselOpts, int)
    decreases ts.len() - q,
{
    if !(0 <= q < ts.len()) || !at(ts, q, TokenKind::Comma) {
        (o, q)
    } else {
        let q1 = q + 1;
        if at(ts, q1, TokenKind::TierBareMetal) {
            parse_vessel_opts(ts, q1 + 1, VesselOpts { tier: "bare_metal"@, ..o })
        } else if at(ts, q1, TokenKind::TierVramOnly) {
            parse_vessel_opts(ts, q1 + 1, VesselOpts { tier: "vram_only"@, ..o })
        } else if at(ts, q1, TokenKind::Temp) || at(ts, q1, TokenKind::Bind) {
            let q2 = skip_opt(ts, q1 + 1, TokenKind::Equal);
            if at(ts, q2, TokenKind::Number) {
                let o2 = if at(ts, q1, TokenKind::Temp) {
                    VesselOpts { temp: Some(text_at(ts, q2)), ..o }
                } else {
                    VesselOpts { bind: Some(text_at(ts, q2)), ..o }
                };
                parse_vessel_opts(ts, q2 + 1, o2)
            } else {
                parse_vessel_opts(ts, q2, o)
            }
        } else if at(ts, q1, TokenKind::Quantize) {
            let q2 = skip_opt(ts, q1 + 1, TokenKind::Equal);
            if at(ts, q2, TokenKind::True) {
                parse_vessel_opts(ts, q2 + 1, VesselOpts { quantize: true, ..o })
            } else if at(ts, q2, TokenKind::False) {
                parse_vessel_opts(ts, q2 + 1, VesselOpts { quantize: false, ..o })
            } else {
                parse_vessel_opts(ts, q2, o)
            }
        } else {
            (o, q1)
        }
    }
}

/// The default settings of an `absorb`.
pub open spec fn default_vessel_opts() -> VesselOpts {
    VesselOpts { tier: "bare_metal"@, temp: None, bind: None, quantize: false }
}

/// Three string arguments and `)`: `"a" , "b" , "c" )`.
pub open spec fn three_strings(ts: Seq<SpecToken>, q: int) -> (Option<(Seq<char>, Seq<char>, Seq<char>)>, int) {
    if !at(ts, q, TokenKind::StringLiteral) {
        (None, q)
    } else if !at(ts, q + 1, TokenKind::Comma) {
        (None, q + 1)
    } else if !at(ts, q + 2, TokenKind::StringLiteral) {
        (None, q + 2)
    } else if !at(ts, q + 3, TokenKind::Comma) {
        (None, q + 3)
    } else if !at(ts, q + 4, TokenKind::StringLiteral) {
        (None, q + 4)
    } else if !at(ts, q + 5, TokenKind::ParenClose) {
        (None, q + 5)
    } else {
        (
            Some(
                (
                    trim_matches_spec(text_at(ts, q), '"'),
                    trim_matches_spec(text_at(ts, q + 2), '"'),
                    trim_matches_spec(text_at(ts, q + 4), '"'),
                ),
            ),
            q + 6,
        )
    }
}

/// `vessel name = absorb(..)`, `= hyper_quad(..)` or `= connect_mcp(..)`.
pub open spec fn parse_vessel(ts: Seq<SpecToken>, p: int) -> StmtRes
    decreases ts.len() - p, 1int,
{
    if !(0 <= p < ts.len()) {
        Ok((None, p))
    } else if !at(ts, p + 1, TokenKind::Identifier) {
        Ok((None, p + 1))
    } else if !at(ts, p + 2, TokenKind::Equal) {
        Ok((None, p + 2))
    } else {
        let name = text_at(ts, p + 1);
        let q = p + 3;
        if at(ts, q, TokenKind::Absorb) {
            if !at(ts, q + 1, TokenKind::ParenOpen) {
                Ok((None, q + 1))
            } else if !at(ts, q + 2, TokenKind::StringLiteral) {
                Ok((None, q + 2))
            } else {
                let file = trim_matches_spec(text_at(ts, q + 2), '"');
                let (o, q2) = parse_vessel_opts(ts, q + 3, default_vessel_opts());
                if at(ts, q2, TokenKind::ParenClose) {
                    Ok(
                        (
                            Some(
                                SStmt::VesselDeclaration {
                                    name,
                                    file_path: file,
                                    tier: o.tier,
                                    temp: o.temp,
                                    bind: o.bind,
                                    quantize: o.quantize,
                                },
                            ),
                            q2 + 1,
                        ),
                    )
                } else {
                    Ok((None, q2))
                }
            }
        } else if at(ts, q, TokenKind::HyperQuad) {
            if !at(ts, q + 1, TokenKind::ParenOpen) {
                Ok((None, q + 1))
            } else {
                match three_strings(ts, q + 2) {
                    (None, q2) => Ok((None, q2)),
                    (Some((model_ident, target, compression)), q2) => Ok(
                        (
                            Some(
                                SStmt::HyperQuadDirective { name, model_ident, target, compression },
                            ),
                            q2,
                        ),
                    ),
                }
            }
        } else if at(ts, q, TokenKind::ConnectMcp) {
            if !at(ts, q + 1, TokenKind::ParenOpen) {
                Ok((None, q + 1))
            } else if !at(ts, q + 2, TokenKind::StringLiteral) {
                Ok((None, q + 2))
            } else if !at(ts, q + 3, TokenKind::ParenClose) {
                Ok((None, q + 3))
            } else {
                Ok(
                    (
                        Some(
                            SStmt::McpClientDeclaration {
                                name,
                                url: trim_matches_spec(text_at(ts, q + 2), '"'),
                            },
                        ),
                        q + 4,
                    ),
                )
            }
        } else {
            Ok((None, q))
        }
    }
}

// ---------------------------------------------------------------------------
// Programs
// ---------------------------------------------------------------------------
/// The statements of a program from position `p` on; a token sequence that
/// does not start a statement is an error.
pub open spec fn parse_program_from(ts: Seq<SpecToken>, p: int, acc: Seq<SStmt>) -> Result<
    Seq<SStmt>,
    SynErr,
>
    decreases ts.len() - p,
{
    if !(0 <= p < ts.len()) {
        Ok(acc)
    } else {
        match parse_stmt(ts, p) {
            Err(e) => Err(e),
            Ok((None, q)) => Err(err_at(ts, q, SyntaxErrorKind::UnrecognizedStatement)),
            Ok((Some(s), q)) => if p < q <= ts.len() {
                parse_program_from(ts, q, acc.push(s))
            } else {
                Err(err_at(ts, q, SyntaxErrorKind::NoProgress))
            },
        }
    }
}

/// The program that a token sequence spells.
pub open spec fn parse_program(ts: Seq<SpecToken>) -> Result<Seq<SStmt>, SynErr> {
    parse_program_from(ts, 0, Seq::empty())
}

} // verus!
