//! AI statements: gradient steps and vessel declarations.
use vstd::prelude::*;
use crate::lexer::TokenKind;
use crate::ast::{Statement, opt_text_view};
use super::{Parser, SyntaxError, stmt_res_view};
use super::grammar::{
    parse_stmt, parse_optim, parse_vessel, parse_vessel_opts, default_vessel_opts, three_strings,
    VesselOpts,
};

verus! {

/// The settings of an `absorb`, as read so far.
pub struct VesselSettings {
    pub tier: String,
    pub temp: Option<String>,
    pub bind: Option<String>,
    pub quantize: bool,
}

impl View for VesselSettings {
    type V = VesselOpts;

    open spec fn view(&self) -> VesselOpts {
        VesselOpts {
            tier: self.tier@,
            temp: opt_text_view(self.temp),
            bind: opt_text_view(self.bind),
            quantize: self.quantize,
        }
    }
}

impl Parser {
    /// `backward ( x )`.
    pub(crate) fn parse_backward_statement(&self, p: usize) -> (r: Result<
        (Option<Statement>, usize),
        SyntaxError,
    >)
        requires
            p < self.tokens.len(),
            self.tokens[p as int].kind == TokenKind::Backward,
        ensures
            stmt_res_view(r) == parse_stmt(self.ts(), p as int),
            r matches Ok((o, q)) ==> p <= q <= self.tokens.len() && (o is Some ==> p < q),
        decreases self.tokens.len() - p, 1int,
    {
        if !self.at(p + 1, TokenKind::ParenOpen) {
            Ok((None, p + 1))
        } else if !self.at(p + 2, TokenKind::Identifier) {
            Ok((None, p + 2))
        } else if !self.at(p + 3, TokenKind::ParenClose) {
            Ok((None, p + 3))
        } else {
            Ok((Some(Statement::BackwardStatement { target_var: self.text_at(p + 2) }), p + 4))
        }
    }

    /// `optim ( x , rate )`.
    pub(crate) fn parse_optim_statement(&self, p: usize) -> (r: Result<(Option<Statement>, usize), SyntaxError>)
        requires
            p <= self.tokens.len(),
        ensures
            stmt_res_view(r) == parse_optim(self.ts(), p as int),
            r matches Ok((o, q)) ==> p <= q <= self.tokens.len() && (o is Some ==> p < q),
        decreases self.tokens.len() - p, 1int,
    {
        if p >= self.tokens.len() {
            return Ok((None, p));
        }
        if !self.at(p + 1, TokenKind::ParenOpen) {
            return Ok((None, p + 1));
        }
        if !self.at(p + 2, TokenKind::Identifier) {
            return Ok((None, p + 2));
        }
        if !self.at(p + 3, TokenKind::Comma) {
            return Ok((None, p + 3));
        }
        match self.parse_expression(p + 4) {
            Err(e) => Err(e),
            Ok((None, q)) => Ok((None, q)),
            Ok((Some(lr), q)) => if self.at(q, TokenKind::ParenClose) {
                Ok(
                    (
                        Some(
                            Statement::OptimStatement {
                                target_var: self.text_at(p + 2),
                                learning_rate: lr,
                            },
                        ),
                        q + 1,
                    ),
                )
            } else {
                Ok((None, q))
            },
        }
    }

    /// The `, setting` list of an `absorb`.
    fn parse_vessel_opts(&self, q: usize, o: VesselSettings) -> (r: (VesselSettings, usize))
        requires
            q <= self.tokens.len(),
        ensures
            r.0@ == parse_vessel_opts(self.ts(), q as int, o@).0,
            r.1 == parse_vessel_opts(self.ts(), q as int, o@).1,
            q <= r.1 <= self.tokens.len(),
        decreases self.tokens.len() - q,
    {
        if !self.at(q, TokenKind::Comma) {
            return (o, q);
        }
        let q1 = q + 1;
        if self.at(q1, TokenKind::TierBareMetal) {
            let o2 = VesselSettings { tier: String::from_str("bare_metal"), ..o };
            self.parse_vessel_opts(q1 + 1, o2)
        } else if self.at(q1, TokenKind::TierVramOnly) {
            let o2 = VesselSettings { tier: String::from_str("vram_only"), ..o };
            self.parse_vessel_opts(q1 + 1, o2)
        } else if self.at(q1, TokenKind::Temp) || self.at(q1, TokenKind::Bind) {
            let q2 = if self.at(q1 + 1, TokenKind::Equal) {
                q1 + 2
            } else {
                q1 + 1
            };
            if self.at(q2, TokenKind::Number) {
                let o2 = if self.at(q1, TokenKind::Temp) {
                    VesselSettings { temp: Some(self.text_at(q2)), ..o }
                } else {
                    VesselSettings { bind: Some(self.text_at(q2)), ..o }
                };
                self.parse_vessel_opts(q2 + 1, o2)
            } else {
                self.parse_vessel_opts(q2, o)
            }
        } else if self.at(q1, TokenKind::Quantize) {
            let q2 = if self.at(q1 + 1, TokenKind::Equal) {
                q1 + 2
            } else {
                q1 + 1
            };
            if self.at(q2, TokenKind::True) {
                self.parse_vessel_opts(q2 + 1, VesselSettings { quantize: true, ..o })
            } else if self.at(q2, TokenKind::False) {
                self.parse_vessel_opts(q2 + 1, VesselSettings { quantize: false, ..o })
            } else {
                self.parse_vessel_opts(q2, o)
            }
        } else {
            (o, q1)
        }
    }

    /// `"a" , "b" , "c" )`.
    fn three_strings(&self, q: usize) -> (r: (Option<(String, String, String)>, usize))
        requires
            q <= self.tokens.len(),
        ensures
            r.1 == three_strings(self.ts(), q as int).1,
            q <= r.1 <= self.tokens.len(),
            match r.0 {
                Some((a, b, c)) => three_strings(self.ts(), q as int).0 == Some((a@, b@, c@)),
                None => three_strings(self.ts(), q as int).0 is None,
            },
    {
        if !self.at(q, TokenKind::StringLiteral) {
            (None, q)
        } else if !self.at(q + 1, TokenKind::Comma) {
            (None, q + 1)
        } else if !self.at(q + 2, TokenKind::StringLiteral) {
            (None, q + 2)
        } else if !self.at(q + 3, TokenKind::Comma) {
            (None, q + 3)
        } else if !self.at(q + 4, TokenKind::StringLiteral) {
            (None, q + 4)
        } else if !self.at(q + 5, TokenKind::ParenClose) {
            (None, q + 5)
        } else {
            (
                Some((self.trimmed_text_at(q), self.trimmed_text_at(q + 2), self.trimmed_text_at(q + 4))),
                q + 6,
            )
        }
    }

    /// `vessel name = absorb(..)`, `= hyper_quad(..)` or `= connect_mcp(..)`.
    pub(crate) fn parse_vessel_declaration(&self, p: usize) -> (r: Result<
        (Option<Statement>, usize),
        SyntaxError,
    >)
        requires
            p <= self.tokens.len(),
        ensures
            stmt_res_view(r) == parse_vessel(self.ts(), p as int),
            r matches Ok((o, q)) ==> p <= q <= self.tokens.len() && (o is Some ==> p < q),
        decreases self.tokens.len() - p, 1int,
    {
        if p >= self.tokens.len() {
            return Ok((None, p));
        }
        if !self.at(p + 1, TokenKind::Identifier) {
            return Ok((None, p + 1));
        }
        if !self.at(p + 2, TokenKind::Equal) {
            return Ok((None, p + 2));
        }
        let name = self.text_at(p + 1);
        let q = p + 3;
        if self.at(q, TokenKind::Absorb) {
            if !self.at(q + 1, TokenKind::ParenOpen) {
                return Ok((None, q + 1));
            }
            if !self.at(q + 2, TokenKind::StringLiteral) {
                return Ok((None, q + 2));
            }
            let file = self.trimmed_text_at(q + 2);
            let defaults = VesselSettings {
                tier: String::from_str("bare_metal"),
                temp: None,
                bind: None,
                quantize: false,
            };
            assert(defaults@ == default_vessel_opts());
            let (o, q2) = self.parse_vessel_opts(q + 3, defaults);
            if self.at(q2, TokenKind::ParenClose) {
                Ok(
                    (
                        Some(
                            Statement::VesselDeclaration {
                                name,
                                file_path: file,
                                tier: o.tier,
                                temp: o.temp,
                                bind: o.bind,
                                quantize: o.quantize,
                            },
                        ),
                        q2 + 1,
                    ),
                )
            } else {
                Ok((None, q2))
            }
        } else if self.at(q, TokenKind::HyperQuad) {
            if !self.at(q + 1, TokenKind::ParenOpen) {
                return Ok((None, q + 1));
            }
            match self.three_strings(q + 2) {
                (None, q2) => Ok((None, q2)),
                (Some((model_ident, target, compression)), q2) => Ok(
                    (
                        Some(
                            Statement::HyperQuadDirective { name, model_ident, target, compression },
                        ),
                        q2,
                    ),
                ),
            }
        } else if self.at(q, TokenKind::ConnectMcp) {
            if !self.at(q + 1, TokenKind::ParenOpen) {
                Ok((None, q + 1))
            } else if !self.at(q + 2, TokenKind::StringLiteral) {
                Ok((None, q + 2))
            } else if !self.at(q + 3, TokenKind::ParenClose) {
                Ok((None, q + 3))
            } else {
                Ok(
                    (
                        Some(Statement::McpClientDeclaration { name, url: self.trimmed_text_at(q + 2) }),
                        q + 4,
                    ),
                )
            }
        } else {
            Ok((None, q))
        }
    }
}

} // verus!
