//! System statements: replies, traced and shielded blocks, servers, tools and workers.
use vstd::prelude::*;
use crate::lexer::TokenKind;
use crate::ast::Statement;
use super::{Parser, SyntaxError, stmt_res_view};
use super::grammar::{
    parse_stmt, parse_shield, parse_mcp_server, parse_expose_tool, parse_veil, labelled_string,
    skip_opt,
};

verus! {

impl Parser {
    /// `reply ( e )`.
    pub(crate) fn parse_reply_statement(&self, p: usize) -> (r: Result<(Option<Statement>, usize), SyntaxError>)
        requires
            p < self.tokens.len(),
            self.tokens[p as int].kind == TokenKind::Reply,
        ensures
            stmt_res_view(r) == parse_stmt(self.ts(), p as int),
            r matches Ok((o, q)) ==> p <= q <= self.tokens.len() && (o is Some ==> p < q),
        decreases self.tokens.len() - p, 1int,
    {
        match self.paren_expr(p) {
            Err(e) => Err(e),
            Ok((None, q)) => Ok((None, q)),
            Ok((Some(v), q)) => Ok((Some(Statement::ReplyStatement { value: v }), q)),
        }
    }

    /// `hextrace { ... }`.
    pub(crate) fn parse_hextrace_block(&self, p: usize) -> (r: Result<(Option<Statement>, usize), SyntaxError>)
        requires
            p < self.tokens.len(),
            self.tokens[p as int].kind == TokenKind::HexTrace,
        ensures
            stmt_res_view(r) == parse_stmt(self.ts(), p as int),
            r matches Ok((o, q)) ==> p <= q <= self.tokens.len() && (o is Some ==> p < q),
        decreases self.tokens.len() - p, 1int,
    {
        match self.parse_braced_body(p + 1) {
            Err(e) => Err(e),
            Ok((None, q)) => Ok((None, q)),
            Ok((Some(body), q)) => Ok((Some(Statement::HexTraceBlock { body }), q)),
        }
    }

    /// `worker { ... }`.
    pub(crate) fn parse_worker_block(&self, p: usize) -> (r: Result<(Option<Statement>, usize), SyntaxError>)
        requires
            p < self.tokens.len(),
            self.tokens[p as int].kind == TokenKind::Worker,
        ensures
            stmt_res_view(r) == parse_stmt(self.ts(), p as int),
            r matches Ok((o, q)) ==> p <= q <= self.tokens.len() && (o is Some ==> p < q),
        decreases self.tokens.len() - p, 1int,
    {
        match self.parse_braced_body(p + 1) {
            Err(e) => Err(e),
            Ok((None, q)) => Ok((None, q)),
            Ok((Some(body), q)) => Ok((Some(Statement::WorkerBlock { body }), q)),
        }
    }

    /// `shield ( name = "limit" ) { ... }`.
    pub(crate) fn parse_shield_block(&self, p: usize) -> (r: Result<(Option<Statement>, usize), SyntaxError>)
        requires
            p <= self.tokens.len(),
        ensures
            stmt_res_view(r) == parse_shield(self.ts(), p as int),
            r matches Ok((o, q)) ==> p <= q <= self.tokens.len() && (o is Some ==> p < q),
        decreases self.tokens.len() - p, 1int,
    {
        if p >= self.tokens.len() {
            return Ok((None, p));
        }
        if !self.at(p + 1, TokenKind::ParenOpen) {
            return Ok((None, p + 1));
        }
        if !self.at(p + 2, TokenKind::Identifier) {
            return Ok((None, p + 2));
        }
        if !self.at(p + 3, TokenKind::Equal) {
            return Ok((None, p + 3));
        }
        if !self.at(p + 4, TokenKind::StringLiteral) {
            return Ok((None, p + 4));
        }
        if !self.at(p + 5, TokenKind::ParenClose) {
            return Ok((None, p + 5));
        }
        match self.parse_braced_body(p + 6) {
            Err(e) => Err(e),
            Ok((None, q)) => Ok((None, q)),
            Ok((Some(body), q)) => Ok(
                (Some(Statement::ShieldBlock { max_vram: self.trimmed_text_at(p + 4), body }), q),
            ),
        }
    }

    /// Skips one token of kind `k` if it is there.
    fn skip_opt(&self, q: usize, k: TokenKind) -> (r: usize)
        requires
            q <= self.tokens.len(),
        ensures
            r == skip_opt(self.ts(), q as int, k),
            q <= r <= self.tokens.len(),
    {
        if self.at(q, k) {
            q + 1
        } else {
            q
        }
    }

    /// `mcp_server ( port = e ) { ... }`.
    pub(crate) fn parse_mcp_server_block(&self, p: usize) -> (r: Result<(Option<Statement>, usize), SyntaxError>)
        requires
            p <= self.tokens.len(),
        ensures
            stmt_res_view(r) == parse_mcp_server(self.ts(), p as int),
            r matches Ok((o, q)) ==> p <= q <= self.tokens.len() && (o is Some ==> p < q),
        decreases self.tokens.len() - p, 1int,
    {
        if p >= self.tokens.len() {
            return Ok((None, p));
        }
        if !self.at(p + 1, TokenKind::ParenOpen) {
            return Ok((None, p + 1));
        }
        let q = self.skip_opt(self.skip_opt(p + 2, TokenKind::Identifier), TokenKind::Equal);
        match self.parse_expression(q) {
            Err(e) => Err(e),
            Ok((None, q2)) => Ok((None, q2)),
            Ok((Some(port), q2)) => if !self.at(q2, TokenKind::ParenClose) {
                Ok((None, q2))
            } else {
                match self.parse_braced_body(q2 + 1) {
                    Err(e) => Err(e),
                    Ok((None, q3)) => Ok((None, q3)),
                    Ok((Some(body), q3)) => Ok((Some(Statement::McpServerBlock { port, body }), q3)),
                }
            },
        }
    }

    /// `[label] [=] "text"`.
    fn labelled_string(&self, q: usize) -> (r: (Option<String>, usize))
        requires
            q <= self.tokens.len(),
        ensures
            crate::ast::opt_text_view(r.0) == labelled_string(self.ts(), q as int).0,
            r.1 == labelled_string(self.ts(), q as int).1,
            q <= r.1 <= self.tokens.len(),
    {
        let q1 = self.skip_opt(self.skip_opt(q, TokenKind::Identifier), TokenKind::Equal);
        if self.at(q1, TokenKind::StringLiteral) {
            (Some(self.trimmed_text_at(q1)), q1 + 1)
        } else {
            (None, q1)
        }
    }

    /// `expose_tool ( name = "n", desc = "d", function = f )`.
    pub(crate) fn parse_expose_tool_statement(&self, p: usize) -> (r: Result<
        (Option<Statement>, usize),
        SyntaxError,
    >)
        requires
            p <= self.tokens.len(),
        ensures
            stmt_res_view(r) == parse_expose_tool(self.ts(), p as int),
            r matches Ok((o, q)) ==> p <= q <= self.tokens.len() && (o is Some ==> p < q),
        decreases self.tokens.len() - p, 1int,
    {
        if p >= self.tokens.len() {
            return Ok((None, p));
        }
        if !self.at(p + 1, TokenKind::ParenOpen) {
            return Ok((None, p + 1));
        }
        let (name, q1) = self.labelled_string(p + 2);
        let name = match name {
            None => {
                return Ok((None, q1));
            },
            Some(n) => n,
        };
        let (desc, q2) = self.labelled_string(self.skip_opt(q1, TokenKind::Comma));
        let desc = match desc {
            None => {
                return Ok((None, q2));
            },
            Some(d) => d,
        };
        let q3 = self.skip_opt(
            self.skip_opt(self.skip_opt(q2, TokenKind::Comma), TokenKind::Identifier),
            TokenKind::Equal,
        );
        if !self.at(q3, TokenKind::Identifier) {
            return Ok((None, q3));
        }
        if !self.at(q3 + 1, TokenKind::ParenClose) {
            return Ok((None, q3 + 1));
        }
        Ok(
            (
                Some(
                    Statement::ExposeToolStatement {
                        name,
                        description: desc,
                        function_name: self.text_at(q3),
                    },
                ),
                q3 + 2,
            ),
        )
    }

    /// `veil [name] ( port = e ) { ... }`.
    pub(crate) fn parse_veil_block(&self, p: usize) -> (r: Result<(Option<Statement>, usize), SyntaxError>)
        requires
            p <= self.tokens.len(),
        ensures
            stmt_res_view(r) == parse_veil(self.ts(), p as int),
            r matches Ok((o, q)) ==> p <= q <= self.tokens.len() && (o is Some ==> p < q),
        decreases self.tokens.len() - p, 1int,
    {
        if p >= self.tokens.len() {
            return Ok((None, p));
        }
        let named = self.at(p + 1, TokenKind::Identifier);
        let name = if named {
            self.text_at(p + 1)
        } else {
            String::from_str("backend_server")
        };
        let q = if named {
            p + 2
        } else {
            p + 1
        };
        if !self.at(q, TokenKind::ParenOpen) {
            return Ok((None, q));
        }
        if !self.at(q + 1, TokenKind::Identifier) {
            return Ok((None, q + 1));
        }
        if !self.at(q + 2, TokenKind::Equal) {
            return Ok((None, q + 2));
        }
        match self.parse_expression(q + 3) {
            Err(e) => Err(e),
            Ok((None, q2)) => Ok((None, q2)),
            Ok((Some(port), q2)) => if !self.at(q2, TokenKind::ParenClose) {
                Ok((None, q2))
            } else {
                match self.parse_braced_body(q2 + 1) {
                    Err(e) => Err(e),
                    Ok((None, q3)) => Ok((None, q3)),
                    Ok((Some(body), q3)) => Ok((Some(Statement::VeilBlock { name, port, body }), q3)),
                }
            },
        }
    }
}

} // verus!
