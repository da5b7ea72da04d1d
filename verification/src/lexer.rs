//! Lexical analysis of Jutsu source text.
//!
//! The token stream is defined by `lex` below: whitespace and `//` comments are
//! skipped, identifiers that spell a keyword become that keyword's token, and a
//! character that starts no token is skipped silently.
use vstd::prelude::*;
use vstd::std_specs::iter::IteratorSpec;
use crate::text::{replace_spec, unescape_spec, string_literal_value};

verus! {

/// The kinds of tokens of the Jutsu language.
#[derive(Clone, Copy, Debug, PartialEq, Eq, Structural)]
pub enum TokenKind {
    Vessel,
    Let,
    Print,
    Import,
    If,
    Else,
    While,
    Def,
    Return,
    HexTrace,
    Backward,
    Optim,
    Reply,
    Shield,
    McpServer,
    ExposeTool,
    Veil,
    Worker,
    Recv,
    True,
    False,
    Tensor,
    Grad,
    Infer,
    Input,
    ReadText,
    Rag,
    Share,
    SysExec,
    HttpGet,
    CallTool,
    Absorb,
    TierBareMetal,
    TierVramOnly,
    Temp,
    Bind,
    Quantize,
    HyperQuad,
    ConnectMcp,
    Identifier,
    Number,
    StringLiteral,
    Or,
    And,
    EqualEqual,
    NotEqual,
    LessEqual,
    GreaterEqual,
    LessThan,
    GreaterThan,
    Equal,
    Plus,
    Minus,
    Star,
    Slash,
    Modulo,
    Bang,
    ParenOpen,
    ParenClose,
    BracketOpen,
    BracketClose,
    BraceOpen,
    BraceClose,
    Comma,
    Dot,
    Colon,
}

/// A token: its kind and the exact source text it was read from.
pub struct Token {
    pub kind: TokenKind,
    pub text: String,
}

/// The mathematical model of a token.
pub struct SpecToken {
    pub kind: TokenKind,
    pub text: Seq<char>,
}

impl View for Token {
    type V = SpecToken;

    open spec fn view(&self) -> SpecToken {
        SpecToken { kind: self.kind, text: self.text@ }
    }
}

impl Token {
    pub fn clone_token(&self) -> (r: Token)
        ensures
            r@ == self@,
    {
        Token { kind: self.kind, text: self.text.clone() }
    }
}

/// The model of a token sequence.
pub open spec fn tokens_view(toks: Seq<Token>) -> Seq<SpecToken> {
    Seq::new(toks.len(), |i: int| toks[i]@)
}

// ---------------------------------------------------------------------------
// Character classes
// ---------------------------------------------------------------------------
pub open spec fn is_space(c: char) -> bool {
    c == ' ' || c == '\t' || c == '\n' || c == '\r' || c == '\x0C'
}

pub open spec fn is_alpha(c: char) -> bool {
    ('a' <= c && c <= 'z') || ('A' <= c && c <= 'Z')
}

pub open spec fn is_digit(c: char) -> bool {
    '0' <= c && c <= '9'
}

pub open spec fn is_ident_start(c: char) -> bool {
    is_alpha(c) || c == '_'
}

pub open spec fn is_ident_char(c: char) -> bool {
    is_ident_start(c) || is_digit(c)
}

// ---------------------------------------------------------------------------
// The lexical grammar
// ---------------------------------------------------------------------------
/// First index at or after `i` that holds no identifier character.
pub open spec fn ident_end(s: Seq<char>, i: int) -> int
    decreases s.len() - i,
{
    if i < 0 || i >= s.len() || !is_ident_char(s[i]) {
        i
    } else {
        ident_end(s, i + 1)
    }
}

/// First index at or after `i` that holds no decimal digit.
pub open spec fn digits_end(s: Seq<char>, i: int) -> int
    decreases s.len() - i,
{
    if i < 0 || i >= s.len() || !is_digit(s[i]) {
        i
    } else {
        digits_end(s, i + 1)
    }
}

/// End of a number that starts at `i`: digits, then optionally `.` and digits.
pub open spec fn number_end(s: Seq<char>, i: int) -> int {
    let j = digits_end(s, i);
    if 0 <= j && j + 1 < s.len() && s[j] == '.' && is_digit(s[j + 1]) {
        digits_end(s, j + 1)
    } else {
        j
    }
}

/// First index at or after `i` that holds a line break, or the end.
pub open spec fn line_end(s: Seq<char>, i: int) -> int
    decreases s.len() - i,
{
    if i < 0 || i >= s.len() || s[i] == '\n' {
        i
    } else {
        line_end(s, i + 1)
    }
}

/// Index of the quote that closes a string whose contents start at `i`;
/// a backslash escapes the character after it.
pub open spec fn string_close(s: Seq<char>, i: int) -> Option<int>
    decreases s.len() - i,
{
    if i < 0 || i >= s.len() {
        None
    } else if s[i] == '"' {
        Some(i)
    } else if s[i] == '\\' {
        if i + 1 < s.len() {
            string_close(s, i + 2)
        } else {
            None
        }
    } else {
        string_close(s, i + 1)
    }
}

pub open spec fn triple_quote_at(s: Seq<char>, i: int) -> bool {
    0 <= i && i + 2 < s.len() && s[i] == '"' && s[i + 1] == '"' && s[i + 2] == '"'
}

/// Index of the first `"""` at or after `i`.
pub open spec fn triple_close(s: Seq<char>, i: int) -> Option<int>
    decreases s.len() - i,
{
    if i < 0 || i + 2 >= s.len() {
        None
    } else if triple_quote_at(s, i) {
        Some(i)
    } else {
        triple_close(s, i + 1)
    }
}

/// The token kind of a word made of identifier characters.
pub open spec fn word_kind(w: Seq<char>) -> TokenKind {
    if w == "vessel"@ {
        TokenKind::Vessel
    } else if w == "let"@ {
        TokenKind::Let
    } else if w == "print"@ {
        TokenKind::Print
    } else if w == "import"@ {
        TokenKind::Import
    } else if w == "if"@ {
        TokenKind::If
    } else if w == "else"@ {
        TokenKind::Else
    } else if w == "while"@ {
        TokenKind::While
    } else if w == "def"@ {
        TokenKind::Def
    } else if w == "return"@ {
        TokenKind::Return
    } else if w == "hextrace"@ {
        TokenKind::HexTrace
    } else if w == "backward"@ {
        TokenKind::Backward
    } else if w == "optim"@ {
        TokenKind::Optim
    } else if w == "reply"@ {
        TokenKind::Reply
    } else if w == "shield"@ {
        TokenKind::Shield
    } else if w == "mcp_server"@ {
        TokenKind::McpServer
    } else if w == "expose_tool"@ {
        TokenKind::ExposeTool
    } else if w == "veil"@ {
        TokenKind::Veil
    } else if w == "worker"@ {
        TokenKind::Worker
    } else if w == "recv"@ {
        TokenKind::Recv
    } else if w == "true"@ {
        TokenKind::True
    } else if w == "false"@ {
        TokenKind::False
    } else if w == "tensor"@ {
        TokenKind::Tensor
    } else if w == "grad"@ {
        TokenKind::Grad
    } else if w == "infer"@ {
        TokenKind::Infer
    } else if w == "input"@ {
        TokenKind::Input
    } else if w == "read_text"@ {
        TokenKind::ReadText
    } else if w == "rag"@ {
        TokenKind::Rag
    } else if w == "share"@ {
        TokenKind::Share
    } else if w == "sys_exec"@ {
        TokenKind::SysExec
    } else if w == "http_get"@ {
        TokenKind::HttpGet
    } else if w == "call"@ {
        TokenKind::CallTool
    } else if w == "absorb"@ {
        TokenKind::Absorb
    } else if w == "bare_metal"@ {
        TokenKind::TierBareMetal
    } else if w == "vram_only"@ {
        TokenKind::TierVramOnly
    } else if w == "temp"@ {
        TokenKind::Temp
    } else if w == "bind"@ {
        TokenKind::Bind
    } else if w == "quantize"@ {
        TokenKind::Quantize
    } else if w == "hyper_quad"@ {
        TokenKind::HyperQuad
    } else if w == "connect_mcp"@ {
        TokenKind::ConnectMcp
    } else {
        TokenKind::Identifier
    }
}

/// The token kind of an operator spelled by the two characters `a` `b`.
pub open spec fn two_char_kind(a: char, b: char) -> Option<TokenKind> {
    if a == '=' && b == '=' {
        Some(TokenKind::EqualEqual)
    } else if a == '!' && b == '=' {
        Some(TokenKind::NotEqual)
    } else if a == '<' && b == '=' {
        Some(TokenKind::LessEqual)
    } else if a == '>' && b == '=' {
        Some(TokenKind::GreaterEqual)
    } else if a == '&' && b == '&' {
        Some(TokenKind::And)
    } else if a == '|' && b == '|' {
        Some(TokenKind::Or)
    } else {
        None
    }
}

/// The token kind of a one-character operator or delimiter.
pub open spec fn one_char_kind(c: char) -> Option<TokenKind> {
    if c == '=' {
        Some(TokenKind::Equal)
    } else if c == '<' {
        Some(TokenKind::LessThan)
    } else if c == '>' {
        Some(TokenKind::GreaterThan)
    } else if c == '+' {
        Some(TokenKind::Plus)
    } else if c == '-' {
        Some(TokenKind::Minus)
    } else if c == '*' {
        Some(TokenKind::Star)
    } else if c == '/' {
        Some(TokenKind::Slash)
    } else if c == '%' {
        Some(TokenKind::Modulo)
    } else if c == '!' {
        Some(TokenKind::Bang)
    } else if c == '(' {
        Some(TokenKind::ParenOpen)
    } else if c == ')' {
        Some(TokenKind::ParenClose)
    } else if c == '[' {
        Some(TokenKind::BracketOpen)
    } else if c == ']' {
        Some(TokenKind::BracketClose)
    } else if c == '{' {
        Some(TokenKind::BraceOpen)
    } else if c == '}' {
        Some(TokenKind::BraceClose)
    } else if c == ',' {
        Some(TokenKind::Comma)
    } else if c == '.' {
        Some(TokenKind::Dot)
    } else if c == ':' {
        Some(TokenKind::Colon)
    } else {
        None
    }
}

/// What the lexer reads at index `i`: the kind of the token found there (or
/// `None` for skipped text) and the index just after it.
pub open spec fn scan_at(s: Seq<char>, i: int) -> (Option<TokenKind>, int) {
    let c = s[i];
    if is_space(c) {
        (None, i + 1)
    } else if c == '/' && i + 1 < s.len() && s[i + 1] == '/' {
        (None, line_end(s, i + 2))
    } else if is_ident_start(c) {
        let j = ident_end(s, i + 1);
        (Some(word_kind(s.subrange(i, j))), j)
    } else if is_digit(c) {
        (Some(TokenKind::Number), number_end(s, i))
    } else if c == '"' {
        if triple_quote_at(s, i) && triple_close(s, i + 3) is Some {
            (Some(TokenKind::StringLiteral), triple_close(s, i + 3)->0 + 3)
        } else {
            match string_close(s, i + 1) {
                Some(j) => (Some(TokenKind::StringLiteral), j + 1),
                None => (None, i + 1),
            }
        }
    } else if i + 1 < s.len() && two_char_kind(c, s[i + 1]) is Some {
        (two_char_kind(c, s[i + 1]), i + 2)
    } else {
        (one_char_kind(c), i + 1)
    }
}

/// The tokens of `s` from index `i` on.
pub open spec fn lex_from(s: Seq<char>, i: int) -> Seq<SpecToken>
    decreases s.len() - i,
{
    if i < 0 || i >= s.len() {
        Seq::empty()
    } else {
        let (k, j) = scan_at(s, i);
        if j <= i || j > s.len() {
            Seq::empty()
        } else {
            match k {
                None => lex_from(s, j),
                Some(kind) => seq![SpecToken { kind, text: s.subrange(i, j) }] + lex_from(s, j),
            }
        }
    }
}

/// The token sequence of a source text.
pub open spec fn lex(s: Seq<char>) -> Seq<SpecToken> {
    lex_from(s, 0)
}

// ---------------------------------------------------------------------------
// Bounds of the scanning functions
// ---------------------------------------------------------------------------
proof fn lemma_ident_end(s: Seq<char>, i: int)
    requires
        0 <= i <= s.len(),
    ensures
        i <= ident_end(s, i) <= s.len(),
    decreases s.len() - i,
{
    if i < s.len() && is_ident_char(s[i]) {
        lemma_ident_end(s, i + 1);
    }
}

proof fn lemma_digits_end(s: Seq<char>, i: int)
    requires
        0 <= i <= s.len(),
    ensures
        i <= digits_end(s, i) <= s.len(),
    decreases s.len() - i,
{
    if i < s.len() && is_digit(s[i]) {
        lemma_digits_end(s, i + 1);
    }
}

proof fn lemma_line_end(s: Seq<char>, i: int)
    requires
        0 <= i <= s.len(),
    ensures
        i <= line_end(s, i) <= s.len(),
    decreases s.len() - i,
{
    if i < s.len() && s[i] != '\n' {
        lemma_line_end(s, i + 1);
    }
}

proof fn lemma_string_close(s: Seq<char>, i: int)
    requires
        0 <= i,
    ensures
        string_close(s, i) matches Some(j) ==> i <= j < s.len(),
    decreases s.len() - i,
{
    if i < s.len() && s[i] != '"' {
        if s[i] == '\\' {
            if i + 1 < s.len() {
                lemma_string_close(s, i + 2);
            }
        } else {
            lemma_string_close(s, i + 1);
        }
    }
}

proof fn lemma_triple_close(s: Seq<char>, i: int)
    requires
        0 <= i,
    ensures
        triple_close(s, i) matches Some(j) ==> i <= j && j + 3 <= s.len(),
    decreases s.len() - i,
{
    if i + 2 < s.len() && !triple_quote_at(s, i) {
        lemma_triple_close(s, i + 1);
    }
}

/// `c` with a backslash put before each of its quotes, as it is written
/// inside a string literal.
pub open spec fn escape_quotes(c: Seq<char>) -> Seq<char>
    decreases c.len(),
{
    if c.len() == 0 {
        c
    } else if c[0] == '"' {
        seq!['\\', '"'] + escape_quotes(c.drop_first())
    } else {
        seq![c[0]] + escape_quotes(c.drop_first())
    }
}

pub open spec fn has_no_backslash(c: Seq<char>) -> bool {
    forall|k: int| 0 <= k < c.len() ==> c[k] != '\\'
}

/// Every backslash of `e` comes right before a quote.
pub open spec fn backslashes_escape_quotes(e: Seq<char>) -> bool {
    forall|k: int| 0 <= k < e.len() && #[trigger] e[k] == '\\' ==> k + 1 < e.len() && e[k + 1] == '"'
}

proof fn lemma_escape_shape(c: Seq<char>)
    requires
        has_no_backslash(c),
    ensures
        backslashes_escape_quotes(escape_quotes(c)),
        escape_quotes(c).len() > 0 ==> (escape_quotes(c)[0] == '\\' <==> c[0] == '"'),
        escape_quotes(c).len() > 0 ==> escape_quotes(c)[0] != '"',
        escape_quotes(c).len() == 0 <==> c.len() == 0,
    decreases c.len(),
{
    if c.len() > 0 {
        let r = c.drop_first();
        assert(has_no_backslash(r)) by {
            assert forall|k: int| 0 <= k < r.len() implies r[k] != '\\' by {
                assert(r[k] == c[k + 1]);
            }
        }
        lemma_escape_shape(r);
        let e = escape_quotes(c);
        let er = escape_quotes(r);
        assert(c[0] != '\\');
        if c[0] == '"' {
            assert(e =~= seq!['\\', '"'] + er);
            assert forall|k: int| 0 <= k < e.len() && #[trigger] e[k] == '\\' implies k + 1 < e.len()
                && e[k + 1] == '"' by {
                if k >= 2 {
                    assert(e[k] == er[k - 2]);
                    assert(e[k + 1] == er[k - 1]);
                }
            }
        } else {
            assert(e =~= seq![c[0]] + er);
            assert forall|k: int| 0 <= k < e.len() && #[trigger] e[k] == '\\' implies k + 1 < e.len()
                && e[k + 1] == '"' by {
                if k >= 1 {
                    assert(e[k] == er[k - 1]);
                    assert(e[k + 1] == er[k]);
                }
            }
        }
    }
}

/// The quote after an escaped text is the one that closes the string.
proof fn lemma_close_after_escaped(c: Seq<char>, s: Seq<char>, i: int)
    requires
        has_no_backslash(c),
        0 <= i,
        i + escape_quotes(c).len() < s.len(),
        s.subrange(i, i + escape_quotes(c).len()) == escape_quotes(c),
        s[i + escape_quotes(c).len()] == '"',
    ensures
        string_close(s, i) == Some(i + escape_quotes(c).len()),
    decreases c.len(),
{
    let e = escape_quotes(c);
    if c.len() > 0 {
        let r = c.drop_first();
        assert(has_no_backslash(r)) by {
            assert forall|k: int| 0 <= k < r.len() implies r[k] != '\\' by {
                assert(r[k] == c[k + 1]);
            }
        }
        let er = escape_quotes(r);
        assert(c[0] != '\\');
        if c[0] == '"' {
            assert(e =~= seq!['\\', '"'] + er);
            assert(s[i] == e[0]);
            assert(s.subrange(i + 2, i + 2 + er.len()) =~= er) by {
                assert forall|k: int| 0 <= k < er.len() implies s.subrange(i + 2, i + 2 + er.len())[k]
                    == er[k] by {
                    assert(s.subrange(i, i + e.len())[k + 2] == e[k + 2]);
                }
            }
            lemma_close_after_escaped(r, s, i + 2);
        } else {
            assert(e =~= seq![c[0]] + er);
            assert(s[i] == e[0]);
            assert(s.subrange(i + 1, i + 1 + er.len()) =~= er) by {
                assert forall|k: int| 0 <= k < er.len() implies s.subrange(i + 1, i + 1 + er.len())[k]
                    == er[k] by {
                    assert(s.subrange(i, i + e.len())[k + 1] == e[k + 1]);
                }
            }
            lemma_close_after_escaped(r, s, i + 1);
        }
    }
}

/// A two-character pattern `\x` with `x` not a quote does not occur in a text
/// whose backslashes all come before quotes, so replacing it changes nothing.
proof fn lemma_replace_absent(e: Seq<char>, pat: Seq<char>, rep: Seq<char>)
    requires
        backslashes_escape_quotes(e),
        pat.len() == 2,
        pat[0] == '\\',
        pat[1] != '"',
    ensures
        replace_spec(e, pat, rep) == e,
    decreases e.len(),
{
    if e.len() >= 2 {
        let t = e.skip(1);
        assert(backslashes_escape_quotes(t)) by {
            assert forall|k: int| 0 <= k < t.len() && #[trigger] t[k] == '\\' implies k + 1 < t.len()
                && t[k + 1] == '"' by {
                assert(t[k] == e[k + 1]);
                assert(e[k + 1] == '\\');
            }
        }
        lemma_replace_absent(t, pat, rep);
        if e[0] == '\\' {
            assert(e[1] == '"');
        }
        assert(e.subrange(0, 2) != pat) by {
            assert(e.subrange(0, 2)[0] == e[0] && e.subrange(0, 2)[1] == e[1]);
        }
        assert(e =~= seq![e[0]] + t);
    }
}

/// Resolving the escaped quotes of an escaped text gives the text back.
proof fn lemma_unescape_quotes(c: Seq<char>)
    requires
        has_no_backslash(c),
    ensures
        replace_spec(escape_quotes(c), seq!['\\', '"'], seq!['"']) == c,
    decreases c.len(),
{
    let e = escape_quotes(c);
    let pat = seq!['\\', '"'];
    if c.len() > 0 {
        let r = c.drop_first();
        assert(has_no_backslash(r)) by {
            assert forall|k: int| 0 <= k < r.len() implies r[k] != '\\' by {
                assert(r[k] == c[k + 1]);
            }
        }
        lemma_unescape_quotes(r);
        let er = escape_quotes(r);
        if c[0] == '"' {
            assert(e =~= pat + er);
            assert(e.subrange(0, 2) =~= pat);
            assert(e.skip(2) =~= er);
            assert(c =~= seq!['"'] + r);
        } else {
            assert(c[0] != '\\');
            assert(e =~= seq![c[0]] + er);
            if e.len() >= 2 {
                assert(e.subrange(0, 2) != pat) by {
                    assert(e.subrange(0, 2)[0] == c[0]);
                }
                assert(e.skip(1) =~= er);
                assert(c =~= seq![c[0]] + r);
            } else {
                assert(er.len() == 0);
                lemma_escape_shape(r);
                assert(r.len() == 0);
                assert(c =~= seq![c[0]]);
            }
        }
    } else {
        assert(e =~= Seq::<char>::empty());
    }
}

/// A string literal holds any text: for a text `c` without backslashes,
/// writing it between quotes with its quotes escaped gives exactly one
/// string-literal token, whose value is `c` again. An escaped quote never
/// closes the literal.
pub proof fn law_string_literal_round_trip(c: Seq<char>)
    requires
        has_no_backslash(c),
    ensures
        lex(seq!['"'] + escape_quotes(c) + seq!['"']) == seq![
            SpecToken {
                kind: TokenKind::StringLiteral,
                text: seq!['"'] + escape_quotes(c) + seq!['"'],
            },
        ],
        string_literal_value(seq!['"'] + escape_quotes(c) + seq!['"']) == c,
{
    let e = escape_quotes(c);
    let s = seq!['"'] + e + seq!['"'];
    let n = s.len() as int;
    lemma_escape_shape(c);
    assert(s.subrange(1, 1 + e.len() as int) =~= e);
    lemma_close_after_escaped(c, s, 1);
    assert(s[0] == '"');
    assert(!triple_quote_at(s, 0)) by {
        if e.len() > 0 {
            assert(s[1] == e[0]);
        }
    }
    assert(scan_at(s, 0) == (Some(TokenKind::StringLiteral), n));
    assert(lex_from(s, n) == Seq::<SpecToken>::empty());
    assert(s.subrange(0, n) =~= s);
    assert(lex(s) =~= seq![SpecToken { kind: TokenKind::StringLiteral, text: s }]);
    // the value
    reveal_strlit("\\n");
    reveal_strlit("\n");
    reveal_strlit("\\t");
    reveal_strlit("\t");
    reveal_strlit("\\\"");
    reveal_strlit("\"");
    assert(!(s.len() >= 6 && s[0] == '"' && s[1] == '"' && s[2] == '"')) by {
        if e.len() > 0 {
            assert(s[1] == e[0]);
        }
    }
    assert(s.subrange(1, n - 1) =~= e);
    lemma_replace_absent(e, "\\n"@, "\n"@);
    lemma_replace_absent(e, "\\t"@, "\t"@);
    lemma_unescape_quotes(c);
    assert("\\\""@ =~= seq!['\\', '"']);
    assert("\""@ =~= seq!['"']);
}

pub open spec fn all_decimal_digits(d: Seq<char>) -> bool {
    forall|k: int| 0 <= k < d.len() ==> '0' <= #[trigger] d[k] && d[k] <= '9'
}

proof fn lemma_digits_run(s: Seq<char>, i: int, k: int)
    requires
        0 <= i <= k <= s.len(),
        forall|m: int| i <= m < k ==> is_digit(#[trigger] s[m]),
        k < s.len() ==> !is_digit(s[k]),
    ensures
        digits_end(s, i) == k,
    decreases k - i,
{
    if i < k {
        lemma_digits_run(s, i + 1, k);
    }
}

/// A run of decimal digits, with or without a fraction, is one number token
/// holding exactly its text: `lex(d)` and `lex(d + "." + f)` for non-empty
/// digit runs `d` and `f`.
pub proof fn law_number_token(d: Seq<char>, f: Seq<char>)
    requires
        d.len() > 0,
        f.len() > 0,
        all_decimal_digits(d),
        all_decimal_digits(f),
    ensures
        lex(d) == seq![SpecToken { kind: TokenKind::Number, text: d }],
        lex(d + seq!['.'] + f) == seq![
            SpecToken { kind: TokenKind::Number, text: d + seq!['.'] + f },
        ],
{
    // digits only
    lemma_digits_run(d, 0, d.len() as int);
    assert(is_digit(d[0]));
    assert(!is_space(d[0]) && !is_ident_start(d[0]) && d[0] != '/' && d[0] != '"');
    assert(scan_at(d, 0) == (Some(TokenKind::Number), d.len() as int));
    assert(lex_from(d, d.len() as int) == Seq::<SpecToken>::empty());
    assert(d.subrange(0, d.len() as int) =~= d);
    assert(lex(d) =~= seq![SpecToken { kind: TokenKind::Number, text: d }]);
    // with a fraction
    let s = d + seq!['.'] + f;
    let n = s.len() as int;
    let dl = d.len() as int;
    assert forall|m: int| 0 <= m < dl implies is_digit(#[trigger] s[m]) by {
        assert(s[m] == d[m]);
    }
    assert(s[dl] == '.');
    lemma_digits_run(s, 0, dl);
    assert forall|m: int| dl + 1 <= m < n implies is_digit(#[trigger] s[m]) by {
        assert(s[m] == f[m - dl - 1]);
    }
    lemma_digits_run(s, dl + 1, n);
    assert(is_digit(s[dl + 1]));
    assert(number_end(s, 0) == n);
    assert(s[0] == d[0]);
    assert(scan_at(s, 0) == (Some(TokenKind::Number), n));
    assert(lex_from(s, n) == Seq::<SpecToken>::empty());
    assert(s.subrange(0, n) =~= s);
    assert(lex(s) =~= seq![SpecToken { kind: TokenKind::Number, text: s }]);
}

proof fn lemma_ident_end_shift(p: Seq<char>, y: Seq<char>, j: int)
    requires
        0 <= j,
    ensures
        ident_end(p + y, p.len() + j) == p.len() + ident_end(y, j),
    decreases y.len() - j,
{
    if j < y.len() {
        assert((p + y)[p.len() + j] == y[j]);
        if is_ident_char(y[j]) {
            lemma_ident_end_shift(p, y, j + 1);
        }
    }
}

proof fn lemma_digits_end_shift(p: Seq<char>, y: Seq<char>, j: int)
    requires
        0 <= j,
    ensures
        digits_end(p + y, p.len() + j) == p.len() + digits_end(y, j),
    decreases y.len() - j,
{
    if j < y.len() {
        assert((p + y)[p.len() + j] == y[j]);
        if is_digit(y[j]) {
            lemma_digits_end_shift(p, y, j + 1);
        }
    }
}

proof fn lemma_line_end_shift(p: Seq<char>, y: Seq<char>, j: int)
    requires
        0 <= j,
    ensures
        line_end(p + y, p.len() + j) == p.len() + line_end(y, j),
    decreases y.len() - j,
{
    if j < y.len() {
        assert((p + y)[p.len() + j] == y[j]);
        if y[j] != '\n' {
            lemma_line_end_shift(p, y, j + 1);
        }
    }
}

proof fn lemma_string_close_shift(p: Seq<char>, y: Seq<char>, j: int)
    requires
        0 <= j,
    ensures
        string_close(p + y, p.len() + j) == match string_close(y, j) {
            Some(k) => Some(p.len() + k),
            None => None,
        },
    decreases y.len() - j,
{
    if j < y.len() {
        assert((p + y)[p.len() + j] == y[j]);
        if y[j] != '"' {
            if y[j] == '\\' {
                if j + 1 < y.len() {
                    lemma_string_close_shift(p, y, j + 2);
                }
            } else {
                lemma_string_close_shift(p, y, j + 1);
            }
        }
    }
}

proof fn lemma_triple_quote_shift(p: Seq<char>, y: Seq<char>, j: int)
    requires
        0 <= j,
    ensures
        triple_quote_at(p + y, p.len() + j) == triple_quote_at(y, j),
{
    if j + 2 < y.len() {
        assert((p + y)[p.len() + j] == y[j]);
        assert((p + y)[p.len() + j + 1] == y[j + 1]);
        assert((p + y)[p.len() + j + 2] == y[j + 2]);
    }
}

proof fn lemma_triple_close_shift(p: Seq<char>, y: Seq<char>, j: int)
    requires
        0 <= j,
    ensures
        triple_close(p + y, p.len() + j) == match triple_close(y, j) {
            Some(k) => Some(p.len() + k),
            None => None,
        },
    decreases y.len() - j,
{
    lemma_triple_quote_shift(p, y, j);
    if j + 2 < y.len() && !triple_quote_at(y, j) {
        lemma_triple_close_shift(p, y, j + 1);
    }
}

/// What the scanner reads at a position does not depend on the text before it.
proof fn lemma_scan_at_shift(p: Seq<char>, y: Seq<char>, j: int)
    requires
        0 <= j < y.len(),
    ensures
        scan_at(p + y, p.len() + j) == (scan_at(y, j).0, p.len() + scan_at(y, j).1),
{
    let s = p + y;
    let i = p.len() + j;
    assert(s[i] == y[j]);
    if j + 1 < y.len() {
        assert(s[i + 1] == y[j + 1]);
    }
    lemma_line_end_shift(p, y, j + 2);
    lemma_ident_end_shift(p, y, j + 1);
    lemma_digits_end_shift(p, y, j);
    lemma_digits_end(y, j);
    let d = digits_end(y, j);
    assert(s.len() == p.len() + y.len());
    if 0 <= d && d + 1 < y.len() {
        assert(s[p.len() + d] == y[d]);
        assert(s[p.len() + d + 1] == y[d + 1]);
        lemma_digits_end_shift(p, y, d + 1);
    }
    lemma_triple_quote_shift(p, y, j);
    lemma_triple_close_shift(p, y, j + 3);
    lemma_string_close_shift(p, y, j + 1);
    lemma_ident_end(y, j + 1);
    let k = ident_end(y, j + 1);
    if is_ident_start(y[j]) {
        assert(s.subrange(i, p.len() + k) =~= y.subrange(j, k));
    }
    assert(number_end(s, i) == p.len() + number_end(y, j));
    let c = y[j];
    if is_space(c) {
    } else if c == '/' && j + 1 < y.len() && y[j + 1] == '/' {
        assert(scan_at(s, i) == (None::<TokenKind>, line_end(s, i + 2)));
    } else if is_ident_start(c) {
        assert(scan_at(s, i).1 == p.len() + k);
    } else if is_digit(c) {
    } else if c == '"' {
        if triple_quote_at(y, j) && triple_close(y, j + 3) is Some {
        } else {
            assert(string_close(s, i + 1) == match string_close(y, j + 1) {
                Some(q) => Some(p.len() + q),
                None => None,
            });
        }
    } else if j + 1 < y.len() && two_char_kind(c, y[j + 1]) is Some {
    } else {
    }
}

/// Lexing from a position does not depend on the text before it.
proof fn lemma_lex_from_shift(p: Seq<char>, y: Seq<char>, j: int)
    requires
        0 <= j,
    ensures
        lex_from(p + y, p.len() + j) == lex_from(y, j),
    decreases y.len() - j,
{
    let s = p + y;
    let i = p.len() + j;
    if j < y.len() {
        lemma_scan_at_shift(p, y, j);
        lemma_scan_at(y, j);
        let (k, j2) = scan_at(y, j);
        lemma_lex_from_shift(p, y, j2);
        assert(s.subrange(i, p.len() + j2) =~= y.subrange(j, j2));
    }
}

/// Blanks in front of a text do not change its tokens.
pub proof fn law_leading_blanks_skipped(w: Seq<char>, y: Seq<char>)
    requires
        forall|k: int| 0 <= k < w.len() ==> is_space(#[trigger] w[k]),
    ensures
        lex(w + y) == lex(y),
    decreases w.len(),
{
    if w.len() > 0 {
        let s = w + y;
        assert(s[0] == w[0]);
        assert(scan_at(s, 0) == (None::<TokenKind>, 1int));
        let w1 = w.drop_first();
        assert(s =~= seq![w[0]] + (w1 + y));
        lemma_lex_from_shift(seq![w[0]], w1 + y, 0);
        law_leading_blanks_skipped(w1, y);
    } else {
        assert(w + y =~= y);
    }
}

/// A `//` comment up to the end of its line adds no token: the tokens of
/// `//` + comment + newline + `y` are those of `y`.
pub proof fn law_comment_skipped(x: Seq<char>, y: Seq<char>)
    requires
        forall|k: int| 0 <= k < x.len() ==> #[trigger] x[k] != '\n',
    ensures
        lex(seq!['/', '/'] + x + seq!['\n'] + y) == lex(y),
{
    let c = seq!['/', '/'] + x + seq!['\n'];
    let s = c + y;
    let m: int = 2 + x.len() as int;
    assert(s =~= seq!['/', '/'] + x + seq!['\n'] + y);
    assert(s[0] == '/' && s[1] == '/');
    assert(!is_space('/'));
    assert forall|k: int| 2 <= k < m implies s[k] != '\n' by {
        assert(s[k] == x[k - 2]);
    }
    assert(s[m] == '\n');
    lemma_line_end_run(s, 2, m);
    assert(scan_at(s, 0) == (None::<TokenKind>, m));
    assert(is_space(s[m]));
    assert(scan_at(s, m) == (None::<TokenKind>, m + 1));
    lemma_lex_from_shift(c, y, 0);
    assert(c.len() == m + 1);
    assert(lex_from(s, m) == lex_from(s, m + 1));
    assert(lex_from(s, 0) == lex_from(s, m));
    assert(lex_from(c + y, c.len() as int) == lex_from(y, 0));
}

proof fn lemma_line_end_run(s: Seq<char>, i: int, m: int)
    requires
        0 <= i <= m < s.len(),
        forall|k: int| i <= k < m ==> s[k] != '\n',
        s[m] == '\n',
    ensures
        line_end(s, i) == m,
    decreases m - i,
{
    if i < m {
        lemma_line_end_run(s, i + 1, m);
    }
}

/// The scanner always moves forward and stays within the text.
proof fn lemma_scan_at(s: Seq<char>, i: int)
    requires
        0 <= i < s.len(),
    ensures
        i < scan_at(s, i).1 <= s.len(),
{
    lemma_ident_end(s, i + 1);
    lemma_digits_end(s, i);
    let j = digits_end(s, i);
    if 0 <= j && j + 1 < s.len() {
        lemma_digits_end(s, j + 1);
    }
    if i + 2 <= s.len() {
        lemma_line_end(s, i + 2);
    }
    lemma_string_close(s, i + 1);
    lemma_triple_close(s, i + 3);
}

// ---------------------------------------------------------------------------
// Executable lexer
// ---------------------------------------------------------------------------
/// Turns a character vector into a `String` by std's `FromIterator<char>` for
/// `String`. Taken on trust, not proved: the string holds exactly these
/// characters, in order.
#[verifier::external_body]
pub(crate) fn string_from_chars(v: &Vec<char>) -> (s: String)
    ensures
        s@ == v@,
{
    v.iter().collect::<String>()
}

/// The characters of a string, in order.
pub fn str_chars(src: &str) -> (v: Vec<char>)
    ensures
        v@ == src@,
{
    broadcast use vstd::string::group_string_axioms;

    let mut v: Vec<char> = Vec::new();
    let mut it = src.chars();
    loop
        invariant
            v@ + it.remaining() == src@,
            it.decrease() is Some,
        ensures
            v@ == src@,
        decreases it.decrease()->0,
    {
        let ghost before = it.remaining();
        match it.next() {
            Some(c) => {
                v.push(c);
                assert(v@ + it.remaining() =~= src@) by {
                    assert(before =~= seq![c] + before.drop_first());
                }
            },
            None => {
                assert(v@ =~= src@);
                break;
            },
        }
    }
    v
}

fn is_ident_char_exec(c: char) -> (b: bool)
    ensures
        b == is_ident_char(c),
{
    ('a' <= c && c <= 'z') || ('A' <= c && c <= 'Z') || c == '_' || ('0' <= c && c <= '9')
}

fn ident_end_exec(s: &Vec<char>, i: usize) -> (j: usize)
    requires
        i <= s.len(),
    ensures
        j == ident_end(s@, i as int),
{
    let mut j = i;
    while j < s.len() && is_ident_char_exec(s[j])
        invariant
            i <= j <= s.len(),
            ident_end(s@, j as int) == ident_end(s@, i as int),
        decreases s.len() - j,
    {
        j = j + 1;
    }
    j
}

fn digits_end_exec(s: &Vec<char>, i: usize) -> (j: usize)
    requires
        i <= s.len(),
    ensures
        j == digits_end(s@, i as int),
{
    let mut j = i;
    while j < s.len() && ('0' <= s[j] && s[j] <= '9')
        invariant
            i <= j <= s.len(),
            digits_end(s@, j as int) == digits_end(s@, i as int),
        decreases s.len() - j,
    {
        j = j + 1;
    }
    j
}

fn number_end_exec(s: &Vec<char>, i: usize) -> (j: usize)
    requires
        i <= s.len(),
    ensures
        j == number_end(s@, i as int),
{
    let j = digits_end_exec(s, i);
    proof {
        lemma_digits_end(s@, i as int);
    }
    if j < s.len() && s.len() - j > 1 && s[j] == '.' && '0' <= s[j + 1] && s[j + 1] <= '9' {
        digits_end_exec(s, j + 1)
    } else {
        j
    }
}

fn line_end_exec(s: &Vec<char>, i: usize) -> (j: usize)
    requires
        i <= s.len(),
    ensures
        j == line_end(s@, i as int),
{
    let mut j = i;
    while j < s.len() && s[j] != '\n'
        invariant
            i <= j <= s.len(),
            line_end(s@, j as int) == line_end(s@, i as int),
        decreases s.len() - j,
    {
        j = j + 1;
    }
    j
}

fn string_close_exec(s: &Vec<char>, i: usize) -> (r: Option<usize>)
    requires
        i <= s.len(),
    ensures
        r matches Some(j) ==> string_close(s@, i as int) == Some(j as int),
        r is None ==> string_close(s@, i as int) is None,
{
    let mut j = i;
    while j < s.len()
        invariant
            i <= j <= s.len() + 1,
            string_close(s@, j as int) == string_close(s@, i as int),
        decreases s.len() + 1 - j,
    {
        if s[j] == '"' {
            return Some(j);
        } else if s[j] == '\\' {
            if j + 1 < s.len() {
                j = j + 2;
            } else {
                return None;
            }
        } else {
            j = j + 1;
        }
    }
    None
}

fn triple_quote_exec(s: &Vec<char>, i: usize) -> (b: bool)
    ensures
        b == triple_quote_at(s@, i as int),
{
    i < s.len() && s.len() - i > 2 && s[i] == '"' && s[i + 1] == '"' && s[i + 2] == '"'
}

fn triple_close_exec(s: &Vec<char>, i: usize) -> (r: Option<usize>)
    requires
        i <= s.len(),
    ensures
        r matches Some(j) ==> triple_close(s@, i as int) == Some(j as int),
        r is None ==> triple_close(s@, i as int) is None,
{
    let mut j = i;
    while j < s.len() && s.len() - j > 2
        invariant
            i <= j <= s.len(),
            triple_close(s@, j as int) == triple_close(s@, i as int),
        decreases s.len() - j,
    {
        if triple_quote_exec(s, j) {
            return Some(j);
        }
        j = j + 1;
    }
    None
}

fn word_kind_exec(w: &String) -> (k: TokenKind)
    ensures
        k == word_kind(w@),
{
    if *w == String::from_str("vessel") {
        TokenKind::Vessel
    } else if *w == String::from_str("let") {
        TokenKind::Let
    } else if *w == String::from_str("print") {
        TokenKind::Print
    } else if *w == String::from_str("import") {
        TokenKind::Import
    } else if *w == String::from_str("if") {
        TokenKind::If
    } else if *w == String::from_str("else") {
        TokenKind::Else
    } else if *w == String::from_str("while") {
        TokenKind::While
    } else if *w == String::from_str("def") {
        TokenKind::Def
    } else if *w == String::from_str("return") {
        TokenKind::Return
    } else if *w == String::from_str("hextrace") {
        TokenKind::HexTrace
    } else if *w == String::from_str("backward") {
        TokenKind::Backward
    } else if *w == String::from_str("optim") {
        TokenKind::Optim
    } else if *w == String::from_str("reply") {
        TokenKind::Reply
    } else if *w == String::from_str("shield") {
        TokenKind::Shield
    } else if *w == String::from_str("mcp_server") {
        TokenKind::McpServer
    } else if *w == String::from_str("expose_tool") {
        TokenKind::ExposeTool
    } else if *w == String::from_str("veil") {
        TokenKind::Veil
    } else if *w == String::from_str("worker") {
        TokenKind::Worker
    } else if *w == String::from_str("recv") {
        TokenKind::Recv
    } else if *w == String::from_str("true") {
        TokenKind::True
    } else if *w == String::from_str("false") {
        TokenKind::False
    } else if *w == String::from_str("tensor") {
        TokenKind::Tensor
    } else if *w == String::from_str("grad") {
        TokenKind::Grad
    } else if *w == String::from_str("infer") {
        TokenKind::Infer
    } else if *w == String::from_str("input") {
        TokenKind::Input
    } else if *w == String::from_str("read_text") {
        TokenKind::ReadText
    } else if *w == String::from_str("rag") {
        TokenKind::Rag
    } else if *w == String::from_str("share") {
        TokenKind::Share
    } else if *w == String::from_str("sys_exec") {
        TokenKind::SysExec
    } else if *w == String::from_str("http_get") {
        TokenKind::HttpGet
    } else if *w == String::from_str("call") {
        TokenKind::CallTool
    } else if *w == String::from_str("absorb") {
        TokenKind::Absorb
    } else if *w == String::from_str("bare_metal") {
        TokenKind::TierBareMetal
    } else if *w == String::from_str("vram_only") {
        TokenKind::TierVramOnly
    } else if *w == String::from_str("temp") {
        TokenKind::Temp
    } else if *w == String::from_str("bind") {
        TokenKind::Bind
    } else if *w == String::from_str("quantize") {
        TokenKind::Quantize
    } else if *w == String::from_str("hyper_quad") {
        TokenKind::HyperQuad
    } else if *w == String::from_str("connect_mcp") {
        TokenKind::ConnectMcp
    } else {
        TokenKind::Identifier
    }
}

fn two_char_kind_exec(a: char, b: char) -> (k: Option<TokenKind>)
    ensures
        k == two_char_kind(a, b),
{
    if a == '=' && b == '=' {
        Some(TokenKind::EqualEqual)
    } else if a == '!' && b == '=' {
        Some(TokenKind::NotEqual)
    } else if a == '<' && b == '=' {
        Some(TokenKind::LessEqual)
    } else if a == '>' && b == '=' {
        Some(TokenKind::GreaterEqual)
    } else if a == '&' && b == '&' {
        Some(TokenKind::And)
    } else if a == '|' && b == '|' {
        Some(TokenKind::Or)
    } else {
        None
    }
}

fn one_char_kind_exec(c: char) -> (k: Option<TokenKind>)
    ensures
        k == one_char_kind(c),
{
    if c == '=' {
        Some(TokenKind::Equal)
    } else if c == '<' {
        Some(TokenKind::LessThan)
    } else if c == '>' {
        Some(TokenKind::GreaterThan)
    } else if c == '+' {
        Some(TokenKind::Plus)
    } else if c == '-' {
        Some(TokenKind::Minus)
    } else if c == '*' {
        Some(TokenKind::Star)
    } else if c == '/' {
        Some(TokenKind::Slash)
    } else if c == '%' {
        Some(TokenKind::Modulo)
    } else if c == '!' {
        Some(TokenKind::Bang)
    } else if c == '(' {
        Some(TokenKind::ParenOpen)
    } else if c == ')' {
        Some(TokenKind::ParenClose)
    } else if c == '[' {
        Some(TokenKind::BracketOpen)
    } else if c == ']' {
        Some(TokenKind::BracketClose)
    } else if c == '{' {
        Some(TokenKind::BraceOpen)
    } else if c == '}' {
        Some(TokenKind::BraceClose)
    } else if c == ',' {
        Some(TokenKind::Comma)
    } else if c == '.' {
        Some(TokenKind::Dot)
    } else if c == ':' {
        Some(TokenKind::Colon)
    } else {
        None
    }
}

/// The characters `s[i..j]`.
pub(crate) fn chars_between(s: &Vec<char>, i: usize, j: usize) -> (v: Vec<char>)
    requires
        i <= j <= s.len(),
    ensures
        v@ == s@.subrange(i as int, j as int),
{
    let mut v: Vec<char> = Vec::new();
    let mut k = i;
    while k < j
        invariant
            i <= k <= j <= s.len(),
            v@ == s@.subrange(i as int, k as int),
        decreases j - k,
    {
        v.push(s[k]);
        assert(s@.subrange(i as int, k + 1) =~= s@.subrange(i as int, k as int).push(s@[k as int]));
        k = k + 1;
    }
    v
}

/// Executable counterpart of `scan_at`.
fn scan_at_exec(s: &Vec<char>, i: usize) -> (r: (Option<TokenKind>, usize))
    requires
        i < s.len(),
    ensures
        r.0 == scan_at(s@, i as int).0,
        r.1 == scan_at(s@, i as int).1,
{
    let c = s[i];
    if c == ' ' || c == '\t' || c == '\n' || c == '\r' || c == '\x0C' {
        (None, i + 1)
    } else if c == '/' && i + 1 < s.len() && s[i + 1] == '/' {
        (None, line_end_exec(s, i + 2))
    } else if ('a' <= c && c <= 'z') || ('A' <= c && c <= 'Z') || c == '_' {
        let j = ident_end_exec(s, i + 1);
        proof {
            lemma_ident_end(s@, i + 1);
        }
        let w = string_from_chars(&chars_between(s, i, j));
        (Some(word_kind_exec(&w)), j)
    } else if '0' <= c && c <= '9' {
        (Some(TokenKind::Number), number_end_exec(s, i))
    } else if c == '"' {
        let triple = if triple_quote_exec(s, i) {
            triple_close_exec(s, i + 3)
        } else {
            None
        };
        match triple {
            Some(k) => {
                proof {
                    lemma_triple_close(s@, i + 3);
                }
                (Some(TokenKind::StringLiteral), k + 3)
            },
            None => {
                match string_close_exec(s, i + 1) {
                    Some(j) => {
                        proof {
                            lemma_string_close(s@, i + 1);
                        }
                        (Some(TokenKind::StringLiteral), j + 1)
                    },
                    None => (None, i + 1),
                }
            },
        }
    } else if i + 1 < s.len() && two_char_kind_exec(c, s[i + 1]).is_some() {
        (two_char_kind_exec(c, s[i + 1]), i + 2)
    } else {
        (one_char_kind_exec(c), i + 1)
    }
}

/// Splits a source text into tokens.
pub fn tokenize(src: &str) -> (toks: Vec<Token>)
    ensures
        tokens_view(toks@) == lex(src@),
{
    let s = str_chars(src);
    let mut toks: Vec<Token> = Vec::new();
    let mut i: usize = 0;
    while i < s.len()
        invariant
            i <= s.len(),
            s@ == src@,
            tokens_view(toks@) + lex_from(s@, i as int) == lex(s@),
        decreases s.len() - i,
    {
        let (k, j) = scan_at_exec(&s, i);
        proof {
            lemma_scan_at(s@, i as int);
        }
        let ghost old_toks = toks@;
        match k {
            Some(kind) => {
                let text = string_from_chars(&chars_between(&s, i, j));
                let tok = Token { kind, text };
                toks.push(tok);
                assert(tokens_view(toks@) =~= tokens_view(old_toks) + seq![tok@]);
            },
            None => {},
        }
        i = j;
    }
    assert(lex_from(s@, i as int) =~= Seq::<SpecToken>::empty());
    toks
}

} // verus!
