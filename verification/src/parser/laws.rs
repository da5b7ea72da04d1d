//! Laws of the grammar: how binary and prefix operators group, and what some
//! statements yield from their tokens.
use vstd::prelude::*;
use crate::lexer::{SpecToken, TokenKind};
use crate::ast::{SExpr, SStmt};
use super::grammar::{
    parse_expr, parse_infix, parse_prefix, precedence, SynErr, SyntaxErrorKind, parse_program,
    parse_program_from, parse_stmt, parse_let, parse_def, parse_params, parse_body_strict,
    parse_identifier_stmt, parse_identifier_expr, opt_ident_after_comma, parse_if, parse_while,
    parse_braced_body, parse_body_lenient,
};

verus! {

/// The literal that a number token stands for.
pub open spec fn number(t: SpecToken) -> SExpr {
    SExpr::NumberLiteral(t.text)
}

/// `l op r` as a tree.
pub open spec fn binary(l: SExpr, op: SpecToken, r: SExpr) -> SExpr {
    SExpr::InfixOp { left: Box::new(l), operator: op.text, right: Box::new(r) }
}

/// Binding power of a token taken as a binary operator.
pub open spec fn binding(op: SpecToken) -> u8 {
    precedence(Some(op.kind))
}

/// In `a op1 b op2 c` the operator that binds tighter groups first, and of two
/// operators that bind equally the left one groups first; the whole input is
/// read.
pub proof fn law_operator_precedence(
    a: SpecToken,
    op1: SpecToken,
    b: SpecToken,
    op2: SpecToken,
    c: SpecToken,
)
    requires
        a.kind == TokenKind::Number,
        b.kind == TokenKind::Number,
        c.kind == TokenKind::Number,
        binding(op1) > 0,
        binding(op2) > 0,
    ensures
        parse_expr(seq![a, op1, b, op2, c], 0, 0) == Ok::<(Option<SExpr>, int), SynErr>(
            (
                Some(
                    if binding(op2) > binding(op1) {
                        binary(number(a), op1, binary(number(b), op2, number(c)))
                    } else {
                        binary(binary(number(a), op1, number(b)), op2, number(c))
                    },
                ),
                5int,
            ),
        ),
{
    let ts = seq![a, op1, b, op2, c];
    let (na, nb, nc) = (number(a), number(b), number(c));
    let (p1, p2) = (binding(op1), binding(op2));
    assert(ts.len() == 5 && ts[0] == a && ts[1] == op1 && ts[2] == b && ts[3] == op2 && ts[4] == c);
    assert(parse_prefix(ts, 0) == Ok::<(Option<SExpr>, int), SynErr>((Some(na), 1)));
    assert(parse_prefix(ts, 2) == Ok::<(Option<SExpr>, int), SynErr>((Some(nb), 3)));
    assert(parse_prefix(ts, 4) == Ok::<(Option<SExpr>, int), SynErr>((Some(nc), 5)));
    assert(parse_infix(ts, nc, 5, p2) == Ok::<(Option<SExpr>, int), SynErr>((Some(nc), 5)));
    assert(parse_expr(ts, 4, p2) == Ok::<(Option<SExpr>, int), SynErr>((Some(nc), 5)));
    if p2 > p1 {
        let bc = binary(nb, op2, nc);
        assert(parse_infix(ts, bc, 5, p1) == Ok::<(Option<SExpr>, int), SynErr>((Some(bc), 5)));
        assert(parse_infix(ts, nb, 3, p1) == Ok::<(Option<SExpr>, int), SynErr>((Some(bc), 5)));
        assert(parse_expr(ts, 2, p1) == Ok::<(Option<SExpr>, int), SynErr>((Some(bc), 5)));
        let abc = binary(na, op1, bc);
        assert(parse_infix(ts, abc, 5, 0) == Ok::<(Option<SExpr>, int), SynErr>((Some(abc), 5)));
        assert(parse_infix(ts, na, 1, 0) == Ok::<(Option<SExpr>, int), SynErr>((Some(abc), 5)));
    } else {
        assert(parse_infix(ts, nb, 3, p1) == Ok::<(Option<SExpr>, int), SynErr>((Some(nb), 3)));
        assert(parse_expr(ts, 2, p1) == Ok::<(Option<SExpr>, int), SynErr>((Some(nb), 3)));
        let ab = binary(na, op1, nb);
        let abc = binary(ab, op2, nc);
        assert(parse_infix(ts, abc, 5, 0) == Ok::<(Option<SExpr>, int), SynErr>((Some(abc), 5)));
        assert(parse_infix(ts, ab, 3, 0) == Ok::<(Option<SExpr>, int), SynErr>((Some(abc), 5)));
        assert(parse_infix(ts, na, 1, 0) == Ok::<(Option<SExpr>, int), SynErr>((Some(abc), 5)));
    }
}

/// A number or a variable name.
pub open spec fn is_atom(t: SpecToken) -> bool {
    t.kind == TokenKind::Number || t.kind == TokenKind::Identifier
}

/// The expression a number or variable token stands for.
pub open spec fn atom(t: SpecToken) -> SExpr {
    if t.kind == TokenKind::Number {
        SExpr::NumberLiteral(t.text)
    } else {
        SExpr::Variable(t.text)
    }
}

/// `||`
pub open spec fn is_or(t: SpecToken) -> bool {
    t.kind == TokenKind::Or
}

/// `&&`
pub open spec fn is_and(t: SpecToken) -> bool {
    t.kind == TokenKind::And
}

/// `==` and `!=`
pub open spec fn is_equality(t: SpecToken) -> bool {
    t.kind == TokenKind::EqualEqual || t.kind == TokenKind::NotEqual
}

/// `<`, `>`, `<=` and `>=`
pub open spec fn is_comparison(t: SpecToken) -> bool {
    t.kind == TokenKind::LessThan || t.kind == TokenKind::GreaterThan || t.kind
        == TokenKind::LessEqual || t.kind == TokenKind::GreaterEqual
}

/// `+` and `-`
pub open spec fn is_additive(t: SpecToken) -> bool {
    t.kind == TokenKind::Plus || t.kind == TokenKind::Minus
}

/// `*`, `/` and `%`
pub open spec fn is_multiplicative(t: SpecToken) -> bool {
    t.kind == TokenKind::Star || t.kind == TokenKind::Slash || t.kind == TokenKind::Modulo
}

/// `op1` belongs to a class of operators that binds more loosely than the
/// class of `op2`; from loosest to tightest the classes are `||`, `&&`,
/// equality, comparison, additive and multiplicative operators.
pub open spec fn looser(op1: SpecToken, op2: SpecToken) -> bool {
    ||| is_or(op1) && (is_and(op2) || is_equality(op2) || is_comparison(op2) || is_additive(op2)
        || is_multiplicative(op2))
    ||| is_and(op1) && (is_equality(op2) || is_comparison(op2) || is_additive(op2)
        || is_multiplicative(op2))
    ||| is_equality(op1) && (is_comparison(op2) || is_additive(op2) || is_multiplicative(op2))
    ||| is_comparison(op1) && (is_additive(op2) || is_multiplicative(op2))
    ||| is_additive(op1) && is_multiplicative(op2)
}

/// `op1` and `op2` are binary operators of the same class.
pub open spec fn same_class(op1: SpecToken, op2: SpecToken) -> bool {
    ||| is_or(op1) && is_or(op2)
    ||| is_and(op1) && is_and(op2)
    ||| is_equality(op1) && is_equality(op2)
    ||| is_comparison(op1) && is_comparison(op2)
    ||| is_additive(op1) && is_additive(op2)
    ||| is_multiplicative(op1) && is_multiplicative(op2)
}

proof fn lemma_atom_prefix(ts: Seq<SpecToken>, p: int)
    requires
        0 <= p < ts.len(),
        is_atom(ts[p]),
        p + 1 < ts.len() ==> precedence(Some(ts[p + 1].kind)) > 0,
    ensures
        parse_prefix(ts, p) == Ok::<(Option<SExpr>, int), SynErr>((Some(atom(ts[p])), p + 1)),
{
    if ts[p].kind == TokenKind::Identifier {
        assert(parse_identifier_expr(ts, p) == Ok::<(Option<SExpr>, int), SynErr>(
            (Some(atom(ts[p])), p + 1),
        ));
    }
}

proof fn lemma_group_atoms(a: SpecToken, op1: SpecToken, b: SpecToken, op2: SpecToken, c: SpecToken)
    requires
        is_atom(a),
        is_atom(b),
        is_atom(c),
        binding(op1) > 0,
        binding(op2) > 0,
    ensures
        parse_expr(seq![a, op1, b, op2, c], 0, 0) == Ok::<(Option<SExpr>, int), SynErr>(
            (
                Some(
                    if binding(op2) > binding(op1) {
                        binary(atom(a), op1, binary(atom(b), op2, atom(c)))
                    } else {
                        binary(binary(atom(a), op1, atom(b)), op2, atom(c))
                    },
                ),
                5int,
            ),
        ),
{
    let ts = seq![a, op1, b, op2, c];
    let (na, nb, nc) = (atom(a), atom(b), atom(c));
    let (p1, p2) = (binding(op1), binding(op2));
    assert(ts.len() == 5 && ts[0] == a && ts[1] == op1 && ts[2] == b && ts[3] == op2 && ts[4] == c);
    lemma_atom_prefix(ts, 0);
    lemma_atom_prefix(ts, 2);
    lemma_atom_prefix(ts, 4);
    assert(parse_infix(ts, nc, 5, p2) == Ok::<(Option<SExpr>, int), SynErr>((Some(nc), 5)));
    assert(parse_expr(ts, 4, p2) == Ok::<(Option<SExpr>, int), SynErr>((Some(nc), 5)));
    if p2 > p1 {
        let bc = binary(nb, op2, nc);
        assert(parse_infix(ts, bc, 5, p1) == Ok::<(Option<SExpr>, int), SynErr>((Some(bc), 5)));
        assert(parse_infix(ts, nb, 3, p1) == Ok::<(Option<SExpr>, int), SynErr>((Some(bc), 5)));
        assert(parse_expr(ts, 2, p1) == Ok::<(Option<SExpr>, int), SynErr>((Some(bc), 5)));
        let abc = binary(na, op1, bc);
        assert(parse_infix(ts, abc, 5, 0) == Ok::<(Option<SExpr>, int), SynErr>((Some(abc), 5)));
        assert(parse_infix(ts, na, 1, 0) == Ok::<(Option<SExpr>, int), SynErr>((Some(abc), 5)));
    } else {
        assert(parse_infix(ts, nb, 3, p1) == Ok::<(Option<SExpr>, int), SynErr>((Some(nb), 3)));
        assert(parse_expr(ts, 2, p1) == Ok::<(Option<SExpr>, int), SynErr>((Some(nb), 3)));
        let ab = binary(na, op1, nb);
        let abc = binary(ab, op2, nc);
        assert(parse_infix(ts, abc, 5, 0) == Ok::<(Option<SExpr>, int), SynErr>((Some(abc), 5)));
        assert(parse_infix(ts, ab, 3, 0) == Ok::<(Option<SExpr>, int), SynErr>((Some(abc), 5)));
        assert(parse_infix(ts, na, 1, 0) == Ok::<(Option<SExpr>, int), SynErr>((Some(abc), 5)));
    }
}

/// The tighter class groups first, on either side: for numbers or variables
/// `a`, `b`, `c`, if `op1`'s class is looser than `op2`'s then `a op1 b op2 c`
/// is `a op1 (b op2 c)` (so `i < n - 1` compares `i` with `n - 1`), and if
/// `op2`'s class is looser then it is `(a op1 b) op2 c` (so `a + b < c`
/// compares `a + b` with `c`).
pub proof fn law_tighter_class_groups_first(
    a: SpecToken,
    op1: SpecToken,
    b: SpecToken,
    op2: SpecToken,
    c: SpecToken,
)
    requires
        is_atom(a),
        is_atom(b),
        is_atom(c),
        looser(op1, op2) || looser(op2, op1),
    ensures
        looser(op1, op2) ==> parse_expr(seq![a, op1, b, op2, c], 0, 0) == Ok::<
            (Option<SExpr>, int),
            SynErr,
        >((Some(binary(atom(a), op1, binary(atom(b), op2, atom(c)))), 5int)),
        looser(op2, op1) ==> parse_expr(seq![a, op1, b, op2, c], 0, 0) == Ok::<
            (Option<SExpr>, int),
            SynErr,
        >((Some(binary(binary(atom(a), op1, atom(b)), op2, atom(c))), 5int)),
{
    lemma_group_atoms(a, op1, b, op2, c);
}

/// Operators of one class group to the left: `a - b - c` is `(a - b) - c`,
/// `a < b < c` is `(a < b) < c`, and so on for every class.
pub proof fn law_same_class_groups_left(
    a: SpecToken,
    op1: SpecToken,
    b: SpecToken,
    op2: SpecToken,
    c: SpecToken,
)
    requires
        is_atom(a),
        is_atom(b),
        is_atom(c),
        same_class(op1, op2),
    ensures
        parse_expr(seq![a, op1, b, op2, c], 0, 0) == Ok::<(Option<SExpr>, int), SynErr>(
            (Some(binary(binary(atom(a), op1, atom(b)), op2, atom(c))), 5int),
        ),
{
    lemma_group_atoms(a, op1, b, op2, c);
}

/// A prefix `-` or `!` binds tighter than every binary operator: `-a op b`
/// is `(-a) op b`.
pub proof fn law_prefix_binds_tightest(m: SpecToken, a: SpecToken, op: SpecToken, b: SpecToken)
    requires
        m.kind == TokenKind::Minus || m.kind == TokenKind::Bang,
        a.kind == TokenKind::Number,
        b.kind == TokenKind::Number,
        binding(op) > 0,
    ensures
        parse_expr(seq![m, a, op, b], 0, 0) == Ok::<(Option<SExpr>, int), SynErr>(
            (
                Some(
                    binary(
                        SExpr::PrefixOp { operator: m.text, right: Box::new(number(a)) },
                        op,
                        number(b),
                    ),
                ),
                4int,
            ),
        ),
{
    let ts = seq![m, a, op, b];
    let (na, nb) = (number(a), number(b));
    let neg = SExpr::PrefixOp { operator: m.text, right: Box::new(na) };
    let whole = binary(neg, op, nb);
    assert(ts.len() == 4 && ts[0] == m && ts[1] == a && ts[2] == op && ts[3] == b);
    assert(parse_prefix(ts, 1) == Ok::<(Option<SExpr>, int), SynErr>((Some(na), 2)));
    assert(parse_infix(ts, na, 2, 7) == Ok::<(Option<SExpr>, int), SynErr>((Some(na), 2)));
    assert(parse_expr(ts, 1, 7) == Ok::<(Option<SExpr>, int), SynErr>((Some(na), 2)));
    assert(parse_prefix(ts, 0) == Ok::<(Option<SExpr>, int), SynErr>((Some(neg), 2)));
    assert(parse_prefix(ts, 3) == Ok::<(Option<SExpr>, int), SynErr>((Some(nb), 4)));
    assert(parse_infix(ts, nb, 4, binding(op)) == Ok::<(Option<SExpr>, int), SynErr>((Some(nb), 4)));
    assert(parse_expr(ts, 3, binding(op)) == Ok::<(Option<SExpr>, int), SynErr>((Some(nb), 4)));
    assert(parse_infix(ts, whole, 4, 0) == Ok::<(Option<SExpr>, int), SynErr>((Some(whole), 4)));
    assert(parse_infix(ts, neg, 2, 0) == Ok::<(Option<SExpr>, int), SynErr>((Some(whole), 4)));
}

/// Parentheses group first, whatever the operators: `(a op1 b) op2 c` is
/// `(a op1 b) op2 c`.
pub proof fn law_parentheses_group_first(
    open_paren: SpecToken,
    a: SpecToken,
    op1: SpecToken,
    b: SpecToken,
    close_paren: SpecToken,
    op2: SpecToken,
    c: SpecToken,
)
    requires
        open_paren.kind == TokenKind::ParenOpen,
        close_paren.kind == TokenKind::ParenClose,
        a.kind == TokenKind::Number,
        b.kind == TokenKind::Number,
        c.kind == TokenKind::Number,
        binding(op1) > 0,
        binding(op2) > 0,
    ensures
        parse_expr(seq![open_paren, a, op1, b, close_paren, op2, c], 0, 0) == Ok::<
            (Option<SExpr>, int),
            SynErr,
        >((Some(binary(binary(number(a), op1, number(b)), op2, number(c))), 7int)),
{
    let ts = seq![open_paren, a, op1, b, close_paren, op2, c];
    let (na, nb, nc) = (number(a), number(b), number(c));
    let (p1, p2) = (binding(op1), binding(op2));
    let ab = binary(na, op1, nb);
    let abc = binary(ab, op2, nc);
    assert(ts.len() == 7 && ts[0] == open_paren && ts[1] == a && ts[2] == op1 && ts[3] == b
        && ts[4] == close_paren && ts[5] == op2 && ts[6] == c);
    assert(parse_prefix(ts, 1) == Ok::<(Option<SExpr>, int), SynErr>((Some(na), 2)));
    assert(parse_prefix(ts, 3) == Ok::<(Option<SExpr>, int), SynErr>((Some(nb), 4)));
    assert(parse_infix(ts, nb, 4, p1) == Ok::<(Option<SExpr>, int), SynErr>((Some(nb), 4)));
    assert(parse_expr(ts, 3, p1) == Ok::<(Option<SExpr>, int), SynErr>((Some(nb), 4)));
    assert(parse_infix(ts, ab, 4, 0) == Ok::<(Option<SExpr>, int), SynErr>((Some(ab), 4)));
    assert(parse_infix(ts, na, 2, 0) == Ok::<(Option<SExpr>, int), SynErr>((Some(ab), 4)));
    assert(parse_expr(ts, 1, 0) == Ok::<(Option<SExpr>, int), SynErr>((Some(ab), 4)));
    assert(parse_prefix(ts, 0) == Ok::<(Option<SExpr>, int), SynErr>((Some(ab), 5)));
    assert(parse_prefix(ts, 6) == Ok::<(Option<SExpr>, int), SynErr>((Some(nc), 7)));
    assert(parse_infix(ts, nc, 7, p2) == Ok::<(Option<SExpr>, int), SynErr>((Some(nc), 7)));
    assert(parse_expr(ts, 6, p2) == Ok::<(Option<SExpr>, int), SynErr>((Some(nc), 7)));
    assert(parse_infix(ts, abc, 7, 0) == Ok::<(Option<SExpr>, int), SynErr>((Some(abc), 7)));
    assert(parse_infix(ts, ab, 5, 0) == Ok::<(Option<SExpr>, int), SynErr>((Some(abc), 7)));
}

/// `let x = n` is a let statement binding `x` to the number.
pub proof fn law_let_statement(l: SpecToken, x: SpecToken, eq: SpecToken, n: SpecToken)
    requires
        l.kind == TokenKind::Let,
        x.kind == TokenKind::Identifier,
        eq.kind == TokenKind::Equal,
        n.kind == TokenKind::Number,
    ensures
        parse_program(seq![l, x, eq, n]) == Ok::<Seq<SStmt>, SynErr>(
            seq![SStmt::LetStatement { name: x.text, value: number(n) }],
        ),
{
    let ts = seq![l, x, eq, n];
    let st = SStmt::LetStatement { name: x.text, value: number(n) };
    assert(ts.len() == 4 && ts[0] == l && ts[1] == x && ts[2] == eq && ts[3] == n);
    assert(parse_prefix(ts, 3) == Ok::<(Option<SExpr>, int), SynErr>((Some(number(n)), 4)));
    assert(parse_infix(ts, number(n), 4, 0) == Ok::<(Option<SExpr>, int), SynErr>((Some(number(n)), 4)));
    assert(parse_expr(ts, 3, 0) == Ok::<(Option<SExpr>, int), SynErr>((Some(number(n)), 4)));
    assert(parse_let(ts, 0) == Ok::<(Option<SStmt>, int), SynErr>((Some(st), 4)));
    assert(parse_stmt(ts, 0) == Ok::<(Option<SStmt>, int), SynErr>((Some(st), 4)));
    assert(parse_program_from(ts, 4, seq![st]) == Ok::<Seq<SStmt>, SynErr>(seq![st]));
    assert(Seq::<SStmt>::empty().push(st) =~= seq![st]);
}

/// `if x { y = n }` is an if statement on `x` whose block assigns `n` to `y`,
/// with no else branch.
pub proof fn law_if_statement(
    i: SpecToken,
    x: SpecToken,
    bo: SpecToken,
    y: SpecToken,
    eq: SpecToken,
    n: SpecToken,
    bc: SpecToken,
)
    requires
        i.kind == TokenKind::If,
        x.kind == TokenKind::Identifier,
        bo.kind == TokenKind::BraceOpen,
        y.kind == TokenKind::Identifier,
        eq.kind == TokenKind::Equal,
        n.kind == TokenKind::Number,
        bc.kind == TokenKind::BraceClose,
    ensures
        parse_program(seq![i, x, bo, y, eq, n, bc]) == Ok::<Seq<SStmt>, SynErr>(
            seq![
                SStmt::IfStatement {
                    condition: SExpr::Variable(x.text),
                    consequence: seq![SStmt::AssignmentStatement { name: y.text, value: number(n) }],
                    alternative: None,
                },
            ],
        ),
{
    let ts = seq![i, x, bo, y, eq, n, bc];
    assert(ts.len() == 7 && ts[0] == i && ts[1] == x && ts[2] == bo && ts[3] == y && ts[4] == eq
        && ts[5] == n && ts[6] == bc);
    let v = SExpr::Variable(x.text);
    let asg = SStmt::AssignmentStatement { name: y.text, value: number(n) };
    let st = SStmt::IfStatement { condition: v, consequence: seq![asg], alternative: None };
    assert(parse_identifier_expr(ts, 1) == Ok::<(Option<SExpr>, int), SynErr>((Some(v), 2)));
    assert(parse_prefix(ts, 1) == Ok::<(Option<SExpr>, int), SynErr>((Some(v), 2)));
    assert(parse_infix(ts, v, 2, 0) == Ok::<(Option<SExpr>, int), SynErr>((Some(v), 2)));
    assert(parse_expr(ts, 1, 0) == Ok::<(Option<SExpr>, int), SynErr>((Some(v), 2)));
    assert(parse_prefix(ts, 5) == Ok::<(Option<SExpr>, int), SynErr>((Some(number(n)), 6)));
    assert(parse_infix(ts, number(n), 6, 0) == Ok::<(Option<SExpr>, int), SynErr>((Some(number(n)), 6)));
    assert(parse_expr(ts, 5, 0) == Ok::<(Option<SExpr>, int), SynErr>((Some(number(n)), 6)));
    assert(parse_identifier_stmt(ts, 3) == Ok::<(Option<SStmt>, int), SynErr>((Some(asg), 6)));
    assert(parse_stmt(ts, 3) == Ok::<(Option<SStmt>, int), SynErr>((Some(asg), 6)));
    assert(Seq::<SStmt>::empty().push(asg) =~= seq![asg]);
    assert(parse_body_strict(ts, 6, SyntaxErrorKind::IfInvalidBody, seq![asg]) == Ok::<
        (Seq<SStmt>, int),
        SynErr,
    >((seq![asg], 6)));
    assert(parse_body_strict(ts, 3, SyntaxErrorKind::IfInvalidBody, Seq::empty()) == Ok::<
        (Seq<SStmt>, int),
        SynErr,
    >((seq![asg], 6)));
    assert(parse_if(ts, 0) == Ok::<(Option<SStmt>, int), SynErr>((Some(st), 7)));
    assert(parse_stmt(ts, 0) == Ok::<(Option<SStmt>, int), SynErr>((Some(st), 7)));
    assert(parse_program_from(ts, 7, seq![st]) == Ok::<Seq<SStmt>, SynErr>(seq![st]));
    assert(Seq::<SStmt>::empty().push(st) =~= seq![st]);
}

proof fn lemma_function_with_return(
    d: SpecToken,
    f: SpecToken,
    po: SpecToken,
    pc: SpecToken,
    bo: SpecToken,
    r: SpecToken,
    x: SpecToken,
    eq: SpecToken,
    n: SpecToken,
    bc: SpecToken,
)
    requires
        d.kind == TokenKind::Def,
        f.kind == TokenKind::Identifier,
        po.kind == TokenKind::ParenOpen,
        pc.kind == TokenKind::ParenClose,
        bo.kind == TokenKind::BraceOpen,
        r.kind == TokenKind::Return,
        x.kind == TokenKind::Identifier,
        eq.kind == TokenKind::Equal,
        n.kind == TokenKind::Number,
        bc.kind == TokenKind::BraceClose,
    ensures
        parse_program(seq![d, f, po, pc, bo, r, n, bc]) == Ok::<Seq<SStmt>, SynErr>(
            seq![
                SStmt::FunctionDeclaration {
                    name: f.text,
                    params: Seq::empty(),
                    body: seq![SStmt::ReturnStatement { value: number(n) }],
                },
            ],
        ),
{
    let ts = seq![d, f, po, pc, bo, r, n, bc];
    assert(ts.len() == 8 && ts[0] == d && ts[1] == f && ts[2] == po && ts[3] == pc && ts[4] == bo
        && ts[5] == r && ts[6] == n && ts[7] == bc);
    let ret = SStmt::ReturnStatement { value: number(n) };
    let decl = SStmt::FunctionDeclaration { name: f.text, params: Seq::empty(), body: seq![ret] };
    assert(parse_params(ts, 3, true, Seq::empty()) == Ok::<(Seq<Seq<char>>, int), SynErr>(
        (Seq::empty(), 3),
    ));
    assert(parse_prefix(ts, 6) == Ok::<(Option<SExpr>, int), SynErr>((Some(number(n)), 7)));
    assert(parse_infix(ts, number(n), 7, 0) == Ok::<(Option<SExpr>, int), SynErr>((Some(number(n)), 7)));
    assert(parse_expr(ts, 6, 0) == Ok::<(Option<SExpr>, int), SynErr>((Some(number(n)), 7)));
    assert(parse_stmt(ts, 5) == Ok::<(Option<SStmt>, int), SynErr>((Some(ret), 7)));
    assert(Seq::<SStmt>::empty().push(ret) =~= seq![ret]);
    assert(parse_body_strict(ts, 7, SyntaxErrorKind::FnInvalidBody, seq![ret]) == Ok::<
        (Seq<SStmt>, int),
        SynErr,
    >((seq![ret], 7)));
    assert(parse_body_strict(ts, 5, SyntaxErrorKind::FnInvalidBody, Seq::empty()) == Ok::<
        (Seq<SStmt>, int),
        SynErr,
    >((seq![ret], 7)));
    assert(parse_def(ts, 0) == Ok::<(Option<SStmt>, int), SynErr>((Some(decl), 8)));
    assert(parse_stmt(ts, 0) == Ok::<(Option<SStmt>, int), SynErr>((Some(decl), 8)));
    assert(parse_program_from(ts, 8, seq![decl]) == Ok::<Seq<SStmt>, SynErr>(seq![decl]));
    assert(Seq::<SStmt>::empty().push(decl) =~= seq![decl]);

}

proof fn lemma_function_without_return(
    d: SpecToken,
    f: SpecToken,
    po: SpecToken,
    pc: SpecToken,
    bo: SpecToken,
    r: SpecToken,
    x: SpecToken,
    eq: SpecToken,
    n: SpecToken,
    bc: SpecToken,
)
    requires
        d.kind == TokenKind::Def,
        f.kind == TokenKind::Identifier,
        po.kind == TokenKind::ParenOpen,
        pc.kind == TokenKind::ParenClose,
        bo.kind == TokenKind::BraceOpen,
        r.kind == TokenKind::Return,
        x.kind == TokenKind::Identifier,
        eq.kind == TokenKind::Equal,
        n.kind == TokenKind::Number,
        bc.kind == TokenKind::BraceClose,
    ensures
        parse_program(seq![d, f, po, pc, bo, x, eq, n, bc]) == Err::<Seq<SStmt>, SynErr>(
            SynErr { kind: SyntaxErrorKind::FnMissingReturn, near: bc.text },
        ),
{
    let us = seq![d, f, po, pc, bo, x, eq, n, bc];
    assert(us.len() == 9 && us[0] == d && us[1] == f && us[2] == po && us[3] == pc && us[4] == bo
        && us[5] == x && us[6] == eq && us[7] == n && us[8] == bc);
    let asg = SStmt::AssignmentStatement { name: x.text, value: number(n) };
    let e = SynErr { kind: SyntaxErrorKind::FnMissingReturn, near: bc.text };
    assert(parse_params(us, 3, true, Seq::empty()) == Ok::<(Seq<Seq<char>>, int), SynErr>(
        (Seq::empty(), 3),
    ));
    assert(parse_prefix(us, 7) == Ok::<(Option<SExpr>, int), SynErr>((Some(number(n)), 8)));
    assert(parse_infix(us, number(n), 8, 0) == Ok::<(Option<SExpr>, int), SynErr>((Some(number(n)), 8)));
    assert(parse_expr(us, 7, 0) == Ok::<(Option<SExpr>, int), SynErr>((Some(number(n)), 8)));
    assert(parse_identifier_stmt(us, 5) == Ok::<(Option<SStmt>, int), SynErr>((Some(asg), 8)));
    assert(parse_stmt(us, 5) == Ok::<(Option<SStmt>, int), SynErr>((Some(asg), 8)));
    assert(Seq::<SStmt>::empty().push(asg) =~= seq![asg]);
    assert(parse_body_strict(us, 8, SyntaxErrorKind::FnInvalidBody, seq![asg]) == Ok::<
        (Seq<SStmt>, int),
        SynErr,
    >((seq![asg], 8)));
    assert(parse_body_strict(us, 5, SyntaxErrorKind::FnInvalidBody, Seq::empty()) == Ok::<
        (Seq<SStmt>, int),
        SynErr,
    >((seq![asg], 8)));
    assert(parse_def(us, 0) == Err::<(Option<SStmt>, int), SynErr>(e));
    assert(parse_stmt(us, 0) == Err::<(Option<SStmt>, int), SynErr>(e));
}

/// Every function is closed by a `return`: `def f() { return n }` declares
/// `f`, while `def f() { x = n }`, whose body does not end with a return, is
/// refused at its closing brace.
pub proof fn law_function_closed_by_return(
    d: SpecToken,
    f: SpecToken,
    po: SpecToken,
    pc: SpecToken,
    bo: SpecToken,
    r: SpecToken,
    x: SpecToken,
    eq: SpecToken,
    n: SpecToken,
    bc: SpecToken,
)
    requires
        d.kind == TokenKind::Def,
        f.kind == TokenKind::Identifier,
        po.kind == TokenKind::ParenOpen,
        pc.kind == TokenKind::ParenClose,
        bo.kind == TokenKind::BraceOpen,
        r.kind == TokenKind::Return,
        x.kind == TokenKind::Identifier,
        eq.kind == TokenKind::Equal,
        n.kind == TokenKind::Number,
        bc.kind == TokenKind::BraceClose,
    ensures
        parse_program(seq![d, f, po, pc, bo, r, n, bc]) == Ok::<Seq<SStmt>, SynErr>(
            seq![
                SStmt::FunctionDeclaration {
                    name: f.text,
                    params: Seq::empty(),
                    body: seq![SStmt::ReturnStatement { value: number(n) }],
                },
            ],
        ),
        parse_program(seq![d, f, po, pc, bo, x, eq, n, bc]) == Err::<Seq<SStmt>, SynErr>(
            SynErr { kind: SyntaxErrorKind::FnMissingReturn, near: bc.text },
        ),
{
    lemma_function_with_return(d, f, po, pc, bo, r, x, eq, n, bc);
    lemma_function_without_return(d, f, po, pc, bo, r, x, eq, n, bc);
}

/// `m.infer(p, c, g)` as a statement runs vessel `m` on prompt `p` with
/// context `c` and grammar `g`.
pub proof fn law_infer_statement(
    m: SpecToken,
    dot: SpecToken,
    inf: SpecToken,
    po: SpecToken,
    p: SpecToken,
    c1: SpecToken,
    c: SpecToken,
    c2: SpecToken,
    g: SpecToken,
    pc: SpecToken,
)
    requires
        m.kind == TokenKind::Identifier,
        dot.kind == TokenKind::Dot,
        inf.kind == TokenKind::Infer,
        po.kind == TokenKind::ParenOpen,
        p.kind == TokenKind::Identifier,
        c1.kind == TokenKind::Comma,
        c.kind == TokenKind::Identifier,
        c2.kind == TokenKind::Comma,
        g.kind == TokenKind::Identifier,
        pc.kind == TokenKind::ParenClose,
    ensures
        parse_program(seq![m, dot, inf, po, p, c1, c, c2, g, pc]) == Ok::<Seq<SStmt>, SynErr>(
            seq![
                SStmt::InferStatement {
                    model_name: m.text,
                    prompt_var: p.text,
                    context_var: Some(c.text),
                    grammar_var: Some(g.text),
                },
            ],
        ),
{
    let ts = seq![m, dot, inf, po, p, c1, c, c2, g, pc];
    assert(ts.len() == 10 && ts[0] == m && ts[1] == dot && ts[2] == inf && ts[3] == po && ts[4] == p
        && ts[5] == c1 && ts[6] == c && ts[7] == c2 && ts[8] == g && ts[9] == pc);
    let st = SStmt::InferStatement {
        model_name: m.text,
        prompt_var: p.text,
        context_var: Some(c.text),
        grammar_var: Some(g.text),
    };
    assert(opt_ident_after_comma(ts, 5) == (Some(c.text), 7int));
    assert(opt_ident_after_comma(ts, 7) == (Some(g.text), 9int));
    assert(parse_identifier_stmt(ts, 0) == Ok::<(Option<SStmt>, int), SynErr>((Some(st), 10)));
    assert(parse_stmt(ts, 0) == Ok::<(Option<SStmt>, int), SynErr>((Some(st), 10)));
    assert(parse_program_from(ts, 10, seq![st]) == Ok::<Seq<SStmt>, SynErr>(seq![st]));
    assert(Seq::<SStmt>::empty().push(st) =~= seq![st]);
}

/// A condition on a variable: `x` followed by `{`.
proof fn lemma_variable_condition(ts: Seq<SpecToken>, p: int)
    requires
        0 <= p,
        p + 1 < ts.len(),
        ts[p].kind == TokenKind::Identifier,
        ts[p + 1].kind == TokenKind::BraceOpen,
    ensures
        parse_expr(ts, p, 0) == Ok::<(Option<SExpr>, int), SynErr>(
            (Some(SExpr::Variable(ts[p].text)), p + 1),
        ),
{
    let v = SExpr::Variable(ts[p].text);
    assert(parse_identifier_expr(ts, p) == Ok::<(Option<SExpr>, int), SynErr>((Some(v), p + 1)));
    assert(parse_prefix(ts, p) == Ok::<(Option<SExpr>, int), SynErr>((Some(v), p + 1)));
    assert(parse_infix(ts, v, p + 1, 0) == Ok::<(Option<SExpr>, int), SynErr>((Some(v), p + 1)));
}

/// `y = n` followed by `}` is one assignment.
proof fn lemma_assignment_stmt(ts: Seq<SpecToken>, p: int)
    requires
        0 <= p,
        p + 3 < ts.len(),
        ts[p].kind == TokenKind::Identifier,
        ts[p + 1].kind == TokenKind::Equal,
        ts[p + 2].kind == TokenKind::Number,
        ts[p + 3].kind == TokenKind::BraceClose,
    ensures
        parse_stmt(ts, p) == Ok::<(Option<SStmt>, int), SynErr>(
            (Some(SStmt::AssignmentStatement { name: ts[p].text, value: number(ts[p + 2]) }), p + 3),
        ),
{
    let nv = number(ts[p + 2]);
    assert(parse_prefix(ts, p + 2) == Ok::<(Option<SExpr>, int), SynErr>((Some(nv), p + 3)));
    assert(parse_infix(ts, nv, p + 3, 0) == Ok::<(Option<SExpr>, int), SynErr>((Some(nv), p + 3)));
    assert(parse_expr(ts, p + 2, 0) == Ok::<(Option<SExpr>, int), SynErr>((Some(nv), p + 3)));
    assert(parse_identifier_stmt(ts, p) == Ok::<(Option<SStmt>, int), SynErr>(
        (Some(SStmt::AssignmentStatement { name: ts[p].text, value: nv }), p + 3),
    ));
}

/// `if x { } else { y = n }` keeps the else block as the alternative.
pub proof fn law_if_else_statement(
    i: SpecToken,
    x: SpecToken,
    bo1: SpecToken,
    bc1: SpecToken,
    el: SpecToken,
    bo2: SpecToken,
    y: SpecToken,
    eq: SpecToken,
    n: SpecToken,
    bc2: SpecToken,
)
    requires
        i.kind == TokenKind::If,
        x.kind == TokenKind::Identifier,
        bo1.kind == TokenKind::BraceOpen,
        bc1.kind == TokenKind::BraceClose,
        el.kind == TokenKind::Else,
        bo2.kind == TokenKind::BraceOpen,
        y.kind == TokenKind::Identifier,
        eq.kind == TokenKind::Equal,
        n.kind == TokenKind::Number,
        bc2.kind == TokenKind::BraceClose,
    ensures
        parse_program(seq![i, x, bo1, bc1, el, bo2, y, eq, n, bc2]) == Ok::<Seq<SStmt>, SynErr>(
            seq![
                SStmt::IfStatement {
                    condition: SExpr::Variable(x.text),
                    consequence: Seq::empty(),
                    alternative: Some(
                        seq![SStmt::AssignmentStatement { name: y.text, value: number(n) }],
                    ),
                },
            ],
        ),
{
    let ts = seq![i, x, bo1, bc1, el, bo2, y, eq, n, bc2];
    assert(ts.len() == 10 && ts[0] == i && ts[1] == x && ts[2] == bo1 && ts[3] == bc1 && ts[4]
        == el && ts[5] == bo2 && ts[6] == y && ts[7] == eq && ts[8] == n && ts[9] == bc2);
    let asg = SStmt::AssignmentStatement { name: y.text, value: number(n) };
    let st = SStmt::IfStatement {
        condition: SExpr::Variable(x.text),
        consequence: Seq::empty(),
        alternative: Some(seq![asg]),
    };
    lemma_variable_condition(ts, 1);
    assert(parse_body_strict(ts, 3, SyntaxErrorKind::IfInvalidBody, Seq::empty()) == Ok::<
        (Seq<SStmt>, int),
        SynErr,
    >((Seq::empty(), 3)));
    lemma_assignment_stmt(ts, 6);
    assert(Seq::<SStmt>::empty().push(asg) =~= seq![asg]);
    assert(parse_body_strict(ts, 9, SyntaxErrorKind::ElseInvalidBody, seq![asg]) == Ok::<
        (Seq<SStmt>, int),
        SynErr,
    >((seq![asg], 9)));
    assert(parse_body_strict(ts, 6, SyntaxErrorKind::ElseInvalidBody, Seq::empty()) == Ok::<
        (Seq<SStmt>, int),
        SynErr,
    >((seq![asg], 9)));
    assert(parse_if(ts, 0) == Ok::<(Option<SStmt>, int), SynErr>((Some(st), 10)));
    assert(parse_stmt(ts, 0) == Ok::<(Option<SStmt>, int), SynErr>((Some(st), 10)));
    assert(parse_program_from(ts, 10, seq![st]) == Ok::<Seq<SStmt>, SynErr>(seq![st]));
    assert(Seq::<SStmt>::empty().push(st) =~= seq![st]);
}

/// `while x { y = n }` is a loop on `x` whose body assigns `n` to `y`.
pub proof fn law_while_statement(
    w: SpecToken,
    x: SpecToken,
    bo: SpecToken,
    y: SpecToken,
    eq: SpecToken,
    n: SpecToken,
    bc: SpecToken,
)
    requires
        w.kind == TokenKind::While,
        x.kind == TokenKind::Identifier,
        bo.kind == TokenKind::BraceOpen,
        y.kind == TokenKind::Identifier,
        eq.kind == TokenKind::Equal,
        n.kind == TokenKind::Number,
        bc.kind == TokenKind::BraceClose,
    ensures
        parse_program(seq![w, x, bo, y, eq, n, bc]) == Ok::<Seq<SStmt>, SynErr>(
            seq![
                SStmt::WhileStatement {
                    condition: SExpr::Variable(x.text),
                    body: seq![SStmt::AssignmentStatement { name: y.text, value: number(n) }],
                },
            ],
        ),
{
    let ts = seq![w, x, bo, y, eq, n, bc];
    assert(ts.len() == 7 && ts[0] == w && ts[1] == x && ts[2] == bo && ts[3] == y && ts[4] == eq
        && ts[5] == n && ts[6] == bc);
    let asg = SStmt::AssignmentStatement { name: y.text, value: number(n) };
    let st = SStmt::WhileStatement { condition: SExpr::Variable(x.text), body: seq![asg] };
    lemma_variable_condition(ts, 1);
    lemma_assignment_stmt(ts, 3);
    assert(Seq::<SStmt>::empty().push(asg) =~= seq![asg]);
    assert(parse_body_lenient(ts, 6, seq![asg]) == Ok::<(Seq<SStmt>, int), SynErr>(
        (seq![asg], 6),
    ));
    assert(parse_body_lenient(ts, 3, Seq::empty()) == Ok::<(Seq<SStmt>, int), SynErr>(
        (seq![asg], 6),
    ));
    assert(parse_braced_body(ts, 2) == Ok::<(Option<Seq<SStmt>>, int), SynErr>(
        (Some(seq![asg]), 7),
    ));
    assert(parse_while(ts, 0) == Ok::<(Option<SStmt>, int), SynErr>((Some(st), 7)));
    assert(parse_stmt(ts, 0) == Ok::<(Option<SStmt>, int), SynErr>((Some(st), 7)));
    assert(parse_program_from(ts, 7, seq![st]) == Ok::<Seq<SStmt>, SynErr>(seq![st]));
    assert(Seq::<SStmt>::empty().push(st) =~= seq![st]);
}

/// Statements follow one another in order: `let x = n let y = m` is the two
/// let statements, first `x`, then `y`.
#[verifier::rlimit(60)]
pub proof fn law_statements_in_order(
    l1: SpecToken,
    x: SpecToken,
    e1: SpecToken,
    n: SpecToken,
    l2: SpecToken,
    y: SpecToken,
    e2: SpecToken,
    m: SpecToken,
)
    requires
        l1.kind == TokenKind::Let,
        x.kind == TokenKind::Identifier,
        e1.kind == TokenKind::Equal,
        n.kind == TokenKind::Number,
        l2.kind == TokenKind::Let,
        y.kind == TokenKind::Identifier,
        e2.kind == TokenKind::Equal,
        m.kind == TokenKind::Number,
    ensures
        parse_program(seq![l1, x, e1, n, l2, y, e2, m]) == Ok::<Seq<SStmt>, SynErr>(
            seq![
                SStmt::LetStatement { name: x.text, value: number(n) },
                SStmt::LetStatement { name: y.text, value: number(m) },
            ],
        ),
{
    let ts = seq![l1, x, e1, n, l2, y, e2, m];
    assert(ts.len() == 8 && ts[0] == l1 && ts[1] == x && ts[2] == e1 && ts[3] == n && ts[4] == l2
        && ts[5] == y && ts[6] == e2 && ts[7] == m);
    let s1 = SStmt::LetStatement { name: x.text, value: number(n) };
    let s2 = SStmt::LetStatement { name: y.text, value: number(m) };
    assert(precedence(Some(ts[4].kind)) == 0);
    assert(parse_program(ts) == parse_program_from(ts, 0, Seq::empty()));
    lemma_let_stmt(ts, 0);
    lemma_let_stmt(ts, 4);
    let one = Seq::<SStmt>::empty().push(s1);
    lemma_program_step(ts, 0, Seq::empty(), s1, 4);
    lemma_program_step(ts, 4, one, s2, 8);
    assert(parse_program_from(ts, 8, one.push(s2)) == Ok::<Seq<SStmt>, SynErr>(one.push(s2)));
    assert(one.push(s2) =~= seq![s1, s2]);
}

/// A program reads one statement and goes on after it.
proof fn lemma_program_step(ts: Seq<SpecToken>, p: int, acc: Seq<SStmt>, st: SStmt, q: int)
    requires
        0 <= p < q <= ts.len(),
        parse_stmt(ts, p) == Ok::<(Option<SStmt>, int), SynErr>((Some(st), q)),
    ensures
        parse_program_from(ts, p, acc) == parse_program_from(ts, q, acc.push(st)),
{
}

/// `let x = n`, followed by the end or by a token that is no operator.
proof fn lemma_let_stmt(ts: Seq<SpecToken>, p: int)
    requires
        0 <= p,
        p + 3 < ts.len(),
        ts[p].kind == TokenKind::Let,
        ts[p + 1].kind == TokenKind::Identifier,
        ts[p + 2].kind == TokenKind::Equal,
        ts[p + 3].kind == TokenKind::Number,
        p + 4 < ts.len() ==> precedence(Some(ts[p + 4].kind)) == 0,
    ensures
        parse_stmt(ts, p) == Ok::<(Option<SStmt>, int), SynErr>(
            (Some(SStmt::LetStatement { name: ts[p + 1].text, value: number(ts[p + 3]) }), p + 4),
        ),
{
    let nv = number(ts[p + 3]);
    assert(parse_prefix(ts, p + 3) == Ok::<(Option<SExpr>, int), SynErr>((Some(nv), p + 4)));
    assert(parse_infix(ts, nv, p + 4, 0) == Ok::<(Option<SExpr>, int), SynErr>((Some(nv), p + 4)));
    assert(parse_expr(ts, p + 3, 0) == Ok::<(Option<SExpr>, int), SynErr>((Some(nv), p + 4)));
    assert(parse_let(ts, p) == Ok::<(Option<SStmt>, int), SynErr>(
        (Some(SStmt::LetStatement { name: ts[p + 1].text, value: nv }), p + 4),
    ));
}

} // verus!
