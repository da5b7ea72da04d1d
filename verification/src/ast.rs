//! The abstract syntax tree of Jutsu programs, and its mathematical model.
//!
//! A number literal keeps the text it was written with; the runtime turns that
//! text into a number.
use vstd::prelude::*;

verus! {

#[derive(Debug, PartialEq)]
pub enum Expression {
    StringLiteral(String),
    NumberLiteral(String),
    BooleanLiteral(bool),
    Variable(String),
    InputCall(Box<Expression>),
    ReadTextCall(String),
    RagCall { query_var: String, doc_var: String },
    RecvCall,
    FunctionCall { name: String, args: Vec<Expression> },
    InferCall {
        model_name: String,
        prompt_var: String,
        context_var: Option<String>,
        grammar_var: Option<String>,
    },
    CallToolCall { vessel_name: String, tool_name: String, params: Box<Expression> },
    TensorDeclaration { data: Vec<Expression>, shape: Vec<usize>, requires_grad: bool },
    PrefixOp { operator: String, right: Box<Expression> },
    InfixOp { left: Box<Expression>, operator: String, right: Box<Expression> },
    Array(Vec<Expression>),
    Dictionary(Vec<(String, Expression)>),
    IndexAccess { left: Box<Expression>, index: Box<Expression> },
    Share { value: Box<Expression> },
    SysExecCall(Box<Expression>),
    HttpGetCall(Box<Expression>),
}

#[derive(Debug, PartialEq)]
pub enum Statement {
    VesselDeclaration {
        name: String,
        file_path: String,
        tier: String,
        temp: Option<String>,
        bind: Option<String>,
        quantize: bool,
    },
    LetStatement { name: String, value: Expression },
    AssignmentStatement { name: String, value: Expression },
    PrintStatement { value: Expression },
    ImportStatement { path: String },
    InferStatement {
        model_name: String,
        prompt_var: String,
        context_var: Option<String>,
        grammar_var: Option<String>,
    },
    ReplyStatement { value: Expression },
    IfStatement {
        condition: Expression,
        consequence: Vec<Statement>,
        alternative: Option<Vec<Statement>>,
    },
    WhileStatement { condition: Expression, body: Vec<Statement> },
    FunctionDeclaration { name: String, params: Vec<String>, body: Vec<Statement> },
    ReturnStatement { value: Expression },
    HexTraceBlock { body: Vec<Statement> },
    BackwardStatement { target_var: String },
    OptimStatement { target_var: String, learning_rate: Expression },
    ShieldBlock { max_vram: String, body: Vec<Statement> },
    McpServerBlock { port: Expression, body: Vec<Statement> },
    ExposeToolStatement { name: String, description: String, function_name: String },
    VeilBlock { name: String, port: Expression, body: Vec<Statement> },
    WorkerBlock { body: Vec<Statement> },
    HyperQuadDirective { name: String, model_ident: String, target: String, compression: String },
    McpClientDeclaration { name: String, url: String },
    ExpressionStatement(Expression),
}

#[derive(Debug, PartialEq)]
pub struct Program {
    pub statements: Vec<Statement>,
}

/// Model of an expression: text as character sequences, lists as sequences.
#[verifier::ext_equal]
pub enum SExpr {
    StringLiteral(Seq<char>),
    NumberLiteral(Seq<char>),
    BooleanLiteral(bool),
    Variable(Seq<char>),
    InputCall(Box<SExpr>),
    ReadTextCall(Seq<char>),
    RagCall { query_var: Seq<char>, doc_var: Seq<char> },
    RecvCall,
    FunctionCall { name: Seq<char>, args: Seq<SExpr> },
    InferCall {
        model_name: Seq<char>,
        prompt_var: Seq<char>,
        context_var: Option<Seq<char>>,
        grammar_var: Option<Seq<char>>,
    },
    CallToolCall { vessel_name: Seq<char>, tool_name: Seq<char>, params: Box<SExpr> },
    TensorDeclaration { data: Seq<SExpr>, shape: Seq<usize>, requires_grad: bool },
    PrefixOp { operator: Seq<char>, right: Box<SExpr> },
    InfixOp { left: Box<SExpr>, operator: Seq<char>, right: Box<SExpr> },
    Array(Seq<SExpr>),
    Dictionary(Seq<(Seq<char>, SExpr)>),
    IndexAccess { left: Box<SExpr>, index: Box<SExpr> },
    Share { value: Box<SExpr> },
    SysExecCall(Box<SExpr>),
    HttpGetCall(Box<SExpr>),
}

/// Model of a statement.
#[verifier::ext_equal]
pub enum SStmt {
    VesselDeclaration {
        name: Seq<char>,
        file_path: Seq<char>,
        tier: Seq<char>,
        temp: Option<Seq<char>>,
        bind: Option<Seq<char>>,
        quantize: bool,
    },
    LetStatement { name: Seq<char>, value: SExpr },
    AssignmentStatement { name: Seq<char>, value: SExpr },
    PrintStatement { value: SExpr },
    ImportStatement { path: Seq<char> },
    InferStatement {
        model_name: Seq<char>,
        prompt_var: Seq<char>,
        context_var: Option<Seq<char>>,
        grammar_var: Option<Seq<char>>,
    },
    ReplyStatement { value: SExpr },
    IfStatement { condition: SExpr, consequence: Seq<SStmt>, alternative: Option<Seq<SStmt>> },
    WhileStatement { condition: SExpr, body: Seq<SStmt> },
    FunctionDeclaration { name: Seq<char>, params: Seq<Seq<char>>, body: Seq<SStmt> },
    ReturnStatement { value: SExpr },
    HexTraceBlock { body: Seq<SStmt> },
    BackwardStatement { target_var: Seq<char> },
    OptimStatement { target_var: Seq<char>, learning_rate: SExpr },
    ShieldBlock { max_vram: Seq<char>, body: Seq<SStmt> },
    McpServerBlock { port: SExpr, body: Seq<SStmt> },
    ExposeToolStatement { name: Seq<char>, description: Seq<char>, function_name: Seq<char> },
    VeilBlock { name: Seq<char>, port: SExpr, body: Seq<SStmt> },
    WorkerBlock { body: Seq<SStmt> },
    HyperQuadDirective {
        name: Seq<char>,
        model_ident: Seq<char>,
        target: Seq<char>,
        compression: Seq<char>,
    },
    McpClientDeclaration { name: Seq<char>, url: Seq<char> },
    ExpressionStatement(SExpr),
}

pub open spec fn opt_text_view(o: Option<String>) -> Option<Seq<char>> {
    match o {
        Some(s) => Some(s@),
        None => None,
    }
}

pub open spec fn texts_view(v: Seq<String>) -> Seq<Seq<char>> {
    Seq::new(v.len(), |i: int| v[i]@)
}

/// Model of an expression.
pub open spec fn expr_view(e: &Expression) -> SExpr
    decreases e, 0nat,
{
    match e {
        Expression::StringLiteral(s) => SExpr::StringLiteral(s@),
        Expression::NumberLiteral(s) => SExpr::NumberLiteral(s@),
        Expression::BooleanLiteral(b) => SExpr::BooleanLiteral(*b),
        Expression::Variable(s) => SExpr::Variable(s@),
        Expression::InputCall(x) => SExpr::InputCall(Box::new(expr_view(&**x))),
        Expression::ReadTextCall(s) => SExpr::ReadTextCall(s@),
        Expression::RagCall { query_var, doc_var } => SExpr::RagCall {
            query_var: query_var@,
            doc_var: doc_var@,
        },
        Expression::RecvCall => SExpr::RecvCall,
        Expression::FunctionCall { name, args } => SExpr::FunctionCall {
            name: name@,
            args: exprs_view(args@),
        },
        Expression::InferCall { model_name, prompt_var, context_var, grammar_var } =>
            SExpr::InferCall {
            model_name: model_name@,
            prompt_var: prompt_var@,
            context_var: opt_text_view(*context_var),
            grammar_var: opt_text_view(*grammar_var),
        },
        Expression::CallToolCall { vessel_name, tool_name, params } => SExpr::CallToolCall {
            vessel_name: vessel_name@,
            tool_name: tool_name@,
            params: Box::new(expr_view(&**params)),
        },
        Expression::TensorDeclaration { data, shape, requires_grad } => SExpr::TensorDeclaration {
            data: exprs_view(data@),
            shape: shape@,
            requires_grad: *requires_grad,
        },
        Expression::PrefixOp { operator, right } => SExpr::PrefixOp {
            operator: operator@,
            right: Box::new(expr_view(&**right)),
        },
        Expression::InfixOp { left, operator, right } => SExpr::InfixOp {
            left: Box::new(expr_view(&**left)),
            operator: operator@,
            right: Box::new(expr_view(&**right)),
        },
        Expression::Array(elems) => SExpr::Array(exprs_view(elems@)),
        Expression::Dictionary(pairs) => SExpr::Dictionary(pairs_view(pairs@)),
        Expression::IndexAccess { left, index } => SExpr::IndexAccess {
            left: Box::new(expr_view(&**left)),
            index: Box::new(expr_view(&**index)),
        },
        Expression::Share { value } => SExpr::Share { value: Box::new(expr_view(&**value)) },
        Expression::SysExecCall(x) => SExpr::SysExecCall(Box::new(expr_view(&**x))),
        Expression::HttpGetCall(x) => SExpr::HttpGetCall(Box::new(expr_view(&**x))),
    }
}

/// Model of a sequence of expressions.
pub open spec fn exprs_view(s: Seq<Expression>) -> Seq<SExpr>
    decreases s, 1nat,
{
    if s.len() == 0 {
        Seq::empty()
    } else {
        exprs_view(s.drop_last()).push(expr_view(&s.last()))
    }
}

/// Model of a sequence of dictionary entries.
pub open spec fn pairs_view(s: Seq<(String, Expression)>) -> Seq<(Seq<char>, SExpr)>
    decreases s, 1nat,
{
    if s.len() == 0 {
        Seq::empty()
    } else {
        pairs_view(s.drop_last()).push((s.last().0@, expr_view(&s.last().1)))
    }
}

impl View for Expression {
    type V = SExpr;

    open spec fn view(&self) -> SExpr {
        expr_view(self)
    }
}

/// Model of a statement.
pub open spec fn stmt_view(st: &Statement) -> SStmt
    decreases st, 0nat,
{
    match st {
        Statement::VesselDeclaration { name, file_path, tier, temp, bind, quantize } =>
            SStmt::VesselDeclaration {
            name: name@,
            file_path: file_path@,
            tier: tier@,
            temp: opt_text_view(*temp),
            bind: opt_text_view(*bind),
            quantize: *quantize,
        },
        Statement::LetStatement { name, value } => SStmt::LetStatement {
            name: name@,
            value: value@,
        },
        Statement::AssignmentStatement { name, value } => SStmt::AssignmentStatement {
            name: name@,
            value: value@,
        },
        Statement::PrintStatement { value } => SStmt::PrintStatement { value: value@ },
        Statement::ImportStatement { path } => SStmt::ImportStatement { path: path@ },
        Statement::InferStatement { model_name, prompt_var, context_var, grammar_var } =>
            SStmt::InferStatement {
            model_name: model_name@,
            prompt_var: prompt_var@,
            context_var: opt_text_view(*context_var),
            grammar_var: opt_text_view(*grammar_var),
        },
        Statement::ReplyStatement { value } => SStmt::ReplyStatement { value: value@ },
        Statement::IfStatement { condition, consequence, alternative } => SStmt::IfStatement {
            condition: condition@,
            consequence: stmts_view(consequence@),
            alternative: match alternative {
                Some(alt) => Some(stmts_view(alt@)),
                None => None,
            },
        },
        Statement::WhileStatement { condition, body } => SStmt::WhileStatement {
            condition: condition@,
            body: stmts_view(body@),
        },
        Statement::FunctionDeclaration { name, params, body } => SStmt::FunctionDeclaration {
            name: name@,
            params: texts_view(params@),
            body: stmts_view(body@),
        },
        Statement::ReturnStatement { value } => SStmt::ReturnStatement { value: value@ },
        Statement::HexTraceBlock { body } => SStmt::HexTraceBlock { body: stmts_view(body@) },
        Statement::BackwardStatement { target_var } => SStmt::BackwardStatement {
            target_var: target_var@,
        },
        Statement::OptimStatement { target_var, learning_rate } => SStmt::OptimStatement {
            target_var: target_var@,
            learning_rate: learning_rate@,
        },
        Statement::ShieldBlock { max_vram, body } => SStmt::ShieldBlock {
            max_vram: max_vram@,
            body: stmts_view(body@),
        },
        Statement::McpServerBlock { port, body } => SStmt::McpServerBlock {
            port: port@,
            body: stmts_view(body@),
        },
        Statement::ExposeToolStatement { name, description, function_name } =>
            SStmt::ExposeToolStatement {
            name: name@,
            description: description@,
            function_name: function_name@,
        },
        Statement::VeilBlock { name, port, body } => SStmt::VeilBlock {
            name: name@,
            port: port@,
            body: stmts_view(body@),
        },
        Statement::WorkerBlock { body } => SStmt::WorkerBlock { body: stmts_view(body@) },
        Statement::HyperQuadDirective { name, model_ident, target, compression } =>
            SStmt::HyperQuadDirective {
            name: name@,
            model_ident: model_ident@,
            target: target@,
            compression: compression@,
        },
        Statement::McpClientDeclaration { name, url } => SStmt::McpClientDeclaration {
            name: name@,
            url: url@,
        },
        Statement::ExpressionStatement(e) => SStmt::ExpressionStatement(e@),
    }
}

/// Model of a sequence of statements.
pub open spec fn stmts_view(s: Seq<Statement>) -> Seq<SStmt>
    decreases s, 1nat,
{
    if s.len() == 0 {
        Seq::empty()
    } else {
        stmts_view(s.drop_last()).push(stmt_view(&s.last()))
    }
}

impl View for Statement {
    type V = SStmt;

    open spec fn view(&self) -> SStmt {
        stmt_view(self)
    }
}

impl View for Program {
    type V = Seq<SStmt>;

    open spec fn view(&self) -> Seq<SStmt> {
        stmts_view(self.statements@)
    }
}

/// Appending to a sequence of expressions appends to its model.
pub proof fn lemma_exprs_view_push(s: Seq<Expression>, e: Expression)
    ensures
        exprs_view(s.push(e)) == exprs_view(s).push(e@),
{
    assert(s.push(e).drop_last() =~= s);
}

/// Appending to a sequence of entries appends to its model.
pub proof fn lemma_pairs_view_push(s: Seq<(String, Expression)>, k: String, e: Expression)
    ensures
        pairs_view(s.push((k, e))) == pairs_view(s).push((k@, e@)),
{
    assert(s.push((k, e)).drop_last() =~= s);
}

/// Appending to a sequence of statements appends to its model.
pub proof fn lemma_stmts_view_push(s: Seq<Statement>, st: Statement)
    ensures
        stmts_view(s.push(st)) == stmts_view(s).push(st@),
{
    assert(s.push(st).drop_last() =~= s);
}

} // verus!
