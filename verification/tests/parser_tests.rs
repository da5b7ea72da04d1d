use jutsu::ast::{Expression, Program, Statement};
use jutsu::parser::grammar::SyntaxErrorKind;
use jutsu::parser::statements::parse_source;
use jutsu::parser::Parser;

fn parse_ok(src: &str) -> Program {
    match parse_source(src) {
        Ok(p) => p,
        Err(e) => panic!("unexpected syntax error {:?} near {:?}", e.kind, e.near),
    }
}

fn num(t: &str) -> Expression {
    Expression::NumberLiteral(t.to_string())
}

fn var(t: &str) -> Expression {
    Expression::Variable(t.to_string())
}

fn infix(l: Expression, op: &str, r: Expression) -> Expression {
    Expression::InfixOp { left: Box::new(l), operator: op.to_string(), right: Box::new(r) }
}

fn only_expression(src: &str) -> Expression {
    let mut program = parse_ok(src);
    assert_eq!(program.statements.len(), 1);
    match program.statements.remove(0) {
        Statement::LetStatement { value, .. } => value,
        Statement::ExpressionStatement(e) => e,
        other => panic!("unexpected statement {:?}", other),
    }
}

#[test]
fn test_parse_let_statement() {
    let input = "let dog = 100";
    let mut parser = Parser::new(input);

    let program = parser.parse().expect("a let statement parses");

    assert_eq!(program.statements.len(), 1, "There should be exactly 1 instruction");

    match &program.statements[0] {
        Statement::LetStatement { name, value } => {
            assert_eq!(name, "dog", "The variable name should be 'dog'");

            match value {
                Expression::NumberLiteral(val) => {
                    let n: f32 = val.parse().expect("a number literal");
                    assert_eq!(n, 100.0, "The value should be 100")
                }
                _ => panic!("The value was not parsed as a literal number"),
            }
        }
        _ => panic!("The instruction was not recognized as a LetStatement"),
    }
}

#[test]
fn test_syntax_error_input() {
    let input = "input("; // The parenthesis needs to be closed

    let mut parser = Parser::new(input);
    let result = parser.parse();

    assert!(result.is_err(), "The parser should have reported a syntax error.");
}

#[test]
fn unclosed_input_reports_unrecognized_statement() {
    let e = parse_source("input(").unwrap_err();
    assert_eq!(e.kind, SyntaxErrorKind::UnrecognizedStatement);
}

#[test]
fn multiplication_binds_tighter_than_addition() {
    assert_eq!(only_expression("1 + 2 * 3"), infix(num("1"), "+", infix(num("2"), "*", num("3"))));
    assert_eq!(only_expression("1 * 2 + 3"), infix(infix(num("1"), "*", num("2")), "+", num("3")));
}

#[test]
fn equal_binding_groups_to_the_left() {
    assert_eq!(only_expression("8 - 4 - 2"), infix(infix(num("8"), "-", num("4")), "-", num("2")));
    assert_eq!(only_expression("8 / 4 % 3"), infix(infix(num("8"), "/", num("4")), "%", num("3")));
}

#[test]
fn comparison_and_logic_precedence() {
    let e = only_expression("let ok = a < 3 && b == 4 || c");
    let expected = infix(
        infix(infix(var("a"), "<", num("3")), "&&", infix(var("b"), "==", num("4"))),
        "||",
        var("c"),
    );
    assert_eq!(e, expected);
}

#[test]
fn prefix_minus_binds_tightest() {
    let e = only_expression("-1 + 2");
    let neg = Expression::PrefixOp { operator: "-".to_string(), right: Box::new(num("1")) };
    assert_eq!(e, infix(neg, "+", num("2")));
}

#[test]
fn parentheses_group_first() {
    assert_eq!(only_expression("(1 + 2) * 3"), infix(infix(num("1"), "+", num("2")), "*", num("3")));
}

#[test]
fn string_literal_escapes_are_resolved() {
    assert_eq!(
        only_expression("let s = \"a\\nb\""),
        Expression::StringLiteral("a\nb".to_string())
    );
    assert_eq!(
        only_expression("let s = \"\"\"raw \\n\"\"\""),
        Expression::StringLiteral("raw \\n".to_string())
    );
}

#[test]
fn assignment_and_call_statements() {
    let program = parse_ok("x = 5\nfoo(1, 2)");
    assert_eq!(
        program.statements,
        vec![
            Statement::AssignmentStatement { name: "x".to_string(), value: num("5") },
            Statement::LetStatement {
                name: "_".to_string(),
                value: Expression::FunctionCall {
                    name: "foo".to_string(),
                    args: vec![num("1"), num("2")],
                },
            },
        ]
    );
}

#[test]
fn if_else_and_while() {
    let program = parse_ok("if (x > 1) { print(x) } else { print(0) }\nwhile (go) { go = false }");
    assert_eq!(program.statements.len(), 2);
    match &program.statements[0] {
        Statement::IfStatement { condition, consequence, alternative } => {
            assert_eq!(*condition, infix(var("x"), ">", num("1")));
            assert_eq!(consequence.len(), 1);
            assert_eq!(alternative.as_ref().map(|a| a.len()), Some(1));
        }
        other => panic!("expected an if statement, got {:?}", other),
    }
    match &program.statements[1] {
        Statement::WhileStatement { condition, body } => {
            assert_eq!(*condition, var("go"));
            assert_eq!(
                *body,
                vec![Statement::AssignmentStatement {
                    name: "go".to_string(),
                    value: Expression::BooleanLiteral(false),
                }]
            );
        }
        other => panic!("expected a while statement, got {:?}", other),
    }
}

#[test]
fn function_declaration() {
    let program = parse_ok("def greet(name, n) { return name }");
    assert_eq!(
        program.statements,
        vec![Statement::FunctionDeclaration {
            name: "greet".to_string(),
            params: vec!["name".to_string(), "n".to_string()],
            body: vec![Statement::ReturnStatement { value: var("name") }],
        }]
    );
}

#[test]
fn function_parameters_need_commas() {
    let e = parse_source("def f(a b) { return a }").unwrap_err();
    assert_eq!(e.kind, SyntaxErrorKind::ParamsExpectedComma);
}

#[test]
fn unclosed_function_body() {
    let e = parse_source("def f(a) { return a").unwrap_err();
    assert_eq!(e.kind, SyntaxErrorKind::FnMissingBrace);
}

#[test]
fn arrays_dictionaries_and_indexing() {
    assert_eq!(
        only_expression("let a = [1, \"x\", true]"),
        Expression::Array(vec![
            num("1"),
            Expression::StringLiteral("x".to_string()),
            Expression::BooleanLiteral(true),
        ])
    );
    assert_eq!(
        only_expression("let d = {\"id\": 101}"),
        Expression::Dictionary(vec![("id".to_string(), num("101"))])
    );
    assert_eq!(
        only_expression("let v = a[0]"),
        Expression::IndexAccess { left: Box::new(var("a")), index: Box::new(num("0")) }
    );
}

#[test]
fn array_without_comma_is_an_error() {
    let e = parse_source("let a = [1 2]").unwrap_err();
    assert_eq!(e.kind, SyntaxErrorKind::ArrayExpectedComma);
}

#[test]
fn unclosed_array_is_an_error() {
    let e = parse_source("let a = [1, 2").unwrap_err();
    assert_eq!(e.kind, SyntaxErrorKind::ArrayMissingBracket);
}

#[test]
fn dictionary_key_must_be_text() {
    let e = parse_source("let d = {1: 2}").unwrap_err();
    assert_eq!(e.kind, SyntaxErrorKind::DictKeyNotText);
}

#[test]
fn index_must_close() {
    let e = parse_source("let v = a[0").unwrap_err();
    assert_eq!(e.kind, SyntaxErrorKind::IndexMissingBracket);
}

#[test]
fn unrecognized_statement_reports_its_token() {
    let e = parse_source("let x = 1\n)").unwrap_err();
    assert_eq!(e.kind, SyntaxErrorKind::UnrecognizedStatement);
    assert_eq!(e.near, ")");
}

#[test]
fn inference_and_queue_expressions() {
    assert_eq!(
        only_expression("let r = Master.infer(ticket, ctx, gbnf)"),
        Expression::InferCall {
            model_name: "Master".to_string(),
            prompt_var: "ticket".to_string(),
            context_var: Some("ctx".to_string()),
            grammar_var: Some("gbnf".to_string()),
        }
    );
    assert_eq!(only_expression("let t = recv()"), Expression::RecvCall);
    assert_eq!(
        only_expression("share(\"job\")"),
        Expression::Share { value: Box::new(Expression::StringLiteral("job".to_string())) }
    );
    assert_eq!(
        only_expression("let k = rag(q, doc)"),
        Expression::RagCall { query_var: "q".to_string(), doc_var: "doc".to_string() }
    );
}

#[test]
fn worker_and_shield_blocks() {
    let program = parse_ok("worker { let a = 1 }\nshield(Master = \"100%\") { print(a) }");
    assert_eq!(program.statements.len(), 2);
    assert!(matches!(&program.statements[0], Statement::WorkerBlock { body } if body.len() == 1));
    assert!(matches!(&program.statements[1], Statement::ShieldBlock { body, .. } if body.len() == 1));
}

#[test]
fn comments_and_whitespace_are_skipped() {
    let program = parse_ok("// a comment\nlet   x =\t7 // trailing\n");
    assert_eq!(
        program.statements,
        vec![Statement::LetStatement { name: "x".to_string(), value: num("7") }]
    );
}

#[test]
fn empty_source_is_an_empty_program() {
    assert_eq!(parse_ok("").statements.len(), 0);
}

#[test]
fn assignment_with_mathematics_parses_to_a_sum() {
    let program = parse_ok("let dog = 100 + 50");
    assert_eq!(
        program.statements,
        vec![Statement::LetStatement { name: "dog".to_string(), value: infix(num("100"), "+", num("50")) }]
    );
}

fn s(t: &str) -> String {
    t.to_string()
}

#[test]
fn two_dimensional_tensor_with_gradient() {
    let e = only_expression("let w = tensor([[0.5, 0.1], [-0.2, 0.9]], grad=true)");
    let neg = Expression::PrefixOp { operator: s("-"), right: Box::new(num("0.2")) };
    assert_eq!(
        e,
        Expression::TensorDeclaration {
            data: vec![num("0.5"), num("0.1"), neg, num("0.9")],
            shape: vec![2, 2],
            requires_grad: true,
        }
    );
}

#[test]
fn one_dimensional_tensor() {
    assert_eq!(
        only_expression("let v = tensor([1, 2, 3])"),
        Expression::TensorDeclaration { data: vec![num("1"), num("2"), num("3")], shape: vec![3], requires_grad: false }
    );
}

#[test]
fn vessel_declarations() {
    let program = parse_ok(
        "vessel Master = absorb(\"model.gguf\", temp=0.7, vram_only, quantize=true)\n\
         vessel Small = hyper_quad(\"big.gguf\", \"small.gguf\", \"q4_k_m\")\n\
         vessel Tools = connect_mcp(\"http://localhost:9000\")",
    );
    assert_eq!(
        program.statements,
        vec![
            Statement::VesselDeclaration {
                name: s("Master"),
                file_path: s("model.gguf"),
                tier: s("vram_only"),
                temp: Some(s("0.7")),
                bind: None,
                quantize: true,
            },
            Statement::HyperQuadDirective {
                name: s("Small"),
                model_ident: s("big.gguf"),
                target: s("small.gguf"),
                compression: s("q4_k_m"),
            },
            Statement::McpClientDeclaration { name: s("Tools"), url: s("http://localhost:9000") },
        ]
    );
}

#[test]
fn vessel_defaults() {
    let program = parse_ok("vessel M = absorb(\"m.gguf\")");
    assert_eq!(
        program.statements,
        vec![Statement::VesselDeclaration {
            name: s("M"),
            file_path: s("m.gguf"),
            tier: s("bare_metal"),
            temp: None,
            bind: None,
            quantize: false,
        }]
    );
}

#[test]
fn server_blocks() {
    let program = parse_ok(
        "veil(port = 3000) { reply(\"hi\") }\n\
         veil api(port = p) { }\n\
         mcp_server(port = 9000) { expose_tool(name = \"read_log\", desc = \"Reads the log\", function = read_log) }",
    );
    assert_eq!(
        program.statements,
        vec![
            Statement::VeilBlock {
                name: s("backend_server"),
                port: num("3000"),
                body: vec![Statement::ReplyStatement { value: Expression::StringLiteral(s("hi")) }],
            },
            Statement::VeilBlock { name: s("api"), port: var("p"), body: vec![] },
            Statement::McpServerBlock {
                port: num("9000"),
                body: vec![Statement::ExposeToolStatement {
                    name: s("read_log"),
                    description: s("Reads the log"),
                    function_name: s("read_log"),
                }],
            },
        ]
    );
}

#[test]
fn training_and_tracing_statements() {
    let program = parse_ok("hextrace { backward(loss) optim(w, 0.01) }\nimport \"lib.ju\"");
    assert_eq!(
        program.statements,
        vec![
            Statement::HexTraceBlock {
                body: vec![
                    Statement::BackwardStatement { target_var: s("loss") },
                    Statement::OptimStatement { target_var: s("w"), learning_rate: num("0.01") },
                ],
            },
            Statement::ImportStatement { path: s("lib.ju") },
        ]
    );
}

#[test]
fn inference_statement_and_else_if() {
    let program = parse_ok("Master.infer(q, ctx)\nif (a) { } else if (b) { } else { }");
    assert_eq!(
        program.statements[0],
        Statement::InferStatement {
            model_name: s("Master"),
            prompt_var: s("q"),
            context_var: Some(s("ctx")),
            grammar_var: None,
        }
    );
    assert_eq!(
        program.statements[1],
        Statement::IfStatement {
            condition: var("a"),
            consequence: vec![],
            alternative: Some(vec![Statement::IfStatement {
                condition: var("b"),
                consequence: vec![],
                alternative: Some(vec![]),
            }]),
        }
    );
}

#[test]
fn file_and_tool_expressions() {
    assert_eq!(only_expression("let t = read_text(\"notes.txt\")"), Expression::ReadTextCall(s("notes.txt")));
    assert_eq!(
        only_expression("let r = Tools.call(\"search\", {\"q\": x})"),
        Expression::CallToolCall {
            vessel_name: s("Tools"),
            tool_name: s("search"),
            params: Box::new(Expression::Dictionary(vec![(s("q"), var("x"))])),
        }
    );
    assert_eq!(
        only_expression("let r = infer(Master, q)"),
        Expression::InferCall { model_name: s("Master"), prompt_var: s("q"), context_var: None, grammar_var: None }
    );
}

#[test]
fn lenient_bodies_skip_what_they_cannot_read() {
    let program = parse_ok("worker { ) let a = 1 }");
    assert_eq!(
        program.statements,
        vec![Statement::WorkerBlock { body: vec![Statement::LetStatement { name: s("a"), value: num("1") }] }]
    );
}

#[test]
fn strict_bodies_reject_what_they_cannot_read() {
    let e = parse_source("if (a) { ) }").unwrap_err();
    assert_eq!(e.kind, SyntaxErrorKind::IfInvalidBody);
    assert_eq!(e.near, ")");
}

#[test]
fn inference_statement_with_grammar() {
    let program = parse_ok("Master.infer(ticket, ctx, gbnf)");
    assert_eq!(
        program.statements,
        vec![Statement::InferStatement {
            model_name: s("Master"),
            prompt_var: s("ticket"),
            context_var: Some(s("ctx")),
            grammar_var: Some(s("gbnf")),
        }]
    );
}

#[test]
fn functions_must_end_with_return() {
    let e = parse_source("def f() { print(1) }").unwrap_err();
    assert_eq!(e.kind, SyntaxErrorKind::FnMissingReturn);
    assert_eq!(e.near, "}");
    assert_eq!(parse_source("def f() { }").unwrap_err().kind, SyntaxErrorKind::FnMissingReturn);
    assert_eq!(
        parse_source("def f() { return 1 print(2) }").unwrap_err().kind,
        SyntaxErrorKind::FnMissingReturn
    );
    assert!(parse_source("def f() { print(1) return \"\" }").is_ok());
}
