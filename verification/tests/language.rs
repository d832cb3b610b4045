use kayche::ast::{
    to_span, Ast, BinaryOperator, Block, Expression, Span, Statement, Token, TokenKind,
    UnaryOperator,
};
use kayche::ast_gen::Generator;
use kayche::compare::{Compare, Node};
use kayche::display::{decimal_string, Display};
use kayche::lexer::Lexer;
use kayche::parse::{parse_source, Parser};

fn test_ast(input: &Ast) {
    let mut display = Display::create();
    let s = display.display_block(&input.block);

    let mut parser = Parser::new(s.as_bytes()).unwrap();
    let result = parser.parse();

    let _ast = match result {
        Ok(ast) => ast,
        Err(error) => panic!("{error:?}"),
    };
}

fn case_ast(block: Block) {
    let ast = Generator::to_ast(block);
    test_ast(&ast);
}

#[test]
fn boolean() {
    let gen = Generator::create();
    case_ast(gen.block(vec![
        gen.stat_let("test", gen.expr_boolean(true)),
        gen.stat_let("test2", gen.expr_boolean(false)),
    ]));
}

fn parse_ok(text: &str) -> Ast {
    match parse_source(text.as_bytes()) {
        Some(Ok(ast)) => ast,
        Some(Err(e)) => panic!("unexpected error {}", e.why()),
        None => panic!("unexpected abort"),
    }
}

fn parse_err(text: &str) -> String {
    match parse_source(text.as_bytes()) {
        Some(Err(e)) => e.why().clone(),
        Some(Ok(_)) => panic!("expected an error"),
        None => panic!("unexpected abort"),
    }
}

fn print(block: &Block) -> String {
    let mut display = Display::create();
    display.display_block(block)
}

#[test]
fn display_boolean_block_text() {
    let gen = Generator::create();
    let block = gen.block(vec![
        gen.stat_let("test", gen.expr_boolean(true)),
        gen.stat_let("test2", gen.expr_boolean(false)),
    ]);
    let mut display = Display::create();
    let s = display.display_block(&block);
    assert_eq!(s, "\nlet test=true\nlet test2=false\n");
    assert_eq!(display.pos, s.len());
    assert_eq!(display.line_length, s.len());
    assert_eq!(display.tbs, 0);
    assert_eq!(display.source, s.as_bytes().to_vec());
}

#[test]
fn display_assign_and_reparse_compares_equal() {
    let gen = Generator::create();
    let block = gen.block(vec![
        gen.stat_assign("flag", gen.expr_boolean(true)),
        gen.stat_let("other", gen.expr_boolean(false)),
    ]);
    let text = print(&block);
    assert_eq!(text, "\nflag=true\nlet other=false\n");
    let reparsed = parse_ok(&text);
    let original = Generator::to_ast(block);
    let mut compare = Compare::create();
    let issues = compare.compare_ast(&reparsed, &original);
    assert!(issues.is_empty());
}

#[test]
fn display_route_indents_properties() {
    let ast = parse_ok("route tcp db: 5432 { name = \"db\" }");
    let text = print(&ast.block);
    assert_eq!(text, "\nroute db:5432{\n\tname=\"db\"\n\t}\n");
}

#[test]
fn display_http_route_and_expressions() {
    let ast = parse_ok("route \"example.com\" -> web: 80 { a = 1 + 2 * x.y }");
    let text = print(&ast.block);
    assert_eq!(text, "\nroute \"example.com\"web:80{\n\ta=1+2*x.y \n\t}\n");
}

#[test]
fn decimal_string_prints_ports() {
    assert_eq!(decimal_string(0), "0");
    assert_eq!(decimal_string(7), "7");
    assert_eq!(decimal_string(8080), "8080");
    assert_eq!(decimal_string(65535), "65535");
}

#[test]
fn parse_let_statement() {
    let ast = parse_ok("let port = 8080");
    assert_eq!(ast.block.body.len(), 1);
    match &ast.block.body[0] {
        Statement::Let(l) => {
            assert_eq!(l.root.name.text, "port");
            assert_eq!(l.equals.kind, TokenKind::Equals);
            match &l.value {
                Expression::Number(n) => assert_eq!(n.token.text, "8080"),
                _ => panic!("expected a number"),
            }
            assert_eq!(l.span, Span { x: 4, y: 15, z: 1, w: 5 });
        }
        _ => panic!("expected a let statement"),
    }
}

#[test]
fn identifiers_may_hold_digits() {
    let ast = parse_ok("let test2 = false");
    match &ast.block.body[0] {
        Statement::Let(l) => assert_eq!(l.root.name.text, "test2"),
        _ => panic!("expected a let statement"),
    }
}

#[test]
fn parse_binary_precedence() {
    let ast = parse_ok("x = 1 + 2 * 3");
    match &ast.block.body[0] {
        Statement::Assign(a) => match &a.value {
            Expression::Binary(b) => {
                assert_eq!(b.operator.kind, TokenKind::Add);
                match &*b.right {
                    Expression::Binary(r) => assert_eq!(r.operator.kind, TokenKind::Multiply),
                    _ => panic!("expected the product on the right"),
                }
            }
            _ => panic!("expected a binary expression"),
        },
        _ => panic!("expected an assignment"),
    }
}

#[test]
fn parse_table() {
    let ast = parse_ok("let t = { a = 1, 2, }");
    match &ast.block.body[0] {
        Statement::Let(l) => match &l.value {
            Expression::Table(t) => assert_eq!(t.values.value.len(), 2),
            _ => panic!("expected a table"),
        },
        _ => panic!("expected a let statement"),
    }
}

#[test]
fn parse_reports_unknown_token() {
    assert_eq!(parse_err("let x = @"), "cannot parse '@' into a token");
}

#[test]
fn parse_reports_expected_token() {
    assert_eq!(parse_err("let = 1"), "expected identifier, but got \"let\"");
}

#[test]
fn parse_reports_missing_statement() {
    assert_eq!(parse_err("1"), "expected statement, but got \"number\"");
}

#[test]
fn parse_reports_invalid_port() {
    assert_eq!(
        parse_err("route tcp db: 5x { }"),
        "provided invalid number '5x', only integers are supported"
    );
}

#[test]
fn parse_aborts_on_unterminated_string() {
    assert!(parse_source(b"let x = \"open").is_none());
}

#[test]
fn lexer_reads_tokens_with_spans() {
    let mut lexer = Lexer::new(b"let a\n  b");
    let t = lexer.next_token().unwrap();
    assert_eq!(t.kind, TokenKind::Let);
    assert_eq!(t.span, Span { x: 0, y: 3, z: 1, w: 1 });
    let t = lexer.next_token().unwrap();
    assert_eq!(t.kind, TokenKind::Identifier);
    assert_eq!(t.text, "a");
    let t = lexer.next_token().unwrap();
    assert_eq!(t.text, "b");
    assert_eq!(t.span, Span { x: 8, y: 9, z: 2, w: 3 });
    let t = lexer.next_token().unwrap();
    assert_eq!(t.kind, TokenKind::Eof);
}

#[test]
fn operators_convert_both_ways() {
    assert_eq!(BinaryOperator::try_from(TokenKind::Add), Ok(BinaryOperator::Add));
    assert!(BinaryOperator::try_from(TokenKind::Let).is_err());
    assert_eq!(TokenKind::from(BinaryOperator::Exponent), TokenKind::Exponent);
    assert_eq!(UnaryOperator::try_from(TokenKind::Not), Ok(UnaryOperator::Not));
    assert!(UnaryOperator::try_from(TokenKind::Add).is_err());
    assert_eq!(BinaryOperator::And.text(), "&&");
    assert_eq!(UnaryOperator::Negate.text(), "negate");
    assert_eq!(TokenKind::Arrow.text(), "->");
}

#[test]
fn token_to_string() {
    let span = Span { x: 0, y: 0, z: 0, w: 0 };
    let ident = Token { kind: TokenKind::Identifier, text: "name".to_string(), span };
    assert_eq!(ident.to_string(), "name");
    let eq = Token { kind: TokenKind::Equals, text: "=".to_string(), span };
    assert_eq!(eq.to_string(), "\"=\"");
    let err = Token { kind: TokenKind::Error, text: "@".to_string(), span };
    assert_eq!(err.to_string(), "error @");
}

#[test]
fn to_span_covers_present_spans() {
    let a = Span { x: 3, y: 5, z: 1, w: 4 };
    let b = Span { x: 9, y: 12, z: 2, w: 1 };
    assert_eq!(to_span(&[None, Some(a), None, Some(b), None]), Span { x: 3, y: 12, z: 1, w: 4 });
    assert_eq!(to_span(&[None, None]), Span { x: 0, y: 0, z: 0, w: 0 });
}

#[test]
fn compare_reports_differences() {
    let a = parse_ok("let a = 1\nb = true");
    let b = parse_ok("let c = 1\nb = 2\nd = nil");
    let mut compare = Compare::create();
    let issues = compare.compare_ast(&a, &b);
    let whys: Vec<&str> = issues.iter().map(|i| i.why).collect();
    assert_eq!(whys, vec!["mismatching text", "missing statement"]);
}

#[test]
fn compare_reports_missing_separator_of_last_field() {
    let a = parse_ok("let t = { a = 1 }");
    let mut compare = Compare::create();
    let issues = compare.compare_ast(&a, &a);
    let whys: Vec<&str> = issues.iter().map(|i| i.why).collect();
    assert_eq!(whys, vec!["missing separator"]);
}

#[test]
fn compare_reports_mismatching_kinds_and_expressions() {
    let a = parse_ok("let x = true\nlet y = 1");
    let b = parse_ok("let x = false\nlet y = \"s\"");
    let mut compare = Compare::create();
    let issues = compare.compare_ast(&a, &b);
    let whys: Vec<&str> = issues.iter().map(|i| i.why).collect();
    assert_eq!(whys, vec!["mismatching kinds", "mismatching text", "mismatching expressions"]);
}

#[test]
fn expression_names_its_kind() {
    let gen = Generator::create();
    assert_eq!(gen.expr_boolean(true).to_string(), "boolean");
    let ast = parse_ok("let a = {b = 1}\nlet c = 1 + 2\nlet d = nil\nlet e = !true\nlet f = \"s\"");
    let names: Vec<String> = ast
        .block
        .body
        .iter()
        .map(|s| match s {
            Statement::Let(l) => l.value.to_string(),
            _ => panic!("a let statement"),
        })
        .collect();
    assert_eq!(names, vec!["table", "binary expression", "nil", "unary expression", "string"]);
}

#[test]
fn compare_issues_point_at_the_nodes() {
    let gen = Generator::create();
    let a = gen.block(vec![
        gen.stat_let("a", gen.expr_boolean(true)),
        gen.stat_let("b", gen.expr_boolean(true)),
    ]);
    let b = gen.block(vec![]);
    let mut compare = Compare::create();
    compare.compare_block(&a, &b);
    assert_eq!(compare.issues.len(), 2);
    for (i, issue) in compare.issues.iter().enumerate() {
        assert_eq!(issue.why, "missing statement");
        match issue.a {
            Some(Node::Statement(s)) => assert!(std::ptr::eq(s, &a.body[i])),
            _ => panic!("the statement of the first block"),
        }
        assert!(issue.b.is_none());
    }

    let x = parse_ok("let x = true");
    let y = parse_ok("let x = false");
    let mut compare = Compare::create();
    let issues = compare.compare_ast(&x, &y);
    assert_eq!(issues.len(), 2);
    match (issues[0].a, issues[0].b) {
        (Some(Node::Token(p)), Some(Node::Token(q))) => {
            assert_eq!(p.text, "true");
            assert_eq!(q.text, "false");
        }
        _ => panic!("the two value tokens"),
    }
}

#[test]
fn operator_conversion_errors_name_the_operator_kind() {
    assert_eq!(BinaryOperator::try_from(TokenKind::Let), Err("invalid binary operator"));
    assert_eq!(UnaryOperator::try_from(TokenKind::Add), Err("invalid unary operator"));
}

#[test]
fn compare_with_itself_finds_nothing_when_fields_are_separated() {
    let a = parse_ok("let t = { a = 1, b = { c = 2, }, }\nx = true");
    let mut compare = Compare::create();
    assert!(compare.compare_ast(&a, &a).is_empty());
}

#[test]
fn parse_reports_missing_left_hand_side() {
    assert_eq!(parse_err("let a = + 1"), "missing left hand side of binary operator");
}
