use kayche::analyze::RouteKind;
use kayche::simple::{
    create_state, execute, integer_string, try_execute, Assign, Ast, Block, Expression,
    LetStatement, Route, ServiceTarget, SimpleExpression, Span, Statement, Token,
    TokenKind, Value, VarRoot,
};

fn span() -> Span {
    Span { start: 0, end: 0, line: 1 }
}

fn token(kind: TokenKind, text: &str) -> Token<'_> {
    Token { kind, text, span: span() }
}

fn string(text: &str) -> Expression<'_> {
    Expression::String(SimpleExpression { token: token(TokenKind::Identifier, text), span: span() })
}

fn number(text: &str) -> Expression<'_> {
    Expression::Number(SimpleExpression { token: token(TokenKind::Number, text), span: span() })
}

fn assign<'a>(name: &'a str, value: Expression<'a>) -> Statement<'a> {
    Statement::Assign(Assign {
        identifier: token(TokenKind::Identifier, name),
        equals: token(TokenKind::Equals, "="),
        value,
        span: span(),
    })
}

fn var<'a>(name: &'a str, value: Expression<'a>) -> Statement<'a> {
    Statement::Var(LetStatement {
        root: VarRoot {
            var: token(TokenKind::Let, "let"),
            name: token(TokenKind::Identifier, name),
            span: span(),
        },
        value,
        span: span(),
    })
}

fn route<'a>(kind: RouteKind, host: &'a str, body: Vec<Statement<'a>>) -> Statement<'a> {
    Statement::Route(Route {
        kind,
        hostname: token(TokenKind::Identifier, host),
        target: ServiceTarget { service: token(TokenKind::Identifier, "web"), port: 8080, span: span() },
        properties: Block { body, span: span() },
        span: Span { start: 5, end: 9, line: 3 },
    })
}

fn program(body: Vec<Statement<'_>>) -> Ast<'_> {
    Ast { block: Block { body, span: span() } }
}

#[test]
fn routes_are_described_from_bound_properties() {
    let ast = program(vec![
        var("gateway", string("main")),
        var("namespace", string("apps")),
        route(
            RouteKind::HTTP,
            "shop.example.com",
            vec![assign("entrypoint", string("web")), assign("port", number("-12"))],
        ),
        route(
            RouteKind::TCP,
            "db.example.com",
            vec![assign("name", number("42"))],
        ),
    ]);
    let result = execute(create_state(), &ast).unwrap();
    assert_eq!(result.http.len(), 1);
    let h = &result.http[0];
    assert_eq!(h.name, "shop");
    assert_eq!(h.hostname, "shop.example.com");
    assert_eq!(h.gateway, "main");
    assert_eq!(h.namespace, "apps");
    assert_eq!(h.entrypoint, "web");
    assert_eq!(h.service, "web");
    assert_eq!(h.port, 8080);
    assert_eq!(result.tcp.len(), 1);
    assert_eq!(result.tcp[0].name, "42");
}

#[test]
fn missing_properties_are_issues() {
    let ast = program(vec![route(RouteKind::TCP, "a.b", vec![assign("gateway", string("g"))])]);
    let issues = match execute(create_state(), &ast) {
        Err(issues) => issues,
        Ok(_) => panic!("expected issues"),
    };
    let whys: Vec<&str> = issues.iter().map(|i| i.why.as_str()).collect();
    assert_eq!(
        whys,
        vec!["missing required property namespace", "missing required property entrypoint"]
    );
    assert_eq!(issues[0].span, Span { start: 5, end: 9, line: 3 });
}

#[test]
fn nil_name_and_stray_statements_are_issues() {
    let nil = Expression::Nil(SimpleExpression { token: token(TokenKind::Nil, "nil"), span: span() });
    let ast = program(vec![
        var("gateway", string("g")),
        var("namespace", string("n")),
        var("entrypoint", string("e")),
        route(RouteKind::HTTP, "a.b", vec![var("x", string("y")), assign("name", nil)]),
    ]);
    let issues = match execute(create_state(), &ast) {
        Err(issues) => issues,
        Ok(_) => panic!("expected issues"),
    };
    let whys: Vec<&str> = issues.iter().map(|i| i.why.as_str()).collect();
    assert_eq!(whys, vec!["expected assignment", "no name for route definition"]);
}

#[test]
fn unreadable_numbers_abort() {
    let ast = program(vec![var("n", number("12abc"))]);
    assert!(try_execute(create_state(), &ast).is_none());
    let ast = program(vec![var("n", number("9223372036854775807"))]);
    assert!(try_execute(create_state(), &ast).is_some());
}

#[test]
fn values_print_as_text() {
    assert_eq!(Value::Number(-7).to_string(), Some("-7".to_string()));
    assert_eq!(Value::Bool(true).to_string(), Some("true".to_string()));
    assert_eq!(Value::Nil.to_string(), None);
    assert!(!Value::Nil.truthy());
    assert!(Value::Number(0).truthy());
    assert_eq!(integer_string(i64::MIN), "-9223372036854775808");
    assert_eq!(integer_string(0), "0");
}

#[test]
fn statement_spans() {
    let s = route(RouteKind::TCP, "a", vec![]);
    assert_eq!(s.span(), Span { start: 5, end: 9, line: 3 });
    match &s {
        Statement::Route(_) => {}
        _ => panic!("expected a route"),
    }
}

fn read_all(source: &str) -> Vec<(kayche::simple::TokenKind, String, usize, usize, usize)> {
    let mut lexer = kayche::simple_lexer::Lexer::new(source.as_bytes());
    let mut out = Vec::new();
    loop {
        let token = lexer.next_token().expect("reads").expect("a token");
        out.push((token.kind, token.text.to_string(), token.span.start, token.span.end, token.span.line));
        if token.kind == TokenKind::Eof {
            return out;
        }
    }
}

#[test]
fn simple_lexer_reads_a_let_statement() {
    let tokens = read_all("let a = 1");
    assert_eq!(
        tokens,
        vec![
            (TokenKind::Let, "let".to_string(), 0, 3, 0),
            (TokenKind::Identifier, "a".to_string(), 4, 5, 0),
            (TokenKind::Equals, "=".to_string(), 6, 7, 0),
            (TokenKind::Number, "1".to_string(), 8, 9, 0),
            (TokenKind::Eof, "".to_string(), 9, 9, 0),
        ]
    );
}

#[test]
fn simple_lexer_reads_keywords_names_and_numbers() {
    let tokens = read_all("true false nil tcp foo2 12.5_3abc -> {:}");
    let kinds: Vec<TokenKind> = tokens.iter().map(|t| t.0).collect();
    assert_eq!(
        kinds,
        vec![
            TokenKind::True,
            TokenKind::False,
            TokenKind::Nil,
            TokenKind::Tcp,
            TokenKind::Identifier,
            TokenKind::Number,
            TokenKind::Identifier,
            TokenKind::Arrow,
            TokenKind::LBrace,
            TokenKind::Colon,
            TokenKind::RBrace,
            TokenKind::Eof,
        ]
    );
    assert_eq!(tokens[4].1, "foo2");
    assert_eq!(tokens[5].1, "12.5_3");
    assert_eq!(tokens[6].1, "abc");
}

#[test]
fn simple_lexer_counts_lines() {
    let tokens = read_all("a\n\nb");
    assert_eq!(tokens[0], (TokenKind::Identifier, "a".to_string(), 0, 1, 0));
    assert_eq!(tokens[1], (TokenKind::Identifier, "b".to_string(), 3, 4, 2));
}

#[test]
fn simple_lexer_reports_unknown_bytes() {
    let mut lexer = kayche::simple_lexer::Lexer::new("\n\n-x".as_bytes());
    let err = lexer.next_token().expect("reads").expect_err("an error");
    assert_eq!(err.value, "-x into a token");
    assert_eq!(err.line, 3);
    assert_eq!(err.col, 1);

    let mut lexer = kayche::simple_lexer::Lexer::new("?".as_bytes());
    let err = lexer.next_token().expect("reads").expect_err("an error");
    assert_eq!(err.value, "? into a token");
    assert_eq!(err.line, 1);
    assert_eq!(err.col, 0);
}

#[test]
fn simple_lexer_aborts_where_the_error_cannot_be_shown() {
    let mut lexer = kayche::simple_lexer::Lexer::new("-".as_bytes());
    assert!(lexer.next_token().is_none());
    let mut lexer = kayche::simple_lexer::Lexer::new("é".as_bytes());
    assert!(lexer.next_token().is_none());
}
