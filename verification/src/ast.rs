//! Syntax tree of the route description language: tokens, operators,
//! expressions, statements, and the mathematical views of each.
use vstd::prelude::*;

verus! {

/// A lexical token together with the text it covers and where it stands.
#[derive(Debug, Clone)]
pub struct Token {
    pub kind: TokenKind,
    pub text: String,
    pub span: Span,
}

#[derive(Debug, Clone, Copy, PartialEq, Eq, Structural)]
pub enum BinaryOperator {
    // operators
    BinaryEquals,
    NEquals,
    Greater,
    Less,
    GreaterEquals,
    LessEquals,
    // arithmetic
    Add,
    Subtract,
    Multiply,
    Divide,
    Exponent,
    // ternary
    And,
    Or,
}

#[derive(Debug, Clone, Copy, PartialEq, Eq, Structural)]
pub enum UnaryOperator {
    Negate,
    Not,
}

#[allow(unused)]
#[derive(PartialEq, Eq, Structural, Debug, Clone, Copy)]
pub enum TokenKind {
    // symbols
    Arrow,
    LBrace,
    RBrace,
    LBracket,
    RBracket,
    LBracketSquare,
    RBracketSquare,
    Colon,
    Identifier,
    String,
    Number,
    Equals,
    Comma,
    Period,
    // binary
    // operators
    BinaryEquals,
    NEquals,
    Greater,
    Less,
    GreaterEquals,
    LessEquals,
    // arithmetic
    Add,
    Subtract,
    Multiply,
    Divide,
    Exponent,
    // ternary
    And,
    Or,
    // unary
    Negate,
    Not,
    // keywords
    True,
    False,
    Nil,
    Tcp,
    Let,
    Route,
    // whitespace
    Whitespace,
    Comment,
    // line endings
    Eof,
    Newline,
    Error,
}

/// The binary operator a token kind denotes, if it denotes one.
pub open spec fn binary_operator_of(kind: TokenKind) -> Option<BinaryOperator> {
    match kind {
        TokenKind::BinaryEquals => Some(BinaryOperator::BinaryEquals),
        TokenKind::NEquals => Some(BinaryOperator::NEquals),
        TokenKind::Greater => Some(BinaryOperator::Greater),
        TokenKind::Less => Some(BinaryOperator::Less),
        TokenKind::GreaterEquals => Some(BinaryOperator::GreaterEquals),
        TokenKind::LessEquals => Some(BinaryOperator::LessEquals),
        TokenKind::Add => Some(BinaryOperator::Add),
        TokenKind::Subtract => Some(BinaryOperator::Subtract),
        TokenKind::Multiply => Some(BinaryOperator::Multiply),
        TokenKind::Divide => Some(BinaryOperator::Divide),
        TokenKind::Exponent => Some(BinaryOperator::Exponent),
        TokenKind::And => Some(BinaryOperator::And),
        TokenKind::Or => Some(BinaryOperator::Or),
        _ => None,
    }
}

/// The token kind that spells a binary operator.
pub open spec fn binary_operator_kind(op: BinaryOperator) -> TokenKind {
    match op {
        BinaryOperator::BinaryEquals => TokenKind::BinaryEquals,
        BinaryOperator::NEquals => TokenKind::NEquals,
        BinaryOperator::Greater => TokenKind::Greater,
        BinaryOperator::Less => TokenKind::Less,
        BinaryOperator::GreaterEquals => TokenKind::GreaterEquals,
        BinaryOperator::LessEquals => TokenKind::LessEquals,
        BinaryOperator::Add => TokenKind::Add,
        BinaryOperator::Subtract => TokenKind::Subtract,
        BinaryOperator::Multiply => TokenKind::Multiply,
        BinaryOperator::Divide => TokenKind::Divide,
        BinaryOperator::Exponent => TokenKind::Exponent,
        BinaryOperator::And => TokenKind::And,
        BinaryOperator::Or => TokenKind::Or,
    }
}

/// The unary operator a token kind denotes, if it denotes one.
pub open spec fn unary_operator_of(kind: TokenKind) -> Option<UnaryOperator> {
    match kind {
        TokenKind::Negate => Some(UnaryOperator::Negate),
        TokenKind::Not => Some(UnaryOperator::Not),
        _ => None,
    }
}

/// Converting an operator to its token kind and back gives the operator again.
pub proof fn lemma_binary_operator_round_trip(op: BinaryOperator)
    ensures
        binary_operator_of(binary_operator_kind(op)) == Some(op),
{
}

/// A token kind converts to an operator exactly when it is the spelling of that operator.
pub proof fn lemma_binary_operator_kind_inverse(kind: TokenKind)
    ensures
        binary_operator_of(kind) matches Some(op) ==> binary_operator_kind(op) == kind,
{
}

impl UnaryOperator {
    /// Converts a token kind into the unary operator it denotes.
    pub fn try_from(value: TokenKind) -> (r: Result<UnaryOperator, &'static str>)
        ensures
            match unary_operator_of(value) {
                Some(op) => r == Ok::<UnaryOperator, &'static str>(op),
                None => r matches Err(m) && m@ == "invalid unary operator"@,
            },
    {
        if value == TokenKind::Negate {
            Ok(UnaryOperator::Negate)
        } else if value == TokenKind::Not {
            Ok(UnaryOperator::Not)
        } else {
            Err("invalid unary operator")
        }
    }

    /// The text that names this operator.
    pub fn text(&self) -> (r: &'static str)
        ensures
            r@ == unary_operator_text(*self),
    {
        match self {
            UnaryOperator::Negate => "negate",
            UnaryOperator::Not => "!",
        }
    }
}

/// The text that names a unary operator.
pub open spec fn unary_operator_text(op: UnaryOperator) -> Seq<char> {
    match op {
        UnaryOperator::Negate => "negate"@,
        UnaryOperator::Not => "!"@,
    }
}

impl BinaryOperator {
    /// Converts a token kind into the binary operator it denotes.
    pub fn try_from(value: TokenKind) -> (r: Result<BinaryOperator, &'static str>)
        ensures
            match binary_operator_of(value) {
                Some(op) => r == Ok::<BinaryOperator, &'static str>(op),
                None => r matches Err(m) && m@ == "invalid binary operator"@,
            },
    {
        match value {
            TokenKind::BinaryEquals => Ok(BinaryOperator::BinaryEquals),
            TokenKind::NEquals => Ok(BinaryOperator::NEquals),
            TokenKind::Greater => Ok(BinaryOperator::Greater),
            TokenKind::Less => Ok(BinaryOperator::Less),
            TokenKind::GreaterEquals => Ok(BinaryOperator::GreaterEquals),
            TokenKind::LessEquals => Ok(BinaryOperator::LessEquals),
            TokenKind::Add => Ok(BinaryOperator::Add),
            TokenKind::Subtract => Ok(BinaryOperator::Subtract),
            TokenKind::Multiply => Ok(BinaryOperator::Multiply),
            TokenKind::Divide => Ok(BinaryOperator::Divide),
            TokenKind::Exponent => Ok(BinaryOperator::Exponent),
            TokenKind::And => Ok(BinaryOperator::And),
            TokenKind::Or => Ok(BinaryOperator::Or),
            _ => Err("invalid binary operator"),
        }
    }

    /// The text that names this operator.
    pub fn text(&self) -> (r: &'static str)
        ensures
            r@ == binary_operator_text(*self),
    {
        match self {
            BinaryOperator::BinaryEquals => "==",
            BinaryOperator::NEquals => "!=",
            BinaryOperator::Greater => ">",
            BinaryOperator::Less => "<",
            BinaryOperator::GreaterEquals => ">=",
            BinaryOperator::LessEquals => "<=",
            BinaryOperator::Add => "+",
            BinaryOperator::Subtract => "-",
            BinaryOperator::Multiply => "*",
            BinaryOperator::Divide => "/",
            BinaryOperator::Exponent => "^",
            BinaryOperator::And => "&&",
            BinaryOperator::Or => "||",
        }
    }
}

/// The text that names a binary operator.
pub open spec fn binary_operator_text(op: BinaryOperator) -> Seq<char> {
    match op {
        BinaryOperator::BinaryEquals => "=="@,
        BinaryOperator::NEquals => "!="@,
        BinaryOperator::Greater => ">"@,
        BinaryOperator::Less => "<"@,
        BinaryOperator::GreaterEquals => ">="@,
        BinaryOperator::LessEquals => "<="@,
        BinaryOperator::Add => "+"@,
        BinaryOperator::Subtract => "-"@,
        BinaryOperator::Multiply => "*"@,
        BinaryOperator::Divide => "/"@,
        BinaryOperator::Exponent => "^"@,
        BinaryOperator::And => "&&"@,
        BinaryOperator::Or => "||"@,
    }
}

impl TokenKind {
    /// The token kind that spells a binary operator.
    pub fn from(value: BinaryOperator) -> (r: TokenKind)
        ensures
            r == binary_operator_kind(value),
    {
        match value {
            BinaryOperator::BinaryEquals => TokenKind::BinaryEquals,
            BinaryOperator::NEquals => TokenKind::NEquals,
            BinaryOperator::Greater => TokenKind::Greater,
            BinaryOperator::Less => TokenKind::Less,
            BinaryOperator::GreaterEquals => TokenKind::GreaterEquals,
            BinaryOperator::LessEquals => TokenKind::LessEquals,
            BinaryOperator::Add => TokenKind::Add,
            BinaryOperator::Subtract => TokenKind::Subtract,
            BinaryOperator::Multiply => TokenKind::Multiply,
            BinaryOperator::Divide => TokenKind::Divide,
            BinaryOperator::Exponent => TokenKind::Exponent,
            BinaryOperator::And => TokenKind::And,
            BinaryOperator::Or => TokenKind::Or,
        }
    }

    /// The text that names this kind in messages.
    pub fn text(&self) -> (r: &'static str)
        ensures
            r@ == kind_text(*self),
    {
        match self {
            TokenKind::Arrow => "->",
            TokenKind::LBrace => "{",
            TokenKind::RBrace => "}",
            TokenKind::LBracket => "(",
            TokenKind::RBracket => ")",
            TokenKind::LBracketSquare => "[",
            TokenKind::RBracketSquare => "]",
            TokenKind::Colon => ":",
            TokenKind::Identifier => "identifier",
            TokenKind::String => "string",
            TokenKind::Number => "number",
            TokenKind::Add => "+",
            TokenKind::Subtract => "-",
            TokenKind::Multiply => "*",
            TokenKind::Divide => "/",
            TokenKind::Exponent => "^",
            TokenKind::Comma => ",",
            TokenKind::Period => ".",
            TokenKind::Equals => "=",
            TokenKind::BinaryEquals => "==",
            TokenKind::NEquals => "!=",
            TokenKind::Greater => ">",
            TokenKind::Less => "<",
            TokenKind::GreaterEquals => ">=",
            TokenKind::LessEquals => "<=",
            TokenKind::And => "and",
            TokenKind::Or => "or",
            TokenKind::Negate => "-",
            TokenKind::Not => "!",
            TokenKind::True => "true",
            TokenKind::False => "false",
            TokenKind::Nil => "nil",
            TokenKind::Tcp => "tcp",
            TokenKind::Let => "let",
            TokenKind::Route => "route",
            TokenKind::Whitespace => "whitespace",
            TokenKind::Comment => "comment",
            TokenKind::Eof => "eof",
            TokenKind::Newline => "\n",
            TokenKind::Error => "error",
        }
    }
}

/// The text that names a token kind in messages.
pub open spec fn kind_text(k: TokenKind) -> Seq<char> {
    match k {
        TokenKind::Arrow => "->"@,
        TokenKind::LBrace => "{"@,
        TokenKind::RBrace => "}"@,
        TokenKind::LBracket => "("@,
        TokenKind::RBracket => ")"@,
        TokenKind::LBracketSquare => "["@,
        TokenKind::RBracketSquare => "]"@,
        TokenKind::Colon => ":"@,
        TokenKind::Identifier => "identifier"@,
        TokenKind::String => "string"@,
        TokenKind::Number => "number"@,
        TokenKind::Add => "+"@,
        TokenKind::Subtract => "-"@,
        TokenKind::Multiply => "*"@,
        TokenKind::Divide => "/"@,
        TokenKind::Exponent => "^"@,
        TokenKind::Comma => ","@,
        TokenKind::Period => "."@,
        TokenKind::Equals => "="@,
        TokenKind::BinaryEquals => "=="@,
        TokenKind::NEquals => "!="@,
        TokenKind::Greater => ">"@,
        TokenKind::Less => "<"@,
        TokenKind::GreaterEquals => ">="@,
        TokenKind::LessEquals => "<="@,
        TokenKind::And => "and"@,
        TokenKind::Or => "or"@,
        TokenKind::Negate => "-"@,
        TokenKind::Not => "!"@,
        TokenKind::True => "true"@,
        TokenKind::False => "false"@,
        TokenKind::Nil => "nil"@,
        TokenKind::Tcp => "tcp"@,
        TokenKind::Let => "let"@,
        TokenKind::Route => "route"@,
        TokenKind::Whitespace => "whitespace"@,
        TokenKind::Comment => "comment"@,
        TokenKind::Eof => "eof"@,
        TokenKind::Newline => "\n"@,
        TokenKind::Error => "error"@,
    }
}

/// Where a piece of source stands: `x` and `y` are the byte offsets of its
/// start and end, `z` and `w` the line and column of its start.
#[derive(Debug, Clone, Copy, PartialEq, Eq, Structural, Default)]
pub struct Span {
    pub x: usize,
    pub y: usize,
    pub z: usize,
    pub w: usize,
}

#[derive(Debug, Clone)]
pub struct Delimited<VALUE> {
    pub left: Token,
    pub value: VALUE,
    pub right: Token,
}

pub type Separated<T> = Vec<Separate<T>>;

#[derive(Debug, Clone)]
pub struct Separate<T> {
    pub value: T,
    pub separator: Option<Token>,
    pub span: Span,
}

#[derive(Debug, Clone)]
pub struct ServiceTarget {
    pub service: Token,
    pub equals: Token,
    pub port: usize,
    pub span: Span,
}

#[derive(Debug)]
pub struct RouteTCP {
    pub target: ServiceTarget,
    pub properties: Block,
    pub span: Span,
}

#[derive(Debug)]
pub struct RouteHTTP {
    pub hostname: Token,
    pub target: ServiceTarget,
    pub properties: Block,
    pub span: Span,
}

#[derive(Debug)]
pub enum Route {
    HTTP(RouteHTTP),
    TCP(RouteTCP),
}

#[derive(Debug)]
pub struct VarRoot {
    pub name: Token,
    pub span: Span,
}

#[derive(Debug)]
pub struct VarSuffixNameIndex {
    pub period: Token,
    pub name: Token,
    pub span: Span,
}

#[derive(Debug)]
pub struct VarSuffixExpressionIndex {
    pub period: Token,
    pub node: Delimited<Expression>,
    pub span: Span,
}

#[derive(Debug)]
pub enum VarSuffix {
    NameIndex(VarSuffixNameIndex),
    ExpressionIndex(VarSuffixExpressionIndex),
}

#[derive(Debug)]
pub struct Var {
    pub root: VarRoot,
    pub suffixes: Vec<VarSuffix>,
    pub span: Span,
}

#[derive(Debug)]
pub struct TableFieldNameKey {
    pub name: Token,
    pub equals: Token,
    pub value: Expression,
    pub span: Span,
}

#[derive(Debug)]
pub struct TableFieldNoKey {
    pub value: Expression,
    pub span: Span,
}

#[derive(Debug)]
pub enum TableField {
    NameKey(TableFieldNameKey),
    NoKey(TableFieldNoKey),
}

#[derive(Debug)]
pub struct ExpressionTable {
    pub values: Delimited<Separated<TableField>>,
    pub span: Span,
}

#[derive(Debug)]
pub struct LetStatement {
    pub root: VarRoot,
    pub equals: Token,
    pub value: Expression,
    pub span: Span,
}

#[derive(Debug)]
pub struct SimpleExpression {
    pub token: Token,
    pub span: Span,
}

#[derive(Debug)]
pub struct ExpressionBinary {
    pub left: Box<Expression>,
    pub operator: Token,
    pub right: Box<Expression>,
    pub span: Span,
}

#[derive(Debug)]
pub struct ExpressionUnary {
    pub operator: Token,
    pub value: Box<Expression>,
    pub span: Span,
}

#[derive(Debug)]
pub struct ExpressionEvaluate {
    pub value: Delimited<Box<Expression>>,
    pub span: Span,
}

#[derive(Debug)]
pub enum Expression {
    Boolean(SimpleExpression),
    Nil(SimpleExpression),
    Number(SimpleExpression),
    String(SimpleExpression),
    Binary(ExpressionBinary),
    Unary(ExpressionUnary),
    Table(ExpressionTable),
    Var(Var),
    Evaluate(ExpressionEvaluate),
}

#[derive(Debug)]
pub struct Assign {
    pub identifier: Token,
    pub equals: Token,
    pub value: Expression,
    pub span: Span,
}

#[derive(Debug)]
pub enum Statement {
    Assign(Assign),
    Let(LetStatement),
    Route(Route),
}

#[derive(Debug)]
pub struct Block {
    pub body: Vec<Statement>,
    pub span: Span,
}

#[derive(Debug)]
pub struct Ast {
    pub block: Block,
}

/// What a token is: its kind, the characters it covers, and where it stands.
pub struct TokenV {
    pub kind: TokenKind,
    pub text: Seq<char>,
    pub span: Span,
}

impl View for Token {
    type V = TokenV;

    open spec fn view(&self) -> TokenV {
        TokenV { kind: self.kind, text: self.text@, span: self.span }
    }
}

pub open spec fn opt_token_view(t: Option<Token>) -> Option<TokenV> {
    match t {
        Some(t) => Some(t@),
        None => None,
    }
}

pub struct ServiceTargetV {
    pub service: TokenV,
    pub equals: TokenV,
    pub port: usize,
    pub span: Span,
}

impl View for ServiceTarget {
    type V = ServiceTargetV;

    open spec fn view(&self) -> ServiceTargetV {
        ServiceTargetV { service: self.service@, equals: self.equals@, port: self.port, span: self.span }
    }
}

/// What an expression is, with each token taken by its view.
pub enum ExprV {
    Boolean(TokenV, Span),
    Nil(TokenV, Span),
    Number(TokenV, Span),
    String(TokenV, Span),
    Binary { left: Box<ExprV>, operator: TokenV, right: Box<ExprV>, span: Span },
    Unary { operator: TokenV, value: Box<ExprV>, span: Span },
    Table { left: TokenV, fields: Seq<FieldV>, right: TokenV, span: Span },
    Var { root: TokenV, root_span: Span, suffixes: Seq<SuffixV>, span: Span },
    Evaluate { left: TokenV, value: Box<ExprV>, right: TokenV, span: Span },
}

/// A table field with the separator that follows it.
pub struct FieldV {
    pub field: TableFieldV,
    pub separator: Option<TokenV>,
    pub span: Span,
}

pub enum TableFieldV {
    NameKey { name: TokenV, equals: TokenV, value: ExprV, span: Span },
    NoKey { value: ExprV, span: Span },
}

pub enum SuffixV {
    NameIndex { period: TokenV, name: TokenV, span: Span },
    ExpressionIndex { period: TokenV, left: TokenV, value: ExprV, right: TokenV, span: Span },
}

pub open spec fn expr_view(e: Expression) -> ExprV
    decreases e,
{
    match e {
        Expression::Boolean(n) => ExprV::Boolean(n.token@, n.span),
        Expression::Nil(n) => ExprV::Nil(n.token@, n.span),
        Expression::Number(n) => ExprV::Number(n.token@, n.span),
        Expression::String(n) => ExprV::String(n.token@, n.span),
        Expression::Binary(n) => ExprV::Binary {
            left: Box::new(expr_view(*n.left)),
            operator: n.operator@,
            right: Box::new(expr_view(*n.right)),
            span: n.span,
        },
        Expression::Unary(n) => ExprV::Unary {
            operator: n.operator@,
            value: Box::new(expr_view(*n.value)),
            span: n.span,
        },
        Expression::Table(n) => ExprV::Table {
            left: n.values.left@,
            fields: Seq::new(
                n.values.value@.len(),
                |i: int|
                    if 0 <= i < n.values.value@.len() {
                        field_view(n.values.value@[i])
                    } else {
                        arbitrary()
                    },
            ),
            right: n.values.right@,
            span: n.span,
        },
        Expression::Var(n) => ExprV::Var {
            root: n.root.name@,
            root_span: n.root.span,
            suffixes: Seq::new(
                n.suffixes@.len(),
                |i: int|
                    if 0 <= i < n.suffixes@.len() {
                        suffix_view(n.suffixes@[i])
                    } else {
                        arbitrary()
                    },
            ),
            span: n.span,
        },
        Expression::Evaluate(n) => ExprV::Evaluate {
            left: n.value.left@,
            value: Box::new(expr_view(*n.value.value)),
            right: n.value.right@,
            span: n.span,
        },
    }
}

pub open spec fn field_view(f: Separate<TableField>) -> FieldV
    decreases f,
{
    FieldV {
        field: table_field_view(f.value),
        separator: opt_token_view(f.separator),
        span: f.span,
    }
}

pub open spec fn table_field_view(f: TableField) -> TableFieldV
    decreases f,
{
    match f {
        TableField::NameKey(k) => TableFieldV::NameKey {
            name: k.name@,
            equals: k.equals@,
            value: expr_view(k.value),
            span: k.span,
        },
        TableField::NoKey(k) => TableFieldV::NoKey { value: expr_view(k.value), span: k.span },
    }
}

pub open spec fn suffix_view(s: VarSuffix) -> SuffixV
    decreases s,
{
    match s {
        VarSuffix::NameIndex(n) => SuffixV::NameIndex { period: n.period@, name: n.name@, span: n.span },
        VarSuffix::ExpressionIndex(n) => SuffixV::ExpressionIndex {
            period: n.period@,
            left: n.node.left@,
            value: expr_view(n.node.value),
            right: n.node.right@,
            span: n.span,
        },
    }
}

impl View for Expression {
    type V = ExprV;

    open spec fn view(&self) -> ExprV {
        expr_view(*self)
    }
}

pub enum RouteV {
    HTTP { hostname: TokenV, target: ServiceTargetV, properties: BlockV, span: Span },
    TCP { target: ServiceTargetV, properties: BlockV, span: Span },
}

pub enum StmtV {
    Assign { identifier: TokenV, equals: TokenV, value: ExprV, span: Span },
    Let { name: TokenV, root_span: Span, equals: TokenV, value: ExprV, span: Span },
    Route(RouteV),
}

pub struct BlockV {
    pub body: Seq<StmtV>,
    pub span: Span,
}

pub open spec fn block_view(b: Block) -> BlockV
    decreases b,
{
    BlockV {
        body: Seq::new(
            b.body@.len(),
            |i: int|
                if 0 <= i < b.body@.len() {
                    stmt_view(b.body@[i])
                } else {
                    arbitrary()
                },
        ),
        span: b.span,
    }
}

pub open spec fn stmt_view(s: Statement) -> StmtV
    decreases s,
{
    match s {
        Statement::Assign(a) => StmtV::Assign {
            identifier: a.identifier@,
            equals: a.equals@,
            value: a.value@,
            span: a.span,
        },
        Statement::Let(l) => StmtV::Let {
            name: l.root.name@,
            root_span: l.root.span,
            equals: l.equals@,
            value: l.value@,
            span: l.span,
        },
        Statement::Route(r) => StmtV::Route(route_view(r)),
    }
}

pub open spec fn route_view(r: Route) -> RouteV
    decreases r,
{
    match r {
        Route::HTTP(r) => RouteV::HTTP {
            hostname: r.hostname@,
            target: r.target@,
            properties: block_view(r.properties),
            span: r.span,
        },
        Route::TCP(r) => RouteV::TCP {
            target: r.target@,
            properties: block_view(r.properties),
            span: r.span,
        },
    }
}

impl View for Statement {
    type V = StmtV;

    open spec fn view(&self) -> StmtV {
        stmt_view(*self)
    }
}

impl View for Ast {
    type V = BlockV;

    open spec fn view(&self) -> BlockV {
        block_view(self.block)
    }
}

impl View for Block {
    type V = BlockV;

    open spec fn view(&self) -> BlockV {
        block_view(*self)
    }
}

/// How a token is written in messages: an identifier by its text, an
/// erroneous token by its text after `error`, any other by its kind in quotes.
pub open spec fn token_display(t: TokenV) -> Seq<char> {
    if t.kind == TokenKind::Identifier {
        t.text
    } else if t.kind == TokenKind::Error {
        "error "@ + t.text
    } else {
        "\""@ + kind_text(t.kind) + "\""@
    }
}

impl Token {
    /// How the token is written in messages.
    pub fn to_string(&self) -> (r: String)
        ensures
            r@ == token_display(self@),
    {
        if self.kind == TokenKind::Identifier {
            self.text.clone()
        } else if self.kind == TokenKind::Error {
            let mut r = String::from_str("error ");
            r.append(self.text.as_str());
            r
        } else {
            let mut r = String::from_str("\"");
            r.append(self.kind.text());
            r.append("\"");
            r
        }
    }
}

/// The first span present in a list of optional spans.
pub open spec fn first_span(v: Seq<Option<Span>>) -> Option<Span>
    decreases v.len(),
{
    if v.len() == 0 {
        None
    } else if v[0] is Some {
        v[0]
    } else {
        first_span(v.drop_first())
    }
}

/// The last span present in a list of optional spans.
pub open spec fn last_span(v: Seq<Option<Span>>) -> Option<Span>
    decreases v.len(),
{
    if v.len() == 0 {
        None
    } else if v.last() is Some {
        v.last()
    } else {
        last_span(v.drop_last())
    }
}

/// The span that reaches from the first present span to the last one, and
/// starts on the first one's line and column; zero where none is present.
pub open spec fn covering_span(v: Seq<Option<Span>>) -> Span {
    let first = first_span(v);
    let last = last_span(v);
    Span {
        x: match first {
            Some(f) => f.x,
            None => 0,
        },
        y: match last {
            Some(l) => l.y,
            None => 0,
        },
        z: match first {
            Some(f) => f.z,
            None => 0,
        },
        w: match first {
            Some(f) => f.w,
            None => 0,
        },
    }
}

/// The span that covers the present spans of the list.
pub fn to_span(spans: &[Option<Span>]) -> (r: Span)
    ensures
        r == covering_span(spans@),
{
    let mut first: Option<Span> = None;
    let mut i: usize = 0;
    assert(spans@.subrange(0, spans@.len() as int) =~= spans@);
    while i < spans.len()
        invariant
            i <= spans@.len(),
            first is None ==> forall|j: int| 0 <= j < i ==> spans@[j] is None,
            first is None ==> first_span(spans@) == first_span(spans@.subrange(i as int, spans@.len() as int)),
            first is Some ==> first == first_span(spans@),
        decreases spans.len() - i,
    {
        if first.is_none() {
            assert(spans@.subrange(i as int, spans@.len() as int).drop_first() =~= spans@.subrange(i + 1, spans@.len() as int));
            first = spans[i];
        }
        i += 1;
    }
    assert(spans@.subrange(i as int, spans@.len() as int) =~= Seq::<Option<Span>>::empty());
    let mut last: Option<Span> = None;
    let mut k: usize = spans.len();
    while k > 0
        invariant
            k <= spans@.len(),
            last is None ==> last_span(spans@) == last_span(spans@.subrange(0, k as int)),
            last is Some ==> last == last_span(spans@),
        decreases k,
    {
        if last.is_none() {
            assert(spans@.subrange(0, k as int).drop_last() =~= spans@.subrange(0, k - 1));
            last = spans[k - 1];
        }
        k -= 1;
    }
    assert(spans@.subrange(0, 0) =~= Seq::<Option<Span>>::empty());
    let x = match first {
        Some(f) => f.x,
        None => 0,
    };
    let y = match last {
        Some(l) => l.y,
        None => 0,
    };
    let z = match first {
        Some(f) => f.z,
        None => 0,
    };
    let w = match first {
        Some(f) => f.w,
        None => 0,
    };
    Span { x, y, z, w }
}

/// The span of an expression.
pub open spec fn expr_span(e: ExprV) -> Span {
    match e {
        ExprV::Boolean(_, s) => s,
        ExprV::Nil(_, s) => s,
        ExprV::Number(_, s) => s,
        ExprV::String(_, s) => s,
        ExprV::Binary { span, .. } => span,
        ExprV::Unary { span, .. } => span,
        ExprV::Table { span, .. } => span,
        ExprV::Var { span, .. } => span,
        ExprV::Evaluate { span, .. } => span,
    }
}

/// The name of an expression's kind, as messages write it.
pub open spec fn expr_kind_text(e: ExprV) -> Seq<char> {
    match e {
        ExprV::Boolean(..) => "boolean"@,
        ExprV::Nil(..) => "nil"@,
        ExprV::Number(..) => "number"@,
        ExprV::String(..) => "string"@,
        ExprV::Binary { .. } => "binary expression"@,
        ExprV::Unary { .. } => "unary expression"@,
        ExprV::Table { .. } => "table"@,
        ExprV::Var { .. } => "var"@,
        ExprV::Evaluate { .. } => "evaluate expression"@,
    }
}

impl Expression {
    /// The name of the expression's kind, as messages write it.
    pub fn to_string(&self) -> (r: String)
        ensures
            r@ == expr_kind_text(self@),
    {
        let text = match self {
            Expression::Boolean(_) => "boolean",
            Expression::Nil(_) => "nil",
            Expression::Number(_) => "number",
            Expression::String(_) => "string",
            Expression::Binary(_) => "binary expression",
            Expression::Unary(_) => "unary expression",
            Expression::Table(_) => "table",
            Expression::Var(_) => "var",
            Expression::Evaluate(_) => "evaluate expression",
        };
        String::from_str(text)
    }

    /// Where the expression stands.
    pub fn span(&self) -> (r: Span)
        ensures
            r == expr_span(self@),
    {
        match self {
            Expression::Boolean(n) | Expression::Nil(n) | Expression::Number(n) | Expression::String(
                n,
            ) => n.span,
            Expression::Binary(n) => n.span,
            Expression::Unary(n) => n.span,
            Expression::Table(n) => n.span,
            Expression::Var(n) => n.span,
            Expression::Evaluate(n) => n.span,
        }
    }
}

impl VarSuffix {
    pub fn span(&self) -> (r: Span)
        ensures
            r == suffix_span(suffix_view(*self)),
    {
        match self {
            VarSuffix::NameIndex(n) => n.span,
            VarSuffix::ExpressionIndex(n) => n.span,
        }
    }
}

pub open spec fn suffix_span(s: SuffixV) -> Span {
    match s {
        SuffixV::NameIndex { span, .. } => span,
        SuffixV::ExpressionIndex { span, .. } => span,
    }
}

pub open spec fn table_field_span(f: TableFieldV) -> Span {
    match f {
        TableFieldV::NameKey { span, .. } => span,
        TableFieldV::NoKey { span, .. } => span,
    }
}

impl TableField {
    pub fn span(&self) -> (r: Span)
        ensures
            r == table_field_span(table_field_view(*self)),
    {
        match self {
            TableField::NameKey(n) => n.span,
            TableField::NoKey(n) => n.span,
        }
    }
}

/// The span of a route.
pub open spec fn route_span(r: RouteV) -> Span {
    match r {
        RouteV::HTTP { span, .. } => span,
        RouteV::TCP { span, .. } => span,
    }
}

/// The span of a statement.
pub open spec fn stmt_span(s: StmtV) -> Span {
    match s {
        StmtV::Assign { span, .. } => span,
        StmtV::Let { span, .. } => span,
        StmtV::Route(r) => route_span(r),
    }
}

impl Route {
    pub fn span(&self) -> (r: Span)
        ensures
            r == route_span(route_view(*self)),
    {
        match self {
            Route::HTTP(r) => r.span,
            Route::TCP(r) => r.span,
        }
    }
}

impl Statement {
    pub fn span(&self) -> (r: Span)
        ensures
            r == stmt_span(self@),
    {
        match self {
            Statement::Assign(n) => n.span,
            Statement::Let(n) => n.span,
            Statement::Route(n) => n.span(),
        }
    }
}

/// The text of a string token without its quotes. The token's first and
/// last characters must each take one byte.
pub fn get_string_value(token: &Token) -> (r: &str)
    requires
        token.text@.len() >= 2,
        (token.text@[0] as u32) < 128,
        (token.text@.last() as u32) < 128,
    ensures
        r@ == token.text@.subrange(1, token.text@.len() - 1),
{
    let n = token.text.unicode_len();
    token.text.as_str().substring_char(1, n - 1)
}

} // verus!
