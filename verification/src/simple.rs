//! The simple form of the language: each route is one node with its kind,
//! values are literals, and numbers are integers. Its evaluator binds
//! variables in nested scopes and turns each route into a described HTTP
//! or TCP route, collecting the issues it finds.
use vstd::prelude::*;
use crate::analyze::{first_label, first_label_of, label_end, RouteKind};
use crate::display::decimal_text;
use crate::grammar::{all_digits, decimal_value};
use crate::scope::{binds, frame, frames, position, read_frames, update_frames, write_frames, Scope};

verus! {

#[derive(PartialEq, Eq, Structural, Debug, Clone, Copy)]
pub enum TokenKind {
    Arrow,
    LBrace,
    RBrace,
    Colon,
    Identifier,
    Number,
    Equals,
    Comma,
    True,
    False,
    Nil,
    Tcp,
    Let,
    Whitespace,
    Comment,
    Eof,
    Newline,
    Error,
}

/// Where a piece of source stands: its byte offsets and its line.
#[derive(Debug, Clone, Copy, PartialEq, Eq, Structural)]
pub struct Span {
    pub start: usize,
    pub end: usize,
    pub line: usize,
}

#[derive(Debug, Clone, Copy)]
pub struct Token<'a> {
    pub kind: TokenKind,
    pub text: &'a str,
    pub span: Span,
}

#[derive(Debug)]
pub struct Delimited<'a, VALUE> {
    pub left: Token<'a>,
    pub value: VALUE,
    pub right: Token<'a>,
}

#[derive(Debug)]
pub struct Separate<'a, T> {
    pub value: T,
    pub separator: Option<Token<'a>>,
    pub span: Span,
}

#[derive(Debug)]
pub struct ServiceTarget<'a> {
    pub service: Token<'a>,
    pub port: usize,
    pub span: Span,
}

#[derive(Debug)]
pub struct Route<'a> {
    pub kind: RouteKind,
    pub hostname: Token<'a>,
    pub target: ServiceTarget<'a>,
    pub properties: Block<'a>,
    pub span: Span,
}

#[derive(Debug)]
pub struct VarRoot<'a> {
    pub var: Token<'a>,
    pub name: Token<'a>,
    pub span: Span,
}

#[derive(Debug)]
pub struct TableFieldNameKey<'a> {
    pub name: Token<'a>,
    pub equals: Token<'a>,
    pub value: Expression<'a>,
    pub span: Span,
}

#[derive(Debug)]
pub struct TableFieldNoKey<'a> {
    pub value: Expression<'a>,
    pub span: Span,
}

#[derive(Debug)]
pub enum TableField<'a> {
    NameKey(TableFieldNameKey<'a>),
    NoKey(TableFieldNoKey<'a>),
}

#[derive(Debug)]
pub struct ExpressionTable<'a> {
    pub values: Delimited<'a, Vec<Separate<'a, TableField<'a>>>>,
    pub span: Span,
}

#[derive(Debug)]
pub struct LetStatement<'a> {
    pub root: VarRoot<'a>,
    pub value: Expression<'a>,
    pub span: Span,
}

#[derive(Debug)]
pub struct SimpleExpression<'a> {
    pub token: Token<'a>,
    pub span: Span,
}

#[derive(Debug)]
pub enum Expression<'a> {
    Boolean(SimpleExpression<'a>),
    Nil(SimpleExpression<'a>),
    Number(SimpleExpression<'a>),
    String(SimpleExpression<'a>),
    Table(ExpressionTable<'a>),
}

#[derive(Debug)]
pub struct Assign<'a> {
    pub identifier: Token<'a>,
    pub equals: Token<'a>,
    pub value: Expression<'a>,
    pub span: Span,
}

#[derive(Debug)]
pub enum Statement<'a> {
    Assign(Assign<'a>),
    Var(LetStatement<'a>),
    Route(Route<'a>),
}

#[derive(Debug)]
pub struct Block<'a> {
    pub body: Vec<Statement<'a>>,
    pub span: Span,
}

#[derive(Debug)]
pub struct Ast<'a> {
    pub block: Block<'a>,
}

/// A value: a string, an integer, a boolean or nil.
#[derive(Debug)]
pub enum Value {
    String(String),
    Number(i64),
    Bool(bool),
    Nil,
}

/// What a value is, its text taken by its view.
pub enum ValueV {
    String(Seq<char>),
    Number(i64),
    Bool(bool),
    Nil,
}

impl View for Value {
    type V = ValueV;

    open spec fn view(&self) -> ValueV {
        match self {
            Value::String(s) => ValueV::String(s@),
            Value::Number(n) => ValueV::Number(*n),
            Value::Bool(b) => ValueV::Bool(*b),
            Value::Nil => ValueV::Nil,
        }
    }
}

/// A problem found while evaluating.
#[derive(Debug)]
pub struct Issue {
    pub why: String,
    pub span: Span,
}

#[derive(Debug)]
pub struct HTTPRoute {
    pub name: String,
    pub hostname: String,
    pub service: String,
    pub port: usize,
    pub namespace: String,
    pub gateway: String,
    pub entrypoint: String,
}

#[derive(Debug)]
pub struct TCPRoute {
    pub name: String,
    pub service: String,
    pub port: usize,
    pub namespace: String,
    pub gateway: String,
    pub entrypoint: String,
}

/// A route that evaluation described.
#[derive(Debug)]
pub enum RouteResult {
    HTTP(HTTPRoute),
    TCP(TCPRoute),
}

/// What evaluation has built so far: its scopes, the issues it found and
/// the routes it described.
#[derive(Debug)]
pub struct ExecutionState {
    pub globals: Vec<(String, String)>,
    pub scope: Scope<Value>,
    pub issues: Vec<Issue>,
    pub routes: Vec<RouteResult>,
}

/// The routes of a program that evaluated without issues.
pub struct ExecutionResult {
    pub http: Vec<HTTPRoute>,
    pub tcp: Vec<TCPRoute>,
}

/// What a described route is.
pub struct RouteResultV {
    pub kind: RouteKind,
    pub name: Seq<char>,
    pub hostname: Seq<char>,
    pub service: Seq<char>,
    pub port: usize,
    pub namespace: Seq<char>,
    pub gateway: Seq<char>,
    pub entrypoint: Seq<char>,
}

impl View for RouteResult {
    type V = RouteResultV;

    open spec fn view(&self) -> RouteResultV {
        match self {
            RouteResult::HTTP(r) => RouteResultV {
                kind: RouteKind::HTTP,
                name: r.name@,
                hostname: r.hostname@,
                service: r.service@,
                port: r.port,
                namespace: r.namespace@,
                gateway: r.gateway@,
                entrypoint: r.entrypoint@,
            },
            RouteResult::TCP(r) => RouteResultV {
                kind: RouteKind::TCP,
                name: r.name@,
                hostname: Seq::empty(),
                service: r.service@,
                port: r.port,
                namespace: r.namespace@,
                gateway: r.gateway@,
                entrypoint: r.entrypoint@,
            },
        }
    }
}

pub type IssueV = (Seq<char>, Span);

pub type FramesV = Seq<Seq<(Seq<char>, ValueV)>>;

/// What evaluation holds: its scopes innermost first, its issues and its
/// routes.
pub struct WalkV {
    pub frames: FramesV,
    pub issues: Seq<IssueV>,
    pub routes: Seq<RouteResultV>,
}

/// The view of one scope's bindings.
pub open spec fn frame_view(f: Seq<(Seq<char>, Value)>) -> Seq<(Seq<char>, ValueV)> {
    Seq::new(f.len(), |i: int| (f[i].0, f[i].1@))
}

/// The views of all scopes' bindings.
pub open spec fn frames_view(fs: Seq<Seq<(Seq<char>, Value)>>) -> FramesV {
    Seq::new(fs.len(), |i: int| frame_view(fs[i]))
}

impl View for ExecutionState {
    type V = WalkV;

    open spec fn view(&self) -> WalkV {
        WalkV {
            frames: frames_view(frames(self.scope)),
            issues: Seq::new(self.issues@.len(), |i: int| (self.issues@[i].why@, self.issues@[i].span)),
            routes: Seq::new(self.routes@.len(), |i: int| self.routes@[i]@),
        }
    }
}

/// What `str::parse::<i64>` gives: an optional sign followed by at least
/// one decimal digit and nothing else, whose value fits in `i64`.
pub open spec fn parse_i64_spec(t: Seq<char>) -> Option<i64> {
    let negative = t.len() > 0 && t[0] == '-';
    let d = if t.len() > 0 && (t[0] == '+' || t[0] == '-') {
        t.drop_first()
    } else {
        t
    };
    let v = if negative {
        -decimal_value(d)
    } else {
        decimal_value(d)
    };
    if d.len() > 0 && all_digits(d) && i64::MIN <= v <= i64::MAX {
        Some(v as i64)
    } else {
        None
    }
}

/// The decimal notation of an integer, with a minus sign where negative.
pub open spec fn integer_text(n: int) -> Seq<char> {
    if n < 0 {
        seq!['-'] + decimal_text((-n) as nat)
    } else {
        decimal_text(n as nat)
    }
}

/// The text of a value that has one: nil has none.
pub open spec fn value_text(v: ValueV) -> Option<Seq<char>> {
    match v {
        ValueV::String(s) => Some(s),
        ValueV::Number(n) => Some(integer_text(n as int)),
        ValueV::Bool(b) => Some(
            if b {
                "true"@
            } else {
                "false"@
            },
        ),
        ValueV::Nil => None,
    }
}

/// The value of an expression; `None` where evaluating it aborts (a number
/// that is no `i64`, or a table).
pub open spec fn eval_spec(e: Expression) -> Option<ValueV> {
    match e {
        Expression::Boolean(n) => Some(ValueV::Bool(n.token.text@ == "true"@)),
        Expression::Nil(_) => Some(ValueV::Nil),
        Expression::Number(n) => match parse_i64_spec(n.token.text@) {
            Some(x) => Some(ValueV::Number(x)),
            None => None,
        },
        Expression::String(n) => Some(ValueV::String(n.token.text@)),
        Expression::Table(_) => None,
    }
}

/// Binding `name` to the value of `value`, as an assignment does.
pub open spec fn bind_spec(w: WalkV, name: Seq<char>, value: Expression) -> Option<WalkV> {
    match eval_spec(value) {
        Some(v) => Some(WalkV { frames: write_frames(w.frames, name, v), ..w }),
        None => None,
    }
}

/// The span of a statement.
pub open spec fn stmt_span(s: Statement) -> Span {
    match s {
        Statement::Assign(n) => n.span,
        Statement::Var(n) => n.span,
        Statement::Route(n) => n.span,
    }
}

/// Evaluating a route's properties: each assignment binds, any other
/// statement is reported.
pub open spec fn properties_spec(w: WalkV, ss: Seq<Statement>) -> Option<WalkV>
    decreases ss.len(),
{
    if ss.len() == 0 {
        Some(w)
    } else {
        match properties_spec(w, ss.drop_last()) {
            None => None,
            Some(w1) => match ss.last() {
                Statement::Assign(a) => bind_spec(w1, a.identifier.text@, a.value),
                s => Some(
                    WalkV { issues: w1.issues.push(("expected assignment"@, stmt_span(s))), ..w1 },
                ),
            },
        }
    }
}

/// The properties every route needs.
pub open spec fn required_names() -> Seq<Seq<char>> {
    seq!["gateway"@, "namespace"@, "entrypoint"@]
}

/// The issues for the required properties that no scope binds.
pub open spec fn missing_issues(frames: FramesV, names: Seq<Seq<char>>, span: Span) -> Seq<IssueV>
    decreases names.len(),
{
    if names.len() == 0 {
        Seq::empty()
    } else {
        missing_issues(frames, names.drop_last(), span) + if read_frames(frames, names.last())
            is None {
            seq![("missing required property "@ + names.last(), span)]
        } else {
            Seq::empty()
        }
    }
}

/// The text a bound name reads as, where it has one.
pub open spec fn read_text(frames: FramesV, name: Seq<char>) -> Option<Seq<char>> {
    match read_frames(frames, name) {
        Some(v) => value_text(v),
        None => None,
    }
}

/// Describing a route once its properties are evaluated.
pub open spec fn describe_spec(w: WalkV, r: Route) -> Option<WalkV> {
    let missing = missing_issues(w.frames, required_names(), r.span);
    if missing.len() > 0 {
        Some(WalkV { issues: w.issues + missing, ..w })
    } else {
        let named = read_frames(w.frames, "name"@);
        if named is Some && value_text(named->0) is None {
            Some(WalkV { issues: w.issues.push(("no name for route definition"@, r.span)), ..w })
        } else {
            let name = match named {
                Some(v) => value_text(v)->0,
                None => first_label(r.hostname.text@),
            };
            match (
                read_text(w.frames, "gateway"@),
                read_text(w.frames, "namespace"@),
                read_text(w.frames, "entrypoint"@),
            ) {
                (Some(g), Some(ns), Some(e)) => Some(
                    WalkV {
                        routes: w.routes.push(
                            RouteResultV {
                                kind: r.kind,
                                name,
                                hostname: if r.kind == RouteKind::HTTP {
                                    r.hostname.text@
                                } else {
                                    Seq::empty()
                                },
                                service: r.target.service.text@,
                                port: r.target.port,
                                namespace: ns,
                                gateway: g,
                                entrypoint: e,
                            },
                        ),
                        ..w
                    },
                ),
                _ => None,
            }
        }
    }
}

/// A route is described from the values bound where it stands, whatever
/// its kind: its gateway, namespace and entry point are the texts of the
/// values bound to `gateway`, `namespace` and `entrypoint`, its name that of
/// `name` or else the first label of its host, its service and port are its
/// target's, only an HTTP route keeps its host, and the routes described before stay as they
/// were. When no route is added, the scopes and routes are untouched.
pub proof fn lemma_described_route(w: WalkV, r: Route)
    ensures
        describe_spec(w, r) matches Some(w2) ==> {
            &&& w2.frames == w.frames
            &&& w2.routes.len() == w.routes.len() || w2.routes.len() == w.routes.len() + 1
            &&& w2.routes.subrange(0, w.routes.len() as int) == w.routes
            &&& w2.routes.len() == w.routes.len() + 1 ==> {
                let x = w2.routes.last();
                &&& read_text(w.frames, "gateway"@) == Some(x.gateway)
                &&& read_text(w.frames, "namespace"@) == Some(x.namespace)
                &&& read_text(w.frames, "entrypoint"@) == Some(x.entrypoint)
                &&& x.kind == r.kind
                &&& x.service == r.target.service.text@
                &&& x.port == r.target.port
                &&& x.hostname == (if r.kind == RouteKind::HTTP {
                    r.hostname.text@
                } else {
                    Seq::<char>::empty()
                })
                &&& x.name == match read_frames(w.frames, "name"@) {
                    Some(v) => value_text(v)->0,
                    None => first_label(r.hostname.text@),
                }
                &&& w2.issues == w.issues
            }
        },
{
    if describe_spec(w, r) is Some {
        let w2 = describe_spec(w, r)->0;
        assert(w2.routes.subrange(0, w.routes.len() as int) =~= w.routes);
    }
}

/// Evaluating a route: its properties, then its description.
pub open spec fn route_spec(w: WalkV, r: Route) -> Option<WalkV> {
    match properties_spec(w, r.properties.body@) {
        None => None,
        Some(w1) => describe_spec(w1, r),
    }
}

/// Evaluating one statement of a block.
pub open spec fn stmt_spec(w: WalkV, s: Statement) -> Option<WalkV> {
    match s {
        Statement::Assign(a) => bind_spec(w, a.identifier.text@, a.value),
        Statement::Var(v) => bind_spec(w, v.root.name.text@, v.value),
        Statement::Route(r) => route_spec(w, r),
    }
}

/// Evaluating statements one after the other.
pub open spec fn stmts_spec(w: WalkV, ss: Seq<Statement>) -> Option<WalkV>
    decreases ss.len(),
{
    if ss.len() == 0 {
        Some(w)
    } else {
        match stmts_spec(w, ss.drop_last()) {
            None => None,
            Some(w1) => stmt_spec(w1, ss.last()),
        }
    }
}

/// Leaving the current scope, where there is one around it.
pub open spec fn leave_frames(fs: FramesV) -> FramesV {
    if fs.len() > 1 {
        fs.drop_first()
    } else {
        fs
    }
}

/// Evaluating a block: in a new scope unless it inherits the current one;
/// the current scope is left at its end.
pub open spec fn block_spec(w: WalkV, b: Block, inherit: bool) -> Option<WalkV> {
    let w0 = if inherit {
        w
    } else {
        WalkV { frames: seq![Seq::empty()] + w.frames, ..w }
    };
    match stmts_spec(w0, b.body@) {
        None => None,
        Some(w1) => Some(WalkV { frames: leave_frames(w1.frames), ..w1 }),
    }
}

proof fn lemma_position_view(f: Seq<(Seq<char>, Value)>, k: Seq<char>, i: int)
    ensures
        position(frame_view(f), k, i) == position(f, k, i),
    decreases f.len() - i,
{
    if 0 <= i < f.len() {
        lemma_position_view(f, k, i + 1);
    }
}

/// Reading through the views reads the view of what is bound.
proof fn lemma_read_view(fs: Seq<Seq<(Seq<char>, Value)>>, k: Seq<char>)
    ensures
        read_frames(frames_view(fs), k) == match read_frames(fs, k) {
            Some(v) => Some(v@),
            None => None::<ValueV>,
        },
    decreases fs.len(),
{
    if fs.len() > 0 {
        let vs = frames_view(fs);
        assert(vs[0] == frame_view(fs[0]));
        lemma_position_view(fs[0], k, 0);
        match position(fs[0], k, 0) {
            Some(i) => {
                crate::scope::lemma_position_found(fs[0], k, 0);
                assert(vs[0][i] == (fs[0][i].0, fs[0][i].1@));
            },
            None => {
                assert(vs.drop_first() =~= frames_view(fs.drop_first()));
                lemma_read_view(fs.drop_first(), k);
            },
        }
    }
}

proof fn lemma_binds_view(fs: Seq<Seq<(Seq<char>, Value)>>, k: Seq<char>)
    ensures
        binds(frames_view(fs), k) == binds(fs, k),
{
    let vs = frames_view(fs);
    if binds(fs, k) {
        let j = choose|j: int| 0 <= j < fs.len() && (#[trigger] position(fs[j], k, 0)) is Some;
        lemma_position_view(fs[j], k, 0);
        assert(vs[j] == frame_view(fs[j]));
        assert(0 <= j < vs.len() && (position(vs[j], k, 0)) is Some);
    }
    if binds(vs, k) {
        let j = choose|j: int| 0 <= j < vs.len() && (#[trigger] position(vs[j], k, 0)) is Some;
        lemma_position_view(fs[j], k, 0);
        assert(vs[j] == frame_view(fs[j]));
        assert(0 <= j < fs.len() && (position(fs[j], k, 0)) is Some);
    }
}

proof fn lemma_update_view(fs: Seq<Seq<(Seq<char>, Value)>>, k: Seq<char>, v: Value)
    ensures
        frames_view(update_frames(fs, k, v)) == update_frames(frames_view(fs), k, v@),
    decreases fs.len(),
{
    let vs = frames_view(fs);
    if fs.len() > 0 {
        assert(vs[0] == frame_view(fs[0]));
        lemma_position_view(fs[0], k, 0);
        match position(fs[0], k, 0) {
            Some(i) => {
                crate::scope::lemma_position_found(fs[0], k, 0);
                assert(frame_view(fs[0].update(i, (k, v))) =~= vs[0].update(i, (k, v@)));
                assert(frames_view(fs.update(0, fs[0].update(i, (k, v)))) =~= vs.update(
                    0,
                    vs[0].update(i, (k, v@)),
                ));
            },
            None => {
                lemma_update_view(fs.drop_first(), k, v);
                assert(vs.drop_first() =~= frames_view(fs.drop_first()));
                assert(frames_view(seq![fs[0]] + update_frames(fs.drop_first(), k, v)) =~= seq![
                    vs[0],
                ] + frames_view(update_frames(fs.drop_first(), k, v)));
            },
        }
    }
}

/// Assigning through the views assigns the view of the value.
proof fn lemma_write_view(fs: Seq<Seq<(Seq<char>, Value)>>, k: Seq<char>, v: Value)
    requires
        fs.len() > 0,
    ensures
        frames_view(write_frames(fs, k, v)) == write_frames(frames_view(fs), k, v@),
{
    let vs = frames_view(fs);
    lemma_binds_view(fs, k);
    if binds(fs, k) {
        lemma_update_view(fs, k, v);
    } else {
        assert(vs[0] == frame_view(fs[0]));
        assert(frame_view(fs[0].push((k, v))) =~= vs[0].push((k, v@)));
        assert(frames_view(fs.update(0, fs[0].push((k, v)))) =~= vs.update(0, vs[0].push((k, v@))));
    }
}

/// The scopes of a scope chain are never none.
proof fn lemma_frames_len(s: Scope<Value>)
    ensures
        frames(s).len() >= 1,
        frames(s).len() > 1 <==> s.up is Some,
    decreases s,
{
    match s.up {
        Some(b) => {
            lemma_frames_len(*b);
        },
        None => {},
    }
}

/// Reads a whole number.
///
/// Calls `str::parse::<i64>`; the contract claims what its documentation
/// states: an optional sign followed by decimal digits, whose value fits in
/// `i64`, is accepted and nothing else.
#[verifier::external_body]
fn parse_i64(text: &str) -> (r: Option<i64>)
    ensures
        r == parse_i64_spec(text@),
{
    text.parse::<i64>().ok()
}

/// The decimal notation of a number.
fn u64_string(n: u64) -> (r: String)
    ensures
        r@ == decimal_text(n as nat),
    decreases n,
{
    if n < 10 {
        String::from_str(crate::display::digit_str(n as usize))
    } else {
        let mut r = u64_string(n / 10);
        r.append(crate::display::digit_str((n % 10) as usize));
        proof {
            assert(decimal_text(n as nat) =~= decimal_text((n / 10) as nat) + seq![
                crate::display::digit_char((n % 10) as nat),
            ]);
        }
        r
    }
}

/// The decimal notation of an integer.
pub fn integer_string(n: i64) -> (r: String)
    ensures
        r@ == integer_text(n as int),
{
    if n < 0 {
        let m: u64 = if n == i64::MIN {
            9223372036854775808
        } else {
            (-n) as u64
        };
        let mut r = String::from_str("-");
        r.append(u64_string(m).as_str());
        proof {
            reveal_strlit("-");
            assert(r@ =~= integer_text(n as int));
        }
        r
    } else {
        u64_string(n as u64)
    }
}

impl Value {
    /// The text of a value: nil has none.
    pub fn to_string(&self) -> (r: Option<String>)
        ensures
            r is Some <==> value_text(self@) is Some,
            r matches Some(t) ==> value_text(self@) == Some(t@),
    {
        match self {
            Value::String(n) => Some(n.clone()),
            Value::Number(n) => Some(integer_string(*n)),
            Value::Bool(n) => if *n {
                Some(String::from_str("true"))
            } else {
                Some(String::from_str("false"))
            },
            Value::Nil => None,
        }
    }

    /// Whether the value counts as true: false and nil do not.
    pub fn truthy(&self) -> (r: bool)
        ensures
            r == match self@ {
                ValueV::Bool(b) => b,
                ValueV::Nil => false,
                _ => true,
            },
    {
        match self {
            Value::Bool(n) => *n == true,
            Value::Nil => false,
            _ => true,
        }
    }
}

/// A copy of a value.
fn copy_value(v: &Value) -> (r: Value)
    ensures
        r@ == v@,
{
    match v {
        Value::String(s) => Value::String(s.clone()),
        Value::Number(n) => Value::Number(*n),
        Value::Bool(b) => Value::Bool(*b),
        Value::Nil => Value::Nil,
    }
}

impl<'a> Statement<'a> {
    pub fn span(&self) -> (r: Span)
        ensures
            r == stmt_span(*self),
    {
        match self {
            Statement::Assign(n) => n.span,
            Statement::Var(n) => n.span,
            Statement::Route(n) => n.span,
        }
    }
}

impl<'a> Expression<'a> {
    pub fn span(&self) -> (r: Span)
        ensures
            r == match *self {
                Expression::Boolean(n) => n.span,
                Expression::Nil(n) => n.span,
                Expression::Number(n) => n.span,
                Expression::String(n) => n.span,
                Expression::Table(n) => n.span,
            },
    {
        match self {
            Expression::Boolean(node) | Expression::Nil(node) | Expression::Number(node)
            | Expression::String(node) => node.span,
            Expression::Table(node) => node.span,
        }
    }
}

/// Reports an issue.
fn throw(state: &mut ExecutionState, why: String, span: Span)
    ensures
        final(state)@ == (WalkV { issues: old(state)@.issues.push((why@, span)), ..old(state)@ }),
{
    state.issues.push(Issue { why, span });
    proof {
        assert(state@.issues =~= old(state)@.issues.push((why@, span)));
    }
}

/// The value `var` is bound to in the innermost scope that binds it.
fn read_variable(state: &ExecutionState, var: &str) -> (r: Option<Value>)
    ensures
        match read_frames(state@.frames, var@) {
            Some(v) => r matches Some(x) && x@ == v,
            None => r is None,
        },
{
    proof {
        lemma_read_view(frames(state.scope), var@);
    }
    match state.scope.read_variable(var) {
        Some(v) => Some(copy_value(v)),
        None => None,
    }
}

/// Assigns `new` to `var`.
fn write_variable(state: &mut ExecutionState, var: String, new: Value)
    ensures
        final(state)@ == (WalkV { frames: write_frames(old(state)@.frames, var@, new@), ..old(state)@ }),
{
    proof {
        lemma_frames_len(state.scope);
        lemma_write_view(frames(state.scope), var@, new);
    }
    let ghost k = var@;
    let ghost v = new@;
    state.scope.write_variable(var, new);
    proof {
        assert(state@.issues =~= old(state)@.issues);
        assert(state@.routes =~= old(state)@.routes);
    }
}

/// The value of an expression; `None` where evaluating it aborts.
fn evaluate_expression(expression: &Expression) -> (r: Option<Value>)
    ensures
        match eval_spec(*expression) {
            Some(v) => r matches Some(x) && x@ == v,
            None => r is None,
        },
{
    match expression {
        Expression::Boolean(node) => Some(
            Value::Bool(String::from_str(node.token.text) == String::from_str("true")),
        ),
        Expression::Nil(_) => Some(Value::Nil),
        Expression::Number(node) => match parse_i64(node.token.text) {
            Some(n) => Some(Value::Number(n)),
            None => None,
        },
        Expression::String(node) => Some(Value::String(String::from_str(node.token.text))),
        Expression::Table(_) => None,
    }
}

/// Binds `name` to the value of `value`; false where that aborts.
fn bind(state: &mut ExecutionState, name: &str, value: &Expression) -> (ok: bool)
    ensures
        ok == bind_spec(old(state)@, name@, *value) is Some,
        ok ==> Some(final(state)@) == bind_spec(old(state)@, name@, *value),
{
    let value = match evaluate_expression(value) {
        Some(v) => v,
        None => return false,
    };
    write_variable(state, String::from_str(name), value);
    true
}

/// An assignment binds its name; false where evaluating it aborts.
fn visit_stat_assign(state: &mut ExecutionState, assign: &Assign) -> (ok: bool)
    ensures
        ok == stmt_spec(old(state)@, Statement::Assign(*assign)) is Some,
        ok ==> Some(final(state)@) == stmt_spec(old(state)@, Statement::Assign(*assign)),
{
    bind(state, assign.identifier.text, &assign.value)
}

/// A `let` statement binds its name; false where evaluating it aborts.
fn visit_stat_var(state: &mut ExecutionState, var: &LetStatement) -> (ok: bool)
    ensures
        ok == stmt_spec(old(state)@, Statement::Var(*var)) is Some,
        ok ==> Some(final(state)@) == stmt_spec(old(state)@, Statement::Var(*var)),
{
    bind(state, var.root.name.text, &var.value)
}

/// The service a target names, and its port.
fn visit_service_target(target: &ServiceTarget) -> (r: (String, usize))
    ensures
        r.0@ == target.service.text@,
        r.1 == target.port,
{
    let service = String::from_str(target.service.text);
    let port = target.port;

    (service, port)
}

/// Evaluates a route's properties: each assignment binds, any other
/// statement is reported; false where evaluating aborts.
fn evaluate_route(state: &mut ExecutionState, block: &Block) -> (ok: bool)
    ensures
        ok == properties_spec(old(state)@, block.body@) is Some,
        ok ==> Some(final(state)@) == properties_spec(old(state)@, block.body@),
{
    let ghost w0 = state@;
    let mut i: usize = 0;
    proof {
        assert(block.body@.subrange(0, 0) =~= Seq::<Statement>::empty());
    }
    while i < block.body.len()
        invariant
            i <= block.body@.len(),
            w0 == old(state)@,
            properties_spec(w0, block.body@.subrange(0, i as int)) == Some(state@),
        decreases block.body.len() - i,
    {
        let ghost t = block.body@.subrange(0, i + 1);
        proof {
            assert(t.drop_last() =~= block.body@.subrange(0, i as int));
            assert(t.last() == block.body@[i as int]);
        }
        match &block.body[i] {
            Statement::Assign(node) => {
                if !bind(state, node.identifier.text, &node.value) {
                    proof {
                        assert(t.last() == Statement::Assign(*node));
                        assert(properties_spec(w0, t) is None);
                        lemma_properties_abort(w0, block.body@, i + 1);
                    }
                    return false;
                }
            },
            stat => {
                let span = stat.span();
                throw(state, String::from_str("expected assignment"), span);
                proof {
                    reveal_strlit("expected assignment");
                }
            },
        }
        i += 1;
    }
    proof {
        assert(block.body@.subrange(0, i as int) =~= block.body@);
    }
    true
}

/// Once a prefix of a route's properties aborts, all of them do.
proof fn lemma_properties_abort(w: WalkV, ss: Seq<Statement>, j: int)
    requires
        0 <= j <= ss.len(),
        properties_spec(w, ss.subrange(0, j)) is None,
    ensures
        properties_spec(w, ss) is None,
    decreases ss.len() - j,
{
    if j < ss.len() {
        let t = ss.subrange(0, j + 1);
        assert(t.drop_last() =~= ss.subrange(0, j));
        lemma_properties_abort(w, ss, j + 1);
    } else {
        assert(ss.subrange(0, j) =~= ss);
    }
}

/// Once a prefix of a block's statements aborts, all of them do.
proof fn lemma_stmts_abort(w: WalkV, ss: Seq<Statement>, j: int)
    requires
        0 <= j <= ss.len(),
        stmts_spec(w, ss.subrange(0, j)) is None,
    ensures
        stmts_spec(w, ss) is None,
    decreases ss.len() - j,
{
    if j < ss.len() {
        let t = ss.subrange(0, j + 1);
        assert(t.drop_last() =~= ss.subrange(0, j));
        lemma_stmts_abort(w, ss, j + 1);
    } else {
        assert(ss.subrange(0, j) =~= ss);
    }
}

/// The views of a list of names.
pub open spec fn names_view(names: Seq<&str>) -> Seq<Seq<char>> {
    Seq::new(names.len(), |i: int| names[i]@)
}

/// Reads the required properties: each one that no scope binds is
/// reported. Gives their values, in order, where all are bound.
#[verifier::spinoff_prover]
fn expect_props(state: &mut ExecutionState, names: &[&str], span: Span) -> (r: Option<Vec<(String, Value)>>)
    ensures
        final(state)@ == (WalkV { issues: old(state)@.issues + missing_issues(old(state)@.frames, names_view(names@), span), ..old(state)@ }),
        r is Some <==> missing_issues(old(state)@.frames, names_view(names@), span).len() == 0,
        r matches Some(p) ==> p@.len() == names@.len() && forall|i: int| 0 <= i < p@.len() ==> (#[trigger] p@[i]).0@ == names@[i]@ && read_frames(old(state)@.frames, names@[i]@) == Some(p@[i].1@),
{
    let ghost w0 = state@;
    let ghost nv = names_view(names@);
    let mut props: Vec<(String, Value)> = Vec::new();
    let mut result_ok = true;
    let mut i: usize = 0;
    proof {
        assert(nv.subrange(0, 0) =~= Seq::<Seq<char>>::empty());
        assert(w0.issues + Seq::<IssueV>::empty() =~= w0.issues);
    }
    while i < names.len()
        invariant
            i <= names@.len(),
            nv == names_view(names@),
            w0 == old(state)@,
            state@.frames == w0.frames,
            state@ == (WalkV { issues: w0.issues + missing_issues(w0.frames, nv.subrange(0, i as int), span), ..w0 }),
            result_ok == (missing_issues(w0.frames, nv.subrange(0, i as int), span).len() == 0),
            result_ok ==> props@.len() == i && forall|k: int| 0 <= k < i ==> (#[trigger] props@[k]).0@ == names@[k]@ && read_frames(w0.frames, names@[k]@) == Some(props@[k].1@),
        decreases names.len() - i,
    {
        let name = names[i];
        let ghost t = nv.subrange(0, i + 1);
        let ghost prev = missing_issues(w0.frames, nv.subrange(0, i as int), span);
        proof {
            assert(t.drop_last() =~= nv.subrange(0, i as int));
            assert(t.last() == name@);
        }
        match read_variable(state, name) {
            Some(value) => {
                let ghost old_props = props@;
                props.push((String::from_str(name), value));
                proof {
                    assert(names@[i as int] == name);
                    if result_ok {
                        assert forall|k: int| 0 <= k < i + 1 implies (#[trigger] props@[k]).0@ == names@[k]@ && read_frames(w0.frames, names@[k]@) == Some(props@[k].1@) by {
                            if k < i {
                                assert(props@[k] == old_props[k]);
                            }
                        }
                    }
                    assert(missing_issues(w0.frames, t, span) =~= prev + Seq::<IssueV>::empty());
                }
            },
            None => {
                let mut why = String::from_str("missing required property ");
                why.append(name);
                throw(state, why, span);
                proof {
                    assert(missing_issues(w0.frames, t, span) == prev + seq![("missing required property "@ + name@, span)]);
                    assert(state@.issues =~= w0.issues + missing_issues(w0.frames, t, span));
                }
                result_ok = false;
            },
        }
        i += 1;
    }
    proof {
        assert(nv.subrange(0, i as int) =~= nv);
    }
    if result_ok {
        proof {
            assert(props@.len() == names@.len());
            assert forall|k: int| 0 <= k < props@.len() implies (#[trigger] props@[k]).0@ == names@[k]@ && read_frames(old(state)@.frames, names@[k]@) == Some(props@[k].1@) by {
                assert(props@[k] == props@[k]);
            }
        }
        Some(props)
    } else {
        None
    }
}

/// Evaluates a route: its properties in the current scope, then, where the
/// required ones are bound, its description; false where evaluating aborts.
#[verifier::spinoff_prover]
fn visit_stat_route(state: &mut ExecutionState, route: &Route) -> (ok: bool)
    ensures
        ok == route_spec(old(state)@, *route) is Some,
        ok ==> Some(final(state)@) == route_spec(old(state)@, *route),
{
    if !evaluate_route(state, &route.properties) {
        return false;
    }
    let ghost w1 = state@;
    let names: &[&str] = &["gateway", "namespace", "entrypoint"];
    proof {
        assert(names_view(names@) =~= required_names());
    }
    let props = match expect_props(state, names, route.span) {
        Some(p) => p,
        None => return true,
    };
    proof {
        assert(state@ == w1) by {
            assert(state@.issues =~= w1.issues);
        }
        assert(names@[0] == "gateway");
        assert(names@[1] == "namespace");
        assert(names@[2] == "entrypoint");
        assert(read_frames(w1.frames, "gateway"@) == Some(props@[0].1@));
        assert(read_frames(w1.frames, "namespace"@) == Some(props@[1].1@));
        assert(read_frames(w1.frames, "entrypoint"@) == Some(props@[2].1@));
        assert(properties_spec(old(state)@, route.properties.body@) == Some(w1));
    }
    let name: String = match read_variable(state, "name") {
        Some(n) => match n.to_string() {
            Some(v) => v,
            None => {
                throw(state, String::from_str("no name for route definition"), route.span);
                return true;
            },
        },
        None => first_label_of(route.hostname.text),
    };
    let (service, port) = visit_service_target(&route.target);
    let gateway = match props[0].1.to_string() {
        Some(v) => v,
        None => return false,
    };
    let namespace = match props[1].1.to_string() {
        Some(v) => v,
        None => return false,
    };
    let entrypoint = match props[2].1.to_string() {
        Some(v) => v,
        None => return false,
    };
    let ghost before = state@;
    match route.kind {
        RouteKind::HTTP => {
            let result = HTTPRoute {
                name,
                gateway,
                namespace,
                entrypoint,
                hostname: String::from_str(route.hostname.text),
                service,
                port,
            };
            state.routes.push(RouteResult::HTTP(result));
        },
        RouteKind::TCP => {
            let result = TCPRoute { name, gateway, namespace, entrypoint, service, port };
            state.routes.push(RouteResult::TCP(result));
        },
    }
    proof {
        assert(state@.routes =~= before.routes.push(state.routes@.last()@));
        assert(state@.issues =~= before.issues);
    }
    true
}

/// Evaluates a block: in a new scope unless it inherits the current one,
/// leaving the current scope at its end; false where evaluating aborts.
#[verifier::spinoff_prover]
fn visit_block(state: &mut ExecutionState, block: &Block, inherit: bool) -> (ok: bool)
    ensures
        ok == block_spec(old(state)@, *block, inherit) is Some,
        ok ==> Some(final(state)@) == block_spec(old(state)@, *block, inherit),
{
    if inherit != true {
        state.scope.enter();
        proof {
            assert(state@.frames =~= seq![Seq::<(Seq<char>, ValueV)>::empty()] + old(state)@.frames) by {
                assert(frame_view(Seq::<(Seq<char>, Value)>::empty()) =~= Seq::<(Seq<char>, ValueV)>::empty());
                assert(frames_view(seq![Seq::<(Seq<char>, Value)>::empty()] + frames(old(state).scope))[0] =~= Seq::<(Seq<char>, ValueV)>::empty());
            }
        }
    }
    let ghost w0 = state@;
    proof {
        assert(w0.issues =~= old(state)@.issues);
        assert(w0.routes =~= old(state)@.routes);
        assert(block.body@.subrange(0, 0) =~= Seq::<Statement>::empty());
    }
    let mut i: usize = 0;
    proof {
        assert(w0 == (if inherit {
            old(state)@
        } else {
            WalkV { frames: seq![Seq::empty()] + old(state)@.frames, ..old(state)@ }
        }));
    }
    while i < block.body.len()
        invariant
            i <= block.body@.len(),
            w0 == (if inherit {
                old(state)@
            } else {
                WalkV { frames: seq![Seq::empty()] + old(state)@.frames, ..old(state)@ }
            }),
            stmts_spec(w0, block.body@.subrange(0, i as int)) == Some(state@),
        decreases block.body.len() - i,
    {
        let ghost t = block.body@.subrange(0, i + 1);
        proof {
            assert(t.drop_last() =~= block.body@.subrange(0, i as int));
            assert(t.last() == block.body@[i as int]);
        }
        let ok = match &block.body[i] {
            Statement::Assign(node) => visit_stat_assign(state, node),
            Statement::Route(node) => visit_stat_route(state, node),
            Statement::Var(node) => visit_stat_var(state, node),
        };
        if !ok {
            proof {
                assert(stmts_spec(w0, t) is None);
                lemma_stmts_abort(w0, block.body@, i + 1);
            }
            return false;
        }
        i += 1;
    }
    proof {
        assert(block.body@.subrange(0, i as int) =~= block.body@);
        lemma_frames_len(state.scope);
    }
    let ghost before = state@;
    state.scope.leave();
    proof {
        if before.frames.len() > 1 {
            assert(state@.frames =~= before.frames.drop_first());
        }
        assert(state@.issues =~= before.issues);
        assert(state@.routes =~= before.routes);
    }
    true
}

/// A fresh evaluation: one empty scope, no issues, no routes.
pub fn create_state() -> (r: ExecutionState)
    ensures
        r@.frames == seq![Seq::<(Seq<char>, ValueV)>::empty()],
        r@.issues == Seq::<IssueV>::empty(),
        r@.routes == Seq::<RouteResultV>::empty(),
{
    let r = ExecutionState {
        globals: Vec::new(),
        scope: Scope::new_root(),
        issues: Vec::new(),
        routes: Vec::new(),
    };
    proof {
        assert(r@.frames =~= seq![Seq::<(Seq<char>, ValueV)>::empty()]) by {
            assert(r@.frames[0] =~= Seq::<(Seq<char>, ValueV)>::empty());
        }
        assert(r@.issues =~= Seq::<IssueV>::empty());
        assert(r@.routes =~= Seq::<RouteResultV>::empty());
    }
    r
}

/// The routes of the given kind, in order.
pub open spec fn kind_part(rs: Seq<RouteResultV>, k: RouteKind) -> Seq<RouteResultV>
    decreases rs.len(),
{
    if rs.len() == 0 {
        Seq::empty()
    } else {
        (if rs[0].kind == k {
            seq![rs[0]]
        } else {
            Seq::empty()
        }) + kind_part(rs.drop_first(), k)
    }
}

pub open spec fn http_routes_view(v: Seq<HTTPRoute>) -> Seq<RouteResultV> {
    Seq::new(v.len(), |i: int| RouteResult::HTTP(v[i])@)
}

pub open spec fn tcp_routes_view(v: Seq<TCPRoute>) -> Seq<RouteResultV> {
    Seq::new(v.len(), |i: int| RouteResult::TCP(v[i])@)
}

/// Evaluates a program from the given state: its issues where there are
/// any, else its HTTP and its TCP routes; `None` where evaluating aborts.
pub fn try_execute(state: ExecutionState, ast: &Ast) -> (r: Option<Result<ExecutionResult, Vec<Issue>>>)
    ensures
        match block_spec(state@, ast.block, false) {
            None => r is None,
            Some(w) => if w.issues.len() > 0 {
                r matches Some(Err(is)) && Seq::new(is@.len(), |i: int| (is@[i].why@, is@[i].span)) == w.issues
            } else {
                r matches Some(Ok(x)) && http_routes_view(x.http@) == kind_part(w.routes, RouteKind::HTTP)
                    && tcp_routes_view(x.tcp@) == kind_part(w.routes, RouteKind::TCP)
            },
        },
{
    let mut state = state;
    if !visit_block(&mut state, &ast.block, false) {
        return None;
    }
    if !state.issues.is_empty() {
        return Some(Err(state.issues));
    }
    let ghost all = state@.routes;
    let mut routes = state.routes;
    let mut http: Vec<HTTPRoute> = Vec::new();
    let mut tcp: Vec<TCPRoute> = Vec::new();
    proof {
        assert(http_routes_view(http@) =~= Seq::<RouteResultV>::empty());
        assert(tcp_routes_view(tcp@) =~= Seq::<RouteResultV>::empty());
    }
    while routes.len() > 0
        invariant
            kind_part(all, RouteKind::HTTP) =~= http_routes_view(http@) + kind_part(
                Seq::new(routes@.len(), |i: int| routes@[i]@),
                RouteKind::HTTP,
            ),
            kind_part(all, RouteKind::TCP) =~= tcp_routes_view(tcp@) + kind_part(
                Seq::new(routes@.len(), |i: int| routes@[i]@),
                RouteKind::TCP,
            ),
        decreases routes.len(),
    {
        let ghost rv = Seq::new(routes@.len(), |i: int| routes@[i]@);
        let route = routes.remove(0);
        proof {
            assert(Seq::new(routes@.len(), |i: int| routes@[i]@) =~= rv.drop_first());
            assert(rv[0] == route@);
        }
        match route {
            RouteResult::HTTP(node) => {
                let ghost h0 = http@;
                http.push(node);
                proof {
                    assert(http_routes_view(http@) =~= http_routes_view(h0) + seq![rv[0]]);
                }
            },
            RouteResult::TCP(node) => {
                let ghost t0 = tcp@;
                tcp.push(node);
                proof {
                    assert(tcp_routes_view(tcp@) =~= tcp_routes_view(t0) + seq![rv[0]]);
                }
            },
        }
    }
    proof {
        assert(Seq::new(routes@.len(), |i: int| routes@[i]@) =~= Seq::<RouteResultV>::empty());
    }
    Some(Ok(ExecutionResult { http, tcp }))
}

/// Evaluates a program from the given state: its issues where there are
/// any, else its HTTP and its TCP routes.
pub fn execute(state: ExecutionState, ast: &Ast) -> (r: Result<ExecutionResult, Vec<Issue>>)
    requires
        block_spec(state@, ast.block, false) is Some,
    ensures
        match block_spec(state@, ast.block, false) {
            None => false,
            Some(w) => if w.issues.len() > 0 {
                r matches Err(is) && Seq::new(is@.len(), |i: int| (is@[i].why@, is@[i].span)) == w.issues
            } else {
                r matches Ok(x) && http_routes_view(x.http@) == kind_part(w.routes, RouteKind::HTTP)
                    && tcp_routes_view(x.tcp@) == kind_part(w.routes, RouteKind::TCP)
            },
        },
{
    match try_execute(state, ast) {
        Some(r) => r,
        None => {
            proof {
                assert(false);
            }
            Err(Vec::new())
        },
    }
}

} // verus!
