//! Structural comparison of two syntax trees, collecting what differs.
use vstd::prelude::*;
use crate::ast::{
    Assign, Ast, Block, Delimited, Expression, LetStatement, Route, RouteHTTP, RouteTCP,
    Separate, ServiceTarget, Statement, TableField, Token, VarRoot, VarSuffix, TokenV, ExprV,
    FieldV, TableFieldV, SuffixV, StmtV, RouteV, BlockV, ServiceTargetV, field_view,
    suffix_view, table_field_view, route_view,
};

verus! {

/// A node of a syntax tree that an issue points at.
#[derive(Debug, Clone, Copy)]
pub enum Node<'a> {
    Token(&'a Token),
    Expression(&'a Expression),
    Separated(&'a Separate<TableField>),
    TableField(&'a TableField),
    Suffix(&'a VarSuffix),
    ServiceTarget(&'a ServiceTarget),
    Route(&'a Route),
    Statement(&'a Statement),
}

/// What a node is, taken by its view.
pub enum NodeV {
    Token(TokenV),
    Expression(ExprV),
    Separated(FieldV),
    TableField(TableFieldV),
    Suffix(SuffixV),
    ServiceTarget(ServiceTargetV),
    Route(RouteV),
    Statement(StmtV),
}

impl<'a> View for Node<'a> {
    type V = NodeV;

    open spec fn view(&self) -> NodeV {
        match *self {
            Node::Token(t) => NodeV::Token(t@),
            Node::Expression(e) => NodeV::Expression(e@),
            Node::Separated(f) => NodeV::Separated(field_view(*f)),
            Node::TableField(f) => NodeV::TableField(table_field_view(*f)),
            Node::Suffix(x) => NodeV::Suffix(suffix_view(*x)),
            Node::ServiceTarget(t) => NodeV::ServiceTarget(t@),
            Node::Route(r) => NodeV::Route(route_view(*r)),
            Node::Statement(x) => NodeV::Statement(x@),
        }
    }
}

/// The view of a node that may be absent.
pub open spec fn opt_node(n: Option<Node>) -> Option<NodeV> {
    match n {
        Some(x) => Some(x@),
        None => None,
    }
}

/// One difference found between two trees: why, and the two nodes compared
/// (a node missing on one side is absent there).
#[derive(Debug, Clone, Copy)]
pub struct Issue<'a> {
    pub why: &'static str,
    pub a: Option<Node<'a>>,
    pub b: Option<Node<'a>>,
}

/// What an issue is: its reason and the views of its nodes.
pub struct IssueV {
    pub why: Seq<char>,
    pub a: Option<NodeV>,
    pub b: Option<NodeV>,
}

/// A comparison in progress: the differences found so far.
pub struct Compare<'a> {
    pub issues: Vec<Issue<'a>>,
}

/// The views of a list of issues.
pub open spec fn issues_view(v: Seq<Issue>) -> Seq<IssueV> {
    Seq::new(v.len(), |i: int| IssueV { why: v[i].why@, a: opt_node(v[i].a), b: opt_node(v[i].b) })
}

impl<'a> View for Compare<'a> {
    type V = Seq<IssueV>;

    open spec fn view(&self) -> Seq<IssueV> {
        issues_view(self.issues@)
    }
}

/// An issue between two nodes that are both present.
pub open spec fn found(why: Seq<char>, a: NodeV, b: NodeV) -> IssueV {
    IssueV { why, a: Some(a), b: Some(b) }
}

/// The issues two tokens give: one when their kinds differ, one when their
/// texts differ.
pub open spec fn token_issues(a: TokenV, b: TokenV) -> Seq<IssueV> {
    (if a.kind != b.kind {
        seq![found("mismatching kinds"@, NodeV::Token(a), NodeV::Token(b))]
    } else {
        Seq::empty()
    }) + (if a.text != b.text {
        seq![found("mismatching text"@, NodeV::Token(a), NodeV::Token(b))]
    } else {
        Seq::empty()
    })
}

/// Which variant an expression is.
pub open spec fn expr_kind(e: ExprV) -> int {
    match e {
        ExprV::Boolean(..) => 0,
        ExprV::Nil(..) => 1,
        ExprV::Number(..) => 2,
        ExprV::String(..) => 3,
        ExprV::Binary { .. } => 4,
        ExprV::Unary { .. } => 5,
        ExprV::Table { .. } => 6,
        ExprV::Var { .. } => 7,
        ExprV::Evaluate { .. } => 8,
    }
}

/// The issues two expressions give.
pub open spec fn expr_issues(a: ExprV, b: ExprV) -> Seq<IssueV>
    decreases a, 0nat,
{
    if expr_kind(a) != expr_kind(b) {
        seq![found("mismatching expressions"@, NodeV::Expression(a), NodeV::Expression(b))]
    } else {
        match a {
            ExprV::Boolean(ta, _) => match b {
                ExprV::Boolean(tb, _) => token_issues(ta, tb),
                _ => Seq::empty(),
            },
            ExprV::Nil(ta, _) => match b {
                ExprV::Nil(tb, _) => token_issues(ta, tb),
                _ => Seq::empty(),
            },
            ExprV::Number(ta, _) => match b {
                ExprV::Number(tb, _) => token_issues(ta, tb),
                _ => Seq::empty(),
            },
            ExprV::String(ta, _) => match b {
                ExprV::String(tb, _) => token_issues(ta, tb),
                _ => Seq::empty(),
            },
            ExprV::Binary { left, operator, right, .. } => match b {
                ExprV::Binary { left: lb, operator: ob, right: rb, .. } => expr_issues(*left, *lb)
                    + token_issues(operator, ob) + expr_issues(*right, *rb),
                _ => Seq::empty(),
            },
            ExprV::Unary { operator, value, .. } => match b {
                ExprV::Unary { operator: ob, value: vb, .. } => token_issues(operator, ob)
                    + expr_issues(*value, *vb),
                _ => Seq::empty(),
            },
            ExprV::Table { fields, .. } => match b {
                ExprV::Table { fields: fb, .. } => separated_issues(fields, fb, 0),
                _ => Seq::empty(),
            },
            ExprV::Var { root, suffixes, .. } => match b {
                ExprV::Var { root: rb, suffixes: sb, .. } => token_issues(root, rb)
                    + suffix_list_issues(suffixes, sb, 0),
                _ => Seq::empty(),
            },
            ExprV::Evaluate { value, .. } => match b {
                ExprV::Evaluate { value: vb, .. } => expr_issues(*value, *vb),
                _ => Seq::empty(),
            },
        }
    }
}

/// The larger of two lengths.
pub open spec fn max_len(a: int, b: int) -> int {
    if a < b {
        b
    } else {
        a
    }
}

/// The smaller of two lengths.
pub open spec fn min_len(a: int, b: int) -> int {
    if a < b {
        a
    } else {
        b
    }
}

/// The issues of two lists of table fields from position `i` on: a field
/// present in one list only is missing; a pair in which either lacks its
/// separator ends the comparison.
pub open spec fn separated_issues(a: Seq<FieldV>, b: Seq<FieldV>, i: int) -> Seq<IssueV>
    decreases a, max_len(a.len() as int, b.len() as int) - i,
{
    if i < 0 || i >= max_len(a.len() as int, b.len() as int) {
        Seq::empty()
    } else if i < a.len() && i < b.len() {
        if a[i].separator is None || b[i].separator is None {
            seq![found("missing separator"@, NodeV::Separated(a[i]), NodeV::Separated(b[i]))]
        } else {
            separated_item_issues(a[i], b[i]) + separated_issues(a, b, i + 1)
        }
    } else {
        seq![
            IssueV {
                why: "missing separated"@,
                a: if i < a.len() {
                    Some(NodeV::Separated(a[i]))
                } else {
                    None
                },
                b: if i < b.len() {
                    Some(NodeV::Separated(b[i]))
                } else {
                    None
                },
            },
        ] + separated_issues(a, b, i + 1)
    }
}

/// The issues of two table fields taken with their separators.
pub open spec fn separated_item_issues(a: FieldV, b: FieldV) -> Seq<IssueV>
    decreases a, 0nat,
{
    table_field_issues(a.field, b.field)
}

/// The issues of two table fields.
pub open spec fn table_field_issues(a: TableFieldV, b: TableFieldV) -> Seq<IssueV>
    decreases a, 0nat,
{
    match a {
        TableFieldV::NameKey { name, value, .. } => match b {
            TableFieldV::NameKey { name: nb, value: vb, .. } => token_issues(name, nb)
                + expr_issues(value, vb),
            _ => seq![found("mismatching tables"@, NodeV::TableField(a), NodeV::TableField(b))],
        },
        TableFieldV::NoKey { value, .. } => match b {
            TableFieldV::NoKey { value: vb, .. } => expr_issues(value, vb),
            _ => seq![found("mismatching tables"@, NodeV::TableField(a), NodeV::TableField(b))],
        },
    }
}

/// The issues of the suffixes of two variables from position `i` on, pair
/// by pair as far as the shorter list goes.
pub open spec fn suffix_list_issues(a: Seq<SuffixV>, b: Seq<SuffixV>, i: int) -> Seq<IssueV>
    decreases a, min_len(a.len() as int, b.len() as int) - i,
{
    if i < 0 || i >= min_len(a.len() as int, b.len() as int) {
        Seq::empty()
    } else {
        suffix_issues(a[i], b[i]) + suffix_list_issues(a, b, i + 1)
    }
}

/// The issues of two variable suffixes.
pub open spec fn suffix_issues(a: SuffixV, b: SuffixV) -> Seq<IssueV>
    decreases a, 0nat,
{
    match a {
        SuffixV::ExpressionIndex { value, .. } => match b {
            SuffixV::ExpressionIndex { value: vb, .. } => expr_issues(value, vb),
            _ => seq![found("mismatching varsuffixes"@, NodeV::Suffix(a), NodeV::Suffix(b))],
        },
        SuffixV::NameIndex { name, .. } => match b {
            SuffixV::NameIndex { name: nb, .. } => token_issues(name, nb),
            _ => seq![found("mismatching varsuffixes"@, NodeV::Suffix(a), NodeV::Suffix(b))],
        },
    }
}

/// The issues of two service targets: their services, and their ports.
pub open spec fn target_issues(a: ServiceTargetV, b: ServiceTargetV) -> Seq<IssueV> {
    token_issues(a.service, b.service) + if a.port != b.port {
        seq![found("mismatched service target ports"@, NodeV::ServiceTarget(a), NodeV::ServiceTarget(b))]
    } else {
        Seq::empty()
    }
}

/// The issues of two statements.
pub open spec fn stmt_issues(a: StmtV, b: StmtV) -> Seq<IssueV>
    decreases a, 0nat,
{
    match a {
        StmtV::Assign { identifier, .. } => match b {
            StmtV::Assign { identifier: ib, .. } => token_issues(identifier, ib),
            _ => seq![found("mismatching statements"@, NodeV::Statement(a), NodeV::Statement(b))],
        },
        StmtV::Let { name, value, .. } => match b {
            StmtV::Let { name: nb, value: vb, .. } => token_issues(name, nb) + expr_issues(
                value,
                vb,
            ),
            _ => seq![found("mismatching statements"@, NodeV::Statement(a), NodeV::Statement(b))],
        },
        StmtV::Route(ra) => match b {
            StmtV::Route(rb) => route_issues(ra, rb),
            _ => seq![found("mismatching statements"@, NodeV::Statement(a), NodeV::Statement(b))],
        },
    }
}

/// The issues of two routes.
pub open spec fn route_issues(a: RouteV, b: RouteV) -> Seq<IssueV>
    decreases a, 0nat,
{
    match a {
        RouteV::HTTP { hostname, target, properties, .. } => match b {
            RouteV::HTTP { hostname: hb, target: tb, properties: pb, .. } => token_issues(
                hostname,
                hb,
            ) + target_issues(target, tb) + block_issues(properties, pb),
            _ => seq![found("mismatched routes"@, NodeV::Route(a), NodeV::Route(b))],
        },
        RouteV::TCP { target, properties, .. } => match b {
            RouteV::TCP { target: tb, properties: pb, .. } => target_issues(target, tb)
                + block_issues(properties, pb),
            _ => seq![found("mismatched routes"@, NodeV::Route(a), NodeV::Route(b))],
        },
    }
}

/// The issues of two blocks.
pub open spec fn block_issues(a: BlockV, b: BlockV) -> Seq<IssueV>
    decreases a, 0nat,
{
    stmt_list_issues(a.body, b.body, 0)
}

/// The issues of two lists of statements from position `i` on: a statement
/// present in one list only is missing.
pub open spec fn stmt_list_issues(a: Seq<StmtV>, b: Seq<StmtV>, i: int) -> Seq<IssueV>
    decreases a, max_len(a.len() as int, b.len() as int) - i,
{
    if i < 0 || i >= max_len(a.len() as int, b.len() as int) {
        Seq::empty()
    } else if i < a.len() && i < b.len() {
        stmt_issues(a[i], b[i]) + stmt_list_issues(a, b, i + 1)
    } else {
        seq![
            IssueV {
                why: "missing statement"@,
                a: if i < a.len() {
                    Some(NodeV::Statement(a[i]))
                } else {
                    None
                },
                b: if i < b.len() {
                    Some(NodeV::Statement(b[i]))
                } else {
                    None
                },
            },
        ] + stmt_list_issues(a, b, i + 1)
    }
}

/// Every table field in the expression has its separator.
pub open spec fn expr_separated(e: ExprV) -> bool
    decreases e, 0nat,
{
    match e {
        ExprV::Binary { left, right, .. } => expr_separated(*left) && expr_separated(*right),
        ExprV::Unary { value, .. } => expr_separated(*value),
        ExprV::Table { fields, .. } => fields_separated(fields, 0),
        ExprV::Var { suffixes, .. } => suffixes_separated(suffixes, 0),
        ExprV::Evaluate { value, .. } => expr_separated(*value),
        _ => true,
    }
}

/// Every table field from position `i` on has its separator, and so do
/// the fields within them.
pub open spec fn fields_separated(fs: Seq<FieldV>, i: int) -> bool
    decreases fs, max_len(fs.len() as int, fs.len() as int) - i,
{
    if i < 0 || i >= fs.len() {
        true
    } else {
        fs[i].separator is Some && table_field_separated(fs[i].field) && fields_separated(fs, i + 1)
    }
}

/// Every table field within a table field's value has its separator.
pub open spec fn table_field_separated(f: TableFieldV) -> bool
    decreases f, 0nat,
{
    match f {
        TableFieldV::NameKey { value, .. } => expr_separated(value),
        TableFieldV::NoKey { value, .. } => expr_separated(value),
    }
}

/// Every table field within the suffixes from position `i` on has its
/// separator.
pub open spec fn suffixes_separated(ss: Seq<SuffixV>, i: int) -> bool
    decreases ss, min_len(ss.len() as int, ss.len() as int) - i,
{
    if i < 0 || i >= ss.len() {
        true
    } else {
        suffix_separated(ss[i]) && suffixes_separated(ss, i + 1)
    }
}

/// Every table field within a suffix has its separator.
pub open spec fn suffix_separated(x: SuffixV) -> bool
    decreases x, 0nat,
{
    match x {
        SuffixV::ExpressionIndex { value, .. } => expr_separated(value),
        SuffixV::NameIndex { .. } => true,
    }
}

/// Every table field within a statement has its separator.
pub open spec fn stmt_separated(x: StmtV) -> bool
    decreases x, 0nat,
{
    match x {
        StmtV::Assign { .. } => true,
        StmtV::Let { value, .. } => expr_separated(value),
        StmtV::Route(r) => route_separated(r),
    }
}

/// Every table field within a route's properties has its separator.
pub open spec fn route_separated(r: RouteV) -> bool
    decreases r, 0nat,
{
    match r {
        RouteV::HTTP { properties, .. } => block_separated(properties),
        RouteV::TCP { properties, .. } => block_separated(properties),
    }
}

/// Every table field within a block has its separator.
pub open spec fn block_separated(b: BlockV) -> bool
    decreases b, 0nat,
{
    stmts_separated(b.body, 0)
}

/// Every table field within the statements from position `i` on has its
/// separator.
pub open spec fn stmts_separated(ss: Seq<StmtV>, i: int) -> bool
    decreases ss, max_len(ss.len() as int, ss.len() as int) - i,
{
    if i < 0 || i >= ss.len() {
        true
    } else {
        stmt_separated(ss[i]) && stmts_separated(ss, i + 1)
    }
}

/// The issue is a missing separator, found on one table field compared
/// with itself that has no separator.
pub open spec fn is_self_separator_issue(x: IssueV) -> bool {
    &&& x.why == "missing separator"@
    &&& x.a matches Some(NodeV::Separated(f)) && f.separator is None
    &&& x.a == x.b
}

/// Every issue in the list is a missing separator, found on one table
/// field compared with itself that has no separator.
pub open spec fn only_missing_separators(v: Seq<IssueV>) -> bool {
    forall|k: int| 0 <= k < v.len() ==> is_self_separator_issue(#[trigger] v[k])
}

proof fn lemma_only_concat(a: Seq<IssueV>, b: Seq<IssueV>)
    requires
        only_missing_separators(a),
        only_missing_separators(b),
    ensures
        only_missing_separators(a + b),
{
    assert forall|k: int| 0 <= k < (a + b).len() implies is_self_separator_issue(#[trigger] (a + b)[k]) by {
        if k < a.len() {
            assert((a + b)[k] == a[k]);
        } else {
            assert((a + b)[k] == b[k - a.len()]);
        }
    }
}

proof fn lemma_token_self(t: TokenV)
    ensures
        token_issues(t, t) == Seq::<IssueV>::empty(),
{
    assert(token_issues(t, t) =~= Seq::<IssueV>::empty());
}

/// An expression compared with itself gives no issue but missing separators.
pub proof fn lemma_expr_issues_self(e: ExprV)
    ensures
        only_missing_separators(expr_issues(e, e)),
        expr_separated(e) ==> expr_issues(e, e) == Seq::<IssueV>::empty(),
    decreases e, 0nat,
{
    match e {
        ExprV::Boolean(t, _) => lemma_token_self(t),
        ExprV::Nil(t, _) => lemma_token_self(t),
        ExprV::Number(t, _) => lemma_token_self(t),
        ExprV::String(t, _) => lemma_token_self(t),
        ExprV::Binary { left, operator, right, .. } => {
            lemma_expr_issues_self(*left);
            lemma_token_self(operator);
            lemma_expr_issues_self(*right);
            lemma_only_concat(expr_issues(*left, *left), token_issues(operator, operator));
            lemma_only_concat(
                expr_issues(*left, *left) + token_issues(operator, operator),
                expr_issues(*right, *right),
            );
        },
        ExprV::Unary { operator, value, .. } => {
            lemma_token_self(operator);
            lemma_expr_issues_self(*value);
            lemma_only_concat(token_issues(operator, operator), expr_issues(*value, *value));
        },
        ExprV::Table { fields, .. } => lemma_separated_issues_self(fields, 0),
        ExprV::Var { root, suffixes, .. } => {
            lemma_token_self(root);
            lemma_suffix_list_issues_self(suffixes, 0);
            lemma_only_concat(token_issues(root, root), suffix_list_issues(suffixes, suffixes, 0));
        },
        ExprV::Evaluate { value, .. } => lemma_expr_issues_self(*value),
    }
    if expr_separated(e) {
        assert(expr_issues(e, e) =~= Seq::<IssueV>::empty());
    }
}

proof fn lemma_separated_issues_self(fs: Seq<FieldV>, i: int)
    ensures
        only_missing_separators(separated_issues(fs, fs, i)),
        fields_separated(fs, i) ==> separated_issues(fs, fs, i) == Seq::<IssueV>::empty(),
    decreases fs, max_len(fs.len() as int, fs.len() as int) - i,
{
    if i < 0 || i >= fs.len() {
    } else if fs[i].separator is None {
    } else {
        lemma_separated_item_issues_self(fs[i]);
        lemma_separated_issues_self(fs, i + 1);
        lemma_only_concat(separated_item_issues(fs[i], fs[i]), separated_issues(fs, fs, i + 1));
    }
    if fields_separated(fs, i) {
        assert(separated_issues(fs, fs, i) =~= Seq::<IssueV>::empty());
    }
}

proof fn lemma_separated_item_issues_self(f: FieldV)
    ensures
        only_missing_separators(separated_item_issues(f, f)),
        table_field_separated(f.field) ==> separated_item_issues(f, f) == Seq::<IssueV>::empty(),
    decreases f, 0nat,
{
    lemma_table_field_issues_self(f.field);
    if table_field_separated(f.field) {
        assert(separated_item_issues(f, f) =~= Seq::<IssueV>::empty());
    }
}

proof fn lemma_table_field_issues_self(f: TableFieldV)
    ensures
        only_missing_separators(table_field_issues(f, f)),
        table_field_separated(f) ==> table_field_issues(f, f) == Seq::<IssueV>::empty(),
    decreases f, 0nat,
{
    match f {
        TableFieldV::NameKey { name, value, .. } => {
            lemma_token_self(name);
            lemma_expr_issues_self(value);
            lemma_only_concat(token_issues(name, name), expr_issues(value, value));
        },
        TableFieldV::NoKey { value, .. } => lemma_expr_issues_self(value),
    }
    if table_field_separated(f) {
        assert(table_field_issues(f, f) =~= Seq::<IssueV>::empty());
    }
}

proof fn lemma_suffix_list_issues_self(ss: Seq<SuffixV>, i: int)
    ensures
        only_missing_separators(suffix_list_issues(ss, ss, i)),
        suffixes_separated(ss, i) ==> suffix_list_issues(ss, ss, i) == Seq::<IssueV>::empty(),
    decreases ss, min_len(ss.len() as int, ss.len() as int) - i,
{
    if 0 <= i < ss.len() {
        lemma_suffix_issues_self(ss[i]);
        lemma_suffix_list_issues_self(ss, i + 1);
        lemma_only_concat(suffix_issues(ss[i], ss[i]), suffix_list_issues(ss, ss, i + 1));
    }
    if suffixes_separated(ss, i) {
        assert(suffix_list_issues(ss, ss, i) =~= Seq::<IssueV>::empty());
    }
}

proof fn lemma_suffix_issues_self(s: SuffixV)
    ensures
        only_missing_separators(suffix_issues(s, s)),
        suffix_separated(s) ==> suffix_issues(s, s) == Seq::<IssueV>::empty(),
    decreases s, 0nat,
{
    match s {
        SuffixV::ExpressionIndex { value, .. } => lemma_expr_issues_self(value),
        SuffixV::NameIndex { name, .. } => lemma_token_self(name),
    }
    if suffix_separated(s) {
        assert(suffix_issues(s, s) =~= Seq::<IssueV>::empty());
    }
}

/// A statement compared with itself gives no issue but missing separators.
pub proof fn lemma_stmt_issues_self(s: StmtV)
    ensures
        only_missing_separators(stmt_issues(s, s)),
        stmt_separated(s) ==> stmt_issues(s, s) == Seq::<IssueV>::empty(),
    decreases s, 0nat,
{
    match s {
        StmtV::Assign { identifier, .. } => lemma_token_self(identifier),
        StmtV::Let { name, value, .. } => {
            lemma_token_self(name);
            lemma_expr_issues_self(value);
            lemma_only_concat(token_issues(name, name), expr_issues(value, value));
        },
        StmtV::Route(r) => lemma_route_issues_self(r),
    }
    if stmt_separated(s) {
        assert(stmt_issues(s, s) =~= Seq::<IssueV>::empty());
    }
}

proof fn lemma_route_issues_self(r: RouteV)
    ensures
        only_missing_separators(route_issues(r, r)),
        route_separated(r) ==> route_issues(r, r) == Seq::<IssueV>::empty(),
    decreases r, 0nat,
{
    match r {
        RouteV::HTTP { hostname, target, properties, .. } => {
            lemma_token_self(hostname);
            lemma_token_self(target.service);
            assert(target_issues(target, target) =~= Seq::<IssueV>::empty());
            lemma_block_issues_self(properties);
            lemma_only_concat(token_issues(hostname, hostname), target_issues(target, target));
            lemma_only_concat(
                token_issues(hostname, hostname) + target_issues(target, target),
                block_issues(properties, properties),
            );
        },
        RouteV::TCP { target, properties, .. } => {
            lemma_token_self(target.service);
            assert(target_issues(target, target) =~= Seq::<IssueV>::empty());
            lemma_block_issues_self(properties);
            lemma_only_concat(target_issues(target, target), block_issues(properties, properties));
        },
    }
    if route_separated(r) {
        assert(route_issues(r, r) =~= Seq::<IssueV>::empty());
    }
}

/// A block compared with itself gives no issue but missing separators, each
/// on a table field that has no separator, and no issue at all when every
/// table field has its separator: the comparison reports no difference
/// where there is none.
pub proof fn lemma_block_issues_self(b: BlockV)
    ensures
        only_missing_separators(block_issues(b, b)),
        block_separated(b) ==> block_issues(b, b) == Seq::<IssueV>::empty(),
    decreases b, 0nat,
{
    lemma_stmt_list_issues_self(b.body, 0);
    if block_separated(b) {
        assert(block_issues(b, b) =~= Seq::<IssueV>::empty());
    }
}

proof fn lemma_stmt_list_issues_self(ss: Seq<StmtV>, i: int)
    ensures
        only_missing_separators(stmt_list_issues(ss, ss, i)),
        stmts_separated(ss, i) ==> stmt_list_issues(ss, ss, i) == Seq::<IssueV>::empty(),
    decreases ss, max_len(ss.len() as int, ss.len() as int) - i,
{
    if 0 <= i < ss.len() {
        lemma_stmt_issues_self(ss[i]);
        lemma_stmt_list_issues_self(ss, i + 1);
        lemma_only_concat(stmt_issues(ss[i], ss[i]), stmt_list_issues(ss, ss, i + 1));
    }
    if stmts_separated(ss, i) {
        assert(stmt_list_issues(ss, ss, i) =~= Seq::<IssueV>::empty());
    }
}

/// Two tokens of the same kind and text, wherever they stand.
pub open spec fn token_alike(a: TokenV, b: TokenV) -> bool {
    a.kind == b.kind && a.text == b.text
}

/// Two expressions of the same shape whose tokens are alike, wherever they
/// stand: tables have the same number of fields, each with its separator;
/// variables have alike roots and alike suffixes as far as the shorter list
/// of suffixes goes.
pub open spec fn expr_alike(a: ExprV, b: ExprV) -> bool
    decreases a, 0nat,
{
    match a {
        ExprV::Boolean(x, _) => b matches ExprV::Boolean(y, _) && token_alike(x, y),
        ExprV::Nil(x, _) => b matches ExprV::Nil(y, _) && token_alike(x, y),
        ExprV::Number(x, _) => b matches ExprV::Number(y, _) && token_alike(x, y),
        ExprV::String(x, _) => b matches ExprV::String(y, _) && token_alike(x, y),
        ExprV::Binary { left, operator, right, .. } => match b {
            ExprV::Binary { left: lb, operator: ob, right: rb, .. } => expr_alike(*left, *lb)
                && token_alike(operator, ob) && expr_alike(*right, *rb),
            _ => false,
        },
        ExprV::Unary { operator, value, .. } => match b {
            ExprV::Unary { operator: ob, value: vb, .. } => token_alike(operator, ob) && expr_alike(
                *value,
                *vb,
            ),
            _ => false,
        },
        ExprV::Table { fields, .. } => match b {
            ExprV::Table { fields: fb, .. } => fields.len() == fb.len() && fields_alike(
                fields,
                fb,
                0,
            ),
            _ => false,
        },
        ExprV::Var { root, suffixes, .. } => match b {
            ExprV::Var { root: rb, suffixes: sb, .. } => token_alike(root, rb) && suffixes_alike(
                suffixes,
                sb,
                0,
            ),
            _ => false,
        },
        ExprV::Evaluate { value, .. } => match b {
            ExprV::Evaluate { value: vb, .. } => expr_alike(*value, *vb),
            _ => false,
        },
    }
}

/// The table fields from position `i` on are alike pair by pair, each with
/// its separator.
pub open spec fn fields_alike(a: Seq<FieldV>, b: Seq<FieldV>, i: int) -> bool
    decreases a, max_len(a.len() as int, b.len() as int) - i,
{
    if i < 0 || i >= a.len() || i >= b.len() {
        true
    } else {
        a[i].separator is Some && b[i].separator is Some && table_field_alike(a[i].field, b[i].field)
            && fields_alike(a, b, i + 1)
    }
}

/// Two table fields of the same shape with alike names and values.
pub open spec fn table_field_alike(a: TableFieldV, b: TableFieldV) -> bool
    decreases a, 0nat,
{
    match a {
        TableFieldV::NameKey { name, value, .. } => match b {
            TableFieldV::NameKey { name: nb, value: vb, .. } => token_alike(name, nb) && expr_alike(
                value,
                vb,
            ),
            _ => false,
        },
        TableFieldV::NoKey { value, .. } => match b {
            TableFieldV::NoKey { value: vb, .. } => expr_alike(value, vb),
            _ => false,
        },
    }
}

/// The suffixes from position `i` on are alike pair by pair, as far as the
/// shorter list goes.
pub open spec fn suffixes_alike(a: Seq<SuffixV>, b: Seq<SuffixV>, i: int) -> bool
    decreases a, min_len(a.len() as int, b.len() as int) - i,
{
    if i < 0 || i >= a.len() || i >= b.len() {
        true
    } else {
        suffix_alike(a[i], b[i]) && suffixes_alike(a, b, i + 1)
    }
}

/// Two suffixes of the same shape with alike parts.
pub open spec fn suffix_alike(a: SuffixV, b: SuffixV) -> bool
    decreases a, 0nat,
{
    match a {
        SuffixV::ExpressionIndex { value, .. } => match b {
            SuffixV::ExpressionIndex { value: vb, .. } => expr_alike(value, vb),
            _ => false,
        },
        SuffixV::NameIndex { name, .. } => match b {
            SuffixV::NameIndex { name: nb, .. } => token_alike(name, nb),
            _ => false,
        },
    }
}

proof fn lemma_no_token_issues(a: TokenV, b: TokenV)
    requires
        token_issues(a, b).len() == 0,
    ensures
        token_alike(a, b),
{
}

/// Comparing two expressions reports nothing only when they are alike: of
/// the same shape, with tokens of the same kinds and texts (operators
/// included), wherever they stand.
pub proof fn lemma_no_issues_alike(a: ExprV, b: ExprV)
    requires
        expr_issues(a, b).len() == 0,
    ensures
        expr_alike(a, b),
    decreases a, 0nat,
{
    if expr_kind(a) == expr_kind(b) {
        match a {
            ExprV::Boolean(x, _) => lemma_no_token_issues(x, b->Boolean_0),
            ExprV::Nil(x, _) => lemma_no_token_issues(x, b->Nil_0),
            ExprV::Number(x, _) => lemma_no_token_issues(x, b->Number_0),
            ExprV::String(x, _) => lemma_no_token_issues(x, b->String_0),
            ExprV::Binary { left, operator, right, .. } => match b {
                ExprV::Binary { left: lb, operator: ob, right: rb, .. } => {
                    lemma_no_issues_alike(*left, *lb);
                    lemma_no_token_issues(operator, ob);
                    lemma_no_issues_alike(*right, *rb);
                },
                _ => {},
            },
            ExprV::Unary { operator, value, .. } => match b {
                ExprV::Unary { operator: ob, value: vb, .. } => {
                    lemma_no_token_issues(operator, ob);
                    lemma_no_issues_alike(*value, *vb);
                },
                _ => {},
            },
            ExprV::Table { fields, .. } => match b {
                ExprV::Table { fields: fb, .. } => lemma_no_field_issues(fields, fb, 0),
                _ => {},
            },
            ExprV::Var { root, suffixes, .. } => match b {
                ExprV::Var { root: rb, suffixes: sb, .. } => {
                    lemma_no_token_issues(root, rb);
                    lemma_no_suffix_issues(suffixes, sb, 0);
                },
                _ => {},
            },
            ExprV::Evaluate { value, .. } => match b {
                ExprV::Evaluate { value: vb, .. } => lemma_no_issues_alike(*value, *vb),
                _ => {},
            },
        }
    }
}

proof fn lemma_no_field_issues(a: Seq<FieldV>, b: Seq<FieldV>, i: int)
    requires
        0 <= i <= a.len(),
        i <= b.len(),
        separated_issues(a, b, i).len() == 0,
    ensures
        a.len() == b.len(),
        fields_alike(a, b, i),
    decreases a, max_len(a.len() as int, b.len() as int) - i,
{
    if i < a.len() && i < b.len() {
        if a[i].separator is Some && b[i].separator is Some {
            assert(separated_issues(a, b, i) == separated_item_issues(a[i], b[i]) + separated_issues(
                a,
                b,
                i + 1,
            ));
            lemma_no_table_field_issues(a[i].field, b[i].field);
            lemma_no_field_issues(a, b, i + 1);
        }
    }
}

proof fn lemma_no_table_field_issues(a: TableFieldV, b: TableFieldV)
    requires
        table_field_issues(a, b).len() == 0,
    ensures
        table_field_alike(a, b),
    decreases a, 0nat,
{
    match a {
        TableFieldV::NameKey { name, value, .. } => match b {
            TableFieldV::NameKey { name: nb, value: vb, .. } => {
                lemma_no_token_issues(name, nb);
                lemma_no_issues_alike(value, vb);
            },
            _ => {},
        },
        TableFieldV::NoKey { value, .. } => match b {
            TableFieldV::NoKey { value: vb, .. } => lemma_no_issues_alike(value, vb),
            _ => {},
        },
    }
}

proof fn lemma_no_suffix_issues(a: Seq<SuffixV>, b: Seq<SuffixV>, i: int)
    requires
        0 <= i,
        suffix_list_issues(a, b, i).len() == 0,
    ensures
        suffixes_alike(a, b, i),
    decreases a, min_len(a.len() as int, b.len() as int) - i,
{
    if i < a.len() && i < b.len() {
        assert(suffix_list_issues(a, b, i) == suffix_issues(a[i], b[i]) + suffix_list_issues(
            a,
            b,
            i + 1,
        ));
        assert(suffix_issues(a[i], b[i]).len() == 0);
        match a[i] {
            SuffixV::ExpressionIndex { value, .. } => match b[i] {
                SuffixV::ExpressionIndex { value: vb, .. } => lemma_no_issues_alike(value, vb),
                _ => {},
            },
            SuffixV::NameIndex { name, .. } => match b[i] {
                SuffixV::NameIndex { name: nb, .. } => lemma_no_token_issues(name, nb),
                _ => {},
            },
        }
        assert(suffix_alike(a[i], b[i]));
        lemma_no_suffix_issues(a, b, i + 1);
    }
}

/// Two statements of the same shape with alike parts, wherever they
/// stand: an assignment by the name it assigns, a `let` by its name and
/// value, a route by its host, target and properties.
pub open spec fn stmt_alike(a: StmtV, b: StmtV) -> bool
    decreases a, 0nat,
{
    match a {
        StmtV::Assign { identifier, .. } => b matches StmtV::Assign { identifier: ib, .. }
            && token_alike(identifier, ib),
        StmtV::Let { name, value, .. } => match b {
            StmtV::Let { name: nb, value: vb, .. } => token_alike(name, nb) && expr_alike(value, vb),
            _ => false,
        },
        StmtV::Route(ra) => match b {
            StmtV::Route(rb) => route_alike(ra, rb),
            _ => false,
        },
    }
}

/// Two routes of the same kind with alike hosts, targets and properties.
pub open spec fn route_alike(a: RouteV, b: RouteV) -> bool
    decreases a, 0nat,
{
    match a {
        RouteV::HTTP { hostname, target, properties, .. } => match b {
            RouteV::HTTP { hostname: hb, target: tb, properties: pb, .. } => token_alike(hostname, hb)
                && token_alike(target.service, tb.service) && target.port == tb.port && block_alike(
                properties,
                pb,
            ),
            _ => false,
        },
        RouteV::TCP { target, properties, .. } => match b {
            RouteV::TCP { target: tb, properties: pb, .. } => token_alike(target.service, tb.service)
                && target.port == tb.port && block_alike(properties, pb),
            _ => false,
        },
    }
}

/// Two blocks with as many statements, alike pair by pair.
pub open spec fn block_alike(a: BlockV, b: BlockV) -> bool
    decreases a, 0nat,
{
    a.body.len() == b.body.len() && stmts_alike(a.body, b.body, 0)
}

/// The statements from position `i` on are alike pair by pair.
pub open spec fn stmts_alike(a: Seq<StmtV>, b: Seq<StmtV>, i: int) -> bool
    decreases a, max_len(a.len() as int, b.len() as int) - i,
{
    if i < 0 || i >= a.len() || i >= b.len() {
        true
    } else {
        stmt_alike(a[i], b[i]) && stmts_alike(a, b, i + 1)
    }
}

/// Comparing two blocks reports nothing only when they are alike: as many
/// statements, of the same shapes, with alike names, values, hosts,
/// targets and properties, wherever they stand.
pub proof fn lemma_block_no_issues_alike(a: BlockV, b: BlockV)
    requires
        block_issues(a, b).len() == 0,
    ensures
        block_alike(a, b),
    decreases a, 0nat,
{
    lemma_stmts_no_issues_alike(a.body, b.body, 0);
}

proof fn lemma_stmts_no_issues_alike(a: Seq<StmtV>, b: Seq<StmtV>, i: int)
    requires
        0 <= i <= a.len(),
        i <= b.len(),
        stmt_list_issues(a, b, i).len() == 0,
    ensures
        a.len() == b.len(),
        stmts_alike(a, b, i),
    decreases a, max_len(a.len() as int, b.len() as int) - i,
{
    if i < a.len() && i < b.len() {
        assert(stmt_list_issues(a, b, i) == stmt_issues(a[i], b[i]) + stmt_list_issues(a, b, i + 1));
        lemma_stmt_no_issues_alike(a[i], b[i]);
        lemma_stmts_no_issues_alike(a, b, i + 1);
    }
}

proof fn lemma_stmt_no_issues_alike(a: StmtV, b: StmtV)
    requires
        stmt_issues(a, b).len() == 0,
    ensures
        stmt_alike(a, b),
    decreases a, 0nat,
{
    match a {
        StmtV::Assign { identifier, .. } => match b {
            StmtV::Assign { identifier: ib, .. } => lemma_no_token_issues(identifier, ib),
            _ => {},
        },
        StmtV::Let { name, value, .. } => match b {
            StmtV::Let { name: nb, value: vb, .. } => {
                lemma_no_token_issues(name, nb);
                lemma_no_issues_alike(value, vb);
            },
            _ => {},
        },
        StmtV::Route(ra) => match b {
            StmtV::Route(rb) => lemma_route_no_issues_alike(ra, rb),
            _ => {},
        },
    }
}

proof fn lemma_route_no_issues_alike(a: RouteV, b: RouteV)
    requires
        route_issues(a, b).len() == 0,
    ensures
        route_alike(a, b),
    decreases a, 0nat,
{
    match a {
        RouteV::HTTP { hostname, target, properties, .. } => match b {
            RouteV::HTTP { hostname: hb, target: tb, properties: pb, .. } => {
                lemma_no_token_issues(hostname, hb);
                lemma_no_token_issues(target.service, tb.service);
                lemma_block_no_issues_alike(properties, pb);
            },
            _ => {},
        },
        RouteV::TCP { target, properties, .. } => match b {
            RouteV::TCP { target: tb, properties: pb, .. } => {
                lemma_no_token_issues(target.service, tb.service);
                lemma_block_no_issues_alike(properties, pb);
            },
            _ => {},
        },
    }
}

/// The views of a list of table fields with their separators.
pub open spec fn separated_view(v: Seq<Separate<TableField>>) -> Seq<FieldV> {
    Seq::new(v.len(), |i: int| field_view(v[i]))
}

/// The views of the suffixes of a variable.
pub open spec fn suffixes_view(v: Seq<VarSuffix>) -> Seq<SuffixV> {
    Seq::new(v.len(), |i: int| suffix_view(v[i]))
}

/// Which variant an expression is.
fn expression_kind(e: &Expression) -> (r: u8)
    ensures
        r as int == expr_kind(e@),
{
    match e {
        Expression::Boolean(_) => 0,
        Expression::Nil(_) => 1,
        Expression::Number(_) => 2,
        Expression::String(_) => 3,
        Expression::Binary(_) => 4,
        Expression::Unary(_) => 5,
        Expression::Table(_) => 6,
        Expression::Var(_) => 7,
        Expression::Evaluate(_) => 8,
    }
}

impl<'a> Compare<'a> {
    /// Records an issue.
    pub fn throw(&mut self, why: &'static str, a: Option<Node<'a>>, b: Option<Node<'a>>)
        ensures
            final(self)@ == old(self)@.push(IssueV { why: why@, a: opt_node(a), b: opt_node(b) }),
    {
        self.issues.push(Issue { why, a, b });
        proof {
            assert(final(self)@ =~= old(self)@.push(IssueV { why: why@, a: opt_node(a), b: opt_node(b) }));
        }
    }

    /// Compares two tokens by kind and by text.
    pub fn compare_token(&mut self, a: &'a Token, b: &'a Token)
        ensures
            final(self)@ == old(self)@ + token_issues(a@, b@),
    {
        let ghost s0 = self@;
        if a.kind != b.kind {
            self.throw("mismatching kinds", Some(Node::Token(a)), Some(Node::Token(b)));
        }
        let ghost s1 = self@;
        if a.text != b.text {
            self.throw("mismatching text", Some(Node::Token(a)), Some(Node::Token(b)));
        }
        proof {
            assert(s1 =~= s0 + (if a.kind != b.kind {
                seq![found("mismatching kinds"@, NodeV::Token(a@), NodeV::Token(b@))]
            } else {
                Seq::<IssueV>::empty()
            }));
            assert(self@ =~= old(self)@ + token_issues(a@, b@));
        }
    }

    /// Compares the expressions between two pairs of delimiters.
    pub fn compare_delimited(&mut self, a: &'a Delimited<Expression>, b: &'a Delimited<Expression>)
        ensures
            final(self)@ == old(self)@ + expr_issues(a.value@, b.value@),
        decreases a,
    {
        self.compare_expression(&a.value, &b.value);
    }

    /// Compares two lists of table fields position by position.
    #[verifier::spinoff_prover]
    #[verifier::rlimit(40)]
    pub fn compare_separated(&mut self, a: &'a Vec<Separate<TableField>>, b: &'a Vec<Separate<TableField>>)
        ensures
            final(self)@ == old(self)@ + separated_issues(separated_view(a@), separated_view(b@), 0),
        decreases a,
    {
        let ghost fa = separated_view(a@);
        let ghost fb = separated_view(b@);
        let total = if a.len() < b.len() {
            b.len()
        } else {
            a.len()
        };
        let mut i: usize = 0;
        while i < total
            invariant
                i <= total,
                total == max_len(a@.len() as int, b@.len() as int),
                fa == separated_view(a@),
                fb == separated_view(b@),
                old(self)@ + separated_issues(fa, fb, 0) =~= self@ + separated_issues(fa, fb, i as int),
            decreases total - i,
        {
            let ghost s0 = self@;
            if i < a.len() && i < b.len() {
                let x = &a[i];
                let y = &b[i];
                if x.separator.is_none() || y.separator.is_none() {
                    proof {
                        assert(fa[i as int] == field_view(a@[i as int]));
                        assert(fb[i as int] == field_view(b@[i as int]));
                    }
                    self.throw("missing separator", Some(Node::Separated(x)), Some(Node::Separated(y)));
                    proof {
                        assert(s0 + separated_issues(fa, fb, i as int) =~= self@);
                    }
                    return;
                }
                proof {
                    assert(fa[i as int] == field_view(a@[i as int]));
                    assert(fb[i as int] == field_view(b@[i as int]));
                }
                self.compare_tablefield(&x.value, &y.value);
                proof {
                    assert(separated_item_issues(fa[i as int], fb[i as int]) == table_field_issues(table_field_view(x.value), table_field_view(y.value)));
                    assert(separated_issues(fa, fb, i as int) == separated_item_issues(fa[i as int], fb[i as int]) + separated_issues(fa, fb, i + 1));
                    assert(s0 + separated_issues(fa, fb, i as int) =~= self@ + separated_issues(fa, fb, i + 1));
                }
            } else {
                let x = if i < a.len() {
                    Some(Node::Separated(&a[i]))
                } else {
                    None
                };
                let y = if i < b.len() {
                    Some(Node::Separated(&b[i]))
                } else {
                    None
                };
                self.throw("missing separated", x, y);
                proof {
                    assert(s0 + separated_issues(fa, fb, i as int) =~= self@ + separated_issues(fa, fb, i + 1));
                }
            }
            i += 1;
        }
        proof {
            assert(self@ + separated_issues(fa, fb, i as int) =~= self@);
        }
    }

    /// Compares two table fields.
    #[verifier::spinoff_prover]
    #[verifier::rlimit(40)]
    pub fn compare_tablefield(&mut self, a: &'a TableField, b: &'a TableField)
        ensures
            final(self)@ == old(self)@ + table_field_issues(table_field_view(*a), table_field_view(*b)),
        decreases a,
    {
        let (whole_a, whole_b) = (a, b);
        match a {
            TableField::NameKey(a) => match b {
                TableField::NameKey(b) => {
                    let ghost s0 = self@;
                    self.compare_token(&a.name, &b.name);
                    self.compare_expression(&a.value, &b.value);
                    proof {
                        assert(self@ =~= s0 + (token_issues(a.name@, b.name@) + expr_issues(a.value@, b.value@)));
                    }
                },
                _ => self.throw("mismatching tables", Some(Node::TableField(whole_a)), Some(Node::TableField(whole_b))),
            },
            TableField::NoKey(a) => match b {
                TableField::NoKey(b) => self.compare_expression(&a.value, &b.value),
                _ => self.throw("mismatching tables", Some(Node::TableField(whole_a)), Some(Node::TableField(whole_b))),
            },
        }
    }

    /// Compares the roots of two variables: their names.
    pub fn compare_var_root(&mut self, a: &'a VarRoot, b: &'a VarRoot)
        ensures
            final(self)@ == old(self)@ + token_issues(a.name@, b.name@),
    {
        self.compare_token(&a.name, &b.name);
    }

    /// Compares two variable suffixes.
    pub fn compare_var_suffix(&mut self, a: &'a VarSuffix, b: &'a VarSuffix)
        ensures
            final(self)@ == old(self)@ + suffix_issues(suffix_view(*a), suffix_view(*b)),
        decreases a,
    {
        let (whole_a, whole_b) = (a, b);
        match a {
            VarSuffix::ExpressionIndex(a) => match b {
                VarSuffix::ExpressionIndex(b) => self.compare_delimited(&a.node, &b.node),
                _ => self.throw("mismatching varsuffixes", Some(Node::Suffix(whole_a)), Some(Node::Suffix(whole_b))),
            },
            VarSuffix::NameIndex(a) => match b {
                VarSuffix::NameIndex(b) => self.compare_token(&a.name, &b.name),
                _ => self.throw("mismatching varsuffixes", Some(Node::Suffix(whole_a)), Some(Node::Suffix(whole_b))),
            },
        }
    }

    /// Compares the suffixes of two variables pair by pair, as far as the
    /// shorter list goes.
    fn compare_suffixes(&mut self, a: &'a Vec<VarSuffix>, b: &'a Vec<VarSuffix>)
        ensures
            final(self)@ == old(self)@ + suffix_list_issues(suffixes_view(a@), suffixes_view(b@), 0),
        decreases a,
    {
        let ghost sa = suffixes_view(a@);
        let ghost sb = suffixes_view(b@);
        let n = if a.len() < b.len() {
            a.len()
        } else {
            b.len()
        };
        let mut i: usize = 0;
        while i < n
            invariant
                i <= n,
                n == min_len(a@.len() as int, b@.len() as int),
                sa == suffixes_view(a@),
                sb == suffixes_view(b@),
                old(self)@ + suffix_list_issues(sa, sb, 0) =~= self@ + suffix_list_issues(sa, sb, i as int),
            decreases n - i,
        {
            let ghost si = self@;
            self.compare_var_suffix(&a[i], &b[i]);
            proof {
                assert(sa[i as int] == suffix_view(a@[i as int]));
                assert(sb[i as int] == suffix_view(b@[i as int]));
                assert(si + suffix_list_issues(sa, sb, i as int) =~= self@ + suffix_list_issues(sa, sb, i + 1));
            }
            i += 1;
        }
        proof {
            assert(self@ + suffix_list_issues(sa, sb, i as int) =~= self@);
        }
    }

    /// Compares two expressions.
    #[verifier::spinoff_prover]
    #[verifier::rlimit(40)]
    pub fn compare_expression(&mut self, a: &'a Expression, b: &'a Expression)
        ensures
            final(self)@ == old(self)@ + expr_issues(a@, b@),
        decreases a,
    {
        let ghost s0 = self@;
        if expression_kind(a) != expression_kind(b) {
            self.throw("mismatching expressions", Some(Node::Expression(a)), Some(Node::Expression(b)));
            return;
        }
        match a {
            Expression::Boolean(x) => match b {
                Expression::Boolean(y) => self.compare_token(&x.token, &y.token),
                _ => {},
            },
            Expression::Nil(x) => match b {
                Expression::Nil(y) => self.compare_token(&x.token, &y.token),
                _ => {},
            },
            Expression::Number(x) => match b {
                Expression::Number(y) => self.compare_token(&x.token, &y.token),
                _ => {},
            },
            Expression::String(x) => match b {
                Expression::String(y) => self.compare_token(&x.token, &y.token),
                _ => {},
            },
            Expression::Binary(x) => match b {
                Expression::Binary(y) => {
                    self.compare_expression(&x.left, &y.left);
                    self.compare_token(&x.operator, &y.operator);
                    self.compare_expression(&x.right, &y.right);
                    proof {
                        assert(self@ =~= s0 + (expr_issues((*x.left)@, (*y.left)@) + token_issues(
                            x.operator@,
                            y.operator@,
                        ) + expr_issues((*x.right)@, (*y.right)@)));
                    }
                },
                _ => {},
            },
            Expression::Unary(x) => match b {
                Expression::Unary(y) => {
                    self.compare_token(&x.operator, &y.operator);
                    self.compare_expression(&x.value, &y.value);
                    proof {
                        assert(self@ =~= s0 + (token_issues(x.operator@, y.operator@) + expr_issues(
                            (*x.value)@,
                            (*y.value)@,
                        )));
                    }
                },
                _ => {},
            },
            Expression::Table(x) => match b {
                Expression::Table(y) => {
                    proof {
                        assert((a@)->fields =~= separated_view(x.values.value@));
                        assert((b@)->fields =~= separated_view(y.values.value@));
                    }
                    self.compare_separated(&x.values.value, &y.values.value);
                },
                _ => {},
            },
            Expression::Var(x) => match b {
                Expression::Var(y) => {
                    self.compare_var_root(&x.root, &y.root);
                    let ghost s1 = self@;
                    proof {
                        assert((a@)->suffixes =~= suffixes_view(x.suffixes@));
                        assert((b@)->suffixes =~= suffixes_view(y.suffixes@));
                    }
                    self.compare_suffixes(&x.suffixes, &y.suffixes);
                    proof {
                        assert(self@ =~= s0 + (token_issues(x.root.name@, y.root.name@)
                            + suffix_list_issues(suffixes_view(x.suffixes@), suffixes_view(y.suffixes@), 0)));
                    }
                },
                _ => {},
            },
            Expression::Evaluate(x) => match b {
                Expression::Evaluate(y) => self.compare_expression(&x.value.value, &y.value.value),
                _ => {},
            },
        }
    }
}

impl<'a> Compare<'a> {
    /// Compares two assignments by the name they assign.
    pub fn compare_assign(&mut self, a: &'a Assign, b: &'a Assign)
        ensures
            final(self)@ == old(self)@ + token_issues(a.identifier@, b.identifier@),
    {
        self.compare_token(&a.identifier, &b.identifier);
    }

    /// Compares two `let` statements by name and value.
    pub fn compare_stat_let(&mut self, a: &'a LetStatement, b: &'a LetStatement)
        ensures
            final(self)@ == old(self)@ + (token_issues(a.root.name@, b.root.name@) + expr_issues(
                a.value@,
                b.value@,
            )),
    {
        self.compare_var_root(&a.root, &b.root);
        self.compare_expression(&a.value, &b.value);
        proof {
            assert(final(self)@ =~= old(self)@ + (token_issues(a.root.name@, b.root.name@)
                + expr_issues(a.value@, b.value@)));
        }
    }

    /// Compares two service targets by service and port.
    pub fn compare_service_target(&mut self, a: &'a ServiceTarget, b: &'a ServiceTarget)
        ensures
            final(self)@ == old(self)@ + target_issues(a@, b@),
    {
        self.compare_token(&a.service, &b.service);
        let ghost s1 = self@;
        if a.port != b.port {
            self.throw("mismatched service target ports", Some(Node::ServiceTarget(a)), Some(Node::ServiceTarget(b)));
            proof {
                assert(final(self)@ =~= old(self)@ + target_issues(a@, b@));
            }
            return;
        }
        proof {
            assert(s1 =~= old(self)@ + target_issues(a@, b@));
        }
    }

    /// Compares two routes to hosts.
    pub fn compare_route_http(&mut self, a: &'a RouteHTTP, b: &'a RouteHTTP)
        ensures
            final(self)@ == old(self)@ + (token_issues(a.hostname@, b.hostname@) + target_issues(
                a.target@,
                b.target@,
            ) + block_issues(a.properties@, b.properties@)),
        decreases a,
    {
        self.compare_token(&a.hostname, &b.hostname);
        self.compare_service_target(&a.target, &b.target);
        self.compare_block(&a.properties, &b.properties);
        proof {
            assert(final(self)@ =~= old(self)@ + (token_issues(a.hostname@, b.hostname@)
                + target_issues(a.target@, b.target@) + block_issues(a.properties@, b.properties@)));
        }
    }

    /// Compares two routes to ports.
    pub fn compare_route_tcp(&mut self, a: &'a RouteTCP, b: &'a RouteTCP)
        ensures
            final(self)@ == old(self)@ + (target_issues(a.target@, b.target@) + block_issues(
                a.properties@,
                b.properties@,
            )),
        decreases a,
    {
        self.compare_service_target(&a.target, &b.target);
        self.compare_block(&a.properties, &b.properties);
        proof {
            assert(final(self)@ =~= old(self)@ + (target_issues(a.target@, b.target@)
                + block_issues(a.properties@, b.properties@)));
        }
    }

    /// Compares two routes.
    pub fn compare_route(&mut self, a: &'a Route, b: &'a Route)
        ensures
            final(self)@ == old(self)@ + route_issues(Statement::Route(*a)@->0, Statement::Route(*b)@->0),
        decreases a,
    {
        let (whole_a, whole_b) = (a, b);
        match a {
            Route::HTTP(a) => match b {
                Route::HTTP(b) => self.compare_route_http(a, b),
                _ => self.throw("mismatched routes", Some(Node::Route(whole_a)), Some(Node::Route(whole_b))),
            },
            Route::TCP(a) => match b {
                Route::TCP(b) => self.compare_route_tcp(a, b),
                _ => self.throw("mismatched routes", Some(Node::Route(whole_a)), Some(Node::Route(whole_b))),
            },
        }
    }

    /// Compares two statements.
    pub fn compare_statement(&mut self, a: &'a Statement, b: &'a Statement)
        ensures
            final(self)@ == old(self)@ + stmt_issues(a@, b@),
        decreases a,
    {
        let (whole_a, whole_b) = (a, b);
        match a {
            Statement::Assign(a) => match b {
                Statement::Assign(b) => self.compare_assign(a, b),
                _ => self.throw("mismatching statements", Some(Node::Statement(whole_a)), Some(Node::Statement(whole_b))),
            },
            Statement::Let(a) => match b {
                Statement::Let(b) => self.compare_stat_let(a, b),
                _ => self.throw("mismatching statements", Some(Node::Statement(whole_a)), Some(Node::Statement(whole_b))),
            },
            Statement::Route(a) => match b {
                Statement::Route(b) => self.compare_route(a, b),
                _ => self.throw("mismatching statements", Some(Node::Statement(whole_a)), Some(Node::Statement(whole_b))),
            },
        }
    }

    /// Compares two blocks statement by statement; a statement present in
    /// one block only is missing.
    #[verifier::spinoff_prover]
    #[verifier::rlimit(40)]
    pub fn compare_block(&mut self, a: &'a Block, b: &'a Block)
        ensures
            final(self)@ == old(self)@ + block_issues(a@, b@),
        decreases a,
    {
        let ghost sa = a@.body;
        let ghost sb = b@.body;
        let total = if a.body.len() < b.body.len() {
            b.body.len()
        } else {
            a.body.len()
        };
        let mut i: usize = 0;
        while i < total
            invariant
                i <= total,
                total == max_len(a.body@.len() as int, b.body@.len() as int),
                sa == a@.body,
                sb == b@.body,
                sa.len() == a.body@.len(),
                sb.len() == b.body@.len(),
                old(self)@ + stmt_list_issues(sa, sb, 0) =~= self@ + stmt_list_issues(sa, sb, i as int),
            decreases total - i,
        {
            let ghost si = self@;
            if i < a.body.len() && i < b.body.len() {
                self.compare_statement(&a.body[i], &b.body[i]);
                proof {
                    assert(sa[i as int] == a.body@[i as int]@);
                    assert(sb[i as int] == b.body@[i as int]@);
                    assert(si + stmt_list_issues(sa, sb, i as int) =~= self@ + stmt_list_issues(sa, sb, i + 1));
                }
            } else {
                let x = if i < a.body.len() {
                    Some(Node::Statement(&a.body[i]))
                } else {
                    None
                };
                let y = if i < b.body.len() {
                    Some(Node::Statement(&b.body[i]))
                } else {
                    None
                };
                self.throw("missing statement", x, y);
                proof {
                    assert(si + stmt_list_issues(sa, sb, i as int) =~= self@ + stmt_list_issues(sa, sb, i + 1));
                }
            }
            i += 1;
        }
        proof {
            assert(self@ + stmt_list_issues(sa, sb, i as int) =~= self@);
        }
    }

    /// Compares two trees from scratch and returns the issues found.
    pub fn compare_ast(&mut self, a: &'a Ast, b: &'a Ast) -> (r: Vec<Issue<'a>>)
        ensures
            final(self)@ == block_issues(a@, b@),
            issues_view(r@) == block_issues(a@, b@),
    {
        self.issues.clear();
        proof {
            assert(self@ =~= Seq::<IssueV>::empty());
        }
        self.compare_block(&a.block, &b.block);
        proof {
            assert(self@ =~= block_issues(a@, b@));
        }
        let r = self.issues.clone();
        proof {
            assert(r@ =~= self.issues@);
        }
        r
    }

    /// A comparison that has found nothing yet.
    pub fn create() -> (r: Self)
        ensures
            r@ == Seq::<IssueV>::empty(),
    {
        let r = Self { issues: Vec::new() };
        proof {
            assert(r@ =~= Seq::<IssueV>::empty());
        }
        r
    }
}

} // verus!
