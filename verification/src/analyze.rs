//! Checking the routes a program declared and turning them into HTTP and
//! TCP route descriptions, with the issues found on the way.
use vstd::prelude::*;
use crate::ast::Span;

verus! {

/// Whether a route serves a host over HTTP or a port over TCP.
#[derive(Debug, Clone, Copy, PartialEq, Eq, Structural)]
pub enum RouteKind {
    HTTP,
    TCP,
}

/// A value of the language. A number is held by the text it prints as.
#[derive(Debug)]
pub enum Value {
    String(String),
    Number(String),
    Boolean(bool),
    Nil,
    Table(Vec<(String, Value)>),
    Route(RawRoute),
}

/// A route as a program declared it: its kind, its host, its target, and
/// its properties by name (each name at most once).
#[derive(Debug)]
pub struct RawRoute {
    pub kind: RouteKind,
    pub hostname: Option<String>,
    pub service_target: String,
    pub port: usize,
    pub properties: Vec<(String, Value)>,
    pub span: Span,
}

/// A problem found in a route.
#[derive(Debug)]
pub struct Issue {
    pub why: String,
    pub span: Span,
}

/// The gateway a route is attached to.
#[derive(Debug)]
pub struct Gateway {
    pub name: String,
    pub namespace: String,
}

/// A checked HTTP route.
#[derive(Debug)]
pub struct HTTPRoute {
    pub name: String,
    pub hostname: String,
    pub service: String,
    pub port: usize,
    pub namespace: String,
    pub gateway: Gateway,
    pub private: bool,
}

/// A checked TCP route.
#[derive(Debug)]
pub struct TCPRoute {
    pub name: String,
    pub service: String,
    pub port: usize,
    pub namespace: String,
    pub gateway: Gateway,
    pub entrypoint: String,
    pub private: bool,
}

/// The outcome of checking routes: those that passed, and the issues.
pub struct Analysis {
    pub http: Vec<HTTPRoute>,
    pub tcp: Vec<TCPRoute>,
    pub issues: Vec<Issue>,
}

/// An issue: its message and the span it points at.
pub type IssueV = (Seq<char>, Span);

pub struct GatewayV {
    pub name: Seq<char>,
    pub namespace: Seq<char>,
}

pub struct HTTPRouteV {
    pub name: Seq<char>,
    pub hostname: Seq<char>,
    pub service: Seq<char>,
    pub port: usize,
    pub namespace: Seq<char>,
    pub gateway: GatewayV,
    pub private: bool,
}

pub struct TCPRouteV {
    pub name: Seq<char>,
    pub service: Seq<char>,
    pub port: usize,
    pub namespace: Seq<char>,
    pub gateway: GatewayV,
    pub entrypoint: Seq<char>,
    pub private: bool,
}

impl View for Issue {
    type V = IssueV;

    open spec fn view(&self) -> IssueV {
        (self.why@, self.span)
    }
}

impl View for Gateway {
    type V = GatewayV;

    open spec fn view(&self) -> GatewayV {
        GatewayV { name: self.name@, namespace: self.namespace@ }
    }
}

impl View for HTTPRoute {
    type V = HTTPRouteV;

    open spec fn view(&self) -> HTTPRouteV {
        HTTPRouteV {
            name: self.name@,
            hostname: self.hostname@,
            service: self.service@,
            port: self.port,
            namespace: self.namespace@,
            gateway: self.gateway@,
            private: self.private,
        }
    }
}

impl View for TCPRoute {
    type V = TCPRouteV;

    open spec fn view(&self) -> TCPRouteV {
        TCPRouteV {
            name: self.name@,
            service: self.service@,
            port: self.port,
            namespace: self.namespace@,
            gateway: self.gateway@,
            entrypoint: self.entrypoint@,
            private: self.private,
        }
    }
}

/// The views of a list of issues.
pub open spec fn issue_views(v: Seq<Issue>) -> Seq<IssueV> {
    Seq::new(v.len(), |i: int| v[i]@)
}

pub open spec fn http_views(v: Seq<HTTPRoute>) -> Seq<HTTPRouteV> {
    Seq::new(v.len(), |i: int| v[i]@)
}

pub open spec fn tcp_views(v: Seq<TCPRoute>) -> Seq<TCPRouteV> {
    Seq::new(v.len(), |i: int| v[i]@)
}

/// The first position from `i` on whose name is `key`.
pub open spec fn find_from(props: Seq<(String, Value)>, key: Seq<char>, i: int) -> Option<int>
    decreases props.len() - i,
{
    if i < 0 || i >= props.len() {
        None
    } else if props[i].0@ == key {
        Some(i)
    } else {
        find_from(props, key, i + 1)
    }
}

/// No property name occurs twice, as in the map a program builds.
pub open spec fn distinct_properties(props: Seq<(String, Value)>) -> bool {
    forall|i: int, j: int| 0 <= i < j < props.len() ==> #[trigger] props[i].0@ != #[trigger] props[j].0@
}

/// The value named `key`, if there is one.
pub open spec fn lookup(props: Seq<(String, Value)>, key: Seq<char>) -> Option<Value> {
    match find_from(props, key, 0) {
        Some(i) => Some(props[i].1),
        None => None,
    }
}

/// The text of a value that reads as a string: a string, a number or a
/// boolean.
pub open spec fn value_text(v: Value) -> Option<Seq<char>> {
    match v {
        Value::String(s) => Some(s@),
        Value::Number(t) => Some(t@),
        Value::Boolean(b) => Some(
            if b {
                "true"@
            } else {
                "false"@
            },
        ),
        _ => None,
    }
}

/// The name of a value's type.
pub open spec fn value_kind_name(v: Value) -> Seq<char> {
    match v {
        Value::String(_) => "string"@,
        Value::Number(_) => "number"@,
        Value::Boolean(_) => "boolean"@,
        Value::Nil => "nil"@,
        Value::Table(_) => "table"@,
        Value::Route(_) => "route"@,
    }
}

pub open spec fn missing_message(name: Seq<char>) -> Seq<char> {
    "missing required property '"@ + name + "'"@
}

pub open spec fn not_string_message(name: Seq<char>) -> Seq<char> {
    "'"@ + name + "' must be a string"@
}

pub open spec fn not_table_message(name: Seq<char>) -> Seq<char> {
    "'"@ + name + "' must be a table"@
}

pub open spec fn gateway_missing_message(name: Seq<char>) -> Seq<char> {
    "gateway declaration missing required field '"@ + name + "'"@
}

pub open spec fn gateway_type_message(name: Seq<char>, kind_name: Seq<char>) -> Seq<char> {
    "invalid type for field '"@ + name + "', expected string, but got '"@ + kind_name + "'"@
}

/// A required property as text, with the issue raised where it is missing
/// or does not read as a string.
pub open spec fn string_spec(r: RawRoute, name: Seq<char>) -> (Option<Seq<char>>, Seq<IssueV>) {
    match lookup(r.properties@, name) {
        None => (None, seq![(missing_message(name), r.span)]),
        Some(v) => match value_text(v) {
            Some(t) => (Some(t), Seq::empty()),
            None => (None, seq![(not_string_message(name), r.span)]),
        },
    }
}

/// A required table property, with the issue raised where it is missing or
/// not a table.
pub open spec fn table_spec(r: RawRoute, name: Seq<char>) -> (
    Option<Seq<(String, Value)>>,
    Seq<IssueV>,
) {
    match lookup(r.properties@, name) {
        None => (None, seq![(missing_message(name), r.span)]),
        Some(v) => match v {
            Value::Table(t) => (Some(t@), Seq::empty()),
            _ => (None, seq![(not_table_message(name), r.span)]),
        },
    }
}

/// A required field of a gateway table, as text.
pub open spec fn gateway_field_spec(t: Seq<(String, Value)>, name: Seq<char>, span: Span) -> (
    Option<Seq<char>>,
    Seq<IssueV>,
) {
    match lookup(t, name) {
        None => (None, seq![(gateway_missing_message(name), span)]),
        Some(v) => match value_text(v) {
            Some(x) => (Some(x), Seq::empty()),
            None => (None, seq![(gateway_type_message(name, value_kind_name(v)), span)]),
        },
    }
}

/// The gateway of a route: the `name` and `namespace` of its `gateway`
/// table.
pub open spec fn gateway_spec(r: RawRoute) -> (Option<GatewayV>, Seq<IssueV>) {
    let (t, i1) = table_spec(r, "gateway"@);
    match t {
        None => (None, i1),
        Some(t) => {
            let (n, i2) = gateway_field_spec(t, "name"@, r.span);
            match n {
                None => (None, i1 + i2),
                Some(n) => {
                    let (ns, i3) = gateway_field_spec(t, "namespace"@, r.span);
                    match ns {
                        None => (None, i1 + i2 + i3),
                        Some(ns) => (Some(GatewayV { name: n, namespace: ns }), i1 + i2 + i3),
                    }
                },
            }
        },
    }
}

/// Where the first label of a host name ends: at its first dot, or at its
/// end.
pub open spec fn label_end(h: Seq<char>, i: int) -> int
    decreases h.len() - i,
{
    if i < 0 || i >= h.len() || h[i] == '.' {
        i
    } else {
        label_end(h, i + 1)
    }
}

/// The first label of a host name: what precedes its first dot.
pub open spec fn first_label(h: Seq<char>) -> Seq<char> {
    h.subrange(0, label_end(h, 0))
}

/// An optional boolean property: false where absent; `None` where it is
/// present but no boolean, on which checking the route aborts.
pub open spec fn boolean_spec(r: RawRoute, name: Seq<char>) -> Option<bool> {
    match lookup(r.properties@, name) {
        None => Some(false),
        Some(v) => match v {
            Value::Boolean(b) => Some(b),
            _ => None,
        },
    }
}

/// Checking an HTTP route: what it yields and the issues it raises.
pub open spec fn http_spec(r: RawRoute) -> (Option<HTTPRouteV>, Seq<IssueV>) {
    match r.hostname {
        None => (None, seq![("http route missing required hostname"@, r.span)]),
        Some(h) => {
            let (n, i1) = string_spec(r, "name"@);
            let name = match n {
                Some(n) => n,
                None => first_label(h@),
            };
            let (ns, i2) = string_spec(r, "namespace"@);
            match ns {
                None => (None, i1 + i2),
                Some(ns) => match boolean_spec(r, "private"@) {
                    None => (None, i1 + i2),
                    Some(p) => {
                        let (g, i3) = gateway_spec(r);
                        match g {
                            None => (None, i1 + i2 + i3),
                            Some(g) => (
                                Some(
                                    HTTPRouteV {
                                        name,
                                        hostname: h@,
                                        service: r.service_target@,
                                        port: r.port,
                                        namespace: ns,
                                        gateway: g,
                                        private: p,
                                    },
                                ),
                                i1 + i2 + i3,
                            ),
                        }
                    },
                },
            }
        },
    }
}

/// Checking an HTTP route aborts: it reaches a `private` that is no boolean.
pub open spec fn http_aborts(r: RawRoute) -> bool {
    &&& r.hostname is Some
    &&& string_spec(r, "namespace"@).0 is Some
    &&& boolean_spec(r, "private"@) is None
}

/// Checking a TCP route: what it yields and the issues it raises.
pub open spec fn tcp_spec(r: RawRoute) -> (Option<TCPRouteV>, Seq<IssueV>) {
    let (n, i1) = string_spec(r, "name"@);
    match n {
        None => (None, i1),
        Some(n) => {
            let (ns, i2) = string_spec(r, "namespace"@);
            match ns {
                None => (None, i1 + i2),
                Some(ns) => {
                    let (e, i3) = string_spec(r, "entrypoint"@);
                    match e {
                        None => (None, i1 + i2 + i3),
                        Some(e) => match boolean_spec(r, "private"@) {
                            None => (None, i1 + i2 + i3),
                            Some(p) => {
                                let (g, i4) = gateway_spec(r);
                                match g {
                                    None => (None, i1 + i2 + i3 + i4),
                                    Some(g) => (
                                        Some(
                                            TCPRouteV {
                                                name: n,
                                                service: r.service_target@,
                                                port: r.port,
                                                namespace: ns,
                                                gateway: g,
                                                entrypoint: e,
                                                private: p,
                                            },
                                        ),
                                        i1 + i2 + i3 + i4,
                                    ),
                                }
                            },
                        },
                    }
                },
            }
        },
    }
}

/// Checking a TCP route aborts: it reaches a `private` that is no boolean.
pub open spec fn tcp_aborts(r: RawRoute) -> bool {
    &&& string_spec(r, "name"@).0 is Some
    &&& string_spec(r, "namespace"@).0 is Some
    &&& string_spec(r, "entrypoint"@).0 is Some
    &&& boolean_spec(r, "private"@) is None
}

/// Checking a route aborts.
pub open spec fn route_aborts_spec(r: RawRoute) -> bool {
    if r.kind == RouteKind::TCP {
        tcp_aborts(r)
    } else {
        http_aborts(r)
    }
}

/// A route's contribution to an analysis.
pub open spec fn opt_seq<T>(o: Option<T>) -> Seq<T> {
    match o {
        Some(x) => seq![x],
        None => Seq::empty(),
    }
}

/// What checking one route contributes: its HTTP or TCP route, if it
/// passes, and its issues.
#[verifier::opaque]
pub open spec fn route_step(r: RawRoute) -> (Seq<HTTPRouteV>, Seq<TCPRouteV>, Seq<IssueV>) {
    if r.kind == RouteKind::TCP {
        (Seq::empty(), opt_seq(tcp_spec(r).0), tcp_spec(r).1)
    } else {
        (opt_seq(http_spec(r).0), Seq::empty(), http_spec(r).1)
    }
}

/// Checking a list of routes in order: the HTTP routes, the TCP routes and
/// the issues.
pub open spec fn routes_spec(rs: Seq<RawRoute>) -> (Seq<HTTPRouteV>, Seq<TCPRouteV>, Seq<IssueV>)
    decreases rs.len(),
{
    if rs.len() == 0 {
        (Seq::empty(), Seq::empty(), Seq::empty())
    } else {
        let (h, t, i) = routes_spec(rs.drop_last());
        let (h2, t2, i2) = route_step(rs.last());
        (h + h2, t + t2, i + i2)
    }
}

/// Routes are checked one by one: checking two lists one after the other
/// gives the results of the first list followed by those of the second.
pub proof fn lemma_routes_spec_append(a: Seq<RawRoute>, b: Seq<RawRoute>)
    ensures
        routes_spec(a + b).0 == routes_spec(a).0 + routes_spec(b).0,
        routes_spec(a + b).1 == routes_spec(a).1 + routes_spec(b).1,
        routes_spec(a + b).2 == routes_spec(a).2 + routes_spec(b).2,
    decreases b.len(),
{
    if b.len() == 0 {
        assert(a + b =~= a);
        assert(routes_spec(a).0 + Seq::<HTTPRouteV>::empty() =~= routes_spec(a).0);
        assert(routes_spec(a).1 + Seq::<TCPRouteV>::empty() =~= routes_spec(a).1);
        assert(routes_spec(a).2 + Seq::<IssueV>::empty() =~= routes_spec(a).2);
    } else {
        lemma_routes_spec_append(a, b.drop_last());
        assert((a + b).drop_last() =~= a + b.drop_last());
        assert((a + b).last() == b.last());
        let (h, t, i) = routes_spec(a);
        let (hb, tb, ib) = routes_spec(b.drop_last());
        let (h2, t2, i2) = route_step(b.last());
        assert(h + hb + h2 =~= h + (hb + h2));
        assert(t + tb + t2 =~= t + (tb + t2));
        assert(i + ib + i2 =~= i + (ib + i2));
    }
}

/// The analysis `after` is `before` with the issues `added` reported, its
/// routes unchanged.
pub open spec fn reported(before: Analysis, after: Analysis, added: Seq<IssueV>) -> bool {
    &&& issue_views(after.issues@) == issue_views(before.issues@) + added
    &&& after.http@ == before.http@
    &&& after.tcp@ == before.tcp@
}

proof fn lemma_reported_then(a: Analysis, b: Analysis, c: Analysis, x: Seq<IssueV>, y: Seq<IssueV>)
    requires
        reported(a, b, x),
        reported(b, c, y),
    ensures
        reported(a, c, x + y),
{
    assert(issue_views(a.issues@) + x + y =~= issue_views(a.issues@) + (x + y));
}

proof fn lemma_reported_nothing(a: Analysis)
    ensures
        reported(a, a, Seq::empty()),
{
    assert(issue_views(a.issues@) + Seq::<IssueV>::empty() =~= issue_views(a.issues@));
}

/// Reports an issue.
fn report(state: &mut Analysis, why: String, span: Span)
    ensures
        reported(*old(state), *final(state), seq![(why@, span)]),
{
    let ghost w = why@;
    state.issues.push(Issue { why, span });
    proof {
        assert(issue_views(state.issues@) =~= issue_views(old(state).issues@) + seq![(w, span)]);
    }
}

/// `missing required property '<name>'`
fn missing_text(name: &str) -> (r: String)
    ensures
        r@ == missing_message(name@),
{
    let mut why = String::from_str("missing required property '");
    why.append(name);
    why.append("'");
    why
}

/// `'<name>' must be a string`
fn not_string_text(name: &str) -> (r: String)
    ensures
        r@ == not_string_message(name@),
{
    let mut why = String::from_str("'");
    why.append(name);
    why.append("' must be a string");
    why
}

/// `'<name>' must be a table`
fn not_table_text(name: &str) -> (r: String)
    ensures
        r@ == not_table_message(name@),
{
    let mut why = String::from_str("'");
    why.append(name);
    why.append("' must be a table");
    why
}

/// `gateway declaration missing required field '<name>'`
fn gateway_missing_text(name: &str) -> (r: String)
    ensures
        r@ == gateway_missing_message(name@),
{
    let mut why = String::from_str("gateway declaration missing required field '");
    why.append(name);
    why.append("'");
    why
}

/// `invalid type for field '<name>', expected string, but got '<type>'`
fn gateway_kind_text(name: &str, kind_name: &str) -> (r: String)
    ensures
        r@ == gateway_type_message(name@, kind_name@),
{
    let mut why = String::from_str("invalid type for field '");
    why.append(name);
    why.append("', expected string, but got '");
    why.append(kind_name);
    why.append("'");
    why
}

impl Value {
    /// The text of a value that reads as a string: a string, a number or a
    /// boolean.
    pub fn to_string(&self) -> (r: Option<String>)
        ensures
            r is Some <==> value_text(*self) is Some,
            r matches Some(t) ==> value_text(*self) == Some(t@),
    {
        match self {
            Value::Boolean(n) => if *n {
                Some(String::from_str("true"))
            } else {
                Some(String::from_str("false"))
            },
            Value::String(n) => Some(n.clone()),
            Value::Number(n) => Some(n.clone()),
            _ => None,
        }
    }

    /// The name of the value's type.
    pub fn kind_name(&self) -> (r: &'static str)
        ensures
            r@ == value_kind_name(*self),
    {
        match self {
            Value::String(_) => "string",
            Value::Number(_) => "number",
            Value::Boolean(_) => "boolean",
            Value::Nil => "nil",
            Value::Table(_) => "table",
            Value::Route(_) => "route",
        }
    }
}

/// The position of the value named `name`, if there is one.
fn find_property(props: &Vec<(String, Value)>, name: &str) -> (r: Option<usize>)
    ensures
        r matches Some(i) ==> i < props@.len(),
        find_from(props@, name@, 0) == (match r {
            Some(i) => Some(i as int),
            None => None::<int>,
        }),
{
    let key = String::from_str(name);
    let mut i: usize = 0;
    while i < props.len()
        invariant
            i <= props@.len(),
            key@ == name@,
            find_from(props@, name@, 0) == find_from(props@, name@, i as int),
        decreases props.len() - i,
    {
        if props[i].0 == key {
            return Some(i);
        }
        i += 1;
    }
    None
}

/// A required property: missing, it is reported.
fn expect<'a>(state: &mut Analysis, route: &'a RawRoute, name: &str) -> (r: Option<&'a Value>)
    ensures
        r is Some <==> lookup(route.properties@, name@) is Some,
        r matches Some(v) ==> lookup(route.properties@, name@) == Some(*v),
        reported(
            *old(state),
            *final(state),
            match lookup(route.properties@, name@) {
                Some(_) => Seq::empty(),
                None => seq![(missing_message(name@), route.span)],
            },
        ),
{
    match find_property(&route.properties, name) {
        Some(i) => {
            proof {
                lemma_reported_nothing(*state);
            }
            Some(&route.properties[i].1)
        },
        None => {
            report(state, missing_text(name), route.span);
            None
        },
    }
}

/// An optional property, or `default` where it is absent.
fn expect_or<'a>(route: &'a RawRoute, name: &str, default: &'a Value) -> (r: &'a Value)
    ensures
        *r == match lookup(route.properties@, name@) {
            Some(v) => v,
            None => *default,
        },
{
    match find_property(&route.properties, name) {
        Some(i) => &route.properties[i].1,
        None => default,
    }
}

/// An optional boolean property, false where absent.
fn expect_boolean(route: &RawRoute, name: &str) -> (r: Option<bool>)
    requires
        boolean_spec(*route, name@) is Some,
    ensures
        r == boolean_spec(*route, name@),
{
    let default = Value::Boolean(false);
    let value = expect_or(route, name, &default);
    match value {
        Value::Boolean(b) => Some(*b),
        _ => {
            proof {
                assert(false);
            }
            None
        },
    }
}

/// A required property as text: missing, or not reading as a string, it
/// is reported.
fn expect_string(state: &mut Analysis, route: &RawRoute, name: &str) -> (r: Option<String>)
    ensures
        r is Some <==> string_spec(*route, name@).0 is Some,
        r matches Some(t) ==> string_spec(*route, name@).0 == Some(t@),
        reported(*old(state), *final(state), string_spec(*route, name@).1),
{
    let ghost s0 = *state;
    let value = match expect(state, route, name) {
        Some(v) => v,
        None => return None,
    };
    match value.to_string() {
        Some(s) => Some(s),
        None => {
            let ghost s1 = *state;
            report(state, not_string_text(name), route.span);
            proof {
                lemma_reported_then(s0, s1, *state, Seq::empty(), seq![(not_string_message(name@), route.span)]);
                assert(Seq::<IssueV>::empty() + seq![(not_string_message(name@), route.span)] =~= seq![(not_string_message(name@), route.span)]);
            }
            None
        },
    }
}

/// A required table property: missing, or no table, it is reported.
fn expect_table<'a>(state: &mut Analysis, route: &'a RawRoute, name: &str) -> (r: Option<&'a Vec<(String, Value)>>)
    ensures
        r is Some <==> table_spec(*route, name@).0 is Some,
        r matches Some(t) ==> table_spec(*route, name@).0 == Some(t@),
        reported(*old(state), *final(state), table_spec(*route, name@).1),
{
    let ghost s0 = *state;
    let value = match expect(state, route, name) {
        Some(v) => v,
        None => return None,
    };
    match value {
        Value::Table(node) => Some(node),
        _ => {
            let ghost s1 = *state;
            report(state, not_table_text(name), route.span);
            proof {
                lemma_reported_then(s0, s1, *state, Seq::empty(), seq![(not_table_message(name@), route.span)]);
                assert(Seq::<IssueV>::empty() + seq![(not_table_message(name@), route.span)] =~= seq![(not_table_message(name@), route.span)]);
            }
            None
        },
    }
}

/// A required field of a gateway table as text: missing, or not reading as
/// a string, it is reported.
fn gateway_field(state: &mut Analysis, table: &Vec<(String, Value)>, name: &str, span: Span) -> (r: Option<String>)
    ensures
        r is Some <==> gateway_field_spec(table@, name@, span).0 is Some,
        r matches Some(t) ==> gateway_field_spec(table@, name@, span).0 == Some(t@),
        reported(*old(state), *final(state), gateway_field_spec(table@, name@, span).1),
{
    let value = match find_property(table, name) {
        Some(i) => &table[i].1,
        None => {
            report(state, gateway_missing_text(name), span);
            return None;
        },
    };
    match value.to_string() {
        Some(data) => {
            proof {
                lemma_reported_nothing(*state);
            }
            Some(data)
        },
        None => {
            report(state, gateway_kind_text(name, value.kind_name()), span);
            None
        },
    }
}

/// The gateway of a route: the `name` and `namespace` of its `gateway`
/// table, each of which must read as a string.
fn analyze_gateway(state: &mut Analysis, route: &RawRoute) -> (r: Option<Gateway>)
    ensures
        r is Some <==> gateway_spec(*route).0 is Some,
        r matches Some(g) ==> gateway_spec(*route).0 == Some(g@),
        reported(*old(state), *final(state), gateway_spec(*route).1),
{
    let ghost s0 = *state;
    proof {
        reveal_strlit("gateway");
        reveal_strlit("name");
        reveal_strlit("namespace");
    }
    let table = match expect_table(state, route, "gateway") {
        Some(t) => t,
        None => return None,
    };
    let ghost s1 = *state;
    let ghost i1 = table_spec(*route, "gateway"@).1;
    let name = match gateway_field(state, table, "name", route.span) {
        Some(n) => n,
        None => {
            proof {
                lemma_reported_then(s0, s1, *state, i1, gateway_field_spec(table@, "name"@, route.span).1);
            }
            return None;
        },
    };
    let ghost s2 = *state;
    let ghost i2 = gateway_field_spec(table@, "name"@, route.span).1;
    proof {
        lemma_reported_then(s0, s1, s2, i1, i2);
    }
    let namespace = match gateway_field(state, table, "namespace", route.span) {
        Some(n) => n,
        None => {
            proof {
                lemma_reported_then(s0, s2, *state, i1 + i2, gateway_field_spec(table@, "namespace"@, route.span).1);
            }
            return None;
        },
    };
    proof {
        lemma_reported_then(s0, s2, *state, i1 + i2, gateway_field_spec(table@, "namespace"@, route.span).1);
    }
    Some(Gateway { name, namespace })
}

/// The first label of a host name: what precedes its first dot.
pub(crate) fn first_label_of(hostname: &str) -> (r: String)
    ensures
        r@ == first_label(hostname@),
{
    let n = hostname.unicode_len();
    let mut i: usize = 0;
    while i < n
        invariant
            i <= n,
            n == hostname@.len(),
            label_end(hostname@, 0) == label_end(hostname@, i as int),
        ensures
            i <= n,
            label_end(hostname@, 0) == i,
        decreases n - i,
    {
        if hostname.get_char(i) == '.' {
            break;
        }
        i += 1;
    }
    String::from_str(hostname.substring_char(0, i))
}

/// The name of a route: its `name` property, or else the first label of its
/// host name. A missing or unreadable `name` is still reported.
fn analyze_name(state: &mut Analysis, route: &RawRoute, hostname: &str) -> (r: Option<String>)
    ensures
        r matches Some(n) && n@ == match string_spec(*route, "name"@).0 {
            Some(n) => n,
            None => first_label(hostname@),
        },
        reported(*old(state), *final(state), string_spec(*route, "name"@).1),
{
    proof {
        reveal_strlit("name");
    }
    let value = expect_string(state, route, "name");
    match value {
        Some(name) => Some(name),
        None => Some(first_label_of(hostname)),
    }
}

/// Checks an HTTP route: it needs a host name, a `namespace` and a
/// `gateway`; its name is its `name` property or else the first label of
/// its host.
fn analyze_http(state: &mut Analysis, route: &RawRoute) -> (r: Option<HTTPRoute>)
    requires
        !http_aborts(*route),
    ensures
        r is Some <==> http_spec(*route).0 is Some,
        r matches Some(h) ==> http_spec(*route).0 == Some(h@),
        reported(*old(state), *final(state), http_spec(*route).1),
{
    let ghost s0 = *state;
    proof {
        reveal_strlit("name");
        reveal_strlit("namespace");
        reveal_strlit("private");
    }
    let hostname = match &route.hostname {
        Some(h) => h.clone(),
        None => {
            report(state, String::from_str("http route missing required hostname"), route.span);
            return None;
        },
    };
    let name = match analyze_name(state, route, hostname.as_str()) {
        Some(n) => n,
        None => return None,
    };
    let ghost s1 = *state;
    let ghost i1 = string_spec(*route, "name"@).1;
    let namespace = match expect_string(state, route, "namespace") {
        Some(n) => n,
        None => {
            proof {
                lemma_reported_then(s0, s1, *state, i1, string_spec(*route, "namespace"@).1);
            }
            return None;
        },
    };
    let ghost s2 = *state;
    let ghost i2 = string_spec(*route, "namespace"@).1;
    proof {
        lemma_reported_then(s0, s1, s2, i1, i2);
    }
    let private = match expect_boolean(route, "private") {
        Some(p) => p,
        None => return None,
    };
    let gateway = match analyze_gateway(state, route) {
        Some(g) => g,
        None => {
            proof {
                lemma_reported_then(s0, s2, *state, i1 + i2, gateway_spec(*route).1);
            }
            return None;
        },
    };
    proof {
        lemma_reported_then(s0, s2, *state, i1 + i2, gateway_spec(*route).1);
    }
    Some(
        HTTPRoute {
            hostname,
            name,
            namespace,
            gateway,
            port: route.port,
            service: route.service_target.clone(),
            private,
        },
    )
}

/// Checks a TCP route: it needs a `name`, a `namespace`, an `entrypoint`
/// and a `gateway`.
fn analyze_tcp(state: &mut Analysis, route: &RawRoute) -> (r: Option<TCPRoute>)
    requires
        !tcp_aborts(*route),
    ensures
        r is Some <==> tcp_spec(*route).0 is Some,
        r matches Some(t) ==> tcp_spec(*route).0 == Some(t@),
        reported(*old(state), *final(state), tcp_spec(*route).1),
{
    let ghost s0 = *state;
    proof {
        reveal_strlit("name");
        reveal_strlit("namespace");
        reveal_strlit("entrypoint");
        reveal_strlit("private");
    }
    let name = match expect_string(state, route, "name") {
        Some(n) => n,
        None => return None,
    };
    let ghost s1 = *state;
    let ghost i1 = string_spec(*route, "name"@).1;
    let namespace = match expect_string(state, route, "namespace") {
        Some(n) => n,
        None => {
            proof {
                lemma_reported_then(s0, s1, *state, i1, string_spec(*route, "namespace"@).1);
            }
            return None;
        },
    };
    let ghost s2 = *state;
    let ghost i2 = string_spec(*route, "namespace"@).1;
    proof {
        lemma_reported_then(s0, s1, s2, i1, i2);
    }
    let entrypoint = match expect_string(state, route, "entrypoint") {
        Some(n) => n,
        None => {
            proof {
                lemma_reported_then(s0, s2, *state, i1 + i2, string_spec(*route, "entrypoint"@).1);
            }
            return None;
        },
    };
    let ghost s3 = *state;
    let ghost i3 = string_spec(*route, "entrypoint"@).1;
    proof {
        lemma_reported_then(s0, s2, s3, i1 + i2, i3);
    }
    let private = match expect_boolean(route, "private") {
        Some(p) => p,
        None => return None,
    };
    let gateway = match analyze_gateway(state, route) {
        Some(g) => g,
        None => {
            proof {
                lemma_reported_then(s0, s3, *state, i1 + i2 + i3, gateway_spec(*route).1);
            }
            return None;
        },
    };
    proof {
        lemma_reported_then(s0, s3, *state, i1 + i2 + i3, gateway_spec(*route).1);
    }
    Some(
        TCPRoute {
            name,
            namespace,
            entrypoint,
            gateway,
            port: route.port,
            service: route.service_target.clone(),
            private,
        },
    )
}

/// Whether checking a route aborts: it reaches a `private` property that is
/// no boolean.
pub fn route_aborts(route: &RawRoute) -> (r: bool)
    ensures
        r == route_aborts_spec(*route),
{
    proof {
        reveal_strlit("name");
        reveal_strlit("namespace");
        reveal_strlit("entrypoint");
        reveal_strlit("private");
    }
    let mut scratch = Analysis { http: Vec::new(), tcp: Vec::new(), issues: Vec::new() };
    let reaches = if route.kind == RouteKind::TCP {
        expect_string(&mut scratch, route, "name").is_some() && expect_string(
            &mut scratch,
            route,
            "namespace",
        ).is_some() && expect_string(&mut scratch, route, "entrypoint").is_some()
    } else {
        route.hostname.is_some() && expect_string(&mut scratch, route, "namespace").is_some()
    };
    let default = Value::Boolean(false);
    let private_is_boolean = match expect_or(route, "private", &default) {
        Value::Boolean(_) => true,
        _ => false,
    };
    reaches && !private_is_boolean
}

/// Checks the routes in order. HTTP routes and TCP routes that pass go to
/// their lists; every problem found is reported.
pub fn analyze_routes(routes: &[RawRoute]) -> (r: Analysis)
    requires
        forall|i: int| 0 <= i < routes@.len() ==> distinct_properties(#[trigger] routes@[i].properties@),
        forall|i: int| 0 <= i < routes@.len() ==> !route_aborts_spec(#[trigger] routes@[i]),
    ensures
        http_views(r.http@) == routes_spec(routes@).0,
        tcp_views(r.tcp@) == routes_spec(routes@).1,
        issue_views(r.issues@) == routes_spec(routes@).2,
{
    let mut state = Analysis { http: Vec::new(), tcp: Vec::new(), issues: Vec::new() };
    let mut i: usize = 0;
    proof {
        assert(routes@.subrange(0, 0) =~= Seq::<RawRoute>::empty());
        assert(http_views(state.http@) =~= Seq::<HTTPRouteV>::empty());
        assert(tcp_views(state.tcp@) =~= Seq::<TCPRouteV>::empty());
        assert(issue_views(state.issues@) =~= Seq::<IssueV>::empty());
    }
    while i < routes.len()
        invariant
            i <= routes@.len(),
            forall|k: int| 0 <= k < routes@.len() ==> !route_aborts_spec(#[trigger] routes@[k]),
            http_views(state.http@) == routes_spec(routes@.subrange(0, i as int)).0,
            tcp_views(state.tcp@) == routes_spec(routes@.subrange(0, i as int)).1,
            issue_views(state.issues@) == routes_spec(routes@.subrange(0, i as int)).2,
        decreases routes.len() - i,
    {
        let ghost s0 = state;
        let ghost pre = routes@.subrange(0, i as int);
        let ghost next = routes@.subrange(0, i + 1);
        let route = &routes[i];
        proof {
            assert(next.drop_last() =~= pre);
            assert(next.last() == *route);
            assert(!route_aborts_spec(routes@[i as int]));
            reveal(route_step);
        }
        if route.kind == RouteKind::TCP {
            let result = analyze_tcp(&mut state, route);
            if let Some(result) = result {
                state.tcp.push(result);
            }
            proof {
                assert(tcp_views(state.tcp@) =~= tcp_views(s0.tcp@) + opt_seq(tcp_spec(*route).0));
                assert(http_views(state.http@) =~= http_views(s0.http@) + Seq::<HTTPRouteV>::empty());
            }
        } else {
            let result = analyze_http(&mut state, route);
            if let Some(result) = result {
                state.http.push(result);
            }
            proof {
                assert(http_views(state.http@) =~= http_views(s0.http@) + opt_seq(http_spec(*route).0));
                assert(tcp_views(state.tcp@) =~= tcp_views(s0.tcp@) + Seq::<TCPRouteV>::empty());
            }
        }
        i += 1;
    }
    proof {
        assert(routes@.subrange(0, i as int) =~= routes@);
    }
    state
}

/// Checks the routes as `analyze_routes` does, or gives `None` where that
/// would abort.
pub fn try_analyze_routes(routes: &[RawRoute]) -> (r: Option<Analysis>)
    requires
        forall|i: int| 0 <= i < routes@.len() ==> distinct_properties(#[trigger] routes@[i].properties@),
    ensures
        r is None <==> exists|i: int| 0 <= i < routes@.len() && route_aborts_spec(#[trigger] routes@[i]),
        r matches Some(a) ==> {
            &&& http_views(a.http@) == routes_spec(routes@).0
            &&& tcp_views(a.tcp@) == routes_spec(routes@).1
            &&& issue_views(a.issues@) == routes_spec(routes@).2
        },
{
    let mut i: usize = 0;
    while i < routes.len()
        invariant
            i <= routes@.len(),
            forall|k: int| 0 <= k < i ==> !route_aborts_spec(#[trigger] routes@[k]),
        decreases routes.len() - i,
    {
        if route_aborts(&routes[i]) {
            return None;
        }
        i += 1;
    }
    Some(analyze_routes(routes))
}

} // verus!
