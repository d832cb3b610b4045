use kayche::analyze::{
    analyze_routes, route_aborts, try_analyze_routes, HTTPRoute, RawRoute, RouteKind, Value,
};
use kayche::analyze::Gateway;
use kayche::analyze::TCPRoute;
use kayche::ast::{Span, Statement};
use kayche::output::{http_document, join_documents, tcp_document};
use kayche::parse::parse_source;
use kayche::scope::Scope;

fn span() -> Span {
    Span { x: 1, y: 2, z: 3, w: 4 }
}

fn s(text: &str) -> Value {
    Value::String(text.to_string())
}

fn gateway_table() -> Value {
    Value::Table(vec![
        ("name".to_string(), s("main")),
        ("namespace".to_string(), s("infra")),
    ])
}

fn route(kind: RouteKind, hostname: Option<&str>, props: Vec<(&str, Value)>) -> RawRoute {
    RawRoute {
        kind,
        hostname: hostname.map(|h| h.to_string()),
        service_target: "web".to_string(),
        port: 8080,
        properties: props.into_iter().map(|(k, v)| (k.to_string(), v)).collect(),
        span: span(),
    }
}

fn whys(issues: &[kayche::analyze::Issue]) -> Vec<String> {
    issues.iter().map(|i| i.why.clone()).collect()
}

#[test]
fn analyze_complete_http_route() {
    let r = route(
        RouteKind::HTTP,
        Some("app.example.com"),
        vec![
            ("name", s("app")),
            ("namespace", s("apps")),
            ("gateway", gateway_table()),
            ("private", Value::Boolean(true)),
        ],
    );
    let a = analyze_routes(&[r]);
    assert!(a.issues.is_empty());
    assert_eq!(a.tcp.len(), 0);
    assert_eq!(a.http.len(), 1);
    let h = &a.http[0];
    assert_eq!(h.name, "app");
    assert_eq!(h.hostname, "app.example.com");
    assert_eq!(h.namespace, "apps");
    assert_eq!(h.service, "web");
    assert_eq!(h.port, 8080);
    assert_eq!(h.gateway.name, "main");
    assert_eq!(h.gateway.namespace, "infra");
    assert!(h.private);
}

#[test]
fn analyze_http_name_defaults_to_first_label() {
    let r = route(
        RouteKind::HTTP,
        Some("shop.example.com"),
        vec![("namespace", s("apps")), ("gateway", gateway_table())],
    );
    let a = analyze_routes(&[r]);
    assert_eq!(a.http.len(), 1);
    assert_eq!(a.http[0].name, "shop");
    assert!(!a.http[0].private);
    assert_eq!(whys(&a.issues), vec!["missing required property 'name'"]);
    assert_eq!(a.issues[0].span, span());
}

#[test]
fn analyze_http_without_hostname() {
    let r = route(RouteKind::HTTP, None, vec![]);
    let a = analyze_routes(&[r]);
    assert!(a.http.is_empty());
    assert_eq!(whys(&a.issues), vec!["http route missing required hostname"]);
}

#[test]
fn analyze_reports_values_of_the_wrong_type() {
    let r = route(
        RouteKind::HTTP,
        Some("a.b"),
        vec![("name", s("a")), ("namespace", Value::Nil)],
    );
    let a = analyze_routes(&[r]);
    assert!(a.http.is_empty());
    assert_eq!(whys(&a.issues), vec!["'namespace' must be a string"]);

    let r = route(
        RouteKind::HTTP,
        Some("a.b"),
        vec![("name", s("a")), ("namespace", s("n")), ("gateway", s("main"))],
    );
    let a = analyze_routes(&[r]);
    assert_eq!(whys(&a.issues), vec!["'gateway' must be a table"]);
}

#[test]
fn analyze_reports_gateway_fields() {
    let r = route(
        RouteKind::HTTP,
        Some("a.b"),
        vec![
            ("name", s("a")),
            ("namespace", s("n")),
            ("gateway", Value::Table(vec![("namespace".to_string(), s("infra"))])),
        ],
    );
    let a = analyze_routes(&[r]);
    assert_eq!(whys(&a.issues), vec!["gateway declaration missing required field 'name'"]);

    let r = route(
        RouteKind::HTTP,
        Some("a.b"),
        vec![
            ("name", s("a")),
            ("namespace", s("n")),
            (
                "gateway",
                Value::Table(vec![
                    ("name".to_string(), s("main")),
                    ("namespace".to_string(), Value::Table(vec![])),
                ]),
            ),
        ],
    );
    let a = analyze_routes(&[r]);
    assert_eq!(
        whys(&a.issues),
        vec!["invalid type for field 'namespace', expected string, but got 'table'"]
    );
}

#[test]
fn analyze_tcp_routes() {
    let ok = route(
        RouteKind::TCP,
        None,
        vec![
            ("name", s("db")),
            ("namespace", s("data")),
            ("entrypoint", Value::Number("5432".to_string())),
            ("gateway", gateway_table()),
        ],
    );
    let missing = route(RouteKind::TCP, None, vec![("name", Value::Boolean(true))]);
    let a = analyze_routes(&[ok, missing]);
    assert_eq!(a.tcp.len(), 1);
    assert_eq!(a.tcp[0].name, "db");
    assert_eq!(a.tcp[0].entrypoint, "5432");
    assert_eq!(a.tcp[0].port, 8080);
    assert_eq!(whys(&a.issues), vec!["missing required property 'namespace'"]);
}

#[test]
fn analyze_aborts_on_private_that_is_no_boolean() {
    let r = route(
        RouteKind::TCP,
        None,
        vec![
            ("name", s("db")),
            ("namespace", s("data")),
            ("entrypoint", s("tcp")),
            ("private", s("yes")),
        ],
    );
    assert!(route_aborts(&r));
    assert!(try_analyze_routes(&[r]).is_none());

    let fine = route(RouteKind::TCP, None, vec![("private", s("yes"))]);
    assert!(!route_aborts(&fine));
    let a = try_analyze_routes(&[fine]).unwrap();
    assert_eq!(whys(&a.issues), vec!["missing required property 'name'"]);
}

fn http_route(private: bool) -> HTTPRoute {
    HTTPRoute {
        name: "app".to_string(),
        hostname: "app.example.com".to_string(),
        service: "web".to_string(),
        port: 80,
        namespace: "apps".to_string(),
        gateway: Gateway { name: "main".to_string(), namespace: "infra".to_string() },
        private,
    }
}

#[test]
fn http_document_describes_the_route() {
    let d = http_document(&http_route(false), "auth");
    assert_eq!(d.api_version, "gateway.networking.k8s.io/v1");
    assert_eq!(d.kind, "HTTPRoute");
    assert_eq!(d.metadata.name, "app");
    assert_eq!(d.metadata.namespace, "apps");
    assert_eq!(d.spec.parent_refs[0].name, "main");
    assert_eq!(d.spec.hostnames, vec!["app.example.com".to_string()]);
    assert_eq!(d.spec.rules[0].backend_refs[0].name, "web");
    assert_eq!(d.spec.rules[0].backend_refs[0].port, 80);
    assert!(d.spec.rules[0].filters.is_empty());

    let d = http_document(&http_route(true), "auth");
    assert_eq!(d.spec.rules[0].filters.len(), 1);
    assert_eq!(d.spec.rules[0].filters[0].filter_type, "ExtensionRef");
    assert_eq!(d.spec.rules[0].filters[0].extension_ref.group, "traefik.io");
    assert_eq!(d.spec.rules[0].filters[0].extension_ref.name, "auth");
}

#[test]
fn tcp_document_describes_the_route() {
    let r = TCPRoute {
        name: "db".to_string(),
        service: "pg".to_string(),
        port: 5432,
        namespace: "data".to_string(),
        gateway: Gateway { name: "main".to_string(), namespace: "infra".to_string() },
        entrypoint: "postgres".to_string(),
        private: true,
    };
    let d = tcp_document(&r, "auth");
    assert_eq!(d.api_version, "traefik.io/v1alpha1");
    assert_eq!(d.kind, "IngressRouteTCP");
    assert_eq!(d.spec.entry_points, vec!["postgres".to_string()]);
    assert_eq!(d.spec.routes[0].match_rule, "HostSNI(`*`)");
    assert_eq!(d.spec.routes[0].services[0].port, 5432);
    assert_eq!(d.spec.routes[0].middlewares[0].name, "auth");
    assert_eq!(d.spec.routes[0].middlewares[0].namespace, "kube-system");
}

#[test]
fn documents_are_joined_by_separator_lines() {
    let docs = vec!["a: 1\n".to_string(), "b: 2\n".to_string()];
    assert_eq!(join_documents(&docs), "a: 1\n---\nb: 2\n");
    let docs = vec!["".to_string(), "b\n".to_string(), "c\n".to_string()];
    assert_eq!(join_documents(&docs), "b\n---\nc\n");
    assert_eq!(join_documents(&vec![]), "");
}

#[test]
fn scope_reads_what_was_written() {
    let mut scope: Scope<i32> = Scope::new_root();
    assert!(scope.read_variable("a").is_none());
    scope.write_variable("a".to_string(), 1);
    assert_eq!(scope.read_variable("a"), Some(&1));
    scope.write_variable("a".to_string(), 2);
    assert_eq!(scope.read_variable("a"), Some(&2));
    assert_eq!(scope.vars.len(), 1);
}

#[test]
fn inner_scopes_see_and_change_outer_bindings() {
    let mut scope: Scope<i32> = Scope::new_root();
    scope.write_variable("outer".to_string(), 1);
    scope.enter();
    assert_eq!(scope.read_variable("outer"), Some(&1));
    scope.write_variable("outer".to_string(), 5);
    scope.write_variable("inner".to_string(), 7);
    assert_eq!(scope.read_variable("inner"), Some(&7));
    scope.leave();
    assert_eq!(scope.read_variable("outer"), Some(&5));
    assert!(scope.read_variable("inner").is_none());
    scope.leave();
    assert_eq!(scope.read_variable("outer"), Some(&5));
}

#[test]
fn parsed_port_is_a_number() {
    match parse_source(b"route tcp db: 5432 { }") {
        Some(Ok(ast)) => match &ast.block.body[0] {
            Statement::Route(r) => match r {
                kayche::ast::Route::TCP(t) => assert_eq!(t.target.port, 5432),
                _ => panic!("expected a tcp route"),
            },
            _ => panic!("expected a route"),
        },
        _ => panic!("expected the source to parse"),
    }
}

use kayche::analyze::RouteKind as Kind;
use kayche::vm::{Instruction, InstructionPushRoute, InstructionPushTable, Value as VmValue, VirtualMachine};

#[test]
fn machine_builds_routes_from_instructions() {
    let mut vm: VirtualMachine<f64> = VirtualMachine::create_vm();
    let program = vec![
        Instruction::PushRoute(InstructionPushRoute {
            route_kind: Kind::TCP,
            service_target: "db".to_string(),
            service_port: 5432,
            hostname: None,
            span: span(),
        }),
        Instruction::PushNumber(1.5),
        Instruction::SetRouteProperty("weight".to_string()),
        Instruction::PushString("x".to_string()),
        Instruction::SetRouteProperty("name".to_string()),
        Instruction::SetRoute,
    ];
    let routes = vm.run(program);
    assert_eq!(routes.len(), 1);
    assert_eq!(routes[0].kind, Kind::TCP);
    assert_eq!(routes[0].service_target, "db");
    assert_eq!(routes[0].port, 5432);
    assert_eq!(routes[0].properties.len(), 2);
    assert_eq!(routes[0].properties[0].0, "weight");
    assert!(matches!(routes[0].properties[0].1, VmValue::Number(n) if n == 1.5));
    assert_eq!(routes[0].properties[1].0, "name");
    assert_eq!(vm.n, 0);
    assert_eq!(vm.instruction_at, 6);
}

#[test]
fn machine_keeps_locals_globals_and_tables() {
    let mut vm: VirtualMachine<i64> = VirtualMachine::create_vm();
    vm.process(&Instruction::PushBoolean(true));
    vm.process(&Instruction::SetLocal(2));
    assert_eq!(vm.locals.len(), 3);
    assert!(matches!(vm.locals[0], VmValue::Nil));
    assert!(matches!(vm.locals[2], VmValue::Boolean(true)));
    vm.process(&Instruction::PushNil);
    vm.process(&Instruction::SetGlobal("g".to_string()));
    vm.process(&Instruction::PushNumber(7));
    vm.process(&Instruction::SetGlobal("g".to_string()));
    assert_eq!(vm.globals.len(), 1);
    vm.process(&Instruction::PushGlobal("g".to_string()));
    assert!(matches!(vm.stack[0], VmValue::Number(7)));
    vm.process(&Instruction::SetLocal(0));
    vm.process(&Instruction::PushTable(InstructionPushTable { alloc: 1 }));
    vm.process(&Instruction::PushString("k".to_string()));
    vm.process(&Instruction::PushLocal(0));
    vm.process(&Instruction::SetTable);
    assert_eq!(vm.n, 1);
    match &vm.stack[0] {
        VmValue::Table(t) => {
            assert_eq!(t.len(), 1);
            assert_eq!(t[0].0, "k");
            assert!(matches!(t[0].1, VmValue::Number(7)));
        }
        _ => panic!("expected a table"),
    }
}

use kayche::visit::Visitor;

struct Counter {
    assigns: usize,
    lets: usize,
    routes: usize,
}

impl Visitor for Counter {
    fn visit_assign(&mut self, _assign: &kayche::ast::Assign) {
        self.assigns += 1;
    }

    fn visit_route(&mut self, _route: &kayche::ast::Route) {
        self.routes += 1;
    }

    fn visit_var(&mut self, _var: &kayche::ast::LetStatement) {
        self.lets += 1;
    }
}

#[test]
fn visitor_sees_each_statement_by_kind() {
    let ast = match parse_source(b"let a = 1\nb = 2\nc = 3\nroute tcp db: 1 { }") {
        Some(Ok(ast)) => ast,
        _ => panic!("expected the source to parse"),
    };
    let mut counter = Counter { assigns: 0, lets: 0, routes: 0 };
    counter.visit_ast(&ast);
    assert_eq!((counter.assigns, counter.lets, counter.routes), (2, 1, 1));
}

use kayche::compiler::{Compiler, VMState};

fn compiler() -> Compiler {
    Compiler { vm_state: VMState { instructions: vec![], locals: vec![] }, next_instrucion: 0 }
}

#[test]
fn compiler_emits_instructions_for_statements() {
    let ast = match parse_source(b"let a = 1\na = true\nb = \"s\"\nlet t = { k = nil, 2, }") {
        Some(Ok(ast)) => ast,
        _ => panic!("expected the source to parse"),
    };
    let mut c = compiler();
    let code = c.compile(ast);
    assert_eq!(c.vm_state.locals, vec!["a".to_string(), "t".to_string()]);
    assert_eq!(c.next_instrucion, code.len());
    let shapes: Vec<String> = code
        .iter()
        .map(|i| match i {
            Instruction::PushNumber(n) => format!("number {n}"),
            Instruction::PushString(s) => format!("string {s}"),
            Instruction::PushBoolean(b) => format!("boolean {b}"),
            Instruction::PushNil => "nil".to_string(),
            Instruction::PushTable(_) => "table".to_string(),
            Instruction::SetLocal(i) => format!("set local {i}"),
            Instruction::SetGlobal(k) => format!("set global {k}"),
            Instruction::SetTable => "set table".to_string(),
            _ => "other".to_string(),
        })
        .collect();
    assert_eq!(
        shapes,
        vec![
            "number 1",
            "set local 0",
            "boolean true",
            "set local 0",
            "string \"s\"",
            "set global b",
            "table",
            "string k",
            "nil",
            "set table",
            "number 2",
            "set local 1",
        ]
    );
}

#[test]
fn compiled_route_runs_on_the_machine() {
    let ast = match parse_source(b"route \"a.example.com\" -> web: 80 { name = \"a\" weight = 3 }") {
        Some(Ok(ast)) => ast,
        _ => panic!("expected the source to parse"),
    };
    let mut c = compiler();
    let code = c.compile(ast);
    assert_eq!(code.len(), 6);
    let program: Vec<Instruction<f64>> = code
        .into_iter()
        .map(|i| match i {
            Instruction::PushNumber(n) => Instruction::PushNumber(n.parse().unwrap()),
            Instruction::PushString(s) => Instruction::PushString(s),
            Instruction::PushRoute(r) => Instruction::PushRoute(r),
            Instruction::SetRouteProperty(k) => Instruction::SetRouteProperty(k),
            Instruction::SetRoute => Instruction::SetRoute,
            _ => panic!("unexpected instruction"),
        })
        .collect();
    let mut vm: VirtualMachine<f64> = VirtualMachine::create_vm();
    let routes = vm.run(program);
    assert_eq!(routes.len(), 1);
    assert_eq!(routes[0].kind, Kind::HTTP);
    assert_eq!(routes[0].hostname, Some("\"a.example.com\"".to_string()));
    assert_eq!(routes[0].service_target, "web");
    assert_eq!(routes[0].port, 80);
    assert_eq!(routes[0].properties[0].0, "name");
    assert!(matches!(routes[0].properties[1].1, VmValue::Number(n) if n == 3.0));
}

#[test]
fn vm_values_name_their_kinds() {
    assert_eq!(VmValue::<f64>::Boolean(true).kind_name(), "bool");
    assert_eq!(VmValue::<f64>::Nil.kind_name(), "nil");
    assert_eq!(VmValue::<f64>::Number(1.5).kind_name(), "number");
    assert_eq!(VmValue::<f64>::String("a".to_string()).kind_name(), "string");
    assert_eq!(VmValue::<f64>::Table(vec![]).kind_name(), "table");
}
