//! The Kubernetes documents that describe checked routes, and how their
//! texts are put together into one output.
use vstd::prelude::*;
use crate::analyze::{HTTPRoute, TCPRoute};

verus! {

/// A Gateway API `HTTPRoute` document.
pub struct K8sHTTPRoute {
    pub api_version: String,
    pub kind: String,
    pub metadata: Metadata,
    pub spec: HTTPRouteSpec,
}

/// A Traefik `IngressRouteTCP` document.
pub struct K8sTCPRoute {
    pub api_version: String,
    pub kind: String,
    pub metadata: Metadata,
    pub spec: TCPRouteSpec,
}

pub struct TCPRouteSpec {
    pub entry_points: Vec<String>,
    pub routes: Vec<TCPRouteRule>,
}

pub struct TCPRouteRule {
    pub match_rule: String,
    pub middlewares: Vec<TCPRouteMiddleware>,
    pub services: Vec<BackendRef>,
}

pub struct TCPRouteMiddleware {
    pub name: String,
    pub namespace: String,
}

pub struct Metadata {
    pub name: String,
    pub namespace: String,
}

pub struct HTTPRouteSpec {
    pub parent_refs: Vec<ParentRef>,
    pub hostnames: Vec<String>,
    pub rules: Vec<HTTPRouteRule>,
}

pub struct HTTPRouteRule {
    pub backend_refs: Vec<BackendRef>,
    pub filters: Vec<Filter>,
}

pub struct Filter {
    pub filter_type: String,
    pub extension_ref: ExtensionRef,
}

pub struct ExtensionRef {
    pub group: String,
    pub kind: String,
    pub name: String,
}

pub struct BackendRef {
    pub name: String,
    pub port: usize,
}

pub struct ParentRef {
    pub name: String,
    pub namespace: String,
}

/// The document that describes an HTTP route: the route's name and
/// namespace, its gateway as parent, its host, and one rule that sends to
/// its service and port; a private route passes the middleware `middleware`
/// first.
pub open spec fn http_document_spec(d: K8sHTTPRoute, route: HTTPRoute, middleware: Seq<char>) -> bool {
    &&& d.api_version@ == "gateway.networking.k8s.io/v1"@
    &&& d.kind@ == "HTTPRoute"@
    &&& d.metadata.name@ == route.name@
    &&& d.metadata.namespace@ == route.namespace@
    &&& d.spec.parent_refs@.len() == 1
    &&& d.spec.parent_refs@[0].name@ == route.gateway.name@
    &&& d.spec.parent_refs@[0].namespace@ == route.gateway.namespace@
    &&& d.spec.hostnames@.len() == 1
    &&& d.spec.hostnames@[0]@ == route.hostname@
    &&& d.spec.rules@.len() == 1
    &&& d.spec.rules@[0].backend_refs@.len() == 1
    &&& d.spec.rules@[0].backend_refs@[0].name@ == route.service@
    &&& d.spec.rules@[0].backend_refs@[0].port == route.port
    &&& d.spec.rules@[0].filters@.len() == (if route.private {
        1int
    } else {
        0int
    })
    &&& route.private ==> {
        &&& d.spec.rules@[0].filters@[0].filter_type@ == "ExtensionRef"@
        &&& d.spec.rules@[0].filters@[0].extension_ref.group@ == "traefik.io"@
        &&& d.spec.rules@[0].filters@[0].extension_ref.kind@ == "Middleware"@
        &&& d.spec.rules@[0].filters@[0].extension_ref.name@ == middleware
    }
}

/// The document that describes a TCP route: the route's name and
/// namespace, its entry point, and one rule for any host that sends to its
/// service and port; a private route passes the middleware `middleware` of
/// `kube-system` first.
pub open spec fn tcp_document_spec(d: K8sTCPRoute, route: TCPRoute, middleware: Seq<char>) -> bool {
    &&& d.api_version@ == "traefik.io/v1alpha1"@
    &&& d.kind@ == "IngressRouteTCP"@
    &&& d.metadata.name@ == route.name@
    &&& d.metadata.namespace@ == route.namespace@
    &&& d.spec.entry_points@.len() == 1
    &&& d.spec.entry_points@[0]@ == route.entrypoint@
    &&& d.spec.routes@.len() == 1
    &&& d.spec.routes@[0].match_rule@ == "HostSNI(`*`)"@
    &&& d.spec.routes@[0].services@.len() == 1
    &&& d.spec.routes@[0].services@[0].name@ == route.service@
    &&& d.spec.routes@[0].services@[0].port == route.port
    &&& d.spec.routes@[0].middlewares@.len() == (if route.private {
        1int
    } else {
        0int
    })
    &&& route.private ==> {
        &&& d.spec.routes@[0].middlewares@[0].name@ == middleware
        &&& d.spec.routes@[0].middlewares@[0].namespace@ == "kube-system"@
    }
}

/// The document for an HTTP route.
pub fn http_document(route: &HTTPRoute, private_middleware_name: &str) -> (r: K8sHTTPRoute)
    ensures
        http_document_spec(r, *route, private_middleware_name@),
{
    let mut filters: Vec<Filter> = Vec::new();
    if route.private {
        filters.push(
            Filter {
                filter_type: String::from_str("ExtensionRef"),
                extension_ref: ExtensionRef {
                    group: String::from_str("traefik.io"),
                    kind: String::from_str("Middleware"),
                    name: String::from_str(private_middleware_name),
                },
            },
        );
    }
    let mut parent_refs: Vec<ParentRef> = Vec::new();
    parent_refs.push(
        ParentRef { name: route.gateway.name.clone(), namespace: route.gateway.namespace.clone() },
    );
    let mut hostnames: Vec<String> = Vec::new();
    hostnames.push(route.hostname.clone());
    let mut backend_refs: Vec<BackendRef> = Vec::new();
    backend_refs.push(BackendRef { name: route.service.clone(), port: route.port });
    let mut rules: Vec<HTTPRouteRule> = Vec::new();
    rules.push(HTTPRouteRule { backend_refs, filters });
    K8sHTTPRoute {
        api_version: String::from_str("gateway.networking.k8s.io/v1"),
        kind: String::from_str("HTTPRoute"),
        metadata: Metadata { name: route.name.clone(), namespace: route.namespace.clone() },
        spec: HTTPRouteSpec { parent_refs, hostnames, rules },
    }
}

/// The document for a TCP route.
pub fn tcp_document(route: &TCPRoute, private_middleware_name: &str) -> (r: K8sTCPRoute)
    ensures
        tcp_document_spec(r, *route, private_middleware_name@),
{
    let mut middlewares: Vec<TCPRouteMiddleware> = Vec::new();
    if route.private {
        middlewares.push(
            TCPRouteMiddleware {
                name: String::from_str(private_middleware_name),
                namespace: String::from_str("kube-system"),
            },
        );
    }
    let mut entry_points: Vec<String> = Vec::new();
    entry_points.push(route.entrypoint.clone());
    let mut services: Vec<BackendRef> = Vec::new();
    services.push(BackendRef { name: route.service.clone(), port: route.port });
    let mut routes: Vec<TCPRouteRule> = Vec::new();
    routes.push(
        TCPRouteRule { match_rule: String::from_str("HostSNI(`*`)"), middlewares, services },
    );
    K8sTCPRoute {
        api_version: String::from_str("traefik.io/v1alpha1"),
        kind: String::from_str("IngressRouteTCP"),
        metadata: Metadata { name: route.name.clone(), namespace: route.namespace.clone() },
        spec: TCPRouteSpec { entry_points, routes },
    }
}

/// Document texts one after the other, each but the first preceded by a
/// `---` line once something has been written.
pub open spec fn joined(docs: Seq<Seq<char>>) -> Seq<char>
    decreases docs.len(),
{
    if docs.len() == 0 {
        Seq::empty()
    } else {
        let p = joined(docs.drop_last());
        if p.len() > 0 {
            p + "---\n"@ + docs.last()
        } else {
            p + docs.last()
        }
    }
}

/// The texts of a list of strings.
pub open spec fn texts(v: Seq<String>) -> Seq<Seq<char>> {
    Seq::new(v.len(), |i: int| v[i]@)
}

/// Puts document texts together into one output.
pub fn join_documents(documents: &Vec<String>) -> (r: String)
    ensures
        r@ == joined(texts(documents@)),
{
    let mut output = String::new();
    let mut i: usize = 0;
    proof {
        assert(texts(documents@).subrange(0, 0) =~= Seq::<Seq<char>>::empty());
    }
    while i < documents.len()
        invariant
            i <= documents@.len(),
            output@ == joined(texts(documents@).subrange(0, i as int)),
        decreases documents.len() - i,
    {
        proof {
            let t = texts(documents@).subrange(0, i + 1);
            assert(t.drop_last() =~= texts(documents@).subrange(0, i as int));
            assert(t.last() == documents@[i as int]@);
        }
        if output.unicode_len() > 0 {
            output.append("---\n");
        }
        output.append(documents[i].as_str());
        i += 1;
    }
    proof {
        assert(texts(documents@).subrange(0, i as int) =~= texts(documents@));
    }
    output
}

} // verus!
