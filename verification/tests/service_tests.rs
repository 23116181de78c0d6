use rebab::config::{IpAddress, Router, Rule, SocketAddress};
use rebab::routing::RebabProxy;
use rebab::service::{
    hop_by_hop, original_authority, proto, proxy, response_headers, Authority, ForwardedHeaders,
    RequestHead,
};

fn head(host: Option<&str>, authority: Option<Authority>, path: Option<&str>) -> RequestHead {
    RequestHead {
        uri_text: path.unwrap_or("/").to_string(),
        authority,
        path_and_query: path.map(|s| s.to_string()),
        host_header: host.map(|s| s.to_string()),
    }
}

fn h(name: &str, value: &str) -> (String, Vec<u8>) {
    (name.to_string(), value.as_bytes().to_vec())
}

#[test]
fn proto_local_hosts_are_http() {
    assert_eq!(proto(&head(Some("localhost:8080"), None, None)), Some("http".to_string()));
    assert_eq!(proto(&head(Some("127.0.0.1"), None, None)), Some("http".to_string()));
    assert_eq!(proto(&head(Some("  localhost  "), None, None)), Some("http".to_string()));
}

#[test]
fn proto_other_hosts_are_https() {
    assert_eq!(proto(&head(Some("example.com"), None, None)), Some("https".to_string()));
    assert_eq!(proto(&head(Some("[::1]:8080"), None, None)), Some("https".to_string()));
    assert_eq!(proto(&head(Some("localhost.example"), None, None)), Some("https".to_string()));
}

#[test]
fn proto_needs_a_host() {
    assert_eq!(proto(&head(None, None, None)), None);
    assert_eq!(proto(&head(Some(" \t "), None, None)), None);
}

#[test]
fn authority_from_host_header() {
    let a = original_authority(&head(Some("example.com:8080"), None, None));
    assert_eq!(a, Some(Authority { text: "example.com:8080".to_string(), port: Some(8080) }));
    let b = original_authority(&head(Some("example.com"), None, None));
    assert_eq!(b, Some(Authority { text: "example.com".to_string(), port: None }));
}

#[test]
fn authority_prefers_request_target() {
    let t = Authority { text: "a.example:1".to_string(), port: Some(1) };
    assert_eq!(original_authority(&head(Some("b.example:2"), Some(t.clone()), None)), Some(t));
}

#[test]
fn authority_refuses_invalid_host() {
    assert_eq!(original_authority(&head(Some("bad host"), None, None)), None);
    assert_eq!(original_authority(&head(None, None, None)), None);
}

#[test]
fn hop_by_hop_names() {
    for n in ["connection", "te", "trailer", "transfer-encoding", "upgrade", "proxy-authenticate", "proxy-authorization"] {
        assert!(hop_by_hop(n));
    }
    assert!(!hop_by_hop("host"));
    assert!(!hop_by_hop("content-type"));
}

fn table() -> RebabProxy {
    RebabProxy {
        router: Router {
            frontend: SocketAddress { ip: IpAddress::V4([0, 0, 0, 0]), port: 8080 },
            rules: vec![Rule {
                frontend_prefix: Some("/api/".to_string()),
                backend_host: None,
                backend_port: Some(8000),
                command: None,
            }],
        },
    }
}

#[test]
fn proxy_plan_copies_end_to_end_headers() {
    let headers = vec![
        h("host", "localhost:8080"),
        h("connection", "keep-alive"),
        h("accept", "*/*"),
        h("upgrade", "h2c"),
        h("x-custom", "1"),
        h("accept", "text/html"),
    ];
    let plan = proxy(&table(), &head(Some("localhost:8080"), None, Some("/api/v")), headers).unwrap();
    assert_eq!(plan.target, "http://localhost:8000/api/v");
    assert_eq!(plan.headers, vec![h("accept", "*/*"), h("x-custom", "1"), h("accept", "text/html")]);
    assert_eq!(
        plan.forwarded,
        Some(ForwardedHeaders {
            host: "localhost:8080".to_string(),
            proto: "http".to_string(),
            port: Some(8080),
            forwarded: "proto=http;host=\"localhost:8080\"".to_string(),
        })
    );
}

#[test]
fn proxy_plan_without_host_has_no_forwarding_headers() {
    let plan = proxy(&table(), &head(None, None, Some("/api/")), vec![]).unwrap();
    assert_eq!(plan.forwarded, None);
}

#[test]
fn proxy_plan_https_without_port() {
    let plan = proxy(&table(), &head(Some("example.org"), None, Some("/api/")), vec![]).unwrap();
    let f = plan.forwarded.unwrap();
    assert_eq!(f.proto, "https");
    assert_eq!(f.port, None);
    assert_eq!(f.forwarded, "proto=https;host=\"example.org\"");
}

#[test]
fn proxy_without_route_answers_not_found() {
    let e = proxy(&table(), &head(None, None, Some("/nowhere?q=1")), vec![h("a", "b")]).unwrap_err();
    assert_eq!(e, "rebab no route for /nowhere?q=1");
}

#[test]
fn response_drops_hop_by_hop_headers() {
    let out = response_headers(vec![
        h("content-type", "text/plain"),
        h("transfer-encoding", "chunked"),
        h("host", "x"),
        h("proxy-authenticate", "Basic"),
    ]);
    assert_eq!(out, vec![h("content-type", "text/plain"), h("host", "x")]);
}
