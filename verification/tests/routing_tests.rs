use rebab::config::{load, IpAddress, Router, Rule, SocketAddress};
use rebab::routing::RebabProxy;

fn rule(prefix: Option<&str>, host: Option<&str>, port: Option<u16>) -> Rule {
    Rule {
        frontend_prefix: prefix.map(|s| s.to_string()),
        backend_host: host.map(|s| s.to_string()),
        backend_port: port,
        command: None,
    }
}

fn readme_proxy() -> RebabProxy {
    RebabProxy {
        router: Router {
            frontend: SocketAddress { ip: IpAddress::V4([0, 0, 0, 0]), port: 8080 },
            rules: vec![
                rule(Some("/api/"), None, Some(8000)),
                rule(Some("/example/"), Some("example.com"), None),
                rule(None, None, Some(3000)),
            ],
        },
    }
}

#[test]
fn routes_api_to_localhost_port() {
    let p = readme_proxy();
    assert_eq!(p.uri2uri(Some("/api/users")), Some("http://localhost:8000/api/users".to_string()));
}

#[test]
fn routes_example_to_host_with_frontend_port() {
    let p = readme_proxy();
    assert_eq!(
        p.uri2uri(Some("/example/docs")),
        Some("http://example.com:8080/example/docs".to_string())
    );
}

#[test]
fn routes_everything_else_to_default_rule() {
    let p = readme_proxy();
    assert_eq!(
        p.uri2uri(Some("/anything-else")),
        Some("http://localhost:3000/anything-else".to_string())
    );
}

#[test]
fn keeps_query_string() {
    let p = readme_proxy();
    assert_eq!(
        p.route("/api/items?id=3&x=y"),
        Some("http://localhost:8000/api/items?id=3&x=y".to_string())
    );
}

#[test]
fn first_matching_rule_wins() {
    let p = RebabProxy {
        router: Router {
            frontend: SocketAddress { ip: IpAddress::V4([0, 0, 0, 0]), port: 80 },
            rules: vec![rule(Some("/a"), None, Some(1)), rule(Some("/a/b"), None, Some(2))],
        },
    };
    assert_eq!(p.route("/a/b/c"), Some("http://localhost:1/a/b/c".to_string()));
}

#[test]
fn no_rule_no_route() {
    let p = RebabProxy {
        router: Router {
            frontend: SocketAddress { ip: IpAddress::V4([0, 0, 0, 0]), port: 80 },
            rules: vec![rule(Some("/api"), None, Some(1))],
        },
    };
    assert_eq!(p.uri2uri(Some("/other")), None);
    assert_eq!(p.route("/ap"), None);
}

#[test]
fn missing_path_is_root() {
    let p = RebabProxy {
        router: Router {
            frontend: SocketAddress { ip: IpAddress::V4([0, 0, 0, 0]), port: 80 },
            rules: vec![rule(Some("/"), None, Some(5))],
        },
    };
    assert_eq!(p.uri2uri(None), Some("http://localhost:5/".to_string()));
}

#[test]
fn invalid_target_falls_back_to_root() {
    let p = RebabProxy {
        router: Router {
            frontend: SocketAddress { ip: IpAddress::V4([0, 0, 0, 0]), port: 80 },
            rules: vec![rule(None, Some("bad host"), Some(5))],
        },
    };
    assert_eq!(p.route("/x"), Some("http://bad host:5/x".to_string()));
    assert_eq!(p.uri2uri(Some("/x")), Some("/".to_string()));
}

#[test]
fn command_line_rules_only_serve_what_the_file_leaves() {
    let file = Router {
        frontend: SocketAddress { ip: IpAddress::V4([0, 0, 0, 0]), port: 8080 },
        rules: vec![rule(Some("/api"), None, Some(1))],
    };
    let cli = vec![rule(Some("/api"), None, Some(2)), rule(None, None, Some(3))];
    let p = RebabProxy { router: load(Some(file), None, cli) };
    assert_eq!(p.route("/api/x"), Some("http://localhost:1/api/x".to_string()));
    assert_eq!(p.route("/web"), Some("http://localhost:3/web".to_string()));
}
