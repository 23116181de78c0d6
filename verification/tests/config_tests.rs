use rebab::config::{default_frontend, load, IpAddress, Router, Rule, RuleError, RuleField, SocketAddress};
use rebab::number::IntErrorKind;

fn rule(prefix: Option<&str>, host: Option<&str>, port: Option<u16>, command: Option<&str>) -> Rule {
    Rule {
        frontend_prefix: prefix.map(|s| s.to_string()),
        backend_host: host.map(|s| s.to_string()),
        backend_port: port,
        command: command.map(|s| s.to_string()),
    }
}

#[test]
fn rule_with_prefix_and_port() {
    assert_eq!(Rule::parse("prefix=/api/,port=8000"), Ok(rule(Some("/api/"), None, Some(8000), None)));
}

#[test]
fn rule_with_prefix_and_host() {
    assert_eq!(
        Rule::parse("prefix=/example/,host=example.com"),
        Ok(rule(Some("/example/"), Some("example.com"), None, None))
    );
}

#[test]
fn rule_with_port_only() {
    assert_eq!(Rule::parse("port=3000"), Ok(rule(None, None, Some(3000), None)));
}

#[test]
fn rule_with_command() {
    assert_eq!(
        Rule::parse("prefix=/api,port=3000,command=npm run dev"),
        Ok(rule(Some("/api"), None, Some(3000), Some("npm run dev")))
    );
}

#[test]
fn rule_with_full_field_names() {
    assert_eq!(
        Rule::parse("frontend_prefix=/a,backend_host=h,backend_port=1"),
        Rule::parse("prefix=/a,host=h,port=1")
    );
    assert_eq!(Rule::parse("frontend_prefix=/a,backend_host=h,backend_port=1"), Ok(rule(Some("/a"), Some("h"), Some(1), None)));
}

#[test]
fn rule_ampersand_separates_like_comma() {
    assert_eq!(Rule::parse("prefix=/a&port=9"), Rule::parse("prefix=/a,port=9"));
}

#[test]
fn rule_ignores_unknown_keys() {
    assert_eq!(Rule::parse("color=blue,port=1,x"), Ok(rule(None, None, Some(1), None)));
}

#[test]
fn rule_decodes_form_escapes() {
    assert_eq!(
        Rule::parse("prefix=%2Fapi%2F,command=npm+run+dev"),
        Ok(rule(Some("/api/"), None, None, Some("npm run dev")))
    );
}

#[test]
fn rule_empty_text_has_no_fields() {
    assert_eq!(Rule::parse(""), Ok(rule(None, None, None, None)));
}

#[test]
fn rule_duplicate_through_alias() {
    let e = Rule::parse("port=1,backend_port=2").unwrap_err();
    assert_eq!(e, RuleError::DuplicateField(RuleField::BackendPort));
    assert_eq!(e.message(), "duplicate field `backend_port`");
}

#[test]
fn rule_duplicate_prefix() {
    let e = Rule::parse("prefix=/a,prefix=/b").unwrap_err();
    assert_eq!(e.message(), "duplicate field `frontend_prefix`");
}

#[test]
fn rule_invalid_ports() {
    assert_eq!(Rule::parse("port=abc"), Err(RuleError::InvalidPort(IntErrorKind::InvalidDigit)));
    assert_eq!(Rule::parse("port="), Err(RuleError::InvalidPort(IntErrorKind::Empty)));
    assert_eq!(Rule::parse("port=70000"), Err(RuleError::InvalidPort(IntErrorKind::PosOverflow)));
    assert_eq!(Rule::parse("port=-1"), Err(RuleError::InvalidPort(IntErrorKind::InvalidDigit)));
    assert_eq!(Rule::parse("port=+80"), Err(RuleError::InvalidPort(IntErrorKind::InvalidDigit)));
    assert_eq!(Rule::parse("port=%2B80"), Ok(rule(None, None, Some(80), None)));
    assert_eq!(Rule::parse("port=abc").unwrap_err().message(), "invalid digit found in string");
    assert_eq!(Rule::parse("port=").unwrap_err().message(), "cannot parse integer from empty string");
    assert_eq!(
        Rule::parse("port=70000").unwrap_err().message(),
        "number too large to fit in target type"
    );
}

#[test]
fn rule_errors_match_serde_messages() {
    for text in ["port=1,port=2", "port=x", "port=", "port=99999", "prefix=a,frontend_prefix=b", "command=a,command=b"] {
        let ours: Result<Rule, String> = text.parse::<Rule>();
        let form = text.replace(',', "&");
        let theirs: Result<Vec<(String, String)>, _> = serde_urlencoded::from_str(&form);
        assert!(theirs.is_ok());
        assert!(ours.is_err(), "{text}");
    }
    assert_eq!("port=1,port=2".parse::<Rule>(), Err("duplicate field `backend_port`".to_string()));
    assert_eq!("port=99999".parse::<Rule>(), Err("number too large to fit in target type".to_string()));
}

#[test]
fn load_uses_default_frontend() {
    let r = load(None, None, vec![rule(None, None, Some(1), None)]);
    assert_eq!(r.frontend, SocketAddress { ip: IpAddress::V4([0, 0, 0, 0]), port: 8080 });
    assert_eq!(r.frontend, default_frontend());
    assert_eq!(r.rules, vec![rule(None, None, Some(1), None)]);
}

#[test]
fn load_appends_cli_rules_after_file_rules() {
    let file = Router {
        frontend: SocketAddress { ip: IpAddress::V4([127, 0, 0, 1]), port: 9000 },
        rules: vec![rule(Some("/a"), None, Some(1), None)],
    };
    let r = load(Some(file), None, vec![rule(Some("/extra"), None, Some(4000), None)]);
    assert_eq!(r.frontend.port, 9000);
    assert_eq!(r.rules, vec![rule(Some("/a"), None, Some(1), None), rule(Some("/extra"), None, Some(4000), None)]);
}

#[test]
fn load_cli_frontend_overrides_file() {
    let file = Router { frontend: SocketAddress { ip: IpAddress::V4([0, 0, 0, 0]), port: 8080 }, rules: vec![] };
    let cli = SocketAddress { ip: IpAddress::V4([127, 0, 0, 1]), port: 9090 };
    let r = load(Some(file), Some(cli), vec![]);
    assert_eq!(r.frontend, cli);
    assert!(r.rules.is_empty());
}
