use rebab::body::StaticBody;
use rebab::config::{IpAddress, SocketAddress};
use rebab::log::{addr_to_url, log_line};
use rebab::number::{parse_u16, push_decimal, push_hex, IntErrorKind};
use rebab::parameter::Route;

fn chars(s: &str) -> Vec<char> {
    s.chars().collect()
}

#[test]
fn parse_port_numbers() {
    assert_eq!(parse_u16(&chars("8080")), Ok(8080));
    assert_eq!(parse_u16(&chars("0")), Ok(0));
    assert_eq!(parse_u16(&chars("65535")), Ok(65535));
    assert_eq!(parse_u16(&chars("0065535")), Ok(65535));
    assert_eq!(parse_u16(&chars("65536")), Err(IntErrorKind::PosOverflow));
    assert_eq!(parse_u16(&chars("")), Err(IntErrorKind::Empty));
    assert_eq!(parse_u16(&chars("+")), Err(IntErrorKind::InvalidDigit));
    assert_eq!(parse_u16(&chars("12a")), Err(IntErrorKind::InvalidDigit));
    assert_eq!(parse_u16(&chars("999999x")), Err(IntErrorKind::PosOverflow));
    for s in ["8080", "0", "65535", "0065535", "65536", "", "+", "-", "12a", "999999x", "+7", "-7", " 1", "１"] {
        let ours = parse_u16(&chars(s));
        let std = s.parse::<u16>();
        match (ours, std) {
            (Ok(a), Ok(b)) => assert_eq!(a, b),
            (Err(k), Err(e)) => assert_eq!(k.message(), e.to_string()),
            (a, b) => panic!("{s}: {a:?} vs {b:?}"),
        }
    }
}

#[test]
fn decimal_and_hex_text() {
    for n in [0u64, 7, 10, 255, 65535, u64::MAX] {
        let mut v = Vec::new();
        push_decimal(&mut v, n);
        assert_eq!(v.iter().collect::<String>(), n.to_string());
        let mut w = Vec::new();
        push_hex(&mut w, n);
        assert_eq!(w.iter().collect::<String>(), format!("{:x}", n));
    }
}

#[test]
fn log_lines() {
    assert_eq!(log_line("start listen 0.0.0.0:8080"), "rebab: start listen 0.0.0.0:8080");
}

#[test]
fn url_of_unspecified_address() {
    let a = SocketAddress { ip: IpAddress::V4([0, 0, 0, 0]), port: 8080 };
    assert_eq!(addr_to_url(a), "http://localhost:8080");
    let b = SocketAddress { ip: IpAddress::V6([0; 8]), port: 80 };
    assert_eq!(addr_to_url(b), "http://localhost:80");
}

#[test]
fn url_of_ipv4_address() {
    let a = SocketAddress { ip: IpAddress::V4([127, 0, 0, 1]), port: 3000 };
    assert_eq!(addr_to_url(a), "http://127.0.0.1:3000");
}

#[test]
fn url_of_ipv6_addresses() {
    let cases: [([u16; 8], &str); 8] = [
        ([0, 0, 0, 0, 0, 0, 0, 1], "::1"),
        ([0x2001, 0xdb8, 0, 0, 0, 0, 0, 1], "2001:db8::1"),
        ([0x2001, 0xdb8, 0, 0, 1, 0, 0, 1], "2001:db8::1:0:0:1"),
        ([0x2001, 0xdb8, 0, 1, 0, 0, 0, 1], "2001:db8:0:1::1"),
        ([0, 0, 0, 0, 0, 0xffff, 0xc0a8, 0x0001], "::ffff:192.168.0.1"),
        ([1, 0, 2, 0, 3, 0, 4, 0], "1:0:2:0:3:0:4:0"),
        ([0xfe80, 0, 0, 0, 0x1ff, 0xfe23, 0x4567, 0x890a], "fe80::1ff:fe23:4567:890a"),
        ([1, 2, 3, 4, 5, 6, 0, 0], "1:2:3:4:5:6::"),
    ];
    for (s, text) in cases {
        let ours = addr_to_url(SocketAddress { ip: IpAddress::V6(s), port: 8080 });
        assert_eq!(ours, format!("http://[{}]:8080", text));
    }
}

#[test]
fn route_from_text() {
    let r = Route::from_str("^/api/(.*)=>3000:/v1/$1").unwrap();
    assert_eq!(r.port, 3000);
    assert_eq!(r.path, "^/api/(.*)");
    assert_eq!(r.path_into, "/v1/$1");
    let s = Route::from_str("/x=>80:a:b").unwrap();
    assert_eq!(s.path_into, "a:b");
}

#[test]
fn route_errors() {
    assert_eq!(Route::from_str("/x"), Err("Expected format: PATH_REGEX=>PORT:PATH_REPLACEMENT"));
    assert_eq!(Route::from_str("/x=>1:/a=>2:/b"), Err("Expected format: PATH_REGEX=>PORT:PATH_REPLACEMENT"));
    assert_eq!(Route::from_str("(=>1:/a"), Err("cannot compile path as regex"));
    assert_eq!(Route::from_str("/x=>1"), Err("Expected format after =>: PORT:PATH_REPLACEMENT"));
    assert_eq!(Route::from_str("/x=>http:/a"), Err("port cannot parse as u16"));
}

#[test]
fn route_listing() {
    let routes = vec![
        Route::from_str("^/api=>3000:/").unwrap(),
        Route::from_str("^/=>8080:/index").unwrap(),
    ];
    let lines = Route::prints(&routes);
    assert_eq!(lines, vec!["route  0 ^/api => 3000:/", "route  1 ^/    => 8080:/index"]);
    for (i, r) in routes.iter().enumerate() {
        let width = 5;
        assert_eq!(lines[i], format!("route {:>2} {:width$} => {}:{}", i, r.path, r.port, r.path_into, width = width));
    }
}

#[test]
fn static_body_yields_once() {
    let mut b = StaticBody::new(b"hello".to_vec());
    assert_eq!(b.size_hint(), 5);
    assert_eq!(b.next_frame(), Some(b"hello".to_vec()));
    assert_eq!(b.size_hint(), 0);
    assert_eq!(b.next_frame(), None);
}

#[test]
fn port_text_reads_back() {
    for port in [0u16, 1, 80, 443, 8080, 65535] {
        let mut v = Vec::new();
        push_decimal(&mut v, port as u64);
        assert_eq!(parse_u16(&v), Ok(port));
    }
}
