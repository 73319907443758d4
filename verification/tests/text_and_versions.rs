use mesh::controllers::{first_comma_segment, normalize_loopback_ip};
use mesh::instance::{build_url, ExternalServiceEndpoint, ServiceInstance};
use mesh::text::{str_ascii_lowercase, str_eq_ignore_ascii_case, str_is_blank, trim_str};
use mesh::versioning::{parse_requirement, parse_version, satisfies};

#[test]
fn trimming_follows_unicode_whitespace() {
    assert_eq!(trim_str("  a b \t\n"), "a b");
    assert_eq!(trim_str("\u{00a0}x\u{2003}"), "x");
    assert_eq!(trim_str(""), "");
    assert!(str_is_blank(" \r\n\t"));
    assert!(!str_is_blank(" x "));
}

#[test]
fn ascii_case_helpers() {
    assert_eq!(str_ascii_lowercase("HTTPS"), "https");
    assert_eq!(str_ascii_lowercase("ÄB"), "Äb");
    assert!(str_eq_ignore_ascii_case("Transfer-Encoding: Chunked", "transfer-encoding: chunked"));
    assert!(!str_eq_ignore_ascii_case("abc", "abd"));
}

#[test]
fn urls_render_ports_in_decimal() {
    assert_eq!(build_url("http", "h", 0), "http://h:0");
    assert_eq!(build_url("https", "mesh.local", 3080), "https://mesh.local:3080");
    assert_eq!(build_url("http", "10.0.0.1", 65535), "http://10.0.0.1:65535");
}

#[test]
fn loopback_addresses_are_normalized() {
    assert_eq!(normalize_loopback_ip("::1"), "127.0.0.1");
    assert_eq!(normalize_loopback_ip("::ffff:127.0.0.1"), "127.0.0.1");
    assert_eq!(normalize_loopback_ip("10.0.0.1"), "10.0.0.1");
    assert_eq!(first_comma_segment("10.0.0.1, 10.0.0.2"), "10.0.0.1");
    assert_eq!(first_comma_segment("10.0.0.1"), "10.0.0.1");
}

#[test]
fn versions_and_requirements_go_through_semver() {
    assert!(parse_version("1.2.3").is_some());
    assert!(parse_version("not-semver").is_none());
    assert!(parse_version("1.2").is_none());
    assert!(parse_requirement("^1.0.0").is_some());
    assert!(parse_requirement("not a requirement").is_none());

    let caret = parse_requirement("^1.0.0").expect("valid requirement");
    assert!(satisfies(&caret, "1.2.3"));
    assert!(!satisfies(&caret, "2.0.0"));
    assert!(!satisfies(&caret, "garbage"));
    let range = parse_requirement(">=1.2, <2").expect("valid requirement");
    assert!(satisfies(&range, "1.9.0"));
    assert!(!satisfies(&range, "1.1.0"));
}

fn instance(external: Option<(&str, u16, Option<&str>)>) -> ServiceInstance {
    ServiceInstance {
        name: "orders".to_string(),
        version: "1.2.3".to_string(),
        ip: "orders-1".to_string(),
        port: 3000,
        timestamp: 42,
        external_ip: external.map(|e| e.0.to_string()),
        external_port: external.map(|e| e.1),
        external_scheme: external.and_then(|e| e.2.map(|s| s.to_string())),
    }
}

#[test]
fn external_response_prefers_the_external_endpoint() {
    let r = instance(Some(("orders.example.com", 443, Some("https")))).external_response();
    assert_eq!(r.ip, "orders.example.com");
    assert_eq!(r.port, 443);
    assert_eq!(r.internal_ip, "orders-1");
    assert_eq!(r.internal_port, 3000);
    assert_eq!(r.timestamp, 42);
    assert_eq!(r.url, "https://orders.example.com:443");

    let r = instance(Some(("127.0.0.1", 32770, Some("  ")))).external_response();
    assert_eq!(r.url, "http://127.0.0.1:32770");

    let r = instance(None).external_response();
    assert_eq!(r.ip, "orders-1");
    assert_eq!(r.port, 3000);
    assert_eq!(r.url, "http://orders-1:3000");
}

#[test]
fn lookup_port_is_the_external_port_when_present() {
    assert_eq!(instance(Some(("h", 443, None))).lookup_port(), 443);
    assert_eq!(instance(None).lookup_port(), 3000);
}

#[test]
fn clones_keep_every_field() {
    let source = instance(Some(("h", 443, Some("https"))));
    let copy = source.clone();
    assert_eq!(copy.name, source.name);
    assert_eq!(copy.external_ip, source.external_ip);
    assert_eq!(copy.external_scheme, source.external_scheme);
    let endpoint = ExternalServiceEndpoint {
        ip: "h".to_string(),
        port: 1,
        scheme: "http".to_string(),
    };
    let copy = endpoint.clone();
    assert_eq!(copy.ip, "h");
    assert_eq!(copy.port, 1);
    assert_eq!(copy.scheme, "http");
}
