use mesh::client::{encode_version_requirement, peer_url, MeshRegistryClient, ServiceInstance};

fn client(
    external_host: Option<&str>,
    external_port: Option<u16>,
) -> MeshRegistryClient {
    MeshRegistryClient::new(
        "http://mesh:3080//",
        Some("  secret-token  ".to_string()),
        "user-service",
        "user-service",
        "1.0.0",
        4001,
        Some("   ".to_string()),
        external_host.map(|h| h.to_string()),
        external_port,
        "http",
    )
}

#[test]
fn version_requirements_are_percent_encoded() {
    assert_eq!(encode_version_requirement("^1.0.0"), "%5E1.0.0");
    assert_eq!(encode_version_requirement(">=1.2, <2"), "%3E%3D1.2,%20%3C2");
    assert_eq!(encode_version_requirement("=1.0.0"), "%3D1.0.0");
    assert_eq!(encode_version_requirement("1.0.0"), "1.0.0");
    assert_eq!(encode_version_requirement(""), "");
}

#[test]
fn client_settings_are_normalized() {
    let c = client(Some("  "), Some(8080));
    assert_eq!(c.services_url(), "http://mesh:3080/api/v1/mesh/services");
    assert_eq!(c.heartbeat_url(), "http://mesh:3080/api/v1/mesh/services/heartbeat");
    assert_eq!(c.bearer_token().as_deref(), Some("secret-token"));
    assert_eq!(c.container_id(), None);
    assert_eq!(c.advertised_host(), "user-service");
    assert_eq!(c.service_name(), "user-service");
    assert_eq!(c.service_version(), "1.0.0");
}

#[test]
fn discovery_url_encodes_the_requirement() {
    let c = client(None, None);
    assert_eq!(
        c.discovery_url("catalog-service"),
        "http://mesh:3080/api/v1/mesh/services/catalog-service/%5E1.0.0"
    );
}

#[test]
fn registration_body_sends_external_endpoint_only_when_complete() {
    let body = client(Some(" localhost "), Some(4101)).registration_body();
    assert_eq!(body.service_name, "user-service");
    assert_eq!(body.service_version, "1.0.0");
    assert_eq!(body.service_port, 4001);
    assert_eq!(body.service_ip, None);
    assert_eq!(body.external_host.as_deref(), Some("localhost"));
    assert_eq!(body.external_port, Some(4101));
    assert_eq!(body.external_scheme.as_deref(), Some("http"));

    let body = client(Some("localhost"), None).registration_body();
    assert_eq!(body.external_host, None);
    assert_eq!(body.external_port, None);
    assert_eq!(body.external_scheme, None);

    let body = client(None, Some(4101)).registration_body();
    assert_eq!(body.external_host, None);
    assert_eq!(body.external_port, None);
    assert_eq!(body.external_scheme, None);
}

#[test]
fn client_without_token_sends_none() {
    let c = MeshRegistryClient::new(
        "http://mesh:3080",
        Some("   ".to_string()),
        "catalog-service",
        "catalog-service",
        "1.0.0",
        4002,
        Some(" abc ".to_string()),
        None,
        None,
        "http",
    );
    assert_eq!(c.bearer_token(), None);
    assert_eq!(c.container_id().as_deref(), Some("abc"));
    assert_eq!(c.services_url(), "http://mesh:3080/api/v1/mesh/services");
}

#[test]
fn peer_url_joins_address_and_path() {
    let peer = ServiceInstance {
        name: "catalog-service".to_string(),
        ip: "10.0.0.7".to_string(),
        port: 4002,
    };
    assert_eq!(peer_url(&peer, "/feedback"), "http://10.0.0.7:4002/feedback");
}
