use mesh::config::{
    AppConfig, AppSection, ClientIntegrationsSection, ExternalEndpointResolution, RegistrySection,
    SecuritySection, ServerSection,
};
use mesh::controllers::{
    find_balanced_service, find_service, finish_registration, health_check, heartbeat_service,
    invalid_body_reply, list_services, plan_registration, timeout_reply, unregister_service,
    welcome, EndpointPlan, MeshHeaders, ServiceRegistrationRequest,
};
use mesh::registry::RegistryStore;
use mesh::responses::{ApiReply, FoundService, ServiceRegistrationResponse};

const NOW: u64 = 1_700_000_000;

fn test_config() -> AppConfig {
    AppConfig {
        app: AppSection {
            name: "mesh_service".to_string(),
            environment: Some("test".to_string()),
        },
        client_integrations: ClientIntegrationsSection {
            allow_logging_middleware: true,
            allow_request_timeout_middleware: true,
        },
        server: ServerSection {
            host: "127.0.0.1".to_string(),
            port: 3080,
            request_timeout_secs: 60,
        },
        registry: RegistrySection {
            heartbeat_interval_secs: 5,
            service_ttl_secs: 15,
            external_endpoint_resolution: ExternalEndpointResolution::Disabled,
            public_host: None,
        },
        security: SecuritySection {
            require_mesh_token: true,
            mesh_token: Some("test-mesh-token".to_string()),
        },
    }
}

fn no_headers() -> MeshHeaders {
    MeshHeaders {
        advertise_host: None,
        forwarded_for: None,
        container_id: None,
        endpoint_scope: None,
    }
}

fn forwarded(ip: &str) -> MeshHeaders {
    MeshHeaders {
        forwarded_for: Some(ip.to_string()),
        ..no_headers()
    }
}

fn advertised(host: &str) -> MeshHeaders {
    MeshHeaders {
        advertise_host: Some(host.to_string()),
        ..no_headers()
    }
}

fn internal_scope() -> MeshHeaders {
    MeshHeaders {
        endpoint_scope: Some("internal".to_string()),
        ..no_headers()
    }
}

fn request(name: &str, version: &str, ip: Option<&str>, port: u16) -> ServiceRegistrationRequest {
    ServiceRegistrationRequest {
        service_name: name.to_string(),
        service_version: version.to_string(),
        service_ip: ip.map(|s| s.to_string()),
        service_port: port,
        external_host: None,
        external_port: None,
        external_scheme: None,
    }
}

fn register(
    store: &mut RegistryStore,
    payload: ServiceRegistrationRequest,
    headers: &MeshHeaders,
    now: u64,
) -> ApiReply<ServiceRegistrationResponse> {
    let config = test_config();
    match plan_registration(payload, headers, &config.registry.external_endpoint_resolution) {
        Ok(plan) => finish_registration(store, plan, None, now),
        Err(reply) => reply,
    }
}

fn public(reply: ApiReply<FoundService>) -> mesh::instance::ServiceEndpointResponse {
    match reply.body.response {
        Some(FoundService::Public(p)) => p,
        other => panic!("expected a public endpoint, got {:?}", other),
    }
}

#[test]
fn heartbeat_service_heartbeat_refreshes_registered_service() {
    let mut store = RegistryStore::new(15);
    let headers = forwarded("10.0.0.20");

    let reply = register(&mut store, request("orders", "1.2.3", None, 3000), &headers, NOW);
    assert_eq!(reply.status, 200);

    let reply = heartbeat_service(&mut store, request("orders", "1.2.3", None, 3000), &headers, NOW + 1);

    assert_eq!(reply.status, 200);
    assert_eq!(
        reply.body.response_message,
        "Service heartbeat refreshed successfully"
    );
    let response = reply.body.response.expect("response should be present");
    assert_eq!(response.service_name, "orders");
    assert_eq!(response.service_version, "1.2.3");
    assert_eq!(response.ip, "10.0.0.20");
    assert_eq!(response.port, 3000);
    assert_eq!(response.internal_ip, "10.0.0.20");
    assert_eq!(response.internal_port, 3000);
    let shape = format!("{:?}", response);
    assert!(!shape.contains("service_ip"));
    assert!(!shape.contains("service_port"));
    assert!(reply.body.error.is_none());
}

#[test]
fn heartbeat_response_uses_registered_external_endpoint() {
    let mut store = RegistryStore::new(15);
    let mut registration = request("orders", "1.2.3", Some("orders-1"), 30304);
    registration.external_host = Some("127.0.0.1".to_string());
    registration.external_port = Some(32770);
    registration.external_scheme = Some("http".to_string());

    let reply = register(&mut store, registration, &no_headers(), NOW);
    assert_eq!(reply.status, 200);

    let reply = heartbeat_service(
        &mut store,
        request("orders", "1.2.3", Some("orders-1"), 30304),
        &no_headers(),
        NOW + 1,
    );

    assert_eq!(reply.status, 200);
    let response = reply.body.response.expect("response should be present");
    assert_eq!(response.ip, "127.0.0.1");
    assert_eq!(response.port, 32770);
    assert_eq!(response.internal_ip, "orders-1");
    assert_eq!(response.internal_port, 30304);
    assert_eq!(response.url, "http://127.0.0.1:32770");
    let shape = format!("{:?}", response);
    assert!(!shape.contains("service_ip"));
    assert!(!shape.contains("service_port"));
    assert!(reply.body.error.is_none());
}

#[test]
fn heartbeat_service_heartbeat_rejects_unknown_service() {
    let mut store = RegistryStore::new(15);

    let reply = heartbeat_service(
        &mut store,
        request("orders", "1.2.3", None, 3000),
        &forwarded("10.0.0.20"),
        NOW,
    );

    assert_eq!(reply.status, 404);
    assert_eq!(reply.body.response_message, "Service instance is not registered.");
    assert!(reply.body.response.is_none());
    let error = reply.body.error.expect("error should be present");
    assert_eq!(error.message, "Service instance is not registered.");
    assert_eq!(error.code, "SERVICE_NOT_REGISTERED");
}

#[test]
fn register_find_and_unregister_service() {
    let mut store = RegistryStore::new(15);
    let headers = forwarded("10.0.0.20");

    let reply = register(&mut store, request("orders", "1.2.3", None, 3000), &headers, NOW);
    assert_eq!(reply.status, 200);
    assert_eq!(reply.body.response_message, "Service registered successfully");
    let response = reply.body.response.expect("response should be present");
    assert_eq!(response.service_name, "orders");
    assert_eq!(response.service_version, "1.2.3");
    assert_eq!(response.ip, "10.0.0.20");
    assert_eq!(response.port, 3000);
    assert_eq!(response.internal_ip, "10.0.0.20");
    assert_eq!(response.internal_port, 3000);
    assert_eq!(response.url, "http://10.0.0.20:3000");
    let shape = format!("{:?}", response);
    assert!(!shape.contains("service_ip"));
    assert!(!shape.contains("service_port"));
    assert!(reply.body.error.is_none());

    let reply = find_service(&mut store, "orders", "^1.0.0", 3000, &no_headers(), NOW);
    assert_eq!(reply.status, 200);
    assert_eq!(reply.body.response_message, "Service found successfully");
    assert!(reply.body.error.is_none());
    let found = public(reply);
    assert_eq!(found.name, "orders");
    assert_eq!(found.version, "1.2.3");
    assert_eq!(found.ip, "10.0.0.20");
    assert_eq!(found.port, 3000);
    assert_eq!(found.internal_ip, "10.0.0.20");
    assert_eq!(found.internal_port, 3000);

    let reply = list_services(&mut store, NOW);
    assert_eq!(reply.status, 200);
    assert_eq!(reply.body.response_message, "Services listed successfully");
    assert!(reply.body.error.is_none());
    let listing = reply.body.response.expect("listing should be present");
    assert_eq!(listing.services_count, 1);
    assert_eq!(listing.services[0].name, "orders");

    let reply = unregister_service(&mut store, request("orders", "1.2.3", None, 3000), &headers, NOW);
    assert_eq!(reply.status, 200);
    assert_eq!(reply.body.response_message, "Service unregistered successfully");
    let response = reply.body.response.expect("response should be present");
    assert_eq!(response.service_name, "orders");
    assert_eq!(response.service_version, "1.2.3");
    assert_eq!(response.ip, "10.0.0.20");
    assert_eq!(response.port, 3000);
    assert_eq!(response.internal_ip, "10.0.0.20");
    assert_eq!(response.internal_port, 3000);
    let shape = format!("{:?}", response);
    assert!(!shape.contains("service_ip"));
    assert!(!shape.contains("service_port"));
    assert!(reply.body.error.is_none());

    let reply = find_service(&mut store, "orders", "^1.0.0", 3000, &no_headers(), NOW);
    assert_eq!(reply.status, 404);
    assert_eq!(reply.body.response_message, "No matching service found.");
    assert!(reply.body.response.is_none());
    let error = reply.body.error.expect("error should be present");
    assert_eq!(error.message, "No matching service found.");
    assert_eq!(error.code, "SERVICE_NOT_FOUND");
}

#[test]
fn register_find_unregister_service_unregister_rejects_unknown_service() {
    let mut store = RegistryStore::new(15);

    let reply = unregister_service(
        &mut store,
        request("orders", "1.2.3", Some("10.0.0.20"), 3000),
        &no_headers(),
        NOW,
    );

    assert_eq!(reply.status, 404);
    assert_eq!(reply.body.response_message, "Service instance is not registered.");
    assert!(reply.body.response.is_none());
    let error = reply.body.error.expect("error should be present");
    assert_eq!(error.message, "Service instance is not registered.");
    assert_eq!(error.code, "SERVICE_NOT_REGISTERED");
}

#[test]
fn find_service_without_port_round_robins_across_instances() {
    let mut store = RegistryStore::new(15);

    for (ip, port) in [("10.0.0.30", 3002), ("10.0.0.10", 3000), ("10.0.0.20", 3001)] {
        let reply = register(&mut store, request("orders", "1.2.3", None, port), &forwarded(ip), NOW);
        assert_eq!(reply.status, 200);
    }

    let mut ports = Vec::new();
    for _ in 0..4 {
        let reply = find_balanced_service(&mut store, "orders", "^1.0.0", &no_headers(), NOW);
        assert_eq!(reply.status, 200);
        assert_eq!(reply.body.response_message, "Service found successfully");
        ports.push(public(reply).port as u64);
    }

    assert_eq!(ports, vec![3000, 3001, 3002, 3000]);
}

#[test]
fn register_service_accepts_explicit_external_endpoint() {
    let mut store = RegistryStore::new(15);
    let mut registration = request("orders", "1.2.3", None, 3000);
    registration.external_host = Some("orders.example.com".to_string());
    registration.external_port = Some(443);
    registration.external_scheme = Some("https".to_string());

    let reply = register(&mut store, registration, &advertised("orders-1"), NOW);
    assert_eq!(reply.status, 200);
    assert_eq!(reply.body.response_message, "Service registered successfully");
    assert!(reply.body.error.is_none());
    let response = reply.body.response.expect("response should be present");
    assert_eq!(response.ip, "orders.example.com");
    assert_eq!(response.port, 443);
    assert_eq!(response.internal_ip, "orders-1");
    assert_eq!(response.internal_port, 3000);
    assert_eq!(response.url, "https://orders.example.com:443");

    let reply = find_service(&mut store, "orders", "^1.0.0", 443, &no_headers(), NOW);
    assert_eq!(reply.status, 200);
    assert_eq!(reply.body.response_message, "Service found successfully");
    assert!(reply.body.error.is_none());
    let found = public(reply);
    assert_eq!(found.ip, "orders.example.com");
    assert_eq!(found.port, 443);
    assert_eq!(found.internal_ip, "orders-1");
    assert_eq!(found.internal_port, 3000);
    assert_eq!(found.url, "https://orders.example.com:443");

    let reply = find_service(&mut store, "orders", "^1.0.0", 3000, &no_headers(), NOW);
    assert_eq!(reply.status, 404);

    let reply = find_service(&mut store, "orders", "^1.0.0", 443, &internal_scope(), NOW);
    assert_eq!(reply.status, 200);
    match reply.body.response {
        Some(FoundService::Internal(instance)) => {
            assert_eq!(instance.ip, "orders-1");
            assert_eq!(instance.port, 3000);
        }
        other => panic!("expected the stored instance, got {:?}", other),
    }
}

#[test]
fn register_service_rejects_incomplete_external_endpoint() {
    let mut store = RegistryStore::new(15);
    let mut registration = request("orders", "1.2.3", None, 3000);
    registration.external_port = Some(443);

    let reply = register(&mut store, registration, &advertised("orders-1"), NOW);

    assert_eq!(reply.status, 400);
    assert!(reply.body.response.is_none());
    assert_eq!(
        reply.body.error.expect("error should be present").code,
        "INVALID_EXTERNAL_ENDPOINT"
    );
}

#[test]
fn register_service_rejects_invalid_external_scheme() {
    let mut store = RegistryStore::new(15);
    let mut registration = request("orders", "1.2.3", None, 3000);
    registration.external_host = Some("orders.example.com".to_string());
    registration.external_port = Some(443);
    registration.external_scheme = Some("ftp".to_string());

    let reply = register(&mut store, registration, &advertised("orders-1"), NOW);

    assert_eq!(reply.status, 400);
    assert!(reply.body.response.is_none());
    assert_eq!(
        reply.body.error.expect("error should be present").code,
        "INVALID_EXTERNAL_ENDPOINT"
    );
}

#[test]
fn register_rejects_invalid_version() {
    let mut store = RegistryStore::new(15);

    let reply = register(&mut store, request("orders", "not-semver", None, 3000), &no_headers(), NOW);

    assert_eq!(reply.status, 400);
    assert_eq!(reply.body.response_message, "Invalid service version 'not-semver'.");
    assert!(reply.body.response.is_none());
    assert_eq!(
        reply.body.error.expect("error should be present").code,
        "INVALID_SERVICE_VERSION"
    );
}

#[test]
fn root_returns_welcome_message() {
    let reply = welcome(&test_config());

    assert_eq!(reply.status, 200);
    assert_eq!(reply.body.response_message, "Welcome to Rusty Mesh");
    let response = reply.body.response.expect("response should be present");
    assert_eq!(response.status, "ok");
    assert_eq!(response.service, "mesh_service");
    assert_eq!(response.health_url, "/api/v1/mesh/health");
    assert_eq!(response.registry_url, "/api/v1/mesh/services");
    assert!(reply.body.error.is_none());
}

#[test]
fn mesh_base_returns_welcome_message() {
    let reply = welcome(&test_config());

    assert_eq!(reply.status, 200);
    assert_eq!(reply.body.response_message, "Welcome to Rusty Mesh");
    let response = reply.body.response.expect("response should be present");
    assert_eq!(response.status, "ok");
    assert_eq!(response.service, "mesh_service");
    assert!(reply.body.error.is_none());
}

#[test]
fn health_returns_service_status() {
    let reply = health_check(&test_config());

    assert_eq!(reply.status, 200);
    assert_eq!(reply.body.response_message, "Mesh service is healthy");
    let response = reply.body.response.expect("response should be present");
    assert_eq!(response.status, "ok");
    assert_eq!(response.service, "mesh_service");
    assert_eq!(response.registry_policy.heartbeat_interval_secs, 5);
    assert_eq!(response.registry_policy.service_ttl_secs, 15);
    assert!(reply.body.error.is_none());
}

#[test]
fn registration_prefers_body_ip_then_advertised_host_then_forwarded_for() {
    let mut store = RegistryStore::new(15);
    let headers = MeshHeaders {
        advertise_host: Some("  ::1  ".to_string()),
        forwarded_for: Some("10.9.9.9, 10.0.0.1".to_string()),
        ..no_headers()
    };

    let reply = register(&mut store, request("orders", "1.2.3", Some("10.1.1.1"), 3000), &headers, NOW);
    assert_eq!(reply.body.response.expect("registered").internal_ip, "10.1.1.1");

    let reply = register(&mut store, request("orders", "1.2.3", None, 3001), &headers, NOW);
    assert_eq!(reply.body.response.expect("registered").internal_ip, "127.0.0.1");

    let reply = register(&mut store, request("orders", "1.2.3", None, 3002), &forwarded(" 10.9.9.9 , 10.0.0.1"), NOW);
    assert_eq!(reply.body.response.expect("registered").internal_ip, "10.9.9.9");

    let reply = register(&mut store, request("orders", "1.2.3", None, 3003), &no_headers(), NOW);
    assert_eq!(reply.body.response.expect("registered").internal_ip, "127.0.0.1");
}

#[test]
fn docker_resolution_plans_container_inspection() {
    let headers = MeshHeaders {
        container_id: Some("  abc123  ".to_string()),
        ..no_headers()
    };
    let plan = plan_registration(
        request("orders", "1.2.3", None, 3000),
        &headers,
        &ExternalEndpointResolution::Docker,
    )
    .expect("plan should succeed");
    match plan.endpoint {
        EndpointPlan::InspectContainer(id) => assert_eq!(id, "abc123"),
        other => panic!("expected container inspection, got {:?}", other),
    }

    let plan = plan_registration(
        request("orders", "1.2.3", None, 3000),
        &headers,
        &ExternalEndpointResolution::Disabled,
    )
    .expect("plan should succeed");
    assert!(matches!(plan.endpoint, EndpointPlan::Skip));
}

#[test]
fn inspected_endpoint_is_registered_when_planned() {
    let mut store = RegistryStore::new(15);
    let headers = MeshHeaders {
        container_id: Some("abc123".to_string()),
        advertise_host: Some("orders-1".to_string()),
        ..no_headers()
    };
    let plan = plan_registration(
        request("orders", "1.2.3", None, 3000),
        &headers,
        &ExternalEndpointResolution::Docker,
    )
    .expect("plan should succeed");
    let inspected = mesh::instance::ExternalServiceEndpoint {
        ip: "127.0.0.1".to_string(),
        port: 49153,
        scheme: "http".to_string(),
    };
    let reply = finish_registration(&mut store, plan, Some(inspected), NOW);
    let response = reply.body.response.expect("registered");
    assert_eq!(response.url, "http://127.0.0.1:49153");
    assert_eq!(response.internal_ip, "orders-1");
}

#[test]
fn lease_expires_after_ttl() {
    let mut store = RegistryStore::new(15);
    register(&mut store, request("orders", "1.2.3", None, 3000), &forwarded("10.0.0.20"), NOW);

    assert_eq!(find_service(&mut store, "orders", "^1.0.0", 3000, &no_headers(), NOW + 15).status, 200);
    assert_eq!(find_service(&mut store, "orders", "^1.0.0", 3000, &no_headers(), NOW + 16).status, 404);
    let listing = list_services(&mut store, NOW + 16).body.response.expect("listing");
    assert_eq!(listing.services_count, 0);
}

#[test]
fn invalid_requirement_is_rejected() {
    let mut store = RegistryStore::new(15);

    let reply = find_balanced_service(&mut store, "orders", "not a requirement", &no_headers(), NOW);

    assert_eq!(reply.status, 400);
    assert_eq!(
        reply.body.response_message,
        "Invalid service version requirement 'not a requirement'."
    );
    assert_eq!(
        reply.body.error.expect("error should be present").code,
        "INVALID_SERVICE_VERSION_REQUIREMENT"
    );
}

#[test]
fn invalid_body_and_timeout_replies() {
    let reply = invalid_body_reply("heartbeat", "missing field `service_port`");
    assert_eq!(reply.status, 400);
    assert_eq!(
        reply.body.response_message,
        "Invalid service heartbeat request body: missing field `service_port`"
    );
    assert_eq!(reply.body.error.expect("error").code, "INVALID_REQUEST_BODY");

    let reply = timeout_reply();
    assert_eq!(reply.status, 408);
    assert_eq!(reply.body.response_message, "Request timed out");
    assert_eq!(reply.body.error.expect("error").code, "REQUEST_TIMEOUT");
}
