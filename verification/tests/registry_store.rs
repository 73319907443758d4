use mesh::instance::ExternalServiceEndpoint;
use mesh::registry::{RegistryError, RegistryStore};

fn endpoint(ip: &str, port: u16, scheme: &str) -> ExternalServiceEndpoint {
    ExternalServiceEndpoint {
        ip: ip.to_string(),
        port,
        scheme: scheme.to_string(),
    }
}

#[test]
fn register_refreshes_and_finds_matching_service() {
    let mut registry = RegistryStore::new(15);

    let first_key = registry
        .register(
            "orders".to_string(),
            "1.2.3".to_string(),
            "127.0.0.1".to_string(),
            3000,
            None,
        )
        .expect("service registration should succeed");
    let second_key = registry
        .register(
            "orders".to_string(),
            "1.2.3".to_string(),
            "127.0.0.1".to_string(),
            3000,
            None,
        )
        .expect("service refresh should succeed");

    assert_eq!(first_key, second_key);

    let service = registry
        .find("orders", "^1.0.0", 3000)
        .expect("lookup should succeed")
        .expect("service should be found");

    assert_eq!(service.name, "orders");
    assert_eq!(service.version, "1.2.3");
}

#[test]
fn service_external_response_uses_external_endpoint_when_available() {
    let mut registry = RegistryStore::new(15);

    registry
        .register(
            "orders".to_string(),
            "1.2.3".to_string(),
            "orders-1".to_string(),
            30304,
            Some(endpoint("127.0.0.1", 32770, "https")),
        )
        .expect("service registration should succeed");

    let service = registry
        .list()
        .pop()
        .expect("service should be registered")
        .external_response();

    assert_eq!(service.name, "orders");
    assert_eq!(service.version, "1.2.3");
    assert_eq!(service.ip, "127.0.0.1");
    assert_eq!(service.port, 32770);
    assert_eq!(service.internal_ip, "orders-1");
    assert_eq!(service.internal_port, 30304);
    assert_eq!(service.url, "https://127.0.0.1:32770");
}

#[test]
fn registry_store_heartbeat_refreshes_registered_service() {
    let mut registry = RegistryStore::new(15);

    let register_key = registry
        .register(
            "orders".to_string(),
            "1.2.3".to_string(),
            "127.0.0.1".to_string(),
            3000,
            None,
        )
        .expect("service registration should succeed");

    let refreshed_service = registry
        .heartbeat(
            "orders".to_string(),
            "1.2.3".to_string(),
            "127.0.0.1".to_string(),
            3000,
        )
        .expect("heartbeat should refresh registered service");

    assert_eq!(
        register_key,
        RegistryStore::get_key(
            &refreshed_service.name,
            &refreshed_service.version,
            &refreshed_service.ip,
            refreshed_service.port
        )
    );
}

#[test]
fn heartbeat_returns_refreshed_service_with_external_endpoint() {
    let mut registry = RegistryStore::new(15);

    registry
        .register(
            "orders".to_string(),
            "1.2.3".to_string(),
            "orders-1".to_string(),
            30304,
            Some(endpoint("127.0.0.1", 32770, "http")),
        )
        .expect("service registration should succeed");

    let refreshed_service = registry
        .heartbeat(
            "orders".to_string(),
            "1.2.3".to_string(),
            "orders-1".to_string(),
            30304,
        )
        .expect("heartbeat should refresh registered service");

    assert_eq!(refreshed_service.ip, "orders-1");
    assert_eq!(refreshed_service.port, 30304);
    assert_eq!(refreshed_service.external_ip.as_deref(), Some("127.0.0.1"));
    assert_eq!(refreshed_service.external_port, Some(32770));
}

#[test]
fn registry_store_heartbeat_rejects_unknown_service() {
    let mut registry = RegistryStore::new(15);

    let error = registry
        .heartbeat(
            "orders".to_string(),
            "1.2.3".to_string(),
            "127.0.0.1".to_string(),
            3000,
        )
        .expect_err("unknown service heartbeat should fail");

    assert!(matches!(error, RegistryError::ServiceNotRegistered));
}

#[test]
fn unregister_removes_service() {
    let mut registry = RegistryStore::new(15);

    registry
        .register(
            "catalog".to_string(),
            "2.0.0".to_string(),
            "127.0.0.1".to_string(),
            3001,
            None,
        )
        .expect("service registration should succeed");

    let removed_service = registry
        .unregister(
            "catalog".to_string(),
            "2.0.0".to_string(),
            "127.0.0.1".to_string(),
            3001,
        )
        .expect("registered service should be removed");

    assert_eq!(removed_service.name, "catalog");
    assert_eq!(removed_service.version, "2.0.0");
    assert_eq!(removed_service.ip, "127.0.0.1");
    assert_eq!(removed_service.port, 3001);

    let service = registry
        .find("catalog", "^2.0.0", 3001)
        .expect("lookup should succeed");

    assert!(service.is_none());
}

#[test]
fn registry_store_unregister_rejects_unknown_service() {
    let mut registry = RegistryStore::new(15);

    let error = registry
        .unregister(
            "catalog".to_string(),
            "2.0.0".to_string(),
            "127.0.0.1".to_string(),
            3001,
        )
        .expect_err("unknown service unregister should fail");

    assert!(matches!(error, RegistryError::ServiceNotRegistered));
}

/// Registers with a one-second lease, then looks up two seconds later: the
/// clock is passed explicitly instead of sleeping.
#[test]
fn expired_services_are_cleaned_up() {
    let mut registry = RegistryStore::new(1);
    let now = 1_700_000_000;

    registry
        .register_at(
            "payments".to_string(),
            "1.0.0".to_string(),
            "127.0.0.1".to_string(),
            3002,
            None,
            now,
        )
        .expect("service registration should succeed");

    let later = now + 2;
    let service = registry
        .find_at("payments", "^1.0.0", 3002, later)
        .expect("lookup should succeed");

    assert!(service.is_none());
    assert!(registry.list_at(later).is_empty());
}

#[test]
fn find_filters_by_port() {
    let mut registry = RegistryStore::new(15);

    registry
        .register(
            "orders".to_string(),
            "1.2.3".to_string(),
            "127.0.0.1".to_string(),
            3000,
            None,
        )
        .expect("service registration should succeed");
    registry
        .register(
            "orders".to_string(),
            "1.2.3".to_string(),
            "127.0.0.1".to_string(),
            4000,
            None,
        )
        .expect("service registration should succeed");

    let service = registry
        .find("orders", "^1.0.0", 4000)
        .expect("lookup should succeed")
        .expect("service should be found");

    assert_eq!(service.port, 4000);
}

#[test]
fn find_filters_by_external_port_when_available() {
    let mut registry = RegistryStore::new(15);

    registry
        .register(
            "orders".to_string(),
            "1.2.3".to_string(),
            "orders-1".to_string(),
            30304,
            Some(endpoint("127.0.0.1", 32770, "http")),
        )
        .expect("service registration should succeed");

    let internal_port_lookup = registry
        .find("orders", "^1.0.0", 30304)
        .expect("lookup should succeed");

    assert!(internal_port_lookup.is_none());

    let service = registry
        .find("orders", "^1.0.0", 32770)
        .expect("lookup should succeed")
        .expect("service should be found");

    assert_eq!(service.ip, "orders-1");
    assert_eq!(service.port, 30304);
    assert_eq!(service.external_port, Some(32770));
}

#[test]
fn find_balanced_cycles_through_sorted_matching_services() {
    let mut registry = RegistryStore::new(15);

    registry
        .register(
            "orders".to_string(),
            "1.2.3".to_string(),
            "10.0.0.3".to_string(),
            3003,
            None,
        )
        .expect("service registration should succeed");
    registry
        .register(
            "orders".to_string(),
            "1.2.3".to_string(),
            "10.0.0.1".to_string(),
            3001,
            None,
        )
        .expect("service registration should succeed");
    registry
        .register(
            "orders".to_string(),
            "1.2.3".to_string(),
            "10.0.0.2".to_string(),
            3002,
            None,
        )
        .expect("service registration should succeed");

    let first = registry
        .find_balanced("orders", "^1.0.0")
        .expect("lookup should succeed")
        .expect("service should be found");
    let second = registry
        .find_balanced("orders", "^1.0.0")
        .expect("lookup should succeed")
        .expect("service should be found");
    let third = registry
        .find_balanced("orders", "^1.0.0")
        .expect("lookup should succeed")
        .expect("service should be found");
    let fourth = registry
        .find_balanced("orders", "^1.0.0")
        .expect("lookup should succeed")
        .expect("service should be found");

    assert_eq!(first.ip, "10.0.0.1");
    assert_eq!(second.ip, "10.0.0.2");
    assert_eq!(third.ip, "10.0.0.3");
    assert_eq!(fourth.ip, "10.0.0.1");
}

#[test]
fn find_balanced_filters_by_semver_requirement() {
    let mut registry = RegistryStore::new(15);

    registry
        .register(
            "orders".to_string(),
            "1.2.3".to_string(),
            "10.0.0.1".to_string(),
            3001,
            None,
        )
        .expect("service registration should succeed");
    registry
        .register(
            "orders".to_string(),
            "2.0.0".to_string(),
            "10.0.0.2".to_string(),
            3002,
            None,
        )
        .expect("service registration should succeed");

    let service = registry
        .find_balanced("orders", "^2.0.0")
        .expect("lookup should succeed")
        .expect("service should be found");

    assert_eq!(service.version, "2.0.0");
}

#[test]
fn rejects_invalid_versions() {
    let mut registry = RegistryStore::new(15);

    let error = registry
        .register(
            "orders".to_string(),
            "not-semver".to_string(),
            "127.0.0.1".to_string(),
            3000,
            None,
        )
        .expect_err("invalid semver should be rejected");

    assert!(matches!(error, RegistryError::InvalidVersion(_)));
}

#[test]
fn heartbeat_fallback_matches_external_identity() {
    let mut registry = RegistryStore::new(15);

    registry
        .register(
            "catalog".to_string(),
            "1.0.0".to_string(),
            "internal-ip".to_string(),
            8080,
            Some(endpoint("external-ip", 30000, "http")),
        )
        .expect("registration should succeed");

    registry
        .heartbeat(
            "catalog".to_string(),
            "1.0.0".to_string(),
            "internal-ip".to_string(),
            8080,
        )
        .expect("heartbeat via internal identity should succeed");

    registry
        .heartbeat(
            "catalog".to_string(),
            "1.0.0".to_string(),
            "external-ip".to_string(),
            30000,
        )
        .expect("heartbeat via external identity should succeed");

    registry
        .heartbeat(
            "catalog".to_string(),
            "1.0.0".to_string(),
            "external-ip".to_string(),
            9999,
        )
        .expect_err("heartbeat with wrong port should fail");
}

#[test]
fn heartbeat_fallback_respects_service_name_and_version() {
    let mut registry = RegistryStore::new(15);

    registry
        .register(
            "service-a".to_string(),
            "1.0.0".to_string(),
            "127.0.0.1".to_string(),
            8080,
            None,
        )
        .expect("registration should succeed");

    registry
        .heartbeat(
            "service-b".to_string(),
            "1.0.0".to_string(),
            "127.0.0.1".to_string(),
            8080,
        )
        .expect_err("heartbeat with wrong name should fail");

    registry
        .heartbeat(
            "service-a".to_string(),
            "2.0.0".to_string(),
            "127.0.0.1".to_string(),
            8080,
        )
        .expect_err("heartbeat with wrong version should fail");
}

#[test]
fn instances_whose_keys_read_alike_are_kept_apart() {
    let mut registry = RegistryStore::new(15);

    let first = registry
        .register("orders".to_string(), "1.0.0".to_string(), "10.0.0.1".to_string(), 12, None)
        .expect("first registration should succeed");
    let second = registry
        .register("orders".to_string(), "1.0.0".to_string(), "10.0.0.11".to_string(), 2, None)
        .expect("second registration should succeed");

    assert_eq!(first, second);
    let listed = registry.list();
    assert_eq!(listed.len(), 2);
    assert_eq!(listed[0].ip, "10.0.0.1");
    assert_eq!(listed[0].port, 12);
    assert_eq!(listed[1].ip, "10.0.0.11");
    assert_eq!(listed[1].port, 2);

    let removed = registry
        .unregister("orders".to_string(), "1.0.0".to_string(), "10.0.0.11".to_string(), 2)
        .expect("second instance should be removed");
    assert_eq!(removed.ip, "10.0.0.11");
    let listed = registry.list();
    assert_eq!(listed.len(), 1);
    assert_eq!(listed[0].ip, "10.0.0.1");
}

#[test]
fn heartbeat_and_unregister_need_the_exact_identity() {
    let mut registry = RegistryStore::new(15);

    registry
        .register("orders".to_string(), "1.0.0".to_string(), "10.0.0.1".to_string(), 12, None)
        .expect("registration should succeed");

    let error = registry
        .heartbeat("orders".to_string(), "1.0.0".to_string(), "10.0.0.11".to_string(), 2)
        .expect_err("a heartbeat for another identity should fail");
    assert!(matches!(error, RegistryError::ServiceNotRegistered));

    let error = registry
        .unregister("orders".to_string(), "1.0.0".to_string(), "10.0.0.11".to_string(), 2)
        .expect_err("unregistering another identity should fail");
    assert!(matches!(error, RegistryError::ServiceNotRegistered));

    assert_eq!(registry.list().len(), 1);
}

#[test]
fn parsed_operations_follow_the_given_outcomes() {
    let mut registry = RegistryStore::new(15);
    let now = 1_700_000_000;

    let error = registry
        .register_parsed(false, "orders".to_string(), "v1".to_string(), "10.0.0.1".to_string(), 3000, None, now)
        .expect_err("a version that does not parse is refused");
    assert!(matches!(error, RegistryError::InvalidVersion(ref v) if v == "v1"));

    for (version, ip) in [("1.0.0", "10.0.0.1"), ("2.0.0", "10.0.0.2"), ("1.5.0", "10.0.0.3")] {
        registry
            .register_parsed(true, "orders".to_string(), version.to_string(), ip.to_string(), 3000, None, now)
            .expect("registration should succeed");
    }

    let accepted = vec!["1.0.0".to_string(), "1.5.0".to_string()];
    let first = registry
        .find_balanced_parsed("orders", "^1", Some(&accepted), now)
        .expect("lookup should succeed")
        .expect("a candidate exists");
    let second = registry
        .find_balanced_parsed("orders", "^1", Some(&accepted), now)
        .expect("lookup should succeed")
        .expect("a candidate exists");
    let third = registry
        .find_balanced_parsed("orders", "^1", Some(&accepted), now)
        .expect("lookup should succeed")
        .expect("a candidate exists");
    assert_eq!(first.ip, "10.0.0.1");
    assert_eq!(second.ip, "10.0.0.3");
    assert_eq!(third.ip, "10.0.0.1");

    let only_two = vec!["2.0.0".to_string()];
    let found = registry
        .find_parsed("orders", "^2", Some(&only_two), 3000, now)
        .expect("lookup should succeed")
        .expect("a candidate exists");
    assert_eq!(found.version, "2.0.0");

    assert!(matches!(
        registry.find_parsed("orders", "bad", None, 3000, now),
        Err(RegistryError::InvalidVersionRequirement(ref t)) if t == "bad"
    ));

    let refreshed = registry
        .heartbeat_parsed(true, "orders".to_string(), "2.0.0".to_string(), "10.0.0.2".to_string(), 3000, now + 5)
        .expect("heartbeat should succeed");
    assert_eq!(refreshed.timestamp, now + 5);
    assert!(matches!(
        registry.heartbeat_parsed(false, "orders".to_string(), "x".to_string(), "10.0.0.2".to_string(), 3000, now),
        Err(RegistryError::InvalidVersion(_))
    ));

    let removed = registry
        .unregister_parsed(true, "orders".to_string(), "2.0.0".to_string(), "10.0.0.2".to_string(), 3000, now + 5)
        .expect("unregistration should succeed");
    assert_eq!(removed.ip, "10.0.0.2");
    assert_eq!(registry.list_at(now + 5).len(), 2);
}
