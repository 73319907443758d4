use mesh::config::{
    AppConfig, AppSection, ClientIntegrationsSection, ConfigError, ExternalEndpointResolution,
    RegistrySection, SecuritySection, ServerSection,
};

fn valid_config() -> AppConfig {
    AppConfig {
        app: AppSection {
            name: "mesh_service".to_string(),
            environment: Some("test".to_string()),
        },
        client_integrations: ClientIntegrationsSection {
            allow_logging_middleware: true,
            allow_request_timeout_middleware: true,
        },
        server: ServerSection {
            host: "127.0.0.1".to_string(),
            port: 3080,
            request_timeout_secs: 60,
        },
        registry: RegistrySection {
            heartbeat_interval_secs: 5,
            service_ttl_secs: 15,
            external_endpoint_resolution: ExternalEndpointResolution::Disabled,
            public_host: None,
        },
        security: SecuritySection {
            require_mesh_token: true,
            mesh_token: Some("test-mesh-token".to_string()),
        },
    }
}

#[test]
fn validate_accepts_heartbeat_interval_lower_than_ttl() {
    let config = valid_config();

    assert!(config.validate().is_ok());
}

#[test]
fn validate_rejects_heartbeat_interval_equal_to_ttl() {
    let mut config = valid_config();
    config.registry.heartbeat_interval_secs = 15;

    let error = config
        .validate()
        .expect_err("heartbeat interval equal to ttl should fail");

    assert!(matches!(error, ConfigError::InvalidRegistryHeartbeatTtlPair));
}

#[test]
fn validate_rejects_heartbeat_interval_higher_than_ttl() {
    let mut config = valid_config();
    config.registry.heartbeat_interval_secs = 20;

    let error = config
        .validate()
        .expect_err("heartbeat interval higher than ttl should fail");

    assert!(matches!(error, ConfigError::InvalidRegistryHeartbeatTtlPair));
}

#[test]
fn validate_rejects_missing_mesh_token_when_required() {
    let mut config = valid_config();
    config.security.mesh_token = Some("   ".to_string());

    let error = config
        .validate()
        .expect_err("missing required mesh token should fail");

    assert!(matches!(error, ConfigError::MissingMeshToken));
}

#[test]
fn validate_accepts_missing_mesh_token_when_disabled() {
    let mut config = valid_config();
    config.security.require_mesh_token = false;
    config.security.mesh_token = None;

    assert!(config.validate().is_ok());
}

#[test]
fn validate_rejects_blank_app_name() {
    let mut config = valid_config();
    config.app.name = " \t ".to_string();

    assert!(matches!(config.validate(), Err(ConfigError::MissingAppName)));
}

#[test]
fn validate_rejects_blank_server_host() {
    let mut config = valid_config();
    config.server.host = String::new();

    assert!(matches!(config.validate(), Err(ConfigError::MissingServerHost)));
}

#[test]
fn validate_rejects_zero_port() {
    let mut config = valid_config();
    config.server.port = 0;

    assert!(matches!(config.validate(), Err(ConfigError::InvalidServerPort)));
}

#[test]
fn validate_rejects_zero_request_timeout() {
    let mut config = valid_config();
    config.server.request_timeout_secs = 0;

    assert!(matches!(config.validate(), Err(ConfigError::InvalidRequestTimeout)));
}

#[test]
fn validate_rejects_zero_heartbeat_interval() {
    let mut config = valid_config();
    config.registry.heartbeat_interval_secs = 0;

    assert!(matches!(config.validate(), Err(ConfigError::InvalidHeartbeatInterval)));
}

#[test]
fn validate_rejects_zero_ttl() {
    let mut config = valid_config();
    config.registry.service_ttl_secs = 0;

    assert!(matches!(config.validate(), Err(ConfigError::InvalidRegistryTtl)));
}

#[test]
fn validate_reports_the_first_problem_in_check_order() {
    let mut config = valid_config();
    config.server.port = 0;
    config.registry.service_ttl_secs = 0;
    config.security.mesh_token = None;

    assert!(matches!(config.validate(), Err(ConfigError::InvalidServerPort)));
}

#[test]
fn validate_rejects_absent_mesh_token_when_required() {
    let mut config = valid_config();
    config.security.mesh_token = None;

    assert!(matches!(config.validate(), Err(ConfigError::MissingMeshToken)));
}

#[test]
fn config_error_messages_match_their_rules() {
    assert_eq!(ConfigError::MissingAppName.message(), "app.name cannot be empty");
    assert_eq!(ConfigError::MissingServerHost.message(), "server.host cannot be empty");
    assert_eq!(ConfigError::InvalidServerPort.message(), "server.port cannot be 0");
    assert_eq!(
        ConfigError::InvalidRequestTimeout.message(),
        "server.request_timeout_secs cannot be 0"
    );
    assert_eq!(
        ConfigError::InvalidHeartbeatInterval.message(),
        "registry.heartbeat_interval_secs cannot be 0"
    );
    assert_eq!(
        ConfigError::InvalidRegistryTtl.message(),
        "registry.service_ttl_secs cannot be 0"
    );
    assert_eq!(
        ConfigError::InvalidRegistryHeartbeatTtlPair.message(),
        "registry.heartbeat_interval_secs must be lower than registry.service_ttl_secs"
    );
    assert_eq!(
        ConfigError::MissingMeshToken.message(),
        "security.mesh_token cannot be empty when security.require_mesh_token is true"
    );
}
