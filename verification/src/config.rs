//! Application configuration and its start-up validation.

use crate::text::{copy_str, is_blank, str_is_blank};
use vstd::prelude::*;

verus! {

/// Application-specific metadata section.
#[derive(Debug)]
pub struct AppSection {
    /// The name of the application.
    pub name: String,
    /// The current environment.
    pub environment: Option<String>,
}

/// Switches for optional client-facing middleware.
#[derive(Debug)]
pub struct ClientIntegrationsSection {
    pub allow_logging_middleware: bool,
    pub allow_request_timeout_middleware: bool,
}

/// Where and how the server listens.
#[derive(Debug)]
pub struct ServerSection {
    pub host: String,
    pub port: u16,
    pub request_timeout_secs: u64,
}

/// How external endpoints are resolved when a registration names none.
#[derive(Debug)]
pub enum ExternalEndpointResolution {
    /// Never inspect any platform API (configured as `none`).
    Disabled,
    /// Inspect the registering Docker container (configured as `docker`).
    Docker,
}

/// Lease policy and external endpoint resolution of the registry.
#[derive(Debug)]
pub struct RegistrySection {
    pub heartbeat_interval_secs: u64,
    pub service_ttl_secs: u64,
    pub external_endpoint_resolution: ExternalEndpointResolution,
    pub public_host: Option<String>,
}

/// Mesh token protection of the registry routes.
#[derive(Debug)]
pub struct SecuritySection {
    pub require_mesh_token: bool,
    pub mesh_token: Option<String>,
}

/// Root configuration structure containing all application settings.
#[derive(Debug)]
pub struct AppConfig {
    pub app: AppSection,
    pub client_integrations: ClientIntegrationsSection,
    pub server: ServerSection,
    pub registry: RegistrySection,
    pub security: SecuritySection,
}

/// Why a configuration is refused at start-up.
#[derive(Debug)]
pub enum ConfigError {
    MissingAppName,
    MissingServerHost,
    InvalidServerPort,
    InvalidRequestTimeout,
    InvalidHeartbeatInterval,
    InvalidRegistryTtl,
    InvalidRegistryHeartbeatTtlPair,
    MissingMeshToken,
}

/// A missing or blank optional text.
pub open spec fn opt_blank(o: Option<String>) -> bool {
    match o {
        Some(t) => is_blank(t@),
        None => true,
    }
}

/// The first rule a configuration breaks, in the order they are checked.
pub open spec fn first_config_problem(c: AppConfig) -> Option<ConfigError> {
    if is_blank(c.app.name@) {
        Some(ConfigError::MissingAppName)
    } else if is_blank(c.server.host@) {
        Some(ConfigError::MissingServerHost)
    } else if c.server.port == 0 {
        Some(ConfigError::InvalidServerPort)
    } else if c.server.request_timeout_secs == 0 {
        Some(ConfigError::InvalidRequestTimeout)
    } else if c.registry.heartbeat_interval_secs == 0 {
        Some(ConfigError::InvalidHeartbeatInterval)
    } else if c.registry.service_ttl_secs == 0 {
        Some(ConfigError::InvalidRegistryTtl)
    } else if c.registry.heartbeat_interval_secs >= c.registry.service_ttl_secs {
        Some(ConfigError::InvalidRegistryHeartbeatTtlPair)
    } else if c.security.require_mesh_token && opt_blank(c.security.mesh_token) {
        Some(ConfigError::MissingMeshToken)
    } else {
        None
    }
}

/// Whether an optional text is missing or blank.
pub fn option_is_blank(o: &Option<String>) -> (b: bool)
    ensures
        b == opt_blank(*o),
{
    match o {
        Some(t) => str_is_blank(t.as_str()),
        None => true,
    }
}

impl AppConfig {
    /// Checks the configuration; on success the heartbeat interval is lower
    /// than the TTL, every required text is non-blank and every duration and
    /// the port are non-zero.
    pub fn validate(&self) -> (r: Result<(), ConfigError>)
        ensures
            r == match first_config_problem(*self) {
                Some(e) => Err(e),
                None => Ok(()),
            },
            r is Ok ==> self.registry.heartbeat_interval_secs < self.registry.service_ttl_secs,
            r is Ok <==> {
                &&& !is_blank(self.app.name@)
                &&& !is_blank(self.server.host@)
                &&& self.server.port != 0
                &&& self.server.request_timeout_secs != 0
                &&& self.registry.heartbeat_interval_secs != 0
                &&& self.registry.service_ttl_secs != 0
                &&& self.registry.heartbeat_interval_secs < self.registry.service_ttl_secs
                &&& (self.security.require_mesh_token ==> match self.security.mesh_token {
                    Some(t) => !is_blank(t@),
                    None => false,
                })
            },
    {
        proof {
            law_validation_accepts_exactly_the_valid_configurations(*self);
        }
        if str_is_blank(self.app.name.as_str()) {
            return Err(ConfigError::MissingAppName);
        }
        if str_is_blank(self.server.host.as_str()) {
            return Err(ConfigError::MissingServerHost);
        }
        if self.server.port == 0 {
            return Err(ConfigError::InvalidServerPort);
        }
        if self.server.request_timeout_secs == 0 {
            return Err(ConfigError::InvalidRequestTimeout);
        }
        if self.registry.heartbeat_interval_secs == 0 {
            return Err(ConfigError::InvalidHeartbeatInterval);
        }
        if self.registry.service_ttl_secs == 0 {
            return Err(ConfigError::InvalidRegistryTtl);
        }
        if self.registry.heartbeat_interval_secs >= self.registry.service_ttl_secs {
            return Err(ConfigError::InvalidRegistryHeartbeatTtlPair);
        }
        if self.security.require_mesh_token && option_is_blank(&self.security.mesh_token) {
            return Err(ConfigError::MissingMeshToken);
        }
        Ok(())
    }
}

/// A configuration passes its start-up check exactly when the application
/// name and server host are not blank, the port, request timeout, heartbeat
/// interval and TTL are not zero, the heartbeat interval is strictly lower
/// than the TTL, and a non-blank mesh token is set whenever one is required.
pub proof fn law_validation_accepts_exactly_the_valid_configurations(c: AppConfig)
    ensures
        first_config_problem(c) is None <==> {
            &&& !is_blank(c.app.name@)
            &&& !is_blank(c.server.host@)
            &&& c.server.port != 0
            &&& c.server.request_timeout_secs != 0
            &&& c.registry.heartbeat_interval_secs != 0
            &&& c.registry.service_ttl_secs != 0
            &&& c.registry.heartbeat_interval_secs < c.registry.service_ttl_secs
            &&& (c.security.require_mesh_token ==> match c.security.mesh_token {
                Some(t) => !is_blank(t@),
                None => false,
            })
        },
{
}

/// The text a configuration error is reported with.
pub open spec fn config_error_text(e: ConfigError) -> Seq<char> {
    match e {
        ConfigError::MissingAppName => "app.name cannot be empty"@,
        ConfigError::MissingServerHost => "server.host cannot be empty"@,
        ConfigError::InvalidServerPort => "server.port cannot be 0"@,
        ConfigError::InvalidRequestTimeout => "server.request_timeout_secs cannot be 0"@,
        ConfigError::InvalidHeartbeatInterval => "registry.heartbeat_interval_secs cannot be 0"@,
        ConfigError::InvalidRegistryTtl => "registry.service_ttl_secs cannot be 0"@,
        ConfigError::InvalidRegistryHeartbeatTtlPair => "registry.heartbeat_interval_secs must be lower than registry.service_ttl_secs"@,
        ConfigError::MissingMeshToken => "security.mesh_token cannot be empty when security.require_mesh_token is true"@,
    }
}

impl ConfigError {
    /// The human-readable description of the error.
    pub fn message(&self) -> (text: String)
        ensures
            text@ == config_error_text(*self),
    {
        match self {
            ConfigError::MissingAppName => copy_str("app.name cannot be empty"),
            ConfigError::MissingServerHost => copy_str("server.host cannot be empty"),
            ConfigError::InvalidServerPort => copy_str("server.port cannot be 0"),
            ConfigError::InvalidRequestTimeout => copy_str("server.request_timeout_secs cannot be 0"),
            ConfigError::InvalidHeartbeatInterval => copy_str(
                "registry.heartbeat_interval_secs cannot be 0",
            ),
            ConfigError::InvalidRegistryTtl => copy_str("registry.service_ttl_secs cannot be 0"),
            ConfigError::InvalidRegistryHeartbeatTtlPair => copy_str(
                "registry.heartbeat_interval_secs must be lower than registry.service_ttl_secs",
            ),
            ConfigError::MissingMeshToken => copy_str(
                "security.mesh_token cannot be empty when security.require_mesh_token is true",
            ),
        }
    }
}

} // verus!
