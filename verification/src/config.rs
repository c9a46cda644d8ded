//! The runtime configuration of the gateway, the registry and the service bus.

use vstd::prelude::*;

verus! {

/// Top-level runtime configuration consumed by the gateway, registry and service bus.
#[derive(Clone, Debug)]
pub struct GatewayConfig {
    pub server: ServerOptions,
    pub routing: RoutingOptions,
    pub cache: CacheOptions,
    pub registry: RegistryOptions,
    pub security: SecurityOptions,
    pub observability: ObservabilityOptions,
    pub service_bus: ServiceBusOptions,
}

/// HTTP server binding and TLS options.
#[derive(Clone, Debug)]
pub struct ServerOptions {
    pub host: String,
    pub port: u16,
    pub tls: TlsOptions,
}

/// TLS certificate and key material references.
#[derive(Clone, Debug)]
pub struct TlsOptions {
    pub enabled: bool,
    pub cert_file: String,
    pub key_file: String,
}

/// Reverse-proxy routing behavior.
#[derive(Clone, Debug)]
pub struct RoutingOptions {
    pub default_load_balancing_strategy: String,
    pub strip_prefix: bool,
}

/// Shared gateway cache provider selection and defaults.
#[derive(Clone, Debug)]
pub struct CacheOptions {
    pub enabled: bool,
    pub provider: String,
    pub key_prefix: String,
    pub service_resolution_ttl_seconds: u64,
    pub ttl_seconds: u64,
    pub strategy: String,
}

/// Service-registry maintenance timing options.
#[derive(Clone, Debug)]
pub struct RegistryOptions {
    pub heartbeat_timeout_seconds: u64,
}

/// Security-related gateway policies.
#[derive(Clone, Debug)]
pub struct SecurityOptions {
    pub service_registration_auth: String,
    pub registration_token: String,
}

/// Logging and telemetry behavior.
#[derive(Clone, Debug)]
pub struct ObservabilityOptions {
    pub metrics_enabled: bool,
    pub tracing_enabled: bool,
    pub log_level: String,
}

/// Service bus transport settings.
#[derive(Clone, Debug)]
pub struct ServiceBusOptions {
    pub enabled: bool,
    pub host: String,
    pub port: u16,
    pub max_message_chars: usize,
    /// Whether the service bus, and not the proxy, decides on the health of instances.
    pub connection_health_enabled: bool,
    pub monitoring_enabled: bool,
    /// How many unreachable proxy attempts in a row take an instance down.
    pub proxy_failure_threshold: u32,
}

impl GatewayConfig {
    /// The configuration that holds before any setting is applied.
    pub open spec fn is_default(&self) -> bool {
        &&& self.server.host@ == "0.0.0.0"@
        &&& self.server.port == 443
        &&& !self.server.tls.enabled
        &&& self.server.tls.cert_file@ == ""@
        &&& self.server.tls.key_file@ == ""@
        &&& self.routing.default_load_balancing_strategy@ == "ROUND_ROBIN"@
        &&& self.routing.strip_prefix
        &&& self.cache.enabled
        &&& self.cache.provider@ == "memory"@
        &&& self.cache.key_prefix@ == "runtime"@
        &&& self.cache.service_resolution_ttl_seconds == 300
        &&& self.cache.ttl_seconds == 300
        &&& self.cache.strategy@ == "lru"@
        &&& self.registry.heartbeat_timeout_seconds == 30
        &&& self.security.service_registration_auth@ == "TOKEN"@
        &&& self.security.registration_token@ == "secret-token"@
        &&& self.observability.metrics_enabled
        &&& self.observability.tracing_enabled
        &&& self.observability.log_level@ == "info"@
        &&& self.service_bus.enabled
        &&& self.service_bus.host@ == "0.0.0.0"@
        &&& self.service_bus.port == 5090
        &&& self.service_bus.max_message_chars == 65536
        &&& !self.service_bus.connection_health_enabled
        &&& self.service_bus.monitoring_enabled
        &&& self.service_bus.proxy_failure_threshold == 3
    }
}

impl Default for GatewayConfig {
    fn default() -> (config: Self)
        ensures
            config.is_default(),
    {
        GatewayConfig {
            server: ServerOptions {
                host: "0.0.0.0".to_owned(),
                port: 443,
                tls: TlsOptions {
                    enabled: false,
                    cert_file: "".to_owned(),
                    key_file: "".to_owned(),
                },
            },
            routing: RoutingOptions {
                default_load_balancing_strategy: "ROUND_ROBIN".to_owned(),
                strip_prefix: true,
            },
            cache: CacheOptions {
                enabled: true,
                provider: "memory".to_owned(),
                key_prefix: "runtime".to_owned(),
                service_resolution_ttl_seconds: 300,
                ttl_seconds: 300,
                strategy: "lru".to_owned(),
            },
            registry: RegistryOptions { heartbeat_timeout_seconds: 30 },
            security: SecurityOptions {
                service_registration_auth: "TOKEN".to_owned(),
                registration_token: "secret-token".to_owned(),
            },
            observability: ObservabilityOptions {
                metrics_enabled: true,
                tracing_enabled: true,
                log_level: "info".to_owned(),
            },
            service_bus: ServiceBusOptions {
                enabled: true,
                host: "0.0.0.0".to_owned(),
                port: 5090,
                max_message_chars: 65536,
                connection_health_enabled: false,
                monitoring_enabled: true,
                proxy_failure_threshold: 3,
            },
        }
    }
}

/// Before any setting the gateway listens on port 443 of every interface without TLS and
/// the service bus on port 5090; prefixes are stripped, instances take turns, routes are
/// kept for five minutes in memory, registrations need the usual token, silence of half
/// a minute counts, and the third failure in a row takes an instance down.
pub proof fn defaults_are_usual(config: GatewayConfig)
    requires
        config.is_default(),
    ensures
        config.server.port == 443 && config.server.host@ == "0.0.0.0"@ && !config.server.tls.enabled,
        config.service_bus.port == 5090 && config.service_bus.host@ == "0.0.0.0"@
            && config.service_bus.enabled,
        config.routing.strip_prefix && config.routing.default_load_balancing_strategy@
            == "ROUND_ROBIN"@,
        config.cache.enabled && config.cache.provider@ == "memory"@
            && config.cache.service_resolution_ttl_seconds == 5 * 60 && config.cache.ttl_seconds
            == config.cache.service_resolution_ttl_seconds,
        config.security.service_registration_auth@ == "TOKEN"@,
        config.registry.heartbeat_timeout_seconds == 30,
        config.service_bus.proxy_failure_threshold == 3,
        config.service_bus.max_message_chars == 64 * 1024,
        config.service_bus.monitoring_enabled && !config.service_bus.connection_health_enabled,
{
}

} // verus!
