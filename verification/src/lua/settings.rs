//! The settings that scripts make.

use crate::cache::base::{provider_named, select_provider};
use crate::config::GatewayConfig;
use crate::text::joined;
use vstd::prelude::*;

verus! {

/// A setting that a script makes.
#[derive(Clone, Debug)]
pub enum Setting {
    ServerHost(String),
    ServerPort(u16),
    TlsEnabled(bool),
    TlsCertFile(String),
    TlsKeyFile(String),
    LoadBalancingStrategy(String),
    StripPrefix(bool),
    CacheEnabled(bool),
    CacheProvider(String),
    CacheKeyPrefix(String),
    /// The time to live of resolved routes; both names of it are kept alike.
    CacheTtlSeconds(u64),
    CacheStrategy(String),
    ServiceRegistrationAuth(String),
    RegistrationToken(String),
    MetricsEnabled(bool),
    TracingEnabled(bool),
    LogLevel(String),
    BusEnabled(bool),
    BusHost(String),
    BusPort(u16),
    BusMaxMessageChars(usize),
    ConnectionHealthEnabled(bool),
    MonitoringEnabled(bool),
    /// The name under which the script sets the threshold, and the threshold.
    ProxyFailureThreshold(String, u32),
}

/// Why a setting is refused, where it is.
pub open spec fn refusal_of(setting: Setting) -> Option<Seq<char>> {
    match setting {
        Setting::ProxyFailureThreshold(name, threshold) => if threshold == 0 {
            Some(name@ + " must be >= 1"@)
        } else {
            None
        },
        Setting::CacheProvider(name) => if provider_named(name@) is None {
            Some(
                "Unsupported cache provider: "@ + name@
                    + ". Supported providers: memory, redis, memcached"@,
            )
        } else {
            None
        },
        _ => None,
    }
}

/// The configuration after a setting that is not refused.
pub open spec fn configured(config: GatewayConfig, setting: Setting) -> GatewayConfig {
    match setting {
        Setting::ServerHost(v) => GatewayConfig {
            server: crate::config::ServerOptions { host: v, ..config.server },
            ..config
        },
        Setting::ServerPort(v) => GatewayConfig {
            server: crate::config::ServerOptions { port: v, ..config.server },
            ..config
        },
        Setting::TlsEnabled(v) => GatewayConfig {
            server: crate::config::ServerOptions {
                tls: crate::config::TlsOptions { enabled: v, ..config.server.tls },
                ..config.server
            },
            ..config
        },
        Setting::TlsCertFile(v) => GatewayConfig {
            server: crate::config::ServerOptions {
                tls: crate::config::TlsOptions { cert_file: v, ..config.server.tls },
                ..config.server
            },
            ..config
        },
        Setting::TlsKeyFile(v) => GatewayConfig {
            server: crate::config::ServerOptions {
                tls: crate::config::TlsOptions { key_file: v, ..config.server.tls },
                ..config.server
            },
            ..config
        },
        Setting::LoadBalancingStrategy(v) => GatewayConfig {
            routing: crate::config::RoutingOptions {
                default_load_balancing_strategy: v,
                ..config.routing
            },
            ..config
        },
        Setting::StripPrefix(v) => GatewayConfig {
            routing: crate::config::RoutingOptions { strip_prefix: v, ..config.routing },
            ..config
        },
        Setting::CacheEnabled(v) => GatewayConfig {
            cache: crate::config::CacheOptions { enabled: v, ..config.cache },
            ..config
        },
        Setting::CacheProvider(v) => GatewayConfig {
            cache: crate::config::CacheOptions { provider: v, ..config.cache },
            ..config
        },
        Setting::CacheKeyPrefix(v) => GatewayConfig {
            cache: crate::config::CacheOptions { key_prefix: v, ..config.cache },
            ..config
        },
        Setting::CacheTtlSeconds(v) => GatewayConfig {
            cache: crate::config::CacheOptions {
                service_resolution_ttl_seconds: v,
                ttl_seconds: v,
                ..config.cache
            },
            ..config
        },
        Setting::CacheStrategy(v) => GatewayConfig {
            cache: crate::config::CacheOptions { strategy: v, ..config.cache },
            ..config
        },
        Setting::ServiceRegistrationAuth(v) => GatewayConfig {
            security: crate::config::SecurityOptions {
                service_registration_auth: v,
                ..config.security
            },
            ..config
        },
        Setting::RegistrationToken(v) => GatewayConfig {
            security: crate::config::SecurityOptions { registration_token: v, ..config.security },
            ..config
        },
        Setting::MetricsEnabled(v) => GatewayConfig {
            observability: crate::config::ObservabilityOptions {
                metrics_enabled: v,
                ..config.observability
            },
            ..config
        },
        Setting::TracingEnabled(v) => GatewayConfig {
            observability: crate::config::ObservabilityOptions {
                tracing_enabled: v,
                ..config.observability
            },
            ..config
        },
        Setting::LogLevel(v) => GatewayConfig {
            observability: crate::config::ObservabilityOptions {
                log_level: v,
                ..config.observability
            },
            ..config
        },
        Setting::BusEnabled(v) => GatewayConfig {
            service_bus: crate::config::ServiceBusOptions { enabled: v, ..config.service_bus },
            ..config
        },
        Setting::BusHost(v) => GatewayConfig {
            service_bus: crate::config::ServiceBusOptions { host: v, ..config.service_bus },
            ..config
        },
        Setting::BusPort(v) => GatewayConfig {
            service_bus: crate::config::ServiceBusOptions { port: v, ..config.service_bus },
            ..config
        },
        Setting::BusMaxMessageChars(v) => GatewayConfig {
            service_bus: crate::config::ServiceBusOptions {
                max_message_chars: v,
                ..config.service_bus
            },
            ..config
        },
        Setting::ConnectionHealthEnabled(v) => GatewayConfig {
            service_bus: crate::config::ServiceBusOptions {
                connection_health_enabled: v,
                ..config.service_bus
            },
            ..config
        },
        Setting::MonitoringEnabled(v) => GatewayConfig {
            service_bus: crate::config::ServiceBusOptions {
                monitoring_enabled: v,
                ..config.service_bus
            },
            ..config
        },
        Setting::ProxyFailureThreshold(_, v) => GatewayConfig {
            service_bus: crate::config::ServiceBusOptions {
                proxy_failure_threshold: v,
                ..config.service_bus
            },
            ..config
        },
    }
}

/// Applies a setting. One that is refused changes nothing.
pub fn apply_setting(config: &mut GatewayConfig, setting: Setting) -> (applied: Result<(), String>)
    ensures
        match applied {
            Ok(_) => refusal_of(setting) is None && *final(config) == configured(
                *old(config),
                setting,
            ),
            Err(message) => refusal_of(setting) == Some(message@) && *final(config) == *old(config),
        },
{
    match setting {
        Setting::ServerHost(v) => {
            config.server.host = v;
        },
        Setting::ServerPort(v) => {
            config.server.port = v;
        },
        Setting::TlsEnabled(v) => {
            config.server.tls.enabled = v;
        },
        Setting::TlsCertFile(v) => {
            config.server.tls.cert_file = v;
        },
        Setting::TlsKeyFile(v) => {
            config.server.tls.key_file = v;
        },
        Setting::LoadBalancingStrategy(v) => {
            config.routing.default_load_balancing_strategy = v;
        },
        Setting::StripPrefix(v) => {
            config.routing.strip_prefix = v;
        },
        Setting::CacheEnabled(v) => {
            config.cache.enabled = v;
        },
        Setting::CacheProvider(v) => {
            if let Err(message) = select_provider(v.as_str()) {
                return Err(message);
            }
            config.cache.provider = v;
        },
        Setting::CacheKeyPrefix(v) => {
            config.cache.key_prefix = v;
        },
        Setting::CacheTtlSeconds(v) => {
            config.cache.service_resolution_ttl_seconds = v;
            config.cache.ttl_seconds = v;
        },
        Setting::CacheStrategy(v) => {
            config.cache.strategy = v;
        },
        Setting::ServiceRegistrationAuth(v) => {
            config.security.service_registration_auth = v;
        },
        Setting::RegistrationToken(v) => {
            config.security.registration_token = v;
        },
        Setting::MetricsEnabled(v) => {
            config.observability.metrics_enabled = v;
        },
        Setting::TracingEnabled(v) => {
            config.observability.tracing_enabled = v;
        },
        Setting::LogLevel(v) => {
            config.observability.log_level = v;
        },
        Setting::BusEnabled(v) => {
            config.service_bus.enabled = v;
        },
        Setting::BusHost(v) => {
            config.service_bus.host = v;
        },
        Setting::BusPort(v) => {
            config.service_bus.port = v;
        },
        Setting::BusMaxMessageChars(v) => {
            config.service_bus.max_message_chars = v;
        },
        Setting::ConnectionHealthEnabled(v) => {
            config.service_bus.connection_health_enabled = v;
        },
        Setting::MonitoringEnabled(v) => {
            config.service_bus.monitoring_enabled = v;
        },
        Setting::ProxyFailureThreshold(name, threshold) => {
            if threshold == 0 {
                return Err(joined(name.as_str(), " must be >= 1"));
            }
            config.service_bus.proxy_failure_threshold = threshold;
        },
    }
    Ok(())
}

/// The namespace of the gateway's own cache entries under a configuration.
pub fn cache_namespace(config: &GatewayConfig) -> (namespace: String)
    ensures
        namespace@ == "basilisk:gateway:"@ + config.cache.key_prefix@,
{
    joined("basilisk:gateway:", config.cache.key_prefix.as_str())
}

} // verus!
