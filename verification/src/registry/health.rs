//! The two ways in which the health of instances is watched.

use crate::clock::Timestamp;
use crate::config::GatewayConfig;
use crate::models::InstanceStatus;
use crate::registry::{health_key, HeartbeatSample, ServiceRegistry};
use crate::text::texts;
use vstd::prelude::*;

verus! {

/// Which of the two ways a monitor watches.
#[derive(Clone, Copy, Debug, PartialEq, Eq, Structural)]
pub enum MonitorKind {
    Proxy,
    ServiceBus,
}

/// Whether the configuration puts a monitor in charge.
pub open spec fn in_charge(kind: MonitorKind, config: GatewayConfig) -> bool {
    match kind {
        MonitorKind::Proxy => !config.service_bus.connection_health_enabled,
        MonitorKind::ServiceBus => config.service_bus.connection_health_enabled,
    }
}

/// Generic health monitoring contract.
///
/// Each health setup (service-bus, proxy) implements this trait so the
/// registry and maintenance loops can drive them uniformly while keeping
/// their state and enablement cleanly separated. What a monitor does not
/// implement does nothing.
pub trait HealthMonitor {
    /// The name of the monitor.
    spec fn title(&self) -> Seq<char>;

    /// Whether a configuration puts the monitor in charge.
    spec fn enabled_in(&self, config: GatewayConfig) -> bool;

    /// Human-readable monitor name for logs.
    fn name(&self) -> (name: &'static str)
        ensures
            name@ == self.title(),
    ;

    /// Whether this monitor is enabled for the given config.
    fn is_enabled(&self, config: &GatewayConfig) -> (enabled: bool)
        ensures
            enabled == self.enabled_in(*config),
    ;

    /// Called when a new instance is registered. Default is no-op.
    fn on_register(&self, registry: &mut ServiceRegistry, service_id: &str, instance_id: &str)
        requires
            old(registry).wf(),
        ensures
            final(registry).wf(),
        default_ensures
            *final(registry) == *old(registry),
    {
    }

    /// Called after a successful proxy attempt to the instance.
    fn on_proxy_success(&self, registry: &mut ServiceRegistry, service_id: &str, instance_id: &str)
        requires
            old(registry).wf(),
        ensures
            final(registry).wf(),
        default_ensures
            *final(registry) == *old(registry),
    {
    }

    /// Called after an unreachable proxy attempt. Returns `true` if the monitor
    /// transitioned the instance to `Down`.
    fn on_proxy_failure(
        &self,
        registry: &mut ServiceRegistry,
        service_id: &str,
        instance_id: &str,
        threshold: u32,
    ) -> (down: bool)
        requires
            old(registry).wf(),
            old(registry)@.failure_count(service_id@, instance_id@) < u32::MAX,
        ensures
            final(registry).wf(),
        default_ensures
            !down,
            *final(registry) == *old(registry),
    {
        false
    }

    /// Called when a service-bus connection is established.
    fn on_bus_connect(
        &self,
        registry: &mut ServiceRegistry,
        service_id: &str,
        instance_id: &str,
        config: &GatewayConfig,
    )
        requires
            old(registry).wf(),
        ensures
            final(registry).wf(),
        default_ensures
            *final(registry) == *old(registry),
    {
    }

    /// Called when a service-bus connection is torn down.
    fn on_bus_disconnect(
        &self,
        registry: &mut ServiceRegistry,
        service_id: &str,
        instance_id: &str,
        config: &GatewayConfig,
    )
        requires
            old(registry).wf(),
        ensures
            final(registry).wf(),
        default_ensures
            *final(registry) == *old(registry),
    {
    }

    /// Called when a metrics heartbeat is received. Returns the sample that it
    /// makes, for the one who follows the cadence.
    fn on_heartbeat(
        &self,
        registry: &mut ServiceRegistry,
        service_id: &str,
        instance_id: &str,
    ) -> (sample: Option<HeartbeatSample>)
        requires
            old(registry).wf(),
            old(registry)@.heartbeats.contains_key(health_key(service_id@, instance_id@))
                ==> old(registry)@.heartbeats[health_key(service_id@, instance_id@)].sample_count
                < u64::MAX,
        ensures
            final(registry).wf(),
        default_ensures
            sample is None,
            *final(registry) == *old(registry),
    {
        None
    }

    /// Periodic evaluation (e.g. heartbeat timeout, jitter). Called from the
    /// maintenance loop. `irregular` lists the health keys of the instances whose
    /// intervals vary or gape too much.
    fn evaluate(
        &self,
        registry: &mut ServiceRegistry,
        config: &GatewayConfig,
        timeout_ns: u128,
        irregular: &Vec<String>,
    )
        requires
            old(registry).wf(),
        ensures
            final(registry).wf(),
        default_ensures
            *final(registry) == *old(registry),
    {
    }
}

/// Proxy-based health: `Up` by default, `Down` after `N` consecutive
/// unreachable proxy attempts, `Up` again on first successful proxy.
///
/// Enabled exactly when `connection_health_enabled == false`, the default.
pub struct ProxyHealthMonitor;

impl HealthMonitor for ProxyHealthMonitor {
    open spec fn title(&self) -> Seq<char> {
        "proxy"@
    }

    open spec fn enabled_in(&self, config: GatewayConfig) -> bool {
        in_charge(MonitorKind::Proxy, config)
    }

    fn name(&self) -> (name: &'static str) {
        "proxy"
    }

    fn is_enabled(&self, config: &GatewayConfig) -> (enabled: bool) {
        !config.service_bus.connection_health_enabled
    }

    fn on_proxy_success(&self, registry: &mut ServiceRegistry, service_id: &str, instance_id: &str)
        ensures
            exists|now: Timestamp|
                final(registry)@ == #[trigger] old(registry)@.proxy_succeeded(
                    service_id@,
                    instance_id@,
                    now,
                ),
    {
        registry.record_proxy_success(service_id, instance_id);
    }

    fn on_proxy_failure(
        &self,
        registry: &mut ServiceRegistry,
        service_id: &str,
        instance_id: &str,
        threshold: u32,
    ) -> (down: bool)
        ensures
            down == old(registry)@.failure_takes_down(service_id@, instance_id@, threshold),
            final(registry)@ == old(registry)@.proxy_failed(service_id@, instance_id@, threshold),
    {
        registry.record_proxy_failure(service_id, instance_id, threshold)
    }

    // The proxy monitor does not react to bus lifecycle or heartbeats.
}

/// Service-bus-based health: bus `connect`/`disconnect` and
/// `basilisk.metrics.distribution` cadence.
///
/// Enabled only when `connection_health_enabled == true`. When disabled,
/// recoveries via proxy are not overwritten by bus state.
pub struct ServiceBusHealthMonitor;

impl HealthMonitor for ServiceBusHealthMonitor {
    open spec fn title(&self) -> Seq<char> {
        "service_bus"@
    }

    open spec fn enabled_in(&self, config: GatewayConfig) -> bool {
        in_charge(MonitorKind::ServiceBus, config)
    }

    fn name(&self) -> (name: &'static str) {
        "service_bus"
    }

    fn is_enabled(&self, config: &GatewayConfig) -> (enabled: bool) {
        config.service_bus.connection_health_enabled
    }

    fn on_bus_connect(
        &self,
        registry: &mut ServiceRegistry,
        service_id: &str,
        instance_id: &str,
        config: &GatewayConfig,
    )
        ensures
            exists|now: Timestamp|
                final(registry)@ == #[trigger] old(registry)@.status_set(
                    service_id@,
                    instance_id@,
                    InstanceStatus::Up,
                    now,
                ),
    {
        registry.update_instance_status(service_id, instance_id, InstanceStatus::Up);
    }

    fn on_bus_disconnect(
        &self,
        registry: &mut ServiceRegistry,
        service_id: &str,
        instance_id: &str,
        config: &GatewayConfig,
    )
        ensures
            config.service_bus.monitoring_enabled ==> final(registry)@ == old(registry)@,
            !config.service_bus.monitoring_enabled ==> exists|now: Timestamp|
                final(registry)@ == #[trigger] old(registry)@.status_set(
                    service_id@,
                    instance_id@,
                    InstanceStatus::Down,
                    now,
                ),
    {
        // When monitoring is authoritative, disconnect does not force `Down`;
        // the instance will transition via heartbeat timeout instead.
        if !config.service_bus.monitoring_enabled {
            registry.update_instance_status(service_id, instance_id, InstanceStatus::Down);
        }
    }

    fn on_heartbeat(
        &self,
        registry: &mut ServiceRegistry,
        service_id: &str,
        instance_id: &str,
    ) -> (sample: Option<HeartbeatSample>)
        ensures
            exists|now: Timestamp|
                final(registry)@ == #[trigger] old(registry)@.metrics_heard(
                    service_id@,
                    instance_id@,
                    now,
                ) && sample == old(registry)@.sample(service_id@, instance_id@, now),
    {
        registry.record_metrics_heartbeat(service_id, instance_id)
    }

    fn evaluate(
        &self,
        registry: &mut ServiceRegistry,
        config: &GatewayConfig,
        timeout_ns: u128,
        irregular: &Vec<String>,
    )
        ensures
            !config.service_bus.monitoring_enabled ==> final(registry)@ == old(registry)@,
            config.service_bus.monitoring_enabled ==> exists|now: Timestamp|
                final(registry)@ == #[trigger] old(registry)@.evaluated(
                    now,
                    timeout_ns,
                    texts(irregular@).to_set(),
                ),
    {
        if config.service_bus.monitoring_enabled {
            registry.evaluate_metrics_health(timeout_ns, irregular);
        }
    }
}

/// Registry that holds the two monitors for convenient dispatch.
pub struct HealthMonitorRegistry {
    proxy: ProxyHealthMonitor,
    service_bus: ServiceBusHealthMonitor,
}

impl Default for HealthMonitorRegistry {
    fn default() -> Self {
        Self::new()
    }
}

impl HealthMonitorRegistry {
    /// The registry of both monitors.
    pub fn new() -> Self {
        HealthMonitorRegistry { proxy: ProxyHealthMonitor, service_bus: ServiceBusHealthMonitor }
    }

    /// The monitor that acts on proxy attempts.
    pub fn proxy(&self) -> (monitor: &ProxyHealthMonitor)
        ensures
            monitor.title() == "proxy"@,
    {
        &self.proxy
    }

    /// The monitor that acts on service-bus events.
    pub fn service_bus(&self) -> (monitor: &ServiceBusHealthMonitor)
        ensures
            monitor.title() == "service_bus"@,
    {
        &self.service_bus
    }

    /// Both monitors, that of the proxy first.
    pub fn all(&self) -> (monitors: (&dyn HealthMonitor, &dyn HealthMonitor))
        ensures
            monitors.0.title() == "proxy"@,
            monitors.1.title() == "service_bus"@,
            forall|config: GatewayConfig| #[trigger]
                monitors.0.enabled_in(config) == in_charge(MonitorKind::Proxy, config),
            forall|config: GatewayConfig| #[trigger]
                monitors.1.enabled_in(config) == in_charge(MonitorKind::ServiceBus, config),
    {
        (&self.proxy, &self.service_bus)
    }
}

/// Whatever the configuration, exactly one of the monitors is in charge.
pub proof fn exactly_one_monitor_is_in_charge(config: GatewayConfig)
    ensures
        in_charge(MonitorKind::Proxy, config) != in_charge(MonitorKind::ServiceBus, config),
{
}

/// The proxy decides on health unless connections to the service bus do.
pub proof fn proxy_is_in_charge_unless_connections_are(config: GatewayConfig)
    ensures
        config.service_bus.connection_health_enabled ==> in_charge(MonitorKind::ServiceBus, config)
            && !in_charge(MonitorKind::Proxy, config),
        !config.service_bus.connection_health_enabled ==> in_charge(MonitorKind::Proxy, config)
            && !in_charge(MonitorKind::ServiceBus, config),
{
}

/// Each monitor is switched on exactly where it is in charge, and has a name of its own.
pub proof fn monitors_are_on_where_in_charge(config: GatewayConfig)
    ensures
        ProxyHealthMonitor.enabled_in(config) == !config.service_bus.connection_health_enabled,
        ServiceBusHealthMonitor.enabled_in(config) == config.service_bus.connection_health_enabled,
        ProxyHealthMonitor.title() == "proxy"@,
        ServiceBusHealthMonitor.title() == "service_bus"@,
{
}

} // verus!
