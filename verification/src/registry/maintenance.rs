//! The periodic upkeep of the registry.

use crate::clock::Timestamp;
use crate::config::GatewayConfig;
use crate::registry::health::{HealthMonitor, ServiceBusHealthMonitor};
use crate::registry::{RegistryModel, ServiceRegistry};
use crate::text::texts;
use vstd::prelude::*;

verus! {

/// The configured heartbeat timeout in nanoseconds.
pub fn heartbeat_timeout(config: &GatewayConfig) -> (timeout_ns: u128)
    ensures
        timeout_ns == config.registry.heartbeat_timeout_seconds * 1_000_000_000,
{
    config.registry.heartbeat_timeout_seconds as u128 * 1_000_000_000
}

/// Whether an upkeep round evaluates metrics: the service bus must be in charge
/// of health, and monitoring be switched on.
pub open spec fn evaluates_metrics(config: GatewayConfig) -> bool {
    config.service_bus.connection_health_enabled && config.service_bus.monitoring_enabled
}

/// The registry after an upkeep round that looks at the clock twice.
pub open spec fn maintained(
    registry: RegistryModel,
    config: GatewayConfig,
    irregular: Set<Seq<char>>,
    evaluated_at: Timestamp,
    swept_at: Timestamp,
) -> RegistryModel {
    let timeout_ns = (config.registry.heartbeat_timeout_seconds * 1_000_000_000) as u128;
    if evaluates_metrics(config) {
        registry.evaluated(evaluated_at, timeout_ns, irregular).swept(swept_at, timeout_ns)
    } else {
        registry.swept(swept_at, timeout_ns)
    }
}

/// Runs one round of registry maintenance.
///
/// The service-bus monitor is only evaluated when its `is_enabled` returns true,
/// ensuring proxy recoveries are not overwritten when
/// `connection_health_enabled == false`.
pub fn run_maintenance_round(
    config: &GatewayConfig,
    registry: &mut ServiceRegistry,
    irregular: &Vec<String>,
)
    requires
        old(registry).wf(),
    ensures
        final(registry).wf(),
        exists|evaluated_at: Timestamp, swept_at: Timestamp|
            final(registry)@ == #[trigger] maintained(
                old(registry)@,
                *config,
                texts(irregular@).to_set(),
                evaluated_at,
                swept_at,
            ),
{
    let timeout_ns: u128 = heartbeat_timeout(config);
    let monitor = ServiceBusHealthMonitor;
    let ghost before = registry@;
    let ghost mut evaluated_at = Timestamp { seconds: 0, nanos: 0 };
    if monitor.is_enabled(config) {
        monitor.evaluate(registry, config, timeout_ns, irregular);
        proof {
            if config.service_bus.monitoring_enabled {
                evaluated_at = choose|now: Timestamp|
                    registry@ == #[trigger] before.evaluated(
                        now,
                        timeout_ns,
                        texts(irregular@).to_set(),
                    );
            }
        }
    }
    let ghost between = registry@;
    registry.remove_stale_instances(timeout_ns);
    proof {
        let swept_at = choose|now: Timestamp| registry@ == #[trigger] between.swept(now, timeout_ns);
        assert(registry@ == maintained(
            before,
            *config,
            texts(irregular@).to_set(),
            evaluated_at,
            swept_at,
        ));
    }
}

} // verus!
