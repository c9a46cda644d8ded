//! Runtime telemetry.

use crate::clock::{utc_now, Timestamp};
use crate::json::{as_text, JsonModel};
use crate::models::InstanceStatus;
use crate::service_bus::contracts::{EventModel, ServiceBusEventEnvelope};
use crate::string_map::{is_listing, lists_by};
use crate::table::Table;
use crate::text::{copy_optional, joined3, optional_text};
use vstd::prelude::*;

verus! {

/// Latencies of a phase.
#[derive(Clone, Copy, Debug, PartialEq, Eq, Structural)]
pub struct LatencySummary {
    pub count: u64,
    pub total_micros: u128,
    pub avg_micros: u128,
    pub max_micros: u128,
}

impl View for LatencySummary {
    type V = LatencySummary;

    open spec fn view(&self) -> LatencySummary {
        *self
    }
}

/// How often a service has reported a distribution metric, and when last.
#[derive(Clone, Debug)]
pub struct DistributionRecord {
    pub service_id: String,
    pub metric: String,
    pub count: u64,
    pub last_seen_utc: Timestamp,
}

/// What a distribution record holds.
pub struct DistributionModel {
    pub service_id: Seq<char>,
    pub metric: Seq<char>,
    pub count: u64,
    pub last_seen_utc: Timestamp,
}

impl View for DistributionRecord {
    type V = DistributionModel;

    open spec fn view(&self) -> DistributionModel {
        DistributionModel {
            service_id: self.service_id@,
            metric: self.metric@,
            count: self.count,
            last_seen_utc: self.last_seen_utc,
        }
    }
}

/// The health of a statically configured forwarding route.
#[derive(Clone, Debug)]
pub struct StaticForwardSummary {
    pub route_id: String,
    pub configured_upstreams: usize,
    pub reachable_upstreams: usize,
    pub status: InstanceStatus,
    pub selected_target: Option<String>,
    pub last_seen_utc: Timestamp,
}

/// What a static forward summary holds.
pub struct StaticForwardModel {
    pub route_id: Seq<char>,
    pub configured_upstreams: usize,
    pub reachable_upstreams: usize,
    pub status: InstanceStatus,
    pub selected_target: Option<Seq<char>>,
    pub last_seen_utc: Timestamp,
}

impl View for StaticForwardSummary {
    type V = StaticForwardModel;

    open spec fn view(&self) -> StaticForwardModel {
        StaticForwardModel {
            route_id: self.route_id@,
            configured_upstreams: self.configured_upstreams,
            reachable_upstreams: self.reachable_upstreams,
            status: self.status,
            selected_target: optional_text(self.selected_target),
            last_seen_utc: self.last_seen_utc,
        }
    }
}

/// What the telemetry has collected.
pub struct TelemetryModel {
    pub latencies: Map<Seq<char>, LatencySummary>,
    pub distributions: Map<Seq<char>, DistributionModel>,
    pub static_forwards: Map<Seq<char>, StaticForwardModel>,
}

/// A summary without latencies.
pub open spec fn no_latency() -> LatencySummary {
    LatencySummary { count: 0, total_micros: 0, avg_micros: 0, max_micros: 0 }
}

/// The summary of a phase with one more latency.
pub open spec fn with_latency(summary: LatencySummary, micros: u128) -> LatencySummary {
    LatencySummary {
        count: (summary.count + 1) as u64,
        total_micros: (summary.total_micros + micros) as u128,
        avg_micros: ((summary.total_micros + micros) / (summary.count + 1)) as u128,
        max_micros: if summary.max_micros < micros {
            micros
        } else {
            summary.max_micros
        },
    }
}

/// The status that the reachability of upstreams speaks for.
pub open spec fn reachability_status(configured: usize, reachable: usize) -> InstanceStatus {
    if reachable == 0 {
        InstanceStatus::Down
    } else if reachable < configured {
        InstanceStatus::Degraded
    } else {
        InstanceStatus::Up
    }
}

/// The status that the reachability of upstreams speaks for: down where none is
/// reachable, degraded where some are.
pub fn static_forward_status(configured: usize, reachable: usize) -> (status: InstanceStatus)
    ensures
        status == reachability_status(configured, reachable),
{
    if reachable == 0 {
        InstanceStatus::Down
    } else if reachable < configured {
        InstanceStatus::Degraded
    } else {
        InstanceStatus::Up
    }
}

/// The name of the metric that a distribution event reports: that of the payload
/// under `metric` or else under `name`, where it is a string.
pub open spec fn metric_name(event: EventModel) -> Seq<char> {
    let named = if event.payload.contains_key("metric"@) {
        as_text(event.payload["metric"@])
    } else if event.payload.contains_key("name"@) {
        as_text(event.payload["name"@])
    } else {
        None
    };
    match named {
        Some(name) => name,
        None => "unnamed"@,
    }
}

/// The name of the metric that a distribution event reports.
pub fn distribution_metric(event: &ServiceBusEventEnvelope) -> (name: String)
    ensures
        name@ == metric_name(event@),
{
    let value = match event.payload.get("metric") {
        Some(value) => Some(value),
        None => event.payload.get("name"),
    };
    match value {
        Some(value) => match value.as_str() {
            Some(text) => text.clone(),
            None => "unnamed".to_owned(),
        },
        None => "unnamed".to_owned(),
    }
}

/// The key under which a metric of a service is kept.
pub open spec fn distribution_key(service_id: Seq<char>, metric: Seq<char>) -> Seq<char> {
    service_id + "::"@ + metric
}

impl TelemetryModel {
    /// Routes are found under their own ids, and metrics under the key of their
    /// service and name.
    pub open spec fn consistent(self) -> bool {
        &&& forall|k: Seq<char>| #[trigger]
            self.static_forwards.contains_key(k) ==> self.static_forwards[k].route_id == k
        &&& forall|k: Seq<char>| #[trigger]
            self.distributions.contains_key(k) ==> distribution_key(
                self.distributions[k].service_id,
                self.distributions[k].metric,
            ) == k
    }

    /// The summary of a phase.
    pub open spec fn latency(self, phase: Seq<char>) -> LatencySummary {
        if self.latencies.contains_key(phase) {
            self.latencies[phase]
        } else {
            no_latency()
        }
    }

    /// The record of a distribution metric after one more event.
    pub open spec fn next_record(self, event: EventModel, now: Timestamp) -> DistributionModel {
        let key = distribution_key(event.service_id, metric_name(event));
        if self.distributions.contains_key(key) {
            let record = self.distributions[key];
            DistributionModel { count: (record.count + 1) as u64, last_seen_utc: now, ..record }
        } else {
            DistributionModel {
                service_id: event.service_id,
                metric: metric_name(event),
                count: 1,
                last_seen_utc: now,
            }
        }
    }
}

/// Aggregates runtime metrics collected by Basilisk.
pub struct RuntimeTelemetry {
    proxy_latency: Table<LatencySummary>,
    service_distributions: Table<DistributionRecord>,
    static_forward_routes: Table<StaticForwardSummary>,
}

impl View for RuntimeTelemetry {
    type V = TelemetryModel;

    closed spec fn view(&self) -> TelemetryModel {
        TelemetryModel {
            latencies: self.proxy_latency@,
            distributions: self.service_distributions@,
            static_forwards: self.static_forward_routes@,
        }
    }
}

/// The telemetry at one moment.
pub struct RuntimeTelemetrySnapshot {
    pub proxy_latency: Vec<(String, LatencySummary)>,
    pub service_distributions: Vec<DistributionRecord>,
    pub static_forward_routes: Vec<StaticForwardSummary>,
}

impl Default for RuntimeTelemetry {
    fn default() -> (telemetry: Self)
        ensures
            telemetry.wf(),
            telemetry@.latencies == Map::<Seq<char>, LatencySummary>::empty(),
            telemetry@.distributions == Map::<Seq<char>, DistributionModel>::empty(),
            telemetry@.static_forwards == Map::<Seq<char>, StaticForwardModel>::empty(),
    {
        Self::new()
    }
}

impl RuntimeTelemetry {
    /// The tables are in order, and routes and metrics are found under their own keys.
    pub closed spec fn wf(&self) -> bool {
        &&& self.proxy_latency.wf()
        &&& self.service_distributions.wf()
        &&& self.static_forward_routes.wf()
        &&& self@.consistent()
    }

    /// In well-formed telemetry routes and metrics are found under their own keys.
    pub proof fn wf_is_consistent(&self)
        requires
            self.wf(),
        ensures
            self@.consistent(),
    {
    }

    /// Telemetry that has collected nothing.
    pub fn new() -> (telemetry: Self)
        ensures
            telemetry.wf(),
            telemetry@.latencies == Map::<Seq<char>, LatencySummary>::empty(),
            telemetry@.distributions == Map::<Seq<char>, DistributionModel>::empty(),
            telemetry@.static_forwards == Map::<Seq<char>, StaticForwardModel>::empty(),
    {
        RuntimeTelemetry {
            proxy_latency: Table::new(),
            service_distributions: Table::new(),
            static_forward_routes: Table::new(),
        }
    }

    /// The summary of a phase.
    pub fn latency(&self, phase: &str) -> (summary: LatencySummary)
        requires
            self.wf(),
        ensures
            summary == self@.latency(phase@),
    {
        match self.proxy_latency.get(phase) {
            Some(summary) => *summary,
            None => LatencySummary { count: 0, total_micros: 0, avg_micros: 0, max_micros: 0 },
        }
    }

    /// Records latency for a named proxy/runtime phase.
    pub fn record_proxy_latency(&mut self, phase: &str, micros: u128)
        requires
            old(self).wf(),
            old(self)@.latency(phase@).count < u64::MAX,
            old(self)@.latency(phase@).total_micros + micros <= u128::MAX,
        ensures
            final(self).wf(),
            final(self)@ == (TelemetryModel {
                latencies: old(self)@.latencies.insert(
                    phase@,
                    with_latency(old(self)@.latency(phase@), micros),
                ),
                ..old(self)@
            }),
    {
        let summary = self.latency(phase);
        let count: u64 = summary.count + 1;
        let total_micros: u128 = summary.total_micros + micros;
        let next = LatencySummary {
            count,
            total_micros,
            avg_micros: total_micros / count as u128,
            max_micros: if summary.max_micros < micros {
                micros
            } else {
                summary.max_micros
            },
        };
        self.proxy_latency.insert(phase.to_owned(), next);
    }

    /// How often a metric of a service has been reported.
    pub fn distribution_count(&self, service_id: &str, metric: &str) -> (count: u64)
        requires
            self.wf(),
        ensures
            ({
                let key = distribution_key(service_id@, metric@);
                count == (if self@.distributions.contains_key(key) {
                    self@.distributions[key].count
                } else {
                    0
                })
            }),
    {
        match self.service_distributions.get(joined3(service_id, "::", metric).as_str()) {
            Some(record) => record.count,
            None => 0,
        }
    }

    /// Ingests one `basilisk.metrics.distribution` event from a connected service.
    pub fn ingest_distribution_event_at(&mut self, event: &ServiceBusEventEnvelope, now: Timestamp)
        requires
            old(self).wf(),
            ({
                let key = distribution_key(event@.service_id, metric_name(event@));
                old(self)@.distributions.contains_key(key) ==> old(self)@.distributions[key].count
                    < u64::MAX
            }),
        ensures
            final(self).wf(),
            final(self)@ == (TelemetryModel {
                distributions: old(self)@.distributions.insert(
                    distribution_key(event@.service_id, metric_name(event@)),
                    old(self)@.next_record(event@, now),
                ),
                ..old(self)@
            }),
    {
        let metric = distribution_metric(event);
        let key = joined3(event.service_id.as_str(), "::", metric.as_str());
        let record = match self.service_distributions.get(key.as_str()) {
            Some(known) => DistributionRecord {
                service_id: known.service_id.clone(),
                metric: known.metric.clone(),
                count: known.count + 1,
                last_seen_utc: now,
            },
            None => DistributionRecord {
                service_id: event.service_id.clone(),
                metric,
                count: 1,
                last_seen_utc: now,
            },
        };
        self.service_distributions.insert(key, record);
    }

    /// Ingests one distribution event at the current time.
    pub fn ingest_distribution_event(&mut self, event: &ServiceBusEventEnvelope)
        requires
            old(self).wf(),
            ({
                let key = distribution_key(event@.service_id, metric_name(event@));
                old(self)@.distributions.contains_key(key) ==> old(self)@.distributions[key].count
                    < u64::MAX
            }),
        ensures
            final(self).wf(),
            exists|now: Timestamp|
                final(self)@ == (TelemetryModel {
                    distributions: old(self)@.distributions.insert(
                        distribution_key(event@.service_id, metric_name(event@)),
                        #[trigger] old(self)@.next_record(event@, now),
                    ),
                    ..old(self)@
                }),
    {
        let now = utc_now();
        self.ingest_distribution_event_at(event, now)
    }

    /// Records the current health of a statically configured forwarding route.
    pub fn record_static_forward_health_at(
        &mut self,
        route_id: &str,
        configured_upstreams: usize,
        reachable_upstreams: usize,
        selected_target: Option<String>,
        now: Timestamp,
    )
        requires
            old(self).wf(),
        ensures
            final(self).wf(),
            final(self)@ == (TelemetryModel {
                static_forwards: old(self)@.static_forwards.insert(
                    route_id@,
                    static_forward_seen(
                        route_id@,
                        configured_upstreams,
                        reachable_upstreams,
                        optional_text(selected_target),
                        now,
                    ),
                ),
                ..old(self)@
            }),
    {
        self.static_forward_routes.insert(
            route_id.to_owned(),
            StaticForwardSummary {
                route_id: route_id.to_owned(),
                configured_upstreams,
                reachable_upstreams,
                status: static_forward_status(configured_upstreams, reachable_upstreams),
                selected_target,
                last_seen_utc: now,
            },
        );
    }

    /// Records the health of a statically configured forwarding route at the current time.
    pub fn record_static_forward_health(
        &mut self,
        route_id: &str,
        configured_upstreams: usize,
        reachable_upstreams: usize,
        selected_target: Option<String>,
    )
        requires
            old(self).wf(),
        ensures
            final(self).wf(),
            exists|now: Timestamp|
                final(self)@ == (TelemetryModel {
                    static_forwards: old(self)@.static_forwards.insert(
                        route_id@,
                        #[trigger] static_forward_seen(
                            route_id@,
                            configured_upstreams,
                            reachable_upstreams,
                            optional_text(selected_target),
                            now,
                        ),
                    ),
                    ..old(self)@
                }),
    {
        let now = utc_now();
        self.record_static_forward_health_at(
            route_id,
            configured_upstreams,
            reachable_upstreams,
            selected_target,
            now,
        )
    }

    fn list_latencies(&self) -> (list: Vec<(String, LatencySummary)>)
        requires
            self.wf(),
        ensures
            is_listing(latency_views(list@), named(self@.latencies)),
    {
        let mut list: Vec<(String, LatencySummary)> = Vec::new();
        let n = self.proxy_latency.len();
        let ghost order = self.proxy_latency.order();
        let mut i: usize = 0;
        while i < n
            invariant
                self.wf(),
                order == self.proxy_latency.order(),
                i <= n == order.len(),
                list@.len() == i,
                forall|j: int|
                    0 <= j < i ==> (#[trigger] list@[j]).0@ == order[j] && list@[j].1
                        == self@.latencies[order[j]],
            decreases n - i,
        {
            list.push((self.proxy_latency.key_at(i).clone(), *self.proxy_latency.value_at(i)));
            i += 1;
        }
        proof {
            let all = named(self@.latencies);
            assert(all.dom() =~= self@.latencies.dom());
            assert forall|j: int| 0 <= j < order.len() implies latency_views(list@)[j]
                == all[#[trigger] order[j]] by {
                assert(order.to_set().contains(order[j]));
                assert(list@[j].0@ == order[j]);
            }
            assert(latency_views(list@) =~= order.map_values(|k: Seq<char>| all[k]));
            assert(lists_by(latency_views(list@), all, order));
        }
        list
    }

    fn list_distributions(&self) -> (list: Vec<DistributionRecord>)
        requires
            self.wf(),
        ensures
            is_listing(list@.map_values(|r: DistributionRecord| r@), self@.distributions),
    {
        let mut list: Vec<DistributionRecord> = Vec::new();
        let n = self.service_distributions.len();
        let ghost order = self.service_distributions.order();
        let mut i: usize = 0;
        while i < n
            invariant
                self.wf(),
                order == self.service_distributions.order(),
                i <= n == order.len(),
                list@.len() == i,
                forall|j: int|
                    0 <= j < i ==> (#[trigger] list@[j])@ == self@.distributions[order[j]],
            decreases n - i,
        {
            let record = self.service_distributions.value_at(i);
            list.push(
                DistributionRecord {
                    service_id: record.service_id.clone(),
                    metric: record.metric.clone(),
                    count: record.count,
                    last_seen_utc: record.last_seen_utc,
                },
            );
            i += 1;
        }
        proof {
            let views = list@.map_values(|r: DistributionRecord| r@);
            assert(views =~= order.map_values(|k: Seq<char>| self@.distributions[k]));
            assert(lists_by(views, self@.distributions, order));
        }
        list
    }

    fn list_static_forwards(&self) -> (list: Vec<StaticForwardSummary>)
        requires
            self.wf(),
        ensures
            is_listing(list@.map_values(|r: StaticForwardSummary| r@), self@.static_forwards),
    {
        let mut list: Vec<StaticForwardSummary> = Vec::new();
        let n = self.static_forward_routes.len();
        let ghost order = self.static_forward_routes.order();
        let mut i: usize = 0;
        while i < n
            invariant
                self.wf(),
                order == self.static_forward_routes.order(),
                i <= n == order.len(),
                list@.len() == i,
                forall|j: int|
                    0 <= j < i ==> (#[trigger] list@[j])@ == self@.static_forwards[order[j]],
            decreases n - i,
        {
            let route = self.static_forward_routes.value_at(i);
            list.push(
                StaticForwardSummary {
                    route_id: route.route_id.clone(),
                    configured_upstreams: route.configured_upstreams,
                    reachable_upstreams: route.reachable_upstreams,
                    status: route.status,
                    selected_target: copy_optional(&route.selected_target),
                    last_seen_utc: route.last_seen_utc,
                },
            );
            i += 1;
        }
        proof {
            let views = list@.map_values(|r: StaticForwardSummary| r@);
            assert(views =~= order.map_values(|k: Seq<char>| self@.static_forwards[k]));
            assert(lists_by(views, self@.static_forwards, order));
        }
        list
    }

    /// Everything that has been collected, in no particular order.
    pub fn snapshot(&self) -> (snapshot: RuntimeTelemetrySnapshot)
        requires
            self.wf(),
        ensures
            is_listing(latency_views(snapshot.proxy_latency@), named(self@.latencies)),
            is_listing(
                snapshot.service_distributions@.map_values(|r: DistributionRecord| r@),
                self@.distributions,
            ),
            is_listing(
                snapshot.static_forward_routes@.map_values(|r: StaticForwardSummary| r@),
                self@.static_forwards,
            ),
    {
        RuntimeTelemetrySnapshot {
            proxy_latency: self.list_latencies(),
            service_distributions: self.list_distributions(),
            static_forward_routes: self.list_static_forwards(),
        }
    }
}

/// The views of a list of named summaries.
pub open spec fn latency_views(list: Seq<(String, LatencySummary)>) -> Seq<
    (Seq<char>, LatencySummary),
> {
    list.map_values(|e: (String, LatencySummary)| (e.0@, e.1))
}

/// Each value of a map together with its key.
pub open spec fn named(latencies: Map<Seq<char>, LatencySummary>) -> Map<
    Seq<char>,
    (Seq<char>, LatencySummary),
> {
    latencies.map_entries(|k: Seq<char>, v: LatencySummary| (k, v))
}

/// The summary of a static forward whose upstreams have just been looked at.
pub open spec fn static_forward_seen(
    route_id: Seq<char>,
    configured: usize,
    reachable: usize,
    selected: Option<Seq<char>>,
    now: Timestamp,
) -> StaticForwardModel {
    StaticForwardModel {
        route_id,
        configured_upstreams: configured,
        reachable_upstreams: reachable,
        status: reachability_status(configured, reachable),
        selected_target: selected,
        last_seen_utc: now,
    }
}

/// A snapshot has one entry per route: each route id occurs once.
pub proof fn routes_are_listed_once(telemetry: TelemetryModel, list: Seq<StaticForwardModel>)
    requires
        telemetry.consistent(),
        is_listing(list, telemetry.static_forwards),
    ensures
        list.map_values(|r: StaticForwardModel| r.route_id).no_duplicates(),
        list.map_values(|r: StaticForwardModel| r.route_id).to_set()
            == telemetry.static_forwards.dom(),
{
    let order = choose|order: Seq<Seq<char>>| #[trigger]
        lists_by(list, telemetry.static_forwards, order);
    let ids = list.map_values(|r: StaticForwardModel| r.route_id);
    assert forall|i: int| 0 <= i < order.len() implies ids[i] == order[i] by {
        assert(order.to_set().contains(order[i]));
        assert(telemetry.static_forwards.contains_key(order[i]));
    }
    assert(ids =~= order);
}

/// Recording the health of a route twice leaves one entry of it, the later one.
pub proof fn recording_again_replaces_the_route(
    telemetry: TelemetryModel,
    earlier: StaticForwardModel,
    later: StaticForwardModel,
)
    requires
        earlier.route_id == later.route_id,
    ensures
        telemetry.static_forwards.insert(earlier.route_id, earlier).insert(later.route_id, later)
            == telemetry.static_forwards.insert(later.route_id, later),
{
    assert(telemetry.static_forwards.insert(earlier.route_id, earlier).insert(
        later.route_id,
        later,
    ) =~= telemetry.static_forwards.insert(later.route_id, later));
}

/// The average of a phase never exceeds its maximum, and its total is at most the
/// maximum times the count; recording keeps it so.
pub proof fn latency_average_is_bounded(summary: LatencySummary, micros: u128)
    requires
        summary.total_micros <= summary.max_micros * summary.count,
        summary.count < u64::MAX,
        summary.total_micros + micros <= u128::MAX,
    ensures
        ({
            let next = with_latency(summary, micros);
            &&& next.total_micros <= next.max_micros * next.count
            &&& next.avg_micros <= next.max_micros
        }),
{
    let next = with_latency(summary, micros);
    let max = next.max_micros as int;
    let count = summary.count as int;
    assert(summary.max_micros * count <= max * count) by (nonlinear_arith)
        requires
            summary.max_micros <= max,
            count >= 0,
    ;
    assert(max * (count + 1) == max * count + max) by (nonlinear_arith);
    assert(next.total_micros <= max * (count + 1));
    assert(next.total_micros as int / (count + 1) <= max) by (nonlinear_arith)
        requires
            next.total_micros <= max * (count + 1),
            count >= 0,
            max >= 0,
    ;
}

/// A latency is taken into its phase: one more is counted, the total grows by it, the
/// average is the whole part of the total over the count, and the maximum is the
/// largest so far.
pub proof fn latencies_add_up(summary: LatencySummary, micros: u128)
    requires
        summary.count < u64::MAX,
        summary.total_micros + micros <= u128::MAX,
    ensures
        ({
            let after = with_latency(summary, micros);
            &&& after.count == summary.count + 1
            &&& after.total_micros == summary.total_micros + micros
            &&& after.avg_micros * after.count <= after.total_micros
            &&& after.total_micros < (after.avg_micros + 1) * after.count
            &&& after.max_micros >= micros && after.max_micros >= summary.max_micros
            &&& after.max_micros == micros || after.max_micros == summary.max_micros
        }),
        no_latency().count == 0,
        no_latency().total_micros == 0,
        no_latency().avg_micros == 0,
        no_latency().max_micros == 0,
{
    let count = (summary.count + 1) as int;
    let total = summary.total_micros + micros;
    let avg = total / count;
    vstd::arithmetic::div_mod::lemma_fundamental_div_mod(total, count);
    vstd::arithmetic::div_mod::lemma_div_pos_is_pos(total, count);
    vstd::arithmetic::div_mod::lemma_div_is_ordered_by_denominator(total, 1, count);
    assert(total / 1 == total);
    assert(avg * count <= total < (avg + 1) * count) by (nonlinear_arith)
        requires
            total == count * avg + total % count,
            0 <= total % count < count,
    ;
}

/// A distribution event is counted under its service and its metric: the first one
/// begins the record, each later one counts one more and is the last that was seen.
pub proof fn distribution_events_are_counted(
    telemetry: TelemetryModel,
    event: EventModel,
    now: Timestamp,
)
    requires
        telemetry.consistent(),
    ensures
        ({
            let key = event.service_id + "::"@ + metric_name(event);
            let record = telemetry.next_record(event, now);
            let known = telemetry.distributions.contains_key(key);
            &&& record.last_seen_utc == now
            &&& !known ==> record.count == 1 && record.service_id == event.service_id
                && record.metric == metric_name(event)
            &&& known && telemetry.distributions[key].count < u64::MAX ==> record.count
                == telemetry.distributions[key].count + 1
            &&& known ==> record.service_id + "::"@ + record.metric == key
        }),
{
}

/// A metric is named by its `metric`, or else by its `name`, where that is a string; and
/// else it is unnamed.
pub proof fn metrics_are_named_by_their_payload(event: EventModel, name: Seq<char>)
    ensures
        event.payload.contains_key("metric"@) && event.payload["metric"@] == JsonModel::Text(name)
            ==> metric_name(event) == name,
        !event.payload.contains_key("metric"@) && event.payload.contains_key("name"@)
            && event.payload["name"@] == JsonModel::Text(name) ==> metric_name(event) == name,
        !event.payload.contains_key("metric"@) && !event.payload.contains_key("name"@)
            ==> metric_name(event) == "unnamed"@,
        event.payload.contains_key("metric"@) && event.payload["metric"@] == JsonModel::Number(name)
            ==> metric_name(event) == "unnamed"@,
{
}

/// What is shown of a static forward is what was seen of it, and its status tells how
/// many of its upstreams are reachable: all, some or none.
pub proof fn static_forwards_are_shown_as_seen(
    route_id: Seq<char>,
    configured: usize,
    reachable: usize,
    selected: Option<Seq<char>>,
    now: Timestamp,
)
    requires
        reachable <= configured,
    ensures
        ({
            let seen = static_forward_seen(route_id, configured, reachable, selected, now);
            &&& seen.route_id == route_id
            &&& seen.configured_upstreams == configured
            &&& seen.reachable_upstreams == reachable
            &&& seen.selected_target == selected
            &&& seen.last_seen_utc == now
            &&& seen.status == InstanceStatus::Down <==> reachable == 0
            &&& seen.status == InstanceStatus::Up <==> reachable == configured && reachable > 0
        }),
{
}

/// A phase that was recorded has its summary; one that never was has an empty one.
pub proof fn phases_start_empty(telemetry: TelemetryModel, phase: Seq<char>)
    ensures
        telemetry.latencies.contains_key(phase) ==> telemetry.latency(phase)
            == telemetry.latencies[phase],
        !telemetry.latencies.contains_key(phase) ==> telemetry.latency(phase).count == 0
            && telemetry.latency(phase).total_micros == 0,
{
}

/// Nothing of a record or of a summary is lost in its model.
pub proof fn telemetry_models_hold_every_field(
    record: DistributionRecord,
    summary: StaticForwardSummary,
)
    ensures
        record@.service_id == record.service_id@ && record@.metric == record.metric@,
        record@.count == record.count && record@.last_seen_utc == record.last_seen_utc,
        summary@.route_id == summary.route_id@,
        summary@.configured_upstreams == summary.configured_upstreams,
        summary@.reachable_upstreams == summary.reachable_upstreams,
        summary@.status == summary.status && summary@.last_seen_utc == summary.last_seen_utc,
        summary@.selected_target is Some == summary.selected_target is Some,
        summary.selected_target matches Some(target) ==> summary@.selected_target == Some(target@),
{
}

} // verus!
