//! What is shown of services to the outside.

use crate::clock::Timestamp;
use crate::models::{InstanceModel, InstanceStatus, ServiceDefinition};
use crate::string_map::StringMap;
use crate::text::{copy_texts, texts};
use vstd::prelude::*;

verus! {

/// A service as it is shown: without its fingerprint and its tokens.
pub struct ServiceData {
    pub service_id: String,
    pub path_prefixes: Vec<String>,
    pub instances: StringMap<InstanceData>,
}

/// Concrete network endpoint and health metadata for a service instance.
#[derive(Clone, Debug)]
pub struct InstanceData {
    pub scheme: String,
    pub host: String,
    pub status: InstanceStatus,
    pub active_connections: i32,
    pub last_heartbeat_utc: Timestamp,
}

/// What is shown of an instance.
pub struct InstanceDataModel {
    pub scheme: Seq<char>,
    pub host: Seq<char>,
    pub status: InstanceStatus,
    pub active_connections: i32,
    pub last_heartbeat_utc: Timestamp,
}

impl View for InstanceData {
    type V = InstanceDataModel;

    open spec fn view(&self) -> InstanceDataModel {
        InstanceDataModel {
            scheme: self.scheme@,
            host: self.host@,
            status: self.status,
            active_connections: self.active_connections,
            last_heartbeat_utc: self.last_heartbeat_utc,
        }
    }
}

/// What is shown of an instance.
pub open spec fn shown(instance: InstanceModel) -> InstanceDataModel {
    InstanceDataModel {
        scheme: instance.scheme,
        host: instance.host,
        status: instance.status,
        active_connections: instance.active_connections,
        last_heartbeat_utc: instance.last_heartbeat_utc,
    }
}

impl ServiceData {
    /// What is shown of a service, each instance under its own id. Of instances
    /// that share an id, one is shown.
    pub fn from(source: &ServiceDefinition) -> (data: Self)
        ensures
            data.service_id@ == source.service_id@,
            texts(data.path_prefixes@) == texts(source.path_prefixes@),
            forall|k: Seq<char>| #[trigger]
                source.instances@.contains_key(k) ==> data.instances@.contains_key(
                    source.instances@[k].instance_id,
                ),
            forall|id: Seq<char>| #[trigger]
                data.instances@.contains_key(id) ==> exists|k: Seq<char>| #[trigger]
                    source.instances@.contains_key(k) && source.instances@[k].instance_id == id
                        && data.instances@[id] == shown(source.instances@[k]),
    {
        let mut instances: StringMap<InstanceData> = StringMap::new();
        let n = source.instances.len();
        let ghost order = source.instances.order();
        let mut i: usize = 0;
        while i < n
            invariant
                order == source.instances.order(),
                order.to_set() == source.instances@.dom(),
                i <= n == order.len(),
                forall|j: int|
                    0 <= j < i ==> instances@.contains_key(
                        source.instances@[#[trigger] order[j]].instance_id,
                    ),
                forall|id: Seq<char>| #[trigger]
                    instances@.contains_key(id) ==> exists|k: Seq<char>| #[trigger]
                        source.instances@.contains_key(k) && source.instances@[k].instance_id == id
                            && instances@[id] == shown(source.instances@[k]),
            decreases n - i,
        {
            let instance = source.instances.value_at(i);
            proof {
                assert(order.to_set().contains(order[i as int]));
                assert(source.instances@.contains_key(order[i as int]));
            }
            instances.insert(
                instance.instance_id.clone(),
                InstanceData {
                    scheme: instance.scheme.clone(),
                    host: instance.host.clone(),
                    status: instance.status,
                    active_connections: instance.active_connections,
                    last_heartbeat_utc: instance.last_heartbeat_utc,
                },
            );
            i += 1;
        }
        proof {
            assert forall|k: Seq<char>| #[trigger]
                source.instances@.contains_key(k) implies instances@.contains_key(
                source.instances@[k].instance_id,
            ) by {
                assert(order.to_set().contains(k));
                let j = order.index_of(k);
                assert(order[j] == k);
            }
        }
        ServiceData {
            service_id: source.service_id.clone(),
            path_prefixes: copy_texts(&source.path_prefixes),
            instances,
        }
    }
}

/// What is shown of an instance is its own, and neither its token nor its ids are among
/// it: instances that differ in these alone are shown alike.
pub proof fn instances_are_shown_as_they_are(a: InstanceModel, b: InstanceModel)
    ensures
        shown(a) == shown(b) <==> a.scheme == b.scheme && a.host == b.host && a.status == b.status
            && a.active_connections == b.active_connections && a.last_heartbeat_utc
            == b.last_heartbeat_utc,
        shown(a).scheme == a.scheme,
        shown(a).host == a.host,
        shown(a).status == a.status,
        shown(a).active_connections == a.active_connections,
        shown(a).last_heartbeat_utc == a.last_heartbeat_utc,
{
}

} // verus!
