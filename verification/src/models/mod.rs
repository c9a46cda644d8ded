//! Services, their instances, and the messages of the registry.

pub mod error_codes;

use crate::clock::Timestamp;
use crate::string_map::{Duplicate, StringMap};
use crate::text::{chars_of, copy_texts, format_unsigned, decimal, joined3, text_has_char, texts};
use vstd::prelude::*;
use vstd::string::*;

verus! {

/// Health state reported or inferred for a service instance.
#[derive(Clone, Copy, Debug, PartialEq, Eq, Structural)]
pub enum InstanceStatus {
    Up,
    Down,
    Degraded,
}

/// Concrete network endpoint and health metadata for a service instance.
#[derive(Clone, Debug)]
pub struct ServiceInstance {
    pub instance_id: String,
    pub service_id: String,
    pub token: String,
    pub scheme: String,
    pub host: String,
    pub port: u16,
    pub weight: i32,
    pub status: InstanceStatus,
    pub active_connections: i32,
    pub last_heartbeat_utc: Timestamp,
}

/// What a service instance holds.
pub struct InstanceModel {
    pub instance_id: Seq<char>,
    pub service_id: Seq<char>,
    pub token: Seq<char>,
    pub scheme: Seq<char>,
    pub host: Seq<char>,
    pub port: u16,
    pub weight: i32,
    pub status: InstanceStatus,
    pub active_connections: i32,
    pub last_heartbeat_utc: Timestamp,
}

impl View for ServiceInstance {
    type V = InstanceModel;

    open spec fn view(&self) -> InstanceModel {
        InstanceModel {
            instance_id: self.instance_id@,
            service_id: self.service_id@,
            token: self.token@,
            scheme: self.scheme@,
            host: self.host@,
            port: self.port,
            weight: self.weight,
            status: self.status,
            active_connections: self.active_connections,
            last_heartbeat_utc: self.last_heartbeat_utc,
        }
    }
}

impl Duplicate for ServiceInstance {
    fn duplicate(&self) -> (copy: Self) {
        ServiceInstance {
            instance_id: self.instance_id.clone(),
            service_id: self.service_id.clone(),
            token: self.token.clone(),
            scheme: self.scheme.clone(),
            host: self.host.clone(),
            port: self.port,
            weight: self.weight,
            status: self.status,
            active_connections: self.active_connections,
            last_heartbeat_utc: self.last_heartbeat_utc,
        }
    }
}

/// The notation of a host inside a URI: an IPv6 address stands in brackets.
pub open spec fn uri_host(host: Seq<char>) -> Seq<char> {
    if (host.len() > 0 && host[0] == '[') || !host.contains(':') {
        host
    } else {
        "["@ + host + "]"@
    }
}

/// The base URI of an endpoint. Port 0 stands for the default port of the
/// scheme and is left out.
pub open spec fn base_uri(scheme: Seq<char>, host: Seq<char>, port: u16) -> Seq<char> {
    let stem = scheme + "://"@ + uri_host(host);
    if port == 0 {
        stem
    } else {
        stem + ":"@ + decimal(port as nat)
    }
}

/// Writes a host for use inside a URI.
pub fn format_uri_host(host: &str) -> (text: String)
    ensures
        text@ == uri_host(host@),
{
    let chars = chars_of(host);
    let bracketed = chars.len() > 0 && chars[0] == '[';
    if bracketed || !text_has_char(host, ':') {
        host.to_owned()
    } else {
        joined3("[", host, "]")
    }
}

/// Writes the base URI of an endpoint.
pub fn format_base_uri(scheme: &str, host: &str, port: u16) -> (uri: String)
    ensures
        uri@ == base_uri(scheme@, host@, port),
{
    let host_text = format_uri_host(host);
    let mut uri = joined3(scheme, "://", host_text.as_str());
    if port != 0 {
        uri.append(":");
        uri.append(format_unsigned(port as u64).as_str());
    }
    uri
}

impl ServiceInstance {
    /// Returns the base URI for this instance.
    ///
    /// When `port == 0`, the URI is emitted without an explicit port, so the
    /// upstream can rely on its default port for the scheme.
    pub fn to_uri(&self) -> (uri: String)
        ensures
            uri@ == base_uri(self.scheme@, self.host@, self.port),
    {
        format_base_uri(self.scheme.as_str(), self.host.as_str(), self.port)
    }
}

/// Service definition containing identity, route ownership, and instances.
pub struct ServiceDefinition {
    pub service_id: String,
    pub fingerprint: String,
    pub path_prefixes: Vec<String>,
    pub instances: StringMap<ServiceInstance>,
}

/// What a service definition holds.
pub struct ServiceModel {
    pub service_id: Seq<char>,
    pub fingerprint: Seq<char>,
    pub path_prefixes: Seq<Seq<char>>,
    pub instances: Map<Seq<char>, InstanceModel>,
}

impl View for ServiceDefinition {
    type V = ServiceModel;

    open spec fn view(&self) -> ServiceModel {
        ServiceModel {
            service_id: self.service_id@,
            fingerprint: self.fingerprint@,
            path_prefixes: texts(self.path_prefixes@),
            instances: self.instances@,
        }
    }
}

impl Duplicate for ServiceDefinition {
    fn duplicate(&self) -> (copy: Self) {
        ServiceDefinition {
            service_id: self.service_id.clone(),
            fingerprint: self.fingerprint.clone(),
            path_prefixes: copy_texts(&self.path_prefixes),
            instances: self.instances.duplicate(),
        }
    }
}

/// Registration payload sent by services to the registry endpoint.
#[derive(Clone, Debug)]
pub struct RegistrationRequest {
    pub service_id: String,
    pub fingerprint: String,
    pub path_prefixes: Vec<String>,
    pub instance: InstanceInfo,
    pub auth: AuthInfo,
}

/// Network identity of an instance being registered.
#[derive(Clone, Debug)]
pub struct InstanceInfo {
    pub instance_id: String,
    pub scheme: String,
    pub host: String,
    pub port: u16,
    pub weight: i32,
}

/// Registration authentication information.
#[derive(Clone, Debug)]
pub struct AuthInfo {
    /// The kind of credential; the payload calls this field `type`.
    pub kind: String,
    pub token: String,
}

/// Standard API error envelope.
#[derive(Clone, Debug)]
pub struct ErrorResponse {
    pub error: ErrorDetail,
}

/// Error payload details.
#[derive(Clone, Debug)]
pub struct ErrorDetail {
    pub code: String,
    pub message: String,
}

impl ErrorResponse {
    /// The envelope of an error with the given code and message.
    pub fn new(code: &str, message: &str) -> (response: Self)
        ensures
            response.error.code@ == code@,
            response.error.message@ == message@,
    {
        ErrorResponse { error: ErrorDetail { code: code.to_owned(), message: message.to_owned() } }
    }
}

/// Nothing of an instance is lost in its model: instances with the same model agree in
/// every field.
pub proof fn instance_models_hold_every_field(a: ServiceInstance, b: ServiceInstance)
    ensures
        a@ == b@ <==> a.instance_id@ == b.instance_id@ && a.service_id@ == b.service_id@ && a.token@
            == b.token@ && a.scheme@ == b.scheme@ && a.host@ == b.host@ && a.port == b.port
            && a.weight == b.weight && a.status == b.status && a.active_connections
            == b.active_connections && a.last_heartbeat_utc == b.last_heartbeat_utc,
        a@.host == a.host@ && a@.port == a.port && a@.weight == a.weight,
{
}

/// Nothing of a service is lost in its model.
pub proof fn service_models_hold_every_field(a: ServiceDefinition, i: int)
    ensures
        a@.service_id == a.service_id@,
        a@.fingerprint == a.fingerprint@,
        a@.instances == a.instances@,
        a@.path_prefixes.len() == a.path_prefixes@.len(),
        0 <= i < a.path_prefixes@.len() ==> a@.path_prefixes[i] == a.path_prefixes@[i]@,
{
}

} // verus!
