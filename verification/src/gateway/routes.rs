//! The HTTP routes of the registry.

use crate::clock::{is_uuid, random_uuid, utc_now, Timestamp};
use crate::config::GatewayConfig;
use crate::models::{error_codes, ErrorResponse, RegistrationRequest};
use crate::registry::{RegistryModel, ServiceRegistry};
use crate::text::same_text;
use vstd::prelude::*;

verus! {

/// What the allowlist says of the source of a registration.
#[derive(Clone, Copy, Debug, PartialEq, Eq, Structural)]
pub enum AllowlistVerdict {
    Allowed,
    Refused,
    /// A rule could not be evaluated.
    Failed,
}

/// What a successful registration answers.
#[derive(Clone, Debug)]
pub struct RegisteredInstance {
    pub service_id: String,
    pub instance_id: String,
    pub token: String,
}

/// The answer of a registry route.
#[derive(Clone, Debug)]
pub struct RouteReply {
    pub status: u16,
    pub registered: Option<RegisteredInstance>,
    pub error: Option<ErrorResponse>,
    /// Whether routes that were resolved before are out of date.
    pub advances_version: bool,
}

/// What the answer of a registry route holds.
pub struct RouteReplyModel {
    pub status: u16,
    /// The service, the instance and the token of a successful registration.
    pub registered: Option<(Seq<char>, Seq<char>, Seq<char>)>,
    /// The code and the message of an error.
    pub error: Option<(Seq<char>, Seq<char>)>,
    pub advances_version: bool,
}

impl View for RouteReply {
    type V = RouteReplyModel;

    open spec fn view(&self) -> RouteReplyModel {
        RouteReplyModel {
            status: self.status,
            registered: match self.registered {
                Some(r) => Some((r.service_id@, r.instance_id@, r.token@)),
                None => None,
            },
            error: match self.error {
                Some(e) => Some((e.error.code@, e.error.message@)),
                None => None,
            },
            advances_version: self.advances_version,
        }
    }
}

impl RouteReply {
    /// An answer that is nothing but a status.
    pub fn bare(status: u16, advances_version: bool) -> (reply: Self)
        ensures
            reply@ == bare_reply(status, advances_version),
    {
        RouteReply { status, registered: None, error: None, advances_version }
    }

    /// An answer that reports an error.
    pub fn failure(status: u16, code: &str, message: &str) -> (reply: Self)
        ensures
            reply@ == failure_reply(status, code@, message@),
    {
        RouteReply {
            status,
            registered: None,
            error: Some(ErrorResponse::new(code, message)),
            advances_version: false,
        }
    }
}

/// An answer that is nothing but a status.
pub open spec fn bare_reply(status: u16, advances_version: bool) -> RouteReplyModel {
    RouteReplyModel { status, registered: None, error: None, advances_version }
}

/// An answer that reports an error.
pub open spec fn failure_reply(status: u16, code: Seq<char>, message: Seq<char>) -> RouteReplyModel {
    RouteReplyModel {
        status,
        registered: None,
        error: Some((code, message)),
        advances_version: false,
    }
}

/// Whether a registration shows the configured token, and says that it does where
/// tokens are the configured way.
pub open spec fn is_authenticated(config: GatewayConfig, request: RegistrationRequest) -> bool {
    &&& config.security.service_registration_auth@ == "TOKEN"@ ==> request.auth.kind@ == "token"@
    &&& request.auth.token@ == config.security.registration_token@
}

/// The answer to a registration that does not reach the registry.
pub open spec fn turned_away(
    verdict: AllowlistVerdict,
    config: GatewayConfig,
    request: RegistrationRequest,
) -> Option<RouteReplyModel> {
    match verdict {
        AllowlistVerdict::Refused => Some(
            failure_reply(
                403,
                error_codes::REGISTRATION_IP_NOT_ALLOWED@,
                "Registration source IP is not allowed"@,
            ),
        ),
        AllowlistVerdict::Failed => Some(bare_reply(500, false)),
        AllowlistVerdict::Allowed => if is_authenticated(config, request) {
            None
        } else {
            Some(
                failure_reply(
                    401,
                    error_codes::AUTH_FAILED@,
                    "Authentication failed for service registration"@,
                ),
            )
        },
    }
}

/// What a registration route leads to, given the id and the token that may have
/// to be drawn and the time.
pub open spec fn route_registered(
    registry: RegistryModel,
    verdict: AllowlistVerdict,
    config: GatewayConfig,
    request: RegistrationRequest,
    fresh_id: Seq<char>,
    token: Seq<char>,
    now: Timestamp,
) -> (RegistryModel, RouteReplyModel) {
    match turned_away(verdict, config, request) {
        Some(reply) => (registry, reply),
        None => {
            let (after, outcome) = registry.registered(request, fresh_id, token, now);
            if outcome.success {
                (
                    after,
                    RouteReplyModel {
                        status: 200,
                        registered: Some(
                            (request.service_id@, outcome.instance_id->0, outcome.token->0),
                        ),
                        error: None,
                        advances_version: config.cache.enabled,
                    },
                )
            } else {
                (
                    after,
                    failure_reply(
                        if outcome.error_code == Some(error_codes::FINGERPRINT_INVALID@) {
                            403
                        } else {
                            409
                        },
                        outcome.error_code->0,
                        outcome.error_message->0,
                    ),
                )
            }
        },
    }
}

/// Registers a service instance: the allowlist and the token are checked, then the
/// registry decides.
pub fn register_at(
    registry: &mut ServiceRegistry,
    verdict: AllowlistVerdict,
    config: &GatewayConfig,
    request: RegistrationRequest,
    fresh_id: String,
    token: String,
    now: Timestamp,
) -> (reply: RouteReply)
    requires
        old(registry).wf(),
    ensures
        final(registry).wf(),
        (final(registry)@, reply@) == route_registered(
            old(registry)@,
            verdict,
            *config,
            request,
            fresh_id@,
            token@,
            now,
        ),
{
    match verdict {
        AllowlistVerdict::Refused => {
            return RouteReply::failure(
                403,
                error_codes::REGISTRATION_IP_NOT_ALLOWED,
                "Registration source IP is not allowed",
            );
        },
        AllowlistVerdict::Failed => {
            return RouteReply::bare(500, false);
        },
        AllowlistVerdict::Allowed => {},
    }
    let by_token = same_text(config.security.service_registration_auth.as_str(), "TOKEN");
    if (by_token && !same_text(request.auth.kind.as_str(), "token")) || !same_text(
        request.auth.token.as_str(),
        config.security.registration_token.as_str(),
    ) {
        return RouteReply::failure(
            401,
            error_codes::AUTH_FAILED,
            "Authentication failed for service registration",
        );
    }
    let service_id = request.service_id.clone();
    let ghost before = registry@;
    let result = registry.register_at(request, fresh_id, token, now);
    proof {
        let outcome = before.registered(request, fresh_id@, token@, now).1;
        assert(result@ == outcome);
        reveal_strlit("ROUTE_COLLISION");
        reveal_strlit("FINGERPRINT_INVALID");
    }
    match (result.instance_id, result.token, result.error_code, result.error_message) {
        (Some(instance_id), Some(token), _, _) => RouteReply {
            status: 200,
            registered: Some(RegisteredInstance { service_id, instance_id, token }),
            error: None,
            advances_version: config.cache.enabled,
        },
        (_, _, Some(code), Some(message)) => {
            let status: u16 = if same_text(code.as_str(), error_codes::FINGERPRINT_INVALID) {
                403
            } else {
                409
            };
            RouteReply::failure(status, code.as_str(), message.as_str())
        },
        _ => RouteReply::failure(409, "UNKNOWN_ERROR", "Unknown error"),
    }
}

/// Registers a service instance at the current time, with a token, and an id where
/// the request gives none, that are drawn at random.
pub fn register(
    registry: &mut ServiceRegistry,
    verdict: AllowlistVerdict,
    config: &GatewayConfig,
    request: RegistrationRequest,
) -> (reply: RouteReply)
    requires
        old(registry).wf(),
    ensures
        final(registry).wf(),
        exists|fresh_id: Seq<char>, token: Seq<char>, now: Timestamp|
            is_uuid(fresh_id, '4') && is_uuid(token, '4') && (final(registry)@, reply@)
                == #[trigger] route_registered(
                old(registry)@,
                verdict,
                *config,
                request,
                fresh_id,
                token,
                now,
            ),
{
    let fresh_id = random_uuid();
    let token = random_uuid();
    let now = utc_now();
    register_at(registry, verdict, config, request, fresh_id, token, now)
}

/// Deregisters a service instance: 200 where it was known, else 404.
pub fn deregister(
    registry: &mut ServiceRegistry,
    config: &GatewayConfig,
    service_id: &str,
    instance_id: &str,
) -> (reply: RouteReply)
    requires
        old(registry).wf(),
    ensures
        final(registry).wf(),
        final(registry)@ == old(registry)@.deregistered(service_id@, instance_id@),
        reply@ == (if old(registry)@.has_instance(service_id@, instance_id@) {
            bare_reply(200, config.cache.enabled)
        } else {
            bare_reply(404, false)
        }),
{
    if registry.deregister(service_id, instance_id) {
        RouteReply::bare(200, config.cache.enabled)
    } else {
        RouteReply::bare(404, false)
    }
}

/// Takes a heartbeat of a service instance: 200 where it is known, else 404.
pub fn heartbeat_at(
    registry: &mut ServiceRegistry,
    service_id: &str,
    instance_id: &str,
    now: Timestamp,
) -> (reply: RouteReply)
    requires
        old(registry).wf(),
    ensures
        final(registry).wf(),
        final(registry)@ == old(registry)@.heard(service_id@, instance_id@, now),
        reply@ == (if old(registry)@.has_instance(service_id@, instance_id@) {
            bare_reply(200, false)
        } else {
            bare_reply(404, false)
        }),
{
    if registry.heartbeat_at(service_id, instance_id, now) {
        RouteReply::bare(200, false)
    } else {
        RouteReply::bare(404, false)
    }
}

/// A registration that is turned away, for whatever reason, leaves the registry as
/// it was.
pub proof fn turned_away_changes_nothing(
    registry: RegistryModel,
    verdict: AllowlistVerdict,
    config: GatewayConfig,
    request: RegistrationRequest,
    fresh_id: Seq<char>,
    token: Seq<char>,
    now: Timestamp,
)
    requires
        verdict != AllowlistVerdict::Allowed || !is_authenticated(config, request),
    ensures
        ({
            let (after, reply) = route_registered(
                registry,
                verdict,
                config,
                request,
                fresh_id,
                token,
                now,
            );
            after == registry && reply.registered is None && reply.status != 200
        }),
{
}

/// Nothing of the answer of a registry route is lost in its model.
pub proof fn reply_models_hold_every_field(reply: RouteReply)
    ensures
        reply@.status == reply.status,
        reply@.advances_version == reply.advances_version,
        reply@.registered is Some == reply.registered is Some,
        reply.registered matches Some(r) ==> reply@.registered == Some(
            (r.service_id@, r.instance_id@, r.token@),
        ),
        reply@.error is Some == reply.error is Some,
        reply.error matches Some(e) ==> reply@.error == Some((e.error.code@, e.error.message@)),
{
}

} // verus!
