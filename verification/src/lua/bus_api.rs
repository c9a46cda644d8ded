//! What scripts do on the service bus.

use crate::clock::{is_uuid, time_ordered_uuid, utc_now, Timestamp};
use crate::json::{json_model, JsonModel, JsonValue};
use crate::service_bus::connection_manager::{
    id_after, BusModel, ConnectionManager, Publication,
};
use crate::service_bus::contracts::{
    EventModel, ServiceBusEventEnvelope, BASILISK_INSTANCE_ID, BASILISK_SERVICE_ID,
};
use crate::service_bus::forward::{all_text, text_fields};
use crate::string_map::{Duplicate, StringMap};
use crate::text::{
    copy_optional, is_space, joined, optional_text, text_starts_with, trim, trimmed,
};
use crate::text_laws::trimming_keeps_the_rest;
use vstd::prelude::*;

verus! {

/// The fields of a JSON object as a map; of a repeated name the last counts.
pub open spec fn object_map(fields: Seq<(Seq<char>, JsonModel)>) -> Map<Seq<char>, JsonModel>
    decreases fields.len(),
{
    if fields.len() == 0 {
        Map::empty()
    } else {
        object_map(fields.drop_last()).insert(fields.last().0, fields.last().1)
    }
}

/// Reads the payload of an event: a JSON object. A message says what the named
/// interface expects where it is none.
pub fn payload_from(value: &JsonValue, api_name: &str) -> (payload: Result<
    StringMap<JsonValue>,
    String,
>)
    ensures
        match payload {
            Ok(map) => value@ is Fields && map@ == object_map(value@->Fields_0),
            Err(message) => !(value@ is Fields) && message@ == api_name@
                + " payload must be a JSON object"@,
        },
{
    match value {
        JsonValue::Fields(fields) => {
            let ghost model = json_model(*value)->Fields_0;
            let mut map: StringMap<JsonValue> = StringMap::new();
            let mut i: usize = 0;
            proof {
                assert(model.take(0) =~= Seq::<(Seq<char>, JsonModel)>::empty());
            }
            while i < fields.len()
                invariant
                    *value == JsonValue::Fields(*fields),
                    model == json_model(*value)->Fields_0,
                    i <= fields@.len() == model.len(),
                    map@ == object_map(model.take(i as int)),
                decreases fields@.len() - i,
            {
                proof {
                    assert(model[i as int] == (fields@[i as int].0@, json_model(fields@[i as int].1)));
                    assert(model.take(i + 1).drop_last() =~= model.take(i as int));
                    assert(model.take(i + 1).last() == model[i as int]);
                }
                map.insert(fields[i].0.clone(), fields[i].1.duplicate());
                i += 1;
            }
            proof {
                assert(model.take(model.len() as int) =~= model);
            }
            Ok(map)
        },
        _ => Err(joined(api_name, " payload must be a JSON object")),
    }
}

/// The event that a script publishes.
pub open spec fn script_event(
    topic: Seq<char>,
    payload: Map<Seq<char>, JsonModel>,
    unique: Seq<char>,
    correlation_id: i64,
    now: Timestamp,
) -> EventModel {
    EventModel {
        event_id: "basilisk-lua-"@ + unique,
        emitted_at_utc: now,
        service_id: BASILISK_SERVICE_ID@,
        instance_id: BASILISK_INSTANCE_ID@,
        topic,
        message_type: "lua_event"@,
        correlation_id,
        causation_id: None,
        payload,
    }
}

/// Makes the event that a script publishes.
pub fn make_script_event(
    topic: String,
    payload: StringMap<JsonValue>,
    unique: &str,
    correlation_id: i64,
    now: Timestamp,
) -> (event: ServiceBusEventEnvelope)
    ensures
        event@ == script_event(topic@, payload@, unique@, correlation_id, now),
{
    ServiceBusEventEnvelope {
        event_id: joined("basilisk-lua-", unique),
        emitted_at_utc: now,
        service_id: BASILISK_SERVICE_ID.to_owned(),
        instance_id: BASILISK_INSTANCE_ID.to_owned(),
        topic,
        message_type: "lua_event".to_owned(),
        correlation_id,
        causation_id: None,
        payload,
    }
}

/// The bus after a correlation id has been used up.
pub open spec fn numbered_once(bus: BusModel) -> BusModel {
    BusModel { next_correlation_id: id_after(bus.next_correlation_id), ..bus }
}

/// Publishes an event of a script under the next correlation id, and tells what was
/// handed to whom.
pub fn deliver_from_script_at(
    manager: &mut ConnectionManager,
    topic: String,
    payload: StringMap<JsonValue>,
    unique: &str,
    now: Timestamp,
) -> (publication: Publication)
    requires
        old(manager).wf(),
    ensures
        final(manager).wf(),
        publication.hands_out(
            numbered_once(old(manager)@),
            script_event(topic@, payload@, unique@, old(manager)@.next_correlation_id, now),
            ""@,
        ),
        final(manager)@ == publication.leaves(numbered_once(old(manager)@)),
{
    let correlation_id: i64 = manager.next_correlation_id();
    let event = make_script_event(topic, payload, unique, correlation_id, now);
    manager.deliver(&event, None)
}

/// Publishes an event of a script under the next correlation id. Returns how many
/// subscribers took it.
pub fn publish_from_script(
    manager: &mut ConnectionManager,
    topic: String,
    payload: StringMap<JsonValue>,
) -> (delivered: i32)
    requires
        old(manager).wf(),
    ensures
        final(manager).wf(),
        exists|p: Publication, unique: Seq<char>, now: Timestamp|
            is_uuid(unique, '7') && #[trigger] p.hands_out(
                numbered_once(old(manager)@),
                script_event(topic@, payload@, unique, old(manager)@.next_correlation_id, now),
                ""@,
            ) && final(manager)@ == p.leaves(numbered_once(old(manager)@)) && delivered == p.delivered,
{
    let unique = time_ordered_uuid();
    let now = utc_now();
    let publication = deliver_from_script_at(manager, topic, payload, unique.as_str(), now);
    publication.delivered
}

/// The headers of a forward request of a script: those of a JSON object of strings.
pub fn forward_headers_from(value: &Option<JsonValue>) -> (headers: Result<StringMap<String>, String>)
    ensures
        match headers {
            Ok(map) => match *value {
                None => map@ == Map::<Seq<char>, Seq<char>>::empty(),
                Some(v) => v@ is Fields && all_text(v@->Fields_0) && map@ == text_fields(v@->Fields_0),
            },
            Err(message) => *value matches Some(v) && !(v@ is Fields && all_text(v@->Fields_0))
                && message@ == "service_bus.forward headers must be a JSON object of strings"@,
        },
{
    match value {
        None => Ok(StringMap::new()),
        Some(json) => match json {
            JsonValue::Fields(fields) => {
                let ghost model = json_model(*json)->Fields_0;
                let mut map: StringMap<String> = StringMap::new();
                let mut i: usize = 0;
                proof {
                    assert(model.take(0) =~= Seq::<(Seq<char>, JsonModel)>::empty());
                }
                while i < fields.len()
                    invariant
                        *value == Some(*json),
                        *json == JsonValue::Fields(*fields),
                        model == json_model(*json)->Fields_0,
                        i <= fields@.len() == model.len(),
                        forall|j: int| 0 <= j < i ==> (#[trigger] model[j]).1 is Text,
                        map@ == text_fields(model.take(i as int)),
                    decreases fields@.len() - i,
                {
                    proof {
                        assert(model[i as int] == (
                            fields@[i as int].0@,
                            json_model(fields@[i as int].1),
                        ));
                        assert(model.take(i + 1).drop_last() =~= model.take(i as int));
                        assert(model.take(i + 1).last() == model[i as int]);
                    }
                    match &fields[i].1 {
                        JsonValue::Text(text) => {
                            map.insert(fields[i].0.clone(), text.clone());
                        },
                        _ => {
                            proof {
                                assert(!(model[i as int].1 is Text));
                            }
                            return Err(
                                "service_bus.forward headers must be a JSON object of strings".to_owned(),
                            );
                        },
                    }
                    i += 1;
                }
                proof {
                    assert(model.take(model.len() as int) =~= model);
                }
                Ok(map)
            },
            _ => Err("service_bus.forward headers must be a JSON object of strings".to_owned()),
        },
    }
}

/// What a script asks for when it forwards.
pub enum ForwardCall {
    /// A message: the target, the message type, the JSON of the payload, and how
    /// many milliseconds the reply is awaited.
    Message(String, String, Option<String>, Option<u64>),
    /// A request: the target, the path, the method, the JSON of the headers, the
    /// body, and how many milliseconds the reply is awaited.
    Request(String, String, String, Option<String>, Option<String>, Option<u64>),
}

/// An argument of a script, as the conversions of Lua read it.
pub enum ScriptArg {
    Nil,
    /// What it reads as a string and as a count, where it does.
    Value(Option<String>, Option<u64>),
}

/// The argument at a place; missing ones are nil.
pub open spec fn arg_at(args: Seq<ScriptArg>, i: int) -> ScriptArg {
    if 0 <= i < args.len() {
        args[i]
    } else {
        ScriptArg::Nil
    }
}

/// The string that an argument reads as.
pub open spec fn text_of(arg: ScriptArg) -> Option<Seq<char>> {
    match arg {
        ScriptArg::Nil => None,
        ScriptArg::Value(text, _) => optional_text(text),
    }
}

/// The count that an argument reads as.
pub open spec fn count_of(arg: ScriptArg) -> Option<u64> {
    match arg {
        ScriptArg::Nil => None,
        ScriptArg::Value(_, count) => count,
    }
}

/// Whether a string can be the JSON of an object.
pub open spec fn opens_object(text: Seq<char>) -> bool {
    "{"@.is_prefix_of(trimmed(text))
}

/// Whether arguments ask for a request rather than for a message: the third is a
/// string, and not one that can be the JSON of a payload.
pub open spec fn means_request(args: Seq<ScriptArg>) -> bool {
    text_of(arg_at(args, 2)) matches Some(third) && !opens_object(third)
}

/// Whether arguments are those of a message: a target and a message type, a payload
/// or nil, and a timeout or nil. What follows does not count.
pub open spec fn are_of_message(args: Seq<ScriptArg>) -> bool {
    &&& text_of(arg_at(args, 0)) is Some
    &&& text_of(arg_at(args, 1)) is Some
    &&& arg_at(args, 2) is Nil || text_of(arg_at(args, 2)) is Some
    &&& arg_at(args, 3) is Nil || count_of(arg_at(args, 3)) is Some
}

/// Whether arguments are those of a request: a target, a path and a method, headers
/// or nil, a body or nil, and a timeout or nil. What follows does not count.
pub open spec fn are_of_request(args: Seq<ScriptArg>) -> bool {
    &&& text_of(arg_at(args, 0)) is Some
    &&& text_of(arg_at(args, 1)) is Some
    &&& text_of(arg_at(args, 2)) is Some
    &&& arg_at(args, 3) is Nil || text_of(arg_at(args, 3)) is Some
    &&& arg_at(args, 4) is Nil || text_of(arg_at(args, 4)) is Some
    &&& arg_at(args, 5) is Nil || count_of(arg_at(args, 5)) is Some
}

fn text_at(args: &Vec<ScriptArg>, i: usize) -> (text: Option<String>)
    ensures
        optional_text(text) == text_of(arg_at(args@, i as int)),
{
    if i < args.len() {
        match &args[i] {
            ScriptArg::Value(text, _) => copy_optional(text),
            ScriptArg::Nil => None,
        }
    } else {
        None
    }
}

fn count_at(args: &Vec<ScriptArg>, i: usize) -> (count: Option<u64>)
    ensures
        count == count_of(arg_at(args@, i as int)),
{
    if i < args.len() {
        match &args[i] {
            ScriptArg::Value(_, count) => *count,
            ScriptArg::Nil => None,
        }
    } else {
        None
    }
}

fn nil_at(args: &Vec<ScriptArg>, i: usize) -> (yes: bool)
    ensures
        yes == (arg_at(args@, i as int) is Nil),
{
    if i < args.len() {
        match &args[i] {
            ScriptArg::Nil => true,
            ScriptArg::Value(_, _) => false,
        }
    } else {
        true
    }
}

/// Reads the arguments with which a script forwards. With a third one that is a
/// string, but not the JSON of an object, they ask for a request, else for a message.
pub fn parse_forward_args(args: &Vec<ScriptArg>) -> (call: Result<ForwardCall, String>)
    ensures
        match call {
            Ok(ForwardCall::Message(target, message_type, payload, timeout_ms)) => {
                &&& !means_request(args@)
                &&& are_of_message(args@)
                &&& text_of(arg_at(args@, 0)) == Some(target@)
                &&& text_of(arg_at(args@, 1)) == Some(message_type@)
                &&& text_of(arg_at(args@, 2)) == optional_text(payload)
                &&& count_of(arg_at(args@, 3)) == timeout_ms
            },
            Ok(ForwardCall::Request(target, path, method, headers, body, timeout_ms)) => {
                &&& means_request(args@)
                &&& are_of_request(args@)
                &&& text_of(arg_at(args@, 0)) == Some(target@)
                &&& text_of(arg_at(args@, 1)) == Some(path@)
                &&& text_of(arg_at(args@, 2)) == Some(method@)
                &&& text_of(arg_at(args@, 3)) == optional_text(headers)
                &&& text_of(arg_at(args@, 4)) == optional_text(body)
                &&& count_of(arg_at(args@, 5)) == timeout_ms
            },
            Err(message) => {
                &&& means_request(args@) ==> !are_of_request(args@)
                &&& !means_request(args@) ==> !are_of_message(args@)
                &&& message@
                    == "service_bus.forward expects (target, messageType, payloadJson, timeoutMs) or (target, path, method, headersJson, body, timeoutMs)"@
            },
        },
{
    let third = text_at(args, 2);
    let request = match &third {
        Some(text) => !text_starts_with(trim(text.as_str()).as_str(), "{"),
        None => false,
    };
    match (text_at(args, 0), text_at(args, 1)) {
        (Some(target), Some(second)) => {
            if request {
                let headers = text_at(args, 3);
                let body = text_at(args, 4);
                let timeout_ms = count_at(args, 5);
                if (headers.is_some() || nil_at(args, 3)) && (body.is_some() || nil_at(args, 4)) && (
                timeout_ms.is_some() || nil_at(args, 5)) {
                    if let Some(method) = third {
                        return Ok(
                            ForwardCall::Request(target, second, method, headers, body, timeout_ms),
                        );
                    }
                }
            } else {
                let timeout_ms = count_at(args, 3);
                if (third.is_some() || nil_at(args, 2)) && (timeout_ms.is_some() || nil_at(args, 3)) {
                    return Ok(ForwardCall::Message(target, second, third, timeout_ms));
                }
            }
        },
        _ => {},
    }
    Err(
        "service_bus.forward expects (target, messageType, payloadJson, timeoutMs) or (target, path, method, headersJson, body, timeoutMs)".to_owned(),
    )
}

/// The event of a script carries its topic and its payload as they are, from the
/// gateway itself.
pub proof fn script_events_hold_what_is_published(
    topic: Seq<char>,
    payload: Map<Seq<char>, JsonModel>,
    unique: Seq<char>,
    correlation_id: i64,
    now: Timestamp,
)
    ensures
        ({
            let event = script_event(topic, payload, unique, correlation_id, now);
            &&& event.topic == topic
            &&& event.payload == payload
            &&& event.correlation_id == correlation_id
            &&& event.emitted_at_utc == now
            &&& event.service_id == "basilisk"@
            &&& event.instance_id == "lua-runtime"@
            &&& event.event_id == "basilisk-lua-"@ + unique
            &&& event.message_type == "lua_event"@
            &&& event.causation_id is None
        }),
{
}

/// Numbering an event of a script uses up one correlation id and changes nothing else.
pub proof fn script_events_use_up_one_id(bus: BusModel)
    ensures
        bus.next_correlation_id < i64::MAX ==> numbered_once(bus).next_correlation_id
            == bus.next_correlation_id + 1,
        bus.next_correlation_id == i64::MAX ==> numbered_once(bus).next_correlation_id == i64::MIN,
        numbered_once(bus).connections == bus.connections,
        numbered_once(bus).internal_subscribers == bus.internal_subscribers,
        numbered_once(bus).outlet == bus.outlet,
{
}

/// An object has the fields that it lists: under each name the value that was listed
/// last, and nothing under other names.
pub proof fn last_field_of_a_name_counts(
    fields: Seq<(Seq<char>, JsonModel)>,
    at: int,
    name: Seq<char>,
)
    ensures
        0 <= at < fields.len() && (forall|j: int|
            at < j < fields.len() ==> (#[trigger] fields[j]).0 != fields[at].0) ==> object_map(
            fields,
        ).contains_key(fields[at].0) && object_map(fields)[fields[at].0] == fields[at].1,
        object_map(fields).contains_key(name) <==> exists|j: int|
            0 <= j < fields.len() && (#[trigger] fields[j]).0 == name,
    decreases fields.len(),
{
    if fields.len() > 0 {
        let rest = fields.drop_last();
        let last = fields.len() - 1;
        last_field_of_a_name_counts(rest, at, name);
        assert(fields[last] == fields.last());
        if exists|j: int| 0 <= j < rest.len() && (#[trigger] rest[j]).0 == name {
            let j = choose|j: int| 0 <= j < rest.len() && (#[trigger] rest[j]).0 == name;
            assert(fields[j].0 == name);
        }
        if exists|j: int| 0 <= j < fields.len() && (#[trigger] fields[j]).0 == name {
            let j = choose|j: int| 0 <= j < fields.len() && (#[trigger] fields[j]).0 == name;
            if j < last {
                assert(rest[j].0 == name);
            }
        }
        if 0 <= at < last && (forall|j: int|
            at < j < fields.len() ==> (#[trigger] fields[j]).0 != fields[at].0) {
            assert forall|j: int| at < j < rest.len() implies (#[trigger] rest[j]).0 != rest[at].0 by {
                assert(rest[j] == fields[j]);
            }
            assert(fields[last].0 != fields[at].0);
        }
    }
}

/// Arguments that are left out at the end count as nil, and those after the last that
/// counts do not matter.
pub proof fn missing_arguments_are_nil(args: Seq<ScriptArg>, extra: ScriptArg)
    ensures
        means_request(args.push(ScriptArg::Nil)) == means_request(args),
        are_of_message(args.push(ScriptArg::Nil)) == are_of_message(args),
        are_of_request(args.push(ScriptArg::Nil)) == are_of_request(args),
        args.len() >= 3 ==> means_request(args.push(extra)) == means_request(args),
        args.len() >= 4 ==> are_of_message(args.push(extra)) == are_of_message(args),
        args.len() >= 6 ==> are_of_request(args.push(extra)) == are_of_request(args),
{
    let nil = args.push(ScriptArg::Nil);
    let more = args.push(extra);
    assert forall|i: int| 0 <= i <= 5 implies #[trigger] arg_at(nil, i) == arg_at(args, i) by {}
    assert(arg_at(nil, 0) == arg_at(args, 0) && arg_at(nil, 1) == arg_at(args, 1));
    assert(arg_at(nil, 2) == arg_at(args, 2) && arg_at(nil, 3) == arg_at(args, 3));
    assert(arg_at(nil, 4) == arg_at(args, 4) && arg_at(nil, 5) == arg_at(args, 5));
    if args.len() >= 3 {
        assert(arg_at(more, 2) == arg_at(args, 2));
    }
    if args.len() >= 4 {
        assert(arg_at(more, 0) == arg_at(args, 0) && arg_at(more, 1) == arg_at(args, 1));
        assert(arg_at(more, 3) == arg_at(args, 3));
    }
    if args.len() >= 6 {
        assert(arg_at(more, 4) == arg_at(args, 4) && arg_at(more, 5) == arg_at(args, 5));
    }
}

/// A target, a message type and the JSON of an object, or nothing, are a message; a
/// target, a path and a method are a request.
pub proof fn messages_and_requests_are_told_apart(
    target: String,
    second: String,
    third: String,
    count: u64,
)
    requires
        third@.len() > 0,
        !is_space(third@[0]),
        !is_space(third@.last()),
    ensures
        ({
            let a = ScriptArg::Value(Some(target), None);
            let b = ScriptArg::Value(Some(second), None);
            let c = ScriptArg::Value(Some(third), None);
            let n = ScriptArg::Value(None, Some(count));
            &&& !means_request(seq![a, b])
            &&& are_of_message(seq![a, b])
            &&& means_request(seq![a, b, c]) == (third@[0] != '{')
            &&& are_of_message(seq![a, b, c, n])
            &&& are_of_request(seq![a, b, c, a, b, n])
            &&& are_of_request(seq![a, b, c])
            &&& !are_of_request(seq![a, b])
            &&& !are_of_message(seq![a])
            &&& !are_of_message(seq![a, b, n])
            &&& !are_of_message(seq![a, b, c, a])
        }),
{
    reveal_strlit("{");
    trimming_keeps_the_rest(third@);
    assert(opens_object(third@) == (third@[0] == '{')) by {
        if "{"@.is_prefix_of(third@) {
            assert(third@.subrange(0, 1)[0] == "{"@[0]);
        }
    }
    let a = ScriptArg::Value(Some(target), None);
    let b = ScriptArg::Value(Some(second), None);
    let c = ScriptArg::Value(Some(third), None);
    let n = ScriptArg::Value(None, Some(count));
    assert(arg_at(seq![a, b, c], 2) == c);
    assert(arg_at(seq![a, b, c, n], 2) == c && arg_at(seq![a, b, c, n], 3) == n);
    assert(arg_at(seq![a, b, c, a], 3) == a);
    let full = seq![a, b, c, a, b, n];
    assert(arg_at(full, 2) == c && arg_at(full, 3) == a && arg_at(full, 4) == b && arg_at(full, 5)
        == n);
}

} // verus!
