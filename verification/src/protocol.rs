//! The client envelope: what a UI client may send over the gateway, parsed
//! from its JSON form, and the acknowledgment sent back.
//!
//! A request reads `{"tick": N, "kind": K, ...}` where the kind selects the
//! variant and its extra fields: `raw_serial` carries a `value` string,
//! `configuration` carries `device` and `baud`, `close_serial` and
//! `retry_serial` carry nothing. The acknowledgment mirrors the tick with an
//! `ok` or `failed` status.

use vstd::prelude::*;
use crate::serial::{SerialConfiguration, SerialConfigurationV};
use crate::json::{
    JsonValue,
    JsonValueV,
    json_escaped,
    lookup_exec,
    lookup_member,
    members_view,
    parse_object,
    parse_object_exec,
};
use crate::text::{append_u32, dec_digits, str_eq};

verus! {

/// One request from a client: send raw text to the device, reconfigure the
/// serial connection, close it, or retry it.
#[derive(Debug)]
pub enum ClientMessageRequest {
    RawSerial(String),
    Configuration(SerialConfiguration),
    CloseSerial,
    RetrySerial,
}

/// One parsed client message: the client's request counter and the request.
#[derive(Debug)]
pub struct ClientMessage {
    pub tick: u32,
    pub request: ClientMessageRequest,
}

/// The mathematical form of a client request.
pub ghost enum ClientMessageRequestV {
    RawSerial(Seq<char>),
    Configuration(SerialConfigurationV),
    CloseSerial,
    RetrySerial,
}

/// The mathematical form of a client message.
pub ghost struct ClientMessageV {
    pub tick: u32,
    pub request: ClientMessageRequestV,
}

impl View for ClientMessageRequest {
    type V = ClientMessageRequestV;

    open spec fn view(&self) -> ClientMessageRequestV {
        match self {
            ClientMessageRequest::RawSerial(value) => ClientMessageRequestV::RawSerial(value@),
            ClientMessageRequest::Configuration(config) => ClientMessageRequestV::Configuration(
                config@,
            ),
            ClientMessageRequest::CloseSerial => ClientMessageRequestV::CloseSerial,
            ClientMessageRequest::RetrySerial => ClientMessageRequestV::RetrySerial,
        }
    }
}

impl View for ClientMessage {
    type V = ClientMessageV;

    open spec fn view(&self) -> ClientMessageV {
        ClientMessageV { tick: self.tick, request: self.request@ }
    }
}

impl Clone for ClientMessageRequest {
    fn clone(&self) -> (r: Self)
        ensures
            r == *self,
    {
        match self {
            ClientMessageRequest::RawSerial(value) => ClientMessageRequest::RawSerial(
                value.clone(),
            ),
            ClientMessageRequest::Configuration(config) => ClientMessageRequest::Configuration(
                config.clone(),
            ),
            ClientMessageRequest::CloseSerial => ClientMessageRequest::CloseSerial,
            ClientMessageRequest::RetrySerial => ClientMessageRequest::RetrySerial,
        }
    }
}

impl Clone for ClientMessage {
    fn clone(&self) -> (r: Self)
        ensures
            r == *self,
    {
        ClientMessage { tick: self.tick, request: self.request.clone() }
    }
}

/// The message a client payload parses to, if any: a flat JSON object whose
/// `tick` is a number, whose `kind` names the request, and whose variant
/// fields have the right shapes.
pub open spec fn client_message_of(s: Seq<char>) -> Option<ClientMessageV> {
    match parse_object(s) {
        None => None,
        Some(ms) => match (lookup_member(ms, "tick"@), lookup_member(ms, "kind"@)) {
            (Some(JsonValueV::Num(tick)), Some(JsonValueV::Str(kind))) => {
                if kind == "raw_serial"@ {
                    match lookup_member(ms, "value"@) {
                        Some(JsonValueV::Str(value)) => Some(
                            ClientMessageV {
                                tick,
                                request: ClientMessageRequestV::RawSerial(value),
                            },
                        ),
                        _ => None,
                    }
                } else if kind == "configuration"@ {
                    match (lookup_member(ms, "device"@), lookup_member(ms, "baud"@)) {
                        (Some(JsonValueV::Str(device)), Some(JsonValueV::Num(baud))) => Some(
                            ClientMessageV {
                                tick,
                                request: ClientMessageRequestV::Configuration(
                                    SerialConfigurationV { device, baud },
                                ),
                            },
                        ),
                        _ => None,
                    }
                } else if kind == "close_serial"@ {
                    Some(ClientMessageV { tick, request: ClientMessageRequestV::CloseSerial })
                } else if kind == "retry_serial"@ {
                    Some(ClientMessageV { tick, request: ClientMessageRequestV::RetrySerial })
                } else {
                    None
                }
            },
            _ => None,
        },
    }
}

/// Parses one client payload.
pub fn parse_client_message(input: &str) -> (r: Option<ClientMessage>)
    ensures
        r is Some <==> client_message_of(input@) is Some,
        r matches Some(m) ==> client_message_of(input@) == Some(m@),
{
    let ms = match parse_object_exec(input) {
        None => {
            return None;
        },
        Some(ms) => ms,
    };
    let tick: u32 = match lookup_exec(&ms, "tick") {
        Some(JsonValue::Num(tick)) => *tick,
        _ => {
            return None;
        },
    };
    let kind: &String = match lookup_exec(&ms, "kind") {
        Some(JsonValue::Str(kind)) => kind,
        _ => {
            return None;
        },
    };
    if str_eq(kind.as_str(), "raw_serial") {
        match lookup_exec(&ms, "value") {
            Some(JsonValue::Str(value)) => Some(
                ClientMessage { tick, request: ClientMessageRequest::RawSerial(value.clone()) },
            ),
            _ => None,
        }
    } else if str_eq(kind.as_str(), "configuration") {
        let device: String = match lookup_exec(&ms, "device") {
            Some(JsonValue::Str(device)) => device.clone(),
            _ => {
                return None;
            },
        };
        match lookup_exec(&ms, "baud") {
            Some(JsonValue::Num(baud)) => Some(
                ClientMessage {
                    tick,
                    request: ClientMessageRequest::Configuration(
                        SerialConfiguration { device, baud: *baud },
                    ),
                },
            ),
            _ => None,
        }
    } else if str_eq(kind.as_str(), "close_serial") {
        Some(ClientMessage { tick, request: ClientMessageRequest::CloseSerial })
    } else if str_eq(kind.as_str(), "retry_serial") {
        Some(ClientMessage { tick, request: ClientMessageRequest::RetrySerial })
    } else {
        None
    }
}

/// A string as it appears inside the JSON output: quoted and escaped.
pub open spec fn quoted(s: Seq<char>) -> Seq<char> {
    seq!['"'] + json_escaped(s) + seq!['"']
}

/// The acknowledgment sent back for one client request: the request's tick
/// and whether it was accepted.
pub open spec fn response_json(tick: u32, ok: bool) -> Seq<char> {
    "{\"kind\":\"response\",\"tick\":"@ + dec_digits(tick as nat) + ",\"status\":\""@ + (if ok {
        "ok"@
    } else {
        "failed"@
    }) + "\"}"@
}

/// Renders the acknowledgment for one client request.
pub fn render_response(tick: u32, ok: bool) -> (r: String)
    ensures
        r@ == response_json(tick, ok),
{
    let mut out = String::new();
    out.append("{\"kind\":\"response\",\"tick\":");
    append_u32(&mut out, tick);
    out.append(",\"status\":\"");
    if ok {
        out.append("ok");
    } else {
        out.append("failed");
    }
    out.append("\"}");
    proof {
        assert(out@ =~= response_json(tick, ok));
    }
    out
}

} // verus!
