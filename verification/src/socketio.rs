//! The framing of Engine.IO and Socket.IO packets: a packet is one character
//! that says what it is, and then what it carries.
use vstd::prelude::*;
use vstd::string::{StrSliceExecFns, StringExecFns};
use crate::json::Json;

verus! {

/// An Engine.IO packet: its type, and what it carries.
#[derive(Debug)]
pub struct EngineIOPacket(pub char, pub String);

/// A Socket.IO packet: its type, and what it carries.
#[derive(Debug)]
pub struct SocketIOPacket(pub char, pub String);

/// Why a packet could not be used.
#[derive(Clone, Copy, PartialEq, Eq, Debug, Structural)]
pub enum PacketError {
    /// An Engine.IO packet without a type.
    EmptyEngineIO,
    /// A Socket.IO packet without a type.
    EmptySocketIO,
    /// An Engine.IO packet of a type that has no place where it came.
    UnexpectedEngineIO(char),
    /// A Socket.IO packet of a type that has no place where it came.
    UnexpectedSocketIO(char),
    /// An event whose payload is no JSON.
    BadJson,
    /// An event that is no list with the event's name first.
    BadPayload,
}

/// What to do with an Engine.IO packet while a Socket.IO packet is awaited.
#[derive(Debug)]
pub enum Step {
    /// It is a ping: answer with the packet `3`, and read on.
    Pong,
    /// It is a message, and this is the Socket.IO packet in it.
    Deliver(SocketIOPacket),
    /// It says nothing: read on.
    Skip,
    /// It has no place here.
    Fail(PacketError),
}

/// The first character of `msg`, and the rest.
fn split_first(msg: &str) -> (r: Option<(char, String)>)
    ensures
        match r {
            None => msg@.len() == 0,
            Some((first, rest)) => msg@.len() > 0 && first == msg@[0] && rest@ == msg@.skip(1),
        },
{
    let length = msg.unicode_len();
    if length == 0 {
        None
    } else {
        let first = msg.get_char(0);
        let rest = msg.substring_char(1, length).to_owned();
        Some((first, rest))
    }
}

/// The Engine.IO packet that the message `msg` is.
pub fn engineio_packet(msg: &str) -> (r: Result<EngineIOPacket, PacketError>)
    ensures
        match r {
            Ok(packet) => msg@.len() > 0 && packet.0 == msg@[0] && packet.1@ == msg@.skip(1),
            Err(e) => msg@.len() == 0 && e == PacketError::EmptyEngineIO,
        },
{
    match split_first(msg) {
        Some((kind, rest)) => Ok(EngineIOPacket(kind, rest)),
        None => Err(PacketError::EmptyEngineIO),
    }
}

/// What to do with `packet` while a Socket.IO packet is awaited: answer a ping
/// (`2`), hand out what a message (`4`) carries, pass over a no-op (`6`), and
/// fail on anything else.
pub fn socketio_step(packet: EngineIOPacket) -> (r: Step)
    ensures
        match r {
            Step::Pong => packet.0 == '2',
            Step::Deliver(inner) => packet.0 == '4' && packet.1@.len() > 0 && inner.0 == packet.1@[0]
                && inner.1@ == packet.1@.skip(1),
            Step::Skip => packet.0 == '6',
            Step::Fail(e) => if packet.0 == '4' {
                packet.1@.len() == 0 && e == PacketError::EmptySocketIO
            } else {
                packet.0 != '2' && packet.0 != '6' && e == PacketError::UnexpectedEngineIO(packet.0)
            },
        },
{
    let EngineIOPacket(kind, msg) = packet;
    if kind == '2' {
        Step::Pong
    } else if kind == '4' {
        match split_first(msg.as_str()) {
            Some((inner, rest)) => Step::Deliver(SocketIOPacket(inner, rest)),
            None => Step::Fail(PacketError::EmptySocketIO),
        }
    } else if kind == '6' {
        Step::Skip
    } else {
        Step::Fail(PacketError::UnexpectedEngineIO(kind))
    }
}

/// What an event packet (`2`) carries.
pub fn event_payload(packet: SocketIOPacket) -> (r: Result<String, PacketError>)
    ensures
        match r {
            Ok(payload) => packet.0 == '2' && payload == packet.1,
            Err(e) => packet.0 != '2' && e == PacketError::UnexpectedSocketIO(packet.0),
        },
{
    let SocketIOPacket(kind, msg) = packet;
    if kind == '2' {
        Ok(msg)
    } else {
        Err(PacketError::UnexpectedSocketIO(kind))
    }
}

/// The event that a payload holds: its name, and what it carries if it
/// carries something. The payload is a list that starts with the name.
pub open spec fn event_in(payload: Json) -> Option<(Seq<char>, Option<Json>)> {
    match payload.items() {
        None => None,
        Some(items) => if items.len() == 0 {
            None
        } else {
            match items[0].text() {
                None => None,
                Some(name) => Some(
                    (
                        name,
                        if items.len() > 1 {
                            Some(items[1])
                        } else {
                            None
                        },
                    ),
                ),
            }
        },
    }
}

/// The event that the payload holds.
pub fn event_of(payload: Json) -> (r: Result<(String, Option<Json>), PacketError>)
    ensures
        match r {
            Ok((event, data)) => event_in(payload) == Some((event@, data)),
            Err(e) => e == PacketError::BadPayload && event_in(payload) is None,
        },
{
    match payload {
        Json::List(items) => {
            let mut items = items;
            if items.len() == 0 {
                return Err(PacketError::BadPayload);
            }
            let first = items.remove(0);
            match first {
                Json::Text(event) => {
                    let data = if items.len() > 0 {
                        Some(items.remove(0))
                    } else {
                        None
                    };
                    Ok((event, data))
                },
                _ => Err(PacketError::BadPayload),
            }
        },
        _ => Err(PacketError::BadPayload),
    }
}

/// What a message from the server asks for while an event is awaited.
#[derive(Debug)]
pub enum Incoming {
    /// It is a ping: answer with the packet `3`, and read on.
    Pong,
    /// It says nothing: read on.
    Skip,
    /// It is an event: its name, and what it carries.
    Event(String, Option<Json>),
    /// It has no place here.
    Fail(PacketError),
}

/// What is wrong with a message that is read while an event is awaited, if
/// anything is: it is empty; or it is neither a ping (`2`), a no-op (`6`) nor
/// a message (`4`); or the message in it is no event (`2`); or the event's
/// payload is no JSON, or is no list that starts with a name.
pub open spec fn failure_of(msg: Seq<char>) -> Option<PacketError> {
    if msg.len() == 0 {
        Some(PacketError::EmptyEngineIO)
    } else if msg[0] == '2' || msg[0] == '6' {
        None
    } else if msg[0] != '4' {
        Some(PacketError::UnexpectedEngineIO(msg[0]))
    } else if msg.len() == 1 {
        Some(PacketError::EmptySocketIO)
    } else if msg[1] != '2' {
        Some(PacketError::UnexpectedSocketIO(msg[1]))
    } else {
        match crate::json::json_of_text(msg.skip(2)) {
            None => Some(PacketError::BadJson),
            Some(payload) => if event_in(payload) is None {
                Some(PacketError::BadPayload)
            } else {
                None
            },
        }
    }
}

/// Reads a message from the server while an event is awaited.
pub fn read_message(msg: &str) -> (r: Incoming)
    ensures
        match r {
            Incoming::Pong => msg@.len() > 0 && msg@[0] == '2',
            Incoming::Skip => msg@.len() > 0 && msg@[0] == '6',
            Incoming::Event(event, data) => {
                &&& failure_of(msg@) is None
                &&& msg@.len() > 1
                &&& msg@[0] == '4'
                &&& crate::json::json_of_text(msg@.skip(2)) matches Some(payload)
                &&& event_in(payload) == Some((event@, data))
            },
            Incoming::Fail(e) => failure_of(msg@) == Some(e),
        },
{
    let packet = match engineio_packet(msg) {
        Ok(packet) => packet,
        Err(e) => {
            return Incoming::Fail(e);
        },
    };
    let inner = match socketio_step(packet) {
        Step::Pong => {
            return Incoming::Pong;
        },
        Step::Skip => {
            return Incoming::Skip;
        },
        Step::Fail(e) => {
            return Incoming::Fail(e);
        },
        Step::Deliver(inner) => inner,
    };
    let text = match event_payload(inner) {
        Ok(text) => text,
        Err(e) => {
            return Incoming::Fail(e);
        },
    };
    assert(text@ =~= msg@.skip(2));
    let payload = match Json::parse(text.as_str()) {
        Some(payload) => payload,
        None => {
            return Incoming::Fail(PacketError::BadJson);
        },
    };
    match event_of(payload) {
        Ok((event, data)) => Incoming::Event(event, data),
        Err(e) => Incoming::Fail(e),
    }
}

/// Whether `payload` is the list of the two texts `event` and `data`.
pub open spec fn is_pair(payload: Json, event: Seq<char>, data: Seq<char>) -> bool {
    &&& payload.items() matches Some(items)
    &&& items.len() == 2
    &&& items[0].text() == Some(event)
    &&& items[1].text() == Some(data)
}

/// The message that sends the event called `event` with the text `data`: the
/// characters `42`, and then the list of the two as JSON.
pub fn event_message(event: &str, data: &str) -> (r: String)
    ensures
        exists|payload: Json|
            is_pair(payload, event@, data@) && r@ == seq!['4', '2'] + #[trigger] crate::json::text_of_json(
                payload,
            ),
{
    let mut items: Vec<Json> = Vec::new();
    items.push(Json::Text(event.to_owned()));
    items.push(Json::Text(data.to_owned()));
    let payload = Json::List(items);
    let text = payload.to_text();
    let inner = event_frame(text.as_str());
    let outer = socketio_frame(inner.as_str());
    outer
}

/// The message that sends the event called `event` with the value `data`,
/// written as JSON text.
pub fn json_event_message(event: &str, data: &Json) -> (r: String)
    ensures
        exists|payload: Json|
            is_pair(payload, event@, crate::json::text_of_json(*data)) && r@ == seq!['4', '2']
                + #[trigger] crate::json::text_of_json(payload),
{
    let text = data.to_text();
    event_message(event, text.as_str())
}

/// The Engine.IO message packet that carries the Socket.IO packet `msg`.
pub fn socketio_frame(msg: &str) -> (r: String)
    ensures
        r@ == seq!['4'] + msg@,
{
    proof {
        reveal_strlit("4");
    }
    let mut packet = "4".to_owned();
    packet.append(msg);
    packet
}

/// The Socket.IO event packet that carries `payload`.
pub fn event_frame(payload: &str) -> (r: String)
    ensures
        r@ == seq!['2'] + payload@,
{
    proof {
        reveal_strlit("2");
    }
    let mut packet = "2".to_owned();
    packet.append(payload);
    packet
}

} // verus!
