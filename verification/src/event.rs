//! The event model: immutable value types for an outbound event (topic name
//! plus payload) and an inbound message (command name plus payload).
//!
//! Payloads are arbitrary JSON values. The broker never looks inside them; it
//! only routes on the topic or command name, so the JSON value is carried as
//! an opaque handle.

use vstd::prelude::*;

verus! {

#[verifier::external_type_specification]
#[verifier::external_body]
pub struct ExValue(serde_json::Value);

/// An outbound event: a topic name and an opaque JSON payload. Immutable once
/// constructed; the broadcast fan-out only reads it.
pub struct Event {
    pub name: String,
    pub data: serde_json::Value,
}

/// An inbound message: a command name and an opaque JSON payload, parsed once
/// per inbound data frame. Ownership of the payload passes to the resolved
/// handler.
pub struct Payload {
    pub event: String,
    pub payload: serde_json::Value,
}

/// The JSON object `{"message": <message>}` carrying an error report. Fixed
/// by the message alone; it gets no definition here because the value is
/// built (and only ever read back) by an outside engine.
pub uninterp spec fn message_value_of(message: Seq<char>) -> serde_json::Value;

/// Relies on serde_json::Map::insert and serde_json::Value: builds the JSON
/// object {"message": <message>}, a function of the message alone.
#[verifier::external_body]
fn message_value(message: &str) -> (r: serde_json::Value)
    ensures
        r == message_value_of(message@),
{
    let mut map = serde_json::Map::new();
    map.insert(String::from("message"), serde_json::Value::String(String::from(message)));
    serde_json::Value::Object(map)
}

impl Event {
    /// The structured error event the dispatcher pushes back to the one
    /// connection that caused a protocol-level problem; `"error"` is the
    /// reserved topic for such reports, and the data carries the caller's
    /// message.
    pub fn error(message: &str) -> (r: Event)
        ensures
            r.name@ == "error"@,
            r.data == message_value_of(message@),
    {
        Event { name: "error".to_owned(), data: message_value(message) }
    }
}

} // verus!
