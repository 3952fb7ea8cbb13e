//! The per-connection lifecycle: what the receive loop should do with each
//! inbound frame.
//!
//! A connection moves through `Connecting -> Open -> Closing -> Closed`. The
//! embedding owns the I/O: it accepts the handshake (`Connecting`),
//! registers the connection (`Open`), then feeds every received frame to
//! [`on_frame`] and performs the returned action — reply with a pong, push
//! an error event back to this one connection, invoke the resolved handler —
//! until the state leaves `Open` or the stream ends, after which it
//! unregisters exactly once (`Closed`; a second close signal is a no-op by
//! the registry's idempotent unregister).
//!
//! One bad frame never terminates a connection: a malformed payload or an
//! unmatched command is answered with a single `"error"` event and the loop
//! goes on.

use vstd::prelude::*;

use crate::event::Payload;
use crate::handler::Handlers;
use crate::handler::Route;
use crate::handler::spec_resolve;

verus! {

/// The states of one connection's lifecycle, in the order they are passed:
/// handshake, message loop, teardown, gone.
#[derive(Clone, Copy, Debug, PartialEq, Eq, Structural)]
pub enum LifecycleState {
    /// The upgrade request arrived; no registration has happened yet.
    Connecting,
    /// Registered; the receive loop is consuming inbound frames.
    Open,
    /// A close frame arrived; teardown is due.
    Closing,
    /// Unregistered. Terminal: re-entering is a no-op.
    Closed,
}

/// One inbound frame, as the transport classifies them: keepalive probe,
/// close signal, data, or anything else.
pub enum Frame {
    Ping(Vec<u8>),
    Close,
    Text(String),
    Other,
}

/// What the receive loop must do next.
pub enum Action {
    /// Reply with a pong carrying these bytes, to this connection only.
    Pong(Vec<u8>),
    /// Push an `"error"` event with this message, to this connection only.
    PushError(String),
    /// Invoke the handler registered at this index with this payload.
    Invoke(usize, serde_json::Value),
    /// Nothing to do.
    Ignore,
}

/// The command name carried by an inbound wire message, if the text parses
/// as one: a JSON object `{"event": <string>, "payload": <json>}`. Fixed by
/// the text alone; it gets no definition here because the parsing is done by
/// an outside engine.
pub uninterp spec fn parsed_command(text: Seq<char>) -> Option<Seq<char>>;

/// The error text reported for a text frame that does not parse as an
/// inbound wire message. Fixed by the text alone; it gets no definition here
/// because the parser producing it is an outside engine.
pub uninterp spec fn parse_error_of(text: Seq<char>) -> Seq<char>;

/// Relies on serde_json::from_str, serde_json::Value::get and
/// serde_json::Value::as_str: parses the inbound wire message `{"event":
/// <string>, "payload": <json>}`. Whether the text parses, which command
/// name it carries, and the error text on failure are all functions of the
/// text alone.
#[verifier::external_body]
fn parse_payload(text: &str) -> (r: Result<Payload, String>)
    ensures
        r is Ok <==> parsed_command(text@) is Some,
        r matches Ok(p) ==> parsed_command(text@) == Some(p.event@),
        r matches Err(m) ==> m@ == parse_error_of(text@),
{
    let value: serde_json::Value = match serde_json::from_str(text) {
        Ok(v) => v,
        Err(e) => return Err(e.to_string()),
    };
    let event = match value.get("event").and_then(serde_json::Value::as_str) {
        Some(e) => String::from(e),
        None => return Err(String::from("missing event name")),
    };
    let payload = match value.get("payload") {
        Some(p) => p.clone(),
        None => return Err(String::from("missing payload")),
    };
    Ok(Payload { event, payload })
}

/// What a correct dispatch of one text frame looks like: a parse failure is
/// answered with one error push carrying the parser's own text, an unmatched
/// command with one carrying "event not found", a handler that requires
/// authentication is rejected for an unauthenticated connection, and
/// otherwise the first matching registration is invoked.
pub open spec fn dispatch_ok<H>(
    routes: Seq<Route<H>>,
    authenticated: bool,
    text: Seq<char>,
    r: Action,
) -> bool {
    match parsed_command(text) {
        None => r matches Action::PushError(m) && m@ == parse_error_of(text),
        Some(cmd) => match spec_resolve(routes, cmd) {
            None => r matches Action::PushError(m) && m@ == "event not found"@,
            Some(i) => if routes[i].authentication && !authenticated {
                r matches Action::PushError(m) && m@ == "unauthenticated"@
            } else {
                r matches Action::Invoke(j, _) && j == i as usize
            },
        },
    }
}

/// Routes one parsed-or-failed inbound message. The parse outcome is taken
/// as an argument, so this routing logic holds for every value the parser
/// can hand over: the parser's error is pushed back verbatim, an unmatched
/// command is answered with "event not found", and the authentication gate
/// rejects a protected handler for an unauthenticated connection.
pub fn route_payload<H>(
    routes: &Handlers<H>,
    authenticated: bool,
    parsed: Result<Payload, String>,
) -> (r: Action)
    ensures
        parsed matches Err(m) ==> r == Action::PushError(m),
        (match parsed {
            Ok(p) => match spec_resolve(routes@, p.event@) {
                None => r matches Action::PushError(m) && m@ == "event not found"@,
                Some(i) => if routes@[i].authentication && !authenticated {
                    r matches Action::PushError(m) && m@ == "unauthenticated"@
                } else {
                    r == Action::Invoke(i as usize, p.payload)
                },
            },
            Err(_) => true,
        }),
{
    match parsed {
        Err(m) => Action::PushError(m),
        Ok(p) => match routes.get(&p.event) {
            None => Action::PushError("event not found".to_owned()),
            Some(i) => {
                let route = routes.route(i);
                if route.authentication && !authenticated {
                    Action::PushError("unauthenticated".to_owned())
                } else {
                    Action::Invoke(i, p.payload)
                }
            },
        },
    }
}

/// Handles one inbound text frame end to end: parse, then route.
pub fn on_text<H>(routes: &Handlers<H>, authenticated: bool, text: &str) -> (r: Action)
    ensures
        dispatch_ok(routes@, authenticated, text@, r),
{
    route_payload(routes, authenticated, parse_payload(text))
}

/// One step of the `Open`-state receive loop: a ping is answered with a
/// pong, a close frame moves the connection to `Closing`, a text frame is
/// dispatched (and whatever it held, the connection stays `Open`), anything
/// unrecognized is ignored.
pub fn on_frame<H>(routes: &Handlers<H>, authenticated: bool, frame: Frame) -> (r: (
    LifecycleState,
    Action,
))
    ensures
        frame matches Frame::Ping(p) ==> r == (LifecycleState::Open, Action::Pong(p)),
        frame matches Frame::Close ==> r == (LifecycleState::Closing, Action::Ignore),
        frame matches Frame::Other ==> r == (LifecycleState::Open, Action::Ignore),
        frame matches Frame::Text(t) ==> r.0 == LifecycleState::Open
            && dispatch_ok(routes@, authenticated, t@, r.1),
{
    match frame {
        Frame::Ping(p) => (LifecycleState::Open, Action::Pong(p)),
        Frame::Close => (LifecycleState::Closing, Action::Ignore),
        Frame::Other => (LifecycleState::Open, Action::Ignore),
        Frame::Text(t) => (LifecycleState::Open, on_text(routes, authenticated, t.as_str())),
    }
}

} // verus!
