//! The client handle: the capability surface a handler or the connection
//! driver uses to act as "this connection".
//!
//! A handle is bound to one connection identity and carries no state of its
//! own; every operation delegates to the registry it is given. The transport
//! handle itself stays inside the registry (or with the embedding, for
//! control-frame replies), so the handle stays a plain value.

use vstd::prelude::*;

use crate::event::Event;
use crate::server::Server;
use crate::server::topic_set;

verus! {

/// A capability bound to one connection identity.
#[derive(Clone, Copy)]
pub struct Client {
    pub(crate) id: u64,
}

impl Client {
    /// The identity this handle is bound to.
    pub closed spec fn spec_id(self) -> u64 {
        self.id
    }

    /// A handle bound to `id`; only the registry mints one.
    pub(crate) fn bound_to(id: u64) -> (c: Client)
        ensures
            c.spec_id() == id,
    {
        Client { id }
    }

    /// The identity this handle is bound to.
    pub fn id(&self) -> (r: u64)
        ensures
            r == self.spec_id(),
    {
        self.id
    }

    /// The topics this connection is subscribed to.
    pub fn subscribes<T>(&self, server: &Server<T>) -> (r: Vec<String>)
        requires
            server.wf(),
        ensures
            server.registered(self.spec_id())
                ==> topic_set(r@) == server.subscriptions()[self.spec_id()],
            !server.registered(self.spec_id()) ==> r@.len() == 0,
            forall|p: int, q: int| 0 <= p < q < r@.len() ==> r@[p]@ != r@[q]@,
    {
        server.subscribes(self.id)
    }

    /// Subscribes this connection to `topic`.
    pub fn subscribe<T>(&self, server: &mut Server<T>, topic: String)
        requires
            old(server).wf(),
        ensures
            final(server).wf(),
            final(server).sessions() == old(server).sessions(),
            old(server).registered(self.spec_id()) ==> final(server).subscriptions()
                == old(server).subscriptions().insert(
                self.spec_id(),
                old(server).subscriptions()[self.spec_id()].insert(topic@),
            ),
            !old(server).registered(self.spec_id())
                ==> final(server).subscriptions() == old(server).subscriptions(),
    {
        server.subscribe(self.id, topic);
    }

    /// Unsubscribes this connection from `topic`.
    pub fn unsubscribe<T>(&self, server: &mut Server<T>, topic: &String)
        requires
            old(server).wf(),
        ensures
            final(server).wf(),
            final(server).sessions() == old(server).sessions(),
            old(server).registered(self.spec_id()) ==> final(server).subscriptions()
                == old(server).subscriptions().insert(
                self.spec_id(),
                old(server).subscriptions()[self.spec_id()].remove(topic@),
            ),
            !old(server).registered(self.spec_id())
                ==> final(server).subscriptions() == old(server).subscriptions(),
    {
        server.unsubscribe(self.id, topic);
    }

    /// Whether this connection is subscribed to `topic`.
    pub fn subscribed<T>(&self, server: &Server<T>, topic: &String) -> (r: bool)
        requires
            server.wf(),
        ensures
            r == (server.registered(self.spec_id())
                && server.subscriptions()[self.spec_id()].contains(topic@)),
    {
        server.subscribed(self.id, topic)
    }

    /// The delivery snapshot of a broadcast from this connection: every
    /// connection subscribed to the event's topic, this one included.
    pub fn broadcast<T>(&self, server: &Server<T>, event: &Event) -> (r: Vec<u64>)
        requires
            server.wf(),
        ensures
            forall|id: u64| #[trigger] r@.contains(id)
                <==> server.registered(id)
                    && server.subscriptions()[id].contains(event.name@),
            forall|p: int, q: int| 0 <= p < q < r@.len() ==> r@[p] != r@[q],
    {
        server.broadcast(event)
    }

    /// Explicit self-unregister, used on protocol-level close frames. The
    /// returned transport handle is for the embedding to close best-effort.
    pub fn close<T>(&self, server: &mut Server<T>) -> (h: Option<T>)
        requires
            old(server).wf(),
        ensures
            final(server).wf(),
            final(server).sessions()
                == old(server).sessions().remove(self.spec_id()),
            final(server).subscriptions()
                == old(server).subscriptions().remove(self.spec_id()),
            old(server).registered(self.spec_id())
                ==> h == Some(old(server).sessions()[self.spec_id()]),
            !old(server).registered(self.spec_id()) ==> h is None,
    {
        server.unregister(self.id)
    }
}

} // verus!
