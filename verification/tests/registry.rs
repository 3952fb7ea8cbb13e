//! The session registry: registration, subscriptions, snapshots, teardown.

use zed_websocket::Event;
use zed_websocket::Server;

fn topic(s: &str) -> String {
    s.to_string()
}

fn event(name: &str) -> Event {
    Event { name: name.to_string(), data: serde_json::Value::Null }
}

#[test]
fn registration_is_atomic() {
    let mut server: Server<String> = Server::new();
    assert!(server.has_capacity());
    let client = server.register("conn-a".to_string());
    // both lookups succeed immediately, and the subscription set is empty
    assert_eq!(server.connection(client.id()), Some(&"conn-a".to_string()));
    assert!(server.subscribes(client.id()).is_empty());
    assert!(!server.subscribed(client.id(), &topic("x")));
}

#[test]
fn identities_are_distinct() {
    let mut server: Server<u32> = Server::new();
    let a = server.register(1);
    let b = server.register(2);
    assert_ne!(a.id(), b.id());
    assert_eq!(server.connection(a.id()), Some(&1));
    assert_eq!(server.connection(b.id()), Some(&2));
}

#[test]
fn unregister_is_idempotent() {
    let mut server: Server<String> = Server::new();
    let a = server.register("conn-a".to_string());
    let b = server.register("conn-b".to_string());
    server.subscribe(b.id(), topic("news"));

    assert_eq!(server.unregister(a.id()), Some("conn-a".to_string()));
    // second call: a no-op, no error, and b is untouched
    assert_eq!(server.unregister(a.id()), None);
    assert_eq!(server.connection(a.id()), None);
    assert_eq!(server.connection(b.id()), Some(&"conn-b".to_string()));
    assert!(server.subscribed(b.id(), &topic("news")));
}

#[test]
fn subscribe_unsubscribe_roundtrip() {
    let mut server: Server<u8> = Server::new();
    let c = server.register(0);
    server.subscribe(c.id(), topic("x"));
    server.subscribe(c.id(), topic("y"));
    server.subscribe(c.id(), topic("x")); // duplicate: set semantics
    let mut subs = server.subscribes(c.id());
    subs.sort();
    assert_eq!(subs, vec![topic("x"), topic("y")]);
    server.unsubscribe(c.id(), &topic("x"));
    assert!(!server.subscribed(c.id(), &topic("x")));
    assert!(server.subscribed(c.id(), &topic("y")));
    server.unsubscribe(c.id(), &topic("missing")); // no-op
    assert_eq!(server.subscribes(c.id()), vec![topic("y")]);
}

#[test]
fn unknown_identity_is_silently_ignored() {
    let mut server: Server<u8> = Server::new();
    let c = server.register(0);
    let ghost_id = c.id() + 100;
    server.subscribe(ghost_id, topic("x"));
    server.unsubscribe(ghost_id, &topic("x"));
    assert!(!server.subscribed(ghost_id, &topic("x")));
    assert!(server.subscribes(ghost_id).is_empty());
    assert_eq!(server.connection(ghost_id), None);
}

#[test]
fn broadcast_targets_only_subscribers() {
    let mut server: Server<String> = Server::new();
    let a = server.register("conn-a".to_string());
    let b = server.register("conn-b".to_string());
    server.subscribe(a.id(), topic("x"));
    server.subscribe(b.id(), topic("y"));

    let recipients = server.broadcast(&event("x"));
    assert_eq!(recipients, vec![a.id()]);
    let recipients = server.broadcast(&event("y"));
    assert_eq!(recipients, vec![b.id()]);
    assert!(server.broadcast(&event("z")).is_empty());
}

#[test]
fn others_excludes_the_sender() {
    let mut server: Server<u8> = Server::new();
    let a = server.register(1);
    let b = server.register(2);
    server.subscribe(a.id(), topic("x"));
    server.subscribe(b.id(), topic("x"));

    let all = server.broadcast(&event("x"));
    assert_eq!(all.len(), 2);
    assert!(all.contains(&a.id()) && all.contains(&b.id()));
    let rest = server.others(&a, &event("x"));
    assert_eq!(rest, vec![b.id()]);
}

#[test]
fn send_failure_disconnects() {
    let mut server: Server<String> = Server::new();
    let c = server.register("conn-a".to_string());
    server.subscribe(c.id(), topic("x"));

    // a successful send changes nothing
    assert_eq!(server.send_result(c.id(), true), None);
    assert!(server.subscribed(c.id(), &topic("x")));

    // a failed send is the disconnect signal: the handle comes back for
    // closing, and subsequent queries see an unregistered identity
    assert_eq!(server.send_result(c.id(), false), Some("conn-a".to_string()));
    assert_eq!(server.connection(c.id()), None);
    assert!(!server.subscribed(c.id(), &topic("x")));
    assert!(server.subscribes(c.id()).is_empty());
    assert!(server.broadcast(&event("x")).is_empty());
}

#[test]
fn interleaved_mutations_replay_sequentially() {
    // interleaved subscribe/unsubscribe calls from different identities end
    // in the same per-identity state as a sequential replay
    let mut live: Server<u8> = Server::new();
    let a = live.register(0);
    let b = live.register(1);
    let c = live.register(2);

    live.subscribe(a.id(), topic("t0"));
    live.subscribe(b.id(), topic("t1"));
    live.subscribe(c.id(), topic("t0"));
    live.subscribe(a.id(), topic("t2"));
    live.unsubscribe(b.id(), &topic("t1"));
    live.subscribe(c.id(), topic("t1"));
    live.unsubscribe(a.id(), &topic("t0"));
    live.subscribe(b.id(), topic("t3"));

    let mut replay: Server<u8> = Server::new();
    let ra = replay.register(0);
    let rb = replay.register(1);
    let rc = replay.register(2);
    // a's operations alone
    replay.subscribe(ra.id(), topic("t0"));
    replay.subscribe(ra.id(), topic("t2"));
    replay.unsubscribe(ra.id(), &topic("t0"));
    // b's operations alone
    replay.subscribe(rb.id(), topic("t1"));
    replay.unsubscribe(rb.id(), &topic("t1"));
    replay.subscribe(rb.id(), topic("t3"));
    // c's operations alone
    replay.subscribe(rc.id(), topic("t0"));
    replay.subscribe(rc.id(), topic("t1"));

    for (x, y) in [(a, ra), (b, rb), (c, rc)] {
        let mut got = live.subscribes(x.id());
        let mut want = replay.subscribes(y.id());
        got.sort();
        want.sort();
        assert_eq!(got, want);
    }
}

#[test]
fn clients_snapshot_lists_everyone_once() {
    let mut server: Server<u8> = Server::new();
    let a = server.register(1);
    let b = server.register(2);
    server.unregister(a.id());
    let clients = server.clients();
    assert_eq!(clients.len(), 1);
    assert_eq!(clients[0].id(), b.id());
}

#[test]
fn client_handle_delegates_to_the_registry() {
    let mut server: Server<String> = Server::new();
    let c = server.register("conn-a".to_string());
    c.subscribe(&mut server, topic("x"));
    assert!(c.subscribed(&server, &topic("x")));
    assert_eq!(c.subscribes(&server), vec![topic("x")]);
    assert_eq!(c.broadcast(&server, &event("x")), vec![c.id()]);
    c.unsubscribe(&mut server, &topic("x"));
    assert!(!c.subscribed(&server, &topic("x")));
    assert_eq!(c.close(&mut server), Some("conn-a".to_string()));
    assert_eq!(c.close(&mut server), None);
}
