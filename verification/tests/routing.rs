//! The handler registry: matchers and first-match-wins resolution.

use zed_websocket::Handlers;
use zed_websocket::Matcher;
use zed_websocket::Route;

fn route(m: Matcher, tag: u32) -> Route<u32> {
    Route { matcher: m, authentication: false, handler: tag }
}

#[test]
fn exact_matcher_is_exact() {
    let m = Matcher::Exact("login".to_string());
    assert!(m.matches(&"login".to_string()));
    assert!(!m.matches(&"login2".to_string()));
    assert!(!m.matches(&"log".to_string()));
}

#[test]
fn pattern_matcher_uses_the_regex() {
    let m = Matcher::Pattern("^room\\.[0-9]+$".to_string());
    assert!(m.matches(&"room.7".to_string()));
    assert!(m.matches(&"room.123".to_string()));
    assert!(!m.matches(&"room.".to_string()));
    assert!(!m.matches(&"lobby".to_string()));
}

#[test]
fn invalid_pattern_matches_nothing() {
    let m = Matcher::Pattern("(".to_string());
    assert!(!m.matches(&"anything".to_string()));
}

#[test]
fn resolution_finds_the_only_match() {
    let handlers = Handlers::new()
        .register(route(Matcher::Exact("ping".to_string()), 0))
        .register(route(Matcher::Exact("echo".to_string()), 1));
    assert_eq!(handlers.get(&"echo".to_string()), Some(1));
    assert_eq!(handlers.get(&"ping".to_string()), Some(0));
    assert_eq!(handlers.get(&"nope".to_string()), None);
    assert_eq!(handlers.len(), 2);
    assert_eq!(handlers.route(1).handler, 1);
}

#[test]
fn first_match_wins_among_overlapping_patterns() {
    // both patterns match "foo": the earlier registration is picked
    let handlers = Handlers::new()
        .register(route(Matcher::Pattern("^f".to_string()), 10))
        .register(route(Matcher::Pattern("foo".to_string()), 20));
    assert_eq!(handlers.get(&"foo".to_string()), Some(0));

    // same with the registrations the other way round
    let flipped = Handlers::new()
        .register(route(Matcher::Pattern("foo".to_string()), 20))
        .register(route(Matcher::Pattern("^f".to_string()), 10));
    assert_eq!(flipped.get(&"foo".to_string()), Some(0));
}

#[test]
fn first_match_wins_across_matcher_kinds() {
    let handlers = Handlers::new()
        .register(route(Matcher::Exact("foo".to_string()), 1))
        .register(route(Matcher::Pattern("^fo".to_string()), 2));
    assert_eq!(handlers.get(&"foo".to_string()), Some(0));
    // only the pattern matches this one
    assert_eq!(handlers.get(&"fob".to_string()), Some(1));
}

#[test]
fn empty_registry_routes_nothing() {
    let handlers: Handlers<u32> = Handlers::new();
    assert_eq!(handlers.get(&"anything".to_string()), None);
    assert_eq!(handlers.len(), 0);
}
