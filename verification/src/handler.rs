//! The handler registry: an ordered list of command-handler registrations,
//! resolved by pattern-matching the inbound command name.
//!
//! Registration order is routing priority: resolution returns the first
//! registration whose matcher accepts the name. This first-match-wins policy
//! is documented behaviour, not an accident of iteration.
//!
//! The registry is built once at startup and read-only afterwards. The
//! invocable carried by each registration is opaque to the registry (`H`);
//! the embedding decides what an invocable is and how to run it.

use vstd::prelude::*;

verus! {

/// Whether the regular expression `pattern` accepts `text` somewhere in it.
/// The answer is fixed by the two strings alone; it gets no definition here
/// because the matching is done by an outside engine.
pub uninterp spec fn regex_match(pattern: Seq<char>, text: Seq<char>) -> bool;

/// Relies on regex::Regex::new and regex::Regex::is_match: whether `text`
/// matches the regular expression `pattern`. The answer is a function of the
/// two strings alone; a pattern that does not compile matches nothing.
#[verifier::external_body]
fn regex_is_match(pattern: &str, text: &str) -> (r: bool)
    ensures
        r == regex_match(pattern@, text@),
{
    match regex::Regex::new(pattern) {
        Ok(re) => re.is_match(text),
        Err(_) => false,
    }
}

/// One "does this command name match" capability. Exact-string matchers and
/// full regular-expression matchers coexist behind this one interface.
pub enum Matcher {
    /// Matches exactly this command name.
    Exact(String),
    /// Matches any command name the regular expression accepts.
    Pattern(String),
}

impl Matcher {
    /// What this matcher accepts.
    pub open spec fn spec_matches(self, name: Seq<char>) -> bool {
        match self {
            Matcher::Exact(s) => s@ == name,
            Matcher::Pattern(p) => regex_match(p@, name),
        }
    }

    /// Whether this matcher accepts the command name.
    pub fn matches(&self, name: &String) -> (r: bool)
        ensures
            r == self.spec_matches(name@),
    {
        match self {
            Matcher::Exact(s) => *s == *name,
            Matcher::Pattern(p) => regex_is_match(p.as_str(), name.as_str()),
        }
    }
}

/// One registration: a matcher over command names, the handler's
/// authentication requirement, and the invocable business logic.
pub struct Route<H> {
    pub matcher: Matcher,
    pub authentication: bool,
    pub handler: H,
}

/// The index of the first registration whose matcher accepts `name`.
pub open spec fn spec_resolve<H>(routes: Seq<Route<H>>, name: Seq<char>) -> Option<int>
    decreases routes.len(),
{
    if routes.len() == 0 {
        None
    } else if routes[0].matcher.spec_matches(name) {
        Some(0)
    } else {
        match spec_resolve(routes.skip(1), name) {
            Some(i) => Some(i + 1),
            None => None,
        }
    }
}

/// The ordered list of registered command handlers.
pub struct Handlers<H> {
    routes: Vec<Route<H>>,
}

impl<H> View for Handlers<H> {
    type V = Seq<Route<H>>;

    closed spec fn view(&self) -> Seq<Route<H>> {
        self.routes@
    }
}

impl<H> Handlers<H> {
    /// An empty registry: nothing routes anywhere.
    pub fn new() -> (r: Handlers<H>)
        ensures
            r@ =~= Seq::<Route<H>>::empty(),
    {
        Handlers { routes: Vec::new() }
    }

    /// Appends a registration. Later registrations have lower routing
    /// priority than everything registered before them.
    pub fn register(self, route: Route<H>) -> (r: Handlers<H>)
        ensures
            r@ == self@.push(route),
    {
        let mut s = self;
        s.routes.push(route);
        s
    }

    /// How many registrations the registry holds.
    pub fn len(&self) -> (r: usize)
        ensures
            r == self@.len(),
    {
        self.routes.len()
    }

    /// The registration at `i`.
    pub fn route(&self, i: usize) -> (r: &Route<H>)
        requires
            i < self@.len(),
        ensures
            *r == self@[i as int],
    {
        &self.routes[i]
    }

    /// Resolves a command name to the first registration whose matcher
    /// accepts it, or to nothing when no matcher does.
    pub fn get(&self, event: &String) -> (r: Option<usize>)
        ensures
            match r {
                Some(i) => i < self@.len() && spec_resolve(self@, event@) == Some(i as int),
                None => spec_resolve(self@, event@) is None,
            },
    {
        let mut i: usize = 0;
        while i < self.routes.len()
            invariant
                i <= self@.len(),
                forall|k: int| 0 <= k < i ==> !self@[k].matcher.spec_matches(event@),
            decreases self@.len() - i,
        {
            if self.routes[i].matcher.matches(event) {
                proof {
                    lemma_resolve_found(self@, event@, i as int);
                }
                return Some(i);
            }
            i += 1;
        }
        proof {
            lemma_resolve_none(self@, event@);
        }
        None
    }
}

/// When registrations `0..i` all reject `name` and registration `i` accepts
/// it, resolution lands exactly on `i`.
proof fn lemma_resolve_found<H>(routes: Seq<Route<H>>, name: Seq<char>, i: int)
    requires
        0 <= i < routes.len(),
        routes[i].matcher.spec_matches(name),
        forall|k: int| 0 <= k < i ==> !routes[k].matcher.spec_matches(name),
    ensures
        spec_resolve(routes, name) == Some(i),
    decreases i,
{
    if i == 0 {
    } else {
        assert(!routes[0].matcher.spec_matches(name));
        assert(forall|k: int| 0 <= k < i - 1 ==> routes.skip(1)[k] == routes[k + 1]);
        lemma_resolve_found(routes.skip(1), name, i - 1);
    }
}

/// When every registration rejects `name`, resolution finds nothing.
proof fn lemma_resolve_none<H>(routes: Seq<Route<H>>, name: Seq<char>)
    requires
        forall|k: int| 0 <= k < routes.len() ==> !routes[k].matcher.spec_matches(name),
    ensures
        spec_resolve(routes, name) is None,
    decreases routes.len(),
{
    if routes.len() == 0 {
    } else {
        assert(forall|k: int| 0 <= k < routes.len() - 1 ==> routes.skip(1)[k] == routes[k + 1]);
        lemma_resolve_none(routes.skip(1), name);
    }
}

/// What resolution returns always is a first match: it accepts the name, and
/// every earlier registration rejects it.
pub proof fn lemma_resolve_is_first_match<H>(routes: Seq<Route<H>>, name: Seq<char>, i: int)
    requires
        spec_resolve(routes, name) == Some(i),
    ensures
        0 <= i < routes.len(),
        routes[i].matcher.spec_matches(name),
        forall|k: int| 0 <= k < i ==> !routes[k].matcher.spec_matches(name),
    decreases routes.len(),
{
    if routes.len() == 0 {
    } else if routes[0].matcher.spec_matches(name) {
    } else {
        lemma_resolve_is_first_match(routes.skip(1), name, i - 1);
        assert forall|k: int| 0 <= k < i implies !routes[k].matcher.spec_matches(name) by {
            if k > 0 {
                assert(routes.skip(1)[k - 1] == routes[k]);
            }
        }
    }
}

/// First-match routing: of two registrations that both could match a command
/// name, the earlier-registered one is the one resolution picks; the later is
/// never invoked.
pub proof fn lemma_first_match_wins<H>(routes: Seq<Route<H>>, name: Seq<char>, i: int, j: int)
    requires
        0 <= i < j < routes.len(),
        routes[i].matcher.spec_matches(name),
        routes[j].matcher.spec_matches(name),
    ensures
        spec_resolve(routes, name) matches Some(m) && m <= i,
    decreases routes.len(),
{
    if routes[0].matcher.spec_matches(name) {
    } else {
        assert(forall|k: int| 0 <= k < routes.len() - 1 ==> routes.skip(1)[k] == routes[k + 1]);
        lemma_first_match_wins(routes.skip(1), name, i - 1, j - 1);
    }
}

} // verus!
