//! The session registry (broker): the single source of truth for which
//! connections exist and what each one is subscribed to.
//!
//! The registry keys everything by a process-unique connection identity,
//! minted here at registration from a monotone counter so that an identity is
//! never reused for as long as the process lives. It owns two logical maps —
//! identity to transport handle, identity to subscribed-topic set — updated
//! as a single unit, so the two can never diverge.
//!
//! The transport handle type `T` is opaque to the registry: handles are
//! stored at registration, handed back for sends, and returned at
//! unregistration for the embedding to close. All frame I/O happens outside;
//! the registry only decides who holds a handle and who gets a broadcast
//! (snapshot-then-send: the delivery set is computed under exclusive access,
//! the sends happen after it is released).

use vstd::prelude::*;

use crate::client::Client;
use crate::event::Event;

verus! {

/// The set of topic names a list of subscriptions stands for.
pub open spec fn topic_set(ts: Seq<String>) -> Set<Seq<char>> {
    Set::new(|t: Seq<char>| exists|j: int| 0 <= j < ts.len() && ts[j]@ == t)
}

/// The delivery set of one broadcast over a subscription map: every identity
/// with `topic` in its subscription set.
pub open spec fn delivery_targets(subs: Map<u64, Set<Seq<char>>>, topic: Seq<char>) -> Set<u64> {
    Set::new(|id: u64| subs.dom().contains(id) && subs[id].contains(topic))
}

/// The session registry. `T` is the transport handle type.
pub struct Server<T> {
    /// The next identity to mint; every identity ever minted is below it.
    next: u64,
    /// The identities of the live connections, in registration order.
    ids: Vec<u64>,
    /// The transport handle of each live connection, aligned with `ids`.
    conns: Vec<T>,
    /// The subscribed topics of each live connection, aligned with `ids`.
    topics: Vec<Vec<String>>,
}

impl<T> Server<T> {
    /// The registry's well-formedness: the three columns are aligned, every
    /// identity is below the mint counter and unique, and no subscription
    /// list repeats a topic.
    pub closed spec fn wf(self) -> bool {
        &&& self.conns@.len() == self.ids@.len()
        &&& self.topics@.len() == self.ids@.len()
        &&& forall|i: int| 0 <= i < self.ids@.len() ==> self.ids@[i] < self.next
        &&& forall|i: int, j: int|
            0 <= i < j < self.ids@.len() ==> self.ids@[i] != self.ids@[j]
        &&& forall|i: int, p: int, q: int|
            0 <= i < self.topics@.len() && 0 <= p < q < self.topics@[i]@.len()
                ==> self.topics@[i]@[p]@ != self.topics@[i]@[q]@
    }

    /// Where `id` sits in the identity column.
    pub closed spec fn index_of(self, id: u64) -> int {
        choose|i: int| 0 <= i < self.ids@.len() && self.ids@[i] == id
    }

    /// The session map: identity to transport handle.
    pub closed spec fn sessions(self) -> Map<u64, T> {
        Map::new(
            |id: u64| self.ids@.contains(id),
            |id: u64| self.conns@[self.index_of(id)],
        )
    }

    /// The subscription map: identity to subscribed-topic set.
    pub closed spec fn subscriptions(self) -> Map<u64, Set<Seq<char>>> {
        Map::new(
            |id: u64| self.ids@.contains(id),
            |id: u64| topic_set(self.topics@[self.index_of(id)]@),
        )
    }

    /// Whether a connection with identity `id` is currently registered.
    pub open spec fn registered(self, id: u64) -> bool {
        self.sessions().dom().contains(id)
    }

    /// The two maps are one logical unit: an identity holds a session entry
    /// exactly when it holds a subscription set, in every state.
    pub proof fn lemma_maps_aligned(self)
        ensures
            self.sessions().dom() == self.subscriptions().dom(),
    {
        assert(self.sessions().dom() =~= self.subscriptions().dom());
    }

    /// Whether a fresh identity can still be minted.
    pub closed spec fn can_mint(self) -> bool {
        self.next < u64::MAX
    }

    /// With unique identities, the identity at `i` points back to `i`.
    proof fn lemma_index(self, i: int)
        requires
            self.wf(),
            0 <= i < self.ids@.len(),
        ensures
            self.ids@.contains(self.ids@[i]),
            self.index_of(self.ids@[i]) == i,
            self.registered(self.ids@[i]),
            self.sessions()[self.ids@[i]] == self.conns@[i],
            self.subscriptions()[self.ids@[i]] == topic_set(self.topics@[i]@),
    {
        let id = self.ids@[i];
        assert(0 <= i < self.ids@.len() && self.ids@[i] == id);
        assert(self.ids@.contains(id));
        let j = self.index_of(id);
        assert(0 <= j < self.ids@.len() && self.ids@[j] == id);
        assert(j == i);
    }

    /// An empty registry: no sessions, no subscriptions.
    pub fn new() -> (r: Server<T>)
        ensures
            r.wf(),
            r.can_mint(),
            r.sessions() == Map::<u64, T>::empty(),
            r.subscriptions() == Map::<u64, Set<Seq<char>>>::empty(),
    {
        let r = Server { next: 0u64, ids: Vec::new(), conns: Vec::new(), topics: Vec::new() };
        proof {
            assert(r.sessions() =~= Map::<u64, T>::empty());
            assert(r.subscriptions() =~= Map::<u64, Set<Seq<char>>>::empty());
        }
        r
    }

    /// Whether another connection can still be registered: false only once
    /// the 64-bit identity space is exhausted.
    pub fn has_capacity(&self) -> (r: bool)
        ensures
            r == self.can_mint(),
    {
        self.next < u64::MAX
    }

    /// Mints a fresh connection identity, inserts the session entry and an
    /// empty subscription set as one atomic update, and returns the client
    /// handle bound to the new identity.
    pub fn register(&mut self, conn: T) -> (c: Client)
        requires
            old(self).wf(),
            old(self).can_mint(),
        ensures
            final(self).wf(),
            !old(self).registered(c.spec_id()),
            final(self).sessions() == old(self).sessions().insert(c.spec_id(), conn),
            final(self).subscriptions() == old(self).subscriptions().insert(
                c.spec_id(),
                Set::<Seq<char>>::empty(),
            ),
    {
        let id = self.next;
        self.next = self.next + 1;
        self.ids.push(id);
        self.conns.push(conn);
        self.topics.push(Vec::new());
        proof {
            let olds = *old(self);
            let news = *self;
            let n = olds.ids@.len() as int;
            // the minted identity is fresh: everything registered is below it
            if olds.ids@.contains(id) {
                let w = choose|w: int| 0 <= w < n && olds.ids@[w] == id;
                assert(false);
            }
            assert(news.wf());
            news.lemma_index(n);
            assert(news.sessions() =~= olds.sessions().insert(id, conn)) by {
                assert forall|k: u64| news.ids@.contains(k) implies
                    olds.ids@.contains(k) || k == id by {
                    let w = choose|w: int| 0 <= w < news.ids@.len() && news.ids@[w] == k;
                    if w < n {
                        assert(olds.ids@[w] == k);
                    }
                }
                assert forall|k: u64| olds.ids@.contains(k) implies news.ids@.contains(k) by {
                    let w = choose|w: int| 0 <= w < n && olds.ids@[w] == k;
                    assert(news.ids@[w] == k);
                }
                assert forall|k: u64| olds.ids@.contains(k) implies
                    news.sessions()[k] == olds.sessions()[k] by {
                    let w = choose|w: int| 0 <= w < n && olds.ids@[w] == k;
                    olds.lemma_index(w);
                    news.lemma_index(w);
                }
            }
            assert(news.subscriptions() =~= olds.subscriptions().insert(
                id,
                Set::<Seq<char>>::empty(),
            )) by {
                assert forall|k: u64| news.ids@.contains(k) implies
                    olds.ids@.contains(k) || k == id by {
                    let w = choose|w: int| 0 <= w < news.ids@.len() && news.ids@[w] == k;
                    if w < n {
                        assert(olds.ids@[w] == k);
                    }
                }
                assert forall|k: u64| olds.ids@.contains(k) implies news.ids@.contains(k) by {
                    let w = choose|w: int| 0 <= w < n && olds.ids@[w] == k;
                    assert(news.ids@[w] == k);
                }
                assert forall|k: u64| olds.ids@.contains(k) implies
                    news.subscriptions()[k] == olds.subscriptions()[k] by {
                    let w = choose|w: int| 0 <= w < n && olds.ids@[w] == k;
                    olds.lemma_index(w);
                    news.lemma_index(w);
                }
                assert(news.subscriptions()[id] =~= Set::<Seq<char>>::empty());
            }
        }
        Client::bound_to(id)
    }

    /// Where `id` sits in the columns, if it is registered at all.
    fn find(&self, id: u64) -> (r: Option<usize>)
        requires
            self.wf(),
        ensures
            match r {
                Some(i) => i < self.ids@.len() && self.ids@[i as int] == id
                    && self.index_of(id) == i,
                None => !self.ids@.contains(id),
            },
    {
        let mut i: usize = 0;
        while i < self.ids.len()
            invariant
                self.wf(),
                i <= self.ids@.len(),
                forall|k: int| 0 <= k < i ==> self.ids@[k] != id,
            decreases self.ids@.len() - i,
        {
            if self.ids[i] == id {
                proof {
                    self.lemma_index(i as int);
                }
                return Some(i);
            }
            i += 1;
        }
        proof {
            if self.ids@.contains(id) {
                let w = choose|w: int| 0 <= w < self.ids@.len() && self.ids@[w] == id;
                assert(false);
            }
        }
        None
    }

    /// Removes the session entry and the subscription set of `id` as one
    /// unit, if present; unregistering an absent identity is a no-op, not an
    /// error, so racing teardown paths may both call this safely. Returns the
    /// stored transport handle so the embedding can close it best-effort.
    pub fn unregister(&mut self, id: u64) -> (h: Option<T>)
        requires
            old(self).wf(),
        ensures
            final(self).wf(),
            final(self).sessions() == old(self).sessions().remove(id),
            final(self).subscriptions() == old(self).subscriptions().remove(id),
            old(self).registered(id) ==> h == Some(old(self).sessions()[id]),
            !old(self).registered(id) ==> h is None,
    {
        match self.find(id) {
            None => {
                proof {
                    assert(self.sessions() =~= self.sessions().remove(id));
                    assert(self.subscriptions() =~= self.subscriptions().remove(id));
                }
                None
            },
            Some(i) => {
                self.ids.remove(i);
                let conn = self.conns.remove(i);
                self.topics.remove(i);
                proof {
                    let olds = *old(self);
                    let news = *self;
                    let n = olds.ids@.len() as int;
                    olds.lemma_index(i as int);
                    olds.ids@.remove_ensures(i as int);
                    olds.conns@.remove_ensures(i as int);
                    olds.topics@.remove_ensures(i as int);
                    assert(news.wf());
                    assert(news.sessions() =~= olds.sessions().remove(id)) by {
                        assert forall|k: u64| news.ids@.contains(k) implies
                            olds.ids@.contains(k) && k != id by {
                            let w = choose|w: int|
                                0 <= w < news.ids@.len() && news.ids@[w] == k;
                            let o = if w < i as int { w } else { w + 1 };
                            assert(olds.ids@[o] == k);
                        }
                        assert forall|k: u64| olds.ids@.contains(k) && k != id implies
                            news.ids@.contains(k) by {
                            let w = choose|w: int| 0 <= w < n && olds.ids@[w] == k;
                            if w < i as int {
                                assert(news.ids@[w] == k);
                            } else {
                                assert(news.ids@[w - 1] == k);
                            }
                        }
                        assert forall|k: u64| news.ids@.contains(k) implies
                            news.sessions()[k] == olds.sessions()[k] by {
                            let w = choose|w: int|
                                0 <= w < news.ids@.len() && news.ids@[w] == k;
                            let o = if w < i as int { w } else { w + 1 };
                            news.lemma_index(w);
                            olds.lemma_index(o);
                        }
                    }
                    assert(news.subscriptions() =~= olds.subscriptions().remove(id)) by {
                        assert forall|k: u64| news.ids@.contains(k) implies
                            olds.ids@.contains(k) && k != id by {
                            let w = choose|w: int|
                                0 <= w < news.ids@.len() && news.ids@[w] == k;
                            let o = if w < i as int { w } else { w + 1 };
                            assert(olds.ids@[o] == k);
                        }
                        assert forall|k: u64| olds.ids@.contains(k) && k != id implies
                            news.ids@.contains(k) by {
                            let w = choose|w: int| 0 <= w < n && olds.ids@[w] == k;
                            if w < i as int {
                                assert(news.ids@[w] == k);
                            } else {
                                assert(news.ids@[w - 1] == k);
                            }
                        }
                        assert forall|k: u64| news.ids@.contains(k) implies
                            news.subscriptions()[k] == olds.subscriptions()[k] by {
                            let w = choose|w: int|
                                0 <= w < news.ids@.len() && news.ids@[w] == k;
                            let o = if w < i as int { w } else { w + 1 };
                            news.lemma_index(w);
                            olds.lemma_index(o);
                        }
                    }
                }
                Some(conn)
            },
        }
    }

    /// After a change that leaves identities and handles alone, the session
    /// map is unchanged.
    proof fn lemma_sessions_unchanged(self, other: Server<T>)
        requires
            self.wf(),
            other.wf(),
            other.ids@ == self.ids@,
            other.conns@ == self.conns@,
        ensures
            other.sessions() == self.sessions(),
    {
        assert(other.sessions() =~= self.sessions()) by {
            assert forall|k: u64| self.ids@.contains(k) implies
                other.sessions()[k] == self.sessions()[k] by {
                let w = choose|w: int| 0 <= w < self.ids@.len() && self.ids@[w] == k;
                self.lemma_index(w);
                other.lemma_index(w);
            }
        }
    }

    /// Adds `topic` to the subscription set of `id`. Silently a no-op when
    /// the identity is unknown: such a caller is treated as already
    /// disconnected, and nothing crashes.
    pub fn subscribe(&mut self, id: u64, topic: String)
        requires
            old(self).wf(),
        ensures
            final(self).wf(),
            final(self).sessions() == old(self).sessions(),
            old(self).registered(id) ==> final(self).subscriptions()
                == old(self).subscriptions().insert(
                id,
                old(self).subscriptions()[id].insert(topic@),
            ),
            !old(self).registered(id) ==> final(self).subscriptions()
                == old(self).subscriptions(),
    {
        match self.find(id) {
            None => {},
            Some(i) => {
                proof {
                    self.lemma_index(i as int);
                }
                let already = contains_topic(&self.topics[i], &topic);
                if !already {
                    let ghost olds = *self;
                    self.topics[i].push(topic);
                    proof {
                        let news = *self;
                        let n = olds.ids@.len() as int;
                        let oldts = olds.topics@[i as int]@;
                        assert(news.topics@[i as int]@ == oldts.push(topic));
                        assert forall|k: int| 0 <= k < oldts.len() implies
                            oldts[k]@ != topic@ by {
                            if oldts[k]@ == topic@ {
                                assert(topic_set(oldts).contains(topic@));
                            }
                        }
                        assert(news.wf());
                        olds.lemma_sessions_unchanged(news);
                        assert(topic_set(news.topics@[i as int]@) =~=
                            topic_set(oldts).insert(topic@)) by {
                            assert forall|t: Seq<char>|
                                topic_set(oldts.push(topic)).contains(t) implies
                                topic_set(oldts).insert(topic@).contains(t) by {
                                let w = choose|w: int|
                                    0 <= w < oldts.push(topic).len()
                                        && oldts.push(topic)[w]@ == t;
                                if w < oldts.len() {
                                    assert(oldts[w]@ == t);
                                }
                            }
                            assert forall|t: Seq<char>|
                                topic_set(oldts).insert(topic@).contains(t) implies
                                topic_set(oldts.push(topic)).contains(t) by {
                                if topic_set(oldts).contains(t) {
                                    let w = choose|w: int|
                                        0 <= w < oldts.len() && oldts[w]@ == t;
                                    assert(oldts.push(topic)[w]@ == t);
                                } else {
                                    assert(oldts.push(topic)[oldts.len() as int]@ == t);
                                }
                            }
                        }
                        assert(news.subscriptions() =~= olds.subscriptions().insert(
                            id,
                            olds.subscriptions()[id].insert(topic@),
                        )) by {
                            assert forall|k: u64| olds.ids@.contains(k) && k != id implies
                                news.subscriptions()[k] == olds.subscriptions()[k] by {
                                let w = choose|w: int|
                                    0 <= w < n && olds.ids@[w] == k;
                                olds.lemma_index(w);
                                news.lemma_index(w);
                                assert(w != i as int);
                                assert(news.topics@[w] == olds.topics@[w]);
                            }
                            news.lemma_index(i as int);
                        }
                    }
                } else {
                    proof {
                        let olds = *self;
                        assert(olds.subscriptions()[id].insert(topic@) =~=
                            olds.subscriptions()[id]);
                        assert(olds.subscriptions().insert(
                            id,
                            olds.subscriptions()[id].insert(topic@),
                        ) =~= olds.subscriptions());
                    }
                }
            },
        }
    }

    /// Removes `topic` from the subscription set of `id`; a no-op for an
    /// unknown identity or an unsubscribed topic.
    pub fn unsubscribe(&mut self, id: u64, topic: &String)
        requires
            old(self).wf(),
        ensures
            final(self).wf(),
            final(self).sessions() == old(self).sessions(),
            old(self).registered(id) ==> final(self).subscriptions()
                == old(self).subscriptions().insert(
                id,
                old(self).subscriptions()[id].remove(topic@),
            ),
            !old(self).registered(id) ==> final(self).subscriptions()
                == old(self).subscriptions(),
    {
        match self.find(id) {
            None => {},
            Some(i) => {
                proof {
                    self.lemma_index(i as int);
                }
                match find_topic(&self.topics[i], topic) {
                    None => {
                        proof {
                            let olds = *self;
                            assert(olds.subscriptions()[id].remove(topic@) =~=
                                olds.subscriptions()[id]);
                            assert(olds.subscriptions().insert(
                                id,
                                olds.subscriptions()[id].remove(topic@),
                            ) =~= olds.subscriptions());
                        }
                    },
                    Some(j) => {
                        let ghost olds = *self;
                        self.topics[i].remove(j);
                        proof {
                            let news = *self;
                            let n = olds.ids@.len() as int;
                            let oldts = olds.topics@[i as int]@;
                            oldts.remove_ensures(j as int);
                            assert(news.topics@[i as int]@ == oldts.remove(j as int));
                            assert(news.wf());
                            olds.lemma_sessions_unchanged(news);
                            assert(topic_set(oldts.remove(j as int)) =~=
                                topic_set(oldts).remove(topic@)) by {
                                assert forall|t: Seq<char>|
                                    topic_set(oldts.remove(j as int)).contains(t) implies
                                    topic_set(oldts).remove(topic@).contains(t) by {
                                    let w = choose|w: int|
                                        0 <= w < oldts.remove(j as int).len()
                                            && oldts.remove(j as int)[w]@ == t;
                                    let o = if w < j as int { w } else { w + 1 };
                                    assert(oldts[o]@ == t);
                                    assert(o != j as int);
                                    assert(t != topic@);
                                }
                                assert forall|t: Seq<char>|
                                    topic_set(oldts).remove(topic@).contains(t) implies
                                    topic_set(oldts.remove(j as int)).contains(t) by {
                                    let w = choose|w: int|
                                        0 <= w < oldts.len() && oldts[w]@ == t;
                                    assert(w != j as int);
                                    if w < j as int {
                                        assert(oldts.remove(j as int)[w]@ == t);
                                    } else {
                                        assert(oldts.remove(j as int)[w - 1]@ == t);
                                    }
                                }
                            }
                            assert(news.subscriptions() =~= olds.subscriptions().insert(
                                id,
                                olds.subscriptions()[id].remove(topic@),
                            )) by {
                                assert forall|k: u64| olds.ids@.contains(k) && k != id implies
                                    news.subscriptions()[k] == olds.subscriptions()[k] by {
                                    let w = choose|w: int|
                                        0 <= w < n && olds.ids@[w] == k;
                                    olds.lemma_index(w);
                                    news.lemma_index(w);
                                    assert(w != i as int);
                                    assert(news.topics@[w] == olds.topics@[w]);
                                }
                                news.lemma_index(i as int);
                            }
                        }
                    },
                }
            },
        }
    }

    /// Pure membership query: whether `id` is currently subscribed to
    /// `topic`. False for an unknown identity.
    pub fn subscribed(&self, id: u64, topic: &String) -> (r: bool)
        requires
            self.wf(),
        ensures
            r == (self.registered(id) && self.subscriptions()[id].contains(topic@)),
    {
        match self.find(id) {
            None => false,
            Some(i) => {
                proof {
                    self.lemma_index(i as int);
                }
                contains_topic(&self.topics[i], topic)
            },
        }
    }

    /// The current subscription set of `id`, as a list of topic names; empty
    /// for an unknown identity.
    pub fn subscribes(&self, id: u64) -> (r: Vec<String>)
        requires
            self.wf(),
        ensures
            self.registered(id) ==> topic_set(r@) == self.subscriptions()[id],
            !self.registered(id) ==> r@.len() == 0,
            forall|p: int, q: int| 0 <= p < q < r@.len() ==> r@[p]@ != r@[q]@,
    {
        match self.find(id) {
            None => Vec::new(),
            Some(i) => {
                proof {
                    self.lemma_index(i as int);
                }
                let ts = &self.topics[i];
                let mut out: Vec<String> = Vec::new();
                let mut j: usize = 0;
                while j < ts.len()
                    invariant
                        j <= ts@.len(),
                        out@.len() == j,
                        forall|k: int| 0 <= k < j ==> out@[k] == ts@[k],
                    decreases ts@.len() - j,
                {
                    out.push(ts[j].clone());
                    j += 1;
                }
                proof {
                    assert(out@ =~= ts@);
                }
                out
            },
        }
    }

    /// The identities subscribed to `name`, each exactly once, leaving out
    /// `exclude` if one is given.
    fn targets(&self, name: &String, exclude: Option<u64>) -> (r: Vec<u64>)
        requires
            self.wf(),
        ensures
            forall|id: u64| #[trigger] r@.contains(id)
                <==> self.registered(id) && self.subscriptions()[id].contains(name@)
                    && exclude != Some(id),
            forall|p: int, q: int| 0 <= p < q < r@.len() ==> r@[p] != r@[q],
    {
        let mut r: Vec<u64> = Vec::new();
        let mut i: usize = 0;
        while i < self.ids.len()
            invariant
                self.wf(),
                i <= self.ids@.len(),
                forall|k: int| #![trigger r@[k]] 0 <= k < r@.len()
                    ==> self.registered(r@[k])
                        && self.subscriptions()[r@[k]].contains(name@)
                        && exclude != Some(r@[k]),
                forall|w: int|
                    0 <= w < i && topic_set(self.topics@[w]@).contains(name@)
                        && exclude != Some(self.ids@[w]) ==> r@.contains(self.ids@[w]),
                forall|w: int| i <= w < self.ids@.len() ==> !r@.contains(self.ids@[w]),
                forall|p: int, q: int| 0 <= p < q < r@.len() ==> r@[p] != r@[q],
            decreases self.ids@.len() - i,
        {
            let ghost r0 = r@;
            let id = self.ids[i];
            let excluded = match exclude {
                Some(e) => e == id,
                None => false,
            };
            let wanted = !excluded && contains_topic(&self.topics[i], name);
            if wanted {
                r.push(id);
            }
            proof {
                self.lemma_index(i as int);
                assert(!r0.contains(id));
                if wanted {
                    assert(r@ == r0.push(id));
                    assert(r@[r0.len() as int] == id);
                }
                assert forall|k: int| #![trigger r@[k]] 0 <= k < r@.len() implies
                    self.registered(r@[k])
                        && self.subscriptions()[r@[k]].contains(name@)
                        && exclude != Some(r@[k]) by {
                    if k < r0.len() {
                        assert(r@[k] == r0[k]);
                    } else {
                        assert(r@[k] == id);
                    }
                }
                assert forall|w: int|
                    0 <= w < i + 1 && topic_set(self.topics@[w]@).contains(name@)
                        && exclude != Some(self.ids@[w]) implies
                    r@.contains(self.ids@[w]) by {
                    if w < i as int {
                        let k = choose|k: int| 0 <= k < r0.len() && r0[k] == self.ids@[w];
                        assert(r@[k] == self.ids@[w]);
                    } else {
                        assert(wanted);
                    }
                }
                assert forall|w: int| i + 1 <= w < self.ids@.len() implies
                    !r@.contains(self.ids@[w]) by {
                    if r@.contains(self.ids@[w]) {
                        let k = choose|k: int| 0 <= k < r@.len() && r@[k] == self.ids@[w];
                        if k < r0.len() {
                            assert(r0[k] == self.ids@[w]);
                            assert(r0.contains(self.ids@[w]));
                        } else {
                            assert(self.ids@[w] == self.ids@[i as int]);
                        }
                        assert(false);
                    }
                }
                assert forall|p: int, q: int| 0 <= p < q < r@.len() implies
                    r@[p] != r@[q] by {
                    if q < r0.len() {
                        assert(r@[p] == r0[p] && r@[q] == r0[q]);
                    } else {
                        assert(r@[p] == r0[p]);
                        if r0[p] == id {
                            assert(r0.contains(id));
                        }
                    }
                }
            }
            i += 1;
        }
        proof {
            assert forall|id: u64| #[trigger] r@.contains(id) implies
                self.registered(id) && self.subscriptions()[id].contains(name@)
                    && exclude != Some(id) by {
                let k = choose|k: int| 0 <= k < r@.len() && r@[k] == id;
                assert(r@[k] == id);
            }
            assert forall|id: u64|
                self.registered(id) && self.subscriptions()[id].contains(name@)
                    && exclude != Some(id) implies #[trigger] r@.contains(id) by {
                let w = choose|w: int| 0 <= w < self.ids@.len() && self.ids@[w] == id;
                self.lemma_index(w);
            }
        }
        r
    }

    /// Computes the delivery snapshot of one broadcast: the identity of
    /// every connection currently subscribed to the event's topic, each
    /// exactly once. The caller performs the sends only after releasing
    /// exclusive access to the registry (snapshot-then-send), so one slow
    /// connection cannot stall registration or other broadcasts; a
    /// connection registered after the snapshot misses this broadcast, by
    /// design best-effort.
    pub fn broadcast(&self, event: &Event) -> (r: Vec<u64>)
        requires
            self.wf(),
        ensures
            forall|id: u64| #[trigger] r@.contains(id)
                <==> self.registered(id)
                    && self.subscriptions()[id].contains(event.name@),
            forall|id: u64| #[trigger] r@.contains(id)
                <==> delivery_targets(self.subscriptions(), event.name@).contains(id),
            forall|p: int, q: int| 0 <= p < q < r@.len() ==> r@[p] != r@[q],
    {
        let r = self.targets(&event.name, None);
        proof {
            self.lemma_maps_aligned();
        }
        r
    }

    /// Like `broadcast`, but leaves out the connection the given handle is
    /// bound to: the delivery snapshot for every other subscriber.
    pub fn others(&self, client: &Client, event: &Event) -> (r: Vec<u64>)
        requires
            self.wf(),
        ensures
            forall|id: u64| #[trigger] r@.contains(id)
                <==> self.registered(id)
                    && self.subscriptions()[id].contains(event.name@)
                    && id != client.spec_id(),
            forall|p: int, q: int| 0 <= p < q < r@.len() ==> r@[p] != r@[q],
    {
        self.targets(&event.name, Some(client.id()))
    }

    /// A snapshot of the registered connections, one client handle per
    /// identity.
    pub fn clients(&self) -> (r: Vec<Client>)
        requires
            self.wf(),
        ensures
            forall|k: int| 0 <= k < r@.len() ==> self.registered(#[trigger] r@[k].spec_id()),
            forall|id: u64| self.registered(id) ==> exists|k: int|
                0 <= k < r@.len() && r@[k].spec_id() == id,
            forall|p: int, q: int|
                0 <= p < q < r@.len() ==> r@[p].spec_id() != r@[q].spec_id(),
    {
        let mut r: Vec<Client> = Vec::new();
        let mut i: usize = 0;
        while i < self.ids.len()
            invariant
                self.wf(),
                i <= self.ids@.len(),
                r@.len() == i,
                forall|k: int| 0 <= k < i ==> #[trigger] r@[k].spec_id() == self.ids@[k],
            decreases self.ids@.len() - i,
        {
            r.push(Client::bound_to(self.ids[i]));
            i += 1;
        }
        proof {
            assert forall|k: int| 0 <= k < r@.len() implies
                self.registered(#[trigger] r@[k].spec_id()) by {
                self.lemma_index(k);
            }
            assert forall|id: u64| self.registered(id) implies exists|k: int|
                0 <= k < r@.len() && r@[k].spec_id() == id by {
                let w = choose|w: int| 0 <= w < self.ids@.len() && self.ids@[w] == id;
                assert(r@[w].spec_id() == id);
            }
        }
        r
    }

    /// Folds the outcome of one transport send for `id` back into the
    /// registry. A failed write is this system's only disconnect signal, so
    /// on failure the identity is unregistered — idempotently, since the peer
    /// may race this with an explicit close — and its handle is returned for
    /// the embedding to close; on success nothing changes.
    pub fn send_result(&mut self, id: u64, delivered: bool) -> (h: Option<T>)
        requires
            old(self).wf(),
        ensures
            final(self).wf(),
            delivered ==> final(self).sessions() == old(self).sessions()
                && final(self).subscriptions() == old(self).subscriptions()
                && h is None,
            !delivered ==> final(self).sessions() == old(self).sessions().remove(id)
                && final(self).subscriptions() == old(self).subscriptions().remove(id),
            !delivered ==> !final(self).registered(id),
            !delivered && old(self).registered(id) ==> h == Some(old(self).sessions()[id]),
            !delivered && !old(self).registered(id) ==> h is None,
    {
        if delivered {
            None
        } else {
            self.unregister(id)
        }
    }

    /// Looks up the transport handle of `id`, for a send to that one
    /// connection.
    pub fn connection(&self, id: u64) -> (r: Option<&T>)
        requires
            self.wf(),
        ensures
            self.registered(id) ==> (r matches Some(c) && *c == self.sessions()[id]),
            !self.registered(id) ==> r is None,
    {
        match self.find(id) {
            None => None,
            Some(i) => {
                proof {
                    self.lemma_index(i as int);
                }
                Some(&self.conns[i])
            },
        }
    }
}

/// Idempotent unregister: removing an identity a second time is a no-op —
/// the maps stay what one removal left, no other identity's entry or
/// subscription set is touched, and a lookup of anything else still answers
/// as before.
pub proof fn lemma_unregister_idempotent<T>(sessions: Map<u64, T>, id: u64)
    ensures
        sessions.remove(id).remove(id) == sessions.remove(id),
        !sessions.remove(id).dom().contains(id),
        forall|k: u64| k != id
            ==> (sessions.remove(id).dom().contains(k) <==> sessions.dom().contains(k)),
        forall|k: u64| k != id && sessions.dom().contains(k)
            ==> sessions.remove(id)[k] == sessions[k],
{
    assert(sessions.remove(id).remove(id) =~= sessions.remove(id));
}

/// Registration atomicity: the moment a fresh identity is inserted with its
/// empty subscription set, a lookup of the session and a lookup of the
/// subscription set both succeed, and the set is empty.
pub proof fn lemma_register_atomic<T>(
    sessions: Map<u64, T>,
    subs: Map<u64, Set<Seq<char>>>,
    id: u64,
    conn: T,
)
    ensures
        sessions.insert(id, conn).dom().contains(id),
        sessions.insert(id, conn)[id] == conn,
        subs.insert(id, Set::<Seq<char>>::empty()).dom().contains(id),
        subs.insert(id, Set::<Seq<char>>::empty())[id] == Set::<Seq<char>>::empty(),
{
}

/// Subscription isolation: updates to two distinct identities' subscription
/// sets commute, and an update to one identity never changes what the other
/// maps to. Interleaved per-identity updates therefore end in the same state
/// as a sequential replay of each identity's own updates.
pub proof fn lemma_subscribe_isolation(
    subs: Map<u64, Set<Seq<char>>>,
    a: u64,
    b: u64,
    sa: Set<Seq<char>>,
    sb: Set<Seq<char>>,
)
    requires
        a != b,
    ensures
        subs.insert(a, sa).insert(b, sb) == subs.insert(b, sb).insert(a, sa),
        subs.dom().contains(b) ==> subs.insert(a, sa)[b] == subs[b],
        subs.insert(a, sa).dom().contains(b) <==> subs.dom().contains(b),
{
    assert(subs.insert(a, sa).insert(b, sb) =~= subs.insert(b, sb).insert(a, sa));
}

/// Broadcast targeting: with one connection subscribed to a topic and
/// another not subscribed to it, the delivery set of a broadcast on that
/// topic holds the first and leaves the second out.
pub proof fn lemma_broadcast_targeting(
    subs: Map<u64, Set<Seq<char>>>,
    a: u64,
    b: u64,
    topic: Seq<char>,
)
    requires
        subs.dom().contains(a),
        subs[a].contains(topic),
        !subs.dom().contains(b) || !subs[b].contains(topic),
    ensures
        delivery_targets(subs, topic).contains(a),
        !delivery_targets(subs, topic).contains(b),
{
}

/// Disconnect on send failure: once the failure path has removed an
/// identity, neither a session lookup nor a subscription lookup for it can
/// succeed any more.
pub proof fn lemma_send_failure_disconnects<T>(
    sessions: Map<u64, T>,
    subs: Map<u64, Set<Seq<char>>>,
    id: u64,
)
    ensures
        !sessions.remove(id).dom().contains(id),
        !subs.remove(id).dom().contains(id),
{
}

/// Where `topic` occurs in the subscription list, if at all.
fn find_topic(ts: &Vec<String>, topic: &String) -> (r: Option<usize>)
    ensures
        match r {
            Some(j) => j < ts@.len() && ts@[j as int]@ == topic@,
            None => !topic_set(ts@).contains(topic@),
        },
{
    let mut j: usize = 0;
    while j < ts.len()
        invariant
            j <= ts@.len(),
            forall|k: int| 0 <= k < j ==> ts@[k]@ != topic@,
        decreases ts@.len() - j,
    {
        if ts[j] == *topic {
            return Some(j);
        }
        j += 1;
    }
    proof {
        if topic_set(ts@).contains(topic@) {
            let w = choose|w: int| 0 <= w < ts@.len() && ts@[w]@ == topic@;
            assert(false);
        }
    }
    None
}

/// Whether `topic` occurs in the subscription list.
fn contains_topic(ts: &Vec<String>, topic: &String) -> (r: bool)
    ensures
        r == topic_set(ts@).contains(topic@),
{
    match find_topic(ts, topic) {
        Some(j) => {
            proof {
                assert(ts@[j as int]@ == topic@);
            }
            true
        },
        None => false,
    }
}

} // verus!
