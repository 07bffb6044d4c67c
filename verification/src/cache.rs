//! The response cache in front of a leaf upstream.
//!
//! Responses are held under the fingerprint of the question they answer, the
//! most recently used first. A response is fresh from the moment it was
//! stored until its expiry; a stale one leaves the cache when it is looked
//! up, and the least recently used one leaves when the cache is full.

use crate::error::UpstreamError;
use crate::message::{copy_bytes, key_of, Fingerprint, Key, Message, MessageView};
use vstd::prelude::*;

verus! {

/// A cached response.
pub struct Entry {
    key: Fingerprint,
    response: Message,
    inserted_at: u64,
    expires_at: u64,
}

/// A cached response as contracts see it.
pub struct EntryView {
    /// The fingerprint it is held under.
    pub key: Key,
    /// The response, as the upstream gave it.
    pub response: MessageView,
    /// When it was stored, in seconds.
    pub inserted_at: u64,
    /// The first second at which it is stale.
    pub expires_at: u64,
}

impl View for Entry {
    type V = EntryView;

    closed spec fn view(&self) -> EntryView {
        EntryView {
            key: self.key@,
            response: self.response@,
            inserted_at: self.inserted_at,
            expires_at: self.expires_at,
        }
    }
}

/// The cache of one leaf upstream.
pub struct ResponseCache {
    entries: Vec<Entry>,
    capacity: usize,
    max_ttl: u32,
    negative_ttl: u32,
}

/// The least of `ttls`; 0 where there is none.
pub open spec fn least(ttls: Seq<u32>) -> u32
    decreases ttls.len(),
{
    if ttls.len() == 0 {
        0
    } else if ttls.len() == 1 {
        ttls[0]
    } else {
        let before = least(ttls.drop_last());
        if ttls.last() < before {
            ttls.last()
        } else {
            before
        }
    }
}

/// For how many seconds a response may be served from the cache; `None`
/// where it is not to be cached. A response with answers lives as long as
/// the shortest-lived of them, and is not cached where that is no time at
/// all. A response without answers lives for the minimum of its SOA record,
/// or for `negative_ttl` where it has none. Nothing lives longer than
/// `max_ttl`.
pub open spec fn lifetime(response: MessageView, max_ttl: u32, negative_ttl: u32) -> Option<u32> {
    if response.answer_ttls.len() > 0 {
        let ttl = least(response.answer_ttls);
        if ttl == 0 {
            None
        } else if ttl < max_ttl {
            Some(ttl)
        } else {
            Some(max_ttl)
        }
    } else {
        let ttl = match response.soa_minimum {
            Some(minimum) => minimum,
            None => negative_ttl,
        };
        if ttl < max_ttl {
            Some(ttl)
        } else {
            Some(max_ttl)
        }
    }
}

/// The first second at which a response stored at `inserted_at` is stale.
pub open spec fn expiry(inserted_at: u64, lifetime: u32) -> u64 {
    if inserted_at + lifetime > u64::MAX {
        u64::MAX
    } else {
        (inserted_at + lifetime) as u64
    }
}

/// Whether `entries` has a response under `key`.
pub open spec fn holds(entries: Seq<EntryView>, key: Key) -> bool {
    exists|i: int| 0 <= i < entries.len() && (#[trigger] entries[i]).key == key
}

/// Where `entries` has the response under `key`.
pub open spec fn slot(entries: Seq<EntryView>, key: Key) -> int
    recommends
        holds(entries, key),
{
    choose|i: int| 0 <= i < entries.len() && (#[trigger] entries[i]).key == key
}

/// No two of `entries` are held under one fingerprint.
pub open spec fn distinct_keys(entries: Seq<EntryView>) -> bool {
    forall|i: int, j: int|
        0 <= i < j < entries.len() ==> (#[trigger] entries[i]).key != (#[trigger] entries[j]).key
}

/// `entries` without the response under `key`.
pub open spec fn without(entries: Seq<EntryView>, key: Key) -> Seq<EntryView> {
    if holds(entries, key) {
        entries.remove(slot(entries, key))
    } else {
        entries
    }
}

/// The response under `key`, where `entries` has one that is fresh at `now`.
pub open spec fn hit(entries: Seq<EntryView>, key: Key, now: u64) -> Option<EntryView> {
    if holds(entries, key) && now < entries[slot(entries, key)].expires_at {
        Some(entries[slot(entries, key)])
    } else {
        None
    }
}

/// The cache after `key` was looked up at `now`: a fresh response moves to
/// the front, a stale one is gone.
pub open spec fn after_lookup(entries: Seq<EntryView>, key: Key, now: u64) -> Seq<EntryView> {
    match hit(entries, key, now) {
        Some(e) => seq![e] + without(entries, key),
        None => without(entries, key),
    }
}

/// The cache of `capacity` responses after `e` was stored: `e` is at the
/// front and replaces what was held under its fingerprint, and the least
/// recently used response has left where there was no room.
pub open spec fn after_store(entries: Seq<EntryView>, capacity: nat, e: EntryView) -> Seq<
    EntryView,
> {
    if capacity == 0 {
        entries
    } else {
        let rest = without(entries, e.key);
        if rest.len() >= capacity {
            seq![e] + rest.take(capacity - 1)
        } else {
            seq![e] + rest
        }
    }
}

/// The response that a query gets from a cached one: the cached response
/// with the query's transaction id and the query's question.
pub open spec fn answer(template: MessageView, query: MessageView) -> MessageView {
    MessageView { id: query.id, question: query.question, ..template }
}

/// The entry that `response` is stored as, for `query` at `now`.
pub open spec fn entry_for(
    query: MessageView,
    response: MessageView,
    now: u64,
    lifetime: u32,
) -> EntryView {
    EntryView {
        key: key_of(query.question),
        response,
        inserted_at: now,
        expires_at: expiry(now, lifetime),
    }
}

/// The least of `ttls`; 0 where there is none.
pub fn least_ttl(ttls: &Vec<u32>) -> (ttl: u32)
    ensures
        ttl == least(ttls@),
{
    if ttls.len() == 0 {
        return 0;
    }
    let mut ttl: u32 = ttls[0];
    let mut i: usize = 1;
    assert(ttls@.take(1).len() == 1);
    while i < ttls.len()
        invariant
            1 <= i <= ttls.len(),
            ttl == least(ttls@.take(i as int)),
        decreases ttls.len() - i,
    {
        assert(ttls@.take(i + 1).drop_last() =~= ttls@.take(i as int));
        if ttls[i] < ttl {
            ttl = ttls[i];
        }
        i += 1;
    }
    assert(ttls@.take(ttls.len() as int) =~= ttls@);
    ttl
}

/// A copy of `ttls`.
fn copy_ttls(ttls: &Vec<u32>) -> (copy: Vec<u32>)
    ensures
        copy@ == ttls@,
{
    let mut copy: Vec<u32> = Vec::new();
    let mut i: usize = 0;
    while i < ttls.len()
        invariant
            i <= ttls.len(),
            copy@ == ttls@.take(i as int),
        decreases ttls.len() - i,
    {
        copy.push(ttls[i]);
        assert(copy@ =~= ttls@.take(i + 1));
        i += 1;
    }
    assert(ttls@.take(ttls.len() as int) =~= ttls@);
    copy
}

impl Message {
    /// A copy of the message.
    pub fn duplicate(&self) -> (m: Message)
        ensures
            m@ == self@,
    {
        Message {
            id: self.id,
            flags: self.flags,
            question: self.question.duplicate(),
            answer_ttls: copy_ttls(&self.answer_ttls),
            soa_minimum: self.soa_minimum,
            sections: copy_bytes(&self.sections),
        }
    }

    /// For how long the response may be served from a cache.
    pub fn lifetime(&self, max_ttl: u32, negative_ttl: u32) -> (l: Option<u32>)
        ensures
            l == lifetime(self@, max_ttl, negative_ttl),
    {
        let ttl = if self.answer_ttls.len() > 0 {
            let ttl = least_ttl(&self.answer_ttls);
            if ttl == 0 {
                return None;
            }
            ttl
        } else {
            match self.soa_minimum {
                Some(minimum) => minimum,
                None => negative_ttl,
            }
        };
        if ttl < max_ttl {
            Some(ttl)
        } else {
            Some(max_ttl)
        }
    }
}

/// Taking out the response under a fingerprint leaves none under it, and
/// leaves the others under distinct fingerprints.
pub proof fn lemma_without_key(entries: Seq<EntryView>, key: Key)
    requires
        distinct_keys(entries),
    ensures
        !holds(without(entries, key), key),
        distinct_keys(without(entries, key)),
        without(entries, key).len() <= entries.len(),
        holds(entries, key) ==> without(entries, key).len() == entries.len() - 1,
        forall|other: Key|
            other != key ==> (holds(without(entries, key), other) <==> holds(entries, other)),
{
    let rest = without(entries, key);
    if holds(entries, key) {
        let s = slot(entries, key);
        assert forall|i: int| 0 <= i < rest.len() implies (#[trigger] rest[i]).key != key by {
            if i < s {
                assert(rest[i] == entries[i]);
            } else {
                assert(rest[i] == entries[i + 1]);
            }
        }
        assert forall|i: int, j: int| 0 <= i < j < rest.len() implies (#[trigger] rest[i]).key != (
        #[trigger] rest[j]).key by {
            let a = if i < s { i } else { i + 1 };
            let b = if j < s { j } else { j + 1 };
            assert(rest[i] == entries[a]);
            assert(rest[j] == entries[b]);
        }
        assert forall|other: Key| other != key implies (holds(rest, other) <==> holds(
            entries,
            other,
        )) by {
            if holds(rest, other) {
                let i = slot(rest, other);
                let a = if i < s { i } else { i + 1 };
                assert(rest[i] == entries[a]);
            }
            if holds(entries, other) {
                let a = slot(entries, other);
                let i = if a < s { a } else { a - 1 };
                assert(rest[i] == entries[a]);
            }
        }
    }
}

impl ResponseCache {
    /// The cached responses, the most recently used first.
    pub closed spec fn view(&self) -> Seq<EntryView> {
        self.entries@.map_values(|e: Entry| e@)
    }

    /// How many responses the cache may hold.
    pub closed spec fn capacity(&self) -> nat {
        self.capacity as nat
    }

    /// The longest that a response is served from the cache, in seconds.
    pub closed spec fn max_ttl(&self) -> u32 {
        self.max_ttl
    }

    /// For how many seconds a response without answers and without an SOA
    /// record is served from the cache.
    pub closed spec fn negative_ttl(&self) -> u32 {
        self.negative_ttl
    }

    /// No fingerprint is held twice, and the cache is not over its capacity.
    pub open spec fn wf(&self) -> bool {
        distinct_keys(self@) && self@.len() <= self.capacity()
    }

    /// Whether `other` has the settings of `self`.
    pub open spec fn same_settings(&self, other: &ResponseCache) -> bool {
        &&& self.capacity() == other.capacity()
        &&& self.max_ttl() == other.max_ttl()
        &&& self.negative_ttl() == other.negative_ttl()
    }

    /// An empty cache for `capacity` responses.
    pub fn new(capacity: usize, max_ttl: u32, negative_ttl: u32) -> (cache: ResponseCache)
        ensures
            cache.wf(),
            cache@.len() == 0,
            cache.capacity() == capacity,
            cache.max_ttl() == max_ttl,
            cache.negative_ttl() == negative_ttl,
    {
        ResponseCache { entries: Vec::new(), capacity, max_ttl, negative_ttl }
    }

    /// How many responses the cache holds.
    pub fn len(&self) -> (n: usize)
        ensures
            n == self@.len(),
    {
        self.entries.len()
    }

    fn find(&self, key: &Fingerprint) -> (found: Option<usize>)
        requires
            self.wf(),
        ensures
            match found {
                Some(i) => holds(self@, key@) && i == slot(self@, key@) && i < self.entries.len(),
                None => !holds(self@, key@),
            },
    {
        let mut i: usize = 0;
        while i < self.entries.len()
            invariant
                self.wf(),
                i <= self.entries.len(),
                forall|j: int| 0 <= j < i ==> (#[trigger] self@[j]).key != key@,
            decreases self.entries.len() - i,
        {
            if self.entries[i].key.matches(key) {
                assert(self@[i as int].key == key@);
                let ghost s = slot(self@, key@);
                assert(s == i) by {
                    if s < i {
                        assert(self@[s].key != self@[i as int].key);
                    } else if i < s {
                        assert(self@[i as int].key != self@[s].key);
                    }
                }
                return Some(i);
            }
            i += 1;
        }
        None
    }

    /// Looks up the response to `query` at `now`. Where the cache has one
    /// that is fresh, the result is that response with the query's
    /// transaction id and question, and the response becomes the most
    /// recently used. A stale response leaves the cache.
    pub fn lookup(&mut self, query: &Message, now: u64) -> (r: Option<Message>)
        requires
            old(self).wf(),
        ensures
            final(self).wf(),
            final(self).same_settings(old(self)),
            final(self)@ == after_lookup(old(self)@, key_of(query@.question), now),
            match hit(old(self)@, key_of(query@.question), now) {
                Some(e) => r is Some && r->Some_0@ == answer(e.response, query@),
                None => r is None,
            },
    {
        let key = query.question.fingerprint();
        proof {
            lemma_without_key(self@, key@);
        }
        match self.find(&key) {
            None => None,
            Some(i) => {
                let ghost before = self@;
                let e = self.entries.remove(i);
                assert(self@ =~= before.remove(i as int));
                if now < e.expires_at {
                    let r = Message {
                        id: query.id,
                        flags: e.response.flags,
                        question: query.question.duplicate(),
                        answer_ttls: copy_ttls(&e.response.answer_ttls),
                        soa_minimum: e.response.soa_minimum,
                        sections: copy_bytes(&e.response.sections),
                    };
                    let ghost rest = self@;
                    self.entries.insert(0, e);
                    assert(self@ =~= seq![before[i as int]] + rest);
                    proof {
                        lemma_front_keeps_distinct(rest, before[i as int]);
                    }
                    Some(r)
                } else {
                    None
                }
            },
        }
    }

    /// Stores `response` as the response to `query`, at `now`, for as long
    /// as `lifetime` says; a response that is not to be cached, or a cache
    /// without room for any, leaves the cache as it was.
    pub fn store(&mut self, query: &Message, response: &Message, now: u64)
        requires
            old(self).wf(),
        ensures
            final(self).wf(),
            final(self).same_settings(old(self)),
            final(self)@ == (match lifetime(
                response@,
                old(self).max_ttl(),
                old(self).negative_ttl(),
            ) {
                Some(l) => after_store(
                    old(self)@,
                    old(self).capacity(),
                    entry_for(query@, response@, now, l),
                ),
                None => old(self)@,
            }),
    {
        let l = match response.lifetime(self.max_ttl, self.negative_ttl) {
            Some(l) => l,
            None => {
                return ;
            },
        };
        if self.capacity == 0 {
            return ;
        }
        let key = query.question.fingerprint();
        let ghost before = self@;
        proof {
            lemma_without_key(before, key@);
        }
        match self.find(&key) {
            Some(i) => {
                self.entries.remove(i);
                assert(self@ =~= before.remove(i as int));
            },
            None => {},
        }
        let ghost rest = self@;
        assert(rest == without(before, key@));
        if self.entries.len() >= self.capacity {
            self.entries.truncate(self.capacity - 1);
            assert(self@ =~= rest.take(self.capacity - 1));
        }
        let ghost kept = self@;
        assert(distinct_keys(kept) && !holds(kept, key@)) by {
            assert forall|i: int| 0 <= i < kept.len() implies #[trigger] kept[i] == rest[i] by {}
        }
        let expires_at = if now > u64::MAX - (l as u64) {
            u64::MAX
        } else {
            now + l as u64
        };
        let e = Entry { key, response: response.duplicate(), inserted_at: now, expires_at };
        let ghost ev = e@;
        self.entries.insert(0, e);
        assert(self@ =~= seq![ev] + kept);
        proof {
            lemma_front_keeps_distinct(kept, ev);
        }
    }

    /// Ends the resolution of `query` after a miss, with what the client
    /// came back with at `now`: a response is stored and handed on, an error
    /// is handed on and nothing is stored.
    pub fn complete(
        &mut self,
        query: &Message,
        outcome: Result<Message, UpstreamError>,
        now: u64,
    ) -> (r: Result<Message, UpstreamError>)
        requires
            old(self).wf(),
        ensures
            final(self).wf(),
            final(self).same_settings(old(self)),
            r == outcome,
            final(self)@ == (match outcome {
                Ok(response) => match lifetime(
                    response@,
                    old(self).max_ttl(),
                    old(self).negative_ttl(),
                ) {
                    Some(l) => after_store(
                        old(self)@,
                        old(self).capacity(),
                        entry_for(query@, response@, now, l),
                    ),
                    None => old(self)@,
                },
                Err(_) => old(self)@,
            }),
    {
        match outcome {
            Ok(response) => {
                self.store(query, &response, now);
                Ok(response)
            },
            Err(e) => Err(e),
        }
    }
}

/// Putting a response in front of others that hold none under its
/// fingerprint keeps the fingerprints distinct.
pub proof fn lemma_front_keeps_distinct(rest: Seq<EntryView>, e: EntryView)
    requires
        distinct_keys(rest),
        !holds(rest, e.key),
    ensures
        distinct_keys(seq![e] + rest),
        holds(seq![e] + rest, e.key),
        slot(seq![e] + rest, e.key) == 0,
{
    let all = seq![e] + rest;
    assert forall|i: int, j: int| 0 <= i < j < all.len() implies (#[trigger] all[i]).key != (
    #[trigger] all[j]).key by {
        assert(all[j] == rest[j - 1]);
        if i > 0 {
            assert(all[i] == rest[i - 1]);
        }
    }
    assert(all[0].key == e.key);
    let s = slot(all, e.key);
    if s != 0 {
        assert(all[s] == rest[s - 1]);
    }
}

/// Whether two responses differ in nothing but the transaction id and the
/// question they echo.
pub open spec fn same_sections(a: MessageView, b: MessageView) -> bool {
    &&& a.flags == b.flags
    &&& a.answer_ttls == b.answer_ttls
    &&& a.soa_minimum == b.soa_minimum
    &&& a.sections == b.sections
}

/// What a leaf answers to `query` at `now`, and the cache it leaves behind:
/// the fresh response of its cache where there is one, and otherwise what
/// its client came back with, `reply`, which it stores where it may.
pub open spec fn resolution(
    entries: Seq<EntryView>,
    capacity: nat,
    max_ttl: u32,
    negative_ttl: u32,
    query: MessageView,
    now: u64,
    reply: Result<MessageView, crate::error::ErrorView>,
) -> (Seq<EntryView>, Result<MessageView, crate::error::ErrorView>) {
    let key = key_of(query.question);
    let looked = after_lookup(entries, key, now);
    match hit(entries, key, now) {
        Some(e) => (looked, Ok(answer(e.response, query))),
        None => match reply {
            Ok(response) => match lifetime(response, max_ttl, negative_ttl) {
                Some(l) => (
                    after_store(looked, capacity, entry_for(query, response, now, l)),
                    Ok(response),
                ),
                None => (looked, Ok(response)),
            },
            Err(e) => (looked, Err(e)),
        },
    }
}

/// A response that was stored is served, as it was stored, until its expiry.
pub proof fn lemma_stored_response_is_served(
    entries: Seq<EntryView>,
    capacity: nat,
    e: EntryView,
    later: u64,
)
    requires
        distinct_keys(entries),
        capacity > 0,
    ensures
        distinct_keys(after_store(entries, capacity, e)),
        after_store(entries, capacity, e).len() <= capacity,
        hit(after_store(entries, capacity, e), e.key, later) == (if later < e.expires_at {
            Some(e)
        } else {
            None
        }),
{
    lemma_without_key(entries, e.key);
    let rest = without(entries, e.key);
    let kept = if rest.len() >= capacity {
        rest.take(capacity - 1)
    } else {
        rest
    };
    assert(distinct_keys(kept) && !holds(kept, e.key)) by {
        assert forall|i: int| 0 <= i < kept.len() implies #[trigger] kept[i] == rest[i] by {}
    }
    lemma_front_keeps_distinct(kept, e);
}

/// A response that was served from the cache is served again, the same,
/// until its expiry.
pub proof fn lemma_hit_repeats(entries: Seq<EntryView>, key: Key, now: u64, later: u64)
    requires
        distinct_keys(entries),
        hit(entries, key, now) is Some,
    ensures
        distinct_keys(after_lookup(entries, key, now)),
        after_lookup(entries, key, now).len() == entries.len(),
        hit(after_lookup(entries, key, now), key, later) == (if later < hit(
            entries,
            key,
            now,
        )->Some_0.expires_at {
            hit(entries, key, now)
        } else {
            None
        }),
{
    lemma_without_key(entries, key);
    lemma_front_keeps_distinct(without(entries, key), hit(entries, key, now)->Some_0);
}

/// Two resolutions in a row of queries with one fingerprint, the second
/// within the fresh window of what the first left in the cache, give
/// responses that differ in nothing but the transaction id and the question
/// echoed; and the fresh window is that of the response the first one
/// served or stored.
pub proof fn lemma_consecutive_resolutions_agree(
    entries: Seq<EntryView>,
    capacity: nat,
    max_ttl: u32,
    negative_ttl: u32,
    first: MessageView,
    now: u64,
    reply: Result<MessageView, crate::error::ErrorView>,
    second: MessageView,
    later: u64,
    other_reply: Result<MessageView, crate::error::ErrorView>,
)
    requires
        distinct_keys(entries),
        key_of(first.question) == key_of(second.question),
    ensures
        ({
            let key = key_of(first.question);
            let one = resolution(entries, capacity, max_ttl, negative_ttl, first, now, reply);
            let two = resolution(
                one.0,
                capacity,
                max_ttl,
                negative_ttl,
                second,
                later,
                other_reply,
            );
            &&& distinct_keys(one.0)
            &&& hit(one.0, key, later) is Some ==> one.1 is Ok && two.1 is Ok && same_sections(
                one.1->Ok_0,
                two.1->Ok_0,
            ) && two.1->Ok_0.id == second.id && two.1->Ok_0.question == second.question
            &&& hit(one.0, key, later) is Some <==> (match hit(entries, key, now) {
                Some(e) => later < e.expires_at,
                None => match reply {
                    Ok(response) => capacity > 0 && match lifetime(
                        response,
                        max_ttl,
                        negative_ttl,
                    ) {
                        Some(l) => later < expiry(now, l),
                        None => false,
                    },
                    Err(_) => false,
                },
            })
        }),
{
    let key = key_of(first.question);
    lemma_without_key(entries, key);
    match hit(entries, key, now) {
        Some(e) => {
            lemma_hit_repeats(entries, key, now, later);
        },
        None => {
            let looked = after_lookup(entries, key, now);
            assert(looked == without(entries, key));
            lemma_without_key(looked, key);
            match reply {
                Ok(response) => {
                    match lifetime(response, max_ttl, negative_ttl) {
                        Some(l) => {
                            if capacity > 0 {
                                lemma_stored_response_is_served(
                                    looked,
                                    capacity,
                                    entry_for(first, response, now, l),
                                    later,
                                );
                            }
                        },
                        None => {},
                    }
                },
                Err(_) => {},
            }
        },
    }
}

} // verus!
