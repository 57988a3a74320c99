//! The registry of live services: one entry per address, refreshed by every
//! observation and dropped once it has not been seen for the liveness timeout.

use vstd::prelude::*;
use crate::target::{
    TargetGroup, group_of, groups_view, is_group_in, is_listed, is_projection, target_group,
};

verus! {

broadcast use {vstd::map_lib::lemma_map_new_domain, vstd::map_lib::lemma_map_new_values};

/// One decoded announcement: where a service listens and the name it gives.
pub struct ServiceRecord {
    /// The address in its textual form (dotted decimal or IPv6 notation).
    pub addr: String,
    pub port: u16,
    pub name: String,
}

/// A service believed to be live, as the registry stores it.
pub struct RegisteredService {
    pub addr: String,
    pub port: u16,
    pub name: String,
    /// Milliseconds, on the aggregator's clock, of the last observation.
    pub last_seen: u64,
}

/// What the registry knows of one address.
pub struct ServiceEntry {
    pub port: u16,
    pub name: Seq<char>,
    pub last_seen: u64,
}

pub open spec fn entry_of(s: RegisteredService) -> ServiceEntry {
    ServiceEntry { port: s.port, name: s.name@, last_seen: s.last_seen }
}

/// The entry an observation of `r` at time `now` leaves behind.
pub open spec fn observed_entry(r: ServiceRecord, now: u64) -> ServiceEntry {
    ServiceEntry { port: r.port, name: r.name@, last_seen: now }
}

pub open spec fn keys_of(s: Seq<RegisteredService>) -> Seq<Seq<char>> {
    s.map_values(|x: RegisteredService| x.addr@)
}

/// The map from address to entry that a sequence of services stands for;
/// where an address occurs twice the later occurrence counts.
pub open spec fn view_of(s: Seq<RegisteredService>) -> Map<Seq<char>, ServiceEntry>
    decreases s.len(),
{
    if s.len() == 0 {
        Map::empty()
    } else {
        view_of(s.drop_last()).insert(s.last().addr@, entry_of(s.last()))
    }
}

/// The registry after one aggregation cycle: the drained records applied in
/// order at `now`, then the expiry step.
pub open spec fn after_cycle(
    m: Map<Seq<char>, ServiceEntry>,
    recs: Seq<ServiceRecord>,
    now: u64,
    timeout: u64,
) -> Map<Seq<char>, ServiceEntry> {
    expired(observed_all(m, recs, now), now, timeout)
}

/// Whether a cycle counts as a membership change: the number of addresses
/// moved when the records were applied, or when entries expired.
pub open spec fn membership_changed(
    m: Map<Seq<char>, ServiceEntry>,
    recs: Seq<ServiceRecord>,
    now: u64,
    timeout: u64,
) -> bool {
    let seen = observed_all(m, recs, now);
    m.len() != seen.len() || seen.len() != expired(seen, now, timeout).len()
}

/// An entry is live at `now` while less than `timeout` has passed since it
/// was last seen.
pub open spec fn is_live(e: ServiceEntry, now: u64, timeout: u64) -> bool {
    (now as int) - (e.last_seen as int) < timeout as int
}

/// The registry after its expiry step at `now`.
pub open spec fn expired(
    m: Map<Seq<char>, ServiceEntry>,
    now: u64,
    timeout: u64,
) -> Map<Seq<char>, ServiceEntry> {
    Map::new(|a: Seq<char>| m.contains_key(a) && is_live(m[a], now, timeout), |a: Seq<char>| m[a])
}

/// The registry after the records `recs` were applied in order at `now`.
pub open spec fn observed_all(
    m: Map<Seq<char>, ServiceEntry>,
    recs: Seq<ServiceRecord>,
    now: u64,
) -> Map<Seq<char>, ServiceEntry>
    decreases recs.len(),
{
    if recs.len() == 0 {
        m
    } else {
        observed_all(m, recs.drop_last(), now).insert(
            recs.last().addr@,
            observed_entry(recs.last(), now),
        )
    }
}

proof fn lemma_keys_drop_last(s: Seq<RegisteredService>)
    requires
        s.len() > 0,
    ensures
        keys_of(s.drop_last()) == keys_of(s).drop_last(),
        keys_of(s).no_duplicates() ==> keys_of(s.drop_last()).no_duplicates(),
{
    assert(keys_of(s.drop_last()) =~= keys_of(s).drop_last());
}

proof fn lemma_view_dom(s: Seq<RegisteredService>)
    ensures
        forall|a: Seq<char>| view_of(s).contains_key(a) <==> keys_of(s).contains(a),
    decreases s.len(),
{
    if s.len() > 0 {
        let p = s.drop_last();
        lemma_view_dom(p);
        lemma_keys_drop_last(s);
        assert forall|a: Seq<char>| view_of(s).contains_key(a) <==> keys_of(s).contains(a) by {
            if keys_of(p).contains(a) {
                let k = choose|k: int| 0 <= k < keys_of(p).len() && keys_of(p)[k] == a;
                assert(keys_of(s)[k] == a);
            }
            if keys_of(s).contains(a) {
                let k = choose|k: int| 0 <= k < keys_of(s).len() && keys_of(s)[k] == a;
                if k < p.len() {
                    assert(keys_of(p)[k] == a);
                }
            }
            assert(keys_of(s)[s.len() - 1] == s.last().addr@);
        }
    }
}

proof fn lemma_view_at(s: Seq<RegisteredService>, i: int)
    requires
        keys_of(s).no_duplicates(),
        0 <= i < s.len(),
    ensures
        view_of(s).contains_key(s[i].addr@),
        view_of(s)[s[i].addr@] == entry_of(s[i]),
    decreases s.len(),
{
    if i < s.len() - 1 {
        let p = s.drop_last();
        lemma_keys_drop_last(s);
        assert(keys_of(s)[i] != keys_of(s)[s.len() - 1]);
        lemma_view_at(p, i);
    }
}

proof fn lemma_view_index(s: Seq<RegisteredService>, a: Seq<char>) -> (i: int)
    requires
        view_of(s).contains_key(a),
    ensures
        0 <= i < s.len(),
        s[i].addr@ == a,
{
    lemma_view_dom(s);
    assert(keys_of(s).contains(a));
    let k = choose|k: int| 0 <= k < keys_of(s).len() && keys_of(s)[k] == a;
    assert(keys_of(s).len() == s.len());
    assert(keys_of(s)[k] == s[k].addr@);
    k
}

proof fn lemma_view_empty(s: Seq<RegisteredService>)
    requires
        s.len() == 0,
    ensures
        keys_of(s).no_duplicates(),
        view_of(s) == Map::<Seq<char>, ServiceEntry>::empty(),
{
}

proof fn lemma_view_push(s: Seq<RegisteredService>, x: RegisteredService)
    requires
        keys_of(s).no_duplicates(),
        !keys_of(s).contains(x.addr@),
    ensures
        keys_of(s.push(x)).no_duplicates(),
        view_of(s.push(x)) == view_of(s).insert(x.addr@, entry_of(x)),
{
    let t = s.push(x);
    assert(t.drop_last() =~= s);
    assert(keys_of(t) =~= keys_of(s).push(x.addr@));
    assert forall|i: int, j: int|
        0 <= i < keys_of(t).len() && 0 <= j < keys_of(t).len() && i != j implies keys_of(t)[i]
        != keys_of(t)[j] by {
        if i < s.len() && j < s.len() {
            assert(keys_of(s)[i] != keys_of(s)[j]);
        } else if i < s.len() {
            assert(keys_of(s)[i] == keys_of(t)[i]);
        } else if j < s.len() {
            assert(keys_of(s)[j] == keys_of(t)[j]);
        }
    }
}

proof fn lemma_view_update(s: Seq<RegisteredService>, i: int, x: RegisteredService)
    requires
        keys_of(s).no_duplicates(),
        0 <= i < s.len(),
        s[i].addr@ == x.addr@,
    ensures
        keys_of(s.update(i, x)).no_duplicates(),
        view_of(s.update(i, x)) == view_of(s).insert(x.addr@, entry_of(x)),
{
    let t = s.update(i, x);
    assert(keys_of(t) =~= keys_of(s));
    let want = view_of(s).insert(x.addr@, entry_of(x));
    lemma_view_at(s, i);
    lemma_view_dom(s);
    lemma_view_dom(t);
    assert forall|a: Seq<char>| view_of(t).contains_key(a) implies view_of(t)[a] == want[a] by {
        let j = lemma_view_index(t, a);
        lemma_view_at(t, j);
        if j != i {
            assert(t[j] == s[j]);
            assert(keys_of(s)[j] != keys_of(s)[i]);
            lemma_view_at(s, j);
        }
    }
    assert forall|a: Seq<char>| view_of(t).contains_key(a) == want.contains_key(a) by {
        assert(keys_of(t).contains(a) == keys_of(s).contains(a));
    }
    assert(view_of(t).dom() =~= want.dom());
    assert(view_of(t) =~= want);
}

proof fn lemma_view_len(s: Seq<RegisteredService>)
    requires
        keys_of(s).no_duplicates(),
    ensures
        view_of(s).dom().finite(),
        view_of(s).len() == s.len(),
    decreases s.len(),
{
    if s.len() > 0 {
        let p = s.drop_last();
        lemma_keys_drop_last(s);
        lemma_view_len(p);
        lemma_view_dom(p);
        if keys_of(p).contains(s.last().addr@) {
            let k = choose|k: int| 0 <= k < keys_of(p).len() && keys_of(p)[k] == s.last().addr@;
            assert(keys_of(s)[k] == keys_of(s)[s.len() - 1]);
        }
    }
}

proof fn lemma_prefix(s: Seq<RegisteredService>, i: int)
    requires
        keys_of(s).no_duplicates(),
        0 <= i < s.len(),
    ensures
        keys_of(s.take(i)).no_duplicates(),
        !keys_of(s.take(i)).contains(s[i].addr@),
        s.take(i + 1) == s.take(i).push(s[i]),
{
    assert(s.take(i + 1) =~= s.take(i).push(s[i]));
    assert(keys_of(s.take(i)) =~= keys_of(s).take(i));
    assert(keys_of(s)[i] == s[i].addr@);
}

impl RegisteredService {
    /// A copy of this service.
    fn duplicate(&self) -> (r: RegisteredService)
        ensures
            r == *self,
    {
        RegisteredService {
            addr: self.addr.clone(),
            port: self.port,
            name: self.name.clone(),
            last_seen: self.last_seen,
        }
    }
}

/// The services currently believed live, keyed by address.
pub struct Registry {
    services: Vec<RegisteredService>,
}

impl View for Registry {
    type V = Map<Seq<char>, ServiceEntry>;

    closed spec fn view(&self) -> Map<Seq<char>, ServiceEntry> {
        view_of(self.services@)
    }
}

impl Registry {
    /// At most one stored service per address.
    pub closed spec fn wf(&self) -> bool {
        keys_of(self.services@).no_duplicates()
    }

    /// An empty registry.
    pub fn new() -> (r: Registry)
        ensures
            r.wf(),
            r@ == Map::<Seq<char>, ServiceEntry>::empty(),
    {
        let r = Registry { services: Vec::new() };
        proof {
            lemma_view_empty(r.services@);
        }
        r
    }

    /// The number of addresses held.
    pub fn len(&self) -> (n: usize)
        requires
            self.wf(),
        ensures
            n == self@.len(),
    {
        proof {
            lemma_view_len(self.services@);
        }
        self.services.len()
    }

    /// Records an observation of `rec` at `now`: its address now maps to the
    /// record's port and name, last seen at `now`, whatever it held before.
    pub fn observe(&mut self, rec: &ServiceRecord, now: u64)
        requires
            old(self).wf(),
        ensures
            final(self).wf(),
            final(self)@ == old(self)@.insert(rec.addr@, observed_entry(*rec, now)),
    {
        let n = self.services.len();
        let mut i: usize = 0;
        while i < n
            invariant
                n == self.services.len(),
                self.services@ == old(self).services@,
                self.wf(),
                0 <= i <= n,
                forall|j: int| 0 <= j < i ==> self.services@[j].addr@ != rec.addr@,
            decreases n - i,
        {
            if self.services[i].addr.eq(&rec.addr) {
                let entry = RegisteredService {
                    addr: rec.addr.clone(),
                    port: rec.port,
                    name: rec.name.clone(),
                    last_seen: now,
                };
                proof {
                    lemma_view_update(self.services@, i as int, entry);
                }
                self.services.set(i, entry);
                return;
            }
            i += 1;
        }
        let entry = RegisteredService {
            addr: rec.addr.clone(),
            port: rec.port,
            name: rec.name.clone(),
            last_seen: now,
        };
        proof {
            if keys_of(self.services@).contains(rec.addr@) {
                let k = choose|k: int|
                    0 <= k < keys_of(self.services@).len() && keys_of(self.services@)[k]
                        == rec.addr@;
                assert(self.services@[k].addr@ == rec.addr@);
            }
            lemma_view_push(self.services@, entry);
        }
        self.services.push(entry);
    }

    /// Drops every entry that has not been seen for `timeout` or longer.
    pub fn expire(&mut self, now: u64, timeout: u64)
        requires
            old(self).wf(),
        ensures
            final(self).wf(),
            final(self)@ == expired(old(self)@, now, timeout),
    {
        let n = self.services.len();
        let mut kept: Vec<RegisteredService> = Vec::new();
        proof {
            lemma_view_empty(kept@);
            assert(view_of(self.services@.take(0)) =~= Map::<Seq<char>, ServiceEntry>::empty());
            assert(expired(Map::<Seq<char>, ServiceEntry>::empty(), now, timeout) =~= Map::<
                Seq<char>,
                ServiceEntry,
            >::empty());
        }
        let mut i: usize = 0;
        while i < n
            invariant
                n == self.services.len(),
                self.wf(),
                self.services@ == old(self).services@,
                0 <= i <= n,
                keys_of(kept@).no_duplicates(),
                view_of(kept@) == expired(view_of(self.services@.take(i as int)), now, timeout),
            decreases n - i,
        {
            let s = &self.services[i];
            let live = now < s.last_seen || now - s.last_seen < timeout;
            proof {
                let p = self.services@.take(i as int);
                lemma_prefix(self.services@, i as int);
                lemma_view_push(p, *s);
                let m = view_of(p);
                lemma_view_dom(p);
                if live {
                    assert(expired(m.insert(s.addr@, entry_of(*s)), now, timeout) =~= expired(
                        m,
                        now,
                        timeout,
                    ).insert(s.addr@, entry_of(*s)));
                    lemma_view_dom(kept@);
                    lemma_view_push(kept@, *s);
                } else {
                    assert(expired(m.insert(s.addr@, entry_of(*s)), now, timeout) =~= expired(
                        m,
                        now,
                        timeout,
                    ));
                }
            }
            if live {
                kept.push(s.duplicate());
            }
            i += 1;
        }
        proof {
            assert(self.services@.take(n as int) =~= self.services@);
        }
        self.services = kept;
    }

    /// The target groups to publish: one for each registered service.
    pub fn targets(&self) -> (r: Vec<TargetGroup>)
        requires
            self.wf(),
        ensures
            is_projection(self@, groups_view(r@)),
    {
        let n = self.services.len();
        let mut r: Vec<TargetGroup> = Vec::new();
        let mut i: usize = 0;
        while i < n
            invariant
                n == self.services.len(),
                0 <= i <= n,
                r@.len() == i,
                forall|j: int|
                    0 <= j < i ==> #[trigger] r@[j]@ == group_of(
                        self.services@[j].addr@,
                        entry_of(self.services@[j]),
                    ),
            decreases n - i,
        {
            r.push(target_group(&self.services[i]));
            i += 1;
        }
        proof {
            let m = self@;
            let gs = groups_view(r@);
            lemma_view_len(self.services@);
            assert forall|j: int| 0 <= j < gs.len() implies is_group_in(m, #[trigger] gs[j]) by {
                lemma_view_at(self.services@, j);
                assert(gs[j] == r@[j]@);
            }
            assert forall|a: Seq<char>| #[trigger] m.contains_key(a) implies is_listed(m, gs, a) by {
                let j = lemma_view_index(self.services@, a);
                lemma_view_at(self.services@, j);
                assert(gs[j] == r@[j]@);
            }
        }
        r
    }

    /// One aggregation cycle at `now`: applies the drained records in order,
    /// drops the entries not seen for `timeout`, and returns the target groups
    /// to publish when the number of addresses moved at either step.
    pub fn cycle(&mut self, drained: &Vec<ServiceRecord>, now: u64, timeout: u64) -> (published:
        Option<Vec<TargetGroup>>)
        requires
            old(self).wf(),
        ensures
            final(self).wf(),
            final(self)@ == after_cycle(old(self)@, drained@, now, timeout),
            published is Some <==> membership_changed(old(self)@, drained@, now, timeout),
            published matches Some(gs) ==> is_projection(final(self)@, groups_view(gs@)),
    {
        let start_count = self.len();
        let n = drained.len();
        let mut i: usize = 0;
        while i < n
            invariant
                n == drained@.len(),
                0 <= i <= n,
                self.wf(),
                self@ == observed_all(old(self)@, drained@.take(i as int), now),
            decreases n - i,
        {
            proof {
                assert(drained@.take(i + 1).drop_last() =~= drained@.take(i as int));
            }
            self.observe(&drained[i], now);
            i += 1;
        }
        proof {
            assert(drained@.take(n as int) =~= drained@);
        }
        let added_count = self.len();
        self.expire(now, timeout);
        let removed_count = self.len();
        if start_count != added_count || added_count != removed_count {
            Some(self.targets())
        } else {
            None
        }
    }
}

} // verus!
