//! Laws that relate several operations of the registry and its projection.

use vstd::prelude::*;
use crate::registry::{
    ServiceEntry, ServiceRecord, after_cycle, expired, is_live, membership_changed,
    observed_all, observed_entry,
};
use crate::target::{TargetGroupView, is_group_in, is_listed, is_projection};

verus! {

proof fn lemma_untouched(
    m: Map<Seq<char>, ServiceEntry>,
    recs: Seq<ServiceRecord>,
    now: u64,
    addr: Seq<char>,
)
    requires
        forall|i: int| 0 <= i < recs.len() ==> #[trigger] recs[i].addr@ != addr,
    ensures
        observed_all(m, recs, now).contains_key(addr) == m.contains_key(addr),
        m.contains_key(addr) ==> observed_all(m, recs, now)[addr] == m[addr],
    decreases recs.len(),
{
    if recs.len() > 0 {
        assert(recs.last().addr@ != addr);
        lemma_untouched(m, recs.drop_last(), now, addr);
    }
}

proof fn lemma_observed_at(m: Map<Seq<char>, ServiceEntry>, recs: Seq<ServiceRecord>, now: u64, i: int)
    requires
        0 <= i < recs.len(),
    ensures
        observed_all(m, recs, now).contains_key(recs[i].addr@),
        observed_all(m, recs, now)[recs[i].addr@].last_seen == now,
    decreases recs.len(),
{
    if i < recs.len() - 1 {
        lemma_observed_at(m, recs.drop_last(), now, i);
    }
}

/// However many records arrive for one address, the registry then holds that
/// address once, with the port and name of the last of them, and every other
/// address as it was.
pub proof fn lemma_last_record_wins(
    m: Map<Seq<char>, ServiceEntry>,
    recs: Seq<ServiceRecord>,
    now: u64,
    addr: Seq<char>,
)
    requires
        recs.len() > 0,
        forall|i: int| 0 <= i < recs.len() ==> #[trigger] recs[i].addr@ == addr,
    ensures
        observed_all(m, recs, now).contains_key(addr),
        observed_all(m, recs, now)[addr] == observed_entry(recs.last(), now),
        observed_all(m, recs, now).remove(addr) == m.remove(addr),
    decreases recs.len(),
{
    let p = recs.drop_last();
    assert(recs.last().addr@ == addr);
    if p.len() > 0 {
        assert forall|i: int| 0 <= i < p.len() implies #[trigger] p[i].addr@ == addr by {
            assert(p[i] == recs[i]);
        }
        lemma_last_record_wins(m, p, now, addr);
    }
    assert(observed_all(m, recs, now).remove(addr) =~= observed_all(m, p, now).remove(addr));
}

/// An address that no drained record names, and whose entry was last seen
/// `timeout` or more before the cycle's time, is absent after the cycle.
pub proof fn lemma_silent_address_expires(
    m: Map<Seq<char>, ServiceEntry>,
    recs: Seq<ServiceRecord>,
    now: u64,
    timeout: u64,
    addr: Seq<char>,
)
    requires
        forall|i: int| 0 <= i < recs.len() ==> #[trigger] recs[i].addr@ != addr,
        m.contains_key(addr) ==> (now as int) - (m[addr].last_seen as int) >= timeout as int,
    ensures
        !after_cycle(m, recs, now, timeout).contains_key(addr),
{
    lemma_untouched(m, recs, now, addr);
}

/// A record for an address restarts its timer: after a cycle at `seen` that
/// drains a record for it, a later cycle before `seen + timeout` that brings
/// no record for it still keeps it, as last seen at `seen`.
pub proof fn lemma_refresh_restarts_timer(
    m: Map<Seq<char>, ServiceEntry>,
    recs: Seq<ServiceRecord>,
    seen: u64,
    later: Seq<ServiceRecord>,
    now: u64,
    timeout: u64,
    addr: Seq<char>,
)
    requires
        exists|i: int| 0 <= i < recs.len() && #[trigger] recs[i].addr@ == addr,
        forall|i: int| 0 <= i < later.len() ==> #[trigger] later[i].addr@ != addr,
        timeout > 0,
        seen <= now,
        (now as int) - (seen as int) < timeout as int,
    ensures
        after_cycle(m, recs, seen, timeout).contains_key(addr),
        after_cycle(after_cycle(m, recs, seen, timeout), later, now, timeout).contains_key(addr),
        after_cycle(after_cycle(m, recs, seen, timeout), later, now, timeout)[addr].last_seen
            == seen,
{
    let i = choose|i: int| 0 <= i < recs.len() && #[trigger] recs[i].addr@ == addr;
    lemma_observed_at(m, recs, seen, i);
    let m1 = after_cycle(m, recs, seen, timeout);
    lemma_untouched(m1, later, now, addr);
}

/// The published groups depend on the registry's contents alone: any two
/// projections of one registry hold the same groups.
pub proof fn lemma_projection_is_determined(
    m: Map<Seq<char>, ServiceEntry>,
    first: Seq<TargetGroupView>,
    second: Seq<TargetGroupView>,
)
    requires
        is_projection(m, first),
        is_projection(m, second),
    ensures
        first.len() == second.len(),
        first.to_set() == second.to_set(),
{
    assert forall|g: TargetGroupView| first.to_set().contains(g) implies second.to_set().contains(
        g,
    ) by {
        let i = choose|i: int| 0 <= i < first.len() && first[i] == g;
        assert(is_group_in(m, first[i]));
        let a = choose|a: Seq<char>| m.contains_key(a) && g == crate::target::group_of(a, m[a]);
        assert(is_listed(m, second, a));
        let j = choose|j: int|
            0 <= j < second.len() && second[j] == crate::target::group_of(a, m[a]);
        assert(second[j] == g);
    }
    assert forall|g: TargetGroupView| second.to_set().contains(g) implies first.to_set().contains(
        g,
    ) by {
        let i = choose|i: int| 0 <= i < second.len() && second[i] == g;
        assert(is_group_in(m, second[i]));
        let a = choose|a: Seq<char>| m.contains_key(a) && g == crate::target::group_of(a, m[a]);
        assert(is_listed(m, first, a));
        let j = choose|j: int|
            0 <= j < first.len() && first[j] == crate::target::group_of(a, m[a]);
        assert(first[j] == g);
    }
    assert(first.to_set() =~= second.to_set());
}

/// A cycle that drains nothing while no entry is due to expire leaves the
/// registry as it was and publishes nothing; so it goes cycle after cycle.
pub proof fn lemma_empty_drain_is_idle(m: Map<Seq<char>, ServiceEntry>, now: u64, timeout: u64)
    requires
        forall|a: Seq<char>| #[trigger] m.contains_key(a) ==> is_live(m[a], now, timeout),
    ensures
        after_cycle(m, Seq::<ServiceRecord>::empty(), now, timeout) == m,
        !membership_changed(m, Seq::<ServiceRecord>::empty(), now, timeout),
{
    assert(observed_all(m, Seq::<ServiceRecord>::empty(), now) == m);
    assert(expired(m, now, timeout) =~= m);
}

} // verus!
