//! The published form of a registry: one target group per service, naming
//! where to scrape it and labelling it with the service's advertised name.

use vstd::prelude::*;
use crate::registry::{RegisteredService, ServiceEntry, entry_of};

verus! {

/// The decimal digit `d` (below ten) as a character.
pub open spec fn digit_char(d: nat) -> char {
    seq!['0', '1', '2', '3', '4', '5', '6', '7', '8', '9'][d as int]
}

/// The decimal text of `n`, without leading zeros.
pub open spec fn decimal(n: nat) -> Seq<char>
    decreases n,
{
    if n < 10 {
        seq![digit_char(n)]
    } else {
        decimal(n / 10).push(digit_char(n % 10))
    }
}

/// The scrape target `"<address>:<port>"`.
pub open spec fn target_of(addr: Seq<char>, port: u16) -> Seq<char> {
    addr + seq![':'] + decimal(port as nat)
}

/// The key of the one label that a target group carries.
pub open spec fn name_key() -> Seq<char> {
    seq!['n', 'a', 'm', 'e']
}

/// One group of scrape targets, as a file-based discovery consumer reads it.
pub struct TargetGroup {
    pub targets: Vec<String>,
    pub labels: Vec<(String, String)>,
}

pub struct TargetGroupView {
    pub targets: Seq<Seq<char>>,
    pub labels: Seq<(Seq<char>, Seq<char>)>,
}

impl View for TargetGroup {
    type V = TargetGroupView;

    open spec fn view(&self) -> TargetGroupView {
        TargetGroupView {
            targets: self.targets@.map_values(|t: String| t@),
            labels: self.labels@.map_values(|l: (String, String)| (l.0@, l.1@)),
        }
    }
}

/// The group published for the service at `addr` with entry `e`.
pub open spec fn group_of(addr: Seq<char>, e: ServiceEntry) -> TargetGroupView {
    TargetGroupView { targets: seq![target_of(addr, e.port)], labels: seq![(name_key(), e.name)] }
}

pub open spec fn groups_view(gs: Seq<TargetGroup>) -> Seq<TargetGroupView> {
    gs.map_values(|g: TargetGroup| g@)
}

/// `g` is the group of some entry of `m`.
pub open spec fn is_group_in(m: Map<Seq<char>, ServiceEntry>, g: TargetGroupView) -> bool {
    exists|a: Seq<char>| m.contains_key(a) && g == group_of(a, m[a])
}

/// The group of the entry of `m` at `a` is among `gs`.
pub open spec fn is_listed(m: Map<Seq<char>, ServiceEntry>, gs: Seq<TargetGroupView>, a: Seq<char>) -> bool {
    exists|i: int| 0 <= i < gs.len() && gs[i] == group_of(a, m[a])
}

/// `gs` holds one group for each entry of `m` and nothing else, in any order.
pub open spec fn is_projection(m: Map<Seq<char>, ServiceEntry>, gs: Seq<TargetGroupView>) -> bool {
    &&& gs.len() == m.len()
    &&& forall|i: int| 0 <= i < gs.len() ==> is_group_in(m, #[trigger] gs[i])
    &&& forall|a: Seq<char>| #[trigger] m.contains_key(a) ==> is_listed(m, gs, a)
}

/// The decimal text of `n`.
pub fn decimal_text(n: u16) -> (r: String)
    ensures
        r@ == decimal(n as nat),
    decreases n,
{
    let digits: &str = "0123456789";
    proof {
        reveal_strlit("0123456789");
    }
    let d = (n % 10) as usize;
    let digit = digits.substring_char(d, d + 1);
    proof {
        assert(digit@ =~= seq![digit_char(d as nat)]);
    }
    if n < 10 {
        String::from_str(digit)
    } else {
        let mut s = decimal_text(n / 10);
        s.append(digit);
        s
    }
}

/// The scrape target for a service at `addr` listening on `port`.
pub fn target_text(addr: &String, port: u16) -> (r: String)
    ensures
        r@ == target_of(addr@, port),
{
    let colon: &str = ":";
    proof {
        reveal_strlit(":");
    }
    let port_text = decimal_text(port);
    let mut r = addr.clone();
    r.append(colon);
    r.append(port_text.as_str());
    proof {
        assert(colon@ =~= seq![':']);
    }
    r
}

/// The target group published for one registered service.
pub fn target_group(s: &RegisteredService) -> (g: TargetGroup)
    ensures
        g@ == group_of(s.addr@, entry_of(*s)),
{
    let key: &str = "name";
    proof {
        reveal_strlit("name");
    }
    let mut targets: Vec<String> = Vec::new();
    targets.push(target_text(&s.addr, s.port));
    let mut labels: Vec<(String, String)> = Vec::new();
    labels.push((String::from_str(key), s.name.clone()));
    let g = TargetGroup { targets, labels };
    proof {
        assert(key@ =~= name_key());
        assert(g@.targets =~= group_of(s.addr@, entry_of(*s)).targets);
        assert(g@.labels =~= group_of(s.addr@, entry_of(*s)).labels);
    }
    g
}

} // verus!
