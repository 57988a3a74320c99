//! Decoding of announcement responses: a response yields a service record
//! when it answers for the wanted service type and carries an address, a port
//! and a name.

use vstd::prelude::*;
use crate::registry::ServiceRecord;
use crate::target::name_key;

verus! {

/// What a record of an announcement response carries, as far as decoding
/// reads it. Addresses are held in their textual form.
pub enum RecordKind {
    A(String),
    Aaaa(String),
    Srv { port: u16 },
    Txt(Vec<String>),
    Other,
}

/// One record of an announcement response.
pub struct Record {
    pub name: String,
    pub kind: RecordKind,
}

pub open spec fn opt_text(r: Option<String>) -> Option<Seq<char>> {
    match r {
        Some(s) => Some(s@),
        None => None,
    }
}

/// `needle` occurs in `hay` as a run of consecutive characters.
pub open spec fn is_infix(needle: Seq<char>, hay: Seq<char>) -> bool {
    exists|i: int|
        0 <= i && i + needle.len() <= hay.len() && #[trigger] hay.subrange(i, i + needle.len())
            == needle
}

pub open spec fn address_of(r: Record) -> Option<Seq<char>> {
    match r.kind {
        RecordKind::A(a) => Some(a@),
        RecordKind::Aaaa(a) => Some(a@),
        _ => None,
    }
}

pub open spec fn port_of(r: Record, service_type: Seq<char>) -> Option<u16> {
    match r.kind {
        RecordKind::Srv { port } => if is_infix(service_type, r.name@) {
            Some(port)
        } else {
            None
        },
        _ => None,
    }
}

/// The value of a `name=<value>` pair, split at its first `=`.
pub open spec fn name_value(e: Seq<char>) -> Option<Seq<char>> {
    if e.len() >= 5 && e.take(4) == name_key() && e[4] == '=' {
        Some(e.skip(5))
    } else {
        None
    }
}

pub open spec fn first_name_value(es: Seq<String>) -> Option<Seq<char>>
    decreases es.len(),
{
    if es.len() == 0 {
        None
    } else if name_value(es[0]@) is Some {
        name_value(es[0]@)
    } else {
        first_name_value(es.drop_first())
    }
}

pub open spec fn name_of(r: Record) -> Option<Seq<char>> {
    match r.kind {
        RecordKind::Txt(es) => first_name_value(es@),
        _ => None,
    }
}

pub open spec fn first_address(rs: Seq<Record>) -> Option<Seq<char>>
    decreases rs.len(),
{
    if rs.len() == 0 {
        None
    } else if address_of(rs[0]) is Some {
        address_of(rs[0])
    } else {
        first_address(rs.drop_first())
    }
}

pub open spec fn first_port(rs: Seq<Record>, service_type: Seq<char>) -> Option<u16>
    decreases rs.len(),
{
    if rs.len() == 0 {
        None
    } else if port_of(rs[0], service_type) is Some {
        port_of(rs[0], service_type)
    } else {
        first_port(rs.drop_first(), service_type)
    }
}

pub open spec fn first_name(rs: Seq<Record>) -> Option<Seq<char>>
    decreases rs.len(),
{
    if rs.len() == 0 {
        None
    } else if name_of(rs[0]) is Some {
        name_of(rs[0])
    } else {
        first_name(rs.drop_first())
    }
}

/// Some record of the response is named exactly after the service type.
pub open spec fn answers_for(rs: Seq<Record>, service_type: Seq<char>) -> bool {
    exists|i: int| 0 <= i < rs.len() && #[trigger] rs[i].name@ == service_type
}

/// The address, port and name a response decodes to, if any.
pub open spec fn decoded(rs: Seq<Record>, service_type: Seq<char>) -> Option<
    (Seq<char>, u16, Seq<char>),
> {
    if !answers_for(rs, service_type) {
        None
    } else {
        match (first_address(rs), first_port(rs, service_type), first_name(rs)) {
            (Some(a), Some(p), Some(n)) => Some((a, p, n)),
            _ => None,
        }
    }
}

pub open spec fn record_view(r: Option<ServiceRecord>) -> Option<(Seq<char>, u16, Seq<char>)> {
    match r {
        Some(s) => Some((s.addr@, s.port, s.name@)),
        None => None,
    }
}

/// Relies on str::contains: whether `needle` occurs in `hay` as a substring.
#[verifier::external_body]
fn str_contains(hay: &str, needle: &str) -> (r: bool)
    ensures
        r == is_infix(needle@, hay@),
{
    hay.contains(needle)
}

/// The address an address record carries.
pub fn to_ip_addr(record: &Record) -> (r: Option<String>)
    ensures
        opt_text(r) == address_of(*record),
{
    match &record.kind {
        RecordKind::A(a) => Some(a.clone()),
        RecordKind::Aaaa(a) => Some(a.clone()),
        _ => None,
    }
}

/// The port a service-location record for `service_type` carries.
pub fn to_port(record: &Record, service_type: &str) -> (r: Option<u16>)
    ensures
        r == port_of(*record, service_type@),
{
    match &record.kind {
        RecordKind::Srv { port } => {
            if str_contains(record.name.as_str(), service_type) {
                Some(*port)
            } else {
                None
            }
        },
        _ => None,
    }
}

/// The value of `pair` when it reads `name=<value>`.
pub fn name_pair_value(pair: &String) -> (r: Option<String>)
    ensures
        opt_text(r) == name_value(pair@),
{
    let s = pair.as_str();
    let len = s.unicode_len();
    if len >= 5 && s.get_char(0) == 'n' && s.get_char(1) == 'a' && s.get_char(2) == 'm'
        && s.get_char(3) == 'e' && s.get_char(4) == '=' {
        proof {
            assert(pair@.take(4) =~= name_key());
        }
        let v = s.substring_char(5, len);
        proof {
            assert(v@ =~= pair@.skip(5));
        }
        Some(String::from_str(v))
    } else {
        proof {
            if len >= 5 && pair@.take(4) == name_key() {
                assert(pair@[0] == pair@.take(4)[0]);
                assert(pair@[1] == pair@.take(4)[1]);
                assert(pair@[2] == pair@.take(4)[2]);
                assert(pair@[3] == pair@.take(4)[3]);
            }
        }
        None
    }
}

/// The name that a text record gives: the value of its first `name=` pair.
pub fn to_name(record: &Record) -> (r: Option<String>)
    ensures
        opt_text(r) == name_of(*record),
{
    match &record.kind {
        RecordKind::Txt(pairs) => {
            let n = pairs.len();
            let mut i: usize = 0;
            proof {
                assert(pairs@.skip(0) =~= pairs@);
            }
            while i < n
                invariant
                    n == pairs@.len(),
                    0 <= i <= n,
                    name_of(*record) == first_name_value(pairs@),
                    first_name_value(pairs@) == first_name_value(pairs@.skip(i as int)),
                decreases n - i,
            {
                proof {
                    assert(pairs@.skip(i as int).drop_first() =~= pairs@.skip(i + 1));
                    assert(pairs@.skip(i as int)[0] == pairs@[i as int]);
                }
                let v = name_pair_value(&pairs[i]);
                if v.is_some() {
                    return v;
                }
                i += 1;
            }
            proof {
                assert(pairs@.skip(n as int).len() == 0);
            }
            None
        },
        _ => None,
    }
}

fn find_address(records: &Vec<Record>) -> (r: Option<String>)
    ensures
        opt_text(r) == first_address(records@),
{
    let n = records.len();
    let mut i: usize = 0;
    proof {
        assert(records@.skip(0) =~= records@);
    }
    while i < n
        invariant
            n == records@.len(),
            0 <= i <= n,
            first_address(records@) == first_address(records@.skip(i as int)),
        decreases n - i,
    {
        proof {
            assert(records@.skip(i as int).drop_first() =~= records@.skip(i + 1));
            assert(records@.skip(i as int)[0] == records@[i as int]);
        }
        let a = to_ip_addr(&records[i]);
        if a.is_some() {
            return a;
        }
        i += 1;
    }
    None
}

fn find_port(records: &Vec<Record>, service_type: &str) -> (r: Option<u16>)
    ensures
        r == first_port(records@, service_type@),
{
    let n = records.len();
    let mut i: usize = 0;
    proof {
        assert(records@.skip(0) =~= records@);
    }
    while i < n
        invariant
            n == records@.len(),
            0 <= i <= n,
            first_port(records@, service_type@) == first_port(
                records@.skip(i as int),
                service_type@,
            ),
        decreases n - i,
    {
        proof {
            assert(records@.skip(i as int).drop_first() =~= records@.skip(i + 1));
            assert(records@.skip(i as int)[0] == records@[i as int]);
        }
        let p = to_port(&records[i], service_type);
        if p.is_some() {
            return p;
        }
        i += 1;
    }
    None
}

fn find_name(records: &Vec<Record>) -> (r: Option<String>)
    ensures
        opt_text(r) == first_name(records@),
{
    let n = records.len();
    let mut i: usize = 0;
    proof {
        assert(records@.skip(0) =~= records@);
    }
    while i < n
        invariant
            n == records@.len(),
            0 <= i <= n,
            first_name(records@) == first_name(records@.skip(i as int)),
        decreases n - i,
    {
        proof {
            assert(records@.skip(i as int).drop_first() =~= records@.skip(i + 1));
            assert(records@.skip(i as int)[0] == records@[i as int]);
        }
        let v = to_name(&records[i]);
        if v.is_some() {
            return v;
        }
        i += 1;
    }
    None
}

fn has_record_named(records: &Vec<Record>, service_type: &str) -> (r: bool)
    ensures
        r == answers_for(records@, service_type@),
{
    let wanted = String::from_str(service_type);
    let n = records.len();
    let mut i: usize = 0;
    while i < n
        invariant
            n == records@.len(),
            0 <= i <= n,
            wanted@ == service_type@,
            forall|j: int| 0 <= j < i ==> records@[j].name@ != service_type@,
        decreases n - i,
    {
        if records[i].name.eq(&wanted) {
            return true;
        }
        i += 1;
    }
    false
}

/// Decodes one announcement response: a record when the response answers
/// for `service_type` and carries an address, a port for that service type
/// and a name, each taken from the first record that has one.
pub fn decode(records: &Vec<Record>, service_type: &str) -> (r: Option<ServiceRecord>)
    ensures
        record_view(r) == decoded(records@, service_type@),
{
    if !has_record_named(records, service_type) {
        return None;
    }
    let addr = find_address(records);
    let port = find_port(records, service_type);
    let name = find_name(records);
    match (addr, port, name) {
        (Some(addr), Some(port), Some(name)) => Some(ServiceRecord { addr, port, name }),
        _ => None,
    }
}

} // verus!
