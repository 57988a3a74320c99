use mdns_targets::config::SERVICE_TYPE;
use mdns_targets::decode::{decode, name_pair_value, to_name, to_port, Record, RecordKind};
use mdns_targets::registry::Registry;

fn rec(name: &str, kind: RecordKind) -> Record {
    Record { name: name.to_string(), kind }
}

fn srv_name() -> String {
    format!("node1.{}", SERVICE_TYPE)
}

fn txt(pairs: &[&str]) -> RecordKind {
    RecordKind::Txt(pairs.iter().map(|p| p.to_string()).collect())
}

fn full_response() -> Vec<Record> {
    vec![
        rec(SERVICE_TYPE, RecordKind::Other),
        rec(&srv_name(), RecordKind::Srv { port: 9100 }),
        rec(&srv_name(), txt(&["path=/metrics", "name=node1"])),
        rec("node1.local", RecordKind::A("10.0.0.5".to_string())),
    ]
}

#[test]
fn decodes_a_complete_response() {
    let r = decode(&full_response(), SERVICE_TYPE).expect("decodes");
    assert_eq!(r.addr, "10.0.0.5");
    assert_eq!(r.port, 9100);
    assert_eq!(r.name, "node1");
}

#[test]
fn other_service_type_is_ignored() {
    let mut rs = full_response();
    rs[0] = rec("_http._tcp.local", RecordKind::Other);
    assert!(decode(&rs, SERVICE_TYPE).is_none());
}

#[test]
fn missing_port_is_a_miss_and_changes_nothing() {
    let rs: Vec<Record> = full_response()
        .into_iter()
        .filter(|r| !matches!(r.kind, RecordKind::Srv { .. }))
        .collect();
    assert!(decode(&rs, SERVICE_TYPE).is_none());
    let mut reg = Registry::new();
    assert!(reg.cycle(&vec![], 0, 60000).is_none());
    assert_eq!(reg.len(), 0);
}

#[test]
fn missing_address_or_name_is_a_miss() {
    let no_addr: Vec<Record> =
        full_response().into_iter().filter(|r| !matches!(r.kind, RecordKind::A(_))).collect();
    assert!(decode(&no_addr, SERVICE_TYPE).is_none());
    let no_name: Vec<Record> =
        full_response().into_iter().filter(|r| !matches!(r.kind, RecordKind::Txt(_))).collect();
    assert!(decode(&no_name, SERVICE_TYPE).is_none());
}

#[test]
fn first_address_wins() {
    let mut rs = full_response();
    rs.insert(1, rec("node1.local", RecordKind::Aaaa("fe80::1".to_string())));
    let r = decode(&rs, SERVICE_TYPE).expect("decodes");
    assert_eq!(r.addr, "fe80::1");
}

#[test]
fn port_needs_service_type_in_owner_name() {
    assert_eq!(to_port(&rec("other.local", RecordKind::Srv { port: 1 }), SERVICE_TYPE), None);
    assert_eq!(to_port(&rec(&srv_name(), RecordKind::Srv { port: 2 }), SERVICE_TYPE), Some(2));
    assert_eq!(to_port(&rec(&srv_name(), RecordKind::Other), SERVICE_TYPE), None);
    let mut rs = full_response();
    rs.insert(1, rec("other.local", RecordKind::Srv { port: 1 }));
    assert_eq!(decode(&rs, SERVICE_TYPE).expect("decodes").port, 9100);
}

#[test]
fn name_pairs_split_at_first_equals() {
    assert_eq!(name_pair_value(&"name=node1".to_string()), Some("node1".to_string()));
    assert_eq!(name_pair_value(&"name=a=b".to_string()), Some("a=b".to_string()));
    assert_eq!(name_pair_value(&"name=".to_string()), Some(String::new()));
    assert_eq!(name_pair_value(&"name".to_string()), None);
    assert_eq!(name_pair_value(&"names=x".to_string()), None);
    assert_eq!(name_pair_value(&"nick=x".to_string()), None);
}

#[test]
fn first_name_pair_wins() {
    let r = rec(&srv_name(), txt(&["a=1", "name=first", "name=second"]));
    assert_eq!(to_name(&r), Some("first".to_string()));
    assert_eq!(to_name(&rec(&srv_name(), txt(&["a=1"]))), None);
    let mut rs = full_response();
    rs.insert(1, rec(&srv_name(), txt(&["name=early"])));
    assert_eq!(decode(&rs, SERVICE_TYPE).expect("decodes").name, "early");
}
