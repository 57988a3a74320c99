use mdns_targets::config::{LIVENESS_TIMEOUT_MS, POLL_INTERVAL_MS};
use mdns_targets::registry::{Registry, ServiceRecord};
use mdns_targets::target::{decimal_text, target_text, TargetGroup};

fn record(addr: &str, port: u16, name: &str) -> ServiceRecord {
    ServiceRecord { addr: addr.to_string(), port, name: name.to_string() }
}

fn summary(groups: &[TargetGroup]) -> Vec<(String, String, String)> {
    let mut out: Vec<(String, String, String)> = groups
        .iter()
        .map(|g| {
            assert_eq!(g.targets.len(), 1);
            assert_eq!(g.labels.len(), 1);
            (g.targets[0].clone(), g.labels[0].0.clone(), g.labels[0].1.clone())
        })
        .collect();
    out.sort();
    out
}

#[test]
fn no_observations_publish_nothing() {
    let mut reg = Registry::new();
    for k in 0..10u64 {
        assert!(reg.cycle(&vec![], k * POLL_INTERVAL_MS, LIVENESS_TIMEOUT_MS).is_none());
    }
    assert_eq!(reg.len(), 0);
    assert!(reg.targets().is_empty());
}

#[test]
fn single_service_published_then_expired() {
    let mut reg = Registry::new();
    let first = reg
        .cycle(&vec![record("10.0.0.5", 9100, "node1")], 0, LIVENESS_TIMEOUT_MS)
        .expect("first cycle publishes");
    assert_eq!(
        summary(&first),
        vec![("10.0.0.5:9100".to_string(), "name".to_string(), "node1".to_string())]
    );
    let mut published = vec![first];
    for k in 1..8u64 {
        if let Some(groups) = reg.cycle(&vec![], k * POLL_INTERVAL_MS, LIVENESS_TIMEOUT_MS) {
            published.push(groups);
        }
    }
    assert_eq!(published.len(), 2);
    assert!(published[1].is_empty());
    assert_eq!(reg.len(), 0);
}

#[test]
fn two_services_batched_in_one_publication() {
    let mut reg = Registry::new();
    let drained = vec![record("10.0.0.5", 9100, "node1"), record("10.0.0.6", 9100, "node2")];
    let groups = reg.cycle(&drained, 0, LIVENESS_TIMEOUT_MS).expect("publishes once");
    assert_eq!(
        summary(&groups),
        vec![
            ("10.0.0.5:9100".to_string(), "name".to_string(), "node1".to_string()),
            ("10.0.0.6:9100".to_string(), "name".to_string(), "node2".to_string()),
        ]
    );
    assert!(reg.cycle(&vec![], POLL_INTERVAL_MS, LIVENESS_TIMEOUT_MS).is_none());
}

#[test]
fn empty_drains_are_idle() {
    let mut reg = Registry::new();
    assert!(reg.cycle(&vec![record("10.0.0.5", 9100, "node1")], 0, LIVENESS_TIMEOUT_MS).is_some());
    for now in [1000u64, 15000, 30000, 45000, 59999] {
        assert!(reg.cycle(&vec![], now, LIVENESS_TIMEOUT_MS).is_none());
        assert_eq!(reg.len(), 1);
    }
}

#[test]
fn repeated_records_keep_the_last() {
    let mut reg = Registry::new();
    let drained = vec![
        record("10.0.0.5", 9100, "a"),
        record("10.0.0.5", 9200, "b"),
        record("10.0.0.5", 9300, "c"),
    ];
    let groups = reg.cycle(&drained, 0, LIVENESS_TIMEOUT_MS).expect("publishes");
    assert_eq!(
        summary(&groups),
        vec![("10.0.0.5:9300".to_string(), "name".to_string(), "c".to_string())]
    );
    assert_eq!(reg.len(), 1);
}

#[test]
fn replacement_without_size_change_is_not_published() {
    let mut reg = Registry::new();
    assert!(reg.cycle(&vec![record("10.0.0.5", 9100, "a")], 0, LIVENESS_TIMEOUT_MS).is_some());
    assert!(reg.cycle(&vec![record("10.0.0.5", 9200, "b")], 15000, LIVENESS_TIMEOUT_MS).is_none());
    assert_eq!(
        summary(&reg.targets()),
        vec![("10.0.0.5:9200".to_string(), "name".to_string(), "b".to_string())]
    );
}

#[test]
fn silent_address_expires_at_timeout() {
    let mut reg = Registry::new();
    assert!(reg.cycle(&vec![record("10.0.0.5", 9100, "a")], 0, LIVENESS_TIMEOUT_MS).is_some());
    assert!(reg.cycle(&vec![], 59999, LIVENESS_TIMEOUT_MS).is_none());
    let groups = reg.cycle(&vec![], 60000, LIVENESS_TIMEOUT_MS).expect("expiry publishes");
    assert!(groups.is_empty());
}

#[test]
fn refresh_restarts_timer() {
    let mut reg = Registry::new();
    assert!(reg.cycle(&vec![record("10.0.0.5", 9100, "a")], 0, LIVENESS_TIMEOUT_MS).is_some());
    assert!(reg.cycle(&vec![record("10.0.0.5", 9100, "a")], 50000, LIVENESS_TIMEOUT_MS).is_none());
    assert!(reg.cycle(&vec![], 60000, LIVENESS_TIMEOUT_MS).is_none());
    assert_eq!(reg.len(), 1);
    assert!(reg.cycle(&vec![], 109999, LIVENESS_TIMEOUT_MS).is_none());
    let groups = reg.cycle(&vec![], 110000, LIVENESS_TIMEOUT_MS).expect("expiry publishes");
    assert!(groups.is_empty());
}

#[test]
fn expiry_and_arrival_in_one_cycle() {
    let mut reg = Registry::new();
    assert!(reg.cycle(&vec![record("10.0.0.5", 9100, "a")], 0, LIVENESS_TIMEOUT_MS).is_some());
    let groups = reg
        .cycle(&vec![record("10.0.0.6", 9100, "b")], 60000, LIVENESS_TIMEOUT_MS)
        .expect("size moved at both steps");
    assert_eq!(
        summary(&groups),
        vec![("10.0.0.6:9100".to_string(), "name".to_string(), "b".to_string())]
    );
}

#[test]
fn projection_depends_on_contents_only() {
    let mut one = Registry::new();
    one.observe(&record("10.0.0.5", 9100, "a"), 5);
    one.observe(&record("fe80::1", 80, "b"), 5);
    let mut two = Registry::new();
    two.observe(&record("fe80::1", 80, "b"), 5);
    two.observe(&record("10.0.0.5", 9100, "a"), 5);
    assert_eq!(summary(&one.targets()), summary(&two.targets()));
    assert_eq!(summary(&one.targets()), summary(&one.targets()));
}

#[test]
fn observe_and_expire_directly() {
    let mut reg = Registry::new();
    reg.observe(&record("10.0.0.1", 1, "x"), 100);
    reg.observe(&record("10.0.0.2", 2, "y"), 200);
    reg.observe(&record("10.0.0.1", 3, "z"), 300);
    assert_eq!(reg.len(), 2);
    reg.expire(259, 60);
    assert_eq!(reg.len(), 2);
    reg.expire(260, 60);
    assert_eq!(
        summary(&reg.targets()),
        vec![("10.0.0.1:3".to_string(), "name".to_string(), "z".to_string())]
    );
    reg.expire(360, 60);
    assert_eq!(reg.len(), 0);
}

#[test]
fn entry_seen_after_now_is_kept() {
    let mut reg = Registry::new();
    reg.observe(&record("10.0.0.1", 1, "x"), 500);
    reg.expire(100, 60);
    assert_eq!(reg.len(), 1);
}

#[test]
fn decimal_and_target_text() {
    assert_eq!(decimal_text(0), "0");
    assert_eq!(decimal_text(7), "7");
    assert_eq!(decimal_text(10), "10");
    assert_eq!(decimal_text(9100), "9100");
    assert_eq!(decimal_text(65535), "65535");
    assert_eq!(target_text(&"10.0.0.5".to_string(), 9100), "10.0.0.5:9100");
    assert_eq!(target_text(&"fe80::1".to_string(), 80), "fe80::1:80");
}
