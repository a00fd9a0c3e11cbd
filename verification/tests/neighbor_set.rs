use lldp_neighbors::neighbor_set::{
    desired_neighbors, lldp_write_plan, neighbor_rows, neighbor_set_changed,
};
use lldp_neighbors::report::snapshot_from_neighbors;
use lldp_neighbors::types::{InterfaceLldp, LldpSwitchData, MachineInterfaceLldp};

fn switch(port: &str, name: &str) -> LldpSwitchData {
    LldpSwitchData {
        id: format!("{name}-id"),
        name: name.to_string(),
        description: "switch".to_string(),
        local_port: port.to_string(),
        remote_port: format!("Ethernet{port}"),
        ip_address: vec!["10.0.0.1".to_string()],
    }
}

fn row(mac: &str, s: &LldpSwitchData, updated: i64) -> MachineInterfaceLldp {
    MachineInterfaceLldp {
        machine_id: "m1".to_string(),
        local_mac_address: mac.to_string(),
        local_port: s.local_port.clone(),
        remote_port: s.remote_port.clone(),
        switch_name: s.name.clone(),
        switch_id: s.id.clone(),
        switch_description: s.description.clone(),
        switch_mgmt_ips: s.ip_address.clone(),
        updated,
    }
}

#[test]
fn equal_sets_are_unchanged() {
    let a = switch("p0", "sw1");
    let b = switch("p1", "sw2");
    let existing = vec![row("m:1", &a, 5), row("m:2", &b, 6)];
    let desired = vec![("m:1".to_string(), a.clone()), ("m:2".to_string(), b.clone())];
    assert!(!neighbor_set_changed(&existing, &desired));
}

#[test]
fn order_does_not_matter() {
    let a = switch("p0", "sw1");
    let b = switch("p1", "sw2");
    let existing = vec![row("m:2", &b, 1), row("m:1", &a, 2)];
    let desired = vec![("m:1".to_string(), a.clone()), ("m:2".to_string(), b.clone())];
    assert!(!neighbor_set_changed(&existing, &desired));
}

#[test]
fn updated_timestamp_is_ignored() {
    let a = switch("p0", "sw1");
    let existing_old = vec![row("m:1", &a, 0)];
    let existing_new = vec![row("m:1", &a, 1_700_000_000_000_000)];
    let desired = vec![("m:1".to_string(), a.clone())];
    assert!(!neighbor_set_changed(&existing_old, &desired));
    assert!(!neighbor_set_changed(&existing_new, &desired));
}

#[test]
fn different_count_is_changed() {
    let a = switch("p0", "sw1");
    let existing = vec![row("m:1", &a, 0)];
    assert!(neighbor_set_changed(&existing, &[]));
    assert!(neighbor_set_changed(&[], &[("m:1".to_string(), a.clone())]));
    assert!(!neighbor_set_changed(&[], &[]));
}

#[test]
fn each_field_counts() {
    let a = switch("p0", "sw1");
    let existing = vec![row("m:1", &a, 0)];
    let variants: Vec<LldpSwitchData> = vec![
        LldpSwitchData { local_port: "px".into(), ..a.clone() },
        LldpSwitchData { remote_port: "px".into(), ..a.clone() },
        LldpSwitchData { name: "px".into(), ..a.clone() },
        LldpSwitchData { id: "px".into(), ..a.clone() },
        LldpSwitchData { description: "px".into(), ..a.clone() },
        LldpSwitchData { ip_address: vec![], ..a.clone() },
        LldpSwitchData { ip_address: vec!["10.0.0.2".into()], ..a.clone() },
    ];
    for v in variants {
        assert!(neighbor_set_changed(&existing, &[("m:1".to_string(), v)]));
    }
}

#[test]
fn moved_neighbor_is_changed() {
    let a = switch("p0", "sw1");
    let existing = vec![row("m:1", &a, 0)];
    assert!(neighbor_set_changed(&existing, &[("m:9".to_string(), a.clone())]));
}

#[test]
fn duplicate_mac_uses_last_entry() {
    let a = switch("p0", "sw1");
    let b = switch("p1", "sw2");
    // Both sides have two entries; the maps keep the last one per MAC.
    let existing = vec![row("m:1", &a, 0), row("m:1", &b, 0)];
    let desired_same = vec![("m:1".to_string(), b.clone()), ("m:1".to_string(), b.clone())];
    let desired_other = vec![("m:1".to_string(), b.clone()), ("m:1".to_string(), a.clone())];
    assert!(!neighbor_set_changed(&existing, &desired_same));
    assert!(neighbor_set_changed(&existing, &desired_other));
}

#[test]
fn interfaces_without_neighbor_are_omitted() {
    let a = switch("p0", "sw1");
    let interfaces = vec![
        InterfaceLldp { mac_address: "m:1".into(), lldp: Some(a.clone()) },
        InterfaceLldp { mac_address: "m:2".into(), lldp: None },
        InterfaceLldp { mac_address: "m:3".into(), lldp: Some(LldpSwitchData::default()) },
    ];
    let desired = desired_neighbors(&interfaces);
    assert_eq!(
        desired,
        vec![("m:1".to_string(), a), ("m:3".to_string(), LldpSwitchData::default())]
    );
}

#[test]
fn write_plan_skips_unchanged_and_replaces_changed() {
    let a = switch("p0", "sw1");
    let interfaces = vec![
        InterfaceLldp { mac_address: "m:1".into(), lldp: Some(a.clone()) },
        InterfaceLldp { mac_address: "m:2".into(), lldp: None },
    ];
    let stored = vec![row("m:1", &a, 3)];
    assert_eq!(lldp_write_plan(&interfaces, &stored), None);
    assert_eq!(
        lldp_write_plan(&interfaces, &[]),
        Some(vec![("m:1".to_string(), a.clone())])
    );
    // All neighbors gone: the stored row is replaced by nothing.
    let gone = vec![InterfaceLldp { mac_address: "m:1".into(), lldp: None }];
    assert_eq!(lldp_write_plan(&gone, &stored), Some(vec![]));
}

#[test]
fn written_rows_match_the_report() {
    let a = switch("p0", "sw1");
    let b = switch("p1", "sw2");
    let interfaces = vec![
        InterfaceLldp { mac_address: "m:1".into(), lldp: Some(a.clone()) },
        InterfaceLldp { mac_address: "m:2".into(), lldp: Some(b.clone()) },
    ];
    let plan = lldp_write_plan(&interfaces, &[]).expect("a first report is a change");
    let rows = neighbor_rows(&"m1".to_string(), &plan, 42);
    assert_eq!(rows, vec![row("m:1", &a, 42), row("m:2", &b, 42)]);
    assert_eq!(lldp_write_plan(&interfaces, &rows), None);
}

#[test]
fn collected_snapshot_reports_collected_neighbors() {
    let a = switch("p0", "sw1");
    let b = switch("p1", "sw2");
    let collected = vec![("m:1".to_string(), a.clone()), ("m:2".to_string(), b.clone())];
    let snapshot = snapshot_from_neighbors(&collected);
    assert_eq!(
        snapshot,
        vec![
            InterfaceLldp { mac_address: "m:1".into(), lldp: Some(a) },
            InterfaceLldp { mac_address: "m:2".into(), lldp: Some(b) },
        ]
    );
    assert_eq!(desired_neighbors(&snapshot), collected);
    assert!(snapshot_from_neighbors(&[]).is_empty());
}
