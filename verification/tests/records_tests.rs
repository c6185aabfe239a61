use lan_scan::hosts::build_host_infos;
use lan_scan::ports::build_port_records;
use lan_scan::report::{Address, HostEntry, OSMatch, Port, ScanReport, State, Status};

fn addr(a: &str, t: &str, v: Option<&str>) -> Address {
    Address { addr: a.to_string(), addrtype: t.to_string(), vendor: v.map(|s| s.to_string()) }
}

fn bare_host(status: Option<Status>, address: Vec<Address>) -> HostEntry {
    HostEntry { status, address, ports: None, os: None }
}

fn port(protocol: &str, portid: &str) -> Port {
    Port {
        protocol: protocol.to_string(),
        portid: portid.to_string(),
        state: State { state: "open".to_string(), reason: "syn-ack".to_string() },
        service: None,
        script: Vec::new(),
    }
}

fn osmatch(name: &str) -> OSMatch {
    OSMatch { name: name.to_string(), osclass: Vec::new() }
}

#[test]
fn one_record_per_host_entry() {
    let report = ScanReport {
        hosts: vec![
            bare_host(None, Vec::new()),
            bare_host(None, vec![addr("10.0.0.1", "ipv4", None)]),
            bare_host(
                Some(Status { state: "up".to_string(), reason: "echo-reply".to_string() }),
                Vec::new(),
            ),
        ],
    };
    let infos = build_host_infos(&report);
    assert_eq!(infos.len(), 3);
}

#[test]
fn missing_status_yields_blank_state_and_reason() {
    let report = ScanReport { hosts: vec![bare_host(None, vec![addr("10.0.0.1", "ipv4", None)])] };
    let infos = build_host_infos(&report);
    assert_eq!(infos[0].state, "");
    assert_eq!(infos[0].reason, "");
    assert_eq!(infos[0].ip_address, "10.0.0.1");
}

#[test]
fn status_fields_carry_over() {
    let report = ScanReport {
        hosts: vec![bare_host(
            Some(Status { state: "up".to_string(), reason: "arp-response".to_string() }),
            Vec::new(),
        )],
    };
    let infos = build_host_infos(&report);
    assert_eq!(infos[0].state, "up");
    assert_eq!(infos[0].reason, "arp-response");
    assert_eq!(infos[0].ip_address, "");
    assert_eq!(infos[0].mac_address, "");
    assert_eq!(infos[0].vendor, "");
}

#[test]
fn last_non_mac_address_wins() {
    let report = ScanReport {
        hosts: vec![bare_host(
            None,
            vec![
                addr("10.0.0.5", "ipv4", None),
                addr("aa:bb:cc:dd:ee:ff", "mac", Some("Acme")),
                addr("10.0.0.6", "ipv4", None),
            ],
        )],
    };
    let infos = build_host_infos(&report);
    assert_eq!(infos[0].ip_address, "10.0.0.6");
    assert_eq!(infos[0].mac_address, "aa:bb:cc:dd:ee:ff");
    assert_eq!(infos[0].vendor, "Acme");
}

#[test]
fn mac_without_vendor_yields_blank_vendor() {
    let report = ScanReport {
        hosts: vec![bare_host(None, vec![addr("aa:bb:cc:dd:ee:ff", "mac", None)])],
    };
    let infos = build_host_infos(&report);
    assert_eq!(infos[0].mac_address, "aa:bb:cc:dd:ee:ff");
    assert_eq!(infos[0].vendor, "");
    assert_eq!(infos[0].ip_address, "");
}

#[test]
fn ports_and_os_matches_flattened_in_order() {
    let h1 = HostEntry {
        status: None,
        address: Vec::new(),
        ports: Some(vec![port("tcp", "22"), port("tcp", "80")]),
        os: Some(vec![osmatch("Linux 5.X")]),
    };
    let h2 = HostEntry {
        status: None,
        address: Vec::new(),
        ports: None,
        os: Some(vec![osmatch("OpenBSD 7.X")]),
    };
    let (ports, oss) = build_port_records(ScanReport { hosts: vec![h1, h2] });
    assert_eq!(ports.len(), 2);
    assert_eq!(ports[0].portid, "22");
    assert_eq!(ports[1].portid, "80");
    assert_eq!(oss.len(), 2);
    assert_eq!(oss[0].name, "Linux 5.X");
    assert_eq!(oss[1].name, "OpenBSD 7.X");
}

#[test]
fn empty_report_yields_empty_lists() {
    let (ports, oss) = build_port_records(ScanReport { hosts: Vec::new() });
    assert_eq!(ports.len(), 0);
    assert_eq!(oss.len(), 0);
    let infos = build_host_infos(&ScanReport { hosts: Vec::new() });
    assert_eq!(infos.len(), 0);
}
