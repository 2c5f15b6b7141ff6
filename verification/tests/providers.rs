use std::path::PathBuf;

use vultr_provider_matrix::aggregate::{process_lines, FileResult, Line};
use vultr_provider_matrix::files::{get_mux_protocol, is_table_dump_name, mux_protocol_of_stem};
use vultr_provider_matrix::providers::{count_sites_per_provider, provider_output};
use vultr_provider_matrix::routes::{Attributes, PeerType, Route};

fn route(net: &str, neighbor: u32, value: u32) -> Line {
    Line::Parsed(Route {
        net: net.to_string(),
        rtype: "unicast".to_string(),
        proto: "p".to_string(),
        since: "s".to_string(),
        from: "f".to_string(),
        primary: None,
        info: None,
        iface: None,
        via: None,
        attributes: Attributes {
            bgp_type: "BGP univ".to_string(),
            bgp_origin: "IGP".to_string(),
            bgp_as_path: Some(vec![64515, 20473, neighbor, 1]),
            bgp_next_hop: "n".to_string(),
            bgp_local_pref: 100,
            bgp_atomic_aggr: None,
            bgp_aggregator: None,
            bgp_community: Some(vec![(20473, value)]),
            bgp_large_community: None,
            bgp_med: None,
            bgp_otc: None,
        },
    })
}

fn site(name: &str, net: &str, peers: &[(u32, u32)]) -> (String, FileResult) {
    let mut lines: Vec<Line> = peers.iter().map(|(asn, value)| route(net, *asn, *value)).collect();
    lines.push(Line::Malformed("?".to_string()));
    (name.to_string(), process_lines(&lines))
}

fn report() -> Vec<(String, FileResult)> {
    vec![
        site("ams", "10.0.0.0/8", &[(174, 100), (3356, 100), (6939, 200)]),
        site("ams6", "2001:db8::/32", &[(174, 100), (3356, 4000)]),
        site("fra", "10.0.0.0/8", &[(174, 100), (1299, 100), (174, 300)]),
        site("none", "10.0.0.0/8", &[]),
        site("sea6", "2a00::/16", &[(174, 100), (1299, 100)]),
    ]
}

#[test]
fn sites_are_counted_per_provider_and_ip_version() {
    let results = report();
    let counts = count_sites_per_provider(&results);
    assert_eq!(counts.len(), 3);
    assert_eq!(counts[&174], (2, 2));
    assert_eq!(counts[&3356], (1, 0));
    assert_eq!(counts[&1299], (1, 1));
    assert!(!counts.contains_key(&6939));
    assert!(count_sites_per_provider(&Vec::new()).is_empty());
}

#[test]
fn a_site_without_routes_counts_with_version_six() {
    let mut results = report();
    let mut ghost = site("ghost", "10.0.0.0/8", &[(174, 100)]).1;
    ghost.ip_version = 0;
    results.push(("ghost".to_string(), ghost));
    let counts = count_sites_per_provider(&results);
    assert_eq!(counts[&174], (2, 3));
}

#[test]
fn every_transit_provider_is_kept_with_a_threshold_of_one() {
    let results = report();
    let out = provider_output(&results, 1);
    assert_eq!(out.mux2peers.len(), 5);
    let names: Vec<&str> = out.mux2peers.iter().map(|entry| entry.0.as_str()).collect();
    assert_eq!(names, vec!["ams", "ams6", "fra", "none", "sea6"]);
    let kept: Vec<Vec<u32>> = out
        .mux2peers
        .iter()
        .map(|entry| {
            let mut asns: Vec<u32> = entry.1.peers.keys().copied().collect();
            asns.sort();
            asns
        })
        .collect();
    assert_eq!(kept, vec![vec![174, 3356], vec![174], vec![174, 1299], vec![], vec![174, 1299]]);
    for (entry, source) in out.mux2peers.iter().zip(results.iter()) {
        assert_eq!(entry.1.ip_version, source.1.ip_version);
        assert_eq!(entry.1.failed_checks, source.1.failed_checks);
        for (asn, info) in entry.1.peers.iter() {
            let before = &source.1.peers[asn];
            assert_eq!(info.peer_types, before.peer_types);
            assert_eq!(info.num_routes, before.num_routes);
            assert_eq!(info.failed_checks, before.failed_checks);
            assert!(info.peer_types.contains(&PeerType::Transit));
        }
    }
    assert_eq!(out.mux2peers[2].1.peers[&174].num_routes, 2);
    assert_eq!(out.mux2peers[2].1.peers[&174].failed_checks.get("AsInconsistentPeerTypes"), 1);
    assert_eq!(out.peer2muxes.len(), 3);
    assert_eq!(out.peer2muxes[&174], vec!["ams", "ams6", "fra", "sea6"]);
    assert_eq!(out.peer2muxes[&3356], vec!["ams"]);
    assert_eq!(out.peer2muxes[&1299], vec!["fra", "sea6"]);
}

#[test]
fn providers_below_the_threshold_are_left_out() {
    let results = report();
    let out = provider_output(&results, 2);
    let kept: Vec<Vec<u32>> = out
        .mux2peers
        .iter()
        .map(|entry| {
            let mut asns: Vec<u32> = entry.1.peers.keys().copied().collect();
            asns.sort();
            asns
        })
        .collect();
    assert_eq!(kept, vec![vec![174], vec![174], vec![174], vec![], vec![174]]);
    assert_eq!(out.peer2muxes.len(), 1);
    assert_eq!(out.peer2muxes[&174], vec!["ams", "ams6", "fra", "sea6"]);

    let out = provider_output(&results, 3);
    assert!(out.peer2muxes.is_empty());
    assert!(out.mux2peers.iter().all(|entry| entry.1.peers.is_empty()));
    assert_eq!(out.mux2peers.len(), 5);

    let out = provider_output(&results, 0);
    assert_eq!(out.peer2muxes.len(), 3);
}

#[test]
fn table_dump_names() {
    assert!(is_table_dump_name("vtr_ams.table.jsonl.bz2"));
    assert!(is_table_dump_name("vtr.table.jsonl.bz2"));
    assert!(!is_table_dump_name("tr.table.jsonl.bz2"));
    assert!(!is_table_dump_name("xvtr_ams.table.jsonl.bz2"));
    assert!(!is_table_dump_name("vtr_ams.table.jsonl"));
    assert!(!is_table_dump_name("vtr_ams.table.jsonl.bz2.tmp"));
    assert!(!is_table_dump_name("vt"));
    assert!(!is_table_dump_name(""));
    assert!(is_table_dump_name("vtr\u{e9}.table.jsonl.bz2"));
}

#[test]
fn site_labels() {
    assert_eq!(mux_protocol_of_stem("vtr_ams.table.jsonl"), Some("vtr_ams".to_string()));
    assert_eq!(mux_protocol_of_stem(".table.jsonl"), Some(String::new()));
    assert_eq!(mux_protocol_of_stem("a.table.jsonl.table.jsonl"), Some("a.table.jsonl".to_string()));
    assert_eq!(mux_protocol_of_stem("\u{e9}\u{e9}.table.jsonl"), Some("\u{e9}\u{e9}".to_string()));
    assert_eq!(mux_protocol_of_stem("vtr_ams.table.json"), None);
    assert_eq!(mux_protocol_of_stem("table.jsonl"), None);
    assert_eq!(mux_protocol_of_stem(""), None);

    assert_eq!(
        get_mux_protocol(&PathBuf::from("dumps/2025/vtr_pass_all_checks.table.jsonl.bz2")),
        Some("vtr_pass_all_checks".to_string())
    );
    assert_eq!(get_mux_protocol(&PathBuf::from("vtr_x.table.jsonl")), None);
    assert_eq!(get_mux_protocol(&PathBuf::from("vtr_x.jsonl.bz2")), None);
    assert_eq!(get_mux_protocol(&PathBuf::from("dumps/..")), None);
}
