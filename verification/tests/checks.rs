use std::collections::HashSet;

use vultr_provider_matrix::checks::Check;
use vultr_provider_matrix::routes::{
    parse_communities, parse_large_communities, Attributes, PeerType, Route,
};
use vultr_provider_matrix::sets::{PeerHintSet, PeerTypeSet};

fn some(text: &str) -> Option<String> {
    Some(text.to_string())
}

fn create_test_route() -> Route {
    Route {
        net: "168.87.160.0/22".to_string(),
        rtype: "unicast".to_string(),
        proto: "up564_64515".to_string(),
        since: "2025-08-27".to_string(),
        from: "from 169.254.169.254".to_string(),
        primary: some("*"),
        info: some("(100/?) [AS3360i]"),
        iface: some("henp1s0"),
        via: some("216.238.98.1"),
        attributes: Attributes {
            bgp_type: "BGP univ".to_string(),
            bgp_origin: "IGP".to_string(),
            bgp_as_path: Some(vec![64515, 65534, 20473, 3356, 3360, 3360]),
            bgp_next_hop: "100.112.2.52".to_string(),
            bgp_local_pref: 100,
            bgp_atomic_aggr: some(""),
            bgp_aggregator: some("15.163.14.33 AS19647"),
            bgp_community: Some(parse_communities(
                "(20473,100) (20473,3356) (64515,44) (47065,10564)",
            )),
            bgp_large_community: Some(parse_large_communities("(20473, 100, 3356)")),
            bgp_med: None,
            bgp_otc: None,
        },
    }
}

#[test]
fn test_check_run_inconsistent_peer_types() {
    let route = create_test_route();
    let neigh_aspath = 3356;
    let mut peertypes_comm = PeerTypeSet::new();
    peertypes_comm.insert(PeerType::Transit);
    let mut peer_data_large = PeerHintSet::new();
    peer_data_large.insert((PeerType::Transit, 3356));

    let checks = Check::run(0, &route, neigh_aspath, &peertypes_comm, &peer_data_large);
    let mut expected_standard = PeerTypeSet::new();
    expected_standard.insert(PeerType::Transit);
    let mut expected_large = PeerTypeSet::new();
    expected_large.insert(PeerType::Transit);
    assert!(!checks.contains(&Check::RouteInconsistentPeerTypes {
        linenum: 0,
        standard: expected_standard,
        large: expected_large,
    }));

    let mut peertypes_comm_inconsistent = PeerTypeSet::new();
    peertypes_comm_inconsistent.insert(PeerType::Customer);
    let checks = Check::run(
        0,
        &route,
        neigh_aspath,
        &peertypes_comm_inconsistent,
        &peer_data_large,
    );
    let mut expected_standard = PeerTypeSet::new();
    expected_standard.insert(PeerType::Customer);
    let mut expected_large = PeerTypeSet::new();
    expected_large.insert(PeerType::Transit);
    assert!(checks.contains(&Check::RouteInconsistentPeerTypes {
        linenum: 0,
        standard: expected_standard,
        large: expected_large,
    }));
}

#[test]
fn test_check_run_customer_with_large_community() {
    let route = create_test_route();
    let neigh_aspath = 3356;
    let mut peertypes_comm = PeerTypeSet::new();
    peertypes_comm.insert(PeerType::Customer);
    let mut peer_data_large = PeerHintSet::new();
    peer_data_large.insert((PeerType::Transit, 3356));

    let checks = Check::run(0, &route, neigh_aspath, &peertypes_comm, &peer_data_large);
    assert!(checks.contains(&Check::CustomerWithLargeCommunity { linenum: 0 }));
}

#[test]
fn test_check_run_neighbor_asn_inconsistency() {
    let route = create_test_route();
    let neigh_aspath = 3356;
    let mut peertypes_comm = PeerTypeSet::new();
    peertypes_comm.insert(PeerType::Transit);
    let mut peer_data_large = PeerHintSet::new();
    peer_data_large.insert((PeerType::Transit, 12345));

    let checks = Check::run(0, &route, neigh_aspath, &peertypes_comm, &peer_data_large);
    assert!(checks.contains(&Check::NeighborAsnInconsistency {
        linenum: 0,
        neigh_large: 12345,
        peertypes_large: peertypes_comm,
        as_path: Some(vec![64515, 65534, 20473, 3356, 3360, 3360]),
    }));
}

#[test]
fn test_check_run_no_failures() {
    let route = create_test_route();
    let neigh_aspath = 3356;
    let mut peertypes_comm = PeerTypeSet::new();
    peertypes_comm.insert(PeerType::Transit);
    let mut peer_data_large = PeerHintSet::new();
    peer_data_large.insert((PeerType::Transit, 3356));

    let checks = Check::run(0, &route, neigh_aspath, &peertypes_comm, &peer_data_large);
    assert!(checks.is_empty());
}

#[test]
fn route_fixture_is_parsed_as_written() {
    let route = create_test_route();
    assert_eq!(
        route.attributes.bgp_community,
        Some(vec![(20473, 100), (20473, 3356), (64515, 44), (47065, 10564)])
    );
    assert_eq!(route.attributes.bgp_large_community, Some(vec![(20473, 100, 3356)]));
    assert_eq!(route.extract_vultr_neighbor(), Some(3356));
}

#[test]
fn customer_route_with_transit_hint_raises_two_checks() {
    let route = create_test_route();
    let comm = PeerTypeSet::singleton(PeerType::Customer);
    let large = PeerHintSet::singleton((PeerType::Transit, 3356));
    let checks = Check::run(7, &route, 3356, &comm, &large);
    assert_eq!(
        checks,
        vec![
            Check::RouteInconsistentPeerTypes {
                linenum: 7,
                standard: PeerTypeSet::singleton(PeerType::Customer),
                large: PeerTypeSet::singleton(PeerType::Transit),
            },
            Check::CustomerWithLargeCommunity { linenum: 7 },
        ]
    );
}

#[test]
fn disagreeing_hints_resolve_to_no_neighbor() {
    let route = create_test_route();
    let comm = PeerTypeSet::singleton(PeerType::Transit);
    let mut large = PeerHintSet::new();
    large.insert((PeerType::Transit, 3356));
    large.insert((PeerType::Transit, 12345));
    let checks = Check::run(3, &route, 3356, &comm, &large);
    let mut neighbors = HashSet::new();
    neighbors.insert(3356);
    neighbors.insert(12345);
    assert_eq!(checks, vec![Check::InconsistentLargeCommPeerAsns { linenum: 3, neighbors }]);
}

#[test]
fn public_peer_hint_may_name_another_neighbor() {
    let route = create_test_route();
    let comm = PeerTypeSet::singleton(PeerType::PublicPeer);
    let large = PeerHintSet::singleton((PeerType::PublicPeer, 64515));
    let checks = Check::run(0, &route, 3356, &comm, &large);
    assert!(checks.is_empty());
}

#[test]
fn unknown_sentinels_raise_nothing() {
    let route = create_test_route();
    let comm = PeerTypeSet::singleton(PeerType::Unknown);
    let large = PeerHintSet::singleton((PeerType::Unknown, 0));
    assert!(Check::run(0, &route, 3356, &comm, &large).is_empty());
    let comm = PeerTypeSet::singleton(PeerType::Customer);
    assert!(Check::run(0, &route, 3356, &comm, &large).is_empty());
}

#[test]
fn check_names() {
    let checks = vec![
        Check::RouteMissingNeighbor { linenum: 1, as_path: None },
        Check::CustomerWithLargeCommunity { linenum: 1 },
        Check::NeighborAsnInconsistency {
            linenum: 1,
            neigh_large: 1,
            peertypes_large: PeerTypeSet::new(),
            as_path: None,
        },
        Check::RouteInconsistentPeerTypes {
            linenum: 1,
            standard: PeerTypeSet::new(),
            large: PeerTypeSet::new(),
        },
        Check::AsInconsistentPeerTypes { asn: 1, types: vec![] },
        Check::InconsistentLargeCommPeerAsns { linenum: 1, neighbors: HashSet::new() },
        Check::JsonParseFailure { linenum: 1, line: String::new() },
    ];
    let names: Vec<&str> = checks.iter().map(|check| check.name()).collect();
    assert_eq!(
        names,
        vec![
            "RouteMissingNeighbor",
            "CustomerWithLargeCommunity",
            "NeighborAsnInconsistency",
            "RouteInconsistentPeerTypes",
            "AsInconsistentPeerTypes",
            "InconsistentLargeCommPeerAsns",
            "JsonParseFailure",
        ]
    );
}

#[test]
fn check_messages() {
    let path = Some(vec![64515, 65534, 20473]);
    assert_eq!(
        Check::RouteMissingNeighbor { linenum: 12, as_path: path.clone() }.message(),
        "Line 12: Route does not contain neighbor after Vultr (20473) in AS path (Some([64515, 65534, 20473]))"
    );
    assert_eq!(
        Check::RouteMissingNeighbor { linenum: 0, as_path: None }.message(),
        "Line 0: Route does not contain neighbor after Vultr (20473) in AS path (None)"
    );
    assert_eq!(
        Check::RouteMissingNeighbor { linenum: 0, as_path: Some(vec![]) }.message(),
        "Line 0: Route does not contain neighbor after Vultr (20473) in AS path (Some([]))"
    );
    assert_eq!(
        Check::CustomerWithLargeCommunity { linenum: 105 }.message(),
        "Line 105: Route from customer has large PeerType community"
    );
    let mut types = PeerTypeSet::new();
    types.insert(PeerType::Customer);
    types.insert(PeerType::Transit);
    assert_eq!(
        Check::NeighborAsnInconsistency {
            linenum: 4,
            neigh_large: 12345,
            peertypes_large: types,
            as_path: Some(vec![20473, 3356]),
        }
        .message(),
        "Line 4: Inconsisteny in neighbor ASN inference! Large community says AS12345 is {Transit, Customer}, but AS-path is Some([20473, 3356])"
    );
    assert_eq!(
        Check::RouteInconsistentPeerTypes {
            linenum: 9,
            standard: PeerTypeSet::singleton(PeerType::Customer),
            large: PeerTypeSet::new(),
        }
        .message(),
        "Line 9: Route has inconsistent peer types: standard={Customer}, community={}"
    );
    assert_eq!(
        Check::AsInconsistentPeerTypes {
            asn: 4294967295,
            types: vec![PeerType::Transit, PeerType::VultrOrigin],
        }
        .message(),
        "AS4294967295 has inconsistent peer types: [Transit, VultrOrigin]"
    );
    let mut neighbors = HashSet::new();
    neighbors.insert(3356);
    assert_eq!(
        Check::InconsistentLargeCommPeerAsns { linenum: 2, neighbors: neighbors.clone() }
            .message(),
        "Line 2: Inconsistent large community peer ASNs: {3356}"
    );
    neighbors.insert(174);
    let message =
        Check::InconsistentLargeCommPeerAsns { linenum: 2, neighbors }.message();
    assert!(
        message == "Line 2: Inconsistent large community peer ASNs: {3356, 174}"
            || message == "Line 2: Inconsistent large community peer ASNs: {174, 3356}"
    );
    assert_eq!(
        Check::JsonParseFailure { linenum: 30, line: "{not json".to_string() }.message(),
        "Line 30: Failed to parse JSON: {not json"
    );
}

#[test]
fn check_clone_is_equal() {
    let mut neighbors = HashSet::new();
    neighbors.insert(1);
    neighbors.insert(2);
    let check = Check::InconsistentLargeCommPeerAsns { linenum: 5, neighbors };
    assert_eq!(check.clone(), check);
    let check = Check::RouteMissingNeighbor { linenum: 5, as_path: Some(vec![1, 2, 3]) };
    assert_eq!(check.clone(), check);
}
