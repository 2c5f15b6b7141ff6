use vultr_provider_matrix::routes::{
    parse_communities, parse_large_communities, Attributes, PeerType, Route,
};

#[test]
fn test_parse_communities() {
    let input = "(20473,100) (20473,3356) (64515,44)";
    let result = parse_communities(input);
    assert_eq!(result, vec![(20473, 100), (20473, 3356), (64515, 44)]);
}

#[test]
fn test_parse_large_communities() {
    let input = "(20473, 100, 3356) (20473, 200, 64515)";
    let result = parse_large_communities(input);
    assert_eq!(result, vec![(20473, 100, 3356), (20473, 200, 64515)]);
}

#[test]
fn test_detect_peer_type() {
    let communities = vec![(20473, 100)];
    let result = PeerType::detect_from_communities(&communities);
    assert_eq!(result.len(), 1);
    assert!(result.contains(&PeerType::Transit));

    let communities = vec![(20473, 3356), (20473, 200)];
    let result = PeerType::detect_from_communities(&communities);
    assert_eq!(result.len(), 1);
    assert!(result.contains(&PeerType::PublicPeer));

    let communities = vec![(20473, 300)];
    let result = PeerType::detect_from_communities(&communities);
    assert_eq!(result.len(), 1);
    assert!(result.contains(&PeerType::PrivatePeer));

    let communities = vec![(20473, 4000)];
    let result = PeerType::detect_from_communities(&communities);
    assert_eq!(result.len(), 1);
    assert!(result.contains(&PeerType::Customer));

    let communities = vec![(20473, 500)];
    let result = PeerType::detect_from_communities(&communities);
    assert_eq!(result.len(), 1);
    assert!(result.contains(&PeerType::VultrOrigin));

    let communities = vec![(20473, 999)];
    let result = PeerType::detect_from_communities(&communities);
    assert_eq!(result.len(), 1);
    assert!(result.contains(&PeerType::Unknown));
}

#[test]
fn test_detect_peer_type_from_large() {
    let communities = vec![(20473, 100, 3356)];
    let result = PeerType::detect_from_large(&communities);
    assert_eq!(result.len(), 1);
    assert!(result.contains(&(PeerType::Transit, 3356)));

    let communities = vec![(20473, 200, 64515)];
    let result = PeerType::detect_from_large(&communities);
    assert_eq!(result.len(), 1);
    assert!(result.contains(&(PeerType::PublicPeer, 64515)));

    let communities = vec![(20473, 999, 12345), (20473, 300, 12345)];
    let result = PeerType::detect_from_large(&communities);
    assert_eq!(result.len(), 1);
    assert!(result.contains(&(PeerType::PrivatePeer, 12345)));

    let communities = vec![(20473, 999, 12345)];
    let result = PeerType::detect_from_large(&communities);
    assert_eq!(result.len(), 1);
    assert!(result.contains(&(PeerType::Unknown, 0)));
}

fn create_test_route(as_path: Option<Vec<u32>>) -> Route {
    Route {
        net: "test".to_string(),
        rtype: "test".to_string(),
        proto: "test".to_string(),
        since: "test".to_string(),
        from: "test".to_string(),
        primary: None,
        info: None,
        iface: None,
        via: None,
        attributes: Attributes {
            bgp_type: "test".to_string(),
            bgp_origin: "test".to_string(),
            bgp_as_path: as_path,
            bgp_next_hop: "test".to_string(),
            bgp_local_pref: 0,
            bgp_atomic_aggr: None,
            bgp_aggregator: None,
            bgp_community: None,
            bgp_large_community: None,
            bgp_med: None,
            bgp_otc: None,
        },
    }
}

#[test]
fn test_extract_vultr_neighbor() {
    let route = create_test_route(Some(vec![64515, 65534, 20473, 3356, 55644, 45271]));
    assert_eq!(route.extract_vultr_neighbor(), Some(3356));

    let route = create_test_route(Some(vec![20473, 3356]));
    assert_eq!(route.extract_vultr_neighbor(), Some(3356));

    let route = create_test_route(Some(vec![20473]));
    assert_eq!(route.extract_vultr_neighbor(), None);

    let route = create_test_route(Some(vec![12345, 67890]));
    assert_eq!(route.extract_vultr_neighbor(), None);

    let route = create_test_route(None);
    assert_eq!(route.extract_vultr_neighbor(), None);
}

#[test]
fn test_parse_empty_communities() {
    assert!(parse_communities("").is_empty());
    assert!(parse_large_communities("").is_empty());
}

#[test]
fn test_parse_malformed_communities() {
    let input = "(20473,100,extra) (invalid) (20473)";
    let result = parse_communities(input);
    assert!(result.is_empty());

    let input = "(20473,100) (20473,200,300,400)";
    let result = parse_large_communities(input);
    assert!(result.is_empty());
}

#[test]
fn test_peer_type_from_u32() {
    assert_eq!(PeerType::from(100u32), PeerType::Transit);
    assert_eq!(PeerType::from(200u32), PeerType::PublicPeer);
    assert_eq!(PeerType::from(300u32), PeerType::PrivatePeer);
    assert_eq!(PeerType::from(4000u32), PeerType::Customer);
    assert_eq!(PeerType::from(500u32), PeerType::VultrOrigin);
    assert_eq!(PeerType::from(999u32), PeerType::Unknown);
}
