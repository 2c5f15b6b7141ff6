use vultr_provider_matrix::routes::{
    communities_from_captures, large_communities_from_captures, parse_communities,
    parse_large_communities, PeerType,
};
use vultr_provider_matrix::text::{has_colon, parse_decimal};

fn group(text: &str) -> Option<String> {
    Some(text.to_string())
}

#[test]
fn decimal_numbers_of_32_bits() {
    assert_eq!(parse_decimal("0"), Some(0));
    assert_eq!(parse_decimal("7"), Some(7));
    assert_eq!(parse_decimal("20473"), Some(20473));
    assert_eq!(parse_decimal("007"), Some(7));
    assert_eq!(parse_decimal("4294967295"), Some(4294967295));
    assert_eq!(parse_decimal("00000000004294967295"), Some(4294967295));
    assert_eq!(parse_decimal("4294967296"), None);
    assert_eq!(parse_decimal("99999999999999999999"), None);
    assert_eq!(parse_decimal(""), None);
    assert_eq!(parse_decimal("+5"), None);
    assert_eq!(parse_decimal("-5"), None);
    assert_eq!(parse_decimal(" 5"), None);
    assert_eq!(parse_decimal("1a"), None);
    assert_eq!(parse_decimal("\u{ff11}\u{ff12}"), None);
    assert_eq!(parse_decimal("1\u{663}"), None);
}

#[test]
fn colon_in_text() {
    assert!(has_colon("2001:db8::/32"));
    assert!(has_colon(":"));
    assert!(has_colon("\u{e9}t\u{e9}:"));
    assert!(!has_colon("168.87.160.0/22"));
    assert!(!has_colon(""));
}

#[test]
fn white_space_may_stand_around_commas() {
    assert_eq!(parse_communities("(20473 , 100)"), vec![(20473, 100)]);
    assert_eq!(parse_communities("(20473\t,\n100)"), vec![(20473, 100)]);
    assert_eq!(parse_communities("(20473,   100)(1,2)"), vec![(20473, 100), (1, 2)]);
    assert_eq!(parse_large_communities("(20473 ,100 , 3356)"), vec![(20473, 100, 3356)]);
    assert!(parse_communities("( 20473,100)").is_empty());
    assert!(parse_communities("(20473,100 )").is_empty());
    assert!(parse_communities("(20 473,100)").is_empty());
}

#[test]
fn groups_that_do_not_match_are_skipped() {
    assert_eq!(
        parse_communities("x(1,2)y (3;4) (5,6"),
        vec![(1, 2)]
    );
    assert_eq!(parse_communities("((7,8))"), vec![(7, 8)]);
    assert_eq!(parse_communities("(1,2,3) (4,5)"), vec![(4, 5)]);
    assert_eq!(parse_large_communities("(1,2) (3,4,5) (6,7,8,9)"), vec![(3, 4, 5)]);
    assert!(parse_communities("(-1,2)").is_empty());
    assert!(parse_communities("(1.5,2)").is_empty());
}

#[test]
fn numbers_that_do_not_fit_are_skipped() {
    assert_eq!(
        parse_communities("(4294967295,0) (4294967296,1) (2,99999999999) (3,4)"),
        vec![(4294967295, 0), (3, 4)]
    );
    assert_eq!(
        parse_large_communities("(1,2,4294967296) (0,0,0)"),
        vec![(0, 0, 0)]
    );
    assert!(parse_communities("(\u{663},4)").is_empty());
    assert_eq!(parse_communities("(\u{663},4) (5,6)"), vec![(5, 6)]);
}

#[test]
fn communities_are_read_from_the_capture_groups() {
    let matches = vec![
        vec![group("(1,2)"), group("1"), group("2")],
        vec![group("(x)"), group("x"), group("2")],
        vec![group("(3,4)"), group("3"), None],
        vec![group("(3,4)"), group("3")],
        vec![],
        vec![group("ignored"), group("0005"), group("4294967295"), group("junk")],
    ];
    assert_eq!(communities_from_captures(&matches), vec![(1, 2), (5, 4294967295)]);
    assert!(communities_from_captures(&Vec::new()).is_empty());
}

#[test]
fn large_communities_are_read_from_the_capture_groups() {
    let matches = vec![
        vec![group("(1,2,3)"), group("1"), group("2"), group("3")],
        vec![group("(1,2)"), group("1"), group("2")],
        vec![group("-"), group("1"), group("2"), group("4294967296")],
        vec![group("-"), group("1"), None, group("3")],
        vec![group("-"), group("7"), group("8"), group("9"), group("10")],
    ];
    assert_eq!(large_communities_from_captures(&matches), vec![(1, 2, 3), (7, 8, 9)]);
}

#[test]
fn communities_of_other_networks_do_not_change_the_classification() {
    let own = vec![(20473, 100), (20473, 4000)];
    let expected = PeerType::detect_from_communities(&own);
    assert_eq!(expected.to_vec(), vec![PeerType::Transit, PeerType::Customer]);
    let foreign = [(64515, 100), (20474, 200), (0, 300), (4294967295, 500)];
    for at in 0..=own.len() {
        for tuple in foreign {
            let mut noisy = own.clone();
            noisy.insert(at, tuple);
            assert_eq!(PeerType::detect_from_communities(&noisy), expected);
        }
    }
    let only_foreign = PeerType::detect_from_communities(&foreign);
    assert_eq!(only_foreign.to_vec(), vec![PeerType::Unknown]);
    assert_eq!(PeerType::detect_from_communities(&[]).to_vec(), vec![PeerType::Unknown]);
}

#[test]
fn large_communities_of_other_networks_do_not_change_the_classification() {
    let own = vec![(20473, 100, 3356), (20473, 200, 64515)];
    let expected = PeerType::detect_from_large(&own);
    assert_eq!(
        expected.as_slice(),
        &[(PeerType::Transit, 3356), (PeerType::PublicPeer, 64515)]
    );
    let foreign = [(64515, 100, 1), (20474, 200, 3356), (0, 300, 0)];
    for at in 0..=own.len() {
        for tuple in foreign {
            let mut noisy = own.clone();
            noisy.insert(at, tuple);
            assert_eq!(PeerType::detect_from_large(&noisy), expected);
        }
    }
    assert_eq!(PeerType::detect_from_large(&foreign).as_slice(), &[(PeerType::Unknown, 0)]);
    assert_eq!(PeerType::detect_from_large(&[]).as_slice(), &[(PeerType::Unknown, 0)]);
}

#[test]
fn peer_type_names_and_labels() {
    let all = [
        (PeerType::Transit, "Transit", "transit"),
        (PeerType::PublicPeer, "PublicPeer", "public_peer"),
        (PeerType::PrivatePeer, "PrivatePeer", "private_peer"),
        (PeerType::Customer, "Customer", "customer"),
        (PeerType::VultrOrigin, "VultrOrigin", "vultr_origin"),
        (PeerType::Unknown, "Unknown", "unknown"),
    ];
    for (peer_type, name, label) in all {
        assert_eq!(peer_type.variant_name(), name);
        assert_eq!(peer_type.as_str(), label);
        assert_eq!(format!("{:?}", peer_type), name);
    }
    assert!(PeerType::Transit < PeerType::PublicPeer);
    assert!(PeerType::VultrOrigin < PeerType::Unknown);
}
