use vultr_provider_matrix::counts::CheckCounts;
use vultr_provider_matrix::routes::PeerType;
use vultr_provider_matrix::sets::{PeerHintSet, PeerTypeSet};

#[test]
fn peer_type_set_lists_members_in_declaration_order() {
    let mut set = PeerTypeSet::new();
    assert!(set.is_empty());
    assert_eq!(set.len(), 0);
    assert!(set.insert(PeerType::Unknown));
    assert!(set.insert(PeerType::Customer));
    assert!(set.insert(PeerType::Transit));
    assert!(!set.insert(PeerType::Customer));
    assert_eq!(set.len(), 3);
    assert_eq!(set.to_vec(), vec![PeerType::Transit, PeerType::Customer, PeerType::Unknown]);
    assert!(set.contains(&PeerType::Transit));
    assert!(!set.contains(&PeerType::PublicPeer));
    assert!(set.remove(&PeerType::Unknown));
    assert!(!set.remove(&PeerType::Unknown));
    assert_eq!(set.to_vec(), vec![PeerType::Transit, PeerType::Customer]);

    let mut other = PeerTypeSet::singleton(PeerType::Customer);
    assert_ne!(set, other);
    other.insert(PeerType::Transit);
    assert_eq!(set, other);

    let mut all = PeerTypeSet::new();
    all.extend(&set);
    all.extend(&PeerTypeSet::singleton(PeerType::VultrOrigin));
    all.insert(PeerType::PublicPeer);
    all.insert(PeerType::PrivatePeer);
    all.insert(PeerType::Unknown);
    assert_eq!(all.len(), 6);
    assert_eq!(
        all.to_vec(),
        vec![
            PeerType::Transit,
            PeerType::PublicPeer,
            PeerType::PrivatePeer,
            PeerType::Customer,
            PeerType::VultrOrigin,
            PeerType::Unknown,
        ]
    );
}

#[test]
fn peer_hint_set_keeps_members_ascending_and_distinct() {
    let mut set = PeerHintSet::new();
    assert!(set.is_empty());
    assert!(set.insert((PeerType::Customer, 5)));
    assert!(set.insert((PeerType::Transit, 9)));
    assert!(set.insert((PeerType::Transit, 3)));
    assert!(set.insert((PeerType::Unknown, 0)));
    assert!(set.insert((PeerType::Customer, 4294967295)));
    assert!(!set.insert((PeerType::Transit, 9)));
    assert_eq!(set.len(), 5);
    assert_eq!(
        set.as_slice(),
        &[
            (PeerType::Transit, 3),
            (PeerType::Transit, 9),
            (PeerType::Customer, 5),
            (PeerType::Customer, 4294967295),
            (PeerType::Unknown, 0),
        ]
    );
    assert!(set.contains(&(PeerType::Transit, 3)));
    assert!(!set.contains(&(PeerType::Transit, 5)));
    assert!(!set.contains(&(PeerType::PublicPeer, 3)));
    assert_eq!(
        set.peer_types().to_vec(),
        vec![PeerType::Transit, PeerType::Customer, PeerType::Unknown]
    );

    let mut other = PeerHintSet::new();
    for item in set.as_slice().iter().rev() {
        other.insert(*item);
    }
    assert_eq!(set, other);
    assert_eq!(set.clone(), set);
    assert_ne!(PeerHintSet::singleton((PeerType::Transit, 3)), set);
    assert!(!PeerHintSet::singleton((PeerType::Transit, 3)).is_empty());
}

#[test]
fn check_counts_count_by_name_in_order_of_first_occurrence() {
    let mut counts = CheckCounts::new();
    assert!(counts.is_empty());
    assert_eq!(counts.len(), 0);
    assert_eq!(counts.get("A"), 0);
    assert!(!counts.contains_key("A"));
    assert_eq!(counts.total(), Some(0));
    counts.record("B");
    counts.record("A");
    counts.record("B");
    counts.record("");
    counts.record("B");
    assert_eq!(counts.len(), 3);
    assert_eq!(counts.get("B"), 3);
    assert_eq!(counts.get("A"), 1);
    assert_eq!(counts.get(""), 1);
    assert_eq!(counts.get("b"), 0);
    assert!(counts.contains_key("A"));
    assert!(!counts.contains_key("AB"));
    assert_eq!(counts.total(), Some(5));
    assert_eq!(
        counts.as_slice(),
        &[("B".to_string(), 3), ("A".to_string(), 1), ("".to_string(), 1)]
    );
    let copy = counts.clone();
    assert_eq!(copy, counts);
    counts.record("A");
    assert_ne!(copy, counts);
    assert_eq!(copy.get("A"), 1);
}
