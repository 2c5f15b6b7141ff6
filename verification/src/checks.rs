//! The diagnostics that a route can raise, and the rules that raise them.

use std::collections::HashSet;
use vstd::prelude::*;
use vstd::std_specs::iter::IteratorSpec;

use crate::routes::{path_view, PeerType, Route};
use crate::sets::{listed, PeerHintSet, PeerTypeSet};
use crate::text::{decimal_digits, joined, number_texts, push_decimal, push_numbers};

verus! {

/// One diagnostic, with the evidence that raised it.
///
/// A diagnostic is data: it is returned and counted, and never ends the
/// processing of a file.
#[derive(Debug, Eq, PartialEq)]
pub enum Check {
    /// The AS path of the route on line `linenum` names no neighbour of the
    /// reference AS.
    RouteMissingNeighbor { linenum: usize, as_path: Option<Vec<u32>> },
    /// The compact communities mark the route as a customer route, and a
    /// large community gives it a peer type.
    CustomerWithLargeCommunity { linenum: usize },
    /// The large communities name the neighbour `neigh_large`, and the AS
    /// path another.
    NeighborAsnInconsistency {
        linenum: usize,
        neigh_large: u32,
        peertypes_large: PeerTypeSet,
        as_path: Option<Vec<u32>>,
    },
    /// The compact communities imply the peer types `standard`, and the
    /// large communities the peer types `large`.
    RouteInconsistentPeerTypes { linenum: usize, standard: PeerTypeSet, large: PeerTypeSet },
    /// The routes of a file imply more than one peer type for the neighbour
    /// `asn`.
    AsInconsistentPeerTypes { asn: u32, types: Vec<PeerType> },
    /// The large communities of the route name more than one neighbour.
    InconsistentLargeCommPeerAsns { linenum: usize, neighbors: HashSet<u32> },
    /// Line `linenum` of the file is no route; `line` is its text.
    JsonParseFailure { linenum: usize, line: String },
}

/// A diagnostic as a mathematical value.
pub enum CheckView {
    RouteMissingNeighbor { linenum: nat, as_path: Option<Seq<u32>> },
    CustomerWithLargeCommunity { linenum: nat },
    NeighborAsnInconsistency {
        linenum: nat,
        neigh_large: u32,
        peertypes_large: Set<PeerType>,
        as_path: Option<Seq<u32>>,
    },
    RouteInconsistentPeerTypes { linenum: nat, standard: Set<PeerType>, large: Set<PeerType> },
    AsInconsistentPeerTypes { asn: u32, types: Seq<PeerType> },
    InconsistentLargeCommPeerAsns { linenum: nat, neighbors: Set<u32> },
    JsonParseFailure { linenum: nat, line: Seq<char> },
}

impl View for Check {
    type V = CheckView;

    open spec fn view(&self) -> CheckView {
        match *self {
            Check::RouteMissingNeighbor { linenum, as_path } => CheckView::RouteMissingNeighbor {
                linenum: linenum as nat,
                as_path: path_view(as_path),
            },
            Check::CustomerWithLargeCommunity { linenum } => CheckView::CustomerWithLargeCommunity {
                linenum: linenum as nat,
            },
            Check::NeighborAsnInconsistency {
                linenum,
                neigh_large,
                peertypes_large,
                as_path,
            } => CheckView::NeighborAsnInconsistency {
                linenum: linenum as nat,
                neigh_large,
                peertypes_large: peertypes_large@,
                as_path: path_view(as_path),
            },
            Check::RouteInconsistentPeerTypes {
                linenum,
                standard,
                large,
            } => CheckView::RouteInconsistentPeerTypes {
                linenum: linenum as nat,
                standard: standard@,
                large: large@,
            },
            Check::AsInconsistentPeerTypes { asn, types } => CheckView::AsInconsistentPeerTypes {
                asn,
                types: types@,
            },
            Check::InconsistentLargeCommPeerAsns {
                linenum,
                neighbors,
            } => CheckView::InconsistentLargeCommPeerAsns {
                linenum: linenum as nat,
                neighbors: neighbors@,
            },
            Check::JsonParseFailure { linenum, line } => CheckView::JsonParseFailure {
                linenum: linenum as nat,
                line: line@,
            },
        }
    }
}

impl DeepView for Check {
    type V = CheckView;

    open spec fn deep_view(&self) -> CheckView {
        self@
    }
}

/// The text of an optional AS path.
pub open spec fn path_text(as_path: Option<Seq<u32>>) -> Seq<char> {
    match as_path {
        Some(path) => "Some(["@ + joined(number_texts(path)) + "])"@,
        None => "None"@,
    }
}

/// The names of the peer types of `types`.
pub open spec fn type_names(types: Seq<PeerType>) -> Seq<Seq<char>> {
    types.map_values(|pt: PeerType| pt.name())
}

/// The text of a list of peer types.
pub open spec fn type_list_text(types: Seq<PeerType>) -> Seq<char> {
    "["@ + joined(type_names(types)) + "]"@
}

/// The text of a set of peer types, in their declaration order.
pub open spec fn type_set_text(types: Set<PeerType>) -> Seq<char> {
    "{"@ + joined(type_names(listed(types))) + "}"@
}

/// Whether `order` lists each member of `members` once, and nothing else.
pub open spec fn lists_members(order: Seq<u32>, members: Set<u32>) -> bool {
    order.no_duplicates() && order.to_set() == members
}

impl CheckView {
    /// The name of the diagnostic.
    pub open spec fn name(self) -> Seq<char> {
        match self {
            CheckView::RouteMissingNeighbor { .. } => "RouteMissingNeighbor"@,
            CheckView::CustomerWithLargeCommunity { .. } => "CustomerWithLargeCommunity"@,
            CheckView::NeighborAsnInconsistency { .. } => "NeighborAsnInconsistency"@,
            CheckView::RouteInconsistentPeerTypes { .. } => "RouteInconsistentPeerTypes"@,
            CheckView::AsInconsistentPeerTypes { .. } => "AsInconsistentPeerTypes"@,
            CheckView::InconsistentLargeCommPeerAsns { .. } => "InconsistentLargeCommPeerAsns"@,
            CheckView::JsonParseFailure { .. } => "JsonParseFailure"@,
        }
    }

    /// The message of the diagnostic. Where the diagnostic holds a set of
    /// neighbour ASNs, the message lists them in the order `order`; no other
    /// diagnostic reads `order`.
    pub open spec fn message(self, order: Seq<u32>) -> Seq<char> {
        match self {
            CheckView::RouteMissingNeighbor { linenum, as_path } => "Line "@ + decimal_digits(
                linenum,
            ) + ": Route does not contain neighbor after Vultr (20473) in AS path ("@ + path_text(
                as_path,
            ) + ")"@,
            CheckView::CustomerWithLargeCommunity { linenum } => "Line "@ + decimal_digits(linenum)
                + ": Route from customer has large PeerType community"@,
            CheckView::NeighborAsnInconsistency {
                linenum,
                neigh_large,
                peertypes_large,
                as_path,
            } => "Line "@ + decimal_digits(linenum)
                + ": Inconsisteny in neighbor ASN inference! Large community says AS"@
                + decimal_digits(neigh_large as nat) + " is "@ + type_set_text(peertypes_large)
                + ", but AS-path is "@ + path_text(as_path),
            CheckView::RouteInconsistentPeerTypes { linenum, standard, large } => "Line "@
                + decimal_digits(linenum) + ": Route has inconsistent peer types: standard="@
                + type_set_text(standard) + ", community="@ + type_set_text(large),
            CheckView::AsInconsistentPeerTypes { asn, types } => "AS"@ + decimal_digits(asn as nat)
                + " has inconsistent peer types: "@ + type_list_text(types),
            CheckView::InconsistentLargeCommPeerAsns { linenum, neighbors } => "Line "@
                + decimal_digits(linenum) + ": Inconsistent large community peer ASNs: {"@ + joined(
                number_texts(order),
            ) + "}"@,
            CheckView::JsonParseFailure { linenum, line } => "Line "@ + decimal_digits(linenum)
                + ": Failed to parse JSON: "@ + line,
        }
    }

    /// Whether `text` is a message of the diagnostic. A diagnostic that
    /// holds a set of neighbour ASNs has one message for each order in which
    /// they can be listed; every other diagnostic has one message.
    pub open spec fn has_message(self, text: Seq<char>) -> bool {
        match self {
            CheckView::InconsistentLargeCommPeerAsns { linenum, neighbors } => exists|
                order: Seq<u32>,
            |
                lists_members(order, neighbors) && text == #[trigger] self.message(order),
            _ => text == self.message(Seq::empty()),
        }
    }
}

/// The members of `types` other than `Unknown`.
pub open spec fn concrete(types: Set<PeerType>) -> Set<PeerType> {
    types.remove(PeerType::Unknown)
}

/// The concrete peer types that occur in `hints`.
pub open spec fn concrete_hint_types(hints: Set<(PeerType, u32)>) -> Set<PeerType> {
    Set::new(
        |pt: PeerType| pt != PeerType::Unknown && exists|asn: u32| hints.contains((pt, asn)),
    )
}

/// The neighbour ASNs that `hints` names beside a concrete peer type.
pub open spec fn hint_asns(hints: Set<(PeerType, u32)>) -> Set<u32> {
    Set::new(
        |asn: u32| exists|pt: PeerType| pt != PeerType::Unknown && hints.contains((pt, asn)),
    )
}

/// Whether `asns` has two members that differ.
pub open spec fn disagree(asns: Set<u32>) -> bool {
    exists|a: u32, b: u32| asns.contains(a) && asns.contains(b) && a != b
}

/// The neighbour ASN that `asns` resolves to: its only member, or 0 where it
/// is empty or its members disagree.
pub open spec fn resolved_neighbor(asns: Set<u32>) -> u32 {
    if asns == Set::<u32>::empty() || disagree(asns) {
        0
    } else {
        asns.choose()
    }
}

/// Whether the compact and the large peer types of a route contradict each
/// other: both are there, and they differ.
pub open spec fn types_inconsistent(standard: Set<PeerType>, large: Set<PeerType>) -> bool {
    standard != Set::<PeerType>::empty() && large != Set::<PeerType>::empty() && standard != large
}

/// Whether a route that the compact communities mark as a customer route
/// carries a large community with a peer type.
pub open spec fn customer_with_large(standard: Set<PeerType>, large: Set<PeerType>) -> bool {
    standard == set![PeerType::Customer] && large != Set::<PeerType>::empty()
}

/// Whether the neighbour that the large communities resolve to contradicts
/// the neighbour on the AS path. A public peer is exempt: there the large
/// community names the exchange point.
pub open spec fn neighbor_inconsistent(resolved: u32, neigh_aspath: u32, large: Set<PeerType>)
    -> bool {
    resolved != 0 && resolved != neigh_aspath && !large.contains(PeerType::PublicPeer)
}

/// The diagnostics of one route, in the order of the rules: the route is on
/// line `linenum`, has the AS path `as_path` with the neighbour
/// `neigh_aspath`, the compact peer types `comm` and the large hints `large`.
pub open spec fn checks_of(
    linenum: nat,
    as_path: Option<Seq<u32>>,
    neigh_aspath: u32,
    comm: Set<PeerType>,
    large: Set<(PeerType, u32)>,
) -> Seq<CheckView> {
    let standard = concrete(comm);
    let large_types = concrete_hint_types(large);
    let asns = hint_asns(large);
    let resolved = resolved_neighbor(asns);
    (if types_inconsistent(standard, large_types) {
        seq![CheckView::RouteInconsistentPeerTypes { linenum, standard, large: large_types }]
    } else {
        seq![]
    }) + (if customer_with_large(standard, large_types) {
        seq![CheckView::CustomerWithLargeCommunity { linenum }]
    } else {
        seq![]
    }) + (if disagree(asns) {
        seq![CheckView::InconsistentLargeCommPeerAsns { linenum, neighbors: asns }]
    } else {
        seq![]
    }) + (if neighbor_inconsistent(resolved, neigh_aspath, large_types) {
        seq![
            CheckView::NeighborAsnInconsistency {
                linenum,
                neigh_large: resolved,
                peertypes_large: large_types,
                as_path,
            },
        ]
    } else {
        seq![]
    })
}

/// Adding a hint adds its peer type to the concrete types, if it is one.
pub proof fn lemma_concrete_hint_types_insert(hints: Set<(PeerType, u32)>, item: (PeerType, u32))
    ensures
        concrete_hint_types(hints.insert(item)) == if item.0 != PeerType::Unknown {
            concrete_hint_types(hints).insert(item.0)
        } else {
            concrete_hint_types(hints)
        },
{
    let left = concrete_hint_types(hints.insert(item));
    let right = if item.0 != PeerType::Unknown {
        concrete_hint_types(hints).insert(item.0)
    } else {
        concrete_hint_types(hints)
    };
    assert forall|pt: PeerType| left.contains(pt) <==> right.contains(pt) by {
        if left.contains(pt) {
            let asn = choose|asn: u32| hints.insert(item).contains((pt, asn));
            if (pt, asn) != item {
                assert(hints.contains((pt, asn)));
            }
        }
        if right.contains(pt) {
            if pt == item.0 {
                assert(hints.insert(item).contains((pt, item.1)));
            } else {
                let asn = choose|asn: u32| hints.contains((pt, asn));
                assert(hints.insert(item).contains((pt, asn)));
            }
        }
    }
    assert(left =~= right);
}

/// Adding a hint adds its ASN to the neighbour ASNs, if its peer type is
/// concrete.
pub proof fn lemma_hint_asns_insert(hints: Set<(PeerType, u32)>, item: (PeerType, u32))
    ensures
        hint_asns(hints.insert(item)) == if item.0 != PeerType::Unknown {
            hint_asns(hints).insert(item.1)
        } else {
            hint_asns(hints)
        },
{
    let left = hint_asns(hints.insert(item));
    let right = if item.0 != PeerType::Unknown {
        hint_asns(hints).insert(item.1)
    } else {
        hint_asns(hints)
    };
    assert forall|asn: u32| left.contains(asn) <==> right.contains(asn) by {
        if left.contains(asn) {
            let pt = choose|pt: PeerType|
                pt != PeerType::Unknown && hints.insert(item).contains((pt, asn));
            if (pt, asn) != item {
                assert(hints.contains((pt, asn)));
            }
        }
        if right.contains(asn) {
            if item.0 != PeerType::Unknown && asn == item.1 {
                assert(hints.insert(item).contains((item.0, asn)));
            } else {
                let pt = choose|pt: PeerType| pt != PeerType::Unknown && hints.contains((pt, asn));
                assert(hints.insert(item).contains((pt, asn)));
            }
        }
    }
    assert(left =~= right);
}

/// Whether `checks` holds a diagnostic of a neighbour-ASN inconsistency.
pub open spec fn flags_neighbor(checks: Seq<CheckView>) -> bool {
    exists|i: int| 0 <= i < checks.len() && #[trigger] checks[i] is NeighborAsnInconsistency
}

/// A route whose compact communities say `Transit`, and whose large
/// communities say `Transit` with the neighbour that the AS path names,
/// raises no diagnostic.
pub proof fn lemma_agreeing_transit_raises_nothing(
    linenum: nat,
    as_path: Option<Seq<u32>>,
    neighbor: u32,
)
    ensures
        checks_of(
            linenum,
            as_path,
            neighbor,
            set![PeerType::Transit],
            set![(PeerType::Transit, neighbor)],
        ) == Seq::<CheckView>::empty(),
{
    let comm = set![PeerType::Transit];
    let large = set![(PeerType::Transit, neighbor)];
    assert(concrete(comm) =~= comm);
    assert(large.contains((PeerType::Transit, neighbor)));
    assert(concrete_hint_types(large) =~= comm);
    assert(hint_asns(large) =~= set![neighbor]);
    assert(!disagree(set![neighbor]));
    assert(set![neighbor].contains(neighbor));
    assert(set![neighbor].contains(set![neighbor].choose()));
    assert(!comm.contains(PeerType::Customer));
    assert(checks_of(linenum, as_path, neighbor, comm, large) =~= Seq::<CheckView>::empty());
}

/// A route whose only concrete compact peer type is `Customer`, and whose
/// large communities hold a concrete peer type, raises
/// `CustomerWithLargeCommunity`, whatever else the large communities hold.
pub proof fn lemma_customer_with_large_community(
    linenum: nat,
    as_path: Option<Seq<u32>>,
    neigh_aspath: u32,
    comm: Set<PeerType>,
    large: Set<(PeerType, u32)>,
)
    requires
        concrete(comm) == set![PeerType::Customer],
        concrete_hint_types(large) != Set::<PeerType>::empty(),
    ensures
        checks_of(linenum, as_path, neigh_aspath, comm, large).contains(
            (CheckView::CustomerWithLargeCommunity { linenum }),
        ),
{
    let checks = checks_of(linenum, as_path, neigh_aspath, comm, large);
    let standard = concrete(comm);
    let large_types = concrete_hint_types(large);
    assert(customer_with_large(standard, large_types));
    let at: int = if types_inconsistent(standard, large_types) {
        1
    } else {
        0
    };
    assert(checks[at] == CheckView::CustomerWithLargeCommunity { linenum });
}

/// A route whose large communities name two different neighbour ASNs
/// raises `InconsistentLargeCommPeerAsns`, and no
/// `NeighborAsnInconsistency`.
pub proof fn lemma_disagreeing_hints(
    linenum: nat,
    as_path: Option<Seq<u32>>,
    neigh_aspath: u32,
    comm: Set<PeerType>,
    large: Set<(PeerType, u32)>,
    first: (PeerType, u32),
    second: (PeerType, u32),
)
    requires
        large.contains(first),
        large.contains(second),
        first.0 != PeerType::Unknown,
        second.0 != PeerType::Unknown,
        first.1 != second.1,
    ensures
        checks_of(linenum, as_path, neigh_aspath, comm, large).contains(
            (CheckView::InconsistentLargeCommPeerAsns { linenum, neighbors: hint_asns(large) }),
        ),
        !flags_neighbor(checks_of(linenum, as_path, neigh_aspath, comm, large)),
{
    let checks = checks_of(linenum, as_path, neigh_aspath, comm, large);
    let standard = concrete(comm);
    let large_types = concrete_hint_types(large);
    let asns = hint_asns(large);
    assert(asns.contains(first.1));
    assert(asns.contains(second.1));
    assert(disagree(asns));
    assert(resolved_neighbor(asns) == 0);
    let a: int = if types_inconsistent(standard, large_types) {
        1
    } else {
        0
    };
    let b: int = if customer_with_large(standard, large_types) {
        1
    } else {
        0
    };
    assert(checks.len() == a + b + 1);
    assert(checks[a + b] == CheckView::InconsistentLargeCommPeerAsns { linenum, neighbors: asns });
    assert forall|i: int| 0 <= i < checks.len() implies !(
    #[trigger] checks[i] is NeighborAsnInconsistency) by {
        if i < a {
            assert(checks[i] is RouteInconsistentPeerTypes);
        } else if i < a + b {
            assert(checks[i] is CustomerWithLargeCommunity);
        }
    }
}

/// A route whose large communities say `PublicPeer` raises no
/// `NeighborAsnInconsistency`, whatever neighbour they name.
pub proof fn lemma_public_peer_exempt(
    linenum: nat,
    as_path: Option<Seq<u32>>,
    neigh_aspath: u32,
    comm: Set<PeerType>,
    large: Set<(PeerType, u32)>,
    asn: u32,
)
    requires
        large.contains((PeerType::PublicPeer, asn)),
    ensures
        !flags_neighbor(checks_of(linenum, as_path, neigh_aspath, comm, large)),
{
    let checks = checks_of(linenum, as_path, neigh_aspath, comm, large);
    let standard = concrete(comm);
    let large_types = concrete_hint_types(large);
    let asns = hint_asns(large);
    assert(large_types.contains(PeerType::PublicPeer));
    let a: int = if types_inconsistent(standard, large_types) {
        1
    } else {
        0
    };
    let b: int = if customer_with_large(standard, large_types) {
        1
    } else {
        0
    };
    let c: int = if disagree(asns) {
        1
    } else {
        0
    };
    assert(checks.len() == a + b + c);
    assert forall|i: int| 0 <= i < checks.len() implies !(
    #[trigger] checks[i] is NeighborAsnInconsistency) by {
        if i < a {
            assert(checks[i] is RouteInconsistentPeerTypes);
        } else if i < a + b {
            assert(checks[i] is CustomerWithLargeCommunity);
        } else {
            assert(checks[i] is InconsistentLargeCommPeerAsns);
        }
    }
}

/// A route raises at most three diagnostics: hints that disagree resolve to
/// no neighbour, so the last two rules never fire together.
pub proof fn lemma_at_most_three_checks(
    linenum: nat,
    as_path: Option<Seq<u32>>,
    neigh_aspath: u32,
    comm: Set<PeerType>,
    large: Set<(PeerType, u32)>,
)
    ensures
        checks_of(linenum, as_path, neigh_aspath, comm, large).len() <= 3,
{
}

fn push_path(out: &mut String, as_path: &Option<Vec<u32>>)
    ensures
        final(out)@ == old(out)@ + path_text(path_view(*as_path)),
{
    match as_path {
        Some(path) => {
            out.append("Some([");
            push_numbers(out, path.as_slice());
            out.append("])");
            assert(out@ =~= old(out)@ + path_text(path_view(*as_path)));
        },
        None => {
            out.append("None");
        },
    }
}

fn push_type_names(out: &mut String, types: &[PeerType])
    ensures
        final(out)@ == old(out)@ + joined(type_names(types@)),
{
    let mut i: usize = 0;
    while i < types.len()
        invariant
            i <= types.len(),
            out@ == old(out)@ + joined(type_names(types@.take(i as int))),
        decreases types.len() - i,
    {
        if i > 0 {
            out.append(", ");
        }
        out.append(types[i].variant_name());
        proof {
            let done = type_names(types@.take(i as int));
            let next = type_names(types@.take(i + 1));
            assert(next.drop_last() =~= done);
            assert(next.last() == types@[i as int].name());
            assert(out@ =~= old(out)@ + joined(next));
        }
        i = i + 1;
    }
    assert(types@.take(i as int) =~= types@);
}

fn push_type_set(out: &mut String, types: &PeerTypeSet)
    ensures
        final(out)@ == old(out)@ + type_set_text(types@),
{
    let members = types.to_vec();
    out.append("{");
    push_type_names(out, members.as_slice());
    out.append("}");
    assert(out@ =~= old(out)@ + type_set_text(types@));
}

fn members_of(set: &HashSet<u32>) -> (members: Vec<u32>)
    ensures
        lists_members(members@, set@),
{
    let mut members: Vec<u32> = Vec::new();
    for asn in walk: set.iter()
        invariant
            members@.len() == walk.index(),
            forall|i: int| 0 <= i < members@.len() ==> members@[i] == *walk.seq()[i],
    {
        members.push(*asn);
    }
    assert(members@ =~= set.iter().remaining().unref());
    members
}

pub(crate) fn copy_path(as_path: &Option<Vec<u32>>) -> (copy: Option<Vec<u32>>)
    ensures
        path_view(copy) == path_view(*as_path),
{
    match as_path {
        Some(path) => {
            let mut hops: Vec<u32> = Vec::new();
            let mut i: usize = 0;
            while i < path.len()
                invariant
                    i <= path.len(),
                    hops@ == path@.take(i as int),
                decreases path.len() - i,
            {
                hops.push(path[i]);
                assert(path@.take(i + 1) =~= path@.take(i as int).push(path@[i as int]));
                i = i + 1;
            }
            assert(path@.take(i as int) =~= path@);
            Some(hops)
        },
        None => None,
    }
}

fn copy_types(types: &Vec<PeerType>) -> (copy: Vec<PeerType>)
    ensures
        copy@ == types@,
{
    let mut copy: Vec<PeerType> = Vec::new();
    let mut i: usize = 0;
    while i < types.len()
        invariant
            i <= types.len(),
            copy@ == types@.take(i as int),
        decreases types.len() - i,
    {
        copy.push(types[i]);
        assert(types@.take(i + 1) =~= types@.take(i as int).push(types@[i as int]));
        i = i + 1;
    }
    assert(types@.take(i as int) =~= types@);
    copy
}

fn copy_members(set: &HashSet<u32>) -> (copy: HashSet<u32>)
    ensures
        copy@ == set@,
{
    let members = members_of(set);
    let mut copy: HashSet<u32> = HashSet::new();
    let mut i: usize = 0;
    while i < members.len()
        invariant
            i <= members.len(),
            copy@ == members@.take(i as int).to_set(),
        decreases members.len() - i,
    {
        copy.insert(members[i]);
        proof {
            assert(members@.take(i + 1) =~= members@.take(i as int).push(members@[i as int]));
            members@.take(i as int).lemma_push_to_set_commute(members@[i as int]);
        }
        i = i + 1;
    }
    assert(members@.take(i as int) =~= members@);
    copy
}

impl Clone for Check {
    fn clone(&self) -> (copy: Check)
        ensures
            copy@ == self@,
    {
        match self {
            Check::RouteMissingNeighbor { linenum, as_path } => Check::RouteMissingNeighbor {
                linenum: *linenum,
                as_path: copy_path(as_path),
            },
            Check::CustomerWithLargeCommunity { linenum } => Check::CustomerWithLargeCommunity {
                linenum: *linenum,
            },
            Check::NeighborAsnInconsistency {
                linenum,
                neigh_large,
                peertypes_large,
                as_path,
            } => Check::NeighborAsnInconsistency {
                linenum: *linenum,
                neigh_large: *neigh_large,
                peertypes_large: *peertypes_large,
                as_path: copy_path(as_path),
            },
            Check::RouteInconsistentPeerTypes {
                linenum,
                standard,
                large,
            } => Check::RouteInconsistentPeerTypes {
                linenum: *linenum,
                standard: *standard,
                large: *large,
            },
            Check::AsInconsistentPeerTypes { asn, types } => Check::AsInconsistentPeerTypes {
                asn: *asn,
                types: copy_types(types),
            },
            Check::InconsistentLargeCommPeerAsns {
                linenum,
                neighbors,
            } => Check::InconsistentLargeCommPeerAsns {
                linenum: *linenum,
                neighbors: copy_members(neighbors),
            },
            Check::JsonParseFailure { linenum, line } => Check::JsonParseFailure {
                linenum: *linenum,
                line: line.clone(),
            },
        }
    }
}

impl Check {
    /// Returns the name of the diagnostic.
    pub fn name(&self) -> (name: &'static str)
        ensures
            name@ == self@.name(),
    {
        match self {
            Check::RouteMissingNeighbor { .. } => "RouteMissingNeighbor",
            Check::CustomerWithLargeCommunity { .. } => "CustomerWithLargeCommunity",
            Check::NeighborAsnInconsistency { .. } => "NeighborAsnInconsistency",
            Check::RouteInconsistentPeerTypes { .. } => "RouteInconsistentPeerTypes",
            Check::AsInconsistentPeerTypes { .. } => "AsInconsistentPeerTypes",
            Check::InconsistentLargeCommPeerAsns { .. } => "InconsistentLargeCommPeerAsns",
            Check::JsonParseFailure { .. } => "JsonParseFailure",
        }
    }

    /// Renders the diagnostic as one line of text for a reader.
    ///
    /// Numbers are written in decimal, lists in square brackets, sets in
    /// curly brackets. A set of peer types is listed in declaration order. A
    /// set of neighbour ASNs is listed in no particular order.
    pub fn message(&self) -> (text: String)
        ensures
            self@.has_message(text@),
    {
        let mut text = String::new();
        match self {
            Check::RouteMissingNeighbor { linenum, as_path } => {
                text.append("Line ");
                push_decimal(&mut text, *linenum as u64);
                text.append(": Route does not contain neighbor after Vultr (20473) in AS path (");
                push_path(&mut text, as_path);
                text.append(")");
                assert(text@ =~= self@.message(Seq::empty()));
            },
            Check::CustomerWithLargeCommunity { linenum } => {
                text.append("Line ");
                push_decimal(&mut text, *linenum as u64);
                text.append(": Route from customer has large PeerType community");
                assert(text@ =~= self@.message(Seq::empty()));
            },
            Check::NeighborAsnInconsistency { linenum, neigh_large, peertypes_large, as_path } => {
                text.append("Line ");
                push_decimal(&mut text, *linenum as u64);
                text.append(": Inconsisteny in neighbor ASN inference! Large community says AS");
                push_decimal(&mut text, *neigh_large as u64);
                text.append(" is ");
                push_type_set(&mut text, peertypes_large);
                text.append(", but AS-path is ");
                push_path(&mut text, as_path);
                assert(text@ =~= self@.message(Seq::empty()));
            },
            Check::RouteInconsistentPeerTypes { linenum, standard, large } => {
                text.append("Line ");
                push_decimal(&mut text, *linenum as u64);
                text.append(": Route has inconsistent peer types: standard=");
                push_type_set(&mut text, standard);
                text.append(", community=");
                push_type_set(&mut text, large);
                assert(text@ =~= self@.message(Seq::empty()));
            },
            Check::AsInconsistentPeerTypes { asn, types } => {
                text.append("AS");
                push_decimal(&mut text, *asn as u64);
                text.append(" has inconsistent peer types: ");
                text.append("[");
                push_type_names(&mut text, types.as_slice());
                text.append("]");
                assert(text@ =~= self@.message(Seq::empty()));
            },
            Check::InconsistentLargeCommPeerAsns { linenum, neighbors } => {
                let order = members_of(neighbors);
                text.append("Line ");
                push_decimal(&mut text, *linenum as u64);
                text.append(": Inconsistent large community peer ASNs: {");
                push_numbers(&mut text, order.as_slice());
                text.append("}");
                assert(text@ =~= self@.message(order@));
            },
            Check::JsonParseFailure { linenum, line } => {
                text.append("Line ");
                push_decimal(&mut text, *linenum as u64);
                text.append(": Failed to parse JSON: ");
                text.append(line.as_str());
                assert(text@ =~= self@.message(Seq::empty()));
            },
        }
        text
    }

    /// Applies the consistency rules to one route and returns the
    /// diagnostics that it raises, in the order of the rules.
    ///
    /// `idx` is the line of the route, `neigh_aspath` the neighbour that its
    /// AS path names, `peertypes_comm` and `peertypes_large` what its compact
    /// and large communities were classified as. `Unknown` takes no part in
    /// any comparison.
    pub fn run(
        idx: usize,
        route: &Route,
        neigh_aspath: u32,
        peertypes_comm: &PeerTypeSet,
        peertypes_large: &PeerHintSet,
    ) -> (failed: Vec<Check>)
        ensures
            failed.deep_view() == checks_of(
                idx as nat,
                route.as_path(),
                neigh_aspath,
                peertypes_comm@,
                peertypes_large@,
            ),
    {
        let mut comm_pts = *peertypes_comm;
        comm_pts.remove(&PeerType::Unknown);
        let mut large_pts = PeerTypeSet::new();
        let mut large_neighbors: HashSet<u32> = HashSet::new();
        let mut first: Option<u32> = None;
        let mut conflict = false;
        let items = peertypes_large.as_slice();
        let mut i: usize = 0;
        assert(items@.take(0).to_set() =~= Set::<(PeerType, u32)>::empty());
        assert(concrete_hint_types(Set::<(PeerType, u32)>::empty()) =~= Set::<PeerType>::empty());
        assert(hint_asns(Set::<(PeerType, u32)>::empty()) =~= Set::<u32>::empty());
        while i < items.len()
            invariant
                i <= items.len(),
                large_pts@ == concrete_hint_types(items@.take(i as int).to_set()),
                large_neighbors@ == hint_asns(items@.take(i as int).to_set()),
                first is None ==> large_neighbors@ == Set::<u32>::empty(),
                first is Some ==> large_neighbors@.contains(first->0),
                conflict == disagree(large_neighbors@),
            decreases items.len() - i,
        {
            let (pt, asn) = items[i];
            let ghost before = large_neighbors@;
            proof {
                let done = items@.take(i as int);
                assert(items@.take(i + 1) =~= done.push(items@[i as int]));
                done.lemma_push_to_set_commute(items@[i as int]);
                lemma_concrete_hint_types_insert(done.to_set(), items@[i as int]);
                lemma_hint_asns_insert(done.to_set(), items@[i as int]);
            }
            if pt != PeerType::Unknown {
                large_pts.insert(pt);
                large_neighbors.insert(asn);
                match first {
                    None => {
                        first = Some(asn);
                        assert(!disagree(large_neighbors@));
                    },
                    Some(seen) => {
                        if asn != seen {
                            conflict = true;
                            assert(large_neighbors@.contains(asn) && large_neighbors@.contains(
                                seen,
                            ));
                        } else {
                            assert(large_neighbors@ =~= before);
                        }
                    },
                }
                proof {
                    if disagree(before) {
                        let (a, b) = choose|a: u32, b: u32|
                            before.contains(a) && before.contains(b) && a != b;
                        assert(large_neighbors@.contains(a) && large_neighbors@.contains(b));
                    }
                }
            }
            i = i + 1;
        }
        assert(items@.take(i as int) =~= items@);
        let resolved: u32 = match first {
            Some(seen) => if conflict {
                0
            } else {
                seen
            },
            None => 0,
        };
        proof {
            let asns = large_neighbors@;
            if first is Some && !conflict {
                let chosen = asns.choose();
                assert(asns.contains(chosen));
                assert(chosen == first->0);
            }
            assert(resolved == resolved_neighbor(asns));
            if comm_pts@ == large_pts@ {
                comm_pts.lemma_same_members(large_pts);
            }
        }
        let ghost expected = checks_of(
            idx as nat,
            route.as_path(),
            neigh_aspath,
            peertypes_comm@,
            peertypes_large@,
        );
        let mut failed: Vec<Check> = Vec::new();
        let ghost mut views: Seq<CheckView> = Seq::empty();
        assert(failed.deep_view() =~= views);
        let comm_empty = comm_pts.is_empty();
        let large_empty = large_pts.is_empty();
        if !comm_empty && !large_empty && comm_pts != large_pts {
            failed.push(
                Check::RouteInconsistentPeerTypes {
                    linenum: idx,
                    standard: comm_pts,
                    large: large_pts,
                },
            );
            proof {
                views = views.push(
                    CheckView::RouteInconsistentPeerTypes {
                        linenum: idx as nat,
                        standard: comm_pts@,
                        large: large_pts@,
                    },
                );
                assert(failed.deep_view() =~= views);
            }
        }
        if comm_pts.contains(&PeerType::Customer) && comm_pts.len() == 1 && !large_empty {
            proof {
                comm_pts.lemma_finite();
                assert(comm_pts@.len() == 1 && comm_pts@.contains(PeerType::Customer));
                assert(comm_pts@.remove(PeerType::Customer).len() == 0);
                assert(comm_pts@ =~= set![PeerType::Customer]);
            }
            failed.push(Check::CustomerWithLargeCommunity { linenum: idx });
            proof {
                views = views.push(CheckView::CustomerWithLargeCommunity { linenum: idx as nat });
                assert(failed.deep_view() =~= views);
            }
        } else {
            proof {
                if comm_pts@ == set![PeerType::Customer] {
                    assert(comm_pts@.len() == 1);
                }
            }
        }
        if conflict {
            let ghost asns = large_neighbors@;
            failed.push(
                Check::InconsistentLargeCommPeerAsns { linenum: idx, neighbors: large_neighbors },
            );
            proof {
                views = views.push(
                    CheckView::InconsistentLargeCommPeerAsns {
                        linenum: idx as nat,
                        neighbors: asns,
                    },
                );
                assert(failed.deep_view() =~= views);
            }
        }
        if resolved != 0 && resolved != neigh_aspath && !large_pts.contains(
            &PeerType::PublicPeer,
        ) {
            failed.push(
                Check::NeighborAsnInconsistency {
                    linenum: idx,
                    neigh_large: resolved,
                    peertypes_large: large_pts,
                    as_path: copy_path(&route.attributes.bgp_as_path),
                },
            );
            proof {
                views = views.push(
                    CheckView::NeighborAsnInconsistency {
                        linenum: idx as nat,
                        neigh_large: resolved,
                        peertypes_large: large_pts@,
                        as_path: route.as_path(),
                    },
                );
                assert(failed.deep_view() =~= views);
            }
        }
        assert(views =~= expected);
        failed
    }
}

} // verus!
