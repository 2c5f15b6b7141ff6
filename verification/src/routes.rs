//! Routes, their community attributes, and the peer types they imply.

use vstd::prelude::*;
use vstd::std_specs::convert::FromSpecImpl;

use crate::pattern::{find_captures, regex_captures};
use crate::sets::{PeerHintSet, PeerTypeSet};
use crate::text::{decimal_u32, parse_decimal};
use crate::VULTR_ASN;

verus! {

/// The commercial relationship between the reference AS and a neighbour.
///
/// The declaration order is the order in which peer types are listed and
/// displayed. `Unknown` stands for "no concrete type could be classified".
#[derive(Debug, Clone, Copy, PartialEq, Eq, Hash, PartialOrd, Ord, Structural)]
pub enum PeerType {
    Transit,
    PublicPeer,
    PrivatePeer,
    Customer,
    VultrOrigin,
    Unknown,
}

impl PeerType {
    /// The peer type that a community value stands for.
    pub open spec fn of_value(value: u32) -> PeerType {
        if value == 100 {
            PeerType::Transit
        } else if value == 200 {
            PeerType::PublicPeer
        } else if value == 300 {
            PeerType::PrivatePeer
        } else if value == 4000 {
            PeerType::Customer
        } else if value == 500 {
            PeerType::VultrOrigin
        } else {
            PeerType::Unknown
        }
    }

    /// The position of the peer type in the declaration order.
    pub open spec fn rank(self) -> nat {
        match self {
            PeerType::Transit => 0,
            PeerType::PublicPeer => 1,
            PeerType::PrivatePeer => 2,
            PeerType::Customer => 3,
            PeerType::VultrOrigin => 4,
            PeerType::Unknown => 5,
        }
    }

    /// The name of the peer type, as it is declared.
    pub open spec fn name(self) -> Seq<char> {
        match self {
            PeerType::Transit => "Transit"@,
            PeerType::PublicPeer => "PublicPeer"@,
            PeerType::PrivatePeer => "PrivatePeer"@,
            PeerType::Customer => "Customer"@,
            PeerType::VultrOrigin => "VultrOrigin"@,
            PeerType::Unknown => "Unknown"@,
        }
    }

    /// Returns the name of the peer type, as it is declared.
    pub fn variant_name(&self) -> (name: &'static str)
        ensures
            name@ == self.name(),
    {
        match self {
            PeerType::Transit => "Transit",
            PeerType::PublicPeer => "PublicPeer",
            PeerType::PrivatePeer => "PrivatePeer",
            PeerType::Customer => "Customer",
            PeerType::VultrOrigin => "VultrOrigin",
            PeerType::Unknown => "Unknown",
        }
    }

    /// The lower-case label of the peer type.
    pub open spec fn label(self) -> Seq<char> {
        match self {
            PeerType::Transit => "transit"@,
            PeerType::PublicPeer => "public_peer"@,
            PeerType::PrivatePeer => "private_peer"@,
            PeerType::Customer => "customer"@,
            PeerType::VultrOrigin => "vultr_origin"@,
            PeerType::Unknown => "unknown"@,
        }
    }

    /// Returns the lower-case label of the peer type.
    pub fn as_str(&self) -> (label: &'static str)
        ensures
            label@ == self.label(),
    {
        match self {
            PeerType::Transit => "transit",
            PeerType::PublicPeer => "public_peer",
            PeerType::PrivatePeer => "private_peer",
            PeerType::Customer => "customer",
            PeerType::VultrOrigin => "vultr_origin",
            PeerType::Unknown => "unknown",
        }
    }
}

impl From<u32> for PeerType {
    fn from(value: u32) -> (peer_type: PeerType) {
        if value == 100 {
            PeerType::Transit
        } else if value == 200 {
            PeerType::PublicPeer
        } else if value == 300 {
            PeerType::PrivatePeer
        } else if value == 4000 {
            PeerType::Customer
        } else if value == 500 {
            PeerType::VultrOrigin
        } else {
            PeerType::Unknown
        }
    }
}

impl FromSpecImpl<u32> for PeerType {
    open spec fn obeys_from_spec() -> bool {
        true
    }

    open spec fn from_spec(value: u32) -> PeerType {
        PeerType::of_value(value)
    }
}

/// One entry of a routing table.
#[derive(Clone, Debug)]
pub struct Route {
    pub net: String,
    pub rtype: String,
    pub proto: String,
    pub since: String,
    pub from: String,
    pub primary: Option<String>,
    pub info: Option<String>,
    pub iface: Option<String>,
    pub via: Option<String>,
    pub attributes: Attributes,
}

/// The BGP attributes of a route.
#[derive(Clone, Debug)]
pub struct Attributes {
    pub bgp_type: String,
    pub bgp_origin: String,
    pub bgp_as_path: Option<Vec<u32>>,
    pub bgp_next_hop: String,
    pub bgp_local_pref: u32,
    pub bgp_atomic_aggr: Option<String>,
    pub bgp_aggregator: Option<String>,
    pub bgp_community: Option<Vec<(u32, u32)>>,
    pub bgp_large_community: Option<Vec<(u32, u32, u32)>>,
    pub bgp_med: Option<u32>,
    pub bgp_otc: Option<String>,
}

/// Whether `p` is the first position of `path` that holds `asn`.
pub open spec fn first_position(path: Seq<u32>, asn: u32, p: int) -> bool {
    &&& 0 <= p < path.len()
    &&& path[p] == asn
    &&& forall|k: int| 0 <= k < p ==> path[k] != asn
}

/// The AS that follows the first occurrence of the reference AS in `path`,
/// if the reference AS occurs and is not the last hop there.
pub open spec fn neighbor_in(path: Seq<u32>) -> Option<u32> {
    if exists|p: int| first_position(path, VULTR_ASN, p) {
        let p = choose|p: int| first_position(path, VULTR_ASN, p);
        if p + 1 < path.len() {
            Some(path[p + 1])
        } else {
            None
        }
    } else {
        None
    }
}

/// The first position that holds `asn` is unique.
pub proof fn lemma_first_position_unique(path: Seq<u32>, asn: u32, p: int, q: int)
    requires
        first_position(path, asn, p),
        first_position(path, asn, q),
    ensures
        p == q,
{
    if p < q {
        assert(path[p] != asn);
    } else if q < p {
        assert(path[q] != asn);
    }
}

/// An AS path as a sequence, if there is one.
pub open spec fn path_view(as_path: Option<Vec<u32>>) -> Option<Seq<u32>> {
    match as_path {
        Some(path) => Some(path@),
        None => None,
    }
}

impl Route {
    /// The AS path of the route as a sequence, if the route has one.
    pub open spec fn as_path(self) -> Option<Seq<u32>> {
        path_view(self.attributes.bgp_as_path)
    }

    /// The neighbour of the reference AS that the AS path names.
    pub open spec fn vultr_neighbor(self) -> Option<u32> {
        match self.attributes.bgp_as_path {
            Some(path) => neighbor_in(path@),
            None => None,
        }
    }

    /// Returns the AS that follows the first occurrence of the reference AS
    /// in the AS path. There is none if the route has no AS path, if the
    /// reference AS is not on it, or if it is the last hop.
    pub fn extract_vultr_neighbor(&self) -> (neighbor: Option<u32>)
        ensures
            neighbor == self.vultr_neighbor(),
    {
        match &self.attributes.bgp_as_path {
            None => None,
            Some(path) => {
                let mut i: usize = 0;
                while i < path.len()
                    invariant
                        i <= path.len(),
                        self.attributes.bgp_as_path == Some(*path),
                        forall|k: int| 0 <= k < i ==> path@[k] != VULTR_ASN,
                    decreases path.len() - i,
                {
                    if path[i] == VULTR_ASN {
                        proof {
                            assert(first_position(path@, VULTR_ASN, i as int));
                            let p = choose|p: int| first_position(path@, VULTR_ASN, p);
                            lemma_first_position_unique(path@, VULTR_ASN, p, i as int);
                        }
                        if i + 1 < path.len() {
                            return Some(path[i + 1]);
                        } else {
                            return None;
                        }
                    }
                    i = i + 1;
                }
                None
            },
        }
    }
}

/// Whether the compact community `c` belongs to the reference AS and stands
/// for the concrete peer type `pt`.
pub open spec fn community_names(c: (u32, u32), pt: PeerType) -> bool {
    c.0 == VULTR_ASN && PeerType::of_value(c.1) == pt && pt != PeerType::Unknown
}

/// The concrete peer types that the compact communities of the reference AS
/// stand for.
pub open spec fn named_types(communities: Seq<(u32, u32)>) -> Set<PeerType> {
    Set::new(
        |pt: PeerType|
            exists|i: int|
                0 <= i < communities.len() && community_names(#[trigger] communities[i], pt),
    )
}

/// The peer types that a list of compact communities implies: the concrete
/// types that the communities of the reference AS stand for, or `Unknown`
/// alone where there is none.
pub open spec fn compact_types(communities: Seq<(u32, u32)>) -> Set<PeerType> {
    if named_types(communities) == Set::<PeerType>::empty() {
        set![PeerType::Unknown]
    } else {
        named_types(communities)
    }
}

/// Whether the large community `c` belongs to the reference AS and stands
/// for the hint `hint`, whose peer type is concrete.
pub open spec fn large_community_names(c: (u32, u32, u32), hint: (PeerType, u32)) -> bool {
    c.0 == VULTR_ASN && PeerType::of_value(c.1) == hint.0 && c.2 == hint.1 && hint.0
        != PeerType::Unknown
}

/// The hints with a concrete peer type that the large communities of the
/// reference AS stand for.
pub open spec fn named_hints(communities: Seq<(u32, u32, u32)>) -> Set<(PeerType, u32)> {
    Set::new(
        |hint: (PeerType, u32)|
            exists|i: int|
                0 <= i < communities.len() && large_community_names(
                    #[trigger] communities[i],
                    hint,
                ),
    )
}

/// The hints that a list of large communities implies: those that the
/// communities of the reference AS stand for, or `(Unknown, 0)` alone where
/// there is none.
pub open spec fn large_hints(communities: Seq<(u32, u32, u32)>) -> Set<(PeerType, u32)> {
    if named_hints(communities) == Set::<(PeerType, u32)>::empty() {
        set![(PeerType::Unknown, 0u32)]
    } else {
        named_hints(communities)
    }
}

/// A compact community of another AS than the reference AS, wherever it
/// stands in the list, changes nothing in what the list implies.
pub proof fn lemma_foreign_community_ignored(
    communities: Seq<(u32, u32)>,
    at: int,
    foreign: (u32, u32),
)
    requires
        0 <= at <= communities.len(),
        foreign.0 != VULTR_ASN,
    ensures
        compact_types(communities.insert(at, foreign)) == compact_types(communities),
{
    let longer = communities.insert(at, foreign);
    assert forall|pt: PeerType| named_types(longer).contains(pt) <==> named_types(
        communities,
    ).contains(pt) by {
        if named_types(longer).contains(pt) {
            let k = choose|k: int|
                0 <= k < longer.len() && community_names(#[trigger] longer[k], pt);
            if k < at {
                assert(community_names(communities[k], pt));
            } else {
                assert(k > at);
                assert(community_names(communities[k - 1], pt));
            }
        }
        if named_types(communities).contains(pt) {
            let k = choose|k: int|
                0 <= k < communities.len() && community_names(#[trigger] communities[k], pt);
            if k < at {
                assert(community_names(longer[k], pt));
            } else {
                assert(community_names(longer[k + 1], pt));
            }
        }
    }
    assert(named_types(longer) =~= named_types(communities));
}

/// A large community of another AS than the reference AS, wherever it
/// stands in the list, changes nothing in what the list implies.
pub proof fn lemma_foreign_large_community_ignored(
    communities: Seq<(u32, u32, u32)>,
    at: int,
    foreign: (u32, u32, u32),
)
    requires
        0 <= at <= communities.len(),
        foreign.0 != VULTR_ASN,
    ensures
        large_hints(communities.insert(at, foreign)) == large_hints(communities),
{
    let longer = communities.insert(at, foreign);
    assert forall|hint: (PeerType, u32)| named_hints(longer).contains(hint) <==> named_hints(
        communities,
    ).contains(hint) by {
        if named_hints(longer).contains(hint) {
            let k = choose|k: int|
                0 <= k < longer.len() && large_community_names(#[trigger] longer[k], hint);
            if k < at {
                assert(large_community_names(communities[k], hint));
            } else {
                assert(k > at);
                assert(large_community_names(communities[k - 1], hint));
            }
        }
        if named_hints(communities).contains(hint) {
            let k = choose|k: int|
                0 <= k < communities.len() && large_community_names(
                    #[trigger] communities[k],
                    hint,
                );
            if k < at {
                assert(large_community_names(longer[k], hint));
            } else {
                assert(large_community_names(longer[k + 1], hint));
            }
        }
    }
    assert(named_hints(longer) =~= named_hints(communities));
}

impl PeerType {
    /// Classifies the compact communities of a route.
    pub fn detect_from_communities(communities: &[(u32, u32)]) -> (types: PeerTypeSet)
        ensures
            types@ == compact_types(communities@),
    {
        let mut types = PeerTypeSet::new();
        let mut i: usize = 0;
        while i < communities.len()
            invariant
                i <= communities.len(),
                types@ == named_types(communities@.take(i as int)),
            decreases communities.len() - i,
        {
            let (asn, value) = communities[i];
            if asn == VULTR_ASN {
                let pt = PeerType::from(value);
                if pt != PeerType::Unknown {
                    types.insert(pt);
                }
            }
            proof {
                let done = communities@.take(i as int);
                let next = communities@.take(i + 1);
                let c = communities@[i as int];
                let more = if c.0 == VULTR_ASN && PeerType::of_value(c.1) != PeerType::Unknown {
                    named_types(done).insert(PeerType::of_value(c.1))
                } else {
                    named_types(done)
                };
                assert forall|pt: PeerType| named_types(next).contains(pt) <==> more.contains(
                    pt,
                ) by {
                    if named_types(next).contains(pt) {
                        let k = choose|k: int|
                            0 <= k < next.len() && community_names(#[trigger] next[k], pt);
                        if k < i {
                            assert(community_names(done[k], pt));
                        }
                    }
                    if named_types(done).contains(pt) {
                        let k = choose|k: int|
                            0 <= k < done.len() && community_names(#[trigger] done[k], pt);
                        assert(community_names(next[k], pt));
                    }
                    if more.contains(pt) && !named_types(done).contains(pt) {
                        assert(community_names(next[i as int], pt));
                    }
                }
                assert(named_types(next) =~= more);
            }
            i = i + 1;
        }
        assert(communities@.take(i as int) =~= communities@);
        if types.is_empty() {
            types.insert(PeerType::Unknown);
            assert(types@ =~= set![PeerType::Unknown]);
        }
        types
    }

    /// Classifies the large communities of a route.
    pub fn detect_from_large(large_communities: &[(u32, u32, u32)]) -> (hints: PeerHintSet)
        ensures
            hints@ == large_hints(large_communities@),
    {
        let mut hints = PeerHintSet::new();
        let mut i: usize = 0;
        while i < large_communities.len()
            invariant
                i <= large_communities.len(),
                hints@ == named_hints(large_communities@.take(i as int)),
            decreases large_communities.len() - i,
        {
            let (asn, value, neighbor) = large_communities[i];
            if asn == VULTR_ASN {
                let pt = PeerType::from(value);
                if pt != PeerType::Unknown {
                    hints.insert((pt, neighbor));
                }
            }
            proof {
                let done = large_communities@.take(i as int);
                let next = large_communities@.take(i + 1);
                let c = large_communities@[i as int];
                let more = if c.0 == VULTR_ASN && PeerType::of_value(c.1) != PeerType::Unknown {
                    named_hints(done).insert((PeerType::of_value(c.1), c.2))
                } else {
                    named_hints(done)
                };
                assert forall|hint: (PeerType, u32)| named_hints(next).contains(hint)
                    <==> more.contains(hint) by {
                    if named_hints(next).contains(hint) {
                        let k = choose|k: int|
                            0 <= k < next.len() && large_community_names(#[trigger] next[k], hint);
                        if k < i {
                            assert(large_community_names(done[k], hint));
                        }
                    }
                    if named_hints(done).contains(hint) {
                        let k = choose|k: int|
                            0 <= k < done.len() && large_community_names(#[trigger] done[k], hint);
                        assert(large_community_names(next[k], hint));
                    }
                    if more.contains(hint) && !named_hints(done).contains(hint) {
                        assert(large_community_names(next[i as int], hint));
                    }
                }
                assert(named_hints(next) =~= more);
            }
            i = i + 1;
        }
        assert(large_communities@.take(i as int) =~= large_communities@);
        if hints.is_empty() {
            hints.insert((PeerType::Unknown, 0));
            assert(hints@ =~= set![(PeerType::Unknown, 0u32)]);
        }
        hints
    }
}

/// The regular expression of one compact community: two decimal numbers in
/// round brackets, with a comma and any white space between them.
pub const COMMUNITY_PATTERN: &'static str = r"\((\d+)\s*,\s*(\d+)\)";

/// The regular expression of one large community: three decimal numbers in
/// round brackets, with commas and any white space between them.
pub const LARGE_COMMUNITY_PATTERN: &'static str = r"\((\d+)\s*,\s*(\d+)\s*,\s*(\d+)\)";

/// The number that capture group `i` of a match spells, if the group took
/// part in the match and spells a number of 32 bits.
pub open spec fn group_number(groups: Seq<Option<Seq<char>>>, i: int) -> Option<u32> {
    if 0 <= i < groups.len() {
        match groups[i] {
            Some(text) => decimal_u32(text),
            None => None,
        }
    } else {
        None
    }
}

/// The compact community that the capture groups of one match spell.
pub open spec fn captured_community(groups: Seq<Option<Seq<char>>>) -> Option<(u32, u32)> {
    match (group_number(groups, 1), group_number(groups, 2)) {
        (Some(asn), Some(value)) => Some((asn, value)),
        _ => None,
    }
}

/// The compact communities that a list of matches spells, in the order of
/// the matches. A match that spells none is left out.
pub open spec fn captured_communities(matches: Seq<Seq<Option<Seq<char>>>>) -> Seq<(u32, u32)>
    decreases matches.len(),
{
    if matches.len() == 0 {
        seq![]
    } else {
        let before = captured_communities(matches.drop_last());
        match captured_community(matches.last()) {
            Some(community) => before.push(community),
            None => before,
        }
    }
}

/// The large community that the capture groups of one match spell.
pub open spec fn captured_large_community(groups: Seq<Option<Seq<char>>>) -> Option<
    (u32, u32, u32),
> {
    match (group_number(groups, 1), group_number(groups, 2), group_number(groups, 3)) {
        (Some(asn), Some(value), Some(neighbor)) => Some((asn, value, neighbor)),
        _ => None,
    }
}

/// The large communities that a list of matches spells, in the order of the
/// matches. A match that spells none is left out.
pub open spec fn captured_large_communities(matches: Seq<Seq<Option<Seq<char>>>>) -> Seq<
    (u32, u32, u32),
>
    decreases matches.len(),
{
    if matches.len() == 0 {
        seq![]
    } else {
        let before = captured_large_communities(matches.drop_last());
        match captured_large_community(matches.last()) {
            Some(community) => before.push(community),
            None => before,
        }
    }
}

/// The compact communities in `text`: those that the matches of
/// [`COMMUNITY_PATTERN`] spell.
pub open spec fn communities_in(text: Seq<char>) -> Seq<(u32, u32)> {
    match regex_captures(COMMUNITY_PATTERN@, text) {
        Some(matches) => captured_communities(matches),
        None => seq![],
    }
}

/// The large communities in `text`: those that the matches of
/// [`LARGE_COMMUNITY_PATTERN`] spell.
pub open spec fn large_communities_in(text: Seq<char>) -> Seq<(u32, u32, u32)> {
    match regex_captures(LARGE_COMMUNITY_PATTERN@, text) {
        Some(matches) => captured_large_communities(matches),
        None => seq![],
    }
}

fn number_of_group(groups: &Vec<Option<String>>, i: usize) -> (number: Option<u32>)
    ensures
        number == group_number(groups.deep_view(), i as int),
{
    if i < groups.len() {
        match &groups[i] {
            Some(text) => parse_decimal(text.as_str()),
            None => None,
        }
    } else {
        None
    }
}

/// Reads the compact communities that a list of matches spells.
///
/// Each match holds the text of its capture groups, the whole match first.
/// A match whose first and second group both spell a number of 32 bits
/// gives one community; any other match is skipped.
pub fn communities_from_captures(matches: &Vec<Vec<Option<String>>>) -> (communities: Vec<
    (u32, u32),
>)
    ensures
        communities@ == captured_communities(matches.deep_view()),
{
    let mut communities: Vec<(u32, u32)> = Vec::new();
    let mut i: usize = 0;
    while i < matches.len()
        invariant
            i <= matches.len(),
            communities@ == captured_communities(matches.deep_view().take(i as int)),
        decreases matches.len() - i,
    {
        let asn = number_of_group(&matches[i], 1);
        let value = number_of_group(&matches[i], 2);
        proof {
            let next = matches.deep_view().take(i + 1);
            assert(next.drop_last() =~= matches.deep_view().take(i as int));
            assert(next.last() == matches[i as int].deep_view());
        }
        match (asn, value) {
            (Some(asn), Some(value)) => {
                communities.push((asn, value));
            },
            _ => {},
        }
        i = i + 1;
    }
    assert(matches.deep_view().take(i as int) =~= matches.deep_view());
    communities
}

/// Reads the large communities that a list of matches spells.
///
/// Each match holds the text of its capture groups, the whole match first.
/// A match whose first three groups all spell a number of 32 bits gives one
/// community; any other match is skipped.
pub fn large_communities_from_captures(matches: &Vec<Vec<Option<String>>>) -> (communities: Vec<
    (u32, u32, u32),
>)
    ensures
        communities@ == captured_large_communities(matches.deep_view()),
{
    let mut communities: Vec<(u32, u32, u32)> = Vec::new();
    let mut i: usize = 0;
    while i < matches.len()
        invariant
            i <= matches.len(),
            communities@ == captured_large_communities(matches.deep_view().take(i as int)),
        decreases matches.len() - i,
    {
        let asn = number_of_group(&matches[i], 1);
        let value = number_of_group(&matches[i], 2);
        let neighbor = number_of_group(&matches[i], 3);
        proof {
            let next = matches.deep_view().take(i + 1);
            assert(next.drop_last() =~= matches.deep_view().take(i as int));
            assert(next.last() == matches[i as int].deep_view());
        }
        match (asn, value, neighbor) {
            (Some(asn), Some(value), Some(neighbor)) => {
                communities.push((asn, value, neighbor));
            },
            _ => {},
        }
        i = i + 1;
    }
    assert(matches.deep_view().take(i as int) =~= matches.deep_view());
    communities
}

/// Extracts the compact communities from the text of a community attribute.
///
/// Parsing is best effort: text that does not match [`COMMUNITY_PATTERN`],
/// or whose numbers do not fit in 32 bits, is skipped, and the call never
/// fails. Were the pattern not accepted, no community would be found.
pub fn parse_communities(community_str: &str) -> (communities: Vec<(u32, u32)>)
    ensures
        communities@ == communities_in(community_str@),
{
    match find_captures(COMMUNITY_PATTERN, community_str) {
        Some(matches) => communities_from_captures(&matches),
        None => Vec::new(),
    }
}

/// Extracts the large communities from the text of a large-community
/// attribute.
///
/// Parsing is best effort: text that does not match
/// [`LARGE_COMMUNITY_PATTERN`], or whose numbers do not fit in 32 bits, is
/// skipped, and the call never fails. Were the pattern not accepted, no
/// community would be found.
pub fn parse_large_communities(community_str: &str) -> (communities: Vec<(u32, u32, u32)>)
    ensures
        communities@ == large_communities_in(community_str@),
{
    match find_captures(LARGE_COMMUNITY_PATTERN, community_str) {
        Some(matches) => large_communities_from_captures(&matches),
        None => Vec::new(),
    }
}

} // verus!
