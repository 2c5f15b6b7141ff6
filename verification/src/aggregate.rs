//! Folding the routes of one file into per-neighbour and per-file summaries.

use std::collections::HashMap;
use vstd::prelude::*;
use vstd::std_specs::iter::IteratorSpec;

use crate::checks::{
    checks_of, concrete, copy_path, lemma_at_most_three_checks, Check, CheckView,
};
use crate::counts::{
    bumped, bumped_all, bumped_times, count_in, distinct_names, holds_at,
    lemma_bumped_keeps_distinct, lemma_position_of, lemma_total_of_bumped,
    lemma_total_of_bumped_all, lemma_total_of_bumped_times, position_of, total_of, CheckCounts,
};
use crate::routes::{compact_types, first_position, large_hints, PeerType, Route};
use crate::VULTR_ASN;
use crate::sets::{hint_types, listed, PeerHintSet, PeerTypeSet};
use crate::text::has_colon;

verus! {

/// What is known of one neighbour of the reference AS within one file.
#[derive(Debug)]
pub struct PeerInfo {
    /// The peer types that the routes through this neighbour imply.
    pub peer_types: PeerTypeSet,
    /// The number of routes that name this neighbour.
    pub num_routes: usize,
    /// How often each diagnostic was raised for this neighbour.
    pub failed_checks: CheckCounts,
}

/// A [`PeerInfo`] as a mathematical value.
pub struct PeerInfoView {
    pub peer_types: Set<PeerType>,
    pub num_routes: nat,
    pub failed_checks: Seq<(Seq<char>, nat)>,
}

/// The summary of one file.
#[derive(Debug)]
pub struct FileResult {
    /// 4 or 6, by the first route of the file; 0 where the file has no route.
    pub ip_version: u8,
    /// The neighbours of the reference AS, by AS number.
    pub peers: HashMap<u32, PeerInfo>,
    /// How often each diagnostic was raised in the file.
    pub failed_checks: CheckCounts,
}

/// A [`FileResult`] as a mathematical value.
pub struct FileResultView {
    pub ip_version: u8,
    pub peers: Map<u32, PeerInfoView>,
    pub failed_checks: Seq<(Seq<char>, nat)>,
}

/// One line of a file, as far as it could be read.
#[derive(Debug, Clone)]
pub enum Line {
    /// A line without text.
    Blank,
    /// A line that is no route; it holds the text of the line.
    Malformed(String),
    /// A line that is a route.
    Parsed(Route),
}

impl View for PeerInfo {
    type V = PeerInfoView;

    open spec fn view(&self) -> PeerInfoView {
        PeerInfoView {
            peer_types: self.peer_types@,
            num_routes: self.num_routes as nat,
            failed_checks: self.failed_checks@,
        }
    }
}

impl View for FileResult {
    type V = FileResultView;

    open spec fn view(&self) -> FileResultView {
        FileResultView {
            ip_version: self.ip_version,
            peers: self.peers@.map_values(|info: PeerInfo| info@),
            failed_checks: self.failed_checks@,
        }
    }
}

/// The IP version that a prefix shows: 6 where it holds a colon, else 4.
pub open spec fn sniffed_version(net: Seq<char>) -> u8 {
    if net.contains(':') {
        6
    } else {
        4
    }
}

/// The peer types that the compact communities of `route` imply; `Unknown`
/// alone where the route has no such attribute.
pub open spec fn route_types(route: Route) -> Set<PeerType> {
    match route.attributes.bgp_community {
        Some(communities) => compact_types(communities@),
        None => set![PeerType::Unknown],
    }
}

/// The hints that the large communities of `route` imply; `(Unknown, 0)`
/// alone where the route has no such attribute.
pub open spec fn route_hints(route: Route) -> Set<(PeerType, u32)> {
    match route.attributes.bgp_large_community {
        Some(communities) => large_hints(communities@),
        None => set![(PeerType::Unknown, 0u32)],
    }
}

/// The diagnostics of the route on line `linenum`: `RouteMissingNeighbor`
/// where its AS path names no neighbour, else what the consistency rules
/// raise.
pub open spec fn route_checks(linenum: nat, route: Route) -> Seq<CheckView> {
    match route.vultr_neighbor() {
        None => seq![CheckView::RouteMissingNeighbor { linenum, as_path: route.as_path() }],
        Some(asn) => checks_of(
            linenum,
            route.as_path(),
            asn,
            route_types(route),
            route_hints(route),
        ),
    }
}

/// The diagnostics of line `linenum`.
pub open spec fn line_checks(linenum: nat, line: Line) -> Seq<CheckView> {
    match line {
        Line::Blank => seq![],
        Line::Malformed(text) => seq![CheckView::JsonParseFailure { linenum, line: text@ }],
        Line::Parsed(route) => route_checks(linenum, route),
    }
}

/// The names of `checks`.
pub open spec fn names_of(checks: Seq<CheckView>) -> Seq<Seq<char>> {
    checks.map_values(|check: CheckView| check.name())
}

/// The name under which a neighbour with conflicting peer types is counted.
pub open spec fn conflict_name() -> Seq<char> {
    "AsInconsistentPeerTypes"@
}

/// The peer types that a neighbour ends with: the concrete ones, or
/// `Unknown` alone where there is none.
pub open spec fn settled_types(types: Set<PeerType>) -> Set<PeerType> {
    if concrete(types) == Set::<PeerType>::empty() {
        set![PeerType::Unknown]
    } else {
        concrete(types)
    }
}

/// Whether `types` holds more than one concrete peer type.
pub open spec fn conflicting(types: Set<PeerType>) -> bool {
    concrete(types).len() > 1
}

impl PeerInfoView {
    /// A neighbour of which nothing is known yet.
    pub open spec fn empty() -> PeerInfoView {
        PeerInfoView { peer_types: Set::empty(), num_routes: 0, failed_checks: Seq::empty() }
    }

    /// The neighbour after one more route that raised `checks` and implies
    /// the peer types `types`.
    pub open spec fn with_route(self, checks: Seq<CheckView>, types: Set<PeerType>)
        -> PeerInfoView {
        PeerInfoView {
            peer_types: self.peer_types.union(types),
            num_routes: self.num_routes + 1,
            failed_checks: bumped_all(self.failed_checks, names_of(checks)),
        }
    }

    /// The neighbour at the end of the file: `Unknown` gives way to concrete
    /// peer types, and more than one concrete peer type is counted as a
    /// diagnostic.
    pub open spec fn finalized(self) -> PeerInfoView {
        PeerInfoView {
            peer_types: settled_types(self.peer_types),
            num_routes: self.num_routes,
            failed_checks: if conflicting(self.peer_types) {
                bumped(self.failed_checks, conflict_name())
            } else {
                self.failed_checks
            },
        }
    }
}

/// The neighbours of `peers` that hold more than one concrete peer type.
pub open spec fn conflicting_peers(peers: Map<u32, PeerInfoView>) -> Set<u32> {
    Set::new(|asn: u32| peers.contains_key(asn) && conflicting(peers[asn].peer_types))
}

impl FileResultView {
    /// The summary of a file without lines.
    pub open spec fn empty() -> FileResultView {
        FileResultView { ip_version: 0, peers: Map::empty(), failed_checks: Seq::empty() }
    }

    /// What is known of the neighbour `asn`.
    pub open spec fn peer(self, asn: u32) -> PeerInfoView {
        if self.peers.contains_key(asn) {
            self.peers[asn]
        } else {
            PeerInfoView::empty()
        }
    }

    /// The summary after the route on line `linenum`.
    ///
    /// The first route of a file sets the IP version. Every diagnostic of the
    /// route is counted for the file. A route whose AS path names a
    /// neighbour is counted for that neighbour, with its diagnostics and
    /// with all peer types that its communities imply, `Unknown` included.
    pub open spec fn with_route(self, linenum: nat, route: Route) -> FileResultView {
        let checks = route_checks(linenum, route);
        FileResultView {
            ip_version: if self.ip_version == 0 {
                sniffed_version(route.net@)
            } else {
                self.ip_version
            },
            peers: match route.vultr_neighbor() {
                None => self.peers,
                Some(asn) => self.peers.insert(
                    asn,
                    self.peer(asn).with_route(
                        checks,
                        route_types(route).union(hint_types(route_hints(route))),
                    ),
                ),
            },
            failed_checks: bumped_all(self.failed_checks, names_of(checks)),
        }
    }

    /// The summary after line `linenum`.
    pub open spec fn with_line(self, linenum: nat, line: Line) -> FileResultView {
        match line {
            Line::Blank => self,
            Line::Malformed(_) => FileResultView {
                failed_checks: bumped_all(self.failed_checks, names_of(line_checks(linenum, line))),
                ..self
            },
            Line::Parsed(route) => self.with_route(linenum, route),
        }
    }

    /// The summary at the end of the file: every neighbour is finalized, and
    /// each neighbour with conflicting peer types is counted once for the
    /// file.
    pub open spec fn finalized(self) -> FileResultView {
        FileResultView {
            ip_version: self.ip_version,
            peers: self.peers.map_values(|info: PeerInfoView| info.finalized()),
            failed_checks: bumped_times(
                self.failed_checks,
                conflict_name(),
                conflicting_peers(self.peers).len(),
            ),
        }
    }
}

/// The summary of `lines` before the end of the file, where line `i` of the
/// file is `lines[i]`.
pub open spec fn scanned(lines: Seq<Line>) -> FileResultView
    decreases lines.len(),
{
    if lines.len() == 0 {
        FileResultView::empty()
    } else {
        scanned(lines.drop_last()).with_line((lines.len() - 1) as nat, lines.last())
    }
}

/// The summary of the file whose lines are `lines`.
pub open spec fn summary_of(lines: Seq<Line>) -> FileResultView {
    scanned(lines).finalized()
}

impl PeerInfo {
    /// Returns a neighbour of which nothing is known yet.
    pub fn new() -> (info: PeerInfo)
        ensures
            info@ == PeerInfoView::empty(),
    {
        PeerInfo {
            peer_types: PeerTypeSet::new(),
            num_routes: 0,
            failed_checks: CheckCounts::new(),
        }
    }
}

impl Default for PeerInfo {
    fn default() -> (info: PeerInfo)
        ensures
            info@ == PeerInfoView::empty(),
    {
        PeerInfo::new()
    }
}

impl Clone for PeerInfo {
    fn clone(&self) -> (copy: PeerInfo)
        ensures
            copy@ == self@,
    {
        PeerInfo {
            peer_types: self.peer_types,
            num_routes: self.num_routes,
            failed_checks: self.failed_checks.clone(),
        }
    }
}

/// Counts one more occurrence of each of `checks`, in their order.
pub fn record_all(counts: &mut CheckCounts, checks: &Vec<Check>)
    requires
        total_of(old(counts)@) + checks.len() <= usize::MAX,
    ensures
        final(counts)@ == bumped_all(old(counts)@, names_of(checks.deep_view())),
{
    let mut i: usize = 0;
    assert(names_of(checks.deep_view().take(0)) =~= Seq::<Seq<char>>::empty());
    while i < checks.len()
        invariant
            i <= checks.len(),
            total_of(old(counts)@) + checks.len() <= usize::MAX,
            counts@ == bumped_all(old(counts)@, names_of(checks.deep_view().take(i as int))),
            total_of(counts@) == total_of(old(counts)@) + i,
        decreases checks.len() - i,
    {
        proof {
            let done = names_of(checks.deep_view().take(i as int));
            let next = names_of(checks.deep_view().take(i + 1));
            assert(next.drop_last() =~= done);
            assert(next.last() == checks[i as int]@.name());
            lemma_total_of_bumped(counts@, checks[i as int]@.name());
        }
        counts.record(checks[i].name());
        i = i + 1;
    }
    assert(checks.deep_view().take(i as int) =~= checks.deep_view());
}

/// Whether the counters of `result` are what at most `lines` lines can have
/// brought about.
spec fn fits(result: FileResult, lines: nat) -> bool {
    &&& total_of(result.failed_checks@) <= 3 * lines
    &&& result.peers@.dom().finite()
    &&& result.peers@.dom().len() <= lines
    &&& forall|asn: u32| #[trigger]
        result.peers@.contains_key(asn) ==> result.peers@[asn].num_routes <= lines && total_of(
            result.peers@[asn].failed_checks@,
        ) <= 3 * lines
}

fn classify_compact(route: &Route) -> (types: PeerTypeSet)
    ensures
        types@ == route_types(*route),
{
    match &route.attributes.bgp_community {
        Some(communities) => PeerType::detect_from_communities(communities.as_slice()),
        None => PeerTypeSet::singleton(PeerType::Unknown),
    }
}

fn classify_large(route: &Route) -> (hints: PeerHintSet)
    ensures
        hints@ == route_hints(*route),
{
    match &route.attributes.bgp_large_community {
        Some(communities) => PeerType::detect_from_large(communities.as_slice()),
        None => PeerHintSet::singleton((PeerType::Unknown, 0)),
    }
}

fn absorb_route(result: &mut FileResult, idx: usize, route: &Route, Ghost(lines): Ghost<
    nat,
>) -> (checks: Vec<Check>)
    requires
        fits(*old(result), lines),
        4 * (lines + 1) <= usize::MAX,
    ensures
        final(result)@ == old(result)@.with_route(idx as nat, *route),
        fits(*final(result), lines + 1),
        checks.deep_view() == route_checks(idx as nat, *route),
{
    if result.ip_version == 0 {
        result.ip_version = if has_colon(route.net.as_str()) {
            6
        } else {
            4
        };
    }
    match route.extract_vultr_neighbor() {
        None => {
            let mut checks: Vec<Check> = Vec::new();
            checks.push(
                Check::RouteMissingNeighbor {
                    linenum: idx,
                    as_path: copy_path(&route.attributes.bgp_as_path),
                },
            );
            assert(checks.deep_view() =~= route_checks(idx as nat, *route));
            record_all(&mut result.failed_checks, &checks);
            proof {
                lemma_total_of_bumped_all(old(result).failed_checks@, names_of(checks.deep_view()));
                assert(result.peers@ == old(result).peers@);
            }
            checks
        },
        Some(asn) => {
            let comm = classify_compact(route);
            let large = classify_large(route);
            let checks = Check::run(idx, route, asn, &comm, &large);
            proof {
                lemma_at_most_three_checks(
                    idx as nat,
                    route.as_path(),
                    asn,
                    route_types(*route),
                    route_hints(*route),
                );
                assert(checks.len() == checks.deep_view().len());
                lemma_total_of_bumped_all(old(result).failed_checks@, names_of(checks.deep_view()));
            }
            let mut info = match result.peers.remove(&asn) {
                Some(info) => info,
                None => PeerInfo::new(),
            };
            assert(info@ == old(result)@.peer(asn));
            proof {
                lemma_total_of_bumped_all(info.failed_checks@, names_of(checks.deep_view()));
            }
            info.num_routes = info.num_routes + 1;
            record_all(&mut result.failed_checks, &checks);
            record_all(&mut info.failed_checks, &checks);
            info.peer_types.extend(&comm);
            info.peer_types.extend(&large.peer_types());
            assert(info.peer_types@ =~= old(result)@.peer(asn).peer_types.union(
                route_types(*route).union(hint_types(route_hints(*route))),
            ));
            result.peers.insert(asn, info);
            proof {
                assert(result.peers@.dom() =~= old(result).peers@.dom().insert(asn));
                assert(result@.peers =~= old(result)@.with_route(idx as nat, *route).peers);
            }
            checks
        },
    }
}

/// The diagnostics that the end of a file raises for the neighbours `keys`,
/// in their order: one for each neighbour that holds more than one concrete
/// peer type, with these types in declaration order.
pub open spec fn conflict_checks(peers: Map<u32, PeerInfoView>, keys: Seq<u32>) -> Seq<CheckView>
    decreases keys.len(),
{
    if keys.len() == 0 {
        seq![]
    } else {
        let before = conflict_checks(peers, keys.drop_last());
        let asn = keys.last();
        if conflicting(peers[asn].peer_types) {
            before.push(
                CheckView::AsInconsistentPeerTypes {
                    asn,
                    types: listed(settled_types(peers[asn].peer_types)),
                },
            )
        } else {
            before
        }
    }
}

/// Whether `keys` lists each neighbour of `peers` once, and nothing else.
pub open spec fn lists_peers(keys: Seq<u32>, peers: Map<u32, PeerInfoView>) -> bool {
    keys.no_duplicates() && keys.to_set() == peers.dom()
}

/// The members of `among` that hold more than one concrete peer type.
pub open spec fn conflicting_among(peers: Map<u32, PeerInfoView>, among: Set<u32>) -> Set<u32> {
    Set::new(|asn: u32| among.contains(asn) && conflicting(peers[asn].peer_types))
}

/// The end of a file raises one diagnostic for each neighbour with
/// conflicting peer types among those listed.
pub proof fn lemma_conflict_checks_len(peers: Map<u32, PeerInfoView>, keys: Seq<u32>)
    requires
        keys.no_duplicates(),
    ensures
        conflicting_among(peers, keys.to_set()).finite(),
        conflict_checks(peers, keys).len() == conflicting_among(peers, keys.to_set()).len(),
    decreases keys.len(),
{
    if keys.len() == 0 {
        assert(conflicting_among(peers, keys.to_set()) =~= Set::<u32>::empty());
    } else {
        let before = keys.drop_last();
        let asn = keys.last();
        lemma_conflict_checks_len(peers, before);
        assert(keys =~= before.push(asn));
        before.lemma_push_to_set_commute(asn);
        assert(!before.contains(asn)) by {
            if before.contains(asn) {
                let k = choose|k: int| 0 <= k < before.len() && before[k] == asn;
                assert(keys[k] == keys[keys.len() - 1]);
            }
        }
        let smaller = conflicting_among(peers, before.to_set());
        assert(!smaller.contains(asn));
        if conflicting(peers[asn].peer_types) {
            assert(conflicting_among(peers, keys.to_set()) =~= smaller.insert(asn));
        } else {
            assert(conflicting_among(peers, keys.to_set()) =~= smaller);
        }
    }
}

/// A list with one more member at its end holds what it held, and that
/// member.
pub proof fn lemma_contains_pushed(keys: Seq<u32>, last: u32, asn: u32)
    ensures
        keys.push(last).contains(asn) <==> (keys.contains(asn) || asn == last),
{
    let longer = keys.push(last);
    if longer.contains(asn) {
        let k = choose|k: int| 0 <= k < longer.len() && longer[k] == asn;
        if k < keys.len() {
            assert(keys[k] == asn);
        }
    }
    if keys.contains(asn) {
        let k = choose|k: int| 0 <= k < keys.len() && keys[k] == asn;
        assert(longer[k] == asn);
    }
    if asn == last {
        assert(longer[keys.len() as int] == asn);
    }
}

impl PeerInfo {
    /// Finalizes the neighbour `asn` at the end of a file, and returns the
    /// diagnostic that this raises, if any.
    pub fn settle(&mut self, asn: u32) -> (raised: Option<Check>)
        requires
            total_of(old(self)@.failed_checks) < usize::MAX,
        ensures
            final(self)@ == old(self)@.finalized(),
            match raised {
                Some(check) => conflicting(old(self)@.peer_types) && check@
                    == (CheckView::AsInconsistentPeerTypes {
                    asn,
                    types: listed(settled_types(old(self)@.peer_types)),
                }),
                None => !conflicting(old(self)@.peer_types),
            },
    {
        self.peer_types.remove(&PeerType::Unknown);
        if self.peer_types.is_empty() {
            self.peer_types.insert(PeerType::Unknown);
            assert(self.peer_types@ =~= set![PeerType::Unknown]);
            assert(Set::<PeerType>::empty().len() == 0);
            None
        } else if self.peer_types.len() > 1 {
            let check = Check::AsInconsistentPeerTypes { asn, types: self.peer_types.to_vec() };
            self.failed_checks.record(check.name());
            Some(check)
        } else {
            None
        }
    }
}

/// The running summary of a file whose lines are still being read.
pub struct FileScan {
    result: FileResult,
    lines: usize,
}

impl View for FileScan {
    type V = FileResultView;

    closed spec fn view(&self) -> FileResultView {
        self.result@
    }
}

pub(crate) fn keys_of(peers: &HashMap<u32, PeerInfo>) -> (keys: Vec<u32>)
    ensures
        keys@.no_duplicates(),
        keys@.to_set() == peers@.dom(),
{
    let mut keys: Vec<u32> = Vec::new();
    for asn in walk: peers.keys()
        invariant
            keys@.len() == walk.index(),
            forall|i: int| 0 <= i < keys@.len() ==> keys@[i] == *walk.seq()[i],
    {
        keys.push(*asn);
    }
    assert(keys@ =~= peers.keys().remaining().unref());
    keys
}

impl FileScan {
    #[verifier::type_invariant]
    spec fn within_budget(self) -> bool {
        4 * self.lines <= usize::MAX && fits(self.result, self.lines as nat)
    }

    /// The number of lines that the scan has taken.
    pub closed spec fn lines(self) -> nat {
        self.lines as nat
    }

    /// Whether the counters of the scan can take one more line.
    pub open spec fn has_room(self) -> bool {
        4 * (self.lines() + 1) <= usize::MAX
    }

    /// Starts the scan of a file.
    pub fn new() -> (scan: FileScan)
        ensures
            scan@ == FileResultView::empty(),
            scan.lines() == 0,
    {
        let result = FileResult {
            ip_version: 0,
            peers: HashMap::new(),
            failed_checks: CheckCounts::new(),
        };
        assert(result@.peers =~= Map::<u32, PeerInfoView>::empty());
        FileScan { result, lines: 0 }
    }

    /// Tells whether the counters of the scan can take one more line.
    pub fn can_take_line(&self) -> (room: bool)
        ensures
            room == self.has_room(),
    {
        self.lines < usize::MAX / 4
    }

    /// Takes line `idx` of the file into the summary, and returns the
    /// diagnostics of that line.
    pub fn add_line(self, idx: usize, line: &Line) -> (out: (FileScan, Vec<Check>))
        requires
            self.has_room(),
        ensures
            out.0@ == self@.with_line(idx as nat, *line),
            out.0.lines() == self.lines() + 1,
            out.1.deep_view() == line_checks(idx as nat, *line),
    {
        proof {
            use_type_invariant(&self);
        }
        let FileScan { result, lines } = self;
        let mut result = result;
        let checks = match line {
            Line::Blank => {
                let checks: Vec<Check> = Vec::new();
                assert(checks.deep_view() =~= line_checks(idx as nat, *line));
                checks
            },
            Line::Malformed(text) => {
                let mut checks: Vec<Check> = Vec::new();
                checks.push(Check::JsonParseFailure { linenum: idx, line: text.clone() });
                assert(checks.deep_view() =~= line_checks(idx as nat, *line));
                proof {
                    lemma_total_of_bumped_all(result.failed_checks@, names_of(checks.deep_view()));
                }
                record_all(&mut result.failed_checks, &checks);
                checks
            },
            Line::Parsed(route) => absorb_route(&mut result, idx, route, Ghost(lines as nat)),
        };
        (FileScan { result, lines: lines + 1 }, checks)
    }

    /// Ends the scan: finalizes every neighbour, and returns the summary of
    /// the file with the diagnostics that the end of the file raises. These
    /// follow the neighbours in no particular order.
    pub fn finish(self) -> (out: (FileResult, Vec<Check>))
        ensures
            out.0@ == self@.finalized(),
            exists|keys: Seq<u32>|
                lists_peers(keys, self@.peers) && out.1.deep_view() == #[trigger] conflict_checks(
                    self@.peers,
                    keys,
                ),
    {
        proof {
            use_type_invariant(&self);
        }
        let ghost initial = self@;
        let FileScan { result, lines } = self;
        let mut result = result;
        let keys = keys_of(&result.peers);
        let ghost start = result;
        assert(start@ == initial);
        let ghost before = result@.peers;
        let mut raised: Vec<Check> = Vec::new();
        proof {
            keys@.unique_seq_to_set();
            assert(before.dom() =~= start.peers@.dom());
            assert(raised.deep_view() =~= conflict_checks(before, keys@.take(0)));
        }
        let mut i: usize = 0;
        while i < keys.len()
            invariant
                i <= keys.len(),
                keys@.no_duplicates(),
                keys@.to_set() == start.peers@.dom(),
                keys@.len() <= lines,
                4 * lines <= usize::MAX,
                fits(start, lines as nat),
                before == start@.peers,
                result.ip_version == start.ip_version,
                result.peers@.dom() == start.peers@.dom(),
                forall|asn: u32| #[trigger]
                    start.peers@.contains_key(asn) ==> result.peers@[asn]@ == if keys@.take(
                        i as int,
                    ).contains(asn) {
                        before[asn].finalized()
                    } else {
                        before[asn]
                    },
                forall|asn: u32| #[trigger]
                    start.peers@.contains_key(asn) && !keys@.take(i as int).contains(asn)
                        ==> result.peers@[asn] == start.peers@[asn],
                raised.deep_view() == conflict_checks(before, keys@.take(i as int)),
                raised.len() <= i,
                result.failed_checks@ == bumped_times(
                    start.failed_checks@,
                    conflict_name(),
                    raised.len() as nat,
                ),
                total_of(result.failed_checks@) == total_of(start.failed_checks@) + raised.len(),
            decreases keys.len() - i,
        {
            let asn = keys[i];
            proof {
                assert(keys@.contains(asn));
                assert(keys@.to_set().contains(asn));
                assert(start.peers@.contains_key(asn));
                let shorter = keys@.take(i as int);
                assert(!shorter.contains(asn)) by {
                    if shorter.contains(asn) {
                        let k = choose|k: int| 0 <= k < shorter.len() && shorter[k] == asn;
                        assert(keys@[k] == keys@[i as int]);
                    }
                }
                assert(keys@.take(i + 1) =~= keys@.take(i as int).push(asn));
                assert(keys@.take(i + 1).drop_last() =~= keys@.take(i as int));
            }
            let ghost map_before = result.peers@;
            match result.peers.remove(&asn) {
                Some(info) => {
                    let mut info = info;
                    assert(info == start.peers@[asn]);
                    let settled = info.settle(asn);
                    match settled {
                        Some(check) => {
                            proof {
                                lemma_total_of_bumped(result.failed_checks@, conflict_name());
                            }
                            result.failed_checks.record(check.name());
                            raised.push(check);
                            assert(raised.deep_view() =~= conflict_checks(
                                before,
                                keys@.take(i + 1),
                            ));
                        },
                        None => {},
                    }
                    result.peers.insert(asn, info);
                    proof {
                        let shorter = keys@.take(i as int);
                        let longer = keys@.take(i + 1);
                        assert(longer == shorter.push(asn));
                        assert(result.peers@.dom() =~= start.peers@.dom());
                        assert forall|other: u32| #[trigger]
                            start.peers@.contains_key(other) implies result.peers@[other]@
                            == if longer.contains(other) {
                            before[other].finalized()
                        } else {
                            before[other]
                        } by {
                            lemma_contains_pushed(shorter, asn, other);
                            if other != asn {
                                assert(result.peers@[other] == map_before[other]);
                            }
                        }
                        assert forall|other: u32| #[trigger]
                            start.peers@.contains_key(other) && !longer.contains(
                                other,
                            ) implies result.peers@[other] == start.peers@[other] by {
                            lemma_contains_pushed(shorter, asn, other);
                            assert(result.peers@[other] == map_before[other]);
                        }
                    }
                },
                None => {
                    assert(false);
                },
            }
            i = i + 1;
        }
        proof {
            assert(keys@.take(i as int) =~= keys@);
            lemma_conflict_checks_len(before, keys@);
            assert(conflicting_among(before, keys@.to_set()) =~= conflicting_peers(before));
            assert(result@.peers =~= start@.finalized().peers) by {
                assert forall|asn: u32| start.peers@.contains_key(asn) implies keys@.contains(
                    asn,
                ) by {
                    assert(keys@.to_set().contains(asn));
                }
            }
            assert(start@.peers.dom() =~= start.peers@.dom());
            assert(lists_peers(keys@, start@.peers));
            assert(raised.deep_view() == conflict_checks(initial.peers, keys@));
            assert(lists_peers(keys@, initial.peers));
        }
        (result, raised)
    }
}

/// Summarises the file whose lines are `lines`, where line `i` of the file
/// is `lines[i]`.
pub fn process_lines(lines: &Vec<Line>) -> (result: FileResult)
    requires
        4 * lines.len() <= usize::MAX,
    ensures
        result@ == summary_of(lines@),
{
    let mut scan = FileScan::new();
    let mut i: usize = 0;
    assert(lines@.take(0) =~= Seq::<Line>::empty());
    while i < lines.len()
        invariant
            i <= lines.len(),
            4 * lines.len() <= usize::MAX,
            scan.lines() == i,
            scan@ == scanned(lines@.take(i as int)),
        decreases lines.len() - i,
    {
        proof {
            let next = lines@.take(i + 1);
            assert(next.drop_last() =~= lines@.take(i as int));
            assert(next.last() == lines@[i as int]);
        }
        let (next, _) = scan.add_line(i, &lines[i]);
        scan = next;
        i = i + 1;
    }
    assert(lines@.take(i as int) =~= lines@);
    let (result, _) = scan.finish();
    result
}

/// The number of diagnostics that the lines of a file raise, one by one.
pub open spec fn diagnostics_in(lines: Seq<Line>) -> nat
    decreases lines.len(),
{
    if lines.len() == 0 {
        0
    } else {
        diagnostics_in(lines.drop_last()) + line_checks(
            (lines.len() - 1) as nat,
            lines.last(),
        ).len()
    }
}

/// A route whose AS path is missing, does not hold the reference AS, or
/// holds it at the last hop only, raises `RouteMissingNeighbor` and nothing
/// else. It is counted for the file, and for no neighbour.
pub proof fn lemma_route_without_neighbor(summary: FileResultView, linenum: nat, route: Route)
    requires
        route.as_path() matches Some(path) ==> !path.contains(VULTR_ASN) || first_position(
            path,
            VULTR_ASN,
            path.len() - 1,
        ),
    ensures
        route_checks(linenum, route) == seq![
            (CheckView::RouteMissingNeighbor { linenum, as_path: route.as_path() }),
        ],
        summary.with_route(linenum, route).peers == summary.peers,
        summary.with_route(linenum, route).failed_checks == bumped(
            summary.failed_checks,
            "RouteMissingNeighbor"@,
        ),
{
    match route.attributes.bgp_as_path {
        Some(hops) => {
            let path = hops@;
            if exists|p: int| first_position(path, VULTR_ASN, p) {
                let p = choose|p: int| first_position(path, VULTR_ASN, p);
                assert(path.contains(VULTR_ASN));
                crate::routes::lemma_first_position_unique(path, VULTR_ASN, p, path.len() - 1);
            }
        },
        None => {},
    }
    assert(route.vultr_neighbor() is None);
    let names = names_of(route_checks(linenum, route));
    assert(names.drop_last() =~= Seq::<Seq<char>>::empty());
    assert(names.last() == "RouteMissingNeighbor"@);
    assert(bumped_all(summary.failed_checks, names.drop_last()) == summary.failed_checks);
}

/// Before the end of the file, the counts of the file add up to the number
/// of diagnostics that its lines raise.
pub proof fn lemma_scanned_total(lines: Seq<Line>)
    ensures
        total_of(scanned(lines).failed_checks) == diagnostics_in(lines),
    decreases lines.len(),
{
    if lines.len() > 0 {
        lemma_scanned_total(lines.drop_last());
        let before = scanned(lines.drop_last());
        let linenum = (lines.len() - 1) as nat;
        let names = names_of(line_checks(linenum, lines.last()));
        lemma_total_of_bumped_all(before.failed_checks, names);
        match lines.last() {
            Line::Blank => {},
            Line::Malformed(_) => {},
            Line::Parsed(route) => {},
        }
    }
}

/// The counts of a file add up to the number of diagnostics that its lines
/// raise, and one more for each neighbour that ends with conflicting peer
/// types.
pub proof fn lemma_summary_total(lines: Seq<Line>)
    ensures
        total_of(summary_of(lines).failed_checks) == diagnostics_in(lines) + conflicting_peers(
            scanned(lines).peers,
        ).len(),
{
    lemma_scanned_total(lines);
    lemma_total_of_bumped_times(
        scanned(lines).failed_checks,
        conflict_name(),
        conflicting_peers(scanned(lines).peers).len(),
    );
}

/// A file has finitely many neighbours.
pub proof fn lemma_scanned_peers_finite(lines: Seq<Line>)
    ensures
        scanned(lines).peers.dom().finite(),
    decreases lines.len(),
{
    if lines.len() > 0 {
        lemma_scanned_peers_finite(lines.drop_last());
        let before = scanned(lines.drop_last());
        let after = scanned(lines);
        match lines.last() {
            Line::Blank => {},
            Line::Malformed(_) => {},
            Line::Parsed(route) => {
                match route.vultr_neighbor() {
                    Some(asn) => {
                        assert(after.peers.dom() =~= before.peers.dom().insert(asn));
                    },
                    None => {},
                }
            },
        }
    }
}

/// After one more occurrence of a name, the name has a count of at least 1.
pub proof fn lemma_bumped_counts(entries: Seq<(Seq<char>, nat)>, name: Seq<char>)
    ensures
        count_in(bumped(entries, name), name) >= 1,
{
    let at = position_of(entries, name);
    let after = bumped(entries, name);
    if exists|i: int| holds_at(entries, name, i) {
        assert(holds_at(entries, name, at));
        assert forall|k: int| 0 <= k < at implies (#[trigger] after[k]).0 != name by {
            assert(after[k] == entries[k]);
        }
        lemma_position_of(after, name, at);
    } else {
        assert forall|k: int| 0 <= k < entries.len() implies (#[trigger] after[k]).0 != name by {
            assert(after[k] == entries[k]);
            if entries[k].0 == name {
                crate::counts::lemma_first_holder(entries, name, k);
            }
        }
        lemma_position_of(after, name, entries.len() as int);
    }
}

/// Every neighbour that ends a file with more than one concrete peer type
/// has the diagnostic of conflicting peer types in its own counts and in
/// those of the file.
pub proof fn lemma_conflicts_are_counted(lines: Seq<Line>, asn: u32)
    requires
        summary_of(lines).peers.contains_key(asn),
        concrete(summary_of(lines).peers[asn].peer_types).len() > 1,
    ensures
        count_in(summary_of(lines).peers[asn].failed_checks, conflict_name()) >= 1,
        count_in(summary_of(lines).failed_checks, conflict_name()) >= 1,
{
    let before = scanned(lines);
    let info = before.peers[asn];
    assert(before.peers.contains_key(asn));
    assert(summary_of(lines).peers[asn] == info.finalized());
    if concrete(info.peer_types) == Set::<PeerType>::empty() {
        assert(concrete(set![PeerType::Unknown]) =~= Set::<PeerType>::empty());
    } else {
        assert(concrete(concrete(info.peer_types)) =~= concrete(info.peer_types));
    }
    assert(conflicting(info.peer_types));
    lemma_bumped_counts(info.failed_checks, conflict_name());
    let conflicts = conflicting_peers(before.peers);
    lemma_scanned_peers_finite(lines);
    assert(conflicts.subset_of(before.peers.dom()));
    vstd::set_lib::lemma_len_subset(conflicts, before.peers.dom());
    assert(conflicts.contains(asn));
    assert(conflicts.len() >= 1) by {
        if conflicts.len() == 0 {
            assert(conflicts =~= Set::<u32>::empty());
        }
    }
    let times = conflicts.len();
    lemma_bumped_counts(
        bumped_times(before.failed_checks, conflict_name(), (times - 1) as nat),
        conflict_name(),
    );
}

/// No name occurs twice in the counts of a file.
pub proof fn lemma_summary_names_distinct(lines: Seq<Line>)
    ensures
        distinct_names(summary_of(lines).failed_checks),
{
    lemma_scanned_names_distinct(lines);
    lemma_bumped_times_keeps_distinct(
        scanned(lines).failed_checks,
        conflict_name(),
        conflicting_peers(scanned(lines).peers).len(),
    );
}

/// No name occurs twice in the counts of a file before its end.
pub proof fn lemma_scanned_names_distinct(lines: Seq<Line>)
    ensures
        distinct_names(scanned(lines).failed_checks),
    decreases lines.len(),
{
    if lines.len() > 0 {
        lemma_scanned_names_distinct(lines.drop_last());
        let before = scanned(lines.drop_last());
        let linenum = (lines.len() - 1) as nat;
        lemma_bumped_all_keeps_distinct(
            before.failed_checks,
            names_of(line_checks(linenum, lines.last())),
        );
        match lines.last() {
            Line::Blank => {},
            Line::Malformed(_) => {},
            Line::Parsed(route) => {},
        }
    }
}

/// More occurrences of names leave the names distinct.
pub proof fn lemma_bumped_all_keeps_distinct(entries: Seq<(Seq<char>, nat)>, names: Seq<Seq<char>>)
    requires
        distinct_names(entries),
    ensures
        distinct_names(bumped_all(entries, names)),
    decreases names.len(),
{
    if names.len() > 0 {
        lemma_bumped_all_keeps_distinct(entries, names.drop_last());
        lemma_bumped_keeps_distinct(bumped_all(entries, names.drop_last()), names.last());
    }
}

/// More occurrences of one name leave the names distinct.
pub proof fn lemma_bumped_times_keeps_distinct(
    entries: Seq<(Seq<char>, nat)>,
    name: Seq<char>,
    times: nat,
)
    requires
        distinct_names(entries),
    ensures
        distinct_names(bumped_times(entries, name, times)),
    decreases times,
{
    if times > 0 {
        lemma_bumped_times_keeps_distinct(entries, name, (times - 1) as nat);
        lemma_bumped_keeps_distinct(bumped_times(entries, name, (times - 1) as nat), name);
    }
}

} // verus!
