//! The two set types that carry the classified signals of a route.

use vstd::prelude::*;

use crate::routes::PeerType;

verus! {

/// A set of peer types.
///
/// Its members are listed in the declaration order of [`PeerType`], and two
/// sets are equal exactly when they have the same members.
#[derive(Debug, Clone, Copy, PartialEq, Eq, Structural)]
pub struct PeerTypeSet {
    transit: bool,
    public_peer: bool,
    private_peer: bool,
    customer: bool,
    vultr_origin: bool,
    unknown: bool,
}

/// The members of `s` in the declaration order of [`PeerType`].
pub open spec fn listed(s: Set<PeerType>) -> Seq<PeerType> {
    (if s.contains(PeerType::Transit) {
        seq![PeerType::Transit]
    } else {
        seq![]
    }) + (if s.contains(PeerType::PublicPeer) {
        seq![PeerType::PublicPeer]
    } else {
        seq![]
    }) + (if s.contains(PeerType::PrivatePeer) {
        seq![PeerType::PrivatePeer]
    } else {
        seq![]
    }) + (if s.contains(PeerType::Customer) {
        seq![PeerType::Customer]
    } else {
        seq![]
    }) + (if s.contains(PeerType::VultrOrigin) {
        seq![PeerType::VultrOrigin]
    } else {
        seq![]
    }) + (if s.contains(PeerType::Unknown) {
        seq![PeerType::Unknown]
    } else {
        seq![]
    })
}

impl View for PeerTypeSet {
    type V = Set<PeerType>;

    closed spec fn view(&self) -> Set<PeerType> {
        Set::new(|pt: PeerType| self.holds(pt))
    }
}

impl PeerTypeSet {
    spec fn holds(self, pt: PeerType) -> bool {
        match pt {
            PeerType::Transit => self.transit,
            PeerType::PublicPeer => self.public_peer,
            PeerType::PrivatePeer => self.private_peer,
            PeerType::Customer => self.customer,
            PeerType::VultrOrigin => self.vultr_origin,
            PeerType::Unknown => self.unknown,
        }
    }

    /// A set is finite and has at most six members.
    pub proof fn lemma_finite(self)
        ensures
            self@.finite(),
            self@.len() <= 6,
            self@.len() == listed(self@).len(),
    {
        let s0 = Set::<PeerType>::empty();
        let s1 = if self.transit { s0.insert(PeerType::Transit) } else { s0 };
        let s2 = if self.public_peer { s1.insert(PeerType::PublicPeer) } else { s1 };
        let s3 = if self.private_peer { s2.insert(PeerType::PrivatePeer) } else { s2 };
        let s4 = if self.customer { s3.insert(PeerType::Customer) } else { s3 };
        let s5 = if self.vultr_origin { s4.insert(PeerType::VultrOrigin) } else { s4 };
        let s6 = if self.unknown { s5.insert(PeerType::Unknown) } else { s5 };
        assert(self@ =~= s6);
    }

    /// Two sets with the same members are the same value.
    pub proof fn lemma_same_members(self, other: PeerTypeSet)
        requires
            self@ == other@,
        ensures
            self == other,
    {
        assert(self.holds(PeerType::Transit) == self@.contains(PeerType::Transit));
        assert(self.holds(PeerType::PublicPeer) == self@.contains(PeerType::PublicPeer));
        assert(self.holds(PeerType::PrivatePeer) == self@.contains(PeerType::PrivatePeer));
        assert(self.holds(PeerType::Customer) == self@.contains(PeerType::Customer));
        assert(self.holds(PeerType::VultrOrigin) == self@.contains(PeerType::VultrOrigin));
        assert(self.holds(PeerType::Unknown) == self@.contains(PeerType::Unknown));
        assert(other.holds(PeerType::Transit) == other@.contains(PeerType::Transit));
        assert(other.holds(PeerType::PublicPeer) == other@.contains(PeerType::PublicPeer));
        assert(other.holds(PeerType::PrivatePeer) == other@.contains(PeerType::PrivatePeer));
        assert(other.holds(PeerType::Customer) == other@.contains(PeerType::Customer));
        assert(other.holds(PeerType::VultrOrigin) == other@.contains(PeerType::VultrOrigin));
        assert(other.holds(PeerType::Unknown) == other@.contains(PeerType::Unknown));
    }

    /// Returns the empty set.
    pub fn new() -> (set: PeerTypeSet)
        ensures
            set@ == Set::<PeerType>::empty(),
    {
        let set = PeerTypeSet {
            transit: false,
            public_peer: false,
            private_peer: false,
            customer: false,
            vultr_origin: false,
            unknown: false,
        };
        assert(set@ =~= Set::<PeerType>::empty());
        set
    }

    /// Returns the set whose only member is `pt`.
    pub fn singleton(pt: PeerType) -> (set: PeerTypeSet)
        ensures
            set@ == set![pt],
    {
        let mut set = PeerTypeSet::new();
        set.insert(pt);
        set
    }

    /// Tells whether `pt` is a member.
    pub fn contains(&self, pt: &PeerType) -> (found: bool)
        ensures
            found == self@.contains(*pt),
    {
        match pt {
            PeerType::Transit => self.transit,
            PeerType::PublicPeer => self.public_peer,
            PeerType::PrivatePeer => self.private_peer,
            PeerType::Customer => self.customer,
            PeerType::VultrOrigin => self.vultr_origin,
            PeerType::Unknown => self.unknown,
        }
    }

    /// Adds `pt`, and tells whether it was new.
    pub fn insert(&mut self, pt: PeerType) -> (added: bool)
        ensures
            final(self)@ == old(self)@.insert(pt),
            added == !old(self)@.contains(pt),
    {
        let added = !self.contains(&pt);
        match pt {
            PeerType::Transit => { self.transit = true; },
            PeerType::PublicPeer => { self.public_peer = true; },
            PeerType::PrivatePeer => { self.private_peer = true; },
            PeerType::Customer => { self.customer = true; },
            PeerType::VultrOrigin => { self.vultr_origin = true; },
            PeerType::Unknown => { self.unknown = true; },
        }
        assert(self@ =~= old(self)@.insert(pt));
        added
    }

    /// Removes `pt`, and tells whether it was a member.
    pub fn remove(&mut self, pt: &PeerType) -> (removed: bool)
        ensures
            final(self)@ == old(self)@.remove(*pt),
            removed == old(self)@.contains(*pt),
    {
        let removed = self.contains(pt);
        match pt {
            PeerType::Transit => { self.transit = false; },
            PeerType::PublicPeer => { self.public_peer = false; },
            PeerType::PrivatePeer => { self.private_peer = false; },
            PeerType::Customer => { self.customer = false; },
            PeerType::VultrOrigin => { self.vultr_origin = false; },
            PeerType::Unknown => { self.unknown = false; },
        }
        assert(self@ =~= old(self)@.remove(*pt));
        removed
    }

    /// Adds every member of `other`.
    pub fn extend(&mut self, other: &PeerTypeSet)
        ensures
            final(self)@ == old(self)@.union(other@),
    {
        self.transit = self.transit || other.transit;
        self.public_peer = self.public_peer || other.public_peer;
        self.private_peer = self.private_peer || other.private_peer;
        self.customer = self.customer || other.customer;
        self.vultr_origin = self.vultr_origin || other.vultr_origin;
        self.unknown = self.unknown || other.unknown;
        assert(self@ =~= old(self)@.union(other@));
    }

    /// Returns the number of members.
    pub fn len(&self) -> (n: usize)
        ensures
            n == self@.len(),
    {
        proof {
            self.lemma_finite();
        }
        let mut n: usize = 0;
        if self.transit {
            n = n + 1;
        }
        if self.public_peer {
            n = n + 1;
        }
        if self.private_peer {
            n = n + 1;
        }
        if self.customer {
            n = n + 1;
        }
        if self.vultr_origin {
            n = n + 1;
        }
        if self.unknown {
            n = n + 1;
        }
        n
    }

    /// Tells whether the set has no member.
    pub fn is_empty(&self) -> (empty: bool)
        ensures
            empty == self@.is_empty(),
            empty == (self@ == Set::<PeerType>::empty()),
    {
        let empty = !(self.transit || self.public_peer || self.private_peer || self.customer
            || self.vultr_origin || self.unknown);
        proof {
            if empty {
                assert(self@ =~= Set::<PeerType>::empty());
            } else {
                assert(self@.contains(PeerType::Transit) || self@.contains(PeerType::PublicPeer)
                    || self@.contains(PeerType::PrivatePeer) || self@.contains(PeerType::Customer)
                    || self@.contains(PeerType::VultrOrigin) || self@.contains(PeerType::Unknown));
            }
        }
        empty
    }

    /// Returns the members in the declaration order of [`PeerType`].
    pub fn to_vec(&self) -> (members: Vec<PeerType>)
        ensures
            members@ == listed(self@),
    {
        let mut members: Vec<PeerType> = Vec::new();
        if self.transit {
            members.push(PeerType::Transit);
        }
        if self.public_peer {
            members.push(PeerType::PublicPeer);
        }
        if self.private_peer {
            members.push(PeerType::PrivatePeer);
        }
        if self.customer {
            members.push(PeerType::Customer);
        }
        if self.vultr_origin {
            members.push(PeerType::VultrOrigin);
        }
        if self.unknown {
            members.push(PeerType::Unknown);
        }
        assert(members@ =~= listed(self@));
        members
    }
}

/// Whether `a` comes before `b`: by peer type first, then by AS number.
pub open spec fn hint_before(a: (PeerType, u32), b: (PeerType, u32)) -> bool {
    a.0.rank() < b.0.rank() || (a.0 == b.0 && a.1 < b.1)
}

/// Whether every member of `s` comes before all those behind it.
pub open spec fn hints_ascending(s: Seq<(PeerType, u32)>) -> bool {
    forall|i: int, j: int| 0 <= i < j < s.len() ==> hint_before(#[trigger] s[i], #[trigger] s[j])
}

/// The peer types that occur in a set of hints.
pub open spec fn hint_types(hints: Set<(PeerType, u32)>) -> Set<PeerType> {
    Set::new(|pt: PeerType| exists|asn: u32| hints.contains((pt, asn)))
}

fn rank_of(pt: PeerType) -> (rank: u8)
    ensures
        rank == pt.rank(),
{
    match pt {
        PeerType::Transit => 0,
        PeerType::PublicPeer => 1,
        PeerType::PrivatePeer => 2,
        PeerType::Customer => 3,
        PeerType::VultrOrigin => 4,
        PeerType::Unknown => 5,
    }
}

fn comes_before(a: (PeerType, u32), b: (PeerType, u32)) -> (before: bool)
    ensures
        before == hint_before(a, b),
{
    let ra = rank_of(a.0);
    let rb = rank_of(b.0);
    ra < rb || (ra == rb && a.1 < b.1)
}

/// A set of pairs of a peer type and the AS number that a large community
/// names beside it.
///
/// The members are kept in ascending order, by peer type first and by AS
/// number second, and none occurs twice.
#[derive(Debug, PartialEq, Eq)]
pub struct PeerHintSet {
    items: Vec<(PeerType, u32)>,
}

impl View for PeerHintSet {
    type V = Set<(PeerType, u32)>;

    closed spec fn view(&self) -> Set<(PeerType, u32)> {
        self.items@.to_set()
    }
}

impl Clone for PeerHintSet {
    fn clone(&self) -> (copy: PeerHintSet)
        ensures
            copy@ == self@,
    {
        proof {
            use_type_invariant(self);
        }
        let mut items: Vec<(PeerType, u32)> = Vec::new();
        let mut k: usize = 0;
        while k < self.items.len()
            invariant
                k <= self.items.len(),
                items@ == self.items@.take(k as int),
            decreases self.items.len() - k,
        {
            items.push(self.items[k]);
            assert(self.items@.take(k + 1) =~= self.items@.take(k as int).push(
                self.items@[k as int],
            ));
            k = k + 1;
        }
        assert(items@ =~= self.items@);
        PeerHintSet { items }
    }
}

impl PeerHintSet {
    #[verifier::type_invariant]
    spec fn ascending(self) -> bool {
        hints_ascending(self.items@)
    }

    /// A set of hints is finite.
    pub proof fn lemma_finite(self)
        ensures
            self@.finite(),
    {
        vstd::seq_lib::seq_to_set_is_finite(self.items@);
    }

    /// Returns the empty set.
    pub fn new() -> (set: PeerHintSet)
        ensures
            set@ == Set::<(PeerType, u32)>::empty(),
    {
        let set = PeerHintSet { items: Vec::new() };
        assert(set@ =~= Set::<(PeerType, u32)>::empty());
        set
    }

    /// Returns the set whose only member is `item`.
    pub fn singleton(item: (PeerType, u32)) -> (set: PeerHintSet)
        ensures
            set@ == set![item],
    {
        let mut set = PeerHintSet::new();
        set.insert(item);
        set
    }

    /// Tells whether `item` is a member.
    pub fn contains(&self, item: &(PeerType, u32)) -> (found: bool)
        ensures
            found == self@.contains(*item),
    {
        let mut i: usize = 0;
        while i < self.items.len()
            invariant
                i <= self.items.len(),
                forall|k: int| 0 <= k < i ==> self.items@[k] != *item,
            decreases self.items.len() - i,
        {
            if self.items[i].0 == item.0 && self.items[i].1 == item.1 {
                return true;
            }
            i = i + 1;
        }
        false
    }

    /// Adds `item`, and tells whether it was new.
    pub fn insert(&mut self, item: (PeerType, u32)) -> (added: bool)
        ensures
            final(self)@ == old(self)@.insert(item),
            added == !old(self)@.contains(item),
    {
        proof {
            use_type_invariant(&*self);
        }
        let mut i: usize = 0;
        while i < self.items.len() && comes_before(self.items[i], item)
            invariant
                i <= self.items.len(),
                self.items == old(self).items,
                forall|k: int| 0 <= k < i ==> hint_before(#[trigger] self.items@[k], item),
            decreases self.items.len() - i,
        {
            i = i + 1;
        }
        let ghost before = self.items@;
        if i < self.items.len() && self.items[i].0 == item.0 && self.items[i].1 == item.1 {
            assert(before.contains(item));
            assert(self@ =~= old(self)@.insert(item));
            return false;
        }
        assert forall|k: int| 0 <= k < before.len() implies before[k] != item by {
            if k < i {
                assert(hint_before(before[k], item));
            } else if k > i {
                assert(hint_before(before[i as int], before[k]));
            }
        }
        let n = self.items.len();
        let mut items: Vec<(PeerType, u32)> = Vec::new();
        let mut k: usize = 0;
        while k < i
            invariant
                k <= i <= n,
                n == before.len(),
                self.items@ == before,
                items@ == before.take(k as int),
            decreases i - k,
        {
            items.push(self.items[k]);
            assert(before.take(k + 1) =~= before.take(k as int).push(before[k as int]));
            k = k + 1;
        }
        items.push(item);
        while k < n
            invariant
                i <= k <= n,
                n == before.len(),
                self.items@ == before,
                items@ == before.take(i as int).push(item) + before.subrange(i as int, k as int),
            decreases n - k,
        {
            items.push(self.items[k]);
            assert(before.subrange(i as int, k + 1) =~= before.subrange(i as int, k as int).push(
                before[k as int],
            ));
            assert(items@ =~= before.take(i as int).push(item) + before.subrange(
                i as int,
                k + 1,
            ));
            k = k + 1;
        }
        assert(items@ =~= before.insert(i as int, item));
        proof {
            let after = items@;
            assert forall|a: int, b: int| 0 <= a < b < after.len() implies hint_before(
                #[trigger] after[a],
                #[trigger] after[b],
            ) by {
                let a0 = if a < i { a } else { a - 1 };
                let b0 = if b < i { b } else { b - 1 };
                if a == i {
                    assert(after[b] == before[b0]);
                    if b0 > i {
                        assert(hint_before(before[i as int], before[b0]));
                    }
                } else if b == i {
                    assert(after[a] == before[a0]);
                } else {
                    assert(after[a] == before[a0]);
                    assert(after[b] == before[b0]);
                }
            }
            assert forall|x: (PeerType, u32)| after.contains(x) <==> (before.contains(x) || x
                == item) by {
                if after.contains(x) {
                    let k = choose|k: int| 0 <= k < after.len() && after[k] == x;
                    if k < i {
                        assert(before[k] == x);
                    } else if k > i {
                        assert(before[k - 1] == x);
                    }
                }
                if before.contains(x) {
                    let k = choose|k: int| 0 <= k < before.len() && before[k] == x;
                    if k < i {
                        assert(after[k] == x);
                    } else {
                        assert(after[k + 1] == x);
                    }
                }
                if x == item {
                    assert(after[i as int] == x);
                }
            }
            assert(after.to_set() =~= before.to_set().insert(item));
        }
        self.items = items;
        true
    }

    /// Returns the number of members.
    pub fn len(&self) -> (n: usize)
        ensures
            n == self@.len(),
    {
        proof {
            use_type_invariant(self);
            lemma_ascending_distinct(self.items@);
            self.items@.unique_seq_to_set();
        }
        self.items.len()
    }

    /// Tells whether the set has no member.
    pub fn is_empty(&self) -> (empty: bool)
        ensures
            empty == (self@ == Set::<(PeerType, u32)>::empty()),
    {
        let empty = self.items.len() == 0;
        proof {
            if empty {
                assert(self@ =~= Set::<(PeerType, u32)>::empty());
            } else {
                assert(self.items@.contains(self.items@[0]));
                assert(self@.contains(self.items@[0]));
            }
        }
        empty
    }

    /// Returns the members in ascending order.
    pub fn as_slice(&self) -> (members: &[(PeerType, u32)])
        ensures
            hints_ascending(members@),
            members@.no_duplicates(),
            members@.to_set() == self@,
    {
        proof {
            use_type_invariant(self);
            lemma_ascending_distinct(self.items@);
        }
        self.items.as_slice()
    }

    /// Returns the peer types that occur in the set.
    pub fn peer_types(&self) -> (types: PeerTypeSet)
        ensures
            types@ == hint_types(self@),
    {
        let mut types = PeerTypeSet::new();
        let mut i: usize = 0;
        while i < self.items.len()
            invariant
                i <= self.items.len(),
                types@ == hint_types(self.items@.take(i as int).to_set()),
            decreases self.items.len() - i,
        {
            types.insert(self.items[i].0);
            proof {
                let done = self.items@.take(i as int);
                let next = self.items@.take(i + 1);
                assert(next =~= done.push(self.items@[i as int]));
                done.lemma_push_to_set_commute(self.items@[i as int]);
                lemma_hint_types_insert(done.to_set(), self.items@[i as int]);
            }
            i = i + 1;
        }
        assert(self.items@.take(i as int) =~= self.items@);
        types
    }
}

/// Members in ascending order are pairwise distinct.
pub proof fn lemma_ascending_distinct(s: Seq<(PeerType, u32)>)
    requires
        hints_ascending(s),
    ensures
        s.no_duplicates(),
{
    assert forall|i: int, j: int| 0 <= i < s.len() && 0 <= j < s.len() && i != j implies s[i]
        != s[j] by {
        if i < j {
            assert(hint_before(s[i], s[j]));
        } else {
            assert(hint_before(s[j], s[i]));
        }
    }
}

/// Adding a hint adds its peer type to the types that occur.
pub proof fn lemma_hint_types_insert(hints: Set<(PeerType, u32)>, item: (PeerType, u32))
    ensures
        hint_types(hints.insert(item)) == hint_types(hints).insert(item.0),
{
    let left = hint_types(hints.insert(item));
    let right = hint_types(hints).insert(item.0);
    assert forall|pt: PeerType| left.contains(pt) <==> right.contains(pt) by {
        if left.contains(pt) {
            let asn = choose|asn: u32| hints.insert(item).contains((pt, asn));
            if (pt, asn) != item {
                assert(hints.contains((pt, asn)));
            }
        }
        if right.contains(pt) {
            if pt == item.0 {
                assert(hints.insert(item).contains((pt, item.1)));
            } else {
                let asn = choose|asn: u32| hints.contains((pt, asn));
                assert(hints.insert(item).contains((pt, asn)));
            }
        }
    }
    assert(left =~= right);
}

} // verus!
