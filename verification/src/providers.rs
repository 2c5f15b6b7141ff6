//! The transit providers of the reference AS across the sites of a report.

use std::collections::HashMap;
use vstd::prelude::*;

use crate::aggregate::{keys_of, FileResult, FileResultView, PeerInfo, PeerInfoView};
use crate::routes::PeerType;

verus! {

/// The transit providers of each site, and the sites of each transit
/// provider.
#[derive(Debug)]
pub struct ProviderOutput {
    /// Each site with its name: the summary of the site, with the transit
    /// providers that are seen at enough sites as its only neighbours.
    pub mux2peers: Vec<(String, FileResult)>,
    /// For each of these transit providers, the names of its sites.
    pub peer2muxes: HashMap<u32, Vec<String>>,
}

/// The summaries of a list of sites.
pub open spec fn site_views(results: Seq<(String, FileResult)>) -> Seq<FileResultView> {
    results.map_values(|site: (String, FileResult)| site.1@)
}

/// The names of a list of sites.
pub open spec fn site_names(results: Seq<(String, FileResult)>) -> Seq<Seq<char>> {
    results.map_values(|site: (String, FileResult)| site.0@)
}

/// Whether `asn` is a neighbour of the site with `Transit` among its peer
/// types.
pub open spec fn is_transit_at(site: FileResultView, asn: u32) -> bool {
    site.peers.contains_key(asn) && site.peers[asn].peer_types.contains(PeerType::Transit)
}

/// Whether `asn` is a transit provider at one of `sites`.
pub open spec fn transit_somewhere(sites: Seq<FileResultView>, asn: u32) -> bool {
    exists|i: int| 0 <= i < sites.len() && is_transit_at(#[trigger] sites[i], asn)
}

/// One more site of IP version `ip_version` in a pair of counts: the first
/// counts the sites of version 4, the second all others.
pub open spec fn one_more(counts: (nat, nat), ip_version: u8) -> (nat, nat) {
    if ip_version == 4 {
        (counts.0 + 1, counts.1)
    } else {
        (counts.0, counts.1 + 1)
    }
}

/// At how many of `sites` the AS `asn` is a transit provider: first the
/// sites of IP version 4, then all others.
pub open spec fn site_counts(sites: Seq<FileResultView>, asn: u32) -> (nat, nat)
    decreases sites.len(),
{
    if sites.len() == 0 {
        (0, 0)
    } else {
        let before = site_counts(sites.drop_last(), asn);
        if is_transit_at(sites.last(), asn) {
            one_more(before, sites.last().ip_version)
        } else {
            before
        }
    }
}

/// The counts that `counts` holds for `asn`; zeros where it holds none.
pub open spec fn counted(counts: Map<u32, (usize, usize)>, asn: u32) -> (nat, nat) {
    if counts.contains_key(asn) {
        (counts[asn].0 as nat, counts[asn].1 as nat)
    } else {
        (0, 0)
    }
}

/// Whether the transit provider `asn` of site `i` is kept in the output: it
/// is a transit provider there, and at no fewer than `min_sites` sites of the
/// IP version of site `i`.
pub open spec fn qualifies(sites: Seq<FileResultView>, min_sites: nat, i: int, asn: u32) -> bool {
    &&& 0 <= i < sites.len()
    &&& is_transit_at(sites[i], asn)
    &&& if sites[i].ip_version == 4 {
        site_counts(sites, asn).0 >= min_sites
    } else {
        site_counts(sites, asn).1 >= min_sites
    }
}

/// Site `i` with the transit providers that are kept as its only
/// neighbours.
pub open spec fn transit_view(sites: Seq<FileResultView>, min_sites: nat, i: int)
    -> FileResultView {
    FileResultView {
        ip_version: sites[i].ip_version,
        peers: sites[i].peers.restrict(Set::new(|asn: u32| qualifies(sites, min_sites, i, asn))),
        failed_checks: sites[i].failed_checks,
    }
}

/// The names of the first `upto` sites at which the transit provider `asn`
/// is kept, in the order of the sites.
pub open spec fn sites_of(
    names: Seq<Seq<char>>,
    sites: Seq<FileResultView>,
    min_sites: nat,
    asn: u32,
    upto: int,
) -> Seq<Seq<char>>
    decreases upto,
{
    if upto <= 0 {
        seq![]
    } else {
        let before = sites_of(names, sites, min_sites, asn, upto - 1);
        if qualifies(sites, min_sites, upto - 1, asn) {
            before.push(names[upto - 1])
        } else {
            before
        }
    }
}

/// The site names that `muxes` holds for `asn`; none where it holds no
/// entry.
pub open spec fn muxes_of(muxes: Map<u32, Vec<String>>, asn: u32) -> Seq<Seq<char>> {
    if muxes.contains_key(asn) {
        muxes[asn].deep_view()
    } else {
        seq![]
    }
}

/// No AS is a transit provider at more sites than there are.
pub proof fn lemma_site_counts_bounded(sites: Seq<FileResultView>, asn: u32)
    ensures
        site_counts(sites, asn).0 + site_counts(sites, asn).1 <= sites.len(),
    decreases sites.len(),
{
    if sites.len() > 0 {
        lemma_site_counts_bounded(sites.drop_last(), asn);
    }
}

/// An AS has a count above zero exactly where it is a transit provider at
/// one of the sites.
pub proof fn lemma_site_counts_positive(sites: Seq<FileResultView>, asn: u32)
    ensures
        transit_somewhere(sites, asn) <==> site_counts(sites, asn) != (0nat, 0nat),
    decreases sites.len(),
{
    if sites.len() > 0 {
        let before = sites.drop_last();
        lemma_site_counts_positive(before, asn);
        if transit_somewhere(sites, asn) {
            let i = choose|i: int| 0 <= i < sites.len() && is_transit_at(#[trigger] sites[i], asn);
            if i < before.len() {
                assert(is_transit_at(before[i], asn));
            }
        }
        if transit_somewhere(before, asn) {
            let i = choose|i: int|
                0 <= i < before.len() && is_transit_at(#[trigger] before[i], asn);
            assert(is_transit_at(sites[i], asn));
        }
        if is_transit_at(sites.last(), asn) {
            assert(is_transit_at(sites[sites.len() - 1], asn));
        }
    }
}

fn count_site(counts: &mut HashMap<u32, (usize, usize)>, asn: u32, ip_version: u8)
    requires
        counted(old(counts)@, asn).0 < usize::MAX,
        counted(old(counts)@, asn).1 < usize::MAX,
    ensures
        final(counts)@.dom() == old(counts)@.dom().insert(asn),
        counted(final(counts)@, asn) == one_more(counted(old(counts)@, asn), ip_version),
        forall|other: u32|
            other != asn ==> #[trigger] counted(final(counts)@, other) == counted(
                old(counts)@,
                other,
            ),
{
    let (v4, v6) = match counts.get(&asn) {
        Some(pair) => (pair.0, pair.1),
        None => (0, 0),
    };
    if ip_version == 4 {
        counts.insert(asn, (v4 + 1, v6));
    } else {
        counts.insert(asn, (v4, v6 + 1));
    }
    assert(counts@.dom() =~= old(counts)@.dom().insert(asn));
}

/// Counts, for each AS that is a transit provider at one of the sites, at
/// how many sites it is one: first the sites of IP version 4, then all
/// others.
pub fn count_sites_per_provider(results: &Vec<(String, FileResult)>) -> (counts: HashMap<
    u32,
    (usize, usize),
>)
    ensures
        forall|asn: u32|
            counts@.contains_key(asn) <==> transit_somewhere(site_views(results@), asn),
        forall|asn: u32|
            #[trigger] counted(counts@, asn) == site_counts(site_views(results@), asn),
{
    let mut counts: HashMap<u32, (usize, usize)> = HashMap::new();
    let ghost sites = site_views(results@);
    let mut i: usize = 0;
    assert(sites.take(0) =~= Seq::<FileResultView>::empty());
    while i < results.len()
        invariant
            i <= results.len(),
            sites == site_views(results@),
            forall|asn: u32| #[trigger]
                counts@.contains_key(asn) <==> transit_somewhere(sites.take(i as int), asn),
            forall|asn: u32|
                #[trigger] counted(counts@, asn) == site_counts(sites.take(i as int), asn),
        decreases results.len() - i,
    {
        let site = &results[i].1;
        let ghost view = sites[i as int];
        let ghost done = sites.take(i as int);
        let ghost next = sites.take(i + 1);
        let ghost at_start = counts@;
        let keys = keys_of(&site.peers);
        proof {
            assert(view == site@);
            assert(next.drop_last() =~= done);
            assert(next.last() == view);
        }
        let mut j: usize = 0;
        while j < keys.len()
            invariant
                j <= keys.len(),
                i < results.len(),
                site == &results[i as int].1,
                view == site@,
                done.len() == i,
                keys@.no_duplicates(),
                keys@.to_set() == site.peers@.dom(),
                forall|asn: u32| #[trigger]
                    counts@.contains_key(asn) <==> (at_start.contains_key(asn) || (keys@.take(
                        j as int,
                    ).contains(asn) && is_transit_at(view, asn))),
                forall|asn: u32|
                    #[trigger] counted(counts@, asn) == if keys@.take(j as int).contains(asn)
                        && is_transit_at(view, asn) {
                        one_more(counted(at_start, asn), view.ip_version)
                    } else {
                        counted(at_start, asn)
                    },
                forall|asn: u32| #[trigger] counted(at_start, asn) == site_counts(done, asn),
            decreases keys.len() - j,
        {
            let asn = keys[j];
            let ghost shorter = keys@.take(j as int);
            let ghost before = counts@;
            proof {
                assert(keys@.take(j + 1) =~= shorter.push(asn));
                assert(!shorter.contains(asn)) by {
                    if shorter.contains(asn) {
                        let k = choose|k: int| 0 <= k < shorter.len() && shorter[k] == asn;
                        assert(keys@[k] == keys@[j as int]);
                    }
                }
                assert forall|other: u32|
                    keys@.take(j + 1).contains(other) <==> (shorter.contains(other) || other
                        == asn) by {
                    crate::aggregate::lemma_contains_pushed(shorter, asn, other);
                }
                assert(keys@.contains(asn));
                assert(keys@.to_set().contains(asn));
            }
            match site.peers.get(&asn) {
                Some(info) => {
                    if info.peer_types.contains(&PeerType::Transit) {
                        proof {
                            assert(is_transit_at(view, asn));
                            lemma_site_counts_bounded(done, asn);
                            assert(counted(before, asn) == counted(at_start, asn));
                        }
                        count_site(&mut counts, asn, site.ip_version);
                    } else {
                        assert(!is_transit_at(view, asn));
                    }
                },
                None => {
                    assert(false);
                },
            }
            proof {
                let longer = keys@.take(j + 1);
                assert forall|other: u32| #[trigger]
                    counts@.contains_key(other) <==> (at_start.contains_key(other) || (
                    longer.contains(other) && is_transit_at(view, other))) by {
                    crate::aggregate::lemma_contains_pushed(shorter, asn, other);
                    assert(before.contains_key(other) <==> (at_start.contains_key(other) || (
                    shorter.contains(other) && is_transit_at(view, other))));
                    if other == asn {
                        assert(longer.contains(asn));
                    }
                }
                assert forall|other: u32| #[trigger]
                    counted(counts@, other) == if longer.contains(other) && is_transit_at(
                        view,
                        other,
                    ) {
                        one_more(counted(at_start, other), view.ip_version)
                    } else {
                        counted(at_start, other)
                    } by {
                    crate::aggregate::lemma_contains_pushed(shorter, asn, other);
                    assert(counted(before, other) == if shorter.contains(other) && is_transit_at(
                        view,
                        other,
                    ) {
                        one_more(counted(at_start, other), view.ip_version)
                    } else {
                        counted(at_start, other)
                    });
                }
            }
            j = j + 1;
        }
        proof {
            assert(keys@.take(j as int) =~= keys@);
            assert forall|asn: u32| #[trigger]
                counted(counts@, asn) == site_counts(next, asn) by {
                if is_transit_at(view, asn) {
                    assert(site.peers@.dom().contains(asn));
                    assert(keys@.to_set().contains(asn));
                }
            }
            assert forall|asn: u32| #[trigger]
                counts@.contains_key(asn) <==> transit_somewhere(next, asn) by {
                if is_transit_at(view, asn) {
                    assert(keys@.to_set().contains(asn));
                    assert(is_transit_at(next[i as int], asn));
                }
                if transit_somewhere(done, asn) {
                    let k = choose|k: int|
                        0 <= k < done.len() && is_transit_at(#[trigger] done[k], asn);
                    assert(is_transit_at(next[k], asn));
                }
                if transit_somewhere(next, asn) {
                    let k = choose|k: int|
                        0 <= k < next.len() && is_transit_at(#[trigger] next[k], asn);
                    if k < i {
                        assert(is_transit_at(done[k], asn));
                    }
                }
            }
        }
        i = i + 1;
    }
    assert(sites.take(i as int) =~= sites);
    counts
}

fn add_mux(muxes: &mut HashMap<u32, Vec<String>>, asn: u32, name: &String)
    ensures
        final(muxes)@.dom() == old(muxes)@.dom().insert(asn),
        muxes_of(final(muxes)@, asn) == muxes_of(old(muxes)@, asn).push(name@),
        forall|other: u32|
            other != asn ==> #[trigger] muxes_of(final(muxes)@, other) == muxes_of(
                old(muxes)@,
                other,
            ),
{
    let mut names = match muxes.remove(&asn) {
        Some(names) => names,
        None => Vec::new(),
    };
    let ghost before = names.deep_view();
    assert(before =~= muxes_of(old(muxes)@, asn));
    names.push(name.clone());
    assert(names.deep_view() =~= before.push(name@));
    muxes.insert(asn, names);
    assert(muxes@.dom() =~= old(muxes)@.dom().insert(asn));
}

fn keep_transit_peers(
    site: &FileResult,
    name: &String,
    counts: &HashMap<u32, (usize, usize)>,
    min_sites: usize,
    muxes: &mut HashMap<u32, Vec<String>>,
    Ghost(names): Ghost<Seq<Seq<char>>>,
    Ghost(sites): Ghost<Seq<FileResultView>>,
    Ghost(i): Ghost<int>,
) -> (kept: HashMap<u32, PeerInfo>)
    requires
        0 <= i < sites.len(),
        sites[i] == site@,
        names[i] == name@,
        forall|asn: u32| #[trigger] counted(counts@, asn) == site_counts(sites, asn),
        forall|asn: u32| #[trigger]
            muxes_of(old(muxes)@, asn) == sites_of(names, sites, min_sites as nat, asn, i),
        forall|asn: u32| #[trigger]
            old(muxes)@.contains_key(asn) <==> sites_of(
                names,
                sites,
                min_sites as nat,
                asn,
                i,
            ).len() > 0,
    ensures
        kept@.map_values(|info: PeerInfo| info@) == transit_view(
            sites,
            min_sites as nat,
            i,
        ).peers,
        forall|asn: u32| #[trigger]
            muxes_of(final(muxes)@, asn) == sites_of(names, sites, min_sites as nat, asn, i + 1),
        forall|asn: u32| #[trigger]
            final(muxes)@.contains_key(asn) <==> sites_of(
                names,
                sites,
                min_sites as nat,
                asn,
                i + 1,
            ).len() > 0,
{
    let mut kept: HashMap<u32, PeerInfo> = HashMap::new();
    let keys = keys_of(&site.peers);
    let ghost min = min_sites as nat;
    let ghost at_start = muxes@;
    let mut j: usize = 0;
    while j < keys.len()
        invariant
            j <= keys.len(),
            0 <= i < sites.len(),
            sites[i] == site@,
            names[i] == name@,
            min == min_sites as nat,
            keys@.no_duplicates(),
            keys@.to_set() == site.peers@.dom(),
            forall|asn: u32| #[trigger] counted(counts@, asn) == site_counts(sites, asn),
            forall|asn: u32| #[trigger]
                muxes_of(at_start, asn) == sites_of(names, sites, min, asn, i),
            forall|asn: u32| #[trigger]
                at_start.contains_key(asn) <==> sites_of(names, sites, min, asn, i).len() > 0,
            forall|asn: u32| #[trigger]
                kept@.contains_key(asn) <==> (keys@.take(j as int).contains(asn) && qualifies(
                    sites,
                    min,
                    i,
                    asn,
                )),
            forall|asn: u32| #[trigger]
                kept@.contains_key(asn) ==> kept@[asn]@ == site.peers@[asn]@,
            forall|asn: u32| #[trigger]
                muxes_of(muxes@, asn) == if keys@.take(j as int).contains(asn) && qualifies(
                    sites,
                    min,
                    i,
                    asn,
                ) {
                    muxes_of(at_start, asn).push(name@)
                } else {
                    muxes_of(at_start, asn)
                },
            forall|asn: u32| #[trigger]
                muxes@.contains_key(asn) <==> (at_start.contains_key(asn) || (keys@.take(
                    j as int,
                ).contains(asn) && qualifies(sites, min, i, asn))),
        decreases keys.len() - j,
    {
        let asn = keys[j];
        let ghost shorter = keys@.take(j as int);
        let ghost longer = keys@.take(j + 1);
        let ghost kept_before = kept@;
        let ghost muxes_before = muxes@;
        proof {
            assert(longer =~= shorter.push(asn));
            assert(!shorter.contains(asn)) by {
                if shorter.contains(asn) {
                    let k = choose|k: int| 0 <= k < shorter.len() && shorter[k] == asn;
                    assert(keys@[k] == keys@[j as int]);
                }
            }
            assert(keys@.contains(asn));
            assert(keys@.to_set().contains(asn));
        }
        let mut keep = false;
        match site.peers.get(&asn) {
            Some(info) => {
                if info.peer_types.contains(&PeerType::Transit) {
                    match counts.get(&asn) {
                        Some(pair) => {
                            let site_count = if site.ip_version == 4 {
                                pair.0
                            } else {
                                pair.1
                            };
                            assert(counted(counts@, asn) == (pair.0 as nat, pair.1 as nat));
                            if site_count >= min_sites {
                                keep = true;
                                kept.insert(asn, info.clone());
                            }
                        },
                        None => {
                            proof {
                                assert(is_transit_at(sites[i], asn));
                                lemma_site_counts_positive(sites, asn);
                                assert(counted(counts@, asn) == (0nat, 0nat));
                            }
                        },
                    }
                }
            },
            None => {
                assert(false);
            },
        }
        assert(keep == qualifies(sites, min, i, asn));
        if keep {
            add_mux(muxes, asn, name);
        }
        proof {
            assert forall|other: u32| #[trigger]
                kept@.contains_key(other) <==> (longer.contains(other) && qualifies(
                    sites,
                    min,
                    i,
                    other,
                )) by {
                crate::aggregate::lemma_contains_pushed(shorter, asn, other);
                assert(kept_before.contains_key(other) <==> (shorter.contains(other) && qualifies(
                    sites,
                    min,
                    i,
                    other,
                )));
            }
            assert forall|other: u32| #[trigger] kept@.contains_key(other) implies kept@[other]@
                == site.peers@[other]@ by {
                if other != asn {
                    assert(kept_before.contains_key(other));
                }
            }
            assert forall|other: u32| #[trigger]
                muxes_of(muxes@, other) == if longer.contains(other) && qualifies(
                    sites,
                    min,
                    i,
                    other,
                ) {
                    muxes_of(at_start, other).push(name@)
                } else {
                    muxes_of(at_start, other)
                } by {
                crate::aggregate::lemma_contains_pushed(shorter, asn, other);
                assert(muxes_of(muxes_before, other) == if shorter.contains(other) && qualifies(
                    sites,
                    min,
                    i,
                    other,
                ) {
                    muxes_of(at_start, other).push(name@)
                } else {
                    muxes_of(at_start, other)
                });
            }
            assert forall|other: u32| #[trigger]
                muxes@.contains_key(other) <==> (at_start.contains_key(other) || (longer.contains(
                    other,
                ) && qualifies(sites, min, i, other))) by {
                crate::aggregate::lemma_contains_pushed(shorter, asn, other);
                assert(muxes_before.contains_key(other) <==> (at_start.contains_key(other) || (
                shorter.contains(other) && qualifies(sites, min, i, other))));
            }
        }
        j = j + 1;
    }
    proof {
        assert(keys@.take(j as int) =~= keys@);
        assert forall|asn: u32| qualifies(sites, min, i, asn) implies keys@.contains(asn) by {
            assert(site.peers@.dom().contains(asn));
            assert(keys@.to_set().contains(asn));
        }
        assert(kept@.map_values(|info: PeerInfo| info@) =~= transit_view(sites, min, i).peers);
        assert forall|asn: u32| #[trigger]
            muxes_of(muxes@, asn) == sites_of(names, sites, min, asn, i + 1) by {
            assert(muxes_of(at_start, asn) == sites_of(names, sites, min, asn, i));
        }
        assert forall|asn: u32| #[trigger]
            muxes@.contains_key(asn) <==> sites_of(names, sites, min, asn, i + 1).len() > 0 by {
            assert(at_start.contains_key(asn) <==> sites_of(names, sites, min, asn, i).len() > 0);
        }
    }
    kept
}

/// Builds the report of transit providers from the summaries of the sites.
///
/// Each site keeps its IP version and its counts of diagnostics. Of its
/// neighbours it keeps those that have `Transit` among their peer types and
/// that are transit providers at no fewer than `min_sites` sites of the same
/// IP version; a site whose version is not 4 counts with version 6. Each
/// provider that is kept is listed with the names of its sites, in the
/// order of the sites.
pub fn provider_output(results: &Vec<(String, FileResult)>, min_sites: usize) -> (out:
    ProviderOutput)
    ensures
        out.mux2peers.len() == results.len(),
        forall|i: int|
            0 <= i < results.len() ==> (#[trigger] out.mux2peers[i]).0@ == results[i].0@
                && out.mux2peers[i].1@ == transit_view(
                site_views(results@),
                min_sites as nat,
                i,
            ),
        forall|asn: u32| #[trigger]
            muxes_of(out.peer2muxes@, asn) == sites_of(
                site_names(results@),
                site_views(results@),
                min_sites as nat,
                asn,
                results.len() as int,
            ),
        forall|asn: u32| #[trigger]
            out.peer2muxes@.contains_key(asn) <==> sites_of(
                site_names(results@),
                site_views(results@),
                min_sites as nat,
                asn,
                results.len() as int,
            ).len() > 0,
{
    let counts = count_sites_per_provider(results);
    let ghost sites = site_views(results@);
    let ghost names = site_names(results@);
    let ghost min = min_sites as nat;
    let mut mux2peers: Vec<(String, FileResult)> = Vec::new();
    let mut peer2muxes: HashMap<u32, Vec<String>> = HashMap::new();
    let mut i: usize = 0;
    while i < results.len()
        invariant
            i <= results.len(),
            sites == site_views(results@),
            names == site_names(results@),
            min == min_sites as nat,
            forall|asn: u32| #[trigger] counted(counts@, asn) == site_counts(sites, asn),
            mux2peers.len() == i,
            forall|k: int|
                0 <= k < i ==> (#[trigger] mux2peers[k]).0@ == results[k].0@ && mux2peers[k].1@
                    == transit_view(sites, min, k),
            forall|asn: u32| #[trigger]
                muxes_of(peer2muxes@, asn) == sites_of(names, sites, min, asn, i as int),
            forall|asn: u32| #[trigger]
                peer2muxes@.contains_key(asn) <==> sites_of(names, sites, min, asn, i as int).len()
                    > 0,
        decreases results.len() - i,
    {
        let name = &results[i].0;
        let site = &results[i].1;
        let kept = keep_transit_peers(
            site,
            name,
            &counts,
            min_sites,
            &mut peer2muxes,
            Ghost(names),
            Ghost(sites),
            Ghost(i as int),
        );
        let entry = (
            name.clone(),
            FileResult {
                ip_version: site.ip_version,
                peers: kept,
                failed_checks: site.failed_checks.clone(),
            },
        );
        assert(entry.1@ == transit_view(sites, min, i as int));
        mux2peers.push(entry);
        i = i + 1;
    }
    ProviderOutput { mux2peers, peer2muxes }
}

} // verus!
