//! Numbering the areas and portals of a cluster.
//!
//! Inside a cluster every area and every portal gets a cluster area number:
//! first the areas with reachabilities, then the portals whose area has
//! reachabilities, then the areas and portals without. The routing cache of
//! a cluster is indexed by these numbers.
use vstd::prelude::*;
use crate::aasworld::aas_s;
use crate::cluster::num_areas;

verus! {

/// Area `a` has reachabilities (`AAS_AreaReachability` is not zero).
pub open spec fn area_reach(w: aas_s, a: int) -> bool {
    0 <= a < num_areas(w) && w.areasettings@[a].numreachableareas != 0
}

/// The number of reachabilities of area `areanum`
/// (`AAS_AreaReachability`); an area number out of range has none.
pub fn AAS_AreaReachability(w: &aas_s, areanum: i32) -> (r: i32)
    requires
        w.areasettings@.len() >= w.areas@.len(),
    ensures
        r == (if 0 <= areanum < num_areas(*w) { w.areasettings@[areanum as int].numreachableareas } else { 0 }),
        (r != 0) == area_reach(*w, areanum as int),
{
    if areanum < 0 || areanum as usize >= w.areas.len() {
        return 0;
    }
    w.areasettings[areanum as usize].numreachableareas
}

/// Number of areas among `1..end` in cluster `c` that have reachabilities
/// (`reach`) or have none.
pub open spec fn count_cluster_areas(w: aas_s, c: int, end: int, reach: bool) -> int
    decreases end,
{
    if end <= 1 {
        0
    } else {
        count_cluster_areas(w, c, end - 1, reach) + (if w.areasettings@[end - 1].cluster == c
            && area_reach(w, end - 1) == reach { 1int } else { 0int })
    }
}

pub proof fn lemma_count_cluster_areas_mono(w: aas_s, c: int, e1: int, e2: int, reach: bool)
    requires
        e1 <= e2,
    ensures
        count_cluster_areas(w, c, e1, reach) <= count_cluster_areas(w, c, e2, reach),
    decreases e2 - e1,
{
    if e1 < e2 {
        lemma_count_cluster_areas_mono(w, c, e1, e2 - 1, reach);
    }
}

/// The areas of a cluster with and without reachabilities are no more than
/// the areas.
pub proof fn lemma_count_cluster_areas_sum(w: aas_s, c: int, end: int)
    ensures
        count_cluster_areas(w, c, end, true) + count_cluster_areas(w, c, end, false)
            <= if end <= 1 { 0 } else { end - 1 },
    decreases end,
{
    if end > 1 {
        lemma_count_cluster_areas_sum(w, c, end - 1);
    }
}

pub proof fn lemma_count_cluster_areas(w: aas_s, c: int, end: int, reach: bool)
    ensures
        0 <= count_cluster_areas(w, c, end, reach) <= if end <= 1 { 0 } else { end - 1 },
    decreases end,
{
    if end > 1 {
        lemma_count_cluster_areas(w, c, end - 1, reach);
    }
}

/// The portal of the `k`-th portal index entry of cluster `c`.
pub open spec fn cluster_entry(w: aas_s, c: int, k: int) -> int {
    w.portalindex@[w.clusters@[c].firstportal + k] as int
}

/// The area of the portal of the `k`-th entry of cluster `c` has
/// reachabilities.
pub open spec fn entry_reach(w: aas_s, c: int, k: int) -> bool {
    area_reach(w, w.portals@[cluster_entry(w, c, k)].areanum as int)
}

/// Number of the first `end` portal entries of cluster `c` whose area has
/// reachabilities (`reach`) or has none.
pub open spec fn count_cluster_portals(w: aas_s, c: int, end: int, reach: bool) -> int
    decreases end,
{
    if end <= 0 {
        0
    } else {
        count_cluster_portals(w, c, end - 1, reach) + (if entry_reach(w, c, end - 1) == reach { 1int } else { 0int })
    }
}

pub proof fn lemma_count_cluster_portals(w: aas_s, c: int, end: int, reach: bool)
    ensures
        0 <= count_cluster_portals(w, c, end, reach) <= if end <= 0 { 0 } else { end },
    decreases end,
{
    if end > 0 {
        lemma_count_cluster_portals(w, c, end - 1, reach);
    }
}

/// Entry `k` is the last of the first `end` entries of cluster `c` that
/// names its portal.
pub open spec fn last_entry(w: aas_s, c: int, k: int, end: int) -> bool {
    forall|k2: int| k < k2 < end ==> #[trigger] cluster_entry(w, c, k2) != cluster_entry(w, c, k)
}

/// Portal `p` is named by one of the first `end` entries of cluster `c`.
pub open spec fn listed(w: aas_s, c: int, p: int, end: int) -> bool {
    exists|k: int| 0 <= k < end && #[trigger] cluster_entry(w, c, k) == p
}

/// The data the numbering reads is consistent.
pub open spec fn numbering_ready(w: aas_s, c: int) -> bool {
    &&& w.areasettings@.len() >= num_areas(w)
    &&& num_areas(w) <= 0x3fff_ffff
    &&& 0 <= c < w.clusters@.len()
    &&& 0 <= w.clusters@[c].firstportal
    &&& 0 <= w.clusters@[c].numportals <= 0x10000
    &&& w.clusters@[c].firstportal + w.clusters@[c].numportals <= w.portalindex@.len()
    &&& forall|k: int| 0 <= k < w.portalindex@.len() ==> 0 <= #[trigger] w.portalindex@[k] < w.portals@.len()
}

/// Only the cluster area numbers of areas and portals and the counts of
/// cluster `c` differ between `w1` and `w2`.
pub open spec fn only_numbers_changed(w1: aas_s, w2: aas_s, c: int) -> bool {
    &&& w1.loaded == w2.loaded
    &&& w1.initialized == w2.initialized
    &&& w1.savefile == w2.savefile
    &&& w1.bspchecksum == w2.bspchecksum
    &&& w1.numframes == w2.numframes
    &&& w1.bboxes@ == w2.bboxes@
    &&& w1.vertexes@ == w2.vertexes@
    &&& w1.planes@ == w2.planes@
    &&& w1.edges@ == w2.edges@
    &&& w1.edgeindex@ == w2.edgeindex@
    &&& w1.faces@ == w2.faces@
    &&& w1.faceindex@ == w2.faceindex@
    &&& w1.areas@ == w2.areas@
    &&& w1.reachability@ == w2.reachability@
    &&& w1.nodes@ == w2.nodes@
    &&& w1.portalindex@ == w2.portalindex@
    &&& w1.areasettings@.len() == w2.areasettings@.len()
    &&& forall|a: int| 0 <= a < w1.areasettings@.len() ==> {
        let s1 = w1.areasettings@[a];
        let s2 = #[trigger] w2.areasettings@[a];
        &&& s2.contents == s1.contents
        &&& s2.areaflags == s1.areaflags
        &&& s2.presencetype == s1.presencetype
        &&& s2.cluster == s1.cluster
        &&& s2.numreachableareas == s1.numreachableareas
        &&& s2.firstreachablearea == s1.firstreachablearea
    }
    &&& w1.portals@.len() == w2.portals@.len()
    &&& forall|p: int| 0 <= p < w1.portals@.len() ==> {
        &&& (#[trigger] w2.portals@[p]).areanum == w1.portals@[p].areanum
        &&& w2.portals@[p].frontcluster == w1.portals@[p].frontcluster
        &&& w2.portals@[p].backcluster == w1.portals@[p].backcluster
    }
    &&& w1.clusters@.len() == w2.clusters@.len()
    &&& forall|k: int| 0 <= k < w1.clusters@.len() && k != c ==> #[trigger] w2.clusters@[k] == w1.clusters@[k]
    &&& w2.clusters@[c].numportals == w1.clusters@[c].numportals
    &&& w2.clusters@[c].firstportal == w1.clusters@[c].firstportal
}

pub proof fn lemma_only_numbers_changed_trans(w1: aas_s, w2: aas_s, w3: aas_s, c: int)
    requires
        only_numbers_changed(w1, w2, c),
        only_numbers_changed(w2, w3, c),
        0 <= c < w1.clusters@.len(),
        w1.areasettings@.len() >= num_areas(w1),
    ensures
        only_numbers_changed(w1, w3, c),
        forall|a: int| #[trigger] area_reach(w3, a) == area_reach(w1, a),
        forall|k: int| #[trigger] cluster_entry(w3, c, k) == cluster_entry(w1, c, k),
{
    assert forall|a: int| 0 <= a < w1.areasettings@.len() implies {
        let s1 = w1.areasettings@[a];
        let s2 = #[trigger] w3.areasettings@[a];
        &&& s2.contents == s1.contents
        &&& s2.areaflags == s1.areaflags
        &&& s2.presencetype == s1.presencetype
        &&& s2.cluster == s1.cluster
        &&& s2.numreachableareas == s1.numreachableareas
        &&& s2.firstreachablearea == s1.firstreachablearea
    } by {
        assert(w2.areasettings@[a].cluster == w1.areasettings@[a].cluster);
    }
    assert forall|p: int| 0 <= p < w1.portals@.len() implies {
        &&& (#[trigger] w3.portals@[p]).areanum == w1.portals@[p].areanum
        &&& w3.portals@[p].frontcluster == w1.portals@[p].frontcluster
        &&& w3.portals@[p].backcluster == w1.portals@[p].backcluster
    } by {
        assert(w2.portals@[p].areanum == w1.portals@[p].areanum);
    }
    assert forall|k: int| 0 <= k < w1.clusters@.len() && k != c implies #[trigger] w3.clusters@[k] == w1.clusters@[k] by {
        assert(w2.clusters@[k] == w1.clusters@[k]);
    }
    assert forall|a: int| #[trigger] area_reach(w3, a) == area_reach(w1, a) by {
        if 0 <= a < num_areas(w1) {
            assert(w2.areasettings@[a].numreachableareas == w1.areasettings@[a].numreachableareas);
        }
    }
}

/// Gives the areas of cluster `clusternum` with reachabilities (`reach`),
/// or those without, the next cluster area numbers, in the order of the
/// area numbers. With `count_reach` they count as reachability areas too.
fn number_areas_pass(w: &mut aas_s, clusternum: i32, reach: bool, count_reach: bool)
    requires
        numbering_ready(*old(w), clusternum as int),
        0 <= old(w).clusters@[clusternum as int].numareas,
        old(w).clusters@[clusternum as int].numareas
            + count_cluster_areas(*old(w), clusternum as int, num_areas(*old(w)), reach) <= 0x7fff_ffff,
        count_reach ==> 0 <= old(w).clusters@[clusternum as int].numreachabilityareas,
        count_reach ==> old(w).clusters@[clusternum as int].numreachabilityareas
            + count_cluster_areas(*old(w), clusternum as int, num_areas(*old(w)), reach) <= 0x7fff_ffff,
    ensures
        only_numbers_changed(*old(w), *final(w), clusternum as int),
        final(w).portals@ == old(w).portals@,
        final(w).clusters@[clusternum as int].numareas == old(w).clusters@[clusternum as int].numareas
            + count_cluster_areas(*old(w), clusternum as int, num_areas(*old(w)), reach),
        final(w).clusters@[clusternum as int].numreachabilityareas
            == old(w).clusters@[clusternum as int].numreachabilityareas
            + (if count_reach { count_cluster_areas(*old(w), clusternum as int, num_areas(*old(w)), reach) } else { 0 }),
        forall|a: int| 0 <= a < final(w).areasettings@.len() ==>
            (#[trigger] final(w).areasettings@[a]).clusterareanum == (
            if 1 <= a < num_areas(*old(w)) && old(w).areasettings@[a].cluster == clusternum
                && area_reach(*old(w), a) == reach {
                old(w).clusters@[clusternum as int].numareas + count_cluster_areas(*old(w), clusternum as int, a, reach)
            } else {
                old(w).areasettings@[a].clusterareanum as int
            }),
{
    let ghost ow = *old(w);
    let ghost c = clusternum as int;
    let n = w.areas.len();
    let cu = clusternum as usize;
    let mut i: usize = if n > 0 { 1 } else { 0 };
    proof {
        lemma_count_cluster_areas(ow, c, i as int, reach);
        lemma_count_cluster_areas_mono(ow, c, i as int, n as int, reach);
    }
    while i < n
        invariant
            n == num_areas(ow),
            cu == c,
            c == clusternum as int,
            numbering_ready(ow, c),
            n > 0 ==> 1 <= i,
            i <= n,
            only_numbers_changed(ow, *w, c),
            w.portals@ == ow.portals@,
            0 <= count_cluster_areas(ow, c, i as int, reach) <= count_cluster_areas(ow, c, n as int, reach),
            w.clusters@[c].numareas == ow.clusters@[c].numareas + count_cluster_areas(ow, c, i as int, reach),
            w.clusters@[c].numreachabilityareas == ow.clusters@[c].numreachabilityareas
                + (if count_reach { count_cluster_areas(ow, c, i as int, reach) } else { 0 }),
            ow.clusters@[c].numareas + count_cluster_areas(ow, c, n as int, reach) <= 0x7fff_ffff,
            count_reach ==> ow.clusters@[c].numreachabilityareas + count_cluster_areas(ow, c, n as int, reach) <= 0x7fff_ffff,
            0 <= ow.clusters@[c].numareas,
            count_reach ==> 0 <= ow.clusters@[c].numreachabilityareas,
            forall|a: int| 0 <= a < w.areasettings@.len() ==>
                (#[trigger] w.areasettings@[a]).clusterareanum == (
                if 1 <= a < i && ow.areasettings@[a].cluster == c && area_reach(ow, a) == reach {
                    ow.clusters@[c].numareas + count_cluster_areas(ow, c, a, reach)
                } else {
                    ow.areasettings@[a].clusterareanum as int
                }),
        decreases n - i,
    {
        let ghost wpre = *w;
        proof {
            lemma_count_cluster_areas(ow, c, i as int + 1, reach);
            lemma_count_cluster_areas_mono(ow, c, i as int + 1, n as int, reach);
        }
        let has_reach = AAS_AreaReachability(w, i as i32) != 0;
        proof {
            assert(w.areasettings@[i as int].cluster == ow.areasettings@[i as int].cluster);
            assert(area_reach(*w, i as int) == area_reach(ow, i as int)) by {
                assert(w.areasettings@[i as int].numreachableareas == ow.areasettings@[i as int].numreachableareas);
            }
            assert(has_reach == area_reach(ow, i as int));
            assert(wpre.areasettings@[i as int].cluster == ow.areasettings@[i as int].cluster);
        }
        if w.areasettings[i].cluster == clusternum && has_reach == reach {
            let mut s = w.areasettings[i];
            let mut cl = w.clusters[cu];
            s.clusterareanum = cl.numareas;
            w.areasettings.set(i, s);
            //the cluster has an extra area
            cl.numareas = cl.numareas + 1;
            if count_reach {
                cl.numreachabilityareas = cl.numreachabilityareas + 1;
            }
            w.clusters.set(cu, cl);
            proof {
                assert(only_numbers_changed(wpre, *w, c));
                lemma_only_numbers_changed_trans(ow, wpre, *w, c);
                assert(ow.areasettings@[i as int].cluster == c && area_reach(ow, i as int) == reach);
                assert(w.clusters@[c].numareas == wpre.clusters@[c].numareas + 1);
                assert(w.areasettings@[i as int].clusterareanum == wpre.clusters@[c].numareas);
            }
        } else {
            proof {
                assert(!(ow.areasettings@[i as int].cluster == c && area_reach(ow, i as int) == reach));
            }
        }
        proof {
            lemma_count_cluster_areas(ow, c, i as int + 1, reach);
            lemma_count_cluster_areas_mono(ow, c, i as int + 1, n as int, reach);
            assert(count_cluster_areas(ow, c, i as int + 1, reach) == count_cluster_areas(ow, c, i as int, reach)
                + (if ow.areasettings@[i as int].cluster == c && area_reach(ow, i as int) == reach { 1int } else { 0int }));
            assert forall|a: int| 0 <= a < w.areasettings@.len() implies
                (#[trigger] w.areasettings@[a]).clusterareanum == (
                if 1 <= a < i + 1 && ow.areasettings@[a].cluster == c && area_reach(ow, a) == reach {
                    ow.clusters@[c].numareas + count_cluster_areas(ow, c, a, reach)
                } else {
                    ow.areasettings@[a].clusterareanum as int
                }) by {
                if a != i {
                    assert(w.areasettings@[a].clusterareanum == wpre.areasettings@[a].clusterareanum);
                }
            }
        }
        i += 1;
    }
}

/// Gives the portals of cluster `clusternum` whose area has reachabilities
/// (`reach`), or has none, the next cluster area numbers, in the order of
/// the cluster's portal entries: the number goes to the portal's front when
/// the cluster is its front cluster, else to its back. With `count_reach`
/// they count as reachability areas too.
fn number_portals_pass(w: &mut aas_s, clusternum: i32, reach: bool, count_reach: bool)
    requires
        numbering_ready(*old(w), clusternum as int),
        0 <= old(w).clusters@[clusternum as int].numareas <= 0x7ffe_ffff,
        0 <= old(w).clusters@[clusternum as int].numreachabilityareas <= 0x7ffe_ffff,
    ensures
        only_numbers_changed(*old(w), *final(w), clusternum as int),
        final(w).areasettings@ == old(w).areasettings@,
        final(w).clusters@[clusternum as int].numareas == old(w).clusters@[clusternum as int].numareas
            + count_cluster_portals(*old(w), clusternum as int, old(w).clusters@[clusternum as int].numportals as int, reach),
        final(w).clusters@[clusternum as int].numreachabilityareas
            == old(w).clusters@[clusternum as int].numreachabilityareas
            + (if count_reach { count_cluster_portals(*old(w), clusternum as int,
                old(w).clusters@[clusternum as int].numportals as int, reach) } else { 0 }),
        portals_numbered(*old(w), *final(w), clusternum as int,
            old(w).clusters@[clusternum as int].numportals as int, reach, old(w).clusters@[clusternum as int].numareas as int),
{
    let ghost ow = *old(w);
    let ghost c = clusternum as int;
    let cu = clusternum as usize;
    let numportals = w.clusters[cu].numportals as usize;
    let firstportal = w.clusters[cu].firstportal as usize;
    let mut i: usize = 0;
    proof {
        reveal(portals_numbered);
    }
    while i < numportals
        invariant
            cu == c,
            c == clusternum as int,
            numbering_ready(ow, c),
            numportals == ow.clusters@[c].numportals,
            firstportal == ow.clusters@[c].firstportal,
            i <= numportals,
            only_numbers_changed(ow, *w, c),
            w.areasettings@ == ow.areasettings@,
            0 <= count_cluster_portals(ow, c, i as int, reach) <= i,
            w.clusters@[c].numareas == ow.clusters@[c].numareas + count_cluster_portals(ow, c, i as int, reach),
            w.clusters@[c].numreachabilityareas == ow.clusters@[c].numreachabilityareas
                + (if count_reach { count_cluster_portals(ow, c, i as int, reach) } else { 0 }),
            0 <= ow.clusters@[c].numareas <= 0x7ffe_ffff,
            0 <= ow.clusters@[c].numreachabilityareas <= 0x7ffe_ffff,
            portals_numbered(ow, *w, c, i as int, reach, ow.clusters@[c].numareas as int),
        decreases numportals - i,
    {
        let ghost wpre = *w;
        let portalnum = w.portalindex[firstportal + i] as usize;
        proof {
            assert(0 <= w.portalindex@[firstportal + i] < w.portals@.len());
            assert(portalnum == cluster_entry(ow, c, i as int));
        }
        let has_reach = AAS_AreaReachability(w, w.portals[portalnum].areanum) != 0;
        proof {
            assert(w.portals@[portalnum as int].areanum == ow.portals@[portalnum as int].areanum);
            let pa = ow.portals@[portalnum as int].areanum as int;
            if 0 <= pa < num_areas(ow) {
                assert(w.areasettings@[pa].numreachableareas == ow.areasettings@[pa].numreachableareas);
            }
            assert(has_reach == entry_reach(ow, c, i as int));
        }
        if has_reach == reach {
            let mut portal = w.portals[portalnum];
            let mut cl = w.clusters[cu];
            if portal.frontcluster == clusternum {
                portal.clusterareanum0 = cl.numareas;
            } else {
                portal.clusterareanum1 = cl.numareas;
            }
            w.portals.set(portalnum, portal);
            cl.numareas = cl.numareas + 1;
            if count_reach {
                cl.numreachabilityareas = cl.numreachabilityareas + 1;
            }
            w.clusters.set(cu, cl);
            proof {
                assert(only_numbers_changed(wpre, *w, c));
                lemma_only_numbers_changed_trans(ow, wpre, *w, c);
            }
        }
        proof {
            lemma_portals_numbered_step(ow, wpre, *w, c, i as int, reach, ow.clusters@[c].numareas as int);
        }
        i += 1;
    }
}

/// The portals named by the first `end` entries of cluster `c` whose area
/// has reachabilities (`reach`), or has none, carry in `w2` the cluster area
/// numbers from `base` on, at the side of the cluster; every other number
/// is that of `w1`.
#[verifier::opaque]
pub open spec fn portals_numbered(w1: aas_s, w2: aas_s, c: int, end: int, reach: bool, base: int) -> bool {
    &&& forall|p: int| 0 <= p < w1.portals@.len() && !(listed(w1, c, p, end)
        && area_reach(w1, w1.portals@[p].areanum as int) == reach) ==>
        #[trigger] w2.portals@[p] == w1.portals@[p]
    &&& forall|p: int| 0 <= p < w1.portals@.len() ==> {
        &&& (w1.portals@[p].frontcluster == c ==> (#[trigger] w2.portals@[p]).clusterareanum1 == w1.portals@[p].clusterareanum1)
        &&& (w1.portals@[p].frontcluster != c ==> w2.portals@[p].clusterareanum0 == w1.portals@[p].clusterareanum0)
    }
    &&& forall|k: int| 0 <= k < end && entry_reach(w1, c, k) == reach && last_entry(w1, c, k, end) ==> {
        let q = #[trigger] cluster_entry(w1, c, k);
        let v = base + count_cluster_portals(w1, c, k, reach);
        if w1.portals@[q].frontcluster == c {
            w2.portals@[q].clusterareanum0 == v
        } else {
            w2.portals@[q].clusterareanum1 == v
        }
    }
}

#[verifier::rlimit(40)]
proof fn lemma_portals_numbered_step(w1: aas_s, wpre: aas_s, w2: aas_s, c: int, i: int, reach: bool, base: int)
    requires
        numbering_ready(w1, c),
        0 <= i < w1.clusters@[c].numportals,
        portals_numbered(w1, wpre, c, i, reach, base),
        only_numbers_changed(w1, wpre, c),
        wpre.portalindex@ == w1.portalindex@,
        ({
            let q = cluster_entry(w1, c, i);
            let v = base + count_cluster_portals(w1, c, i, reach);
            &&& w2.portals@.len() == wpre.portals@.len()
            &&& forall|p: int| 0 <= p < wpre.portals@.len() && p != q ==> #[trigger] w2.portals@[p] == wpre.portals@[p]
            &&& entry_reach(w1, c, i) != reach ==> w2.portals@[q] == wpre.portals@[q]
            &&& entry_reach(w1, c, i) == reach ==> {
                &&& w2.portals@[q].areanum == wpre.portals@[q].areanum
                &&& w2.portals@[q].frontcluster == wpre.portals@[q].frontcluster
                &&& w2.portals@[q].backcluster == wpre.portals@[q].backcluster
                &&& if wpre.portals@[q].frontcluster == c {
                    w2.portals@[q].clusterareanum0 == v && w2.portals@[q].clusterareanum1 == wpre.portals@[q].clusterareanum1
                } else {
                    w2.portals@[q].clusterareanum1 == v && w2.portals@[q].clusterareanum0 == wpre.portals@[q].clusterareanum0
                }
            }
        }),
    ensures
        portals_numbered(w1, w2, c, i + 1, reach, base),
{
    reveal(portals_numbered);
    let q = cluster_entry(w1, c, i);
    assert(0 <= q < w1.portals@.len());
    assert(wpre.portals@[q].frontcluster == w1.portals@[q].frontcluster);
    assert forall|p: int| 0 <= p < w1.portals@.len() && !(listed(w1, c, p, i + 1)
        && area_reach(w1, w1.portals@[p].areanum as int) == reach) implies
        #[trigger] w2.portals@[p] == w1.portals@[p] by {
        if p != q {
            if listed(w1, c, p, i) {
                let k = choose|k: int| 0 <= k < i && #[trigger] cluster_entry(w1, c, k) == p;
                assert(listed(w1, c, p, i + 1));
            }
        } else {
            assert(listed(w1, c, p, i + 1));
            if listed(w1, c, p, i) {
                let k = choose|k: int| 0 <= k < i && #[trigger] cluster_entry(w1, c, k) == p;
                assert(listed(w1, c, p, i + 1));
            }
        }
    }
    assert forall|k: int| 0 <= k < i + 1 && entry_reach(w1, c, k) == reach && last_entry(w1, c, k, i + 1) implies {
        let q2 = #[trigger] cluster_entry(w1, c, k);
        let v = base + count_cluster_portals(w1, c, k, reach);
        if w1.portals@[q2].frontcluster == c {
            w2.portals@[q2].clusterareanum0 == v
        } else {
            w2.portals@[q2].clusterareanum1 == v
        }
    } by {
        if k < i {
            assert(cluster_entry(w1, c, i) != cluster_entry(w1, c, k));
            assert(last_entry(w1, c, k, i));
        }
    }
}

/// Every portal named by one of the first `end` entries of cluster `c`
/// carries in `w2`, at the side of the cluster, the cluster area number of
/// its last entry: from `base_reach` on for portals whose area has
/// reachabilities, from `base_noreach` on for the others. Every other number
/// is that of `w1`.
pub open spec fn portals_all_numbered(w1: aas_s, w2: aas_s, c: int, end: int, base_reach: int, base_noreach: int) -> bool {
    &&& forall|p: int| 0 <= p < w1.portals@.len() && !listed(w1, c, p, end) ==>
        #[trigger] w2.portals@[p] == w1.portals@[p]
    &&& forall|p: int| 0 <= p < w1.portals@.len() ==> {
        &&& (w1.portals@[p].frontcluster == c ==> (#[trigger] w2.portals@[p]).clusterareanum1 == w1.portals@[p].clusterareanum1)
        &&& (w1.portals@[p].frontcluster != c ==> w2.portals@[p].clusterareanum0 == w1.portals@[p].clusterareanum0)
    }
    &&& forall|k: int| 0 <= k < end && last_entry(w1, c, k, end) ==> {
        let q = #[trigger] cluster_entry(w1, c, k);
        let v = if entry_reach(w1, c, k) {
            base_reach + count_cluster_portals(w1, c, k, true)
        } else {
            base_noreach + count_cluster_portals(w1, c, k, false)
        };
        if w1.portals@[q].frontcluster == c {
            w2.portals@[q].clusterareanum0 == v
        } else {
            w2.portals@[q].clusterareanum1 == v
        }
    }
}

/// Two worlds that differ in cluster area numbers only have the same
/// portal entries for cluster `c`.
proof fn lemma_entries_same(wa: aas_s, wb: aas_s, c: int, end: int)
    requires
        numbering_ready(wa, c),
        end == wa.clusters@[c].numportals,
        only_numbers_changed(wa, wb, c),
    ensures
        forall|k: int| #[trigger] cluster_entry(wb, c, k) == cluster_entry(wa, c, k),
        forall|k: int| 0 <= k < end ==> #[trigger] entry_reach(wb, c, k) == entry_reach(wa, c, k),
        forall|k: int| 0 <= k <= end ==> #[trigger] count_cluster_portals(wb, c, k, true)
            == count_cluster_portals(wa, c, k, true),
        forall|k: int| 0 <= k <= end ==> #[trigger] count_cluster_portals(wb, c, k, false)
            == count_cluster_portals(wa, c, k, false),
        forall|p: int| #[trigger] listed(wb, c, p, end) == listed(wa, c, p, end),
        forall|k: int| #[trigger] last_entry(wb, c, k, end) == last_entry(wa, c, k, end),
{
    lemma_count_portals_same_w(wa, wb, c, end);
    assert forall|k: int| #[trigger] cluster_entry(wb, c, k) == cluster_entry(wa, c, k) by {}
    assert forall|k: int| 0 <= k < end implies #[trigger] entry_reach(wb, c, k) == entry_reach(wa, c, k) by {
        let q = cluster_entry(wa, c, k);
        assert(0 <= wa.portalindex@[wa.clusters@[c].firstportal + k] < wa.portals@.len());
        assert(wb.portals@[q].areanum == wa.portals@[q].areanum);
        lemma_only_numbers_changed_trans(wa, wb, wb, c);
    }
    assert forall|p: int| #[trigger] listed(wb, c, p, end) == listed(wa, c, p, end) by {
        if listed(wa, c, p, end) {
            let k = choose|k: int| 0 <= k < end && #[trigger] cluster_entry(wa, c, k) == p;
            assert(cluster_entry(wb, c, k) == p);
        }
        if listed(wb, c, p, end) {
            let k = choose|k: int| 0 <= k < end && #[trigger] cluster_entry(wb, c, k) == p;
            assert(cluster_entry(wa, c, k) == p);
        }
    }
    assert forall|k: int| #[trigger] last_entry(wb, c, k, end) == last_entry(wa, c, k, end) by {
        if last_entry(wa, c, k, end) {
            assert forall|k2: int| k < k2 < end implies #[trigger] cluster_entry(wb, c, k2) != cluster_entry(wb, c, k) by {
                assert(cluster_entry(wa, c, k2) != cluster_entry(wa, c, k));
            }
        }
        if last_entry(wb, c, k, end) {
            assert forall|k2: int| k < k2 < end implies #[trigger] cluster_entry(wa, c, k2) != cluster_entry(wa, c, k) by {
                assert(cluster_entry(wb, c, k2) != cluster_entry(wb, c, k));
            }
        }
    }
}

proof fn lemma_portals_all_numbered(w0: aas_s, w1: aas_s, w2: aas_s, w3: aas_s, w4: aas_s, c: int,
    end: int, br: int, bn: int)
    requires
        numbering_ready(w0, c),
        end == w0.clusters@[c].numportals,
        only_numbers_changed(w0, w1, c),
        w1.portals@ == w0.portals@,
        only_numbers_changed(w1, w2, c),
        only_numbers_changed(w2, w3, c),
        only_numbers_changed(w3, w4, c),
        portals_numbered(w1, w2, c, end, true, br),
        w3.portals@ == w2.portals@,
        portals_numbered(w3, w4, c, end, false, bn),
    ensures
        portals_all_numbered(w0, w4, c, end, br, bn),
{
    reveal(portals_numbered);
    lemma_only_numbers_changed_trans(w0, w1, w2, c);
    lemma_only_numbers_changed_trans(w0, w2, w3, c);
    lemma_entries_same(w0, w1, c, end);
    lemma_entries_same(w0, w3, c, end);
    assert forall|p: int| 0 <= p < w0.portals@.len() && !listed(w0, c, p, end) implies
        #[trigger] w4.portals@[p] == w0.portals@[p] by {
        assert(!listed(w1, c, p, end));
        assert(!listed(w3, c, p, end));
        assert(w2.portals@[p] == w1.portals@[p]);
        assert(w4.portals@[p] == w3.portals@[p]);
    }
    assert forall|p: int| 0 <= p < w0.portals@.len() implies {
        &&& (w0.portals@[p].frontcluster == c ==> (#[trigger] w4.portals@[p]).clusterareanum1 == w0.portals@[p].clusterareanum1)
        &&& (w0.portals@[p].frontcluster != c ==> w4.portals@[p].clusterareanum0 == w0.portals@[p].clusterareanum0)
    } by {
        assert(w2.portals@[p].frontcluster == w1.portals@[p].frontcluster);
        assert(w2.portals@[p] == w3.portals@[p]);
        assert(w4.portals@[p].frontcluster == w3.portals@[p].frontcluster);
    }
    assert forall|k: int| 0 <= k < end && last_entry(w0, c, k, end) implies {
        let q = #[trigger] cluster_entry(w0, c, k);
        let v = if entry_reach(w0, c, k) {
            br + count_cluster_portals(w0, c, k, true)
        } else {
            bn + count_cluster_portals(w0, c, k, false)
        };
        if w0.portals@[q].frontcluster == c {
            w4.portals@[q].clusterareanum0 == v
        } else {
            w4.portals@[q].clusterareanum1 == v
        }
    } by {
        let q = cluster_entry(w0, c, k);
        assert(0 <= w0.portalindex@[w0.clusters@[c].firstportal + k] < w0.portals@.len());
        assert(listed(w0, c, q, end));
        assert(last_entry(w1, c, k, end));
        assert(last_entry(w3, c, k, end));
        assert(cluster_entry(w1, c, k) == q);
        assert(cluster_entry(w3, c, k) == q);
        assert(w3.portals@[q] == w2.portals@[q]);
        assert(w2.portals@[q].frontcluster == w1.portals@[q].frontcluster);
        assert(w3.portals@[q].areanum == w1.portals@[q].areanum);
        assert(entry_reach(w1, c, k) == entry_reach(w0, c, k));
        assert(entry_reach(w3, c, k) == entry_reach(w0, c, k));
        if entry_reach(w0, c, k) {
            // the second pass leaves portals of areas with reachabilities alone
            assert(w4.portals@[q] == w3.portals@[q]);
        } else {
            assert(w2.portals@[q] == w1.portals@[q]);
        }
    }
}

proof fn lemma_count_portals_same(w1: aas_s, w2: aas_s, c: int, k: int, reach: bool)
    requires
        forall|j: int| 0 <= j < k ==> #[trigger] entry_reach(w2, c, j) == entry_reach(w1, c, j),
    ensures
        count_cluster_portals(w2, c, k, reach) == count_cluster_portals(w1, c, k, reach),
    decreases k,
{
    if k > 0 {
        lemma_count_portals_same(w1, w2, c, k - 1, reach);
        assert(entry_reach(w2, c, k - 1) == entry_reach(w1, c, k - 1));
    }
}

/// Numbers the areas and portals of cluster `clusternum`
/// (`AAS_NumberClusterAreas`): first its areas with reachabilities, in the
/// order of the area numbers, then the portals of its portal entries whose
/// area has reachabilities, then its areas without and then the portals
/// without. The areas and portals with reachabilities are the cluster's
/// reachability areas. A portal gets its number at the side of the
/// cluster; a portal named by two entries keeps the number of the last.
pub fn AAS_NumberClusterAreas(w: &mut aas_s, clusternum: i32)
    requires
        numbering_ready(*old(w), clusternum as int),
    ensures
        only_numbers_changed(*old(w), *final(w), clusternum as int),
        ({
            let ow = *old(w);
            let c = clusternum as int;
            let n = num_areas(ow);
            let np = ow.clusters@[c].numportals as int;
            let ra = count_cluster_areas(ow, c, n, true);
            let rp = count_cluster_portals(ow, c, np, true);
            let ua = count_cluster_areas(ow, c, n, false);
            let up = count_cluster_portals(ow, c, np, false);
            &&& final(w).clusters@[c].numareas == ra + rp + ua + up
            &&& final(w).clusters@[c].numreachabilityareas == ra + rp
            &&& forall|a: int| 0 <= a < final(w).areasettings@.len() ==>
                (#[trigger] final(w).areasettings@[a]).clusterareanum == (
                if 1 <= a < n && ow.areasettings@[a].cluster == c {
                    if area_reach(ow, a) {
                        count_cluster_areas(ow, c, a, true)
                    } else {
                        ra + rp + count_cluster_areas(ow, c, a, false)
                    }
                } else {
                    ow.areasettings@[a].clusterareanum as int
                })
            &&& portals_all_numbered(ow, *final(w), c, np, ra, ra + rp + ua)
        }),
{
    let ghost ow = *old(w);
    let ghost c = clusternum as int;
    let ghost n = num_areas(ow);
    let ghost np = ow.clusters@[c].numportals as int;
    let cu = clusternum as usize;
    let mut cl = w.clusters[cu];
    cl.numareas = 0;
    cl.numreachabilityareas = 0;
    w.clusters.set(cu, cl);
    let ghost w0 = *w;
    proof {
        lemma_count_cluster_areas_sum(ow, c, n);
        lemma_count_cluster_areas(ow, c, n, true);
        lemma_count_cluster_areas(ow, c, n, false);
        lemma_count_cluster_portals(ow, c, np, true);
        lemma_count_cluster_portals(ow, c, np, false);
        assert(only_numbers_changed(ow, w0, c));
        assert(count_cluster_areas(w0, c, n, true) == count_cluster_areas(ow, c, n, true)) by {
            lemma_count_areas_same(ow, w0, c, n, true);
        }
    }
    //number all areas in this cluster WITH reachabilities
    number_areas_pass(w, clusternum, true, true);
    let ghost w1 = *w;
    proof {
        lemma_only_numbers_changed_trans(ow, w0, w1, c);
        lemma_count_portals_same_w(ow, w1, c, np);
    }
    //number all portals in this cluster WITH reachabilities
    number_portals_pass(w, clusternum, true, true);
    let ghost w2 = *w;
    proof {
        lemma_only_numbers_changed_trans(ow, w1, w2, c);
        lemma_count_areas_same(ow, w2, c, n, false);
    }
    //number all areas in this cluster WITHOUT reachabilities
    number_areas_pass(w, clusternum, false, false);
    let ghost w3 = *w;
    proof {
        lemma_only_numbers_changed_trans(ow, w2, w3, c);
        lemma_count_portals_same_w(ow, w3, c, np);
    }
    //number all portals in this cluster WITHOUT reachabilities
    number_portals_pass(w, clusternum, false, false);
    proof {
        lemma_only_numbers_changed_trans(ow, w3, *w, c);
        lemma_only_numbers_changed_trans(w0, w1, w2, c);
        lemma_only_numbers_changed_trans(w0, w2, w3, c);
        lemma_portals_all_numbered(ow, w1, w2, w3, *w, c, np, count_cluster_areas(ow, c, n, true),
            count_cluster_areas(ow, c, n, true) + count_cluster_portals(ow, c, np, true)
            + count_cluster_areas(ow, c, n, false));
        let ra = count_cluster_areas(ow, c, n, true);
        let rp = count_cluster_portals(ow, c, np, true);
        let ua = count_cluster_areas(ow, c, n, false);
        let up = count_cluster_portals(ow, c, np, false);
        assert(w1.clusters@[c].numareas == ra);
        assert(w2.clusters@[c].numareas == ra + rp);
        assert(w3.clusters@[c].numareas == ra + rp + ua);
        assert(w.clusters@[c].numareas == ra + rp + ua + up);
        assert(w.clusters@[c].numreachabilityareas == ra + rp);
        assert forall|a: int| 0 <= a < w.areasettings@.len() implies
            (#[trigger] w.areasettings@[a]).clusterareanum == (
            if 1 <= a < n && ow.areasettings@[a].cluster == c {
                if area_reach(ow, a) {
                    count_cluster_areas(ow, c, a, true)
                } else {
                    ra + rp + count_cluster_areas(ow, c, a, false)
                }
            } else {
                ow.areasettings@[a].clusterareanum as int
            }) by {
            assert(w.areasettings@[a] == w3.areasettings@[a]);
            assert(w1.areasettings@[a] == w2.areasettings@[a]);
            assert(area_reach(w0, a) == area_reach(ow, a));
            assert(area_reach(w2, a) == area_reach(ow, a));
            if 1 <= a < n {
                lemma_count_areas_same(ow, w0, c, a, true);
                lemma_count_areas_same(ow, w2, c, a, false);
            }
        }
    }
}

/// The counts of areas of a cluster are the same in two worlds whose
/// cluster numbers and reachability counts agree.
proof fn lemma_count_areas_same(w1: aas_s, w2: aas_s, c: int, end: int, reach: bool)
    requires
        w1.areasettings@.len() >= num_areas(w1),
        end <= num_areas(w1),
        only_numbers_changed(w1, w2, c),
    ensures
        count_cluster_areas(w2, c, end, reach) == count_cluster_areas(w1, c, end, reach),
    decreases end,
{
    if end > 1 {
        lemma_count_areas_same(w1, w2, c, end - 1, reach);
        assert(w2.areasettings@[end - 1].cluster == w1.areasettings@[end - 1].cluster);
        assert(w2.areasettings@[end - 1].numreachableareas == w1.areasettings@[end - 1].numreachableareas);
    }
}

proof fn lemma_count_portals_same_w(w1: aas_s, w2: aas_s, c: int, np: int)
    requires
        numbering_ready(w1, c),
        np == w1.clusters@[c].numportals,
        only_numbers_changed(w1, w2, c),
    ensures
        forall|k: int| 0 <= k <= np ==> #[trigger] count_cluster_portals(w2, c, k, true) == count_cluster_portals(w1, c, k, true),
        forall|k: int| 0 <= k <= np ==> #[trigger] count_cluster_portals(w2, c, k, false) == count_cluster_portals(w1, c, k, false),
{
    lemma_only_numbers_changed_trans(w1, w2, w2, c);
    assert forall|k: int| 0 <= k < np implies #[trigger] entry_reach(w2, c, k) == entry_reach(w1, c, k) by {
        let q = cluster_entry(w1, c, k);
        assert(cluster_entry(w2, c, k) == q);
        assert(0 <= w1.portalindex@[w1.clusters@[c].firstportal + k] < w1.portals@.len());
        assert(w2.portals@[q].areanum == w1.portals@[q].areanum);
    }
    assert forall|k: int| 0 <= k <= np implies #[trigger] count_cluster_portals(w2, c, k, true) == count_cluster_portals(w1, c, k, true) by {
        lemma_count_portals_same(w1, w2, c, k, true);
    }
    assert forall|k: int| 0 <= k <= np implies #[trigger] count_cluster_portals(w2, c, k, false) == count_cluster_portals(w1, c, k, false) by {
        lemma_count_portals_same(w1, w2, c, k, false);
    }
}

} // verus!
