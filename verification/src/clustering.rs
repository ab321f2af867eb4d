//! Building the clusters: portals from the cluster portal areas, clusters
//! flooded from the other areas, and the test that every portal separates
//! two clusters.
use vstd::prelude::*;
use crate::aasfile::{AREACONTENTS_CLUSTERPORTAL, AREACONTENTS_VIEWPORTAL, aas_cluster_s, aas_portal_s};
use crate::aasworld::aas_s;
use crate::cluster::{
    ClusterError, AAS_MAX_PORTALS, AAS_MAX_CLUSTERS, AAS_MAX_PORTALINDEXSIZE, num_areas, is_portal_area,
    same_graph, contents_shrink, count_portal_areas, graph_wf, portals_wf, portal_areas_unique,
    clusters_closed, area_consistent, area_closed, portal_area_wf, flood_ready, floods_post, flood_post,
    evolves, marks_only, newly_closed_except, nbr_ok, touches, flag_removed, flag_dropped, portal_full, portal_missing, has_portal,
    unmarked_count, cluster_at_tail, lemma_unmarked_count, lemma_same_graph_wf, lemma_same_graph_trans,
    lemma_evolves_trans, lemma_evolves_closed_upto, lemma_floods_from_flood, lemma_floods_trans,
    AAS_RemoveClusterAreas, AAS_FloodClusterAreas_r, AAS_FloodClusterAreasUsingReachabilities,
};
use crate::clusternum::{numbering_ready, only_numbers_changed, AAS_NumberClusterAreas};
use crate::portals::{
    face_step, less_parents, portal_flags_added, portal_search, count_sum, is_grounded, less_group, less_step, has_less_parent, less_closed, areas_in_range,
    AAS_FindPossiblePortals, MAX_PORTALAREAS,
};
use crate::cluster::{
    area_face, AAS_SetViewPortalsAsClusterPortals, AAS_CountForcedClusterPortals, AAS_CreateViewPortals,
};

verus! {

/// Only the portals of `w2` may differ from those of `w1`.
pub open spec fn only_portals_changed(w1: aas_s, w2: aas_s) -> bool {
    &&& same_graph(w1, w2)
    &&& w2.areasettings@ == w1.areasettings@
    &&& w2.portalindex@ == w1.portalindex@
    &&& w2.clusters@ == w1.clusters@
    &&& w2.savefile == w1.savefile
}

/// The portals after the first `from` are the portals of the cluster
/// portal areas among `1..end`, in the order of their area numbers, with no
/// clusters at their sides.
pub open spec fn portals_of_areas(w: aas_s, from: int, end: int) -> bool {
    &&& w.portals@.len() == from + count_portal_areas(w, end)
    &&& forall|p: int| from <= p < w.portals@.len() ==> {
        &&& 1 <= (#[trigger] w.portals@[p]).areanum < end
        &&& is_portal_area(w, w.portals@[p].areanum as int)
        &&& w.portals@[p].frontcluster == 0
        &&& w.portals@[p].backcluster == 0
    }
    &&& forall|p: int, q: int| from <= p < q < w.portals@.len() ==>
        #[trigger] w.portals@[p].areanum < #[trigger] w.portals@[q].areanum
    &&& forall|a: int| 1 <= a < end && #[trigger] is_portal_area(w, a) ==>
        exists|p: int| from <= p < w.portals@.len() && #[trigger] w.portals@[p].areanum == a
}

/// Creates a portal for every cluster portal area, in the order of the
/// area numbers, with no clusters at its sides (`AAS_CreatePortals`). There
/// may be no more than `AAS_MAX_PORTALS` portals.
pub fn AAS_CreatePortals(w: &mut aas_s) -> (r: Result<(), ClusterError>)
    requires
        old(w).areasettings@.len() >= old(w).areas@.len(),
        old(w).areas@.len() <= 0x7fff_ffff,
    ensures
        only_portals_changed(*old(w), *final(w)),
        r is Ok ==> {
            &&& final(w).portals@.subrange(0, old(w).portals@.len() as int) == old(w).portals@
            &&& portals_of_areas(*final(w), old(w).portals@.len() as int, num_areas(*old(w)))
        },
        r is Err <==> count_portal_areas(*old(w), num_areas(*old(w))) > 0
            && old(w).portals@.len() + count_portal_areas(*old(w), num_areas(*old(w))) > AAS_MAX_PORTALS,
        r is Err ==> r == Err::<(), ClusterError>(ClusterError::TooManyPortals),
{
    let ghost ow = *old(w);
    let ghost from = ow.portals@.len() as int;
    let n = w.areas.len();
    let mut i: usize = if n > 0 { 1 } else { 0 };
    while i < n
        invariant
            n == num_areas(ow),
            n <= 0x7fff_ffff,
            ow.areasettings@.len() >= n,
            ow == *old(w),
            from == ow.portals@.len(),
            n > 0 ==> 1 <= i,
            i <= n,
            only_portals_changed(ow, *w),
            w.portals@.subrange(0, from) == ow.portals@,
            portals_of_areas(*w, from, i as int),
            from + count_portal_areas(ow, i as int) <= AAS_MAX_PORTALS
                || count_portal_areas(ow, i as int) == 0,
            count_portal_areas(*w, i as int) == count_portal_areas(ow, i as int),
        decreases n - i,
    {
        let ghost wpre = *w;
        proof {
            lemma_count_portal_areas_same(ow, *w, i as int + 1);
            lemma_count_portal_areas_mono(ow, i as int + 1, n as int);
            lemma_count_portal_areas_nonneg(ow, i as int);
        }
        if w.areasettings[i].contents & AREACONTENTS_CLUSTERPORTAL != 0 {
            if w.portals.len() >= AAS_MAX_PORTALS {
                proof {
                    lemma_count_portal_areas_mono(ow, i as int + 1, n as int);
                }
                return Err(ClusterError::TooManyPortals);
            }
            w.portals.push(aas_portal_s {
                areanum: i as i32,
                frontcluster: 0,
                backcluster: 0,
                clusterareanum0: 0,
                clusterareanum1: 0,
            });
            proof {
                assert forall|a: int| 1 <= a < i + 1 && #[trigger] is_portal_area(*w, a) implies
                    exists|p: int| from <= p < w.portals@.len() && #[trigger] w.portals@[p].areanum == a by {
                    if a == i {
                        assert(w.portals@[w.portals@.len() - 1].areanum == a);
                    } else {
                        assert(is_portal_area(wpre, a));
                        let p = choose|p: int| from <= p < wpre.portals@.len() && #[trigger] wpre.portals@[p].areanum == a;
                        assert(w.portals@[p].areanum == a);
                    }
                }
            }
        } else {
            proof {
                assert forall|a: int| 1 <= a < i + 1 && #[trigger] is_portal_area(*w, a) implies
                    exists|p: int| from <= p < w.portals@.len() && #[trigger] w.portals@[p].areanum == a by {
                    assert(a != i);
                }
            }
        }
        proof {
            lemma_count_portal_areas_same(ow, *w, i as int + 1);
            lemma_count_portal_areas_same(ow, wpre, i as int + 1);
            assert(count_portal_areas(ow, i as int + 1) == count_portal_areas(ow, i as int)
                + (if is_portal_area(ow, i as int) { 1int } else { 0int }));
            assert(is_portal_area(*w, i as int) == is_portal_area(ow, i as int));
            assert(w.portals@.len() == from + count_portal_areas(*w, i as int + 1));
            assert forall|p: int| from <= p < w.portals@.len() implies {
                &&& 1 <= (#[trigger] w.portals@[p]).areanum < i + 1
                &&& is_portal_area(*w, w.portals@[p].areanum as int)
                &&& w.portals@[p].frontcluster == 0
                &&& w.portals@[p].backcluster == 0
            } by {
                if p < wpre.portals@.len() {
                    assert(w.portals@[p] == wpre.portals@[p]);
                }
            }
            assert forall|p: int, q: int| from <= p < q < w.portals@.len() implies
                #[trigger] w.portals@[p].areanum < #[trigger] w.portals@[q].areanum by {
                if q < wpre.portals@.len() {
                    assert(w.portals@[p] == wpre.portals@[p]);
                    assert(w.portals@[q] == wpre.portals@[q]);
                } else {
                    assert(w.portals@[p] == wpre.portals@[p]);
                }
            }
            assert(w.portals@.subrange(0, from) =~= ow.portals@);
        }
        i += 1;
    }
    proof {
        lemma_count_portal_areas_same(ow, *w, n as int);
        lemma_count_portal_areas_nonneg(ow, n as int);
    }
    Ok(())
}

pub proof fn lemma_count_portal_areas_nonneg(w: aas_s, end: int)
    ensures
        0 <= count_portal_areas(w, end) <= if end <= 1 { 0 } else { end - 1 },
    decreases end,
{
    if end > 1 {
        lemma_count_portal_areas_nonneg(w, end - 1);
    }
}

pub proof fn lemma_count_portal_areas_mono(w: aas_s, e1: int, e2: int)
    requires
        e1 <= e2,
    ensures
        count_portal_areas(w, e1) <= count_portal_areas(w, e2),
    decreases e2 - e1,
{
    if e1 < e2 {
        lemma_count_portal_areas_mono(w, e1, e2 - 1);
    }
}

pub proof fn lemma_count_portal_areas_same(w1: aas_s, w2: aas_s, end: int)
    requires
        forall|a: int| 1 <= a < end ==> #[trigger] w2.areasettings@[a].contents == w1.areasettings@[a].contents,
    ensures
        count_portal_areas(w2, end) == count_portal_areas(w1, end),
    decreases end,
{
    if end > 1 {
        lemma_count_portal_areas_same(w1, w2, end - 1);
        assert(w2.areasettings@[end - 1].contents == w1.areasettings@[end - 1].contents);
    }
}

/// Losing cluster portal flags never makes more portal areas, and losing
/// one makes fewer.
pub proof fn lemma_count_portal_areas_shrink(w1: aas_s, w2: aas_s, end: int, x: int)
    requires
        contents_shrink(w1, w2),
        end <= w1.areasettings@.len(),
    ensures
        count_portal_areas(w2, end) <= count_portal_areas(w1, end),
        1 <= x < end && is_portal_area(w1, x) && !is_portal_area(w2, x) ==>
            count_portal_areas(w2, end) < count_portal_areas(w1, end),
    decreases end,
{
    if end > 1 {
        lemma_count_portal_areas_shrink(w1, w2, end - 1, x);
        let a = end - 1;
        let c = w1.areasettings@[a].contents;
        assert(c & 8i32 == 0 ==> (c & !8i32) & 8i32 == 0) by (bit_vector);
        assert(w2.areasettings@[a].contents == c || w2.areasettings@[a].contents == c & !AREACONTENTS_CLUSTERPORTAL);
    }
}

/// Tests that every portal has a front and a back cluster
/// (`AAS_TestPortals`). The first portal without one is no portal any
/// more: its area loses the cluster portal flag, and the result is false.
pub fn AAS_TestPortals(w: &mut aas_s) -> (r: bool)
    requires
        forall|p: int| 1 <= p < old(w).portals@.len() ==>
            0 <= #[trigger] old(w).portals@[p].areanum < old(w).areasettings@.len(),
    ensures
        r <==> forall|p: int| 1 <= p < old(w).portals@.len() ==>
            (#[trigger] old(w).portals@[p]).frontcluster != 0 && old(w).portals@[p].backcluster != 0,
        r ==> *final(w) == *old(w),
        !r ==> exists|p: int| 1 <= p < old(w).portals@.len() && {
            let q = #[trigger] old(w).portals@[p];
            let a = q.areanum as int;
            &&& (q.frontcluster == 0 || q.backcluster == 0)
            &&& forall|p2: int| 1 <= p2 < p ==>
                (#[trigger] old(w).portals@[p2]).frontcluster != 0 && old(w).portals@[p2].backcluster != 0
            &&& final(w).areasettings@.len() == old(w).areasettings@.len()
            &&& final(w).areasettings@[a].contents == old(w).areasettings@[a].contents & !AREACONTENTS_CLUSTERPORTAL
            &&& final(w).areasettings@[a].cluster == old(w).areasettings@[a].cluster
            &&& final(w).areasettings@[a].clusterareanum == old(w).areasettings@[a].clusterareanum
            &&& final(w).areasettings@[a].areaflags == old(w).areasettings@[a].areaflags
            &&& final(w).areasettings@[a].presencetype == old(w).areasettings@[a].presencetype
            &&& final(w).areasettings@[a].numreachableareas == old(w).areasettings@[a].numreachableareas
            &&& final(w).areasettings@[a].firstreachablearea == old(w).areasettings@[a].firstreachablearea
            &&& forall|b: int| 0 <= b < final(w).areasettings@.len() && b != a ==>
                #[trigger] final(w).areasettings@[b] == old(w).areasettings@[b]
        },
        !r ==> {
            &&& final(w).portals@ == old(w).portals@
            &&& final(w).portalindex@ == old(w).portalindex@
            &&& final(w).clusters@ == old(w).clusters@
            &&& same_graph(*old(w), *final(w))
            &&& contents_shrink(*old(w), *final(w))
            &&& final(w).savefile == old(w).savefile
        },
{
    let ghost ow = *old(w);
    let numportals = w.portals.len();
    let mut i: usize = 1;
    while i < numportals
        invariant
            *w == ow,
            ow == *old(w),
            numportals == ow.portals@.len(),
            1 <= i,
            forall|p2: int| 1 <= p2 < i ==>
                (#[trigger] ow.portals@[p2]).frontcluster != 0 && ow.portals@[p2].backcluster != 0,
            forall|p: int| 1 <= p < ow.portals@.len() ==>
                0 <= #[trigger] ow.portals@[p].areanum < ow.areasettings@.len(),
        decreases numportals - i,
    {
        let portal = w.portals[i];
        if portal.frontcluster == 0 || portal.backcluster == 0 {
            let a = portal.areanum as usize;
            let mut s = w.areasettings[a];
            s.contents = s.contents & !AREACONTENTS_CLUSTERPORTAL;
            w.areasettings.set(a, s);
            proof {
                let p = i as int;
                assert(ow.portals@[p] == portal);
                assert forall|b: int| 0 <= b < ow.areasettings@.len() implies {
                    ||| (#[trigger] w.areasettings@[b]).contents == ow.areasettings@[b].contents
                    ||| w.areasettings@[b].contents == ow.areasettings@[b].contents & !AREACONTENTS_CLUSTERPORTAL
                } by {}
                assert forall|b: int| 0 <= b < ow.areasettings@.len() implies {
                    &&& (#[trigger] ow.areasettings@[b]).areaflags == w.areasettings@[b].areaflags
                    &&& ow.areasettings@[b].presencetype == w.areasettings@[b].presencetype
                    &&& ow.areasettings@[b].numreachableareas == w.areasettings@[b].numreachableareas
                    &&& ow.areasettings@[b].firstreachablearea == w.areasettings@[b].firstreachablearea
                } by {}
            }
            return false;
        }
        i += 1;
    }
    true
}

/// Every area that is no cluster portal area, and has reachabilities when
/// the flood does not go through faces, is in a cluster.
pub open spec fn cluster_cover(w: aas_s, nofaceflood: bool) -> bool {
    forall|a: int| 1 <= a < num_areas(w) && !is_portal_area(w, a)
        && !(nofaceflood && w.areasettings@[a].numreachableareas == 0) ==>
        (#[trigger] w.areasettings@[a]).cluster >= 1
}

/// Area `a` needs no cluster of its own, or has one.
pub open spec fn area_settled(w: aas_s, a: int, nofaceflood: bool) -> bool {
    ||| w.areasettings@[a].cluster != 0
    ||| is_portal_area(w, a)
    ||| (nofaceflood && w.areasettings@[a].numreachableareas == 0)
}

/// The clusters found so far are consistent and closed.
pub open spec fn clusters_ready(w: aas_s, nofaceflood: bool) -> bool {
    &&& graph_wf(w)
    &&& portals_wf(w)
    &&& portal_areas_unique(w)
    &&& clusters_closed(w, nofaceflood)
}

/// `w2` has the area contents and portal areas of `w1`.
pub open spec fn same_portal_areas(w1: aas_s, w2: aas_s) -> bool {
    &&& w2.areasettings@.len() == w1.areasettings@.len()
    &&& forall|a: int| 0 <= a < w1.areasettings@.len() ==>
        (#[trigger] w2.areasettings@[a]).contents == w1.areasettings@[a].contents
    &&& w2.portals@.len() == w1.portals@.len()
    &&& forall|p: int| 0 <= p < w1.portals@.len() ==>
        (#[trigger] w2.portals@[p]).areanum == w1.portals@[p].areanum
}

pub proof fn lemma_only_numbers_evolves(w1: aas_s, w2: aas_s, c: int)
    requires
        only_numbers_changed(w1, w2, c),
        0 <= c < w1.clusters@.len(),
        w1.areasettings@.len() >= num_areas(w1),
    ensures
        evolves(w1, w2),
        marks_only(w1, w2, c),
        forall|a: int| 0 <= a < w1.areasettings@.len() ==>
            (#[trigger] w2.areasettings@[a]).cluster == w1.areasettings@[a].cluster,
{
    assert forall|a: int| 0 <= a < w1.areasettings@.len() implies
        (#[trigger] w2.areasettings@[a]).cluster == w1.areasettings@[a].cluster
        && w2.areasettings@[a].contents == w1.areasettings@[a].contents by {}
    assert forall|p: int| 0 <= p < w1.portals@.len() implies {
        &&& (#[trigger] w2.portals@[p]).areanum == w1.portals@[p].areanum
        &&& (w1.portals@[p].frontcluster != 0 ==> w2.portals@[p].frontcluster == w1.portals@[p].frontcluster)
        &&& (w1.portals@[p].backcluster != 0 ==> w2.portals@[p].backcluster == w1.portals@[p].backcluster)
    } by {}
    assert forall|a: int| 1 <= a < num_areas(w1) implies {
        ||| (#[trigger] w2.areasettings@[a]).cluster == w1.areasettings@[a].cluster
        ||| w2.areasettings@[a].cluster == c
        ||| w2.areasettings@[a].cluster < 0
    } by {}
    assert forall|a: int| 0 <= a < w1.areasettings@.len() implies {
        &&& (#[trigger] w1.areasettings@[a]).areaflags == w2.areasettings@[a].areaflags
        &&& w1.areasettings@[a].presencetype == w2.areasettings@[a].presencetype
        &&& w1.areasettings@[a].numreachableareas == w2.areasettings@[a].numreachableareas
        &&& w1.areasettings@[a].firstreachablearea == w2.areasettings@[a].firstreachablearea
    } by {
        assert(w2.areasettings@[a].areaflags == w1.areasettings@[a].areaflags);
    }
}

/// A new cluster `c` was flooded and numbered: the clusters stay
/// consistent and closed.
proof fn lemma_find_step(w1: aas_s, w3: aas_s, w4: aas_s, c: int, nff: bool)
    requires
        clusters_ready(w1, nff),
        c == w1.clusters@.len() - 1,
        forall|a: int| 1 <= a < num_areas(w1) ==> (#[trigger] w1.areasettings@[a]).cluster < c,
        floods_post(w1, w3, c, nff, Ok::<bool, ClusterError>(true)),
        only_numbers_changed(w3, w4, c),
    ensures
        clusters_ready(w4, nff),
        evolves(w1, w4),
        marks_only(w1, w4, c),
{
    lemma_only_numbers_evolves(w3, w4, c);
    lemma_evolves_trans(w1, w3, w4);
    lemma_same_graph_wf(w1, w4);
    assert(marks_only(w1, w4, c)) by {
        assert forall|a: int| 1 <= a < num_areas(w1) implies {
            ||| (#[trigger] w4.areasettings@[a]).cluster == w1.areasettings@[a].cluster
            ||| w4.areasettings@[a].cluster == c
            ||| w4.areasettings@[a].cluster < 0
        } by {
            assert(w4.areasettings@[a].cluster == w3.areasettings@[a].cluster);
            assert(w3.areasettings@[a].cluster == w1.areasettings@[a].cluster
                || w3.areasettings@[a].cluster == c || w3.areasettings@[a].cluster < 0);
        }
    }
    assert(portals_wf(w4)) by {
        assert forall|k: int| 0 <= k < w4.clusters@.len() implies {
            &&& 0 <= #[trigger] w4.clusters@[k].firstportal
            &&& 0 <= w4.clusters@[k].numportals
            &&& w4.clusters@[k].firstportal + w4.clusters@[k].numportals <= w4.portalindex@.len()
        } by {
            if k != c {
                assert(w4.clusters@[k] == w3.clusters@[k]);
            }
        }
        assert forall|p: int| 0 <= p < w4.portals@.len() implies 0 <= #[trigger] w4.portals@[p].areanum < num_areas(w4) by {
            assert(w4.portals@[p].areanum == w3.portals@[p].areanum);
        }
    }
    assert(portal_areas_unique(w4)) by {
        assert forall|p: int, q: int| 1 <= p < w4.portals@.len() && 1 <= q < w4.portals@.len() && p != q implies
            #[trigger] w4.portals@[p].areanum != #[trigger] w4.portals@[q].areanum by {
            assert(w4.portals@[p].areanum == w3.portals@[p].areanum);
            assert(w4.portals@[q].areanum == w3.portals@[q].areanum);
        }
    }
    assert forall|a: int| 1 <= a < num_areas(w4) implies #[trigger] area_consistent(w4, a, nff) by {
        assert(portal_area_wf(w3, a));
        assert(w4.areasettings@[a].cluster == w3.areasettings@[a].cluster);
        assert(w4.areasettings@[a].contents == w3.areasettings@[a].contents);
        if w4.areasettings@[a].cluster < 0 {
            let p = -(w4.areasettings@[a].cluster as int);
            assert(w4.portals@[p].areanum == w3.portals@[p].areanum);
        }
        assert(w3.areasettings@[a].cluster < w3.clusters@.len()
            && (w3.areasettings@[a].cluster > 0 ==> !is_portal_area(w3, a)));
        if w4.areasettings@[a].cluster >= 1 {
            assert(w3.areasettings@[a].cluster == w1.areasettings@[a].cluster
                || w3.areasettings@[a].cluster == c || w3.areasettings@[a].cluster < 0);
            if w3.areasettings@[a].cluster == c {
                assert(w1.areasettings@[a].cluster < c);
                assert(newly_closed_except(w1, w3, c, nff, 0));
                assert(area_closed(w3, a, nff));
                lemma_evolves_closed_upto(w3, w4, a, c, crate::cluster::nbr_count(w3, a, nff), nff);
            } else {
                assert(area_consistent(w1, a, nff));
                let k = w1.areasettings@[a].cluster as int;
                lemma_evolves_closed_upto(w1, w4, a, k, crate::cluster::nbr_count(w1, a, nff), nff);
            }
        }
    }
}

/// Finds the clusters (`AAS_FindClusters`): every area leaves its cluster,
/// then each area without a cluster that is no cluster portal area (and has
/// reachabilities when the flood does not go through faces) starts a new
/// cluster, which is flooded from it (`AAS_FloodClusterAreas_r`), grown
/// through reachabilities (`AAS_FloodClusterAreasUsingReachabilities`) and
/// numbered (`AAS_NumberClusterAreas`). There may be no more than
/// `AAS_MAX_CLUSTERS` clusters. The result is false when a portal turned
/// out to separate more than two clusters.
pub fn AAS_FindClusters(w: &mut aas_s, nofaceflood: bool) -> (r: Result<bool, ClusterError>)
    requires
        graph_wf(*old(w)),
        portals_wf(*old(w)),
        portal_areas_unique(*old(w)),
    ensures
        same_graph(*old(w), *final(w)),
        contents_shrink(*old(w), *final(w)),
        portals_wf(*final(w)),
        portal_areas_unique(*final(w)),
        r != Ok::<bool, ClusterError>(false) ==> final(w).portals@.len() == old(w).portals@.len(),
        r != Ok::<bool, ClusterError>(false) ==> forall|p: int| 0 <= p < old(w).portals@.len() ==>
            (#[trigger] final(w).portals@[p]).areanum == old(w).portals@[p].areanum,
        r == Ok::<bool, ClusterError>(true) ==> {
            &&& same_portal_areas(*old(w), *final(w))
            &&& clusters_closed(*final(w), nofaceflood)
            &&& cluster_cover(*final(w), nofaceflood)
        },
        r == Ok::<bool, ClusterError>(false) ==> exists|c: int| 1 <= c < final(w).clusters@.len()
            && #[trigger] flag_dropped(*old(w), *final(w), c),
        r == Err::<bool, ClusterError>(ClusterError::TooManyClusters) ==>
            final(w).clusters@.len() >= AAS_MAX_CLUSTERS,
        r == Err::<bool, ClusterError>(ClusterError::PortalNotFound) ==> portal_missing(*old(w)),
        r == Err::<bool, ClusterError>(ClusterError::TooManyPortalIndexes) ==>
            final(w).portalindex@.len() >= AAS_MAX_PORTALINDEXSIZE,
        r == Err::<bool, ClusterError>(ClusterError::ClusterTouchedCluster) ==>
            exists|x: int| 1 <= x < num_areas(*final(w)) && (#[trigger] final(w).areasettings@[x]).cluster >= 1
                && touches(*final(w), x, final(w).areasettings@[x].cluster as int, nofaceflood),
        r is Err ==> r == Err::<bool, ClusterError>(ClusterError::TooManyClusters)
            || r == Err::<bool, ClusterError>(ClusterError::PortalNotFound)
            || r == Err::<bool, ClusterError>(ClusterError::TooManyPortalIndexes)
            || r == Err::<bool, ClusterError>(ClusterError::ClusterTouchedCluster),
{
    let ghost ow = *old(w);
    AAS_RemoveClusterAreas(w);
    proof {
        lemma_same_graph_wf(ow, *w);
        assert forall|a: int| 1 <= a < num_areas(*w) implies #[trigger] area_consistent(*w, a, nofaceflood) by {
            assert(w.areasettings@[a].cluster == 0);
        }
        assert forall|a: int| 0 <= a < ow.areasettings@.len() implies
            (#[trigger] w.areasettings@[a]).contents == ow.areasettings@[a].contents by {}
    }
    let n = w.areas.len();
    let mut i: usize = 1;
    while i < n
        invariant
            ow == *old(w),
            n == num_areas(ow),
            1 <= i,
            clusters_ready(*w, nofaceflood),
            same_graph(ow, *w),
            same_portal_areas(ow, *w),
            forall|j: int| 1 <= j < i ==> #[trigger] area_settled(*w, j, nofaceflood),
        decreases n - i,
    {
        proof {
            assert(0 <= w.areas@[i as int].numfaces);
        }
        if w.areasettings[i].cluster != 0
            || (nofaceflood && w.areasettings[i].numreachableareas == 0)
            || w.areasettings[i].contents & AREACONTENTS_CLUSTERPORTAL != 0 {
            proof {
                assert(area_settled(*w, i as int, nofaceflood));
            }
            i += 1;
        } else {
            if w.clusters.len() >= AAS_MAX_CLUSTERS {
                return Err(ClusterError::TooManyClusters);
            }
            let ghost w0 = *w;
            let firstportal = w.portalindex.len() as i32;
            w.clusters.push(aas_cluster_s { numareas: 0, numreachabilityareas: 0, numportals: 0, firstportal });
            let c = (w.clusters.len() - 1) as i32;
            let ghost w1 = *w;
            proof {
                lemma_unmarked_count(*w, *w, num_areas(*w), 0);
                assert forall|a: int| 1 <= a < num_areas(w1) implies #[trigger] portal_area_wf(w1, a) by {
                    assert(area_consistent(w0, a, nofaceflood));
                }
                assert forall|a: int| 1 <= a < num_areas(w1) implies
                    (#[trigger] w1.areasettings@[a]).cluster < w1.clusters@.len()
                    && (w1.areasettings@[a].cluster > 0 ==> !is_portal_area(w1, a)) by {
                    assert(area_consistent(w0, a, nofaceflood));
                }
                assert forall|a: int| 1 <= a < num_areas(w1) implies (#[trigger] w1.areasettings@[a]).cluster < c by {
                    assert(area_consistent(w0, a, nofaceflood));
                }
                assert forall|k: int| 0 <= k < w1.clusters@.len() implies {
                    &&& 0 <= #[trigger] w1.clusters@[k].firstportal
                    &&& 0 <= w1.clusters@[k].numportals
                    &&& w1.clusters@[k].firstportal + w1.clusters@[k].numportals <= w1.portalindex@.len()
                } by {
                    if k < w0.clusters@.len() {
                        assert(w1.clusters@[k] == w0.clusters@[k]);
                    }
                }
                assert(flood_ready(w1, c as int));
                assert(clusters_ready(w1, nofaceflood)) by {
                    assert(evolves(w0, w1));
                    assert forall|a: int| 1 <= a < num_areas(w1) implies #[trigger] area_consistent(w1, a, nofaceflood) by {
                        assert(area_consistent(w0, a, nofaceflood));
                        if w0.areasettings@[a].cluster >= 1 {
                            let k = w0.areasettings@[a].cluster as int;
                            lemma_evolves_closed_upto(w0, w1, a, k, crate::cluster::nbr_count(w0, a, nofaceflood), nofaceflood);
                        }
                        if w0.areasettings@[a].cluster < 0 {
                            let p = -(w0.areasettings@[a].cluster as int);
                            assert(w1.portals@[p] == w0.portals@[p]);
                        }
                    }
                }
            }
            //flood the areas in this cluster
            let r = AAS_FloodClusterAreas_r(w, i as i32, c, nofaceflood);
            let ghost w2 = *w;
            proof {
                lemma_floods_from_flood(w1, w2, i as int, c as int, nofaceflood, r);
            }
            match r {
                Ok(true) => {},
                _ => {
                    proof {
                        lemma_find_fail(ow, w0, w1, *w, c as int, nofaceflood, r);
                    }
                    return r;
                },
            }
            let r2 = AAS_FloodClusterAreasUsingReachabilities(w, c, nofaceflood);
            proof {
                lemma_floods_trans(w1, w2, *w, c as int, nofaceflood, r2);
            }
            match r2 {
                Ok(true) => {},
                _ => {
                    proof {
                        lemma_find_fail(ow, w0, w1, *w, c as int, nofaceflood, r2);
                    }
                    return r2;
                },
            }
            let ghost w3 = *w;
            proof {
                lemma_same_graph_wf(w1, w3);
            }
            //number the cluster areas
            AAS_NumberClusterAreas(w, c);
            proof {
                lemma_find_step(w1, w3, *w, c as int, nofaceflood);
                assert(nbr_ok(w2, i as int, c as int));
                assert(w2.areasettings@[i as int].contents == w1.areasettings@[i as int].contents);
                assert(w.areasettings@[i as int].cluster == c);
                assert forall|j: int| 1 <= j < i + 1 implies #[trigger] area_settled(*w, j, nofaceflood) by {
                    if j < i {
                        assert(area_settled(w0, j, nofaceflood));
                        assert(w.areasettings@[j].contents == w0.areasettings@[j].contents);
                        assert(w.areasettings@[j].numreachableareas == w0.areasettings@[j].numreachableareas);
                    }
                }
                lemma_same_graph_trans(ow, w0, *w);
                assert forall|a: int| 0 <= a < ow.areasettings@.len() implies
                    (#[trigger] w.areasettings@[a]).contents == ow.areasettings@[a].contents by {
                    assert(w0.areasettings@[a].contents == ow.areasettings@[a].contents);
                }
                assert forall|p: int| 0 <= p < ow.portals@.len() implies
                    (#[trigger] w.portals@[p]).areanum == ow.portals@[p].areanum by {
                    assert(w0.portals@[p].areanum == ow.portals@[p].areanum);
                }
            }
            i += 1;
        }
    }
    proof {
        assert forall|a: int| 1 <= a < num_areas(*w) && !is_portal_area(*w, a)
            && !(nofaceflood && w.areasettings@[a].numreachableareas == 0) implies
            (#[trigger] w.areasettings@[a]).cluster >= 1 by {
            assert(area_settled(*w, a, nofaceflood));
            assert(area_consistent(*w, a, nofaceflood));
        }
        assert forall|a: int| 0 <= a < ow.areasettings@.len() implies {
            ||| (#[trigger] w.areasettings@[a]).contents == ow.areasettings@[a].contents
            ||| w.areasettings@[a].contents == ow.areasettings@[a].contents & !AREACONTENTS_CLUSTERPORTAL
        } by {}
    }
    Ok(true)
}

/// A flood of a new cluster failed: the failure is that of the search for
/// clusters.
proof fn lemma_find_fail(ow: aas_s, w0: aas_s, w1: aas_s, w: aas_s, c: int, nff: bool, r: Result<bool, ClusterError>)
    requires
        same_graph(ow, w0),
        same_portal_areas(ow, w0),
        graph_wf(ow),
        same_graph(w0, w1),
        w1.areasettings@ == w0.areasettings@,
        w1.portals@ == w0.portals@,
        w1.portalindex@ == w0.portalindex@,
        floods_post(w1, w, c, nff, r),
        r != Ok::<bool, ClusterError>(true),
        c >= 1,
    ensures
        same_graph(ow, w),
        contents_shrink(ow, w),
        portals_wf(w),
        portal_areas_unique(w),
        r != Ok::<bool, ClusterError>(false) ==> w.portals@.len() == ow.portals@.len(),
        r != Ok::<bool, ClusterError>(false) ==> forall|p: int| 0 <= p < ow.portals@.len() ==>
            (#[trigger] w.portals@[p]).areanum == ow.portals@[p].areanum,
        r == Ok::<bool, ClusterError>(false) ==> flag_dropped(ow, w, c),
        r == Err::<bool, ClusterError>(ClusterError::PortalNotFound) ==> portal_missing(ow),
        r == Err::<bool, ClusterError>(ClusterError::TooManyPortalIndexes) ==>
            w.portalindex@.len() >= AAS_MAX_PORTALINDEXSIZE,
        r == Err::<bool, ClusterError>(ClusterError::ClusterTouchedCluster) ==>
            exists|x: int| 1 <= x < num_areas(w) && (#[trigger] w.areasettings@[x]).cluster >= 1
                && touches(w, x, w.areasettings@[x].cluster as int, nff),
        r is Err ==> r == Err::<bool, ClusterError>(ClusterError::PortalNotFound)
            || r == Err::<bool, ClusterError>(ClusterError::TooManyPortalIndexes)
            || r == Err::<bool, ClusterError>(ClusterError::ClusterTouchedCluster),
{
    lemma_same_graph_trans(ow, w0, w1);
    lemma_same_graph_trans(ow, w1, w);
    assert forall|a: int| 0 <= a < ow.areasettings@.len() implies {
        ||| (#[trigger] w.areasettings@[a]).contents == ow.areasettings@[a].contents
        ||| w.areasettings@[a].contents == ow.areasettings@[a].contents & !AREACONTENTS_CLUSTERPORTAL
    } by {
        assert(w1.areasettings@[a].contents == ow.areasettings@[a].contents);
    }
    if r != Ok::<bool, ClusterError>(false) {
        assert forall|p: int| 0 <= p < ow.portals@.len() implies
            (#[trigger] w.portals@[p]).areanum == ow.portals@[p].areanum by {
            assert(w1.portals@[p].areanum == ow.portals@[p].areanum);
        }
    }
    if r == Ok::<bool, ClusterError>(false) {
        let x = choose|x: int| 1 <= x < num_areas(w1) && #[trigger] is_portal_area(w1, x) && !is_portal_area(w, x)
            && (forall|y: int| 0 <= y < w1.areasettings@.len() && y != x ==>
                (#[trigger] w.areasettings@[y]).contents == w1.areasettings@[y].contents)
            && portal_full(w, x, c);
        assert(w1.areasettings@[x].contents == ow.areasettings@[x].contents);
        assert(is_portal_area(ow, x));
        assert forall|y: int| 0 <= y < ow.areasettings@.len() && y != x implies
            (#[trigger] w.areasettings@[y]).contents == ow.areasettings@[y].contents by {
            assert(w1.areasettings@[y].contents == ow.areasettings@[y].contents);
        }
    }
    if r == Err::<bool, ClusterError>(ClusterError::PortalNotFound) {
        let x = choose|x: int| 1 <= x < num_areas(w1) && #[trigger] is_portal_area(w1, x) && !has_portal(w1, x);
        assert(w1.areasettings@[x].contents == ow.areasettings@[x].contents);
        assert(is_portal_area(ow, x));
        if has_portal(ow, x) {
            let p = choose|p: int| 1 <= p < ow.portals@.len() && #[trigger] ow.portals@[p].areanum == x;
            assert(w1.portals@[p].areanum == x);
        }
    }
    if r == Err::<bool, ClusterError>(ClusterError::ClusterTouchedCluster) {
        let x = choose|x: int| 1 <= x < num_areas(w) && (#[trigger] w.areasettings@[x]).cluster == c
            && touches(w, x, c, nff);
        assert(w.areasettings@[x].cluster >= 1);
    }
}

/// The portals after the first `from` are those of the cluster portal
/// areas among `1..end`, one for each, in the order of their area numbers.
pub open spec fn portal_areas_listed(w: aas_s, from: int, end: int) -> bool {
    &&& w.portals@.len() == from + count_portal_areas(w, end)
    &&& forall|p: int| from <= p < w.portals@.len() ==> {
        &&& 1 <= (#[trigger] w.portals@[p]).areanum < end
        &&& is_portal_area(w, w.portals@[p].areanum as int)
    }
    &&& forall|p: int, q: int| from <= p < q < w.portals@.len() ==>
        #[trigger] w.portals@[p].areanum < #[trigger] w.portals@[q].areanum
    &&& forall|a: int| 1 <= a < end && #[trigger] is_portal_area(w, a) ==>
        exists|p: int| from <= p < w.portals@.len() && #[trigger] w.portals@[p].areanum == a
}

/// Every portal has a front and a back cluster.
pub open spec fn portals_tested(w: aas_s) -> bool {
    forall|p: int| 1 <= p < w.portals@.len() ==>
        (#[trigger] w.portals@[p]).frontcluster != 0 && w.portals@[p].backcluster != 0
}

pub(crate) proof fn lemma_flags_same_graph(w1: aas_s, w2: aas_s)
    requires
        portal_flags_added(w1, w2),
    ensures
        same_graph(w1, w2),
{
    assert forall|a: int| 0 <= a < w1.areasettings@.len() implies {
        &&& (#[trigger] w1.areasettings@[a]).areaflags == w2.areasettings@[a].areaflags
        &&& w1.areasettings@[a].presencetype == w2.areasettings@[a].presencetype
        &&& w1.areasettings@[a].numreachableareas == w2.areasettings@[a].numreachableareas
        &&& w1.areasettings@[a].firstreachablearea == w2.areasettings@[a].firstreachablearea
    } by {
        assert(w2.areasettings@[a].areaflags == w1.areasettings@[a].areaflags);
    }
}

/// A solid-free face of an area leads to an area.
proof fn lemma_step_in_range(w: aas_s, x: int, t: int, y: int)
    requires
        graph_wf(w),
        0 <= x < num_areas(w),
        face_step(w, x, t, y),
    ensures
        0 <= y < num_areas(w),
{
    assert(0 <= w.areas@[x].numfaces);
    assert(-(w.faces@.len() as int) < w.faceindex@[w.areas@[x].firstface + t] < w.faces@.len());
    let f = area_face(w, x, t);
    assert(0 <= w.faces@[f].frontarea < num_areas(w));
    assert(0 <= w.faces@[f].backarea < num_areas(w));
}

/// Worlds with the same graph have the same groups of areas with fewer
/// presence types and the same grounded areas.
pub(crate) proof fn lemma_groups_same_graph(w1: aas_s, w2: aas_s)
    requires
        same_graph(w1, w2),
        graph_wf(w1),
    ensures
        forall|a: int, g: Seq<i32>| #[trigger] less_group(w1, a, g) == less_group(w2, a, g),
        forall|a: int| 0 <= a < w1.areasettings@.len() ==> #[trigger] is_grounded(w1, a) == is_grounded(w2, a),
{
    assert forall|x: int, t: int, y: int| 0 <= x < num_areas(w1) implies
        #[trigger] less_step(w1, x, t, y) == less_step(w2, x, t, y) by {
        if face_step(w1, x, t, y) {
            lemma_step_in_range(w1, x, t, y);
            assert(w1.areasettings@[x].presencetype == w2.areasettings@[x].presencetype);
            assert(w1.areasettings@[y].presencetype == w2.areasettings@[y].presencetype);
        }
    }
    assert(num_areas(w1) == num_areas(w2));
    assert forall|a: int, g: Seq<i32>| #[trigger] less_group(w1, a, g) == less_group(w2, a, g) by {
        assert(areas_in_range(w1, g) == areas_in_range(w2, g));
        if areas_in_range(w1, g) {
            assert forall|j: int| #![trigger has_less_parent(w1, g, 0, j)] #![trigger has_less_parent(w2, g, 0, j)]
                0 < j < g.len() implies has_less_parent(w1, g, 0, j) == has_less_parent(w2, g, 0, j) by {
                if has_less_parent(w1, g, 0, j) {
                    let (i, t) = choose|i: int, t: int| 0 <= i < j && #[trigger] less_step(w1, g[i] as int, t, g[j] as int);
                    assert(0 <= g[i] < num_areas(w1));
                    assert(less_step(w2, g[i] as int, t, g[j] as int));
                }
                if has_less_parent(w2, g, 0, j) {
                    let (i, t) = choose|i: int, t: int| 0 <= i < j && #[trigger] less_step(w2, g[i] as int, t, g[j] as int);
                    assert(0 <= g[i] < num_areas(w1));
                    assert(less_step(w1, g[i] as int, t, g[j] as int));
                }
            }
            assert(less_closed(w1, g, 0) == less_closed(w2, g, 0)) by {
                if less_closed(w1, g, 0) {
                    assert forall|i: int, t: int, y: int| 0 <= i < g.len() && #[trigger] less_step(w2, g[i] as int, t, y)
                        implies g.contains(y as i32) by {
                        assert(0 <= g[i] < num_areas(w1));
                        assert(less_step(w1, g[i] as int, t, y));
                    }
                }
                if less_closed(w2, g, 0) {
                    assert forall|i: int, t: int, y: int| 0 <= i < g.len() && #[trigger] less_step(w1, g[i] as int, t, y)
                        implies g.contains(y as i32) by {
                        assert(0 <= g[i] < num_areas(w1));
                        assert(less_step(w2, g[i] as int, t, y));
                    }
                }
            }
            assert(less_parents(w1, g, 0) == less_parents(w2, g, 0));
        }
    }
    assert forall|a: int| 0 <= a < w1.areasettings@.len() implies #[trigger] is_grounded(w1, a) == is_grounded(w2, a) by {
        assert(w1.areasettings@[a].areaflags == w2.areasettings@[a].areaflags);
    }
}

/// `w1` is `w0` with its view portals made cluster portals and its areas
/// taken out of their clusters: the world the portal search starts from.
pub open spec fn search_start(w0: aas_s, w1: aas_s) -> bool {
    &&& same_graph(w0, w1)
    &&& forall|a: int| 1 <= a < num_areas(w0) ==> {
        let o = w0.areasettings@[a].contents;
        &&& (#[trigger] w1.areasettings@[a]).contents
            == (if o & AREACONTENTS_VIEWPORTAL != 0 { o | AREACONTENTS_CLUSTERPORTAL } else { o })
        &&& w1.areasettings@[a].cluster == 0
    }
}

/// The portal of area `x` in `w` cannot stay a portal: it has no cluster
/// at one of its sides, or a third cluster reached it.
pub open spec fn portal_unusable(w: aas_s, x: int) -> bool {
    ||| exists|p: int| #![trigger w.portals@[p]] 1 <= p < w.portals@.len() && w.portals@[p].areanum == x
        && (w.portals@[p].frontcluster == 0 || w.portals@[p].backcluster == 0)
    ||| exists|c: int| 1 <= c < w.clusters@.len() && #[trigger] portal_full(w, x, c)
}

/// One round of clustering took `wa` to `wb`: one cluster portal area of
/// `wa` whose portal could not stay is none any more, and every other area
/// keeps its contents.
pub open spec fn portal_round(wa: aas_s, wb: aas_s) -> bool {
    &&& same_graph(wa, wb)
    &&& exists|x: int| 1 <= x < num_areas(wa) && #[trigger] is_portal_area(wa, x) && !is_portal_area(wb, x)
        && (forall|y: int| 0 <= y < wa.areasettings@.len() && y != x ==>
            (#[trigger] wb.areasettings@[y]).contents == wa.areasettings@[y].contents)
        && portal_unusable(wb, x)
}

/// The cluster portal areas of `wf` are those that the portal search,
/// started from `w1` (as `w0` leaves it to the search) and going through the
/// worlds `ws`, left marked, less those that the rounds `rs` dropped one by
/// one.
pub open spec fn clustering_trace(w0: aas_s, w1: aas_s, ws: Seq<aas_s>, ks: Seq<int>, cs: Seq<bool>,
    rs: Seq<aas_s>, wf: aas_s) -> bool {
    &&& search_start(w0, w1)
    &&& portal_search(w1, ws, ks, cs)
    &&& ws.len() == num_areas(w0)
    &&& rs.len() >= 1
    &&& forall|a: int| 1 <= a < num_areas(w0) ==> #[trigger] is_portal_area(rs[0], a) == is_portal_area(ws.last(), a)
    &&& forall|j: int| #![trigger rs[j]] 0 <= j < rs.len() - 1 ==> portal_round(rs[j], rs[j + 1])
    &&& forall|a: int| 1 <= a < num_areas(w0) ==> #[trigger] is_portal_area(wf, a) == is_portal_area(rs.last(), a)
}

/// A failed flood made a round: the area it dropped could not stay.
proof fn lemma_round_flood(wa: aas_s, w3: aas_s, w4: aas_s, wb: aas_s)
    requires
        same_graph(wa, w3),
        w3.areasettings@ == wa.areasettings@,
        only_portals_changed(w3, w4),
        same_graph(w4, wb),
        exists|c: int| 1 <= c < wb.clusters@.len() && #[trigger] flag_dropped(w4, wb, c),
    ensures
        portal_round(wa, wb),
{
    lemma_same_graph_trans(wa, w3, w4);
    lemma_same_graph_trans(wa, w4, wb);
    let c = choose|c: int| 1 <= c < wb.clusters@.len() && #[trigger] flag_dropped(w4, wb, c);
    let x = choose|x: int| 1 <= x < num_areas(w4) && #[trigger] is_portal_area(w4, x) && !is_portal_area(wb, x)
        && (forall|y: int| 0 <= y < w4.areasettings@.len() && y != x ==>
            (#[trigger] wb.areasettings@[y]).contents == w4.areasettings@[y].contents)
        && portal_full(wb, x, c);
    assert(w4.areasettings@ == wa.areasettings@);
    assert(is_portal_area(wa, x));
    assert(portal_unusable(wb, x));
}

/// A round appended to the rounds keeps them rounds.
proof fn lemma_rounds_push(rs: Seq<aas_s>, wb: aas_s)
    requires
        rs.len() >= 1,
        forall|j: int| #![trigger rs[j]] 0 <= j < rs.len() - 1 ==> portal_round(rs[j], rs[j + 1]),
        portal_round(rs.last(), wb),
    ensures
        forall|j: int| #![trigger rs.push(wb)[j]] 0 <= j < rs.push(wb).len() - 1
            ==> portal_round(rs.push(wb)[j], rs.push(wb)[j + 1]),
        rs.push(wb)[0] == rs[0],
        rs.push(wb).last() == wb,
{
    let r2 = rs.push(wb);
    assert forall|j: int| #![trigger r2[j]] 0 <= j < r2.len() - 1 implies portal_round(r2[j], r2[j + 1]) by {
        assert(r2[j] == rs[j]);
        if j < rs.len() - 1 {
            assert(r2[j + 1] == rs[j + 1]);
            assert(portal_round(rs[j], rs[j + 1]));
        }
    }
}

/// Sets up the clusters of a loaded AAS world (`AAS_InitClustering`),
/// unless it has clusters already and neither clustering nor reachability
/// calculation is forced: then nothing changes and the result is false.
/// View portals become cluster portals, areas leave their clusters,
/// possible portals are looked for (`AAS_FindPossiblePortals`) and cluster
/// portals become view portals. Then, from fresh portal and cluster lists,
/// portals are created and clusters found, and while a portal separates
/// more than two clusters or has no cluster at one of its sides it stops
/// being a portal and all is done again. At the end every area that is no
/// portal area (and has reachabilities, when the flood does not go through
/// faces) is in a cluster, the clusters are closed, every portal lies
/// between two clusters, and the AAS file is to be saved.
/// The cluster portal areas at the end are those the portal search left
/// marked (view portals and forced portals included), less those dropped
/// one per round because their portal had no cluster at one side or was
/// reached by a third cluster (`clustering_trace`).
/// `portalareascut` tells whether the portal search cut the group of some
/// area at `MAX_PORTALAREAS` areas, an error to report.
#[verifier::rlimit(80)]
pub fn AAS_InitClustering(w: &mut aas_s, forceclustering: bool, forcereachability: bool, nofaceflood: bool,
    portalareascut: &mut bool) -> (r: Result<bool, ClusterError>)
    requires
        graph_wf(*old(w)),
    ensures
        r == Ok::<bool, ClusterError>(false) <==> !old(w).loaded
            || (old(w).clusters@.len() >= 1 && !forceclustering && !forcereachability),
        r == Ok::<bool, ClusterError>(false) ==> *final(w) == *old(w),
        same_graph(*old(w), *final(w)),
        r == Ok::<bool, ClusterError>(true) ==> {
            &&& clusters_closed(*final(w), nofaceflood)
            &&& cluster_cover(*final(w), nofaceflood)
            &&& portals_tested(*final(w))
            &&& portal_areas_listed(*final(w), 1, num_areas(*final(w)))
            &&& portals_wf(*final(w))
            &&& final(w).savefile
            &&& exists|w1: aas_s, ws: Seq<aas_s>, ks: Seq<int>, cs: Seq<bool>, rs: Seq<aas_s>|
                #[trigger] clustering_trace(*old(w), w1, ws, ks, cs, rs, *final(w))
        },
        *final(portalareascut) ==> r != Ok::<bool, ClusterError>(false)
            && exists|a: int| 1 <= a < num_areas(*old(w)) && #[trigger] is_grounded(*old(w), a)
                && forall|g: Seq<i32>| #[trigger] less_group(*old(w), a, g) ==> g.len() > MAX_PORTALAREAS,
        r == Err::<bool, ClusterError>(ClusterError::TooManyPortals) ==>
            count_portal_areas(*final(w), num_areas(*final(w))) >= AAS_MAX_PORTALS,
        r == Err::<bool, ClusterError>(ClusterError::TooManyClusters) ==>
            final(w).clusters@.len() >= AAS_MAX_CLUSTERS,
        r == Err::<bool, ClusterError>(ClusterError::TooManyPortalIndexes) ==>
            final(w).portalindex@.len() >= AAS_MAX_PORTALINDEXSIZE,
        r == Err::<bool, ClusterError>(ClusterError::ClusterTouchedCluster) ==>
            exists|x: int| 1 <= x < num_areas(*final(w)) && (#[trigger] final(w).areasettings@[x]).cluster >= 1
                && touches(*final(w), x, final(w).areasettings@[x].cluster as int, nofaceflood),
        r is Err ==> r == Err::<bool, ClusterError>(ClusterError::TooManyPortals)
            || r == Err::<bool, ClusterError>(ClusterError::TooManyClusters)
            || r == Err::<bool, ClusterError>(ClusterError::TooManyPortalIndexes)
            || r == Err::<bool, ClusterError>(ClusterError::ClusterTouchedCluster),
{
    let ghost ow = *old(w);
    *portalareascut = false;
    if !w.loaded {
        return Ok(false);
    }
    //if there are clusters and clustering isn't forced
    if w.clusters.len() >= 1 && !forceclustering && !forcereachability {
        return Ok(false);
    }
    //set all view portals as cluster portals in case we re-calculate the reachabilities and clusters
    AAS_SetViewPortalsAsClusterPortals(w);
    //count the number of forced cluster portals
    let _forced = AAS_CountForcedClusterPortals(w);
    let ghost wv = *w;
    //remove all area cluster marks
    AAS_RemoveClusterAreas(w);
    proof {
        lemma_same_graph_trans(ow, ow, *w);
        lemma_same_graph_wf(ow, *w);
    }
    let ghost w1 = *w;
    proof {
        lemma_same_graph_trans(ow, wv, w1);
        assert forall|a: int| 1 <= a < num_areas(ow) implies {
            let o = ow.areasettings@[a].contents;
            &&& (#[trigger] w1.areasettings@[a]).contents
                == (if o & AREACONTENTS_VIEWPORTAL != 0 { o | AREACONTENTS_CLUSTERPORTAL } else { o })
            &&& w1.areasettings@[a].cluster == 0
        } by {
            assert(w1.areasettings@[a].contents == wv.areasettings@[a].contents);
        }
        assert(search_start(ow, w1));
    }
    //find possible cluster portals
    let (_numportals, cut) = AAS_FindPossiblePortals(w);
    let ghost (ws, ks, cs) = choose|ws: Seq<aas_s>, ks: Seq<int>, cs: Seq<bool>| #[trigger] portal_search(w1, ws, ks, cs)
        && ws.len() == num_areas(w1)
        && ws.last() == *w
        && _numportals == count_sum(ks, ws.len() as int)
        && (cut <==> exists|a: int| 1 <= a < ws.len() && #[trigger] cs[a]);
    *portalareascut = cut;
    proof {
        if cut {
            lemma_groups_same_graph(ow, w1);
            let a = choose|a: int| 1 <= a < num_areas(w1) && #[trigger] is_grounded(w1, a)
                && forall|g: Seq<i32>| #[trigger] less_group(w1, a, g) ==> g.len() > MAX_PORTALAREAS;
            assert(is_grounded(ow, a));
            assert forall|g: Seq<i32>| #[trigger] less_group(ow, a, g) implies g.len() > MAX_PORTALAREAS by {
                assert(less_group(w1, a, g));
            }
        }
    }
    proof {
        lemma_flags_same_graph(w1, *w);
        lemma_same_graph_trans(ow, w1, *w);
        lemma_same_graph_wf(ow, *w);
    }
    //create portals for the bot view
    let ghost w2 = *w;
    AAS_CreateViewPortals(w);
    proof {
        lemma_same_graph_trans(ow, w2, *w);
        lemma_same_graph_wf(ow, *w);
        assert forall|a: int| 1 <= a < num_areas(ow) implies
            #[trigger] is_portal_area(*w, a) == is_portal_area(ws.last(), a) by {
            let o = w2.areasettings@[a].contents;
            assert(o & 8i32 != 0 ==> (o | 512i32) & 8i32 != 0) by (bit_vector);
        }
    }
    let ghost mut rs: Seq<aas_s> = seq![*w];
    let n = w.areas.len();
    loop
        invariant_except_break
            rs.last() == *w,
        invariant
            graph_wf(*w),
            same_graph(ow, *w),
            n == num_areas(*w),
            ow == *old(w),
            graph_wf(ow),
            ow.loaded && !(ow.clusters@.len() >= 1 && !forceclustering && !forcereachability),
            *portalareascut ==> exists|a: int| 1 <= a < num_areas(ow) && #[trigger] is_grounded(ow, a)
                && forall|g: Seq<i32>| #[trigger] less_group(ow, a, g) ==> g.len() > MAX_PORTALAREAS,
            search_start(ow, w1),
            portal_search(w1, ws, ks, cs),
            ws.len() == num_areas(ow),
            rs.len() >= 1,
            forall|a: int| 1 <= a < num_areas(ow) ==> #[trigger] is_portal_area(rs[0], a) == is_portal_area(ws.last(), a),
            forall|j: int| #![trigger rs[j]] 0 <= j < rs.len() - 1 ==> portal_round(rs[j], rs[j + 1]),
        ensures
            same_graph(ow, *w),
            forall|a: int| 1 <= a < num_areas(ow) ==> #[trigger] is_portal_area(*w, a) == is_portal_area(rs.last(), a),
            *portalareascut ==> exists|a: int| 1 <= a < num_areas(ow) && #[trigger] is_grounded(ow, a)
                && forall|g: Seq<i32>| #[trigger] less_group(ow, a, g) ==> g.len() > MAX_PORTALAREAS,
            clusters_closed(*w, nofaceflood),
            cluster_cover(*w, nofaceflood),
            portals_tested(*w),
            portal_areas_listed(*w, 1, n as int),
            portals_wf(*w),
        decreases count_portal_areas(*w, n as int),
    {
        let ghost wstart = *w;
        //initialize the number of portals and clusters
        let mut portals: Vec<aas_portal_s> = Vec::new();
        //portal 0 is a dummy
        portals.push(aas_portal_s { areanum: 0, frontcluster: 0, backcluster: 0, clusterareanum0: 0, clusterareanum1: 0 });
        w.portals = portals;
        w.portalindex = Vec::new();
        let mut clusters: Vec<aas_cluster_s> = Vec::new();
        //cluster 0 is a dummy
        clusters.push(aas_cluster_s { numareas: 0, numreachabilityareas: 0, numportals: 0, firstportal: 0 });
        w.clusters = clusters;
        proof {
            lemma_same_graph_trans(ow, wstart, *w);
            lemma_count_portal_areas_same(wstart, *w, n as int);
        }
        let ghost w3 = *w;
        //create the portals from the portal areas
        match AAS_CreatePortals(w) {
            Ok(_) => {},
            Err(e) => {
                proof {
                    lemma_same_graph_trans(ow, w3, *w);
                    lemma_count_portal_areas_same(w3, *w, n as int);
                }
                return Err(e);
            },
        }
        let ghost w4 = *w;
        proof {
            lemma_same_graph_trans(ow, w3, w4);
            lemma_count_portal_areas_same(w3, w4, n as int);
            lemma_count_portal_areas_nonneg(w3, n as int);
            assert(w4.portals@[0] == w3.portals@[0]);
            assert forall|p: int, q: int| 1 <= p < w4.portals@.len() && 1 <= q < w4.portals@.len() && p != q implies
                #[trigger] w4.portals@[p].areanum != #[trigger] w4.portals@[q].areanum by {
                if p < q {
                    assert(w4.portals@[p].areanum < w4.portals@[q].areanum);
                } else {
                    assert(w4.portals@[q].areanum < w4.portals@[p].areanum);
                }
            }
            assert forall|p: int| 0 <= p < w4.portals@.len() implies 0 <= #[trigger] w4.portals@[p].areanum < num_areas(w4) by {
                if p == 0 {
                    assert(w4.portals@[0].areanum == 0);
                }
            }
            assert(portals_wf(w4));
        }
        //find the clusters
        let r = AAS_FindClusters(w, nofaceflood);
        proof {
            lemma_same_graph_trans(ow, w4, *w);
            lemma_same_graph_wf(ow, *w);
        }
        match r {
            Ok(true) => {},
            Ok(false) => {
                proof {
                    let x = choose|x: int| 1 <= x < num_areas(w4) && #[trigger] is_portal_area(w4, x) && !is_portal_area(*w, x);
                    lemma_count_portal_areas_shrink(w4, *w, n as int, x);
                    assert(count_portal_areas(*w, n as int) < count_portal_areas(wstart, n as int));
                    lemma_count_portal_areas_nonneg(*w, n as int);
                    lemma_round_flood(wstart, w3, w4, *w);
                    lemma_rounds_push(rs, *w);
                    rs = rs.push(*w);
                }
                continue;
            },
            Err(e) => {
                proof {
                    assert(!portal_missing(w4)) by {
                        if portal_missing(w4) {
                            let x = choose|x: int| 1 <= x < num_areas(w4) && #[trigger] is_portal_area(w4, x) && !has_portal(w4, x);
                            let p = choose|p: int| 1 <= p < w4.portals@.len() && #[trigger] w4.portals@[p].areanum == x;
                            assert(has_portal(w4, x));
                        }
                    }
                }
                return Err(e);
            },
        }
        let ghost w5 = *w;
        proof {
            assert(portal_areas_listed(w5, 1, n as int)) by {
                lemma_count_portal_areas_same(w4, w5, n as int);
                assert forall|p: int| 1 <= p < w5.portals@.len() implies {
                    &&& 1 <= (#[trigger] w5.portals@[p]).areanum < n
                    &&& is_portal_area(w5, w5.portals@[p].areanum as int)
                } by {
                    assert(w5.portals@[p].areanum == w4.portals@[p].areanum);
                    assert(w5.areasettings@[w4.portals@[p].areanum as int].contents
                        == w4.areasettings@[w4.portals@[p].areanum as int].contents);
                }
                assert forall|p: int, q: int| 1 <= p < q < w5.portals@.len() implies
                    #[trigger] w5.portals@[p].areanum < #[trigger] w5.portals@[q].areanum by {
                    assert(w5.portals@[p].areanum == w4.portals@[p].areanum);
                    assert(w5.portals@[q].areanum == w4.portals@[q].areanum);
                }
                assert forall|a: int| 1 <= a < n && #[trigger] is_portal_area(w5, a) implies
                    exists|p: int| 1 <= p < w5.portals@.len() && #[trigger] w5.portals@[p].areanum == a by {
                    assert(w5.areasettings@[a].contents == w4.areasettings@[a].contents);
                    assert(is_portal_area(w4, a));
                    let p = choose|p: int| 1 <= p < w4.portals@.len() && #[trigger] w4.portals@[p].areanum == a;
                    assert(w5.portals@[p].areanum == a);
                }
            }
            assert forall|p: int| 1 <= p < w5.portals@.len() implies
                0 <= #[trigger] w5.portals@[p].areanum < w5.areasettings@.len() by {}
        }
        //test the portals
        if !AAS_TestPortals(w) {
            proof {
                let p = choose|p: int| 1 <= p < w5.portals@.len() && {
                    let q = #[trigger] w5.portals@[p];
                    let a = q.areanum as int;
                    &&& (q.frontcluster == 0 || q.backcluster == 0)
                    &&& forall|p2: int| 1 <= p2 < p ==>
                        (#[trigger] w5.portals@[p2]).frontcluster != 0 && w5.portals@[p2].backcluster != 0
                    &&& w.areasettings@.len() == w5.areasettings@.len()
                    &&& w.areasettings@[a].contents == w5.areasettings@[a].contents & !AREACONTENTS_CLUSTERPORTAL
                    &&& w.areasettings@[a].cluster == w5.areasettings@[a].cluster
                    &&& w.areasettings@[a].clusterareanum == w5.areasettings@[a].clusterareanum
                    &&& w.areasettings@[a].areaflags == w5.areasettings@[a].areaflags
                    &&& w.areasettings@[a].presencetype == w5.areasettings@[a].presencetype
                    &&& w.areasettings@[a].numreachableareas == w5.areasettings@[a].numreachableareas
                    &&& w.areasettings@[a].firstreachablearea == w5.areasettings@[a].firstreachablearea
                    &&& forall|b: int| 0 <= b < w.areasettings@.len() && b != a ==>
                        #[trigger] w.areasettings@[b] == w5.areasettings@[b]
                };
                let a = w5.portals@[p].areanum as int;
                let c = w5.areasettings@[a].contents;
                assert(c & 8i32 != 0 ==> (c & !8i32) & 8i32 == 0) by (bit_vector);
                assert(is_portal_area(w5, a));
                lemma_count_portal_areas_shrink(w5, *w, n as int, a);
                lemma_count_portal_areas_same(w4, w5, n as int);
                lemma_same_graph_trans(ow, w5, *w);
                lemma_same_graph_wf(ow, *w);
                assert(count_portal_areas(*w, n as int) < count_portal_areas(wstart, n as int));
                lemma_count_portal_areas_nonneg(*w, n as int);
                assert(w4.areasettings@ == wstart.areasettings@);
                assert(is_portal_area(wstart, a));
                assert forall|y: int| 0 <= y < wstart.areasettings@.len() && y != a implies
                    (#[trigger] w.areasettings@[y]).contents == wstart.areasettings@[y].contents by {
                    assert(w5.areasettings@[y].contents == w4.areasettings@[y].contents);
                }
                assert(w.portals@[p] == w5.portals@[p]);
                assert(portal_unusable(*w, a));
                lemma_same_graph_trans(wstart, w5, *w);
                assert(portal_round(wstart, *w));
                lemma_rounds_push(rs, *w);
                rs = rs.push(*w);
            }
            continue;
        }
        proof {
            assert forall|a: int| 1 <= a < num_areas(ow) implies
                #[trigger] is_portal_area(*w, a) == is_portal_area(rs.last(), a) by {
                assert(w4.areasettings@ == wstart.areasettings@);
                assert(w.areasettings@[a].contents == w4.areasettings@[a].contents);
            }
        }
        break;
    }
    //the AAS file should be saved
    let ghost w6 = *w;
    w.savefile = true;
    proof {
        lemma_savefile_keeps(w6, *w, nofaceflood);
        lemma_same_graph_trans(ow, w6, *w);
        assert forall|a: int| 1 <= a < num_areas(ow) implies
            #[trigger] is_portal_area(*w, a) == is_portal_area(rs.last(), a) by {
            assert(is_portal_area(w6, a) == is_portal_area(rs.last(), a));
        }
        assert(clustering_trace(ow, w1, ws, ks, cs, rs, *w));
    }
    Ok(true)
}

/// Setting the save flag changes none of the clustering facts.
proof fn lemma_savefile_keeps(w1: aas_s, w2: aas_s, nff: bool)
    requires
        w2 == (aas_s { savefile: true, ..w1 }),
        clusters_closed(w1, nff),
        cluster_cover(w1, nff),
        portals_tested(w1),
        portal_areas_listed(w1, 1, num_areas(w1)),
        portals_wf(w1),
        graph_wf(w1),
    ensures
        clusters_closed(w2, nff),
        cluster_cover(w2, nff),
        portals_tested(w2),
        portal_areas_listed(w2, 1, num_areas(w2)),
        portals_wf(w2),
        same_graph(w1, w2),
{
    assert forall|a: int| 1 <= a < num_areas(w2) implies #[trigger] area_consistent(w2, a, nff) by {
        assert(area_consistent(w1, a, nff));
        if w1.areasettings@[a].cluster >= 1 {
            let k = w1.areasettings@[a].cluster as int;
            assert(evolves(w1, w2));
            lemma_evolves_closed_upto(w1, w2, a, k, crate::cluster::nbr_count(w1, a, nff), nff);
        }
    }
    lemma_count_portal_areas_same(w1, w2, num_areas(w1));
    assert forall|a: int| 1 <= a < num_areas(w2) && #[trigger] is_portal_area(w2, a) implies
        exists|p: int| 1 <= p < w2.portals@.len() && #[trigger] w2.portals@[p].areanum == a by {
        assert(is_portal_area(w1, a));
        let p = choose|p: int| 1 <= p < w1.portals@.len() && #[trigger] w1.portals@[p].areanum == a;
        assert(w2.portals@[p].areanum == a);
    }
}

} // verus!
