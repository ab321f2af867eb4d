//! Area clustering.
//!
//! Cluster portal areas split the areas of a map into clusters: every area
//! that can be reached from another one without passing a cluster portal is
//! in the same cluster. A portal area is in no cluster; it records the
//! cluster at its front and the one at its back.
use vstd::prelude::*;
use crate::aasfile::{
    AREACONTENTS_CLUSTERPORTAL, AREACONTENTS_ROUTEPORTAL, AREACONTENTS_VIEWPORTAL,
    aas_cluster_s, aas_portal_s,
};
use crate::aasworld::aas_s;

verus! {

pub const AAS_MAX_PORTALS: usize = 65536;
pub const AAS_MAX_PORTALINDEXSIZE: usize = 65536;
pub const AAS_MAX_CLUSTERS: usize = 65536;

/// Why clustering stopped with an error.
#[derive(Clone, Copy, Debug, PartialEq, Eq, Structural)]
pub enum ClusterError {
    /// an area number out of range was met
    AreaOutOfRange,
    /// a cluster reached an area of another cluster
    ClusterTouchedCluster,
    /// a cluster portal area has no portal
    PortalNotFound,
    /// more than `AAS_MAX_PORTALINDEXSIZE` portal index entries
    TooManyPortalIndexes,
    /// more than `AAS_MAX_CLUSTERS` clusters
    TooManyClusters,
    /// more than `AAS_MAX_PORTALS` portals
    TooManyPortals,
    /// more than `MAX_PORTALAREAS` areas in a possible portal
    TooManyPortalAreas,
}

//==================================================================
// the area graph
//==================================================================

pub open spec fn num_areas(w: aas_s) -> int {
    w.areas@.len() as int
}

/// Area `a` is a cluster portal area.
pub open spec fn is_portal_area(w: aas_s, a: int) -> bool {
    w.areasettings@[a].contents & AREACONTENTS_CLUSTERPORTAL != 0
}

pub open spec fn iabs(x: int) -> int {
    if x < 0 { -x } else { x }
}

/// Number of the `t`-th face of area `a`.
pub open spec fn area_face(w: aas_s, a: int, t: int) -> int {
    iabs(w.faceindex@[w.areas@[a].firstface + t] as int)
}

/// The area at the other side of the `t`-th face of area `a`.
pub open spec fn face_neighbor(w: aas_s, a: int, t: int) -> int {
    let face = w.faces@[area_face(w, a, t)];
    if face.frontarea == a { face.backarea as int } else { face.frontarea as int }
}

/// The area the `t`-th reachability of area `a` leads to.
pub open spec fn reach_neighbor(w: aas_s, a: int, t: int) -> int {
    w.reachability@[w.areasettings@[a].firstreachablearea + t].areanum as int
}

/// Number of neighbors a flood goes through from area `a`: the areas at the
/// other side of its faces (unless `nofaceflood`), then the areas its
/// reachabilities lead to.
pub open spec fn nbr_count(w: aas_s, a: int, nofaceflood: bool) -> int {
    (if nofaceflood { 0int } else { w.areas@[a].numfaces as int }) + w.areasettings@[a].numreachableareas
}

/// The `t`-th neighbor of area `a`; zero means no area.
pub open spec fn nbr(w: aas_s, a: int, t: int, nofaceflood: bool) -> int {
    if !nofaceflood && t < w.areas@[a].numfaces {
        face_neighbor(w, a, t)
    } else {
        reach_neighbor(w, a, t - (if nofaceflood { 0int } else { w.areas@[a].numfaces as int }))
    }
}

/// The AAS data that clustering reads is consistent: every number that is
/// used as an index is in range.
pub open spec fn graph_wf(w: aas_s) -> bool {
    let n = num_areas(w);
    &&& 1 <= n <= 0x3fff_ffff
    &&& w.areasettings@.len() >= n
    &&& w.faces@.len() <= 0x7fff_ffff
    &&& w.faceindex@.len() <= 0x7fff_ffff
    &&& w.reachability@.len() <= 0x7fff_ffff
    &&& w.edgeindex@.len() <= 0x7fff_ffff
    &&& w.edges@.len() <= 0x7fff_ffff
    &&& forall|a: int| 0 <= a < n ==> {
        &&& 0 <= #[trigger] w.areas@[a].numfaces
        &&& 0 <= w.areas@[a].firstface
        &&& w.areas@[a].firstface + w.areas@[a].numfaces <= w.faceindex@.len()
        &&& 0 <= w.areasettings@[a].numreachableareas
        &&& 0 <= w.areasettings@[a].firstreachablearea
        &&& w.areasettings@[a].firstreachablearea + w.areasettings@[a].numreachableareas
            <= w.reachability@.len()
    }
    &&& forall|k: int| 0 <= k < w.faceindex@.len() ==>
        -(w.faces@.len() as int) < #[trigger] w.faceindex@[k] < w.faces@.len()
    &&& forall|f: int| 0 <= f < w.faces@.len() ==> {
        &&& 0 <= #[trigger] w.faces@[f].frontarea < n
        &&& 0 <= w.faces@[f].backarea < n
        &&& 0 <= w.faces@[f].numedges
        &&& 0 <= w.faces@[f].firstedge
        &&& w.faces@[f].firstedge + w.faces@[f].numedges <= w.edgeindex@.len()
    }
    &&& forall|k: int| 0 <= k < w.edgeindex@.len() ==>
        -(w.edges@.len() as int) < #[trigger] w.edgeindex@[k] < w.edges@.len()
    &&& forall|r: int| 0 <= r < w.reachability@.len() ==>
        0 <= #[trigger] w.reachability@[r].areanum < n
}

/// Every portal, portal index entry and cluster refers to existing data.
pub open spec fn portals_wf(w: aas_s) -> bool {
    &&& 1 <= w.portals@.len() <= AAS_MAX_PORTALS
    &&& w.portalindex@.len() <= AAS_MAX_PORTALINDEXSIZE
    &&& 1 <= w.clusters@.len() <= AAS_MAX_CLUSTERS
    &&& forall|p: int| 0 <= p < w.portals@.len() ==> 0 <= #[trigger] w.portals@[p].areanum < num_areas(w)
    &&& forall|k: int| 0 <= k < w.portalindex@.len() ==> 0 <= #[trigger] w.portalindex@[k] < w.portals@.len()
    &&& forall|c: int| 0 <= c < w.clusters@.len() ==> {
        &&& 0 <= #[trigger] w.clusters@[c].firstportal
        &&& 0 <= w.clusters@[c].numportals
        &&& w.clusters@[c].firstportal + w.clusters@[c].numportals <= w.portalindex@.len()
    }
}

pub proof fn lemma_nbr_in_range(w: aas_s, a: int, t: int, nofaceflood: bool)
    requires
        graph_wf(w),
        0 <= a < num_areas(w),
        0 <= t < nbr_count(w, a, nofaceflood),
    ensures
        0 <= nbr(w, a, t, nofaceflood) < num_areas(w),
{
    let n = num_areas(w);
    assert(0 <= w.areas@[a].numfaces);
    if !nofaceflood && t < w.areas@[a].numfaces {
        let k = w.areas@[a].firstface + t;
        assert(-(w.faces@.len() as int) < w.faceindex@[k] < w.faces@.len());
        let f = area_face(w, a, t);
        assert(0 <= w.faces@[f].frontarea < n);
    } else {
        let t2 = t - (if nofaceflood { 0int } else { w.areas@[a].numfaces as int });
        let r = w.areasettings@[a].firstreachablearea + t2;
        assert(0 <= w.reachability@[r].areanum < n);
    }
}

/// Only the cluster fields of areas and the portal and cluster lists
/// differ between the two worlds.
pub open spec fn same_graph(w1: aas_s, w2: aas_s) -> bool {
    &&& w1.areas@ == w2.areas@
    &&& w1.faces@ == w2.faces@
    &&& w1.faceindex@ == w2.faceindex@
    &&& w1.reachability@ == w2.reachability@
    &&& w1.edges@ == w2.edges@
    &&& w1.edgeindex@ == w2.edgeindex@
    &&& w1.vertexes@ == w2.vertexes@
    &&& w1.planes@ == w2.planes@
    &&& w1.nodes@ == w2.nodes@
    &&& w1.bboxes@ == w2.bboxes@
    &&& w1.areasettings@.len() == w2.areasettings@.len()
    &&& forall|a: int| 0 <= a < w1.areasettings@.len() ==> {
        &&& (#[trigger] w1.areasettings@[a]).areaflags == w2.areasettings@[a].areaflags
        &&& w1.areasettings@[a].presencetype == w2.areasettings@[a].presencetype
        &&& w1.areasettings@[a].numreachableareas == w2.areasettings@[a].numreachableareas
        &&& w1.areasettings@[a].firstreachablearea == w2.areasettings@[a].firstreachablearea
    }
    &&& w1.loaded == w2.loaded
    &&& w1.initialized == w2.initialized
    &&& w1.bspchecksum == w2.bspchecksum
    &&& w1.numframes == w2.numframes
}

pub proof fn lemma_same_graph_wf(w1: aas_s, w2: aas_s)
    requires
        same_graph(w1, w2),
        graph_wf(w1),
    ensures
        graph_wf(w2),
        forall|a: int, t: int, nff: bool| 0 <= a < num_areas(w1) ==>
            #[trigger] nbr(w2, a, t, nff) == nbr(w1, a, t, nff) && nbr_count(w2, a, nff) == nbr_count(w1, a, nff),
{
    assert forall|a: int| 0 <= a < num_areas(w2) implies {
        &&& 0 <= #[trigger] w2.areas@[a].numfaces
        &&& 0 <= w2.areas@[a].firstface
        &&& w2.areas@[a].firstface + w2.areas@[a].numfaces <= w2.faceindex@.len()
        &&& 0 <= w2.areasettings@[a].numreachableareas
        &&& 0 <= w2.areasettings@[a].firstreachablearea
        &&& w2.areasettings@[a].firstreachablearea + w2.areasettings@[a].numreachableareas
            <= w2.reachability@.len()
    } by {
        assert(w1.areasettings@[a].numreachableareas == w2.areasettings@[a].numreachableareas);
    }
    assert forall|a: int, t: int, nff: bool| 0 <= a < num_areas(w1) implies
        #[trigger] nbr(w2, a, t, nff) == nbr(w1, a, t, nff) && nbr_count(w2, a, nff) == nbr_count(w1, a, nff) by {
        assert(w1.areasettings@[a].numreachableareas == w2.areasettings@[a].numreachableareas);
    }
}

//==================================================================
// simple operations on the cluster fields
//==================================================================

/// Removes all areas from their clusters (`AAS_RemoveClusterAreas`): the
/// cluster of every area but the dummy area zero becomes zero.
pub fn AAS_RemoveClusterAreas(w: &mut aas_s)
    requires
        old(w).areasettings@.len() >= old(w).areas@.len(),
    ensures
        final(w).areasettings@.len() == old(w).areasettings@.len(),
        forall|a: int| 0 <= a < final(w).areasettings@.len() ==> {
            &&& (#[trigger] final(w).areasettings@[a]).cluster == (
                if 1 <= a < num_areas(*old(w)) { 0 } else { old(w).areasettings@[a].cluster })
            &&& final(w).areasettings@[a].contents == old(w).areasettings@[a].contents
            &&& final(w).areasettings@[a].clusterareanum == old(w).areasettings@[a].clusterareanum
        },
        same_graph(*old(w), *final(w)),
        final(w).portals@ == old(w).portals@,
        final(w).portalindex@ == old(w).portalindex@,
        final(w).clusters@ == old(w).clusters@,
        final(w).savefile == old(w).savefile,
{
    let n = w.areas.len();
    let mut i: usize = if n > 0 { 1 } else { 0 };
    while i < n
        invariant
            n == num_areas(*old(w)),
            w.areas@ == old(w).areas@,
            i <= n,
            n > 0 ==> 1 <= i,
            w.areasettings@.len() == old(w).areasettings@.len(),
            w.areasettings@.len() >= n,
            forall|a: int| 0 <= a < w.areasettings@.len() ==> {
                &&& (#[trigger] w.areasettings@[a]).cluster == (
                    if 1 <= a < i { 0 } else { old(w).areasettings@[a].cluster })
                &&& w.areasettings@[a].contents == old(w).areasettings@[a].contents
                &&& w.areasettings@[a].clusterareanum == old(w).areasettings@[a].clusterareanum
            },
            same_graph(*old(w), *w),
            w.portals@ == old(w).portals@,
            w.portalindex@ == old(w).portalindex@,
            w.clusters@ == old(w).clusters@,
            w.savefile == old(w).savefile,
        decreases n - i,
    {
        let mut s = w.areasettings[i];
        s.cluster = 0;
        w.areasettings.set(i, s);
        i += 1;
    }
}

/// Removes every area of cluster `clusternum` from it (`AAS_ClearCluster`).
pub fn AAS_ClearCluster(w: &mut aas_s, clusternum: i32)
    requires
        old(w).areasettings@.len() >= old(w).areas@.len(),
    ensures
        final(w).areasettings@.len() == old(w).areasettings@.len(),
        forall|a: int| 0 <= a < final(w).areasettings@.len() ==> {
            &&& (#[trigger] final(w).areasettings@[a]).cluster == (
                if 1 <= a < num_areas(*old(w)) && old(w).areasettings@[a].cluster == clusternum { 0 }
                else { old(w).areasettings@[a].cluster })
            &&& final(w).areasettings@[a].contents == old(w).areasettings@[a].contents
            &&& final(w).areasettings@[a].clusterareanum == old(w).areasettings@[a].clusterareanum
        },
        same_graph(*old(w), *final(w)),
        final(w).portals@ == old(w).portals@,
        final(w).portalindex@ == old(w).portalindex@,
        final(w).clusters@ == old(w).clusters@,
{
    let n = w.areas.len();
    let mut i: usize = if n > 0 { 1 } else { 0 };
    while i < n
        invariant
            n == num_areas(*old(w)),
            w.areas@ == old(w).areas@,
            i <= n,
            n > 0 ==> 1 <= i,
            w.areasettings@.len() == old(w).areasettings@.len(),
            w.areasettings@.len() >= n,
            forall|a: int| 0 <= a < w.areasettings@.len() ==> {
                &&& (#[trigger] w.areasettings@[a]).cluster == (
                    if 1 <= a < i && old(w).areasettings@[a].cluster == clusternum { 0 }
                    else { old(w).areasettings@[a].cluster })
                &&& w.areasettings@[a].contents == old(w).areasettings@[a].contents
                &&& w.areasettings@[a].clusterareanum == old(w).areasettings@[a].clusterareanum
            },
            same_graph(*old(w), *w),
            w.portals@ == old(w).portals@,
            w.portalindex@ == old(w).portalindex@,
            w.clusters@ == old(w).clusters@,
        decreases n - i,
    {
        if w.areasettings[i].cluster == clusternum {
            let mut s = w.areasettings[i];
            s.cluster = 0;
            w.areasettings.set(i, s);
        }
        i += 1;
    }
}

/// Removes every reference of the portals to cluster `clusternum`
/// (`AAS_RemovePortalsClusterReference`): a front or back cluster equal to
/// it becomes zero. Portal zero is a dummy and is left alone.
pub fn AAS_RemovePortalsClusterReference(w: &mut aas_s, clusternum: i32)
    ensures
        final(w).portals@.len() == old(w).portals@.len(),
        forall|p: int| 0 <= p < final(w).portals@.len() ==> {
            let o = old(w).portals@[p];
            let q = #[trigger] final(w).portals@[p];
            &&& q.areanum == o.areanum
            &&& q.clusterareanum0 == o.clusterareanum0
            &&& q.clusterareanum1 == o.clusterareanum1
            &&& q.frontcluster == (if p >= 1 && o.frontcluster == clusternum { 0 } else { o.frontcluster })
            &&& q.backcluster == (if p >= 1 && o.backcluster == clusternum { 0 } else { o.backcluster })
        },
        final(w).areasettings@ == old(w).areasettings@,
        same_graph(*old(w), *final(w)),
        final(w).portalindex@ == old(w).portalindex@,
        final(w).clusters@ == old(w).clusters@,
{
    let n = w.portals.len();
    let mut p: usize = if n > 0 { 1 } else { 0 };
    while p < n
        invariant
            n == old(w).portals@.len(),
            p <= n,
            n > 0 ==> 1 <= p,
            w.portals@.len() == n,
            forall|q: int| 0 <= q < n ==> {
                let o = old(w).portals@[q];
                let r = #[trigger] w.portals@[q];
                &&& r.areanum == o.areanum
                &&& r.clusterareanum0 == o.clusterareanum0
                &&& r.clusterareanum1 == o.clusterareanum1
                &&& r.frontcluster == (if 1 <= q < p && o.frontcluster == clusternum { 0 } else { o.frontcluster })
                &&& r.backcluster == (if 1 <= q < p && o.backcluster == clusternum { 0 } else { o.backcluster })
            },
            w.areasettings@ == old(w).areasettings@,
            same_graph(*old(w), *w),
            w.portalindex@ == old(w).portalindex@,
            w.clusters@ == old(w).clusters@,
        decreases n - p,
    {
        let mut portal = w.portals[p];
        if portal.frontcluster == clusternum {
            portal.frontcluster = 0;
        }
        if portal.backcluster == clusternum {
            portal.backcluster = 0;
        }
        w.portals.set(p, portal);
        p += 1;
    }
}

/// The contents of every area but area zero with `mask` in them get
/// `flag` added (when `add`) or removed.
fn update_area_contents(w: &mut aas_s, mask: i32, flag: i32, add: bool)
    requires
        old(w).areasettings@.len() >= old(w).areas@.len(),
    ensures
        final(w).areasettings@.len() == old(w).areasettings@.len(),
        forall|a: int| 0 <= a < final(w).areasettings@.len() ==> {
            let o = old(w).areasettings@[a];
            let s = #[trigger] final(w).areasettings@[a];
            &&& s.contents == (if 1 <= a < num_areas(*old(w)) && o.contents & mask != 0 {
                if add { o.contents | flag } else { o.contents & !flag }
            } else {
                o.contents
            })
            &&& s.cluster == o.cluster
            &&& s.clusterareanum == o.clusterareanum
        },
        same_graph(*old(w), *final(w)),
        final(w).portals@ == old(w).portals@,
        final(w).portalindex@ == old(w).portalindex@,
        final(w).clusters@ == old(w).clusters@,
        final(w).savefile == old(w).savefile,
{
    let n = w.areas.len();
    let mut i: usize = if n > 0 { 1 } else { 0 };
    while i < n
        invariant
            n == num_areas(*old(w)),
            w.areas@ == old(w).areas@,
            i <= n,
            n > 0 ==> 1 <= i,
            w.areasettings@.len() == old(w).areasettings@.len(),
            w.areasettings@.len() >= n,
            forall|a: int| 0 <= a < w.areasettings@.len() ==> {
                let o = old(w).areasettings@[a];
                let s = #[trigger] w.areasettings@[a];
                &&& s.contents == (if 1 <= a < i && o.contents & mask != 0 {
                    if add { o.contents | flag } else { o.contents & !flag }
                } else {
                    o.contents
                })
                &&& s.cluster == o.cluster
                &&& s.clusterareanum == o.clusterareanum
            },
            same_graph(*old(w), *w),
            w.portals@ == old(w).portals@,
            w.portalindex@ == old(w).portalindex@,
            w.clusters@ == old(w).clusters@,
            w.savefile == old(w).savefile,
        decreases n - i,
    {
        if w.areasettings[i].contents & mask != 0 {
            let mut s = w.areasettings[i];
            if add {
                s.contents = s.contents | flag;
            } else {
                s.contents = s.contents & !flag;
            }
            w.areasettings.set(i, s);
        }
        i += 1;
    }
}

/// Removes the cluster portal flag from every area (`AAS_RemoveAllPortals`).
pub fn AAS_RemoveAllPortals(w: &mut aas_s)
    requires
        old(w).areasettings@.len() >= old(w).areas@.len(),
    ensures
        final(w).areasettings@.len() == old(w).areasettings@.len(),
        forall|a: int| 0 <= a < final(w).areasettings@.len() ==> {
            let o = old(w).areasettings@[a];
            let s = #[trigger] final(w).areasettings@[a];
            &&& s.contents == (if 1 <= a < num_areas(*old(w)) { o.contents & !AREACONTENTS_CLUSTERPORTAL } else { o.contents })
            &&& s.cluster == o.cluster
            &&& s.clusterareanum == o.clusterareanum
        },
        same_graph(*old(w), *final(w)),
        final(w).portals@ == old(w).portals@,
        final(w).portalindex@ == old(w).portalindex@,
        final(w).clusters@ == old(w).clusters@,
{
    update_area_contents(w, AREACONTENTS_CLUSTERPORTAL, AREACONTENTS_CLUSTERPORTAL, false);
    proof {
        assert forall|a: int| 0 <= a < w.areasettings@.len() implies
            (#[trigger] w.areasettings@[a]).contents == (if 1 <= a < num_areas(*old(w)) {
                old(w).areasettings@[a].contents & !AREACONTENTS_CLUSTERPORTAL
            } else {
                old(w).areasettings@[a].contents
            }) by {
            let c = old(w).areasettings@[a].contents;
            assert(c & 8i32 == 0 ==> c & !8i32 == c) by (bit_vector);
        }
    }
}

/// Makes every cluster portal area a view portal too
/// (`AAS_CreateViewPortals`).
pub fn AAS_CreateViewPortals(w: &mut aas_s)
    requires
        old(w).areasettings@.len() >= old(w).areas@.len(),
    ensures
        final(w).areasettings@.len() == old(w).areasettings@.len(),
        forall|a: int| 0 <= a < final(w).areasettings@.len() ==> {
            let o = old(w).areasettings@[a];
            let s = #[trigger] final(w).areasettings@[a];
            &&& s.contents == (if 1 <= a < num_areas(*old(w)) && o.contents & AREACONTENTS_CLUSTERPORTAL != 0 {
                o.contents | AREACONTENTS_VIEWPORTAL
            } else {
                o.contents
            })
            &&& s.cluster == o.cluster
            &&& s.clusterareanum == o.clusterareanum
        },
        same_graph(*old(w), *final(w)),
        final(w).portals@ == old(w).portals@,
        final(w).portalindex@ == old(w).portalindex@,
        final(w).clusters@ == old(w).clusters@,
        final(w).savefile == old(w).savefile,
{
    update_area_contents(w, AREACONTENTS_CLUSTERPORTAL, AREACONTENTS_VIEWPORTAL, true);
}

/// Makes every view portal area a cluster portal too
/// (`AAS_SetViewPortalsAsClusterPortals`).
pub fn AAS_SetViewPortalsAsClusterPortals(w: &mut aas_s)
    requires
        old(w).areasettings@.len() >= old(w).areas@.len(),
    ensures
        final(w).areasettings@.len() == old(w).areasettings@.len(),
        forall|a: int| 0 <= a < final(w).areasettings@.len() ==> {
            let o = old(w).areasettings@[a];
            let s = #[trigger] final(w).areasettings@[a];
            &&& s.contents == (if 1 <= a < num_areas(*old(w)) && o.contents & AREACONTENTS_VIEWPORTAL != 0 {
                o.contents | AREACONTENTS_CLUSTERPORTAL
            } else {
                o.contents
            })
            &&& s.cluster == o.cluster
            &&& s.clusterareanum == o.clusterareanum
        },
        same_graph(*old(w), *final(w)),
        final(w).portals@ == old(w).portals@,
        final(w).portalindex@ == old(w).portalindex@,
        final(w).clusters@ == old(w).clusters@,
        final(w).savefile == old(w).savefile,
{
    update_area_contents(w, AREACONTENTS_VIEWPORTAL, AREACONTENTS_CLUSTERPORTAL, true);
}

/// Number of cluster portal areas among areas `1..end`.
pub open spec fn count_portal_areas(w: aas_s, end: int) -> int
    decreases end,
{
    if end <= 1 {
        0
    } else {
        count_portal_areas(w, end - 1) + (if is_portal_area(w, end - 1) { 1int } else { 0int })
    }
}

/// Counts the forced cluster portal areas, the areas already marked as
/// cluster portals (`AAS_CountForcedClusterPortals`).
pub fn AAS_CountForcedClusterPortals(w: &aas_s) -> (num: i32)
    requires
        w.areasettings@.len() >= w.areas@.len(),
        w.areas@.len() <= 0x7fff_ffff,
    ensures
        num == count_portal_areas(*w, num_areas(*w)),
{
    let n = w.areas.len();
    let mut num: i32 = 0;
    let mut i: usize = if n > 0 { 1 } else { 0 };
    while i < n
        invariant
            n == num_areas(*w),
            n <= 0x7fff_ffff,
            w.areasettings@.len() >= n,
            i <= n,
            n > 0 ==> 1 <= i,
            num == count_portal_areas(*w, i as int),
            0 <= num <= i,
        decreases n - i,
    {
        if w.areasettings[i].contents & AREACONTENTS_CLUSTERPORTAL != 0 {
            num += 1;
        }
        i += 1;
    }
    num
}


//==================================================================
// flooding clusters
//==================================================================

/// Area `a` has a portal with cluster `c` at its front or back.
pub open spec fn portal_ok(w: aas_s, a: int, c: int) -> bool {
    exists|p: int| #![trigger w.portals@[p]]
        1 <= p < w.portals@.len() && w.portals@[p].areanum == a
            && (w.portals@[p].frontcluster == c || w.portals@[p].backcluster == c)
}

/// Neighbor `b` does not lead out of cluster `c`: it is no area, an area of
/// cluster `c`, or a portal area with cluster `c` at one of its sides.
pub open spec fn nbr_ok(w: aas_s, b: int, c: int) -> bool {
    b == 0 || (1 <= b < num_areas(w) && (w.areasettings@[b].cluster == c || (is_portal_area(w, b) && portal_ok(w, b, c))))
}

/// The first `t` neighbors of area `a` do not lead out of cluster `c`.
pub open spec fn closed_upto(w: aas_s, a: int, c: int, t: int, nofaceflood: bool) -> bool {
    forall|u: int| 0 <= u < t ==> #[trigger] nbr_ok(w, nbr(w, a, u, nofaceflood), c)
}

/// No neighbor of area `a` leads out of its cluster.
pub open spec fn area_closed(w: aas_s, a: int, nofaceflood: bool) -> bool {
    closed_upto(w, a, w.areasettings@[a].cluster as int, nbr_count(w, a, nofaceflood), nofaceflood)
}

/// A negative cluster number only marks a portal area, as the negative
/// number of its portal.
pub open spec fn portal_area_wf(w: aas_s, a: int) -> bool {
    w.areasettings@[a].cluster < 0 ==> {
        let p = -(w.areasettings@[a].cluster as int);
        &&& is_portal_area(w, a)
        &&& 1 <= p < w.portals@.len()
        &&& w.portals@[p].areanum == a
    }
}

/// A negative cluster number of area `a` is the negative number of a
/// portal of area `a`.
pub open spec fn portal_number_wf(w: aas_s, a: int) -> bool {
    w.areasettings@[a].cluster < 0 ==> {
        let p = -(w.areasettings@[a].cluster as int);
        &&& 1 <= p < w.portals@.len()
        &&& w.portals@[p].areanum == a
    }
}

/// Area `a` is consistent with the clustering: an area in a cluster is no
/// portal area, its cluster exists and no neighbor leads out of its cluster;
/// a negative cluster number is that of the area's portal.
pub open spec fn area_consistent(w: aas_s, a: int, nofaceflood: bool) -> bool {
    &&& (w.areasettings@[a].cluster >= 1 ==> {
        &&& !is_portal_area(w, a)
        &&& w.areasettings@[a].cluster < w.clusters@.len()
        &&& area_closed(w, a, nofaceflood)
    })
    &&& portal_area_wf(w, a)
}

/// The clusters are closed under the flood relation, apart from leaving
/// through cluster portals that record the cluster.
pub open spec fn clusters_closed(w: aas_s, nofaceflood: bool) -> bool {
    forall|a: int| 1 <= a < num_areas(w) ==> #[trigger] area_consistent(w, a, nofaceflood)
}

/// No two portals are portals of the same area.
pub open spec fn portal_areas_unique(w: aas_s) -> bool {
    forall|p: int, q: int| 1 <= p < w.portals@.len() && 1 <= q < w.portals@.len() && p != q ==>
        #[trigger] w.portals@[p].areanum != #[trigger] w.portals@[q].areanum
}

/// The portal index entries of cluster `c` are the last ones.
pub open spec fn cluster_at_tail(w: aas_s, c: int) -> bool {
    w.clusters@[c].firstportal + w.clusters@[c].numportals == w.portalindex@.len()
}

/// The area contents of `w2` are those of `w1`, but that some areas may
/// have lost the cluster portal flag.
pub open spec fn contents_shrink(w1: aas_s, w2: aas_s) -> bool {
    forall|a: int| 0 <= a < w1.areasettings@.len() ==> {
        ||| (#[trigger] w2.areasettings@[a]).contents == w1.areasettings@[a].contents
        ||| w2.areasettings@[a].contents == w1.areasettings@[a].contents & !AREACONTENTS_CLUSTERPORTAL
    }
}

/// `w2` grew out of `w1` by flooding: the graph and the area contents are
/// the same, the portals are the same but may have gained a front or back
/// cluster, and areas with a cluster number keep it.
pub open spec fn evolves(w1: aas_s, w2: aas_s) -> bool {
    &&& same_graph(w1, w2)
    &&& forall|a: int| 0 <= a < w1.areasettings@.len() ==>
        (#[trigger] w2.areasettings@[a]).contents == w1.areasettings@[a].contents
    &&& forall|a: int| 1 <= a < num_areas(w1) && w1.areasettings@[a].cluster != 0 ==>
        (#[trigger] w2.areasettings@[a]).cluster == w1.areasettings@[a].cluster
    &&& w2.portals@.len() == w1.portals@.len()
    &&& forall|p: int| 0 <= p < w1.portals@.len() ==> {
        &&& (#[trigger] w2.portals@[p]).areanum == w1.portals@[p].areanum
        &&& (w1.portals@[p].frontcluster != 0 ==> w2.portals@[p].frontcluster == w1.portals@[p].frontcluster)
        &&& (w1.portals@[p].backcluster != 0 ==> w2.portals@[p].backcluster == w1.portals@[p].backcluster)
    }
}

pub proof fn lemma_evolves_nbr_ok(w1: aas_s, w2: aas_s, b: int, c: int)
    requires
        evolves(w1, w2),
        w1.areasettings@.len() >= num_areas(w1),
        nbr_ok(w1, b, c),
        c >= 1,
    ensures
        nbr_ok(w2, b, c),
{
    if b != 0 {
        assert(w2.areasettings@[b].contents == w1.areasettings@[b].contents);
        if w1.areasettings@[b].cluster == c {
            assert(w2.areasettings@[b].cluster == c);
        } else {
            let p = choose|p: int| #![trigger w1.portals@[p]]
                1 <= p < w1.portals@.len() && w1.portals@[p].areanum == b
                    && (w1.portals@[p].frontcluster == c || w1.portals@[p].backcluster == c);
            assert(w2.portals@[p].areanum == w1.portals@[p].areanum);
        }
    }
}

pub proof fn lemma_evolves_closed_upto(w1: aas_s, w2: aas_s, a: int, c: int, t: int, nff: bool)
    requires
        evolves(w1, w2),
        graph_wf(w1),
        0 <= a < num_areas(w1),
        closed_upto(w1, a, c, t, nff),
        c >= 1,
    ensures
        closed_upto(w2, a, c, t, nff),
{
    lemma_same_graph_wf(w1, w2);
    assert forall|u: int| 0 <= u < t implies #[trigger] nbr_ok(w2, nbr(w2, a, u, nff), c) by {
        assert(nbr(w2, a, u, nff) == nbr(w1, a, u, nff));
        assert(nbr_ok(w1, nbr(w1, a, u, nff), c));
        lemma_evolves_nbr_ok(w1, w2, nbr(w1, a, u, nff), c);
    }
}

pub proof fn lemma_evolves_trans(w1: aas_s, w2: aas_s, w3: aas_s)
    requires
        evolves(w1, w2),
        evolves(w2, w3),
    ensures
        evolves(w1, w3),
{
    assert forall|a: int| 1 <= a < num_areas(w1) && w1.areasettings@[a].cluster != 0 implies
        (#[trigger] w3.areasettings@[a]).cluster == w1.areasettings@[a].cluster by {
        assert(w2.areasettings@[a].cluster == w1.areasettings@[a].cluster);
    }
    assert forall|p: int| 0 <= p < w1.portals@.len() implies {
        &&& (#[trigger] w3.portals@[p]).areanum == w1.portals@[p].areanum
        &&& (w1.portals@[p].frontcluster != 0 ==> w3.portals@[p].frontcluster == w1.portals@[p].frontcluster)
        &&& (w1.portals@[p].backcluster != 0 ==> w3.portals@[p].backcluster == w1.portals@[p].backcluster)
    } by {
        assert(w2.portals@[p].areanum == w1.portals@[p].areanum);
    }
    assert forall|a: int| 0 <= a < w1.areasettings@.len() implies
        (#[trigger] w3.areasettings@[a]).contents == w1.areasettings@[a].contents by {
        assert(w2.areasettings@[a].contents == w1.areasettings@[a].contents);
    }
    assert forall|a: int| 0 <= a < w1.areasettings@.len() implies {
        &&& (#[trigger] w1.areasettings@[a]).areaflags == w3.areasettings@[a].areaflags
        &&& w1.areasettings@[a].presencetype == w3.areasettings@[a].presencetype
        &&& w1.areasettings@[a].numreachableareas == w3.areasettings@[a].numreachableareas
        &&& w1.areasettings@[a].firstreachablearea == w3.areasettings@[a].firstreachablearea
    } by {
        assert(w1.areasettings@[a].areaflags == w2.areasettings@[a].areaflags);
    }
}

pub open spec fn has_portal(w: aas_s, a: int) -> bool {
    exists|p: int| 1 <= p < w.portals@.len() && #[trigger] w.portals@[p].areanum == a
}

/// The portal of area `a` has two sides taken by clusters other than `c`.
pub open spec fn portal_full(w: aas_s, a: int, c: int) -> bool {
    exists|p: int| #![trigger w.portals@[p]]
        1 <= p < w.portals@.len() && w.portals@[p].areanum == a
            && w.portals@[p].frontcluster != 0 && w.portals@[p].backcluster != 0
            && w.portals@[p].frontcluster != c && w.portals@[p].backcluster != c
}

/// The portal index entries after the first `from` name portals of area `a`
/// that got cluster `c` at one of their sides, and had it at neither side in
/// `w1`.
pub open spec fn new_entries_of(w1: aas_s, w2: aas_s, from: int, a: int, c: int) -> bool {
    forall|k: int| from <= k < w2.portalindex@.len() ==> {
        let q = #[trigger] w2.portalindex@[k] as int;
        &&& 1 <= q < w2.portals@.len()
        &&& w2.portals@[q].areanum == a
        &&& (w2.portals@[q].frontcluster == c || w2.portals@[q].backcluster == c)
        &&& w1.portals@[q].frontcluster != c && w1.portals@[q].backcluster != c
    }
}

/// Adds cluster `clusternum` to the portal of portal area `areanum`
/// (`AAS_UpdatePortal`). When the portal already has the cluster at one of
/// its sides nothing changes. Otherwise the cluster becomes its front
/// cluster, or its back cluster when the front is taken, the area's cluster
/// number becomes the negative portal number and the portal is appended to
/// the cluster's portals. A portal with both sides taken by other clusters
/// separates more than two clusters: its area loses the cluster portal flag
/// and the result is false.
pub fn AAS_UpdatePortal(w: &mut aas_s, areanum: i32, clusternum: i32) -> (r: Result<bool, ClusterError>)
    requires
        portals_wf(*old(w)),
        portal_areas_unique(*old(w)),
        graph_wf(*old(w)),
        1 <= areanum < num_areas(*old(w)),
        portal_number_wf(*old(w), areanum as int),
        1 <= clusternum < old(w).clusters@.len(),
        cluster_at_tail(*old(w), clusternum as int),
    ensures
        same_graph(*old(w), *final(w)),
        contents_shrink(*old(w), *final(w)),
        portals_wf(*final(w)),
        portal_areas_unique(*final(w)),
        cluster_at_tail(*final(w), clusternum as int),
        final(w).clusters@.len() == old(w).clusters@.len(),
        forall|k: int| 0 <= k < final(w).clusters@.len() && k != clusternum ==>
            #[trigger] final(w).clusters@[k] == old(w).clusters@[k],
        final(w).clusters@[clusternum as int].numareas == old(w).clusters@[clusternum as int].numareas,
        final(w).clusters@[clusternum as int].firstportal == old(w).clusters@[clusternum as int].firstportal,
        old(w).portalindex@.len() <= final(w).portalindex@.len() <= old(w).portalindex@.len() + 1,
        forall|k: int| 0 <= k < old(w).portalindex@.len() ==>
            #[trigger] final(w).portalindex@[k] == old(w).portalindex@[k],
        new_entries_of(*old(w), *final(w), old(w).portalindex@.len() as int, areanum as int, clusternum as int),
        forall|a: int| 0 <= a < final(w).areasettings@.len() && a != areanum ==>
            #[trigger] final(w).areasettings@[a] == old(w).areasettings@[a],
        final(w).areasettings@[areanum as int].clusterareanum == old(w).areasettings@[areanum as int].clusterareanum,
        final(w).areasettings@[areanum as int].cluster == old(w).areasettings@[areanum as int].cluster
            || final(w).areasettings@[areanum as int].cluster < 0,
        r != Ok::<bool, ClusterError>(false) && is_portal_area(*old(w), areanum as int)
            ==> portal_area_wf(*final(w), areanum as int),
        portal_number_wf(*final(w), areanum as int),
        r != Ok::<bool, ClusterError>(false) && old(w).areasettings@[areanum as int].cluster <= 0
            ==> evolves(*old(w), *final(w)),
        r == Err::<bool, ClusterError>(ClusterError::PortalNotFound) <==> !has_portal(*old(w), areanum as int),
        r == Err::<bool, ClusterError>(ClusterError::TooManyPortalIndexes) <==> {
            &&& has_portal(*old(w), areanum as int)
            &&& !portal_ok(*old(w), areanum as int, clusternum as int)
            &&& !portal_full(*old(w), areanum as int, clusternum as int)
            &&& old(w).portalindex@.len() >= AAS_MAX_PORTALINDEXSIZE
        },
        r == Ok::<bool, ClusterError>(false) <==> has_portal(*old(w), areanum as int)
            && portal_full(*old(w), areanum as int, clusternum as int),
        r is Err ==> r == Err::<bool, ClusterError>(ClusterError::PortalNotFound)
            || r == Err::<bool, ClusterError>(ClusterError::TooManyPortalIndexes),
        r == Ok::<bool, ClusterError>(false) ==> {
            &&& final(w).areasettings@[areanum as int].contents
                == old(w).areasettings@[areanum as int].contents & !AREACONTENTS_CLUSTERPORTAL
            &&& final(w).areasettings@[areanum as int].cluster == old(w).areasettings@[areanum as int].cluster
            &&& final(w).portals@ == old(w).portals@
            &&& final(w).portalindex@ == old(w).portalindex@
        },
        r == Ok::<bool, ClusterError>(true) ==> portal_ok(*final(w), areanum as int, clusternum as int),
        portal_ok(*old(w), areanum as int, clusternum as int)
            ==> r == Ok::<bool, ClusterError>(true) && *final(w) == *old(w),
{
    let ghost ow = *old(w);
    let numportals = w.portals.len();
    //find the portal of the area
    let mut portalnum: usize = 1;
    while portalnum < numportals
        invariant
            numportals == w.portals@.len(),
            1 <= portalnum <= numportals,
            forall|q: int| 1 <= q < portalnum ==> w.portals@[q].areanum != areanum,
        ensures
            1 <= portalnum <= numportals,
            forall|q: int| 1 <= q < portalnum ==> w.portals@[q].areanum != areanum,
            portalnum < numportals ==> w.portals@[portalnum as int].areanum == areanum,
        decreases numportals - portalnum,
    {
        if w.portals[portalnum].areanum == areanum {
            break;
        }
        portalnum += 1;
    }
    if portalnum == numportals {
        proof {
            assert(!has_portal(ow, areanum as int)) by {
                if has_portal(ow, areanum as int) {
                    let q = choose|q: int| 1 <= q < ow.portals@.len() && #[trigger] ow.portals@[q].areanum == areanum;
                    assert(w.portals@[q].areanum != areanum);
                }
            }
        }
        return Err(ClusterError::PortalNotFound);
    }
    let ghost pn = portalnum as int;
    proof {
        assert(w.portals@[pn].areanum == areanum);
        assert(has_portal(ow, areanum as int));
        // any portal of the area is portal `pn`
        assert forall|q: int| 1 <= q < ow.portals@.len() && #[trigger] ow.portals@[q].areanum == areanum implies q == pn by {
            if q != pn {
                assert(ow.portals@[q].areanum != ow.portals@[pn].areanum);
            }
        }
    }
    let mut portal = w.portals[portalnum];
    //if the portal is already fully updated
    if portal.frontcluster == clusternum || portal.backcluster == clusternum {
        proof {
            assert(portal_ok(ow, areanum as int, clusternum as int));
            assert(!portal_full(ow, areanum as int, clusternum as int));
        }
        return Ok(true);
    }
    proof {
        assert(!portal_ok(ow, areanum as int, clusternum as int));
    }
    //if the portal has no front cluster yet
    if portal.frontcluster == 0 {
        portal.frontcluster = clusternum;
    } else if portal.backcluster == 0 {
        //if the portal has no back cluster yet
        portal.backcluster = clusternum;
    } else {
        //remove the cluster portal flag contents
        proof {
            assert(portal_full(ow, areanum as int, clusternum as int));
        }
        let mut s = w.areasettings[areanum as usize];
        s.contents = s.contents & !AREACONTENTS_CLUSTERPORTAL;
        w.areasettings.set(areanum as usize, s);
        return Ok(false);
    }
    proof {
        assert(!portal_full(ow, areanum as int, clusternum as int));
    }
    w.portals.set(portalnum, portal);
    proof {
        assert forall|p: int| 0 <= p < ow.portals@.len() implies {
            &&& (#[trigger] w.portals@[p]).areanum == ow.portals@[p].areanum
            &&& (ow.portals@[p].frontcluster != 0 ==> w.portals@[p].frontcluster == ow.portals@[p].frontcluster)
            &&& (ow.portals@[p].backcluster != 0 ==> w.portals@[p].backcluster == ow.portals@[p].backcluster)
        } by {}
        assert forall|p: int, q: int| 1 <= p < w.portals@.len() && 1 <= q < w.portals@.len() && p != q implies
            #[trigger] w.portals@[p].areanum != #[trigger] w.portals@[q].areanum by {
            assert(ow.portals@[p].areanum != ow.portals@[q].areanum);
        }
        assert forall|a: int| 0 <= a < ow.areasettings@.len() implies {
            &&& (#[trigger] ow.areasettings@[a]).areaflags == w.areasettings@[a].areaflags
            &&& ow.areasettings@[a].presencetype == w.areasettings@[a].presencetype
            &&& ow.areasettings@[a].numreachableareas == w.areasettings@[a].numreachableareas
            &&& ow.areasettings@[a].firstreachablearea == w.areasettings@[a].firstreachablearea
        } by {}
    }
    if w.portalindex.len() >= AAS_MAX_PORTALINDEXSIZE {
        return Err(ClusterError::TooManyPortalIndexes);
    }
    //set the area cluster number to the negative portal number
    let mut s = w.areasettings[areanum as usize];
    s.cluster = -(portalnum as i32);
    w.areasettings.set(areanum as usize, s);
    //add the portal to the cluster using the portal index
    w.portalindex.push(portalnum as i32);
    let mut cl = w.clusters[clusternum as usize];
    cl.numportals = cl.numportals + 1;
    w.clusters.set(clusternum as usize, cl);
    proof {
        assert(w.portalindex@.len() == ow.portalindex@.len() + 1);
        assert(w.portalindex@[ow.portalindex@.len() as int] == pn);
        assert forall|k: int| 0 <= k < w.portalindex@.len() implies
            0 <= #[trigger] w.portalindex@[k] < w.portals@.len() by {
            if k < ow.portalindex@.len() {
                assert(w.portalindex@[k] == ow.portalindex@[k]);
            }
        }
        assert forall|c: int| 0 <= c < w.clusters@.len() implies {
            &&& 0 <= #[trigger] w.clusters@[c].firstportal
            &&& 0 <= w.clusters@[c].numportals
            &&& w.clusters@[c].firstportal + w.clusters@[c].numportals <= w.portalindex@.len()
        } by {
            if c != clusternum {
                assert(w.clusters@[c] == ow.clusters@[c]);
            }
        }
        assert forall|a: int| 1 <= a < num_areas(ow) && ow.areasettings@[a].cluster != 0
            && ow.areasettings@[areanum as int].cluster <= 0 implies
            (#[trigger] w.areasettings@[a]).cluster == ow.areasettings@[a].cluster by {
            if a == areanum {
                assert(portal_number_wf(ow, a));
                let q = -(ow.areasettings@[a].cluster as int);
                assert(ow.portals@[q].areanum == areanum);
            }
        }
        assert forall|a: int| 0 <= a < ow.areasettings@.len() implies {
            &&& (#[trigger] ow.areasettings@[a]).areaflags == w.areasettings@[a].areaflags
            &&& ow.areasettings@[a].presencetype == w.areasettings@[a].presencetype
            &&& ow.areasettings@[a].numreachableareas == w.areasettings@[a].numreachableareas
            &&& ow.areasettings@[a].firstreachablearea == w.areasettings@[a].firstreachablearea
        } by {}
        assert(w.portals@[pn].areanum == areanum);
    }
    Ok(true)
}

//==================================================================
// flooding an area into a cluster
//==================================================================

/// Number of areas among `1..end` that have no cluster number.
pub open spec fn unmarked_count(w: aas_s, end: int) -> int
    decreases end,
{
    if end <= 1 {
        0
    } else {
        unmarked_count(w, end - 1) + (if w.areasettings@[end - 1].cluster == 0 { 1int } else { 0int })
    }
}

pub proof fn lemma_unmarked_count(w1: aas_s, w2: aas_s, end: int, x: int)
    requires
        forall|a: int| 1 <= a < end && w1.areasettings@[a].cluster != 0 ==>
            #[trigger] w2.areasettings@[a].cluster != 0,
    ensures
        0 <= unmarked_count(w2, end) <= unmarked_count(w1, end),
        unmarked_count(w1, end) <= if end <= 1 { 0 } else { end - 1 },
        1 <= x < end && w1.areasettings@[x].cluster == 0 && w2.areasettings@[x].cluster != 0
            ==> unmarked_count(w2, end) < unmarked_count(w1, end),
    decreases end,
{
    if end > 1 {
        lemma_unmarked_count(w1, w2, end - 1, x);
        if w1.areasettings@[end - 1].cluster != 0 {
            assert(w2.areasettings@[end - 1].cluster != 0);
        }
    }
}

/// The state in which an area can be flooded into cluster `c`.
pub open spec fn flood_ready(w: aas_s, c: int) -> bool {
    &&& graph_wf(w)
    &&& portals_wf(w)
    &&& portal_areas_unique(w)
    &&& 1 <= c < w.clusters@.len()
    &&& cluster_at_tail(w, c)
    &&& forall|a: int| 1 <= a < num_areas(w) ==> #[trigger] portal_area_wf(w, a)
    &&& forall|a: int| 1 <= a < num_areas(w) ==> (#[trigger] w.areasettings@[a]).cluster < w.clusters@.len()
        && (w.areasettings@[a].cluster > 0 ==> !is_portal_area(w, a))
    &&& 0 <= w.clusters@[c].numareas
    &&& w.clusters@[c].numareas + unmarked_count(w, num_areas(w)) < num_areas(w)
}

/// Every area that got cluster `c` between `w1` and `w2`, but area `a`, is
/// closed in `w2`.
pub open spec fn newly_closed_except(w1: aas_s, w2: aas_s, c: int, nofaceflood: bool, a: int) -> bool {
    forall|x: int| 1 <= x < num_areas(w1) && x != a && (#[trigger] w2.areasettings@[x]).cluster == c
        && w1.areasettings@[x].cluster != c ==> area_closed(w2, x, nofaceflood)
}

/// Every area that got cluster `c` between `w1` and `w2` is closed in `w2`.
pub open spec fn newly_closed(w1: aas_s, w2: aas_s, c: int, nofaceflood: bool) -> bool {
    newly_closed_except(w1, w2, c, nofaceflood, 0)
}

/// Some neighbor of area `x` lies in a cluster other than `c`.
pub open spec fn touches(w: aas_s, x: int, c: int, nofaceflood: bool) -> bool {
    exists|t: int| 0 <= t < nbr_count(w, x, nofaceflood) && #[trigger] nbr(w, x, t, nofaceflood) != 0
        && w.areasettings@[nbr(w, x, t, nofaceflood)].cluster >= 1
        && w.areasettings@[nbr(w, x, t, nofaceflood)].cluster != c
}

/// A flood of cluster `c` from area `a` in `w1` met another cluster: `a` is
/// in another cluster, or an area of cluster `c` in `w2` has a neighbor in
/// another cluster.
pub open spec fn touched(w1: aas_s, w2: aas_s, a: int, c: int, nofaceflood: bool) -> bool {
    ||| (1 <= a < num_areas(w1) && w1.areasettings@[a].cluster >= 1 && w1.areasettings@[a].cluster != c)
    ||| exists|x: int| 1 <= x < num_areas(w2) && (#[trigger] w2.areasettings@[x]).cluster == c
        && touches(w2, x, c, nofaceflood)
}

/// One cluster portal area of `w1` is none in `w2`, every other area keeps
/// its contents, and in `w2` the portal of that area has clusters at both
/// sides, neither of them cluster `c` (a third cluster reached it).
pub open spec fn flag_dropped(w1: aas_s, w2: aas_s, c: int) -> bool {
    exists|x: int| 1 <= x < num_areas(w1) && #[trigger] is_portal_area(w1, x) && !is_portal_area(w2, x)
        && (forall|y: int| 0 <= y < w1.areasettings@.len() && y != x ==>
            (#[trigger] w2.areasettings@[y]).contents == w1.areasettings@[y].contents)
        && portal_full(w2, x, c)
}

/// Some cluster portal area of `w1` is none in `w2`.
pub open spec fn flag_removed(w1: aas_s, w2: aas_s) -> bool {
    exists|x: int| 1 <= x < num_areas(w1) && #[trigger] is_portal_area(w1, x) && !is_portal_area(w2, x)
}

/// Some cluster portal area has no portal.
pub open spec fn portal_missing(w: aas_s) -> bool {
    exists|x: int| 1 <= x < num_areas(w) && #[trigger] is_portal_area(w, x) && !has_portal(w, x)
}

/// Cluster `c`'s list of clusters and portal indexes in `w2` extends that of `w1`.
pub open spec fn cluster_frame(w1: aas_s, w2: aas_s, c: int) -> bool {
    &&& w2.clusters@.len() == w1.clusters@.len()
    &&& forall|k: int| 0 <= k < w1.clusters@.len() && k != c ==>
        #[trigger] w2.clusters@[k] == w1.clusters@[k]
    &&& w2.clusters@[c].firstportal == w1.clusters@[c].firstportal
    &&& w1.portalindex@.len() <= w2.portalindex@.len()
    &&& forall|k: int| 0 <= k < w1.portalindex@.len() ==>
        #[trigger] w2.portalindex@[k] == w1.portalindex@[k]
}

pub proof fn lemma_same_graph_trans(w1: aas_s, w2: aas_s, w3: aas_s)
    requires
        same_graph(w1, w2),
        same_graph(w2, w3),
    ensures
        same_graph(w1, w3),
{
    assert forall|a: int| 0 <= a < w1.areasettings@.len() implies {
        &&& (#[trigger] w1.areasettings@[a]).areaflags == w3.areasettings@[a].areaflags
        &&& w1.areasettings@[a].presencetype == w3.areasettings@[a].presencetype
        &&& w1.areasettings@[a].numreachableareas == w3.areasettings@[a].numreachableareas
        &&& w1.areasettings@[a].firstreachablearea == w3.areasettings@[a].firstreachablearea
    } by {
        assert(w1.areasettings@[a].areaflags == w2.areasettings@[a].areaflags);
    }
}

pub proof fn lemma_shrink_after_evolves(w1: aas_s, w2: aas_s, w3: aas_s)
    requires
        evolves(w1, w2),
        contents_shrink(w2, w3),
        w1.areasettings@.len() >= num_areas(w1),
    ensures
        contents_shrink(w1, w3),
        same_graph(w2, w3) ==> same_graph(w1, w3),
        forall|x: int| 1 <= x < num_areas(w1) ==> is_portal_area(w1, x) == #[trigger] is_portal_area(w2, x),
        forall|x: int| 1 <= x < num_areas(w1) ==> has_portal(w1, x) == #[trigger] has_portal(w2, x),
        flag_removed(w2, w3) ==> flag_removed(w1, w3),
        forall|c: int| #[trigger] flag_dropped(w2, w3, c) ==> flag_dropped(w1, w3, c),
        portal_missing(w2) ==> portal_missing(w1),
{
    assert forall|a: int| 0 <= a < w1.areasettings@.len() implies {
        ||| (#[trigger] w3.areasettings@[a]).contents == w1.areasettings@[a].contents
        ||| w3.areasettings@[a].contents == w1.areasettings@[a].contents & !AREACONTENTS_CLUSTERPORTAL
    } by {
        assert(w2.areasettings@[a].contents == w1.areasettings@[a].contents);
    }
    if same_graph(w2, w3) {
        lemma_same_graph_trans(w1, w2, w3);
    }
    assert forall|x: int| 1 <= x < num_areas(w1) implies is_portal_area(w1, x) == #[trigger] is_portal_area(w2, x) by {
        assert(w2.areasettings@[x].contents == w1.areasettings@[x].contents);
    }
    assert forall|x: int| 1 <= x < num_areas(w1) implies has_portal(w1, x) == #[trigger] has_portal(w2, x) by {
        if has_portal(w1, x) {
            let p = choose|p: int| 1 <= p < w1.portals@.len() && #[trigger] w1.portals@[p].areanum == x;
            assert(w2.portals@[p].areanum == x);
        }
        if has_portal(w2, x) {
            let p = choose|p: int| 1 <= p < w2.portals@.len() && #[trigger] w2.portals@[p].areanum == x;
            assert(w2.portals@[p].areanum == w1.portals@[p].areanum);
        }
    }
    if flag_removed(w2, w3) {
        let x = choose|x: int| 1 <= x < num_areas(w2) && #[trigger] is_portal_area(w2, x) && !is_portal_area(w3, x);
        assert(is_portal_area(w1, x));
    }
    assert forall|c: int| #[trigger] flag_dropped(w2, w3, c) implies flag_dropped(w1, w3, c) by {
        let x = choose|x: int| 1 <= x < num_areas(w2) && #[trigger] is_portal_area(w2, x) && !is_portal_area(w3, x)
            && (forall|y: int| 0 <= y < w2.areasettings@.len() && y != x ==>
                (#[trigger] w3.areasettings@[y]).contents == w2.areasettings@[y].contents)
            && portal_full(w3, x, c);
        assert(is_portal_area(w1, x));
        assert forall|y: int| 0 <= y < w1.areasettings@.len() && y != x implies
            (#[trigger] w3.areasettings@[y]).contents == w1.areasettings@[y].contents by {
            assert(w2.areasettings@[y].contents == w1.areasettings@[y].contents);
        }
    }
    if portal_missing(w2) {
        let x = choose|x: int| 1 <= x < num_areas(w2) && #[trigger] is_portal_area(w2, x) && !has_portal(w2, x);
        assert(is_portal_area(w1, x));
        assert(!has_portal(w1, x));
    }
}

/// Every area whose cluster number differs between `w1` and `w2` is in
/// cluster `c` in `w2`, or marked as a portal area.
pub open spec fn marks_only(w1: aas_s, w2: aas_s, c: int) -> bool {
    forall|a: int| 1 <= a < num_areas(w1) ==> {
        ||| (#[trigger] w2.areasettings@[a]).cluster == w1.areasettings@[a].cluster
        ||| w2.areasettings@[a].cluster == c
        ||| w2.areasettings@[a].cluster < 0
    }
}

pub proof fn lemma_marks_only_trans(w1: aas_s, w2: aas_s, w3: aas_s, c: int)
    requires
        marks_only(w1, w2, c),
        marks_only(w2, w3, c),
        same_graph(w1, w2),
    ensures
        marks_only(w1, w3, c),
{
    assert forall|a: int| 1 <= a < num_areas(w1) implies {
        ||| (#[trigger] w3.areasettings@[a]).cluster == w1.areasettings@[a].cluster
        ||| w3.areasettings@[a].cluster == c
        ||| w3.areasettings@[a].cluster < 0
    } by {
        assert(w2.areasettings@[a].cluster == w1.areasettings@[a].cluster
            || w2.areasettings@[a].cluster == c || w2.areasettings@[a].cluster < 0);
    }
}

/// What a flood of cluster `c` from area `a` leaves behind, with result `r`.
pub open spec fn flood_post(w1: aas_s, w2: aas_s, a: int, c: int, nofaceflood: bool,
    r: Result<bool, ClusterError>) -> bool {
    &&& same_graph(w1, w2)
    &&& contents_shrink(w1, w2)
    &&& cluster_frame(w1, w2, c)
    &&& portals_wf(w2)
    &&& portal_areas_unique(w2)
    &&& (r == Err::<bool, ClusterError>(ClusterError::AreaOutOfRange) <==> !(1 <= a < num_areas(w1)))
    &&& (r != Ok::<bool, ClusterError>(false) ==> flood_ready(w2, c) && evolves(w1, w2) && marks_only(w1, w2, c))
    &&& (r == Ok::<bool, ClusterError>(true) ==> nbr_ok(w2, a, c) && newly_closed(w1, w2, c, nofaceflood))
    &&& (r == Ok::<bool, ClusterError>(false) ==> flag_dropped(w1, w2, c))
    &&& (r == Err::<bool, ClusterError>(ClusterError::PortalNotFound) ==> portal_missing(w1))
    &&& (r == Err::<bool, ClusterError>(ClusterError::TooManyPortalIndexes)
        ==> w2.portalindex@.len() >= AAS_MAX_PORTALINDEXSIZE)
    &&& (r == Err::<bool, ClusterError>(ClusterError::ClusterTouchedCluster)
        ==> touched(w1, w2, a, c, nofaceflood))
    &&& (r is Err ==> r != Err::<bool, ClusterError>(ClusterError::TooManyClusters)
        && r != Err::<bool, ClusterError>(ClusterError::TooManyPortals)
        && r != Err::<bool, ClusterError>(ClusterError::TooManyPortalAreas))
}

/// The state while area `a`, just put into cluster `c`, floods its neighbors.
pub open spec fn flood_progress(ow: aas_s, w: aas_s, a: int, c: int, nofaceflood: bool) -> bool {
    &&& flood_ready(w, c)
    &&& evolves(ow, w)
    &&& marks_only(ow, w, c)
    &&& cluster_frame(ow, w, c)
    &&& 1 <= a < num_areas(ow)
    &&& ow.areasettings@[a].cluster == 0
    &&& w.areasettings@[a].cluster == c
    &&& unmarked_count(w, num_areas(w)) < unmarked_count(ow, num_areas(ow))
    &&& newly_closed_except(ow, w, c, nofaceflood, a)
}

pub proof fn lemma_cluster_frame_trans(w1: aas_s, w2: aas_s, w3: aas_s, c: int)
    requires
        cluster_frame(w1, w2, c),
        cluster_frame(w2, w3, c),
    ensures
        cluster_frame(w1, w3, c),
{
    assert forall|k: int| 0 <= k < w1.clusters@.len() && k != c implies
        #[trigger] w3.clusters@[k] == w1.clusters@[k] by {
        assert(w2.clusters@[k] == w1.clusters@[k]);
    }
    assert forall|k: int| 0 <= k < w1.portalindex@.len() implies
        #[trigger] w3.portalindex@[k] == w1.portalindex@[k] by {
        assert(w2.portalindex@[k] == w1.portalindex@[k]);
    }
}

/// One more neighbor of area `a` has been flooded successfully.
pub proof fn lemma_flood_step(ow: aas_s, wpre: aas_s, w: aas_s, a: int, c: int, nff: bool, t: int)
    requires
        flood_progress(ow, wpre, a, c, nff),
        closed_upto(wpre, a, c, t, nff),
        0 <= t < nbr_count(wpre, a, nff),
        nbr(wpre, a, t, nff) == 0 ==> w == wpre,
        nbr(wpre, a, t, nff) != 0 ==>
            flood_post(wpre, w, nbr(wpre, a, t, nff), c, nff, Ok::<bool, ClusterError>(true)),
    ensures
        flood_progress(ow, w, a, c, nff),
        closed_upto(w, a, c, t + 1, nff),
        same_graph(ow, w),
{
    let b = nbr(wpre, a, t, nff);
    lemma_nbr_in_range(wpre, a, t, nff);
    if b != 0 {
        lemma_same_graph_wf(wpre, w);
        lemma_evolves_trans(ow, wpre, w);
        lemma_marks_only_trans(ow, wpre, w, c);
        lemma_cluster_frame_trans(ow, wpre, w, c);
        lemma_evolves_closed_upto(wpre, w, a, c, t, nff);
        assert(nbr(w, a, t, nff) == b);
        assert(closed_upto(w, a, c, t + 1, nff));
        lemma_unmarked_count(wpre, w, num_areas(wpre), 0);
        assert(w.areasettings@[a].cluster == c);
        assert forall|x: int| 1 <= x < num_areas(ow) && x != a && (#[trigger] w.areasettings@[x]).cluster == c
            && ow.areasettings@[x].cluster != c implies area_closed(w, x, nff) by {
            if wpre.areasettings@[x].cluster == c {
                assert(area_closed(wpre, x, nff));
                lemma_evolves_closed_upto(wpre, w, x, c, nbr_count(wpre, x, nff), nff);
            } else {
                assert(newly_closed_except(wpre, w, c, nff, 0));
            }
        }
    } else {
        assert(closed_upto(w, a, c, t + 1, nff));
    }
    lemma_same_graph_trans(ow, wpre, w);
}

/// A neighbor of area `a` failed to flood: the failure is that of the flood
/// from `a`.
pub proof fn lemma_flood_fail(ow: aas_s, wpre: aas_s, w: aas_s, a: int, c: int, nff: bool, t: int,
    r: Result<bool, ClusterError>)
    requires
        flood_progress(ow, wpre, a, c, nff),
        0 <= t < nbr_count(wpre, a, nff),
        nbr(wpre, a, t, nff) != 0,
        flood_post(wpre, w, nbr(wpre, a, t, nff), c, nff, r),
        r != Ok::<bool, ClusterError>(true),
    ensures
        flood_post(ow, w, a, c, nff, r),
{
    let b = nbr(wpre, a, t, nff);
    lemma_nbr_in_range(wpre, a, t, nff);
    lemma_shrink_after_evolves(ow, wpre, w);
    lemma_cluster_frame_trans(ow, wpre, w, c);
    if r != Ok::<bool, ClusterError>(false) {
        lemma_evolves_trans(ow, wpre, w);
        lemma_marks_only_trans(ow, wpre, w, c);
        lemma_same_graph_wf(wpre, w);
        if r == Err::<bool, ClusterError>(ClusterError::ClusterTouchedCluster) {
            if !(exists|x: int| 1 <= x < num_areas(w) && (#[trigger] w.areasettings@[x]).cluster == c
                && touches(w, x, c, nff)) {
                assert(nbr(w, a, t, nff) == b);
                assert(w.areasettings@[b].cluster == wpre.areasettings@[b].cluster);
                assert(touches(w, a, c, nff));
                assert(w.areasettings@[a].cluster == c);
            }
        }
    }
}

/// Floods cluster `clusternum` from area `areanum` (`AAS_FloodClusterAreas_r`).
/// An area already in the cluster is left alone; an area of another cluster
/// is an error; a cluster portal area gets the cluster at its portal
/// (`AAS_UpdatePortal`); any other area joins the cluster, gets the next
/// cluster area number, and the flood goes on into the areas at the other
/// side of its faces (unless `nofaceflood`) and the areas its reachabilities
/// lead to. Area zero is no area and is not flooded.
pub fn AAS_FloodClusterAreas_r(w: &mut aas_s, areanum: i32, clusternum: i32, nofaceflood: bool)
    -> (r: Result<bool, ClusterError>)
    requires
        flood_ready(*old(w), clusternum as int),
    ensures
        flood_post(*old(w), *final(w), areanum as int, clusternum as int, nofaceflood, r),
    decreases unmarked_count(*old(w), num_areas(*old(w))),
{
    let ghost ow = *old(w);
    let ghost c = clusternum as int;
    let n = w.areas.len();
    if areanum <= 0 || areanum as usize >= n {
        return Err(ClusterError::AreaOutOfRange);
    }
    let a = areanum as usize;
    let cl = w.areasettings[a].cluster;
    //if the area is already part of a cluster
    if cl > 0 {
        if cl == clusternum {
            return Ok(true);
        }
        //there's a reachability going from one cluster to another only in one direction
        return Err(ClusterError::ClusterTouchedCluster);
    }
    //don't add the cluster portal areas to the clusters
    if w.areasettings[a].contents & AREACONTENTS_CLUSTERPORTAL != 0 {
        proof {
            assert(portal_area_wf(ow, areanum as int));
        }
        let r = AAS_UpdatePortal(w, areanum, clusternum);
        proof {
            lemma_same_graph_wf(ow, *w);
            lemma_unmarked_count(ow, *w, num_areas(ow), 0);
            if r != Ok::<bool, ClusterError>(false) {
                assert(evolves(ow, *w));
                assert forall|x: int| 1 <= x < num_areas(*w) implies #[trigger] portal_area_wf(*w, x) by {
                    if x != areanum {
                        assert(portal_area_wf(ow, x));
                        assert(w.areasettings@[x] == ow.areasettings@[x]);
                        if ow.areasettings@[x].cluster < 0 {
                            let p = -(ow.areasettings@[x].cluster as int);
                            assert(w.portals@[p].areanum == ow.portals@[p].areanum);
                        }
                    }
                }
                assert forall|x: int| 1 <= x < num_areas(*w) implies
                    (#[trigger] w.areasettings@[x]).cluster < w.clusters@.len()
                    && (w.areasettings@[x].cluster > 0 ==> !is_portal_area(*w, x)) by {
                    if x != areanum {
                        assert(w.areasettings@[x] == ow.areasettings@[x]);
                    }
                }
                assert(flood_ready(*w, c));
            }
            if r == Ok::<bool, ClusterError>(false) {
                let c8 = ow.areasettings@[a as int].contents;
                assert(c8 & 8i32 != 0 ==> (c8 & !8i32) & 8i32 == 0) by (bit_vector);
                assert(is_portal_area(ow, areanum as int) && !is_portal_area(*w, areanum as int));
            }
            if r == Err::<bool, ClusterError>(ClusterError::PortalNotFound) {
                assert(is_portal_area(ow, areanum as int) && !has_portal(ow, areanum as int));
            }
        }
        return r;
    }
    //set the area cluster number
    let mut s = w.areasettings[a];
    s.cluster = clusternum;
    s.clusterareanum = w.clusters[clusternum as usize].numareas;
    w.areasettings.set(a, s);
    //the cluster has an extra area
    let mut cc = w.clusters[clusternum as usize];
    proof {
        lemma_unmarked_count(ow, ow, num_areas(ow), 0);
    }
    cc.numareas = cc.numareas + 1;
    w.clusters.set(clusternum as usize, cc);
    proof {
        lemma_unmarked_count(ow, *w, num_areas(ow), a as int);
        assert(portal_area_wf(ow, a as int));
        assert forall|x: int| 1 <= x < num_areas(*w) implies #[trigger] portal_area_wf(*w, x) by {
            if x != a {
                assert(portal_area_wf(ow, x));
            }
        }
        assert forall|k: int| 0 <= k < ow.clusters@.len() && k != c implies
            #[trigger] w.clusters@[k] == ow.clusters@[k] by {}
        assert forall|x: int| 1 <= x < num_areas(ow) && ow.areasettings@[x].cluster != 0 implies
            (#[trigger] w.areasettings@[x]).cluster == ow.areasettings@[x].cluster by {}
        assert forall|x: int| 0 <= x < ow.areasettings@.len() implies
            (#[trigger] w.areasettings@[x]).contents == ow.areasettings@[x].contents by {}
        assert forall|x: int| 0 <= x < ow.areasettings@.len() implies {
            &&& (#[trigger] ow.areasettings@[x]).areaflags == w.areasettings@[x].areaflags
            &&& ow.areasettings@[x].presencetype == w.areasettings@[x].presencetype
            &&& ow.areasettings@[x].numreachableareas == w.areasettings@[x].numreachableareas
            &&& ow.areasettings@[x].firstreachablearea == w.areasettings@[x].firstreachablearea
        } by {}
        assert(evolves(ow, *w));
        assert(cluster_frame(ow, *w, c));
        assert(graph_wf(*w));
        assert(portals_wf(*w));
        assert(cluster_at_tail(*w, c));
        assert(ow.areasettings@[a as int].cluster == 0);
        assert(unmarked_count(*w, num_areas(*w)) < unmarked_count(ow, num_areas(ow)));
        assert(w.clusters@[c].numareas + unmarked_count(*w, num_areas(*w)) < num_areas(*w));
        assert forall|x: int| 1 <= x < num_areas(*w) implies
            (#[trigger] w.areasettings@[x]).cluster < w.clusters@.len()
            && (w.areasettings@[x].cluster > 0 ==> !is_portal_area(*w, x)) by {
            if x != a {
                assert(w.areasettings@[x] == ow.areasettings@[x]);
            }
        }
        assert(flood_ready(*w, c));
        assert(newly_closed_except(ow, *w, c, nofaceflood, a as int));
        assert(flood_progress(ow, *w, a as int, c, nofaceflood));
        assert(closed_upto(*w, a as int, c, 0, nofaceflood));
    }
    //use area faces to flood into adjacent areas
    let mut done: usize = 0;
    if !nofaceflood {
        let numfaces = w.areas[a].numfaces as usize;
        let firstface = w.areas[a].firstface as usize;
        let mut i: usize = 0;
        while i < numfaces
            invariant
                flood_progress(ow, *w, a as int, c, nofaceflood),
                same_graph(ow, *w),
                ow == *old(w),
                c == clusternum as int,
                !nofaceflood,
                numfaces == ow.areas@[a as int].numfaces,
                firstface == ow.areas@[a as int].firstface,
                n == num_areas(ow),
                a == areanum,
                i <= numfaces,
                closed_upto(*w, a as int, c, i as int, nofaceflood),
            decreases numfaces - i,
        {
            let ghost wpre = *w;
            proof {
                assert(0 <= w.areas@[a as int].numfaces);
                assert(-(w.faces@.len() as int) < w.faceindex@[firstface + i] < w.faces@.len());
            }
            let fi = w.faceindex[firstface + i];
            let facenum: usize = if fi < 0 { (-fi) as usize } else { fi as usize };
            let face = w.faces[facenum];
            let b = if face.frontarea == areanum { face.backarea } else { face.frontarea };
            proof {
                assert(b == nbr(wpre, a as int, i as int, nofaceflood));
            }
            if b != 0 {
                proof {
                    lemma_unmarked_count(*w, *w, num_areas(*w), 0);
                    assert(unmarked_count(*w, num_areas(*w)) < unmarked_count(*old(w), num_areas(*old(w))));
                }
                let r = AAS_FloodClusterAreas_r(w, b, clusternum, nofaceflood);
                match r {
                    Ok(true) => {},
                    _ => {
                        proof {
                            lemma_flood_fail(ow, wpre, *w, a as int, c, nofaceflood, i as int, r);
                        }
                        return r;
                    },
                }
            }
            proof {
                lemma_flood_step(ow, wpre, *w, a as int, c, nofaceflood, i as int);
            }
            i += 1;
        }
        done = numfaces;
    }
    //use the reachabilities to flood into other areas
    proof {
        lemma_same_graph_wf(ow, *w);
        assert(0 <= w.areas@[a as int].numfaces);
        assert(0 <= w.areasettings@[a as int].numreachableareas);
        assert(0 <= w.areasettings@[a as int].firstreachablearea);
        assert(w.areasettings@[a as int].numreachableareas == ow.areasettings@[a as int].numreachableareas);
        assert(w.areasettings@[a as int].firstreachablearea == ow.areasettings@[a as int].firstreachablearea);
    }
    let numreach = w.areasettings[a].numreachableareas as usize;
    let firstreach = w.areasettings[a].firstreachablearea as usize;
    let mut i: usize = 0;
    while i < numreach
        invariant
            flood_progress(ow, *w, a as int, c, nofaceflood),
            same_graph(ow, *w),
            ow == *old(w),
            c == clusternum as int,
            done == (if nofaceflood { 0int } else { ow.areas@[a as int].numfaces as int }),
            numreach == ow.areasettings@[a as int].numreachableareas,
            firstreach == ow.areasettings@[a as int].firstreachablearea,
            n == num_areas(ow),
            a == areanum,
            i <= numreach,
            closed_upto(*w, a as int, c, done + i, nofaceflood),
        decreases numreach - i,
    {
        let ghost wpre = *w;
        proof {
            assert(0 <= w.areasettings@[a as int].numreachableareas);
        }
        let b = w.reachability[firstreach + i].areanum;
        proof {
            assert(b == nbr(wpre, a as int, done + i, nofaceflood));
        }
        if b != 0 {
            proof {
                lemma_unmarked_count(*w, *w, num_areas(*w), 0);
                assert(unmarked_count(*w, num_areas(*w)) < unmarked_count(*old(w), num_areas(*old(w))));
            }
            let r = AAS_FloodClusterAreas_r(w, b, clusternum, nofaceflood);
            match r {
                Ok(true) => {},
                _ => {
                    proof {
                        lemma_flood_fail(ow, wpre, *w, a as int, c, nofaceflood, done + i, r);
                    }
                    return r;
                },
            }
        }
        proof {
            lemma_flood_step(ow, wpre, *w, a as int, c, nofaceflood, done + i);
        }
        i += 1;
    }
    proof {
        assert(area_closed(*w, a as int, nofaceflood));
        lemma_same_graph_wf(ow, *w);
        lemma_shrink_after_evolves(ow, ow, *w);
    }
    Ok(true)
}

//==================================================================
// flooding through reachabilities
//==================================================================

/// What a series of floods of cluster `c` leaves behind, with result `r`.
pub open spec fn floods_post(w1: aas_s, w2: aas_s, c: int, nofaceflood: bool,
    r: Result<bool, ClusterError>) -> bool {
    &&& same_graph(w1, w2)
    &&& contents_shrink(w1, w2)
    &&& cluster_frame(w1, w2, c)
    &&& portals_wf(w2)
    &&& portal_areas_unique(w2)
    &&& (r != Ok::<bool, ClusterError>(false) ==> flood_ready(w2, c) && evolves(w1, w2) && marks_only(w1, w2, c))
    &&& (r == Ok::<bool, ClusterError>(true) ==> newly_closed(w1, w2, c, nofaceflood))
    &&& (r == Ok::<bool, ClusterError>(false) ==> flag_dropped(w1, w2, c))
    &&& (r == Err::<bool, ClusterError>(ClusterError::PortalNotFound) ==> portal_missing(w1))
    &&& (r == Err::<bool, ClusterError>(ClusterError::TooManyPortalIndexes)
        ==> w2.portalindex@.len() >= AAS_MAX_PORTALINDEXSIZE)
    &&& (r == Err::<bool, ClusterError>(ClusterError::ClusterTouchedCluster)
        ==> exists|x: int| 1 <= x < num_areas(w2) && (#[trigger] w2.areasettings@[x]).cluster == c
            && touches(w2, x, c, nofaceflood))
    &&& (r is Err ==> r == Err::<bool, ClusterError>(ClusterError::PortalNotFound)
        || r == Err::<bool, ClusterError>(ClusterError::TooManyPortalIndexes)
        || r == Err::<bool, ClusterError>(ClusterError::ClusterTouchedCluster))
}

pub proof fn lemma_floods_refl(w: aas_s, c: int, nff: bool)
    requires
        flood_ready(w, c),
    ensures
        floods_post(w, w, c, nff, Ok::<bool, ClusterError>(true)),
{
}

/// A flood from an area without cluster is one of a series of floods.
pub proof fn lemma_floods_from_flood(w1: aas_s, w2: aas_s, a: int, c: int, nff: bool,
    r: Result<bool, ClusterError>)
    requires
        flood_post(w1, w2, a, c, nff, r),
        1 <= a < num_areas(w1),
        w1.areasettings@[a].cluster <= 0,
    ensures
        floods_post(w1, w2, c, nff, r),
{
    match r {
        Err(e) => {
            match e {
                ClusterError::ClusterTouchedCluster => {
                    assert(touched(w1, w2, a, c, nff));
                },
                _ => {},
            }
        },
        _ => {},
    }
}

/// Two series of floods make one.
pub proof fn lemma_floods_trans(w1: aas_s, w2: aas_s, w3: aas_s, c: int, nff: bool,
    r: Result<bool, ClusterError>)
    requires
        floods_post(w1, w2, c, nff, Ok::<bool, ClusterError>(true)),
        floods_post(w2, w3, c, nff, r),
        c >= 1,
    ensures
        floods_post(w1, w3, c, nff, r),
{
    lemma_shrink_after_evolves(w1, w2, w3);
    lemma_cluster_frame_trans(w1, w2, w3, c);
    if r != Ok::<bool, ClusterError>(false) {
        lemma_evolves_trans(w1, w2, w3);
        lemma_marks_only_trans(w1, w2, w3, c);
    }
    if r == Ok::<bool, ClusterError>(true) {
        assert forall|x: int| 1 <= x < num_areas(w1) && x != 0 && (#[trigger] w3.areasettings@[x]).cluster == c
            && w1.areasettings@[x].cluster != c implies area_closed(w3, x, nff) by {
            if w2.areasettings@[x].cluster == c {
                assert(area_closed(w2, x, nff));
                lemma_evolves_closed_upto(w2, w3, x, c, nbr_count(w2, x, nff), nff);
            } else {
                assert(newly_closed_except(w2, w3, c, nff, 0));
            }
        }
    }
}

/// The `k`-th reachability of area `i` leads to an area that would make
/// `i` join a cluster: no portal area and in a cluster.
pub open spec fn reach_into_cluster(w: aas_s, i: int, k: int) -> bool {
    let t = reach_neighbor(w, i, k);
    !is_portal_area(w, t) && w.areasettings@[t].cluster != 0
}

/// Area `i` has no cluster and is no portal area, and one of its
/// reachabilities leads to an area in a cluster.
pub open spec fn joins_by_reach(w: aas_s, i: int) -> bool {
    &&& w.areasettings@[i].cluster == 0
    &&& !is_portal_area(w, i)
    &&& exists|k: int| 0 <= k < w.areasettings@[i].numreachableareas && #[trigger] reach_into_cluster(w, i, k)
}

/// No area joins a cluster by one of its reachabilities any more.
pub open spec fn reach_settled(w: aas_s, end: int) -> bool {
    forall|i: int| 1 <= i < end ==> !#[trigger] joins_by_reach(w, i)
}

/// Floods cluster `clusternum` from every area without a cluster that has
/// a reachability into an area with a cluster, until no such area is left
/// (`AAS_FloodClusterAreasUsingReachabilities`). Cluster portal areas are
/// not flooded from and do not count as areas with a cluster.
pub fn AAS_FloodClusterAreasUsingReachabilities(w: &mut aas_s, clusternum: i32, nofaceflood: bool)
    -> (r: Result<bool, ClusterError>)
    requires
        flood_ready(*old(w), clusternum as int),
    ensures
        floods_post(*old(w), *final(w), clusternum as int, nofaceflood, r),
        r == Ok::<bool, ClusterError>(true) ==> reach_settled(*final(w), num_areas(*final(w))),
{
    let ghost ow = *old(w);
    let ghost c = clusternum as int;
    let n = w.areas.len();
    proof {
        lemma_floods_refl(ow, c, nofaceflood);
    }
    let mut i: usize = 1;
    while i < n
        invariant
            floods_post(ow, *w, c, nofaceflood, Ok::<bool, ClusterError>(true)),
            ow == *old(w),
            c == clusternum as int,
            n == num_areas(ow),
            1 <= i,
            reach_settled(*w, i as int),
        decreases unmarked_count(*w, n as int), n - i,
    {
        proof {
            lemma_same_graph_wf(ow, *w);
            assert(0 <= w.areas@[i as int].numfaces);
        }
        if w.areasettings[i].cluster != 0 || w.areasettings[i].contents & AREACONTENTS_CLUSTERPORTAL != 0 {
            proof {
                assert(!joins_by_reach(*w, i as int));
            }
            i += 1;
        } else {
            let numreach = w.areasettings[i].numreachableareas as usize;
            let firstreach = w.areasettings[i].firstreachablearea as usize;
            let mut j: usize = 0;
            let mut found = false;
            while j < numreach
                invariant_except_break
                    !found,
                invariant
                    graph_wf(*w),
                    1 <= i < n == num_areas(*w),
                    numreach == w.areasettings@[i as int].numreachableareas,
                    firstreach == w.areasettings@[i as int].firstreachablearea,
                    firstreach + numreach <= w.reachability@.len(),
                    j <= numreach,
                    forall|k: int| 0 <= k < j ==> !#[trigger] reach_into_cluster(*w, i as int, k),
                ensures
                    found ==> j < numreach && reach_into_cluster(*w, i as int, j as int),
                    !found ==> forall|k: int| 0 <= k < numreach ==> !#[trigger] reach_into_cluster(*w, i as int, k),
                decreases numreach - j,
            {
                let t = w.reachability[firstreach + j].areanum as usize;
                proof {
                    assert(0 <= w.reachability@[firstreach + j].areanum < n);
                }
                //if this area is a cluster portal
                if w.areasettings[t].contents & AREACONTENTS_CLUSTERPORTAL == 0 {
                    //if this area has a cluster set
                    if w.areasettings[t].cluster != 0 {
                        found = true;
                        break;
                    }
                }
                j += 1;
            }
            if found {
                let ghost wpre = *w;
                proof {
                    lemma_unmarked_count(*w, *w, n as int, 0);
                }
                let r = AAS_FloodClusterAreas_r(w, i as i32, clusternum, nofaceflood);
                proof {
                    lemma_floods_from_flood(wpre, *w, i as int, c, nofaceflood, r);
                    lemma_floods_trans(ow, wpre, *w, c, nofaceflood, r);
                }
                match r {
                    Ok(true) => {},
                    _ => {
                        return r;
                    },
                }
                proof {
                    assert(is_portal_area(*w, i as int) == is_portal_area(wpre, i as int));
                    assert(w.areasettings@[i as int].cluster == c);
                    lemma_unmarked_count(wpre, *w, n as int, i as int);
                }
                i = 1;
            } else {
                proof {
                    assert(!joins_by_reach(*w, i as int));
                }
                i += 1;
            }
        }
    }
    Ok(true)
}

/// The areas `0..k` satisfy the area part of `graph_wf`.
pub open spec fn areas_wf_upto(w: aas_s, k: int) -> bool {
    forall|a: int| 0 <= a < k ==> {
        &&& 0 <= #[trigger] w.areas@[a].numfaces
        &&& 0 <= w.areas@[a].firstface
        &&& w.areas@[a].firstface + w.areas@[a].numfaces <= w.faceindex@.len()
        &&& 0 <= w.areasettings@[a].numreachableareas
        &&& 0 <= w.areasettings@[a].firstreachablearea
        &&& w.areasettings@[a].firstreachablearea + w.areasettings@[a].numreachableareas
            <= w.reachability@.len()
    }
}

/// Checks that the AAS data is consistent in the sense of `graph_wf`: every
/// number that is used as an index is in range.
pub fn AAS_GraphValid(w: &aas_s) -> (r: bool)
    ensures
        r == graph_wf(*w),
{
    let n = w.areas.len();
    if n < 1 || n > 0x3fff_ffff || w.areasettings.len() < n || w.faces.len() > 0x7fff_ffff
        || w.faceindex.len() > 0x7fff_ffff || w.reachability.len() > 0x7fff_ffff
        || w.edgeindex.len() > 0x7fff_ffff || w.edges.len() > 0x7fff_ffff {
        return false;
    }
    let nfi = w.faceindex.len() as i64;
    let nre = w.reachability.len() as i64;
    let mut a: usize = 0;
    while a < n
        invariant
            n == w.areas@.len(),
            1 <= n <= 0x3fff_ffff,
            w.areasettings@.len() >= n,
            nfi == w.faceindex@.len(),
            nre == w.reachability@.len(),
            nfi <= 0x7fff_ffff,
            nre <= 0x7fff_ffff,
            0 <= a <= n,
            areas_wf_upto(*w, a as int),
        decreases n - a,
    {
        let area = &w.areas[a];
        let st = &w.areasettings[a];
        if area.numfaces < 0 || area.firstface < 0 || area.firstface as i64 + area.numfaces as i64 > nfi
            || st.numreachableareas < 0 || st.firstreachablearea < 0
            || st.firstreachablearea as i64 + st.numreachableareas as i64 > nre {
            return false;
        }
        a = a + 1;
    }
    let nf = w.faces.len() as i32;
    let mut k: usize = 0;
    while k < w.faceindex.len()
        invariant
            nf == w.faces@.len(),
            0 <= k <= w.faceindex@.len(),
            forall|j: int| 0 <= j < k ==> -(w.faces@.len() as int) < #[trigger] w.faceindex@[j] < w.faces@.len(),
        decreases w.faceindex@.len() - k,
    {
        let fi = w.faceindex[k];
        if fi <= -nf || fi >= nf {
            return false;
        }
        k = k + 1;
    }
    let nei = w.edgeindex.len() as i64;
    let mut f: usize = 0;
    while f < w.faces.len()
        invariant
            n == w.areas@.len(),
            n <= 0x3fff_ffff,
            nei == w.edgeindex@.len(),
            nei <= 0x7fff_ffff,
            0 <= f <= w.faces@.len(),
            forall|g: int| 0 <= g < f ==> {
                &&& 0 <= #[trigger] w.faces@[g].frontarea < n
                &&& 0 <= w.faces@[g].backarea < n
                &&& 0 <= w.faces@[g].numedges
                &&& 0 <= w.faces@[g].firstedge
                &&& w.faces@[g].firstedge + w.faces@[g].numedges <= w.edgeindex@.len()
            },
        decreases w.faces@.len() - f,
    {
        let face = &w.faces[f];
        if face.frontarea < 0 || face.frontarea as usize >= n || face.backarea < 0 || face.backarea as usize >= n
            || face.numedges < 0 || face.firstedge < 0 || face.firstedge as i64 + face.numedges as i64 > nei {
            return false;
        }
        f = f + 1;
    }
    let ne = w.edges.len() as i32;
    let mut k: usize = 0;
    while k < w.edgeindex.len()
        invariant
            ne == w.edges@.len(),
            0 <= k <= w.edgeindex@.len(),
            forall|j: int| 0 <= j < k ==> -(w.edges@.len() as int) < #[trigger] w.edgeindex@[j] < w.edges@.len(),
        decreases w.edgeindex@.len() - k,
    {
        let ei = w.edgeindex[k];
        if ei <= -ne || ei >= ne {
            return false;
        }
        k = k + 1;
    }
    let mut r: usize = 0;
    while r < w.reachability.len()
        invariant
            n == w.areas@.len(),
            0 <= r <= w.reachability@.len(),
            forall|j: int| 0 <= j < r ==> 0 <= #[trigger] w.reachability@[j].areanum < n,
        decreases w.reachability@.len() - r,
    {
        let an = w.reachability[r].areanum;
        if an < 0 || an as usize >= n {
            return false;
        }
        r = r + 1;
    }
    true
}

} // verus!
