//! What the library tells of an area, a face or a plane of the loaded AAS
//! data, and the index of an area among the reachability areas of all
//! clusters.
use vstd::prelude::*;
use crate::aasfile::{aas_plane_t, Vec3Bits};
use crate::aasworld::aas_s;
use crate::cluster::num_areas;
use crate::clusternum::{area_reach, AAS_AreaReachability};

verus! {

/// Size in bytes of the area info record handed back by `AAS_AreaInfo`.
pub const AREAINFO_SIZE: i32 = 52;

/// Why an area could not be read.
#[derive(Clone, Copy, Debug, PartialEq, Eq, Structural)]
pub enum AreaError {
    /// the area number is not that of an area (area zero is none)
    InvalidArea,
}

/// What `AAS_AreaInfo` tells of an area.  The bounds and centre are
/// floats, carried as their bit patterns.
#[derive(Clone, Copy, Debug, PartialEq, Eq, Structural)]
pub struct aas_areainfo_s {
    pub cluster: i32,
    pub contents: i32,
    pub flags: i32,
    pub presencetype: i32,
    pub mins: Vec3Bits,
    pub maxs: Vec3Bits,
    pub center: Vec3Bits,
}

pub type aas_areainfo_t = aas_areainfo_s;

/// `areanum` is an area (area zero is none).
pub open spec fn valid_area(w: aas_s, areanum: i32) -> bool {
    0 < areanum < num_areas(w)
}

/// The cluster of area `areanum` (`AAS_AreaCluster`): negative for a
/// portal area; an error (where the value read is 0) when there is no such
/// area.
pub fn AAS_AreaCluster(w: &aas_s, areanum: i32) -> (r: Result<i32, AreaError>)
    requires
        w.areasettings@.len() >= w.areas@.len(),
    ensures
        valid_area(*w, areanum) ==> r == Ok::<i32, AreaError>(w.areasettings@[areanum as int].cluster),
        !valid_area(*w, areanum) ==> r == Err::<i32, AreaError>(AreaError::InvalidArea),
{
    if areanum <= 0 || areanum as usize >= w.areas.len() {
        return Err(AreaError::InvalidArea);
    }
    Ok(w.areasettings[areanum as usize].cluster)
}

/// The presence types of area `areanum` (`AAS_AreaPresenceType`): 0 while
/// no AAS file is loaded; an error (where the value read is 0) when there
/// is no such area.
pub fn AAS_AreaPresenceType(w: &aas_s, areanum: i32) -> (r: Result<i32, AreaError>)
    requires
        w.areasettings@.len() >= w.areas@.len(),
    ensures
        !w.loaded ==> r == Ok::<i32, AreaError>(0),
        w.loaded && valid_area(*w, areanum) ==> r == Ok::<i32, AreaError>(w.areasettings@[areanum as int].presencetype),
        w.loaded && !valid_area(*w, areanum) ==> r == Err::<i32, AreaError>(AreaError::InvalidArea),
{
    if !w.loaded {
        return Ok(0);
    }
    if areanum <= 0 || areanum as usize >= w.areas.len() {
        return Err(AreaError::InvalidArea);
    }
    Ok(w.areasettings[areanum as usize].presencetype)
}

/// The area info of area `areanum` (`AAS_AreaInfo`).
pub open spec fn area_info(w: aas_s, areanum: int) -> aas_areainfo_s {
    let s = w.areasettings@[areanum];
    let a = w.areas@[areanum];
    aas_areainfo_s {
        cluster: s.cluster,
        contents: s.contents,
        flags: s.areaflags,
        presencetype: s.presencetype,
        mins: a.mins,
        maxs: a.maxs,
        center: a.center,
    }
}

/// Fills `info` with what is known of area `areanum` and gives the size of
/// the record (`AAS_AreaInfo`); an error (where the value read is 0), with
/// `info` left, when there is no such area.
pub fn AAS_AreaInfo(w: &aas_s, areanum: i32, info: &mut aas_areainfo_s) -> (r: Result<i32, AreaError>)
    requires
        w.areasettings@.len() >= w.areas@.len(),
    ensures
        valid_area(*w, areanum) ==> r == Ok::<i32, AreaError>(AREAINFO_SIZE)
            && *final(info) == area_info(*w, areanum as int),
        !valid_area(*w, areanum) ==> r == Err::<i32, AreaError>(AreaError::InvalidArea)
            && *final(info) == *old(info),
{
    if areanum <= 0 || areanum as usize >= w.areas.len() {
        return Err(AreaError::InvalidArea);
    }
    let s = &w.areasettings[areanum as usize];
    let a = &w.areas[areanum as usize];
    *info = aas_areainfo_s {
        cluster: s.cluster,
        contents: s.contents,
        flags: s.areaflags,
        presencetype: s.presencetype,
        mins: a.mins,
        maxs: a.maxs,
        center: a.center,
    };
    Ok(AREAINFO_SIZE)
}

/// Plane `planenum` (`AAS_PlaneFromNum`); none while no AAS file is loaded.
pub fn AAS_PlaneFromNum(w: &aas_s, planenum: i32) -> (r: Option<aas_plane_t>)
    requires
        w.loaded ==> 0 <= planenum < w.planes@.len(),
    ensures
        !w.loaded ==> r is None,
        w.loaded ==> r == Some(w.planes@[planenum as int]),
{
    if !w.loaded {
        return None;
    }
    Some(w.planes[planenum as usize])
}

/// The normal and distance of the plane of face `facenum`
/// (`AAS_FacePlane`).
pub fn AAS_FacePlane(w: &aas_s, facenum: i32) -> (r: (Vec3Bits, u32))
    requires
        0 <= facenum < w.faces@.len(),
        0 <= w.faces@[facenum as int].planenum < w.planes@.len(),
    ensures
        r.0 == w.planes@[w.faces@[facenum as int].planenum as int].normal,
        r.1 == w.planes@[w.faces@[facenum as int].planenum as int].dist,
{
    let plane = &w.planes[w.faces[facenum as usize].planenum as usize];
    (plane.normal, plane.dist)
}

/// Sum of the reachability area counts of the first `n` clusters.
pub open spec fn reach_areas_before(w: aas_s, n: int) -> int
    decreases n,
{
    if n <= 0 {
        0
    } else {
        reach_areas_before(w, n - 1) + w.clusters@[n - 1].numreachabilityareas
    }
}

/// Every running sum of the reachability area counts of the clusters fits
/// an `i32`.
pub open spec fn reach_sums_fit(w: aas_s) -> bool {
    forall|n: int| 0 <= n <= w.clusters@.len() ==>
        i32::MIN <= #[trigger] reach_areas_before(w, n) <= i32::MAX
}

/// The index of area `a` among the reachability areas of all clusters: the
/// counts of the clusters before its cluster, plus its number in its
/// cluster.  Taken for an area with reachabilities that is not a portal.
pub open spec fn reach_area_index(w: aas_s, a: int) -> int {
    reach_areas_before(w, w.areasettings@[a].cluster as int) + w.areasettings@[a].clusterareanum
}

/// Adds the reachability area counts of the first `n` clusters.
fn sum_reach_areas(w: &aas_s, n: i32) -> (r: i32)
    requires
        0 <= n <= w.clusters@.len(),
        reach_sums_fit(*w),
    ensures
        r == reach_areas_before(*w, n as int),
{
    let mut index: i32 = 0;
    let mut i: i32 = 0;
    while i < n
        invariant
            0 <= i <= n <= w.clusters@.len(),
            reach_sums_fit(*w),
            index == reach_areas_before(*w, i as int),
        decreases n - i,
    {
        assert(i32::MIN <= reach_areas_before(*w, i + 1) <= i32::MAX);
        index = index + w.clusters[i as usize].numreachabilityareas;
        i = i + 1;
    }
    index
}

/// The index among the reachability areas of all clusters of the area a
/// point is in (`AAS_PointReachabilityAreaIndex`).  `point_area` is the
/// area of the point (0 for none), or no point at all, for which the total
/// count of reachability areas is given.  0 while the AAS world is not
/// initialized, and for a point in no area or in an area without
/// reachabilities.  An area with reachabilities must lie in a cluster: the
/// portal of a portal area would be looked up at a negative index.
pub fn AAS_PointReachabilityAreaIndex(w: &aas_s, point_area: Option<i32>) -> (r: i32)
    requires
        w.areasettings@.len() >= w.areas@.len(),
        w.clusters@.len() <= i32::MAX,
        reach_sums_fit(*w),
        point_area matches Some(a) ==> 0 <= a < num_areas(*w),
        point_area matches Some(a) ==> (a != 0 && area_reach(*w, a as int) ==>
            0 <= w.areasettings@[a as int].cluster <= w.clusters@.len()
            && i32::MIN <= reach_area_index(*w, a as int) <= i32::MAX),
    ensures
        !w.initialized ==> r == 0,
        w.initialized ==> r == match point_area {
            None => reach_areas_before(*w, w.clusters@.len() as int),
            Some(a) => if a == 0 || !area_reach(*w, a as int) { 0 } else { reach_area_index(*w, a as int) },
        },
{
    if !w.initialized {
        return 0;
    }
    match point_area {
        None => sum_reach_areas(w, w.clusters.len() as i32),
        Some(areanum) => {
            if areanum == 0 || AAS_AreaReachability(w, areanum) == 0 {
                return 0;
            }
            let cluster = w.areasettings[areanum as usize].cluster;
            let clusterareanum = w.areasettings[areanum as usize].clusterareanum;
            let index = sum_reach_areas(w, cluster);
            index + clusterareanum
        },
    }
}

} // verus!
