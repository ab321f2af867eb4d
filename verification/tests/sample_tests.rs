use lib::aasfile::{aas_area_s, aas_areasettings_s, aas_cluster_s, aas_face_s, aas_plane_s, Vec3Bits};
use lib::aasworld::aas_s;
use lib::sample::{
    aas_areainfo_s, AAS_AreaCluster, AAS_AreaInfo, AAS_AreaPresenceType, AAS_FacePlane,
    AAS_PlaneFromNum, AAS_PointReachabilityAreaIndex, AreaError, AREAINFO_SIZE,
};

fn v(x: u32, y: u32, z: u32) -> Vec3Bits {
    Vec3Bits { x, y, z }
}

fn settings(cluster: i32, clusterareanum: i32, numreach: i32) -> aas_areasettings_s {
    aas_areasettings_s {
        contents: 8, areaflags: 2, presencetype: 3, cluster, clusterareanum,
        numreachableareas: numreach, firstreachablearea: 0,
    }
}

fn area(n: u32) -> aas_area_s {
    aas_area_s { areanum: n as i32, numfaces: 0, firstface: 0, mins: v(n, 0, 0), maxs: v(0, n, 0), center: v(0, 0, n) }
}

fn cluster(numreach: i32) -> aas_cluster_s {
    aas_cluster_s { numareas: 0, numreachabilityareas: numreach, numportals: 0, firstportal: 0 }
}

fn world() -> aas_s {
    let mut w = aas_s::new();
    w.areas = vec![area(0), area(1), area(2), area(3)];
    w.areasettings = vec![settings(0, 0, 0), settings(1, 4, 2), settings(2, 1, 1), settings(2, 2, 0)];
    w.clusters = vec![cluster(0), cluster(10), cluster(20)];
    w.planes = vec![aas_plane_s { normal: v(1, 2, 3), dist: 77, type_: 0 }];
    w.faces = vec![aas_face_s { planenum: 0, faceflags: 0, numedges: 0, firstedge: 0, frontarea: 1, backarea: 2 }];
    w.loaded = true;
    w.initialized = true;
    w
}

#[test]
fn area_cluster_and_presence() {
    let w = world();
    assert_eq!(AAS_AreaCluster(&w, 2), Ok(2));
    assert_eq!(AAS_AreaCluster(&w, 0), Err(AreaError::InvalidArea));
    assert_eq!(AAS_AreaCluster(&w, 4), Err(AreaError::InvalidArea));
    assert_eq!(AAS_AreaPresenceType(&w, 1), Ok(3));
    assert_eq!(AAS_AreaPresenceType(&w, 9), Err(AreaError::InvalidArea));
    let mut w2 = world();
    w2.loaded = false;
    assert_eq!(AAS_AreaPresenceType(&w2, 1), Ok(0));
}

#[test]
fn area_info_copies_settings_and_bounds() {
    let w = world();
    let blank = aas_areainfo_s { cluster: 0, contents: 0, flags: 0, presencetype: 0, mins: v(0, 0, 0), maxs: v(0, 0, 0), center: v(0, 0, 0) };
    let mut info = blank;
    assert_eq!(AAS_AreaInfo(&w, 3, &mut info), Ok(AREAINFO_SIZE));
    assert_eq!(info, aas_areainfo_s { cluster: 2, contents: 8, flags: 2, presencetype: 3, mins: v(3, 0, 0), maxs: v(0, 3, 0), center: v(0, 0, 3) });
    let mut info = blank;
    assert_eq!(AAS_AreaInfo(&w, 0, &mut info), Err(AreaError::InvalidArea));
    assert_eq!(info, blank);
}

#[test]
fn planes_of_faces() {
    let w = world();
    assert_eq!(AAS_FacePlane(&w, 0), (v(1, 2, 3), 77));
    assert_eq!(AAS_PlaneFromNum(&w, 0).map(|p| p.dist), Some(77));
    let mut w2 = world();
    w2.loaded = false;
    assert!(AAS_PlaneFromNum(&w2, 0).is_none());
}

#[test]
fn reachability_area_index() {
    let w = world();
    // no point: all reachability areas
    assert_eq!(AAS_PointReachabilityAreaIndex(&w, None), 30);
    // area 2 is number 1 of cluster 2, after the 10 of cluster 1
    assert_eq!(AAS_PointReachabilityAreaIndex(&w, Some(2)), 11);
    assert_eq!(AAS_PointReachabilityAreaIndex(&w, Some(1)), 4);
    // no reachabilities, or no area
    assert_eq!(AAS_PointReachabilityAreaIndex(&w, Some(3)), 0);
    assert_eq!(AAS_PointReachabilityAreaIndex(&w, Some(0)), 0);
    let mut w2 = world();
    w2.initialized = false;
    assert_eq!(AAS_PointReachabilityAreaIndex(&w2, None), 0);
}
