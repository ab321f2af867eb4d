use lib::aasfile::{
    aas_area_s, aas_areasettings_s, aas_face_s, aas_portal_s, aas_reachability_s, Vec3Bits,
    AREACONTENTS_CLUSTERPORTAL,
};
use lib::aasworld::aas_s;
use lib::cluster::{AAS_CountForcedClusterPortals, AAS_RemoveClusterAreas, AAS_UpdatePortal};
use lib::clustering::{AAS_InitClustering, AAS_TestPortals};
use lib::clusternum::AAS_AreaReachability;
use lib::portals::{AAS_CheckAreaForPossiblePortals, AAS_ConnectedAreas, AAS_FindPossiblePortals};

fn z() -> Vec3Bits {
    Vec3Bits { x: 0, y: 0, z: 0 }
}

fn face(front: i32, back: i32) -> aas_face_s {
    aas_face_s { planenum: 0, faceflags: 0, numedges: 0, firstedge: 0, frontarea: front, backarea: back }
}

fn area(num: i32, numfaces: i32, firstface: i32) -> aas_area_s {
    aas_area_s { areanum: num, numfaces, firstface, mins: z(), maxs: z(), center: z() }
}

fn settings(contents: i32, numreach: i32, firstreach: i32) -> aas_areasettings_s {
    aas_areasettings_s {
        contents, areaflags: 0, presencetype: 2, cluster: 0, clusterareanum: 0,
        numreachableareas: numreach, firstreachablearea: firstreach,
    }
}

fn reach(to: i32) -> aas_reachability_s {
    aas_reachability_s { areanum: to, facenum: 0, edgenum: 0, start: z(), end: z(), traveltype: 2, traveltime: 100 }
}

/// Three areas in a row; the middle one is a cluster portal.
fn row_world() -> aas_s {
    let mut w = aas_s::new();
    w.faces = vec![face(0, 0), face(1, 2), face(2, 3)];
    w.faceindex = vec![1, -1, 2, -2];
    w.areas = vec![area(0, 0, 0), area(1, 1, 0), area(2, 2, 1), area(3, 1, 3)];
    w.areasettings = vec![
        settings(0, 0, 0),
        settings(0, 1, 0),
        settings(AREACONTENTS_CLUSTERPORTAL, 2, 1),
        settings(0, 1, 3),
    ];
    w.reachability = vec![reach(2), reach(1), reach(3), reach(2)];
    w.loaded = true;
    w
}

#[test]
fn clustering_splits_at_portal() {
    let mut w = row_world();
    assert_eq!(AAS_InitClustering(&mut w, false, false, true, &mut false), Ok(true));
    assert_eq!(w.clusters.len(), 3);
    assert_eq!(w.portals.len(), 2);
    assert_eq!(w.portals[1].areanum, 2);
    assert_eq!(w.portals[1].frontcluster, 1);
    assert_eq!(w.portals[1].backcluster, 2);
    assert_eq!(w.areasettings[1].cluster, 1);
    assert_eq!(w.areasettings[3].cluster, 2);
    assert_eq!(w.areasettings[2].cluster, -1);
    assert_eq!(w.portalindex, vec![1, 1]);
    assert_eq!(w.clusters[1].numportals, 1);
    assert_eq!(w.clusters[2].firstportal, 1);
    assert!(w.savefile);
}

#[test]
fn clustering_numbers_cluster_areas() {
    let mut w = row_world();
    assert_eq!(AAS_InitClustering(&mut w, false, false, true, &mut false), Ok(true));
    assert_eq!(w.clusters[1].numareas, 2);
    assert_eq!(w.clusters[1].numreachabilityareas, 2);
    assert_eq!(w.clusters[2].numareas, 2);
    assert_eq!(w.areasettings[1].clusterareanum, 0);
    assert_eq!(w.areasettings[3].clusterareanum, 0);
    assert_eq!(w.portals[1].clusterareanum0, 1);
    assert_eq!(w.portals[1].clusterareanum1, 1);
}

#[test]
fn clustering_skipped_when_done_or_unloaded() {
    let mut w = row_world();
    w.loaded = false;
    assert_eq!(AAS_InitClustering(&mut w, true, true, true, &mut false), Ok(false));
    let mut w2 = row_world();
    assert_eq!(AAS_InitClustering(&mut w2, false, false, true, &mut false), Ok(true));
    let before = w2.portals.clone();
    assert_eq!(AAS_InitClustering(&mut w2, false, false, true, &mut false), Ok(false));
    assert_eq!(w2.portals, before);
    assert_eq!(AAS_InitClustering(&mut w2, true, false, true, &mut false), Ok(true));
}

#[test]
fn clustering_without_portal_makes_one_cluster() {
    let mut w = row_world();
    w.areasettings[2].contents = 0;
    assert_eq!(AAS_InitClustering(&mut w, false, false, true, &mut false), Ok(true));
    assert_eq!(w.clusters.len(), 2);
    assert_eq!(w.portals.len(), 1);
    assert_eq!(w.clusters[1].numareas, 3);
    assert_eq!(w.areasettings[2].cluster, 1);
    assert_eq!(w.areasettings[2].clusterareanum, 1);
}

#[test]
fn forced_portals_are_counted() {
    let w = row_world();
    assert_eq!(AAS_CountForcedClusterPortals(&w), 1);
}

#[test]
fn area_reachability_counts() {
    let w = row_world();
    assert_eq!(AAS_AreaReachability(&w, 2), 2);
    assert_eq!(AAS_AreaReachability(&w, 0), 0);
    assert_eq!(AAS_AreaReachability(&w, 9), 0);
    assert_eq!(AAS_AreaReachability(&w, -1), 0);
}

#[test]
fn remove_cluster_areas_clears_clusters() {
    let mut w = row_world();
    w.areasettings[1].cluster = 4;
    w.areasettings[0].cluster = 7;
    AAS_RemoveClusterAreas(&mut w);
    assert_eq!(w.areasettings[1].cluster, 0);
    assert_eq!(w.areasettings[0].cluster, 7);
}

#[test]
fn test_portals_drops_one_sided_portal() {
    let mut w = row_world();
    w.portals = vec![
        aas_portal_s { areanum: 0, frontcluster: 0, backcluster: 0, clusterareanum0: 0, clusterareanum1: 0 },
        aas_portal_s { areanum: 2, frontcluster: 1, backcluster: 0, clusterareanum0: 0, clusterareanum1: 0 },
    ];
    assert!(!AAS_TestPortals(&mut w));
    assert_eq!(w.areasettings[2].contents & AREACONTENTS_CLUSTERPORTAL, 0);
    w.portals[1].backcluster = 2;
    let before = w.areasettings.clone();
    assert!(AAS_TestPortals(&mut w));
    assert_eq!(w.areasettings, before);
}

#[test]
fn connected_areas_follow_faces() {
    let w = row_world();
    assert!(AAS_ConnectedAreas(&w, &vec![1, 2, 3]));
    assert!(AAS_ConnectedAreas(&w, &vec![3, 2]));
    assert!(!AAS_ConnectedAreas(&w, &vec![1, 3]));
    assert!(!AAS_ConnectedAreas(&w, &vec![]));
}

#[test]
fn no_possible_portals_without_ground() {
    let mut w = row_world();
    let before = w.areasettings.clone();
    assert_eq!(AAS_FindPossiblePortals(&mut w), (0, false));
    assert_eq!(w.areasettings, before);
}

#[test]
fn update_portal_with_its_cluster_changes_nothing() {
    let mut w = row_world();
    assert_eq!(AAS_InitClustering(&mut w, false, false, true, &mut false), Ok(true));
    let portals = w.portals.clone();
    let settings = w.areasettings.clone();
    let clusters = w.clusters.clone();
    let index = w.portalindex.clone();
    for _ in 0..2 {
        assert_eq!(AAS_UpdatePortal(&mut w, 2, 1), Ok(true));
        assert_eq!(AAS_UpdatePortal(&mut w, 2, 2), Ok(true));
        assert_eq!(w.portals, portals);
        assert_eq!(w.areasettings, settings);
        assert_eq!(w.clusters, clusters);
        assert_eq!(w.portalindex, index);
    }
}

#[test]
fn update_portal_of_a_plain_area_twice() {
    let mut w = row_world();
    assert_eq!(AAS_InitClustering(&mut w, false, false, true, &mut false), Ok(true));
    // a portal record for area 3, which carries no cluster portal flag
    w.portals.push(aas_portal_s { areanum: 3, frontcluster: 0, backcluster: 0, clusterareanum0: 0, clusterareanum1: 0 });
    w.areasettings[3].cluster = 0;
    assert_eq!(AAS_UpdatePortal(&mut w, 3, 2), Ok(true));
    assert_eq!(w.portals[2].frontcluster, 2);
    assert_eq!(w.areasettings[3].cluster, -2);
    let portals = w.portals.clone();
    let settings = w.areasettings.clone();
    let clusters = w.clusters.clone();
    let index = w.portalindex.clone();
    assert_eq!(AAS_UpdatePortal(&mut w, 3, 2), Ok(true));
    assert_eq!(w.portals, portals);
    assert_eq!(w.areasettings, settings);
    assert_eq!(w.clusters, clusters);
    assert_eq!(w.portalindex, index);
}

/// Area 1 (grounded, two presence types) with a face to each of `n` areas
/// of one presence type.
fn wide_world(n: i32) -> aas_s {
    let mut w = aas_s::new();
    w.faces = vec![face(0, 0)];
    w.faceindex = Vec::new();
    w.areas = vec![area(0, 0, 0), area(1, n, 0)];
    let st = |flags: i32, presencetype: i32| aas_areasettings_s {
        contents: 0, areaflags: flags, presencetype, cluster: 0, clusterareanum: 0,
        numreachableareas: 0, firstreachablearea: 0,
    };
    w.areasettings = vec![st(0, 1), st(lib::aasfile::AREA_GROUNDED, 3)];
    for f in 1..=n {
        w.faces.push(face(1, f + 1));
        w.faceindex.push(f);
    }
    for f in 1..=n {
        w.areas.push(area(f + 1, 1, n + f - 1));
        w.faceindex.push(-f);
        w.areasettings.push(st(0, 1));
    }
    w.loaded = true;
    w
}

#[test]
fn too_large_group_is_cut_and_checked() {
    let mut w = wide_world(1100);
    let before = w.areasettings.clone();
    // the group holds 1101 areas; its first 1024 are checked and make no
    // portal, as all their outer faces lie on one plane
    assert_eq!(AAS_CheckAreaForPossiblePortals(&mut w, 1), (0, true));
    assert_eq!(w.areasettings, before);
    assert_eq!(AAS_FindPossiblePortals(&mut w), (0, true));
    let mut cut = false;
    let _ = AAS_InitClustering(&mut w, false, false, true, &mut cut);
    assert!(cut);
}

#[test]
fn group_that_fits_is_not_cut() {
    let mut w = wide_world(10);
    assert_eq!(AAS_CheckAreaForPossiblePortals(&mut w, 1), (0, false));
}
