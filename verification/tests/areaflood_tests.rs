use lib::aasfile::{
    aas_area_s, aas_areasettings_s, aas_face_s, aas_reachability_s, Vec3Bits, AREACONTENTS_VIEWPORTAL,
};
use lib::aasworld::aas_s;
use lib::areaflood::{AAS_FloodAreas, AAS_TravelTypeName};
use lib::cluster::AAS_GraphValid;

fn v() -> Vec3Bits {
    Vec3Bits { x: 0, y: 0, z: 0 }
}

fn area(firstface: i32, numfaces: i32) -> aas_area_s {
    aas_area_s { areanum: 0, numfaces, firstface, mins: v(), maxs: v(), center: v() }
}

fn settings(cluster: i32, firstreach: i32, numreach: i32) -> aas_areasettings_s {
    aas_areasettings_s {
        contents: 0, areaflags: 0, presencetype: 0, cluster, clusterareanum: 0,
        numreachableareas: numreach, firstreachablearea: firstreach,
    }
}

fn face(front: i32, back: i32) -> aas_face_s {
    aas_face_s { planenum: 0, faceflags: 0, numedges: 0, firstedge: 0, frontarea: front, backarea: back }
}

/// Areas 1 and 2 (cluster 1) share a face; areas 2 and 3 (cluster 2)
/// share a face; area 1 reaches area 3.
fn world() -> aas_s {
    let mut w = aas_s::new();
    w.areas = vec![area(0, 0), area(0, 1), area(1, 2), area(3, 2)];
    w.faces = vec![face(0, 0), face(1, 2), face(2, 3), face(3, 0)];
    w.faceindex = vec![1, -1, 2, -2, 3];
    w.areasettings = vec![settings(0, 0, 0), settings(1, 0, 1), settings(1, 1, 0), settings(2, 1, 0)];
    w.reachability = vec![aas_reachability_s {
        areanum: 3, facenum: 0, edgenum: 0, start: v(), end: v(), traveltype: 1, traveltime: 0,
    }];
    w
}

#[test]
fn flood_shows_the_cluster_and_the_start_again() {
    // the start area is not marked, so it is met again from area 2
    assert_eq!(AAS_FloodAreas(&world(), 1), vec![1, 2, 1]);
}

#[test]
fn flood_stops_at_other_clusters() {
    assert_eq!(AAS_FloodAreas(&world(), 3), vec![3]);
}

#[test]
fn flood_stops_at_view_portals() {
    let mut w = world();
    w.areasettings[2].contents = AREACONTENTS_VIEWPORTAL;
    assert_eq!(AAS_FloodAreas(&w, 1), vec![1]);
}

#[test]
fn graph_check() {
    let w = world();
    assert!(AAS_GraphValid(&w));
    let mut bad = world();
    bad.faces[2].backarea = 4;
    assert!(!AAS_GraphValid(&bad));
    let mut bad = world();
    bad.faceindex[3] = -4;
    assert!(!AAS_GraphValid(&bad));
    let mut bad = world();
    bad.areasettings[1].numreachableareas = 2;
    assert!(!AAS_GraphValid(&bad));
    let mut bad = world();
    bad.reachability[0].areanum = -1;
    assert!(!AAS_GraphValid(&bad));
    assert!(!AAS_GraphValid(&aas_s::new()));
}

#[test]
fn travel_type_names() {
    assert_eq!(AAS_TravelTypeName(2), "TRAVEL_WALK");
    assert_eq!(AAS_TravelTypeName(18 | 0x0100_0000), "TRAVEL_JUMPPAD");
    assert_eq!(AAS_TravelTypeName(15), "UNKNOWN TRAVEL TYPE");
    assert_eq!(AAS_TravelTypeName(0), "UNKNOWN TRAVEL TYPE");
}
