use lib::aasfile::{
    aas_area_s, aas_edge_s, aas_face_s, aas_reachability_s, Vec3Bits, TRAVEL_JUMPPAD,
};
use lib::aasworld::aas_s;
use lib::optimize::{AAS_Optimize, AAS_OptimizeReady};

fn v(x: u32) -> Vec3Bits {
    Vec3Bits { x, y: 2 * x, z: 3 * x }
}

fn ladder_world() -> aas_s {
    let mut w = aas_s::new();
    w.vertexes = vec![v(100), v(1), v(2), v(3)];
    w.edges = vec![
        aas_edge_s { v0: 0, v1: 0 },
        aas_edge_s { v0: 1, v1: 2 },
        aas_edge_s { v0: 2, v1: 3 },
        aas_edge_s { v0: 3, v1: 1 },
    ];
    w.edgeindex = vec![1, 2, 3, -1];
    w.faces = vec![
        aas_face_s { planenum: 0, faceflags: 0, numedges: 0, firstedge: 0, frontarea: 0, backarea: 0 },
        aas_face_s { planenum: 7, faceflags: 2, numedges: 3, firstedge: 0, frontarea: 1, backarea: 2 },
        aas_face_s { planenum: 8, faceflags: 1, numedges: 1, firstedge: 3, frontarea: 2, backarea: 0 },
    ];
    w.faceindex = vec![1, -1, 2];
    w.areas = vec![
        aas_area_s { areanum: 0, numfaces: 0, firstface: 0, mins: v(9), maxs: v(9), center: v(9) },
        aas_area_s { areanum: 1, numfaces: 1, firstface: 0, mins: v(4), maxs: v(5), center: v(6) },
        aas_area_s { areanum: 2, numfaces: 2, firstface: 1, mins: v(7), maxs: v(8), center: v(9) },
    ];
    w.reachability = vec![
        aas_reachability_s { areanum: 2, facenum: 1, edgenum: -3, start: v(1), end: v(2), traveltype: 2, traveltime: 10 },
        aas_reachability_s { areanum: 1, facenum: 55, edgenum: 66, start: v(1), end: v(2), traveltype: TRAVEL_JUMPPAD, traveltime: 20 },
    ];
    w.loaded = true;
    w
}

#[test]
fn optimize_keeps_only_ladder_faces() {
    let mut w = ladder_world();
    AAS_Optimize(&mut w);
    assert_eq!(w.faces.len(), 2);
    assert_eq!(w.faces[1], aas_face_s { planenum: 7, faceflags: 2, numedges: 3, firstedge: 0, frontarea: 1, backarea: 2 });
    assert_eq!(w.faceindex, vec![1, -1]);
    assert_eq!(w.areas[1].numfaces, 1);
    assert_eq!(w.areas[1].firstface, 0);
    assert_eq!(w.areas[2].numfaces, 1);
    assert_eq!(w.areas[2].firstface, 1);
    assert_eq!(w.areas[2].center, v(9));
    assert_eq!(w.areas[0].numfaces, 0);
    assert_eq!(w.areas[0].center, v(0) );
}

#[test]
fn optimize_renumbers_edges_and_vertexes() {
    let mut w = ladder_world();
    AAS_Optimize(&mut w);
    assert_eq!(w.edgeindex, vec![1, 2, 3]);
    assert_eq!(w.edges.len(), 4);
    // every kept edge joins copies of the original vertexes
    let orig = ladder_world();
    for e in 1..4usize {
        let oe = orig.edges[e];
        let ne = w.edges[e];
        assert_eq!(w.vertexes[ne.v0 as usize], orig.vertexes[oe.v0 as usize]);
        assert_eq!(w.vertexes[ne.v1 as usize], orig.vertexes[oe.v1 as usize]);
    }
    // the vertex that got number zero is copied again on its next use
    assert_eq!(w.vertexes, vec![v(1), v(2), v(3), v(1)]);
}

#[test]
fn optimize_renumbers_reachabilities() {
    let mut w = ladder_world();
    AAS_Optimize(&mut w);
    assert_eq!(w.reachability[0].facenum, 1);
    assert_eq!(w.reachability[0].edgenum, -3);
    assert_eq!(w.reachability[1].facenum, 55);
    assert_eq!(w.reachability[1].edgenum, 66);
}

#[test]
fn optimize_without_ladders_drops_everything() {
    let mut w = ladder_world();
    w.faces[1].faceflags = 0;
    AAS_Optimize(&mut w);
    assert_eq!(w.faces.len(), 1);
    assert_eq!(w.edges.len(), 1);
    assert!(w.vertexes.is_empty());
    assert!(w.faceindex.is_empty());
    assert_eq!(w.reachability[0].facenum, 0);
    assert_eq!(w.reachability[0].edgenum, 0);
}

#[test]
fn optimize_readiness_check() {
    assert!(AAS_OptimizeReady(&ladder_world()));
    let mut bad = ladder_world();
    bad.edges[1].v0 = 99;
    assert!(!AAS_OptimizeReady(&bad));
    let mut bad = ladder_world();
    bad.faceindex[0] = 50;
    assert!(!AAS_OptimizeReady(&bad));
    let mut bad = ladder_world();
    bad.areas[1].numfaces = -1;
    assert!(!AAS_OptimizeReady(&bad));
    assert!(AAS_OptimizeReady(&aas_s::new()));
}
