use lib::aas_file::{aas_file_error_code, AAS_DData, AAS_LoadAASFile, AAS_WriteAASFile, AasFileError};
use lib::aasfile::{
    aas_area_s, aas_areasettings_s, aas_edge_s, aas_face_s, aas_reachability_s, Vec3Bits,
};
use lib::aasworld::{aas_s, AAS_DumpAASData, AAS_Loaded};

fn v(x: u32) -> Vec3Bits {
    Vec3Bits { x, y: x + 1, z: x + 2 }
}

fn small_world() -> aas_s {
    let mut w = aas_s::new();
    w.bspchecksum = 1234;
    w.vertexes = vec![v(0), v(10), v(20)];
    w.edges = vec![aas_edge_s { v0: 0, v1: 0 }, aas_edge_s { v0: 1, v1: 2 }];
    w.edgeindex = vec![1, -1];
    w.faces = vec![
        aas_face_s { planenum: 0, faceflags: 0, numedges: 0, firstedge: 0, frontarea: 0, backarea: 0 },
        aas_face_s { planenum: 3, faceflags: 2, numedges: 2, firstedge: 0, frontarea: 1, backarea: 2 },
    ];
    w.faceindex = vec![1, -1];
    w.areas = vec![
        aas_area_s { areanum: 0, numfaces: 0, firstface: 0, mins: v(0), maxs: v(0), center: v(0) },
        aas_area_s { areanum: 1, numfaces: 1, firstface: 0, mins: v(1), maxs: v(2), center: v(3) },
        aas_area_s { areanum: 2, numfaces: 1, firstface: 1, mins: v(4), maxs: v(5), center: v(6) },
    ];
    let s = aas_areasettings_s {
        contents: 0, areaflags: 1, presencetype: 2, cluster: 0, clusterareanum: 0,
        numreachableareas: 0, firstreachablearea: 0,
    };
    w.areasettings = vec![s, s, s];
    w.reachability = vec![aas_reachability_s {
        areanum: 2, facenum: 1, edgenum: -1, start: v(7), end: v(8), traveltype: 2, traveltime: 300,
    }];
    w.loaded = true;
    w
}

#[test]
fn ddata_scrambles_with_index_key() {
    let mut d = vec![0u8, 0, 0, 0, 0];
    AAS_DData(&mut d, 1, 4);
    assert_eq!(d, vec![0, 0, 119, 238, 101]);
}

#[test]
fn ddata_twice_is_identity() {
    let orig: Vec<u8> = (0..40u8).collect();
    let mut d = orig.clone();
    AAS_DData(&mut d, 3, 30);
    assert_ne!(d, orig);
    AAS_DData(&mut d, 3, 30);
    assert_eq!(d, orig);
}

#[test]
fn write_then_load_gives_same_data() {
    let w = small_world();
    let bytes = AAS_WriteAASFile(&w);
    let mut w2 = aas_s::new();
    assert_eq!(AAS_LoadAASFile(&mut w2, &bytes, 1234), Ok(()));
    assert!(AAS_Loaded(&w2));
    assert_eq!(w2.vertexes, w.vertexes);
    assert_eq!(w2.edges, w.edges);
    assert_eq!(w2.edgeindex, w.edgeindex);
    assert_eq!(w2.faces, w.faces);
    assert_eq!(w2.faceindex, w.faceindex);
    assert_eq!(w2.areas, w.areas);
    assert_eq!(w2.areasettings, w.areasettings);
    assert_eq!(w2.reachability, w.reachability);
    assert_eq!(w2.bspchecksum, 1234);
    assert!(!w2.initialized);
}

#[test]
fn load_rejects_wrong_id() {
    let w = small_world();
    let mut bytes = AAS_WriteAASFile(&w);
    bytes[0] ^= 0xff;
    let mut w2 = small_world();
    assert_eq!(AAS_LoadAASFile(&mut w2, &bytes, 1234), Err(AasFileError::WrongId));
    assert!(!w2.loaded);
    assert!(w2.areas.is_empty());
}

#[test]
fn load_rejects_wrong_version() {
    let w = small_world();
    let mut bytes = AAS_WriteAASFile(&w);
    bytes[4] = 9;
    let mut w2 = aas_s::new();
    assert_eq!(AAS_LoadAASFile(&mut w2, &bytes, 1234), Err(AasFileError::WrongVersion));
}

#[test]
fn load_rejects_other_checksum() {
    let w = small_world();
    let bytes = AAS_WriteAASFile(&w);
    let mut w2 = aas_s::new();
    assert_eq!(AAS_LoadAASFile(&mut w2, &bytes, 99), Err(AasFileError::OutOfDate));
    assert_eq!(aas_file_error_code(AasFileError::OutOfDate), aas_file_error_code(AasFileError::WrongVersion));
}

#[test]
fn load_rejects_short_file() {
    let mut w2 = aas_s::new();
    assert_eq!(AAS_LoadAASFile(&mut w2, &[], 0), Err(AasFileError::WrongId));
}

#[test]
fn dump_empties_world() {
    let mut w = small_world();
    AAS_DumpAASData(&mut w);
    assert!(!w.loaded);
    assert!(w.faces.is_empty() && w.areas.is_empty() && w.reachability.is_empty());
    assert_eq!(w.bspchecksum, 1234);
}
