use lib::aasfile::{
    aas_area_s, aas_areasettings_s, aas_cluster_s, aas_plane_s, aas_reachability_s, Vec3Bits, AREA_GROUNDED,
};
use lib::aasworld::aas_s;
use lib::fileinfo::AAS_FileInfo;

fn v() -> Vec3Bits {
    Vec3Bits { x: 0, y: 0, z: 0 }
}

fn settings(flags: i32) -> aas_areasettings_s {
    aas_areasettings_s {
        contents: 0, areaflags: flags, presencetype: 0, cluster: 0, clusterareanum: 0,
        numreachableareas: 0, firstreachablearea: 0,
    }
}

#[test]
fn file_info_counts_and_sizes() {
    let mut w = aas_s::new();
    w.planes = vec![aas_plane_s { normal: v(), dist: 0, type_: 0 }; 3];
    w.areas = vec![aas_area_s { areanum: 0, numfaces: 0, firstface: 0, mins: v(), maxs: v(), center: v() }; 2];
    w.areasettings = vec![settings(AREA_GROUNDED), settings(0), settings(AREA_GROUNDED | 4)];
    w.reachability = vec![aas_reachability_s {
        areanum: 0, facenum: 0, edgenum: 0, start: v(), end: v(), traveltype: 0, traveltime: 0,
    }];
    w.clusters = vec![aas_cluster_s { numareas: 0, numreachabilityareas: 0, numportals: 0, firstportal: 0 }];
    let info = AAS_FileInfo(&w);
    assert_eq!(info.version, 5);
    assert_eq!(info.numplanes, 3);
    assert_eq!(info.numareas, 2);
    assert_eq!(info.numareasettings, 3);
    assert_eq!(info.numgrounded, 2);
    assert_eq!(info.planes_bytes, 60);
    assert_eq!(info.areas_bytes, 96);
    assert_eq!(info.areasettings_bytes, 84);
    assert_eq!(info.reachability_bytes, 44);
    assert_eq!(info.clusters_bytes, 16);
    assert_eq!(info.nodes_bytes, 0);
    assert_eq!(info.optimized_bytes, 60 + 96 + 84 + 44 + 16);
}
