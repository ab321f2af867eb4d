use lib::aasfile::{aas_area_s, aas_areasettings_s, aas_face_s, Vec3Bits, AREACONTENTS_CLUSTERPORTAL};
use lib::aasworld::aas_s;
use lib::routealt::{
    AAS_AltRouteClusters, AAS_InitAlternativeRouting, AAS_MarkMidRangeAreas,
    AAS_ShutdownAlternativeRouting, AltRouting, ALTROUTEGOAL_ALL, ALTROUTEGOAL_CLUSTERPORTALS,
};

fn z() -> Vec3Bits {
    Vec3Bits { x: 0, y: 0, z: 0 }
}

fn row_world() -> aas_s {
    let face = |f: i32, b: i32| aas_face_s { planenum: 0, faceflags: 0, numedges: 0, firstedge: 0, frontarea: f, backarea: b };
    let area = |n: i32, nf: i32, ff: i32| aas_area_s { areanum: n, numfaces: nf, firstface: ff, mins: z(), maxs: z(), center: z() };
    let st = |c: i32| aas_areasettings_s {
        contents: c, areaflags: 0, presencetype: 2, cluster: 0, clusterareanum: 0, numreachableareas: 1, firstreachablearea: 0,
    };
    let mut w = aas_s::new();
    w.faces = vec![face(0, 0), face(1, 2), face(2, 3)];
    w.faceindex = vec![1, -1, 2, -2];
    w.areas = vec![area(0, 0, 0), area(1, 1, 0), area(2, 2, 1), area(3, 1, 3)];
    w.areasettings = vec![st(0), st(0), st(AREACONTENTS_CLUSTERPORTAL), st(0)];
    w.loaded = true;
    w
}

fn empty_alt() -> AltRouting {
    AltRouting { midrangeareas: Vec::new(), clusterareas: Vec::new() }
}

#[test]
fn init_and_shutdown_alternative_routing() {
    let w = row_world();
    let mut alt = empty_alt();
    AAS_InitAlternativeRouting(&mut alt, &w);
    assert_eq!(alt.midrangeareas.len(), 4);
    assert!(alt.midrangeareas.iter().all(|m| !m.valid));
    assert!(alt.clusterareas.is_empty());
    AAS_ShutdownAlternativeRouting(&mut alt);
    assert!(alt.midrangeareas.is_empty());
    assert!(alt.clusterareas.is_empty());
}

#[test]
fn set_up_keeps_the_cluster_areas() {
    let w = row_world();
    let mut alt = empty_alt();
    alt.clusterareas = vec![2, 3];
    AAS_InitAlternativeRouting(&mut alt, &w);
    assert_eq!(alt.clusterareas, vec![2, 3]);
    assert_eq!(alt.midrangeareas.len(), 4);
}

#[test]
fn mid_range_areas_are_within_limits() {
    let w = row_world();
    let mut alt = empty_alt();
    AAS_InitAlternativeRouting(&mut alt, &w);
    let starttimes = vec![0, 100, 200, 300];
    let goaltimes = vec![0, 300, 200, 0];
    AAS_MarkMidRangeAreas(&mut alt, &w, ALTROUTEGOAL_ALL, &starttimes, &goaltimes, 250, 400);
    let valid: Vec<bool> = alt.midrangeareas.iter().map(|m| m.valid).collect();
    assert_eq!(valid, vec![false, true, true, false]);
    assert_eq!(alt.midrangeareas[2].starttime, 200);
    assert_eq!(alt.midrangeareas[1].goaltime, 300);
    AAS_MarkMidRangeAreas(&mut alt, &w, ALTROUTEGOAL_CLUSTERPORTALS, &starttimes, &goaltimes, 250, 400);
    let valid: Vec<bool> = alt.midrangeareas.iter().map(|m| m.valid).collect();
    assert_eq!(valid, vec![false, false, true, false]);
}

#[test]
fn connected_mid_range_areas_form_one_cluster() {
    let w = row_world();
    let mut alt = empty_alt();
    AAS_InitAlternativeRouting(&mut alt, &w);
    let t = vec![0, 10, 10, 10];
    AAS_MarkMidRangeAreas(&mut alt, &w, ALTROUTEGOAL_ALL, &t, &t, 100, 100);
    let cs = AAS_AltRouteClusters(&mut alt, &w, 8);
    assert_eq!(cs, vec![vec![1, 2, 3]]);
    assert!(alt.midrangeareas.iter().all(|m| !m.valid));
}

#[test]
fn separated_mid_range_areas_form_two_clusters() {
    let w = row_world();
    let mut alt = empty_alt();
    AAS_InitAlternativeRouting(&mut alt, &w);
    let t = vec![0, 10, 0, 10];
    AAS_MarkMidRangeAreas(&mut alt, &w, ALTROUTEGOAL_ALL, &t, &t, 100, 100);
    let cs = AAS_AltRouteClusters(&mut alt, &w, 8);
    assert_eq!(cs, vec![vec![1], vec![3]]);
}

#[test]
fn cluster_count_is_limited() {
    let w = row_world();
    let mut alt = empty_alt();
    AAS_InitAlternativeRouting(&mut alt, &w);
    let t = vec![0, 10, 0, 10];
    AAS_MarkMidRangeAreas(&mut alt, &w, ALTROUTEGOAL_ALL, &t, &t, 100, 100);
    let cs = AAS_AltRouteClusters(&mut alt, &w, 1);
    assert_eq!(cs, vec![vec![1]]);
    assert!(alt.midrangeareas[3].valid);
}

#[test]
fn no_clusters_below_a_limit_of_one() {
    let w = row_world();
    for limit in [0, -3] {
        let mut alt = empty_alt();
        AAS_InitAlternativeRouting(&mut alt, &w);
        let t = vec![0, 10, 0, 10];
        AAS_MarkMidRangeAreas(&mut alt, &w, ALTROUTEGOAL_ALL, &t, &t, 100, 100);
        let cs = AAS_AltRouteClusters(&mut alt, &w, limit);
        assert!(cs.is_empty());
        assert!(alt.midrangeareas[1].valid);
        assert!(alt.midrangeareas[3].valid);
    }
}

#[test]
fn clusters_share_no_area() {
    let w = row_world();
    let mut alt = empty_alt();
    AAS_InitAlternativeRouting(&mut alt, &w);
    let t = vec![0, 10, 0, 10];
    AAS_MarkMidRangeAreas(&mut alt, &w, ALTROUTEGOAL_ALL, &t, &t, 100, 100);
    let cs = AAS_AltRouteClusters(&mut alt, &w, 8);
    for (k1, c1) in cs.iter().enumerate() {
        for c2 in cs.iter().skip(k1 + 1) {
            assert!(c1.iter().all(|a| !c2.contains(a)));
        }
    }
}

#[test]
fn cluster_areas_hold_the_last_cluster() {
    let w = row_world();
    let mut alt = empty_alt();
    AAS_InitAlternativeRouting(&mut alt, &w);
    let t = vec![0, 10, 0, 10];
    AAS_MarkMidRangeAreas(&mut alt, &w, ALTROUTEGOAL_ALL, &t, &t, 100, 100);
    let cs = AAS_AltRouteClusters(&mut alt, &w, 8);
    assert_eq!(cs, vec![vec![1], vec![3]]);
    assert_eq!(alt.clusterareas, vec![3]);
    let mut alt2 = empty_alt();
    AAS_InitAlternativeRouting(&mut alt2, &w);
    alt2.clusterareas = vec![2];
    let cs2 = AAS_AltRouteClusters(&mut alt2, &w, 8);
    assert!(cs2.is_empty());
    assert_eq!(alt2.clusterareas, vec![2]);
}
