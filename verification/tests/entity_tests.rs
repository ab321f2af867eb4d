use lib::chaincheck::AAS_EntityChainsReady;
use lib::aasfile::{aas_node_s, Vec3Bits};
use lib::aasworld::aas_s;
use lib::entity::{
    aas_entity_s, aas_entityinfo_s, AAS_EntityInfo, AAS_EntityModelNum, AAS_EntityModelindex,
    AAS_EntityOrigin, AAS_EntitySize, AAS_EntityType, AAS_InvalidateEntities, AAS_NextEntity,
    AAS_OriginOfMoverWithModelNum, AAS_RelinkEntity, AAS_ResetEntityLinks, AAS_UnlinkInvalidEntities,
    AAS_UpdateEntity, bot_entitystate_s, EntityError, EntityUpdate, BLERR_NOAASFILE, BLERR_NOERROR,
    ET_ITEM, ET_MOVER, SOLID_BBOX, SOLID_BSP,
};
use lib::links::{
    AAS_AASLinkEntity, AAS_InitAASLinkHeap, AAS_InitAASLinkedEntities, AasLinks, LinkEnd, NO_LINK,
};

fn v(x: u32, y: u32, z: u32) -> Vec3Bits {
    Vec3Bits { x, y, z }
}

fn info(type_: i32, modelindex: i32, valid: i32, origin: Vec3Bits) -> aas_entityinfo_s {
    aas_entityinfo_s {
        update_time: 0, type_, flags: 0, ltime: 0,
        lastvisorigin: v(0, 0, 0), old_origin: v(0, 0, 0),
        solid: 0, groundent: 0, modelindex, modelindex2: 0,
        frame: 0, event: 0, eventParm: 0, powerups: 0, weapon: 0,
        legsAnim: 0, torsoAnim: 0, number: 9, valid,
        origin, mins: v(1, 1, 1), maxs: v(2, 2, 2), angles: v(0, 0, 0),
    }
}

fn ents() -> Vec<aas_entity_s> {
    vec![
        aas_entity_s { i: info(ET_ITEM, 3, 0, v(10, 0, 0)), areas: NO_LINK, leaves: NO_LINK },
        aas_entity_s { i: info(ET_MOVER, 5, 1, v(20, 0, 0)), areas: NO_LINK, leaves: NO_LINK },
        aas_entity_s { i: info(ET_MOVER, 7, 0, v(30, 0, 0)), areas: NO_LINK, leaves: NO_LINK },
        aas_entity_s { i: info(ET_MOVER, 7, 1, v(40, 0, 0)), areas: NO_LINK, leaves: NO_LINK },
    ]
}

fn world(initialized: bool, loaded: bool) -> aas_s {
    let mut w = aas_s::new();
    w.initialized = initialized;
    w.loaded = loaded;
    w
}

#[test]
fn entity_info_is_copied_or_zeroed() {
    let e = ents();
    let mut out = info(1, 1, 1, v(9, 9, 9));
    assert_eq!(AAS_EntityInfo(&world(true, true), &e, 1, &mut out), Ok(()));
    assert_eq!(out, e[1].i);
    assert_eq!(AAS_EntityInfo(&world(true, true), &e, 4, &mut out), Err(EntityError::OutOfRange));
    assert_eq!(out.origin, v(0, 0, 0));
    assert_eq!(out.number, 0);
    let mut out = info(1, 1, 1, v(9, 9, 9));
    assert_eq!(AAS_EntityInfo(&world(false, true), &e, 1, &mut out), Err(EntityError::NotInitialized));
    assert_eq!(out.valid, 0);
}

#[test]
fn entity_fields_and_range_errors() {
    let e = ents();
    let w = world(true, true);
    let mut o = v(5, 5, 5);
    assert_eq!(AAS_EntityOrigin(&e, 2, &mut o), Ok(()));
    assert_eq!(o, v(30, 0, 0));
    assert_eq!(AAS_EntityOrigin(&e, -1, &mut o), Err(EntityError::OutOfRange));
    assert_eq!(o, v(0, 0, 0));
    assert_eq!(AAS_EntityModelindex(&e, 1), Ok(5));
    assert_eq!(AAS_EntityModelindex(&e, 4), Err(EntityError::OutOfRange));
    assert_eq!(AAS_EntityType(&w, &e, 0), Ok(ET_ITEM));
    assert_eq!(AAS_EntityType(&world(false, true), &e, 0), Ok(0));
    assert_eq!(AAS_EntityType(&w, &e, 7), Err(EntityError::OutOfRange));
    assert_eq!(AAS_EntityModelNum(&w, &e, 3), Ok(7));
    assert_eq!(AAS_EntityModelNum(&world(false, true), &e, 3), Ok(0));
    let mut mins = v(0, 0, 0);
    let mut maxs = v(0, 0, 0);
    assert_eq!(AAS_EntitySize(&w, &e, 0, &mut mins, &mut maxs), Ok(()));
    assert_eq!((mins, maxs), (v(1, 1, 1), v(2, 2, 2)));
    let mut mins = v(7, 7, 7);
    assert_eq!(AAS_EntitySize(&world(false, true), &e, 0, &mut mins, &mut maxs), Ok(()));
    assert_eq!(mins, v(7, 7, 7));
}

#[test]
fn mover_origin_by_model() {
    let e = ents();
    let mut o = v(1, 1, 1);
    assert!(AAS_OriginOfMoverWithModelNum(&e, 7, &mut o));
    assert_eq!(o, v(30, 0, 0));
    let mut o = v(1, 1, 1);
    assert!(!AAS_OriginOfMoverWithModelNum(&e, 3, &mut o));
    assert_eq!(o, v(1, 1, 1));
}

#[test]
fn next_entity_skips_invalid() {
    let e = ents();
    let w = world(true, true);
    assert_eq!(AAS_NextEntity(&w, &e, -5), 1);
    assert_eq!(AAS_NextEntity(&w, &e, 0), 1);
    assert_eq!(AAS_NextEntity(&w, &e, 1), 3);
    assert_eq!(AAS_NextEntity(&w, &e, 3), 0);
    assert_eq!(AAS_NextEntity(&world(true, false), &e, 0), 0);
}

#[test]
fn invalidate_and_reset_links() {
    let mut e = ents();
    e[1].areas = 4;
    e[1].leaves = 6;
    AAS_InvalidateEntities(&mut e);
    for (k, ent) in e.iter().enumerate() {
        assert_eq!(ent.i.valid, 0);
        assert_eq!(ent.i.number, k as i32);
    }
    assert_eq!(e[1].areas, 4);
    assert_eq!(e[2].i.origin, v(30, 0, 0));
    AAS_ResetEntityLinks(&mut e);
    assert_eq!(e[1].areas, NO_LINK);
    assert_eq!(e[1].leaves, NO_LINK);
    assert_eq!(e[1].i.modelindex, 5);
}

#[test]
fn unlink_invalid_entities_frees_their_links() {
    let mut w = aas_s::new();
    w.nodes = vec![
        aas_node_s { planenum: 0, child0: 0, child1: 0 },
        aas_node_s { planenum: 0, child0: -1, child1: 2 },
        aas_node_s { planenum: 0, child0: -2, child1: -3 },
    ];
    w.loaded = true;
    let mut h = AasLinks::new();
    AAS_InitAASLinkHeap(&mut h, 8);
    AAS_InitAASLinkedEntities(&mut h, true, 4);
    let mut e = ents();
    let (a0, _) = AAS_AASLinkEntity(&mut h, &w, &vec![0, 3, 3], 0);
    let (a1, _) = AAS_AASLinkEntity(&mut h, &w, &vec![0, 2, 1], 1);
    e[0].areas = a0;
    e[1].areas = a1;
    assert_eq!(h.numaaslinks, 4);
    AAS_UnlinkInvalidEntities(&mut h, &mut e);
    assert_eq!(h.numaaslinks, 7);
    assert_eq!(e[0].areas, NO_LINK);
    assert_eq!(e[1].areas, a1);
    assert_eq!(h.linkheap[a1 as usize].entnum, 1);
    assert_eq!(h.arealinkedentities[2], a1);
    assert_eq!(h.arealinkedentities[1], NO_LINK);
    assert_eq!(h.arealinkedentities[3], NO_LINK);
}

fn tree_world() -> aas_s {
    let mut w = aas_s::new();
    w.nodes = vec![
        aas_node_s { planenum: 0, child0: 0, child1: 0 },
        aas_node_s { planenum: 0, child0: -1, child1: 2 },
        aas_node_s { planenum: 0, child0: -2, child1: -3 },
    ];
    w.loaded = true;
    w
}

fn link_heap() -> AasLinks {
    let mut h = AasLinks::new();
    AAS_InitAASLinkHeap(&mut h, 8);
    AAS_InitAASLinkedEntities(&mut h, true, 4);
    h
}

fn state(solid: i32, origin: Vec3Bits) -> bot_entitystate_s {
    bot_entitystate_s {
        type_: ET_ITEM, flags: 4, old_origin: v(8, 8, 8), solid, groundent: 0, modelindex: 11,
        modelindex2: 0, frame: 2, event: 0, eventParm: 0, powerups: 0, weapon: 3,
        legsAnim: 0, torsoAnim: 0, angles: v(0, 0, 0), origin, mins: v(1, 1, 1), maxs: v(2, 2, 2),
    }
}

#[test]
fn update_entity_takes_the_state() {
    let mut w = tree_world();
    w.numframes = 5;
    let mut h = link_heap();
    let mut e = ents();
    e[2].i.ltime = 100;
    // a box entity that moved
    let r = AAS_UpdateEntity(&w, &mut h, &mut e, 2, &Some(state(SOLID_BBOX, v(31, 0, 0))), 150);
    assert_eq!(r, EntityUpdate { result: BLERR_NOERROR, model_bounds: false, relink: true });
    assert_eq!(e[2].i.update_time, 50);
    assert_eq!(e[2].i.ltime, 150);
    assert_eq!(e[2].i.lastvisorigin, v(30, 0, 0));
    assert_eq!(e[2].i.origin, v(31, 0, 0));
    assert_eq!(e[2].i.number, 2);
    assert_eq!(e[2].i.valid, 1);
    assert_eq!(e[2].i.modelindex, 11);
    // the same state again: nothing to relink
    let r = AAS_UpdateEntity(&w, &mut h, &mut e, 2, &Some(state(SOLID_BBOX, v(31, 0, 0))), 160);
    assert!(!r.relink);
    // -0 and +0 compare equal
    let r = AAS_UpdateEntity(&w, &mut h, &mut e, 2, &Some(state(SOLID_BBOX, v(31, 0x8000_0000, 0))), 170);
    assert!(!r.relink);
    assert_eq!(e[2].i.origin, v(31, 0, 0));
    // a BSP model asks for its bounds; the world entity is never relinked
    let r = AAS_UpdateEntity(&w, &mut h, &mut e, 0, &Some(state(SOLID_BSP, v(1, 0, 0))), 180);
    assert_eq!(r, EntityUpdate { result: BLERR_NOERROR, model_bounds: true, relink: false });
}

#[test]
fn update_entity_first_frame_and_nan() {
    let mut w = tree_world();
    w.numframes = 1;
    let mut h = link_heap();
    let mut e = ents();
    let r = AAS_UpdateEntity(&w, &mut h, &mut e, 1, &Some(state(0, v(20, 0, 0))), 0);
    assert!(r.relink);
    w.numframes = 2;
    // a NaN coordinate never compares equal
    e[1].i.origin = v(0x7fc0_0000, 0, 0);
    let r = AAS_UpdateEntity(&w, &mut h, &mut e, 1, &Some(state(0, v(0x7fc0_0000, 0, 0))), 0);
    assert!(r.relink);
}

#[test]
fn update_entity_without_state_unlinks() {
    let w = tree_world();
    let mut h = link_heap();
    let mut e = ents();
    let (head, _) = AAS_AASLinkEntity(&mut h, &w, &vec![0, 3, 3], 1);
    e[1].areas = head;
    assert_eq!(h.numaaslinks, 5);
    let r = AAS_UpdateEntity(&w, &mut h, &mut e, 1, &None, 0);
    assert_eq!(r.result, BLERR_NOERROR);
    assert_eq!(e[1].areas, NO_LINK);
    assert_eq!(h.numaaslinks, 8);
    let mut w2 = tree_world();
    w2.loaded = false;
    let r = AAS_UpdateEntity(&w2, &mut h, &mut e, 1, &None, 0);
    assert_eq!(r.result, BLERR_NOAASFILE);
}

#[test]
fn relink_entity_replaces_its_links() {
    let w = tree_world();
    let mut h = link_heap();
    let mut e = ents();
    let (head, _) = AAS_AASLinkEntity(&mut h, &w, &vec![0, 3, 3], 1);
    e[1].areas = head;
    e[1].leaves = 3;
    assert_eq!(AAS_RelinkEntity(&w, &mut h, &mut e, 1, &vec![0, 2, 1]), LinkEnd::Linked);
    assert_eq!(h.numaaslinks, 7);
    assert_eq!(h.linkheap[e[1].areas as usize].areanum, 2);
    assert_eq!(h.linkheap[e[1].areas as usize].next_area, NO_LINK);
    assert_eq!(e[1].leaves, NO_LINK);
}

#[test]
fn alloc_entities_cleared_and_numbered() {
    let e = lib::entity::AAS_AllocEntities(3);
    assert_eq!(e.len(), 3);
    for (k, ent) in e.iter().enumerate() {
        assert_eq!(ent.i.number, k as i32);
        assert_eq!(ent.i.valid, 0);
        assert_eq!(ent.i.origin, v(0, 0, 0));
        assert_eq!(ent.areas, NO_LINK);
        assert_eq!(ent.leaves, NO_LINK);
    }
    assert!(lib::entity::AAS_AllocEntities(-4).is_empty());
}

#[test]
fn invalidated_entities_have_no_next() {
    let mut e = ents();
    AAS_InvalidateEntities(&mut e);
    let w = world(true, true);
    assert_eq!(AAS_NextEntity(&w, &e, -1), 0);
    assert_eq!(AAS_NextEntity(&w, &e, 1), 0);
}

#[test]
fn entity_chains_are_checked() {
    let mut w = aas_s::new();
    w.nodes = vec![
        aas_node_s { planenum: 0, child0: 0, child1: 0 },
        aas_node_s { planenum: 0, child0: -1, child1: 2 },
        aas_node_s { planenum: 0, child0: -2, child1: -3 },
    ];
    w.loaded = true;
    let mut h = AasLinks::new();
    AAS_InitAASLinkHeap(&mut h, 8);
    AAS_InitAASLinkedEntities(&mut h, true, 4);
    let mut e = ents();
    assert!(AAS_EntityChainsReady(&h, &e));
    let (a0, _) = AAS_AASLinkEntity(&mut h, &w, &vec![0, 3, 3], 0);
    let (a1, _) = AAS_AASLinkEntity(&mut h, &w, &vec![0, 2, 1], 1);
    e[0].areas = a0;
    e[1].areas = a1;
    assert!(AAS_EntityChainsReady(&h, &e));
    // two entities sharing one chain of links
    e[2].areas = a1;
    assert!(!AAS_EntityChainsReady(&h, &e));
    // a head that is no link of the heap
    e[2].areas = 99;
    assert!(!AAS_EntityChainsReady(&h, &e));
    // a link that was handed back is in no area list
    e[2].areas = h.freelinks;
    assert!(!AAS_EntityChainsReady(&h, &e));
}
