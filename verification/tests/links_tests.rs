use lib::aasfile::aas_node_s;
use lib::aasworld::aas_s;
use lib::links::{
    AAS_AASLinkEntity, AAS_AllocAASLink, AAS_BBoxAreas, AAS_DeAllocAASLink, AAS_InitAASLinkHeap,
    AAS_InitAASLinkedEntities, AAS_UnlinkFromAreas, AasLinks, LinkEnd, NO_LINK,
};

fn tree_world() -> aas_s {
    let mut w = aas_s::new();
    w.nodes = vec![
        aas_node_s { planenum: 0, child0: 0, child1: 0 },
        aas_node_s { planenum: 0, child0: -1, child1: 2 },
        aas_node_s { planenum: 0, child0: -2, child1: -3 },
    ];
    w.loaded = true;
    w
}

fn links(size: i32) -> AasLinks {
    let mut h = AasLinks::new();
    AAS_InitAASLinkHeap(&mut h, size);
    AAS_InitAASLinkedEntities(&mut h, true, 4);
    h
}

fn entities_in(h: &AasLinks, area: usize) -> Vec<i32> {
    let mut out = Vec::new();
    let mut l = h.arealinkedentities[area];
    while l != NO_LINK {
        out.push(h.linkheap[l as usize].entnum);
        l = h.linkheap[l as usize].next_ent;
    }
    out
}

fn chain_areas(h: &AasLinks, head: i32) -> Vec<i32> {
    let mut out = Vec::new();
    let mut l = head;
    while l != NO_LINK {
        out.push(h.linkheap[l as usize].areanum);
        l = h.linkheap[l as usize].next_area;
    }
    out
}

#[test]
fn heap_starts_all_free() {
    let h = links(5);
    assert_eq!(h.numaaslinks, 5);
    assert_eq!(h.freelinks, 0);
    assert_eq!(h.linkheap[4].next_ent, NO_LINK);
    assert_eq!(h.linkheap[2].next_ent, 3);
    assert_eq!(h.linkheap[2].prev_ent, 1);
}

#[test]
fn heap_keeps_its_size_when_set_up_again() {
    let mut h = links(5);
    AAS_InitAASLinkHeap(&mut h, 9);
    assert_eq!(h.linkheap.len(), 5);
}

#[test]
fn alloc_and_dealloc_use_the_free_list() {
    let mut h = links(2);
    assert_eq!(AAS_AllocAASLink(&mut h), 0);
    assert_eq!(AAS_AllocAASLink(&mut h), 1);
    assert_eq!(AAS_AllocAASLink(&mut h), NO_LINK);
    assert_eq!(h.numaaslinks, 0);
    AAS_DeAllocAASLink(&mut h, 0);
    assert_eq!(h.numaaslinks, 1);
    assert_eq!(AAS_AllocAASLink(&mut h), 0);
}

#[test]
fn link_entity_walks_back_child_first() {
    let w = tree_world();
    let mut h = links(8);
    let sides = vec![0, 3, 3];
    let (head, end) = AAS_AASLinkEntity(&mut h, &w, &sides, 5);
    assert_eq!(end, LinkEnd::Linked);
    assert_eq!(chain_areas(&h, head), vec![1, 2, 3]);
    assert_eq!(entities_in(&h, 3), vec![5]);
    assert_eq!(h.numaaslinks, 5);
}

#[test]
fn link_entity_follows_sides() {
    let w = tree_world();
    let mut h = links(8);
    let sides = vec![0, 2, 1];
    let (head, end) = AAS_AASLinkEntity(&mut h, &w, &sides, 5);
    assert_eq!(end, LinkEnd::Linked);
    assert_eq!(chain_areas(&h, head), vec![2]);
}

#[test]
fn link_entity_twice_adds_nothing() {
    let w = tree_world();
    let mut h = links(8);
    let sides = vec![0, 3, 3];
    AAS_AASLinkEntity(&mut h, &w, &sides, 5);
    let (head, end) = AAS_AASLinkEntity(&mut h, &w, &sides, 5);
    assert_eq!(end, LinkEnd::Linked);
    assert_eq!(head, NO_LINK);
    assert_eq!(h.numaaslinks, 5);
}

#[test]
fn link_entity_runs_out_of_links() {
    let w = tree_world();
    let mut h = links(2);
    let sides = vec![0, 3, 3];
    let (head, end) = AAS_AASLinkEntity(&mut h, &w, &sides, 5);
    assert_eq!(end, LinkEnd::OutOfLinks);
    assert_eq!(chain_areas(&h, head), vec![2, 3]);
    assert_eq!(h.numaaslinks, 0);
}

#[test]
fn link_entity_needs_loaded_data() {
    let mut w = tree_world();
    w.loaded = false;
    let mut h = links(4);
    assert_eq!(AAS_AASLinkEntity(&mut h, &w, &vec![0, 3, 3], 5), (NO_LINK, LinkEnd::NotLoaded));
}

#[test]
fn unlink_puts_links_back() {
    let w = tree_world();
    let mut h = links(8);
    let sides = vec![0, 3, 3];
    let (h5, _) = AAS_AASLinkEntity(&mut h, &w, &sides, 5);
    let (h6, _) = AAS_AASLinkEntity(&mut h, &w, &sides, 6);
    assert_eq!(entities_in(&h, 2), vec![6, 5]);
    AAS_UnlinkFromAreas(&mut h, h5);
    assert_eq!(entities_in(&h, 2), vec![6]);
    assert_eq!(entities_in(&h, 1), vec![6]);
    assert_eq!(h.numaaslinks, 5);
    AAS_UnlinkFromAreas(&mut h, h6);
    assert_eq!(entities_in(&h, 2), Vec::<i32>::new());
    assert_eq!(h.numaaslinks, 8);
}

#[test]
fn bbox_areas_lists_areas_and_leaves_links() {
    let w = tree_world();
    let mut h = links(8);
    let sides = vec![0, 3, 3];
    AAS_AASLinkEntity(&mut h, &w, &sides, 5);
    assert_eq!(AAS_BBoxAreas(&mut h, &w, &sides, 10), vec![1, 2, 3]);
    assert_eq!(AAS_BBoxAreas(&mut h, &w, &sides, 2), vec![1, 2]);
    assert_eq!(entities_in(&h, 1), vec![5]);
    assert_eq!(h.numaaslinks, 5);
}
