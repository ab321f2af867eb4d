use lib::aasfile::Vec3Bits;
use lib::entityitems::{BotItemKindOfModel, BotLevelItemOfEntity, BotLinkCandidates};
use lib::itemgoals::{iteminfo_s, itemconfig_s, GT_SINGLE_PLAYER, GT_TEAM, IFL_NOTFREE, IFL_NOTSINGLE, IFL_NOTTEAM};
use lib::levelitems::{AddLevelItemToList, AllocLevelItem, InitLevelItemHeap, LevelItems};

fn v() -> Vec3Bits {
    Vec3Bits { x: 0, y: 0, z: 0 }
}

fn kind(model: i32) -> iteminfo_s {
    iteminfo_s { classname: b"k\0".to_vec(), name: b"K\0".to_vec(), mins: v(), maxs: v(), modelindex: model, respawntime: 0 }
}

fn config() -> itemconfig_s {
    itemconfig_s { iteminfo: vec![kind(5), kind(7), kind(5)] }
}

/// Level items (kind, flags, entity), in list order; returns their handles.
fn level(items: &[(i32, i32, i32)]) -> (LevelItems, Vec<i32>) {
    let mut h = LevelItems::new();
    InitLevelItemHeap(&mut h, 16);
    let mut handles = Vec::new();
    for &(kind, flags, entity) in items.iter().rev() {
        let li = AllocLevelItem(&mut h);
        let it = &mut h.levelitemheap[li as usize];
        it.iteminfo = kind;
        it.flags = flags;
        it.entitynum = entity;
        AddLevelItemToList(&mut h, li);
        handles.insert(0, li);
    }
    (h, handles)
}

#[test]
fn level_item_of_entity_is_the_first_linked() {
    let (h, li) = level(&[(0, 0, 0), (1, 0, 9), (2, 0, 9), (0, 0, 4)]);
    assert_eq!(BotLevelItemOfEntity(&h, 9), Some(li[1]));
    assert_eq!(BotLevelItemOfEntity(&h, 4), Some(li[3]));
    assert_eq!(BotLevelItemOfEntity(&h, 3), None);
    assert_eq!(BotLevelItemOfEntity(&h, 0), None);
}

#[test]
fn link_candidates_are_unlinked_items_of_the_model_in_the_game() {
    let (h, li) = level(&[
        (0, 0, 0),
        (1, 0, 0),
        (2, 0, 3),
        (2, IFL_NOTFREE, 0),
        (2, IFL_NOTTEAM, 0),
        (0, IFL_NOTSINGLE, 0),
    ]);
    let ic = config();
    assert_eq!(BotLinkCandidates(&h, &ic, 0, 5), vec![li[0], li[4], li[5]]);
    assert_eq!(BotLinkCandidates(&h, &ic, GT_TEAM, 5), vec![li[0], li[3], li[5]]);
    assert_eq!(BotLinkCandidates(&h, &ic, GT_SINGLE_PLAYER, 5), vec![li[0], li[3], li[4]]);
    assert_eq!(BotLinkCandidates(&h, &ic, 0, 7), vec![li[1]]);
    assert_eq!(BotLinkCandidates(&h, &ic, 0, 8), Vec::<i32>::new());
}

#[test]
fn item_kind_of_model_is_the_first() {
    let ic = config();
    assert_eq!(BotItemKindOfModel(&ic, 5), Some(0));
    assert_eq!(BotItemKindOfModel(&ic, 7), Some(1));
    assert_eq!(BotItemKindOfModel(&ic, 6), None);
}
