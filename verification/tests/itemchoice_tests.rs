use lib::aasfile::{aas_area_s, aas_areasettings_s, Vec3Bits};
use lib::aasworld::aas_s;
use lib::goal::{bot_goalstate_s, BotAllocGoalState, GoalStates};
use lib::weights::{weight_s, weightconfig_s};
use lib::itemchoice::{
    BotChoiceArea, BotChoiceCandidates, BotChosenItemGoal, BotFreeItemWeights, BotLoadItemWeights,
    BLERR_CANNOTLOADITEMWEIGHTS, BLERR_NOERROR,
};
use lib::itemgoals::{
    iteminfo_s, itemconfig_s, GFL_DROPPED, GFL_ITEM, GFL_ROAM, GT_SINGLE_PLAYER, GT_TEAM, IFL_NOTBOT,
    IFL_NOTFREE, IFL_NOTSINGLE, IFL_NOTTEAM, IFL_ROAM,
};
use lib::levelitems::{levelitem_s, AddLevelItemToList, AllocLevelItem, InitLevelItemHeap, LevelItems};

fn v(x: u32, y: u32, z: u32) -> Vec3Bits {
    Vec3Bits { x, y, z }
}

fn settings(numreach: i32) -> aas_areasettings_s {
    aas_areasettings_s {
        contents: 0, areaflags: 0, presencetype: 0, cluster: 0, clusterareanum: 0,
        numreachableareas: numreach, firstreachablearea: 0,
    }
}

fn area(n: i32) -> aas_area_s {
    aas_area_s { areanum: n, numfaces: 0, firstface: 0, mins: v(0, 0, 0), maxs: v(0, 0, 0), center: v(0, 0, 0) }
}

fn world() -> aas_s {
    let mut w = aas_s::new();
    w.areas = vec![area(0), area(1), area(2), area(3)];
    w.areasettings = vec![settings(0), settings(3), settings(0), settings(1)];
    w
}

#[test]
fn choice_area_falls_back_on_last_area_with_reachabilities() {
    let w = world();
    let mut gs = bot_goalstate_s::new(5);
    assert_eq!(BotChoiceArea(&mut gs, &w, 1), 1);
    assert_eq!(gs.lastreachabilityarea, 1);
    assert_eq!(BotChoiceArea(&mut gs, &w, 2), 1);
    assert_eq!(BotChoiceArea(&mut gs, &w, 0), 1);
    assert_eq!(BotChoiceArea(&mut gs, &w, 9), 1);
    assert_eq!(BotChoiceArea(&mut gs, &w, 3), 3);
    assert_eq!(gs.lastreachabilityarea, 3);
    assert_eq!(gs.client, 5);
    let mut fresh = bot_goalstate_s::new(6);
    assert_eq!(BotChoiceArea(&mut fresh, &w, 2), 0);
    assert_eq!(fresh.lastreachabilityarea, 0);
}

/// Adds level items (number, kind, flags, goal area, entity) to the level
/// list; the list comes out newest first, so they are added in reverse.
fn level(items: &[(i32, i32, i32, i32, i32)]) -> (LevelItems, Vec<i32>) {
    let mut h = LevelItems::new();
    InitLevelItemHeap(&mut h, 16);
    let mut handles = Vec::new();
    for &(number, kind, flags, area, entity) in items.iter().rev() {
        let li = AllocLevelItem(&mut h);
        let it = &mut h.levelitemheap[li as usize];
        it.number = number;
        it.iteminfo = kind;
        it.flags = flags;
        it.goalareanum = area;
        it.entitynum = entity;
        AddLevelItemToList(&mut h, li);
        handles.insert(0, li);
    }
    (h, handles)
}

#[test]
fn choice_candidates_filter_in_list_order() {
    let (h, li) = level(&[
        (1, 0, 0, 10, 100),
        (2, 1, 0, 10, 100),
        (3, 0, IFL_NOTBOT, 10, 100),
        (4, 0, 0, 0, 100),
        (5, 0, 0, 10, 0),
        (6, 0, IFL_ROAM, 10, 0),
        (7, 2, 0, 10, 100),
    ]);
    let index = vec![4, -1, 9];
    assert_eq!(BotChoiceCandidates(&h, &index, 0), vec![(li[0], 4), (li[5], 4), (li[6], 9)]);
}

#[test]
fn choice_candidates_follow_the_game_type() {
    let (h, li) = level(&[
        (1, 0, IFL_NOTFREE, 10, 100),
        (2, 0, IFL_NOTTEAM, 10, 100),
        (3, 0, IFL_NOTSINGLE, 10, 100),
    ]);
    let index = vec![0];
    assert_eq!(BotChoiceCandidates(&h, &index, 0), vec![(li[1], 0), (li[2], 0)]);
    assert_eq!(BotChoiceCandidates(&h, &index, GT_TEAM), vec![(li[0], 0), (li[2], 0)]);
    assert_eq!(BotChoiceCandidates(&h, &index, GT_SINGLE_PLAYER), vec![(li[0], 0), (li[1], 0)]);
}

fn item(flags: i32, timeout: u32) -> levelitem_s {
    levelitem_s {
        number: 12, iteminfo: 1, flags, weight: 0, origin: v(1, 1, 1), goalareanum: 40,
        goalorigin: v(5, 6, 7), entitynum: 66, timeout, prev: -1, next: -1,
    }
}

fn config() -> itemconfig_s {
    itemconfig_s {
        iteminfo: vec![
            iteminfo_s { classname: b"a\0".to_vec(), name: b"A\0".to_vec(), mins: v(1, 1, 1), maxs: v(2, 2, 2), modelindex: 0, respawntime: 0 },
            iteminfo_s { classname: b"b\0".to_vec(), name: b"B\0".to_vec(), mins: v(3, 3, 3), maxs: v(4, 4, 4), modelindex: 0, respawntime: 0 },
        ],
    }
}

#[test]
fn chosen_item_goal_marks_dropped_and_roaming_items() {
    let g = BotChosenItemGoal(&item(0, 0), &config());
    assert_eq!(g.areanum, 40);
    assert_eq!(g.origin, v(5, 6, 7));
    assert_eq!(g.mins, v(3, 3, 3));
    assert_eq!(g.maxs, v(4, 4, 4));
    assert_eq!(g.entitynum, 66);
    assert_eq!(g.number, 12);
    assert_eq!(g.iteminfo, 1);
    assert_eq!(g.flags, GFL_ITEM);
    assert_eq!(BotChosenItemGoal(&item(0, 10.0f32.to_bits()), &config()).flags, GFL_ITEM | GFL_DROPPED);
    assert_eq!(BotChosenItemGoal(&item(0, 0x8000_0000), &config()).flags, GFL_ITEM);
    assert_eq!(BotChosenItemGoal(&item(IFL_ROAM, 0), &config()).flags, GFL_ITEM | GFL_ROAM);
    assert_eq!(BotChosenItemGoal(&item(IFL_ROAM, 1), &config()).flags, GFL_ITEM | GFL_DROPPED | GFL_ROAM);
}

fn weights() -> weightconfig_s {
    weightconfig_s { seperators: vec![], weights: vec![weight_s { name: b"b\0".to_vec(), firstseperator: None }, weight_s { name: b"a\0".to_vec(), firstseperator: None }] }
}

#[test]
fn item_weights_load_index_and_free() {
    let mut t = GoalStates::new();
    let h = BotAllocGoalState(&mut t, 3);
    assert_eq!(BotLoadItemWeights(&mut t, h + 1, Some(weights()), &Some(config())), BLERR_CANNOTLOADITEMWEIGHTS);
    assert!(t.states[(h + 1) as usize].is_none());
    assert_eq!(BotLoadItemWeights(&mut t, h, Some(weights()), &None), BLERR_CANNOTLOADITEMWEIGHTS);
    assert!(t.states[h as usize].as_ref().unwrap().itemweightconfig.is_some());
    assert!(t.states[h as usize].as_ref().unwrap().itemweightindex.is_empty());
    assert_eq!(BotLoadItemWeights(&mut t, h, Some(weights()), &Some(config())), BLERR_NOERROR);
    assert_eq!(t.states[h as usize].as_ref().unwrap().itemweightindex, vec![1, 0]);
    assert_eq!(BotLoadItemWeights(&mut t, h, None, &Some(config())), BLERR_CANNOTLOADITEMWEIGHTS);
    assert!(t.states[h as usize].as_ref().unwrap().itemweightconfig.is_none());
    assert_eq!(t.states[h as usize].as_ref().unwrap().itemweightindex, vec![1, 0]);
    BotFreeItemWeights(&mut t, h);
    assert!(t.states[h as usize].as_ref().unwrap().itemweightconfig.is_none());
    assert!(t.states[h as usize].as_ref().unwrap().itemweightindex.is_empty());
    assert_eq!(t.states[h as usize].as_ref().unwrap().client, 3);
}
