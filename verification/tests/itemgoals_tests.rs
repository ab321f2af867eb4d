use lib::aasfile::Vec3Bits;
use lib::goal::{bot_goal_s, BotAllocGoalState, GoalStates};
use lib::itemgoals::{
    campspot_s, iteminfo_s, itemconfig_s, maplocation_s, BotGetLevelItemGoal,
    BotGetMapLocationGoal, BotGetNextCampSpotGoal, BotGoalName, BotInfoEntityKind, BotItemKindOfClass,
    BotFreeInfoEntities, BotLevelItemFlags, BotShutdownGoalAI, InfoEntityKind, IFL_NOTFREE, IFL_ROAM, GFL_DROPPED, GFL_ITEM, GT_SINGLE_PLAYER,
    GT_TEAM, IFL_NOTBOT, IFL_NOTSINGLE, IFL_NOTTEAM, MINUS_EIGHT, PLUS_EIGHT,
};
use lib::levelitems::{AddLevelItemToList, AllocLevelItem, InitLevelItemHeap, LevelItems};

fn v(x: u32, y: u32, z: u32) -> Vec3Bits {
    Vec3Bits { x, y, z }
}

fn blank_goal() -> bot_goal_s {
    bot_goal_s {
        areanum: 99,
        origin: v(1, 2, 3),
        mins: v(4, 5, 6),
        maxs: v(7, 8, 9),
        entitynum: 77,
        number: 55,
        flags: 0,
        iteminfo: 33,
    }
}

fn cstr(s: &str) -> Vec<u8> {
    let mut b = s.as_bytes().to_vec();
    b.push(0);
    b
}

fn config() -> itemconfig_s {
    itemconfig_s {
        iteminfo: vec![
            iteminfo_s { classname: cstr("item_armor"), name: cstr("Armor"), mins: v(10, 11, 12), maxs: v(13, 14, 15), modelindex: 0, respawntime: 0 },
            iteminfo_s { classname: cstr("item_health"), name: cstr("Health"), mins: v(20, 21, 22), maxs: v(23, 24, 25), modelindex: 0, respawntime: 0 },
        ],
    }
}

/// Adds level items (number, kind, flags, timeout) to the level list; the
/// list comes out newest first, so they are added in reverse.
fn level(items: &[(i32, i32, i32, u32)]) -> LevelItems {
    let mut h = LevelItems::new();
    InitLevelItemHeap(&mut h, 16);
    for &(number, kind, flags, timeout) in items.iter().rev() {
        let li = AllocLevelItem(&mut h);
        let it = &mut h.levelitemheap[li as usize];
        it.number = number;
        it.iteminfo = kind;
        it.flags = flags;
        it.timeout = timeout;
        it.goalareanum = 100 + number;
        it.goalorigin = v(number as u32, 0, 0);
        it.entitynum = 200 + number;
        AddLevelItemToList(&mut h, li);
    }
    h
}

#[test]
fn level_item_goal_found_by_name_ignoring_case() {
    let h = level(&[(1, 0, 0, 0), (2, 1, 0, 0), (3, 1, 0, 0)]);
    let mut goal = blank_goal();
    let r = BotGetLevelItemGoal(&h, &Some(config()), 0, -1, &cstr("hEALTH"), &mut goal);
    assert_eq!(r, 2);
    assert_eq!(goal.areanum, 102);
    assert_eq!(goal.origin, v(2, 0, 0));
    assert_eq!(goal.mins, v(20, 21, 22));
    assert_eq!(goal.maxs, v(23, 24, 25));
    assert_eq!(goal.entitynum, 202);
    assert_eq!(goal.number, 2);
    assert_eq!(goal.flags, GFL_ITEM);
    assert_eq!(goal.iteminfo, 33);
}

#[test]
fn level_item_goal_continues_after_index() {
    let h = level(&[(1, 0, 0, 0), (2, 1, 0, 0), (3, 1, 0, 0)]);
    let mut goal = blank_goal();
    let r = BotGetLevelItemGoal(&h, &Some(config()), 0, 2, &cstr("Health"), &mut goal);
    assert_eq!(r, 3);
    assert_eq!(goal.number, 3);
    let mut goal2 = blank_goal();
    let r2 = BotGetLevelItemGoal(&h, &Some(config()), 0, 3, &cstr("Health"), &mut goal2);
    assert_eq!(r2, -1);
    assert_eq!(goal2, blank_goal());
}

#[test]
fn level_item_goal_skips_items_not_allowed() {
    let h = level(&[(1, 1, IFL_NOTSINGLE, 0), (2, 1, IFL_NOTBOT, 0), (3, 1, IFL_NOTTEAM, 0)]);
    let mut goal = blank_goal();
    assert_eq!(BotGetLevelItemGoal(&h, &Some(config()), GT_SINGLE_PLAYER, -1, &cstr("Health"), &mut goal), 3);
    let mut goal = blank_goal();
    assert_eq!(BotGetLevelItemGoal(&h, &Some(config()), GT_TEAM, -1, &cstr("Health"), &mut goal), 1);
    let mut goal = blank_goal();
    assert_eq!(BotGetLevelItemGoal(&h, &Some(config()), 0, -1, &cstr("Health"), &mut goal), 1);
}

#[test]
fn dropped_item_goal_is_flagged() {
    let h = level(&[(4, 0, 0, 0x4000_0000)]);
    let mut goal = blank_goal();
    assert_eq!(BotGetLevelItemGoal(&h, &Some(config()), 0, -1, &cstr("armor"), &mut goal), 4);
    assert_eq!(goal.flags, GFL_ITEM | GFL_DROPPED);
    // a timeout of -0 counts as none
    let h = level(&[(4, 0, 0, 0x8000_0000)]);
    let mut goal = blank_goal();
    assert_eq!(BotGetLevelItemGoal(&h, &Some(config()), 0, -1, &cstr("armor"), &mut goal), 4);
    assert_eq!(goal.flags, GFL_ITEM);
}

#[test]
fn level_item_goal_without_config_or_match() {
    let h = level(&[(1, 0, 0, 0)]);
    let mut goal = blank_goal();
    assert_eq!(BotGetLevelItemGoal(&h, &None, 0, -1, &cstr("Armor"), &mut goal), -1);
    assert_eq!(goal, blank_goal());
    assert_eq!(BotGetLevelItemGoal(&h, &Some(config()), 0, -1, &cstr("Rocket"), &mut goal), -1);
    assert_eq!(goal, blank_goal());
}

fn locations() -> Vec<maplocation_s> {
    vec![
        maplocation_s { origin: v(1, 1, 1), areanum: 5, name: cstr("Bridge") },
        maplocation_s { origin: v(2, 2, 2), areanum: 6, name: cstr("Tower") },
        maplocation_s { origin: v(3, 3, 3), areanum: 7, name: cstr("tower") },
    ]
}

#[test]
fn map_location_goal_first_match() {
    let mut goal = blank_goal();
    assert_eq!(BotGetMapLocationGoal(&locations(), &cstr("TOWER"), &mut goal), 1);
    assert_eq!(goal.areanum, 6);
    assert_eq!(goal.origin, v(2, 2, 2));
    assert_eq!(goal.entitynum, 0);
    assert_eq!(goal.mins, v(MINUS_EIGHT, MINUS_EIGHT, MINUS_EIGHT));
    assert_eq!(goal.maxs, v(PLUS_EIGHT, PLUS_EIGHT, PLUS_EIGHT));
    assert_eq!(f32::from_bits(goal.mins.x), -8.0f32);
    assert_eq!(f32::from_bits(goal.maxs.z), 8.0f32);
    assert_eq!(goal.number, 55);
}

#[test]
fn map_location_goal_missing() {
    let mut goal = blank_goal();
    assert_eq!(BotGetMapLocationGoal(&locations(), &cstr("Cave"), &mut goal), 0);
    assert_eq!(goal, blank_goal());
}

#[test]
fn camp_spot_goals_in_turn() {
    let spots = vec![
        campspot_s { origin: v(1, 0, 0), areanum: 11 },
        campspot_s { origin: v(2, 0, 0), areanum: 12 },
    ];
    let mut goal = blank_goal();
    assert_eq!(BotGetNextCampSpotGoal(&spots, -5, &mut goal), 1);
    assert_eq!(goal.areanum, 11);
    assert_eq!(BotGetNextCampSpotGoal(&spots, 1, &mut goal), 2);
    assert_eq!(goal.areanum, 12);
    assert_eq!(goal.origin, v(2, 0, 0));
    assert_eq!(goal.entitynum, 0);
    let before = goal;
    assert_eq!(BotGetNextCampSpotGoal(&spots, 2, &mut goal), 0);
    assert_eq!(goal, before);
}

#[test]
fn goal_name_of_numbered_item() {
    let h = level(&[(1, 0, 0, 0), (2, 1, 0, 0)]);
    let mut name = vec![9u8; 10];
    BotGoalName(&h, &Some(config()), 2, &mut name, 10);
    assert_eq!(&name[..7], b"Health\0");
    assert_eq!(&name[7..], &[9u8, 9, 9]);
    // cut to the buffer size
    let mut name = vec![9u8; 10];
    BotGoalName(&h, &Some(config()), 2, &mut name, 4);
    assert_eq!(&name[..5], b"Hea\0\x09");
    // no such item: the empty string
    let mut name = vec![9u8; 4];
    BotGoalName(&h, &Some(config()), 5, &mut name, 4);
    assert_eq!(name, vec![0u8, 9, 9, 9]);
    // no configuration: untouched
    let mut name = vec![9u8; 4];
    BotGoalName(&h, &None, 2, &mut name, 4);
    assert_eq!(name, vec![9u8; 4]);
}

#[test]
fn item_kind_by_class_name() {
    let ic = config();
    assert_eq!(BotItemKindOfClass(&ic, &cstr("ITEM_HEALTH")), Some(1));
    assert_eq!(BotItemKindOfClass(&ic, &cstr("item_armor")), Some(0));
    assert_eq!(BotItemKindOfClass(&ic, &cstr("weapon_rocket")), None);
}

#[test]
fn level_item_flags_from_keys() {
    assert_eq!(BotLevelItemFlags(0, 0, 0, 0, &cstr("item_health")), 0);
    assert_eq!(BotLevelItemFlags(1, 0, 7, 0, &cstr("item_health")), IFL_NOTFREE | IFL_NOTSINGLE);
    assert_eq!(BotLevelItemFlags(0, 2, 0, 1, &cstr("item_health")), IFL_NOTTEAM | IFL_NOTBOT);
    assert_eq!(BotLevelItemFlags(0, 0, 0, 0, &cstr("Item_BotRoam")), IFL_ROAM);
}

#[test]
fn info_entity_kinds() {
    assert_eq!(BotInfoEntityKind(&cstr("target_location")), InfoEntityKind::MapLocation);
    assert_eq!(BotInfoEntityKind(&cstr("INFO_CAMP")), InfoEntityKind::CampSpot);
    assert_eq!(BotInfoEntityKind(&cstr("info_player_start")), InfoEntityKind::Other);
}

#[test]
fn shutdown_clears_the_goal_code() {
    let mut t = GoalStates::new();
    let a = BotAllocGoalState(&mut t, 1);
    let b = BotAllocGoalState(&mut t, 2);
    let mut items = level(&[(1, 0, 0, 0), (2, 1, 0, 0)]);
    let mut ic = Some(config());
    let mut locations = vec![maplocation_s { origin: v(0, 0, 0), areanum: 1, name: cstr("base") }];
    let mut spots = vec![campspot_s { origin: v(0, 0, 0), areanum: 2 }];
    BotShutdownGoalAI(&mut t, &mut items, &mut ic, &mut locations, &mut spots);
    assert!(t.states[a as usize].is_none());
    assert!(t.states[b as usize].is_none());
    assert!(items.levelitemheap.is_empty());
    assert_eq!(items.numlevelitems, 0);
    assert!(ic.is_none());
    assert!(locations.is_empty());
    assert!(spots.is_empty());
}

#[test]
fn free_info_entities_drops_locations_and_spots() {
    let mut locations = vec![maplocation_s { origin: v(0, 0, 0), areanum: 1, name: cstr("base") }];
    let mut spots = vec![campspot_s { origin: v(0, 0, 0), areanum: 2 }];
    BotFreeInfoEntities(&mut locations, &mut spots);
    assert!(locations.is_empty());
    assert!(spots.is_empty());
}
