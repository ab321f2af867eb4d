//! Goals from the level: level items by name, map locations by name, and
//! camp spots by number.
use vstd::prelude::*;
use crate::aasfile::Vec3Bits;
use crate::goal::{bot_goal_s, BotFreeGoalState, GoalStates, MAX_CLIENTS};
use crate::levelitems::{after, levelitem_t, LevelItems, NO_ITEM};
use crate::strindex::{compare_nocase, nocase_key};
use crate::cstr::{nul_index, Q_strncpyz};

verus! {

pub const GFL_ITEM: i32 = 1;
pub const GFL_DROPPED: i32 = 2;
pub const GFL_ROAM: i32 = 4;

pub const GT_SINGLE_PLAYER: i32 = 5;
pub const GT_TEAM: i32 = 6;

pub const IFL_NOTFREE: i32 = 1;
pub const IFL_NOTTEAM: i32 = 2;
pub const IFL_NOTSINGLE: i32 = 4;
pub const IFL_NOTBOT: i32 = 8;
pub const IFL_ROAM: i32 = 16;

/// Bit pattern of the float -8.
pub const MINUS_EIGHT: u32 = 0xc100_0000;
/// Bit pattern of the float 8.
pub const PLUS_EIGHT: u32 = 0x4100_0000;

/// What the goal code reads of an item kind.  The bounds are floats,
/// carried as their bit patterns.
pub struct iteminfo_s {
    /// class name of the item, zero terminated
    pub classname: Vec<u8>,
    /// name of the item, zero terminated
    pub name: Vec<u8>,
    /// mins of the item
    pub mins: Vec3Bits,
    /// maxs of the item
    pub maxs: Vec3Bits,
    /// index of the model of the item
    pub modelindex: i32,
    /// time in seconds before the item respawns, as a float bit pattern
    pub respawntime: u32,
}

pub type iteminfo_t = iteminfo_s;

/// The item configuration.
pub struct itemconfig_s {
    pub iteminfo: Vec<iteminfo_t>,
}

pub type itemconfig_t = itemconfig_s;

/// A named location of the map.
pub struct maplocation_s {
    pub origin: Vec3Bits,
    pub areanum: i32,
    pub name: Vec<u8>,
}

pub type maplocation_t = maplocation_s;

/// A camp spot.
pub struct campspot_s {
    pub origin: Vec3Bits,
    pub areanum: i32,
}

pub type campspot_t = campspot_s;

/// A float with bit pattern `bits` is not zero (neither +0 nor -0).
pub open spec fn float_nonzero(bits: u32) -> bool {
    bits & 0x7fff_ffff != 0
}

/// Level item `it` may be a goal in game type `gametype`.
pub open spec fn item_allowed(it: levelitem_t, gametype: i32) -> bool {
    &&& (if gametype == GT_SINGLE_PLAYER {
        it.flags & IFL_NOTSINGLE == 0
    } else if gametype >= GT_TEAM {
        it.flags & IFL_NOTTEAM == 0
    } else {
        it.flags & IFL_NOTFREE == 0
    })
    &&& it.flags & IFL_NOTBOT == 0
}

/// Position in the level list just after the first item numbered `index`
/// (the end of the list when there is none), or the start when `index` is
/// negative.
pub open spec fn search_start(items: Seq<levelitem_t>, index: i32, from: int) -> int
    decreases items.len() - from,
{
    if index < 0 {
        0
    } else if from < 0 || from >= items.len() {
        items.len() as int
    } else if items[from].number == index {
        from + 1
    } else {
        search_start(items, index, from + 1)
    }
}

/// Position of the first level item from `from` on that is allowed and
/// whose kind is named `name` (ignoring case).
pub open spec fn goal_item(items: Seq<levelitem_t>, ic: itemconfig_t, gametype: i32, name: Seq<u8>, from: int)
    -> Option<int>
    decreases items.len() - from,
{
    if from < 0 || from >= items.len() {
        None
    } else if item_allowed(items[from], gametype)
        && nocase_key(ic.iteminfo@[items[from].iteminfo as int].name@) == nocase_key(name) {
        Some(from)
    } else {
        goal_item(items, ic, gametype, name, from + 1)
    }
}

/// The goal of level item `it` of kind `info`.
pub open spec fn item_goal(it: levelitem_t, info: iteminfo_t) -> bot_goal_s {
    bot_goal_s {
        areanum: it.goalareanum,
        origin: it.goalorigin,
        mins: info.mins,
        maxs: info.maxs,
        entitynum: it.entitynum,
        number: it.number,
        flags: if float_nonzero(it.timeout) { GFL_ITEM | GFL_DROPPED } else { GFL_ITEM },
        iteminfo: 0,
    }
}

/// Every level item names an item kind of the configuration.
pub open spec fn items_known(h: LevelItems, ic: itemconfig_t) -> bool {
    forall|i: int| 0 <= i < h.level_items().len() ==>
        0 <= #[trigger] h.level_items()[i].iteminfo < ic.iteminfo@.len()
}

/// Finds the first level item after the one numbered `index` (from the
/// start when `index` is negative) that is allowed in the game type and is
/// of the kind named `name` (`BotGetLevelItemGoal`): gives its number and
/// the goal for it, with the iteminfo field of the goal left as in `goal`.
/// Gives -1 when there is no item configuration or no such item.
#[verifier::rlimit(50)]
pub fn BotGetLevelItemGoal(h: &LevelItems, ic: &Option<itemconfig_t>, gametype: i32, index: i32, name: &[u8],
    goal: &mut bot_goal_s) -> (r: i32)
    requires
        h.wf(),
        ic matches Some(c) ==> items_known(*h, *c),
    ensures
        ic is None ==> r == -1 && *final(goal) == *old(goal),
        ic matches Some(c) ==> {
            let items = h.level_items();
            match goal_item(items, *c, gametype, name@, search_start(items, index, 0)) {
                Some(p) => r == items[p].number
                    && *final(goal) == bot_goal_s { iteminfo: old(goal).iteminfo, ..item_goal(items[p], c.iteminfo@[items[p].iteminfo as int]) },
                None => r == -1 && *final(goal) == *old(goal),
            }
        },
{
    let c = match ic {
        Some(c) => c,
        None => { return -1; },
    };
    let ghost items = h.level_items();
    let ghost l = h.list@;
    let mut li = h.levelitems;
    let ghost mut pos: int = 0;
    if index >= 0 {
        while li != NO_ITEM
            invariant_except_break
                search_start(items, index, 0) == search_start(items, index, pos),
            invariant
                h.wf(),
                l == h.list@,
                items == h.level_items(),
                index >= 0,
                0 <= pos <= l.len(),
                li as int == if pos < l.len() { l[pos] } else { -1 },
            ensures
                search_start(items, index, 0) == pos,
                0 <= pos <= l.len(),
                li as int == if pos < l.len() { l[pos] } else { -1 },
            decreases l.len() - pos,
        {
            proof {
                if pos >= l.len() {
                    assert(false);
                }
                assert(0 <= l[pos] < h.levelitemheap@.len());
                assert(items[pos] == h.levelitemheap@[l[pos]]);
            }
            let it = h.levelitemheap[li as usize];
            li = it.next;
            proof {
                assert(it.next as int == after(l, pos));
                pos = pos + 1;
            }
            if it.number == index {
                break;
            }
        }
    }
    while li != NO_ITEM
        invariant
            h.wf(),
            items_known(*h, *c),
            *ic == Some(*c),
            l == h.list@,
            items == h.level_items(),
            0 <= pos <= l.len(),
            li as int == if pos < l.len() { l[pos] } else { -1 },
            goal_item(items, *c, gametype, name@, search_start(items, index, 0))
                == goal_item(items, *c, gametype, name@, pos),
            *goal == *old(goal),
        decreases l.len() - pos,
    {
        proof {
            if pos >= l.len() {
                assert(false);
            }
        }
        proof {
            assert(0 <= l[pos] < h.levelitemheap@.len());
            assert(items[pos] == h.levelitemheap@[l[pos]]);
        }
        let it = h.levelitemheap[li as usize];
        let allowed = if gametype == GT_SINGLE_PLAYER {
            it.flags & IFL_NOTSINGLE == 0
        } else if gametype >= GT_TEAM {
            it.flags & IFL_NOTTEAM == 0
        } else {
            it.flags & IFL_NOTFREE == 0
        } && it.flags & IFL_NOTBOT == 0;
        if allowed {
            let info = &c.iteminfo[it.iteminfo as usize];
            if compare_nocase(name, info.name.as_slice()) == 0 {
                goal.areanum = it.goalareanum;
                goal.origin = it.goalorigin;
                goal.entitynum = it.entitynum;
                goal.mins = info.mins;
                goal.maxs = info.maxs;
                goal.number = it.number;
                goal.flags = GFL_ITEM;
                if it.timeout & 0x7fff_ffff != 0 {
                    goal.flags = goal.flags | GFL_DROPPED;
                }
                proof {
                    assert(item_allowed(items[pos], gametype));
                    assert(goal_item(items, *c, gametype, name@, pos) == Some(pos));
                }
                return it.number;
            }
        }
        li = it.next;
        proof {
            assert(it.next as int == after(l, pos));
            pos = pos + 1;
        }
    }
    -1
}

/// The box of a goal at a map location or camp spot: -8 to 8 on each axis.
pub open spec fn small_box_mins() -> Vec3Bits {
    Vec3Bits { x: MINUS_EIGHT, y: MINUS_EIGHT, z: MINUS_EIGHT }
}

pub open spec fn small_box_maxs() -> Vec3Bits {
    Vec3Bits { x: PLUS_EIGHT, y: PLUS_EIGHT, z: PLUS_EIGHT }
}

/// The goal at a point of the map in area `areanum`: the small box round
/// `origin`, entity 0; the other fields are those of `old`.
pub open spec fn point_goal(old: bot_goal_s, areanum: i32, origin: Vec3Bits) -> bot_goal_s {
    bot_goal_s {
        areanum: areanum,
        origin: origin,
        entitynum: 0,
        mins: small_box_mins(),
        maxs: small_box_maxs(),
        ..old
    }
}

/// Position of the first map location from `from` on named `name`
/// (ignoring case).
pub open spec fn first_location(locs: Seq<maplocation_t>, name: Seq<u8>, from: int) -> Option<int>
    decreases locs.len() - from,
{
    if from < 0 || from >= locs.len() {
        None
    } else if nocase_key(locs[from].name@) == nocase_key(name) {
        Some(from)
    } else {
        first_location(locs, name, from + 1)
    }
}

/// Finds the first map location named `name`, ignoring case
/// (`BotGetMapLocationGoal`): on a match gives 1 and sets the goal to the
/// small box at that location; else gives 0 and leaves the goal.
pub fn BotGetMapLocationGoal(locations: &Vec<maplocation_t>, name: &[u8], goal: &mut bot_goal_s) -> (r: i32)
    ensures
        match first_location(locations@, name@, 0) {
            Some(p) => r == 1 && *final(goal) == point_goal(*old(goal), locations@[p].areanum, locations@[p].origin),
            None => r == 0 && *final(goal) == *old(goal),
        },
{
    let mut i: usize = 0;
    while i < locations.len()
        invariant
            0 <= i <= locations@.len(),
            first_location(locations@, name@, 0) == first_location(locations@, name@, i as int),
            *goal == *old(goal),
        decreases locations@.len() - i,
    {
        let ml = &locations[i];
        if compare_nocase(ml.name.as_slice(), name) == 0 {
            goal.areanum = ml.areanum;
            goal.origin = ml.origin;
            goal.entitynum = 0;
            goal.mins = Vec3Bits { x: MINUS_EIGHT, y: MINUS_EIGHT, z: MINUS_EIGHT };
            goal.maxs = Vec3Bits { x: PLUS_EIGHT, y: PLUS_EIGHT, z: PLUS_EIGHT };
            return 1;
        }
        i = i + 1;
    }
    0
}

/// Gives the goal of camp spot number `num` (counted from 0; a negative
/// number counts as 0) (`BotGetNextCampSpotGoal`): when that spot exists,
/// gives its number plus one and sets the goal to the small box at the
/// spot; else gives 0 and leaves the goal.
pub fn BotGetNextCampSpotGoal(spots: &Vec<campspot_t>, num: i32, goal: &mut bot_goal_s) -> (r: i32)
    requires
        spots@.len() <= i32::MAX,
    ensures
        ({
            let n: int = if num < 0 { 0 } else { num as int };
            if n < spots@.len() {
                r == n + 1 && *final(goal) == point_goal(*old(goal), spots@[n].areanum, spots@[n].origin)
            } else {
                r == 0 && *final(goal) == *old(goal)
            }
        }),
{
    let n: i32 = if num < 0 { 0 } else { num };
    if (n as usize) < spots.len() {
        let cs = &spots[n as usize];
        goal.areanum = cs.areanum;
        goal.origin = cs.origin;
        goal.entitynum = 0;
        goal.mins = Vec3Bits { x: MINUS_EIGHT, y: MINUS_EIGHT, z: MINUS_EIGHT };
        goal.maxs = Vec3Bits { x: PLUS_EIGHT, y: PLUS_EIGHT, z: PLUS_EIGHT };
        n + 1
    } else {
        0
    }
}

/// Position of the first level item from `from` on numbered `number`.
pub open spec fn first_numbered(items: Seq<levelitem_t>, number: i32, from: int) -> Option<int>
    decreases items.len() - from,
{
    if from < 0 || from >= items.len() {
        None
    } else if items[from].number == number {
        Some(from)
    } else {
        first_numbered(items, number, from + 1)
    }
}

/// Writes into `name` the name of the kind of the level item numbered
/// `number` (`BotGoalName`): at most `size - 1` bytes of it, then a zero
/// byte; the rest of the buffer stays.  When there is no such item the
/// buffer holds the empty string; without an item configuration it is left.
#[verifier::rlimit(30)]
pub fn BotGoalName(h: &LevelItems, ic: &Option<itemconfig_t>, number: i32, name: &mut Vec<u8>, size: i32)
    requires
        h.wf(),
        ic matches Some(c) ==> items_known(*h, *c),
        1 <= size <= old(name)@.len(),
    ensures
        final(name)@.len() == old(name)@.len(),
        ic is None ==> final(name)@ == old(name)@,
        ic matches Some(c) ==> {
            let items = h.level_items();
            match first_numbered(items, number, 0) {
                Some(p) => {
                    let src = c.iteminfo@[items[p].iteminfo as int].name@;
                    let m = if nul_index(src) < size - 1 { nul_index(src) as int } else { size - 1 };
                    final(name)@ == src.take(m) + seq![0u8] + old(name)@.skip(m + 1)
                },
                None => final(name)@ == old(name)@.update(0, 0u8),
            }
        },
{
    let c = match ic {
        Some(c) => c,
        None => { return; },
    };
    let ghost items = h.level_items();
    let ghost l = h.list@;
    let mut li = h.levelitems;
    let ghost mut pos: int = 0;
    while li != NO_ITEM
        invariant
            h.wf(),
            items_known(*h, *c),
            *ic == Some(*c),
            l == h.list@,
            items == h.level_items(),
            0 <= pos <= l.len(),
            li as int == if pos < l.len() { l[pos] } else { -1 },
            first_numbered(items, number, 0) == first_numbered(items, number, pos),
            1 <= size <= old(name)@.len(),
            *name == *old(name),
        decreases l.len() - pos,
    {
        proof {
            if pos >= l.len() {
                assert(false);
            }
            assert(0 <= l[pos] < h.levelitemheap@.len());
            assert(items[pos] == h.levelitemheap@[l[pos]]);
        }
        let it = h.levelitemheap[li as usize];
        if it.number == number {
            let info = &c.iteminfo[it.iteminfo as usize];
            Q_strncpyz(name, info.name.as_slice(), size as usize);
            proof {
                assert(first_numbered(items, number, pos) == Some(pos));
            }
            return;
        }
        li = it.next;
        proof {
            assert(it.next as int == after(l, pos));
            pos = pos + 1;
        }
    }
    name.set(0, 0);
}

/// Position of the first item kind from `from` on whose class name is
/// `classname` (ignoring case).
pub open spec fn kind_of_class(kinds: Seq<iteminfo_t>, classname: Seq<u8>, from: int) -> Option<int>
    decreases kinds.len() - from,
{
    if from < 0 || from >= kinds.len() {
        None
    } else if nocase_key(kinds[from].classname@) == nocase_key(classname) {
        Some(from)
    } else {
        kind_of_class(kinds, classname, from + 1)
    }
}

/// The item kind of the configuration whose class name is `classname`,
/// ignoring case: the first such, or none for an unknown item (the item
/// kind lookup of `BotInitLevelItems`).
pub fn BotItemKindOfClass(ic: &itemconfig_t, classname: &[u8]) -> (r: Option<i32>)
    requires
        ic.iteminfo@.len() <= i32::MAX,
    ensures
        match kind_of_class(ic.iteminfo@, classname@, 0) {
            Some(k) => r == Some(k as i32),
            None => r is None,
        },
{
    let mut i: usize = 0;
    while i < ic.iteminfo.len()
        invariant
            0 <= i <= ic.iteminfo@.len(),
            ic.iteminfo@.len() <= i32::MAX,
            kind_of_class(ic.iteminfo@, classname@, 0) == kind_of_class(ic.iteminfo@, classname@, i as int),
        decreases ic.iteminfo@.len() - i,
    {
        if compare_nocase(classname, ic.iteminfo[i].classname.as_slice()) == 0 {
            return Some(i as i32);
        }
        i = i + 1;
    }
    None
}

/// The class name of the roam goals, `item_botroam`, zero terminated.
pub open spec fn botroam_name() -> Seq<u8> {
    seq![105u8, 116, 101, 109, 95, 98, 111, 116, 114, 111, 97, 109, 0]
}

/// The flags of a level item, from the values of the `notfree`, `notteam`,
/// `notsingle` and `notbot` keys of its entity and its class name.
pub open spec fn level_item_flags(notfree: i32, notteam: i32, notsingle: i32, notbot: i32, classname: Seq<u8>) -> i32 {
    (if notfree != 0 { IFL_NOTFREE } else { 0 })
        | (if notteam != 0 { IFL_NOTTEAM } else { 0 })
        | (if notsingle != 0 { IFL_NOTSINGLE } else { 0 })
        | (if notbot != 0 { IFL_NOTBOT } else { 0 })
        | (if nocase_key(classname) == nocase_key(botroam_name()) { IFL_ROAM } else { 0 })
}

/// The flags of a level item (the flag rules of `BotInitLevelItems`): an
/// entity key that is set gives the flag of that name, and an item of
/// class `item_botroam` (ignoring case) is a roam goal.
pub fn BotLevelItemFlags(notfree: i32, notteam: i32, notsingle: i32, notbot: i32, classname: &[u8]) -> (r: i32)
    ensures
        r == level_item_flags(notfree, notteam, notsingle, notbot, classname@),
{
    let roam: [u8; 13] = [105u8, 116, 101, 109, 95, 98, 111, 116, 114, 111, 97, 109, 0];
    proof {
        assert(roam@ =~= botroam_name());
    }
    let f_notfree = if notfree != 0 { IFL_NOTFREE } else { 0 };
    let f_notteam = if notteam != 0 { IFL_NOTTEAM } else { 0 };
    let f_notsingle = if notsingle != 0 { IFL_NOTSINGLE } else { 0 };
    let f_notbot = if notbot != 0 { IFL_NOTBOT } else { 0 };
    let f_roam = if compare_nocase(classname, &roam) == 0 { IFL_ROAM } else { 0 };
    let flags = f_notfree | f_notteam | f_notsingle | f_notbot | f_roam;
    flags
}

/// What an entity of the BSP file gives the goal code.
#[derive(Clone, Copy, Debug, PartialEq, Eq, Structural)]
pub enum InfoEntityKind {
    /// a `target_location`: a map location
    MapLocation,
    /// an `info_camp`: a camp spot
    CampSpot,
    /// anything else
    Other,
}

/// `target_location`, zero terminated.
pub open spec fn location_name() -> Seq<u8> {
    seq![116u8, 97, 114, 103, 101, 116, 95, 108, 111, 99, 97, 116, 105, 111, 110, 0]
}

/// `info_camp`, zero terminated.
pub open spec fn camp_name() -> Seq<u8> {
    seq![105u8, 110, 102, 111, 95, 99, 97, 109, 112, 0]
}

/// The kind of an entity of class `classname`, ignoring case (the class
/// rules of `BotInitInfoEntities`).
pub fn BotInfoEntityKind(classname: &[u8]) -> (r: InfoEntityKind)
    ensures
        r == (if nocase_key(classname@) == nocase_key(location_name()) {
            InfoEntityKind::MapLocation
        } else if nocase_key(classname@) == nocase_key(camp_name()) {
            InfoEntityKind::CampSpot
        } else {
            InfoEntityKind::Other
        }),
{
    let location: [u8; 16] = [116u8, 97, 114, 103, 101, 116, 95, 108, 111, 99, 97, 116, 105, 111, 110, 0];
    let camp: [u8; 10] = [105u8, 110, 102, 111, 95, 99, 97, 109, 112, 0];
    proof {
        assert(location@ =~= location_name());
        assert(camp@ =~= camp_name());
    }
    if compare_nocase(classname, &location) == 0 {
        InfoEntityKind::MapLocation
    } else if compare_nocase(classname, &camp) == 0 {
        InfoEntityKind::CampSpot
    } else {
        InfoEntityKind::Other
    }
}

/// Drops the map locations and camp spots of the level
/// (`BotFreeInfoEntities`).
pub fn BotFreeInfoEntities(locations: &mut Vec<maplocation_t>, campspots: &mut Vec<campspot_t>)
    ensures
        final(locations)@.len() == 0,
        final(campspots)@.len() == 0,
{
    *locations = Vec::new();
    *campspots = Vec::new();
}

/// Shuts the goal code down (`BotShutdownGoalAI`): drops the item
/// configuration, the level items and the info entities, and frees every
/// goal state.
pub fn BotShutdownGoalAI(t: &mut GoalStates, items: &mut LevelItems, config: &mut Option<itemconfig_t>,
    locations: &mut Vec<maplocation_t>, campspots: &mut Vec<campspot_t>)
    requires
        old(t).wf(),
    ensures
        final(t).wf(),
        forall|h: int| 0 <= h <= MAX_CLIENTS ==> (#[trigger] final(t).states@[h] is Some)
            == (h == 0 && old(t).states@[0] is Some),
        final(items).wf(),
        final(items).levelitemheap@.len() == 0,
        final(items).list@.len() == 0,
        final(items).numlevelitems == 0,
        *final(config) is None,
        final(locations)@.len() == 0,
        final(campspots)@.len() == 0,
{
    *config = None;
    *items = LevelItems::new();
    BotFreeInfoEntities(locations, campspots);
    let mut i: usize = 1;
    while i <= MAX_CLIENTS
        invariant
            t.wf(),
            1 <= i <= MAX_CLIENTS + 1,
            t.states@[0] == old(t).states@[0],
            forall|h: int| 1 <= h < i ==> !(#[trigger] t.states@[h] is Some),
        decreases MAX_CLIENTS + 1 - i,
    {
        if t.states[i].is_some() {
            let _ = BotFreeGoalState(t, i as i32);
        }
        i += 1;
    }
}

} // verus!
