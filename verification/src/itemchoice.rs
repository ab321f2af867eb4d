//! The decisions of long and nearby term goal choice that need no floats:
//! the area the bot chooses from, the level items that may be chosen with
//! their weights, and the goal made of the item chosen.
//!
//! Weighing the candidates (fuzzy weights, travel times, avoid times) is
//! float work done by the caller.
use vstd::prelude::*;
use crate::aasworld::aas_s;
use crate::clusternum::{area_reach, AAS_AreaReachability};
use crate::goal::{bot_goal_s, BotGoalStateFromHandle, bot_goalstate_s, put_state, take_state, GoalStates};
use crate::weights::{weight_named, weightconfig_t, ItemWeightIndex};
use crate::itemgoals::{
    float_nonzero, item_allowed, item_goal, itemconfig_t, iteminfo_t, GFL_DROPPED, GFL_ITEM, GFL_ROAM,
    GT_SINGLE_PLAYER, GT_TEAM, IFL_NOTBOT, IFL_NOTFREE, IFL_NOTSINGLE, IFL_NOTTEAM, IFL_ROAM,
};
use crate::levelitems::{after, levelitem_t, LevelItems, NO_ITEM};

verus! {

pub const BLERR_NOERROR: i32 = 0;
pub const BLERR_CANNOTLOADITEMWEIGHTS: i32 = 1;

/// The area a bot in area `areanum` chooses goals from: that area when it
/// has reachabilities, else the last such area the bot was in.
pub open spec fn choice_area(w: aas_s, last: i32, areanum: i32) -> i32 {
    if areanum != 0 && area_reach(w, areanum as int) { areanum } else { last }
}

/// Chooses the area a bot in area `areanum` chooses its goals from, and
/// records it as the last area with reachabilities the bot was in (the
/// start of `BotChooseLTGItem` and `BotChooseNBGItem`).  Zero means the bot
/// is in solid and chooses nothing.
pub fn BotChoiceArea(gs: &mut bot_goalstate_s, w: &aas_s, areanum: i32) -> (r: i32)
    requires
        w.areasettings@.len() >= w.areas@.len(),
    ensures
        r == choice_area(*w, old(gs).lastreachabilityarea, areanum),
        *final(gs) == (bot_goalstate_s { lastreachabilityarea: r, ..*old(gs) }),
{
    let mut a = areanum;
    if a == 0 || AAS_AreaReachability(w, a) == 0 {
        a = gs.lastreachabilityarea;
    }
    gs.lastreachabilityarea = a;
    a
}

/// The number of the fuzzy weight of level item `it` when it may be chosen
/// in game type `gametype`: it is allowed, lies in a goal area, has an
/// entity or roams, and its kind has a weight in `index` (indexed by kind).
pub open spec fn item_weight_number(it: levelitem_t, index: Seq<i32>, gametype: i32) -> Option<i32> {
    if item_allowed(it, gametype) && it.goalareanum != 0 && !(it.entitynum == 0 && it.flags & IFL_ROAM == 0)
        && index[it.iteminfo as int] >= 0 {
        Some(index[it.iteminfo as int])
    } else {
        None
    }
}

/// The candidates among the first `k` items of the level list: each as its
/// item handle and weight number, in list order.
pub open spec fn choice_candidates(h: LevelItems, index: Seq<i32>, gametype: i32, k: int) -> Seq<(i32, i32)>
    decreases k,
{
    if k <= 0 {
        Seq::empty()
    } else {
        let prev = choice_candidates(h, index, gametype, k - 1);
        match item_weight_number(h.level_items()[k - 1], index, gametype) {
            Some(wn) => prev.push((h.list@[k - 1] as i32, wn)),
            None => prev,
        }
    }
}

/// Every level item is of a kind that `index` covers.
pub open spec fn kinds_indexed(h: LevelItems, index: Seq<i32>) -> bool {
    forall|i: int| 0 <= i < h.level_items().len() ==>
        0 <= #[trigger] h.level_items()[i].iteminfo < index.len()
}

/// The level items that may be chosen as goals in game type `gametype`,
/// with the numbers of their fuzzy weights in `index` (the weight index of
/// the item kinds), in level list order: the items that `BotChooseLTGItem`
/// and `BotChooseNBGItem` weigh.
pub fn BotChoiceCandidates(h: &LevelItems, index: &Vec<i32>, gametype: i32) -> (r: Vec<(i32, i32)>)
    requires
        h.wf(),
        kinds_indexed(*h, index@),
    ensures
        r@ == choice_candidates(*h, index@, gametype, h.list@.len() as int),
{
    let ghost items = h.level_items();
    let ghost l = h.list@;
    let mut r: Vec<(i32, i32)> = Vec::new();
    let mut li = h.levelitems;
    let ghost mut pos: int = 0;
    while li != NO_ITEM
        invariant
            h.wf(),
            kinds_indexed(*h, index@),
            l == h.list@,
            items == h.level_items(),
            0 <= pos <= l.len(),
            li as int == if pos < l.len() { l[pos] } else { -1 },
            r@ == choice_candidates(*h, index@, gametype, pos),
        decreases l.len() - pos,
    {
        proof {
            if pos >= l.len() {
                assert(false);
            }
            assert(0 <= l[pos] < h.levelitemheap@.len());
            assert(items[pos] == h.levelitemheap@[l[pos]]);
            assert(0 <= items[pos].iteminfo < index@.len());
        }
        let it = h.levelitemheap[li as usize];
        let allowed = if gametype == GT_SINGLE_PLAYER {
            it.flags & IFL_NOTSINGLE == 0
        } else if gametype >= GT_TEAM {
            it.flags & IFL_NOTTEAM == 0
        } else {
            it.flags & IFL_NOTFREE == 0
        } && it.flags & IFL_NOTBOT == 0;
        if allowed && it.goalareanum != 0 && !(it.entitynum == 0 && it.flags & IFL_ROAM == 0) {
            let wn = index[it.iteminfo as usize];
            if wn >= 0 {
                r.push((li, wn));
            }
        }
        li = it.next;
        proof {
            assert(it.next as int == after(l, pos));
            pos = pos + 1;
        }
    }
    proof {
        if pos < l.len() {
            assert(0 <= l[pos] < h.levelitemheap@.len());
        }
    }
    r
}

/// The goal made of level item `it` of kind `info` when it is chosen: an
/// item goal, marked dropped when it times out and roaming when it roams.
pub open spec fn chosen_item_goal(it: levelitem_t, info: iteminfo_t) -> bot_goal_s {
    bot_goal_s {
        flags: GFL_ITEM | (if float_nonzero(it.timeout) { GFL_DROPPED } else { 0 })
            | (if it.flags & IFL_ROAM != 0 { GFL_ROAM } else { 0 }),
        iteminfo: it.iteminfo,
        ..item_goal(it, info)
    }
}

/// The goal made of the level item chosen (the end of `BotChooseLTGItem`
/// and `BotChooseNBGItem`).
pub fn BotChosenItemGoal(it: &levelitem_t, ic: &itemconfig_t) -> (g: bot_goal_s)
    requires
        0 <= it.iteminfo < ic.iteminfo@.len(),
    ensures
        g == chosen_item_goal(*it, ic.iteminfo@[it.iteminfo as int]),
{
    let info = &ic.iteminfo[it.iteminfo as usize];
    let dropped: i32 = if it.timeout & 0x7fff_ffff != 0 { GFL_DROPPED } else { 0 };
    let roam: i32 = if it.flags & IFL_ROAM != 0 { GFL_ROAM } else { 0 };
    let flags = GFL_ITEM | dropped | roam;
    bot_goal_s {
        areanum: it.goalareanum,
        origin: it.goalorigin,
        mins: info.mins,
        maxs: info.maxs,
        entitynum: it.entitynum,
        number: it.number,
        flags: flags,
        iteminfo: it.iteminfo,
    }
}

/// Gives the bot of goal state `goalstate` the item weight configuration
/// `iwc`, as read from its file (none when it could not be read), and
/// indexes the item kinds of the configuration `ic` in it
/// (`BotLoadItemWeights`).  Gives `BLERR_CANNOTLOADITEMWEIGHTS` for an
/// unallocated handle (the states unchanged), for no weights, or when no
/// item configuration is loaded (the weights kept, the index as before);
/// else `BLERR_NOERROR`.
pub fn BotLoadItemWeights(t: &mut GoalStates, goalstate: i32, iwc: Option<weightconfig_t>,
    ic: &Option<itemconfig_t>) -> (r: i32)
    requires
        old(t).wf(),
        iwc matches Some(c) ==> c.weights@.len() <= i32::MAX,
    ensures
        final(t).wf(),
        !old(t).valid(goalstate as int) ==> r == BLERR_CANNOTLOADITEMWEIGHTS
            && final(t).states@ == old(t).states@,
        old(t).valid(goalstate as int) ==> {
            let s = old(t).state(goalstate as int);
            let s2 = final(t).state(goalstate as int);
            &&& final(t).states@ == old(t).states@.update(goalstate as int, Some(s2))
            &&& s2 == (bot_goalstate_s { itemweightconfig: iwc, itemweightindex: s2.itemweightindex, ..s })
            &&& match (iwc, ic) {
                (Some(c), Some(cfg)) => {
                    &&& r == BLERR_NOERROR
                    &&& s2.itemweightindex@.len() == cfg.iteminfo@.len()
                    &&& forall|i: int| 0 <= i < cfg.iteminfo@.len() ==> #[trigger] s2.itemweightindex@[i]
                        == weight_named(c.weights@, cfg.iteminfo@[i].classname@, 0)
                },
                _ => r == BLERR_CANNOTLOADITEMWEIGHTS && s2.itemweightindex == s.itemweightindex,
            }
        },
{
    let h = match BotGoalStateFromHandle(t, goalstate) {
        Ok(h) => h,
        Err(_) => {
            return BLERR_CANNOTLOADITEMWEIGHTS;
        },
    };
    let ghost t0 = *t;
    let mut s = take_state(t, h);
    let r = match iwc {
        None => {
            s.itemweightconfig = None;
            BLERR_CANNOTLOADITEMWEIGHTS
        },
        Some(c) => match ic {
            None => {
                s.itemweightconfig = Some(c);
                BLERR_CANNOTLOADITEMWEIGHTS
            },
            Some(cfg) => {
                let index = ItemWeightIndex(&c, cfg);
                s.itemweightconfig = Some(c);
                s.itemweightindex = index;
                BLERR_NOERROR
            },
        },
    };
    put_state(t, h, s, Ghost(t0));
    r
}

/// Drops the item weights of the bot of goal state `goalstate`
/// (`BotFreeItemWeights`); an unallocated handle changes nothing.
pub fn BotFreeItemWeights(t: &mut GoalStates, goalstate: i32)
    requires
        old(t).wf(),
    ensures
        final(t).wf(),
        !old(t).valid(goalstate as int) ==> final(t).states@ == old(t).states@,
        old(t).valid(goalstate as int) ==> {
            let s = old(t).state(goalstate as int);
            let s2 = final(t).state(goalstate as int);
            &&& final(t).states@ == old(t).states@.update(goalstate as int, Some(s2))
            &&& s2 == (bot_goalstate_s { itemweightconfig: None, itemweightindex: s2.itemweightindex, ..s })
            &&& s2.itemweightindex@.len() == 0
        },
{
    let h = match BotGoalStateFromHandle(t, goalstate) {
        Ok(h) => h,
        Err(_) => {
            return;
        },
    };
    let ghost t0 = *t;
    let mut s = take_state(t, h);
    s.itemweightconfig = None;
    s.itemweightindex = Vec::new();
    put_state(t, h, s, Ghost(t0));
}

/// Level item `p` of the list may be chosen in a team game: it has neither
/// the `IFL_NOTTEAM` nor the `IFL_NOTBOT` flag, lies in a goal area, has an
/// entity or roams, and its kind has a weight.
pub open spec fn team_choosable(h: LevelItems, index: Seq<i32>, p: int) -> bool {
    &&& h.level_items()[p].flags & IFL_NOTTEAM == 0
    && h.level_items()[p].flags & IFL_NOTBOT == 0
    && h.level_items()[p].goalareanum != 0
    && (h.level_items()[p].entitynum != 0 || h.level_items()[p].flags & IFL_ROAM != 0)
    && index[h.level_items()[p].iteminfo as int] >= 0
}

/// Candidate `c` is level item `p` among the first `k` of the list, a team
/// game's choosable item, with its kind's weight number.
pub open spec fn team_choice_of(h: LevelItems, index: Seq<i32>, c: (i32, i32), k: int) -> bool {
    exists|p: int| #![trigger h.list@[p]] 0 <= p < k && team_choosable(h, index, p)
        && c == (h.list@[p] as i32, index[h.level_items()[p].iteminfo as int])
}

/// In team games (`GT_TEAM` and above) the items a bot chooses from are
/// exactly those of the level list without the `IFL_NOTTEAM` and
/// `IFL_NOTBOT` flags, in a goal area, with an entity or roaming, and of a
/// kind with a weight, each with that weight's number; the `IFL_NOTFREE`
/// and `IFL_NOTSINGLE` flags play no part.
pub proof fn lemma_team_choice_candidates(h: LevelItems, index: Seq<i32>, gametype: i32, k: int)
    requires
        gametype >= GT_TEAM,
        0 <= k <= h.list@.len(),
    ensures
        forall|j: int| #![trigger choice_candidates(h, index, gametype, k)[j]]
            0 <= j < choice_candidates(h, index, gametype, k).len() ==> team_choice_of(h, index, choice_candidates(h, index, gametype, k)[j], k),
        forall|p: int| #![trigger h.list@[p]] 0 <= p < k && team_choosable(h, index, p)
            ==> choice_candidates(h, index, gametype, k).contains((h.list@[p] as i32, index[h.level_items()[p].iteminfo as int])),
    decreases k,
{
    if k > 0 {
        lemma_team_choice_candidates(h, index, gametype, k - 1);
        let it = h.level_items()[k - 1];
        let x = (h.list@[k - 1] as i32, index[it.iteminfo as int]);
        assert(item_weight_number(it, index, gametype)
            == (if team_choosable(h, index, k - 1) { Some(index[it.iteminfo as int]) } else { None }));
        assert forall|j: int| #![trigger choice_candidates(h, index, gametype, k)[j]] 0 <= j < choice_candidates(h, index, gametype, k).len() implies team_choice_of(h, index, choice_candidates(h, index, gametype, k)[j], k) by {
            if j < choice_candidates(h, index, gametype, k - 1).len() {
                assert(choice_candidates(h, index, gametype, k)[j] == choice_candidates(h, index, gametype, k - 1)[j]);
                assert(team_choice_of(h, index, choice_candidates(h, index, gametype, k - 1)[j], k - 1));
                let p = choose|p: int| #![trigger h.list@[p]] 0 <= p < k - 1 && team_choosable(h, index, p)
                    && choice_candidates(h, index, gametype, k - 1)[j] == (h.list@[p] as i32, index[h.level_items()[p].iteminfo as int]);
                assert(h.list@[p] == h.list@[p]);
            } else {
                assert(choice_candidates(h, index, gametype, k)[j] == x);
                assert(h.list@[k - 1] == h.list@[k - 1]);
            }
        }
        assert forall|p: int| #![trigger h.list@[p]] 0 <= p < k && team_choosable(h, index, p)
            implies choice_candidates(h, index, gametype, k).contains((h.list@[p] as i32, index[h.level_items()[p].iteminfo as int])) by {
            let y = (h.list@[p] as i32, index[h.level_items()[p].iteminfo as int]);
            if p < k - 1 {
                assert(choice_candidates(h, index, gametype, k - 1).contains(y));
                let j = choose|j: int| #![trigger choice_candidates(h, index, gametype, k - 1)[j]] 0 <= j < choice_candidates(h, index, gametype, k - 1).len() && choice_candidates(h, index, gametype, k - 1)[j] == y;
                assert(choice_candidates(h, index, gametype, k)[j] == choice_candidates(h, index, gametype, k - 1)[j]);
            } else {
                assert(choice_candidates(h, index, gametype, k)[choice_candidates(h, index, gametype, k - 1).len() as int] == x);
            }
        }
    }
}

} // verus!
