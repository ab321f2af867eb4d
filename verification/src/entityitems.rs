//! The decisions that follow the item entities of a frame to the level
//! items (`BotUpdateEntityItems`): the level item an entity is linked to,
//! the unlinked level items an entity of a model may be linked to, and the
//! item kind of a model.  Whether an entity stands still and how far it is
//! from an item are float tests made by the caller.
use vstd::prelude::*;
use crate::itemgoals::{items_known, itemconfig_t, iteminfo_t, GT_SINGLE_PLAYER, GT_TEAM, IFL_NOTFREE, IFL_NOTSINGLE, IFL_NOTTEAM};
use crate::levelitems::{after, levelitem_t, LevelItems, NO_ITEM};

verus! {

/// Position of the first level item from `from` on that is linked to
/// entity `ent` (an entity number of zero links nothing).
pub open spec fn entity_item_pos(items: Seq<levelitem_t>, ent: i32, from: int) -> Option<int>
    decreases items.len() - from,
{
    if from < 0 || from >= items.len() {
        None
    } else if items[from].entitynum != 0 && items[from].entitynum == ent {
        Some(from)
    } else {
        entity_item_pos(items, ent, from + 1)
    }
}

/// The level item linked to entity `ent`, the first such in the level
/// list, as its handle.
pub fn BotLevelItemOfEntity(h: &LevelItems, ent: i32) -> (r: Option<i32>)
    requires
        h.wf(),
    ensures
        match entity_item_pos(h.level_items(), ent, 0) {
            Some(p) => r == Some(h.list@[p] as i32),
            None => r is None,
        },
{
    let ghost items = h.level_items();
    let ghost l = h.list@;
    let mut li = h.levelitems;
    let ghost mut pos: int = 0;
    while li != NO_ITEM
        invariant
            h.wf(),
            l == h.list@,
            items == h.level_items(),
            0 <= pos <= l.len(),
            li as int == if pos < l.len() { l[pos] } else { -1 },
            entity_item_pos(items, ent, 0) == entity_item_pos(items, ent, pos),
        decreases l.len() - pos,
    {
        proof {
            if pos >= l.len() {
                assert(false);
            }
            assert(0 <= l[pos] < h.levelitemheap@.len());
            assert(items[pos] == h.levelitemheap@[l[pos]]);
        }
        let it = h.levelitemheap[li as usize];
        if it.entitynum != 0 && it.entitynum == ent {
            return Some(li);
        }
        li = it.next;
        proof {
            assert(it.next as int == after(l, pos));
            pos = pos + 1;
        }
    }
    proof {
        if pos < l.len() {
            assert(0 <= l[pos] < h.levelitemheap@.len());
        }
    }
    None
}

/// Level item `it` may stand for an item in game type `gametype`.
pub open spec fn item_in_game(it: levelitem_t, gametype: i32) -> bool {
    if gametype == GT_SINGLE_PLAYER {
        it.flags & IFL_NOTSINGLE == 0
    } else if gametype >= GT_TEAM {
        it.flags & IFL_NOTTEAM == 0
    } else {
        it.flags & IFL_NOTFREE == 0
    }
}

/// Among the first `k` items of the level list, those linked to no entity,
/// in the game, and of a kind with model `modelindex`, as their handles.
pub open spec fn link_candidates(h: LevelItems, kinds: Seq<iteminfo_t>, gametype: i32, modelindex: i32, k: int)
    -> Seq<i32>
    decreases k,
{
    if k <= 0 {
        Seq::empty()
    } else {
        let prev = link_candidates(h, kinds, gametype, modelindex, k - 1);
        let it = h.level_items()[k - 1];
        if it.entitynum == 0 && item_in_game(it, gametype) && kinds[it.iteminfo as int].modelindex == modelindex {
            prev.push(h.list@[k - 1] as i32)
        } else {
            prev
        }
    }
}

/// The level items an item entity of model `modelindex` may be linked to,
/// in level list order: linked to no entity yet, in the game, and of a
/// kind with that model.  The caller links the entity to the first of them
/// that lies close to it.
pub fn BotLinkCandidates(h: &LevelItems, ic: &itemconfig_t, gametype: i32, modelindex: i32) -> (r: Vec<i32>)
    requires
        h.wf(),
        items_known(*h, *ic),
    ensures
        r@ == link_candidates(*h, ic.iteminfo@, gametype, modelindex, h.list@.len() as int),
{
    let ghost items = h.level_items();
    let ghost l = h.list@;
    let mut r: Vec<i32> = Vec::new();
    let mut li = h.levelitems;
    let ghost mut pos: int = 0;
    while li != NO_ITEM
        invariant
            h.wf(),
            items_known(*h, *ic),
            l == h.list@,
            items == h.level_items(),
            0 <= pos <= l.len(),
            li as int == if pos < l.len() { l[pos] } else { -1 },
            r@ == link_candidates(*h, ic.iteminfo@, gametype, modelindex, pos),
        decreases l.len() - pos,
    {
        proof {
            if pos >= l.len() {
                assert(false);
            }
            assert(0 <= l[pos] < h.levelitemheap@.len());
            assert(items[pos] == h.levelitemheap@[l[pos]]);
            assert(0 <= items[pos].iteminfo < ic.iteminfo@.len());
        }
        let it = h.levelitemheap[li as usize];
        let in_game = if gametype == GT_SINGLE_PLAYER {
            it.flags & IFL_NOTSINGLE == 0
        } else if gametype >= GT_TEAM {
            it.flags & IFL_NOTTEAM == 0
        } else {
            it.flags & IFL_NOTFREE == 0
        };
        if it.entitynum == 0 && in_game && ic.iteminfo[it.iteminfo as usize].modelindex == modelindex {
            r.push(li);
        }
        li = it.next;
        proof {
            assert(it.next as int == after(l, pos));
            pos = pos + 1;
        }
    }
    proof {
        if pos < l.len() {
            assert(0 <= l[pos] < h.levelitemheap@.len());
        }
    }
    r
}

/// The first item kind from `from` on with model `modelindex`.
pub open spec fn kind_of_model(kinds: Seq<iteminfo_t>, modelindex: i32, from: int) -> Option<int>
    decreases kinds.len() - from,
{
    if from < 0 || from >= kinds.len() {
        None
    } else if kinds[from].modelindex == modelindex {
        Some(from)
    } else {
        kind_of_model(kinds, modelindex, from + 1)
    }
}

/// The first item kind of the configuration with model `modelindex`, none
/// when the model is of no known item.
pub fn BotItemKindOfModel(ic: &itemconfig_t, modelindex: i32) -> (r: Option<i32>)
    requires
        ic.iteminfo@.len() <= i32::MAX,
    ensures
        match kind_of_model(ic.iteminfo@, modelindex, 0) {
            Some(k) => r == Some(k as i32),
            None => r is None,
        },
{
    let mut i: usize = 0;
    while i < ic.iteminfo.len()
        invariant
            i <= ic.iteminfo@.len(),
            ic.iteminfo@.len() <= i32::MAX,
            kind_of_model(ic.iteminfo@, modelindex, 0) == kind_of_model(ic.iteminfo@, modelindex, i as int),
        decreases ic.iteminfo@.len() - i,
    {
        if ic.iteminfo[i].modelindex == modelindex {
            return Some(i as i32);
        }
        i += 1;
    }
    None
}

/// In team games (`GT_TEAM` and above) the items an entity may be linked to
/// are exactly those of the level list not linked to an entity, without
/// the `IFL_NOTTEAM` flag, and of a kind with the entity's model; the
/// `IFL_NOTFREE` and `IFL_NOTSINGLE` flags play no part.
pub proof fn lemma_team_link_candidates(h: LevelItems, kinds: Seq<iteminfo_t>, gametype: i32, modelindex: i32, k: int)
    requires
        gametype >= GT_TEAM,
        0 <= k <= h.list@.len(),
    ensures
        forall|j: int| #![trigger link_candidates(h, kinds, gametype, modelindex, k)[j]]
            0 <= j < link_candidates(h, kinds, gametype, modelindex, k).len() ==>
            exists|p: int| #![trigger h.list@[p]] 0 <= p < k
                && link_candidates(h, kinds, gametype, modelindex, k)[j] == h.list@[p] as i32
                && h.level_items()[p].entitynum == 0
                && h.level_items()[p].flags & IFL_NOTTEAM == 0
                && kinds[h.level_items()[p].iteminfo as int].modelindex == modelindex,
        forall|p: int| #![trigger h.list@[p]] 0 <= p < k
            && h.level_items()[p].entitynum == 0
            && h.level_items()[p].flags & IFL_NOTTEAM == 0
            && kinds[h.level_items()[p].iteminfo as int].modelindex == modelindex
            ==> link_candidates(h, kinds, gametype, modelindex, k).contains(h.list@[p] as i32),
    decreases k,
{
    if k > 0 {
        lemma_team_link_candidates(h, kinds, gametype, modelindex, k - 1);
        let prev = link_candidates(h, kinds, gametype, modelindex, k - 1);
        let c = link_candidates(h, kinds, gametype, modelindex, k);
        let it = h.level_items()[k - 1];
        assert(item_in_game(it, gametype) == (it.flags & IFL_NOTTEAM == 0));
        if it.entitynum == 0 && item_in_game(it, gametype) && kinds[it.iteminfo as int].modelindex == modelindex {
            assert(c == prev.push(h.list@[k - 1] as i32));
            assert forall|j: int| #![trigger c[j]] 0 <= j < c.len() implies
                exists|p: int| #![trigger h.list@[p]] 0 <= p < k
                    && c[j] == h.list@[p] as i32
                    && h.level_items()[p].entitynum == 0
                    && h.level_items()[p].flags & IFL_NOTTEAM == 0
                    && kinds[h.level_items()[p].iteminfo as int].modelindex == modelindex by {
                if j < prev.len() {
                    assert(c[j] == prev[j]);
                    let p = choose|p: int| #![trigger h.list@[p]] 0 <= p < k - 1
                        && prev[j] == h.list@[p] as i32
                        && h.level_items()[p].entitynum == 0
                        && h.level_items()[p].flags & IFL_NOTTEAM == 0
                        && kinds[h.level_items()[p].iteminfo as int].modelindex == modelindex;
                    assert(h.list@[p] == h.list@[p]);
                } else {
                    assert(c[j] == h.list@[k - 1] as i32);
                }
            }
            assert forall|p: int| #![trigger h.list@[p]] 0 <= p < k
                && h.level_items()[p].entitynum == 0
                && h.level_items()[p].flags & IFL_NOTTEAM == 0
                && kinds[h.level_items()[p].iteminfo as int].modelindex == modelindex
                implies c.contains(h.list@[p] as i32) by {
                if p < k - 1 {
                    assert(prev.contains(h.list@[p] as i32));
                    let j = choose|j: int| 0 <= j < prev.len() && prev[j] == h.list@[p] as i32;
                    assert(c[j] == prev[j]);
                } else {
                    assert(c[prev.len() as int] == h.list@[p] as i32);
                }
            }
        } else {
            assert(c == prev);
            assert forall|p: int| #![trigger h.list@[p]] 0 <= p < k
                && h.level_items()[p].entitynum == 0
                && h.level_items()[p].flags & IFL_NOTTEAM == 0
                && kinds[h.level_items()[p].iteminfo as int].modelindex == modelindex
                implies c.contains(h.list@[p] as i32) by {
                if p == k - 1 {
                    assert(false);
                }
            }
        }
    }
}

} // verus!
