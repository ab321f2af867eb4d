//! The entities of the AAS world: what the bot library knows of each game
//! entity, and the links of the entity into the areas.
use vstd::prelude::*;
use crate::aasfile::Vec3Bits;
use crate::aasworld::aas_s;
use crate::links::{
    area_chain, chains_kept, entity_linked, link_tree_ready, AasLinks, AAS_AASLinkEntity, AAS_UnlinkFromAreas, LinkEnd, NO_LINK,
};

verus! {

pub const ET_GENERAL: i32 = 0;
pub const ET_PLAYER: i32 = 1;
pub const ET_ITEM: i32 = 2;
pub const ET_MISSILE: i32 = 3;
pub const ET_MOVER: i32 = 4;

/// What is known of an entity.  The coordinates are floats, carried as
/// their bit patterns.
#[derive(Clone, Copy, Debug, PartialEq, Eq, Structural)]
pub struct aas_entityinfo_s {
    pub update_time: i32,
    pub type_: i32,
    pub flags: i32,
    pub ltime: i32,
    pub lastvisorigin: Vec3Bits,
    pub old_origin: Vec3Bits,
    pub solid: i32,
    pub groundent: i32,
    pub modelindex: i32,
    pub modelindex2: i32,
    pub frame: i32,
    pub event: i32,
    pub eventParm: i32,
    pub powerups: i32,
    pub weapon: i32,
    pub legsAnim: i32,
    pub torsoAnim: i32,
    pub number: i32,
    pub valid: i32,
    pub origin: Vec3Bits,
    pub mins: Vec3Bits,
    pub maxs: Vec3Bits,
    pub angles: Vec3Bits,
}

pub type aas_entityinfo_t = aas_entityinfo_s;

/// An entity of the AAS world.
#[derive(Clone, Copy, Debug, PartialEq, Eq, Structural)]
pub struct aas_entity_s {
    /// entity info
    pub i: aas_entityinfo_t,
    /// first of the links of the entity into the areas, or no link
    pub areas: i32,
    /// first of the links of the entity into the BSP leaves, or no link
    pub leaves: i32,
}

pub type aas_entity_t = aas_entity_s;

/// Why an entity could not be read.
#[derive(Clone, Copy, Debug, PartialEq, Eq, Structural)]
pub enum EntityError {
    /// the AAS world is not initialized
    NotInitialized,
    /// the entity number is not that of an entity
    OutOfRange,
}

pub open spec fn zero_vec() -> Vec3Bits {
    Vec3Bits { x: 0, y: 0, z: 0 }
}

/// The entity info with every field zero.
pub open spec fn zero_info() -> aas_entityinfo_s {
    aas_entityinfo_s {
        update_time: 0, type_: 0, flags: 0, ltime: 0,
        lastvisorigin: zero_vec(), old_origin: zero_vec(),
        solid: 0, groundent: 0, modelindex: 0, modelindex2: 0,
        frame: 0, event: 0, eventParm: 0, powerups: 0, weapon: 0,
        legsAnim: 0, torsoAnim: 0, number: 0, valid: 0,
        origin: zero_vec(), mins: zero_vec(), maxs: zero_vec(), angles: zero_vec(),
    }
}

fn zero_vec3() -> (v: Vec3Bits)
    ensures
        v == zero_vec(),
{
    Vec3Bits { x: 0, y: 0, z: 0 }
}

/// `entnum` is the number of an entity of `ents`.
pub open spec fn in_range(ents: Seq<aas_entity_t>, entnum: i32) -> bool {
    0 <= entnum < ents.len()
}

/// Copies the info of entity `entnum` into `info` (`AAS_EntityInfo`).  When
/// the world is not initialized or there is no such entity, `info` is
/// zeroed and the error says why.
pub fn AAS_EntityInfo(w: &aas_s, ents: &Vec<aas_entity_t>, entnum: i32, info: &mut aas_entityinfo_s)
    -> (r: Result<(), EntityError>)
    ensures
        !w.initialized ==> r == Err::<(), EntityError>(EntityError::NotInitialized) && *final(info) == zero_info(),
        w.initialized && !in_range(ents@, entnum) ==> r == Err::<(), EntityError>(EntityError::OutOfRange)
            && *final(info) == zero_info(),
        w.initialized && in_range(ents@, entnum) ==> r is Ok && *final(info) == ents@[entnum as int].i,
{
    if !w.initialized {
        *info = aas_entityinfo_s {
            update_time: 0, type_: 0, flags: 0, ltime: 0,
            lastvisorigin: zero_vec3(), old_origin: zero_vec3(),
            solid: 0, groundent: 0, modelindex: 0, modelindex2: 0,
            frame: 0, event: 0, eventParm: 0, powerups: 0, weapon: 0,
            legsAnim: 0, torsoAnim: 0, number: 0, valid: 0,
            origin: zero_vec3(), mins: zero_vec3(), maxs: zero_vec3(), angles: zero_vec3(),
        };
        return Err(EntityError::NotInitialized);
    }
    if entnum < 0 || entnum as usize >= ents.len() {
        *info = aas_entityinfo_s {
            update_time: 0, type_: 0, flags: 0, ltime: 0,
            lastvisorigin: zero_vec3(), old_origin: zero_vec3(),
            solid: 0, groundent: 0, modelindex: 0, modelindex2: 0,
            frame: 0, event: 0, eventParm: 0, powerups: 0, weapon: 0,
            legsAnim: 0, torsoAnim: 0, number: 0, valid: 0,
            origin: zero_vec3(), mins: zero_vec3(), maxs: zero_vec3(), angles: zero_vec3(),
        };
        return Err(EntityError::OutOfRange);
    }
    *info = ents[entnum as usize].i;
    Ok(())
}

/// Copies the origin of entity `entnum` (`AAS_EntityOrigin`); when there is
/// no such entity the origin is cleared and the error given.
pub fn AAS_EntityOrigin(ents: &Vec<aas_entity_t>, entnum: i32, origin: &mut Vec3Bits) -> (r: Result<(), EntityError>)
    ensures
        in_range(ents@, entnum) ==> r is Ok && *final(origin) == ents@[entnum as int].i.origin,
        !in_range(ents@, entnum) ==> r == Err::<(), EntityError>(EntityError::OutOfRange)
            && *final(origin) == zero_vec(),
{
    if entnum < 0 || entnum as usize >= ents.len() {
        *origin = zero_vec3();
        return Err(EntityError::OutOfRange);
    }
    *origin = ents[entnum as usize].i.origin;
    Ok(())
}

/// The model index of entity `entnum` (`AAS_EntityModelindex`); an error
/// (where the value read is 0) when there is no such entity.
pub fn AAS_EntityModelindex(ents: &Vec<aas_entity_t>, entnum: i32) -> (r: Result<i32, EntityError>)
    ensures
        in_range(ents@, entnum) ==> r == Ok::<i32, EntityError>(ents@[entnum as int].i.modelindex),
        !in_range(ents@, entnum) ==> r == Err::<i32, EntityError>(EntityError::OutOfRange),
{
    if entnum < 0 || entnum as usize >= ents.len() {
        return Err(EntityError::OutOfRange);
    }
    Ok(ents[entnum as usize].i.modelindex)
}

/// The type of entity `entnum` (`AAS_EntityType`): 0 while the world is not
/// initialized; an error (where the value read is 0) when there is no such
/// entity.
pub fn AAS_EntityType(w: &aas_s, ents: &Vec<aas_entity_t>, entnum: i32) -> (r: Result<i32, EntityError>)
    ensures
        !w.initialized ==> r == Ok::<i32, EntityError>(0),
        w.initialized && in_range(ents@, entnum) ==> r == Ok::<i32, EntityError>(ents@[entnum as int].i.type_),
        w.initialized && !in_range(ents@, entnum) ==> r == Err::<i32, EntityError>(EntityError::OutOfRange),
{
    if !w.initialized {
        return Ok(0);
    }
    if entnum < 0 || entnum as usize >= ents.len() {
        return Err(EntityError::OutOfRange);
    }
    Ok(ents[entnum as usize].i.type_)
}

/// The model number of entity `entnum` (`AAS_EntityModelNum`): 0 while the
/// world is not initialized; an error (where the value read is 0) when
/// there is no such entity.
pub fn AAS_EntityModelNum(w: &aas_s, ents: &Vec<aas_entity_t>, entnum: i32) -> (r: Result<i32, EntityError>)
    ensures
        !w.initialized ==> r == Ok::<i32, EntityError>(0),
        w.initialized && in_range(ents@, entnum) ==> r == Ok::<i32, EntityError>(ents@[entnum as int].i.modelindex),
        w.initialized && !in_range(ents@, entnum) ==> r == Err::<i32, EntityError>(EntityError::OutOfRange),
{
    if !w.initialized {
        return Ok(0);
    }
    if entnum < 0 || entnum as usize >= ents.len() {
        return Err(EntityError::OutOfRange);
    }
    Ok(ents[entnum as usize].i.modelindex)
}

/// Copies the bounding box of entity `entnum` (`AAS_EntitySize`); nothing
/// is copied while the world is not initialized, nor, with an error, when
/// there is no such entity.
pub fn AAS_EntitySize(w: &aas_s, ents: &Vec<aas_entity_t>, entnum: i32, mins: &mut Vec3Bits, maxs: &mut Vec3Bits)
    -> (r: Result<(), EntityError>)
    ensures
        !w.initialized ==> r is Ok && *final(mins) == *old(mins) && *final(maxs) == *old(maxs),
        w.initialized && in_range(ents@, entnum) ==> r is Ok
            && *final(mins) == ents@[entnum as int].i.mins && *final(maxs) == ents@[entnum as int].i.maxs,
        w.initialized && !in_range(ents@, entnum) ==> r == Err::<(), EntityError>(EntityError::OutOfRange)
            && *final(mins) == *old(mins) && *final(maxs) == *old(maxs),
{
    if !w.initialized {
        return Ok(());
    }
    if entnum < 0 || entnum as usize >= ents.len() {
        return Err(EntityError::OutOfRange);
    }
    *mins = ents[entnum as usize].i.mins;
    *maxs = ents[entnum as usize].i.maxs;
    Ok(())
}

/// Position of the first mover from `from` on with model `modelnum`.
pub open spec fn first_mover(ents: Seq<aas_entity_t>, modelnum: i32, from: int) -> Option<int>
    decreases ents.len() - from,
{
    if from < 0 || from >= ents.len() {
        None
    } else if ents[from].i.type_ == ET_MOVER && ents[from].i.modelindex == modelnum {
        Some(from)
    } else {
        first_mover(ents, modelnum, from + 1)
    }
}

/// Finds the first mover with model `modelnum` and copies its origin
/// (`AAS_OriginOfMoverWithModelNum`); false, with the origin left, when
/// there is none.
pub fn AAS_OriginOfMoverWithModelNum(ents: &Vec<aas_entity_t>, modelnum: i32, origin: &mut Vec3Bits) -> (r: bool)
    ensures
        match first_mover(ents@, modelnum, 0) {
            Some(p) => r && *final(origin) == ents@[p].i.origin,
            None => !r && *final(origin) == *old(origin),
        },
{
    let mut i: usize = 0;
    while i < ents.len()
        invariant
            0 <= i <= ents@.len(),
            first_mover(ents@, modelnum, 0) == first_mover(ents@, modelnum, i as int),
            *origin == *old(origin),
        decreases ents@.len() - i,
    {
        if ents[i].i.type_ == ET_MOVER && ents[i].i.modelindex == modelnum {
            *origin = ents[i].i.origin;
            return true;
        }
        i = i + 1;
    }
    false
}

/// Forgets the links of every entity (`AAS_ResetEntityLinks`): no entity is
/// linked into areas or leaves any more; the infos stay.
pub fn AAS_ResetEntityLinks(ents: &mut Vec<aas_entity_t>)
    ensures
        final(ents)@.len() == old(ents)@.len(),
        forall|e: int| 0 <= e < final(ents)@.len() ==> {
            &&& (#[trigger] final(ents)@[e]).areas == NO_LINK
            &&& final(ents)@[e].leaves == NO_LINK
            &&& final(ents)@[e].i == old(ents)@[e].i
        },
{
    let mut i: usize = 0;
    while i < ents.len()
        invariant
            0 <= i <= ents@.len(),
            ents@.len() == old(ents)@.len(),
            forall|e: int| 0 <= e < i ==> {
                &&& (#[trigger] ents@[e]).areas == NO_LINK
                &&& ents@[e].leaves == NO_LINK
                &&& ents@[e].i == old(ents)@[e].i
            },
            forall|e: int| i <= e < ents@.len() ==> #[trigger] ents@[e] == old(ents)@[e],
        decreases ents@.len() - i,
    {
        let mut ent = ents[i];
        ent.areas = NO_LINK;
        ent.leaves = NO_LINK;
        ents.set(i, ent);
        i = i + 1;
    }
}

/// Marks every entity invalid and numbers it by its place
/// (`AAS_InvalidateEntities`); nothing else changes.
pub fn AAS_InvalidateEntities(ents: &mut Vec<aas_entity_t>)
    requires
        old(ents)@.len() <= i32::MAX,
    ensures
        final(ents)@.len() == old(ents)@.len(),
        forall|e: int| 0 <= e < final(ents)@.len() ==> #[trigger] final(ents)@[e] == (aas_entity_s {
            i: aas_entityinfo_s { valid: 0, number: e as i32, ..old(ents)@[e].i },
            ..old(ents)@[e]
        }),
{
    let mut i: usize = 0;
    while i < ents.len()
        invariant
            0 <= i <= ents@.len(),
            ents@.len() == old(ents)@.len(),
            ents@.len() <= i32::MAX,
            forall|e: int| 0 <= e < i ==> #[trigger] ents@[e] == (aas_entity_s {
                i: aas_entityinfo_s { valid: 0, number: e as i32, ..old(ents)@[e].i },
                ..old(ents)@[e]
            }),
            forall|e: int| i <= e < ents@.len() ==> #[trigger] ents@[e] == old(ents)@[e],
        decreases ents@.len() - i,
    {
        let mut ent = ents[i];
        ent.i.valid = 0;
        ent.i.number = i as i32;
        ents.set(i, ent);
        i = i + 1;
    }
}

/// The first valid entity after `entnum`.
pub open spec fn next_valid(ents: Seq<aas_entity_t>, from: int) -> int
    decreases ents.len() - from,
{
    if from < 0 || from >= ents.len() {
        0
    } else if ents[from].i.valid != 0 {
        from
    } else {
        next_valid(ents, from + 1)
    }
}

/// The number of the first valid entity after `entnum`, searching from
/// entity 0 when `entnum` is negative (`AAS_NextEntity`); 0 when there is
/// none or no AAS file is loaded.
pub fn AAS_NextEntity(w: &aas_s, ents: &Vec<aas_entity_t>, entnum: i32) -> (r: i32)
    requires
        ents@.len() <= i32::MAX,
        entnum < i32::MAX,
    ensures
        !w.loaded ==> r == 0,
        w.loaded ==> r == next_valid(ents@, if entnum < 0 { 0 } else { entnum + 1 }),
{
    if !w.loaded {
        return 0;
    }
    let mut e: i32 = if entnum < 0 { 0 } else { entnum + 1 };
    let ghost start: int = e as int;
    while (e as usize) < ents.len()
        invariant
            0 <= e,
            w.loaded,
            start == (if entnum < 0 { 0 } else { entnum + 1 }),
            ents@.len() <= i32::MAX,
            next_valid(ents@, start) == next_valid(ents@, e as int),
        decreases ents@.len() - e,
    {
        if ents[e as usize].i.valid != 0 {
            return e;
        }
        e = e + 1;
    }
    0
}

/// The links of the chain starting at `head`, through the area fields.
pub open spec fn chain_of(h: AasLinks, head: i32) -> Seq<int> {
    choose|s: Seq<int>| area_chain(h, head, s)
}

/// A chain of links through the area fields starts at `head`.
pub open spec fn has_chain(h: AasLinks, head: i32) -> bool {
    exists|s: Seq<int>| area_chain(h, head, s)
}

/// Every entity's links into the areas form a chain, and no link is in the
/// chains of two entities.
pub open spec fn entity_chains(h: AasLinks, ents: Seq<aas_entity_t>) -> bool {
    &&& forall|e: int| 0 <= e < ents.len() ==> has_chain(h, #[trigger] ents[e].areas)
    &&& forall|e1: int, e2: int, y: int| 0 <= e1 < ents.len() && 0 <= e2 < ents.len()
        && #[trigger] chain_of(h, ents[e1].areas).contains(y) && #[trigger] chain_of(h, ents[e2].areas).contains(y)
        ==> e1 == e2
}

/// Link `y` is in the chain of one of the first `n` entities that is not
/// valid.
pub open spec fn unlinked_by(h: AasLinks, ents: Seq<aas_entity_t>, n: int, y: int) -> bool {
    exists|e: int| 0 <= e < n && ents[e].i.valid == 0 && #[trigger] chain_of(h, ents[e].areas).contains(y)
}

/// Unlinks every entity that is not valid from its areas
/// (`AAS_UnlinkInvalidEntities`): its links go back on the free list and it
/// has no links any more; the valid entities and their links stay.
pub fn AAS_UnlinkInvalidEntities(h: &mut AasLinks, ents: &mut Vec<aas_entity_t>)
    requires
        old(h).wf(),
        entity_chains(*old(h), old(ents)@),
    ensures
        final(h).wf(),
        final(ents)@.len() == old(ents)@.len(),
        forall|e: int| 0 <= e < final(ents)@.len() ==> #[trigger] final(ents)@[e] == (
            if old(ents)@[e].i.valid == 0 {
                aas_entity_s { areas: NO_LINK, leaves: NO_LINK, ..old(ents)@[e] }
            } else {
                old(ents)@[e]
            }),
        forall|y: int| 0 <= y < old(h).linkheap@.len() ==> #[trigger] final(h).owner@[y] == (
            if unlinked_by(*old(h), old(ents)@, old(ents)@.len() as int, y) { -1 } else { old(h).owner@[y] }),
        final(h).linkheap@.len() == old(h).linkheap@.len(),
        final(h).area_lists@.len() == old(h).area_lists@.len(),
{
    let ghost h0 = *h;
    let ghost e0 = ents@;
    let mut i: usize = 0;
    while i < ents.len()
        invariant
            h.wf(),
            h0.wf(),
            entity_chains(h0, e0),
            ents@.len() == e0.len(),
            0 <= i <= e0.len(),
            h.linkheap@.len() == h0.linkheap@.len(),
            h.area_lists@.len() == h0.area_lists@.len(),
            forall|e: int| 0 <= e < i ==> #[trigger] ents@[e] == (
                if e0[e].i.valid == 0 {
                    aas_entity_s { areas: NO_LINK, leaves: NO_LINK, ..e0[e] }
                } else {
                    e0[e]
                }),
            forall|e: int| i <= e < e0.len() ==> #[trigger] ents@[e] == e0[e],
            forall|e: int| i <= e < e0.len() ==> area_chain(*h, #[trigger] e0[e].areas, chain_of(h0, e0[e].areas)),
            forall|y: int| 0 <= y < h0.linkheap@.len() ==> #[trigger] h.owner@[y] == (
                if unlinked_by(h0, e0, i as int, y) { -1 } else { h0.owner@[y] }),
        decreases e0.len() - i,
    {
        let ent = ents[i];
        if ent.i.valid == 0 {
            let ghost hb = *h;
            let ghost si = chain_of(h0, e0[i as int].areas);
            proof {
                assert(area_chain(hb, ent.areas, si));
            }
            AAS_UnlinkFromAreas(h, ent.areas);
            proof {
                assert(chains_kept(hb, h.linkheap@, si));
                assert forall|e: int| i + 1 <= e < e0.len() implies
                    area_chain(*h, #[trigger] e0[e].areas, chain_of(h0, e0[e].areas)) by {
                    let t = chain_of(h0, e0[e].areas);
                    assert(area_chain(hb, e0[e].areas, t));
                    assert forall|j: int| 0 <= j < t.len() implies !si.contains(#[trigger] t[j]) by {
                        if si.contains(t[j]) {
                            assert(chain_of(h0, e0[i as int].areas).contains(t[j]));
                            assert(chain_of(h0, e0[e].areas).contains(t[j]));
                        }
                    }
                    assert forall|j: int| 0 <= j < t.len() implies {
                        &&& 0 <= #[trigger] t[j] < h.linkheap@.len()
                        &&& h.linkheap@[t[j]].next_area as int == crate::links::next_in(t, j)
                        &&& h.linkheap@[t[j]].prev_area as int == crate::links::prev_in(t, j)
                        &&& 0 <= h.owner@[t[j]] < h.area_lists@.len()
                    } by {
                        assert(!si.contains(t[j]));
                        assert(0 <= hb.owner@[t[j]]);
                        assert(h.linkheap@[t[j]].next_area == hb.linkheap@[t[j]].next_area);
                    }
                }
                assert forall|y: int| 0 <= y < h0.linkheap@.len() implies #[trigger] h.owner@[y] == (
                    if unlinked_by(h0, e0, i + 1, y) { -1 } else { h0.owner@[y] }) by {
                    if si.contains(y) {
                        assert(unlinked_by(h0, e0, i + 1, y)) by {
                            assert(chain_of(h0, e0[i as int].areas).contains(y));
                        }
                    } else {
                        if unlinked_by(h0, e0, i + 1, y) {
                            let e = choose|e: int| 0 <= e < i + 1 && e0[e].i.valid == 0
                                && #[trigger] chain_of(h0, e0[e].areas).contains(y);
                            assert(e != i);
                            assert(unlinked_by(h0, e0, i as int, y));
                        } else {
                            assert(!unlinked_by(h0, e0, i as int, y));
                        }
                    }
                }
            }
            let mut ne = ent;
            ne.areas = NO_LINK;
            ne.leaves = NO_LINK;
            ents.set(i, ne);
        } else {
            proof {
                assert forall|y: int| 0 <= y < h0.linkheap@.len() implies
                    unlinked_by(h0, e0, i + 1, y) == unlinked_by(h0, e0, i as int, y) by {
                    if unlinked_by(h0, e0, i + 1, y) {
                        let e = choose|e: int| 0 <= e < i + 1 && e0[e].i.valid == 0
                            && #[trigger] chain_of(h0, e0[e].areas).contains(y);
                        assert(e != i);
                    }
                }
            }
        }
        i = i + 1;
    }
}

pub const BLERR_NOERROR: i32 = 0;
pub const BLERR_NOAASFILE: i32 = 1;
pub const SOLID_BBOX: i32 = 1;
pub const SOLID_BSP: i32 = 3;
pub const ENTITYNUM_WORLD: i32 = 0;

/// The state of an entity as the game hands it over.  The coordinates are
/// floats, carried as their bit patterns.
#[derive(Clone, Copy, Debug, PartialEq, Eq, Structural)]
pub struct bot_entitystate_s {
    pub type_: i32,
    pub flags: i32,
    pub old_origin: Vec3Bits,
    pub solid: i32,
    pub groundent: i32,
    pub modelindex: i32,
    pub modelindex2: i32,
    pub frame: i32,
    pub event: i32,
    pub eventParm: i32,
    pub powerups: i32,
    pub weapon: i32,
    pub legsAnim: i32,
    pub torsoAnim: i32,
    pub angles: Vec3Bits,
    pub origin: Vec3Bits,
    pub mins: Vec3Bits,
    pub maxs: Vec3Bits,
}

pub type bot_entitystate_t = bot_entitystate_s;

/// The float with bit pattern `b` is not a number.
pub open spec fn float_is_nan(b: u32) -> bool {
    b & 0x7f80_0000 == 0x7f80_0000 && b & 0x007f_ffff != 0
}

/// The floats with bit patterns `a` and `b` compare equal: neither is not a
/// number, and they are the same or both are zero (of either sign).
pub open spec fn float_eq(a: u32, b: u32) -> bool {
    !float_is_nan(a) && !float_is_nan(b) && (a == b || (a & 0x7fff_ffff == 0 && b & 0x7fff_ffff == 0))
}

/// The two vectors compare equal, coordinate by coordinate.
pub open spec fn vec_eq(a: Vec3Bits, b: Vec3Bits) -> bool {
    float_eq(a.x, b.x) && float_eq(a.y, b.y) && float_eq(a.z, b.z)
}

fn float_eq_bits(a: u32, b: u32) -> (r: bool)
    ensures
        r == float_eq(a, b),
{
    let a_nan = a & 0x7f80_0000 == 0x7f80_0000 && a & 0x007f_ffff != 0;
    let b_nan = b & 0x7f80_0000 == 0x7f80_0000 && b & 0x007f_ffff != 0;
    !a_nan && !b_nan && (a == b || (a & 0x7fff_ffff == 0 && b & 0x7fff_ffff == 0))
}

fn vec_eq_bits(a: Vec3Bits, b: Vec3Bits) -> (r: bool)
    ensures
        r == vec_eq(a, b),
{
    float_eq_bits(a.x, b.x) && float_eq_bits(a.y, b.y) && float_eq_bits(a.z, b.z)
}

/// The bounding box changed: a solid box entity whose mins or maxs differ.
pub open spec fn box_changed(i: aas_entityinfo_s, st: bot_entitystate_s) -> bool {
    st.solid == SOLID_BBOX && !(vec_eq(st.mins, i.mins) && vec_eq(st.maxs, i.maxs))
}

/// The info of an entity after the update with state `st` at time `time`.
pub open spec fn updated_info(i: aas_entityinfo_s, st: bot_entitystate_s, entnum: i32, time: i32) -> aas_entityinfo_s {
    aas_entityinfo_s {
        update_time: (time - i.ltime) as i32,
        type_: st.type_,
        flags: st.flags,
        ltime: time,
        lastvisorigin: i.origin,
        old_origin: st.old_origin,
        solid: st.solid,
        groundent: st.groundent,
        modelindex: st.modelindex,
        modelindex2: st.modelindex2,
        frame: st.frame,
        event: st.event,
        eventParm: st.eventParm,
        powerups: st.powerups,
        weapon: st.weapon,
        legsAnim: st.legsAnim,
        torsoAnim: st.torsoAnim,
        number: entnum,
        valid: 1,
        origin: if vec_eq(st.origin, i.origin) { i.origin } else { st.origin },
        mins: if box_changed(i, st) { st.mins } else { i.mins },
        maxs: if box_changed(i, st) { st.maxs } else { i.maxs },
        angles: if st.solid == SOLID_BSP {
            if vec_eq(st.angles, i.angles) { i.angles } else { st.angles }
        } else if st.solid == SOLID_BBOX {
            st.angles
        } else {
            i.angles
        },
    }
}

/// The entity has to be linked anew: in the first frame, or when its model
/// turned, its box changed or it moved.
pub open spec fn needs_relink(i: aas_entityinfo_s, st: bot_entitystate_s, numframes: i32) -> bool {
    ||| numframes == 1
    ||| (st.solid == SOLID_BSP && !vec_eq(st.angles, i.angles))
    ||| box_changed(i, st)
    ||| !vec_eq(st.origin, i.origin)
}

/// What is left to do after `AAS_UpdateEntity` took the state of an entity.
#[derive(Clone, Copy, Debug, PartialEq, Eq, Structural)]
pub struct EntityUpdate {
    /// `BLERR_NOERROR`, or `BLERR_NOAASFILE` when no AAS file is loaded
    pub result: i32,
    /// the entity is a BSP model whose mins and maxs are to be fetched for
    /// its angles
    pub model_bounds: bool,
    /// the entity is to be linked anew into the areas its box touches
    pub relink: bool,
}

/// Takes the state `state` of entity `entnum` at time `time`
/// (`AAS_UpdateEntity`).  Without an AAS file nothing changes.  Without a
/// state the entity is unlinked from its areas and leaves.  Else its info
/// is updated and marked valid; the result tells whether the bounds of its
/// BSP model are to be fetched and whether it is to be linked anew, which
/// the world entity never is.
pub fn AAS_UpdateEntity(w: &aas_s, h: &mut AasLinks, ents: &mut Vec<aas_entity_t>, entnum: i32,
    state: &Option<bot_entitystate_s>, time: i32) -> (r: EntityUpdate)
    requires
        old(h).wf(),
        0 <= entnum < old(ents)@.len(),
        has_chain(*old(h), old(ents)@[entnum as int].areas),
        i32::MIN <= time - old(ents)@[entnum as int].i.ltime <= i32::MAX,
    ensures
        final(h).wf(),
        final(ents)@.len() == old(ents)@.len(),
        !w.loaded ==> r == (EntityUpdate { result: BLERR_NOAASFILE, model_bounds: false, relink: false })
            && *final(h) == *old(h) && final(ents)@ == old(ents)@,
        w.loaded ==> r.result == BLERR_NOERROR,
        w.loaded && *state is None ==> {
            &&& !r.model_bounds && !r.relink
            &&& final(ents)@ == old(ents)@.update(entnum as int,
                aas_entity_s { areas: NO_LINK, leaves: NO_LINK, ..old(ents)@[entnum as int] })
            &&& unlinked_from(*old(h), *final(h), old(ents)@[entnum as int].areas)
            &&& forall|y: int| 0 <= y < old(h).linkheap@.len() ==> #[trigger] final(h).owner@[y] == (
                if chain_of(*old(h), old(ents)@[entnum as int].areas).contains(y) { -1 } else { old(h).owner@[y] })
        },
        w.loaded ==> (*state matches Some(st) ==> {
            let e = old(ents)@[entnum as int];
            &&& *final(h) == *old(h)
            &&& final(ents)@ == old(ents)@.update(entnum as int,
                aas_entity_s { i: updated_info(e.i, st, entnum, time), ..e })
            &&& r.model_bounds == (st.solid == SOLID_BSP)
            &&& r.relink == (needs_relink(e.i, st, w.numframes) && entnum != ENTITYNUM_WORLD)
            &&& st.solid == SOLID_BBOX ==> {
                let ni = final(ents)@[entnum as int].i;
                &&& ni.mins == st.mins || vec_eq(st.mins, ni.mins)
                &&& ni.maxs == st.maxs || vec_eq(st.maxs, ni.maxs)
            }
        }),
{
    if !w.loaded {
        return EntityUpdate { result: BLERR_NOAASFILE, model_bounds: false, relink: false };
    }
    let e = entnum as usize;
    match state {
        None => {
            let ghost s = chain_of(*h, ents@[e as int].areas);
            AAS_UnlinkFromAreas(h, ents[e].areas);
            let mut ne = ents[e];
            ne.areas = NO_LINK;
            ne.leaves = NO_LINK;
            ents.set(e, ne);
            EntityUpdate { result: BLERR_NOERROR, model_bounds: false, relink: false }
        },
        Some(st) => {
            let mut ent = ents[e];
            ent.i.update_time = time - ent.i.ltime;
            ent.i.type_ = st.type_;
            ent.i.flags = st.flags;
            ent.i.ltime = time;
            ent.i.lastvisorigin = ent.i.origin;
            ent.i.old_origin = st.old_origin;
            ent.i.solid = st.solid;
            ent.i.groundent = st.groundent;
            ent.i.modelindex = st.modelindex;
            ent.i.modelindex2 = st.modelindex2;
            ent.i.frame = st.frame;
            ent.i.event = st.event;
            ent.i.eventParm = st.eventParm;
            ent.i.powerups = st.powerups;
            ent.i.weapon = st.weapon;
            ent.i.legsAnim = st.legsAnim;
            ent.i.torsoAnim = st.torsoAnim;
            //number of the entity
            ent.i.number = entnum;
            //updated so set valid flag
            ent.i.valid = 1;
            //link everything the first frame
            let mut relink = w.numframes == 1;
            let mut model_bounds = false;
            if ent.i.solid == SOLID_BSP {
                //if the angles of the model changed
                if !vec_eq_bits(st.angles, ent.i.angles) {
                    ent.i.angles = st.angles;
                    relink = true;
                }
                model_bounds = true;
            } else if ent.i.solid == SOLID_BBOX {
                //if the bounding box size changed
                if !vec_eq_bits(st.mins, ent.i.mins) || !vec_eq_bits(st.maxs, ent.i.maxs) {
                    ent.i.mins = st.mins;
                    ent.i.maxs = st.maxs;
                    relink = true;
                }
                ent.i.angles = st.angles;
            }
            //if the origin changed
            if !vec_eq_bits(st.origin, ent.i.origin) {
                ent.i.origin = st.origin;
                relink = true;
            }
            ents.set(e, ent);
            EntityUpdate {
                result: BLERR_NOERROR,
                model_bounds: model_bounds,
                relink: relink && entnum != ENTITYNUM_WORLD,
            }
        },
    }
}

/// `h1` is `h0` after the chain of links from `head` was unlinked: its
/// links are back on the free list, in chain order, and no other link
/// changed its list.
pub open spec fn unlinked_from(h0: AasLinks, h1: AasLinks, head: i32) -> bool {
    forall|s: Seq<int>| area_chain(h0, head, s) ==> {
        &&& h1.free@ == s.reverse() + h0.free@
        &&& forall|y: int| 0 <= y < h0.linkheap@.len() && !s.contains(y) ==> #[trigger] h1.owner@[y] == h0.owner@[y]
        &&& forall|y: int| s.contains(y) ==> #[trigger] h1.owner@[y] == -1
    }
}

/// Links entity `entnum` anew into the areas its box touches, `sides`
/// telling for every node of the area tree on which sides of its plane the
/// box lies (the relinking of `AAS_UpdateEntity`): its old links go back on
/// the free list, its new chain of links is that of `AAS_AASLinkEntity`,
/// and it is in no BSP leaf.
pub fn AAS_RelinkEntity(w: &aas_s, h: &mut AasLinks, ents: &mut Vec<aas_entity_t>, entnum: i32, sides: &Vec<i32>)
    -> (r: LinkEnd)
    requires
        old(h).wf(),
        0 <= entnum < old(ents)@.len(),
        has_chain(*old(h), old(ents)@[entnum as int].areas),
        w.loaded ==> link_tree_ready(*w, sides@, *old(h)),
    ensures
        final(h).wf(),
        final(ents)@.len() == old(ents)@.len(),
        forall|e: int| 0 <= e < old(ents)@.len() && e != entnum ==> #[trigger] final(ents)@[e] == old(ents)@[e],
        final(ents)@[entnum as int].i == old(ents)@[entnum as int].i,
        final(ents)@[entnum as int].leaves == NO_LINK,
        exists|h1: AasLinks| {
            &&& h1.wf()
            &&& #[trigger] unlinked_from(*old(h), h1, old(ents)@[entnum as int].areas)
            &&& !w.loaded ==> *final(h) == h1 && r == LinkEnd::NotLoaded && final(ents)@[entnum as int].areas == NO_LINK
            &&& w.loaded ==> exists|cs: Seq<int>, c: Seq<int>|
                entity_linked(h1, *final(h), *w, sides@, entnum, final(ents)@[entnum as int].areas, r, cs, c)
        },
{
    let e = entnum as usize;
    AAS_UnlinkFromAreas(h, ents[e].areas);
    let ghost h1 = *h;
    let (areas, end) = AAS_AASLinkEntity(h, w, sides, entnum);
    let mut ne = ents[e];
    ne.areas = areas;
    ne.leaves = NO_LINK;
    ents.set(e, ne);
    proof {
        assert(unlinked_from(*old(h), h1, old(ents)@[entnum as int].areas));
        assert(ents@[entnum as int].areas == areas);
        if w.loaded {
            assert(exists|cs: Seq<int>, c: Seq<int>| entity_linked(h1, *h, *w, sides@, entnum, areas, end, cs, c));
        }
        assert({
            &&& h1.wf()
            &&& unlinked_from(*old(h), h1, old(ents)@[entnum as int].areas)
            &&& !w.loaded ==> *h == h1 && end == LinkEnd::NotLoaded && ents@[entnum as int].areas == NO_LINK
            &&& w.loaded ==> exists|cs: Seq<int>, c: Seq<int>|
                entity_linked(h1, *h, *w, sides@, entnum, ents@[entnum as int].areas, end, cs, c)
        });
    }
    end
}

/// `maxentities` cleared entities, each invalid and numbered by its place,
/// linked nowhere (the entities of `AAS_Setup`); none for a negative count.
pub fn AAS_AllocEntities(maxentities: i32) -> (ents: Vec<aas_entity_t>)
    ensures
        ents@.len() == (if maxentities < 0 { 0 } else { maxentities as int }),
        forall|e: int| 0 <= e < ents@.len() ==> #[trigger] ents@[e] == (aas_entity_s {
            i: aas_entityinfo_s { number: e as i32, ..zero_info() },
            areas: NO_LINK,
            leaves: NO_LINK,
        }),
{
    let mut ents: Vec<aas_entity_t> = Vec::new();
    let n: i32 = if maxentities < 0 { 0 } else { maxentities };
    let mut k: i32 = 0;
    while k < n
        invariant
            0 <= k <= n,
            n == (if maxentities < 0 { 0 } else { maxentities as int }),
            ents@.len() == k,
            forall|e: int| 0 <= e < k ==> #[trigger] ents@[e] == (aas_entity_s {
                i: aas_entityinfo_s { number: e as i32, ..zero_info() },
                areas: NO_LINK,
                leaves: NO_LINK,
            }),
        decreases n - k,
    {
        let i = aas_entityinfo_s {
            update_time: 0, type_: 0, flags: 0, ltime: 0,
            lastvisorigin: zero_vec3(), old_origin: zero_vec3(),
            solid: 0, groundent: 0, modelindex: 0, modelindex2: 0,
            frame: 0, event: 0, eventParm: 0, powerups: 0, weapon: 0,
            legsAnim: 0, torsoAnim: 0, number: k, valid: 0,
            origin: zero_vec3(), mins: zero_vec3(), maxs: zero_vec3(), angles: zero_vec3(),
        };
        ents.push(aas_entity_s { i: i, areas: NO_LINK, leaves: NO_LINK });
        k = k + 1;
    }
    ents
}

/// Once every entity is marked invalid (as `AAS_InvalidateEntities` leaves
/// them), no entity follows any number: `AAS_NextEntity` finds none.
pub proof fn lemma_invalidated_no_next(ents: Seq<aas_entity_t>, from: int)
    requires
        forall|e: int| 0 <= e < ents.len() ==> (#[trigger] ents[e]).i.valid == 0,
    ensures
        next_valid(ents, from) == 0,
    decreases ents.len() - from,
{
    if 0 <= from < ents.len() {
        assert(ents[from].i.valid == 0);
        lemma_invalidated_no_next(ents, from + 1);
    }
}

/// What `AAS_EntityInfo` gives of an entity once `AAS_UpdateEntity` took
/// state `st` for it at time `t`, with no update after: the info is valid,
/// carries the entity's number, the state's type, flags, old origin, model
/// index and solid type, the origin the entity had before as its last
/// visible origin, and `t` as its time; its origin is the state's origin,
/// or one equal to it as floats compare.  For a solid box entity the box
/// is the state's box, its mins and maxs equal to the state's as floats
/// compare.
pub proof fn lemma_update_then_info(ents: Seq<aas_entity_t>, i0: aas_entityinfo_s, st: bot_entitystate_s,
    entnum: i32, t: i32, info: aas_entityinfo_s)
    requires
        in_range(ents, entnum),
        ents[entnum as int].i == updated_info(i0, st, entnum, t),
        info == ents[entnum as int].i,
    ensures
        info.valid == 1,
        info.number == entnum,
        info.type_ == st.type_,
        info.flags == st.flags,
        info.old_origin == st.old_origin,
        info.lastvisorigin == i0.origin,
        info.ltime == t,
        info.modelindex == st.modelindex,
        info.solid == st.solid,
        info.origin == st.origin || vec_eq(st.origin, info.origin),
        st.solid == SOLID_BBOX ==> info.mins == st.mins || vec_eq(st.mins, info.mins),
        st.solid == SOLID_BBOX ==> info.maxs == st.maxs || vec_eq(st.maxs, info.maxs),
{
}

} // verus!
