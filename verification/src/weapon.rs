//! Weapon states of the bots, held in a table indexed by handle, and the
//! check of weapon numbers against the weapon configuration.
use vstd::prelude::*;
use crate::weights::weightconfig_t;

verus! {

pub const MAX_WEAPON_HANDLES: usize = 64;

/// The weapon state of one bot: its weapon weight configuration and the
/// index from weapon to weight in it.
pub struct bot_weaponstate_s {
    pub weaponweightconfig: Option<weightconfig_t>,
    pub weaponweightindex: Vec<i32>,
}

pub type bot_weaponstate_t = bot_weaponstate_s;

/// Why a weapon state handle could not be used.
#[derive(Clone, Copy, Debug, PartialEq, Eq, Structural)]
pub enum WeaponStateError {
    /// the handle is not in `1 ..= MAX_WEAPON_HANDLES`
    HandleOutOfRange,
    /// no weapon state is allocated under the handle
    InvalidHandle,
}

/// The table of weapon states: slot `h` holds the state with handle `h`.
pub struct WeaponStates {
    pub states: Vec<Option<bot_weaponstate_t>>,
}

impl WeaponStates {
    pub open spec fn wf(&self) -> bool {
        self.states@.len() == MAX_WEAPON_HANDLES + 1
    }

    /// A weapon state is allocated under handle `h`.
    pub open spec fn valid(&self, h: int) -> bool {
        1 <= h <= MAX_WEAPON_HANDLES && self.states@[h] is Some
    }

    /// No weapon state allocated.
    pub fn new() -> (t: Self)
        ensures
            t.wf(),
            forall|h: int| 0 <= h <= MAX_WEAPON_HANDLES ==> !(#[trigger] t.states@[h] is Some),
    {
        let mut v: Vec<Option<bot_weaponstate_t>> = Vec::new();
        while v.len() <= MAX_WEAPON_HANDLES
            invariant
                v@.len() <= MAX_WEAPON_HANDLES + 1,
                forall|h: int| 0 <= h < v@.len() ==> !(#[trigger] v@[h] is Some),
            decreases MAX_WEAPON_HANDLES + 1 - v@.len(),
        {
            v.push(None);
        }
        WeaponStates { states: v }
    }
}

/// The error for a handle under which no weapon state is allocated.
pub open spec fn weapon_handle_error(h: int) -> WeaponStateError {
    if !(1 <= h <= MAX_WEAPON_HANDLES) { WeaponStateError::HandleOutOfRange } else { WeaponStateError::InvalidHandle }
}

/// A weapon number is valid when it is in `1 ..= numweapons`, the number of
/// weapons of the configuration (`BotValidWeaponNumber`).
pub fn BotValidWeaponNumber(numweapons: i32, weaponnum: i32) -> (r: bool)
    ensures
        r == (0 < weaponnum <= numweapons),
{
    !(weaponnum <= 0 || weaponnum > numweapons)
}

/// Checks a weapon state handle (`BotWeaponStateFromHandle`).
pub fn BotWeaponStateFromHandle(t: &WeaponStates, handle: i32) -> (r: Result<usize, WeaponStateError>)
    requires
        t.wf(),
    ensures
        match r {
            Ok(h) => h == handle && t.valid(h as int),
            Err(e) => !t.valid(handle as int) && e == weapon_handle_error(handle as int),
        },
{
    if handle <= 0 || handle as usize > MAX_WEAPON_HANDLES {
        return Err(WeaponStateError::HandleOutOfRange);
    }
    if t.states[handle as usize].is_none() {
        return Err(WeaponStateError::InvalidHandle);
    }
    Ok(handle as usize)
}

/// Resets weapon state `weaponstate` (`BotResetWeaponState`); the weight
/// index is kept, so nothing changes.
pub fn BotResetWeaponState(t: &mut WeaponStates, weaponstate: i32) -> (r: Result<(), WeaponStateError>)
    requires
        old(t).wf(),
    ensures
        final(t).wf(),
        final(t).states@ == old(t).states@,
        r is Ok <==> old(t).valid(weaponstate as int),
        r is Err ==> r == Err::<(), WeaponStateError>(weapon_handle_error(weaponstate as int)),
{
    BotWeaponStateFromHandle(t, weaponstate)?;
    Ok(())
}

/// Allocates a weapon state in the first free slot (`BotAllocWeaponState`)
/// and returns its handle, or zero when every slot is taken.
pub fn BotAllocWeaponState(t: &mut WeaponStates) -> (h: i32)
    requires
        old(t).wf(),
    ensures
        final(t).wf(),
        0 <= h <= MAX_WEAPON_HANDLES,
        h == 0 <==> forall|g: int| 1 <= g <= MAX_WEAPON_HANDLES ==> old(t).valid(g),
        h == 0 ==> final(t).states@ == old(t).states@,
        h != 0 ==> {
            &&& !old(t).valid(h as int)
            &&& forall|g: int| 1 <= g < h ==> old(t).valid(g)
            &&& final(t).states@ == old(t).states@.update(h as int, final(t).states@[h as int])
            &&& final(t).states@[h as int] matches Some(s) && s.weaponweightconfig is None
                && s.weaponweightindex@.len() == 0
        },
{
    let mut i: usize = 1;
    while i <= MAX_WEAPON_HANDLES
        invariant
            t.wf(),
            *t == *old(t),
            1 <= i <= MAX_WEAPON_HANDLES + 1,
            forall|g: int| 1 <= g < i ==> t.valid(g),
        decreases MAX_WEAPON_HANDLES + 1 - i,
    {
        if t.states[i].is_none() {
            assert(!old(t).valid(i as int));
            t.states.set(i, Some(bot_weaponstate_s { weaponweightconfig: None, weaponweightindex: Vec::new() }));
            return i as i32;
        }
        i += 1;
    }
    0
}

/// Frees weapon state `handle` (`BotFreeWeaponState`).
pub fn BotFreeWeaponState(t: &mut WeaponStates, handle: i32) -> (r: Result<(), WeaponStateError>)
    requires
        old(t).wf(),
    ensures
        final(t).wf(),
        r is Ok <==> old(t).valid(handle as int),
        r is Err ==> r == Err::<(), WeaponStateError>(weapon_handle_error(handle as int))
            && final(t).states@ == old(t).states@,
        r is Ok ==> final(t).states@ == old(t).states@.update(handle as int, None),
{
    let h = BotWeaponStateFromHandle(t, handle)?;
    t.states.set(h, None);
    Ok(())
}

/// Frees every weapon state (the weapon states part of
/// `BotShutdownWeaponAI`).
pub fn BotShutdownWeaponAI(t: &mut WeaponStates)
    requires
        old(t).wf(),
    ensures
        final(t).wf(),
        forall|h: int| 0 <= h <= MAX_WEAPON_HANDLES ==> (#[trigger] final(t).states@[h] is Some)
            == (h == 0 && old(t).states@[0] is Some),
{
    let mut i: usize = 1;
    while i <= MAX_WEAPON_HANDLES
        invariant
            t.wf(),
            1 <= i <= MAX_WEAPON_HANDLES + 1,
            t.states@[0] == old(t).states@[0],
            forall|h: int| 1 <= h < i ==> !(#[trigger] t.states@[h] is Some),
        decreases MAX_WEAPON_HANDLES + 1 - i,
    {
        if t.states[i].is_some() {
            let _ = BotFreeWeaponState(t, i as i32);
        }
        i += 1;
    }
}

} // verus!
