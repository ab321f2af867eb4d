//! The weapon configuration: the weapons and projectiles read from the
//! weapon script, each weapon linked to its projectile.
//!
//! Names are zero-terminated byte buffers of `MAX_QPATH` bytes; the float
//! fields are carried as their bit patterns.
use vstd::prelude::*;
use crate::aasfile::Vec3Bits;
use crate::cstr::{c_str_compare, cstr_view};
use crate::weapon::{bot_weaponstate_s, weapon_handle_error, BotValidWeaponNumber, BotWeaponStateFromHandle, WeaponStates};
use crate::weights::{weight_named, weightconfig_t, WeaponWeightIndex};

verus! {

/// Size of a name buffer.
pub const MAX_QPATH: usize = 64;

pub const BLERR_NOERROR: i32 = 0;
pub const BLERR_CANNOTLOADWEAPONWEIGHTS: i32 = 1;
pub const BLERR_CANNOTLOADWEAPONCONFIG: i32 = 2;

/// Limit taken for a negative number of weapon or projectile slots.
pub const DEFAULT_CONFIG_SLOTS: i32 = 32;

/// A projectile.
#[derive(Clone, Copy)]
pub struct projectileinfo_s {
    pub name: [u8; 64],
    pub model: [u8; 64],
    pub flags: i32,
    pub gravity: u32,
    pub damage: i32,
    pub radius: u32,
    pub visdamage: i32,
    pub damagetype: i32,
    pub healthinc: i32,
    pub push: u32,
    pub detonation: u32,
    pub bounce: u32,
    pub bouncefric: u32,
    pub bouncestop: u32,
}

pub type projectileinfo_t = projectileinfo_s;

/// A weapon, with the projectile it fires.
#[derive(Clone, Copy)]
pub struct weaponinfo_s {
    pub number: i32,
    pub name: [u8; 64],
    pub level: i32,
    pub model: [u8; 64],
    pub weaponindex: i32,
    pub flags: i32,
    /// name of the projectile fired
    pub projectile: [u8; 64],
    pub numprojectiles: i32,
    pub hspread: u32,
    pub vspread: u32,
    pub speed: u32,
    pub acceleration: u32,
    pub recoil: Vec3Bits,
    pub offset: Vec3Bits,
    pub angleoffset: Vec3Bits,
    pub extrazvelocity: u32,
    pub ammoamount: i32,
    pub ammoindex: i32,
    pub activate: u32,
    pub reload: u32,
    pub spinup: u32,
    pub spindown: u32,
    /// the weapon was defined
    pub valid: i32,
    /// the projectile fired, copied from the projectile definitions
    pub proj: projectileinfo_t,
}

pub type weaponinfo_t = weaponinfo_s;

/// The weapon configuration: `numweapons` weapon slots, slot `n` holding
/// the weapon numbered `n` when one was defined, and the projectiles in
/// the order of their definitions.
pub struct weaponconfig_s {
    pub numweapons: i32,
    pub numprojectiles: i32,
    pub projectileinfo: Vec<projectileinfo_t>,
    pub weaponinfo: Vec<weaponinfo_t>,
}

pub type weaponconfig_t = weaponconfig_s;

impl weaponconfig_s {
    /// The counts are those of the arrays.
    pub open spec fn wf(&self) -> bool {
        &&& self.numweapons == self.weaponinfo@.len()
        &&& self.numprojectiles == self.projectileinfo@.len()
    }
}

/// A name buffer of zero bytes only.
pub open spec fn zero_name(a: [u8; 64]) -> bool {
    forall|i: int| 0 <= i < 64 ==> #[trigger] a@[i] == 0u8
}

/// Every field of the projectile is zero.
pub open spec fn is_zero_projectile(p: projectileinfo_s) -> bool {
    &&& zero_name(p.name)
    &&& zero_name(p.model)
    &&& p.flags == 0 && p.gravity == 0 && p.damage == 0 && p.radius == 0
    &&& p.visdamage == 0 && p.damagetype == 0 && p.healthinc == 0 && p.push == 0
    &&& p.detonation == 0 && p.bounce == 0 && p.bouncefric == 0 && p.bouncestop == 0
}

/// Every field of the weapon is zero: an undefined slot.
pub open spec fn is_zero_weapon(w: weaponinfo_s) -> bool {
    &&& w.number == 0
    &&& zero_name(w.name)
    &&& w.level == 0
    &&& zero_name(w.model)
    &&& w.weaponindex == 0 && w.flags == 0
    &&& zero_name(w.projectile)
    &&& w.numprojectiles == 0
    &&& w.hspread == 0 && w.vspread == 0 && w.speed == 0 && w.acceleration == 0
    &&& w.recoil == Vec3Bits { x: 0, y: 0, z: 0 }
    &&& w.offset == Vec3Bits { x: 0, y: 0, z: 0 }
    &&& w.angleoffset == Vec3Bits { x: 0, y: 0, z: 0 }
    &&& w.extrazvelocity == 0 && w.ammoamount == 0 && w.ammoindex == 0
    &&& w.activate == 0 && w.reload == 0 && w.spinup == 0 && w.spindown == 0
    &&& w.valid == 0
    &&& is_zero_projectile(w.proj)
}

/// One definition of the weapon script, as the script parser hands it over.
#[derive(Clone, Copy)]
pub enum WeaponDefinition {
    /// a `weaponinfo` structure; none when it could not be read
    Weapon(Option<weaponinfo_s>),
    /// a `projectileinfo` structure; none when it could not be read
    Projectile(Option<projectileinfo_s>),
    /// any other token
    Unknown,
}

/// Why a weapon script was refused.
#[derive(Clone, Copy, Debug, PartialEq, Eq, Structural)]
pub enum WeaponConfigError {
    /// a structure could not be read
    UnreadableStructure,
    /// a weapon number outside the weapon slots
    WeaponNumberOutOfRange(i32),
    /// more projectiles than projectile slots
    TooManyProjectiles,
    /// a token that starts no definition
    UnknownDefinition,
    /// the weapon of this slot has no name
    WeaponWithoutName(i32),
    /// the weapon of this slot names no projectile
    WeaponWithoutProjectile(i32),
    /// the weapon of this slot names a projectile that is not defined
    UndefinedProjectile(i32),
}

/// The number of slots configured: a negative number counts as
/// `DEFAULT_CONFIG_SLOTS`.
pub open spec fn config_slots(v: i32) -> i32 {
    if v < 0 { DEFAULT_CONFIG_SLOTS } else { v }
}

/// The projectiles defined, in order.
pub open spec fn projectiles_in(defs: Seq<WeaponDefinition>) -> Seq<projectileinfo_s>
    decreases defs.len(),
{
    if defs.len() == 0 {
        Seq::empty()
    } else {
        let prev = projectiles_in(defs.drop_last());
        match defs.last() {
            WeaponDefinition::Projectile(Some(p)) => prev.push(p),
            _ => prev,
        }
    }
}

/// What is wrong with definition `d`, read after `nproj` projectiles, with
/// `maxw` weapon slots and `maxp` projectile slots.
pub open spec fn definition_error(d: WeaponDefinition, nproj: int, maxw: int, maxp: int)
    -> Option<WeaponConfigError>
{
    match d {
        WeaponDefinition::Weapon(None) => Some(WeaponConfigError::UnreadableStructure),
        WeaponDefinition::Weapon(Some(w)) => if w.number < 0 || w.number >= maxw {
            Some(WeaponConfigError::WeaponNumberOutOfRange(w.number))
        } else {
            None
        },
        WeaponDefinition::Projectile(p) => if nproj >= maxp {
            Some(WeaponConfigError::TooManyProjectiles)
        } else if p is None {
            Some(WeaponConfigError::UnreadableStructure)
        } else {
            None
        },
        WeaponDefinition::Unknown => Some(WeaponConfigError::UnknownDefinition),
    }
}

/// The first thing wrong with the definitions, read in order.
pub open spec fn definitions_error(defs: Seq<WeaponDefinition>, maxw: int, maxp: int)
    -> Option<WeaponConfigError>
    decreases defs.len(),
{
    if defs.len() == 0 {
        None
    } else {
        match definitions_error(defs.drop_last(), maxw, maxp) {
            Some(e) => Some(e),
            None => definition_error(defs.last(), projectiles_in(defs.drop_last()).len() as int, maxw, maxp),
        }
    }
}

/// The last weapon defined with number `n`.
pub open spec fn defined_weapon(defs: Seq<WeaponDefinition>, n: int) -> Option<weaponinfo_s>
    decreases defs.len(),
{
    if defs.len() == 0 {
        None
    } else {
        match defs.last() {
            WeaponDefinition::Weapon(Some(w)) => if w.number == n {
                Some(w)
            } else {
                defined_weapon(defs.drop_last(), n)
            },
            _ => defined_weapon(defs.drop_last(), n),
        }
    }
}

/// Weapon `w` as its slot holds it once read: marked valid.
pub open spec fn read_weapon(w: weaponinfo_s) -> weaponinfo_s {
    weaponinfo_s { valid: 1, ..w }
}

/// Slot `n` holds what the definitions put there.
pub open spec fn slot_read(slot: weaponinfo_s, defs: Seq<WeaponDefinition>, n: int) -> bool {
    match defined_weapon(defs, n) {
        Some(w) => slot == read_weapon(w),
        None => is_zero_weapon(slot),
    }
}

/// Position of the first projectile from `from` on whose name is `name`.
pub open spec fn first_projectile(projs: Seq<projectileinfo_s>, name: Seq<u8>, from: int) -> Option<int>
    decreases projs.len() - from,
{
    if from < 0 || from >= projs.len() {
        None
    } else if cstr_view(projs[from].name@) == name {
        Some(from)
    } else {
        first_projectile(projs, name, from + 1)
    }
}

/// The projectile that weapon `w` fires, among `projs`.
pub open spec fn fired_projectile(w: weaponinfo_s, projs: Seq<projectileinfo_s>) -> Option<int> {
    first_projectile(projs, cstr_view(w.projectile@), 0)
}

/// What is wrong with the weapon read into slot `n`.
pub open spec fn slot_error(defs: Seq<WeaponDefinition>, projs: Seq<projectileinfo_s>, n: int)
    -> Option<WeaponConfigError>
{
    match defined_weapon(defs, n) {
        None => None,
        Some(w) => if w.name@[0] == 0u8 {
            Some(WeaponConfigError::WeaponWithoutName(n as i32))
        } else if w.projectile@[0] == 0u8 {
            Some(WeaponConfigError::WeaponWithoutProjectile(n as i32))
        } else if fired_projectile(w, projs) is None {
            Some(WeaponConfigError::UndefinedProjectile(n as i32))
        } else {
            None
        },
    }
}

/// The first thing wrong with the weapons of slots `0 .. k`.
pub open spec fn slots_error(defs: Seq<WeaponDefinition>, projs: Seq<projectileinfo_s>, k: int)
    -> Option<WeaponConfigError>
    decreases k,
{
    if k <= 0 {
        None
    } else {
        match slots_error(defs, projs, k - 1) {
            Some(e) => Some(e),
            None => slot_error(defs, projs, k - 1),
        }
    }
}

/// The first thing wrong with a weapon script of definitions `defs`, read
/// with `maxw` weapon slots and `maxp` projectile slots.
pub open spec fn config_error(defs: Seq<WeaponDefinition>, maxw: int, maxp: int) -> Option<WeaponConfigError> {
    match definitions_error(defs, maxw, maxp) {
        Some(e) => Some(e),
        None => slots_error(defs, projectiles_in(defs), maxw),
    }
}

/// Slot `n` of the configuration read from `defs`: the weapon defined last
/// with number `n`, marked valid, with a copy of the first projectile named
/// as its projectile; or a zero weapon.
pub open spec fn slot_loaded(slot: weaponinfo_s, defs: Seq<WeaponDefinition>, n: int) -> bool {
    match defined_weapon(defs, n) {
        Some(w) => match fired_projectile(w, projectiles_in(defs)) {
            Some(j) => slot == weaponinfo_s { proj: projectiles_in(defs)[j], ..read_weapon(w) },
            None => false,
        },
        None => is_zero_weapon(slot),
    }
}

fn new_zero_weapon() -> (w: weaponinfo_s)
    ensures
        is_zero_weapon(w),
{
    weaponinfo_s {
        number: 0,
        name: [0u8; 64],
        level: 0,
        model: [0u8; 64],
        weaponindex: 0,
        flags: 0,
        projectile: [0u8; 64],
        numprojectiles: 0,
        hspread: 0,
        vspread: 0,
        speed: 0,
        acceleration: 0,
        recoil: Vec3Bits { x: 0, y: 0, z: 0 },
        offset: Vec3Bits { x: 0, y: 0, z: 0 },
        angleoffset: Vec3Bits { x: 0, y: 0, z: 0 },
        extrazvelocity: 0,
        ammoamount: 0,
        ammoindex: 0,
        activate: 0,
        reload: 0,
        spinup: 0,
        spindown: 0,
        valid: 0,
        proj: projectileinfo_s {
            name: [0u8; 64],
            model: [0u8; 64],
            flags: 0,
            gravity: 0,
            damage: 0,
            radius: 0,
            visdamage: 0,
            damagetype: 0,
            healthinc: 0,
            push: 0,
            detonation: 0,
            bounce: 0,
            bouncefric: 0,
            bouncestop: 0,
        },
    }
}

/// The projectile named as weapon `w` names its projectile.
fn names_projectile(w: &weaponinfo_s, p: &projectileinfo_s) -> (r: bool)
    ensures
        r == (cstr_view(p.name@) == cstr_view(w.projectile@)),
{
    c_str_compare(p.name.as_slice(), w.projectile.as_slice()) == 0
}

/// The first error of a prefix of the definitions is the first error of
/// them all.
proof fn lemma_prefix_error(s: Seq<WeaponDefinition>, k: int, maxw: int, maxp: int)
    requires
        0 <= k <= s.len(),
        definitions_error(s.take(k), maxw, maxp) is Some,
    ensures
        definitions_error(s, maxw, maxp) == definitions_error(s.take(k), maxw, maxp),
    decreases s.len(),
{
    if k == s.len() {
        assert(s.take(k) =~= s);
    } else {
        assert(s.drop_last().take(k) =~= s.take(k));
        lemma_prefix_error(s.drop_last(), k, maxw, maxp);
    }
}

/// `maxw` zero weapon slots.
fn zero_slots(maxw: i32) -> (v: Vec<weaponinfo_s>)
    requires
        maxw >= 0,
    ensures
        v@.len() == maxw,
        forall|n: int| 0 <= n < maxw ==> #[trigger] is_zero_weapon(v@[n]),
{
    let mut v: Vec<weaponinfo_s> = Vec::new();
    let mut i: i32 = 0;
    while i < maxw
        invariant
            0 <= i <= maxw,
            v@.len() == i,
            forall|n: int| 0 <= n < i ==> #[trigger] is_zero_weapon(v@[n]),
        decreases maxw - i,
    {
        let w = new_zero_weapon();
        v.push(w);
        i += 1;
    }
    v
}

/// Reads the definitions in order into `maxw` weapon slots and the list of
/// projectiles, stopping at the first bad definition.
fn read_definitions(defs: &Vec<WeaponDefinition>, maxw: i32, maxp: i32)
    -> (r: Result<(Vec<weaponinfo_s>, Vec<projectileinfo_s>), WeaponConfigError>)
    requires
        maxw >= 0,
        maxp >= 0,
    ensures
        match r {
            Err(e) => definitions_error(defs@, maxw as int, maxp as int) == Some(e),
            Ok((weapons, projs)) => {
                &&& definitions_error(defs@, maxw as int, maxp as int) is None
                &&& projs@ == projectiles_in(defs@)
                &&& weapons@.len() == maxw
                &&& forall|n: int| 0 <= n < maxw ==> #[trigger] slot_read(weapons@[n], defs@, n)
            },
        },
{
    let mut weapons = zero_slots(maxw);
    let mut projs: Vec<projectileinfo_s> = Vec::new();
    let mut i: usize = 0;
    proof {
        assert(defs@.take(0) =~= Seq::<WeaponDefinition>::empty());
    }
    while i < defs.len()
        invariant
            maxw >= 0,
            maxp >= 0,
            i <= defs@.len(),
            definitions_error(defs@.take(i as int), maxw as int, maxp as int) is None,
            projs@ == projectiles_in(defs@.take(i as int)),
            weapons@.len() == maxw,
            forall|n: int| 0 <= n < maxw ==> #[trigger] slot_read(weapons@[n], defs@.take(i as int), n),
        decreases defs@.len() - i,
    {
        let ghost pre = defs@.take(i as int);
        let ghost cur = defs@.take(i as int + 1);
        proof {
            assert(cur.drop_last() =~= pre);
            assert(cur.last() == defs@[i as int]);
        }
        let d = defs[i];
        match d {
            WeaponDefinition::Weapon(None) => {
                proof { lemma_prefix_error(defs@, i as int + 1, maxw as int, maxp as int); }
                return Err(WeaponConfigError::UnreadableStructure);
            },
            WeaponDefinition::Weapon(Some(w)) => {
                if w.number < 0 || w.number >= maxw {
                    proof { lemma_prefix_error(defs@, i as int + 1, maxw as int, maxp as int); }
                    return Err(WeaponConfigError::WeaponNumberOutOfRange(w.number));
                }
                let ghost before = weapons@;
                weapons.set(w.number as usize, weaponinfo_s { valid: 1, ..w });
                proof {
                    assert forall|n: int| 0 <= n < maxw implies #[trigger] slot_read(weapons@[n], cur, n) by {
                        if n != w.number {
                            assert(weapons@[n] == before[n]);
                            assert(slot_read(before[n], pre, n));
                            assert(defined_weapon(cur, n) == defined_weapon(pre, n));
                        } else {
                            assert(defined_weapon(cur, n) == Some(w));
                        }
                    }
                }
            },
            WeaponDefinition::Projectile(p) => {
                if projs.len() >= maxp as usize {
                    proof { lemma_prefix_error(defs@, i as int + 1, maxw as int, maxp as int); }
                    return Err(WeaponConfigError::TooManyProjectiles);
                }
                match p {
                    None => {
                        proof { lemma_prefix_error(defs@, i as int + 1, maxw as int, maxp as int); }
                        return Err(WeaponConfigError::UnreadableStructure);
                    },
                    Some(pi) => {
                        projs.push(pi);
                        proof {
                            assert forall|n: int| 0 <= n < maxw implies #[trigger] slot_read(weapons@[n], cur, n) by {
                                assert(slot_read(weapons@[n], pre, n));
                                assert(defined_weapon(cur, n) == defined_weapon(pre, n));
                            }
                        }
                    },
                }
            },
            WeaponDefinition::Unknown => {
                proof { lemma_prefix_error(defs@, i as int + 1, maxw as int, maxp as int); }
                return Err(WeaponConfigError::UnknownDefinition);
            },
        }
        i += 1;
    }
    proof {
        assert(defs@.take(defs@.len() as int) =~= defs@);
    }
    Ok((weapons, projs))
}

/// The first error among the first slots is the first error among more.
proof fn lemma_slots_prefix(defs: Seq<WeaponDefinition>, projs: Seq<projectileinfo_s>, k: int, m: int)
    requires
        k <= m,
        slots_error(defs, projs, k) is Some,
    ensures
        slots_error(defs, projs, m) == slots_error(defs, projs, k),
    decreases m - k,
{
    if k < m {
        lemma_slots_prefix(defs, projs, k, m - 1);
    }
}

/// Definitions read without error define no more projectiles than there
/// are projectile slots.
proof fn lemma_projectile_count(defs: Seq<WeaponDefinition>, maxw: int, maxp: int)
    requires
        maxp >= 0,
        definitions_error(defs, maxw, maxp) is None,
    ensures
        projectiles_in(defs).len() <= maxp,
    decreases defs.len(),
{
    if defs.len() > 0 {
        lemma_projectile_count(defs.drop_last(), maxw, maxp);
    }
}

/// Finds the first projectile named as weapon `w` names its projectile.
fn find_fired_projectile(w: &weaponinfo_s, projs: &Vec<projectileinfo_s>) -> (r: Option<usize>)
    ensures
        match r {
            Some(j) => fired_projectile(*w, projs@) == Some(j as int) && j < projs@.len(),
            None => fired_projectile(*w, projs@) is None,
        },
{
    let ghost name = cstr_view(w.projectile@);
    let mut j: usize = 0;
    while j < projs.len()
        invariant
            j <= projs@.len(),
            name == cstr_view(w.projectile@),
            fired_projectile(*w, projs@) == first_projectile(projs@, name, j as int),
        decreases projs@.len() - j,
    {
        if names_projectile(w, &projs[j]) {
            return Some(j);
        }
        j += 1;
    }
    None
}

/// Assembles the weapon configuration from the definitions of a weapon
/// script (`LoadWeaponConfig`), with `max_weaponinfo` weapon slots and
/// `max_projectileinfo` projectile slots (a negative number counts as
/// `DEFAULT_CONFIG_SLOTS`).  The definitions are read in order: a weapon
/// goes to the slot of its number, replacing one read before, and the
/// projectiles are kept in order.  Then every defined weapon, in slot
/// order, must have a name and a projectile, and gets a copy of the first
/// projectile of that name.  The first thing wrong is the error.
pub fn LoadWeaponConfig(max_weaponinfo: i32, max_projectileinfo: i32, defs: &Vec<WeaponDefinition>)
    -> (r: Result<weaponconfig_t, WeaponConfigError>)
    ensures
        match r {
            Err(e) => config_error(defs@, config_slots(max_weaponinfo) as int,
                config_slots(max_projectileinfo) as int) == Some(e),
            Ok(wc) => {
                &&& config_error(defs@, config_slots(max_weaponinfo) as int,
                    config_slots(max_projectileinfo) as int) is None
                &&& wc.wf()
                &&& wc.numweapons == config_slots(max_weaponinfo)
                &&& wc.projectileinfo@ == projectiles_in(defs@)
                &&& wc.numprojectiles == wc.projectileinfo@.len()
                &&& wc.weaponinfo@.len() == wc.numweapons
                &&& forall|n: int| 0 <= n < wc.numweapons ==> #[trigger] slot_loaded(wc.weaponinfo@[n], defs@, n)
            },
        },
{
    let maxw: i32 = if max_weaponinfo < 0 { DEFAULT_CONFIG_SLOTS } else { max_weaponinfo };
    let maxp: i32 = if max_projectileinfo < 0 { DEFAULT_CONFIG_SLOTS } else { max_projectileinfo };
    let (mut weapons, projs) = match read_definitions(defs, maxw, maxp) {
        Ok(read) => read,
        Err(e) => {
            return Err(e);
        },
    };
    let ghost d = defs@;
    proof {
        lemma_projectile_count(d, maxw as int, maxp as int);
    }
    let mut n: i32 = 0;
    while n < maxw
        invariant
            0 <= n <= maxw,
            d == defs@,
            maxw == config_slots(max_weaponinfo),
            maxp == config_slots(max_projectileinfo),
            definitions_error(d, maxw as int, maxp as int) is None,
            projs@ == projectiles_in(d),
            weapons@.len() == maxw,
            slots_error(d, projs@, n as int) is None,
            forall|m: int| 0 <= m < n ==> #[trigger] slot_loaded(weapons@[m], d, m),
            forall|m: int| n <= m < maxw ==> #[trigger] slot_read(weapons@[m], d, m),
        decreases maxw - n,
    {
        let w = weapons[n as usize];
        proof {
            assert(slot_read(weapons@[n as int], d, n as int));
        }
        if w.valid != 0 {
            let ghost dw = defined_weapon(d, n as int)->0;
            assert(w == read_weapon(dw));
            if w.name[0] == 0 {
                proof {
                    assert(slot_error(d, projs@, n as int) == Some(WeaponConfigError::WeaponWithoutName(n)));
                    assert(slots_error(d, projs@, n as int + 1) == Some(WeaponConfigError::WeaponWithoutName(n)));
                    lemma_slots_prefix(d, projs@, n as int + 1, maxw as int); }
                return Err(WeaponConfigError::WeaponWithoutName(n));
            }
            if w.projectile[0] == 0 {
                proof {
                    assert(slot_error(d, projs@, n as int) == Some(WeaponConfigError::WeaponWithoutProjectile(n)));
                    assert(slots_error(d, projs@, n as int + 1) == Some(WeaponConfigError::WeaponWithoutProjectile(n)));
                    lemma_slots_prefix(d, projs@, n as int + 1, maxw as int); }
                return Err(WeaponConfigError::WeaponWithoutProjectile(n));
            }
            match find_fired_projectile(&w, &projs) {
                None => {
                    proof {
                        assert(fired_projectile(dw, projs@) is None);
                        assert(slot_error(d, projs@, n as int) == Some(WeaponConfigError::UndefinedProjectile(n)));
                        lemma_slots_prefix(d, projs@, n as int + 1, maxw as int);
                    }
                    return Err(WeaponConfigError::UndefinedProjectile(n));
                },
                Some(j) => {
                    let ghost before = weapons@;
                    weapons.set(n as usize, weaponinfo_s { proj: projs[j], ..w });
                    proof {
                        assert(fired_projectile(dw, projs@) == Some(j as int));
                        assert(slot_loaded(weapons@[n as int], d, n as int));
                        assert forall|m: int| 0 <= m < maxw && m != n implies weapons@[m] == before[m] by {}
                    }
                },
            }
        } else {
            proof {
                if defined_weapon(d, n as int) is Some {
                    assert(w.valid == 1);
                }
            }
        }
        n += 1;
    }
    proof {
        assert(config_error(d, maxw as int, maxp as int) is None);
    }
    Ok(weaponconfig_s {
        numweapons: maxw,
        numprojectiles: projs.len() as i32,
        projectileinfo: projs,
        weaponinfo: weapons,
    })
}

/// The weapon of slot `weapon` of the configuration, for the bot of weapon
/// state `weaponstate` (`BotGetWeaponInfo`): none when the weapon number is
/// not in `1 ..= numweapons` or no weapon state is allocated under the
/// handle.  Slot `numweapons` is past the end of the slots and is not asked
/// for.
pub fn BotGetWeaponInfo(t: &WeaponStates, wc: &weaponconfig_t, weaponstate: i32, weapon: i32)
    -> (r: Option<weaponinfo_t>)
    requires
        t.wf(),
        wc.wf(),
        weapon != wc.numweapons,
    ensures
        r is Some <==> (0 < weapon <= wc.numweapons && t.valid(weaponstate as int)),
        r matches Some(w) ==> w == wc.weaponinfo@[weapon as int],
{
    if !BotValidWeaponNumber(wc.numweapons, weapon) {
        return None;
    }
    if BotWeaponStateFromHandle(t, weaponstate).is_err() {
        return None;
    }
    Some(wc.weaponinfo[weapon as usize])
}

/// Gives the bot of weapon state `weaponstate` the weapon weight
/// configuration `wwc`, as read from its file (none when it could not be
/// read), and indexes the weapons of the configuration `wc` in it
/// (`BotLoadWeaponWeights`).  The weights held before are dropped first.
/// Gives `BLERR_CANNOTLOADWEAPONWEIGHTS` for an unallocated handle (the
/// states unchanged) or no weights, `BLERR_CANNOTLOADWEAPONCONFIG` when no
/// weapon configuration is loaded (the weights kept, no index), else
/// `BLERR_NOERROR`.
pub fn BotLoadWeaponWeights(t: &mut WeaponStates, weaponstate: i32, wwc: Option<weightconfig_t>,
    wc: &Option<weaponconfig_t>) -> (r: i32)
    requires
        old(t).wf(),
        wwc matches Some(c) ==> c.weights@.len() <= i32::MAX,
    ensures
        final(t).wf(),
        !old(t).valid(weaponstate as int) ==> r == BLERR_CANNOTLOADWEAPONWEIGHTS
            && final(t).states@ == old(t).states@,
        old(t).valid(weaponstate as int) ==> {
            &&& final(t).states@ == old(t).states@.update(weaponstate as int, final(t).states@[weaponstate as int])
            &&& final(t).states@[weaponstate as int] matches Some(s)
            &&& s.weaponweightconfig == wwc
            &&& match (wwc, wc) {
                (None, _) => r == BLERR_CANNOTLOADWEAPONWEIGHTS && s.weaponweightindex@.len() == 0,
                (Some(_), None) => r == BLERR_CANNOTLOADWEAPONCONFIG && s.weaponweightindex@.len() == 0,
                (Some(c), Some(cfg)) => {
                    &&& r == BLERR_NOERROR
                    &&& s.weaponweightindex@.len() == cfg.weaponinfo@.len()
                    &&& forall|i: int| 0 <= i < cfg.weaponinfo@.len() ==> #[trigger] s.weaponweightindex@[i]
                        == weight_named(c.weights@, cfg.weaponinfo@[i].name@, 0)
                },
            }
        },
{
    let h = match BotWeaponStateFromHandle(t, weaponstate) {
        Ok(h) => h,
        Err(_) => {
            return BLERR_CANNOTLOADWEAPONWEIGHTS;
        },
    };
    match wwc {
        None => {
            t.states.set(h, Some(bot_weaponstate_s { weaponweightconfig: None, weaponweightindex: Vec::new() }));
            BLERR_CANNOTLOADWEAPONWEIGHTS
        },
        Some(c) => match wc {
            None => {
                t.states.set(h, Some(bot_weaponstate_s { weaponweightconfig: Some(c), weaponweightindex: Vec::new() }));
                BLERR_CANNOTLOADWEAPONCONFIG
            },
            Some(cfg) => {
                let index = WeaponWeightIndex(&c, cfg);
                t.states.set(h, Some(bot_weaponstate_s { weaponweightconfig: Some(c), weaponweightindex: index }));
                BLERR_NOERROR
            },
        },
    }
}

/// The weapons among the first `k` slots that a bot with weight index
/// `index` weighs in a fight: defined, with a weight; each as its slot and
/// weight number, in slot order.
pub open spec fn fight_candidates(weapons: Seq<weaponinfo_s>, index: Seq<i32>, k: int) -> Seq<(i32, i32)>
    decreases k,
{
    if k <= 0 {
        Seq::empty()
    } else {
        let prev = fight_candidates(weapons, index, k - 1);
        if weapons[k - 1].valid != 0 && index[k - 1] >= 0 {
            prev.push(((k - 1) as i32, index[k - 1]))
        } else {
            prev
        }
    }
}

/// The weapons the bot of weapon state `weaponstate` weighs to choose its
/// best fight weapon (`BotChooseBestFightWeapon`): none when no weapon
/// state is allocated under the handle, no weapon configuration is loaded
/// or the bot has no weapon weights; else the defined weapons that have a
/// weight, with their weight numbers, in slot order.
pub fn BotFightWeaponCandidates(t: &WeaponStates, wc: &Option<weaponconfig_t>, weaponstate: i32)
    -> (r: Option<Vec<(i32, i32)>>)
    requires
        t.wf(),
        wc matches Some(c) ==> c.wf(),
        t.valid(weaponstate as int) && wc is Some
            && t.states@[weaponstate as int]->0.weaponweightconfig is Some
            ==> t.states@[weaponstate as int]->0.weaponweightindex@.len() >= wc->0.numweapons,
    ensures
        r is Some <==> (t.valid(weaponstate as int) && wc is Some
            && t.states@[weaponstate as int]->0.weaponweightconfig is Some),
        r matches Some(v) ==> v@ == fight_candidates(wc->0.weaponinfo@,
            t.states@[weaponstate as int]->0.weaponweightindex@, wc->0.numweapons as int),
{
    let h = match BotWeaponStateFromHandle(t, weaponstate) {
        Ok(h) => h,
        Err(_) => {
            return None;
        },
    };
    let c = match wc {
        Some(c) => c,
        None => {
            return None;
        },
    };
    let ws = match &t.states[h] {
        Some(ws) => ws,
        None => {
            return None;
        },
    };
    if ws.weaponweightconfig.is_none() {
        return None;
    }
    let mut r: Vec<(i32, i32)> = Vec::new();
    let mut i: i32 = 0;
    while i < c.numweapons
        invariant
            c.wf(),
            0 <= i <= c.numweapons,
            ws.weaponweightindex@.len() >= c.numweapons,
            r@ == fight_candidates(c.weaponinfo@, ws.weaponweightindex@, i as int),
        decreases c.numweapons - i,
    {
        if c.weaponinfo[i as usize].valid != 0 {
            let index = ws.weaponweightindex[i as usize];
            if index >= 0 {
                r.push((i, index));
            }
        }
        i += 1;
    }
    Some(r)
}

} // verus!
