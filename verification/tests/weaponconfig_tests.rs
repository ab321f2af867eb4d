use lib::aasfile::Vec3Bits;
use lib::weapon::{BotAllocWeaponState, WeaponStates};
use lib::weaponconfig::{
    projectileinfo_s, weaponinfo_s, BotFightWeaponCandidates, BotGetWeaponInfo, BotLoadWeaponWeights,
    LoadWeaponConfig, WeaponConfigError, WeaponDefinition, BLERR_CANNOTLOADWEAPONCONFIG,
    BLERR_CANNOTLOADWEAPONWEIGHTS, BLERR_NOERROR,
};
use lib::weights::{weight_s, weightconfig_s};

fn buf(s: &str) -> [u8; 64] {
    let mut b = [0u8; 64];
    b[..s.len()].copy_from_slice(s.as_bytes());
    b
}

fn zero3() -> Vec3Bits {
    Vec3Bits { x: 0, y: 0, z: 0 }
}

fn projectile(name: &str, damage: i32) -> projectileinfo_s {
    projectileinfo_s {
        name: buf(name), model: buf(""), flags: 0, gravity: 0, damage, radius: 0, visdamage: 0,
        damagetype: 0, healthinc: 0, push: 0, detonation: 0, bounce: 0, bouncefric: 0, bouncestop: 0,
    }
}

fn weapon(number: i32, name: &str, proj: &str, level: i32) -> weaponinfo_s {
    weaponinfo_s {
        number, name: buf(name), level, model: buf(""), weaponindex: 0, flags: 0, projectile: buf(proj),
        numprojectiles: 1, hspread: 0, vspread: 0, speed: 0, acceleration: 0, recoil: zero3(),
        offset: zero3(), angleoffset: zero3(), extrazvelocity: 0, ammoamount: 0, ammoindex: 0,
        activate: 0, reload: 0, spinup: 0, spindown: 0, valid: 0, proj: projectile("", 0),
    }
}

fn script() -> Vec<WeaponDefinition> {
    vec![
        WeaponDefinition::Projectile(Some(projectile("bullet", 10))),
        WeaponDefinition::Projectile(Some(projectile("rocket", 100))),
        WeaponDefinition::Weapon(Some(weapon(1, "Machinegun", "bullet", 1))),
        WeaponDefinition::Weapon(Some(weapon(3, "Rocket Launcher", "rocket", 3))),
    ]
}

fn error_of(defs: Vec<WeaponDefinition>, maxw: i32, maxp: i32) -> WeaponConfigError {
    match LoadWeaponConfig(maxw, maxp, &defs) {
        Err(e) => e,
        Ok(_) => panic!("the script was accepted"),
    }
}

#[test]
fn weapon_config_links_each_weapon_to_its_projectile() {
    let wc = LoadWeaponConfig(4, 4, &script()).ok().unwrap();
    assert_eq!(wc.numweapons, 4);
    assert_eq!(wc.numprojectiles, 2);
    assert_eq!(wc.weaponinfo.len(), 4);
    assert_eq!(wc.projectileinfo[1].name, buf("rocket"));
    assert_eq!(wc.weaponinfo[0].valid, 0);
    assert_eq!(wc.weaponinfo[2].valid, 0);
    assert_eq!(wc.weaponinfo[2].name, buf(""));
    assert_eq!(wc.weaponinfo[1].valid, 1);
    assert_eq!(wc.weaponinfo[1].proj.name, buf("bullet"));
    assert_eq!(wc.weaponinfo[1].proj.damage, 10);
    assert_eq!(wc.weaponinfo[3].valid, 1);
    assert_eq!(wc.weaponinfo[3].name, buf("Rocket Launcher"));
    assert_eq!(wc.weaponinfo[3].proj.damage, 100);
}

#[test]
fn weapon_config_negative_limits_take_default_slots() {
    let wc = LoadWeaponConfig(-1, -5, &script()).ok().unwrap();
    assert_eq!(wc.numweapons, 32);
    assert_eq!(wc.weaponinfo.len(), 32);
    assert_eq!(wc.numprojectiles, 2);
}

#[test]
fn weapon_config_later_definition_replaces_earlier() {
    let mut defs = script();
    defs.push(WeaponDefinition::Weapon(Some(weapon(1, "Chaingun", "rocket", 7))));
    let wc = LoadWeaponConfig(4, 4, &defs).ok().unwrap();
    assert_eq!(wc.weaponinfo[1].name, buf("Chaingun"));
    assert_eq!(wc.weaponinfo[1].level, 7);
    assert_eq!(wc.weaponinfo[1].proj.damage, 100);
}

#[test]
fn weapon_config_first_projectile_of_the_name_is_taken() {
    let mut defs = script();
    defs.push(WeaponDefinition::Projectile(Some(projectile("bullet", 55))));
    let wc = LoadWeaponConfig(4, 4, &defs).ok().unwrap();
    assert_eq!(wc.numprojectiles, 3);
    assert_eq!(wc.weaponinfo[1].proj.damage, 10);
}

#[test]
fn weapon_config_errors() {
    let mut d = script();
    d.push(WeaponDefinition::Weapon(None));
    assert_eq!(error_of(d, 4, 4), WeaponConfigError::UnreadableStructure);

    let mut d = script();
    d.push(WeaponDefinition::Projectile(None));
    assert_eq!(error_of(d, 4, 4), WeaponConfigError::UnreadableStructure);

    let mut d = script();
    d.push(WeaponDefinition::Weapon(Some(weapon(4, "Railgun", "slug", 1))));
    assert_eq!(error_of(d, 4, 4), WeaponConfigError::WeaponNumberOutOfRange(4));

    let mut d = script();
    d.push(WeaponDefinition::Weapon(Some(weapon(-1, "Railgun", "slug", 1))));
    assert_eq!(error_of(d, 4, 4), WeaponConfigError::WeaponNumberOutOfRange(-1));

    assert_eq!(error_of(script(), 4, 1), WeaponConfigError::TooManyProjectiles);

    let mut d = script();
    d.push(WeaponDefinition::Unknown);
    assert_eq!(error_of(d, 4, 4), WeaponConfigError::UnknownDefinition);

    let mut d = script();
    d.push(WeaponDefinition::Weapon(Some(weapon(2, "", "bullet", 1))));
    assert_eq!(error_of(d, 4, 4), WeaponConfigError::WeaponWithoutName(2));

    let mut d = script();
    d.push(WeaponDefinition::Weapon(Some(weapon(2, "Shotgun", "", 1))));
    assert_eq!(error_of(d, 4, 4), WeaponConfigError::WeaponWithoutProjectile(2));

    let mut d = script();
    d.push(WeaponDefinition::Weapon(Some(weapon(2, "Shotgun", "pellet", 1))));
    assert_eq!(error_of(d, 4, 4), WeaponConfigError::UndefinedProjectile(2));
}

#[test]
fn weapon_config_first_error_wins() {
    let mut d = script();
    d.push(WeaponDefinition::Weapon(Some(weapon(9, "Railgun", "slug", 1))));
    d.push(WeaponDefinition::Unknown);
    assert_eq!(error_of(d, 4, 4), WeaponConfigError::WeaponNumberOutOfRange(9));

    let mut d = script();
    d.push(WeaponDefinition::Weapon(Some(weapon(2, "Shotgun", "", 1))));
    d.push(WeaponDefinition::Weapon(Some(weapon(0, "", "", 1))));
    assert_eq!(error_of(d, 4, 4), WeaponConfigError::WeaponWithoutName(0));
}

#[test]
fn weapon_info_by_state_and_number() {
    let wc = LoadWeaponConfig(4, 4, &script()).ok().unwrap();
    let mut t = WeaponStates::new();
    let h = BotAllocWeaponState(&mut t);
    let w = BotGetWeaponInfo(&t, &wc, h, 3).unwrap();
    assert_eq!(w.name, buf("Rocket Launcher"));
    assert_eq!(w.proj.damage, 100);
    assert!(BotGetWeaponInfo(&t, &wc, h, 2).unwrap().valid == 0);
    assert!(BotGetWeaponInfo(&t, &wc, h, 0).is_none());
    assert!(BotGetWeaponInfo(&t, &wc, h, -1).is_none());
    assert!(BotGetWeaponInfo(&t, &wc, h, 5).is_none());
    assert!(BotGetWeaponInfo(&t, &wc, h + 1, 3).is_none());
}

fn weights() -> weightconfig_s {
    weightconfig_s {
        seperators: vec![],
        weights: vec![
            weight_s { name: b"Rocket Launcher\0".to_vec(), firstseperator: None },
            weight_s { name: b"Machinegun\0".to_vec(), firstseperator: None },
        ],
    }
}

#[test]
fn weapon_weights_load_and_index() {
    let wc = LoadWeaponConfig(4, 4, &script()).ok().unwrap();
    let mut t = WeaponStates::new();
    let h = BotAllocWeaponState(&mut t);
    assert_eq!(BotLoadWeaponWeights(&mut t, h + 1, Some(weights()), &Some(wc)), BLERR_CANNOTLOADWEAPONWEIGHTS);
    let wc = LoadWeaponConfig(4, 4, &script()).ok().unwrap();
    assert_eq!(BotLoadWeaponWeights(&mut t, h, None, &Some(wc)), BLERR_CANNOTLOADWEAPONWEIGHTS);
    assert!(t.states[h as usize].as_ref().unwrap().weaponweightconfig.is_none());
    assert_eq!(BotLoadWeaponWeights(&mut t, h, Some(weights()), &None), BLERR_CANNOTLOADWEAPONCONFIG);
    assert!(t.states[h as usize].as_ref().unwrap().weaponweightindex.is_empty());
    let wc = LoadWeaponConfig(4, 4, &script()).ok().unwrap();
    assert_eq!(BotLoadWeaponWeights(&mut t, h, Some(weights()), &Some(wc)), BLERR_NOERROR);
    assert_eq!(t.states[h as usize].as_ref().unwrap().weaponweightindex, vec![-1, 1, -1, 0]);
}

#[test]
fn fight_weapon_candidates_are_defined_weighted_weapons() {
    let wc = Some(LoadWeaponConfig(4, 4, &script()).ok().unwrap());
    let mut t = WeaponStates::new();
    let h = BotAllocWeaponState(&mut t);
    assert!(BotFightWeaponCandidates(&t, &wc, h).is_none());
    assert_eq!(BotLoadWeaponWeights(&mut t, h, Some(weights()), &wc), BLERR_NOERROR);
    assert_eq!(BotFightWeaponCandidates(&t, &wc, h), Some(vec![(1, 1), (3, 0)]));
    assert!(BotFightWeaponCandidates(&t, &None, h).is_none());
    assert!(BotFightWeaponCandidates(&t, &wc, h + 1).is_none());
}
