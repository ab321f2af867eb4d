use lib::aasfile::Vec3Bits;
use lib::itemgoals::{iteminfo_s, itemconfig_s};
use lib::weaponconfig::{projectileinfo_s, weaponinfo_s, LoadWeaponConfig, WeaponDefinition};
use lib::weights::{weight_s, weightconfig_s, FindFuzzyWeight, ItemWeightIndex, WeaponWeightIndex};

fn cstr(s: &str) -> Vec<u8> {
    let mut b = s.as_bytes().to_vec();
    b.push(0);
    b
}

fn config() -> weightconfig_s {
    weightconfig_s {
        seperators: vec![],
        weights: vec![
            weight_s { name: cstr("item_armor"), firstseperator: None },
            weight_s { name: cstr("item_health"), firstseperator: None },
            weight_s { name: cstr("item_armor"), firstseperator: None },
        ],
    }
}

fn v() -> Vec3Bits {
    Vec3Bits { x: 0, y: 0, z: 0 }
}

#[test]
fn fuzzy_weight_by_exact_name() {
    let wc = config();
    assert_eq!(FindFuzzyWeight(&wc, &cstr("item_health")), 1);
    assert_eq!(FindFuzzyWeight(&wc, &cstr("item_armor")), 0);
    assert_eq!(FindFuzzyWeight(&wc, &cstr("ITEM_HEALTH")), -1);
    assert_eq!(FindFuzzyWeight(&wc, b"item_health\0junk"), 1);
}

#[test]
fn item_weight_index_by_class_name() {
    let ic = itemconfig_s {
        iteminfo: vec![
            iteminfo_s { classname: cstr("item_health"), name: cstr("Health"), mins: v(), maxs: v(), modelindex: 0, respawntime: 0 },
            iteminfo_s { classname: cstr("item_quad"), name: cstr("Quad"), mins: v(), maxs: v(), modelindex: 0, respawntime: 0 },
            iteminfo_s { classname: cstr("item_armor"), name: cstr("Armor"), mins: v(), maxs: v(), modelindex: 0, respawntime: 0 },
        ],
    };
    assert_eq!(ItemWeightIndex(&config(), &ic), vec![1, -1, 0]);
}

#[test]
fn weapon_weight_index_by_name() {
    let defs = vec![
        WeaponDefinition::Projectile(Some(projectile())),
        WeaponDefinition::Weapon(Some(weapon(0, "item_armor"))),
        WeaponDefinition::Weapon(Some(weapon(1, "Gauntlet"))),
    ];
    let wc = LoadWeaponConfig(3, 1, &defs).ok().unwrap();
    assert_eq!(WeaponWeightIndex(&config(), &wc), vec![0, -1, -1]);
}

fn buf(s: &str) -> [u8; 64] {
    let mut b = [0u8; 64];
    b[..s.len()].copy_from_slice(s.as_bytes());
    b
}

fn projectile() -> projectileinfo_s {
    projectileinfo_s {
        name: buf("shell"), model: buf(""), flags: 0, gravity: 0, damage: 0, radius: 0, visdamage: 0,
        damagetype: 0, healthinc: 0, push: 0, detonation: 0, bounce: 0, bouncefric: 0, bouncestop: 0,
    }
}

fn weapon(number: i32, name: &str) -> weaponinfo_s {
    weaponinfo_s {
        number, name: buf(name), level: 0, model: buf(""), weaponindex: 0, flags: 0, projectile: buf("shell"),
        numprojectiles: 1, hspread: 0, vspread: 0, speed: 0, acceleration: 0, recoil: v(),
        offset: v(), angleoffset: v(), extrazvelocity: 0, ammoamount: 0, ammoindex: 0,
        activate: 0, reload: 0, spinup: 0, spindown: 0, valid: 0, proj: projectile(),
    }
}
