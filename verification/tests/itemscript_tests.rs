use lib::aasfile::Vec3Bits;
use lib::itemgoals::iteminfo_s;
use lib::itemscript::{ItemConfigError, ItemDefinition, LoadItemConfig};

fn v(x: u32) -> Vec3Bits {
    Vec3Bits { x, y: x, z: x }
}

fn info(name: &str, respawn: f32) -> iteminfo_s {
    let mut n = name.as_bytes().to_vec();
    n.push(0);
    iteminfo_s { classname: vec![0; 32], name: n, mins: v(1), maxs: v(2), modelindex: 3, respawntime: respawn.to_bits() }
}

fn item(classname: &str, name: &str) -> ItemDefinition {
    ItemDefinition::Item(Some(classname.as_bytes().to_vec()), Some(info(name, 30.0)))
}

fn padded(s: &[u8]) -> Vec<u8> {
    let mut b = s.to_vec();
    b.resize(32, 0);
    b
}

#[test]
fn item_config_numbers_kinds_in_order() {
    let ic = LoadItemConfig(8, vec![item("item_armor_body", "Heavy Armor"), item("weapon_rocketlauncher", "Rocket Launcher")])
        .ok().unwrap();
    assert_eq!(ic.iteminfo.len(), 2);
    assert_eq!(ic.iteminfo[0].classname, padded(b"item_armor_body"));
    assert_eq!(ic.iteminfo[0].name, b"Heavy Armor\0".to_vec());
    assert_eq!(ic.iteminfo[1].classname, padded(b"weapon_rocketlauncher"));
    assert_eq!(ic.iteminfo[1].modelindex, 3);
    assert_eq!(ic.iteminfo[1].respawntime, 30.0f32.to_bits());
    assert_eq!(ic.iteminfo[1].mins, v(1));
    assert_eq!(ic.iteminfo[1].maxs, v(2));
}

#[test]
fn item_config_class_name_keeps_31_bytes() {
    let long = "abcdefghijklmnopqrstuvwxyz0123456789";
    let ic = LoadItemConfig(8, vec![item(long, "x")]).ok().unwrap();
    let mut expected = long.as_bytes()[..31].to_vec();
    expected.push(0);
    assert_eq!(ic.iteminfo[0].classname, expected);
}

#[test]
fn item_config_empty_script_and_default_limit() {
    assert_eq!(LoadItemConfig(8, vec![]).ok().unwrap().iteminfo.len(), 0);
    let defs: Vec<ItemDefinition> = (0..256).map(|_| item("a", "b")).collect();
    assert_eq!(LoadItemConfig(-1, defs).ok().unwrap().iteminfo.len(), 256);
    let defs: Vec<ItemDefinition> = (0..257).map(|_| item("a", "b")).collect();
    assert_eq!(LoadItemConfig(-1, defs).err(), Some(ItemConfigError::TooManyItems));
}

#[test]
fn item_config_errors() {
    assert_eq!(LoadItemConfig(1, vec![item("a", "b"), item("c", "d")]).err(), Some(ItemConfigError::TooManyItems));
    assert_eq!(LoadItemConfig(4, vec![item("a", "b"), ItemDefinition::Item(None, Some(info("x", 1.0)))]).err(),
        Some(ItemConfigError::MissingClassName));
    assert_eq!(LoadItemConfig(4, vec![ItemDefinition::Item(Some(b"a".to_vec()), None)]).err(),
        Some(ItemConfigError::UnreadableStructure));
    assert_eq!(LoadItemConfig(4, vec![item("a", "b"), ItemDefinition::Unknown]).err(),
        Some(ItemConfigError::UnknownDefinition));
    assert_eq!(LoadItemConfig(0, vec![ItemDefinition::Unknown]).err(), Some(ItemConfigError::UnknownDefinition));
    assert_eq!(LoadItemConfig(0, vec![ItemDefinition::Item(None, None)]).err(), Some(ItemConfigError::TooManyItems));
}
