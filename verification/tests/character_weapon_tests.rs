use lib::character::{
    bot_character_s, bot_characteristic_s, BotCharacters, BotDefaultCharacteristics,
    BotFreeCharacter, BotFreeCharacter2, BotShutdownCharacters, CharacterError,
    CheckCharacteristicIndex, Characteristic_String, MAX_CHARACTERISTICS,
};
use lib::weapon::{
    BotAllocWeaponState, BotFreeWeaponState, BotResetWeaponState, BotShutdownWeaponAI,
    BotValidWeaponNumber, WeaponStateError, WeaponStates,
};

fn character() -> bot_character_s {
    let mut c = vec![bot_characteristic_s::Unset; MAX_CHARACTERISTICS as usize];
    c[1] = bot_characteristic_s::Integer(7);
    c[2] = bot_characteristic_s::String(b"Sarge\0xx".to_vec());
    bot_character_s { filename: b"bots/sarge_c.c\0".to_vec(), skill: 0x3f80_0000, c }
}

fn table() -> BotCharacters {
    let mut t = BotCharacters::new();
    t.characters[3] = Some(character());
    t
}

#[test]
fn characteristic_index_checks() {
    let t = table();
    assert_eq!(CheckCharacteristicIndex(&t, 3, 1), Ok(()));
    assert_eq!(CheckCharacteristicIndex(&t, 3, 0), Err(CharacterError::NotInitialized));
    assert_eq!(CheckCharacteristicIndex(&t, 3, 80), Err(CharacterError::NoSuchCharacteristic));
    assert_eq!(CheckCharacteristicIndex(&t, 4, 1), Err(CharacterError::InvalidCharacter));
    assert_eq!(CheckCharacteristicIndex(&t, 65, 1), Err(CharacterError::HandleOutOfRange));
}

#[test]
fn characteristic_string_is_cut_and_terminated() {
    let t = table();
    let mut buf = vec![b'#'; 8];
    assert_eq!(Characteristic_String(&t, 3, 2, &mut buf, 8), Ok(()));
    assert_eq!(&buf[..6], b"Sarge\0");
    assert_eq!(buf[7], 0);
    let mut small = vec![b'#'; 4];
    assert_eq!(Characteristic_String(&t, 3, 2, &mut small, 4), Ok(()));
    assert_eq!(small, b"Sar\0".to_vec());
    assert_eq!(Characteristic_String(&t, 3, 1, &mut small, 4), Err(CharacterError::NotAString));
}

#[test]
fn defaults_fill_unset_characteristics() {
    let mut ch = character();
    let mut def = character();
    def.c[0] = bot_characteristic_s::Float(0x4000_0000);
    def.c[1] = bot_characteristic_s::Integer(99);
    def.c[5] = bot_characteristic_s::String(b"ab\0cd".to_vec());
    BotDefaultCharacteristics(&mut ch, &def);
    assert_eq!(ch.c[0], bot_characteristic_s::Float(0x4000_0000));
    assert_eq!(ch.c[1], bot_characteristic_s::Integer(7));
    assert_eq!(ch.c[5], bot_characteristic_s::String(b"ab\0".to_vec()));
    assert_eq!(ch.c[6], bot_characteristic_s::Unset);
}

#[test]
fn freeing_characters() {
    let mut t = table();
    assert_eq!(BotFreeCharacter(&mut t, 3, false), Ok(()));
    assert!(t.characters[3].is_some());
    assert_eq!(BotFreeCharacter2(&mut t, 3), Ok(()));
    assert!(t.characters[3].is_none());
    assert_eq!(BotFreeCharacter2(&mut t, 3), Err(CharacterError::InvalidCharacter));
    let mut t2 = table();
    BotShutdownCharacters(&mut t2);
    assert!(t2.characters.iter().all(|c| c.is_none()));
}

#[test]
fn weapon_numbers_and_states() {
    assert!(BotValidWeaponNumber(10, 1));
    assert!(BotValidWeaponNumber(10, 10));
    assert!(!BotValidWeaponNumber(10, 11));
    assert!(!BotValidWeaponNumber(10, 0));
    let mut t = WeaponStates::new();
    assert_eq!(BotAllocWeaponState(&mut t), 1);
    assert_eq!(BotAllocWeaponState(&mut t), 2);
    assert_eq!(BotResetWeaponState(&mut t, 2), Ok(()));
    assert_eq!(BotFreeWeaponState(&mut t, 1), Ok(()));
    assert_eq!(BotFreeWeaponState(&mut t, 1), Err(WeaponStateError::InvalidHandle));
    assert_eq!(BotResetWeaponState(&mut t, 0), Err(WeaponStateError::HandleOutOfRange));
    assert_eq!(BotAllocWeaponState(&mut t), 1);
    BotShutdownWeaponAI(&mut t);
    assert!(t.states.iter().all(|s| s.is_none()));
}
