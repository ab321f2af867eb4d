use lib::character::{bot_characteristic_s, bot_character_s, BotCharacters, MAX_CHARACTERISTICS, MAX_CHARACTER_HANDLES};
use lib::charcache::{BotCachedCharacterHandles, BotFreeCharacterHandle, BotInterpolatedCharacter, BotStoreCharacter};

fn character(file: &[u8], skill: f32) -> bot_character_s {
    let mut name = file.to_vec();
    name.push(0);
    bot_character_s {
        filename: name,
        skill: skill.to_bits(),
        c: vec![bot_characteristic_s::Unset; MAX_CHARACTERISTICS as usize],
    }
}

#[test]
fn free_handle_is_the_first_unused() {
    let mut t = BotCharacters::new();
    assert_eq!(BotFreeCharacterHandle(&t), Some(1));
    BotStoreCharacter(&mut t, 1, character(b"bots/a_c.c", 1.0));
    BotStoreCharacter(&mut t, 3, character(b"bots/a_c.c", 4.0));
    assert_eq!(BotFreeCharacterHandle(&t), Some(2));
    for h in 1..=MAX_CHARACTER_HANDLES {
        BotStoreCharacter(&mut t, h, character(b"bots/b_c.c", 1.0));
    }
    assert_eq!(BotFreeCharacterHandle(&t), None);
}

#[test]
fn cached_handles_match_the_file_name() {
    let mut t = BotCharacters::new();
    BotStoreCharacter(&mut t, 5, character(b"bots/a_c.c", 4.0));
    BotStoreCharacter(&mut t, 2, character(b"bots/a_c.c", 1.0));
    BotStoreCharacter(&mut t, 3, character(b"bots/b_c.c", 1.0));
    // a name followed by bytes after its end is the same C string
    assert_eq!(BotCachedCharacterHandles(&t, &b"bots/a_c.c\0xyz".to_vec()), vec![2, 5]);
    assert_eq!(BotCachedCharacterHandles(&t, &b"bots/b_c.c".to_vec()), vec![3]);
    assert!(BotCachedCharacterHandles(&t, &b"bots/a_c".to_vec()).is_empty());
}

#[test]
fn interpolated_character_takes_floats_and_the_first_values() {
    let mut a = character(b"bots/a_c.c", 1.0);
    let mut b = character(b"bots/a_c.c", 4.0);
    a.c[0] = bot_characteristic_s::Float(0.5f32.to_bits());
    b.c[0] = bot_characteristic_s::Float(1.0f32.to_bits());
    a.c[1] = bot_characteristic_s::Integer(7);
    b.c[1] = bot_characteristic_s::Integer(9);
    a.c[2] = bot_characteristic_s::String(b"rail\0junk".to_vec());
    a.c[3] = bot_characteristic_s::Float(0.25f32.to_bits());
    b.c[3] = bot_characteristic_s::Integer(1);
    let mut floats = vec![0u32; MAX_CHARACTERISTICS as usize];
    floats[0] = 0.75f32.to_bits();
    floats[3] = 0.9f32.to_bits();
    let out = BotInterpolatedCharacter(&a, &b, 2.5f32.to_bits(), &floats);
    assert_eq!(out.filename, b"bots/a_c.c\0".to_vec());
    assert_eq!(out.skill, 2.5f32.to_bits());
    assert_eq!(out.c[0], bot_characteristic_s::Float(0.75f32.to_bits()));
    assert_eq!(out.c[1], bot_characteristic_s::Integer(7));
    assert_eq!(out.c[2], bot_characteristic_s::String(b"rail\0".to_vec()));
    assert_eq!(out.c[3], bot_characteristic_s::Unset);
    assert_eq!(out.c[4], bot_characteristic_s::Unset);
    assert_eq!(out.c.len(), MAX_CHARACTERISTICS as usize);
}
