use lib::character::{bot_characteristic_s, MAX_CHARACTERISTICS};
use lib::charscript::{BotLoadCharacterFromFile, CharScriptError, Token};

fn w(t: &str) -> Token {
    Token::Other(t.as_bytes().to_vec())
}

fn num(i: i32) -> Token {
    Token::Number(i, (i as f32).to_bits(), false)
}

fn float(x: f32) -> Token {
    Token::Number(x as i32, x.to_bits(), true)
}

fn s(t: &str) -> Token {
    Token::Str(t.as_bytes().to_vec())
}

fn file() -> Vec<Token> {
    vec![
        w("skill"), num(1), w("{"), num(0), s("Sarge"), num(1), float(0.5), w("}"),
        w("skill"), num(4), w("{"), num(0), s("Major"), w("{"), w("}"), w("}"),
        w("skill"), num(5), w("{"), num(0), s("Tank"), num(2), num(30), w("}"),
    ]
}

fn name() -> Vec<u8> {
    b"bots/sarge_c.c\0".to_vec()
}

#[test]
fn character_of_the_skill_asked_for() {
    let (ch, skill) = BotLoadCharacterFromFile(&name(), 5, &file()).ok().unwrap();
    assert_eq!(skill, 5);
    assert_eq!(ch.filename, name());
    assert_eq!(ch.c.len(), MAX_CHARACTERISTICS as usize);
    assert_eq!(ch.c[0], bot_characteristic_s::String(b"Tank\0".to_vec()));
    assert_eq!(ch.c[2], bot_characteristic_s::Integer(30));
    assert_eq!(ch.c[1], bot_characteristic_s::Unset);
}

#[test]
fn any_skill_takes_the_first_block() {
    let (ch, skill) = BotLoadCharacterFromFile(&name(), -1, &file()).ok().unwrap();
    assert_eq!(skill, 1);
    assert_eq!(ch.c[1], bot_characteristic_s::Float(0.5f32.to_bits()));
}

#[test]
fn missing_skill_and_block_errors() {
    assert_eq!(BotLoadCharacterFromFile(&name(), 3, &file()).err(), Some(CharScriptError::NoCharacter));
    assert_eq!(BotLoadCharacterFromFile(&name(), 1, &vec![w("skil")]).err(), Some(CharScriptError::UnknownDefinition));
    assert_eq!(BotLoadCharacterFromFile(&name(), 1, &vec![w("skill"), w("x")]).err(), Some(CharScriptError::MissingSkillNumber));
    assert_eq!(BotLoadCharacterFromFile(&name(), 1, &vec![w("skill"), num(1), w("(")]).err(), Some(CharScriptError::MissingBrace));
    assert_eq!(BotLoadCharacterFromFile(&name(), 1, &vec![w("skill"), num(2), w("{"), w("{"), w("}")]).err(),
        Some(CharScriptError::UnclosedBlock));
}

#[test]
fn entry_errors() {
    let block = |entries: Vec<Token>| {
        let mut t = vec![w("skill"), num(1), w("{")];
        t.extend(entries);
        t.push(w("}"));
        BotLoadCharacterFromFile(&name(), 1, &t).err()
    };
    assert_eq!(block(vec![float(1.5), num(3)]), Some(CharScriptError::NotAnIndex));
    assert_eq!(block(vec![s("x"), num(3)]), Some(CharScriptError::NotAnIndex));
    assert_eq!(block(vec![num(MAX_CHARACTERISTICS), num(3)]), Some(CharScriptError::IndexOutOfRange));
    assert_eq!(block(vec![num(-1), num(3)]), Some(CharScriptError::IndexOutOfRange));
    assert_eq!(block(vec![num(2), num(3), num(2), num(4)]), Some(CharScriptError::AlreadyInitialized));
    assert_eq!(block(vec![num(2), w("x")]), Some(CharScriptError::BadValue));
    assert_eq!(BotLoadCharacterFromFile(&name(), 1, &vec![w("skill"), num(1), w("{"), num(2)]).err(),
        Some(CharScriptError::MissingValue));
}

#[test]
fn block_may_end_with_the_file() {
    let t = vec![w("skill"), num(1), w("{"), num(3), num(9)];
    let (ch, _) = BotLoadCharacterFromFile(&name(), 1, &t).ok().unwrap();
    assert_eq!(ch.c[3], bot_characteristic_s::Integer(9));
}
