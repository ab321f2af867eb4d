use lib::strindex::{
    compare_nocase, AAS_IndexFromModel, AAS_IndexFromString, AAS_ModelFromIndex,
    AAS_StringFromIndex, AAS_UpdateStringIndexes, ConfigStrings, IndexError, CS_MODELS,
    MAX_CONFIGSTRINGS,
};

fn table() -> ConfigStrings {
    let mut t = ConfigStrings::new();
    let mut given: Vec<Option<Vec<u8>>> = vec![None; MAX_CONFIGSTRINGS];
    given[0] = Some(b"zero\0".to_vec());
    given[3] = Some(b"Lift\0junk".to_vec());
    given[CS_MODELS + 2] = Some(b"models/door.md3\0".to_vec());
    AAS_UpdateStringIndexes(&mut t, MAX_CONFIGSTRINGS as i32, &given);
    t
}

#[test]
fn nocase_compare() {
    assert_eq!(compare_nocase(b"Hello\0", b"hELLO\0"), 0);
    assert_eq!(compare_nocase(b"abc\0", b"abd\0"), -1);
    assert_eq!(compare_nocase(b"abd\0", b"ABC\0"), 1);
    assert_eq!(compare_nocase(b"ab\0", b"abc\0"), -1);
    assert_eq!(compare_nocase(b"[\0", b"a\0"), 1);
}

#[test]
fn update_copies_strings_with_terminator() {
    let t = table();
    assert!(t.indexessetup);
    assert_eq!(t.configstrings[3], Some(b"Lift\0".to_vec()));
    assert_eq!(t.configstrings[4], None);
}

#[test]
fn string_from_index_cases() {
    let t = table();
    assert_eq!(AAS_StringFromIndex(&t, 0, 10, 3), Ok(b"Lift\0".to_vec()));
    assert_eq!(AAS_StringFromIndex(&t, 0, 10, 10), Err(IndexError::OutOfRange));
    assert_eq!(AAS_StringFromIndex(&t, 0, 10, -1), Err(IndexError::OutOfRange));
    assert_eq!(AAS_StringFromIndex(&t, 0, 10, 5), Err(IndexError::UnusedIndex));
    assert_eq!(AAS_StringFromIndex(&t, 1, 10, 0), Ok(Vec::new()));
    let empty = ConfigStrings::new();
    assert_eq!(AAS_StringFromIndex(&empty, 0, 10, 3), Err(IndexError::NotSetup));
}

#[test]
fn index_from_string_ignores_case() {
    let t = table();
    assert_eq!(AAS_IndexFromString(&t, 0, 10, b"LIFT\0"), Ok(3));
    assert_eq!(AAS_IndexFromString(&t, 0, 10, b"nothing\0"), Ok(0));
    assert_eq!(AAS_IndexFromString(&t, 0, 2, b"lift\0"), Ok(0));
    assert_eq!(AAS_IndexFromString(&ConfigStrings::new(), 0, 10, b"lift\0"), Err(IndexError::NotSetup));
}

#[test]
fn models_by_index_and_name() {
    let t = table();
    assert_eq!(AAS_ModelFromIndex(&t, 2), Ok(b"models/door.md3\0".to_vec()));
    assert_eq!(AAS_IndexFromModel(&t, b"MODELS/DOOR.MD3\0"), Ok(2));
    assert_eq!(AAS_ModelFromIndex(&t, 512), Err(IndexError::OutOfRange));
}
