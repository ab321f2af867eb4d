use lib::atoi::c_atoi;
use lib::bspent::{bsp_entity_s, bsp_epair_s, AAS_IntForBSPEpairKey, BspEntities};

#[test]
fn atoi_reads_leading_integers() {
    assert_eq!(c_atoi(b"42\0"), 42);
    assert_eq!(c_atoi(b"  \t-17xyz\0"), -17);
    assert_eq!(c_atoi(b"+8\0"), 8);
    assert_eq!(c_atoi(b"abc\0"), 0);
    assert_eq!(c_atoi(b"-\0"), 0);
    assert_eq!(c_atoi(b"12\x0034\0"), 12);
    assert_eq!(c_atoi(b"7"), 7);
    assert_eq!(c_atoi(b""), 0);
}

#[test]
fn atoi_holds_values_at_the_bounds() {
    assert_eq!(c_atoi(b"2147483647\0"), i32::MAX);
    assert_eq!(c_atoi(b"2147483648\0"), i32::MAX);
    assert_eq!(c_atoi(b"-2147483648\0"), i32::MIN);
    assert_eq!(c_atoi(b"-99999999999999999999\0"), i32::MIN);
    assert_eq!(c_atoi(b"99999999999999999999\0"), i32::MAX);
}

#[test]
fn int_for_key() {
    let w = BspEntities {
        entities: vec![
            bsp_entity_s { epairs: vec![] },
            bsp_entity_s {
                epairs: vec![
                    bsp_epair_s { key: b"spawnflags\0".to_vec(), value: b" 5 \0".to_vec() },
                    bsp_epair_s { key: b"notbot\0".to_vec(), value: b"x\0".to_vec() },
                ],
            },
        ],
        numentities: 2,
    };
    assert_eq!(AAS_IntForBSPEpairKey(&w, 1, b"spawnflags\0"), (true, 5));
    assert_eq!(AAS_IntForBSPEpairKey(&w, 1, b"notbot\0"), (true, 0));
    assert_eq!(AAS_IntForBSPEpairKey(&w, 1, b"notfree\0"), (false, 0));
    assert_eq!(AAS_IntForBSPEpairKey(&w, 0, b"spawnflags\0"), (false, 0));
}
