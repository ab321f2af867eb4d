use lib::bspent::{
    bsp_entity_s, bsp_epair_s, AAS_BSPEntityInRange, AAS_FreeBSPEntities, AAS_NextBSPEntity,
    AAS_ValueForBSPEpairKey, BspEntities,
};

fn pair(k: &[u8], v: &[u8]) -> bsp_epair_s {
    bsp_epair_s { key: k.to_vec(), value: v.to_vec() }
}

fn entities() -> BspEntities {
    BspEntities {
        entities: vec![
            bsp_entity_s { epairs: vec![] },
            bsp_entity_s { epairs: vec![pair(b"classname\0", b"worldspawn\0"), pair(b"message\0", b"Arena\0")] },
            bsp_entity_s { epairs: vec![pair(b"origin\0", b"10 20 30\0"), pair(b"origin\0", b"1 2 3\0")] },
        ],
        numentities: 3,
    }
}

#[test]
fn next_entity_and_range() {
    let w = entities();
    assert_eq!(AAS_NextBSPEntity(&w, 0), 1);
    assert_eq!(AAS_NextBSPEntity(&w, 1), 2);
    assert_eq!(AAS_NextBSPEntity(&w, 2), 0);
    assert_eq!(AAS_NextBSPEntity(&w, -5), 0);
    assert!(!AAS_BSPEntityInRange(&w, 0));
    assert!(AAS_BSPEntityInRange(&w, 2));
    assert!(!AAS_BSPEntityInRange(&w, 3));
}

#[test]
fn value_for_key_copies_first_match() {
    let w = entities();
    let mut buf = vec![b'#'; 12];
    assert!(AAS_ValueForBSPEpairKey(&w, 2, b"origin\0", &mut buf, 12));
    assert_eq!(&buf[..], b"10 20 30\0\0\0\0");
    let mut small = vec![b'#'; 4];
    assert!(AAS_ValueForBSPEpairKey(&w, 1, b"message\0", &mut small, 4));
    assert_eq!(small, b"Are\0".to_vec());
}

#[test]
fn value_for_missing_key_is_empty() {
    let w = entities();
    let mut buf = vec![b'#'; 4];
    assert!(!AAS_ValueForBSPEpairKey(&w, 1, b"origin\0", &mut buf, 4));
    assert_eq!(buf, b"\0###".to_vec());
    assert!(!AAS_ValueForBSPEpairKey(&w, 7, b"origin\0", &mut buf, 4));
}

#[test]
fn free_entities_forgets_them() {
    let mut w = entities();
    AAS_FreeBSPEntities(&mut w);
    assert_eq!(w.numentities, 0);
    assert!(!AAS_BSPEntityInRange(&w, 1));
}
