use lib::bspent::{BspEntities, MAX_BSPENTITIES};
use lib::bspparse::{AAS_ParseBSPEntities, ScriptToken};

fn s(t: &str) -> ScriptToken {
    ScriptToken::Str(t.as_bytes().to_vec())
}

fn p(t: &str) -> ScriptToken {
    ScriptToken::Other(t.as_bytes().to_vec())
}

fn z(t: &str) -> Vec<u8> {
    let mut b = t.as_bytes().to_vec();
    b.push(0);
    b
}

fn empty() -> BspEntities {
    BspEntities { entities: Vec::new(), numentities: 0 }
}

#[test]
fn entities_keep_their_pairs_last_first() {
    let toks = vec![
        p("{"), s("classname"), s("worldspawn"), s("message"), s("hi"), p("}"),
        p("{"), s("classname"), s("item_armor_body"), p("}"),
        p("{"), p("}"),
    ];
    let mut w = empty();
    assert!(AAS_ParseBSPEntities(&mut w, &toks));
    assert_eq!(w.numentities, 4);
    assert_eq!(w.entities.len(), 4);
    assert!(w.entities[0].epairs.is_empty());
    assert_eq!(w.entities[1].epairs.len(), 2);
    assert_eq!(w.entities[1].epairs[0].key, z("message"));
    assert_eq!(w.entities[1].epairs[0].value, z("hi"));
    assert_eq!(w.entities[1].epairs[1].key, z("classname"));
    assert_eq!(w.entities[1].epairs[1].value, z("worldspawn"));
    assert_eq!(w.entities[2].epairs[0].value, z("item_armor_body"));
    assert!(w.entities[3].epairs.is_empty());
}

#[test]
fn no_tokens_give_only_the_dummy() {
    let mut w = empty();
    assert!(AAS_ParseBSPEntities(&mut w, &vec![]));
    assert_eq!(w.numentities, 1);
}

#[test]
fn malformed_entity_text_drops_everything() {
    let bad = vec![
        vec![p("{"), s("a"), s("b"), p("}"), s("x")],
        vec![p("{"), p("a"), s("b"), p("}")],
        vec![p("{"), s("a"), p("b"), p("}")],
        vec![p("{"), s("a"), s("b")],
        vec![p("{"), s("a")],
        vec![p("{")],
        vec![s("{"), p("}")],
        vec![p("{"), s("}")],
    ];
    for toks in bad {
        let mut w = empty();
        assert!(!AAS_ParseBSPEntities(&mut w, &toks));
        assert_eq!(w.numentities, 0);
        assert!(w.entities.is_empty());
    }
}

#[test]
fn reading_stops_at_the_entity_limit() {
    let mut toks = Vec::new();
    for _ in 0..MAX_BSPENTITIES + 3 {
        toks.push(p("{"));
        toks.push(s("k"));
        toks.push(s("v"));
        toks.push(p("}"));
    }
    toks.push(p("junk"));
    let mut w = empty();
    assert!(AAS_ParseBSPEntities(&mut w, &toks));
    assert_eq!(w.numentities as usize, MAX_BSPENTITIES);
    assert_eq!(w.entities.len(), MAX_BSPENTITIES);
}
