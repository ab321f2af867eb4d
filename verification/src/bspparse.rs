//! The entity text of the BSP file, read from its script tokens
//! (`AAS_ParseBSPEntities`): a list of entities, each `{`, then pairs of
//! quoted key and value, then `}`.
use vstd::prelude::*;
use crate::bspent::{bsp_entity_s, bsp_epair_s, BspEntities, MAX_BSPENTITIES};

verus! {

/// A token of the entity text, as the script reader hands it over.
pub enum ScriptToken {
    /// a quoted string, its contents without the quotes
    Str(Vec<u8>),
    /// any other token, its text
    Other(Vec<u8>),
}

/// The view of a token: whether it is a quoted string, and its text.
pub open spec fn token_view(t: ScriptToken) -> (bool, Seq<u8>) {
    match t {
        ScriptToken::Str(s) => (true, s@),
        ScriptToken::Other(s) => (false, s@),
    }
}

/// Token `t` is the punctuation `c`.
pub open spec fn is_punct(t: (bool, Seq<u8>), c: u8) -> bool {
    !t.0 && t.1 == seq![c]
}

/// The key/value pairs of an entity from position `pos` on, in the order
/// of the text, and the position after its closing `}`; none when a key or
/// value is no quoted string or the text ends before the `}`.
pub open spec fn parse_pairs(toks: Seq<(bool, Seq<u8>)>, pos: int) -> Option<(Seq<(Seq<u8>, Seq<u8>)>, int)>
    decreases toks.len() - pos,
{
    if pos < 0 || pos >= toks.len() {
        None
    } else if is_punct(toks[pos], 125u8) {
        Some((Seq::empty(), pos + 1))
    } else if !toks[pos].0 || pos + 1 >= toks.len() || !toks[pos + 1].0 {
        None
    } else {
        match parse_pairs(toks, pos + 2) {
            Some((ps, p)) => Some((seq![(toks[pos].1, toks[pos + 1].1)] + ps, p)),
            None => None,
        }
    }
}

/// The pairs of an entity end after where they start, within the tokens.
pub proof fn lemma_pairs_end(toks: Seq<(bool, Seq<u8>)>, pos: int)
    ensures
        parse_pairs(toks, pos) matches Some((ps, p)) ==> pos < p <= toks.len(),
    decreases toks.len() - pos,
{
    if 0 <= pos < toks.len() && !is_punct(toks[pos], 125u8) && toks[pos].0 && pos + 1 < toks.len() && toks[pos + 1].0 {
        lemma_pairs_end(toks, pos + 2);
    }
}

/// The entities from position `pos` on, `count` entities (the dummy
/// included) being there already: each a list of pairs; none when a token
/// starts no entity or an entity is malformed.  At `MAX_BSPENTITIES`
/// entities the reading stops, keeping them.
pub open spec fn parse_entities(toks: Seq<(bool, Seq<u8>)>, pos: int, count: int)
    -> Option<Seq<Seq<(Seq<u8>, Seq<u8>)>>>
    decreases toks.len() - pos,
{
    if pos < 0 || pos >= toks.len() {
        Some(Seq::empty())
    } else if !is_punct(toks[pos], 123u8) {
        None
    } else if count >= MAX_BSPENTITIES {
        Some(Seq::empty())
    } else {
        match parse_pairs(toks, pos + 1) {
            None => None,
            Some((ps, p)) => {
                proof {
                    lemma_pairs_end(toks, pos + 1);
                }
                match parse_entities(toks, p, count + 1) {
                    None => None,
                    Some(es) => Some(seq![ps] + es),
                }
            },
        }
    }
}

/// The zero terminated buffer holding `s`.
pub open spec fn zstr(s: Seq<u8>) -> Seq<u8> {
    s.push(0u8)
}

/// Entity `e` holds the pairs `ps`, the last of the text first, each key
/// and value zero terminated.
pub open spec fn entity_holds(e: bsp_entity_s, ps: Seq<(Seq<u8>, Seq<u8>)>) -> bool {
    &&& e.epairs@.len() == ps.len()
    &&& forall|k: int| 0 <= k < ps.len() ==> {
        &&& (#[trigger] e.epairs@[k]).key@ == zstr(ps[ps.len() - 1 - k].0)
        &&& e.epairs@[k].value@ == zstr(ps[ps.len() - 1 - k].1)
    }
}

/// The zero terminated copy of `s`.
fn zcopy(s: &Vec<u8>) -> (r: Vec<u8>)
    ensures
        r@ == zstr(s@),
{
    let mut r: Vec<u8> = Vec::new();
    let mut i: usize = 0;
    while i < s.len()
        invariant
            i <= s@.len(),
            r@ == s@.take(i as int),
        decreases s@.len() - i,
    {
        r.push(s[i]);
        proof {
            assert(s@.take(i as int + 1) =~= s@.take(i as int).push(s@[i as int]));
        }
        i += 1;
    }
    proof {
        assert(s@.take(s@.len() as int) =~= s@);
    }
    r.push(0);
    r
}

/// The token at `i` is the punctuation `c`.
fn token_is(t: &ScriptToken, c: u8) -> (r: bool)
    ensures
        r == is_punct(token_view(*t), c),
{
    match t {
        ScriptToken::Str(_) => false,
        ScriptToken::Other(s) => {
            let r = s.len() == 1 && s[0] == c;
            proof {
                if s@.len() == 1 && s@[0] == c {
                    assert(s@ =~= seq![c]);
                }
            }
            r
        },
    }
}

/// Reads the pairs of one entity from token `start` on, into `epairs`
/// last first; gives the position after the closing `}`, or none.
fn read_pairs(toks: &Vec<ScriptToken>, start: usize, Ghost(tv): Ghost<Seq<(bool, Seq<u8>)>>)
    -> (r: Option<(Vec<bsp_epair_s>, usize)>)
    requires
        tv == toks@.map_values(|t: ScriptToken| token_view(t)),
    ensures
        match parse_pairs(tv, start as int) {
            None => r is None,
            Some((ps, p)) => r matches Some((e, q)) && q == p && entity_holds(bsp_entity_s { epairs: e }, ps),
        },
{
    let mut epairs: Vec<bsp_epair_s> = Vec::new();
    let mut pos: usize = start;
    let ghost mut done: Seq<(Seq<u8>, Seq<u8>)> = Seq::empty();
    while pos < toks.len()
        invariant
            tv == toks@.map_values(|t: ScriptToken| token_view(t)),
            start <= pos,
            parse_pairs(tv, start as int) == match parse_pairs(tv, pos as int) {
                Some((ps, p)) => Some((done + ps, p)),
                None => None::<(Seq<(Seq<u8>, Seq<u8>)>, int)>,
            },
            entity_holds(bsp_entity_s { epairs: epairs }, done),
        decreases toks@.len() - pos,
    {
        let t = &toks[pos];
        if token_is(t, 125u8) {
            proof {
                assert(done + Seq::<(Seq<u8>, Seq<u8>)>::empty() =~= done);
            }
            return Some((epairs, pos + 1));
        }
        let key = match t {
            ScriptToken::Str(s) => s,
            ScriptToken::Other(_) => {
                return None;
            },
        };
        if pos + 1 >= toks.len() {
            return None;
        }
        let value = match &toks[pos + 1] {
            ScriptToken::Str(s) => s,
            ScriptToken::Other(_) => {
                return None;
            },
        };
        let k = zcopy(key);
        let v = zcopy(value);
        let ghost before = epairs@;
        let ghost pair = (key@, value@);
        epairs.insert(0, bsp_epair_s { key: k, value: v });
        proof {
            let nd = done.push(pair);
            assert(tv[pos as int] == (true, key@));
            assert(tv[pos as int + 1] == (true, value@));
            assert forall|ps: Seq<(Seq<u8>, Seq<u8>)>| true implies #[trigger] (done + (seq![pair] + ps)) == nd + ps by {
                assert(done + (seq![pair] + ps) =~= nd + ps);
            }
            assert forall|k: int| 0 <= k < nd.len() implies {
                &&& (#[trigger] epairs@[k]).key@ == zstr(nd[nd.len() - 1 - k].0)
                &&& epairs@[k].value@ == zstr(nd[nd.len() - 1 - k].1)
            } by {
                if k > 0 {
                    assert(epairs@[k] == before[k - 1]);
                    assert(nd[nd.len() - 1 - k] == done[done.len() - 1 - (k - 1)]);
                }
            }
            done = nd;
        }
        pos = pos + 2;
    }
    None
}

/// Reads the entities of the BSP file from the tokens of its entity text
/// (`AAS_ParseBSPEntities`).  Entity zero is a dummy; each entity is `{`,
/// pairs of quoted key and value, and `}`, and keeps its pairs last first.
/// At `MAX_BSPENTITIES` entities the reading stops and keeps what was read.
/// A token that starts no entity, a key or value that is no quoted string,
/// or an entity that is not closed drops all entities, and the result is
/// false.
pub fn AAS_ParseBSPEntities(w: &mut BspEntities, toks: &Vec<ScriptToken>) -> (r: bool)
    ensures
        final(w).wf(),
        ({
            let tv = toks@.map_values(|t: ScriptToken| token_view(t));
            match parse_entities(tv, 0, 1) {
                None => !r && final(w).numentities == 0 && final(w).entities@.len() == 0,
                Some(es) => {
                    &&& r
                    &&& final(w).numentities == es.len() + 1
                    &&& final(w).entities@.len() == es.len() + 1
                    &&& final(w).entities@[0].epairs@.len() == 0
                    &&& forall|k: int| 0 <= k < es.len() ==> #[trigger] entity_holds(final(w).entities@[k + 1], es[k])
                },
            }
        }),
{
    let ghost tv = toks@.map_values(|t: ScriptToken| token_view(t));
    let mut ents: Vec<bsp_entity_s> = Vec::new();
    ents.push(bsp_entity_s { epairs: Vec::new() });
    let mut pos: usize = 0;
    let ghost mut done: Seq<Seq<(Seq<u8>, Seq<u8>)>> = Seq::empty();
    while pos < toks.len()
        invariant
            tv == toks@.map_values(|t: ScriptToken| token_view(t)),
            ents@.len() == done.len() + 1,
            ents@.len() <= MAX_BSPENTITIES,
            ents@[0].epairs@.len() == 0,
            forall|k: int| 0 <= k < done.len() ==> #[trigger] entity_holds(ents@[k + 1], done[k]),
            parse_entities(tv, 0, 1) == match parse_entities(tv, pos as int, ents@.len() as int) {
                Some(es) => Some(done + es),
                None => None::<Seq<Seq<(Seq<u8>, Seq<u8>)>>>,
            },
        decreases toks@.len() - pos,
    {
        proof {
            assert(tv[pos as int] == token_view(toks@[pos as int]));
        }
        if !token_is(&toks[pos], 123u8) {
            w.entities = Vec::new();
            w.numentities = 0;
            return false;
        }
        if ents.len() >= MAX_BSPENTITIES {
            proof {
                assert(done + Seq::<Seq<(Seq<u8>, Seq<u8>)>>::empty() =~= done);
            }
            let n = ents.len();
            w.entities = ents;
            w.numentities = n as i32;
            return true;
        }
        match read_pairs(toks, pos + 1, Ghost(tv)) {
            None => {
                w.entities = Vec::new();
                w.numentities = 0;
                return false;
            },
            Some((epairs, next)) => {
                proof {
                    lemma_pairs_end(tv, pos as int + 1);
                }
                let ghost ps = match parse_pairs(tv, pos as int + 1) {
                    Some((ps, _)) => ps,
                    None => Seq::empty(),
                };
                let ghost before = ents@;
                proof {
                    assert(parse_entities(tv, pos as int, before.len() as int) == match parse_entities(tv, next as int, before.len() as int + 1) {
                        Some(es) => Some(seq![ps] + es),
                        None => None::<Seq<Seq<(Seq<u8>, Seq<u8>)>>>,
                    });
                }
                ents.push(bsp_entity_s { epairs: epairs });
                proof {
                    assert forall|es: Seq<Seq<(Seq<u8>, Seq<u8>)>>| true implies
                        #[trigger] (done + (seq![ps] + es)) == done.push(ps) + es by {
                        assert(done + (seq![ps] + es) =~= done.push(ps) + es);
                    }
                    assert forall|k: int| 0 <= k < done.len() + 1 implies
                        #[trigger] entity_holds(ents@[k + 1], done.push(ps)[k]) by {
                        if k < done.len() {
                            assert(ents@[k + 1] == before[k + 1]);
                        }
                    }
                    done = done.push(ps);
                }
                pos = next;
            },
        }
    }
    proof {
        assert(done + Seq::<Seq<(Seq<u8>, Seq<u8>)>>::empty() =~= done);
    }
    let n = ents.len();
    w.entities = ents;
    w.numentities = n as i32;
    true
}

} // verus!
