//! The entities of the BSP file: for every entity its key/value pairs.
use vstd::prelude::*;
use crate::cstr::{c_str_compare, cstr_view, lemma_nul_index, nul_index};
use crate::atoi::{atoi_spec, c_atoi};

verus! {

pub const MAX_BSPENTITIES: usize = 2048;

/// A key/value pair of an entity; both are zero terminated strings.
#[derive(Debug)]
pub struct bsp_epair_s {
    pub key: Vec<u8>,
    pub value: Vec<u8>,
}

pub type bsp_epair_t = bsp_epair_s;

/// An entity: its key/value pairs, the last parsed first.
pub struct bsp_entity_s {
    pub epairs: Vec<bsp_epair_t>,
}

pub type bsp_entity_t = bsp_entity_s;

/// The entities of the BSP file; entity zero is a dummy.
pub struct BspEntities {
    pub entities: Vec<bsp_entity_t>,
    pub numentities: i32,
}

impl BspEntities {
    /// Every counted entity is there.
    pub open spec fn wf(&self) -> bool {
        0 <= self.numentities <= self.entities@.len()
    }
}

/// The entity after `ent`, or zero when there is none (`AAS_NextBSPEntity`).
pub fn AAS_NextBSPEntity(w: &BspEntities, ent: i32) -> (r: i32)
    requires
        ent < i32::MAX,
    ensures
        r == if 1 <= ent + 1 < w.numentities { ent + 1 } else { 0 },
{
    let next = ent + 1;
    if next >= 1 && next < w.numentities {
        return next;
    }
    0
}

/// Entity `ent` exists and is not the dummy (`AAS_BSPEntityInRange`).
pub fn AAS_BSPEntityInRange(w: &BspEntities, ent: i32) -> (r: bool)
    ensures
        r == (0 < ent < w.numentities),
{
    !(ent <= 0 || ent >= w.numentities)
}

/// `dest` after C `strncpy` of the string held in `src`, `n` bytes: the
/// string's bytes, then zeros up to `n` bytes; the rest of `dest` is kept.
pub open spec fn strncpy_pad(dest: Seq<u8>, src: Seq<u8>, n: int) -> Seq<u8> {
    Seq::new(dest.len(), |j: int| if j < n { if j < nul_index(src) { src[j] } else { 0u8 } } else { dest[j] })
}

/// The pair of entity `ent` whose key is `key`: the index of the first such
/// pair in list order, if any.
pub open spec fn find_pair(e: bsp_entity_t, key: Seq<u8>, from: int) -> Option<int>
    decreases e.epairs@.len() - from,
{
    if from < 0 || from >= e.epairs@.len() {
        None
    } else if cstr_view(e.epairs@[from].key@) == cstr_view(key) {
        Some(from)
    } else {
        find_pair(e, key, from + 1)
    }
}

/// Looks up the value of key `key` of entity `ent` (`AAS_ValueForBSPEpairKey`)
/// and copies it into `value` as C `strncpy` of `size - 1` bytes does, with
/// byte `size - 1` made zero.  Gives false, with `value` holding the empty
/// string, when the entity is out of range or has no such key.
pub fn AAS_ValueForBSPEpairKey(w: &BspEntities, ent: i32, key: &[u8], value: &mut Vec<u8>, size: i32) -> (r: bool)
    requires
        w.wf(),
        1 <= size <= old(value)@.len(),
    ensures
        final(value)@.len() == old(value)@.len(),
        r == (0 < ent < w.numentities && find_pair(w.entities@[ent as int], key@, 0) is Some),
        !r ==> final(value)@ == old(value)@.update(0, 0u8),
        r ==> final(value)@ == strncpy_pad(old(value)@.update(0, 0u8),
            w.entities@[ent as int].epairs@[find_pair(w.entities@[ent as int], key@, 0)->Some_0].value@, size - 1)
            .update(size - 1, 0u8),
{
    value.set(0, 0u8);
    if !AAS_BSPEntityInRange(w, ent) {
        return false;
    }
    let e = &w.entities[ent as usize];
    let ghost k = key@;
    let mut i: usize = 0;
    while i < e.epairs.len()
        invariant
            w.wf(),
            0 < ent < w.numentities,
            e == w.entities@[ent as int],
            k == key@,
            old(value)@.len() >= size,
            i <= e.epairs@.len(),
            find_pair(*e, key@, 0) == find_pair(*e, key@, i as int),
            1 <= size <= value@.len(),
            value@ == old(value)@.update(0, 0u8),
        decreases e.epairs@.len() - i,
    {
        let key_order = c_str_compare(e.epairs[i].key.as_slice(), key);
        proof {
            if key_order == 0 {
                assert(find_pair(*e, key@, i as int) == Some(i as int));
            } else {
                assert(find_pair(*e, key@, i as int) == find_pair(*e, key@, i + 1));
            }
        }
        if key_order == 0 {
            let src = e.epairs[i].value.as_slice();
            strncpy(value, src, (size - 1) as usize);
            value.set((size - 1) as usize, 0u8);
            return true;
        }
        i += 1;
    }
    false
}

/// C `strncpy` of `n` bytes from the string held in `src` into `dest`.
fn strncpy(dest: &mut Vec<u8>, src: &[u8], n: usize)
    requires
        n <= old(dest)@.len(),
    ensures
        final(dest)@ == strncpy_pad(old(dest)@, src@, n as int),
{
    proof {
        lemma_nul_index(src@);
    }
    let ghost d0 = dest@;
    let mut i: usize = 0;
    let mut ended = false;
    while i < n
        invariant
            n <= d0.len(),
            dest@.len() == d0.len(),
            i <= n,
            nul_index(src@) <= src@.len(),
            forall|k: int| 0 <= k < nul_index(src@) ==> src@[k] != 0u8,
            nul_index(src@) < src@.len() ==> src@[nul_index(src@) as int] == 0u8,
            ended == (i > nul_index(src@)),
            !ended ==> i <= nul_index(src@),
            forall|j: int| 0 <= j < i ==> #[trigger] dest@[j] == if j < nul_index(src@) { src@[j] } else { 0u8 },
            forall|j: int| i <= j < d0.len() ==> #[trigger] dest@[j] == d0[j],
        decreases n - i,
    {
        let c: u8 = if ended || i >= src.len() { 0 } else { src[i] };
        proof {
            if !ended && i < src.len() && i == nul_index(src@) {
                assert(c == 0u8);
            }
        }
        dest.set(i, c);
        if c == 0 {
            ended = true;
        }
        proof {
            if i < nul_index(src@) {
                assert(c != 0u8);
            }
        }
        i += 1;
    }
    proof {
        assert(dest@ =~= strncpy_pad(d0, src@, n as int));
    }
}

/// Forgets all entities (`AAS_FreeBSPEntities`).
pub fn AAS_FreeBSPEntities(w: &mut BspEntities)
    ensures
        final(w).wf(),
        final(w).numentities == 0,
        final(w).entities@.len() == 0,
{
    w.entities = Vec::new();
    w.numentities = 0;
}

/// Size of the buffer a key's value is read into to be turned into a
/// number.
pub const EPAIR_NUMBER_BUF: i32 = 256;

/// The buffer the value of key `key` of entity `ent` is read into: at most
/// 255 bytes of it, then zeros.
pub open spec fn value_buffer(w: BspEntities, ent: i32, key: Seq<u8>) -> Seq<u8> {
    strncpy_pad(Seq::new(256, |j: int| 0u8),
        w.entities@[ent as int].epairs@[find_pair(w.entities@[ent as int], key, 0)->Some_0].value@, 255)
        .update(255, 0u8)
}

/// Reads an integer key of entity `ent` (`AAS_IntForBSPEpairKey`): whether
/// the entity has the key, and the integer at the front of its value (read
/// as C `atoi` reads it, from the first 255 bytes), or 0 without the key.
pub fn AAS_IntForBSPEpairKey(w: &BspEntities, ent: i32, key: &[u8]) -> (r: (bool, i32))
    requires
        w.wf(),
    ensures
        r.0 == (0 < ent < w.numentities && find_pair(w.entities@[ent as int], key@, 0) is Some),
        r.0 ==> r.1 == atoi_spec(value_buffer(*w, ent, key@)),
        !r.0 ==> r.1 == 0,
{
    let mut buf: Vec<u8> = Vec::new();
    while buf.len() < 256
        invariant
            buf@.len() <= 256,
            forall|j: int| 0 <= j < buf@.len() ==> buf@[j] == 0u8,
        decreases 256 - buf@.len(),
    {
        buf.push(0u8);
    }
    proof {
        assert(buf@ =~= Seq::new(256, |j: int| 0u8));
        assert(buf@.update(0, 0u8) =~= buf@);
    }
    if !AAS_ValueForBSPEpairKey(w, ent, key, &mut buf, EPAIR_NUMBER_BUF) {
        return (false, 0);
    }
    let v = c_atoi(buf.as_slice());
    (true, v)
}

} // verus!
