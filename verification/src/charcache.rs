//! The table side of loading bot characters: finding a free handle,
//! finding the characters already loaded from a file, storing a loaded
//! character, and building a character between two skills.
use vstd::prelude::*;
use crate::character::{
    bot_characteristic_s, bot_characteristic_t, bot_character_s, bot_character_t, copy_string,
    BotCharacters, MAX_CHARACTERISTICS, MAX_CHARACTER_HANDLES,
};
use crate::cstr::{c_str_compare, cstr_view};

verus! {

/// The first handle under which no character is loaded, as the loading of
/// a character looks for one (`BotLoadCachedCharacter`,
/// `BotInterpolateCharacters`); none when every handle is in use.
pub fn BotFreeCharacterHandle(t: &BotCharacters) -> (r: Option<usize>)
    requires
        t.wf(),
    ensures
        r is None <==> forall|h: int| 1 <= h <= MAX_CHARACTER_HANDLES ==> #[trigger] t.valid(h),
        r matches Some(h) ==> 1 <= h <= MAX_CHARACTER_HANDLES && !t.valid(h as int)
            && forall|g: int| 1 <= g < h ==> #[trigger] t.valid(g),
{
    let mut h: usize = 1;
    while h <= MAX_CHARACTER_HANDLES
        invariant
            t.wf(),
            1 <= h <= MAX_CHARACTER_HANDLES + 1,
            forall|g: int| 1 <= g < h ==> #[trigger] t.valid(g),
        decreases MAX_CHARACTER_HANDLES + 1 - h,
    {
        if t.characters[h].is_none() {
            proof {
                assert(!t.valid(h as int));
            }
            return Some(h);
        }
        h += 1;
    }
    None
}

/// A character loaded from file `charfile` is under handle `h`.
pub open spec fn cached_under(t: BotCharacters, h: int, charfile: Seq<u8>) -> bool {
    t.valid(h) && cstr_view(t.character(h).filename@) == cstr_view(charfile)
}

/// The handles below `n` under which characters loaded from `charfile`
/// are, in increasing order.
pub open spec fn cached_handles(t: BotCharacters, charfile: Seq<u8>, n: int) -> Seq<usize>
    decreases n,
{
    if n <= 1 {
        Seq::empty()
    } else if cached_under(t, n - 1, charfile) {
        cached_handles(t, charfile, n - 1).push((n - 1) as usize)
    } else {
        cached_handles(t, charfile, n - 1)
    }
}

/// The handles, in increasing order, of the characters loaded from file
/// `charfile`: those among which `BotFindCachedCharacter` looks for the
/// skill it wants (the skill test, on floats, is left to the caller).
pub fn BotCachedCharacterHandles(t: &BotCharacters, charfile: &Vec<u8>) -> (r: Vec<usize>)
    requires
        t.wf(),
    ensures
        r@ == cached_handles(*t, charfile@, MAX_CHARACTER_HANDLES + 1),
{
    let mut r: Vec<usize> = Vec::new();
    let mut h: usize = 1;
    while h <= MAX_CHARACTER_HANDLES
        invariant
            t.wf(),
            1 <= h <= MAX_CHARACTER_HANDLES + 1,
            r@ == cached_handles(*t, charfile@, h as int),
        decreases MAX_CHARACTER_HANDLES + 1 - h,
    {
        match &t.characters[h] {
            Some(ch) => {
                if c_str_compare(ch.filename.as_slice(), charfile.as_slice()) == 0 {
                    r.push(h);
                }
            },
            None => {},
        }
        h += 1;
    }
    r
}

/// Puts the character `ch` under handle `handle`.
pub fn BotStoreCharacter(t: &mut BotCharacters, handle: usize, ch: bot_character_t)
    requires
        old(t).wf(),
        1 <= handle <= MAX_CHARACTER_HANDLES,
        ch.c@.len() == MAX_CHARACTERISTICS,
    ensures
        final(t).wf(),
        final(t).characters@ == old(t).characters@.update(handle as int, Some(ch)),
{
    t.characters.set(handle, Some(ch));
    proof {
        assert forall|g: int| 0 <= g <= MAX_CHARACTER_HANDLES && (#[trigger] t.characters@[g]) is Some implies
            t.characters@[g]->Some_0.c@.len() == MAX_CHARACTERISTICS by {
            if g != handle as int {
                assert(t.characters@[g] == old(t).characters@[g]);
            }
        }
    }
}

/// A characteristic of a character between two skills: the value `f`
/// when both are floats, the first one's when it is an integer or a
/// string (a string copied up to its end), and none otherwise.
pub open spec fn interpolated(c1: bot_characteristic_t, c2: bot_characteristic_t, f: u32, out: bot_characteristic_t) -> bool {
    if c1 is Float && c2 is Float {
        out == bot_characteristic_s::Float(f)
    } else {
        match c1 {
            bot_characteristic_s::Integer(n) => out == bot_characteristic_s::Integer(n),
            bot_characteristic_s::String(s) => out matches bot_characteristic_s::String(o) && o@ == cstr_view(s@).push(0u8),
            _ => out is Unset,
        }
    }
}

/// The character between `ch1` and `ch2` at skill `skill`
/// (`BotInterpolateCharacters`): the file name of `ch1`, the skill given,
/// and each characteristic as `interpolated` says, `floats[i]` being the
/// float between the two values of characteristic `i` (computed by the
/// caller).
pub fn BotInterpolatedCharacter(ch1: &bot_character_t, ch2: &bot_character_t, skill: u32, floats: &Vec<u32>)
    -> (out: bot_character_t)
    requires
        ch1.c@.len() == MAX_CHARACTERISTICS,
        ch2.c@.len() == MAX_CHARACTERISTICS,
        floats@.len() == MAX_CHARACTERISTICS,
    ensures
        out.filename@ == cstr_view(ch1.filename@).push(0u8),
        out.skill == skill,
        out.c@.len() == MAX_CHARACTERISTICS,
        forall|i: int| 0 <= i < MAX_CHARACTERISTICS ==>
            interpolated(ch1.c@[i], ch2.c@[i], floats@[i], #[trigger] out.c@[i]),
{
    let mut c: Vec<bot_characteristic_t> = Vec::new();
    let mut i: usize = 0;
    while i < MAX_CHARACTERISTICS as usize
        invariant
            ch1.c@.len() == MAX_CHARACTERISTICS,
            ch2.c@.len() == MAX_CHARACTERISTICS,
            floats@.len() == MAX_CHARACTERISTICS,
            i <= MAX_CHARACTERISTICS,
            c@.len() == i,
            forall|k: int| 0 <= k < i ==> interpolated(ch1.c@[k], ch2.c@[k], floats@[k], #[trigger] c@[k]),
        decreases MAX_CHARACTERISTICS - i,
    {
        let both_float = match (&ch1.c[i], &ch2.c[i]) {
            (bot_characteristic_s::Float(_), bot_characteristic_s::Float(_)) => true,
            _ => false,
        };
        let v = if both_float {
            bot_characteristic_s::Float(floats[i])
        } else {
            match &ch1.c[i] {
                bot_characteristic_s::Integer(n) => bot_characteristic_s::Integer(*n),
                bot_characteristic_s::String(s) => bot_characteristic_s::String(copy_string(s)),
                _ => bot_characteristic_s::Unset,
            }
        };
        c.push(v);
        i += 1;
    }
    bot_character_s { filename: copy_string(&ch1.filename), skill, c }
}

} // verus!
