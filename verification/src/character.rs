//! Bot characters: the characteristics of each loaded bot, held in a table
//! indexed by handle.
use vstd::prelude::*;
use crate::cstr::{c_strlen, cstr_view, lemma_nul_index, nul_index};
use crate::strindex::copy_cstring;

verus! {

pub const MAX_CHARACTERISTICS: i32 = 80;
pub const MAX_CHARACTER_HANDLES: usize = 64;

/// A characteristic: not set, or an integer, a float (carried as its bit
/// pattern) or a string.
#[derive(Clone, Debug, PartialEq, Eq)]
pub enum bot_characteristic_s {
    Unset,
    Integer(i32),
    Float(u32),
    String(Vec<u8>),
}

pub type bot_characteristic_t = bot_characteristic_s;

/// A bot character.
pub struct bot_character_s {
    /// file the character was loaded from
    pub filename: Vec<u8>,
    /// skill of the character, as a float bit pattern
    pub skill: u32,
    /// the characteristics
    pub c: Vec<bot_characteristic_t>,
}

pub type bot_character_t = bot_character_s;

/// Why a character or characteristic could not be used.
#[derive(Clone, Copy, Debug, PartialEq, Eq, Structural)]
pub enum CharacterError {
    /// the handle is not in `1 ..= MAX_CHARACTER_HANDLES`
    HandleOutOfRange,
    /// no character is loaded under the handle
    InvalidCharacter,
    /// the characteristic index is out of range
    NoSuchCharacteristic,
    /// the characteristic is not set
    NotInitialized,
    /// the characteristic is not a string
    NotAString,
}

/// The table of characters: slot `h` holds the character with handle `h`.
pub struct BotCharacters {
    pub characters: Vec<Option<bot_character_t>>,
}

impl BotCharacters {
    /// Every slot exists and every character has all its characteristics.
    pub open spec fn wf(&self) -> bool {
        &&& self.characters@.len() == MAX_CHARACTER_HANDLES + 1
        &&& forall|h: int| 0 <= h <= MAX_CHARACTER_HANDLES && (#[trigger] self.characters@[h]) is Some
            ==> self.characters@[h]->Some_0.c@.len() == MAX_CHARACTERISTICS
    }

    /// A character is loaded under handle `h`.
    pub open spec fn valid(&self, h: int) -> bool {
        1 <= h <= MAX_CHARACTER_HANDLES && self.characters@[h] is Some
    }

    /// The character under handle `h`.
    pub open spec fn character(&self, h: int) -> bot_character_t {
        self.characters@[h]->Some_0
    }

    /// No character loaded.
    pub fn new() -> (t: Self)
        ensures
            t.wf(),
            forall|h: int| 0 <= h <= MAX_CHARACTER_HANDLES ==> !(#[trigger] t.characters@[h] is Some),
    {
        let mut v: Vec<Option<bot_character_t>> = Vec::new();
        while v.len() <= MAX_CHARACTER_HANDLES
            invariant
                v@.len() <= MAX_CHARACTER_HANDLES + 1,
                forall|h: int| 0 <= h < v@.len() ==> !(#[trigger] v@[h] is Some),
            decreases MAX_CHARACTER_HANDLES + 1 - v@.len(),
        {
            v.push(None);
        }
        BotCharacters { characters: v }
    }
}

/// The error for a handle under which no character is loaded.
pub open spec fn handle_error(t: BotCharacters, h: int) -> CharacterError {
    if !(1 <= h <= MAX_CHARACTER_HANDLES) { CharacterError::HandleOutOfRange } else { CharacterError::InvalidCharacter }
}

/// Checks a character handle (`BotCharacterFromHandle`).
pub fn BotCharacterFromHandle(t: &BotCharacters, handle: i32) -> (r: Result<usize, CharacterError>)
    requires
        t.wf(),
    ensures
        match r {
            Ok(h) => h == handle && t.valid(h as int),
            Err(e) => !t.valid(handle as int) && e == handle_error(*t, handle as int),
        },
{
    if handle <= 0 || handle as usize > MAX_CHARACTER_HANDLES {
        return Err(CharacterError::HandleOutOfRange);
    }
    if t.characters[handle as usize].is_none() {
        return Err(CharacterError::InvalidCharacter);
    }
    Ok(handle as usize)
}

/// Why characteristic `index` of character `h` cannot be read, if it can't.
pub open spec fn characteristic_error(t: BotCharacters, h: int, index: int) -> Option<CharacterError> {
    if !t.valid(h) {
        Some(handle_error(t, h))
    } else if !(0 <= index < MAX_CHARACTERISTICS) {
        Some(CharacterError::NoSuchCharacteristic)
    } else if t.character(h).c@[index] is Unset {
        Some(CharacterError::NotInitialized)
    } else {
        None
    }
}

/// Checks that characteristic `index` of `character` exists and is set
/// (`CheckCharacteristicIndex`).
pub fn CheckCharacteristicIndex(t: &BotCharacters, character: i32, index: i32) -> (r: Result<(), CharacterError>)
    requires
        t.wf(),
    ensures
        match characteristic_error(*t, character as int, index as int) {
            Some(e) => r == Err::<(), CharacterError>(e),
            None => r is Ok,
        },
{
    let h = BotCharacterFromHandle(t, character)?;
    if index < 0 || index >= MAX_CHARACTERISTICS {
        return Err(CharacterError::NoSuchCharacteristic);
    }
    let ch = t.characters[h].as_ref().unwrap();
    match &ch.c[index as usize] {
        bot_characteristic_s::Unset => Err(CharacterError::NotInitialized),
        _ => Ok(()),
    }
}

/// Copies string characteristic `index` of `character` into `buf`, at most
/// `size - 1` bytes of it (`Characteristic_String`): bytes of the string
/// are copied up to and with its terminating zero, and byte `size - 1` of
/// `buf` is made zero.
pub fn Characteristic_String(t: &BotCharacters, character: i32, index: i32, buf: &mut Vec<u8>, size: i32)
    -> (r: Result<(), CharacterError>)
    requires
        t.wf(),
        1 <= size <= old(buf)@.len(),
    ensures
        match characteristic_error(*t, character as int, index as int) {
            Some(e) => r == Err::<(), CharacterError>(e) && final(buf)@ == old(buf)@,
            None => match t.character(character as int).c@[index as int] {
                bot_characteristic_s::String(s) => r is Ok && final(buf)@ == strncpy_into(old(buf)@, s@, size - 1)
                    .update(size - 1, 0u8),
                _ => r == Err::<(), CharacterError>(CharacterError::NotAString) && final(buf)@ == old(buf)@,
            },
        },
{
    CheckCharacteristicIndex(t, character, index)?;
    let ch = t.characters[character as usize].as_ref().unwrap();
    match &ch.c[index as usize] {
        bot_characteristic_s::String(s) => {
            copy_n(buf, s.as_slice(), (size - 1) as usize);
            buf.set((size - 1) as usize, 0u8);
            Ok(())
        },
        _ => Err(CharacterError::NotAString),
    }
}

/// `dest` after copying bytes of `src` into its front, up to `n` of them,
/// stopping after the first zero byte; a missing byte of `src` reads zero.
pub open spec fn strncpy_into(dest: Seq<u8>, src: Seq<u8>, n: int) -> Seq<u8> {
    let m = if nul_index(src) < n { nul_index(src) + 1int } else { n };
    Seq::new(dest.len(), |j: int| if j < m { if j < src.len() { src[j] } else { 0u8 } } else { dest[j] })
}

/// Copies bytes of `src` into the front of `dest`, at most `n`, up to and
/// with the first zero byte.
fn copy_n(dest: &mut Vec<u8>, src: &[u8], n: usize)
    requires
        n <= old(dest)@.len(),
    ensures
        final(dest)@ == strncpy_into(old(dest)@, src@, n as int),
{
    proof {
        lemma_nul_index(src@);
    }
    let ghost d0 = dest@;
    let ghost m = if nul_index(src@) < n { nul_index(src@) + 1int } else { n as int };
    let mut i: usize = 0;
    while i < n
        invariant_except_break
            i <= nul_index(src@),
        invariant
            n <= d0.len(),
            dest@.len() == d0.len(),
            m == if nul_index(src@) < n { nul_index(src@) + 1int } else { n as int },
            i <= m,
            i <= n,
            forall|k: int| 0 <= k < nul_index(src@) ==> src@[k] != 0u8,
            nul_index(src@) < src@.len() ==> src@[nul_index(src@) as int] == 0u8,
            nul_index(src@) <= src@.len(),
            forall|j: int| 0 <= j < i ==> #[trigger] dest@[j] == if j < src@.len() { src@[j] } else { 0u8 },
            forall|j: int| i <= j < d0.len() ==> #[trigger] dest@[j] == d0[j],
        ensures
            i == m,
            dest@.len() == d0.len(),
            forall|j: int| 0 <= j < i ==> #[trigger] dest@[j] == if j < src@.len() { src@[j] } else { 0u8 },
            forall|j: int| i <= j < d0.len() ==> #[trigger] dest@[j] == d0[j],
        decreases n - i,
    {
        let c: u8 = if i < src.len() { src[i] } else { 0 };
        dest.set(i, c);
        i += 1;
        if c == 0 {
            proof {
                assert(i - 1 == nul_index(src@)) by {
                    if i - 1 < nul_index(src@) {
                        assert(src@[i - 1] != 0u8);
                    }
                }
            }
            break;
        }
        proof {
            assert(i - 1 < nul_index(src@));
        }
    }
    proof {
        assert(dest@ =~= strncpy_into(d0, src@, n as int));
    }
}

/// Characteristic `new` is `old`, or, when `old` is not set, a copy of
/// the default `def` (a string copied up to and with its terminating zero).
pub open spec fn filled_from(old: bot_characteristic_t, def: bot_characteristic_t, new: bot_characteristic_t) -> bool {
    if !(old is Unset) {
        new == old
    } else {
        match def {
            bot_characteristic_s::String(s) => new matches bot_characteristic_s::String(n) && n@ == cstr_view(s@).push(0u8),
            _ => new == def,
        }
    }
}

/// A string with a terminating zero, copied from the one held in `s`.
pub(crate) fn copy_string(s: &Vec<u8>) -> (r: Vec<u8>)
    ensures
        r@ == cstr_view(s@).push(0u8),
{
    let len = c_strlen(s.as_slice());
    let mut copy: Vec<u8> = Vec::new();
    let mut j: usize = 0;
    while j < len
        invariant
            copy@.len() == j,
            j <= len,
            forall|q: int| 0 <= q < j ==> #[trigger] copy@[q] == 0u8,
        decreases len - j,
    {
        copy.push(0u8);
        j += 1;
    }
    copy.push(0u8);
    copy_cstring(&mut copy, s.as_slice(), len);
    copy
}

/// Gives every characteristic of `ch` that is not set the value of the
/// same characteristic of `defaultch` (`BotDefaultCharacteristics`).
pub fn BotDefaultCharacteristics(ch: &mut bot_character_t, defaultch: &bot_character_t)
    requires
        old(ch).c@.len() == MAX_CHARACTERISTICS,
        defaultch.c@.len() == MAX_CHARACTERISTICS,
    ensures
        final(ch).c@.len() == MAX_CHARACTERISTICS,
        final(ch).filename@ == old(ch).filename@,
        final(ch).skill == old(ch).skill,
        forall|i: int| 0 <= i < MAX_CHARACTERISTICS ==>
            filled_from(old(ch).c@[i], defaultch.c@[i], #[trigger] final(ch).c@[i]),
{
    let mut i: usize = 0;
    while i < MAX_CHARACTERISTICS as usize
        invariant
            ch.c@.len() == MAX_CHARACTERISTICS,
            defaultch.c@.len() == MAX_CHARACTERISTICS,
            ch.filename@ == old(ch).filename@,
            ch.skill == old(ch).skill,
            old(ch).c@.len() == MAX_CHARACTERISTICS,
            i <= MAX_CHARACTERISTICS,
            forall|k: int| 0 <= k < i ==> filled_from(old(ch).c@[k], defaultch.c@[k], #[trigger] ch.c@[k]),
            forall|k: int| i <= k < MAX_CHARACTERISTICS ==> #[trigger] ch.c@[k] == old(ch).c@[k],
        decreases MAX_CHARACTERISTICS - i,
    {
        let unset = match &ch.c[i] {
            bot_characteristic_s::Unset => true,
            _ => false,
        };
        if unset {
            let v = match &defaultch.c[i] {
                bot_characteristic_s::Float(f) => bot_characteristic_s::Float(*f),
                bot_characteristic_s::Integer(n) => bot_characteristic_s::Integer(*n),
                bot_characteristic_s::String(s) => bot_characteristic_s::String(copy_string(s)),
                bot_characteristic_s::Unset => bot_characteristic_s::Unset,
            };
            ch.c.set(i, v);
        }
        i += 1;
    }
}

/// Frees the character under `handle` (`BotFreeCharacter2`).
pub fn BotFreeCharacter2(t: &mut BotCharacters, handle: i32) -> (r: Result<(), CharacterError>)
    requires
        old(t).wf(),
    ensures
        final(t).wf(),
        r is Ok <==> old(t).valid(handle as int),
        r is Err ==> r == Err::<(), CharacterError>(handle_error(*old(t), handle as int))
            && final(t).characters@ == old(t).characters@,
        r is Ok ==> final(t).characters@ == old(t).characters@.update(handle as int, None),
{
    let h = BotCharacterFromHandle(t, handle)?;
    t.characters.set(h, None);
    proof {
        assert forall|g: int| 0 <= g <= MAX_CHARACTER_HANDLES && (#[trigger] t.characters@[g]) is Some implies
            t.characters@[g]->Some_0.c@.len() == MAX_CHARACTERISTICS by {
            assert(t.characters@[g] == old(t).characters@[g]);
        }
    }
    Ok(())
}

/// Frees the character under `handle` when characters are to be reloaded
/// (`BotFreeCharacter`); otherwise the character is kept for later use.
pub fn BotFreeCharacter(t: &mut BotCharacters, handle: i32, reloadcharacters: bool) -> (r: Result<(), CharacterError>)
    requires
        old(t).wf(),
    ensures
        final(t).wf(),
        !reloadcharacters ==> r is Ok && final(t).characters@ == old(t).characters@,
        reloadcharacters ==> (r is Ok <==> old(t).valid(handle as int)),
        reloadcharacters && r is Err ==> r == Err::<(), CharacterError>(handle_error(*old(t), handle as int))
            && final(t).characters@ == old(t).characters@,
        reloadcharacters && r is Ok ==> final(t).characters@ == old(t).characters@.update(handle as int, None),
{
    if !reloadcharacters {
        return Ok(());
    }
    BotFreeCharacter2(t, handle)
}

/// Frees every character (`BotShutdownCharacters`).
pub fn BotShutdownCharacters(t: &mut BotCharacters)
    requires
        old(t).wf(),
    ensures
        final(t).wf(),
        forall|h: int| 0 <= h <= MAX_CHARACTER_HANDLES ==> (#[trigger] final(t).characters@[h] is Some)
            == (h == 0 && old(t).characters@[0] is Some),
{
    let mut handle: usize = 1;
    while handle <= MAX_CHARACTER_HANDLES
        invariant
            t.wf(),
            old(t).wf(),
            1 <= handle <= MAX_CHARACTER_HANDLES + 1,
            t.characters@[0] == old(t).characters@[0],
            forall|h: int| 1 <= h < handle ==> !(#[trigger] t.characters@[h] is Some),
        decreases MAX_CHARACTER_HANDLES + 1 - handle,
    {
        if t.characters[handle].is_some() {
            let _ = BotFreeCharacter2(t, handle as i32);
        }
        handle += 1;
    }
}

} // verus!
