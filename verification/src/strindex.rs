//! String indexes: the config strings of the game, of which the model names
//! are a part, looked up by index and by name.
use vstd::prelude::*;
use crate::cstr::{c_strcpy, c_strlen, cstr_view, has_nul, lemma_nul_index, nul_index};

verus! {

/// Number of config strings.
pub const MAX_CONFIGSTRINGS: usize = 1024;
/// First config string that names a model.
pub const CS_MODELS: usize = 64;
/// Number of model config strings.
pub const MAX_MODELS: i32 = 512;
/// Most characters that `compare_nocase` looks at.
pub const NOCASE_LIMIT: usize = 99999;

/// The config strings as the AAS world keeps them.
pub struct ConfigStrings {
    /// every config string, or none
    pub configstrings: Vec<Option<Vec<u8>>>,
    /// whether the config strings have been set up
    pub indexessetup: bool,
}

/// Why a string could not be had from an index.
#[derive(Clone, Copy, Debug, PartialEq, Eq, Structural)]
pub enum IndexError {
    /// the string indexes are not set up
    NotSetup,
    /// the index is out of range
    OutOfRange,
    /// no string is stored under the index
    UnusedIndex,
}

/// ASCII lower case letters become upper case.
pub open spec fn upper(c: u8) -> u8 {
    if 97 <= c <= 122 { (c - 32) as u8 } else { c }
}

/// The first `NOCASE_LIMIT` characters of the string held in `s`, in upper
/// case.
pub open spec fn nocase_key(s: Seq<u8>) -> Seq<u8> {
    let v = cstr_view(s);
    v.take(if v.len() < NOCASE_LIMIT { v.len() as int } else { NOCASE_LIMIT as int }).map_values(|c: u8| upper(c))
}

/// Compares two strings ignoring ASCII case (as the engine's `Q_stricmp` does), up to their
/// first `NOCASE_LIMIT` characters: zero when they are the same, else -1 or
/// 1 as the first differing upper case characters (a missing one counting as
/// zero) compare.
pub fn compare_nocase(a: &[u8], b: &[u8]) -> (r: i32)
    ensures
        (r == 0) <==> nocase_key(a@) == nocase_key(b@),
        r == 0 || r == -1 || r == 1,
{
    let la = c_strlen(a);
    let lb = c_strlen(b);
    proof {
        lemma_nul_index(a@);
        lemma_nul_index(b@);
    }
    let ma = if la < NOCASE_LIMIT { la } else { NOCASE_LIMIT };
    let mb = if lb < NOCASE_LIMIT { lb } else { NOCASE_LIMIT };
    let ghost ka = nocase_key(a@);
    let ghost kb = nocase_key(b@);
    let mut i: usize = 0;
    while i < NOCASE_LIMIT
        invariant
            la == nul_index(a@),
            lb == nul_index(b@),
            la <= a.len(),
            lb <= b.len(),
            ma == ka.len(),
            mb == kb.len(),
            ka == nocase_key(a@),
            kb == nocase_key(b@),
            ma == if la < NOCASE_LIMIT { la } else { NOCASE_LIMIT },
            mb == if lb < NOCASE_LIMIT { lb } else { NOCASE_LIMIT },
            i <= ma,
            i <= mb,
            forall|k: int| 0 <= k < i ==> ka[k] == kb[k],
            forall|k: int| 0 <= k < la ==> a@[k] != 0u8,
            forall|k: int| 0 <= k < lb ==> b@[k] != 0u8,
        decreases NOCASE_LIMIT - i,
    {
        let c1: u8 = if i < la { a[i] } else { 0 };
        let c2: u8 = if i < lb { b[i] } else { 0 };
        let u1: u8 = if 97 <= c1 && c1 <= 122 { c1 - 32 } else { c1 };
        let u2: u8 = if 97 <= c2 && c2 <= 122 { c2 - 32 } else { c2 };
        proof {
            if i < ma {
                assert(ka[i as int] == u1);
            }
            if i < mb {
                assert(kb[i as int] == u2);
            }
        }
        if u1 != u2 {
            proof {
                assert(ka != kb) by {
                    if ka == kb {
                        if i < ma {
                            assert(i < mb);
                            assert(ka[i as int] == kb[i as int]);
                        } else {
                            assert(i >= mb);
                            assert(i == la && i == lb);
                        }
                    }
                }
            }
            if u1 < u2 {
                return -1;
            } else {
                return 1;
            }
        }
        if c1 == 0 {
            proof {
                assert(i == la) by {
                    if i < la {
                        assert(a@[i as int] != 0u8);
                    }
                }
                assert(i == lb) by {
                    if i < lb {
                        assert(b@[i as int] != 0u8);
                        assert(u2 == 0);
                    }
                }
                assert(ka =~= kb);
            }
            return 0;
        }
        proof {
            assert(i < la && i < lb);
        }
        i += 1;
    }
    proof {
        assert(ka =~= kb);
    }
    0
}

impl ConfigStrings {
    /// The table has its fixed size.
    pub open spec fn wf(&self) -> bool {
        self.configstrings@.len() == MAX_CONFIGSTRINGS
    }

    /// No config strings, not set up.
    pub fn new() -> (t: Self)
        ensures
            t.wf(),
            !t.indexessetup,
            forall|i: int| 0 <= i < MAX_CONFIGSTRINGS ==> (#[trigger] t.configstrings@[i]) is None,
    {
        let mut v: Vec<Option<Vec<u8>>> = Vec::new();
        while v.len() < MAX_CONFIGSTRINGS
            invariant
                v@.len() <= MAX_CONFIGSTRINGS,
                forall|i: int| 0 <= i < v@.len() ==> (#[trigger] v@[i]) is None,
            decreases MAX_CONFIGSTRINGS - v@.len(),
        {
            v.push(None);
        }
        ConfigStrings { configstrings: v, indexessetup: false }
    }
}

/// The string under `index` of the `numindexes` strings of `t` that start at
/// `first`, or why there is none.  An unused index zero gives the empty
/// string.
pub open spec fn string_from_index(t: ConfigStrings, first: int, numindexes: int, index: int) -> Result<Seq<u8>, IndexError> {
    if !t.indexessetup {
        Err(IndexError::NotSetup)
    } else if !(0 <= index < numindexes) {
        Err(IndexError::OutOfRange)
    } else {
        match t.configstrings@[first + index] {
            Some(s) => Ok(s@),
            None => if index == 0 { Ok(Seq::empty()) } else { Err(IndexError::UnusedIndex) },
        }
    }
}

/// A result with the string taken by its bytes.
pub open spec fn bytes_result(r: Result<Vec<u8>, IndexError>) -> Result<Seq<u8>, IndexError> {
    match r {
        Ok(v) => Ok(v@),
        Err(e) => Err(e),
    }
}

/// The string under `index` of the `numindexes` strings of `t` that start at
/// `first` (`AAS_StringFromIndex`).
pub fn AAS_StringFromIndex(t: &ConfigStrings, first: usize, numindexes: i32, index: i32)
    -> (r: Result<Vec<u8>, IndexError>)
    requires
        t.wf(),
        first + numindexes <= MAX_CONFIGSTRINGS,
    ensures
        bytes_result(r) == string_from_index(*t, first as int, numindexes as int, index as int),
{
    if !t.indexessetup {
        return Err(IndexError::NotSetup);
    }
    if index < 0 || index >= numindexes {
        return Err(IndexError::OutOfRange);
    }
    match &t.configstrings[first + index as usize] {
        Some(s) => Ok(s.clone()),
        None => {
            if index != 0 {
                Err(IndexError::UnusedIndex)
            } else {
                Ok(Vec::new())
            }
        },
    }
}

/// The string under `first + j` equals `key` ignoring case.
pub open spec fn string_matches(t: ConfigStrings, first: int, j: int, key: Seq<u8>) -> bool {
    t.configstrings@[first + j] matches Some(s) && nocase_key(s@) == key
}

/// Index of the first of the strings `from .. numindexes` (after `first`)
/// that matches `key`, or zero when none does.
pub open spec fn first_match(t: ConfigStrings, first: int, numindexes: int, key: Seq<u8>, from: int) -> int
    decreases numindexes - from,
{
    if from >= numindexes || from < 0 {
        0
    } else if string_matches(t, first, from, key) {
        from
    } else {
        first_match(t, first, numindexes, key, from + 1)
    }
}

/// Index of the first of the `numindexes` strings of `t` starting at
/// `first` that equals `string` ignoring case (`AAS_IndexFromString`), or
/// zero when there is none.
pub fn AAS_IndexFromString(t: &ConfigStrings, first: usize, numindexes: i32, string: &[u8])
    -> (r: Result<i32, IndexError>)
    requires
        t.wf(),
        first + numindexes <= MAX_CONFIGSTRINGS,
    ensures
        !t.indexessetup ==> r == Err::<i32, IndexError>(IndexError::NotSetup),
        t.indexessetup ==> r == Ok::<i32, IndexError>(first_match(*t, first as int, numindexes as int, nocase_key(string@), 0) as i32),
{
    if !t.indexessetup {
        return Err(IndexError::NotSetup);
    }
    let ghost key = nocase_key(string@);
    let mut i: i32 = 0;
    while i < numindexes
        invariant
            t.wf(),
            t.indexessetup,
            first + numindexes <= MAX_CONFIGSTRINGS,
            0 <= i,
            key == nocase_key(string@),
            first_match(*t, first as int, numindexes as int, key, 0)
                == first_match(*t, first as int, numindexes as int, key, i as int),
        decreases numindexes - i,
    {
        let ghost fi = first + i as int;
        match &t.configstrings[first + i as usize] {
            Some(s) => {
                if compare_nocase(s.as_slice(), string) == 0 {
                    proof {
                        assert(string_matches(*t, first as int, i as int, key));
                    }
                    return Ok(i);
                }
                proof {
                    assert(!string_matches(*t, first as int, i as int, key));
                }
            },
            None => {
                proof {
                    assert(!string_matches(*t, first as int, i as int, key));
                }
            },
        }
        i += 1;
    }
    Ok(0)
}

/// The name of model `index` (`AAS_ModelFromIndex`).
pub fn AAS_ModelFromIndex(t: &ConfigStrings, index: i32) -> (r: Result<Vec<u8>, IndexError>)
    requires
        t.wf(),
    ensures
        bytes_result(r) == string_from_index(*t, CS_MODELS as int, MAX_MODELS as int, index as int),
{
    AAS_StringFromIndex(t, CS_MODELS, MAX_MODELS, index)
}

/// Index of the model named `modelname` (`AAS_IndexFromModel`), or zero.
pub fn AAS_IndexFromModel(t: &ConfigStrings, modelname: &[u8]) -> (r: Result<i32, IndexError>)
    requires
        t.wf(),
    ensures
        !t.indexessetup ==> r == Err::<i32, IndexError>(IndexError::NotSetup),
        t.indexessetup ==> r == Ok::<i32, IndexError>(first_match(*t, CS_MODELS as int, MAX_MODELS as int, nocase_key(modelname@), 0) as i32),
{
    AAS_IndexFromString(t, CS_MODELS, MAX_MODELS, modelname)
}

/// `dst` holds a copy of the string held in `src` with a terminating zero,
/// if there is a `src`.
pub open spec fn copied_string(src: Option<Vec<u8>>, dst: Option<Vec<u8>>) -> bool {
    match src {
        Some(s) => match dst {
            Some(d) => d@ == cstr_view(s@).push(0u8),
            None => false,
        },
        None => true,
    }
}

/// Copies the first `numconfigstrings` given config strings that exist
/// into `t` (`AAS_UpdateStringIndexes`), each as the string it holds with a
/// terminating zero, and marks the indexes set up.  The other config
/// strings of `t` are kept.
pub fn AAS_UpdateStringIndexes(t: &mut ConfigStrings, numconfigstrings: i32, configstrings: &Vec<Option<Vec<u8>>>)
    requires
        old(t).wf(),
        numconfigstrings <= MAX_CONFIGSTRINGS,
        numconfigstrings <= configstrings@.len(),
    ensures
        final(t).wf(),
        final(t).indexessetup,
        forall|i: int| 0 <= i < MAX_CONFIGSTRINGS && !(i < numconfigstrings && configstrings@[i] is Some) ==>
            #[trigger] final(t).configstrings@[i] == old(t).configstrings@[i],
        forall|i: int| 0 <= i < numconfigstrings ==> copied_string(configstrings@[i], #[trigger] final(t).configstrings@[i]),
{
    let ghost t0 = *t;
    let mut i: i32 = 0;
    while i < numconfigstrings
        invariant
            t.wf(),
            t0.wf(),
            t0 == *old(t),
            numconfigstrings <= MAX_CONFIGSTRINGS,
            numconfigstrings <= configstrings@.len(),
            0 <= i,
            i <= numconfigstrings || numconfigstrings < 0,
            numconfigstrings < 0 ==> i == 0,
            forall|k: int| 0 <= k < MAX_CONFIGSTRINGS && !(k < i && configstrings@[k] is Some) ==>
                #[trigger] t.configstrings@[k] == t0.configstrings@[k],
            forall|k: int| 0 <= k < i ==> copied_string(configstrings@[k], #[trigger] t.configstrings@[k]),
        decreases numconfigstrings - i,
    {
        match &configstrings[i as usize] {
            Some(s) => {
                let len = c_strlen(s.as_slice());
                let mut copy: Vec<u8> = Vec::new();
                let mut j: usize = 0;
                while j < len
                    invariant
                        copy@.len() == j,
                        j <= len,
                        forall|q: int| 0 <= q < j ==> #[trigger] copy@[q] == 0u8,
                    decreases len - j,
                {
                    copy.push(0u8);
                    j += 1;
                }
                copy.push(0u8);
                let ghost sv = s@;
                proof {
                    lemma_nul_index(sv);
                    if !has_nul(sv) {
                        assert(nul_index(sv) == sv.len());
                    }
                }
                copy_cstring(&mut copy, s.as_slice(), len);
                t.configstrings.set(i as usize, Some(copy));
            },
            None => {},
        }
        i += 1;
    }
    proof {
        assert(numconfigstrings < 0 || i == numconfigstrings);
        assert forall|k: int| 0 <= k < MAX_CONFIGSTRINGS && !(k < numconfigstrings && configstrings@[k] is Some) implies
            #[trigger] t.configstrings@[k] == t0.configstrings@[k] by {
            if numconfigstrings >= 0 {
                assert(i == numconfigstrings);
            } else {
                assert(i == 0);
            }
            assert(!(k < i && configstrings@[k] is Some));
        }
    }
    t.indexessetup = true;
}

/// Puts the `len` bytes of the string held in `src` and a zero into the
/// zeroed buffer `dest` of `len + 1` bytes.
pub(crate) fn copy_cstring(dest: &mut Vec<u8>, src: &[u8], len: usize)
    requires
        len == nul_index(src@),
        old(dest)@.len() == len + 1,
        forall|q: int| 0 <= q <= len ==> #[trigger] old(dest)@[q] == 0u8,
    ensures
        final(dest)@ == cstr_view(src@).push(0u8),
{
    proof {
        lemma_nul_index(src@);
    }
    if len < src.len() {
        c_strcpy(dest, src);
        proof {
            assert(dest@ =~= cstr_view(src@).push(0u8));
        }
    } else {
        let mut j: usize = 0;
        while j < len
            invariant
                len == nul_index(src@),
                len <= src@.len(),
                dest@.len() == len + 1,
                j <= len,
                forall|q: int| 0 <= q < j ==> #[trigger] dest@[q] == src@[q],
                dest@[len as int] == 0u8,
            decreases len - j,
        {
            dest.set(j, src[j]);
            j += 1;
        }
        proof {
            assert(dest@ =~= cstr_view(src@).push(0u8));
        }
    }
}

} // verus!
