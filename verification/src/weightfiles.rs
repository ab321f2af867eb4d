//! The lookup in the list of weight configuration files already read:
//! the configuration read from a file is kept in the first free slot and
//! handed out again for the same file name.
use vstd::prelude::*;
use crate::cstr::{c_str_compare, cstr_view};

verus! {

/// The number of weight configuration files kept.
pub const MAX_WEIGHT_FILES: usize = 128;

/// Where a weight configuration file stands in the list of those read.
#[derive(Clone, Copy, Debug, PartialEq, Eq, Structural)]
pub enum WeightFileSlot {
    /// it was read, and is kept in this slot
    Cached(usize),
    /// it was not read; this is the first free slot
    Free(usize),
    /// it was not read and no slot is free
    Full,
}

/// Slot `k` of `names` holds a configuration read from file `filename`.
pub open spec fn slot_holds(names: Seq<Option<Vec<u8>>>, k: int, filename: Seq<u8>) -> bool {
    names[k] matches Some(n) && cstr_view(n@) == cstr_view(filename)
}

/// Looks up file `filename` among the file names `names` of the slots
/// (`ReadWeightConfig`, when characters are not reloaded): the first slot
/// read from that file, else the first free slot, else none.
pub fn WeightFileLookup(names: &Vec<Option<Vec<u8>>>, filename: &Vec<u8>) -> (r: WeightFileSlot)
    ensures
        (r is Cached) <==> exists|k: int| 0 <= k < names@.len() && #[trigger] slot_holds(names@, k, filename@),
        r matches WeightFileSlot::Cached(k) ==> k < names@.len() && slot_holds(names@, k as int, filename@)
            && forall|j: int| 0 <= j < k ==> !#[trigger] slot_holds(names@, j, filename@),
        r matches WeightFileSlot::Free(k) ==> k < names@.len() && names@[k as int] is None
            && forall|j: int| 0 <= j < k ==> (#[trigger] names@[j]) is Some,
        r is Full ==> forall|j: int| 0 <= j < names@.len() ==> (#[trigger] names@[j]) is Some,
{
    let mut avail: Option<usize> = None;
    let mut n: usize = 0;
    while n < names.len()
        invariant
            n <= names@.len(),
            forall|j: int| 0 <= j < n ==> !#[trigger] slot_holds(names@, j, filename@),
            avail is None ==> forall|j: int| 0 <= j < n ==> (#[trigger] names@[j]) is Some,
            avail matches Some(k) ==> k < n && names@[k as int] is None
                && forall|j: int| 0 <= j < k ==> (#[trigger] names@[j]) is Some,
        decreases names@.len() - n,
    {
        match &names[n] {
            None => {
                if avail.is_none() {
                    avail = Some(n);
                }
            },
            Some(name) => {
                if c_str_compare(filename.as_slice(), name.as_slice()) == 0 {
                    proof {
                        assert(slot_holds(names@, n as int, filename@));
                    }
                    return WeightFileSlot::Cached(n);
                }
            },
        }
        n += 1;
    }
    match avail {
        Some(k) => WeightFileSlot::Free(k),
        None => WeightFileSlot::Full,
    }
}

/// A configuration read from file `filename` and kept in the free slot `k`
/// that the lookup gave is found there by the next lookup of that file:
/// slot `k` holds it and no slot before does, so a second read hands out
/// the first one.
pub proof fn lemma_kept_file_found(names: Seq<Option<Vec<u8>>>, filename: Seq<u8>, k: int, kept: Vec<u8>)
    requires
        0 <= k < names.len(),
        names[k] is None,
        forall|j: int| 0 <= j < k ==> (#[trigger] names[j]) is Some,
        forall|j: int| 0 <= j < names.len() ==> !#[trigger] slot_holds(names, j, filename),
        cstr_view(kept@) == cstr_view(filename),
    ensures
        slot_holds(names.update(k, Some(kept)), k, filename),
        forall|j: int| 0 <= j < k ==> !#[trigger] slot_holds(names.update(k, Some(kept)), j, filename),
{
    let n2 = names.update(k, Some(kept));
    assert forall|j: int| 0 <= j < k implies !#[trigger] slot_holds(n2, j, filename) by {
        assert(n2[j] == names[j]);
        assert(!slot_holds(names, j, filename));
    }
}

} // verus!
