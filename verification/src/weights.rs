//! Looking up the fuzzy weights of a weight configuration by name, and the
//! index from items and weapons to their weights.
//!
//! A weight configuration names its weights; the fuzzy separators under
//! each weight, whose values are floats, are not kept here.
use vstd::prelude::*;
use crate::cstr::{c_str_compare, cstr_view};
use crate::itemgoals::itemconfig_t;
use crate::weaponconfig::weaponconfig_t;

verus! {

/// A separator of a fuzzy weight: for inventory entry `index` below
/// `value`, the weight (or the switch at `child`) holds; `next` is the
/// following case of the same switch.  The weights are floats, carried as
/// their bit patterns; `child` and `next` are positions in the separators
/// of the configuration.
#[derive(Clone, Copy, Debug, PartialEq, Eq, Structural)]
pub struct fuzzyseperator_s {
    pub index: i32,
    pub value: i32,
    pub type_: i32,
    pub weight: u32,
    pub minweight: u32,
    pub maxweight: u32,
    pub child: Option<usize>,
    pub next: Option<usize>,
}

pub type fuzzyseperator_t = fuzzyseperator_s;

/// One weight of a configuration.
pub struct weight_s {
    /// name of the weight, zero terminated
    pub name: Vec<u8>,
    /// its first separator
    pub firstseperator: Option<usize>,
}

pub type weight_t = weight_s;

/// A weight configuration: its weights and the separators they use.
pub struct weightconfig_s {
    pub weights: Vec<weight_t>,
    pub seperators: Vec<fuzzyseperator_t>,
}

pub type weightconfig_t = weightconfig_s;

/// The first weight from `from` on named `name`, or -1.
pub open spec fn weight_named(wc: Seq<weight_t>, name: Seq<u8>, from: int) -> int
    decreases wc.len() - from,
{
    if from < 0 || from >= wc.len() {
        -1
    } else if cstr_view(wc[from].name@) == cstr_view(name) {
        from
    } else {
        weight_named(wc, name, from + 1)
    }
}

/// The number of the first weight named `name` (`FindFuzzyWeight`), or -1
/// when there is none.
pub fn FindFuzzyWeight(wc: &weightconfig_t, name: &[u8]) -> (r: i32)
    requires
        wc.weights@.len() <= i32::MAX,
    ensures
        r == weight_named(wc.weights@, name@, 0),
{
    let mut i: usize = 0;
    while i < wc.weights.len()
        invariant
            0 <= i <= wc.weights@.len(),
            wc.weights@.len() <= i32::MAX,
            weight_named(wc.weights@, name@, 0) == weight_named(wc.weights@, name@, i as int),
        decreases wc.weights@.len() - i,
    {
        if c_str_compare(wc.weights[i].name.as_slice(), name) == 0 {
            return i as i32;
        }
        i = i + 1;
    }
    -1
}

/// For every item kind of the configuration, the number of the weight
/// named by its class name, or -1 when there is none (`ItemWeightIndex`).
pub fn ItemWeightIndex(iwc: &weightconfig_t, ic: &itemconfig_t) -> (index: Vec<i32>)
    requires
        iwc.weights@.len() <= i32::MAX,
    ensures
        index@.len() == ic.iteminfo@.len(),
        forall|i: int| 0 <= i < index@.len() ==>
            #[trigger] index@[i] == weight_named(iwc.weights@, ic.iteminfo@[i].classname@, 0),
{
    let mut index: Vec<i32> = Vec::new();
    let mut i: usize = 0;
    while i < ic.iteminfo.len()
        invariant
            0 <= i <= ic.iteminfo@.len(),
            iwc.weights@.len() <= i32::MAX,
            index@.len() == i,
            forall|k: int| 0 <= k < i ==>
                #[trigger] index@[k] == weight_named(iwc.weights@, ic.iteminfo@[k].classname@, 0),
        decreases ic.iteminfo@.len() - i,
    {
        let w = FindFuzzyWeight(iwc, ic.iteminfo[i].classname.as_slice());
        index.push(w);
        i = i + 1;
    }
    index
}

/// For every weapon slot of the weapon configuration, the number of the
/// weight named by the weapon's name, or -1 when there is none
/// (`WeaponWeightIndex`).
pub fn WeaponWeightIndex(wwc: &weightconfig_t, wc: &weaponconfig_t) -> (index: Vec<i32>)
    requires
        wwc.weights@.len() <= i32::MAX,
    ensures
        index@.len() == wc.weaponinfo@.len(),
        forall|i: int| 0 <= i < index@.len() ==>
            #[trigger] index@[i] == weight_named(wwc.weights@, wc.weaponinfo@[i].name@, 0),
{
    let mut index: Vec<i32> = Vec::new();
    let mut i: usize = 0;
    while i < wc.weaponinfo.len()
        invariant
            0 <= i <= wc.weaponinfo@.len(),
            wwc.weights@.len() <= i32::MAX,
            index@.len() == i,
            forall|k: int| 0 <= k < i ==>
                #[trigger] index@[k] == weight_named(wwc.weights@, wc.weaponinfo@[k].name@, 0),
        decreases wc.weaponinfo@.len() - i,
    {
        let w = FindFuzzyWeight(wwc, wc.weaponinfo[i].name.as_slice());
        index.push(w);
        i = i + 1;
    }
    index
}

} // verus!
