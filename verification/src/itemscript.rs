//! The item configuration as the item script defines it: one item kind per
//! `iteminfo` definition, numbered in order.
use vstd::prelude::*;
use crate::cstr::{nul_index, Q_strncpyz};
use crate::itemgoals::{itemconfig_s, itemconfig_t, iteminfo_s};

verus! {

/// Size of the class name buffer of an item kind.
pub const MAX_CLASSNAME: usize = 32;

/// Number of item kinds taken for a negative limit.
pub const DEFAULT_MAX_ITEMINFO: i32 = 256;

/// One definition of the item script, as the script parser hands it over.
pub enum ItemDefinition {
    /// an `iteminfo` definition: its class name token with the quotes
    /// stripped (none when no string follows), and the structure read
    /// after it (none when it could not be read)
    Item(Option<Vec<u8>>, Option<iteminfo_s>),
    /// any other token
    Unknown,
}

/// Why an item script was refused.
#[derive(Clone, Copy, Debug, PartialEq, Eq, Structural)]
pub enum ItemConfigError {
    /// more item kinds than the limit
    TooManyItems,
    /// an `iteminfo` not followed by its class name
    MissingClassName,
    /// a structure could not be read
    UnreadableStructure,
    /// a token that starts no definition
    UnknownDefinition,
}

/// The number of item kinds allowed: a negative number counts as
/// `DEFAULT_MAX_ITEMINFO`.
pub open spec fn item_limit(v: i32) -> i32 {
    if v < 0 { DEFAULT_MAX_ITEMINFO } else { v }
}

/// What is wrong with definition `d`, read after `count` item kinds, with
/// room for `max` of them.
pub open spec fn item_definition_error(d: ItemDefinition, count: int, max: int) -> Option<ItemConfigError> {
    match d {
        ItemDefinition::Item(cn, info) => if count >= max {
            Some(ItemConfigError::TooManyItems)
        } else if cn is None {
            Some(ItemConfigError::MissingClassName)
        } else if info is None {
            Some(ItemConfigError::UnreadableStructure)
        } else {
            None
        },
        ItemDefinition::Unknown => Some(ItemConfigError::UnknownDefinition),
    }
}

/// The first thing wrong with the definitions, read in order; every
/// definition read without error is an item kind, so the kinds read before
/// a definition are the definitions before it.
pub open spec fn item_script_error(defs: Seq<ItemDefinition>, max: int) -> Option<ItemConfigError>
    decreases defs.len(),
{
    if defs.len() == 0 {
        None
    } else {
        match item_script_error(defs.drop_last(), max) {
            Some(e) => Some(e),
            None => item_definition_error(defs.last(), defs.len() - 1, max),
        }
    }
}

/// The class name buffer made of token `t`: at most its first
/// `MAX_CLASSNAME - 1` bytes, then zero bytes.
pub open spec fn classname_buffer(t: Seq<u8>) -> Seq<u8> {
    let m = if nul_index(t) < MAX_CLASSNAME - 1 { nul_index(t) as int } else { MAX_CLASSNAME - 1 };
    t.take(m) + Seq::new((MAX_CLASSNAME - m) as nat, |i: int| 0u8)
}

/// Item kind `k` is definition `d` as read: its structure with the class
/// name of its token.
pub open spec fn kind_read(k: iteminfo_s, d: ItemDefinition) -> bool {
    match d {
        ItemDefinition::Item(Some(cn), Some(info)) => {
            &&& k.classname@ == classname_buffer(cn@)
            &&& k.name@ == info.name@
            &&& k.mins == info.mins
            &&& k.maxs == info.maxs
            &&& k.modelindex == info.modelindex
            &&& k.respawntime == info.respawntime
        },
        _ => false,
    }
}

/// The first error of a prefix of the definitions is the first error of
/// them all.
proof fn lemma_item_prefix_error(s: Seq<ItemDefinition>, k: int, max: int)
    requires
        0 <= k <= s.len(),
        item_script_error(s.take(k), max) is Some,
    ensures
        item_script_error(s, max) == item_script_error(s.take(k), max),
    decreases s.len(),
{
    if k == s.len() {
        assert(s.take(k) =~= s);
    } else {
        assert(s.drop_last().take(k) =~= s.take(k));
        lemma_item_prefix_error(s.drop_last(), k, max);
    }
}

/// The class name buffer of token `t`.
fn make_classname(t: &Vec<u8>) -> (cn: Vec<u8>)
    ensures
        cn@ == classname_buffer(t@),
{
    let mut cn: Vec<u8> = Vec::new();
    while cn.len() < MAX_CLASSNAME
        invariant
            cn@.len() <= MAX_CLASSNAME,
            forall|i: int| 0 <= i < cn@.len() ==> #[trigger] cn@[i] == 0u8,
        decreases MAX_CLASSNAME - cn@.len(),
    {
        cn.push(0);
    }
    let ghost zeros = cn@;
    Q_strncpyz(&mut cn, t.as_slice(), MAX_CLASSNAME);
    proof {
        let m = if nul_index(t@) < MAX_CLASSNAME - 1 { nul_index(t@) as int } else { MAX_CLASSNAME - 1 };
        assert(zeros.skip(m + 1) =~= Seq::new((MAX_CLASSNAME - m - 1) as nat, |i: int| 0u8));
        assert(cn@ =~= classname_buffer(t@));
    }
    cn
}

/// Builds the item configuration from the definitions of an item script
/// (`LoadItemConfig`), with room for `max_iteminfo` item kinds (a negative
/// number counts as `DEFAULT_MAX_ITEMINFO`).  Every definition must be an
/// `iteminfo` with its class name and a readable structure; item kind `k`
/// is the `k`-th definition, and its number is `k`.  The first thing wrong
/// is the error.
pub fn LoadItemConfig(max_iteminfo: i32, defs: Vec<ItemDefinition>) -> (r: Result<itemconfig_t, ItemConfigError>)
    ensures
        match r {
            Err(e) => item_script_error(defs@, item_limit(max_iteminfo) as int) == Some(e),
            Ok(ic) => {
                &&& item_script_error(defs@, item_limit(max_iteminfo) as int) is None
                &&& ic.iteminfo@.len() == defs@.len()
                &&& forall|k: int| 0 <= k < defs@.len() ==> #[trigger] kind_read(ic.iteminfo@[k], defs@[k])
            },
        },
{
    let max: i32 = if max_iteminfo < 0 { DEFAULT_MAX_ITEMINFO } else { max_iteminfo };
    let ghost all = defs@;
    let mut rest = defs;
    let mut kinds: Vec<iteminfo_s> = Vec::new();
    proof {
        assert(all.take(0) =~= Seq::<ItemDefinition>::empty());
        assert(all.skip(0) =~= all);
    }
    while rest.len() > 0
        invariant
            max == item_limit(max_iteminfo),
            all == defs@,
            kinds@.len() <= all.len(),
            rest@ == all.skip(kinds@.len() as int),
            item_script_error(all.take(kinds@.len() as int), max as int) is None,
            forall|k: int| 0 <= k < kinds@.len() ==> #[trigger] kind_read(kinds@[k], all[k]),
        decreases rest@.len(),
    {
        let ghost i = kinds@.len() as int;
        proof {
            assert(all.take(i + 1).drop_last() =~= all.take(i));
            assert(all.take(i + 1).last() == all[i]);
            assert(rest@[0] == all[i]);
        }
        let d = rest.remove(0);
        proof {
            assert(rest@ =~= all.skip(i + 1));
        }
        match d {
            ItemDefinition::Item(cn, info) => {
                if kinds.len() >= max as usize {
                    proof { lemma_item_prefix_error(all, i + 1, max as int); }
                    return Err(ItemConfigError::TooManyItems);
                }
                let token = match cn {
                    Some(t) => t,
                    None => {
                        proof { lemma_item_prefix_error(all, i + 1, max as int); }
                        return Err(ItemConfigError::MissingClassName);
                    },
                };
                let ii = match info {
                    Some(ii) => ii,
                    None => {
                        proof { lemma_item_prefix_error(all, i + 1, max as int); }
                        return Err(ItemConfigError::UnreadableStructure);
                    },
                };
                let classname = make_classname(&token);
                kinds.push(iteminfo_s {
                    classname: classname,
                    name: ii.name,
                    mins: ii.mins,
                    maxs: ii.maxs,
                    modelindex: ii.modelindex,
                    respawntime: ii.respawntime,
                });
            },
            ItemDefinition::Unknown => {
                proof { lemma_item_prefix_error(all, i + 1, max as int); }
                return Err(ItemConfigError::UnknownDefinition);
            },
        }
    }
    proof {
        assert(all.take(all.len() as int) =~= all);
    }
    Ok(itemconfig_s { iteminfo: kinds })
}

} // verus!
