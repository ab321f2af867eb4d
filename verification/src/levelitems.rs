//! The level items: a heap of item records, a free list through it, and
//! the list of the items of the level.
//!
//! An item is named by its index in the heap; `NO_ITEM` stands for none.
//! Every item is free, in the level list, or handed out.
use vstd::prelude::*;
use crate::aasfile::Vec3Bits;

verus! {

/// No item.
pub const NO_ITEM: i32 = -1;

/// A level item.  The float fields are carried as their bit patterns.
#[derive(Clone, Copy, Debug, PartialEq, Eq, Structural)]
pub struct levelitem_s {
    /// number of the level item
    pub number: i32,
    /// index into the item info
    pub iteminfo: i32,
    /// item flags
    pub flags: i32,
    /// fixed roam weight
    pub weight: u32,
    /// origin of the item
    pub origin: Vec3Bits,
    /// area the item is in
    pub goalareanum: i32,
    /// goal origin within the area
    pub goalorigin: Vec3Bits,
    /// entity number
    pub entitynum: i32,
    /// item is removed after this time
    pub timeout: u32,
    pub prev: i32,
    pub next: i32,
}

pub type levelitem_t = levelitem_s;

/// The heap of level items and its two lists.  The ghost fields record the
/// free list, the level list, and for every item its owner (`-1` the free
/// list, `0` the level list, `-2` handed out) and place in the owner's list.
pub struct LevelItems {
    pub levelitemheap: Vec<levelitem_t>,
    pub freelevelitems: i32,
    pub levelitems: i32,
    pub numlevelitems: i32,
    pub free: Ghost<Seq<int>>,
    pub list: Ghost<Seq<int>>,
    pub owner: Ghost<Seq<int>>,
    pub index: Ghost<Seq<int>>,
}

/// The element after position `i` of `s`, or none.
pub open spec fn after(s: Seq<int>, i: int) -> int {
    if i + 1 < s.len() { s[i + 1] } else { -1 }
}

/// The element before position `i` of `s`, or none.
pub open spec fn before(s: Seq<int>, i: int) -> int {
    if i > 0 { s[i - 1] } else { -1 }
}

/// The first element of `s`, or none.
pub open spec fn first_of(s: Seq<int>) -> int {
    if s.len() > 0 { s[0] } else { -1 }
}

/// Following `next` from `head` gives the items `s`.
pub open spec fn next_list(heap: Seq<levelitem_t>, head: i32, s: Seq<int>) -> bool {
    &&& head as int == first_of(s)
    &&& forall|i: int| 0 <= i < s.len() ==> {
        &&& 0 <= #[trigger] s[i] < heap.len()
        &&& heap[s[i]].next as int == after(s, i)
    }
}

/// Following `next` from `head` gives the items `s`, and `prev` leads back.
pub open spec fn linked_list(heap: Seq<levelitem_t>, head: i32, s: Seq<int>) -> bool {
    &&& next_list(heap, head, s)
    &&& forall|i: int| 0 <= i < s.len() ==> heap[#[trigger] s[i]].prev as int == before(s, i)
}

/// The zero item, as cleared memory holds it.
pub open spec fn cleared_item() -> levelitem_t {
    levelitem_s {
        number: 0,
        iteminfo: 0,
        flags: 0,
        weight: 0,
        origin: Vec3Bits { x: 0, y: 0, z: 0 },
        goalareanum: 0,
        goalorigin: Vec3Bits { x: 0, y: 0, z: 0 },
        entitynum: 0,
        timeout: 0,
        prev: -1i32,
        next: -1i32,
    }
}

impl LevelItems {
    /// Item `x` is where its owner and place say.
    pub open spec fn placed(&self, x: int) -> bool {
        let own = self.owner@[x];
        let i = self.index@[x];
        ||| own == -2
        ||| (own == -1 && 0 <= i < self.free@.len() && self.free@[i] == x)
        ||| (own == 0 && 0 <= i < self.list@.len() && self.list@[i] == x)
    }

    /// The lists are consistent: every item is on one list or handed out.
    pub open spec fn wf(&self) -> bool {
        let heap = self.levelitemheap@;
        &&& heap.len() <= 0x7fff_ffff
        &&& self.owner@.len() == heap.len()
        &&& self.index@.len() == heap.len()
        &&& next_list(heap, self.freelevelitems, self.free@)
        &&& linked_list(heap, self.levelitems, self.list@)
        &&& forall|i: int| 0 <= i < self.free@.len() ==> self.owner@[#[trigger] self.free@[i]] == -1 && self.index@[self.free@[i]] == i
        &&& forall|i: int| 0 <= i < self.list@.len() ==> self.owner@[#[trigger] self.list@[i]] == 0 && self.index@[self.list@[i]] == i
        &&& forall|x: int| 0 <= x < heap.len() ==> #[trigger] self.placed(x)
    }

    /// All items are free, in index order, and the level list is empty.
    pub open spec fn free_all(&self) -> bool {
        let n = self.levelitemheap@.len();
        &&& 1 <= n <= 0x7fff_ffff
        &&& self.free@ == Seq::new(n, |i: int| i)
        &&& self.list@ == Seq::<int>::empty()
        &&& self.owner@ == Seq::new(n, |i: int| -1int)
        &&& self.index@ == Seq::new(n, |i: int| i)
        &&& next_list(self.levelitemheap@, self.freelevelitems, self.free@)
    }

    /// The items of the level, in list order.
    pub open spec fn level_items(&self) -> Seq<levelitem_t> {
        self.list@.map_values(|x: int| self.levelitemheap@[x])
    }

    /// No heap, no items.
    pub fn new() -> (h: Self)
        ensures
            h.wf(),
            h.levelitemheap@.len() == 0,
            h.list@.len() == 0,
            h.numlevelitems == 0,
    {
        LevelItems {
            levelitemheap: Vec::new(),
            freelevelitems: NO_ITEM,
            levelitems: NO_ITEM,
            numlevelitems: 0,
            free: Ghost(Seq::empty()),
            list: Ghost(Seq::empty()),
            owner: Ghost(Seq::empty()),
            index: Ghost(Seq::empty()),
        }
    }
}

/// Sets up a heap of `max_levelitems` cleared items, all on the free list
/// in index order (`InitLevelItemHeap`).  The head of the level list is
/// left as it was: the caller empties the level list.
pub fn InitLevelItemHeap(h: &mut LevelItems, max_levelitems: i32)
    requires
        max_levelitems >= 1,
    ensures
        final(h).free_all(),
        final(h).levelitemheap@.len() == max_levelitems,
        final(h).levelitems == old(h).levelitems,
        final(h).numlevelitems == old(h).numlevelitems,
        final(h).freelevelitems == 0,
        forall|i: int| 0 <= i < max_levelitems ==> {
            let it = #[trigger] final(h).levelitemheap@[i];
            &&& it.number == 0 && it.iteminfo == 0 && it.flags == 0 && it.entitynum == 0
            &&& it.prev == -1
        },
{
    let zero = Vec3Bits { x: 0, y: 0, z: 0 };
    let mut heap: Vec<levelitem_t> = Vec::new();
    let mut i: i32 = 0;
    while i < max_levelitems
        invariant
            0 <= i <= max_levelitems,
            heap@.len() == i,
            forall|j: int| 0 <= j < i ==> {
                let it = #[trigger] heap@[j];
                &&& it.next == if j + 1 < max_levelitems { j + 1 } else { -1 }
                &&& it.number == 0 && it.iteminfo == 0 && it.flags == 0 && it.entitynum == 0
                &&& it.prev == -1
            },
        decreases max_levelitems - i,
    {
        let next = if i + 1 < max_levelitems { i + 1 } else { NO_ITEM };
        heap.push(levelitem_s {
            number: 0,
            iteminfo: 0,
            flags: 0,
            weight: 0,
            origin: zero,
            goalareanum: 0,
            goalorigin: zero,
            entitynum: 0,
            timeout: 0,
            prev: NO_ITEM,
            next: next,
        });
        i += 1;
    }
    h.levelitemheap = heap;
    h.freelevelitems = 0;
    proof {
        h.free@ = Seq::new(max_levelitems as nat, |i: int| i);
        h.list@ = Seq::empty();
        h.owner@ = Seq::new(max_levelitems as nat, |i: int| -1int);
        h.index@ = Seq::new(max_levelitems as nat, |i: int| i);
    }
}

/// The list fields of the items of `h2` are those of `h1`, except for the
/// items `changed`.
pub open spec fn links_same_except(h1: Seq<levelitem_t>, h2: Seq<levelitem_t>, changed: Set<int>) -> bool {
    &&& h2.len() == h1.len()
    &&& forall|y: int| 0 <= y < h1.len() && !changed.contains(y) ==> {
        &&& (#[trigger] h2[y]).next == h1[y].next
        &&& h2[y].prev == h1[y].prev
    }
}

proof fn lemma_list_frame(h1: Seq<levelitem_t>, h2: Seq<levelitem_t>, changed: Set<int>, head: i32, s: Seq<int>, doubly: bool)
    requires
        next_list(h1, head, s),
        doubly ==> linked_list(h1, head, s),
        links_same_except(h1, h2, changed),
        forall|i: int| 0 <= i < s.len() ==> !changed.contains(#[trigger] s[i]),
    ensures
        next_list(h2, head, s),
        doubly ==> linked_list(h2, head, s),
{
    assert forall|i: int| 0 <= i < s.len() implies {
        &&& 0 <= #[trigger] s[i] < h2.len()
        &&& h2[s[i]].next as int == after(s, i)
    } by {
        assert(h2[s[i]].next == h1[s[i]].next);
    }
    if doubly {
        assert forall|i: int| 0 <= i < s.len() implies h2[#[trigger] s[i]].prev as int == before(s, i) by {
            assert(h2[s[i]].prev == h1[s[i]].prev);
        }
    }
}

/// Takes the first item off the free list and clears it (`AllocLevelItem`);
/// gives `NO_ITEM` when no item is free.
pub fn AllocLevelItem(h: &mut LevelItems) -> (li: i32)
    requires
        old(h).wf(),
    ensures
        final(h).wf(),
        old(h).free@.len() == 0 ==> li == NO_ITEM && *final(h) == *old(h),
        old(h).free@.len() > 0 ==> {
            &&& li == old(h).free@[0]
            &&& final(h).free@ == old(h).free@.drop_first()
            &&& final(h).list@ == old(h).list@
            &&& final(h).levelitems == old(h).levelitems
            &&& final(h).owner@ == old(h).owner@.update(li as int, -2)
            &&& final(h).levelitemheap@ == old(h).levelitemheap@.update(li as int, cleared_item())
        },
        final(h).numlevelitems == old(h).numlevelitems,
{
    let li = h.freelevelitems;
    if li == NO_ITEM {
        return NO_ITEM;
    }
    let ghost h0 = *h;
    let ghost free = h.free@;
    h.freelevelitems = h.levelitemheap[li as usize].next;
    let zero = Vec3Bits { x: 0, y: 0, z: 0 };
    h.levelitemheap.set(li as usize, levelitem_s {
        number: 0,
        iteminfo: 0,
        flags: 0,
        weight: 0,
        origin: zero,
        goalareanum: 0,
        goalorigin: zero,
        entitynum: 0,
        timeout: 0,
        prev: NO_ITEM,
        next: NO_ITEM,
    });
    proof {
        let nf = free.drop_first();
        h.free@ = nf;
        h.owner@ = h0.owner@.update(li as int, -2);
        h.index@ = Seq::new(h0.index@.len(), |y: int| if h0.owner@[y] == -1 { h0.index@[y] - 1 } else { h0.index@[y] });
        let changed = Set::empty().insert(li as int);
        assert(links_same_except(h0.levelitemheap@, h.levelitemheap@, changed));
        assert forall|i: int| 0 <= i < h0.list@.len() implies !changed.contains(#[trigger] h0.list@[i]) by {
            assert(h0.owner@[h0.list@[i]] == 0);
        }
        lemma_list_frame(h0.levelitemheap@, h.levelitemheap@, changed, h0.levelitems, h0.list@, true);
        assert forall|i: int| 0 <= i < nf.len() implies {
            &&& 0 <= #[trigger] nf[i] < h.levelitemheap@.len()
            &&& h.levelitemheap@[nf[i]].next as int == after(nf, i)
        } by {
            assert(nf[i] == free[i + 1]);
            assert(h0.index@[free[i + 1]] == i + 1);
            assert(h0.index@[free[0]] == 0);
        }
        assert forall|i: int| 0 <= i < nf.len() implies h.owner@[#[trigger] nf[i]] == -1 && h.index@[nf[i]] == i by {
            assert(h0.index@[free[i + 1]] == i + 1);
            assert(h0.index@[free[0]] == 0);
        }
        assert forall|i: int| 0 <= i < h.list@.len() implies h.owner@[#[trigger] h.list@[i]] == 0 && h.index@[h.list@[i]] == i by {
            assert(h0.owner@[h0.list@[i]] == 0);
        }
        assert forall|y: int| 0 <= y < h.levelitemheap@.len() implies #[trigger] h.placed(y) by {
            assert(h0.placed(y));
            if h0.owner@[y] == -1 && y != li {
                let i = h0.index@[y];
                assert(i != 0);
                assert(nf[i - 1] == y);
            }
        }
    }
    li
}

/// Puts the handed out item `li` at the head of the free list
/// (`FreeLevelItem`).
pub fn FreeLevelItem(h: &mut LevelItems, li: i32)
    requires
        old(h).wf(),
        0 <= li < old(h).levelitemheap@.len(),
        old(h).owner@[li as int] == -2,
    ensures
        final(h).wf(),
        final(h).free@ == seq![li as int] + old(h).free@,
        final(h).list@ == old(h).list@,
        final(h).levelitems == old(h).levelitems,
        final(h).owner@ == old(h).owner@.update(li as int, -1),
        final(h).levelitemheap@ == old(h).levelitemheap@.update(li as int,
            levelitem_s { next: old(h).freelevelitems, ..old(h).levelitemheap@[li as int] }),
        final(h).numlevelitems == old(h).numlevelitems,
{
    let ghost h0 = *h;
    let ghost free = h.free@;
    let mut item = h.levelitemheap[li as usize];
    item.next = h.freelevelitems;
    h.levelitemheap.set(li as usize, item);
    h.freelevelitems = li;
    proof {
        let nf = seq![li as int] + free;
        h.free@ = nf;
        h.owner@ = h0.owner@.update(li as int, -1);
        h.index@ = Seq::new(h0.index@.len(), |y: int| if y == li { 0 } else if h0.owner@[y] == -1 { h0.index@[y] + 1 } else { h0.index@[y] });
        let changed = Set::empty().insert(li as int);
        assert(links_same_except(h0.levelitemheap@, h.levelitemheap@, changed));
        assert forall|i: int| 0 <= i < h0.list@.len() implies !changed.contains(#[trigger] h0.list@[i]) by {
            assert(h0.owner@[h0.list@[i]] == 0);
        }
        lemma_list_frame(h0.levelitemheap@, h.levelitemheap@, changed, h0.levelitems, h0.list@, true);
        assert forall|i: int| 0 <= i < nf.len() implies {
            &&& 0 <= #[trigger] nf[i] < h.levelitemheap@.len()
            &&& h.levelitemheap@[nf[i]].next as int == after(nf, i)
        } by {
            if i > 0 {
                assert(nf[i] == free[i - 1]);
                assert(h0.owner@[free[i - 1]] == -1);
            }
        }
        assert forall|i: int| 0 <= i < nf.len() implies h.owner@[#[trigger] nf[i]] == -1 && h.index@[nf[i]] == i by {
            if i > 0 {
                assert(nf[i] == free[i - 1]);
                assert(h0.owner@[free[i - 1]] == -1);
            }
        }
        assert forall|i: int| 0 <= i < h.list@.len() implies h.owner@[#[trigger] h.list@[i]] == 0 && h.index@[h.list@[i]] == i by {
            assert(h0.owner@[h0.list@[i]] == 0);
        }
        assert forall|y: int| 0 <= y < h.levelitemheap@.len() implies #[trigger] h.placed(y) by {
            assert(h0.placed(y));
            if h0.owner@[y] == -1 && y != li {
                let i = h0.index@[y];
                assert(nf[i + 1] == y);
            }
        }
    }
}

/// Puts the handed out item `li` at the head of the level list
/// (`AddLevelItemToList`).
pub fn AddLevelItemToList(h: &mut LevelItems, li: i32)
    requires
        old(h).wf(),
        0 <= li < old(h).levelitemheap@.len(),
        old(h).owner@[li as int] == -2,
    ensures
        final(h).wf(),
        final(h).list@ == seq![li as int] + old(h).list@,
        final(h).free@ == old(h).free@,
        final(h).freelevelitems == old(h).freelevelitems,
        final(h).owner@ == old(h).owner@.update(li as int, 0),
        forall|y: int| 0 <= y < old(h).levelitemheap@.len() ==> {
            let a = old(h).levelitemheap@[y];
            let b = #[trigger] final(h).levelitemheap@[y];
            b == levelitem_s { prev: b.prev, next: b.next, ..a }
        },
        final(h).numlevelitems == old(h).numlevelitems,
{
    let ghost h0 = *h;
    let ghost l = h.list@;
    let head = h.levelitems;
    proof {
        if l.len() > 0 {
            assert(h0.owner@[l[0]] == 0);
        }
    }
    if head != NO_ITEM {
        let mut first = h.levelitemheap[head as usize];
        first.prev = li;
        h.levelitemheap.set(head as usize, first);
    }
    let mut item = h.levelitemheap[li as usize];
    item.prev = NO_ITEM;
    item.next = head;
    h.levelitemheap.set(li as usize, item);
    h.levelitems = li;
    proof {
        let nl = seq![li as int] + l;
        h.list@ = nl;
        h.owner@ = h0.owner@.update(li as int, 0);
        h.index@ = Seq::new(h0.index@.len(), |y: int| if y == li { 0 } else if h0.owner@[y] == 0 { h0.index@[y] + 1 } else { h0.index@[y] });
        let changed = Set::empty().insert(li as int).insert(head as int);
        assert(links_same_except(h0.levelitemheap@, h.levelitemheap@, changed));
        assert forall|i: int| 0 <= i < h0.free@.len() implies !changed.contains(#[trigger] h0.free@[i]) by {
            assert(h0.owner@[h0.free@[i]] == -1);
        }
        lemma_list_frame(h0.levelitemheap@, h.levelitemheap@, changed, h0.freelevelitems, h0.free@, false);
        assert forall|i: int| 0 <= i < nl.len() implies {
            &&& 0 <= #[trigger] nl[i] < h.levelitemheap@.len()
            &&& h.levelitemheap@[nl[i]].next as int == after(nl, i)
        } by {
            if i > 0 {
                assert(nl[i] == l[i - 1]);
                assert(h0.owner@[l[i - 1]] == 0);
                assert(h0.index@[l[i - 1]] == i - 1);
            }
        }
        assert forall|i: int| 0 <= i < nl.len() implies h.levelitemheap@[#[trigger] nl[i]].prev as int == before(nl, i) by {
            if i > 0 {
                assert(nl[i] == l[i - 1]);
                assert(h0.owner@[l[i - 1]] == 0);
                assert(h0.index@[l[i - 1]] == i - 1);
                if i > 1 {
                    assert(h0.index@[l[0]] == 0);
                }
            }
        }
        assert forall|i: int| 0 <= i < nl.len() implies h.owner@[#[trigger] nl[i]] == 0 && h.index@[nl[i]] == i by {
            if i > 0 {
                assert(nl[i] == l[i - 1]);
                assert(h0.owner@[l[i - 1]] == 0);
            }
        }
        assert forall|i: int| 0 <= i < h.free@.len() implies h.owner@[#[trigger] h.free@[i]] == -1 && h.index@[h.free@[i]] == i by {
            assert(h0.owner@[h0.free@[i]] == -1);
        }
        assert forall|y: int| 0 <= y < h.levelitemheap@.len() implies #[trigger] h.placed(y) by {
            assert(h0.placed(y));
            if h0.owner@[y] == 0 && y != li {
                let i = h0.index@[y];
                assert(nl[i + 1] == y);
            }
        }
    }
}

/// Takes item `li` out of the level list (`RemoveLevelItemFromList`); it is
/// then handed out.
#[verifier::rlimit(40)]
pub fn RemoveLevelItemFromList(h: &mut LevelItems, li: i32)
    requires
        old(h).wf(),
        0 <= li < old(h).levelitemheap@.len(),
        old(h).owner@[li as int] == 0,
    ensures
        final(h).wf(),
        final(h).list@ == old(h).list@.remove(old(h).index@[li as int]),
        final(h).free@ == old(h).free@,
        final(h).freelevelitems == old(h).freelevelitems,
        final(h).owner@ == old(h).owner@.update(li as int, -2),
        forall|y: int| 0 <= y < old(h).levelitemheap@.len() ==> {
            let a = old(h).levelitemheap@[y];
            let b = #[trigger] final(h).levelitemheap@[y];
            b == levelitem_s { prev: b.prev, next: b.next, ..a }
        },
        final(h).numlevelitems == old(h).numlevelitems,
{
    let ghost h0 = *h;
    let ghost l = h.list@;
    let ghost i = h.index@[li as int];
    proof {
        assert(h0.placed(li as int));
        assert(l[i] == li);
    }
    let item = h.levelitemheap[li as usize];
    let prev = item.prev;
    let next = item.next;
    if prev != NO_ITEM {
        let mut p = h.levelitemheap[prev as usize];
        p.next = next;
        h.levelitemheap.set(prev as usize, p);
    } else {
        h.levelitems = next;
    }
    if next != NO_ITEM {
        let mut n = h.levelitemheap[next as usize];
        n.prev = prev;
        h.levelitemheap.set(next as usize, n);
    }
    proof {
        let nl = l.remove(i);
        h.list@ = nl;
        h.owner@ = h0.owner@.update(li as int, -2);
        h.index@ = Seq::new(h0.index@.len(), |y: int| if h0.owner@[y] == 0 && h0.index@[y] > i { h0.index@[y] - 1 } else { h0.index@[y] });
        let changed = Set::empty().insert(prev as int).insert(next as int);
        assert(links_same_except(h0.levelitemheap@, h.levelitemheap@, changed));
        assert forall|j: int| 0 <= j < h0.free@.len() implies !changed.contains(#[trigger] h0.free@[j]) by {
            assert(h0.owner@[h0.free@[j]] == -1);
            if i > 0 { assert(h0.owner@[l[i - 1]] == 0); }
            if i + 1 < l.len() { assert(h0.owner@[l[i + 1]] == 0); }
        }
        lemma_list_frame(h0.levelitemheap@, h.levelitemheap@, changed, h0.freelevelitems, h0.free@, false);
        assert forall|j: int| 0 <= j < nl.len() implies {
            &&& 0 <= #[trigger] nl[j] < h.levelitemheap@.len()
            &&& h.levelitemheap@[nl[j]].next as int == after(nl, j)
        } by {
            if j < i {
                assert(nl[j] == l[j]);
                assert(h0.index@[l[j]] == j);
                if i > 0 { assert(h0.index@[l[i - 1]] == i - 1); }
                if i + 1 < l.len() { assert(h0.index@[l[i + 1]] == i + 1); }
            } else {
                assert(nl[j] == l[j + 1]);
                assert(h0.index@[l[j + 1]] == j + 1);
                if i > 0 { assert(h0.index@[l[i - 1]] == i - 1); }
                assert(h0.index@[l[i + 1]] == i + 1);
            }
        }
        assert forall|j: int| 0 <= j < nl.len() implies h.levelitemheap@[#[trigger] nl[j]].prev as int == before(nl, j) by {
            if j < i {
                assert(nl[j] == l[j]);
                assert(h0.index@[l[j]] == j);
                if i > 0 { assert(h0.index@[l[i - 1]] == i - 1); }
                if i + 1 < l.len() { assert(h0.index@[l[i + 1]] == i + 1); }
            } else {
                assert(nl[j] == l[j + 1]);
                assert(h0.index@[l[j + 1]] == j + 1);
                if i > 0 { assert(h0.index@[l[i - 1]] == i - 1); }
                assert(h0.index@[l[i + 1]] == i + 1);
            }
        }
        assert forall|j: int| 0 <= j < nl.len() implies h.owner@[#[trigger] nl[j]] == 0 && h.index@[nl[j]] == j by {
            if j < i {
                assert(nl[j] == l[j]);
                assert(h0.index@[l[j]] == j);
            } else {
                assert(nl[j] == l[j + 1]);
                assert(h0.index@[l[j + 1]] == j + 1);
            }
        }
        assert forall|j: int| 0 <= j < h.free@.len() implies h.owner@[#[trigger] h.free@[j]] == -1 && h.index@[h.free@[j]] == j by {
            assert(h0.owner@[h0.free@[j]] == -1);
        }
        assert forall|y: int| 0 <= y < h.levelitemheap@.len() implies #[trigger] h.placed(y) by {
            assert(h0.placed(y));
            if y != li && h0.owner@[y] == 0 {
                let k = h0.index@[y];
                if k > i {
                    assert(nl[k - 1] == y);
                } else {
                    assert(k != i);
                    assert(nl[k] == y);
                }
            }
        }
    }
}

/// Putting a handed out item at the head of the level list and taking it
/// out again gives the level list back.
pub proof fn lemma_add_then_remove(h1: LevelItems, h2: LevelItems, h3: LevelItems, li: int)
    requires
        h2.wf(),
        0 <= li < h2.levelitemheap@.len(),
        h2.owner@[li] == 0,
        h2.list@ == seq![li] + h1.list@,
        h3.list@ == h2.list@.remove(h2.index@[li]),
    ensures
        h3.list@ == h1.list@,
{
    assert(h2.list@[0] == li);
    assert(h2.index@[h2.list@[0]] == 0);
    assert(h3.list@ =~= h1.list@);
}

} // verus!
