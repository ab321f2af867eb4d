//! Links between entities and areas.
//!
//! A heap of links is kept in a vector; a link is named by its index, and
//! `NO_LINK` stands for no link.  Every link is on the free list, in the list
//! of entities of one area, or handed out by the allocator.  The links of one
//! entity are further chained through their area fields.
use vstd::prelude::*;
use crate::aasworld::aas_s;

verus! {

/// No link.
pub const NO_LINK: i32 = -1;

/// A link of an entity into an area.
#[derive(Clone, Copy, Debug, PartialEq, Eq, Structural)]
pub struct aas_link_s {
    /// entity linked
    pub entnum: i32,
    /// area the entity is linked in
    pub areanum: i32,
    /// next entity in the area
    pub next_ent: i32,
    /// previous entity in the area
    pub prev_ent: i32,
    /// next area of the entity
    pub next_area: i32,
    /// previous area of the entity
    pub prev_area: i32,
}

pub type aas_link_t = aas_link_s;

/// The link heap and the entity lists of the areas.  The ghost fields
/// record the lists: the free list, the list of every area, and for every
/// link its owner (`-1` the free list, `-2` handed out, else the area) and
/// its place in the owner's list.
pub struct AasLinks {
    pub linkheap: Vec<aas_link_t>,
    /// first free link
    pub freelinks: i32,
    /// number of free links
    pub numaaslinks: i32,
    /// first link of every area
    pub arealinkedentities: Vec<i32>,
    pub free: Ghost<Seq<int>>,
    pub area_lists: Ghost<Seq<Seq<int>>>,
    pub owner: Ghost<Seq<int>>,
    pub index: Ghost<Seq<int>>,
}

/// The element after position `i` of `s`, or no link.
pub open spec fn next_in(s: Seq<int>, i: int) -> int {
    if i + 1 < s.len() { s[i + 1] } else { -1 }
}

/// The element before position `i` of `s`, or no link.
pub open spec fn prev_in(s: Seq<int>, i: int) -> int {
    if i > 0 { s[i - 1] } else { -1 }
}

/// The first element of `s`, or no link.
pub open spec fn head_of(s: Seq<int>) -> int {
    if s.len() > 0 { s[0] } else { -1 }
}

/// Following `next_ent` from `head` gives the links `s` of `heap`, and
/// `prev_ent` leads back.
pub open spec fn ent_list(heap: Seq<aas_link_t>, head: i32, s: Seq<int>) -> bool {
    &&& head as int == head_of(s)
    &&& forall|i: int| 0 <= i < s.len() ==> {
        &&& 0 <= #[trigger] s[i] < heap.len()
        &&& heap[s[i]].next_ent as int == next_in(s, i)
        &&& heap[s[i]].prev_ent as int == prev_in(s, i)
    }
}

impl AasLinks {
    /// Link `x` is where its owner and place say.
    pub open spec fn placed(&self, x: int) -> bool {
        let own = self.owner@[x];
        let i = self.index@[x];
        ||| own == -2
        ||| (own == -1 && 0 <= i < self.free@.len() && self.free@[i] == x)
        ||| (0 <= own < self.area_lists@.len() && 0 <= i < self.area_lists@[own].len()
            && self.area_lists@[own][i] == x)
    }

    /// The lists are consistent: every link is on exactly one list or handed
    /// out, the links of an area's list are linked in that area, and the
    /// count of free links is right.
    pub open spec fn wf(&self) -> bool {
        let heap = self.linkheap@;
        let free = self.free@;
        let al = self.area_lists@;
        &&& heap.len() <= 0x7fff_ffff
        &&& self.owner@.len() == heap.len()
        &&& self.index@.len() == heap.len()
        &&& al.len() == self.arealinkedentities@.len()
        &&& self.numaaslinks == free.len()
        &&& ent_list(heap, self.freelinks, free)
        &&& forall|a: int| 0 <= a < al.len() ==> ent_list(heap, #[trigger] self.arealinkedentities@[a], al[a])
        &&& forall|i: int| 0 <= i < free.len() ==> self.owner@[#[trigger] free[i]] == -1 && self.index@[free[i]] == i
        &&& forall|a: int, i: int| 0 <= a < al.len() && 0 <= i < al[a].len() ==> {
            &&& self.owner@[#[trigger] al[a][i]] == a
            &&& self.index@[al[a][i]] == i
            &&& heap[al[a][i]].areanum == a
        }
        &&& forall|x: int| 0 <= x < heap.len() ==> #[trigger] self.placed(x)
    }

    /// The entities linked in area `a`, in list order.
    pub open spec fn entities_in(&self, a: int) -> Seq<i32> {
        self.area_lists@[a].map_values(|x: int| self.linkheap@[x].entnum)
    }
}

impl AasLinks {
    /// Every link of the heap is free, on the free list in index order.
    pub open spec fn free_all(&self) -> bool {
        let n = self.linkheap@.len();
        &&& 1 <= n <= 0x7fff_ffff
        &&& self.free@ == Seq::new(n, |i: int| i)
        &&& self.owner@ == Seq::new(n, |i: int| -1int)
        &&& self.index@ == Seq::new(n, |i: int| i)
        &&& self.numaaslinks == n
        &&& ent_list(self.linkheap@, self.freelinks, self.free@)
    }

    /// No link heap and no areas.
    pub fn new() -> (h: Self)
        ensures
            h.wf(),
            h.linkheap@.len() == 0,
            h.arealinkedentities@.len() == 0,
    {
        AasLinks {
            linkheap: Vec::new(),
            freelinks: NO_LINK,
            numaaslinks: 0,
            arealinkedentities: Vec::new(),
            free: Ghost(Seq::empty()),
            area_lists: Ghost(Seq::empty()),
            owner: Ghost(Seq::empty()),
            index: Ghost(Seq::empty()),
        }
    }
}

/// Sets up the link heap (`AAS_InitAASLinkHeap`): a heap that is not there
/// yet gets `max_aaslinks` links (negative counts as zero); then every link
/// is put on the free list, in index order.
pub fn AAS_InitAASLinkHeap(h: &mut AasLinks, max_aaslinks: i32)
    requires
        old(h).linkheap@.len() == 0 ==> max_aaslinks >= 1,
        old(h).linkheap@.len() <= 0x7fff_ffff,
    ensures
        final(h).free_all(),
        final(h).linkheap@.len() == if old(h).linkheap@.len() == 0 { max_aaslinks as int } else {
            old(h).linkheap@.len() as int
        },
        final(h).arealinkedentities@ == old(h).arealinkedentities@,
{
    let size: i32 = if h.linkheap.len() == 0 {
        if max_aaslinks < 0 { 0 } else { max_aaslinks }
    } else {
        h.linkheap.len() as i32
    };
    let mut heap: Vec<aas_link_t> = Vec::new();
    let mut i: i32 = 0;
    while i < size
        invariant
            0 <= i <= size,
            heap@.len() == i,
            forall|j: int| 0 <= j < i ==> {
                &&& (#[trigger] heap@[j]).prev_ent == j - 1
                &&& heap@[j].next_ent == if j + 1 < size { j + 1 } else { -1 }
            },
        decreases size - i,
    {
        let next = if i + 1 < size { i + 1 } else { NO_LINK };
        heap.push(aas_link_s { entnum: 0, areanum: 0, next_ent: next, prev_ent: i - 1, next_area: NO_LINK, prev_area: NO_LINK });
        i += 1;
    }
    h.linkheap = heap;
    //pointer to the first free link
    h.freelinks = 0;
    h.numaaslinks = size;
    proof {
        h.free@ = Seq::new(size as nat, |i: int| i);
        h.owner@ = Seq::new(size as nat, |i: int| -1int);
        h.index@ = Seq::new(size as nat, |i: int| i);
    }
}

/// Throws the link heap away (`AAS_FreeAASLinkHeap`).
pub fn AAS_FreeAASLinkHeap(h: &mut AasLinks)
    ensures
        final(h).linkheap@.len() == 0,
        final(h).arealinkedentities@ == old(h).arealinkedentities@,
        final(h).freelinks == old(h).freelinks,
        final(h).numaaslinks == old(h).numaaslinks,
{
    h.linkheap = Vec::new();
}

/// Sets up the entity lists of the `numareas` areas, all empty
/// (`AAS_InitAASLinkedEntities`), when AAS data is loaded.
pub fn AAS_InitAASLinkedEntities(h: &mut AasLinks, loaded: bool, numareas: usize)
    requires
        loaded ==> old(h).free_all(),
    ensures
        !loaded ==> *final(h) == *old(h),
        loaded ==> {
            &&& final(h).wf()
            &&& final(h).linkheap@ == old(h).linkheap@
            &&& final(h).free@ == old(h).free@
            &&& final(h).arealinkedentities@.len() == numareas
            &&& forall|a: int| 0 <= a < numareas ==> (#[trigger] final(h).area_lists@[a]).len() == 0
        },
{
    if !loaded {
        return;
    }
    let mut heads: Vec<i32> = Vec::new();
    while heads.len() < numareas
        invariant
            heads@.len() <= numareas,
            forall|a: int| 0 <= a < heads@.len() ==> #[trigger] heads@[a] == -1,
        decreases numareas - heads@.len(),
    {
        heads.push(NO_LINK);
    }
    h.arealinkedentities = heads;
    proof {
        h.area_lists@ = Seq::new(numareas as nat, |a: int| Seq::<int>::empty());
        assert forall|x: int| 0 <= x < h.linkheap@.len() implies #[trigger] h.placed(x) by {
            assert(h.free@[x] == x);
        }
    }
}

/// Throws the entity lists of the areas away (`AAS_FreeAASLinkedEntities`).
pub fn AAS_FreeAASLinkedEntities(h: &mut AasLinks)
    ensures
        final(h).arealinkedentities@.len() == 0,
        final(h).linkheap@ == old(h).linkheap@,
{
    h.arealinkedentities = Vec::new();
}

/// The lists and their links are those of `h1` except for the links
/// `changed`: the other links of the heap are as they were.
pub open spec fn heap_same_except(h1: Seq<aas_link_t>, h2: Seq<aas_link_t>, changed: Set<int>) -> bool {
    &&& h2.len() == h1.len()
    &&& forall|y: int| 0 <= y < h1.len() && !changed.contains(y) ==> #[trigger] h2[y] == h1[y]
}

/// A list none of whose links changed is still a list.
proof fn lemma_ent_list_frame(h1: Seq<aas_link_t>, h2: Seq<aas_link_t>, changed: Set<int>, head: i32, s: Seq<int>)
    requires
        ent_list(h1, head, s),
        heap_same_except(h1, h2, changed),
        forall|i: int| 0 <= i < s.len() ==> !changed.contains(#[trigger] s[i]),
    ensures
        ent_list(h2, head, s),
{
    assert forall|i: int| 0 <= i < s.len() implies {
        &&& 0 <= #[trigger] s[i] < h2.len()
        &&& h2[s[i]].next_ent as int == next_in(s, i)
        &&& h2[s[i]].prev_ent as int == prev_in(s, i)
    } by {
        assert(h2[s[i]] == h1[s[i]]);
    }
}

/// The entity list fields of the links of `h2` are those of `h1`, except
/// for the links `changed`.
pub open spec fn ent_fields_same_except(h1: Seq<aas_link_t>, h2: Seq<aas_link_t>, changed: Set<int>) -> bool {
    &&& h2.len() == h1.len()
    &&& forall|y: int| 0 <= y < h1.len() && !changed.contains(y) ==> {
        &&& (#[trigger] h2[y]).next_ent == h1[y].next_ent
        &&& h2[y].prev_ent == h1[y].prev_ent
    }
}

proof fn lemma_ent_list_frame2(h1: Seq<aas_link_t>, h2: Seq<aas_link_t>, changed: Set<int>, head: i32, s: Seq<int>)
    requires
        ent_list(h1, head, s),
        ent_fields_same_except(h1, h2, changed),
        forall|i: int| 0 <= i < s.len() ==> !changed.contains(#[trigger] s[i]),
    ensures
        ent_list(h2, head, s),
{
    assert forall|i: int| 0 <= i < s.len() implies {
        &&& 0 <= #[trigger] s[i] < h2.len()
        &&& h2[s[i]].next_ent as int == next_in(s, i)
        &&& h2[s[i]].prev_ent as int == prev_in(s, i)
    } by {
        assert(h2[s[i]].next_ent == h1[s[i]].next_ent);
    }
}

/// Takes the first link off the free list (`AAS_AllocAASLink`) and hands it
/// out; gives `NO_LINK` when no link is free.
pub fn AAS_AllocAASLink(h: &mut AasLinks) -> (x: i32)
    requires
        old(h).wf(),
    ensures
        final(h).wf(),
        old(h).free@.len() == 0 ==> x == NO_LINK && *final(h) == *old(h),
        old(h).free@.len() > 0 ==> {
            &&& x == old(h).free@[0]
            &&& final(h).free@ == old(h).free@.drop_first()
            &&& final(h).owner@ == old(h).owner@.update(x as int, -2)
            &&& final(h).area_lists@ == old(h).area_lists@
            &&& final(h).arealinkedentities@ == old(h).arealinkedentities@
            &&& final(h).linkheap@[x as int] == old(h).linkheap@[x as int]
            &&& heap_same_except(old(h).linkheap@, final(h).linkheap@, Set::empty().insert(head_of(old(h).free@.drop_first())))
        },
{
    let x = h.freelinks;
    if x == NO_LINK {
        return NO_LINK;
    }
    let ghost h0 = *h;
    let ghost free = h.free@;
    let ghost changed = if free.len() > 1 { Set::empty().insert(free[1]) } else { Set::empty() };
    let next = h.linkheap[x as usize].next_ent;
    h.freelinks = next;
    if next != NO_LINK {
        let mut l = h.linkheap[next as usize];
        l.prev_ent = NO_LINK;
        h.linkheap.set(next as usize, l);
    }
    h.numaaslinks = h.numaaslinks - 1;
    proof {
        let nf = free.drop_first();
        h.free@ = nf;
        h.owner@ = h0.owner@.update(x as int, -2);
        h.index@ = Seq::new(h0.index@.len(), |y: int| if h0.owner@[y] == -1 { h0.index@[y] - 1 } else { h0.index@[y] });
        assert(heap_same_except(h0.linkheap@, h.linkheap@, changed));
        assert(heap_same_except(h0.linkheap@, h.linkheap@, Set::empty().insert(head_of(free.drop_first())))) by {
            if free.len() > 1 {
                assert(head_of(free.drop_first()) == free[1]);
            }
        }
        let al = h0.area_lists@;
        assert forall|a: int| 0 <= a < al.len() implies ent_list(h.linkheap@, #[trigger] h.arealinkedentities@[a], al[a]) by {
            assert(ent_list(h0.linkheap@, h0.arealinkedentities@[a], al[a]));
            assert forall|i: int| 0 <= i < al[a].len() implies !changed.contains(#[trigger] al[a][i]) by {
                if free.len() > 1 {
                    assert(h0.owner@[free[1]] == -1);
                    assert(h0.owner@[al[a][i]] == a);
                }
            }
            lemma_ent_list_frame(h0.linkheap@, h.linkheap@, changed, h0.arealinkedentities@[a], al[a]);
        }
        assert forall|i: int| 0 <= i < nf.len() implies {
            &&& 0 <= #[trigger] nf[i] < h.linkheap@.len()
            &&& h.linkheap@[nf[i]].next_ent as int == next_in(nf, i)
            &&& h.linkheap@[nf[i]].prev_ent as int == prev_in(nf, i)
        } by {
            assert(nf[i] == free[i + 1]);
            if i > 0 {
                assert(h0.index@[free[i + 1]] == i + 1);
                assert(h0.index@[free[1]] == 1);
                assert(free[i + 1] != free[1]);
                assert(h.linkheap@[nf[i]] == h0.linkheap@[nf[i]]);
            }
        }
        assert forall|i: int| 0 <= i < nf.len() implies h.owner@[#[trigger] nf[i]] == -1 && h.index@[nf[i]] == i by {
            assert(h0.index@[free[i + 1]] == i + 1);
            assert(h0.index@[free[0]] == 0);
        }
        assert forall|a: int, i: int| 0 <= a < al.len() && 0 <= i < al[a].len() implies {
            &&& h.owner@[#[trigger] al[a][i]] == a
            &&& h.index@[al[a][i]] == i
            &&& h.linkheap@[al[a][i]].areanum == a
        } by {
            assert(ent_list(h0.linkheap@, h0.arealinkedentities@[a], al[a]));
            assert(h0.owner@[al[a][i]] == a);
            assert(h0.owner@[x as int] == -1);
            if free.len() > 1 {
                assert(h0.owner@[free[1]] == -1);
                assert(!changed.contains(al[a][i]));
            }
            assert(h.linkheap@[al[a][i]] == h0.linkheap@[al[a][i]]);
        }
        assert forall|y: int| 0 <= y < h.linkheap@.len() implies #[trigger] h.placed(y) by {
            assert(h0.placed(y));
            if h0.owner@[y] == -1 && y != x {
                let i = h0.index@[y];
                assert(free[i] == y);
                assert(i != 0);
                assert(nf[i - 1] == y);
            }
        }
    }
    x
}

/// `h2` is `h1` after the handed out link `x` went back at the head of
/// the free list with its links cleared; no other list changed.
pub open spec fn deallocated(h1: AasLinks, h2: AasLinks, x: int) -> bool {
    &&& h2.free@ == seq![x] + h1.free@
    &&& h2.owner@ == h1.owner@.update(x, -1)
    &&& h2.area_lists@ == h1.area_lists@
    &&& h2.arealinkedentities@ == h1.arealinkedentities@
    &&& h2.linkheap@[x].next_area == NO_LINK
    &&& h2.linkheap@[x].prev_area == NO_LINK
    &&& heap_same_except(h1.linkheap@, h2.linkheap@, Set::empty().insert(x).insert(head_of(h1.free@)))
    &&& forall|y: int| 0 <= y < h1.linkheap@.len() ==> #[trigger] h2.linkheap@[y].entnum == h1.linkheap@[y].entnum
        && h2.linkheap@[y].areanum == h1.linkheap@[y].areanum
}

/// Puts the handed out link `x` back at the head of the free list
/// (`AAS_DeAllocAASLink`); its links are cleared.
pub fn AAS_DeAllocAASLink(h: &mut AasLinks, x: i32)
    requires
        old(h).wf(),
        0 <= x < old(h).linkheap@.len(),
        old(h).owner@[x as int] == -2,
    ensures
        final(h).wf(),
        deallocated(*old(h), *final(h), x as int),
{
    let ghost h0 = *h;
    let ghost free = h.free@;
    let ghost changed = Set::empty().insert(x as int).insert(head_of(free));
    let head = h.freelinks;
    if head != NO_LINK {
        let mut l = h.linkheap[head as usize];
        l.prev_ent = x;
        h.linkheap.set(head as usize, l);
    }
    let mut lx = h.linkheap[x as usize];
    lx.prev_ent = NO_LINK;
    lx.next_ent = head;
    lx.prev_area = NO_LINK;
    lx.next_area = NO_LINK;
    h.linkheap.set(x as usize, lx);
    h.freelinks = x;
    proof {
        assert(h0.numaaslinks == free.len());
        assert(free.len() < h0.linkheap@.len()) by {
            lemma_free_short(h0, x as int);
        }
    }
    h.numaaslinks = h.numaaslinks + 1;
    proof {
        let nf = seq![x as int] + free;
        h.free@ = nf;
        h.owner@ = h0.owner@.update(x as int, -1);
        h.index@ = Seq::new(h0.index@.len(), |y: int| if y == x { 0 } else if h0.owner@[y] == -1 { h0.index@[y] + 1 } else { h0.index@[y] });
        assert(heap_same_except(h0.linkheap@, h.linkheap@, changed));
        let al = h0.area_lists@;
        assert forall|a: int| 0 <= a < al.len() implies ent_list(h.linkheap@, #[trigger] h.arealinkedentities@[a], al[a]) by {
            assert(ent_list(h0.linkheap@, h0.arealinkedentities@[a], al[a]));
            assert forall|i: int| 0 <= i < al[a].len() implies !changed.contains(#[trigger] al[a][i]) by {
                assert(h0.owner@[al[a][i]] == a);
                if free.len() > 0 {
                    assert(h0.owner@[free[0]] == -1);
                }
            }
            lemma_ent_list_frame(h0.linkheap@, h.linkheap@, changed, h0.arealinkedentities@[a], al[a]);
        }
        assert forall|i: int| 0 <= i < nf.len() implies {
            &&& 0 <= #[trigger] nf[i] < h.linkheap@.len()
            &&& h.linkheap@[nf[i]].next_ent as int == next_in(nf, i)
            &&& h.linkheap@[nf[i]].prev_ent as int == prev_in(nf, i)
        } by {
            if i > 0 {
                assert(nf[i] == free[i - 1]);
                assert(h0.owner@[free[i - 1]] == -1);
                if i > 1 {
                    assert(h0.index@[free[i - 1]] == i - 1);
                    assert(h0.index@[free[0]] == 0);
                    assert(h.linkheap@[nf[i]] == h0.linkheap@[nf[i]]);
                }
            }
        }
        assert forall|i: int| 0 <= i < nf.len() implies h.owner@[#[trigger] nf[i]] == -1 && h.index@[nf[i]] == i by {
            if i > 0 {
                assert(nf[i] == free[i - 1]);
                assert(h0.owner@[free[i - 1]] == -1);
            }
        }
        assert forall|a: int, i: int| 0 <= a < al.len() && 0 <= i < al[a].len() implies {
            &&& h.owner@[#[trigger] al[a][i]] == a
            &&& h.index@[al[a][i]] == i
            &&& h.linkheap@[al[a][i]].areanum == a
        } by {
            assert(ent_list(h0.linkheap@, h0.arealinkedentities@[a], al[a]));
            assert(h0.owner@[al[a][i]] == a);
            if free.len() > 0 {
                assert(h0.owner@[free[0]] == -1);
            }
            assert(!changed.contains(al[a][i]));
            assert(h.linkheap@[al[a][i]] == h0.linkheap@[al[a][i]]);
        }
        assert forall|y: int| 0 <= y < h.linkheap@.len() implies #[trigger] h.placed(y) by {
            assert(h0.placed(y));
            if h0.owner@[y] == -1 && y != x {
                let i = h0.index@[y];
                assert(nf[i + 1] == y);
            }
        }
    }
}

/// While a link is handed out, the free list is shorter than the heap.
proof fn lemma_free_short(h: AasLinks, x: int)
    requires
        h.wf(),
        0 <= x < h.linkheap@.len(),
        h.owner@[x] == -2,
    ensures
        h.free@.len() < h.linkheap@.len(),
{
    let free = h.free@;
    let n = h.linkheap@.len() as int;
    if free.len() >= n {
        let s = free.take(n);
        assert forall|i: int, j: int| 0 <= i < n && 0 <= j < n && i != j implies s[i] != s[j] by {
            assert(h.index@[free[i]] == i);
            assert(h.index@[free[j]] == j);
        }
        assert forall|i: int| 0 <= i < n implies 0 <= #[trigger] s[i] < n by {
            assert(free[i] == s[i]);
        }
        lemma_pigeonhole(s, n, x);
        let i = choose|i: int| 0 <= i < n && s[i] == x;
        assert(h.owner@[free[i]] == -1);
    }
}

/// `n` distinct values in `0 .. n` take every value of `0 .. n`.
proof fn lemma_pigeonhole(s: Seq<int>, n: int, x: int)
    requires
        s.len() == n,
        0 <= x < n,
        forall|i: int| 0 <= i < n ==> 0 <= #[trigger] s[i] < n,
        forall|i: int, j: int| 0 <= i < n && 0 <= j < n && i != j ==> s[i] != s[j],
    ensures
        exists|i: int| 0 <= i < n && s[i] == x,
{
    let set_s = s.to_set();
    assert(s.no_duplicates());
    s.unique_seq_to_set();
    let full = vstd::set_lib::set_int_range(0, n);
    vstd::set_lib::lemma_int_range(0, n);
    if !set_s.contains(x) {
        assert(set_s.subset_of(full.remove(x))) by {
            assert forall|v: int| set_s.contains(v) implies full.remove(x).contains(v) by {
                let i = choose|i: int| 0 <= i < s.len() && s[i] == v;
            }
        }
        vstd::set_lib::lemma_len_subset(set_s, full.remove(x));
        assert(false);
    }
    assert(s.contains(x));
}

/// Only the entity list fields of the heap differ between `h1` and `h2`.
pub open spec fn area_fields_same(h1: Seq<aas_link_t>, h2: Seq<aas_link_t>) -> bool {
    &&& h2.len() == h1.len()
    &&& forall|y: int| 0 <= y < h1.len() ==> {
        &&& (#[trigger] h2[y]).next_area == h1[y].next_area
        &&& h2[y].prev_area == h1[y].prev_area
        &&& h2[y].entnum == h1[y].entnum
        &&& h2[y].areanum == h1[y].areanum
    }
}

/// `h2` is `h1` after link `x` left the list of its area: the later links
/// of that list move up one place, `x` is handed out, and no other list or
/// field than the entity list links changed.
pub open spec fn removed_from_area(h1: AasLinks, h2: AasLinks, x: int) -> bool {
    let a = h1.owner@[x];
    let i = h1.index@[x];
    &&& h2.area_lists@ == h1.area_lists@.update(a, h1.area_lists@[a].remove(i))
    &&& h2.owner@ == h1.owner@.update(x, -2)
    &&& forall|y: int| 0 <= y < h1.linkheap@.len() && y != x ==> #[trigger] h2.index@[y] == (
        if h1.owner@[y] == a && h1.index@[y] > i { h1.index@[y] - 1 } else { h1.index@[y] })
    &&& h2.free@ == h1.free@
    &&& h2.freelinks == h1.freelinks
    &&& h2.numaaslinks == h1.numaaslinks
    &&& h2.arealinkedentities@.len() == h1.arealinkedentities@.len()
    &&& area_fields_same(h1.linkheap@, h2.linkheap@)
}

/// Takes link `x` out of the entity list of its area; `x` is then handed
/// out, in no list.
#[verifier::rlimit(60)]
fn remove_from_area(h: &mut AasLinks, x: i32)
    requires
        old(h).wf(),
        0 <= x < old(h).linkheap@.len(),
        0 <= old(h).owner@[x as int] < old(h).area_lists@.len(),
    ensures
        final(h).wf(),
        removed_from_area(*old(h), *final(h), x as int),
{
    let ghost h0 = *h;
    let ghost a = h.owner@[x as int];
    let ghost i = h.index@[x as int];
    let ghost al = h.area_lists@;
    let ghost s = al[a];
    proof {
        assert(h0.placed(x as int));
        assert(ent_list(h0.linkheap@, h0.arealinkedentities@[a], s));
        assert(s[i] == x);
    }
    let l = h.linkheap[x as usize];
    let prev = l.prev_ent;
    let next = l.next_ent;
    if prev != NO_LINK {
        let mut lp = h.linkheap[prev as usize];
        lp.next_ent = next;
        h.linkheap.set(prev as usize, lp);
    } else {
        h.arealinkedentities.set(l.areanum as usize, next);
    }
    if next != NO_LINK {
        let mut ln = h.linkheap[next as usize];
        ln.prev_ent = prev;
        h.linkheap.set(next as usize, ln);
    }
    proof {
        let ns = s.remove(i);
        let changed = Set::empty().insert(prev as int).insert(next as int);
        h.area_lists@ = al.update(a, ns);
        h.owner@ = h0.owner@.update(x as int, -2);
        h.index@ = Seq::new(h0.index@.len(), |y: int| if h0.owner@[y] == a && h0.index@[y] > i { h0.index@[y] - 1 } else { h0.index@[y] });
        assert(heap_same_except(h0.linkheap@, h.linkheap@, changed));
        // other area lists
        assert forall|b: int| 0 <= b < al.len() && b != a implies ent_list(h.linkheap@, #[trigger] h.arealinkedentities@[b], al[b]) by {
            assert(ent_list(h0.linkheap@, h0.arealinkedentities@[b], al[b]));
            assert forall|j: int| 0 <= j < al[b].len() implies !changed.contains(#[trigger] al[b][j]) by {
                assert(h0.owner@[al[b][j]] == b);
                if i > 0 {
                    assert(h0.owner@[s[i - 1]] == a);
                }
                if i + 1 < s.len() {
                    assert(h0.owner@[s[i + 1]] == a);
                }
            }
            lemma_ent_list_frame(h0.linkheap@, h.linkheap@, changed, h0.arealinkedentities@[b], al[b]);
        }
        // the list of area a
        assert forall|j: int| 0 <= j < ns.len() implies {
            &&& 0 <= #[trigger] ns[j] < h.linkheap@.len()
            &&& h.linkheap@[ns[j]].next_ent as int == next_in(ns, j)
            &&& h.linkheap@[ns[j]].prev_ent as int == prev_in(ns, j)
        } by {
            let y = ns[j];
            if j < i {
                assert(y == s[j]);
                assert(h0.index@[s[j]] == j);
                if j + 1 < i {
                    assert(h0.index@[s[j + 1]] == j + 1);
                    assert(y != prev && y != next) by {
                        if i + 1 < s.len() { assert(h0.index@[s[i + 1]] == i + 1); }
                        assert(h0.index@[s[i - 1]] == i - 1);
                    }
                } else {
                    assert(y == prev);
                    if i + 1 < s.len() { assert(h0.index@[s[i + 1]] == i + 1); }
                }
            } else {
                assert(y == s[j + 1]);
                assert(h0.index@[s[j + 1]] == j + 1);
                if j > i {
                    assert(y != next && y != prev) by {
                        assert(h0.index@[s[i + 1]] == i + 1);
                        if i > 0 { assert(h0.index@[s[i - 1]] == i - 1); }
                    }
                } else {
                    assert(y == next);
                    if i > 0 { assert(h0.index@[s[i - 1]] == i - 1); }
                }
            }
        }
        assert(ent_list(h.linkheap@, h.arealinkedentities@[a], ns));
        // the free list
        assert(ent_list(h0.linkheap@, h0.freelinks, h0.free@));
        assert forall|j: int| 0 <= j < h0.free@.len() implies !changed.contains(#[trigger] h0.free@[j]) by {
            assert(h0.owner@[h0.free@[j]] == -1);
            if i > 0 { assert(h0.owner@[s[i - 1]] == a); }
            if i + 1 < s.len() { assert(h0.owner@[s[i + 1]] == a); }
        }
        lemma_ent_list_frame(h0.linkheap@, h.linkheap@, changed, h0.freelinks, h0.free@);
        let nal = h.area_lists@;
        assert forall|b: int, j: int| 0 <= b < nal.len() && 0 <= j < nal[b].len() implies {
            &&& h.owner@[#[trigger] nal[b][j]] == b
            &&& h.index@[nal[b][j]] == j
            &&& h.linkheap@[nal[b][j]].areanum == b
        } by {
            if b == a {
                if j < i {
                    assert(nal[b][j] == s[j]);
                    assert(h0.index@[s[j]] == j);
                } else {
                    assert(nal[b][j] == s[j + 1]);
                    assert(h0.index@[s[j + 1]] == j + 1);
                }
            } else {
                assert(nal[b][j] == al[b][j]);
                assert(ent_list(h0.linkheap@, h0.arealinkedentities@[b], al[b]));
            }
            let y = nal[b][j];
            assert(h0.owner@[y] == b);
            assert(h.linkheap@[y].areanum == h0.linkheap@[y].areanum);
        }
        assert forall|j: int| 0 <= j < h0.free@.len() implies h.owner@[#[trigger] h0.free@[j]] == -1
            && h.index@[h0.free@[j]] == j by {
            assert(h0.owner@[h0.free@[j]] == -1);
        }
        assert forall|y: int| 0 <= y < h.linkheap@.len() implies #[trigger] h.placed(y) by {
            assert(h0.placed(y));
            if y != x && h0.owner@[y] == a {
                let k = h0.index@[y];
                assert(s[k] == y);
                if k > i {
                    assert(ns[k - 1] == y);
                } else {
                    assert(k != i);
                    assert(ns[k] == y);
                }
            }
        }
        assert(area_fields_same(h0.linkheap@, h.linkheap@));
    }
}

/// Following `next_area` from `head` gives the distinct links `s`,
/// `prev_area` leads back, and every link of `s` is in an area's list.
pub open spec fn area_chain(h: AasLinks, head: i32, s: Seq<int>) -> bool {
    &&& head as int == head_of(s)
    &&& forall|i: int| 0 <= i < s.len() ==> {
        &&& 0 <= #[trigger] s[i] < h.linkheap@.len()
        &&& h.linkheap@[s[i]].next_area as int == next_in(s, i)
        &&& h.linkheap@[s[i]].prev_area as int == prev_in(s, i)
        &&& 0 <= h.owner@[s[i]] < h.area_lists@.len()
    }
    &&& forall|i: int, j: int| 0 <= i < j < s.len() ==> #[trigger] s[i] != #[trigger] s[j]
}

/// Links the handed out link `x` for entity `entnum` into area `areanum`:
/// at the head of the area's entity list and at the head of the chain of
/// the entity's links that starts at `chain`.
#[verifier::rlimit(60)]
fn add_to_area(h: &mut AasLinks, x: i32, entnum: i32, areanum: i32, chain: i32, Ghost(cs): Ghost<Seq<int>>)
    requires
        old(h).wf(),
        0 <= x < old(h).linkheap@.len(),
        old(h).owner@[x as int] == -2,
        0 <= areanum < old(h).area_lists@.len(),
        area_chain(*old(h), chain, cs),
    ensures
        final(h).wf(),
        final(h).area_lists@ == old(h).area_lists@.update(areanum as int, seq![x as int] + old(h).area_lists@[areanum as int]),
        final(h).owner@ == old(h).owner@.update(x as int, areanum as int),
        final(h).free@ == old(h).free@,
        final(h).freelinks == old(h).freelinks,
        final(h).numaaslinks == old(h).numaaslinks,
        final(h).arealinkedentities@.len() == old(h).arealinkedentities@.len(),
        final(h).linkheap@[x as int].entnum == entnum,
        area_chain(*final(h), x, seq![x as int] + cs),
        forall|y: int| 0 <= y < old(h).linkheap@.len() && y != x ==> #[trigger] final(h).linkheap@[y].entnum == old(h).linkheap@[y].entnum,
{
    let ghost h0 = *h;
    let ghost al = h.area_lists@;
    let ghost a = areanum as int;
    let ghost s = al[a];
    let head = h.arealinkedentities[areanum as usize];
    proof {
        assert(ent_list(h0.linkheap@, h0.arealinkedentities@[a], s));
        assert(h0.placed(x as int));
        if cs.len() > 0 {
            assert(0 <= cs[0] < h0.linkheap@.len());
            assert(cs[0] != x) by {
                assert(h0.owner@[cs[0]] >= 0);
            }
        }
        if s.len() > 0 {
            assert(h0.owner@[s[0]] == a);
        }
    }
    //put the link into the double linked area list of the entity
    if chain != NO_LINK {
        let mut lc = h.linkheap[chain as usize];
        lc.prev_area = x;
        h.linkheap.set(chain as usize, lc);
    }
    //put the link into the double linked entity list of the area
    if head != NO_LINK {
        let mut lh = h.linkheap[head as usize];
        lh.prev_ent = x;
        h.linkheap.set(head as usize, lh);
    }
    let lx = aas_link_s { entnum: entnum, areanum: areanum, next_ent: head, prev_ent: NO_LINK, next_area: chain, prev_area: NO_LINK };
    h.linkheap.set(x as usize, lx);
    h.arealinkedentities.set(areanum as usize, x);
    proof {
        let ns = seq![x as int] + s;
        let ncs = seq![x as int] + cs;
        let changed = Set::empty().insert(x as int).insert(chain as int).insert(head as int);
        h.area_lists@ = al.update(a, ns);
        h.owner@ = h0.owner@.update(x as int, a);
        h.index@ = Seq::new(h0.index@.len(), |y: int| if y == x { 0 } else if h0.owner@[y] == a { h0.index@[y] + 1 } else { h0.index@[y] });
        assert(heap_same_except(h0.linkheap@, h.linkheap@, changed));
        let echanged = Set::empty().insert(x as int).insert(head as int);
        assert(ent_fields_same_except(h0.linkheap@, h.linkheap@, echanged));
        assert forall|y: int| 0 <= y < h0.linkheap@.len() && y != x implies
            #[trigger] h.linkheap@[y].areanum == h0.linkheap@[y].areanum && h.linkheap@[y].entnum == h0.linkheap@[y].entnum by {}
        assert forall|b: int| 0 <= b < al.len() && b != a implies ent_list(h.linkheap@, #[trigger] h.arealinkedentities@[b], al[b]) by {
            assert(ent_list(h0.linkheap@, h0.arealinkedentities@[b], al[b]));
            assert forall|j: int| 0 <= j < al[b].len() implies !echanged.contains(#[trigger] al[b][j]) by {
                assert(h0.owner@[al[b][j]] == b);
                if s.len() > 0 { assert(h0.owner@[s[0]] == a); }
            }
            lemma_ent_list_frame2(h0.linkheap@, h.linkheap@, echanged, h0.arealinkedentities@[b], al[b]);
        }
        assert forall|j: int| 0 <= j < ns.len() implies {
            &&& 0 <= #[trigger] ns[j] < h.linkheap@.len()
            &&& h.linkheap@[ns[j]].next_ent as int == next_in(ns, j)
            &&& h.linkheap@[ns[j]].prev_ent as int == prev_in(ns, j)
        } by {
            if j > 0 {
                assert(ns[j] == s[j - 1]);
                assert(h0.owner@[s[j - 1]] == a);
                assert(h0.index@[s[j - 1]] == j - 1);
                if j > 1 {
                    assert(h0.index@[s[0]] == 0);
                }
            }
        }
        assert(ent_list(h.linkheap@, h.arealinkedentities@[a], ns));
        assert(ent_list(h0.linkheap@, h0.freelinks, h0.free@));
        assert forall|j: int| 0 <= j < h0.free@.len() implies !echanged.contains(#[trigger] h0.free@[j]) by {
            assert(h0.owner@[h0.free@[j]] == -1);
            if s.len() > 0 { assert(h0.owner@[s[0]] == a); }
        }
        lemma_ent_list_frame2(h0.linkheap@, h.linkheap@, echanged, h0.freelinks, h0.free@);
        let nal = h.area_lists@;
        assert forall|b: int, j: int| 0 <= b < nal.len() && 0 <= j < nal[b].len() implies {
            &&& h.owner@[#[trigger] nal[b][j]] == b
            &&& h.index@[nal[b][j]] == j
            &&& h.linkheap@[nal[b][j]].areanum == b
        } by {
            if b == a {
                if j > 0 {
                    assert(nal[b][j] == s[j - 1]);
                    assert(h0.owner@[s[j - 1]] == a);
                    assert(h0.index@[s[j - 1]] == j - 1);
                }
            } else {
                assert(nal[b][j] == al[b][j]);
                assert(ent_list(h0.linkheap@, h0.arealinkedentities@[b], al[b]));
                assert(h0.owner@[al[b][j]] == b);
            }
        }
        assert forall|j: int| 0 <= j < h0.free@.len() implies h.owner@[#[trigger] h0.free@[j]] == -1
            && h.index@[h0.free@[j]] == j by {
            assert(h0.owner@[h0.free@[j]] == -1);
        }
        assert forall|y: int| 0 <= y < h.linkheap@.len() implies #[trigger] h.placed(y) by {
            assert(h0.placed(y));
            if y != x && h0.owner@[y] == a {
                let k = h0.index@[y];
                assert(ns[k + 1] == y);
            }
        }
        assert forall|i: int| 0 <= i < ncs.len() implies {
            &&& 0 <= #[trigger] ncs[i] < h.linkheap@.len()
            &&& h.linkheap@[ncs[i]].next_area as int == next_in(ncs, i)
            &&& h.linkheap@[ncs[i]].prev_area as int == prev_in(ncs, i)
            &&& 0 <= h.owner@[ncs[i]] < h.area_lists@.len()
        } by {
            if i > 0 {
                assert(ncs[i] == cs[i - 1]);
                assert(h0.owner@[cs[i - 1]] >= 0);
                if i > 1 {
                    assert(cs[i - 1] != cs[0]);
                    if s.len() > 0 {
                        assert(h.linkheap@[cs[i - 1]].next_area == h0.linkheap@[cs[i - 1]].next_area);
                    }
                }
            }
        }
        assert forall|i: int, j: int| 0 <= i < j < ncs.len() implies #[trigger] ncs[i] != #[trigger] ncs[j] by {
            if i > 0 {
                assert(cs[i - 1] != cs[j - 1]);
            } else {
                assert(h0.owner@[cs[j - 1]] >= 0);
            }
        }
    }
}

/// The chain from a head is unique.
proof fn lemma_area_chain_unique(h: AasLinks, head: i32, s: Seq<int>, t: Seq<int>)
    requires
        area_chain(h, head, s),
        area_chain(h, head, t),
    ensures
        s == t,
{
    assert forall|i: int| 0 <= i < s.len() && 0 <= i < t.len() implies s[i] == t[i] by {
        lemma_area_chain_prefix(h, head, s, t, i);
    }
    if s.len() < t.len() {
        lemma_area_chain_prefix(h, head, s, t, s.len() - 1);
        if s.len() > 0 {
            assert(t[s.len() as int] == h.linkheap@[t[s.len() - 1]].next_area);
        }
    } else if t.len() < s.len() {
        lemma_area_chain_prefix(h, head, s, t, t.len() - 1);
        if t.len() > 0 {
            assert(s[t.len() as int] == h.linkheap@[s[t.len() - 1]].next_area);
        }
    }
    assert(s =~= t);
}

proof fn lemma_area_chain_prefix(h: AasLinks, head: i32, s: Seq<int>, t: Seq<int>, i: int)
    requires
        area_chain(h, head, s),
        area_chain(h, head, t),
        i < s.len(),
        i < t.len(),
    ensures
        forall|j: int| 0 <= j <= i ==> s[j] == t[j],
    decreases i,
{
    if i > 0 {
        lemma_area_chain_prefix(h, head, s, t, i - 1);
        assert(s[i] == h.linkheap@[s[i - 1]].next_area);
        assert(t[i] == h.linkheap@[t[i - 1]].next_area);
    }
}

/// Unlinks the entity whose chain of links starts at `areas` from all its
/// areas (`AAS_UnlinkFromAreas`): every link of the chain leaves its area's
/// list and goes back on the free list, in chain order; the other links keep
/// their lists and their order in them.
pub fn AAS_UnlinkFromAreas(h: &mut AasLinks, areas: i32)
    requires
        old(h).wf(),
        exists|s: Seq<int>| area_chain(*old(h), areas, s),
    ensures
        final(h).wf(),
        forall|s: Seq<int>| area_chain(*old(h), areas, s) ==> {
            &&& final(h).free@ == s.reverse() + old(h).free@
            &&& chains_kept(*old(h), final(h).linkheap@, s)
            &&& forall|y: int| 0 <= y < old(h).linkheap@.len() && !s.contains(y) ==>
                #[trigger] final(h).owner@[y] == old(h).owner@[y]
            &&& forall|y: int| s.contains(y) ==> #[trigger] final(h).owner@[y] == -1
        },
        forall|y: int, z: int| 0 <= y < old(h).linkheap@.len() && 0 <= z < old(h).linkheap@.len()
            && 0 <= old(h).owner@[y] && old(h).owner@[y] == old(h).owner@[z]
            && final(h).owner@[y] == old(h).owner@[y] && final(h).owner@[z] == old(h).owner@[z] ==>
            (#[trigger] final(h).index@[y] < #[trigger] final(h).index@[z] <==> old(h).index@[y] < old(h).index@[z]),
        final(h).linkheap@.len() == old(h).linkheap@.len(),
        final(h).area_lists@.len() == old(h).area_lists@.len(),
        final(h).arealinkedentities@.len() == old(h).arealinkedentities@.len(),
        area_fields_kept(old(h).linkheap@, final(h).linkheap@, *old(h)),
{
    let ghost s = choose|s: Seq<int>| area_chain(*old(h), areas, s);
    let ghost h0 = *h;
    let mut link = areas;
    let ghost mut k: int = 0;
    while link != NO_LINK
        invariant
            h.wf(),
            h0.wf(),
            h0 == *old(h),
            area_chain(h0, areas, s),
            unlinking(h0, *h, s, k),
            link as int == if k < s.len() { s[k] } else { -1 },
        decreases s.len() - k,
    {
        proof {
            if k >= s.len() {
                assert(false);
            }
        }
        //next area the entity is linked in
        let nextlink = h.linkheap[link as usize].next_area;
        let ghost hb = *h;
        //remove the entity from the linked list of this area
        remove_from_area(h, link);
        let ghost hc = *h;
        //deallocate the link structure
        AAS_DeAllocAASLink(h, link);
        proof {
            lemma_unlink_step(h0, hb, hc, *h, areas, s, k);
            k = k + 1;
        }
        link = nextlink;
    }
    proof {
        assert(s.take(k) =~= s);
        assert forall|t: Seq<int>| area_chain(*old(h), areas, t) implies {
            &&& h.free@ == t.reverse() + old(h).free@
            &&& chains_kept(*old(h), h.linkheap@, t)
            &&& forall|y: int| 0 <= y < old(h).linkheap@.len() && !t.contains(y) ==>
                #[trigger] h.owner@[y] == old(h).owner@[y]
            &&& forall|y: int| t.contains(y) ==> #[trigger] h.owner@[y] == -1
        } by {
            lemma_area_chain_unique(*old(h), areas, s, t);
        }
    }
}

/// The first `k` links of the chain `s` have been unlinked from `h0`,
/// giving `h`.
pub open spec fn unlinking(h0: AasLinks, h: AasLinks, s: Seq<int>, k: int) -> bool {
    let n = h0.linkheap@.len();
    &&& h.linkheap@.len() == n
    &&& h.area_lists@.len() == h0.area_lists@.len()
    &&& h.arealinkedentities@.len() == h0.arealinkedentities@.len()
    &&& 0 <= k <= s.len()
    &&& forall|i: int| k <= i < s.len() ==> {
        &&& h.linkheap@[#[trigger] s[i]].next_area as int == next_in(s, i)
        &&& 0 <= h.owner@[s[i]] < h.area_lists@.len()
    }
    &&& h.free@ == s.take(k).reverse() + h0.free@
    &&& forall|y: int| 0 <= y < n && !s.take(k).contains(y) ==> #[trigger] h.owner@[y] == h0.owner@[y]
    &&& forall|y: int| s.take(k).contains(y) ==> #[trigger] h.owner@[y] == -1
    &&& forall|y: int, z: int| 0 <= y < n && 0 <= z < n && 0 <= h0.owner@[y] && h0.owner@[y] == h0.owner@[z]
        && h.owner@[y] == h0.owner@[y] && h.owner@[z] == h0.owner@[z] ==>
        (#[trigger] h.index@[y] < #[trigger] h.index@[z] <==> h0.index@[y] < h0.index@[z])
    &&& area_fields_kept(h0.linkheap@, h.linkheap@, h0)
    &&& chains_kept(h0, h.linkheap@, s.take(k))
}

/// Every link that was in an area's list in `h0` and is not among `gone`
/// keeps its links to the other areas of its entity.
pub open spec fn chains_kept(h0: AasLinks, l2: Seq<aas_link_t>, gone: Seq<int>) -> bool {
    forall|y: int| 0 <= y < h0.linkheap@.len() && 0 <= h0.owner@[y] && !gone.contains(y) ==> {
        &&& (#[trigger] l2[y]).next_area == h0.linkheap@[y].next_area
        &&& l2[y].prev_area == h0.linkheap@[y].prev_area
    }
}

#[verifier::rlimit(60)]
proof fn lemma_unlink_step(h0: AasLinks, hb: AasLinks, hc: AasLinks, h: AasLinks, areas: i32, s: Seq<int>, k: int)
    requires
        h0.wf(),
        hb.wf(),
        hc.wf(),
        h.wf(),
        area_chain(h0, areas, s),
        unlinking(h0, hb, s, k),
        0 <= k < s.len(),
        removed_from_area(hb, hc, s[k]),
        deallocated(hc, h, s[k]),
    ensures
        unlinking(h0, h, s, k + 1),
{
    let n = h0.linkheap@.len();
    let x = s[k];
    assert(s.take(k + 1) =~= s.take(k).push(x));
    assert(s.take(k + 1).reverse() =~= seq![x] + s.take(k).reverse());
    assert(h.free@ =~= s.take(k + 1).reverse() + h0.free@);
    assert forall|i: int| k + 1 <= i < s.len() implies {
        &&& h.linkheap@[#[trigger] s[i]].next_area as int == next_in(s, i)
        &&& 0 <= h.owner@[s[i]] < h.area_lists@.len()
    } by {
        assert(s[i] != x);
        assert(hb.owner@[s[i]] >= 0);
        assert(hc.owner@[s[i]] == hb.owner@[s[i]]);
        assert(hc.linkheap@[s[i]].next_area == hb.linkheap@[s[i]].next_area);
        assert(hc.placed(s[i]));
        if hc.free@.len() > 0 {
            assert(hc.owner@[hc.free@[0]] == -1);
        }
        assert(h.linkheap@[s[i]] == hc.linkheap@[s[i]]);
    }
    assert(s.take(k + 1)[k] == x);
    assert forall|y: int| 0 <= y < n && !s.take(k + 1).contains(y) implies #[trigger] h.owner@[y] == h0.owner@[y] by {
        if s.take(k).contains(y) {
            let j = choose|j: int| 0 <= j < k && #[trigger] s.take(k)[j] == y;
            assert(s.take(k + 1)[j] == y);
        }
        assert(y != x);
    }
    assert forall|y: int| s.take(k + 1).contains(y) implies #[trigger] h.owner@[y] == -1 by {
        if y != x {
            let j = choose|j: int| 0 <= j < k + 1 && #[trigger] s.take(k + 1)[j] == y;
            assert(s.take(k).contains(y)) by {
                assert(s.take(k)[j] == y);
            }
        }
    }
    assert forall|y: int, z: int| 0 <= y < n && 0 <= z < n && 0 <= h0.owner@[y] && h0.owner@[y] == h0.owner@[z]
        && h.owner@[y] == h0.owner@[y] && h.owner@[z] == h0.owner@[z] implies
        (#[trigger] h.index@[y] < #[trigger] h.index@[z] <==> h0.index@[y] < h0.index@[z]) by {
        assert(y != x && z != x) by {
            if y == x || z == x {
                assert(h.owner@[x] == -1);
            }
        }
        assert(hb.owner@[y] == h0.owner@[y]);
        assert(hb.owner@[z] == h0.owner@[z]);
        let a2 = h0.owner@[y];
        assert(hc.owner@[y] == a2 && hc.owner@[z] == a2);
        assert(hc.placed(y) && hc.placed(z));
        let iy = hc.index@[y];
        let iz = hc.index@[z];
        assert(hc.area_lists@[a2][iy] == y);
        assert(hc.area_lists@[a2][iz] == z);
        assert(h.area_lists@[a2][iy] == y);
        assert(h.area_lists@[a2][iz] == z);
        assert(h.index@[h.area_lists@[a2][iy]] == iy);
        assert(h.index@[h.area_lists@[a2][iz]] == iz);
    }
    assert forall|y: int| 0 <= y < n implies #[trigger] area_fields_kept_at(h0.linkheap@, h.linkheap@, h0, y) by {
        assert(area_fields_kept_at(h0.linkheap@, hb.linkheap@, h0, y));
        assert(hc.linkheap@[y].entnum == hb.linkheap@[y].entnum);
        assert(h.linkheap@[y].entnum == hc.linkheap@[y].entnum);
    }
    assert forall|y: int| 0 <= y < n && 0 <= h0.owner@[y] && !s.take(k + 1).contains(y) implies {
        &&& (#[trigger] h.linkheap@[y]).next_area == h0.linkheap@[y].next_area
        &&& h.linkheap@[y].prev_area == h0.linkheap@[y].prev_area
    } by {
        assert(!s.take(k).contains(y)) by {
            if s.take(k).contains(y) {
                let j = choose|j: int| 0 <= j < k && #[trigger] s.take(k)[j] == y;
                assert(s.take(k + 1)[j] == y);
            }
        }
        assert(y != x);
        assert(hb.owner@[y] == h0.owner@[y]);
        assert(hc.owner@[y] == hb.owner@[y]);
        assert(hc.linkheap@[y].next_area == hb.linkheap@[y].next_area);
        assert(hc.linkheap@[y].prev_area == hb.linkheap@[y].prev_area);
        if hc.free@.len() > 0 {
            assert(hc.owner@[hc.free@[0]] == -1);
        }
        assert(h.linkheap@[y] == hc.linkheap@[y]);
    }
}

/// Link `y`, if it was in an area's list in `h0`, keeps its entity and area.
pub open spec fn area_fields_kept_at(l1: Seq<aas_link_t>, l2: Seq<aas_link_t>, h0: AasLinks, y: int) -> bool {
    0 <= h0.owner@[y] ==> l2[y].entnum == l1[y].entnum && l2[y].areanum == l1[y].areanum
}

/// Every link that was in an area's list keeps its entity and area.
pub open spec fn area_fields_kept(l1: Seq<aas_link_t>, l2: Seq<aas_link_t>, h0: AasLinks) -> bool {
    forall|y: int| 0 <= y < l1.len() ==> #[trigger] area_fields_kept_at(l1, l2, h0, y)
}

//==================================================================
// linking an entity into the areas its box touches
//==================================================================

/// Entity `e` has a link in the list of area `a`.
pub open spec fn has_ent(h: AasLinks, a: int, e: i32) -> bool {
    exists|i: int| 0 <= i < h.area_lists@[a].len() && #[trigger] h.linkheap@[h.area_lists@[a][i]].entnum == e
}

/// Most entries the walk stack of `AAS_AASLinkEntity` holds.
pub const LINK_STACK_LIMIT: i32 = 127;

/// The tree walk of `AAS_AASLinkEntity` from `node`, with `below` entries
/// under it on the walk stack: the leaf areas it meets, in order, and
/// whether the walk stack overflowed.  `sides[n]` tells on which sides of
/// the plane of node `n` the box lies (bit 0 front, bit 1 back); the back
/// child is walked first.
pub open spec fn tree_walk(w: aas_s, sides: Seq<i32>, node: int, below: int) -> (Seq<int>, bool)
    decreases (if node > 0 { w.nodes@.len() - node } else { 0 }),
{
    if node < 0 {
        (seq![-node], false)
    } else if node == 0 || node >= w.nodes@.len() || node >= sides.len() {
        (seq![], false)
    } else {
        let side = sides[node];
        let c0 = w.nodes@[node].child0 as int;
        let c1 = w.nodes@[node].child1 as int;
        let k1 = if side & 1 != 0 { below + 1 } else { below };
        let k2 = if side & 2 != 0 { k1 + 1 } else { k1 };
        if k1 >= LINK_STACK_LIMIT || k2 >= LINK_STACK_LIMIT {
            (seq![], true)
        } else if !(node < c0 < w.nodes@.len() || c0 <= 0) || !(node < c1 < w.nodes@.len() || c1 <= 0) {
            (seq![], false)
        } else if side & 2 != 0 {
            let r1 = tree_walk(w, sides, c1, k1);
            if r1.1 {
                r1
            } else if side & 1 != 0 {
                let r0 = tree_walk(w, sides, c0, below);
                (r1.0 + r0.0, r0.1)
            } else {
                r1
            }
        } else if side & 1 != 0 {
            tree_walk(w, sides, c0, below)
        } else {
            (seq![], false)
        }
    }
}

/// The areas, among the leaf areas `leaves` met in order, that get a new
/// link for entity `e`: those without a link of `e` in `h0`, each once, in
/// the order they are first met.
pub open spec fn new_areas(h0: AasLinks, e: i32, leaves: Seq<int>) -> Seq<int>
    decreases leaves.len(),
{
    if leaves.len() == 0 {
        seq![]
    } else {
        let p = new_areas(h0, e, leaves.drop_last());
        let a = leaves.last();
        if has_ent(h0, a, e) || p.contains(a) { p } else { p.push(a) }
    }
}

/// The node tree can be walked: the root exists, children come after
/// their node, the leaf areas have entity lists, and every node has its
/// sides.
pub open spec fn link_tree_ready(w: aas_s, sides: Seq<i32>, h: AasLinks) -> bool {
    &&& 2 <= w.nodes@.len() <= 0x7fff_ffff
    &&& h.area_lists@.len() <= 0x7fff_ffff
    &&& sides.len() >= w.nodes@.len()
    &&& forall|n: int| 1 <= n < w.nodes@.len() ==> {
        &&& child_ok(w, n, #[trigger] w.nodes@[n].child0 as int, h)
        &&& child_ok(w, n, w.nodes@[n].child1 as int, h)
    }
}

/// Child `c` of node `n` comes after it, or is a solid leaf, or an area
/// with an entity list.
pub open spec fn child_ok(w: aas_s, n: int, c: int, h: AasLinks) -> bool {
    ||| n < c < w.nodes@.len()
    ||| c == 0
    ||| (c < 0 && -c < h.area_lists@.len())
}

/// Linking of entity `e`, started from `h0`, has given the areas `c` a new
/// link each: `cs` is the entity's chain of those links, newest first.
pub open spec fn linking(h0: AasLinks, h: AasLinks, e: i32, chain: i32, cs: Seq<int>, c: Seq<int>) -> bool {
    &&& h.wf()
    &&& h.linkheap@.len() == h0.linkheap@.len()
    &&& h.area_lists@.len() == h0.area_lists@.len()
    &&& area_chain(h, chain, cs)
    &&& cs.len() == c.len()
    &&& forall|j: int| 0 <= j < cs.len() ==> {
        &&& h.linkheap@[#[trigger] cs[j]].entnum == e
        &&& h.owner@[cs[j]] == c[c.len() - 1 - j]
    }
    &&& forall|i: int, j: int| 0 <= i < j < c.len() ==> #[trigger] c[i] != #[trigger] c[j]
    &&& forall|j: int| 0 <= j < c.len() ==> 0 <= #[trigger] c[j] < h.area_lists@.len()
    &&& h0.free@.len() >= c.len()
    &&& h.free@ == h0.free@.skip(c.len() as int)
    &&& forall|b: int| 0 <= b < h.area_lists@.len() && !c.contains(b) ==> #[trigger] h.area_lists@[b] == h0.area_lists@[b]
    &&& forall|j: int| 0 <= j < c.len() ==>
        #[trigger] h.area_lists@[c[j]] == seq![cs[c.len() - 1 - j]] + h0.area_lists@[c[j]]
    &&& forall|y: int| 0 <= y < h.linkheap@.len() && h0.owner@[y] >= 0 ==>
        #[trigger] h.linkheap@[y].entnum == h0.linkheap@[y].entnum
    &&& forall|y: int| 0 <= y < h.linkheap@.len() && !cs.contains(y) ==> #[trigger] h.owner@[y] == h0.owner@[y]
    &&& forall|j: int| 0 <= j < cs.len() ==> h0.owner@[#[trigger] cs[j]] == -1
}

/// Looks for a link of entity `e` in the list of area `a`.
fn find_ent(h: &AasLinks, a: usize, e: i32) -> (found: bool)
    requires
        h.wf(),
        a < h.area_lists@.len(),
    ensures
        found == has_ent(*h, a as int, e),
{
    let ghost s = h.area_lists@[a as int];
    proof {
        assert(ent_list(h.linkheap@, h.arealinkedentities@[a as int], s));
    }
    let mut link = h.arealinkedentities[a];
    let ghost mut i: int = 0;
    while link != NO_LINK
        invariant
            h.wf(),
            a < h.area_lists@.len(),
            s == h.area_lists@[a as int],
            ent_list(h.linkheap@, h.arealinkedentities@[a as int], s),
            0 <= i <= s.len(),
            link as int == if i < s.len() { s[i] } else { -1 },
            forall|j: int| 0 <= j < i ==> #[trigger] h.linkheap@[s[j]].entnum != e,
        decreases s.len() - i,
    {
        proof {
            if i >= s.len() {
                assert(false);
            }
        }
        let l = h.linkheap[link as usize];
        if l.entnum == e {
            return true;
        }
        link = l.next_ent;
        proof {
            i = i + 1;
        }
    }
    false
}

/// Entity `e` has a link in area `b` now exactly when it had one before
/// linking began or linking gave `b` a new one.
proof fn lemma_linking_has_ent(h0: AasLinks, h: AasLinks, e: i32, chain: i32, cs: Seq<int>, c: Seq<int>, b: int)
    requires
        h0.wf(),
        linking(h0, h, e, chain, cs, c),
        0 <= b < h.area_lists@.len(),
    ensures
        has_ent(h, b, e) == (has_ent(h0, b, e) || c.contains(b)),
{
    let al = h.area_lists@;
    let al0 = h0.area_lists@;
    if c.contains(b) {
        let j = choose|j: int| 0 <= j < c.len() && c[j] == b;
        assert(al[b] == seq![cs[c.len() - 1 - j]] + al0[b]);
        assert(h.linkheap@[al[b][0]].entnum == e);
    } else {
        assert(al[b] == al0[b]);
        assert(ent_list(h0.linkheap@, h0.arealinkedentities@[b], al0[b]));
        if has_ent(h0, b, e) {
            let i = choose|i: int| 0 <= i < al0[b].len() && #[trigger] h0.linkheap@[al0[b][i]].entnum == e;
            assert(h0.owner@[al0[b][i]] == b);
            assert(h.linkheap@[al[b][i]].entnum == e);
        }
        if has_ent(h, b, e) {
            let i = choose|i: int| 0 <= i < al[b].len() && #[trigger] h.linkheap@[al[b][i]].entnum == e;
            assert(h0.owner@[al0[b][i]] == b);
            assert(ent_list(h0.linkheap@, h0.arealinkedentities@[b], al0[b]));
            assert(h0.linkheap@[al0[b][i]].entnum == e);
        }
    }
}

/// Ending the walk at another leaf area `a` extends the new areas by `a`
/// unless `e` is linked there or `a` is already among them.
proof fn lemma_new_areas_push(h0: AasLinks, e: i32, v: Seq<int>, a: int)
    ensures
        new_areas(h0, e, v.push(a)) == if has_ent(h0, a, e) || new_areas(h0, e, v).contains(a) {
            new_areas(h0, e, v)
        } else {
            new_areas(h0, e, v).push(a)
        },
{
    assert(v.push(a).drop_last() =~= v);
}

/// The new areas of a walk are a prefix of those of any longer walk.
proof fn lemma_new_areas_prefix(h0: AasLinks, e: i32, v: Seq<int>, u: Seq<int>)
    ensures
        new_areas(h0, e, v).len() <= new_areas(h0, e, v + u).len(),
        new_areas(h0, e, v + u).take(new_areas(h0, e, v).len() as int) == new_areas(h0, e, v),
    decreases u.len(),
{
    if u.len() == 0 {
        assert(v + u =~= v);
        assert(new_areas(h0, e, v).take(new_areas(h0, e, v).len() as int) =~= new_areas(h0, e, v));
    } else {
        let u1 = u.drop_last();
        lemma_new_areas_prefix(h0, e, v, u1);
        assert((v + u).drop_last() =~= v + u1);
        let p = new_areas(h0, e, v + u1);
        let n = new_areas(h0, e, v).len() as int;
        assert(new_areas(h0, e, v + u).take(n) =~= p.take(n));
    }
}

/// The areas linking gives new links are distinct and have entity lists.
proof fn lemma_new_areas_distinct(h0: AasLinks, e: i32, v: Seq<int>, n: int)
    requires
        forall|i: int| 0 <= i < v.len() ==> 0 <= #[trigger] v[i] < n,
    ensures
        forall|i: int, j: int| 0 <= i < j < new_areas(h0, e, v).len() ==>
            #[trigger] new_areas(h0, e, v)[i] != #[trigger] new_areas(h0, e, v)[j],
        forall|j: int| 0 <= j < new_areas(h0, e, v).len() ==> 0 <= #[trigger] new_areas(h0, e, v)[j] < n,
    decreases v.len(),
{
    if v.len() > 0 {
        lemma_new_areas_distinct(h0, e, v.drop_last(), n);
        let p = new_areas(h0, e, v.drop_last());
        let a = v.last();
        let r = new_areas(h0, e, v);
        if !(has_ent(h0, a, e) || p.contains(a)) {
            assert(r == p.push(a));
            assert forall|i: int, j: int| 0 <= i < j < r.len() implies #[trigger] r[i] != #[trigger] r[j] by {
                if j == p.len() {
                    assert(r[i] == p[i]);
                    assert(r[j] == a);
                } else {
                    assert(r[i] == p[i] && r[j] == p[j]);
                }
            }
            assert forall|j: int| 0 <= j < r.len() implies 0 <= #[trigger] r[j] < n by {
                if j < p.len() {
                    assert(r[j] == p[j]);
                }
            }
        }
    }
}

/// Links entity `e` into area `a` unless it has a link there already; the
/// new link heads the entity's chain.  Gives false when a link was needed
/// and none was free.
#[verifier::rlimit(100)]
fn link_leaf(h: &mut AasLinks, a: i32, e: i32, chain: &mut i32,
    Ghost(h0): Ghost<AasLinks>, Ghost(cs): Ghost<Seq<int>>, Ghost(c): Ghost<Seq<int>>)
    -> (r: (bool, Ghost<Seq<int>>, Ghost<Seq<int>>))
    requires
        h0.wf(),
        linking(h0, *old(h), e, *old(chain), cs, c),
        0 <= a < old(h).area_lists@.len(),
    ensures
        linking(h0, *final(h), e, *final(chain), r.1@, r.2@),
        r.0 ==> r.2@ == if has_ent(h0, a as int, e) || c.contains(a as int) { c } else { c.push(a as int) },
        !r.0 ==> r.2@ == c && final(h).free@.len() == 0 && !(has_ent(h0, a as int, e) || c.contains(a as int)),
{
    proof {
        lemma_linking_has_ent(h0, *h, e, *chain, cs, c, a as int);
    }
    //the entity might have already been linked into this area
    if find_ent(h, a as usize, e) {
        return (true, Ghost(cs), Ghost(c));
    }
    let ghost h1 = *h;
    let x = AAS_AllocAASLink(h);
    if x == NO_LINK {
        return (false, Ghost(cs), Ghost(c));
    }
    let ghost h2 = *h;
    proof {
        // the chain is untouched by the allocation
        assert(h1.free@ == h0.free@.skip(c.len() as int));
        if h1.free@.len() > 1 {
            assert(h1.owner@[h1.free@[1]] == -1);
        }
        assert forall|i: int| 0 <= i < cs.len() implies {
            &&& 0 <= #[trigger] cs[i] < h2.linkheap@.len()
            &&& h2.linkheap@[cs[i]].next_area as int == next_in(cs, i)
            &&& h2.linkheap@[cs[i]].prev_area as int == prev_in(cs, i)
            &&& 0 <= h2.owner@[cs[i]] < h2.area_lists@.len()
        } by {
            assert(h1.owner@[cs[i]] >= 0);
            assert(cs[i] != x);
            if h1.free@.len() > 1 {
                assert(head_of(h1.free@.drop_first()) == h1.free@[1]);
                assert(cs[i] != h1.free@[1]);
            }
            assert(h2.linkheap@[cs[i]] == h1.linkheap@[cs[i]]);
        }
        assert(area_chain(h2, *chain, cs));
    }
    add_to_area(h, x, e, a, *chain, Ghost(cs));
    *chain = x;
    proof {
        let h3 = *h;
        let ncs = seq![x as int] + cs;
        let nc = c.push(a as int);
        assert(!c.contains(a as int));
        assert(h0.free@.len() > c.len()) by {
            assert(h1.free@.len() > 0);
        }
        assert(h3.free@ =~= h0.free@.skip(nc.len() as int));
        assert(h0.owner@[x as int] == -1) by {
            assert(h1.free@[0] == h0.free@[c.len() as int]);
        }
        assert forall|j: int| 0 <= j < ncs.len() implies {
            &&& h3.linkheap@[#[trigger] ncs[j]].entnum == e
            &&& h3.owner@[ncs[j]] == nc[nc.len() - 1 - j]
        } by {
            if j > 0 {
                let y = cs[j - 1];
                assert(ncs[j] == y);
                assert(h1.owner@[y] >= 0);
                assert(y != x);
                if h1.free@.len() > 1 {
                    assert(head_of(h1.free@.drop_first()) == h1.free@[1]);
                    assert(y != h1.free@[1]);
                }
                assert(h2.linkheap@[y] == h1.linkheap@[y]);
                assert(nc[nc.len() - 1 - j] == c[c.len() - 1 - (j - 1)]);
            }
        }
        assert forall|i: int, j: int| 0 <= i < j < nc.len() implies #[trigger] nc[i] != #[trigger] nc[j] by {
            if j == c.len() {
                assert(nc[i] == c[i]);
            } else {
                assert(nc[i] == c[i] && nc[j] == c[j]);
            }
        }
        assert forall|j: int| 0 <= j < nc.len() implies 0 <= #[trigger] nc[j] < h3.area_lists@.len() by {
            if j < c.len() {
                assert(nc[j] == c[j]);
            }
        }
        assert forall|b: int| 0 <= b < h3.area_lists@.len() && !nc.contains(b) implies
            #[trigger] h3.area_lists@[b] == h0.area_lists@[b] by {
            assert(b != a);
            assert(!c.contains(b)) by {
                if c.contains(b) {
                    let j = choose|j: int| 0 <= j < c.len() && c[j] == b;
                    assert(nc[j] == b);
                }
            }
        }
        assert forall|j: int| 0 <= j < nc.len() implies
            #[trigger] h3.area_lists@[nc[j]] == seq![ncs[nc.len() - 1 - j]] + h0.area_lists@[nc[j]] by {
            if j < c.len() {
                assert(nc[j] == c[j]);
                assert(c[j] != a);
                assert(ncs[nc.len() - 1 - j] == cs[c.len() - 1 - j]);
            } else {
                assert(nc[j] == a);
            }
        }
        assert forall|y: int| 0 <= y < h3.linkheap@.len() && !ncs.contains(y) implies #[trigger] h3.owner@[y] == h0.owner@[y] by {
            assert(y != x) by {
                assert(ncs[0] == x);
            }
            assert(!cs.contains(y)) by {
                if cs.contains(y) {
                    let j = choose|j: int| 0 <= j < cs.len() && cs[j] == y;
                    assert(ncs[j + 1] == y);
                }
            }
        }
        assert forall|j: int| 0 <= j < ncs.len() implies h0.owner@[#[trigger] ncs[j]] == -1 by {
            if j > 0 {
                assert(ncs[j] == cs[j - 1]);
            }
        }
        assert forall|y: int| 0 <= y < h3.linkheap@.len() && h0.owner@[y] >= 0 implies
            #[trigger] h3.linkheap@[y].entnum == h0.linkheap@[y].entnum by {
            assert(y != x);
            if h1.free@.len() > 1 {
                assert(head_of(h1.free@.drop_first()) == h1.free@[1]);
                assert(h1.free@[1] == h0.free@[c.len() as int + 1]);
                assert(h0.owner@[h0.free@[c.len() as int + 1]] == -1);
                assert(y != h1.free@[1]);
            }
            assert(h2.linkheap@[y] == h1.linkheap@[y]);
        }
    }
    (true, Ghost(seq![x as int] + cs), Ghost(c.push(a as int)))
}

/// How linking an entity ended.
#[derive(Clone, Copy, Debug, PartialEq, Eq, Structural)]
pub enum LinkEnd {
    /// the whole tree was walked
    Linked,
    /// the walk stack overflowed and the walk stopped
    StackOverflow,
    /// a link was needed and none was free
    OutOfLinks,
    /// no AAS data is loaded
    NotLoaded,
}

/// Walks the node tree from `node` for `AAS_AASLinkEntity`, linking entity
/// `e` into the leaf areas it meets.
fn link_walk(h: &mut AasLinks, w: &aas_s, sides: &Vec<i32>, node: i32, below: i32, e: i32, chain: &mut i32,
    Ghost(h0): Ghost<AasLinks>, Ghost(v): Ghost<Seq<int>>, Ghost(cs): Ghost<Seq<int>>)
    -> (r: (LinkEnd, Ghost<Seq<int>>, Ghost<Seq<int>>))
    requires
        h0.wf(),
        link_tree_ready(*w, sides@, h0),
        linking(h0, *old(h), e, *old(chain), cs, new_areas(h0, e, v)),
        child_ok(*w, 0, node as int, h0),
        0 <= below < LINK_STACK_LIMIT,
    ensures
        linking(h0, *final(h), e, *final(chain), r.1@, r.2@),
        ({
            let t = tree_walk(*w, sides@, node as int, below as int);
            let full = new_areas(h0, e, v + t.0);
            &&& r.0 == LinkEnd::Linked ==> !t.1 && r.2@ == full
            &&& r.0 == LinkEnd::StackOverflow ==> t.1 && r.2@ == full
            &&& r.0 == LinkEnd::OutOfLinks ==> final(h).free@.len() == 0 && r.2@.len() < full.len()
                && full.take(r.2@.len() as int) == r.2@
            &&& r.0 != LinkEnd::NotLoaded
        }),
    decreases (if node > 0 { w.nodes@.len() - node } else { 0 }),
{
    let ghost c = new_areas(h0, e, v);
    if node < 0 {
        let ghost a = -node as int;
        let res = link_leaf(h, -node, e, chain, Ghost(h0), Ghost(cs), Ghost(c));
        proof {
            lemma_new_areas_push(h0, e, v, a);
            assert(v + seq![a] =~= v.push(a));
            assert(tree_walk(*w, sides@, node as int, below as int).0 == seq![a]);
            let full = new_areas(h0, e, v.push(a));
            if !res.0 {
                assert(full == c.push(a));
                assert(full.take(c.len() as int) =~= c);
            }
        }
        if res.0 {
            return (LinkEnd::Linked, res.1, res.2);
        } else {
            return (LinkEnd::OutOfLinks, res.1, res.2);
        }
    }
    if node == 0 {
        proof {
            assert(v + seq![] =~= v);
        }
        return (LinkEnd::Linked, Ghost(cs), Ghost(c));
    }
    let side = sides[node as usize];
    let nd = w.nodes[node as usize];
    proof {
        assert(child_ok(*w, node as int, nd.child0 as int, h0));
        assert(child_ok(*w, node as int, nd.child1 as int, h0));
        assert(v + seq![] =~= v);
    }
    //if on the front side of the node
    let k1 = if side & 1 != 0 { below + 1 } else { below };
    if k1 >= LINK_STACK_LIMIT {
        return (LinkEnd::StackOverflow, Ghost(cs), Ghost(c));
    }
    //if on the back side of the node
    let k2 = if side & 2 != 0 { k1 + 1 } else { k1 };
    if k2 >= LINK_STACK_LIMIT {
        return (LinkEnd::StackOverflow, Ghost(cs), Ghost(c));
    }
    if side & 2 != 0 {
        let ghost t1 = tree_walk(*w, sides@, nd.child1 as int, k1 as int);
        let r1 = link_walk(h, w, sides, nd.child1, k1, e, chain, Ghost(h0), Ghost(v), Ghost(cs));
        if r1.0 != LinkEnd::Linked {
            proof {
                if r1.0 == LinkEnd::OutOfLinks && !t1.1 && side & 1 != 0 {
                    let t0 = tree_walk(*w, sides@, nd.child0 as int, below as int);
                    lemma_new_areas_prefix(h0, e, v + t1.0, t0.0);
                    assert(v + t1.0 + t0.0 =~= v + (t1.0 + t0.0));
                    let n1 = new_areas(h0, e, v + t1.0);
                    let n2 = new_areas(h0, e, v + (t1.0 + t0.0));
                    assert(n2.take(r1.2@.len() as int) =~= n1.take(r1.2@.len() as int));
                }
            }
            return r1;
        }
        if side & 1 != 0 {
            let ghost t0 = tree_walk(*w, sides@, nd.child0 as int, below as int);
            let r0 = link_walk(h, w, sides, nd.child0, below, e, chain, Ghost(h0), Ghost(v + t1.0), Ghost(r1.1@));
            proof {
                assert(v + t1.0 + t0.0 =~= v + (t1.0 + t0.0));
            }
            return r0;
        }
        return r1;
    } else if side & 1 != 0 {
        return link_walk(h, w, sides, nd.child0, below, e, chain, Ghost(h0), Ghost(v), Ghost(cs));
    }
    (LinkEnd::Linked, Ghost(cs), Ghost(c))
}

/// Linking entity `e` from `h0` by a walk of the tree from the root gave
/// `h`, with the chain `cs` of new links (newest first, starting at `head`)
/// for the areas `c`: all the areas that needed a link, or, when the links
/// ran out, the first of them.
pub open spec fn entity_linked(h0: AasLinks, h: AasLinks, w: aas_s, sides: Seq<i32>, e: i32, head: i32,
    end: LinkEnd, cs: Seq<int>, c: Seq<int>) -> bool {
    let t = tree_walk(w, sides, 1, 0);
    let full = new_areas(h0, e, t.0);
    &&& linking(h0, h, e, head, cs, c)
    &&& end == LinkEnd::Linked ==> !t.1 && c == full
    &&& end == LinkEnd::StackOverflow ==> t.1 && c == full
    &&& end == LinkEnd::OutOfLinks ==> h.free@.len() == 0 && c.len() < full.len() && full.take(c.len() as int) == c
    &&& end != LinkEnd::NotLoaded
}

/// Links entity `entnum` into the areas its box touches
/// (`AAS_AASLinkEntity`).  The node tree is walked from the root; at a
/// node the box lies on the sides that `sides` gives for it, and the walk
/// goes down the back child first.  Each leaf area met gets a link of the
/// entity unless it has one already; the links are chained, newest first,
/// and the head of the chain is returned.  The walk stops when its stack
/// overflows or no link is free, keeping the links made so far.
pub fn AAS_AASLinkEntity(h: &mut AasLinks, w: &aas_s, sides: &Vec<i32>, entnum: i32) -> (r: (i32, LinkEnd))
    requires
        old(h).wf(),
        w.loaded ==> link_tree_ready(*w, sides@, *old(h)),
    ensures
        final(h).wf(),
        !w.loaded ==> r == (NO_LINK, LinkEnd::NotLoaded) && *final(h) == *old(h),
        w.loaded ==> exists|cs: Seq<int>, c: Seq<int>|
            entity_linked(*old(h), *final(h), *w, sides@, entnum, r.0, r.1, cs, c),
{
    if !w.loaded {
        return (NO_LINK, LinkEnd::NotLoaded);
    }
    let ghost h0 = *h;
    let mut areas: i32 = NO_LINK;
    proof {
        assert(new_areas(h0, entnum, seq![]) == Seq::<int>::empty());
        assert(h0.free@.skip(0) =~= h0.free@);
        assert(linking(h0, h0, entnum, NO_LINK, seq![], seq![]));
        assert(Seq::<int>::empty() + tree_walk(*w, sides@, 1, 0).0 =~= tree_walk(*w, sides@, 1, 0).0);
    }
    //start with node 1 because node zero is a dummy used for solid leafs
    let res = link_walk(h, w, sides, 1, 0, entnum, &mut areas, Ghost(h0), Ghost(Seq::<int>::empty()), Ghost(Seq::<int>::empty()));
    proof {
        assert(entity_linked(h0, *h, *w, sides@, entnum, areas, res.0, res.1@, res.2@));
        assert(h0 == *old(h));
        assert(exists|cs: Seq<int>, c: Seq<int>| entity_linked(*old(h), *h, *w, sides@, entnum, areas, res.0, cs, c));
    }
    let r = (areas, res.0);
    assert(r.0 == areas && r.1 == res.0);
    r
}

/// Among the links that were in area lists before linking, linking keeps
/// the order within each area.
proof fn lemma_linking_order(h0: AasLinks, h: AasLinks, e: i32, chain: i32, cs: Seq<int>, c: Seq<int>, y: int, z: int)
    requires
        h0.wf(),
        linking(h0, h, e, chain, cs, c),
        0 <= y < h0.linkheap@.len(),
        0 <= z < h0.linkheap@.len(),
        0 <= h0.owner@[y],
        h0.owner@[y] == h0.owner@[z],
    ensures
        h.owner@[y] == h0.owner@[y],
        h.owner@[z] == h0.owner@[z],
        h.index@[y] < h.index@[z] <==> h0.index@[y] < h0.index@[z],
{
    let b = h0.owner@[y];
    assert(!cs.contains(y)) by {
        if cs.contains(y) {
            let j = choose|j: int| 0 <= j < cs.len() && cs[j] == y;
        }
    }
    assert(!cs.contains(z)) by {
        if cs.contains(z) {
            let j = choose|j: int| 0 <= j < cs.len() && cs[j] == z;
        }
    }
    assert(h0.placed(y) && h0.placed(z));
    let iy = h0.index@[y];
    let iz = h0.index@[z];
    let al0 = h0.area_lists@[b];
    assert(al0[iy] == y && al0[iz] == z);
    if c.contains(b) {
        let j = choose|j: int| 0 <= j < c.len() && c[j] == b;
        assert(h.area_lists@[b] == seq![cs[c.len() - 1 - j]] + al0);
        assert(h.area_lists@[b][iy + 1] == y);
        assert(h.area_lists@[b][iz + 1] == z);
        assert(h.index@[h.area_lists@[b][iy + 1]] == iy + 1);
        assert(h.index@[h.area_lists@[b][iz + 1]] == iz + 1);
    } else {
        assert(h.area_lists@[b] == al0);
        assert(h.index@[h.area_lists@[b][iy]] == iy);
        assert(h.index@[h.area_lists@[b][iz]] == iz);
    }
}

/// The areas the box touches (`AAS_BBoxAreas`): the box is linked in as
/// entity -1, the areas of its chain of links are read, newest first, up to
/// `maxareas` of them, and the links are taken out again.  Every link is
/// then where it was, and the entity lists of the areas keep their order.
pub fn AAS_BBoxAreas(h: &mut AasLinks, w: &aas_s, sides: &Vec<i32>, maxareas: i32) -> (areas: Vec<i32>)
    requires
        old(h).wf(),
        w.loaded ==> link_tree_ready(*w, sides@, *old(h)),
        maxareas >= 1,
    ensures
        final(h).wf(),
        !w.loaded ==> areas@.len() == 0,
        w.loaded ==> exists|cs: Seq<int>, c: Seq<int>, hl: AasLinks, end: LinkEnd|
            #[trigger] entity_linked(*old(h), hl, *w, sides@, -1i32, head_of(cs) as i32, end, cs, c)
            && areas@.len() == if c.len() < maxareas { c.len() as int } else { maxareas as int }
            && forall|j: int| 0 <= j < areas@.len() ==> #[trigger] areas@[j] == c[c.len() - 1 - j],
        final(h).owner@ == old(h).owner@,
        final(h).numaaslinks == old(h).numaaslinks,
        final(h).linkheap@.len() == old(h).linkheap@.len(),
        final(h).area_lists@.len() == old(h).area_lists@.len(),
        forall|y: int, z: int| 0 <= y < old(h).linkheap@.len() && 0 <= z < old(h).linkheap@.len()
            && 0 <= old(h).owner@[y] && old(h).owner@[y] == old(h).owner@[z] ==>
            (#[trigger] final(h).index@[y] < #[trigger] final(h).index@[z] <==> old(h).index@[y] < old(h).index@[z]),
{
    let ghost h0 = *h;
    let (head, end) = AAS_AASLinkEntity(h, w, sides, -1);
    let ghost hl = *h;
    let ghost (cs, c) = if w.loaded {
        choose|cs: Seq<int>, c: Seq<int>| #[trigger] entity_linked(h0, hl, *w, sides@, -1i32, head, end, cs, c)
    } else {
        (Seq::<int>::empty(), Seq::<int>::empty())
    };
    proof {
        if !w.loaded {
            assert(linking(h0, hl, -1i32, head, cs, c)) by {
                assert(h0.free@.skip(0) =~= h0.free@);
            }
        }
        assert(linking(h0, hl, -1i32, head, cs, c));
    }
    let mut areas: Vec<i32> = Vec::new();
    let mut link = head;
    let ghost mut k: int = 0;
    while link != NO_LINK
        invariant_except_break
            areas@.len() < maxareas,
            link as int == if k < cs.len() { cs[k] } else { -1 },
        invariant
            *h == hl,
            h0.wf(),
            linking(h0, hl, -1i32, head, cs, c),
            0 <= k <= cs.len(),
            areas@.len() == k,
            k <= maxareas,
            forall|j: int| 0 <= j < k ==> #[trigger] areas@[j] == c[c.len() - 1 - j],
        ensures
            *h == hl,
            areas@.len() == if c.len() < maxareas { c.len() as int } else { maxareas as int },
            forall|j: int| 0 <= j < areas@.len() ==> #[trigger] areas@[j] == c[c.len() - 1 - j],
        decreases cs.len() - k,
    {
        proof {
            if k >= cs.len() {
                assert(false);
            }
            let y = cs[k];
            assert(h.placed(y));
            assert(h.owner@[y] == c[c.len() - 1 - k]);
        }
        let l = h.linkheap[link as usize];
        areas.push(l.areanum);
        proof {
            k = k + 1;
        }
        if areas.len() >= maxareas as usize {
            break;
        }
        link = l.next_area;
    }
    proof {
        assert(area_chain(hl, head, cs));
    }
    AAS_UnlinkFromAreas(h, head);
    proof {
        assert forall|y: int| 0 <= y < h0.linkheap@.len() implies #[trigger] h.owner@[y] == h0.owner@[y] by {
            if cs.contains(y) {
                let j = choose|j: int| 0 <= j < cs.len() && cs[j] == y;
                assert(h0.owner@[cs[j]] == -1);
            } else {
                assert(hl.owner@[y] == h0.owner@[y]);
            }
        }
        assert(h.owner@ =~= h0.owner@);
        assert(h.free@.len() == cs.len() + hl.free@.len());
        assert(hl.free@ == h0.free@.skip(c.len() as int));
        assert forall|y: int, z: int| 0 <= y < h0.linkheap@.len() && 0 <= z < h0.linkheap@.len()
            && 0 <= h0.owner@[y] && h0.owner@[y] == h0.owner@[z] implies
            (#[trigger] h.index@[y] < #[trigger] h.index@[z] <==> h0.index@[y] < h0.index@[z]) by {
            lemma_linking_order(h0, hl, -1i32, head, cs, c, y, z);
        }
        if w.loaded {
            assert(entity_linked(h0, hl, *w, sides@, -1i32, head_of(cs) as i32, end, cs, c));
        }
    }
    areas
}

/// Checks `link_tree_ready`: the node tree can be walked for linking, with
/// a side for every node, every child after its parent, a solid leaf, or
/// an area with an entity list.
pub fn AAS_LinkTreeReady(w: &aas_s, sides: &Vec<i32>, h: &AasLinks) -> (r: bool)
    requires
        h.wf(),
    ensures
        r == link_tree_ready(*w, sides@, *h),
{
    let nn = w.nodes.len();
    let na = h.arealinkedentities.len();
    if nn < 2 || nn > 0x7fff_ffff || na > 0x7fff_ffff || sides.len() < nn {
        return false;
    }
    let mut n: usize = 1;
    while n < nn
        invariant
            nn == w.nodes@.len(),
            2 <= nn <= 0x7fff_ffff,
            na == h.area_lists@.len(),
            na <= 0x7fff_ffff,
            1 <= n <= nn,
            forall|m: int| 1 <= m < n ==> {
                &&& child_ok(*w, m, #[trigger] w.nodes@[m].child0 as int, *h)
                &&& child_ok(*w, m, w.nodes@[m].child1 as int, *h)
            },
        decreases nn - n,
    {
        let c0 = w.nodes[n].child0;
        let c1 = w.nodes[n].child1;
        let ok0 = (c0 > n as i32 && (c0 as usize) < nn) || c0 == 0 || (c0 < 0 && c0 > i32::MIN && ((-c0) as usize) < na);
        let ok1 = (c1 > n as i32 && (c1 as usize) < nn) || c1 == 0 || (c1 < 0 && c1 > i32::MIN && ((-c1) as usize) < na);
        if !ok0 || !ok1 {
            return false;
        }
        proof {
            assert(child_ok(*w, n as int, c0 as int, *h));
            assert(child_ok(*w, n as int, c1 as int, *h));
            assert forall|m: int| 1 <= m < n + 1 implies {
                &&& child_ok(*w, m, #[trigger] w.nodes@[m].child0 as int, *h)
                &&& child_ok(*w, m, w.nodes@[m].child1 as int, *h)
            } by {
                if m < n {
                    assert(child_ok(*w, m, w.nodes@[m].child0 as int, *h));
                }
            }
        }
        n = n + 1;
    }
    true
}

} // verus!
