//! Checking the chains of links of the entities: every entity's links into
//! the areas form a chain of links that lie in area lists, and no link is in
//! the chains of two entities.
use vstd::prelude::*;
use crate::entity::{aas_entity_t, chain_of, entity_chains, has_chain};
use crate::links::{area_chain, ent_list, head_of, next_in, prev_in, AasLinks, NO_LINK};

verus! {

/// A chain of links is fixed by its head.
pub proof fn lemma_chain_unique(h: AasLinks, head: i32, s1: Seq<int>, s2: Seq<int>)
    requires
        area_chain(h, head, s1),
        area_chain(h, head, s2),
    ensures
        s1 == s2,
{
    assert forall|i: int| 0 <= i < s1.len() && 0 <= i < s2.len() implies s1[i] == s2[i] by {
        lemma_chain_prefix(h, head, s1, s2, i);
    }
    if s1.len() < s2.len() {
        let k = s1.len() - 1;
        if k >= 0 {
            lemma_chain_prefix(h, head, s1, s2, k);
            assert(h.linkheap@[s1[k]].next_area as int == next_in(s1, k));
            assert(h.linkheap@[s2[k]].next_area as int == next_in(s2, k));
        } else {
            assert(head as int == head_of(s2));
            assert(0 <= s2[0]);
        }
        assert(false);
    } else if s2.len() < s1.len() {
        let k = s2.len() - 1;
        if k >= 0 {
            lemma_chain_prefix(h, head, s1, s2, k);
            assert(h.linkheap@[s1[k]].next_area as int == next_in(s1, k));
            assert(h.linkheap@[s2[k]].next_area as int == next_in(s2, k));
        } else {
            assert(head as int == head_of(s1));
            assert(0 <= s1[0]);
        }
        assert(false);
    }
    assert(s1 =~= s2);
}

/// Two chains of one head agree up to position `i`.
proof fn lemma_chain_prefix(h: AasLinks, head: i32, s1: Seq<int>, s2: Seq<int>, i: int)
    requires
        area_chain(h, head, s1),
        area_chain(h, head, s2),
        0 <= i < s1.len(),
        0 <= i < s2.len(),
    ensures
        s1[i] == s2[i],
    decreases i,
{
    if i == 0 {
        assert(head as int == head_of(s1));
        assert(head as int == head_of(s2));
    } else {
        lemma_chain_prefix(h, head, s1, s2, i - 1);
        assert(h.linkheap@[s1[i - 1]].next_area as int == next_in(s1, i - 1));
        assert(h.linkheap@[s2[i - 1]].next_area as int == next_in(s2, i - 1));
    }
}

/// Link `x` lies in an area list: in that of its area.
fn link_in_area_list(h: &AasLinks, x: usize) -> (r: bool)
    requires
        h.wf(),
        x < h.linkheap@.len(),
    ensures
        r == (0 <= h.owner@[x as int] < h.area_lists@.len()),
{
    proof {
        assert(h.placed(x as int));
    }
    let a = h.linkheap[x].areanum;
    if a < 0 || a as usize >= h.arealinkedentities.len() {
        proof {
            let own = h.owner@[x as int];
            if 0 <= own < h.area_lists@.len() {
                let i = h.index@[x as int];
                assert(h.area_lists@[own][i] == x as int);
                assert(h.linkheap@[h.area_lists@[own][i]].areanum == own);
            }
        }
        return false;
    }
    let ghost l = h.area_lists@[a as int];
    proof {
        assert(ent_list(h.linkheap@, h.arealinkedentities@[a as int], l));
    }
    let mut y = h.arealinkedentities[a as usize];
    let ghost mut i: int = 0;
    while y != NO_LINK
        invariant
            h.wf(),
            0 <= a < h.area_lists@.len(),
            l == h.area_lists@[a as int],
            ent_list(h.linkheap@, h.arealinkedentities@[a as int], l),
            0 <= i <= l.len(),
            y as int == if i < l.len() { l[i] } else { -1 },
            forall|k: int| 0 <= k < i ==> l[k] != x as int,
        decreases l.len() - i,
    {
        proof {
            if i >= l.len() {
                assert(false);
            }
            assert(0 <= l[i] < h.linkheap@.len());
        }
        if y as usize == x {
            proof {
                assert(h.owner@[l[i]] == a);
            }
            return true;
        }
        y = h.linkheap[y as usize].next_ent;
        proof {
            assert(h.linkheap@[l[i]].next_ent as int == next_in(l, i));
            i = i + 1;
        }
    }
    proof {
        if i < l.len() {
            assert(0 <= l[i]);
        }
        let own = h.owner@[x as int];
        if 0 <= own < h.area_lists@.len() {
            let j = h.index@[x as int];
            assert(h.area_lists@[own][j] == x as int);
            assert(h.linkheap@[h.area_lists@[own][j]].areanum == own);
            assert(own == a);
            assert(l[j] != x as int);
        }
    }
    false
}

/// The links `s` were met following `next_area` from `head`, every one in
/// range, linked back to the one before, in an area list and met once, and
/// the link after the last is `y`.
pub open spec fn walked(h: AasLinks, head: i32, s: Seq<int>, y: int) -> bool {
    &&& head as int == (if s.len() > 0 { s[0] } else { y })
    &&& forall|k: int| 0 <= k < s.len() ==> {
        &&& 0 <= #[trigger] s[k] < h.linkheap@.len()
        &&& h.linkheap@[s[k]].next_area as int == (if k + 1 < s.len() { s[k + 1] } else { y })
        &&& h.linkheap@[s[k]].prev_area as int == prev_in(s, k)
        &&& 0 <= h.owner@[s[k]] < h.area_lists@.len()
    }
    &&& forall|i: int, j: int| 0 <= i < j < s.len() ==> #[trigger] s[i] != #[trigger] s[j]
}

/// A chain of links from `head` goes on as the links walked so far.
proof fn lemma_walked_prefix(h: AasLinks, head: i32, s: Seq<int>, y: int, c: Seq<int>, k: int)
    requires
        walked(h, head, s, y),
        area_chain(h, head, c),
        0 <= k <= s.len(),
    ensures
        c.len() >= k,
        forall|j: int| 0 <= j < k ==> c[j] == s[j],
        k < s.len() ==> c.len() > k && c[k] == s[k],
        k == s.len() ==> (c.len() > k && c[k] == y) || (c.len() == k && y == -1),
    decreases k,
{
    if k == 0 {
        assert(head as int == head_of(c));
        if c.len() == 0 {
            if s.len() > 0 {
                assert(0 <= s[0]);
            }
        }
    } else {
        lemma_walked_prefix(h, head, s, y, c, k - 1);
        assert(h.linkheap@[c[k - 1]].next_area as int == next_in(c, k - 1));
        assert(h.linkheap@[s[k - 1]].next_area as int == (if k < s.len() { s[k] } else { y }));
        if k < s.len() {
            assert(0 <= s[k]);
        }
    }
}

/// The links walked to the end form the chain of links from `head`.
proof fn lemma_walked_chain(h: AasLinks, head: i32, s: Seq<int>)
    requires
        walked(h, head, s, -1),
    ensures
        area_chain(h, head, s),
        has_chain(h, head),
        chain_of(h, head) == s,
{
    assert(area_chain(h, head, s)) by {
        assert forall|k: int| 0 <= k < s.len() implies h.linkheap@[s[k]].next_area as int == next_in(s, k) by {}
    }
    let c = chain_of(h, head);
    assert(area_chain(h, head, c));
    lemma_chain_unique(h, head, c, s);
}

/// Distinct integers in `[0, n)` are at most `n`.
proof fn lemma_distinct_bound(s: Seq<int>, n: int)
    requires
        0 <= n,
        forall|k: int| 0 <= k < s.len() ==> 0 <= #[trigger] s[k] < n,
        forall|i: int, j: int| 0 <= i < j < s.len() ==> #[trigger] s[i] != #[trigger] s[j],
    ensures
        s.len() <= n,
{
    assert(s.no_duplicates()) by {
        assert forall|i: int, j: int| 0 <= i < s.len() && 0 <= j < s.len() && i != j implies s[i] != s[j] by {
            if j < i {
                assert(s[j] != s[i]);
            }
        }
    }
    s.unique_seq_to_set();
    vstd::set_lib::lemma_int_range(0, n);
    assert(s.to_set().subset_of(vstd::set_lib::set_int_range(0, n))) by {
        assert forall|z: int| s.to_set().contains(z) implies vstd::set_lib::set_int_range(0, n).contains(z) by {
            let k = choose|k: int| 0 <= k < s.len() && s[k] == z;
            assert(0 <= s[k] < n);
        }
    }
    vstd::set_lib::lemma_len_subset(s.to_set(), vstd::set_lib::set_int_range(0, n));
}

/// Follows the chain of links from `head`, marking each link met with `e`.
/// Succeeds when the links form a chain whose links were all unmarked;
/// fails when there is no chain, or its links meet a mark.
fn mark_chain(h: &AasLinks, head: i32, marks: &mut Vec<usize>, e: usize) -> (r: bool)
    requires
        h.wf(),
        old(marks)@.len() == h.linkheap@.len(),
        forall|z: int| 0 <= z < old(marks)@.len() ==> #[trigger] old(marks)@[z] != usize::MAX ==> old(marks)@[z] < e,
    ensures
        final(marks)@.len() == old(marks)@.len(),
        r ==> has_chain(*h, head),
        r ==> forall|z: int| 0 <= z < final(marks)@.len() ==> #[trigger] final(marks)@[z]
            == (if chain_of(*h, head).contains(z) { e } else { old(marks)@[z] }),
        r ==> forall|z: int| #[trigger] chain_of(*h, head).contains(z) ==> 0 <= z < old(marks)@.len()
            && old(marks)@[z] == usize::MAX,
        !r ==> !has_chain(*h, head) || exists|z: int| #[trigger] chain_of(*h, head).contains(z)
            && 0 <= z < old(marks)@.len() && old(marks)@[z] != usize::MAX,
{
    let n = h.linkheap.len();
    let mut y = head;
    let mut prev: i32 = NO_LINK;
    let ghost mut s: Seq<int> = Seq::empty();
    let ghost m0 = marks@;
    while y != NO_LINK
        invariant
            h.wf(),
            n == h.linkheap@.len(),
            marks@.len() == n,
            m0 == old(marks)@,
            m0.len() == n,
            s.len() <= n,
            walked(*h, head, s, y as int),
            prev as int == (if s.len() > 0 { s[s.len() - 1] } else { -1 }),
            forall|z: int| 0 <= z < n ==> #[trigger] marks@[z] == (if s.contains(z) { e } else { m0[z] }),
            forall|z: int| 0 <= z < n ==> #[trigger] m0[z] != usize::MAX ==> m0[z] < e,
            forall|k: int| 0 <= k < s.len() ==> m0[#[trigger] s[k]] == usize::MAX,
        decreases n - s.len(),
    {
        if y < 0 || y as usize >= n {
            proof {
                if has_chain(*h, head) {
                    let c = chain_of(*h, head);
                    lemma_walked_prefix(*h, head, s, y as int, c, s.len() as int);
                    assert(0 <= c[s.len() as int]);
                }
            }
            return false;
        }
        let l = h.linkheap[y as usize];
        if l.prev_area != prev || !link_in_area_list(h, y as usize) {
            proof {
                if has_chain(*h, head) {
                    let c = chain_of(*h, head);
                    lemma_walked_prefix(*h, head, s, y as int, c, s.len() as int);
                    assert(h.linkheap@[c[s.len() as int]].prev_area as int == prev_in(c, s.len() as int));
                    if s.len() > 0 {
                        assert(c[s.len() - 1] == s[s.len() - 1]);
                    }
                }
            }
            return false;
        }
        let mk = marks[y as usize];
        if mk != usize::MAX {
            proof {
                if has_chain(*h, head) {
                    let c = chain_of(*h, head);
                    lemma_walked_prefix(*h, head, s, y as int, c, s.len() as int);
                    assert(c.contains(y as int));
                    if s.contains(y as int) {
                        let j = choose|j: int| 0 <= j < s.len() && s[j] == y as int;
                        assert(c[j] == s[j]);
                        assert(c[j] == c[s.len() as int]);
                    } else {
                        assert(m0[y as int] == mk);
                    }
                }
            }
            return false;
        }
        marks.set(y as usize, e);
        proof {
            let s2 = s.push(y as int);
            assert forall|i: int, j: int| 0 <= i < j < s2.len() implies #[trigger] s2[i] != #[trigger] s2[j] by {
                if j == s.len() {
                    if s2[i] == y as int {
                        assert(s.contains(y as int));
                    }
                }
            }
            assert forall|z: int| 0 <= z < n implies #[trigger] marks@[z] == (if s2.contains(z) { e } else { m0[z] }) by {
                if z == y as int {
                    assert(s2[s.len() as int] == z);
                } else if s2.contains(z) {
                    let j = choose|j: int| 0 <= j < s2.len() && s2[j] == z;
                    assert(s.contains(z));
                } else if s.contains(z) {
                    let j = choose|j: int| 0 <= j < s.len() && s[j] == z;
                    assert(s2[j] == z);
                }
            }
            if !s.contains(y as int) {
                assert(m0[y as int] == usize::MAX);
            }
            lemma_distinct_bound(s2, n as int);
            s = s2;
        }
        prev = y;
        y = l.next_area;
    }
    proof {
        lemma_walked_chain(*h, head, s);
    }
    true
}

/// Whether every entity's links form a chain of links in area lists, and
/// no link is in the chains of two entities (what the entity updates and
/// unlinking rely on).
pub fn AAS_EntityChainsReady(h: &AasLinks, ents: &Vec<aas_entity_t>) -> (r: bool)
    requires
        h.wf(),
    ensures
        r == entity_chains(*h, ents@),
{
    let n = h.linkheap.len();
    let mut marks: Vec<usize> = Vec::new();
    while marks.len() < n
        invariant
            n == h.linkheap@.len(),
            marks@.len() <= n,
            forall|z: int| 0 <= z < marks@.len() ==> #[trigger] marks@[z] == usize::MAX,
        decreases n - marks@.len(),
    {
        marks.push(usize::MAX);
    }
    let mut e: usize = 0;
    while e < ents.len()
        invariant
            h.wf(),
            n == h.linkheap@.len(),
            marks@.len() == n,
            e <= ents@.len(),
            forall|k: int| 0 <= k < e ==> #[trigger] has_chain(*h, ents@[k].areas),
            forall|z: int| 0 <= z < n ==> #[trigger] marks@[z] != usize::MAX ==> marks@[z] < e
                && chain_of(*h, ents@[marks@[z] as int].areas).contains(z),
            forall|k: int, z: int| #![trigger chain_of(*h, ents@[k].areas).contains(z)]
                0 <= k < e && chain_of(*h, ents@[k].areas).contains(z) ==> 0 <= z < n && marks@[z] == k,
        decreases ents@.len() - e,
    {
        let ghost m0 = marks@;
        let ok = mark_chain(h, ents[e].areas, &mut marks, e);
        if !ok {
            proof {
                let c = chain_of(*h, ents@[e as int].areas);
                if has_chain(*h, ents@[e as int].areas) {
                    let z = choose|z: int| #[trigger] c.contains(z) && 0 <= z < m0.len() && m0[z] != usize::MAX;
                    let k = m0[z] as int;
                    assert(chain_of(*h, ents@[k].areas).contains(z));
                    assert(k != e as int);
                }
            }
            return false;
        }
        proof {
            let c = chain_of(*h, ents@[e as int].areas);
            assert forall|z: int| 0 <= z < n && #[trigger] marks@[z] != usize::MAX implies marks@[z] < e + 1
                && chain_of(*h, ents@[marks@[z] as int].areas).contains(z) by {
                if c.contains(z) {
                } else {
                    assert(m0[z] != usize::MAX);
                }
            }
            assert forall|k: int, z: int| #![trigger chain_of(*h, ents@[k].areas).contains(z)]
                0 <= k < e + 1 && chain_of(*h, ents@[k].areas).contains(z) implies 0 <= z < n && marks@[z] == k by {
                if k < e {
                    assert(m0[z] == k);
                    if c.contains(z) {
                        assert(m0[z] == usize::MAX);
                    }
                }
            }
        }
        e += 1;
    }
    proof {
        assert forall|e1: int, e2: int, y: int| 0 <= e1 < ents@.len() && 0 <= e2 < ents@.len()
            && #[trigger] chain_of(*h, ents@[e1].areas).contains(y) && #[trigger] chain_of(*h, ents@[e2].areas).contains(y)
            implies e1 == e2 by {
            assert(marks@[y] == e1);
            assert(marks@[y] == e2);
        }
    }
    true
}

} // verus!
