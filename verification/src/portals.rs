//! Finding possible cluster portals: groups of grounded areas, closed under
//! going to neighbors with fewer presence types, whose outer faces lie on
//! two planes that separate two connected sets of areas.
use vstd::prelude::*;
use crate::aasfile::{FACE_SOLID, AREA_GROUNDED, AREACONTENTS_CLUSTERPORTAL, AREACONTENTS_ROUTEPORTAL};
use crate::aasworld::aas_s;
use crate::cluster::{ClusterError, num_areas, graph_wf, area_face, is_portal_area};

verus! {

/// The most areas a portal may be made of.
pub const MAX_PORTALAREAS: usize = 1024;

/// Face `f` is solid: there is nothing at its other side.
pub open spec fn face_solid(w: aas_s, f: int) -> bool {
    w.faces@[f].faceflags & FACE_SOLID != 0
}

/// The area at the other side of face `f` seen from area `x`.
pub open spec fn other_side(w: aas_s, f: int, x: int) -> int {
    if w.faces@[f].frontarea != x { w.faces@[f].frontarea as int } else { w.faces@[f].backarea as int }
}

/// Presence type `q` has fewer presence types than `p`: its bits are a
/// strict part of those of `p`.
pub open spec fn fewer_presence(p: i32, q: i32) -> bool {
    (p & !q) != 0 && (q & !p) == 0
}

/// The `t`-th face of area `x` is no solid face and leads to area `y`.
pub open spec fn face_step(w: aas_s, x: int, t: int, y: int) -> bool {
    &&& 0 <= t < w.areas@[x].numfaces
    &&& !face_solid(w, area_face(w, x, t))
    &&& other_side(w, area_face(w, x, t), x) == y
}

/// Through its `t`-th face area `x` leads to area `y`, which has fewer
/// presence types.
pub open spec fn less_step(w: aas_s, x: int, t: int, y: int) -> bool {
    &&& face_step(w, x, t, y)
    &&& fewer_presence(w.areasettings@[x].presencetype, w.areasettings@[y].presencetype)
}

/// No area occurs twice in `s`.
pub open spec fn distinct_areas(s: Seq<i32>) -> bool {
    forall|i: int, j: int| 0 <= i < j < s.len() ==> #[trigger] s[i] != #[trigger] s[j]
}

/// Every area of `s` is an area number.
pub open spec fn areas_in_range(w: aas_s, s: Seq<i32>) -> bool {
    forall|i: int| 0 <= i < s.len() ==> 0 <= #[trigger] s[i] < num_areas(w)
}

/// Each area of `s` after position `from` is reached by a step to fewer
/// presence types from an area before it, from position `from` on.
pub open spec fn less_parents(w: aas_s, s: Seq<i32>, from: int) -> bool {
    forall|j: int| from < j < s.len() ==> #[trigger] has_less_parent(w, s, from, j)
}

/// The area at position `j` of `s` is reached by a step to fewer presence
/// types from an area at a position from `from` on and before `j`.
pub open spec fn has_less_parent(w: aas_s, s: Seq<i32>, from: int, j: int) -> bool {
    exists|i: int, t: int| from <= i < j && #[trigger] less_step(w, s[i] as int, t, s[j] as int)
}

/// Every step to fewer presence types from an area of `s` after position
/// `from` leads to an area of `s`.
pub open spec fn less_closed(w: aas_s, s: Seq<i32>, from: int) -> bool {
    forall|i: int, t: int, y: int| from <= i < s.len() && #[trigger] less_step(w, s[i] as int, t, y) ==>
        s.contains(y as i32)
}

/// Adds area `curareanum` and, recursively, every area that a solid-free
/// face of an added area leads to and that has fewer presence types, to
/// `areanums` (`AAS_GetAdjacentAreasWithLessPresenceTypes_r`). No area is
/// added twice. There may be no more than `MAX_PORTALAREAS` areas; the
/// result is the number of areas.
pub fn AAS_GetAdjacentAreasWithLessPresenceTypes_r(w: &aas_s, areanums: &mut Vec<i32>, curareanum: i32)
    -> (r: Result<i32, ClusterError>)
    requires
        graph_wf(*w),
        0 <= curareanum < num_areas(*w),
        old(areanums)@.len() < MAX_PORTALAREAS,
        distinct_areas(old(areanums)@),
        areas_in_range(*w, old(areanums)@),
        !old(areanums)@.contains(curareanum),
    ensures
        final(areanums)@.len() > old(areanums)@.len(),
        final(areanums)@.len() <= MAX_PORTALAREAS,
        final(areanums)@.subrange(0, old(areanums)@.len() as int) == old(areanums)@,
        final(areanums)@[old(areanums)@.len() as int] == curareanum,
        distinct_areas(final(areanums)@),
        areas_in_range(*w, final(areanums)@),
        less_parents(*w, final(areanums)@, old(areanums)@.len() as int),
        r is Ok ==> r == Ok::<i32, ClusterError>(final(areanums)@.len() as i32)
            && less_closed(*w, final(areanums)@, old(areanums)@.len() as int),
        r is Err ==> r == Err::<i32, ClusterError>(ClusterError::TooManyPortalAreas)
            && final(areanums)@.len() == MAX_PORTALAREAS
            && !less_closed(*w, final(areanums)@, old(areanums)@.len() as int),
    decreases MAX_PORTALAREAS - old(areanums)@.len(),
{
    let ghost start = old(areanums)@.len() as int;
    let ghost oa = old(areanums)@;
    areanums.push(curareanum);
    proof {
        assert(areanums@.subrange(0, start) =~= oa);
        assert forall|i: int, j: int| 0 <= i < j < areanums@.len() implies #[trigger] areanums@[i] != #[trigger] areanums@[j] by {
            if j == start {
                assert(oa.contains(areanums@[i]));
            }
        }
    }
    let a = curareanum as usize;
    let presencetype = w.areasettings[a].presencetype;
    let numfaces = w.areas[a].numfaces as usize;
    let firstface = w.areas[a].firstface as usize;
    proof {
        assert(0 <= w.areas@[a as int].numfaces);
    }
    let mut i: usize = 0;
    while i < numfaces
        invariant
            graph_wf(*w),
            a == curareanum,
            0 <= a < num_areas(*w),
            presencetype == w.areasettings@[a as int].presencetype,
            numfaces == w.areas@[a as int].numfaces,
            firstface == w.areas@[a as int].firstface,
            firstface + numfaces <= w.faceindex@.len(),
            i <= numfaces,
            start == oa.len(),
            oa == old(areanums)@,
            areanums@.len() > start,
            areanums@.len() <= MAX_PORTALAREAS,
            areanums@.subrange(0, start) == oa,
            areanums@[start] == curareanum,
            distinct_areas(areanums@),
            areas_in_range(*w, areanums@),
            less_parents(*w, areanums@, start),
            // the areas added after the current one are closed, and so are the
            // faces of the current one seen so far
            less_closed(*w, areanums@, start + 1),
            forall|t: int, y: int| 0 <= t < i && #[trigger] less_step(*w, a as int, t, y) ==> areanums@.contains(y as i32),
        decreases numfaces - i,
    {
        let fi = w.faceindex[firstface + i];
        proof {
            assert(-(w.faces@.len() as int) < w.faceindex@[firstface + i] < w.faces@.len());
        }
        let facenum: usize = if fi < 0 { (-fi) as usize } else { fi as usize };
        let face = w.faces[facenum];
        proof {
            assert(facenum == area_face(*w, a as int, i as int));
            assert(0 <= face.frontarea < num_areas(*w));
            assert(0 <= face.backarea < num_areas(*w));
        }
        //if the face is solid
        if face.faceflags & FACE_SOLID == 0 {
            //the area at the other side of the face
            let otherareanum = if face.frontarea != curareanum { face.frontarea } else { face.backarea };
            let otherpresencetype = w.areasettings[otherareanum as usize].presencetype;
            //if the other area has less presence types
            if (presencetype & !otherpresencetype) != 0 && (otherpresencetype & !presencetype) == 0 {
                proof {
                    assert(less_step(*w, a as int, i as int, otherareanum as int));
                }
                //check if the other area isn't already in the list
                let mut j: usize = 0;
                let numareas = areanums.len();
                while j < numareas
                    invariant
                        numareas == areanums@.len(),
                        j <= numareas,
                        forall|k: int| 0 <= k < j ==> areanums@[k] != otherareanum,
                    ensures
                        j <= numareas,
                        forall|k: int| 0 <= k < j ==> areanums@[k] != otherareanum,
                        j < numareas ==> areanums@[j as int] == otherareanum,
                    decreases numareas - j,
                {
                    if otherareanum == areanums[j] {
                        break;
                    }
                    j += 1;
                }
                //if the other area isn't already in the list
                if j == numareas {
                    proof {
                        assert(!areanums@.contains(otherareanum)) by {
                            if areanums@.contains(otherareanum) {
                                let k = choose|k: int| 0 <= k < areanums@.len() && areanums@[k] == otherareanum;
                                assert(areanums@[k] != otherareanum);
                            }
                        }
                    }
                    if numareas >= MAX_PORTALAREAS {
                        proof {
                            assert(!less_closed(*w, areanums@, start));
                        }
                        return Err(ClusterError::TooManyPortalAreas);
                    }
                    let ghost before = areanums@;
                    let r = AAS_GetAdjacentAreasWithLessPresenceTypes_r(w, areanums, otherareanum);
                    proof {
                        lemma_less_lists_extend(*w, before, areanums@, start, oa, curareanum, a as int, i as int, otherareanum as int);
                    }
                    match r {
                        Ok(_) => {},
                        Err(e) => {
                            proof {
                                lemma_less_not_closed(*w, before, areanums@, start);
                            }
                            return Err(e);
                        },
                    }
                    proof {
                        lemma_less_closed_extend(*w, before, areanums@, start, a as int, i as int);
                    }
                } else {
                    proof {
                        assert(areanums@.contains(otherareanum));
                        lemma_less_face_done(*w, areanums@, a as int, i as int);
                    }
                }
            } else {
                proof {
                    lemma_less_face_done(*w, areanums@, a as int, i as int);
                }
            }
        } else {
            proof {
                lemma_less_face_done(*w, areanums@, a as int, i as int);
            }
        }
        i += 1;
    }
    proof {
        assert forall|k: int, t: int, y: int| start <= k < areanums@.len() && #[trigger] less_step(*w, areanums@[k] as int, t, y) implies
            areanums@.contains(y as i32) by {
            if k == start {
                assert(areanums@[k] == curareanum);
                assert(0 <= t < numfaces);
            }
        }
    }
    Ok(areanums.len() as i32)
}

/// Facts on the faces of area `a` after face `i` was looked at: nothing
/// to do when the face leads nowhere new.
proof fn lemma_less_face_done(w: aas_s, s: Seq<i32>, a: int, i: int)
    ensures
        forall|y: int| #[trigger] less_step(w, a, i, y) && s.contains(other_side(w, area_face(w, a, i), a) as i32)
            ==> s.contains(y as i32),
{
}

/// A recursive call appended areas after `before`: the lists stay
/// distinct, in range, with parents, and the face of area `a` that led to
/// the call leads into the list.
proof fn lemma_less_lists_extend(w: aas_s, before: Seq<i32>, after: Seq<i32>, start: int, oa: Seq<i32>,
    cur: i32, a: int, i: int, y: int)
    requires
        before.len() > start,
        before[start] == cur,
        start == oa.len(),
        before.subrange(0, start) == oa,
        a == cur,
        less_parents(w, before, start),
        less_step(w, a, i, y),
        after.len() > before.len(),
        after.subrange(0, before.len() as int) == before,
        after[before.len() as int] == y,
        less_parents(w, after, before.len() as int),
    ensures
        after.subrange(0, start) == oa,
        after[start] == cur,
        less_parents(w, after, start),
        after.contains(y as i32),
{
    assert(after.subrange(0, start) =~= oa) by {
        assert forall|k: int| 0 <= k < start implies after[k] == oa[k] by {
            assert(after[k] == after.subrange(0, before.len() as int)[k]);
        }
    }
    assert(after[start] == after.subrange(0, before.len() as int)[start]);
    assert forall|j: int| start < j < after.len() implies #[trigger] has_less_parent(w, after, start, j) by {
        if j < before.len() {
            assert(after[j] == after.subrange(0, before.len() as int)[j]);
            assert(after[j] == before[j]);
            assert(has_less_parent(w, before, start, j));
            let (k, t) = choose|k: int, t: int| start <= k < j && #[trigger] less_step(w, before[k] as int, t, before[j] as int);
            assert(after[k] == after.subrange(0, before.len() as int)[k]);
            assert(after[k] == before[k]);
            assert(less_step(w, after[k] as int, t, after[j] as int));
        } else if j == before.len() {
            assert(after[start] == cur);
            assert(less_step(w, after[start] as int, i, after[j] as int));
        } else {
            assert(has_less_parent(w, after, before.len() as int, j));
            let (k, t) = choose|k: int, t: int| before.len() <= k < j && #[trigger] less_step(w, after[k] as int, t, after[j] as int);
            assert(less_step(w, after[k] as int, t, after[j] as int));
        }
    }
    assert(less_parents(w, after, start));
    assert(after[before.len() as int] == y);
}

/// A recursive call that stopped short leaves the whole list not closed.
proof fn lemma_less_not_closed(w: aas_s, before: Seq<i32>, after: Seq<i32>, start: int)
    requires
        0 <= start < before.len(),
        after.len() >= before.len(),
        after.subrange(0, before.len() as int) == before,
        !less_closed(w, after, before.len() as int),
    ensures
        !less_closed(w, after, start),
{
    let (k, t, y) = choose|k: int, t: int, y: int| before.len() <= k < after.len()
        && #[trigger] less_step(w, after[k] as int, t, y) && !after.contains(y as i32);
    assert(less_step(w, after[k] as int, t, y) && !after.contains(y as i32));
}

/// A recursive call that went through keeps the list closed after the
/// current area, and the face of `a` that led to it stays looked at.
proof fn lemma_less_closed_extend(w: aas_s, before: Seq<i32>, after: Seq<i32>, start: int, a: int, i: int)
    requires
        0 <= start < before.len(),
        after.len() > before.len(),
        after.subrange(0, before.len() as int) == before,
        less_closed(w, before, start + 1),
        less_closed(w, after, before.len() as int),
        forall|t: int, y: int| 0 <= t < i && #[trigger] less_step(w, a, t, y) ==> before.contains(y as i32),
    ensures
        less_closed(w, after, start + 1),
        forall|t: int, y: int| 0 <= t < i && #[trigger] less_step(w, a, t, y) ==> after.contains(y as i32),
{
    assert forall|y: int| #[trigger] before.contains(y as i32) implies after.contains(y as i32) by {
        let k = choose|k: int| 0 <= k < before.len() && before[k] == y as i32;
        assert(after[k] == after.subrange(0, before.len() as int)[k]);
    }
    assert forall|k: int, t: int, y: int| start + 1 <= k < after.len() && #[trigger] less_step(w, after[k] as int, t, y) implies
        after.contains(y as i32) by {
        if k < before.len() {
            assert(after[k] == after.subrange(0, before.len() as int)[k]);
            assert(before.contains(y as i32));
        }
    }
}

/// Position `j` of `s` holds the first occurrence of its area.
pub open spec fn first_pos(s: Seq<i32>, j: int) -> bool {
    forall|k: int| 0 <= k < j ==> s[k] != s[j]
}

/// From position `i` of `s` a solid-free face of its area leads to the
/// area at position `j`, the first position of that area.
pub open spec fn list_step(w: aas_s, s: Seq<i32>, i: int, j: int) -> bool {
    &&& 0 <= i < s.len()
    &&& 0 <= j < s.len()
    &&& first_pos(s, j)
    &&& exists|t: int| #[trigger] face_step(w, s[i] as int, t, s[j] as int)
}

/// `p` is a path of positions of `s`, each step a `list_step`.
pub open spec fn list_path(w: aas_s, s: Seq<i32>, p: Seq<int>) -> bool {
    &&& p.len() >= 1
    &&& 0 <= p[0] < s.len()
    &&& forall|k: int| 0 <= k < p.len() - 1 ==> #[trigger] list_step(w, s, p[k], p[k + 1])
}

/// A path of steps leads from position `i` of `s` to position `j`.
pub open spec fn list_reaches(w: aas_s, s: Seq<i32>, i: int, j: int) -> bool {
    exists|p: Seq<int>| #[trigger] list_path(w, s, p) && p[0] == i && p.last() == j
}

pub proof fn lemma_list_reaches_refl(w: aas_s, s: Seq<i32>, i: int)
    requires
        0 <= i < s.len(),
    ensures
        list_reaches(w, s, i, i),
{
    let p = seq![i];
    assert(list_path(w, s, p));
}

pub proof fn lemma_list_reaches_trans(w: aas_s, s: Seq<i32>, i: int, j: int, k: int)
    requires
        list_reaches(w, s, i, j),
        list_reaches(w, s, j, k),
    ensures
        list_reaches(w, s, i, k),
{
    let p1 = choose|p: Seq<int>| #[trigger] list_path(w, s, p) && p[0] == i && p.last() == j;
    let p2 = choose|p: Seq<int>| #[trigger] list_path(w, s, p) && p[0] == j && p.last() == k;
    let p = p1 + p2.subrange(1, p2.len() as int);
    assert forall|m: int| 0 <= m < p.len() - 1 implies #[trigger] list_step(w, s, p[m], p[m + 1]) by {
        if m < p1.len() - 1 {
            assert(list_step(w, s, p1[m], p1[m + 1]));
        } else if m == p1.len() - 1 {
            assert(p[m] == j);
            assert(p[m + 1] == p2[1]);
            assert(list_step(w, s, p2[0], p2[1]));
        } else {
            let m2 = m - p1.len() + 1;
            assert(p[m] == p2[m2]);
            assert(p[m + 1] == p2[m2 + 1]);
            assert(list_step(w, s, p2[m2], p2[m2 + 1]));
        }
    }
    assert(list_path(w, s, p));
    if p2.len() == 1 {
        assert(p.last() == p1.last());
    } else {
        assert(p.last() == p2.last());
    }
}

pub proof fn lemma_list_step_reaches(w: aas_s, s: Seq<i32>, i: int, j: int)
    requires
        list_step(w, s, i, j),
    ensures
        list_reaches(w, s, i, j),
{
    let p = seq![i, j];
    assert(list_path(w, s, p)) by {
        assert(list_step(w, s, p[0], p[1]));
    }
}

/// A set of positions closed under steps holds every position reached
/// from one of them.
pub proof fn lemma_closed_holds_reached(w: aas_s, s: Seq<i32>, v: Seq<bool>, i: int, j: int)
    requires
        v.len() == s.len(),
        0 <= i < s.len(),
        v[i],
        forall|x: int, y: int| 0 <= x < s.len() && v[x] && #[trigger] list_step(w, s, x, y) ==> v[y],
        list_reaches(w, s, i, j),
    ensures
        0 <= j < s.len() && v[j],
{
    let p = choose|p: Seq<int>| #[trigger] list_path(w, s, p) && p[0] == i && p.last() == j;
    lemma_closed_holds_path(w, s, v, p, 0);
}

proof fn lemma_closed_holds_path(w: aas_s, s: Seq<i32>, v: Seq<bool>, p: Seq<int>, m: int)
    requires
        v.len() == s.len(),
        list_path(w, s, p),
        0 <= m < p.len(),
        0 <= p[m] < s.len(),
        v[p[m]],
        forall|x: int, y: int| 0 <= x < s.len() && v[x] && #[trigger] list_step(w, s, x, y) ==> v[y],
    ensures
        0 <= p.last() < s.len() && v[p.last()],
    decreases p.len() - m,
{
    if m < p.len() - 1 {
        assert(list_step(w, s, p[m], p[m + 1]));
        lemma_closed_holds_path(w, s, v, p, m + 1);
    }
}

/// Number of positions of `v` that are false.
pub open spec fn count_false(v: Seq<bool>) -> nat
    decreases v.len(),
{
    if v.len() == 0 {
        0
    } else {
        count_false(v.drop_last()) + (if v.last() { 0nat } else { 1nat })
    }
}

pub proof fn lemma_count_false(v1: Seq<bool>, v2: Seq<bool>, x: int)
    requires
        v1.len() == v2.len(),
        forall|k: int| 0 <= k < v1.len() && v1[k] ==> #[trigger] v2[k],
    ensures
        count_false(v2) <= count_false(v1),
        0 <= x < v1.len() && !v1[x] && v2[x] ==> count_false(v2) < count_false(v1),
    decreases v1.len(),
{
    if v1.len() > 0 {
        let n = v1.len() - 1;
        assert forall|k: int| 0 <= k < v1.drop_last().len() && v1.drop_last()[k] implies #[trigger] v2.drop_last()[k] by {
            assert(v1[k]);
        }
        lemma_count_false(v1.drop_last(), v2.drop_last(), x);
        if v1[n] {
            assert(v2[n]);
        }
    }
}

/// Marks position `curarea` of `areanums` as connected, and recursively
/// every position that a solid-free face of a marked area leads to and that
/// is not marked yet (`AAS_ConnectedAreas_r`). A face leads to the first
/// position of the area at its other side.
pub fn AAS_ConnectedAreas_r(w: &aas_s, areanums: &Vec<i32>, connectedareas: &mut Vec<bool>, curarea: usize)
    requires
        graph_wf(*w),
        areas_in_range(*w, areanums@),
        old(connectedareas)@.len() == areanums@.len(),
        curarea < areanums@.len(),
        !old(connectedareas)@[curarea as int],
    ensures
        final(connectedareas)@.len() == areanums@.len(),
        final(connectedareas)@[curarea as int],
        forall|k: int| 0 <= k < areanums@.len() && old(connectedareas)@[k] ==> #[trigger] final(connectedareas)@[k],
        forall|k: int| 0 <= k < areanums@.len() && !old(connectedareas)@[k] && #[trigger] final(connectedareas)@[k] ==>
            list_reaches(*w, areanums@, curarea as int, k),
        forall|x: int, y: int| 0 <= x < areanums@.len() && !old(connectedareas)@[x] && final(connectedareas)@[x]
            && #[trigger] list_step(*w, areanums@, x, y) ==> final(connectedareas)@[y],
    decreases count_false(old(connectedareas)@),
{
    let ghost oc = old(connectedareas)@;
    let ghost s = areanums@;
    connectedareas.set(curarea, true);
    proof {
        lemma_count_false(oc, connectedareas@, curarea as int);
        lemma_list_reaches_refl(*w, s, curarea as int);
    }
    let a = areanums[curarea] as usize;
    proof {
        assert(0 <= areanums@[curarea as int] < num_areas(*w));
        assert(0 <= w.areas@[a as int].numfaces);
    }
    let numfaces = w.areas[a].numfaces as usize;
    let firstface = w.areas[a].firstface as usize;
    let numareas = areanums.len();
    let mut i: usize = 0;
    while i < numfaces
        invariant
            graph_wf(*w),
            areas_in_range(*w, s),
            s == areanums@,
            oc == old(connectedareas)@,
            numareas == s.len(),
            curarea < numareas,
            a == s[curarea as int],
            0 <= a < num_areas(*w),
            numfaces == w.areas@[a as int].numfaces,
            firstface == w.areas@[a as int].firstface,
            firstface + numfaces <= w.faceindex@.len(),
            i <= numfaces,
            connectedareas@.len() == numareas,
            connectedareas@[curarea as int],
            count_false(connectedareas@) < count_false(oc),
            forall|k: int| 0 <= k < numareas && oc[k] ==> #[trigger] connectedareas@[k],
            forall|k: int| 0 <= k < numareas && !oc[k] && #[trigger] connectedareas@[k] ==>
                list_reaches(*w, s, curarea as int, k),
            forall|x: int, y: int| 0 <= x < numareas && !oc[x] && connectedareas@[x] && x != curarea
                && #[trigger] list_step(*w, s, x, y) ==> connectedareas@[y],
            forall|y: int, t: int| 0 <= t < i && 0 <= y < numareas && first_pos(s, y)
                && #[trigger] face_step(*w, a as int, t, s[y] as int) ==> connectedareas@[y],
        decreases numfaces - i,
    {
        let fi = w.faceindex[firstface + i];
        proof {
            assert(-(w.faces@.len() as int) < w.faceindex@[firstface + i] < w.faces@.len());
        }
        let facenum: usize = if fi < 0 { (-fi) as usize } else { fi as usize };
        let face = w.faces[facenum];
        proof {
            assert(facenum == area_face(*w, a as int, i as int));
        }
        //if the face is solid
        if face.faceflags & FACE_SOLID == 0 {
            //get the area at the other side of the face
            let otherareanum = if face.frontarea != areanums[curarea] { face.frontarea } else { face.backarea };
            proof {
                assert(face_step(*w, a as int, i as int, otherareanum as int));
            }
            //check if the face is leading to one of the other areas
            let mut j: usize = 0;
            while j < numareas
                invariant
                    numareas == s.len(),
                    s == areanums@,
                    j <= numareas,
                    forall|k: int| 0 <= k < j ==> s[k] != otherareanum,
                ensures
                    j <= numareas,
                    forall|k: int| 0 <= k < j ==> s[k] != otherareanum,
                    j < numareas ==> s[j as int] == otherareanum,
                decreases numareas - j,
            {
                if areanums[j] == otherareanum {
                    break;
                }
                j += 1;
            }
            if j < numareas {
                proof {
                    assert(first_pos(s, j as int));
                    assert(face_step(*w, a as int, i as int, s[j as int] as int));
                    assert(list_step(*w, s, curarea as int, j as int));
                }
                //if the other area is not connected yet
                if !connectedareas[j] {
                    let ghost before = connectedareas@;
                    //recursively proceed with the other area
                    AAS_ConnectedAreas_r(w, areanums, connectedareas, j);
                    proof {
                        lemma_count_false(before, connectedareas@, 0);
                        lemma_list_step_reaches(*w, s, curarea as int, j as int);
                        assert forall|k: int| 0 <= k < numareas && !oc[k] && #[trigger] connectedareas@[k] implies
                            list_reaches(*w, s, curarea as int, k) by {
                            if !before[k] {
                                lemma_list_reaches_trans(*w, s, curarea as int, j as int, k);
                            }
                        }
                        assert forall|x: int, y: int| 0 <= x < numareas && !oc[x] && connectedareas@[x] && x != curarea
                            && #[trigger] list_step(*w, s, x, y) implies connectedareas@[y] by {
                            if before[x] {
                                assert(before[y]);
                            }
                        }
                    }
                }
            }
            proof {
                assert forall|y: int, t: int| 0 <= t < i + 1 && 0 <= y < numareas && first_pos(s, y)
                    && #[trigger] face_step(*w, a as int, t, s[y] as int) implies connectedareas@[y] by {
                    if t == i {
                        assert(s[y] == otherareanum);
                        if j < numareas {
                            assert(y == j) by {
                                if y < j {
                                } else if y > j {
                                    assert(s[j as int] == s[y]);
                                }
                            }
                        }
                    }
                }
            }
        } else {
            proof {
                assert forall|y: int, t: int| 0 <= t < i + 1 && 0 <= y < numareas && first_pos(s, y)
                    && #[trigger] face_step(*w, a as int, t, s[y] as int) implies connectedareas@[y] by {
                    if t == i {
                        assert(face_solid(*w, area_face(*w, a as int, i as int)));
                    }
                }
            }
        }
        i += 1;
    }
    proof {
        assert forall|x: int, y: int| 0 <= x < numareas && !oc[x] && connectedareas@[x]
            && #[trigger] list_step(*w, s, x, y) implies connectedareas@[y] by {
            if x == curarea {
                let t = choose|t: int| #[trigger] face_step(*w, s[x] as int, t, s[y] as int);
                assert(face_step(*w, a as int, t, s[y] as int));
            }
        }
    }
}

/// Tells whether the areas of `areanums` are connected
/// (`AAS_ConnectedAreas`): every position is reached from the first one by
/// steps through solid-free faces, each to the first position of the area
/// at the other side. An empty list is not connected.
pub fn AAS_ConnectedAreas(w: &aas_s, areanums: &Vec<i32>) -> (r: bool)
    requires
        graph_wf(*w),
        areas_in_range(*w, areanums@),
    ensures
        r <==> areanums@.len() >= 1 && forall|j: int| 0 <= j < areanums@.len() ==>
            #[trigger] list_reaches(*w, areanums@, 0, j),
{
    let numareas = areanums.len();
    if numareas < 1 {
        return false;
    }
    if numareas == 1 {
        proof {
            assert forall|j: int| 0 <= j < areanums@.len() implies #[trigger] list_reaches(*w, areanums@, 0, j) by {
                lemma_list_reaches_refl(*w, areanums@, 0);
            }
        }
        return true;
    }
    let mut connectedareas: Vec<bool> = Vec::new();
    let mut k: usize = 0;
    while k < numareas
        invariant
            k <= numareas,
            connectedareas@.len() == k,
            forall|m: int| 0 <= m < k ==> !#[trigger] connectedareas@[m],
        decreases numareas - k,
    {
        connectedareas.push(false);
        k += 1;
    }
    AAS_ConnectedAreas_r(w, areanums, &mut connectedareas, 0);
    let mut i: usize = 0;
    while i < numareas
        invariant
            i <= numareas,
            numareas == areanums@.len(),
            connectedareas@.len() == numareas,
            connectedareas@[0],
            forall|m: int| 0 <= m < i ==> #[trigger] connectedareas@[m],
            forall|m: int| 0 <= m < numareas && #[trigger] connectedareas@[m] ==> list_reaches(*w, areanums@, 0, m),
            forall|x: int, y: int| 0 <= x < numareas && connectedareas@[x]
                && #[trigger] list_step(*w, areanums@, x, y) ==> connectedareas@[y],
        decreases numareas - i,
    {
        if !connectedareas[i] {
            proof {
                assert(!list_reaches(*w, areanums@, 0, i as int)) by {
                    if list_reaches(*w, areanums@, 0, i as int) {
                        lemma_closed_holds_reached(*w, areanums@, connectedareas@, 0, i as int);
                    }
                }
            }
            return false;
        }
        i += 1;
    }
    proof {
        assert forall|j: int| 0 <= j < areanums@.len() implies #[trigger] list_reaches(*w, areanums@, 0, j) by {
            assert(connectedareas@[j]);
        }
    }
    true
}

//==================================================================
// the conditions on a group of areas that make a portal
//==================================================================

/// `g` is the group of areas reached from area `a` by steps to fewer
/// presence types, `a` first.
pub open spec fn less_group(w: aas_s, a: int, g: Seq<i32>) -> bool {
    &&& g.len() >= 1
    &&& g[0] == a
    &&& distinct_areas(g)
    &&& areas_in_range(w, g)
    &&& less_parents(w, g, 0)
    &&& less_closed(w, g, 0)
}

/// `g` holds the first `MAX_PORTALAREAS` areas of a group of areas with
/// fewer presence types around area `a` that does not fit in that many: a
/// step to fewer presence types leads out of it.
pub open spec fn cut_group(w: aas_s, a: int, g: Seq<i32>) -> bool {
    &&& g.len() == MAX_PORTALAREAS
    &&& g[0] == a
    &&& distinct_areas(g)
    &&& areas_in_range(w, g)
    &&& less_parents(w, g, 0)
    &&& !less_closed(w, g, 0)
}

/// The areas checked as a portal around area `a`: the whole group, or the
/// first `MAX_PORTALAREAS` areas of it when it was cut (`cut`).
pub open spec fn used_group(w: aas_s, a: int, g: Seq<i32>, cut: bool) -> bool {
    if cut { cut_group(w, a, g) } else { less_group(w, a, g) }
}

/// `g` may be checked as a portal around area `a`: a whole group, or a
/// cut one.
pub open spec fn portal_candidate(w: aas_s, a: int, g: Seq<i32>) -> bool {
    less_group(w, a, g) || cut_group(w, a, g)
}

/// Face `t` of the area at position `i` of group `g` is an outer face: no
/// solid face, and no other area of the group is at one of its sides.
#[verifier::opaque]
pub open spec fn outer_face(w: aas_s, g: Seq<i32>, i: int, t: int) -> bool {
    let f = area_face(w, g[i] as int, t);
    &&& 0 <= i < g.len()
    &&& 0 <= t < w.areas@[g[i] as int].numfaces
    &&& !face_solid(w, f)
    &&& forall|k: int| 0 <= k < g.len() && k != i ==>
        w.faces@[f].frontarea != #[trigger] g[k] && w.faces@[f].backarea != g[k]
}

pub proof fn lemma_outer_face_facts(w: aas_s, g: Seq<i32>, i: int, t: int)
    requires
        outer_face(w, g, i, t),
        graph_wf(w),
        areas_in_range(w, g),
    ensures
        0 <= i < g.len(),
        0 <= t < w.areas@[g[i] as int].numfaces,
        0 <= area_face(w, g[i] as int, t) < w.faces@.len(),
        !face_solid(w, area_face(w, g[i] as int, t)),
        face_planes_nonneg(w) ==> outer_plane(w, g, i, t) >= 0,
{
    reveal(outer_face);
    let a = g[i] as int;
    assert(0 <= a < num_areas(w));
    assert(0 <= w.areas@[a].numfaces);
    assert(-(w.faces@.len() as int) < w.faceindex@[w.areas@[a].firstface + t] < w.faces@.len());
    let pn = w.faces@[area_face(w, a, t)].planenum;
    assert(pn >= 0 ==> pn & !1i32 >= 0) by (bit_vector);
}

/// The plane of face `f`, either side.
pub open spec fn face_plane(w: aas_s, f: int) -> int {
    (w.faces@[f].planenum & !1i32) as int
}

/// The plane of an outer face.
pub open spec fn outer_plane(w: aas_s, g: Seq<i32>, i: int, t: int) -> int {
    face_plane(w, area_face(w, g[i] as int, t))
}

/// The area beyond an outer face.
pub open spec fn outer_other(w: aas_s, g: Seq<i32>, i: int, t: int) -> int {
    other_side(w, area_face(w, g[i] as int, t), g[i] as int)
}

/// No outer face of the group leads to a cluster portal area.
pub open spec fn outer_no_portal(w: aas_s, g: Seq<i32>) -> bool {
    forall|i: int, t: int| #[trigger] outer_face(w, g, i, t) ==> !is_portal_area(w, outer_other(w, g, i, t))
}

/// The outer faces of the group lie on the two planes `p1` and `p2`, and
/// every area of the group has outer faces on both.
pub open spec fn two_planes(w: aas_s, g: Seq<i32>, p1: int, p2: int) -> bool {
    &&& p1 != p2
    &&& forall|i: int, t: int| #[trigger] outer_face(w, g, i, t) ==>
        outer_plane(w, g, i, t) == p1 || outer_plane(w, g, i, t) == p2
    &&& forall|i: int| 0 <= i < g.len() ==> #[trigger] has_outer_on(w, g, i, p1) && has_outer_on(w, g, i, p2)
}

/// The area at position `i` of the group has an outer face on plane `p`.
pub open spec fn has_outer_on(w: aas_s, g: Seq<i32>, i: int, p: int) -> bool {
    exists|t: int| #[trigger] outer_face(w, g, i, t) && outer_plane(w, g, i, t) == p
}

/// Faces `f1` and `f2` have an edge in common.
pub open spec fn faces_share_edge(w: aas_s, f1: int, f2: int) -> bool {
    exists|e1: int, e2: int| 0 <= e1 < w.faces@[f1].numedges && 0 <= e2 < w.faces@[f2].numedges
        && #[trigger] crate::cluster::iabs(w.edgeindex@[w.faces@[f1].firstedge + e1] as int)
            == #[trigger] crate::cluster::iabs(w.edgeindex@[w.faces@[f2].firstedge + e2] as int)
}

/// No outer face on plane `p1` has an edge in common with an outer face on
/// plane `p2`.
pub open spec fn no_shared_edge(w: aas_s, g: Seq<i32>, p1: int, p2: int) -> bool {
    forall|i: int, t: int, i2: int, t2: int|
        #[trigger] outer_face(w, g, i, t) && outer_plane(w, g, i, t) == p1
            && #[trigger] outer_face(w, g, i2, t2) && outer_plane(w, g, i2, t2) == p2 ==>
        !faces_share_edge(w, area_face(w, g[i] as int, t), area_face(w, g[i2] as int, t2))
}

/// Area `v` lies beyond an outer face on plane `p`.
pub open spec fn beyond(w: aas_s, g: Seq<i32>, p: int, v: int) -> bool {
    exists|i: int, t: int| #[trigger] outer_face(w, g, i, t) && outer_plane(w, g, i, t) == p
        && outer_other(w, g, i, t) == v
}

/// `q` is a path of areas beyond plane `p`, each a solid-free face away
/// from the one before.
pub open spec fn beyond_path(w: aas_s, g: Seq<i32>, p: int, q: Seq<int>) -> bool {
    &&& q.len() >= 1
    &&& forall|k: int| 0 <= k < q.len() ==> #[trigger] beyond(w, g, p, q[k])
    &&& forall|k: int| 0 <= k < q.len() - 1 ==> #[trigger] face_adjacent(w, q[k], q[k + 1])
}

/// A solid-free face of area `x` leads to area `y`.
pub open spec fn face_adjacent(w: aas_s, x: int, y: int) -> bool {
    exists|t: int| #[trigger] face_step(w, x, t, y)
}

/// Every area beyond plane `p` is reached from area `s` by a path of areas
/// beyond plane `p`.
pub open spec fn beyond_connected_from(w: aas_s, g: Seq<i32>, p: int, s: int) -> bool {
    forall|v: int| #[trigger] beyond(w, g, p, v) ==>
        exists|q: Seq<int>| #[trigger] beyond_path(w, g, p, q) && q[0] == s && q.last() == v
}

/// Face `t` of the area at position `i` is the first outer face on plane
/// `p`: no outer face before it, in the order of the areas and of their
/// faces, lies on `p`.
pub open spec fn first_outer_on(w: aas_s, g: Seq<i32>, i: int, t: int, p: int) -> bool {
    &&& outer_face(w, g, i, t)
    &&& outer_plane(w, g, i, t) == p
    &&& forall|i2: int, t2: int| #[trigger] outer_face(w, g, i2, t2) && face_before(i2, t2, i, t)
        ==> outer_plane(w, g, i2, t2) != p
}

/// Area `v` lies beyond the first outer face on plane `p`.
pub open spec fn first_beyond(w: aas_s, g: Seq<i32>, p: int, v: int) -> bool {
    exists|i: int, t: int| #[trigger] first_outer_on(w, g, i, t, p) && outer_other(w, g, i, t) == v
}

/// The areas beyond plane `p` are connected from the area beyond the first
/// outer face on `p`, where `AAS_ConnectedAreas` starts.
pub open spec fn beyond_connected(w: aas_s, g: Seq<i32>, p: int) -> bool {
    forall|v: int| #[trigger] first_beyond(w, g, p, v) ==> beyond_connected_from(w, g, p, v)
}

/// Group `g` makes a portal between the planes `p1` and `p2`: no outer face
/// leads to a cluster portal area, the outer faces lie on the two planes and
/// every area has outer faces on both, the areas beyond each plane are
/// connected from the area beyond the first outer face on that plane, and
/// no outer face on one plane has an edge in common with one on the other.
pub open spec fn portal_group(w: aas_s, g: Seq<i32>, p1: int, p2: int) -> bool {
    &&& outer_no_portal(w, g)
    &&& two_planes(w, g, p1, p2)
    &&& beyond_connected(w, g, p1)
    &&& beyond_connected(w, g, p2)
    &&& no_shared_edge(w, g, p1, p2)
}

/// Every face lies on a plane number that is not negative.
pub open spec fn face_planes_nonneg(w: aas_s) -> bool {
    forall|f: int| 0 <= f < w.faces@.len() ==> 0 <= #[trigger] w.faces@[f].planenum
}

/// The number of the `t`-th face of area `a`.
fn area_face_number(w: &aas_s, a: usize, t: usize) -> (f: usize)
    requires
        graph_wf(*w),
        a < num_areas(*w),
        t < w.areas@[a as int].numfaces,
    ensures
        f == area_face(*w, a as int, t as int),
        f < w.faces@.len(),
{
    proof {
        assert(0 <= w.areas@[a as int].numfaces);
    }
    let k = w.areas[a].firstface as usize + t;
    proof {
        assert(-(w.faces@.len() as int) < w.faceindex@[k as int] < w.faces@.len());
    }
    let fi = w.faceindex[k];
    if fi < 0 { (-fi) as usize } else { fi as usize }
}

/// Tells whether faces `f1` and `f2` have an edge in common.
fn faces_share_edge_exec(w: &aas_s, f1: usize, f2: usize) -> (r: bool)
    requires
        graph_wf(*w),
        f1 < w.faces@.len(),
        f2 < w.faces@.len(),
    ensures
        r == faces_share_edge(*w, f1 as int, f2 as int),
{
    let face1 = w.faces[f1];
    let face2 = w.faces[f2];
    proof {
        assert(0 <= w.faces@[f1 as int].frontarea < num_areas(*w));
        assert(0 <= w.faces@[f2 as int].frontarea < num_areas(*w));
    }
    let n1 = face1.numedges as usize;
    let n2 = face2.numedges as usize;
    let first1 = face1.firstedge as usize;
    let first2 = face2.firstedge as usize;
    let mut e1: usize = 0;
    while e1 < n1
        invariant
            graph_wf(*w),
            f1 < w.faces@.len(),
            f2 < w.faces@.len(),
            face1 == w.faces@[f1 as int],
            face2 == w.faces@[f2 as int],
            n1 == face1.numedges,
            n2 == face2.numedges,
            first1 == face1.firstedge,
            first2 == face2.firstedge,
            first1 + n1 <= w.edgeindex@.len(),
            first2 + n2 <= w.edgeindex@.len(),
            e1 <= n1,
            forall|a1: int, a2: int| 0 <= a1 < e1 && 0 <= a2 < n2 ==>
                #[trigger] crate::cluster::iabs(w.edgeindex@[first1 + a1] as int)
                    != #[trigger] crate::cluster::iabs(w.edgeindex@[first2 + a2] as int),
        decreases n1 - e1,
    {
        let x1 = w.edgeindex[first1 + e1];
        proof {
            assert(-(w.edges@.len() as int) < w.edgeindex@[first1 + e1] < w.edges@.len());
        }
        let en1: i32 = if x1 < 0 { -x1 } else { x1 };
        let mut e2: usize = 0;
        while e2 < n2
            invariant
                graph_wf(*w),
                n2 == face2.numedges,
                first2 == face2.firstedge,
                face2 == w.faces@[f2 as int],
                face1 == w.faces@[f1 as int],
                f1 < w.faces@.len(),
                f2 < w.faces@.len(),
                first1 == face1.firstedge,
                e1 < n1,
                n1 == face1.numedges,
                first1 + n1 <= w.edgeindex@.len(),
                first2 + n2 <= w.edgeindex@.len(),
                en1 == crate::cluster::iabs(w.edgeindex@[first1 + e1] as int),
                e2 <= n2,
                forall|a2: int| 0 <= a2 < e2 ==>
                    en1 != #[trigger] crate::cluster::iabs(w.edgeindex@[first2 + a2] as int),
            decreases n2 - e2,
        {
            let x2 = w.edgeindex[first2 + e2];
            proof {
                assert(-(w.edges@.len() as int) < w.edgeindex@[first2 + e2] < w.edges@.len());
            }
            let en2: i32 = if x2 < 0 { -x2 } else { x2 };
            if en1 == en2 {
                proof {
                    assert(en2 == crate::cluster::iabs(w.edgeindex@[first2 + e2] as int));
                    assert(crate::cluster::iabs(w.edgeindex@[w.faces@[f1 as int].firstedge + e1] as int)
                        == crate::cluster::iabs(w.edgeindex@[w.faces@[f2 as int].firstedge + e2] as int));
                }
                return true;
            }
            e2 += 1;
        }
        e1 += 1;
    }
    proof {
        assert(!faces_share_edge(*w, f1 as int, f2 as int)) by {
            if faces_share_edge(*w, f1 as int, f2 as int) {
                let (a1, a2) = choose|a1: int, a2: int| 0 <= a1 < w.faces@[f1 as int].numedges
                    && 0 <= a2 < w.faces@[f2 as int].numedges
                    && #[trigger] crate::cluster::iabs(w.edgeindex@[w.faces@[f1 as int].firstedge + a1] as int)
                        == #[trigger] crate::cluster::iabs(w.edgeindex@[w.faces@[f2 as int].firstedge + a2] as int);
                assert(crate::cluster::iabs(w.edgeindex@[first1 + a1] as int)
                    != crate::cluster::iabs(w.edgeindex@[first2 + a2] as int));
            }
        }
    }
    false
}

/// Tells whether `v` holds `x`.
fn vec_contains(v: &Vec<i32>, x: i32) -> (r: bool)
    ensures
        r == v@.contains(x),
{
    let mut k: usize = 0;
    while k < v.len()
        invariant
            k <= v@.len(),
            forall|m: int| 0 <= m < k ==> v@[m] != x,
        decreases v@.len() - k,
    {
        if v[k] == x {
            proof {
                assert(v@[k as int] == x);
            }
            return true;
        }
        k += 1;
    }
    proof {
        if v@.contains(x) {
            let m = choose|m: int| 0 <= m < v@.len() && v@[m] == x;
            assert(v@[m] != x);
        }
    }
    false
}

/// Face `t` of the area at position `i` comes before position (`i2`, `t2`)
/// in the order the group's faces are looked at.
pub open spec fn face_before(i: int, t: int, i2: int, t2: int) -> bool {
    i < i2 || (i == i2 && t < t2)
}

/// `s` holds `x`; kept opaque so that knowing it does not start a search.
#[verifier::opaque]
pub open spec fn in_seq(s: Seq<i32>, x: i32) -> bool {
    s.contains(x)
}

/// An outer face before (`i`, `j`) lies on plane `p`.
pub open spec fn plane_seen(w: aas_s, g: Seq<i32>, i: int, j: int, p: int) -> bool {
    exists|i2: int, t2: int| #[trigger] outer_face(w, g, i2, t2) && face_before(i2, t2, i, j)
        && outer_plane(w, g, i2, t2) == p
}

/// The area at position `i2` has an outer face before (`i`, `j`) on plane `p`.
pub open spec fn area_seen_on(w: aas_s, g: Seq<i32>, i: int, j: int, i2: int, p: int) -> bool {
    exists|t2: int| #[trigger] outer_face(w, g, i2, t2) && face_before(i2, t2, i, j) && outer_plane(w, g, i2, t2) == p
}

/// Face number `f` is that of an outer face before (`i`, `j`) on plane `p`.
pub open spec fn face_seen(w: aas_s, g: Seq<i32>, i: int, j: int, p: int, f: int) -> bool {
    exists|i2: int, t2: int| #[trigger] outer_face(w, g, i2, t2) && face_before(i2, t2, i, j)
        && outer_plane(w, g, i2, t2) == p && f == area_face(w, g[i2] as int, t2)
}

/// Area `v` lies beyond an outer face before (`i`, `j`) on plane `p`.
pub open spec fn beyond_seen(w: aas_s, g: Seq<i32>, i: int, j: int, p: int, v: int) -> bool {
    exists|i2: int, t2: int| #[trigger] outer_face(w, g, i2, t2) && face_before(i2, t2, i, j)
        && outer_plane(w, g, i2, t2) == p && v == outer_other(w, g, i2, t2)
}

/// What the scan of the outer faces before (`i`, `j`) found: the front
/// plane `fp` and back plane `bp` (-1 when not found yet), the front and
/// back faces `ff` and `bf`, the areas beyond them `fa` and `ba`, and for
/// each area of the group whether it has front and back faces (`nf`, `nb`).
pub open spec fn scan_state(w: aas_s, g: Seq<i32>, i: int, j: int, fp: i32, bp: i32,
    ff: Seq<i32>, bf: Seq<i32>, fa: Seq<i32>, ba: Seq<i32>, nf: Seq<bool>, nb: Seq<bool>) -> bool {
    &&& fp == -1 || fp >= 0
    &&& bp == -1 || (bp >= 0 && fp >= 0 && bp != fp)
    &&& fp >= 0 ==> plane_seen(w, g, i, j, fp as int)
    &&& bp >= 0 ==> plane_seen(w, g, i, j, bp as int)
    &&& forall|i2: int, t2: int| #[trigger] outer_face(w, g, i2, t2) && face_before(i2, t2, i, j) ==> {
        &&& !is_portal_area(w, outer_other(w, g, i2, t2))
        &&& outer_plane(w, g, i2, t2) == fp || outer_plane(w, g, i2, t2) == bp
        &&& outer_plane(w, g, i2, t2) == fp ==> in_seq(ff, area_face(w, g[i2] as int, t2) as i32)
            && in_seq(fa, outer_other(w, g, i2, t2) as i32) && nf[i2]
        &&& outer_plane(w, g, i2, t2) == bp ==> in_seq(bf, area_face(w, g[i2] as int, t2) as i32)
            && in_seq(ba, outer_other(w, g, i2, t2) as i32) && nb[i2]
    }
    &&& forall|k: int| 0 <= k < ff.len() ==> face_seen(w, g, i, j, fp as int, #[trigger] ff[k] as int)
    &&& forall|k: int| 0 <= k < bf.len() ==> face_seen(w, g, i, j, bp as int, #[trigger] bf[k] as int)
    &&& forall|k: int| 0 <= k < fa.len() ==> beyond_seen(w, g, i, j, fp as int, #[trigger] fa[k] as int)
    &&& forall|k: int| 0 <= k < ba.len() ==> beyond_seen(w, g, i, j, bp as int, #[trigger] ba[k] as int)
    &&& distinct_areas(fa)
    &&& distinct_areas(ba)
    &&& nf.len() == g.len()
    &&& nb.len() == g.len()
    &&& forall|i2: int| 0 <= i2 < g.len() && #[trigger] nf[i2] ==> area_seen_on(w, g, i, j, i2, fp as int)
    &&& forall|i2: int| 0 <= i2 < g.len() && #[trigger] nb[i2] ==> area_seen_on(w, g, i, j, i2, bp as int)
}

/// What was seen before (`i`, `j`) was seen before (`i3`, `j3`), a later place.
pub proof fn lemma_seen_later(w: aas_s, g: Seq<i32>, i: int, j: int, i3: int, j3: int)
    requires
        face_before(i, j, i3, j3) || (i == i3 && j == j3),
    ensures
        forall|p: int| #[trigger] plane_seen(w, g, i, j, p) ==> plane_seen(w, g, i3, j3, p),
        forall|i2: int, p: int| #[trigger] area_seen_on(w, g, i, j, i2, p) ==> area_seen_on(w, g, i3, j3, i2, p),
        forall|p: int, f: int| #[trigger] face_seen(w, g, i, j, p, f) ==> face_seen(w, g, i3, j3, p, f),
        forall|p: int, v: int| #[trigger] beyond_seen(w, g, i, j, p, v) ==> beyond_seen(w, g, i3, j3, p, v),
{
    assert forall|p: int| #[trigger] plane_seen(w, g, i, j, p) implies plane_seen(w, g, i3, j3, p) by {
        let (i2, t2) = choose|i2: int, t2: int| #[trigger] outer_face(w, g, i2, t2) && face_before(i2, t2, i, j)
            && outer_plane(w, g, i2, t2) == p;
        assert(outer_face(w, g, i2, t2));
    }
    assert forall|i2: int, p: int| #[trigger] area_seen_on(w, g, i, j, i2, p) implies area_seen_on(w, g, i3, j3, i2, p) by {
        let t2 = choose|t2: int| #[trigger] outer_face(w, g, i2, t2) && face_before(i2, t2, i, j) && outer_plane(w, g, i2, t2) == p;
        assert(outer_face(w, g, i2, t2));
    }
    assert forall|p: int, f: int| #[trigger] face_seen(w, g, i, j, p, f) implies face_seen(w, g, i3, j3, p, f) by {
        let (i2, t2) = choose|i2: int, t2: int| #[trigger] outer_face(w, g, i2, t2) && face_before(i2, t2, i, j)
            && outer_plane(w, g, i2, t2) == p && f == area_face(w, g[i2] as int, t2);
        assert(outer_face(w, g, i2, t2));
    }
    assert forall|p: int, v: int| #[trigger] beyond_seen(w, g, i, j, p, v) implies beyond_seen(w, g, i3, j3, p, v) by {
        let (i2, t2) = choose|i2: int, t2: int| #[trigger] outer_face(w, g, i2, t2) && face_before(i2, t2, i, j)
            && outer_plane(w, g, i2, t2) == p && v == outer_other(w, g, i2, t2);
        assert(outer_face(w, g, i2, t2));
    }
}

/// Three outer faces of the group lie on three different planes.
pub open spec fn three_planes(w: aas_s, g: Seq<i32>) -> bool {
    exists|i1: int, t1: int, i2: int, t2: int, i3: int, t3: int|
        #[trigger] outer_face(w, g, i1, t1) && #[trigger] outer_face(w, g, i2, t2) && #[trigger] outer_face(w, g, i3, t3)
        && outer_plane(w, g, i1, t1) != outer_plane(w, g, i2, t2)
        && outer_plane(w, g, i1, t1) != outer_plane(w, g, i3, t3)
        && outer_plane(w, g, i2, t2) != outer_plane(w, g, i3, t3)
}

/// The lists of a scan have the right lengths and hold face and area
/// numbers.
spec fn scan_sane(w: aas_s, g: Seq<i32>, sc: PlaneScan) -> bool {
    &&& sc.hasfrontfaces@.len() == g.len()
    &&& sc.hasbackfaces@.len() == g.len()
    &&& areas_in_range(w, sc.frontareanums@)
    &&& areas_in_range(w, sc.backareanums@)
    &&& forall|k: int| 0 <= k < sc.frontfacenums@.len() ==> 0 <= #[trigger] sc.frontfacenums@[k] < w.faces@.len()
    &&& forall|k: int| 0 <= k < sc.backfacenums@.len() ==> 0 <= #[trigger] sc.backfacenums@[k] < w.faces@.len()
}

/// What the scan of the outer faces of a group found.
struct PlaneScan {
    frontplanenum: i32,
    backplanenum: i32,
    frontfacenums: Vec<i32>,
    backfacenums: Vec<i32>,
    frontareanums: Vec<i32>,
    backareanums: Vec<i32>,
    hasfrontfaces: Vec<bool>,
    hasbackfaces: Vec<bool>,
}

/// Sorts the outer faces of the group `areanums` into front faces, on the
/// plane of the first outer face, and back faces, on the first other plane.
/// Nothing comes out when an outer face leads to a cluster portal area or
/// lies on a third plane.
fn scan_outer_faces(w: &aas_s, areanums: &Vec<i32>) -> (r: Option<PlaneScan>)
    requires
        graph_wf(*w),
        areas_in_range(*w, areanums@),
        distinct_areas(areanums@),
    ensures
        r is None && face_planes_nonneg(*w) ==> !outer_no_portal(*w, areanums@) || three_planes(*w, areanums@),
        r matches Some(sc) ==> scan_sane(*w, areanums@, sc),
        r matches Some(sc) ==> (face_planes_nonneg(*w) ==> scan_state(*w, areanums@, areanums@.len() as int, 0,
            sc.frontplanenum, sc.backplanenum, sc.frontfacenums@, sc.backfacenums@, sc.frontareanums@,
            sc.backareanums@, sc.hasfrontfaces@, sc.hasbackfaces@)),
        r matches Some(sc) ==> (face_planes_nonneg(*w) ==>
            first_ok(*w, areanums@, areanums@.len() as int, 0, sc.frontplanenum, sc.frontareanums@)
            && first_ok(*w, areanums@, areanums@.len() as int, 0, sc.backplanenum, sc.backareanums@)),
{
    let ghost g = areanums@;
    let numareas = areanums.len();
    let mut fp: i32 = -1;
    let mut bp: i32 = -1;
    let mut ff: Vec<i32> = Vec::new();
    let mut bf: Vec<i32> = Vec::new();
    let mut fa: Vec<i32> = Vec::new();
    let mut ba: Vec<i32> = Vec::new();
    let mut nf: Vec<bool> = Vec::new();
    let mut nb: Vec<bool> = Vec::new();
    let mut k: usize = 0;
    while k < numareas
        invariant
            k <= numareas,
            nf@.len() == k,
            nb@.len() == k,
            forall|m: int| 0 <= m < k ==> !#[trigger] nf@[m] && !nb@[m],
        decreases numareas - k,
    {
        nf.push(false);
        nb.push(false);
        k += 1;
    }
    proof {
        assert forall|m: int| 0 <= m < g.len() implies !#[trigger] nf@[m] by {}
        assert forall|m: int| 0 <= m < g.len() implies !#[trigger] nb@[m] by {
            assert(!nf@[m] && !nb@[m]);
        }
        lemma_scan_start(*w, g, nf@, nb@);
    }
    let mut i: usize = 0;
    while i < numareas
        invariant
            graph_wf(*w),
            g == areanums@,
            numareas == g.len(),
            areas_in_range(*w, g),
            distinct_areas(g),
            i <= numareas,
            face_planes_nonneg(*w) ==> scan_state(*w, g, i as int, 0, fp, bp, ff@, bf@, fa@, ba@, nf@, nb@),
            face_planes_nonneg(*w) ==> first_ok(*w, g, i as int, 0, fp, fa@) && first_ok(*w, g, i as int, 0, bp, ba@),
            nf@.len() == g.len(),
            nb@.len() == g.len(),
            areas_in_range(*w, fa@),
            areas_in_range(*w, ba@),
            forall|k: int| 0 <= k < ff@.len() ==> 0 <= #[trigger] ff@[k] < w.faces@.len(),
            forall|k: int| 0 <= k < bf@.len() ==> 0 <= #[trigger] bf@[k] < w.faces@.len(),
        decreases numareas - i,
    {
        let a = areanums[i] as usize;
        proof {
            assert(0 <= g[i as int] < num_areas(*w));
            assert(0 <= w.areas@[a as int].numfaces);
        }
        let numfaces = w.areas[a].numfaces as usize;
        let mut j: usize = 0;
        while j < numfaces
            invariant
                graph_wf(*w),
                g == areanums@,
                numareas == g.len(),
                areas_in_range(*w, g),
                distinct_areas(g),
                i < numareas,
                a == g[i as int],
                a < num_areas(*w),
                numfaces == w.areas@[a as int].numfaces,
                j <= numfaces,
                face_planes_nonneg(*w) ==> scan_state(*w, g, i as int, j as int, fp, bp, ff@, bf@, fa@, ba@, nf@, nb@),
                face_planes_nonneg(*w) ==> first_ok(*w, g, i as int, j as int, fp, fa@)
                    && first_ok(*w, g, i as int, j as int, bp, ba@),
                nf@.len() == g.len(),
                nb@.len() == g.len(),
                areas_in_range(*w, fa@),
                areas_in_range(*w, ba@),
                forall|k: int| 0 <= k < ff@.len() ==> 0 <= #[trigger] ff@[k] < w.faces@.len(),
                forall|k: int| 0 <= k < bf@.len() ==> 0 <= #[trigger] bf@[k] < w.faces@.len(),
            decreases numfaces - j,
        {
            let ghost st = (fp, bp, ff@, bf@, fa@, ba@, nf@, nb@);
            let facenum = area_face_number(w, a, j);
            let face = w.faces[facenum];
            proof {
                assert(0 <= face.frontarea < num_areas(*w));
                assert(0 <= face.backarea < num_areas(*w));
            }
            let mut outer = face.faceflags & FACE_SOLID == 0;
            if outer {
                //check if the face is shared with one of the other areas
                let mut k: usize = 0;
                while k < numareas
                    invariant
                        g == areanums@,
                        numareas == g.len(),
                        k <= numareas,
                        forall|m: int| 0 <= m < k && m != i ==> face.frontarea != #[trigger] g[m] && face.backarea != g[m],
                    ensures
                        k <= numareas,
                        forall|m: int| 0 <= m < k && m != i ==> face.frontarea != #[trigger] g[m] && face.backarea != g[m],
                        k < numareas ==> k != i && (face.frontarea == g[k as int] || face.backarea == g[k as int]),
                    decreases numareas - k,
                {
                    if k != i && (face.frontarea == areanums[k] || face.backarea == areanums[k]) {
                        break;
                    }
                    k += 1;
                }
                outer = k == numareas;
            }
            proof {
                assert(outer == outer_face(*w, g, i as int, j as int)) by {
                    reveal(outer_face);
                }
            }
            if outer {
                //the number of the area at the other side of the face
                let otherareanum = if face.frontarea == areanums[i] { face.backarea } else { face.frontarea };
                proof {
                    assert(otherareanum == outer_other(*w, g, i as int, j as int));
                }
                //if the other area already is a cluster portal
                if w.areasettings[otherareanum as usize].contents & AREACONTENTS_CLUSTERPORTAL != 0 {
                    return None;
                }
                //number of the plane of the area
                let faceplanenum = face.planenum & !1i32;
                proof {
                    let pn = face.planenum;
                    assert(pn >= 0 ==> pn & !1i32 >= 0) by (bit_vector);
                    assert(faceplanenum == outer_plane(*w, g, i as int, j as int));
                    if face_planes_nonneg(*w) {
                        assert(0 <= w.faces@[facenum as int].planenum);
                    }
                }
                if fp < 0 || faceplanenum == fp {
                    fp = faceplanenum;
                    ff.push(facenum as i32);
                    if !vec_contains(&fa, otherareanum) {
                        fa.push(otherareanum);
                    }
                    nf.set(i, true);
                } else if bp < 0 || faceplanenum == bp {
                    bp = faceplanenum;
                    bf.push(facenum as i32);
                    if !vec_contains(&ba, otherareanum) {
                        ba.push(otherareanum);
                    }
                    nb.set(i, true);
                } else {
                    proof {
                        if face_planes_nonneg(*w) {
                            lemma_third_plane(*w, g, i as int, j as int, st.0, st.1, st.2, st.3, st.4, st.5, st.6, st.7);
                        }
                    }
                    return None;
                }
            }
            proof {
                if face_planes_nonneg(*w) {
                    lemma_scan_step(*w, g, i as int, j as int, st.0, st.1, st.2, st.3, st.4, st.5, st.6, st.7,
                        fp, bp, ff@, bf@, fa@, ba@, nf@, nb@);
                    lemma_first_step(*w, g, i as int, j as int, st.0, st.1, st.2, st.3, st.4, st.5, st.6, st.7,
                        fp, bp, fa@, ba@);
                }
                assert forall|k: int| 0 <= k < fa@.len() implies 0 <= #[trigger] fa@[k] < num_areas(*w) by {
                    if k >= st.4.len() {
                        assert(fa@[k] == face.frontarea || fa@[k] == face.backarea);
                    } else {
                        assert(fa@[k] == st.4[k]);
                    }
                }
                assert forall|k: int| 0 <= k < ba@.len() implies 0 <= #[trigger] ba@[k] < num_areas(*w) by {
                    if k >= st.5.len() {
                        assert(ba@[k] == face.frontarea || ba@[k] == face.backarea);
                    } else {
                        assert(ba@[k] == st.5[k]);
                    }
                }
                assert forall|k: int| 0 <= k < ff@.len() implies 0 <= #[trigger] ff@[k] < w.faces@.len() by {
                    if k < st.2.len() {
                        assert(ff@[k] == st.2[k]);
                    }
                }
                assert forall|k: int| 0 <= k < bf@.len() implies 0 <= #[trigger] bf@[k] < w.faces@.len() by {
                    if k < st.3.len() {
                        assert(bf@[k] == st.3[k]);
                    }
                }
            }
            j += 1;
        }
        proof {
            if face_planes_nonneg(*w) {
                lemma_scan_next_area(*w, g, i as int, numfaces as int, fp, bp, ff@, bf@, fa@, ba@, nf@, nb@);
                if fa@.len() > 0 {
                    lemma_first_next_area(*w, g, i as int, numfaces as int, fp as int, fa@[0] as int);
                }
                if ba@.len() > 0 {
                    lemma_first_next_area(*w, g, i as int, numfaces as int, bp as int, ba@[0] as int);
                }
            }
        }
        i += 1;
    }
    Some(PlaneScan {
        frontplanenum: fp,
        backplanenum: bp,
        frontfacenums: ff,
        backfacenums: bf,
        frontareanums: fa,
        backareanums: ba,
        hasfrontfaces: nf,
        hasbackfaces: nb,
    })
}

proof fn lemma_third_plane(w: aas_s, g: Seq<i32>, i: int, j: int, fp: i32, bp: i32,
    ff: Seq<i32>, bf: Seq<i32>, fa: Seq<i32>, ba: Seq<i32>, nf: Seq<bool>, nb: Seq<bool>)
    requires
        scan_state(w, g, i, j, fp, bp, ff, bf, fa, ba, nf, nb),
        outer_face(w, g, i, j),
        fp >= 0,
        bp >= 0,
        outer_plane(w, g, i, j) != fp,
        outer_plane(w, g, i, j) != bp,
    ensures
        three_planes(w, g),
{
    assert(plane_seen(w, g, i, j, fp as int));
    assert(plane_seen(w, g, i, j, bp as int));
    let (i1, t1) = choose|i2: int, t2: int| #[trigger] outer_face(w, g, i2, t2) && face_before(i2, t2, i, j)
        && outer_plane(w, g, i2, t2) == fp;
    let (i2, t2) = choose|i2: int, t2: int| #[trigger] outer_face(w, g, i2, t2) && face_before(i2, t2, i, j)
        && outer_plane(w, g, i2, t2) == bp;
    assert(outer_face(w, g, i1, t1) && outer_face(w, g, i2, t2) && outer_face(w, g, i, j));
}

proof fn lemma_in_seq_is_contains(s: Seq<i32>, x: i32)
    ensures
        in_seq(s, x) == s.contains(x),
{
    reveal(in_seq);
}

/// `s2` holds what `s` holds, and `x` too.
proof fn lemma_in_seq_extend(s: Seq<i32>, s2: Seq<i32>, x: i32)
    requires
        s2 == s.push(x) || (s2 == s && in_seq(s, x)),
    ensures
        forall|y: i32| #[trigger] in_seq(s, y) ==> in_seq(s2, y),
        in_seq(s2, x),
        forall|k: int| 0 <= k < s.len() ==> s2[k] == #[trigger] s[k],
        s2 == s.push(x) ==> s2[s.len() as int] == x,
{
    reveal(in_seq);
    assert forall|y: i32| #[trigger] in_seq(s, y) implies in_seq(s2, y) by {
        let k = choose|k: int| 0 <= k < s.len() && s[k] == y;
        assert(s2[k] == y);
    }
    if s2 == s.push(x) {
        assert(s2[s.len() as int] == x);
    }
}

#[verifier::rlimit(60)]
proof fn lemma_scan_step(w: aas_s, g: Seq<i32>, i: int, j: int,
    fp: i32, bp: i32, ff: Seq<i32>, bf: Seq<i32>, fa: Seq<i32>, ba: Seq<i32>, nf: Seq<bool>, nb: Seq<bool>,
    fp2: i32, bp2: i32, ff2: Seq<i32>, bf2: Seq<i32>, fa2: Seq<i32>, ba2: Seq<i32>, nf2: Seq<bool>, nb2: Seq<bool>)
    requires
        scan_state(w, g, i, j, fp, bp, ff, bf, fa, ba, nf, nb),
        0 <= i < g.len(),
        0 <= j < w.areas@[g[i] as int].numfaces,
        face_planes_nonneg(w),
        graph_wf(w),
        areas_in_range(w, g),
        outer_face(w, g, i, j) ==> outer_plane(w, g, i, j) >= 0,
        !outer_face(w, g, i, j) ==> fp2 == fp && bp2 == bp && ff2 == ff && bf2 == bf && fa2 == fa && ba2 == ba
            && nf2 == nf && nb2 == nb,
        outer_face(w, g, i, j) ==> !is_portal_area(w, outer_other(w, g, i, j)),
        outer_face(w, g, i, j) && (fp < 0 || outer_plane(w, g, i, j) == fp) ==> {
            &&& fp2 == outer_plane(w, g, i, j)
            &&& ff2 == ff.push(area_face(w, g[i] as int, j) as i32)
            &&& fa2 == (if fa.contains(outer_other(w, g, i, j) as i32) { fa } else { fa.push(outer_other(w, g, i, j) as i32) })
            &&& nf2 == nf.update(i, true)
            &&& bp2 == bp && bf2 == bf && ba2 == ba && nb2 == nb
        },
        outer_face(w, g, i, j) && !(fp < 0 || outer_plane(w, g, i, j) == fp) ==> {
            &&& bp < 0 || outer_plane(w, g, i, j) == bp
            &&& bp2 == outer_plane(w, g, i, j)
            &&& bf2 == bf.push(area_face(w, g[i] as int, j) as i32)
            &&& ba2 == (if ba.contains(outer_other(w, g, i, j) as i32) { ba } else { ba.push(outer_other(w, g, i, j) as i32) })
            &&& nb2 == nb.update(i, true)
            &&& fp2 == fp && ff2 == ff && fa2 == fa && nf2 == nf
        },
    ensures
        scan_state(w, g, i, j + 1, fp2, bp2, ff2, bf2, fa2, ba2, nf2, nb2),
{
    lemma_seen_later(w, g, i, j, i, j + 1);
    if !outer_face(w, g, i, j) {
        return;
    }
    let f = area_face(w, g[i] as int, j);
    let o = outer_other(w, g, i, j);
    let pl = outer_plane(w, g, i, j);
    assert(plane_seen(w, g, i, j + 1, pl));
    assert(area_seen_on(w, g, i, j + 1, i, pl));
    assert(face_seen(w, g, i, j + 1, pl, f));
    assert(beyond_seen(w, g, i, j + 1, pl, o));
    if fp < 0 || pl == fp {
        if fp < 0 {
            // no outer face before has a plane when the front plane is not set
            assert forall|i2: int, t2: int| #[trigger] outer_face(w, g, i2, t2) && face_before(i2, t2, i, j) implies false by {
                lemma_outer_face_facts(w, g, i2, t2);
            }
        }
        lemma_in_seq_extend(ff, ff2, f as i32);
        lemma_in_seq_is_contains(fa, o as i32);
        lemma_in_seq_extend(fa, fa2, o as i32);
        assert(distinct_areas(fa2)) by {
            if !fa.contains(o as i32) {
                assert forall|x: int, y: int| 0 <= x < y < fa2.len() implies #[trigger] fa2[x] != #[trigger] fa2[y] by {
                    if y == fa.len() {
                        assert(fa.contains(fa2[x]));
                    }
                }
            }
        }
        assert forall|k: int| 0 <= k < ff2.len() implies face_seen(w, g, i, j + 1, fp2 as int, #[trigger] ff2[k] as int) by {
            if k < ff.len() {
                assert(ff2[k] == ff[k]);
                assert(face_seen(w, g, i, j, fp as int, ff[k] as int));
            }
        }
        assert forall|k: int| 0 <= k < fa2.len() implies beyond_seen(w, g, i, j + 1, fp2 as int, #[trigger] fa2[k] as int) by {
            if k < fa.len() {
                assert(fa2[k] == fa[k]);
                assert(beyond_seen(w, g, i, j, fp as int, fa[k] as int));
            }
        }
        assert forall|i2: int| 0 <= i2 < g.len() && #[trigger] nf2[i2] implies area_seen_on(w, g, i, j + 1, i2, fp2 as int) by {
            if i2 != i {
                assert(nf[i2]);
                assert(area_seen_on(w, g, i, j, i2, fp as int));
            }
        }
        assert forall|i2: int, t2: int| #[trigger] outer_face(w, g, i2, t2) && face_before(i2, t2, i, j + 1)
            && outer_plane(w, g, i2, t2) == fp2 implies nf2[i2] by {
            if face_before(i2, t2, i, j) {
                assert(nf[i2]);
                lemma_outer_face_facts(w, g, i2, t2);
            }
        }
    } else {
        if bp < 0 {
            assert forall|i2: int, t2: int| #[trigger] outer_face(w, g, i2, t2) && face_before(i2, t2, i, j)
                implies outer_plane(w, g, i2, t2) == fp by {
                lemma_outer_face_facts(w, g, i2, t2);
            }
            assert(bf.len() == 0) by {
                if bf.len() > 0 {
                    assert(face_seen(w, g, i, j, bp as int, bf[0] as int));
                }
            }
            assert(ba.len() == 0) by {
                if ba.len() > 0 {
                    assert(beyond_seen(w, g, i, j, bp as int, ba[0] as int));
                }
            }
            assert forall|i2: int| 0 <= i2 < g.len() implies !#[trigger] nb[i2] by {
                if nb[i2] {
                    assert(area_seen_on(w, g, i, j, i2, bp as int));
                }
            }
        }
        lemma_in_seq_extend(bf, bf2, f as i32);
        lemma_in_seq_is_contains(ba, o as i32);
        lemma_in_seq_extend(ba, ba2, o as i32);
        assert(distinct_areas(ba2)) by {
            if !ba.contains(o as i32) {
                assert forall|x: int, y: int| 0 <= x < y < ba2.len() implies #[trigger] ba2[x] != #[trigger] ba2[y] by {
                    if y == ba.len() {
                        assert(ba.contains(ba2[x]));
                    }
                }
            }
        }
        assert forall|k: int| 0 <= k < bf2.len() implies face_seen(w, g, i, j + 1, bp2 as int, #[trigger] bf2[k] as int) by {
            if k < bf.len() {
                assert(bf2[k] == bf[k]);
                assert(face_seen(w, g, i, j, bp as int, bf[k] as int));
            }
        }
        assert forall|k: int| 0 <= k < ba2.len() implies beyond_seen(w, g, i, j + 1, bp2 as int, #[trigger] ba2[k] as int) by {
            if k < ba.len() {
                assert(ba2[k] == ba[k]);
                assert(beyond_seen(w, g, i, j, bp as int, ba[k] as int));
            }
        }
        assert forall|i2: int| 0 <= i2 < g.len() && #[trigger] nb2[i2] implies area_seen_on(w, g, i, j + 1, i2, bp2 as int) by {
            if i2 != i {
                assert(nb[i2]);
                assert(area_seen_on(w, g, i, j, i2, bp as int));
            }
        }
        assert forall|i2: int, t2: int| #[trigger] outer_face(w, g, i2, t2) && face_before(i2, t2, i, j + 1)
            && outer_plane(w, g, i2, t2) == bp2 implies nb2[i2] by {
            if face_before(i2, t2, i, j) {
                assert(nb[i2]);
                lemma_outer_face_facts(w, g, i2, t2);
            }
        }
        assert forall|i2: int, t2: int| #[trigger] outer_face(w, g, i2, t2) && face_before(i2, t2, i, j + 1)
            && outer_plane(w, g, i2, t2) == fp2 implies nf2[i2] by {
            lemma_outer_face_facts(w, g, i2, t2);
            if face_before(i2, t2, i, j) {
                assert(nf[i2]);
            }
        }
    }
}

/// After the last face of an area comes the first face of the next.
/// Area `v` lies beyond the first outer face on plane `p`, which is before
/// (`i`, `j`).
pub open spec fn first_seen(w: aas_s, g: Seq<i32>, i: int, j: int, p: int, v: int) -> bool {
    exists|i1: int, t1: int| #[trigger] first_outer_on(w, g, i1, t1, p) && face_before(i1, t1, i, j)
        && outer_other(w, g, i1, t1) == v
}

/// The first area of the list `l` of areas beyond plane `p` lies beyond
/// the first outer face on `p`.
pub open spec fn first_ok(w: aas_s, g: Seq<i32>, i: int, j: int, p: i32, l: Seq<i32>) -> bool {
    l.len() > 0 ==> first_seen(w, g, i, j, p as int, l[0] as int)
}

/// What was first seen before (`i`, `j`) was first seen before a later place.
proof fn lemma_first_later(w: aas_s, g: Seq<i32>, i: int, j: int, i3: int, j3: int, p: int, v: int)
    requires
        first_seen(w, g, i, j, p, v),
        face_before(i, j, i3, j3) || (i == i3 && j == j3)
            || forall|i2: int, t2: int| face_before(i2, t2, i, j) ==> face_before(i2, t2, i3, j3),
    ensures
        first_seen(w, g, i3, j3, p, v),
{
    let (i1, t1) = choose|i1: int, t1: int| #[trigger] first_outer_on(w, g, i1, t1, p) && face_before(i1, t1, i, j)
        && outer_other(w, g, i1, t1) == v;
    assert(first_outer_on(w, g, i1, t1, p));
}

/// A list of areas beyond plane `p`, seen while the plane is not set, is empty.
proof fn lemma_unset_plane_empty(w: aas_s, g: Seq<i32>, i: int, j: int,
    fp: i32, bp: i32, ff: Seq<i32>, bf: Seq<i32>, fa: Seq<i32>, ba: Seq<i32>, nf: Seq<bool>, nb: Seq<bool>)
    requires
        scan_state(w, g, i, j, fp, bp, ff, bf, fa, ba, nf, nb),
        face_planes_nonneg(w),
        graph_wf(w),
        areas_in_range(w, g),
    ensures
        fp < 0 ==> fa.len() == 0,
        bp < 0 ==> ba.len() == 0,
{
    if fp < 0 && fa.len() > 0 {
        assert(beyond_seen(w, g, i, j, fp as int, fa[0] as int));
        let (i2, t2) = choose|i2: int, t2: int| #[trigger] outer_face(w, g, i2, t2) && face_before(i2, t2, i, j)
            && outer_plane(w, g, i2, t2) == fp && fa[0] as int == outer_other(w, g, i2, t2);
        lemma_outer_face_facts(w, g, i2, t2);
    }
    if bp < 0 && ba.len() > 0 {
        assert(beyond_seen(w, g, i, j, bp as int, ba[0] as int));
        let (i2, t2) = choose|i2: int, t2: int| #[trigger] outer_face(w, g, i2, t2) && face_before(i2, t2, i, j)
            && outer_plane(w, g, i2, t2) == bp && ba[0] as int == outer_other(w, g, i2, t2);
        lemma_outer_face_facts(w, g, i2, t2);
    }
}

/// The face at (`i`, `j`) on plane `pl` is the first outer face on `pl`
/// when no outer face before it on `pl` was listed.
#[verifier::rlimit(60)]
proof fn lemma_first_here(w: aas_s, g: Seq<i32>, i: int, j: int,
    fp: i32, bp: i32, ff: Seq<i32>, bf: Seq<i32>, fa: Seq<i32>, ba: Seq<i32>, nf: Seq<bool>, nb: Seq<bool>, front: bool)
    requires
        scan_state(w, g, i, j, fp, bp, ff, bf, fa, ba, nf, nb),
        face_planes_nonneg(w),
        graph_wf(w),
        areas_in_range(w, g),
        outer_face(w, g, i, j),
        front ==> fa.len() == 0 && (fp < 0 || outer_plane(w, g, i, j) == fp),
        !front ==> ba.len() == 0 && fp >= 0 && outer_plane(w, g, i, j) != fp
            && (bp < 0 || outer_plane(w, g, i, j) == bp),
    ensures
        first_outer_on(w, g, i, j, outer_plane(w, g, i, j)),
{
    let pl = outer_plane(w, g, i, j);
    assert forall|i2: int, t2: int| #[trigger] outer_face(w, g, i2, t2) && face_before(i2, t2, i, j)
        implies outer_plane(w, g, i2, t2) != pl by {
        let o = outer_other(w, g, i2, t2) as i32;
        if outer_plane(w, g, i2, t2) == pl {
            lemma_outer_face_facts(w, g, i2, t2);
            lemma_in_seq_is_contains(fa, o);
            lemma_in_seq_is_contains(ba, o);
            if outer_plane(w, g, i2, t2) == fp {
                assert(in_seq(fa, o));
            } else {
                assert(outer_plane(w, g, i2, t2) == bp);
                assert(in_seq(ba, o));
            }
        }
    }
}

/// One step of the scan keeps the first listed areas beyond the planes
/// those beyond the first outer faces on them.
#[verifier::rlimit(60)]
proof fn lemma_first_step(w: aas_s, g: Seq<i32>, i: int, j: int,
    fp: i32, bp: i32, ff: Seq<i32>, bf: Seq<i32>, fa: Seq<i32>, ba: Seq<i32>, nf: Seq<bool>, nb: Seq<bool>,
    fp2: i32, bp2: i32, fa2: Seq<i32>, ba2: Seq<i32>)
    requires
        scan_state(w, g, i, j, fp, bp, ff, bf, fa, ba, nf, nb),
        first_ok(w, g, i, j, fp, fa),
        first_ok(w, g, i, j, bp, ba),
        face_planes_nonneg(w),
        graph_wf(w),
        areas_in_range(w, g),
        !outer_face(w, g, i, j) ==> fp2 == fp && bp2 == bp && fa2 == fa && ba2 == ba,
        outer_face(w, g, i, j) && (fp < 0 || outer_plane(w, g, i, j) == fp) ==> {
            &&& fp2 == outer_plane(w, g, i, j)
            &&& fa2 == (if fa.contains(outer_other(w, g, i, j) as i32) { fa } else { fa.push(outer_other(w, g, i, j) as i32) })
            &&& bp2 == bp && ba2 == ba
        },
        outer_face(w, g, i, j) && !(fp < 0 || outer_plane(w, g, i, j) == fp) ==> {
            &&& bp < 0 || outer_plane(w, g, i, j) == bp
            &&& bp2 == outer_plane(w, g, i, j)
            &&& ba2 == (if ba.contains(outer_other(w, g, i, j) as i32) { ba } else { ba.push(outer_other(w, g, i, j) as i32) })
            &&& fp2 == fp && fa2 == fa
        },
    ensures
        first_ok(w, g, i, j + 1, fp2, fa2),
        first_ok(w, g, i, j + 1, bp2, ba2),
{
    lemma_unset_plane_empty(w, g, i, j, fp, bp, ff, bf, fa, ba, nf, nb);
    if fa.len() > 0 {
        lemma_first_later(w, g, i, j, i, j + 1, fp as int, fa[0] as int);
    }
    if ba.len() > 0 {
        lemma_first_later(w, g, i, j, i, j + 1, bp as int, ba[0] as int);
    }
    if outer_face(w, g, i, j) {
        let o = outer_other(w, g, i, j);
        let pl = outer_plane(w, g, i, j);
        if fp < 0 || pl == fp {
            if fa.len() == 0 {
                lemma_first_here(w, g, i, j, fp, bp, ff, bf, fa, ba, nf, nb, true);
                assert(fa2 == seq![o as i32]);
                assert(first_outer_on(w, g, i, j, pl));
                assert(first_seen(w, g, i, j + 1, pl, o));
            } else {
                assert(fa2[0] == fa[0]);
            }
        } else {
            if ba.len() == 0 {
                lemma_first_here(w, g, i, j, fp, bp, ff, bf, fa, ba, nf, nb, false);
                assert(ba2 == seq![o as i32]);
                assert(first_outer_on(w, g, i, j, pl));
                assert(first_seen(w, g, i, j + 1, pl, o));
            } else {
                assert(ba2[0] == ba[0]);
            }
        }
    }
}

/// What was first seen before the end of an area's faces was first seen
/// before the next area.
proof fn lemma_first_next_area(w: aas_s, g: Seq<i32>, i: int, numfaces: int, p: int, v: int)
    requires
        0 <= i < g.len(),
        numfaces == w.areas@[g[i] as int].numfaces,
        first_seen(w, g, i, numfaces, p, v),
    ensures
        first_seen(w, g, i + 1, 0, p, v),
{
    let (i1, t1) = choose|i1: int, t1: int| #[trigger] first_outer_on(w, g, i1, t1, p) && face_before(i1, t1, i, numfaces)
        && outer_other(w, g, i1, t1) == v;
    assert(first_outer_on(w, g, i1, t1, p));
    assert(face_before(i1, t1, i + 1, 0));
}

proof fn lemma_scan_next_area(w: aas_s, g: Seq<i32>, i: int, numfaces: int,
    fp: i32, bp: i32, ff: Seq<i32>, bf: Seq<i32>, fa: Seq<i32>, ba: Seq<i32>, nf: Seq<bool>, nb: Seq<bool>)
    requires
        0 <= i < g.len(),
        numfaces == w.areas@[g[i] as int].numfaces,
        scan_state(w, g, i, numfaces, fp, bp, ff, bf, fa, ba, nf, nb),
    ensures
        scan_state(w, g, i + 1, 0, fp, bp, ff, bf, fa, ba, nf, nb),
{
    reveal(outer_face);
    lemma_seen_later(w, g, i, numfaces, i + 1, 0);
    assert forall|i2: int, t2: int| #[trigger] outer_face(w, g, i2, t2) implies
        face_before(i2, t2, i, numfaces) == face_before(i2, t2, i + 1, 0) by {}
}

proof fn lemma_scan_start(w: aas_s, g: Seq<i32>, nf: Seq<bool>, nb: Seq<bool>)
    requires
        graph_wf(w),
        areas_in_range(w, g),
        nf.len() == g.len(),
        nb.len() == g.len(),
        forall|m: int| 0 <= m < g.len() ==> !#[trigger] nf[m],
        forall|m: int| 0 <= m < g.len() ==> !#[trigger] nb[m],
    ensures
        scan_state(w, g, 0, 0, -1i32, -1i32, Seq::empty(), Seq::empty(), Seq::empty(), Seq::empty(), nf, nb),
{
    assert forall|i2: int, t2: int| #[trigger] outer_face(w, g, i2, t2) implies !face_before(i2, t2, 0, 0) by {
        lemma_outer_face_facts(w, g, i2, t2);
    }
    assert(distinct_areas(Seq::<i32>::empty()));
}

/// After the whole scan every outer face has been seen.
proof fn lemma_all_seen(w: aas_s, g: Seq<i32>)
    requires
        graph_wf(w),
        areas_in_range(w, g),
    ensures
        forall|i2: int, t2: int| #[trigger] outer_face(w, g, i2, t2) ==> face_before(i2, t2, g.len() as int, 0),
        forall|p: int, v: int| #[trigger] beyond(w, g, p, v) <==> beyond_seen(w, g, g.len() as int, 0, p, v),
        forall|i2: int, p: int| #[trigger] has_outer_on(w, g, i2, p) <==> area_seen_on(w, g, g.len() as int, 0, i2, p),
{
    assert forall|i2: int, t2: int| #[trigger] outer_face(w, g, i2, t2) implies face_before(i2, t2, g.len() as int, 0) by {
        lemma_outer_face_facts(w, g, i2, t2);
    }
    assert forall|p: int, v: int| #[trigger] beyond(w, g, p, v) <==> beyond_seen(w, g, g.len() as int, 0, p, v) by {
        if beyond(w, g, p, v) {
            let (i2, t2) = choose|i2: int, t2: int| #[trigger] outer_face(w, g, i2, t2) && outer_plane(w, g, i2, t2) == p
                && outer_other(w, g, i2, t2) == v;
            assert(outer_face(w, g, i2, t2));
        }
        if beyond_seen(w, g, g.len() as int, 0, p, v) {
            let (i2, t2) = choose|i2: int, t2: int| #[trigger] outer_face(w, g, i2, t2) && face_before(i2, t2, g.len() as int, 0)
                && outer_plane(w, g, i2, t2) == p && v == outer_other(w, g, i2, t2);
            assert(outer_face(w, g, i2, t2));
        }
    }
    assert forall|i2: int, p: int| #[trigger] has_outer_on(w, g, i2, p) <==> area_seen_on(w, g, g.len() as int, 0, i2, p) by {
        if has_outer_on(w, g, i2, p) {
            let t2 = choose|t2: int| #[trigger] outer_face(w, g, i2, t2) && outer_plane(w, g, i2, t2) == p;
            assert(outer_face(w, g, i2, t2));
        }
        if area_seen_on(w, g, g.len() as int, 0, i2, p) {
            let t2 = choose|t2: int| #[trigger] outer_face(w, g, i2, t2) && face_before(i2, t2, g.len() as int, 0)
                && outer_plane(w, g, i2, t2) == p;
            assert(outer_face(w, g, i2, t2));
        }
    }
}

/// Two planes that hold all outer faces, with every area on both, are the
/// front and back planes of the scan.
proof fn lemma_two_planes_scanned(w: aas_s, g: Seq<i32>, fp: i32, bp: i32, ff: Seq<i32>, bf: Seq<i32>,
    fa: Seq<i32>, ba: Seq<i32>, nf: Seq<bool>, nb: Seq<bool>, p1: int, p2: int)
    requires
        graph_wf(w),
        areas_in_range(w, g),
        face_planes_nonneg(w),
        g.len() >= 1,
        scan_state(w, g, g.len() as int, 0, fp, bp, ff, bf, fa, ba, nf, nb),
        two_planes(w, g, p1, p2),
    ensures
        fp >= 0,
        bp >= 0,
        (p1 == fp && p2 == bp) || (p1 == bp && p2 == fp),
        forall|i: int| 0 <= i < g.len() ==> #[trigger] nf[i],
        forall|i: int| 0 <= i < g.len() ==> #[trigger] nb[i],
{
    lemma_all_seen(w, g);
    assert(has_outer_on(w, g, 0, p1) && has_outer_on(w, g, 0, p2));
    let t1 = choose|t: int| #[trigger] outer_face(w, g, 0, t) && outer_plane(w, g, 0, t) == p1;
    let t2 = choose|t: int| #[trigger] outer_face(w, g, 0, t) && outer_plane(w, g, 0, t) == p2;
    lemma_outer_face_facts(w, g, 0, t1);
    lemma_outer_face_facts(w, g, 0, t2);
    assert(outer_face(w, g, 0, t1) && outer_face(w, g, 0, t2));
    assert forall|i: int| 0 <= i < g.len() implies nf[i] && nb[i] by {
        assert(two_planes(w, g, p1, p2));
        assert(has_outer_on(w, g, i, p1));
        assert(has_outer_on(w, g, i, p2));
        let u1 = choose|t: int| #[trigger] outer_face(w, g, i, t) && outer_plane(w, g, i, t) == p1;
        let u2 = choose|t: int| #[trigger] outer_face(w, g, i, t) && outer_plane(w, g, i, t) == p2;
        assert(outer_face(w, g, i, u1) && outer_face(w, g, i, u2));
        assert(face_before(i, u1, g.len() as int, 0));
        assert(face_before(i, u2, g.len() as int, 0));
        assert(outer_plane(w, g, i, u1) == fp || outer_plane(w, g, i, u1) == bp);
        assert(nf[i]);
        assert(nb[i]);
    }
}

/// Faces that have an edge in common, either way round.
proof fn lemma_share_edge_symmetric(w: aas_s, f1: int, f2: int)
    ensures
        faces_share_edge(w, f1, f2) == faces_share_edge(w, f2, f1),
{
    if faces_share_edge(w, f1, f2) {
        let (e1, e2) = choose|e1: int, e2: int| 0 <= e1 < w.faces@[f1].numedges && 0 <= e2 < w.faces@[f2].numedges
            && #[trigger] crate::cluster::iabs(w.edgeindex@[w.faces@[f1].firstedge + e1] as int)
                == #[trigger] crate::cluster::iabs(w.edgeindex@[w.faces@[f2].firstedge + e2] as int);
        assert(crate::cluster::iabs(w.edgeindex@[w.faces@[f2].firstedge + e2] as int)
            == crate::cluster::iabs(w.edgeindex@[w.faces@[f1].firstedge + e1] as int));
    }
    if faces_share_edge(w, f2, f1) {
        let (e1, e2) = choose|e1: int, e2: int| 0 <= e1 < w.faces@[f2].numedges && 0 <= e2 < w.faces@[f1].numedges
            && #[trigger] crate::cluster::iabs(w.edgeindex@[w.faces@[f2].firstedge + e1] as int)
                == #[trigger] crate::cluster::iabs(w.edgeindex@[w.faces@[f1].firstedge + e2] as int);
        assert(crate::cluster::iabs(w.edgeindex@[w.faces@[f1].firstedge + e2] as int)
            == crate::cluster::iabs(w.edgeindex@[w.faces@[f2].firstedge + e1] as int));
    }
}

/// A path of list positions is a path of areas beyond plane `p`.
proof fn lemma_list_path_beyond(w: aas_s, g: Seq<i32>, p: int, l: Seq<i32>, j: int)
    requires
        list_reaches(w, l, 0, j),
        forall|k: int| 0 <= k < l.len() ==> #[trigger] beyond(w, g, p, l[k] as int),
    ensures
        exists|q: Seq<int>| #[trigger] beyond_path(w, g, p, q) && q[0] == l[0] && q.last() == l[j],
{
    let pp = choose|pp: Seq<int>| #[trigger] list_path(w, l, pp) && pp[0] == 0 && pp.last() == j;
    let q = Seq::new(pp.len(), |k: int| l[pp[k]] as int);
    assert forall|k: int| 0 <= k < pp.len() implies 0 <= #[trigger] pp[k] < l.len() by {
        if k > 0 {
            assert(list_step(w, l, pp[k - 1], pp[(k - 1) + 1]));
        }
    }
    assert forall|k: int| 0 <= k < q.len() implies #[trigger] beyond(w, g, p, q[k]) by {
        assert(0 <= pp[k] < l.len());
        assert(beyond(w, g, p, l[pp[k]] as int));
    }
    assert forall|k: int| 0 <= k < q.len() - 1 implies #[trigger] face_adjacent(w, q[k], q[k + 1]) by {
        assert(list_step(w, l, pp[k], pp[k + 1]));
        let t = choose|t: int| #[trigger] face_step(w, l[pp[k]] as int, t, l[pp[k + 1]] as int);
        assert(face_step(w, q[k], t, q[k + 1]));
    }
    assert(beyond_path(w, g, p, q));
}

/// A path of areas beyond plane `p`, all of them in the distinct list `l`,
/// is a path of positions of `l`.
proof fn lemma_beyond_path_list(w: aas_s, g: Seq<i32>, p: int, l: Seq<i32>, q: Seq<int>, j: int)
    requires
        distinct_areas(l),
        l.len() >= 1,
        beyond_path(w, g, p, q),
        forall|v: int| #[trigger] beyond(w, g, p, v) ==> in_seq(l, v as i32),
        forall|v: int| #[trigger] beyond(w, g, p, v) ==> i32::MIN <= v <= i32::MAX,
        q[0] == l[0],
        0 <= j < l.len(),
        q.last() == l[j],
    ensures
        list_reaches(w, l, 0, j),
{
    reveal(in_seq);
    let pos = Seq::new(q.len(), |k: int| choose|m: int| 0 <= m < l.len() && l[m] == q[k] as i32);
    assert forall|k: int| 0 <= k < q.len() implies 0 <= #[trigger] pos[k] < l.len() && l[pos[k]] == q[k] as i32 by {
        assert(beyond(w, g, p, q[k]));
        assert(l.contains(q[k] as i32));
    }
    assert forall|k: int| 0 <= k < q.len() implies (#[trigger] l[pos[k]]) as int == q[k] by {
        assert(beyond(w, g, p, q[k]));
    }
    assert(pos[0] == 0) by {
        if pos[0] != 0 {
            assert(l[pos[0]] == l[0]);
        }
    }
    assert(pos.last() == j) by {
        let m = pos[q.len() - 1];
        if m != j {
            assert(l[m] == l[j]);
        }
    }
    assert forall|k: int| 0 <= k < pos.len() - 1 implies #[trigger] list_step(w, l, pos[k], pos[k + 1]) by {
        assert(face_adjacent(w, q[k], q[k + 1]));
        let t = choose|t: int| #[trigger] face_step(w, q[k], t, q[k + 1]);
        assert(face_step(w, l[pos[k]] as int, t, l[pos[k + 1]] as int));
        assert(first_pos(l, pos[k + 1]));
    }
    assert(list_path(w, l, pos));
}

/// Three outer faces on three planes leave no two planes for all of them.
proof fn lemma_three_planes_not_two(w: aas_s, g: Seq<i32>, p1: int, p2: int)
    requires
        three_planes(w, g),
    ensures
        !two_planes(w, g, p1, p2),
{
    let (i1, t1, i2, t2, i3, t3) = choose|i1: int, t1: int, i2: int, t2: int, i3: int, t3: int|
        #[trigger] outer_face(w, g, i1, t1) && #[trigger] outer_face(w, g, i2, t2) && #[trigger] outer_face(w, g, i3, t3)
        && outer_plane(w, g, i1, t1) != outer_plane(w, g, i2, t2)
        && outer_plane(w, g, i1, t1) != outer_plane(w, g, i3, t3)
        && outer_plane(w, g, i2, t2) != outer_plane(w, g, i3, t3);
    assert(outer_face(w, g, i1, t1) && outer_face(w, g, i2, t2) && outer_face(w, g, i3, t3));
}

/// Area `a` is a grounded area: a bot can stand in it.
pub open spec fn is_grounded(w: aas_s, a: int) -> bool {
    w.areasettings@[a].areaflags & AREA_GROUNDED != 0
}

/// Area `a` is one of the areas of `g`.
pub open spec fn in_group(g: Seq<i32>, a: int) -> bool {
    exists|k: int| 0 <= k < g.len() && #[trigger] g[k] as int == a
}

/// `w2` is `w1` with the areas of `g` made cluster portal and route portal
/// areas.
pub open spec fn marked_portal_areas(w1: aas_s, w2: aas_s, g: Seq<i32>) -> bool {
    &&& w2.loaded == w1.loaded
    &&& w2.initialized == w1.initialized
    &&& w2.savefile == w1.savefile
    &&& w2.bspchecksum == w1.bspchecksum
    &&& w2.numframes == w1.numframes
    &&& w2.bboxes@ == w1.bboxes@
    &&& w2.vertexes@ == w1.vertexes@
    &&& w2.planes@ == w1.planes@
    &&& w2.edges@ == w1.edges@
    &&& w2.edgeindex@ == w1.edgeindex@
    &&& w2.faces@ == w1.faces@
    &&& w2.faceindex@ == w1.faceindex@
    &&& w2.areas@ == w1.areas@
    &&& w2.reachability@ == w1.reachability@
    &&& w2.nodes@ == w1.nodes@
    &&& w2.portals@ == w1.portals@
    &&& w2.portalindex@ == w1.portalindex@
    &&& w2.clusters@ == w1.clusters@
    &&& w2.areasettings@.len() == w1.areasettings@.len()
    &&& forall|a: int| 0 <= a < w1.areasettings@.len() ==> {
        let s1 = w1.areasettings@[a];
        let s2 = #[trigger] w2.areasettings@[a];
        &&& s2.contents == (if in_group(g, a) {
            s1.contents | AREACONTENTS_CLUSTERPORTAL | AREACONTENTS_ROUTEPORTAL
        } else {
            s1.contents
        })
        &&& s2.areaflags == s1.areaflags
        &&& s2.presencetype == s1.presencetype
        &&& s2.cluster == s1.cluster
        &&& s2.clusterareanum == s1.clusterareanum
        &&& s2.numreachableareas == s1.numreachableareas
        &&& s2.firstreachablearea == s1.firstreachablearea
    }
}

/// A group closed under steps to fewer presence types, starting where `l`
/// starts, holds every area of `l`, each of which is reached by such steps.
proof fn lemma_group_covers(w: aas_s, l: Seq<i32>, g: Seq<i32>, j: int)
    requires
        l.len() >= 1,
        g.len() >= 1,
        l[0] == g[0],
        less_parents(w, l, 0),
        less_closed(w, g, 0),
        0 <= j < l.len(),
    ensures
        g.contains(l[j]),
    decreases j,
{
    if j == 0 {
        assert(g[0] == l[0]);
    } else {
        assert(has_less_parent(w, l, 0, j));
        let (i, t) = choose|i: int, t: int| 0 <= i < j && #[trigger] less_step(w, l[i] as int, t, l[j] as int);
        lemma_group_covers(w, l, g, i);
        let p = choose|p: int| 0 <= p < g.len() && g[p] == l[i];
        assert(less_step(w, g[p] as int, t, l[j] as int));
    }
}

/// When the areas reached from the first area of `l` by steps to fewer
/// presence types, `MAX_PORTALAREAS` of them in `l`, lead on to an area not
/// in `l`, every group of the first area has more than `MAX_PORTALAREAS`
/// areas.
proof fn lemma_group_too_large(w: aas_s, l: Seq<i32>, g: Seq<i32>)
    requires
        l.len() == MAX_PORTALAREAS,
        distinct_areas(l),
        less_parents(w, l, 0),
        !less_closed(w, l, 0),
        less_group(w, l[0] as int, g),
    ensures
        g.len() > MAX_PORTALAREAS,
{
    let (i, t, y) = choose|i: int, t: int, y: int| 0 <= i < l.len() && #[trigger] less_step(w, l[i] as int, t, y)
        && !l.contains(y as i32);
    lemma_group_covers(w, l, g, i);
    let p = choose|p: int| 0 <= p < g.len() && g[p] == l[i];
    assert(less_step(w, g[p] as int, t, y));
    assert(g.contains(y as i32));
    let ls = l.to_set().insert(y as i32);
    assert forall|x: i32| ls.contains(x) implies g.to_set().contains(x) by {
        if x != y as i32 {
            let k = choose|k: int| 0 <= k < l.len() && l[k] == x;
            lemma_group_covers(w, l, g, k);
        }
    }
    assert(l.no_duplicates()) by {
        assert forall|a: int, b: int| 0 <= a < l.len() && 0 <= b < l.len() && a != b implies l[a] != l[b] by {
            if a < b { assert(l[a] != l[b]); } else { assert(l[b] != l[a]); }
        }
    }
    assert(g.no_duplicates()) by {
        assert forall|a: int, b: int| 0 <= a < g.len() && 0 <= b < g.len() && a != b implies g[a] != g[b] by {
            if a < b { assert(g[a] != g[b]); } else { assert(g[b] != g[a]); }
        }
    }
    l.unique_seq_to_set();
    g.unique_seq_to_set();
    assert(!l.to_set().contains(y as i32));
    vstd::set_lib::lemma_len_subset(ls, g.to_set());
}

/// What checking area `a` for a possible portal does
/// (`AAS_CheckAreaForPossiblePortals`), taking world `w1` to `w2`, with `k`
/// areas marked and `cut` telling whether the group was cut at
/// `MAX_PORTALAREAS` areas.
pub open spec fn portal_check(w1: aas_s, a: int, w2: aas_s, k: int, cut: bool) -> bool {
    &&& cut ==> !is_portal_area(w1, a) && is_grounded(w1, a)
        && forall|g: Seq<i32>| #[trigger] less_group(w1, a, g) ==> g.len() > MAX_PORTALAREAS
    &&& !is_portal_area(w1, a) && is_grounded(w1, a)
        && (forall|g: Seq<i32>| #[trigger] less_group(w1, a, g) ==> g.len() > MAX_PORTALAREAS)
        ==> cut
    &&& k == 0 ==> w2 == w1
    &&& k == 0 && face_planes_nonneg(w1) ==> {
        ||| is_portal_area(w1, a)
        ||| !is_grounded(w1, a)
        ||| cut && exists|g: Seq<i32>| #[trigger] cut_group(w1, a, g)
            && forall|p1: int, p2: int| !#[trigger] portal_group(w1, g, p1, p2)
        ||| !cut && exists|g: Seq<i32>| #[trigger] less_group(w1, a, g)
            && forall|p1: int, p2: int| !#[trigger] portal_group(w1, g, p1, p2)
    }
    &&& k != 0 ==> !is_portal_area(w1, a) && is_grounded(w1, a)
    &&& k != 0 ==> exists|g: Seq<i32>| #[trigger] portal_candidate(w1, a, g)
        && (if cut { cut_group(w1, a, g) } else { less_group(w1, a, g) })
        && g.len() <= MAX_PORTALAREAS
        && k == g.len()
        && marked_portal_areas(w1, w2, g)
        && (face_planes_nonneg(w1) ==> exists|p1: int, p2: int| #[trigger] portal_group(w1, g, p1, p2))
}

/// Checks whether area `areanum` and the areas around it with fewer
/// presence types make a cluster portal (`AAS_CheckAreaForPossiblePortals`).
/// The area must be grounded and no cluster portal area yet. The group is
/// the area and, recursively, the neighbors with fewer presence types
/// (`AAS_GetAdjacentAreasWithLessPresenceTypes_r`). The group makes a portal
/// when no outer face leads to a cluster portal area, the outer faces lie on
/// two planes with every area on both, the areas beyond each plane are
/// connected (`AAS_ConnectedAreas`), and no outer face on one plane has an
/// edge in common with one on the other. Then the areas of the group become
/// cluster portal and route portal areas and the first part of the result
/// is their number; otherwise nothing changes and it is zero. A group of
/// more than `MAX_PORTALAREAS` areas is cut to the first `MAX_PORTALAREAS`
/// areas met, and these are checked; the second part of the result tells
/// that the group was cut, an error to report.
///
/// The shape of the portal is stated for worlds whose faces all have plane
/// numbers of zero or more. The check takes a negative plane number as "no
/// plane yet", so where a face lies on a negative plane number the faces are
/// not sorted onto two planes: outer faces on the planes -2, 4 and 6, met in
/// that order, pass as a front plane of 4 and a back plane of 6. What such a
/// group is sorted into depends on the order of its faces, and is not stated.
pub fn AAS_CheckAreaForPossiblePortals(w: &mut aas_s, areanum: i32) -> (r: (i32, bool))
    requires
        graph_wf(*old(w)),
        1 <= areanum < num_areas(*old(w)),
    ensures
        portal_check(*old(w), areanum as int, *final(w), r.0 as int, r.1),
{
    let ghost ow = *old(w);
    let a = areanum as usize;
    //if it isn't already a portal
    if w.areasettings[a].contents & AREACONTENTS_CLUSTERPORTAL != 0 {
        return (0, false);
    }
    //it must be a grounded area
    if w.areasettings[a].areaflags & AREA_GROUNDED == 0 {
        return (0, false);
    }
    //add any adjacent areas with less presence types
    let mut areanums: Vec<i32> = Vec::new();
    let res = AAS_GetAdjacentAreasWithLessPresenceTypes_r(w, &mut areanums, areanum);
    //a group too large to be held is cut at MAX_PORTALAREAS areas
    let cut = res.is_err();
    let ghost g = areanums@;
    proof {
        assert(areanums@.subrange(0, 0) =~= Seq::<i32>::empty());
        if cut {
            assert(cut_group(ow, a as int, g));
            assert forall|g2: Seq<i32>| #[trigger] less_group(ow, areanum as int, g2)
                implies g2.len() > MAX_PORTALAREAS by {
                lemma_group_too_large(ow, g, g2);
            }
        } else {
            assert(less_group(ow, a as int, g));
            assert(!(forall|g2: Seq<i32>| #[trigger] less_group(ow, areanum as int, g2) ==> g2.len() > MAX_PORTALAREAS));
        }
        assert(used_group(ow, a as int, g, cut));
    }
    let numareas = areanums.len();
    let scan = scan_outer_faces(w, &areanums);
    let sc = match scan {
        Some(sc) => sc,
        None => {
            proof {
                if face_planes_nonneg(ow) {
                    assert forall|p1: int, p2: int| !#[trigger] portal_group(ow, g, p1, p2) by {
                        if three_planes(ow, g) {
                            lemma_three_planes_not_two(ow, g, p1, p2);
                        }
                    }
                }
            }
            proof { assert(used_group(ow, areanum as int, g, cut)); assert(portal_candidate(ow, areanum as int, g)); }
        return (0, cut);
        },
    };
    //every area should have at least one front face and one back face
    let mut i: usize = 0;
    while i < numareas
        invariant
            graph_wf(ow),
            *w == ow,
            ow == *old(w),
            g == areanums@,
            areas_in_range(ow, g),
            distinct_areas(g),
            g.len() >= 1,
            a == areanum,
            used_group(ow, areanum as int, g, cut),
            g.len() <= MAX_PORTALAREAS,
            cut ==> forall|g2: Seq<i32>| #[trigger] less_group(ow, a as int, g2) ==> g2.len() > MAX_PORTALAREAS,
            !cut ==> less_group(ow, a as int, g),
            !is_portal_area(ow, a as int),
            is_grounded(ow, a as int),
            scan_sane(ow, g, sc),
            face_planes_nonneg(ow) ==> scan_state(ow, g, g.len() as int, 0, sc.frontplanenum, sc.backplanenum, sc.frontfacenums@, sc.backfacenums@, sc.frontareanums@, sc.backareanums@, sc.hasfrontfaces@, sc.hasbackfaces@),
            i <= numareas,
            numareas == g.len(),
            sc.hasfrontfaces@.len() == g.len(),
            sc.hasbackfaces@.len() == g.len(),
            forall|m: int| 0 <= m < i ==> #[trigger] sc.hasfrontfaces@[m],
            forall|m: int| 0 <= m < i ==> #[trigger] sc.hasbackfaces@[m],
        decreases numareas - i,
    {
        if !sc.hasfrontfaces[i] || !sc.hasbackfaces[i] {
            proof {
                if face_planes_nonneg(ow) {
                    assert forall|p1: int, p2: int| !#[trigger] portal_group(ow, g, p1, p2) by {
                        if portal_group(ow, g, p1, p2) {
                            lemma_two_planes_scanned(ow, g, sc.frontplanenum, sc.backplanenum, sc.frontfacenums@,
                                sc.backfacenums@, sc.frontareanums@, sc.backareanums@, sc.hasfrontfaces@, sc.hasbackfaces@, p1, p2);
                        }
                    }
                }
            }
            proof { assert(used_group(ow, areanum as int, g, cut)); assert(portal_candidate(ow, areanum as int, g)); }
        return (0, cut);
        }
        i += 1;
    }
    //the front areas should all be connected
    let frontconnected = AAS_ConnectedAreas(w, &sc.frontareanums);
    if !frontconnected {
        proof {
            if face_planes_nonneg(ow) {
                lemma_not_connected(ow, g, sc.frontplanenum, sc.backplanenum, sc.frontfacenums@,
                    sc.backfacenums@, sc.frontareanums@, sc.backareanums@, sc.hasfrontfaces@, sc.hasbackfaces@, true);
            }
        }
        proof { assert(used_group(ow, areanum as int, g, cut)); assert(portal_candidate(ow, areanum as int, g)); }
        return (0, cut);
    }
    //the back areas should all be connected
    let backconnected = AAS_ConnectedAreas(w, &sc.backareanums);
    if !backconnected {
        proof {
            if face_planes_nonneg(ow) {
                lemma_not_connected(ow, g, sc.frontplanenum, sc.backplanenum, sc.frontfacenums@,
                    sc.backfacenums@, sc.frontareanums@, sc.backareanums@, sc.hasfrontfaces@, sc.hasbackfaces@, false);
            }
        }
        proof { assert(used_group(ow, areanum as int, g, cut)); assert(portal_candidate(ow, areanum as int, g)); }
        return (0, cut);
    }
    //none of the front faces should have a shared edge with a back face
    let numfrontfaces = sc.frontfacenums.len();
    let numbackfaces = sc.backfacenums.len();
    let mut x: usize = 0;
    while x < numfrontfaces
        invariant
            graph_wf(ow),
            *w == ow,
            ow == *old(w),
            g == areanums@,
            areas_in_range(ow, g),
            distinct_areas(g),
            g.len() >= 1,
            a == areanum,
            used_group(ow, areanum as int, g, cut),
            g.len() <= MAX_PORTALAREAS,
            cut ==> forall|g2: Seq<i32>| #[trigger] less_group(ow, a as int, g2) ==> g2.len() > MAX_PORTALAREAS,
            !cut ==> less_group(ow, a as int, g),
            !is_portal_area(ow, a as int),
            is_grounded(ow, a as int),
            scan_sane(ow, g, sc),
            face_planes_nonneg(ow) ==> scan_state(ow, g, g.len() as int, 0, sc.frontplanenum, sc.backplanenum, sc.frontfacenums@, sc.backfacenums@, sc.frontareanums@, sc.backareanums@, sc.hasfrontfaces@, sc.hasbackfaces@),
            forall|m: int| 0 <= m < g.len() ==> #[trigger] sc.hasfrontfaces@[m],
            forall|m: int| 0 <= m < g.len() ==> #[trigger] sc.hasbackfaces@[m],
            sc.frontareanums@.len() >= 1 && forall|j: int| 0 <= j < sc.frontareanums@.len() ==>
                #[trigger] list_reaches(ow, sc.frontareanums@, 0, j),
            sc.backareanums@.len() >= 1 && forall|j: int| 0 <= j < sc.backareanums@.len() ==>
                #[trigger] list_reaches(ow, sc.backareanums@, 0, j),
            x <= numfrontfaces,
            numfrontfaces == sc.frontfacenums@.len(),
            numbackfaces == sc.backfacenums@.len(),
            scan_sane(ow, g, sc),
            forall|x2: int, y2: int| 0 <= x2 < x && 0 <= y2 < numbackfaces ==>
                !faces_share_edge(ow, #[trigger] sc.frontfacenums@[x2] as int, #[trigger] sc.backfacenums@[y2] as int),
        decreases numfrontfaces - x,
    {
        let mut y: usize = 0;
        while y < numbackfaces
            invariant
                graph_wf(ow),
                *w == ow,
                ow == *old(w),
                g == areanums@,
                areas_in_range(ow, g),
                distinct_areas(g),
                g.len() >= 1,
                a == areanum,
                used_group(ow, areanum as int, g, cut),
            g.len() <= MAX_PORTALAREAS,
            cut ==> forall|g2: Seq<i32>| #[trigger] less_group(ow, a as int, g2) ==> g2.len() > MAX_PORTALAREAS,
            !cut ==> less_group(ow, a as int, g),
                !is_portal_area(ow, a as int),
                is_grounded(ow, a as int),
                scan_sane(ow, g, sc),
                face_planes_nonneg(ow) ==> scan_state(ow, g, g.len() as int, 0, sc.frontplanenum, sc.backplanenum, sc.frontfacenums@, sc.backfacenums@, sc.frontareanums@, sc.backareanums@, sc.hasfrontfaces@, sc.hasbackfaces@),
                x < numfrontfaces,
                y <= numbackfaces,
                numfrontfaces == sc.frontfacenums@.len(),
                numbackfaces == sc.backfacenums@.len(),
                scan_sane(ow, g, sc),
                forall|y2: int| 0 <= y2 < y ==>
                    !faces_share_edge(ow, sc.frontfacenums@[x as int] as int, #[trigger] sc.backfacenums@[y2] as int),
            decreases numbackfaces - y,
        {
            let f1 = sc.frontfacenums[x] as usize;
            let f2 = sc.backfacenums[y] as usize;
            if faces_share_edge_exec(w, f1, f2) {
                proof {
                    if face_planes_nonneg(ow) {
                        lemma_edge_shared(ow, g, sc.frontplanenum, sc.backplanenum, sc.frontfacenums@,
                            sc.backfacenums@, sc.frontareanums@, sc.backareanums@, sc.hasfrontfaces@, sc.hasbackfaces@,
                            x as int, y as int);
                    }
                }
                proof { assert(used_group(ow, areanum as int, g, cut)); assert(portal_candidate(ow, areanum as int, g)); }
        return (0, cut);
            }
            y += 1;
        }
        x += 1;
    }
    proof {
        if face_planes_nonneg(ow) {
            lemma_portal_found(ow, g, sc.frontplanenum, sc.backplanenum, sc.frontfacenums@,
                sc.backfacenums@, sc.frontareanums@, sc.backareanums@, sc.hasfrontfaces@, sc.hasbackfaces@);
        }
    }
    //set the cluster portal contents
    let mut i: usize = 0;
    while i < numareas
        invariant
            ow == *old(w),
            a == areanum,
            used_group(ow, areanum as int, g, cut),
            g.len() <= MAX_PORTALAREAS,
            cut ==> forall|g2: Seq<i32>| #[trigger] less_group(ow, a as int, g2) ==> g2.len() > MAX_PORTALAREAS,
            !cut ==> less_group(ow, a as int, g),
            g.len() <= MAX_PORTALAREAS,
            !is_portal_area(ow, a as int),
            is_grounded(ow, a as int),
            face_planes_nonneg(ow) ==> exists|p1: int, p2: int| #[trigger] portal_group(ow, g, p1, p2),
            i <= numareas,
            numareas == g.len(),
            g == areanums@,
            distinct_areas(g),
            areas_in_range(ow, g),
            ow.areasettings@.len() >= num_areas(ow),
            marked_portal_areas(ow, *w, g.subrange(0, i as int)),
        decreases numareas - i,
    {
        let b = areanums[i] as usize;
        proof {
            assert(0 <= g[i as int] < num_areas(ow));
        }
        let mut s = w.areasettings[b];
        s.contents = s.contents | AREACONTENTS_CLUSTERPORTAL;
        //this area can be used as a route portal
        s.contents = s.contents | AREACONTENTS_ROUTEPORTAL;
        let ghost wpre = *w;
        w.areasettings.set(b, s);
        proof {
            let g1 = g.subrange(0, i as int);
            let g2 = g.subrange(0, i as int + 1);
            assert forall|y: int| #[trigger] in_group(g2, y) <==> in_group(g1, y) || y == g[i as int] by {
                if in_group(g2, y) {
                    let k = choose|k: int| 0 <= k < g2.len() && #[trigger] g2[k] as int == y;
                    if k < i {
                        assert(g1[k] as int == y);
                    }
                }
                if in_group(g1, y) {
                    let k = choose|k: int| 0 <= k < g1.len() && #[trigger] g1[k] as int == y;
                    assert(g2[k] as int == y);
                }
                if y == g[i as int] {
                    assert(g2[i as int] as int == y);
                }
            }
            assert(!in_group(g1, g[i as int] as int)) by {
                if in_group(g1, g[i as int] as int) {
                    let k = choose|k: int| 0 <= k < g1.len() && #[trigger] g1[k] as int == g[i as int] as int;
                    assert(g[k] == g[i as int]);
                }
            }
            let c0 = ow.areasettings@[b as int].contents;
            assert((c0 | 8i32) | 32i32 == c0 | 8i32 | 32i32) by (bit_vector);
            assert(marked_portal_areas(ow, *w, g2));
        }
        i += 1;
    }
    proof {
        assert(g.subrange(0, g.len() as int) =~= g);
    }
    proof {
        assert(used_group(ow, areanum as int, g, cut));
        assert(portal_candidate(ow, areanum as int, g));
    }
    (numareas as i32, cut)
}

/// The areas beyond an outer face are area numbers.
proof fn lemma_beyond_small(w: aas_s, g: Seq<i32>, p: int)
    ensures
        forall|v: int| #[trigger] beyond(w, g, p, v) ==> i32::MIN <= v <= i32::MAX,
{
    assert forall|v: int| #[trigger] beyond(w, g, p, v) implies i32::MIN <= v <= i32::MAX by {
        let (i2, t2) = choose|i2: int, t2: int| #[trigger] outer_face(w, g, i2, t2) && outer_plane(w, g, i2, t2) == p
            && outer_other(w, g, i2, t2) == v;
    }
}

/// After the whole scan, the front (back) areas are the areas beyond the
/// front (back) plane.
proof fn lemma_scan_beyond(w: aas_s, g: Seq<i32>, fp: i32, bp: i32, ff: Seq<i32>, bf: Seq<i32>,
    fa: Seq<i32>, ba: Seq<i32>, nf: Seq<bool>, nb: Seq<bool>)
    requires
        graph_wf(w),
        areas_in_range(w, g),
        scan_state(w, g, g.len() as int, 0, fp, bp, ff, bf, fa, ba, nf, nb),
    ensures
        forall|v: int| #[trigger] beyond(w, g, fp as int, v) ==> in_seq(fa, v as i32),
        forall|v: int| #[trigger] beyond(w, g, bp as int, v) ==> in_seq(ba, v as i32),
        forall|k: int| 0 <= k < fa.len() ==> #[trigger] beyond(w, g, fp as int, fa[k] as int),
        forall|k: int| 0 <= k < ba.len() ==> #[trigger] beyond(w, g, bp as int, ba[k] as int),
{
    lemma_all_seen(w, g);
    assert forall|v: int| #[trigger] beyond(w, g, fp as int, v) implies in_seq(fa, v as i32) by {
        let (i2, t2) = choose|i2: int, t2: int| #[trigger] outer_face(w, g, i2, t2) && outer_plane(w, g, i2, t2) == fp
            && outer_other(w, g, i2, t2) == v;
        assert(outer_face(w, g, i2, t2));
    }
    assert forall|v: int| #[trigger] beyond(w, g, bp as int, v) implies in_seq(ba, v as i32) by {
        let (i2, t2) = choose|i2: int, t2: int| #[trigger] outer_face(w, g, i2, t2) && outer_plane(w, g, i2, t2) == bp
            && outer_other(w, g, i2, t2) == v;
        assert(outer_face(w, g, i2, t2));
    }
    assert forall|k: int| 0 <= k < fa.len() implies #[trigger] beyond(w, g, fp as int, fa[k] as int) by {
        assert(beyond_seen(w, g, g.len() as int, 0, fp as int, fa[k] as int));
    }
    assert forall|k: int| 0 <= k < ba.len() implies #[trigger] beyond(w, g, bp as int, ba[k] as int) by {
        assert(beyond_seen(w, g, g.len() as int, 0, bp as int, ba[k] as int));
    }
}

/// The first outer face on a plane is one face, so only one area lies
/// beyond it.
proof fn lemma_first_unique(w: aas_s, g: Seq<i32>, p: int, v1: int, v2: int)
    requires
        first_beyond(w, g, p, v1),
        first_beyond(w, g, p, v2),
    ensures
        v1 == v2,
{
    let (i1, t1) = choose|i: int, t: int| #[trigger] first_outer_on(w, g, i, t, p) && outer_other(w, g, i, t) == v1;
    let (i2, t2) = choose|i: int, t: int| #[trigger] first_outer_on(w, g, i, t, p) && outer_other(w, g, i, t) == v2;
    assert(outer_face(w, g, i1, t1));
    assert(outer_face(w, g, i2, t2));
    if face_before(i1, t1, i2, t2) {
        assert(outer_plane(w, g, i1, t1) != p);
    } else if face_before(i2, t2, i1, t1) {
        assert(outer_plane(w, g, i2, t2) != p);
    }
}

/// What lies beyond the first outer face seen on a plane lies beyond the
/// first outer face on that plane.
proof fn lemma_first_seen_beyond(w: aas_s, g: Seq<i32>, i: int, j: int, p: int, v: int)
    requires
        first_seen(w, g, i, j, p, v),
    ensures
        first_beyond(w, g, p, v),
{
    let (i1, t1) = choose|i1: int, t1: int| #[trigger] first_outer_on(w, g, i1, t1, p) && face_before(i1, t1, i, j)
        && outer_other(w, g, i1, t1) == v;
    assert(first_outer_on(w, g, i1, t1, p));
}

/// A list that holds exactly the areas beyond plane `p`, starting with the
/// one beyond the first outer face on `p` and not connected from it, shows
/// that these areas are not connected.
proof fn lemma_beyond_not_connected(w: aas_s, g: Seq<i32>, p: int, l: Seq<i32>)
    requires
        distinct_areas(l),
        forall|v: int| #[trigger] beyond(w, g, p, v) ==> in_seq(l, v as i32),
        forall|k: int| 0 <= k < l.len() ==> #[trigger] beyond(w, g, p, l[k] as int),
        l.len() >= 1,
        first_beyond(w, g, p, l[0] as int),
        !(forall|j: int| 0 <= j < l.len() ==> #[trigger] list_reaches(w, l, 0, j)),
    ensures
        !beyond_connected(w, g, p),
{
    lemma_beyond_small(w, g, p);
    let j = choose|j: int| 0 <= j < l.len() && !#[trigger] list_reaches(w, l, 0, j);
    if beyond_connected(w, g, p) {
        assert(beyond_connected_from(w, g, p, l[0] as int));
        assert(beyond(w, g, p, l[j] as int));
        let q = choose|q: Seq<int>| #[trigger] beyond_path(w, g, p, q) && q[0] == l[0] as int && q.last() == l[j] as int;
        lemma_beyond_path_list(w, g, p, l, q, j);
    }
}

/// A list that holds exactly the areas beyond plane `p`, starting with the
/// one beyond the first outer face on `p` and connected from it, shows that
/// these areas are connected.
proof fn lemma_beyond_connected(w: aas_s, g: Seq<i32>, p: int, l: Seq<i32>)
    requires
        forall|v: int| #[trigger] beyond(w, g, p, v) ==> in_seq(l, v as i32),
        forall|k: int| 0 <= k < l.len() ==> #[trigger] beyond(w, g, p, l[k] as int),
        l.len() >= 1,
        first_beyond(w, g, p, l[0] as int),
        forall|j: int| 0 <= j < l.len() ==> #[trigger] list_reaches(w, l, 0, j),
    ensures
        beyond_connected(w, g, p),
{
    lemma_beyond_small(w, g, p);
    assert(beyond(w, g, p, l[0] as int));
    assert forall|v: int| #[trigger] beyond(w, g, p, v) implies
        exists|q: Seq<int>| #[trigger] beyond_path(w, g, p, q) && q[0] == l[0] as int && q.last() == v by {
        lemma_in_seq_is_contains(l, v as i32);
        assert(l.contains(v as i32));
        let j = choose|j: int| 0 <= j < l.len() && l[j] == v as i32;
        assert(list_reaches(w, l, 0, j));
        lemma_list_path_beyond(w, g, p, l, j);
    }
    assert(beyond_connected_from(w, g, p, l[0] as int));
    assert forall|v: int| #[trigger] first_beyond(w, g, p, v) implies beyond_connected_from(w, g, p, v) by {
        lemma_first_unique(w, g, p, v, l[0] as int);
    }
}

/// When the areas beyond the front (`front`) or back plane are not
/// connected, the group makes no portal.
proof fn lemma_not_connected(w: aas_s, g: Seq<i32>, fp: i32, bp: i32, ff: Seq<i32>, bf: Seq<i32>,
    fa: Seq<i32>, ba: Seq<i32>, nf: Seq<bool>, nb: Seq<bool>, front: bool)
    requires
        graph_wf(w),
        areas_in_range(w, g),
        face_planes_nonneg(w),
        g.len() >= 1,
        scan_state(w, g, g.len() as int, 0, fp, bp, ff, bf, fa, ba, nf, nb),
        first_ok(w, g, g.len() as int, 0, fp, fa),
        first_ok(w, g, g.len() as int, 0, bp, ba),
        forall|m: int| 0 <= m < g.len() ==> #[trigger] nf[m],
        forall|m: int| 0 <= m < g.len() ==> #[trigger] nb[m],
        front ==> !(fa.len() >= 1 && forall|j: int| 0 <= j < fa.len() ==> #[trigger] list_reaches(w, fa, 0, j)),
        !front ==> !(ba.len() >= 1 && forall|j: int| 0 <= j < ba.len() ==> #[trigger] list_reaches(w, ba, 0, j)),
    ensures
        forall|p1: int, p2: int| !#[trigger] portal_group(w, g, p1, p2),
{
    lemma_scan_beyond(w, g, fp, bp, ff, bf, fa, ba, nf, nb);
    lemma_all_seen(w, g);
    let p = if front { fp as int } else { bp as int };
    assert(nf[0]);
    assert(nb[0]);
    assert(area_seen_on(w, g, g.len() as int, 0, 0, p));
    let t0 = choose|t2: int| #[trigger] outer_face(w, g, 0, t2) && face_before(0, t2, g.len() as int, 0)
        && outer_plane(w, g, 0, t2) == p;
    assert(beyond(w, g, p, outer_other(w, g, 0, t0)));
    let l = if front { fa } else { ba };
    lemma_in_seq_is_contains(l, outer_other(w, g, 0, t0) as i32);
    assert(l.len() >= 1);
    lemma_first_seen_beyond(w, g, g.len() as int, 0, p, l[0] as int);
    lemma_beyond_not_connected(w, g, p, l);
    assert forall|p1: int, p2: int| !#[trigger] portal_group(w, g, p1, p2) by {
        if portal_group(w, g, p1, p2) {
            lemma_two_planes_scanned(w, g, fp, bp, ff, bf, fa, ba, nf, nb, p1, p2);
        }
    }
}

/// When a front face and a back face have an edge in common, the group
/// makes no portal.
proof fn lemma_edge_shared(w: aas_s, g: Seq<i32>, fp: i32, bp: i32, ff: Seq<i32>, bf: Seq<i32>,
    fa: Seq<i32>, ba: Seq<i32>, nf: Seq<bool>, nb: Seq<bool>, x: int, y: int)
    requires
        graph_wf(w),
        areas_in_range(w, g),
        face_planes_nonneg(w),
        g.len() >= 1,
        scan_state(w, g, g.len() as int, 0, fp, bp, ff, bf, fa, ba, nf, nb),
        0 <= x < ff.len(),
        0 <= y < bf.len(),
        faces_share_edge(w, ff[x] as int, bf[y] as int),
    ensures
        forall|p1: int, p2: int| !#[trigger] portal_group(w, g, p1, p2),
{
    assert(face_seen(w, g, g.len() as int, 0, fp as int, ff[x] as int));
    assert(face_seen(w, g, g.len() as int, 0, bp as int, bf[y] as int));
    let (i1, t1) = choose|i2: int, t2: int| #[trigger] outer_face(w, g, i2, t2) && face_before(i2, t2, g.len() as int, 0)
        && outer_plane(w, g, i2, t2) == fp && ff[x] as int == area_face(w, g[i2] as int, t2);
    let (i2, t2) = choose|i2: int, t2: int| #[trigger] outer_face(w, g, i2, t2) && face_before(i2, t2, g.len() as int, 0)
        && outer_plane(w, g, i2, t2) == bp && bf[y] as int == area_face(w, g[i2] as int, t2);
    lemma_share_edge_symmetric(w, ff[x] as int, bf[y] as int);
    assert forall|p1: int, p2: int| !#[trigger] portal_group(w, g, p1, p2) by {
        if portal_group(w, g, p1, p2) {
            lemma_two_planes_scanned(w, g, fp, bp, ff, bf, fa, ba, nf, nb, p1, p2);
            assert(outer_face(w, g, i1, t1) && outer_face(w, g, i2, t2));
        }
    }
}

/// When every check went through, the group makes a portal between the
/// front and the back plane.
#[verifier::rlimit(80)]
proof fn lemma_portal_found(w: aas_s, g: Seq<i32>, fp: i32, bp: i32, ff: Seq<i32>, bf: Seq<i32>,
    fa: Seq<i32>, ba: Seq<i32>, nf: Seq<bool>, nb: Seq<bool>)
    requires
        graph_wf(w),
        areas_in_range(w, g),
        face_planes_nonneg(w),
        g.len() >= 1,
        scan_state(w, g, g.len() as int, 0, fp, bp, ff, bf, fa, ba, nf, nb),
        first_ok(w, g, g.len() as int, 0, fp, fa),
        first_ok(w, g, g.len() as int, 0, bp, ba),
        forall|m: int| 0 <= m < g.len() ==> #[trigger] nf[m],
        forall|m: int| 0 <= m < g.len() ==> #[trigger] nb[m],
        fa.len() >= 1 && forall|j: int| 0 <= j < fa.len() ==> #[trigger] list_reaches(w, fa, 0, j),
        ba.len() >= 1 && forall|j: int| 0 <= j < ba.len() ==> #[trigger] list_reaches(w, ba, 0, j),
        forall|x2: int, y2: int| 0 <= x2 < ff.len() && 0 <= y2 < bf.len() ==>
            !faces_share_edge(w, #[trigger] ff[x2] as int, #[trigger] bf[y2] as int),
    ensures
        exists|p1: int, p2: int| #[trigger] portal_group(w, g, p1, p2),
{
    lemma_all_seen(w, g);
    lemma_scan_beyond(w, g, fp, bp, ff, bf, fa, ba, nf, nb);
    assert(nf[0]);
    assert(nb[0]);
    assert(area_seen_on(w, g, g.len() as int, 0, 0, bp as int));
    let t0 = choose|t2: int| #[trigger] outer_face(w, g, 0, t2) && face_before(0, t2, g.len() as int, 0)
        && outer_plane(w, g, 0, t2) == bp;
    lemma_outer_face_facts(w, g, 0, t0);
    assert(bp >= 0);
    assert(two_planes(w, g, fp as int, bp as int)) by {
        assert forall|i: int| 0 <= i < g.len() implies #[trigger] has_outer_on(w, g, i, fp as int)
            && has_outer_on(w, g, i, bp as int) by {
            assert(nf[i]);
            assert(nb[i]);
            assert(area_seen_on(w, g, g.len() as int, 0, i, fp as int));
            assert(area_seen_on(w, g, g.len() as int, 0, i, bp as int));
        }
    }
    assert(outer_no_portal(w, g));
    lemma_first_seen_beyond(w, g, g.len() as int, 0, fp as int, fa[0] as int);
    lemma_first_seen_beyond(w, g, g.len() as int, 0, bp as int, ba[0] as int);
    lemma_beyond_connected(w, g, fp as int, fa);
    lemma_beyond_connected(w, g, bp as int, ba);
    assert(no_shared_edge(w, g, fp as int, bp as int)) by {
        assert forall|i: int, t: int, i2: int, t2: int|
            #[trigger] outer_face(w, g, i, t) && outer_plane(w, g, i, t) == fp
                && #[trigger] outer_face(w, g, i2, t2) && outer_plane(w, g, i2, t2) == bp implies
            !faces_share_edge(w, area_face(w, g[i] as int, t), area_face(w, g[i2] as int, t2)) by {
            assert(in_seq(ff, area_face(w, g[i] as int, t) as i32));
            assert(in_seq(bf, area_face(w, g[i2] as int, t2) as i32));
            lemma_outer_face_facts(w, g, i, t);
            lemma_outer_face_facts(w, g, i2, t2);
            lemma_in_seq_is_contains(ff, area_face(w, g[i] as int, t) as i32);
            lemma_in_seq_is_contains(bf, area_face(w, g[i2] as int, t2) as i32);
            let x = choose|x: int| 0 <= x < ff.len() && ff[x] == area_face(w, g[i] as int, t) as i32;
            let y = choose|y: int| 0 <= y < bf.len() && bf[y] == area_face(w, g[i2] as int, t2) as i32;
            assert(!faces_share_edge(w, ff[x] as int, bf[y] as int));
        }
    }
    assert(portal_group(w, g, fp as int, bp as int));
}

/// `w2` is `w1` but that areas may have become cluster portal and route
/// portal areas.
pub open spec fn portal_flags_added(w1: aas_s, w2: aas_s) -> bool {
    &&& w2.loaded == w1.loaded
    &&& w2.initialized == w1.initialized
    &&& w2.savefile == w1.savefile
    &&& w2.bspchecksum == w1.bspchecksum
    &&& w2.numframes == w1.numframes
    &&& w2.bboxes@ == w1.bboxes@
    &&& w2.vertexes@ == w1.vertexes@
    &&& w2.planes@ == w1.planes@
    &&& w2.edges@ == w1.edges@
    &&& w2.edgeindex@ == w1.edgeindex@
    &&& w2.faces@ == w1.faces@
    &&& w2.faceindex@ == w1.faceindex@
    &&& w2.areas@ == w1.areas@
    &&& w2.reachability@ == w1.reachability@
    &&& w2.nodes@ == w1.nodes@
    &&& w2.portals@ == w1.portals@
    &&& w2.portalindex@ == w1.portalindex@
    &&& w2.clusters@ == w1.clusters@
    &&& w2.areasettings@.len() == w1.areasettings@.len()
    &&& forall|a: int| 0 <= a < w1.areasettings@.len() ==> {
        let s1 = w1.areasettings@[a];
        let s2 = #[trigger] w2.areasettings@[a];
        &&& s2.contents == s1.contents || s2.contents == s1.contents | AREACONTENTS_CLUSTERPORTAL | AREACONTENTS_ROUTEPORTAL
        &&& s2.areaflags == s1.areaflags
        &&& s2.presencetype == s1.presencetype
        &&& s2.cluster == s1.cluster
        &&& s2.clusterareanum == s1.clusterareanum
        &&& s2.numreachableareas == s1.numreachableareas
        &&& s2.firstreachablearea == s1.firstreachablearea
    }
}

/// Some area that was no cluster portal area is one in `w2`.
pub open spec fn new_portal_area(w1: aas_s, w2: aas_s) -> bool {
    exists|a: int| 1 <= a < num_areas(w1) && !is_portal_area(w1, a) && #[trigger] is_portal_area(w2, a)
}

proof fn lemma_flags_added_trans(w1: aas_s, w2: aas_s, w3: aas_s)
    requires
        portal_flags_added(w1, w2),
        portal_flags_added(w2, w3),
        w1.areasettings@.len() >= num_areas(w1),
    ensures
        portal_flags_added(w1, w3),
        new_portal_area(w1, w2) || new_portal_area(w2, w3) ==> new_portal_area(w1, w3),
{
    assert forall|a: int| 0 <= a < w1.areasettings@.len() implies {
        let s1 = w1.areasettings@[a];
        let s2 = #[trigger] w3.areasettings@[a];
        &&& s2.contents == s1.contents || s2.contents == s1.contents | AREACONTENTS_CLUSTERPORTAL | AREACONTENTS_ROUTEPORTAL
        &&& s2.areaflags == s1.areaflags
        &&& s2.presencetype == s1.presencetype
        &&& s2.cluster == s1.cluster
        &&& s2.clusterareanum == s1.clusterareanum
        &&& s2.numreachableareas == s1.numreachableareas
        &&& s2.firstreachablearea == s1.firstreachablearea
    } by {
        let c = w1.areasettings@[a].contents;
        assert(((c | 8i32) | 32i32) | 8i32 | 32i32 == (c | 8i32) | 32i32) by (bit_vector);
        assert(w2.areasettings@[a].areaflags == w1.areasettings@[a].areaflags);
    }
    if new_portal_area(w1, w2) {
        let a = choose|a: int| 1 <= a < num_areas(w1) && !is_portal_area(w1, a) && #[trigger] is_portal_area(w2, a);
        let c = w2.areasettings@[a].contents;
        assert(c & 8i32 != 0 ==> ((c | 8i32) | 32i32) & 8i32 != 0) by (bit_vector);
        assert(w3.areasettings@[a].contents == c || w3.areasettings@[a].contents == c | 8i32 | 32i32);
        assert(is_portal_area(w3, a));
    }
    if new_portal_area(w2, w3) {
        let a = choose|a: int| 1 <= a < num_areas(w2) && !is_portal_area(w2, a) && #[trigger] is_portal_area(w3, a);
        let c = w1.areasettings@[a].contents;
        assert(c & 8i32 == 0 ==> c & 8i32 == 0);
        assert(w2.areasettings@[a].contents == c || w2.areasettings@[a].contents == c | 8i32 | 32i32);
        assert((c | 8i32 | 32i32) & 8i32 != 0) by (bit_vector);
        assert(!is_portal_area(w1, a));
    }
}

/// No group of areas around area `a` makes a cluster portal in `w`, as
/// far as the planes of the faces are known: the area is a cluster portal
/// area already, or is not grounded, or its group of areas with fewer
/// presence types makes no portal.
pub open spec fn no_possible_portal(w: aas_s, a: int) -> bool {
    face_planes_nonneg(w) ==> {
        ||| is_portal_area(w, a)
        ||| !is_grounded(w, a)
        ||| exists|g: Seq<i32>| #[trigger] portal_candidate(w, a, g)
            && forall|p1: int, p2: int| !#[trigger] portal_group(w, g, p1, p2)
    }
}

/// The sum of the counts `ks[1]` up to `ks[i - 1]`.
pub open spec fn count_sum(ks: Seq<int>, i: int) -> int
    decreases i,
{
    if i <= 1 { 0 } else { count_sum(ks, i - 1) + ks[i - 1] }
}

/// The checks of areas `1` up to `ws.len() - 1`, in order, starting from
/// world `w0`: `ws[a]` is the world after the check of area `a`, which
/// marked `ks[a]` areas and cut the group when `cs[a]`.
pub open spec fn portal_search(w0: aas_s, ws: Seq<aas_s>, ks: Seq<int>, cs: Seq<bool>) -> bool {
    &&& ws.len() >= 1
    &&& ks.len() == ws.len()
    &&& cs.len() == ws.len()
    &&& ws[0] == w0
    &&& forall|a: int| #![trigger ks[a]] 1 <= a < ws.len() ==> portal_check(ws[a - 1], a, ws[a], ks[a], cs[a])
}

/// Counts that agree up to `i` have the same sum up to `i`.
proof fn lemma_count_sum_prefix(ks1: Seq<int>, ks2: Seq<int>, i: int)
    requires
        forall|j: int| 0 <= j < i ==> ks1[j] == ks2[j],
    ensures
        count_sum(ks1, i) == count_sum(ks2, i),
    decreases i,
{
    if i > 1 {
        lemma_count_sum_prefix(ks1, ks2, i - 1);
    }
}

/// Checks every area for a possible cluster portal
/// (`AAS_FindPossiblePortals`): areas become cluster portal and route
/// portal areas, nothing else changes. The first part of the result is the
/// number of areas marked, over all checks; it is not zero exactly when
/// some area that was no cluster portal area became one. A count of zero
/// leaves the world as it was, with no area that makes a portal. The second
/// part tells whether the group of some checked area was cut at
/// `MAX_PORTALAREAS` areas (and checked so), which is an error to report.
/// The areas are checked one by one in the order of their numbers, each on
/// the world the earlier checks left (`portal_search`); the world left at
/// the end, the count and the cut follow those checks.
pub fn AAS_FindPossiblePortals(w: &mut aas_s) -> (r: (i64, bool))
    requires
        graph_wf(*old(w)),
    ensures
        portal_flags_added(*old(w), *final(w)),
        r.0 >= 0 && (r.0 > 0 <==> new_portal_area(*old(w), *final(w))),
        r.0 == 0 ==> *final(w) == *old(w)
            && forall|a: int| 1 <= a < num_areas(*old(w)) ==> #[trigger] no_possible_portal(*old(w), a),
        r.1 ==> exists|a: int| 1 <= a < num_areas(*old(w)) && #[trigger] is_grounded(*old(w), a)
            && forall|g: Seq<i32>| #[trigger] less_group(*old(w), a, g) ==> g.len() > MAX_PORTALAREAS,
        exists|ws: Seq<aas_s>, ks: Seq<int>, cs: Seq<bool>| #[trigger] portal_search(*old(w), ws, ks, cs)
            && ws.len() == num_areas(*old(w))
            && ws.last() == *final(w)
            && r.0 == count_sum(ks, ws.len() as int)
            && (r.1 <==> exists|a: int| 1 <= a < ws.len() && #[trigger] cs[a]),
{
    let ghost ow = *old(w);
    let n = w.areas.len();
    let mut numpossibleportals: i64 = 0;
    let mut cut: bool = false;
    let ghost mut ws: Seq<aas_s> = seq![ow];
    let ghost mut ks: Seq<int> = seq![0int];
    let ghost mut cs: Seq<bool> = seq![false];
    let mut i: usize = 1;
    while i < n
        invariant
            n == num_areas(ow),
            1 <= i,
            graph_wf(ow),
            ow == *old(w),
            graph_wf(*w),
            portal_flags_added(ow, *w),
            0 <= numpossibleportals <= (i as int) * 1024,
            numpossibleportals > 0 <==> new_portal_area(ow, *w),
            numpossibleportals == 0 ==> *w == ow
                && forall|a: int| 1 <= a < i ==> #[trigger] no_possible_portal(ow, a),
            cut ==> exists|a: int| 1 <= a < num_areas(ow) && #[trigger] is_grounded(ow, a)
                && forall|g: Seq<i32>| #[trigger] less_group(ow, a, g) ==> g.len() > MAX_PORTALAREAS,
            i <= n,
            portal_search(ow, ws, ks, cs),
            ws.len() == i,
            ws.last() == *w,
            numpossibleportals == count_sum(ks, i as int),
            cut <==> exists|a: int| 1 <= a < i && #[trigger] cs[a],
        decreases n - i,
    {
        let ghost wpre = *w;
        proof {
            lemma_graph_wf_flags(ow, wpre);
        }
        let (k, c) = AAS_CheckAreaForPossiblePortals(w, i as i32);
        proof {
            if k == 0 {
                assert(*w == wpre);
                lemma_flags_added_refl(wpre);
            } else {
                let g = choose|g: Seq<i32>| #[trigger] portal_candidate(wpre, i as int, g)
                    && (if c { cut_group(wpre, i as int, g) } else { less_group(wpre, i as int, g) })
                    && g.len() <= MAX_PORTALAREAS
                    && k == g.len()
                    && marked_portal_areas(wpre, *w, g)
                    && (face_planes_nonneg(wpre) ==> exists|p1: int, p2: int| #[trigger] portal_group(wpre, g, p1, p2));
                lemma_marked_flags_added(wpre, *w, g, i as int);
            }
            lemma_flags_added_trans(ow, wpre, *w);
            if k == 0 && new_portal_area(ow, *w) {
                assert(*w == wpre);
            }
            if k != 0 {
                assert(new_portal_area(wpre, *w));
            }
            if k == 0 && numpossibleportals == 0 {
                assert(wpre == ow);
                if face_planes_nonneg(ow) && !is_portal_area(ow, i as int) && is_grounded(ow, i as int) {
                    if c {
                        let g = choose|g: Seq<i32>| #[trigger] cut_group(ow, i as int, g)
                            && forall|p1: int, p2: int| !#[trigger] portal_group(ow, g, p1, p2);
                        assert(portal_candidate(ow, i as int, g));
                    } else {
                        let g = choose|g: Seq<i32>| #[trigger] less_group(ow, i as int, g)
                            && forall|p1: int, p2: int| !#[trigger] portal_group(ow, g, p1, p2);
                        assert(portal_candidate(ow, i as int, g));
                    }
                }
                assert(no_possible_portal(ow, i as int));
                assert forall|a: int| 1 <= a < i + 1 implies #[trigger] no_possible_portal(ow, a) by {
                    if a < i {
                        assert(no_possible_portal(ow, a));
                    }
                }
            }
            if c {
                crate::clustering::lemma_flags_same_graph(ow, wpre);
                crate::clustering::lemma_groups_same_graph(ow, wpre);
                assert(is_grounded(ow, i as int));
                assert forall|g: Seq<i32>| #[trigger] less_group(ow, i as int, g) implies g.len() > MAX_PORTALAREAS by {
                    assert(less_group(wpre, i as int, g));
                }
            }
        }
        proof {
            let ws2 = ws.push(*w);
            let ks2 = ks.push(k as int);
            let cs2 = cs.push(c);
            assert(portal_check(wpre, i as int, *w, k as int, c));
            assert forall|a: int| #![trigger ks2[a]] 1 <= a < ws2.len()
                implies portal_check(ws2[a - 1], a, ws2[a], ks2[a], cs2[a]) by {
                if a < i {
                    assert(ks2[a] == ks[a]);
                    assert(portal_check(ws[a - 1], a, ws[a], ks[a], cs[a]));
                }
            }
            lemma_count_sum_prefix(ks, ks2, i as int);
            assert(count_sum(ks2, i as int + 1) == count_sum(ks, i as int) + k);
            assert((exists|a: int| 1 <= a < i + 1 && #[trigger] cs2[a]) <==> ((exists|a: int| 1 <= a < i && #[trigger] cs[a]) || c)) by {
                if exists|a: int| 1 <= a < i && #[trigger] cs[a] {
                    let a = choose|a: int| 1 <= a < i && #[trigger] cs[a];
                    assert(cs2[a]);
                }
                if c {
                    assert(cs2[i as int]);
                }
                if exists|a: int| 1 <= a < i + 1 && #[trigger] cs2[a] {
                    let a = choose|a: int| 1 <= a < i + 1 && #[trigger] cs2[a];
                    if a < i {
                        assert(cs[a]);
                    }
                }
            }
            ws = ws2;
            ks = ks2;
            cs = cs2;
        }
        numpossibleportals = numpossibleportals + k as i64;
        cut = cut || c;
        proof {
            assert(0 <= k <= 1024) by {
                if k != 0 {
                    let g = choose|g: Seq<i32>| #[trigger] portal_candidate(wpre, i as int, g)
                        && (if c { cut_group(wpre, i as int, g) } else { less_group(wpre, i as int, g) })
                        && g.len() <= MAX_PORTALAREAS
                        && k == g.len()
                        && marked_portal_areas(wpre, *w, g)
                        && (face_planes_nonneg(wpre) ==> exists|p1: int, p2: int| #[trigger] portal_group(wpre, g, p1, p2));
                    assert(g.len() <= MAX_PORTALAREAS);
                }
            }
            assert(numpossibleportals <= (i as int + 1) * 1024) by (nonlinear_arith)
                requires numpossibleportals - k <= (i as int) * 1024, k <= 1024;
        }
        i += 1;
    }
    proof {
        assert(portal_search(ow, ws, ks, cs));
    }
    (numpossibleportals, cut)
}

proof fn lemma_flags_added_refl(w: aas_s)
    ensures
        portal_flags_added(w, w),
        !new_portal_area(w, w),
{
}

/// The marks of a possible portal add portal flags, and make the checked
/// area a new cluster portal area.
proof fn lemma_marked_flags_added(w1: aas_s, w2: aas_s, g: Seq<i32>, a: int)
    requires
        marked_portal_areas(w1, w2, g),
        g.len() >= 1,
        g[0] == a,
        w1.areasettings@.len() >= num_areas(w1),
        1 <= a < num_areas(w1),
        !is_portal_area(w1, a),
    ensures
        portal_flags_added(w1, w2),
        new_portal_area(w1, w2),
{
    assert(in_group(g, a)) by {
        assert(g[0] as int == a);
    }
    let c = w1.areasettings@[a].contents;
    assert((c | 8i32 | 32i32) & 8i32 != 0) by (bit_vector);
    assert(is_portal_area(w2, a));
}

/// Adding portal flags keeps the graph consistent.
proof fn lemma_graph_wf_flags(w1: aas_s, w2: aas_s)
    requires
        portal_flags_added(w1, w2),
        graph_wf(w1),
    ensures
        graph_wf(w2),
{
    assert forall|a: int| 0 <= a < num_areas(w2) implies {
        &&& 0 <= #[trigger] w2.areas@[a].numfaces
        &&& 0 <= w2.areas@[a].firstface
        &&& w2.areas@[a].firstface + w2.areas@[a].numfaces <= w2.faceindex@.len()
        &&& 0 <= w2.areasettings@[a].numreachableareas
        &&& 0 <= w2.areasettings@[a].firstreachablearea
        &&& w2.areasettings@[a].firstreachablearea + w2.areasettings@[a].numreachableareas
            <= w2.reachability@.len()
    } by {
        assert(w2.areasettings@[a].numreachableareas == w1.areasettings@[a].numreachableareas);
    }
}

} // verus!
