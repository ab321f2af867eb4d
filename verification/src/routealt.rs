//! Alternative routing: areas half way between a start and a goal are
//! grouped into clusters of areas connected through faces; each cluster
//! gives one alternative route goal.
use vstd::prelude::*;
use crate::aasfile::{AREACONTENTS_CLUSTERPORTAL, AREACONTENTS_VIEWPORTAL};
use crate::aasworld::aas_s;
use crate::cluster::{num_areas, graph_wf, face_neighbor};
use crate::clusternum::{area_reach, AAS_AreaReachability};

verus! {

pub const ALTROUTEGOAL_ALL: i32 = 1;
pub const ALTROUTEGOAL_CLUSTERPORTALS: i32 = 2;
pub const ALTROUTEGOAL_VIEWPORTALS: i32 = 4;

/// An area on the way between the start and the goal.
#[derive(Clone, Copy, Debug, PartialEq, Eq, Structural)]
pub struct midrangearea_s {
    pub valid: bool,
    pub starttime: u16,
    pub goaltime: u16,
}

pub type midrangearea_t = midrangearea_s;

/// The state of alternative routing: an entry for every area, and the
/// areas of the cluster being flooded.
pub struct AltRouting {
    pub midrangeareas: Vec<midrangearea_t>,
    pub clusterareas: Vec<i32>,
}

/// Sets up alternative routing for the areas of `w`
/// (`AAS_InitAlternativeRouting`): one entry per area, none a mid range
/// area.  The cluster areas, and so their count, stay as they were: only
/// shutting down clears them.
pub fn AAS_InitAlternativeRouting(alt: &mut AltRouting, w: &aas_s)
    ensures
        final(alt).midrangeareas@.len() == w.areas@.len(),
        forall|a: int| 0 <= a < w.areas@.len() ==> !(#[trigger] final(alt).midrangeareas@[a]).valid,
        final(alt).clusterareas@ == old(alt).clusterareas@,
{
    let n = w.areas.len();
    let mut m: Vec<midrangearea_t> = Vec::new();
    let mut i: usize = 0;
    while i < n
        invariant
            i <= n,
            m@.len() == i,
            forall|a: int| 0 <= a < i ==> !(#[trigger] m@[a]).valid,
        decreases n - i,
    {
        m.push(midrangearea_s { valid: false, starttime: 0, goaltime: 0 });
        i += 1;
    }
    alt.midrangeareas = m;
}

/// Ends alternative routing (`AAS_ShutdownAlternativeRouting`): no mid
/// range areas and no cluster areas are left.
pub fn AAS_ShutdownAlternativeRouting(alt: &mut AltRouting)
    ensures
        final(alt).midrangeareas@.len() == 0,
        final(alt).clusterareas@.len() == 0,
{
    alt.midrangeareas = Vec::new();
    alt.clusterareas = Vec::new();
}

/// Area `a` counts as a mid range area for the kind of goals `type_`: all
/// areas, cluster portal areas or view portal areas.
pub open spec fn altroute_type_ok(w: aas_s, a: int, type_: i32) -> bool {
    ||| type_ & ALTROUTEGOAL_ALL != 0
    ||| (type_ & ALTROUTEGOAL_CLUSTERPORTALS != 0 && w.areasettings@[a].contents & AREACONTENTS_CLUSTERPORTAL != 0)
    ||| (type_ & ALTROUTEGOAL_VIEWPORTALS != 0 && w.areasettings@[a].contents & AREACONTENTS_VIEWPORTAL != 0)
}

/// Area `a` is a mid range area: of the right kind, with reachabilities,
/// reached from the start within `startlimit` and reaching the goal within
/// `goallimit` (travel times of zero mean no route).
pub open spec fn is_midrange(w: aas_s, a: int, type_: i32, starttimes: Seq<i32>, goaltimes: Seq<i32>,
    startlimit: i32, goallimit: i32) -> bool {
    &&& 1 <= a < num_areas(w)
    &&& altroute_type_ok(w, a, type_)
    &&& area_reach(w, a)
    &&& starttimes[a] != 0
    &&& starttimes[a] <= startlimit
    &&& goaltimes[a] != 0
    &&& goaltimes[a] <= goallimit
}

/// Marks the mid range areas (the first part of
/// `AAS_AlternativeRouteGoals`). `starttimes[a]` is the travel time from
/// the start to area `a`, `goaltimes[a]` that from area `a` to the goal;
/// `startlimit` and `goallimit` are the most they may be. Every other area
/// is no mid range area. The travel times are kept, cut to 16 bits.
pub fn AAS_MarkMidRangeAreas(alt: &mut AltRouting, w: &aas_s, type_: i32, starttimes: &Vec<i32>,
    goaltimes: &Vec<i32>, startlimit: i32, goallimit: i32)
    requires
        w.areasettings@.len() >= w.areas@.len(),
        w.areas@.len() <= 0x7fff_ffff,
        starttimes@.len() >= w.areas@.len(),
        goaltimes@.len() >= w.areas@.len(),
    ensures
        final(alt).midrangeareas@.len() == w.areas@.len(),
        final(alt).clusterareas@ == old(alt).clusterareas@,
        forall|a: int| 0 <= a < w.areas@.len() ==> {
            let m = #[trigger] final(alt).midrangeareas@[a];
            &&& m.valid == is_midrange(*w, a, type_, starttimes@, goaltimes@, startlimit, goallimit)
            &&& m.valid ==> m.starttime == starttimes@[a] as u16 && m.goaltime == goaltimes@[a] as u16
        },
{
    let n = w.areas.len();
    let mut m: Vec<midrangearea_t> = Vec::new();
    //clear the midrange areas
    let mut k: usize = 0;
    while k < n
        invariant
            k <= n,
            m@.len() == k,
            forall|a: int| 0 <= a < k ==> !(#[trigger] m@[a]).valid,
        decreases n - k,
    {
        m.push(midrangearea_s { valid: false, starttime: 0, goaltime: 0 });
        k += 1;
    }
    let mut i: usize = if n > 0 { 1 } else { 0 };
    while i < n
        invariant
            n == num_areas(*w),
            n <= 0x7fff_ffff,
            w.areasettings@.len() >= n,
            starttimes@.len() >= n,
            goaltimes@.len() >= n,
            n > 0 ==> 1 <= i,
            i <= n,
            m@.len() == n,
            forall|a: int| 0 <= a < n ==> {
                let x = #[trigger] m@[a];
                &&& x.valid == (a < i && is_midrange(*w, a, type_, starttimes@, goaltimes@, startlimit, goallimit))
                &&& x.valid ==> x.starttime == starttimes@[a] as u16 && x.goaltime == goaltimes@[a] as u16
            },
        decreases n - i,
    {
        let contents = w.areasettings[i].contents;
        let typeok = (type_ & ALTROUTEGOAL_ALL) != 0
            || ((type_ & ALTROUTEGOAL_CLUSTERPORTALS) != 0 && (contents & AREACONTENTS_CLUSTERPORTAL) != 0)
            || ((type_ & ALTROUTEGOAL_VIEWPORTALS) != 0 && (contents & AREACONTENTS_VIEWPORTAL) != 0);
        if typeok {
            //if the area has reachabilities
            if AAS_AreaReachability(w, i as i32) != 0 {
                //travel time from the start area to the area
                let starttime = starttimes[i];
                //travel time from the area to the goal area
                let goaltime = goaltimes[i];
                if starttime != 0 && starttime <= startlimit && goaltime != 0 && goaltime <= goallimit {
                    //this is a mid range area
                    m.set(i, midrangearea_s { valid: true, starttime: starttime as u16, goaltime: goaltime as u16 });
                }
            }
        }
        i += 1;
    }
    alt.midrangeareas = m;
}

/// The areas of `s` from position `from` on are distinct, and each but the
/// first is at the other side of a face of an area before it.
pub open spec fn face_parents(w: aas_s, s: Seq<i32>, from: int) -> bool {
    forall|j: int| from < j < s.len() ==> #[trigger] has_face_parent(w, s, from, j)
}

/// The area at position `j` of `s` is at the other side of a face of an
/// area at a position from `from` on and before `j`.
pub open spec fn has_face_parent(w: aas_s, s: Seq<i32>, from: int, j: int) -> bool {
    exists|i: int, t: int| from <= i < j && 0 <= t < w.areas@[s[i] as int].numfaces
        && #[trigger] face_neighbor(w, s[i] as int, t) == s[j] as int
}

/// Area `a` is one of the areas of `s` from position `from` on.
pub open spec fn in_tail(s: Seq<i32>, from: int, a: int) -> bool {
    exists|k: int| from <= k < s.len() && #[trigger] s[k] as int == a
}

/// Number of mid range areas among the first `end` entries.
pub open spec fn count_valid(m: Seq<midrangearea_t>, end: int) -> int
    decreases end,
{
    if end <= 0 { 0 } else { count_valid(m, end - 1) + (if m[end - 1].valid { 1int } else { 0int }) }
}

proof fn lemma_count_valid(m1: Seq<midrangearea_t>, m2: Seq<midrangearea_t>, end: int, x: int)
    requires
        forall|a: int| 0 <= a < end && !m1[a].valid ==> !(#[trigger] m2[a]).valid,
    ensures
        0 <= count_valid(m2, end) <= count_valid(m1, end),
        0 <= x < end && m1[x].valid && !m2[x].valid ==> count_valid(m2, end) < count_valid(m1, end),
    decreases end,
{
    if end > 0 {
        lemma_count_valid(m1, m2, end - 1, x);
        if !m1[end - 1].valid {
            assert(!m2[end - 1].valid);
        }
    }
}

/// Adds area `areanum` and, recursively, every mid range area at the other
/// side of a face of an added area to the cluster areas, and makes them no
/// mid range areas (`AAS_AltRoutingFloodCluster_r`).
pub fn AAS_AltRoutingFloodCluster_r(alt: &mut AltRouting, w: &aas_s, areanum: i32)
    requires
        graph_wf(*w),
        old(alt).midrangeareas@.len() == num_areas(*w),
        0 <= areanum < num_areas(*w),
        old(alt).midrangeareas@[areanum as int].valid,
    ensures
        final(alt).midrangeareas@.len() == old(alt).midrangeareas@.len(),
        final(alt).clusterareas@.len() > old(alt).clusterareas@.len(),
        final(alt).clusterareas@.subrange(0, old(alt).clusterareas@.len() as int) == old(alt).clusterareas@,
        final(alt).clusterareas@[old(alt).clusterareas@.len() as int] == areanum,
        face_parents(*w, final(alt).clusterareas@, old(alt).clusterareas@.len() as int),
        forall|a: int| 0 <= a < num_areas(*w) ==> {
            let m1 = old(alt).midrangeareas@[a];
            let m2 = #[trigger] final(alt).midrangeareas@[a];
            &&& m2.starttime == m1.starttime
            &&& m2.goaltime == m1.goaltime
            &&& m2.valid == (m1.valid && !in_tail(final(alt).clusterareas@, old(alt).clusterareas@.len() as int, a))
        },
        forall|k: int| old(alt).clusterareas@.len() <= k < final(alt).clusterareas@.len() ==> {
            &&& 0 <= #[trigger] final(alt).clusterareas@[k] < num_areas(*w)
            &&& old(alt).midrangeareas@[final(alt).clusterareas@[k] as int].valid
        },
        // every face of an added area leads to no area or to no mid range area
        forall|k: int, t: int| old(alt).clusterareas@.len() <= k < final(alt).clusterareas@.len()
            && 0 <= t < w.areas@[final(alt).clusterareas@[k] as int].numfaces ==> {
            let y = #[trigger] face_neighbor(*w, final(alt).clusterareas@[k] as int, t);
            y == 0 || !final(alt).midrangeareas@[y].valid
        },
    decreases count_valid(old(alt).midrangeareas@, num_areas(*w)),
{
    let ghost om = old(alt).midrangeareas@;
    let ghost start = old(alt).clusterareas@.len() as int;
    let ghost oc = old(alt).clusterareas@;
    let ghost n = num_areas(*w);
    let a = areanum as usize;
    //add the current area to the areas of the current cluster
    alt.clusterareas.push(areanum);
    //remove the area from the mid range areas
    let mut m = alt.midrangeareas[a];
    m.valid = false;
    alt.midrangeareas.set(a, m);
    proof {
        lemma_count_valid(om, alt.midrangeareas@, n, a as int);
        assert(alt.clusterareas@.subrange(0, start) =~= oc);
        assert forall|x: int| 0 <= x < n implies {
            let m1 = om[x];
            let m2 = #[trigger] alt.midrangeareas@[x];
            &&& m2.starttime == m1.starttime
            &&& m2.goaltime == m1.goaltime
            &&& m2.valid == (m1.valid && !in_tail(alt.clusterareas@, start, x))
        } by {
            if x == a {
                assert(alt.clusterareas@[start] as int == x);
            } else if in_tail(alt.clusterareas@, start, x) {
                let k = choose|k: int| start <= k < alt.clusterareas@.len() && #[trigger] alt.clusterareas@[k] as int == x;
                assert(k == start);
            }
        }
    }
    //flood to other areas through the faces of this area
    proof {
        assert(0 <= w.areas@[a as int].numfaces);
    }
    let numfaces = w.areas[a].numfaces as usize;
    let firstface = w.areas[a].firstface as usize;
    let mut i: usize = 0;
    while i < numfaces
        invariant
            graph_wf(*w),
            n == num_areas(*w),
            a == areanum,
            0 <= a < n,
            numfaces == w.areas@[a as int].numfaces,
            firstface == w.areas@[a as int].firstface,
            firstface + numfaces <= w.faceindex@.len(),
            i <= numfaces,
            om == old(alt).midrangeareas@,
            oc == old(alt).clusterareas@,
            start == oc.len(),
            om.len() == n,
            om[a as int].valid,
            alt.midrangeareas@.len() == n,
            alt.clusterareas@.len() > start,
            alt.clusterareas@.subrange(0, start) == oc,
            alt.clusterareas@[start] == areanum,
            face_parents(*w, alt.clusterareas@, start),
            count_valid(alt.midrangeareas@, n) < count_valid(om, n),
            forall|x: int| 0 <= x < n ==> {
                let m1 = om[x];
                let m2 = #[trigger] alt.midrangeareas@[x];
                &&& m2.starttime == m1.starttime
                &&& m2.goaltime == m1.goaltime
                &&& m2.valid == (m1.valid && !in_tail(alt.clusterareas@, start, x))
            },
            forall|k: int| start <= k < alt.clusterareas@.len() ==> {
                &&& 0 <= #[trigger] alt.clusterareas@[k] < n
                &&& om[alt.clusterareas@[k] as int].valid
            },
            forall|k: int, t: int| start < k < alt.clusterareas@.len()
                && 0 <= t < w.areas@[alt.clusterareas@[k] as int].numfaces ==> {
                let y = #[trigger] face_neighbor(*w, alt.clusterareas@[k] as int, t);
                y == 0 || !alt.midrangeareas@[y].valid
            },
            forall|t: int| 0 <= t < i ==> {
                let y = #[trigger] face_neighbor(*w, a as int, t);
                y == 0 || !alt.midrangeareas@[y].valid
            },
        decreases numfaces - i,
    {
        let fi = w.faceindex[firstface + i];
        proof {
            assert(-(w.faces@.len() as int) < w.faceindex@[firstface + i] < w.faces@.len());
        }
        let facenum: usize = if fi < 0 { (-fi) as usize } else { fi as usize };
        let face = w.faces[facenum];
        proof {
            assert(0 <= face.frontarea < n);
            assert(0 <= face.backarea < n);
        }
        //get the area at the other side of the face
        let otherareanum = if face.frontarea == areanum { face.backarea } else { face.frontarea };
        proof {
            assert(otherareanum == face_neighbor(*w, a as int, i as int));
        }
        //if there is an area at the other side of this face that is a mid range area
        if otherareanum != 0 && alt.midrangeareas[otherareanum as usize].valid {
            let ghost before = alt.clusterareas@;
            let ghost mbefore = alt.midrangeareas@;
            proof {
                lemma_count_valid(mbefore, mbefore, n, 0);
            }
            AAS_AltRoutingFloodCluster_r(alt, w, otherareanum);
            proof {
                lemma_flood_extend(*w, om, mbefore, alt.midrangeareas@, before, alt.clusterareas@, start, a as int, i as int,
                    otherareanum as int, n);
            }
        }
        i += 1;
    }
    proof {
        assert forall|k: int, t: int| start <= k < alt.clusterareas@.len()
            && 0 <= t < w.areas@[alt.clusterareas@[k] as int].numfaces implies {
            let y = #[trigger] face_neighbor(*w, alt.clusterareas@[k] as int, t);
            y == 0 || !alt.midrangeareas@[y].valid
        } by {
            if k == start {
                assert(alt.clusterareas@[k] == areanum);
            }
        }
    }
}

/// A recursive flood appended areas after `before`: the facts of the
/// flood from area `a` carry over.
#[verifier::rlimit(40)]
proof fn lemma_flood_extend(w: aas_s, om: Seq<midrangearea_t>, m1: Seq<midrangearea_t>, m2: Seq<midrangearea_t>,
    before: Seq<i32>, after: Seq<i32>, start: int, a: int, i: int, y: int, n: int)
    requires
        graph_wf(w),
        n == num_areas(w),
        0 <= a < n,
        0 <= i < w.areas@[a].numfaces,
        y == face_neighbor(w, a, i),
        y != 0,
        0 <= y < n,
        m1[y].valid,
        om.len() == n,
        m1.len() == n,
        m2.len() == n,
        0 <= start < before.len(),
        before[start] == a,
        face_parents(w, before, start),
        count_valid(m1, n) < count_valid(om, n),
        forall|x: int| 0 <= x < n ==> {
            let o = om[x];
            let p = #[trigger] m1[x];
            &&& p.starttime == o.starttime
            &&& p.goaltime == o.goaltime
            &&& p.valid == (o.valid && !in_tail(before, start, x))
        },
        forall|k: int| start <= k < before.len() ==> {
            &&& 0 <= #[trigger] before[k] < n
            &&& om[before[k] as int].valid
        },
        forall|k: int, t: int| start < k < before.len() && 0 <= t < w.areas@[before[k] as int].numfaces ==> {
            let z = #[trigger] face_neighbor(w, before[k] as int, t);
            z == 0 || !m1[z].valid
        },
        forall|t: int| 0 <= t < i ==> {
            let z = #[trigger] face_neighbor(w, a, t);
            z == 0 || !m1[z].valid
        },
        // what the recursive flood from `y` promises
        after.len() > before.len(),
        after.subrange(0, before.len() as int) == before,
        after[before.len() as int] == y,
        face_parents(w, after, before.len() as int),
        forall|x: int| 0 <= x < n ==> {
            let p = m1[x];
            let q = #[trigger] m2[x];
            &&& q.starttime == p.starttime
            &&& q.goaltime == p.goaltime
            &&& q.valid == (p.valid && !in_tail(after, before.len() as int, x))
        },
        forall|k: int| before.len() <= k < after.len() ==> {
            &&& 0 <= #[trigger] after[k] < n
            &&& m1[after[k] as int].valid
        },
        forall|k: int, t: int| before.len() <= k < after.len() && 0 <= t < w.areas@[after[k] as int].numfaces ==> {
            let z = #[trigger] face_neighbor(w, after[k] as int, t);
            z == 0 || !m2[z].valid
        },
    ensures
        after.subrange(0, start) == before.subrange(0, start),
        after[start] == a,
        face_parents(w, after, start),
        count_valid(m2, n) < count_valid(om, n),
        forall|x: int| 0 <= x < n ==> {
            let o = om[x];
            let q = #[trigger] m2[x];
            &&& q.starttime == o.starttime
            &&& q.goaltime == o.goaltime
            &&& q.valid == (o.valid && !in_tail(after, start, x))
        },
        forall|k: int| start <= k < after.len() ==> {
            &&& 0 <= #[trigger] after[k] < n
            &&& om[after[k] as int].valid
        },
        forall|k: int, t: int| start < k < after.len() && 0 <= t < w.areas@[after[k] as int].numfaces ==> {
            let z = #[trigger] face_neighbor(w, after[k] as int, t);
            z == 0 || !m2[z].valid
        },
        forall|t: int| 0 <= t < i + 1 ==> {
            let z = #[trigger] face_neighbor(w, a, t);
            z == 0 || !m2[z].valid
        },
{
    let bl = before.len() as int;
    assert forall|k: int| 0 <= k < bl implies after[k] == before[k] by {
        assert(after[k] == after.subrange(0, bl)[k]);
    }
    assert(after.subrange(0, start) =~= before.subrange(0, start));
    lemma_count_valid(m1, m2, n, 0);
    assert forall|x: int| 0 <= x < n implies {
        let o = om[x];
        let q = #[trigger] m2[x];
        &&& q.starttime == o.starttime
        &&& q.goaltime == o.goaltime
        &&& q.valid == (o.valid && !in_tail(after, start, x))
    } by {
        let p = m1[x];
        if in_tail(before, start, x) {
            let k = choose|k: int| start <= k < bl && #[trigger] before[k] as int == x;
            assert(after[k] as int == x);
        }
        if in_tail(after, bl, x) {
            let k = choose|k: int| bl <= k < after.len() && #[trigger] after[k] as int == x;
            assert(in_tail(after, start, x));
        }
        if in_tail(after, start, x) {
            let k = choose|k: int| start <= k < after.len() && #[trigger] after[k] as int == x;
            if k < bl {
                assert(before[k] as int == x);
                assert(in_tail(before, start, x));
            } else {
                assert(in_tail(after, bl, x));
            }
        }
    }
    assert forall|k: int| start <= k < after.len() implies {
        &&& 0 <= #[trigger] after[k] < n
        &&& om[after[k] as int].valid
    } by {
        if k < bl {
            assert(after[k] == before[k]);
        } else {
            assert(m1[after[k] as int].valid);
        }
    }
    assert forall|j: int| start < j < after.len() implies #[trigger] has_face_parent(w, after, start, j) by {
        if j < bl {
            assert(has_face_parent(w, before, start, j));
            let (k, t) = choose|k: int, t: int| start <= k < j && 0 <= t < w.areas@[before[k] as int].numfaces
                && #[trigger] face_neighbor(w, before[k] as int, t) == before[j] as int;
            assert(after[k] == before[k]);
            assert(after[j] == before[j]);
            assert(face_neighbor(w, after[k] as int, t) == after[j] as int);
        } else if j == bl {
            assert(after[start] as int == a);
            assert(face_neighbor(w, after[start] as int, i) == after[j] as int);
        } else {
            assert(has_face_parent(w, after, bl, j));
            let (k, t) = choose|k: int, t: int| bl <= k < j && 0 <= t < w.areas@[after[k] as int].numfaces
                && #[trigger] face_neighbor(w, after[k] as int, t) == after[j] as int;
            assert(face_neighbor(w, after[k] as int, t) == after[j] as int);
        }
    }
    assert forall|k: int, t: int| start < k < after.len() && 0 <= t < w.areas@[after[k] as int].numfaces implies {
        let z = #[trigger] face_neighbor(w, after[k] as int, t);
        z == 0 || !m2[z].valid
    } by {
        if k < bl {
            assert(after[k] == before[k]);
            let z = face_neighbor(w, before[k] as int, t);
            if z != 0 {
                lemma_nbr_small(w, before[k] as int, t);
                assert(!m1[z].valid);
            }
        }
    }
    assert forall|t: int| 0 <= t < i + 1 implies {
        let z = #[trigger] face_neighbor(w, a, t);
        z == 0 || !m2[z].valid
    } by {
        let z = face_neighbor(w, a, t);
        if z != 0 {
            lemma_nbr_small(w, a, t);
            if t == i {
                assert(after[bl] as int == y);
                assert(in_tail(after, bl, y));
            } else {
                assert(!m1[z].valid);
            }
        }
    }
}

/// The area at the other side of a face is an area number.
proof fn lemma_nbr_small(w: aas_s, a: int, t: int)
    requires
        graph_wf(w),
        0 <= a < num_areas(w),
        0 <= t < w.areas@[a].numfaces,
    ensures
        0 <= face_neighbor(w, a, t) < num_areas(w),
{
    assert(0 <= w.areas@[a].numfaces);
    assert(-(w.faces@.len() as int) < w.faceindex@[w.areas@[a].firstface + t] < w.faces@.len());
    let f = crate::cluster::area_face(w, a, t);
    assert(0 <= w.faces@[f].frontarea < num_areas(w));
}

/// Area `a` is in one of the clusters of `cs`.
pub open spec fn in_clusters(cs: Seq<Seq<i32>>, a: int) -> bool {
    exists|k: int, j: int| 0 <= k < cs.len() && 0 <= j < cs[k].len() && #[trigger] cs[k][j] as int == a
}

/// `c` is a cluster of former mid range areas of `m1` connected through
/// faces, with no face of it leading to a mid range area of `m2`.
pub open spec fn altroute_cluster(w: aas_s, m1: Seq<midrangearea_t>, m2: Seq<midrangearea_t>, c: Seq<i32>) -> bool {
    &&& c.len() >= 1
    &&& face_parents(w, c, 0)
    &&& forall|j: int| 0 <= j < c.len() ==> 0 <= #[trigger] c[j] < num_areas(w) && m1[c[j] as int].valid
    &&& forall|j: int, t: int| 0 <= j < c.len() && 0 <= t < w.areas@[c[j] as int].numfaces ==> {
        let y = #[trigger] face_neighbor(w, c[j] as int, t);
        y == 0 || !m2[y].valid
    }
}

/// No area is in two of the clusters `cs`.
pub open spec fn clusters_disjoint(cs: Seq<Vec<i32>>) -> bool {
    forall|k1: int, k2: int, j1: int, j2: int|
        0 <= k1 < k2 < cs.len() && 0 <= j1 < cs[k1]@.len() && 0 <= j2 < cs[k2]@.len()
            ==> #[trigger] cs[k1]@[j1] != #[trigger] cs[k2]@[j2]
}

/// Groups the mid range areas into clusters of areas connected through
/// faces, flooding from the mid range areas in the order of their numbers
/// (the clustering part of `AAS_AlternativeRouteGoals`). No area is in two
/// clusters, and there are never more clusters than `maxaltroutegoals`
/// (none for a limit below one, and then nothing changes); the flooding
/// stops once there are that many. The areas of the clusters are no mid
/// range areas any more.
#[verifier::rlimit(60)]
pub fn AAS_AltRouteClusters(alt: &mut AltRouting, w: &aas_s, maxaltroutegoals: i32) -> (cs: Vec<Vec<i32>>)
    requires
        graph_wf(*w),
        old(alt).midrangeareas@.len() == num_areas(*w),
    ensures
        final(alt).midrangeareas@.len() == num_areas(*w),
        cs@.len() <= if maxaltroutegoals < 0 { 0 } else { maxaltroutegoals as int },
        maxaltroutegoals < 1 ==> cs@.len() == 0 && final(alt).midrangeareas@ == old(alt).midrangeareas@,
        final(alt).clusterareas@ == if cs@.len() > 0 { cs@[cs@.len() - 1]@ } else { old(alt).clusterareas@ },
        clusters_disjoint(cs@),
        forall|k: int| 0 <= k < cs@.len() ==>
            altroute_cluster(*w, old(alt).midrangeareas@, final(alt).midrangeareas@, #[trigger] cs@[k]@),
        forall|a: int| 0 <= a < num_areas(*w) ==> {
            let m1 = old(alt).midrangeareas@[a];
            let m2 = #[trigger] final(alt).midrangeareas@[a];
            &&& m2.starttime == m1.starttime
            &&& m2.goaltime == m1.goaltime
            &&& m2.valid == (m1.valid && !in_clusters(cs@.map_values(|c: Vec<i32>| c@), a))
        },
        maxaltroutegoals >= 1 && cs@.len() < maxaltroutegoals ==>
            forall|a: int| 1 <= a < num_areas(*w) ==> !(#[trigger] final(alt).midrangeareas@[a]).valid,
        forall|k1: int, k2: int| 0 <= k1 < k2 < cs@.len() ==> #[trigger] cs@[k1]@[0] < #[trigger] cs@[k2]@[0],
        forall|k: int, a: int| #![trigger cs@[k], old(alt).midrangeareas@[a]]
            0 <= k < cs@.len() && 1 <= a < cs@[k]@[0] && old(alt).midrangeareas@[a].valid
            ==> in_clusters(cs@.take(k).map_values(|c: Vec<i32>| c@), a),
{
    if maxaltroutegoals < 1 {
        return Vec::new();
    }
    let ghost om = old(alt).midrangeareas@;
    let n = w.areas.len();
    let mut cs: Vec<Vec<i32>> = Vec::new();
    let mut i: usize = 1;
    while i < n
        invariant_except_break
            cs@.len() < maxaltroutegoals,
            forall|k: int| 0 <= k < cs@.len() ==> 1 <= #[trigger] cs@[k]@[0] < i,
        invariant
            maxaltroutegoals >= 1,
            clusters_disjoint(cs@),
            graph_wf(*w),
            n == num_areas(*w),
            om == old(alt).midrangeareas@,
            om.len() == n,
            1 <= i,
            alt.midrangeareas@.len() == n,
            cs@.len() <= maxaltroutegoals,
            forall|k: int| 0 <= k < cs@.len() ==> altroute_cluster(*w, om, alt.midrangeareas@, #[trigger] cs@[k]@),
            forall|a: int| 0 <= a < n ==> {
                let m1 = om[a];
                let m2 = #[trigger] alt.midrangeareas@[a];
                &&& m2.starttime == m1.starttime
                &&& m2.goaltime == m1.goaltime
                &&& m2.valid == (m1.valid && !in_clusters(cs@.map_values(|c: Vec<i32>| c@), a))
            },
            forall|a: int| 1 <= a < i && a < n ==> !(#[trigger] alt.midrangeareas@[a]).valid,
            forall|k1: int, k2: int| 0 <= k1 < k2 < cs@.len() ==> #[trigger] cs@[k1]@[0] < #[trigger] cs@[k2]@[0],
            forall|k: int, a: int| #![trigger cs@[k], om[a]]
                0 <= k < cs@.len() && 1 <= a < cs@[k]@[0] && om[a].valid
                ==> in_clusters(cs@.take(k).map_values(|c: Vec<i32>| c@), a),
            alt.clusterareas@ == if cs@.len() > 0 { cs@[cs@.len() - 1]@ } else { old(alt).clusterareas@ },
        ensures
            alt.midrangeareas@.len() == n,
            clusters_disjoint(cs@),
            cs@.len() <= maxaltroutegoals,
            forall|k: int| 0 <= k < cs@.len() ==> altroute_cluster(*w, om, alt.midrangeareas@, #[trigger] cs@[k]@),
            forall|a: int| 0 <= a < n ==> {
                let m1 = om[a];
                let m2 = #[trigger] alt.midrangeareas@[a];
                &&& m2.starttime == m1.starttime
                &&& m2.goaltime == m1.goaltime
                &&& m2.valid == (m1.valid && !in_clusters(cs@.map_values(|c: Vec<i32>| c@), a))
            },
            cs@.len() < maxaltroutegoals ==>
                forall|a: int| 1 <= a < n ==> !(#[trigger] alt.midrangeareas@[a]).valid,
            forall|k1: int, k2: int| 0 <= k1 < k2 < cs@.len() ==> #[trigger] cs@[k1]@[0] < #[trigger] cs@[k2]@[0],
            forall|k: int, a: int| #![trigger cs@[k], om[a]]
                0 <= k < cs@.len() && 1 <= a < cs@[k]@[0] && om[a].valid
                ==> in_clusters(cs@.take(k).map_values(|c: Vec<i32>| c@), a),
            alt.clusterareas@ == if cs@.len() > 0 { cs@[cs@.len() - 1]@ } else { old(alt).clusterareas@ },
        decreases n - i,
    {
        if alt.midrangeareas[i].valid {
            //get the areas in one cluster
            let mut empty: Vec<i32> = Vec::new();
            std::mem::swap(&mut empty, &mut alt.clusterareas);
            alt.clusterareas = Vec::new();
            let ghost mpre = alt.midrangeareas@;
            let ghost cpre = cs@;
            AAS_AltRoutingFloodCluster_r(alt, w, i as i32);
            let c = alt.clusterareas.clone();
            proof {
                assert(c@ =~= alt.clusterareas@);
            }
            cs.push(c);
            proof {
                let last = cpre.len() as int;
                assert forall|k1: int, k2: int, j1: int, j2: int|
                    0 <= k1 < k2 < cs@.len() && 0 <= j1 < cs@[k1]@.len() && 0 <= j2 < cs@[k2]@.len()
                    implies #[trigger] cs@[k1]@[j1] != #[trigger] cs@[k2]@[j2] by {
                    if k2 < last {
                        assert(cs@[k1] == cpre[k1]);
                        assert(cs@[k2] == cpre[k2]);
                    } else {
                        assert(cs@[k1] == cpre[k1]);
                        let x = cs@[k1]@[j1] as int;
                        let v = cpre.map_values(|c: Vec<i32>| c@);
                        assert(v[k1][j1] as int == x);
                        assert(in_clusters(v, x));
                        assert(0 <= x < n);
                        assert(!mpre[x].valid);
                        assert(mpre[cs@[k2]@[j2] as int].valid);
                    }
                }
                lemma_clusters_extend(*w, om, mpre, alt.midrangeareas@, cpre, cs@, n as int);
                let last = cpre.len() as int;
                assert(cs@[last]@[0] == i as i32);
                assert forall|k: int| 0 <= k < cs@.len() implies 1 <= #[trigger] cs@[k]@[0] < i + 1 by {
                    if k < last {
                        assert(cs@[k] == cpre[k]);
                    }
                }
                assert forall|k1: int, k2: int| 0 <= k1 < k2 < cs@.len() implies #[trigger] cs@[k1]@[0] < #[trigger] cs@[k2]@[0] by {
                    assert(cs@[k1] == cpre[k1]);
                    if k2 < last {
                        assert(cs@[k2] == cpre[k2]);
                    }
                }
                assert forall|k: int, a: int| #![trigger cs@[k], om[a]]
                    0 <= k < cs@.len() && 1 <= a < cs@[k]@[0] && om[a].valid
                    implies in_clusters(cs@.take(k).map_values(|c: Vec<i32>| c@), a) by {
                    if k < last {
                        assert(cs@[k] == cpre[k]);
                        assert(cs@.take(k) =~= cpre.take(k));
                    } else {
                        assert(cs@.take(k) =~= cpre);
                        assert(!mpre[a].valid);
                    }
                }
                assert forall|a: int| 1 <= a < i + 1 && a < n implies !(#[trigger] alt.midrangeareas@[a]).valid by {
                    if a == i {
                        assert(cs@[cs@.len() - 1]@[0] as int == a);
                        assert(in_clusters(cs@.map_values(|c: Vec<i32>| c@), a)) by {
                            assert(cs@.map_values(|c: Vec<i32>| c@)[cs@.len() - 1][0] as int == a);
                        }
                    } else {
                        assert(!mpre[a].valid);
                    }
                }
            }
            //don't return more than the maximum alternative route goals
            if cs.len() as i64 >= maxaltroutegoals as i64 {
                break;
            }
        }
        i += 1;
    }
    cs
}

proof fn lemma_clusters_extend(w: aas_s, om: Seq<midrangearea_t>, m1: Seq<midrangearea_t>, m2: Seq<midrangearea_t>,
    cs1: Seq<Vec<i32>>, cs2: Seq<Vec<i32>>, n: int)
    requires
        graph_wf(w),
        n == num_areas(w),
        om.len() == n,
        m1.len() == n,
        m2.len() == n,
        cs2.len() == cs1.len() + 1,
        forall|k: int| 0 <= k < cs1.len() ==> #[trigger] cs2[k] == cs1[k],
        forall|k: int| 0 <= k < cs1.len() ==> altroute_cluster(w, om, m1, #[trigger] cs1[k]@),
        forall|a: int| 0 <= a < n ==> {
            let o = om[a];
            let p = #[trigger] m1[a];
            &&& p.starttime == o.starttime
            &&& p.goaltime == o.goaltime
            &&& p.valid == (o.valid && !in_clusters(cs1.map_values(|c: Vec<i32>| c@), a))
        },
        ({
            let c = cs2[cs1.len() as int]@;
            &&& c.len() > 0
            &&& face_parents(w, c, 0)
            &&& forall|x: int| 0 <= x < n ==> {
                let p = m1[x];
                let q = #[trigger] m2[x];
                &&& q.starttime == p.starttime
                &&& q.goaltime == p.goaltime
                &&& q.valid == (p.valid && !in_tail(c, 0, x))
            }
            &&& forall|k: int| 0 <= k < c.len() ==> {
                &&& 0 <= #[trigger] c[k] < n
                &&& m1[c[k] as int].valid
            }
            &&& forall|k: int, t: int| 0 <= k < c.len() && 0 <= t < w.areas@[c[k] as int].numfaces ==> {
                let y = #[trigger] face_neighbor(w, c[k] as int, t);
                y == 0 || !m2[y].valid
            }
        }),
    ensures
        forall|k: int| 0 <= k < cs2.len() ==> altroute_cluster(w, om, m2, #[trigger] cs2[k]@),
        forall|a: int| 0 <= a < n ==> {
            let o = om[a];
            let q = #[trigger] m2[a];
            &&& q.starttime == o.starttime
            &&& q.goaltime == o.goaltime
            &&& q.valid == (o.valid && !in_clusters(cs2.map_values(|c: Vec<i32>| c@), a))
        },
{
    let c = cs2[cs1.len() as int]@;
    let v1 = cs1.map_values(|c: Vec<i32>| c@);
    let v2 = cs2.map_values(|c: Vec<i32>| c@);
    assert forall|k: int| 0 <= k < cs2.len() implies altroute_cluster(w, om, m2, #[trigger] cs2[k]@) by {
        if k < cs1.len() {
            assert(cs2[k] == cs1[k]);
            let ck = cs1[k]@;
            assert(altroute_cluster(w, om, m1, ck));
            assert forall|j: int, t: int| 0 <= j < ck.len() && 0 <= t < w.areas@[ck[j] as int].numfaces implies {
                let y = #[trigger] face_neighbor(w, ck[j] as int, t);
                y == 0 || !m2[y].valid
            } by {
                let y = face_neighbor(w, ck[j] as int, t);
                if y != 0 {
                    lemma_nbr_small(w, ck[j] as int, t);
                    assert(!m1[y].valid);
                }
            }
        } else {
            assert forall|j: int| 0 <= j < c.len() implies 0 <= #[trigger] c[j] < num_areas(w) && om[c[j] as int].valid by {
                assert(m1[c[j] as int].valid);
            }
        }
    }
    assert forall|a: int| 0 <= a < n implies {
        let o = om[a];
        let q = #[trigger] m2[a];
        &&& q.starttime == o.starttime
        &&& q.goaltime == o.goaltime
        &&& q.valid == (o.valid && !in_clusters(v2, a))
    } by {
        if in_clusters(v1, a) {
            let (k, j) = choose|k: int, j: int| 0 <= k < v1.len() && 0 <= j < v1[k].len() && #[trigger] v1[k][j] as int == a;
            assert(v2[k] == v1[k]);
            assert(v2[k][j] as int == a);
        }
        if in_tail(c, 0, a) {
            let j = choose|j: int| 0 <= j < c.len() && #[trigger] c[j] as int == a;
            assert(v2[cs1.len() as int][j] as int == a);
        }
        if in_clusters(v2, a) {
            let (k, j) = choose|k: int, j: int| 0 <= k < v2.len() && 0 <= j < v2[k].len() && #[trigger] v2[k][j] as int == a;
            if k < cs1.len() {
                assert(v1[k] == v2[k]);
                assert(v1[k][j] as int == a);
            } else {
                assert(c[j] as int == a);
                assert(in_tail(c, 0, a));
            }
        }
    }
}

} // verus!
