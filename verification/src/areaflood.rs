//! Debug aids: the areas of a cluster that a flood from one area reaches,
//! in the order the flood meets them, as the debug display shows them, and
//! the names of the travel types.
use vstd::prelude::*;
use crate::aasfile::{
    AREACONTENTS_VIEWPORTAL, TRAVELTYPE_MASK, TRAVEL_BARRIERJUMP, TRAVEL_BFGJUMP, TRAVEL_CROUCH,
    TRAVEL_ELEVATOR, TRAVEL_FUNCBOB, TRAVEL_GRAPPLEHOOK, TRAVEL_INVALID, TRAVEL_JUMP, TRAVEL_JUMPPAD,
    TRAVEL_LADDER, TRAVEL_ROCKETJUMP, TRAVEL_SWIM, TRAVEL_TELEPORT, TRAVEL_WALK, TRAVEL_WALKOFFLEDGE,
    TRAVEL_WATERJUMP,
};
use crate::aasworld::aas_s;
use crate::cluster::{graph_wf, lemma_nbr_in_range, nbr, nbr_count, num_areas};
use crate::portals::{count_false, lemma_count_false};
use crate::sample::AAS_AreaCluster;

verus! {

/// The flood goes on into area `x`: it is no view portal and lies in
/// `cluster`.
pub open spec fn flood_into(w: aas_s, x: int, cluster: i32) -> bool {
    &&& w.areasettings@[x].contents & AREACONTENTS_VIEWPORTAL == 0
    &&& w.areasettings@[x].cluster == cluster
}

/// The first `t` neighbors of area `x` (faces first, then reachabilities)
/// are marked done, area zero aside.
pub open spec fn marked_upto(w: aas_s, done: Seq<bool>, x: int, t: int) -> bool {
    forall|u: int| 0 <= u < t ==> #[trigger] nbr(w, x, u, false) == 0 || done[nbr(w, x, u, false)]
}

/// Every neighbor of area `x` is marked done.
pub open spec fn all_marked(w: aas_s, done: Seq<bool>, x: int) -> bool {
    marked_upto(w, done, x, nbr_count(w, x, false))
}

/// The marks of `d1` stay in `d2`.
pub open spec fn marks_grow(d1: Seq<bool>, d2: Seq<bool>) -> bool {
    &&& d2.len() == d1.len()
    &&& forall|x: int| 0 <= x < d1.len() && d1[x] ==> #[trigger] d2[x]
}

/// The areas a flood of `cluster` showed, given the marks `d1` before and
/// `d2` after it and the areas `new` it showed: every area it marked into
/// which the flood goes on was shown, and every area shown but the first
/// is such an area.
pub open spec fn flood_shows(w: aas_s, cluster: i32, d1: Seq<bool>, d2: Seq<bool>, new: Seq<i32>) -> bool {
    &&& forall|x: int| 0 <= x < d2.len() && d2[x] && !d1[x] && flood_into(w, x, cluster)
        ==> #[trigger] new.contains(x as i32)
    &&& forall|k: int| 1 <= k < new.len() ==> {
        &&& 0 <= #[trigger] new[k] < d2.len()
        &&& d2[new[k] as int]
        &&& !d1[new[k] as int]
        &&& flood_into(w, new[k] as int, cluster)
    }
}

/// Every area of `shown` has all its neighbors marked.
pub open spec fn shown_closed(w: aas_s, done: Seq<bool>, shown: Seq<i32>) -> bool {
    forall|k: int| 0 <= k < shown.len() ==> all_marked(w, done, #[trigger] shown[k] as int)
}

/// The `t`-th neighbor of area `a`: the area at the other side of its
/// `t`-th face, or, past its faces, the area its reachability leads to.
fn neighbor(w: &aas_s, a: usize, t: usize) -> (b: i32)
    requires
        graph_wf(*w),
        0 <= a < num_areas(*w),
        0 <= t < nbr_count(*w, a as int, false),
    ensures
        b == nbr(*w, a as int, t as int, false),
        0 <= b < num_areas(*w),
{
    proof {
        lemma_nbr_in_range(*w, a as int, t as int, false);
        assert(0 <= w.areas@[a as int].numfaces);
        assert(0 <= w.areasettings@[a as int].numreachableareas);
    }
    let numfaces = w.areas[a].numfaces as usize;
    if t < numfaces {
        let fi = w.faceindex[w.areas[a].firstface as usize + t];
        proof {
            assert(-(w.faces@.len() as int) < fi < w.faces@.len());
        }
        let facenum: usize = if fi < 0 { (-fi) as usize } else { fi as usize };
        let face = &w.faces[facenum];
        if face.frontarea == a as i32 { face.backarea } else { face.frontarea }
    } else {
        w.reachability[w.areasettings[a].firstreachablearea as usize + (t - numfaces)].areanum
    }
}

/// Floods the areas of cluster `cluster` from area `areanum`
/// (`AAS_FloodAreas_r`): the area is shown, then every neighbor that is not
/// area zero and not marked done yet is marked, and the flood goes on into
/// it when it is no view portal and lies in the cluster.
pub fn AAS_FloodAreas_r(w: &aas_s, areanum: i32, cluster: i32, done: &mut Vec<bool>, shown: &mut Vec<i32>)
    requires
        graph_wf(*w),
        0 <= areanum < num_areas(*w),
        old(done)@.len() == num_areas(*w),
    ensures
        marks_grow(old(done)@, final(done)@),
        final(shown)@.len() > old(shown)@.len(),
        final(shown)@.take(old(shown)@.len() as int) == old(shown)@,
        final(shown)@[old(shown)@.len() as int] == areanum,
        flood_shows(*w, cluster, old(done)@, final(done)@, final(shown)@.skip(old(shown)@.len() as int)),
        shown_closed(*w, final(done)@, final(shown)@.skip(old(shown)@.len() as int)),
    decreases count_false(old(done)@),
{
    let ghost d0 = done@;
    let ghost s0 = shown@;
    let ghost l0 = s0.len() as int;
    shown.push(areanum);
    let a = areanum as usize;
    let n = nbr_count_exec(w, a);
    let mut t: usize = 0;
    proof {
        assert(shown@.skip(l0) =~= seq![areanum]);
        lemma_count_false(d0, d0, 0);
    }
    while t < n
        invariant
            graph_wf(*w),
            0 <= a < num_areas(*w),
            a == areanum,
            n == nbr_count(*w, a as int, false),
            0 <= t <= n,
            d0 == old(done)@,
            d0.len() == num_areas(*w),
            s0 == old(shown)@,
            l0 == s0.len(),
            marks_grow(d0, done@),
            shown@.len() > l0,
            shown@.take(l0) == s0,
            shown@[l0] == areanum,
            flood_shows(*w, cluster, d0, done@, shown@.skip(l0)),
            forall|k: int| 1 <= k < shown@.skip(l0).len() ==> all_marked(*w, done@, #[trigger] shown@.skip(l0)[k] as int),
            marked_upto(*w, done@, a as int, t as int),
            count_false(done@) <= count_false(d0),
        decreases n - t,
    {
        let b = neighbor(w, a, t);
        if b != 0 && !done[b as usize] {
            let ghost dpre = done@;
            let ghost spre = shown@;
            done.set(b as usize, true);
            proof {
                lemma_count_false(dpre, done@, b as int);
            }
            let viewportal = w.areasettings[b as usize].contents & AREACONTENTS_VIEWPORTAL != 0;
            let bcluster = match AAS_AreaCluster(w, b) {
                Ok(c) => c,
                Err(_) => 0,
            };
            if !viewportal && bcluster == cluster {
                let ghost dmid = done@;
                AAS_FloodAreas_r(w, b, cluster, done, shown);
                proof {
                    lemma_flood_join(*w, cluster, d0, dpre, dmid, done@, spre, shown@, l0, a as int, b, t as int);
                    lemma_count_false(dmid, done@, 0);
                }
            } else {
                proof {
                    lemma_mark_only(*w, cluster, d0, dpre, done@, spre, l0, a as int, b, t as int);
                }
            }
        } else {
            proof {
                assert(marked_upto(*w, done@, a as int, t as int + 1));
            }
        }
        t = t + 1;
    }
    proof {
        let new = shown@.skip(l0);
        assert forall|k: int| 0 <= k < new.len() implies all_marked(*w, done@, #[trigger] new[k] as int) by {
            if k == 0 {
                assert(new[0] == areanum);
            }
        }
    }
}

/// `nbr_count` of area `a`, with faces.
fn nbr_count_exec(w: &aas_s, a: usize) -> (n: usize)
    requires
        graph_wf(*w),
        0 <= a < num_areas(*w),
    ensures
        n == nbr_count(*w, a as int, false),
{
    proof {
        assert(0 <= w.areas@[a as int].numfaces);
        assert(0 <= w.areasettings@[a as int].numreachableareas);
    }
    w.areas[a].numfaces as usize + w.areasettings[a].numreachableareas as usize
}

/// Marks that only grow keep the neighbors of an area marked.
proof fn lemma_marked_grow(w: aas_s, d1: Seq<bool>, d2: Seq<bool>, x: int, t: int)
    requires
        marks_grow(d1, d2),
        marked_upto(w, d1, x, t),
        forall|u: int| 0 <= u < t ==> 0 <= #[trigger] nbr(w, x, u, false) < d1.len(),
    ensures
        marked_upto(w, d2, x, t),
{
    assert forall|u: int| 0 <= u < t implies #[trigger] nbr(w, x, u, false) == 0 || d2[nbr(w, x, u, false)] by {
        let b = nbr(w, x, u, false);
        if b != 0 {
            assert(d1[b]);
        }
    }
}

/// Every shown area keeps its neighbors marked when the marks grow.
proof fn lemma_shown_grow(w: aas_s, d1: Seq<bool>, d2: Seq<bool>, x: int)
    requires
        graph_wf(w),
        0 <= x < num_areas(w),
        d1.len() == num_areas(w),
        marks_grow(d1, d2),
        all_marked(w, d1, x),
    ensures
        all_marked(w, d2, x),
{
    assert forall|u: int| 0 <= u < nbr_count(w, x, false) implies 0 <= #[trigger] nbr(w, x, u, false) < d1.len() by {
        lemma_nbr_in_range(w, x, u, false);
    }
    lemma_marked_grow(w, d1, d2, x, nbr_count(w, x, false));
}

/// The loop of `AAS_FloodAreas_r` after its `t`-th neighbor `b` was marked
/// but not flooded into.
proof fn lemma_mark_only(w: aas_s, cluster: i32, d0: Seq<bool>, dpre: Seq<bool>, d: Seq<bool>,
    shown: Seq<i32>, l0: int, a: int, b: i32, t: int)
    requires
        graph_wf(w),
        0 <= a < num_areas(w),
        d0.len() == num_areas(w),
        0 <= t < nbr_count(w, a, false),
        b == nbr(w, a, t, false),
        0 < b < num_areas(w),
        !dpre[b as int],
        d == dpre.update(b as int, true),
        !flood_into(w, b as int, cluster),
        marks_grow(d0, dpre),
        0 <= l0 < shown.len(),
        flood_shows(w, cluster, d0, dpre, shown.skip(l0)),
        forall|k: int| 1 <= k < shown.skip(l0).len() ==> all_marked(w, dpre, #[trigger] shown.skip(l0)[k] as int),
        marked_upto(w, dpre, a, t),
    ensures
        marks_grow(d0, d),
        flood_shows(w, cluster, d0, d, shown.skip(l0)),
        forall|k: int| 1 <= k < shown.skip(l0).len() ==> all_marked(w, d, #[trigger] shown.skip(l0)[k] as int),
        marked_upto(w, d, a, t + 1),
{
    let new = shown.skip(l0);
    assert(marks_grow(dpre, d));
    assert forall|k: int| 1 <= k < new.len() implies all_marked(w, d, #[trigger] new[k] as int) by {
        lemma_shown_grow(w, dpre, d, new[k] as int);
    }
    assert forall|u: int| 0 <= u < t implies 0 <= #[trigger] nbr(w, a, u, false) < dpre.len() by {
        lemma_nbr_in_range(w, a, u, false);
    }
    lemma_marked_grow(w, dpre, d, a, t);
}

/// The loop of `AAS_FloodAreas_r` after its `t`-th neighbor `b` was marked
/// and flooded into, the inner flood taking the marks from `dmid` to `dfin`
/// and the shown areas from `spre` to `sfin`.
#[verifier::rlimit(40)]
proof fn lemma_flood_join(w: aas_s, cluster: i32, d0: Seq<bool>, dpre: Seq<bool>, dmid: Seq<bool>, dfin: Seq<bool>,
    spre: Seq<i32>, sfin: Seq<i32>, l0: int, a: int, b: i32, t: int)
    requires
        graph_wf(w),
        0 <= a < num_areas(w),
        d0.len() == num_areas(w),
        0 <= t < nbr_count(w, a, false),
        b == nbr(w, a, t, false),
        0 < b < num_areas(w),
        !dpre[b as int],
        dmid == dpre.update(b as int, true),
        flood_into(w, b as int, cluster),
        marks_grow(d0, dpre),
        0 <= l0 < spre.len(),
        flood_shows(w, cluster, d0, dpre, spre.skip(l0)),
        forall|k: int| 1 <= k < spre.skip(l0).len() ==> all_marked(w, dpre, #[trigger] spre.skip(l0)[k] as int),
        marked_upto(w, dpre, a, t),
        marks_grow(dmid, dfin),
        sfin.len() > spre.len(),
        sfin.take(spre.len() as int) == spre,
        sfin[spre.len() as int] == b,
        flood_shows(w, cluster, dmid, dfin, sfin.skip(spre.len() as int)),
        shown_closed(w, dfin, sfin.skip(spre.len() as int)),
    ensures
        marks_grow(d0, dfin),
        sfin.take(l0) == spre.take(l0),
        sfin[l0] == spre[l0],
        flood_shows(w, cluster, d0, dfin, sfin.skip(l0)),
        forall|k: int| 1 <= k < sfin.skip(l0).len() ==> all_marked(w, dfin, #[trigger] sfin.skip(l0)[k] as int),
        marked_upto(w, dfin, a, t + 1),
{
    let lp = spre.len() as int;
    let oldn = spre.skip(l0);
    let sub = sfin.skip(lp);
    let new = sfin.skip(l0);
    assert(marks_grow(dpre, dmid));
    assert(marks_grow(dpre, dfin));
    assert(marks_grow(d0, dfin));
    assert(sfin.take(l0) =~= spre.take(l0)) by {
        assert forall|k: int| 0 <= k < l0 implies sfin[k] == spre[k] by {
            assert(sfin.take(lp)[k] == spre[k]);
        }
    }
    assert(sfin[l0] == spre[l0]) by {
        assert(sfin.take(lp)[l0] == spre[l0]);
    }
    assert forall|k: int| 0 <= k < new.len() implies #[trigger] new[k] == (
        if k < oldn.len() { oldn[k] } else { sub[k - oldn.len()] }) by {
        if k < oldn.len() {
            assert(sfin.take(lp)[l0 + k] == spre[l0 + k]);
        }
    }
    assert(new.len() == oldn.len() + sub.len());
    // every area newly marked that the flood goes into is shown
    assert forall|x: int| 0 <= x < dfin.len() && dfin[x] && !d0[x] && flood_into(w, x, cluster)
        implies #[trigger] new.contains(x as i32) by {
        if dpre[x] {
            assert(oldn.contains(x as i32));
            let k = choose|k: int| 0 <= k < oldn.len() && oldn[k] == x as i32;
            assert(new[k] == x as i32);
        } else if x == b as int {
            assert(sub[0] == b);
            assert(new[oldn.len() as int] == b);
        } else {
            assert(!dmid[x]);
            assert(sub.contains(x as i32));
            let k = choose|k: int| 0 <= k < sub.len() && sub[k] == x as i32;
            assert(new[oldn.len() + k] == x as i32);
        }
    }
    assert forall|k: int| 1 <= k < new.len() implies {
        &&& 0 <= #[trigger] new[k] < dfin.len()
        &&& dfin[new[k] as int]
        &&& !d0[new[k] as int]
        &&& flood_into(w, new[k] as int, cluster)
    } by {
        if k < oldn.len() {
            assert(new[k] == oldn[k]);
        } else {
            let j = k - oldn.len();
            assert(new[k] == sub[j]);
            if j == 0 {
                assert(sub[0] == b);
            }
        }
    }
    assert forall|k: int| 1 <= k < new.len() implies all_marked(w, dfin, #[trigger] new[k] as int) by {
        if k < oldn.len() {
            assert(new[k] == oldn[k]);
            lemma_shown_grow(w, dpre, dfin, oldn[k] as int);
        } else {
            let j = k - oldn.len();
            assert(new[k] == sub[j]);
            assert(all_marked(w, dfin, sub[j] as int));
        }
    }
    assert forall|u: int| 0 <= u < t implies 0 <= #[trigger] nbr(w, a, u, false) < dpre.len() by {
        lemma_nbr_in_range(w, a, u, false);
    }
    lemma_marked_grow(w, dpre, dfin, a, t);
    assert(dfin[b as int]);
}

/// The cluster a flood from area `start` keeps to: that of the area, or 0
/// for area zero.
pub open spec fn start_cluster(w: aas_s, start: i32) -> i32 {
    if 0 < start < num_areas(w) { w.areasettings@[start as int].cluster } else { 0 }
}

/// Floods the cluster of area `start` (`AAS_FloodAreas`), no area being
/// marked at first, and gives the areas shown, in order.  The first is
/// `start`; every other one lies in the cluster and is no view portal; and
/// every neighbor of a shown area that is an area of the cluster and no
/// view portal is shown too.
pub fn AAS_FloodAreas(w: &aas_s, start: i32) -> (shown: Vec<i32>)
    requires
        graph_wf(*w),
        0 <= start < num_areas(*w),
    ensures
        shown@.len() >= 1,
        shown@[0] == start,
        forall|k: int| 1 <= k < shown@.len() ==> flood_into(*w, #[trigger] shown@[k] as int, start_cluster(*w, start)),
        forall|k: int, t: int| 0 <= k < shown@.len() && 0 <= t < nbr_count(*w, shown@[k] as int, false) ==> {
            let b = #[trigger] nbr(*w, shown@[k] as int, t, false);
            b == 0 || !flood_into(*w, b, start_cluster(*w, start)) || shown@.contains(b as i32)
        },
{
    let mut done: Vec<bool> = Vec::new();
    let n = w.areas.len();
    while done.len() < n
        invariant
            done@.len() <= n,
            n == num_areas(*w),
            forall|x: int| 0 <= x < done@.len() ==> !#[trigger] done@[x],
        decreases n - done@.len(),
    {
        done.push(false);
    }
    let cluster = match AAS_AreaCluster(w, start) {
        Ok(c) => c,
        Err(_) => 0,
    };
    let mut shown: Vec<i32> = Vec::new();
    let ghost d0 = done@;
    AAS_FloodAreas_r(w, start, cluster, &mut done, &mut shown);
    proof {
        assert(shown@.skip(0) =~= shown@);
        let c = start_cluster(*w, start);
        assert(cluster == c);
        assert forall|k: int, t: int| 0 <= k < shown@.len() && 0 <= t < nbr_count(*w, shown@[k] as int, false) implies {
            let b = #[trigger] nbr(*w, shown@[k] as int, t, false);
            b == 0 || !flood_into(*w, b, c) || shown@.contains(b as i32)
        } by {
            let x = shown@[k] as int;
            assert(all_marked(*w, done@, x));
            assert(marked_upto(*w, done@, x, nbr_count(*w, x, false)));
            let b = nbr(*w, x, t, false);
            lemma_nbr_in_range(*w, x, t, false);
            if b != 0 && flood_into(*w, b, c) {
                assert(done@[b]);
                assert(!d0[b]);
            }
        }
    }
    shown
}

/// The name of travel type `t`.
pub open spec fn travel_name(t: i32) -> Seq<char> {
    if t == TRAVEL_INVALID { "TRAVEL_INVALID"@ }
    else if t == TRAVEL_WALK { "TRAVEL_WALK"@ }
    else if t == TRAVEL_CROUCH { "TRAVEL_CROUCH"@ }
    else if t == TRAVEL_BARRIERJUMP { "TRAVEL_BARRIERJUMP"@ }
    else if t == TRAVEL_JUMP { "TRAVEL_JUMP"@ }
    else if t == TRAVEL_LADDER { "TRAVEL_LADDER"@ }
    else if t == TRAVEL_WALKOFFLEDGE { "TRAVEL_WALKOFFLEDGE"@ }
    else if t == TRAVEL_SWIM { "TRAVEL_SWIM"@ }
    else if t == TRAVEL_WATERJUMP { "TRAVEL_WATERJUMP"@ }
    else if t == TRAVEL_TELEPORT { "TRAVEL_TELEPORT"@ }
    else if t == TRAVEL_ELEVATOR { "TRAVEL_ELEVATOR"@ }
    else if t == TRAVEL_ROCKETJUMP { "TRAVEL_ROCKETJUMP"@ }
    else if t == TRAVEL_BFGJUMP { "TRAVEL_BFGJUMP"@ }
    else if t == TRAVEL_GRAPPLEHOOK { "TRAVEL_GRAPPLEHOOK"@ }
    else if t == TRAVEL_JUMPPAD { "TRAVEL_JUMPPAD"@ }
    else if t == TRAVEL_FUNCBOB { "TRAVEL_FUNCBOB"@ }
    else { "UNKNOWN TRAVEL TYPE"@ }
}

/// The name that `AAS_PrintTravelType` prints for travel type `traveltype`
/// (its flag bits aside).
pub fn AAS_TravelTypeName(traveltype: i32) -> (r: &'static str)
    ensures
        r@ == travel_name(traveltype & TRAVELTYPE_MASK),
{
    let t = traveltype & TRAVELTYPE_MASK;
    if t == TRAVEL_INVALID { "TRAVEL_INVALID" }
    else if t == TRAVEL_WALK { "TRAVEL_WALK" }
    else if t == TRAVEL_CROUCH { "TRAVEL_CROUCH" }
    else if t == TRAVEL_BARRIERJUMP { "TRAVEL_BARRIERJUMP" }
    else if t == TRAVEL_JUMP { "TRAVEL_JUMP" }
    else if t == TRAVEL_LADDER { "TRAVEL_LADDER" }
    else if t == TRAVEL_WALKOFFLEDGE { "TRAVEL_WALKOFFLEDGE" }
    else if t == TRAVEL_SWIM { "TRAVEL_SWIM" }
    else if t == TRAVEL_WATERJUMP { "TRAVEL_WATERJUMP" }
    else if t == TRAVEL_TELEPORT { "TRAVEL_TELEPORT" }
    else if t == TRAVEL_ELEVATOR { "TRAVEL_ELEVATOR" }
    else if t == TRAVEL_ROCKETJUMP { "TRAVEL_ROCKETJUMP" }
    else if t == TRAVEL_BFGJUMP { "TRAVEL_BFGJUMP" }
    else if t == TRAVEL_GRAPPLEHOOK { "TRAVEL_GRAPPLEHOOK" }
    else if t == TRAVEL_JUMPPAD { "TRAVEL_JUMPPAD" }
    else if t == TRAVEL_FUNCBOB { "TRAVEL_FUNCBOB" }
    else { "UNKNOWN TRAVEL TYPE" }
}

} // verus!
