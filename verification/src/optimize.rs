//! Optimization of the AAS data once the reachabilities are known.
//!
//! Only the ladder faces are still needed after the reachability
//! calculation.  Optimization keeps, for every area, the ladder faces of its
//! boundary, and of those faces every edge and the vertexes of the edges;
//! everything else of the 3d definition is dropped and the kept elements are
//! numbered anew.  The reachabilities that refer to a face or an edge are
//! made to refer to the new numbers.
use vstd::prelude::*;
use crate::aasfile::{
    aas_area_t, aas_edge_t, aas_face_t, aas_vertex_t, Vec3Bits, FACE_LADDER, TRAVELTYPE_MASK,
    TRAVEL_ELEVATOR, TRAVEL_FUNCBOB, TRAVEL_JUMPPAD,
};
use crate::aasworld::aas_s;
use crate::cluster::iabs;

verus! {

/// The optimized 3d definition while it is being built.  Element zero of the
/// edges and of the faces is a dummy.  The three optimize indexes give, for
/// every vertex, edge and face of the world, its new number, or zero while it
/// has none.
pub struct optimized_s {
    pub vertexes: Vec<aas_vertex_t>,
    pub edges: Vec<aas_edge_t>,
    pub edgeindex: Vec<i32>,
    pub faces: Vec<aas_face_t>,
    pub faceindex: Vec<i32>,
    pub areas: Vec<aas_area_t>,
    pub vertexoptimizeindex: Vec<i32>,
    pub edgeoptimizeindex: Vec<i32>,
    pub faceoptimizeindex: Vec<i32>,
}

pub type optimized_t = optimized_s;

//==================================================================
// what the input has to satisfy
//==================================================================

/// Face `f` is a ladder face: the only faces optimization keeps.
pub open spec fn is_ladder(w: aas_s, f: int) -> bool {
    w.faces@[f].faceflags & FACE_LADDER != 0
}

/// Both vertexes of edge `e` exist.
pub open spec fn edge_ok(w: aas_s, e: int) -> bool {
    &&& 0 <= w.edges@[e].v0 < w.vertexes@.len()
    &&& 0 <= w.edges@[e].v1 < w.vertexes@.len()
}

/// If face `f` is a ladder face, its edge list lies in the edge index and
/// every edge of it exists.
pub open spec fn face_ok(w: aas_s, f: int) -> bool {
    let face = w.faces@[f];
    is_ladder(w, f) ==> {
        &&& 0 <= face.numedges
        &&& 0 <= face.firstedge
        &&& face.firstedge + face.numedges <= w.edgeindex@.len()
        &&& forall|k: int| 0 <= k < face.numedges ==> {
            let e = #[trigger] w.edgeindex@[face.firstedge + k];
            &&& -(w.edges@.len() as int) < e < w.edges@.len()
            &&& edge_ok(w, iabs(e as int))
        }
    }
}

/// The face list of area `a` lies in the face index and every face of it
/// exists.
pub open spec fn area_ok(w: aas_s, a: int) -> bool {
    let area = w.areas@[a];
    &&& 0 <= area.numfaces
    &&& 0 <= area.firstface
    &&& area.firstface + area.numfaces <= w.faceindex@.len()
    &&& forall|t: int| 0 <= t < area.numfaces ==> {
        let x = #[trigger] w.faceindex@[area.firstface + t];
        &&& -(w.faces@.len() as int) < x < w.faces@.len()
        &&& face_ok(w, iabs(x as int))
    }
}

/// The signed face numbers of the boundary of area `a`.
pub open spec fn area_face_list(w: aas_s, a: int) -> Seq<i32> {
    let area = w.areas@[a];
    w.faceindex@.subrange(area.firstface as int, area.firstface + area.numfaces)
}

/// The signed edge numbers of the boundary of face `f`.
pub open spec fn face_edge_list(w: aas_s, f: int) -> Seq<i32> {
    let face = w.faces@[f];
    w.edgeindex@.subrange(face.firstedge as int, face.firstedge + face.numedges)
}

/// Face `f` is a face of an area other than the dummy area zero.
pub open spec fn face_referenced(w: aas_s, f: int) -> bool {
    exists|a: int, t: int| 1 <= a < w.areas@.len() && 0 <= t < w.areas@[a].numfaces
        && iabs(#[trigger] w.faceindex@[w.areas@[a].firstface + t] as int) == f
}

/// Sum of the face counts of the areas `1 .. end`.
pub open spec fn area_face_sum(w: aas_s, end: int) -> int
    decreases end,
{
    if end <= 1 { 0 } else { area_face_sum(w, end - 1) + w.areas@[end - 1].numfaces }
}

/// Sum of the edge counts of the faces `0 .. end` that `keep` selects.
pub open spec fn kept_edge_sum(w: aas_s, keep: spec_fn(int) -> bool, end: int) -> int
    decreases end,
{
    if end <= 0 {
        0
    } else {
        kept_edge_sum(w, keep, end - 1) + if keep(end - 1) { w.faces@[end - 1].numedges as int } else { 0 }
    }
}

/// The ladder faces that some area uses.
pub open spec fn needed_face(w: aas_s) -> spec_fn(int) -> bool {
    |f: int| is_ladder(w, f) && face_referenced(w, f)
}

/// The faces that an optimize index has numbered.
pub open spec fn mapped_face(m: Seq<i32>) -> spec_fn(int) -> bool {
    |f: int| m[f] != 0
}

/// What optimization asks of the AAS data: every list it follows lies in
/// range, and the optimized lumps fit the integer fields that number them.
pub open spec fn optimize_ready(w: aas_s) -> bool {
    let n = w.areas@.len();
    &&& n <= 0x7fff_ffff
    &&& w.faces@.len() <= 0x7fff_ffff
    &&& w.edges@.len() <= 0x7fff_ffff
    &&& w.vertexes@.len() <= 0x7fff_ffff
    &&& forall|a: int| 1 <= a < n ==> #[trigger] area_ok(w, a)
    &&& area_face_sum(w, n as int) <= 0x7fff_ffff
    &&& kept_edge_sum(w, needed_face(w), w.faces@.len() as int) <= 0x7fff_ffff
    &&& forall|r: int| 0 <= r < w.reachability@.len() && !keeps_numbers(#[trigger] w.reachability@[r].traveltype)
        ==> {
        &&& -(w.faces@.len() as int) < w.reachability@[r].facenum < w.faces@.len()
        &&& -(w.edges@.len() as int) < w.reachability@[r].edgenum < w.edges@.len()
    }
}

/// Travel types whose face and edge numbers code something else (the model
/// of an elevator, the velocities of a jump pad, a func_bobbing): those
/// numbers are left as they are.
pub open spec fn keeps_numbers(traveltype: i32) -> bool {
    let t = traveltype & TRAVELTYPE_MASK;
    t == TRAVEL_ELEVATOR || t == TRAVEL_JUMPPAD || t == TRAVEL_FUNCBOB
}

//==================================================================
// what the optimized data holds
//==================================================================

/// Number of entries of an optimize index that hold a new number.
pub open spec fn count_mapped(m: Seq<i32>) -> nat
    decreases m.len(),
{
    if m.len() == 0 {
        0
    } else {
        count_mapped(m.drop_last()) + if m.last() != 0 { 1nat } else { 0nat }
    }
}

/// The new signed number of the element with signed number `x`: the sign is
/// kept, the magnitude goes through the optimize index `m`.
pub open spec fn signed_image(m: Seq<i32>, x: i32) -> int {
    if x > 0 { m[iabs(x as int)] as int } else { -(m[iabs(x as int)] as int) }
}

/// Some element has the new number `x` in the optimize index `m`.
pub open spec fn numbered(m: Seq<i32>, x: int) -> bool {
    exists|e: int| 0 <= e < m.len() && #[trigger] m[e] == x
}

/// Optimized vertex `j` is a copy of some vertex of the world.
pub open spec fn vertex_copied(w: aas_s, vs: Seq<aas_vertex_t>, j: int) -> bool {
    exists|v: int| 0 <= v < w.vertexes@.len() && #[trigger] w.vertexes@[v] == vs[j]
}

/// Optimized edge `oe` joins copies of the vertexes that edge `e` of the
/// world joins, in the same direction.
pub open spec fn edge_copy(w: aas_s, o: optimized_s, e: int, oe: int) -> bool {
    let we = w.edges@[e];
    let ce = o.edges@[oe];
    &&& 0 <= ce.v0 < o.vertexes@.len()
    &&& 0 <= ce.v1 < o.vertexes@.len()
    &&& o.vertexes@[ce.v0 as int] == w.vertexes@[we.v0 as int]
    &&& o.vertexes@[ce.v1 as int] == w.vertexes@[we.v1 as int]
}

/// Optimized face `g` is face `f` of the world: same plane, flags and
/// areas, and the same edges in the same order and direction, each by its
/// new number.
pub open spec fn face_copy(w: aas_s, o: optimized_s, f: int, g: int) -> bool {
    let wf = w.faces@[f];
    let of = o.faces@[g];
    let em = o.edgeoptimizeindex@;
    &&& of.planenum == wf.planenum
    &&& of.faceflags == wf.faceflags
    &&& of.frontarea == wf.frontarea
    &&& of.backarea == wf.backarea
    &&& of.numedges == wf.numedges
    &&& 0 <= of.firstedge
    &&& of.firstedge + of.numedges <= o.edgeindex@.len()
    &&& forall|k: int| 0 <= k < wf.numedges ==> {
        let e = #[trigger] w.edgeindex@[wf.firstedge + k];
        &&& 0 <= iabs(e as int) < em.len()
        &&& em[iabs(e as int)] != 0
        &&& o.edgeindex@[of.firstedge + k] as int == signed_image(em, e)
    }
}

/// The vertexes of the optimized data and the vertex optimize index agree.
pub open spec fn vertexes_inv(w: aas_s, o: optimized_s) -> bool {
    let vm = o.vertexoptimizeindex@;
    &&& vm.len() == w.vertexes@.len()
    &&& o.vertexes@.len() == count_mapped(vm) + if o.vertexes@.len() > 0 { 1int } else { 0int }
    &&& forall|v: int| 0 <= v < vm.len() && #[trigger] vm[v] != 0 ==> {
        &&& 0 < vm[v] < o.vertexes@.len()
        &&& o.vertexes@[vm[v] as int] == w.vertexes@[v]
    }
    &&& forall|j: int| 0 <= j < o.vertexes@.len() ==> #[trigger] vertex_copied(w, o.vertexes@, j)
}

/// The edges of the optimized data and the edge optimize index agree: the
/// index numbers edges one to one onto the optimized edges after the dummy.
pub open spec fn edges_inv(w: aas_s, o: optimized_s) -> bool {
    let em = o.edgeoptimizeindex@;
    &&& em.len() == w.edges@.len()
    &&& o.edges@.len() == count_mapped(em) + 1
    &&& forall|e: int| 0 <= e < em.len() && #[trigger] em[e] != 0 ==> {
        &&& 0 < em[e] < o.edges@.len()
        &&& edge_copy(w, o, e, em[e] as int)
    }
    &&& forall|e1: int, e2: int| 0 <= e1 < em.len() && 0 <= e2 < em.len() && #[trigger] em[e1] != 0
        && em[e1] == #[trigger] em[e2] ==> e1 == e2
    &&& forall|oe: int| 1 <= oe < o.edges@.len() ==> #[trigger] numbered(em, oe)
}

/// The faces of the optimized data and the face optimize index agree: the
/// index numbers ladder faces one to one onto the optimized faces after the
/// dummy.
pub open spec fn faces_inv(w: aas_s, o: optimized_s) -> bool {
    let fm = o.faceoptimizeindex@;
    &&& fm.len() == w.faces@.len()
    &&& o.faces@.len() == count_mapped(fm) + 1
    &&& forall|f: int| 0 <= f < fm.len() && #[trigger] fm[f] != 0 ==> {
        &&& is_ladder(w, f)
        &&& 0 < fm[f] < o.faces@.len()
        &&& face_copy(w, o, f, fm[f] as int)
    }
    &&& forall|f1: int, f2: int| 0 <= f1 < fm.len() && 0 <= f2 < fm.len() && #[trigger] fm[f1] != 0
        && fm[f1] == #[trigger] fm[f2] ==> f1 == f2
    &&& forall|g: int| 1 <= g < o.faces@.len() ==> #[trigger] numbered(fm, g)
}

/// Everything the optimized data keeps true while it is built.
pub open spec fn optimized_inv(w: aas_s, o: optimized_s) -> bool {
    &&& vertexes_inv(w, o)
    &&& edges_inv(w, o)
    &&& faces_inv(w, o)
    &&& o.areas@.len() == w.areas@.len()
}

/// `o2` only adds to `o1`: every list keeps its elements, and every element
/// of the world that had a new number keeps it.
pub open spec fn opt_grows(o1: optimized_s, o2: optimized_s) -> bool {
    &&& o1.vertexes@.len() <= o2.vertexes@.len()
    &&& forall|j: int| 0 <= j < o1.vertexes@.len() ==> #[trigger] o2.vertexes@[j] == o1.vertexes@[j]
    &&& o1.edges@.len() <= o2.edges@.len()
    &&& forall|j: int| 0 <= j < o1.edges@.len() ==> #[trigger] o2.edges@[j] == o1.edges@[j]
    &&& o1.edgeindex@.len() <= o2.edgeindex@.len()
    &&& forall|j: int| 0 <= j < o1.edgeindex@.len() ==> #[trigger] o2.edgeindex@[j] == o1.edgeindex@[j]
    &&& o1.faces@.len() <= o2.faces@.len()
    &&& forall|j: int| 0 <= j < o1.faces@.len() ==> #[trigger] o2.faces@[j] == o1.faces@[j]
    &&& o1.faceindex@.len() <= o2.faceindex@.len()
    &&& forall|j: int| 0 <= j < o1.faceindex@.len() ==> #[trigger] o2.faceindex@[j] == o1.faceindex@[j]
    &&& o2.vertexoptimizeindex@.len() == o1.vertexoptimizeindex@.len()
    &&& forall|j: int| 0 <= j < o1.vertexoptimizeindex@.len() && o1.vertexoptimizeindex@[j] != 0
        ==> #[trigger] o2.vertexoptimizeindex@[j] == o1.vertexoptimizeindex@[j]
    &&& o2.edgeoptimizeindex@.len() == o1.edgeoptimizeindex@.len()
    &&& forall|j: int| 0 <= j < o1.edgeoptimizeindex@.len() && o1.edgeoptimizeindex@[j] != 0
        ==> #[trigger] o2.edgeoptimizeindex@[j] == o1.edgeoptimizeindex@[j]
    &&& o2.faceoptimizeindex@.len() == o1.faceoptimizeindex@.len()
    &&& forall|j: int| 0 <= j < o1.faceoptimizeindex@.len() && o1.faceoptimizeindex@[j] != 0
        ==> #[trigger] o2.faceoptimizeindex@[j] == o1.faceoptimizeindex@[j]
}

//==================================================================
// counting lemmas
//==================================================================

proof fn lemma_count_bound(m: Seq<i32>)
    ensures
        count_mapped(m) <= m.len(),
    decreases m.len(),
{
    if m.len() > 0 {
        lemma_count_bound(m.drop_last());
    }
}

proof fn lemma_count_lt(m: Seq<i32>, i: int)
    requires
        0 <= i < m.len(),
        m[i] == 0,
    ensures
        count_mapped(m) < m.len(),
    decreases m.len(),
{
    if i < m.len() - 1 {
        lemma_count_lt(m.drop_last(), i);
    } else {
        lemma_count_bound(m.drop_last());
    }
}

proof fn lemma_count_update(m: Seq<i32>, i: int, x: i32)
    requires
        0 <= i < m.len(),
        m[i] == 0,
        x != 0,
    ensures
        count_mapped(m.update(i, x)) == count_mapped(m) + 1,
    decreases m.len(),
{
    let u = m.update(i, x);
    if i == m.len() - 1 {
        assert(u.drop_last() =~= m.drop_last());
    } else {
        assert(u.drop_last() =~= m.drop_last().update(i, x));
        lemma_count_update(m.drop_last(), i, x);
    }
}

//==================================================================
// growth keeps copies
//==================================================================

proof fn lemma_edge_copy_grows(w: aas_s, o1: optimized_s, o2: optimized_s, e: int, oe: int)
    requires
        opt_grows(o1, o2),
        0 <= oe < o1.edges@.len(),
        edge_copy(w, o1, e, oe),
    ensures
        edge_copy(w, o2, e, oe),
{
    assert(o2.edges@[oe] == o1.edges@[oe]);
    let ce = o1.edges@[oe];
    assert(o2.vertexes@[ce.v0 as int] == o1.vertexes@[ce.v0 as int]);
    assert(o2.vertexes@[ce.v1 as int] == o1.vertexes@[ce.v1 as int]);
}

proof fn lemma_face_copy_grows(w: aas_s, o1: optimized_s, o2: optimized_s, f: int, g: int)
    requires
        opt_grows(o1, o2),
        0 <= g < o1.faces@.len(),
        face_copy(w, o1, f, g),
    ensures
        face_copy(w, o2, f, g),
{
    assert(o2.faces@[g] == o1.faces@[g]);
    let wf = w.faces@[f];
    let of = o1.faces@[g];
    let em1 = o1.edgeoptimizeindex@;
    let em2 = o2.edgeoptimizeindex@;
    assert forall|k: int| 0 <= k < wf.numedges implies {
        let e = #[trigger] w.edgeindex@[wf.firstedge + k];
        &&& 0 <= iabs(e as int) < em2.len()
        &&& em2[iabs(e as int)] != 0
        &&& o2.edgeindex@[of.firstedge + k] as int == signed_image(em2, e)
    } by {
        let e = w.edgeindex@[wf.firstedge + k];
        assert(em2[iabs(e as int)] == em1[iabs(e as int)]);
        assert(o2.edgeindex@[of.firstedge + k] == o1.edgeindex@[of.firstedge + k]);
    }
}

/// The faces of `o1` are still copies in `o2`, which only added edges and
/// edge numbers.
proof fn lemma_faces_inv_grows(w: aas_s, o1: optimized_s, o2: optimized_s)
    requires
        faces_inv(w, o1),
        opt_grows(o1, o2),
        o2.faces@ == o1.faces@,
        o2.faceoptimizeindex@ == o1.faceoptimizeindex@,
    ensures
        faces_inv(w, o2),
{
    let fm = o1.faceoptimizeindex@;
    assert forall|f: int| 0 <= f < fm.len() && #[trigger] fm[f] != 0 implies face_copy(w, o2, f, fm[f] as int) by {
        lemma_face_copy_grows(w, o1, o2, f, fm[f] as int);
    }
}

/// The edges of `o1` are still copies in `o2`, which only added vertexes.
proof fn lemma_edges_inv_grows(w: aas_s, o1: optimized_s, o2: optimized_s)
    requires
        edges_inv(w, o1),
        opt_grows(o1, o2),
        o2.edges@ == o1.edges@,
        o2.edgeoptimizeindex@ == o1.edgeoptimizeindex@,
    ensures
        edges_inv(w, o2),
{
    let em = o1.edgeoptimizeindex@;
    assert forall|e: int| 0 <= e < em.len() && #[trigger] em[e] != 0 implies edge_copy(w, o2, e, em[e] as int) by {
        lemma_edge_copy_grows(w, o1, o2, e, em[e] as int);
    }
}

//==================================================================
// optimizing vertexes, edges, faces and areas
//==================================================================

/// Gives vertex `v` of the world a number in the optimized data, copying it
/// if it has none.  A copy that gets number zero leaves the vertex without a
/// number, as zero means none: a later use copies it again.
fn optimize_vertex(o: &mut optimized_t, w: &aas_s, v: usize) -> (nv: i32)
    requires
        vertexes_inv(*w, *old(o)),
        w.vertexes@.len() <= 0x7fff_ffff,
        v < w.vertexes@.len(),
    ensures
        vertexes_inv(*w, *final(o)),
        opt_grows(*old(o), *final(o)),
        final(o).edges@ == old(o).edges@,
        final(o).edgeindex@ == old(o).edgeindex@,
        final(o).faces@ == old(o).faces@,
        final(o).faceindex@ == old(o).faceindex@,
        final(o).areas@ == old(o).areas@,
        final(o).edgeoptimizeindex@ == old(o).edgeoptimizeindex@,
        final(o).faceoptimizeindex@ == old(o).faceoptimizeindex@,
        0 <= nv < final(o).vertexes@.len(),
        final(o).vertexes@[nv as int] == w.vertexes@[v as int],
{
    let mapped = o.vertexoptimizeindex[v];
    if mapped != 0 {
        return mapped;
    }
    let ghost o1 = *o;
    let ghost vm = o.vertexoptimizeindex@;
    proof {
        lemma_count_lt(vm, v as int);
    }
    let nv = o.vertexes.len() as i32;
    o.vertexes.push(w.vertexes[v]);
    o.vertexoptimizeindex.set(v, nv);
    proof {
        let o2 = *o;
        let vm2 = o2.vertexoptimizeindex@;
        if nv != 0 {
            lemma_count_update(vm, v as int, nv);
        } else {
            assert(vm2 =~= vm);
        }
        assert forall|j: int| 0 <= j < o2.vertexes@.len() implies #[trigger] vertex_copied(*w, o2.vertexes@, j) by {
            if j < o1.vertexes@.len() {
                assert(vertex_copied(*w, o1.vertexes@, j));
                let u = choose|u: int| 0 <= u < w.vertexes@.len() && #[trigger] w.vertexes@[u] == o1.vertexes@[j];
                assert(w.vertexes@[u] == o2.vertexes@[j]);
            } else {
                assert(w.vertexes@[v as int] == o2.vertexes@[j]);
            }
        }
        assert forall|u: int| 0 <= u < vm2.len() && #[trigger] vm2[u] != 0 implies {
            &&& 0 < vm2[u] < o2.vertexes@.len()
            &&& o2.vertexes@[vm2[u] as int] == w.vertexes@[u]
        } by {
            if u != v {
                assert(vm2[u] == vm[u]);
            }
        }
    }
    nv
}

/// Edges are always kept.
fn AAS_KeepEdge(edge: &aas_edge_t) -> (keep: bool)
    ensures
        keep,
{
    true
}

/// Gives edge `edgenum` of the world (negative for the reversed edge) a
/// number in the optimized data, copying it and its vertexes if it has none,
/// and returns that number with the sign of `edgenum`.
fn AAS_OptimizeEdge(o: &mut optimized_t, w: &aas_s, edgenum: i32) -> (r: i32)
    requires
        optimized_inv(*w, *old(o)),
        w.vertexes@.len() <= 0x7fff_ffff,
        w.edges@.len() <= 0x7fff_ffff,
        -(w.edges@.len() as int) < edgenum < w.edges@.len(),
        edge_ok(*w, iabs(edgenum as int)),
    ensures
        optimized_inv(*w, *final(o)),
        opt_grows(*old(o), *final(o)),
        final(o).edgeindex@ == old(o).edgeindex@,
        final(o).faces@ == old(o).faces@,
        final(o).faceindex@ == old(o).faceindex@,
        final(o).areas@ == old(o).areas@,
        final(o).faceoptimizeindex@ == old(o).faceoptimizeindex@,
        final(o).edgeoptimizeindex@[iabs(edgenum as int)] != 0,
        forall|e: int| 0 <= e < w.edges@.len() && e != iabs(edgenum as int) ==>
            #[trigger] final(o).edgeoptimizeindex@[e] == old(o).edgeoptimizeindex@[e],
        r as int == signed_image(final(o).edgeoptimizeindex@, edgenum),
{
    let ae: usize = if edgenum < 0 { (-edgenum) as usize } else { edgenum as usize };
    let edge = w.edges[ae];
    if !AAS_KeepEdge(&edge) {
        return 0;
    }
    let optedgenum = o.edgeoptimizeindex[ae];
    if optedgenum != 0 {
        //keep the edge reversed sign
        if edgenum > 0 {
            return optedgenum;
        } else {
            return -optedgenum;
        }
    }
    let ghost o0 = *o;
    let nv0 = optimize_vertex(o, w, edge.v0 as usize);
    let ghost o1 = *o;
    let nv1 = optimize_vertex(o, w, edge.v1 as usize);
    let ghost o2 = *o;
    proof {
        lemma_edges_inv_grows(*w, o0, o2);
        lemma_count_lt(o0.edgeoptimizeindex@, ae as int);
    }
    let newnum = o.edges.len() as i32;
    o.edges.push(aas_edge_t { v0: nv0, v1: nv1 });
    o.edgeoptimizeindex.set(ae, newnum);
    proof {
        let o3 = *o;
        let em = o2.edgeoptimizeindex@;
        let em3 = o3.edgeoptimizeindex@;
        lemma_count_update(em, ae as int, newnum);
        assert(opt_grows(o2, o3));
        assert forall|e: int| 0 <= e < em3.len() && #[trigger] em3[e] != 0 implies {
            &&& 0 < em3[e] < o3.edges@.len()
            &&& edge_copy(*w, o3, e, em3[e] as int)
        } by {
            if e != ae {
                assert(em3[e] == em[e]);
                lemma_edge_copy_grows(*w, o2, o3, e, em[e] as int);
            } else {
                assert(o1.vertexes@[nv0 as int] == o2.vertexes@[nv0 as int]);
            }
        }
        assert forall|e1: int, e2: int| 0 <= e1 < em3.len() && 0 <= e2 < em3.len() && #[trigger] em3[e1] != 0
            && em3[e1] == #[trigger] em3[e2] implies e1 == e2 by {
            if e1 != ae && e2 != ae {
                assert(em3[e1] == em[e1]);
                assert(em3[e2] == em[e2]);
            } else if e1 != ae {
                assert(em3[e1] == em[e1]);
            } else if e2 != ae {
                assert(em3[e2] == em[e2]);
            }
        }
        assert forall|oe: int| 1 <= oe < o3.edges@.len() implies #[trigger] numbered(em3, oe) by {
            if oe < o2.edges@.len() {
                assert(numbered(em, oe));
                let e = choose|e: int| 0 <= e < em.len() && #[trigger] em[e] == oe;
                assert(em3[e] == oe);
            } else {
                assert(em3[ae as int] == oe);
            }
        }
        lemma_faces_inv_grows(*w, o2, o3);
    }
    //keep the edge reversed sign
    if edgenum > 0 {
        newnum
    } else {
        -newnum
    }
}

/// Edge `e` is on the boundary of face `f`.
pub open spec fn edge_of_face(w: aas_s, f: int, e: int) -> bool {
    exists|k: int| 0 <= k < w.faces@[f].numedges
        && iabs(#[trigger] w.edgeindex@[w.faces@[f].firstedge + k] as int) == e
}

/// A face is kept when it is a ladder face.
fn AAS_KeepFace(face: &aas_face_t) -> (keep: bool)
    ensures
        keep == (face.faceflags & FACE_LADDER != 0),
{
    face.faceflags & FACE_LADDER != 0
}

/// Gives face `facenum` of the world (negative for its back side) a number
/// in the optimized data if it is a ladder face, copying it and its edges if
/// it has none, and returns that number with the sign of `facenum`; a face
/// that is not kept gives zero.
fn AAS_OptimizeFace(o: &mut optimized_t, w: &aas_s, facenum: i32) -> (r: i32)
    requires
        optimized_inv(*w, *old(o)),
        w.vertexes@.len() <= 0x7fff_ffff,
        w.edges@.len() <= 0x7fff_ffff,
        w.faces@.len() <= 0x7fff_ffff,
        -(w.faces@.len() as int) < facenum < w.faces@.len(),
        face_ok(*w, iabs(facenum as int)),
        is_ladder(*w, iabs(facenum as int)) && old(o).faceoptimizeindex@[iabs(facenum as int)] == 0 ==>
            old(o).edgeindex@.len() + w.faces@[iabs(facenum as int)].numedges <= 0x7fff_ffff,
    ensures
        optimized_inv(*w, *final(o)),
        opt_grows(*old(o), *final(o)),
        final(o).faceindex@ == old(o).faceindex@,
        final(o).areas@ == old(o).areas@,
        (r != 0) == is_ladder(*w, iabs(facenum as int)),
        r == 0 ==> *final(o) == *old(o),
        r != 0 ==> final(o).faceoptimizeindex@[iabs(facenum as int)] != 0,
        r != 0 ==> r as int == signed_image(final(o).faceoptimizeindex@, facenum),
        forall|f: int| 0 <= f < w.faces@.len() && f != iabs(facenum as int) ==>
            #[trigger] final(o).faceoptimizeindex@[f] == old(o).faceoptimizeindex@[f],
        forall|e: int| 0 <= e < w.edges@.len() && old(o).edgeoptimizeindex@[e] == 0
            && #[trigger] final(o).edgeoptimizeindex@[e] != 0 ==> edge_of_face(*w, iabs(facenum as int), e),
        final(o).edgeindex@.len() == old(o).edgeindex@.len() + if is_ladder(*w, iabs(facenum as int))
            && old(o).faceoptimizeindex@[iabs(facenum as int)] == 0 {
            w.faces@[iabs(facenum as int)].numedges as int
        } else {
            0
        },
{
    let af: usize = if facenum < 0 { (-facenum) as usize } else { facenum as usize };
    let face = w.faces[af];
    if !AAS_KeepFace(&face) {
        return 0;
    }
    let optfacenum = o.faceoptimizeindex[af];
    if optfacenum != 0 {
        //keep the face side sign
        if facenum > 0 {
            return optfacenum;
        } else {
            return -optfacenum;
        }
    }
    let ghost o0 = *o;
    let firstedge = o.edgeindex.len() as i32;
    let mut numedges: i32 = 0;
    let mut i: i32 = 0;
    while i < face.numedges
        invariant
            optimized_inv(*w, *o),
            opt_grows(o0, *o),
            optimized_inv(*w, o0),
            face == w.faces@[af as int],
            is_ladder(*w, af as int),
            face_ok(*w, af as int),
            0 <= af < w.faces@.len(),
            w.vertexes@.len() <= 0x7fff_ffff,
            w.edges@.len() <= 0x7fff_ffff,
            w.faces@.len() <= 0x7fff_ffff,
            firstedge as int == o0.edgeindex@.len(),
            firstedge + face.numedges <= 0x7fff_ffff,
            0 <= i <= face.numedges,
            numedges == i,
            o.edgeindex@.len() == firstedge + i,
            o.faces@ == o0.faces@,
            o.faceindex@ == o0.faceindex@,
            o.areas@ == o0.areas@,
            o.faceoptimizeindex@ == o0.faceoptimizeindex@,
            o0.faceoptimizeindex@[af as int] == 0,
            forall|k: int| 0 <= k < i ==> {
                let e = #[trigger] w.edgeindex@[face.firstedge + k];
                &&& 0 <= iabs(e as int) < o.edgeoptimizeindex@.len()
                &&& o.edgeoptimizeindex@[iabs(e as int)] != 0
                &&& o.edgeindex@[firstedge + k] as int == signed_image(o.edgeoptimizeindex@, e)
            },
            forall|e: int| 0 <= e < w.edges@.len() && o0.edgeoptimizeindex@[e] == 0
                && #[trigger] o.edgeoptimizeindex@[e] != 0 ==> exists|k: int| 0 <= k < i
                && iabs(#[trigger] w.edgeindex@[face.firstedge + k] as int) == e,
        decreases face.numedges - i,
    {
        let edgenum = w.edgeindex[face.firstedge as usize + i as usize];
        let ghost oa = *o;
        let optedgenum = AAS_OptimizeEdge(o, w, edgenum);
        let ghost ob = *o;
        if optedgenum != 0 {
            o.edgeindex.push(optedgenum);
            numedges += 1;
        }
        proof {
            let oc = *o;
            assert(opt_grows(ob, oc));
            lemma_faces_inv_grows(*w, ob, oc);
            lemma_edges_inv_grows(*w, ob, oc);
            assert forall|k: int| 0 <= k < i + 1 implies {
                let e = #[trigger] w.edgeindex@[face.firstedge + k];
                &&& 0 <= iabs(e as int) < oc.edgeoptimizeindex@.len()
                &&& oc.edgeoptimizeindex@[iabs(e as int)] != 0
                &&& oc.edgeindex@[firstedge + k] as int == signed_image(oc.edgeoptimizeindex@, e)
            } by {
                let e = w.edgeindex@[face.firstedge + k];
                if k < i {
                    assert(oa.edgeoptimizeindex@[iabs(e as int)] != 0);
                    assert(oc.edgeoptimizeindex@[iabs(e as int)] == oa.edgeoptimizeindex@[iabs(e as int)]);
                    assert(oc.edgeindex@[firstedge + k] == oa.edgeindex@[firstedge + k]);
                }
            }
            assert forall|e: int| 0 <= e < w.edges@.len() && o0.edgeoptimizeindex@[e] == 0
                && #[trigger] oc.edgeoptimizeindex@[e] != 0 implies exists|k: int| 0 <= k < i + 1
                && iabs(#[trigger] w.edgeindex@[face.firstedge + k] as int) == e by {
                if e == iabs(edgenum as int) {
                    assert(iabs(w.edgeindex@[face.firstedge + i] as int) == e);
                } else {
                    assert(oa.edgeoptimizeindex@[e] != 0);
                }
            }
        }
        i += 1;
    }
    let ghost o1 = *o;
    proof {
        lemma_count_lt(o1.faceoptimizeindex@, af as int);
    }
    let newnum = o.faces.len() as i32;
    o.faces.push(aas_face_t {
        planenum: face.planenum,
        faceflags: face.faceflags,
        numedges: numedges,
        firstedge: firstedge,
        frontarea: face.frontarea,
        backarea: face.backarea,
    });
    o.faceoptimizeindex.set(af, newnum);
    proof {
        let o2 = *o;
        let fm = o1.faceoptimizeindex@;
        let fm2 = o2.faceoptimizeindex@;
        lemma_count_update(fm, af as int, newnum);
        assert(opt_grows(o1, o2));
        lemma_edges_inv_grows(*w, o1, o2);
        assert forall|f: int| 0 <= f < fm2.len() && #[trigger] fm2[f] != 0 implies {
            &&& is_ladder(*w, f)
            &&& 0 < fm2[f] < o2.faces@.len()
            &&& face_copy(*w, o2, f, fm2[f] as int)
        } by {
            if f != af {
                assert(fm2[f] == fm[f]);
                lemma_face_copy_grows(*w, o1, o2, f, fm[f] as int);
            } else {
                let wf = w.faces@[f];
                assert forall|k: int| 0 <= k < wf.numedges implies {
                    let e = #[trigger] w.edgeindex@[wf.firstedge + k];
                    &&& 0 <= iabs(e as int) < o2.edgeoptimizeindex@.len()
                    &&& o2.edgeoptimizeindex@[iabs(e as int)] != 0
                    &&& o2.edgeindex@[firstedge + k] as int == signed_image(o2.edgeoptimizeindex@, e)
                } by {
                    let e = w.edgeindex@[wf.firstedge + k];
                }
            }
        }
        assert forall|f1: int, f2: int| 0 <= f1 < fm2.len() && 0 <= f2 < fm2.len() && #[trigger] fm2[f1] != 0
            && fm2[f1] == #[trigger] fm2[f2] implies f1 == f2 by {
            if f1 != af && f2 != af {
                assert(fm2[f1] == fm[f1]);
                assert(fm2[f2] == fm[f2]);
            } else if f1 != af {
                assert(fm2[f1] == fm[f1]);
            } else if f2 != af {
                assert(fm2[f2] == fm[f2]);
            }
        }
        assert forall|g: int| 1 <= g < o2.faces@.len() implies #[trigger] numbered(fm2, g) by {
            if g < o1.faces@.len() {
                assert(numbered(fm, g));
                let f = choose|f: int| 0 <= f < fm.len() && #[trigger] fm[f] == g;
                assert(fm2[f] == g);
            } else {
                assert(fm2[af as int] == g);
            }
        }
        assert forall|e: int| 0 <= e < w.edges@.len() && o0.edgeoptimizeindex@[e] == 0
            && #[trigger] o2.edgeoptimizeindex@[e] != 0 implies edge_of_face(*w, af as int, e) by {
            let k = choose|k: int| 0 <= k < i
                && iabs(#[trigger] w.edgeindex@[face.firstedge + k] as int) == e;
        }
    }
    //keep the face side sign
    if facenum > 0 {
        newnum
    } else {
        -newnum
    }
}

/// The test that keeps a signed face number: its face is a ladder face.
pub open spec fn ladder_pred(w: aas_s) -> spec_fn(i32) -> bool {
    |x: i32| is_ladder(w, iabs(x as int))
}

/// The kept faces of area `a`, by their signed numbers in the world, in the
/// order of the area's face list.
pub open spec fn ladder_list(w: aas_s, a: int) -> Seq<i32> {
    area_face_list(w, a).filter(ladder_pred(w))
}

/// Optimized area `a` is area `a` of the world with, as its face list, its
/// kept faces in order, each by its new signed number.
pub open spec fn area_copy(w: aas_s, o: optimized_s, a: int) -> bool {
    let wa = w.areas@[a];
    let oa = o.areas@[a];
    let fm = o.faceoptimizeindex@;
    let kept = ladder_list(w, a);
    &&& oa.areanum == wa.areanum
    &&& oa.mins == wa.mins
    &&& oa.maxs == wa.maxs
    &&& oa.center == wa.center
    &&& oa.numfaces == kept.len()
    &&& 0 <= oa.firstface
    &&& oa.firstface + oa.numfaces <= o.faceindex@.len()
    &&& forall|j: int| 0 <= j < kept.len() ==> {
        &&& 0 <= iabs(#[trigger] kept[j] as int) < fm.len()
        &&& fm[iabs(kept[j] as int)] != 0
        &&& o.faceindex@[oa.firstface + j] as int == signed_image(fm, kept[j])
    }
}

/// Edge `e` is on the boundary of a face that has a new number.
pub open spec fn edge_kept_by(w: aas_s, fm: Seq<i32>, e: int) -> bool {
    exists|f: int| 0 <= f < fm.len() && #[trigger] fm[f] != 0 && edge_of_face(w, f, e)
}

/// The optimized edge index holds exactly the edges of the faces with new
/// numbers; only needed faces and their edges get new numbers.
pub open spec fn budget_inv(w: aas_s, o: optimized_s) -> bool {
    let fm = o.faceoptimizeindex@;
    let em = o.edgeoptimizeindex@;
    &&& o.edgeindex@.len() == kept_edge_sum(w, mapped_face(fm), w.faces@.len() as int)
    &&& forall|f: int| 0 <= f < fm.len() && #[trigger] fm[f] != 0 ==> is_ladder(w, f) && face_referenced(w, f)
    &&& forall|e: int| 0 <= e < em.len() && #[trigger] em[e] != 0 ==> edge_kept_by(w, fm, e)
}

proof fn lemma_kept_sum_add(w: aas_s, k1: spec_fn(int) -> bool, k2: spec_fn(int) -> bool, f: int, end: int)
    requires
        0 <= f < end,
        !k1(f),
        forall|x: int| 0 <= x < end ==> #[trigger] k2(x) == (k1(x) || x == f),
    ensures
        kept_edge_sum(w, k2, end) == kept_edge_sum(w, k1, end) + w.faces@[f].numedges,
    decreases end,
{
    if end - 1 > f {
        lemma_kept_sum_same(w, k1, k2, f);
        lemma_kept_sum_add(w, k1, k2, f, end - 1);
    } else {
        lemma_kept_sum_same(w, k1, k2, f);
    }
}

proof fn lemma_kept_sum_same(w: aas_s, k1: spec_fn(int) -> bool, k2: spec_fn(int) -> bool, end: int)
    requires
        forall|x: int| 0 <= x < end ==> #[trigger] k2(x) == k1(x),
    ensures
        kept_edge_sum(w, k2, end) == kept_edge_sum(w, k1, end),
    decreases end,
{
    if end > 0 {
        lemma_kept_sum_same(w, k1, k2, end - 1);
    }
}

proof fn lemma_kept_sum_sub(w: aas_s, k1: spec_fn(int) -> bool, k2: spec_fn(int) -> bool, end: int)
    requires
        forall|x: int| 0 <= x < end && #[trigger] k1(x) ==> k2(x),
        forall|x: int| 0 <= x < end && #[trigger] k2(x) ==> w.faces@[x].numedges >= 0,
    ensures
        kept_edge_sum(w, k1, end) <= kept_edge_sum(w, k2, end),
    decreases end,
{
    if end > 0 {
        lemma_kept_sum_sub(w, k1, k2, end - 1);
    }
}

/// A face that some area uses, and that is kept, has a valid edge list.
proof fn lemma_needed_face_ok(w: aas_s, f: int)
    requires
        optimize_ready(w),
        face_referenced(w, f),
    ensures
        face_ok(w, f),
        is_ladder(w, f) ==> w.faces@[f].numedges >= 0,
{
    let (a, t) = choose|a: int, t: int| 1 <= a < w.areas@.len() && 0 <= t < w.areas@[a].numfaces
        && iabs(#[trigger] w.faceindex@[w.areas@[a].firstface + t] as int) == f;
    assert(area_ok(w, a));
    assert(w.faceindex@[w.areas@[a].firstface + t] == w.faceindex@[w.areas@[a].firstface + t]);
}

proof fn lemma_filter_step(s: Seq<i32>, p: spec_fn(i32) -> bool, i: int)
    requires
        0 <= i < s.len(),
    ensures
        s.take(i + 1).filter(p) == if p(s[i]) { s.take(i).filter(p).push(s[i]) } else { s.take(i).filter(p) },
{
    reveal(Seq::filter);
    assert(s.take(i + 1).drop_last() =~= s.take(i));
    assert(s.take(i + 1).last() == s[i]);
}

/// Optimizes area `areanum`: copies it with, as its face list, the new
/// numbers of its kept faces, which are optimized as they come.
fn AAS_OptimizeArea(o: &mut optimized_t, w: &aas_s, areanum: i32)
    requires
        optimize_ready(*w),
        optimized_inv(*w, *old(o)),
        budget_inv(*w, *old(o)),
        1 <= areanum < w.areas@.len(),
        old(o).faceindex@.len() + w.areas@[areanum as int].numfaces <= 0x7fff_ffff,
    ensures
        optimized_inv(*w, *final(o)),
        budget_inv(*w, *final(o)),
        opt_grows(*old(o), *final(o)),
        area_copy(*w, *final(o), areanum as int),
        forall|a: int| 0 <= a < w.areas@.len() && a != areanum ==> #[trigger] final(o).areas@[a] == old(o).areas@[a],
        final(o).faceindex@.len() == old(o).faceindex@.len() + ladder_list(*w, areanum as int).len(),
{
    let ghost o0 = *o;
    let ghost list = area_face_list(*w, areanum as int);
    let ghost p = ladder_pred(*w);
    let area = w.areas[areanum as usize];
    proof {
        assert(area_ok(*w, areanum as int));
    }
    let firstface = o.faceindex.len() as i32;
    let mut numfaces: i32 = 0;
    let mut i: i32 = 0;
    while i < area.numfaces
        invariant
            optimize_ready(*w),
            optimized_inv(*w, *o),
            budget_inv(*w, *o),
            opt_grows(o0, *o),
            o.areas@ == o0.areas@,
            1 <= areanum < w.areas@.len(),
            area == w.areas@[areanum as int],
            area_ok(*w, areanum as int),
            list == area_face_list(*w, areanum as int),
            p == ladder_pred(*w),
            firstface as int == o0.faceindex@.len(),
            firstface + area.numfaces <= 0x7fff_ffff,
            0 <= numfaces <= i <= area.numfaces,
            o.faceindex@.len() == firstface + numfaces,
            numfaces == list.take(i as int).filter(p).len(),
            forall|j: int| 0 <= j < numfaces ==> {
                let x = #[trigger] list.take(i as int).filter(p)[j];
                &&& 0 <= iabs(x as int) < o.faceoptimizeindex@.len()
                &&& o.faceoptimizeindex@[iabs(x as int)] != 0
                &&& o.faceindex@[firstface + j] as int == signed_image(o.faceoptimizeindex@, x)
            },
        decreases area.numfaces - i,
    {
        let facenum = w.faceindex[area.firstface as usize + i as usize];
        let ghost oa = *o;
        let ghost af = iabs(facenum as int);
        proof {
            assert(list[i as int] == facenum);
            assert(face_referenced(*w, af));
            lemma_needed_face_ok(*w, af);
            if is_ladder(*w, af) && oa.faceoptimizeindex@[af] == 0 {
                let fm = oa.faceoptimizeindex@;
                let k1 = mapped_face(fm);
                let k2 = |x: int| k1(x) || x == af;
                lemma_kept_sum_add(*w, k1, k2, af, w.faces@.len() as int);
                assert forall|x: int| 0 <= x < w.faces@.len() && #[trigger] needed_face(*w)(x) implies
                    w.faces@[x].numedges >= 0 by {
                    lemma_needed_face_ok(*w, x);
                }
                assert forall|x: int| 0 <= x < w.faces@.len() && #[trigger] k2(x) implies needed_face(*w)(x) by {
                }
                lemma_kept_sum_sub(*w, k2, needed_face(*w), w.faces@.len() as int);
            }
        }
        let optfacenum = AAS_OptimizeFace(o, w, facenum);
        let ghost ob = *o;
        if optfacenum != 0 {
            o.faceindex.push(optfacenum);
            numfaces += 1;
        }
        proof {
            let oc = *o;
            lemma_filter_step(list, p, i as int);
            assert(opt_grows(ob, oc));
            lemma_faces_inv_grows(*w, ob, oc);
            lemma_edges_inv_grows(*w, ob, oc);
            let fma = oa.faceoptimizeindex@;
            let fmc = oc.faceoptimizeindex@;
            // budget
            if optfacenum != 0 && fma[af] == 0 {
                lemma_kept_sum_add(*w, mapped_face(fma), mapped_face(fmc), af, w.faces@.len() as int);
            } else {
                lemma_kept_sum_same(*w, mapped_face(fma), mapped_face(fmc), w.faces@.len() as int);
            }
            assert forall|e: int| 0 <= e < oc.edgeoptimizeindex@.len() && #[trigger] oc.edgeoptimizeindex@[e] != 0
                implies edge_kept_by(*w, fmc, e) by {
                if oa.edgeoptimizeindex@[e] != 0 {
                    assert(edge_kept_by(*w, fma, e));
                    let f = choose|f: int| 0 <= f < fma.len() && #[trigger] fma[f] != 0 && edge_of_face(*w, f, e);
                    assert(fmc[f] != 0);
                } else {
                    assert(edge_of_face(*w, af, e));
                    assert(fmc[af] != 0);
                }
            }
            assert forall|f: int| 0 <= f < fmc.len() && #[trigger] fmc[f] != 0 implies
                is_ladder(*w, f) && face_referenced(*w, f) by {
                if f != af {
                    assert(fmc[f] == fma[f]);
                }
            }
            let kept = list.take(i + 1).filter(p);
            assert forall|j: int| 0 <= j < numfaces implies {
                let x = #[trigger] kept[j];
                &&& 0 <= iabs(x as int) < fmc.len()
                &&& fmc[iabs(x as int)] != 0
                &&& oc.faceindex@[firstface + j] as int == signed_image(fmc, x)
            } by {
                if j < list.take(i as int).filter(p).len() {
                    let x = list.take(i as int).filter(p)[j];
                    assert(kept[j] == x);
                    assert(fma[iabs(x as int)] != 0);
                    assert(fmc[iabs(x as int)] == fma[iabs(x as int)]);
                    assert(oc.faceindex@[firstface + j] == oa.faceindex@[firstface + j]);
                } else {
                    assert(kept[j] == facenum);
                }
            }
        }
        i += 1;
    }
    o.areas.set(areanum as usize, aas_area_t {
        areanum: area.areanum,
        numfaces: numfaces,
        firstface: firstface,
        mins: area.mins,
        maxs: area.maxs,
        center: area.center,
    });
    proof {
        assert(list.take(i as int) =~= list);
    }
}

/// The new number of a face or edge that a reachability refers to: the
/// sign is kept (zero counts as positive), the magnitude goes through the
/// optimize index `m`.
pub open spec fn reach_image(m: Seq<i32>, x: i32) -> int {
    if x < 0 { -(m[iabs(x as int)] as int) } else { m[iabs(x as int)] as int }
}

/// Reachability `r2` is `r1` with its face and edge numbers renumbered by
/// the optimize indexes, unless its travel type codes something else in
/// them.
pub open spec fn reach_renumbered(r1: crate::aasfile::aas_reachability_t, r2: crate::aasfile::aas_reachability_t,
    fm: Seq<i32>, em: Seq<i32>) -> bool {
    if keeps_numbers(r1.traveltype) {
        r2 == r1
    } else {
        &&& r2.facenum == reach_image(fm, r1.facenum)
        &&& r2.edgenum == reach_image(em, r1.edgenum)
        &&& r2.areanum == r1.areanum
        &&& r2.start == r1.start
        &&& r2.end == r1.end
        &&& r2.traveltype == r1.traveltype
        &&& r2.traveltime == r1.traveltime
    }
}

/// The zero area that fills the dummy area slot.
pub open spec fn zero_area() -> aas_area_t {
    aas_area_t {
        areanum: 0,
        numfaces: 0,
        firstface: 0,
        mins: Vec3Bits { x: 0, y: 0, z: 0 },
        maxs: Vec3Bits { x: 0, y: 0, z: 0 },
        center: Vec3Bits { x: 0, y: 0, z: 0 },
    }
}

/// `o` is the complete optimization of `w`: every area after the dummy is
/// copied with its kept faces, the faces with new numbers are exactly the
/// ladder faces that some area uses, and the edges with new numbers are
/// exactly the edges of those faces.
pub open spec fn optimized_from(w: aas_s, o: optimized_s) -> bool {
    let fm = o.faceoptimizeindex@;
    let em = o.edgeoptimizeindex@;
    &&& optimized_inv(w, o)
    &&& budget_inv(w, o)
    &&& w.areas@.len() >= 1 ==> o.areas@[0] == zero_area()
    &&& forall|a: int| 1 <= a < w.areas@.len() ==> #[trigger] area_copy(w, o, a)
    &&& forall|f: int| 0 <= f < fm.len() ==> (#[trigger] fm[f] != 0 <==> is_ladder(w, f) && face_referenced(w, f))
    &&& forall|e: int| 0 <= e < em.len() ==> (#[trigger] em[e] != 0 <==> edge_kept_by(w, fm, e))
}

/// `w2` is `w1` with the 3d definition of `o` in place of its own and the
/// reachabilities renumbered; nothing else changes.
pub open spec fn optimization_stored(w1: aas_s, o: optimized_s, w2: aas_s) -> bool {
    &&& w2.vertexes@ == o.vertexes@
    &&& w2.edges@ == o.edges@
    &&& w2.edgeindex@ == o.edgeindex@
    &&& w2.faces@ == o.faces@
    &&& w2.faceindex@ == o.faceindex@
    &&& w2.areas@ == o.areas@
    &&& w2.reachability@.len() == w1.reachability@.len()
    &&& forall|r: int| 0 <= r < w1.reachability@.len() ==> reach_renumbered(w1.reachability@[r],
        #[trigger] w2.reachability@[r], o.faceoptimizeindex@, o.edgeoptimizeindex@)
    &&& w2.bboxes@ == w1.bboxes@
    &&& w2.planes@ == w1.planes@
    &&& w2.areasettings@ == w1.areasettings@
    &&& w2.nodes@ == w1.nodes@
    &&& w2.portals@ == w1.portals@
    &&& w2.portalindex@ == w1.portalindex@
    &&& w2.clusters@ == w1.clusters@
    &&& w2.loaded == w1.loaded
    &&& w2.initialized == w1.initialized
    &&& w2.savefile == w1.savefile
    &&& w2.bspchecksum == w1.bspchecksum
    &&& w2.numframes == w1.numframes
}

proof fn lemma_count_zero(m: Seq<i32>)
    requires
        forall|i: int| 0 <= i < m.len() ==> #[trigger] m[i] == 0,
    ensures
        count_mapped(m) == 0,
    decreases m.len(),
{
    if m.len() > 0 {
        lemma_count_zero(m.drop_last());
    }
}

proof fn lemma_area_sum_mono(w: aas_s, i: int, n: int)
    requires
        1 <= i <= n <= w.areas@.len(),
        forall|a: int| 1 <= a < n ==> #[trigger] w.areas@[a].numfaces >= 0,
    ensures
        area_face_sum(w, i) <= area_face_sum(w, n),
    decreases n - i,
{
    if i < n {
        lemma_area_sum_mono(w, i + 1, n);
    }
}

/// A vector of `n` zeros.
fn zeros(n: usize) -> (v: Vec<i32>)
    ensures
        v@.len() == n,
        forall|i: int| 0 <= i < n ==> #[trigger] v@[i] == 0,
{
    let mut v: Vec<i32> = Vec::new();
    while v.len() < n
        invariant
            v@.len() <= n,
            forall|i: int| 0 <= i < v@.len() ==> #[trigger] v@[i] == 0,
        decreases n - v@.len(),
    {
        v.push(0);
    }
    v
}

/// Sets up empty optimized data for `w`: no vertexes, the dummy edge and
/// face, every area zero and no element numbered.
fn AAS_OptimizeAlloc(w: &aas_s) -> (o: optimized_t)
    ensures
        optimized_inv(*w, o),
        budget_inv(*w, o),
        o.vertexes@.len() == 0,
        o.edgeindex@.len() == 0,
        o.faceindex@.len() == 0,
        o.edges@.len() == 1,
        o.faces@.len() == 1,
        forall|a: int| 0 <= a < w.areas@.len() ==> #[trigger] o.areas@[a] == zero_area(),
{
    let mut areas: Vec<aas_area_t> = Vec::new();
    let zero = Vec3Bits { x: 0, y: 0, z: 0 };
    while areas.len() < w.areas.len()
        invariant
            areas@.len() <= w.areas@.len(),
            zero == (Vec3Bits { x: 0, y: 0, z: 0 }),
            forall|a: int| 0 <= a < areas@.len() ==> #[trigger] areas@[a] == zero_area(),
        decreases w.areas@.len() - areas@.len(),
    {
        areas.push(aas_area_t { areanum: 0, numfaces: 0, firstface: 0, mins: zero, maxs: zero, center: zero });
    }
    let mut edges: Vec<aas_edge_t> = Vec::new();
    //edge zero is a dummy
    edges.push(aas_edge_t { v0: 0, v1: 0 });
    let mut faces: Vec<aas_face_t> = Vec::new();
    //face zero is a dummy
    faces.push(aas_face_t { planenum: 0, faceflags: 0, numedges: 0, firstedge: 0, frontarea: 0, backarea: 0 });
    let o = optimized_s {
        vertexes: Vec::new(),
        edges: edges,
        edgeindex: Vec::new(),
        faces: faces,
        faceindex: Vec::new(),
        areas: areas,
        vertexoptimizeindex: zeros(w.vertexes.len()),
        edgeoptimizeindex: zeros(w.edges.len()),
        faceoptimizeindex: zeros(w.faces.len()),
    };
    proof {
        lemma_count_zero(o.vertexoptimizeindex@);
        lemma_count_zero(o.edgeoptimizeindex@);
        lemma_count_zero(o.faceoptimizeindex@);
        lemma_kept_sum_none(*w, mapped_face(o.faceoptimizeindex@), w.faces@.len() as int);
        assert forall|g: int| 1 <= g < o.faces@.len() implies #[trigger] numbered(o.faceoptimizeindex@, g) by {}
        assert forall|oe: int| 1 <= oe < o.edges@.len() implies #[trigger] numbered(o.edgeoptimizeindex@, oe) by {}
    }
    o
}

proof fn lemma_kept_sum_none(w: aas_s, k: spec_fn(int) -> bool, end: int)
    requires
        forall|x: int| 0 <= x < end ==> !#[trigger] k(x),
    ensures
        kept_edge_sum(w, k, end) == 0,
    decreases end,
{
    if end > 0 {
        lemma_kept_sum_none(w, k, end - 1);
    }
}

/// Puts the optimized 3d definition in place of that of the world; the
/// optimize indexes go with `o`.
fn AAS_OptimizeStore(w: &mut aas_s, o: optimized_t)
    ensures
        final(w).vertexes@ == o.vertexes@,
        final(w).edges@ == o.edges@,
        final(w).edgeindex@ == o.edgeindex@,
        final(w).faces@ == o.faces@,
        final(w).faceindex@ == o.faceindex@,
        final(w).areas@ == o.areas@,
        final(w).reachability@ == old(w).reachability@,
        final(w).bboxes@ == old(w).bboxes@,
        final(w).planes@ == old(w).planes@,
        final(w).areasettings@ == old(w).areasettings@,
        final(w).nodes@ == old(w).nodes@,
        final(w).portals@ == old(w).portals@,
        final(w).portalindex@ == old(w).portalindex@,
        final(w).clusters@ == old(w).clusters@,
        final(w).loaded == old(w).loaded,
        final(w).initialized == old(w).initialized,
        final(w).savefile == old(w).savefile,
        final(w).bspchecksum == old(w).bspchecksum,
        final(w).numframes == old(w).numframes,
{
    //store the optimized vertexes
    w.vertexes = o.vertexes;
    //store the optimized edges
    w.edges = o.edges;
    //store the optimized edge index
    w.edgeindex = o.edgeindex;
    //store the optimized faces
    w.faces = o.faces;
    //store the optimized face index
    w.faceindex = o.faceindex;
    //store the optimized areas
    w.areas = o.areas;
}

proof fn lemma_area_copy_grows(w: aas_s, o1: optimized_s, o2: optimized_s, a: int)
    requires
        area_copy(w, o1, a),
        opt_grows(o1, o2),
        o2.areas@[a] == o1.areas@[a],
    ensures
        area_copy(w, o2, a),
{
    let kept = ladder_list(w, a);
    let oa = o1.areas@[a];
    let fm1 = o1.faceoptimizeindex@;
    let fm2 = o2.faceoptimizeindex@;
    assert forall|j: int| 0 <= j < kept.len() implies {
        &&& 0 <= iabs(#[trigger] kept[j] as int) < fm2.len()
        &&& fm2[iabs(kept[j] as int)] != 0
        &&& o2.faceindex@[oa.firstface + j] as int == signed_image(fm2, kept[j])
    } by {
        assert(fm2[iabs(kept[j] as int)] == fm1[iabs(kept[j] as int)]);
        assert(o2.faceindex@[oa.firstface + j] == o1.faceindex@[oa.firstface + j]);
    }
}

/// Once every area is optimized, the numbered faces are exactly the needed
/// ones and the numbered edges exactly their edges.
proof fn lemma_optimized_complete(w: aas_s, o: optimized_s)
    requires
        optimize_ready(w),
        optimized_inv(w, o),
        budget_inv(w, o),
        forall|a: int| 1 <= a < w.areas@.len() ==> #[trigger] area_copy(w, o, a),
    ensures
        forall|f: int| 0 <= f < o.faceoptimizeindex@.len() ==>
            (#[trigger] o.faceoptimizeindex@[f] != 0 <==> is_ladder(w, f) && face_referenced(w, f)),
        forall|e: int| 0 <= e < o.edgeoptimizeindex@.len() ==>
            (#[trigger] o.edgeoptimizeindex@[e] != 0 <==> edge_kept_by(w, o.faceoptimizeindex@, e)),
{
    let fm = o.faceoptimizeindex@;
    let em = o.edgeoptimizeindex@;
    assert forall|f: int| 0 <= f < fm.len() && is_ladder(w, f) && face_referenced(w, f) implies
        #[trigger] fm[f] != 0 by {
        let (a, t) = choose|a: int, t: int| 1 <= a < w.areas@.len() && 0 <= t < w.areas@[a].numfaces
            && iabs(#[trigger] w.faceindex@[w.areas@[a].firstface + t] as int) == f;
        assert(area_ok(w, a));
        assert(area_copy(w, o, a));
        let list = area_face_list(w, a);
        let x = list[t];
        assert(x == w.faceindex@[w.areas@[a].firstface + t]);
        assert(ladder_pred(w)(x));
        list.lemma_filter_contains(ladder_pred(w), t);
        let kept = ladder_list(w, a);
        assert(kept.contains(x));
        let j = choose|j: int| 0 <= j < kept.len() && kept[j] == x;
        assert(fm[iabs(kept[j] as int)] != 0);
    }
    assert forall|e: int| 0 <= e < em.len() && edge_kept_by(w, fm, e) implies #[trigger] em[e] != 0 by {
        let f = choose|f: int| 0 <= f < fm.len() && #[trigger] fm[f] != 0 && edge_of_face(w, f, e);
        let k = choose|k: int| 0 <= k < w.faces@[f].numedges
            && iabs(#[trigger] w.edgeindex@[w.faces@[f].firstedge + k] as int) == e;
        assert(face_copy(w, o, f, fm[f] as int));
        assert(w.edgeindex@[w.faces@[f].firstedge + k] == w.edgeindex@[w.faces@[f].firstedge + k]);
    }
}

/// `w2` differs from `w1` at most in its reachabilities.
pub open spec fn same_but_reachability(w1: aas_s, w2: aas_s) -> bool {
    &&& w2.vertexes@ == w1.vertexes@
    &&& w2.edges@ == w1.edges@
    &&& w2.edgeindex@ == w1.edgeindex@
    &&& w2.faces@ == w1.faces@
    &&& w2.faceindex@ == w1.faceindex@
    &&& w2.areas@ == w1.areas@
    &&& w2.bboxes@ == w1.bboxes@
    &&& w2.planes@ == w1.planes@
    &&& w2.areasettings@ == w1.areasettings@
    &&& w2.nodes@ == w1.nodes@
    &&& w2.portals@ == w1.portals@
    &&& w2.portalindex@ == w1.portalindex@
    &&& w2.clusters@ == w1.clusters@
    &&& w2.loaded == w1.loaded
    &&& w2.initialized == w1.initialized
    &&& w2.savefile == w1.savefile
    &&& w2.bspchecksum == w1.bspchecksum
    &&& w2.numframes == w1.numframes
}

/// Optimizes the AAS data (`AAS_Optimize`): the 3d definition is reduced to
/// the ladder faces of the areas, with their edges and vertexes, numbered
/// anew, and the reachabilities are renumbered to match.
pub fn AAS_Optimize(w: &mut aas_s)
    requires
        optimize_ready(*old(w)),
    ensures
        exists|o: optimized_s| optimized_from(*old(w), o) && optimization_stored(*old(w), o, *final(w)),
{
    let ghost w0 = *w;
    let mut o = AAS_OptimizeAlloc(w);
    let n = w.areas.len();
    proof {
        assert forall|a: int| 1 <= a < n implies #[trigger] w.areas@[a].numfaces >= 0 by {
            assert(area_ok(*w, a));
        }
    }
    let mut i: usize = 1;
    while i < n
        invariant
            *w == w0,
            optimize_ready(*w),
            optimized_inv(*w, o),
            budget_inv(*w, o),
            n == w.areas@.len(),
            1 <= i,
            forall|a: int| 1 <= a < n ==> #[trigger] w.areas@[a].numfaces >= 0,
            n >= 1 ==> o.areas@[0] == zero_area(),
            forall|a: int| 1 <= a < i && a < n ==> #[trigger] area_copy(*w, o, a),
            o.faceindex@.len() <= area_face_sum(*w, i as int),
        decreases n - i,
    {
        let ghost o1 = o;
        proof {
            lemma_area_sum_mono(*w, i as int + 1, n as int);
        }
        AAS_OptimizeArea(&mut o, w, i as i32);
        proof {
            assert forall|a: int| 1 <= a < i + 1 && a < n implies #[trigger] area_copy(*w, o, a) by {
                if a < i {
                    lemma_area_copy_grows(*w, o1, o, a);
                }
            }
            area_face_list(*w, i as int).lemma_filter_len(ladder_pred(*w));
            assert(area_ok(*w, i as int));
            assert(area_face_list(*w, i as int).len() == w.areas@[i as int].numfaces);
            assert(area_face_sum(*w, i as int + 1) == area_face_sum(*w, i as int) + w.areas@[i as int].numfaces);
        }
        i += 1;
    }
    proof {
        lemma_optimized_complete(*w, o);
        assert(optimized_from(w0, o));
    }
    //reset the reachability face pointers
    let mut r: usize = 0;
    while r < w.reachability.len()
        invariant
            optimize_ready(w0),
            optimized_from(w0, o),
            same_but_reachability(w0, *w),
            w.reachability@.len() == w0.reachability@.len(),
            r <= w.reachability@.len(),
            forall|q: int| 0 <= q < r ==> reach_renumbered(w0.reachability@[q], #[trigger] w.reachability@[q],
                o.faceoptimizeindex@, o.edgeoptimizeindex@),
            forall|q: int| r <= q < w.reachability@.len() ==> #[trigger] w.reachability@[q] == w0.reachability@[q],
        decreases w.reachability@.len() - r,
    {
        let reach = w.reachability[r];
        let tt = reach.traveltype & TRAVELTYPE_MASK;
        //NOTE: for TRAVEL_ELEVATOR the facenum is the model number of the elevator,
        //for TRAVEL_JUMPPAD the facenum is the Z velocity and the edgenum is the hor velocity,
        //for TRAVEL_FUNCBOB the facenum and edgenum contain other coded information
        if tt == TRAVEL_ELEVATOR || tt == TRAVEL_JUMPPAD || tt == TRAVEL_FUNCBOB {
            r += 1;
            continue;
        }
        proof {
            assert(w0.reachability@[r as int] == reach);
            assert(!keeps_numbers(w0.reachability@[r as int].traveltype));
        }
        let af: usize = if reach.facenum < 0 { (-reach.facenum) as usize } else { reach.facenum as usize };
        let optface = o.faceoptimizeindex[af];
        let ae: usize = if reach.edgenum < 0 { (-reach.edgenum) as usize } else { reach.edgenum as usize };
        let optedge = o.edgeoptimizeindex[ae];
        proof {
            let fm = o.faceoptimizeindex@;
            let em = o.edgeoptimizeindex@;
            if fm[af as int] != 0 {
                assert(0 < fm[af as int]);
            }
            if em[ae as int] != 0 {
                assert(0 < em[ae as int]);
            }
        }
        let newreach = crate::aasfile::aas_reachability_t {
            areanum: reach.areanum,
            facenum: if reach.facenum < 0 { -optface } else { optface },
            edgenum: if reach.edgenum < 0 { -optedge } else { optedge },
            start: reach.start,
            end: reach.end,
            traveltype: reach.traveltype,
            traveltime: reach.traveltime,
        };
        w.reachability.set(r, newreach);
        r += 1;
    }
    //store the optimized AAS data into aasworld
    AAS_OptimizeStore(w, o);
    proof {
        assert(optimization_stored(w0, o, *w));
    }
}

//==================================================================
// checking that the data can be optimized
//==================================================================

fn abs_index(x: i32) -> (r: usize)
    requires
        x > i32::MIN,
    ensures
        r == iabs(x as int),
{
    if x < 0 { (-x) as usize } else { x as usize }
}

fn face_ok_exec(w: &aas_s, f: usize) -> (r: bool)
    requires
        f < w.faces@.len(),
        w.edges@.len() <= 0x7fff_ffff,
    ensures
        r == face_ok(*w, f as int),
{
    let face = &w.faces[f];
    if face.faceflags & FACE_LADDER == 0 {
        return true;
    }
    if face.numedges < 0 || face.firstedge < 0 || face.firstedge as usize + face.numedges as usize > w.edgeindex.len() {
        return false;
    }
    let ne = w.edges.len() as i32;
    let mut k: i32 = 0;
    while k < face.numedges
        invariant
            f < w.faces@.len(),
            *face == w.faces@[f as int],
            ne == w.edges@.len(),
            is_ladder(*w, f as int),
            0 <= face.numedges,
            0 <= face.firstedge,
            face.firstedge + face.numedges <= w.edgeindex@.len(),
            0 <= k <= face.numedges,
            forall|j: int| 0 <= j < k ==> {
                let e = #[trigger] w.edgeindex@[face.firstedge + j];
                &&& -(w.edges@.len() as int) < e < w.edges@.len()
                &&& edge_ok(*w, iabs(e as int))
            },
        decreases face.numedges - k,
    {
        let e = w.edgeindex[face.firstedge as usize + k as usize];
        if e <= -ne || e >= ne {
            return false;
        }
        let edge = &w.edges[abs_index(e)];
        if edge.v0 < 0 || edge.v0 as usize >= w.vertexes.len() || edge.v1 < 0 || edge.v1 as usize >= w.vertexes.len() {
            return false;
        }
        k = k + 1;
    }
    true
}

fn area_ok_exec(w: &aas_s, a: usize) -> (r: bool)
    requires
        a < w.areas@.len(),
        w.faces@.len() <= 0x7fff_ffff,
        w.edges@.len() <= 0x7fff_ffff,
    ensures
        r == area_ok(*w, a as int),
{
    let area = &w.areas[a];
    if area.numfaces < 0 || area.firstface < 0 || area.firstface as usize + area.numfaces as usize > w.faceindex.len() {
        return false;
    }
    let nf = w.faces.len() as i32;
    let mut t: i32 = 0;
    while t < area.numfaces
        invariant
            a < w.areas@.len(),
            *area == w.areas@[a as int],
            nf == w.faces@.len(),
            w.edges@.len() <= 0x7fff_ffff,
            0 <= area.numfaces,
            0 <= area.firstface,
            area.firstface + area.numfaces <= w.faceindex@.len(),
            0 <= t <= area.numfaces,
            forall|j: int| 0 <= j < t ==> {
                let x = #[trigger] w.faceindex@[area.firstface + j];
                &&& -(w.faces@.len() as int) < x < w.faces@.len()
                &&& face_ok(*w, iabs(x as int))
            },
        decreases area.numfaces - t,
    {
        let x = w.faceindex[area.firstface as usize + t as usize];
        if x <= -nf || x >= nf {
            return false;
        }
        if !face_ok_exec(w, abs_index(x)) {
            return false;
        }
        t = t + 1;
    }
    true
}

/// Face `f` is among the faces of the areas before area `a` (area zero
/// aside), or among the first `t` faces of area `a`.
pub open spec fn referenced_upto(w: aas_s, f: int, a: int, t: int) -> bool {
    exists|a2: int, t2: int| 1 <= a2 < w.areas@.len() && 0 <= t2 < w.areas@[a2].numfaces
        && (a2 < a || (a2 == a && t2 < t))
        && iabs(#[trigger] w.faceindex@[w.areas@[a2].firstface + t2] as int) == f
}

/// Which faces some area (area zero aside) has among its faces.
fn referenced_faces(w: &aas_s) -> (r: Vec<bool>)
    requires
        w.areas@.len() <= 0x7fff_ffff,
        w.faces@.len() <= 0x7fff_ffff,
        forall|a: int| 1 <= a < w.areas@.len() ==> #[trigger] area_ok(*w, a),
    ensures
        r@.len() == w.faces@.len(),
        forall|f: int| 0 <= f < w.faces@.len() ==> #[trigger] r@[f] == face_referenced(*w, f),
{
    let mut r: Vec<bool> = Vec::new();
    while r.len() < w.faces.len()
        invariant
            r@.len() <= w.faces@.len(),
            forall|f: int| 0 <= f < r@.len() ==> !#[trigger] r@[f],
        decreases w.faces@.len() - r@.len(),
    {
        r.push(false);
    }
    let n = w.areas.len();
    let mut a: usize = 1;
    while a < n
        invariant
            n == w.areas@.len(),
            n <= 0x7fff_ffff,
            w.faces@.len() <= 0x7fff_ffff,
            forall|a: int| 1 <= a < w.areas@.len() ==> #[trigger] area_ok(*w, a),
            1 <= a <= n || n == 0,
            r@.len() == w.faces@.len(),
            forall|f: int| 0 <= f < w.faces@.len() ==> #[trigger] r@[f] == referenced_upto(*w, f, a as int, 0),
        decreases n - a,
    {
        assert(area_ok(*w, a as int));
        let area = &w.areas[a];
        let mut t: i32 = 0;
        while t < area.numfaces
            invariant
                n == w.areas@.len(),
                1 <= a < n,
                *area == w.areas@[a as int],
                area_ok(*w, a as int),
                w.faces@.len() <= 0x7fff_ffff,
                0 <= t <= area.numfaces,
                r@.len() == w.faces@.len(),
                forall|f: int| 0 <= f < w.faces@.len() ==> #[trigger] r@[f] == referenced_upto(*w, f, a as int, t as int),
            decreases area.numfaces - t,
        {
            let x = w.faceindex[area.firstface as usize + t as usize];
            let g = abs_index(x);
            r.set(g, true);
            proof {
                assert forall|f: int| 0 <= f < w.faces@.len() implies
                    #[trigger] r@[f] == referenced_upto(*w, f, a as int, t + 1) by {
                    if f == g {
                        assert(w.faceindex@[w.areas@[a as int].firstface + t] == x);
                        assert(referenced_upto(*w, f, a as int, t + 1));
                    } else {
                        if referenced_upto(*w, f, a as int, t + 1) {
                            let (a2, t2) = choose|a2: int, t2: int| 1 <= a2 < w.areas@.len()
                                && 0 <= t2 < w.areas@[a2].numfaces && (a2 < a || (a2 == a && t2 < t + 1))
                                && iabs(#[trigger] w.faceindex@[w.areas@[a2].firstface + t2] as int) == f;
                            assert(!(a2 == a && t2 == t));
                            assert(referenced_upto(*w, f, a as int, t as int));
                        }
                    }
                }
            }
            t = t + 1;
        }
        proof {
            assert forall|f: int| 0 <= f < w.faces@.len() implies
                #[trigger] r@[f] == referenced_upto(*w, f, a + 1, 0) by {
                if referenced_upto(*w, f, a + 1, 0) {
                    let (a2, t2) = choose|a2: int, t2: int| 1 <= a2 < w.areas@.len()
                        && 0 <= t2 < w.areas@[a2].numfaces && (a2 < a + 1 || (a2 == a + 1 && t2 < 0))
                        && iabs(#[trigger] w.faceindex@[w.areas@[a2].firstface + t2] as int) == f;
                    assert(referenced_upto(*w, f, a as int, area.numfaces as int));
                }
                if referenced_upto(*w, f, a as int, area.numfaces as int) {
                    let (a2, t2) = choose|a2: int, t2: int| 1 <= a2 < w.areas@.len()
                        && 0 <= t2 < w.areas@[a2].numfaces && (a2 < a || (a2 == a && t2 < area.numfaces))
                        && iabs(#[trigger] w.faceindex@[w.areas@[a2].firstface + t2] as int) == f;
                    assert(referenced_upto(*w, f, a + 1, 0));
                }
            }
        }
        a = a + 1;
    }
    proof {
        assert forall|f: int| 0 <= f < w.faces@.len() implies #[trigger] r@[f] == face_referenced(*w, f) by {
            if n >= 1 {
                if face_referenced(*w, f) {
                    let (a2, t2) = choose|a2: int, t2: int| 1 <= a2 < w.areas@.len() && 0 <= t2 < w.areas@[a2].numfaces
                        && iabs(#[trigger] w.faceindex@[w.areas@[a2].firstface + t2] as int) == f;
                    assert(referenced_upto(*w, f, n as int, 0));
                }
            }
        }
    }
    r
}

/// Checks that the AAS data can be optimized (`optimize_ready`): the
/// numbers the optimization follows are in range and its counts fit.
pub fn AAS_OptimizeReady(w: &aas_s) -> (r: bool)
    ensures
        r == optimize_ready(*w),
{
    let n = w.areas.len();
    if n > 0x7fff_ffff || w.faces.len() > 0x7fff_ffff || w.edges.len() > 0x7fff_ffff || w.vertexes.len() > 0x7fff_ffff {
        return false;
    }
    let mut a: usize = 1;
    let mut facesum: i64 = 0;
    while a < n
        invariant
            n == w.areas@.len(),
            n <= 0x7fff_ffff,
            w.faces@.len() <= 0x7fff_ffff,
            w.edges@.len() <= 0x7fff_ffff,
            1 <= a,
            a <= n || a == 1,
            forall|b: int| 1 <= b < a ==> #[trigger] area_ok(*w, b),
            facesum == area_face_sum(*w, a as int),
            0 <= facesum <= a * 0x7fff_ffff,
        decreases n - a,
    {
        if !area_ok_exec(w, a) {
            return false;
        }
        proof {
            assert(a * 0x7fff_ffff + 0x7fff_ffff == (a + 1) * 0x7fff_ffff) by (nonlinear_arith);
            assert((a + 1) * 0x7fff_ffff <= 0x8000_0000 * 0x7fff_ffff) by (nonlinear_arith)
                requires a + 1 <= 0x8000_0000;
        }
        facesum = facesum + w.areas[a].numfaces as i64;
        a = a + 1;
    }
    proof {
        if n == 0 {
            assert(area_face_sum(*w, 1) == 0);
        }
    }
    if facesum > 0x7fff_ffff {
        return false;
    }
    let referenced = referenced_faces(w);
    let nf = w.faces.len();
    let mut f: usize = 0;
    let mut edgesum: i64 = 0;
    while f < nf
        invariant
            nf == w.faces@.len(),
            nf <= 0x7fff_ffff,
            referenced@.len() == nf,
            forall|g: int| 0 <= g < nf ==> #[trigger] referenced@[g] == face_referenced(*w, g),
            forall|b: int| 1 <= b < w.areas@.len() ==> #[trigger] area_ok(*w, b),
            0 <= f <= nf,
            edgesum == kept_edge_sum(*w, needed_face(*w), f as int),
            0 <= edgesum <= 0x7fff_ffff,
        decreases nf - f,
    {
        if w.faces[f].faceflags & FACE_LADDER != 0 && referenced[f] {
            proof {
                let (a2, t2) = choose|a2: int, t2: int| 1 <= a2 < w.areas@.len() && 0 <= t2 < w.areas@[a2].numfaces
                    && iabs(#[trigger] w.faceindex@[w.areas@[a2].firstface + t2] as int) == f;
                assert(area_ok(*w, a2));
                assert(face_ok(*w, f as int));
            }
            edgesum = edgesum + w.faces[f].numedges as i64;
            if edgesum > 0x7fff_ffff {
                proof {
                    lemma_kept_edge_sum_mono(*w, f as int + 1, nf as int);
                }
                return false;
            }
        }
        f = f + 1;
    }
    let nfi = w.faces.len() as i32;
    let nei = w.edges.len() as i32;
    let mut k: usize = 0;
    while k < w.reachability.len()
        invariant
            nfi == w.faces@.len(),
            nei == w.edges@.len(),
            0 <= k <= w.reachability@.len(),
            forall|j: int| 0 <= j < k && !keeps_numbers(#[trigger] w.reachability@[j].traveltype) ==> {
                &&& -(w.faces@.len() as int) < w.reachability@[j].facenum < w.faces@.len()
                &&& -(w.edges@.len() as int) < w.reachability@[j].edgenum < w.edges@.len()
            },
        decreases w.reachability@.len() - k,
    {
        let reach = &w.reachability[k];
        let t = reach.traveltype & TRAVELTYPE_MASK;
        if !(t == TRAVEL_ELEVATOR || t == TRAVEL_JUMPPAD || t == TRAVEL_FUNCBOB) {
            if reach.facenum <= -nfi || reach.facenum >= nfi || reach.edgenum <= -nei || reach.edgenum >= nei {
                return false;
            }
        }
        k = k + 1;
    }
    true
}

/// The kept edge count only grows with the faces counted, for faces whose
/// count is kept only when they are ladder faces of areas that check out.
proof fn lemma_kept_edge_sum_mono(w: aas_s, i: int, j: int)
    requires
        0 <= i <= j <= w.faces@.len(),
        forall|b: int| 1 <= b < w.areas@.len() ==> #[trigger] area_ok(w, b),
    ensures
        kept_edge_sum(w, needed_face(w), i) <= kept_edge_sum(w, needed_face(w), j),
    decreases j - i,
{
    if i < j {
        lemma_kept_edge_sum_mono(w, i, j - 1);
        if needed_face(w)(j - 1) {
            let f = j - 1;
            let (a2, t2) = choose|a2: int, t2: int| 1 <= a2 < w.areas@.len() && 0 <= t2 < w.areas@[a2].numfaces
                && iabs(#[trigger] w.faceindex@[w.areas@[a2].firstface + t2] as int) == f;
            assert(area_ok(w, a2));
            assert(face_ok(w, f));
        }
    }
}

} // verus!
