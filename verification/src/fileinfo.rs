//! The figures that describe the loaded AAS data.
use vstd::prelude::*;
use crate::aasfile::{
    aas_area_t, aas_areasettings_t, aas_cluster_t, aas_node_t, aas_plane_t, aas_portal_t,
    aas_reachability_t, Record, AREA_GROUNDED,
};
use crate::aas_file::AASVERSION;
use crate::aasworld::aas_s;

verus! {

/// The figures of the AAS data (`AAS_FileInfo`): the file version, the
/// number of entries of every lump, the number of grounded areas, the size
/// in bytes of the lumps that stay after optimizing and their total.
#[derive(Clone, Copy, Debug, PartialEq, Eq, Structural)]
pub struct AasFileInfo {
    pub version: i32,
    pub numvertexes: u64,
    pub numplanes: u64,
    pub numedges: u64,
    pub edgeindexsize: u64,
    pub numfaces: u64,
    pub faceindexsize: u64,
    pub numareas: u64,
    pub numareasettings: u64,
    pub reachabilitysize: u64,
    pub numnodes: u64,
    pub numportals: u64,
    pub portalindexsize: u64,
    pub numclusters: u64,
    pub numgrounded: u64,
    pub planes_bytes: u128,
    pub areas_bytes: u128,
    pub areasettings_bytes: u128,
    pub nodes_bytes: u128,
    pub reachability_bytes: u128,
    pub portals_bytes: u128,
    pub clusters_bytes: u128,
    pub optimized_bytes: u128,
}

/// Number of the first `n` area settings with the grounded flag.
pub open spec fn count_grounded(s: Seq<aas_areasettings_t>, n: int) -> nat
    decreases n,
{
    if n <= 0 {
        0
    } else {
        count_grounded(s, n - 1) + (if s[n - 1].areaflags & AREA_GROUNDED != 0 { 1nat } else { 0nat })
    }
}

/// Size in bytes of `count` records of type `T`.
pub open spec fn bytes_of<T: Record>(count: nat) -> nat {
    count * 4 * T::nwords()
}

fn bytes_exec<T: Record>(count: usize) -> (r: u128)
    ensures
        r == bytes_of::<T>(count as nat),
{
    let k = T::nwords_exec();
    proof {
        T::lemma_words(arbitrary());
        assert(count * 4 * k <= 0xffff_ffff_ffff_ffff * 64) by (nonlinear_arith)
            requires k <= 16, count <= 0xffff_ffff_ffff_ffffnat;
    }
    (count as u128) * 4 * (k as u128)
}

/// The figures of the AAS data `w` (`AAS_FileInfo`).
pub fn AAS_FileInfo(w: &aas_s) -> (info: AasFileInfo)
    ensures
        info.version == AASVERSION,
        info.numvertexes == w.vertexes@.len(),
        info.numplanes == w.planes@.len(),
        info.numedges == w.edges@.len(),
        info.edgeindexsize == w.edgeindex@.len(),
        info.numfaces == w.faces@.len(),
        info.faceindexsize == w.faceindex@.len(),
        info.numareas == w.areas@.len(),
        info.numareasettings == w.areasettings@.len(),
        info.reachabilitysize == w.reachability@.len(),
        info.numnodes == w.nodes@.len(),
        info.numportals == w.portals@.len(),
        info.portalindexsize == w.portalindex@.len(),
        info.numclusters == w.clusters@.len(),
        info.numgrounded == count_grounded(w.areasettings@, w.areasettings@.len() as int),
        info.planes_bytes == bytes_of::<aas_plane_t>(w.planes@.len()),
        info.areas_bytes == bytes_of::<aas_area_t>(w.areas@.len()),
        info.areasettings_bytes == bytes_of::<aas_areasettings_t>(w.areasettings@.len()),
        info.nodes_bytes == bytes_of::<aas_node_t>(w.nodes@.len()),
        info.reachability_bytes == bytes_of::<aas_reachability_t>(w.reachability@.len()),
        info.portals_bytes == bytes_of::<aas_portal_t>(w.portals@.len()),
        info.clusters_bytes == bytes_of::<aas_cluster_t>(w.clusters@.len()),
        info.optimized_bytes == info.planes_bytes + info.areas_bytes + info.areasettings_bytes
            + info.nodes_bytes + info.reachability_bytes + info.portals_bytes + info.clusters_bytes,
{
    let mut n: u64 = 0;
    let mut i: usize = 0;
    while i < w.areasettings.len()
        invariant
            0 <= i <= w.areasettings@.len(),
            n == count_grounded(w.areasettings@, i as int),
            n <= i,
        decreases w.areasettings@.len() - i,
    {
        if w.areasettings[i].areaflags & AREA_GROUNDED != 0 {
            n = n + 1;
        }
        i = i + 1;
    }
    let planes_bytes = bytes_exec::<aas_plane_t>(w.planes.len());
    let areas_bytes = bytes_exec::<aas_area_t>(w.areas.len());
    let areasettings_bytes = bytes_exec::<aas_areasettings_t>(w.areasettings.len());
    let nodes_bytes = bytes_exec::<aas_node_t>(w.nodes.len());
    let reachability_bytes = bytes_exec::<aas_reachability_t>(w.reachability.len());
    let portals_bytes = bytes_exec::<aas_portal_t>(w.portals.len());
    let clusters_bytes = bytes_exec::<aas_cluster_t>(w.clusters.len());
    proof {
        assert(planes_bytes + areas_bytes + areasettings_bytes + nodes_bytes + reachability_bytes
            + portals_bytes + clusters_bytes <= u128::MAX);
    }
    AasFileInfo {
        version: AASVERSION,
        numvertexes: w.vertexes.len() as u64,
        numplanes: w.planes.len() as u64,
        numedges: w.edges.len() as u64,
        edgeindexsize: w.edgeindex.len() as u64,
        numfaces: w.faces.len() as u64,
        faceindexsize: w.faceindex.len() as u64,
        numareas: w.areas.len() as u64,
        numareasettings: w.areasettings.len() as u64,
        reachabilitysize: w.reachability.len() as u64,
        numnodes: w.nodes.len() as u64,
        numportals: w.portals.len() as u64,
        portalindexsize: w.portalindex.len() as u64,
        numclusters: w.clusters.len() as u64,
        numgrounded: n,
        planes_bytes: planes_bytes,
        areas_bytes: areas_bytes,
        areasettings_bytes: areasettings_bytes,
        nodes_bytes: nodes_bytes,
        reachability_bytes: reachability_bytes,
        portals_bytes: portals_bytes,
        clusters_bytes: clusters_bytes,
        optimized_bytes: planes_bytes + areas_bytes + areasettings_bytes + nodes_bytes + reachability_bytes
            + portals_bytes + clusters_bytes,
    }
}

} // verus!
