//! The loaded area awareness data of the current map.
use vstd::prelude::*;
use crate::aasfile::{
    aas_area_t, aas_areasettings_t, aas_bbox_t, aas_cluster_t, aas_edge_t, aas_face_t,
    aas_node_t, aas_plane_t, aas_portal_t, aas_reachability_t, aas_vertex_t,
};

verus! {

/// The AAS world: the data of the AAS file of the map and its state.
/// Element zero of the edges, faces, areas and nodes is a dummy; portal zero
/// and cluster zero are dummies too.
pub struct aas_s {
    /// true when an AAS file is loaded
    pub loaded: bool,
    /// true when AAS has been initialized
    pub initialized: bool,
    /// set true when the file should be saved
    pub savefile: bool,
    /// checksum of the BSP file the AAS data was made for
    pub bspchecksum: i32,
    /// number of frames since the library was set up
    pub numframes: i32,
    pub bboxes: Vec<aas_bbox_t>,
    pub vertexes: Vec<aas_vertex_t>,
    pub planes: Vec<aas_plane_t>,
    pub edges: Vec<aas_edge_t>,
    /// edge index, negative if the vertexes are reversed
    pub edgeindex: Vec<i32>,
    pub faces: Vec<aas_face_t>,
    /// face index, negative for the back side of a face
    pub faceindex: Vec<i32>,
    pub areas: Vec<aas_area_t>,
    pub areasettings: Vec<aas_areasettings_t>,
    pub reachability: Vec<aas_reachability_t>,
    pub nodes: Vec<aas_node_t>,
    pub portals: Vec<aas_portal_t>,
    pub portalindex: Vec<i32>,
    pub clusters: Vec<aas_cluster_t>,
}

pub type aas_t = aas_s;

impl aas_s {
    /// No AAS data is held.
    pub open spec fn is_dumped(&self) -> bool {
        &&& self.bboxes@.len() == 0
        &&& self.vertexes@.len() == 0
        &&& self.planes@.len() == 0
        &&& self.edges@.len() == 0
        &&& self.edgeindex@.len() == 0
        &&& self.faces@.len() == 0
        &&& self.faceindex@.len() == 0
        &&& self.areas@.len() == 0
        &&& self.areasettings@.len() == 0
        &&& self.reachability@.len() == 0
        &&& self.nodes@.len() == 0
        &&& self.portals@.len() == 0
        &&& self.portalindex@.len() == 0
        &&& self.clusters@.len() == 0
        &&& !self.loaded
        &&& !self.initialized
        &&& !self.savefile
    }

    /// The two worlds hold the same AAS data.
    pub open spec fn same_data(&self, other: &aas_s) -> bool {
        &&& self.bspchecksum == other.bspchecksum
        &&& self.bboxes@ == other.bboxes@
        &&& self.vertexes@ == other.vertexes@
        &&& self.planes@ == other.planes@
        &&& self.edges@ == other.edges@
        &&& self.edgeindex@ == other.edgeindex@
        &&& self.faces@ == other.faces@
        &&& self.faceindex@ == other.faceindex@
        &&& self.areas@ == other.areas@
        &&& self.areasettings@ == other.areasettings@
        &&& self.reachability@ == other.reachability@
        &&& self.nodes@ == other.nodes@
        &&& self.portals@ == other.portals@
        &&& self.portalindex@ == other.portalindex@
        &&& self.clusters@ == other.clusters@
    }

    /// An empty world: nothing loaded.
    pub fn new() -> (w: aas_s)
        ensures
            w.is_dumped(),
            w.bspchecksum == 0,
            w.numframes == 0,
    {
        aas_s {
            loaded: false,
            initialized: false,
            savefile: false,
            bspchecksum: 0,
            numframes: 0,
            bboxes: Vec::new(),
            vertexes: Vec::new(),
            planes: Vec::new(),
            edges: Vec::new(),
            edgeindex: Vec::new(),
            faces: Vec::new(),
            faceindex: Vec::new(),
            areas: Vec::new(),
            areasettings: Vec::new(),
            reachability: Vec::new(),
            nodes: Vec::new(),
            portals: Vec::new(),
            portalindex: Vec::new(),
            clusters: Vec::new(),
        }
    }
}

/// Dumps the loaded AAS data (`AAS_DumpAASData`): every lump is emptied and
/// the world is no longer loaded, initialized or to be saved.
pub fn AAS_DumpAASData(w: &mut aas_s)
    ensures
        final(w).is_dumped(),
        final(w).bspchecksum == old(w).bspchecksum,
        final(w).numframes == old(w).numframes,
{
    w.bboxes = Vec::new();
    w.vertexes = Vec::new();
    w.planes = Vec::new();
    w.edges = Vec::new();
    w.edgeindex = Vec::new();
    w.faces = Vec::new();
    w.faceindex = Vec::new();
    w.areas = Vec::new();
    w.areasettings = Vec::new();
    w.reachability = Vec::new();
    w.nodes = Vec::new();
    w.portals = Vec::new();
    w.portalindex = Vec::new();
    w.clusters = Vec::new();
    w.loaded = false;
    w.initialized = false;
    w.savefile = false;
}

/// True when an AAS file is loaded (`AAS_Loaded`).
pub fn AAS_Loaded(w: &aas_s) -> (r: bool)
    ensures
        r == w.loaded,
{
    w.loaded
}

/// True when the AAS world has been initialized (`AAS_Initialized`).
pub fn AAS_Initialized(w: &aas_s) -> (r: bool)
    ensures
        r == w.initialized,
{
    w.initialized
}

/// Marks the AAS world initialized (`AAS_SetInitialized`).
pub fn AAS_SetInitialized(w: &mut aas_s)
    ensures
        final(w).initialized,
        final(w).loaded == old(w).loaded,
        final(w).same_data(&*old(w)),
{
    w.initialized = true;
}

} // verus!
