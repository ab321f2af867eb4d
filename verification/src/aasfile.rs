//! The structures of an AAS (area awareness system) file.
//!
//! Every structure is stored in the file as a fixed number of little endian
//! 32 bit words. Floating point values are carried as their IEEE-754 bit
//! patterns (`u32`): the library moves them around but never computes with
//! them.
use vstd::prelude::*;

verus! {

//presence types
pub const PRESENCE_NONE: i32 = 1;
pub const PRESENCE_NORMAL: i32 = 2;
pub const PRESENCE_CROUCH: i32 = 4;

//travel types
pub const MAX_TRAVELTYPES: i32 = 32;
pub const TRAVEL_INVALID: i32 = 1;
pub const TRAVEL_WALK: i32 = 2;
pub const TRAVEL_CROUCH: i32 = 3;
pub const TRAVEL_BARRIERJUMP: i32 = 4;
pub const TRAVEL_JUMP: i32 = 5;
pub const TRAVEL_LADDER: i32 = 6;
pub const TRAVEL_WALKOFFLEDGE: i32 = 7;
pub const TRAVEL_SWIM: i32 = 8;
pub const TRAVEL_WATERJUMP: i32 = 9;
pub const TRAVEL_TELEPORT: i32 = 10;
pub const TRAVEL_ELEVATOR: i32 = 11;
pub const TRAVEL_ROCKETJUMP: i32 = 12;
pub const TRAVEL_BFGJUMP: i32 = 13;
pub const TRAVEL_GRAPPLEHOOK: i32 = 14;
pub const TRAVEL_DOUBLEJUMP: i32 = 15;
pub const TRAVEL_RAMPJUMP: i32 = 16;
pub const TRAVEL_STRAFEJUMP: i32 = 17;
pub const TRAVEL_JUMPPAD: i32 = 18;
pub const TRAVEL_FUNCBOB: i32 = 19;

//additional travel flags
pub const TRAVELTYPE_MASK: i32 = 0xFFFFFF;

//face flags
pub const FACE_SOLID: i32 = 1;
pub const FACE_LADDER: i32 = 2;
pub const FACE_GROUND: i32 = 4;
pub const FACE_GAP: i32 = 8;
pub const FACE_LIQUID: i32 = 16;
pub const FACE_LIQUIDSURFACE: i32 = 32;
pub const FACE_BRIDGE: i32 = 64;

//area contents
pub const AREACONTENTS_WATER: i32 = 1;
pub const AREACONTENTS_LAVA: i32 = 2;
pub const AREACONTENTS_SLIME: i32 = 4;
pub const AREACONTENTS_CLUSTERPORTAL: i32 = 8;
pub const AREACONTENTS_TELEPORTAL: i32 = 16;
pub const AREACONTENTS_ROUTEPORTAL: i32 = 32;
pub const AREACONTENTS_TELEPORTER: i32 = 64;
pub const AREACONTENTS_JUMPPAD: i32 = 128;
pub const AREACONTENTS_DONOTENTER: i32 = 256;
pub const AREACONTENTS_VIEWPORTAL: i32 = 512;
pub const AREACONTENTS_MOVER: i32 = 1024;
pub const AREACONTENTS_NOTTEAM1: i32 = 2048;
pub const AREACONTENTS_NOTTEAM2: i32 = 4096;

//area flags
pub const AREA_GROUNDED: i32 = 1;
pub const AREA_LADDER: i32 = 2;
pub const AREA_LIQUID: i32 = 4;
pub const AREA_DISABLED: i32 = 8;
pub const AREA_BRIDGE: i32 = 16;

//aas file header lumps
pub const AAS_LUMPS: usize = 14;
pub const AASLUMP_BBOXES: usize = 0;
pub const AASLUMP_VERTEXES: usize = 1;
pub const AASLUMP_PLANES: usize = 2;
pub const AASLUMP_EDGES: usize = 3;
pub const AASLUMP_EDGEINDEX: usize = 4;
pub const AASLUMP_FACES: usize = 5;
pub const AASLUMP_FACEINDEX: usize = 6;
pub const AASLUMP_AREAS: usize = 7;
pub const AASLUMP_AREASETTINGS: usize = 8;
pub const AASLUMP_REACHABILITY: usize = 9;
pub const AASLUMP_NODES: usize = 10;
pub const AASLUMP_PORTALS: usize = 11;
pub const AASLUMP_PORTALINDEX: usize = 12;
pub const AASLUMP_CLUSTERS: usize = 13;

/// Three floats (a point or a vector), carried as their bit patterns.
#[derive(Clone, Copy, Debug, PartialEq, Eq, Structural)]
pub struct Vec3Bits {
    pub x: u32,
    pub y: u32,
    pub z: u32,
}

/// A vertex of the 3d definition.
pub type aas_vertex_t = Vec3Bits;

//bounding box
#[derive(Clone, Copy, Debug, PartialEq, Eq, Structural)]
pub struct aas_bbox_s {
    pub presencetype: i32,
    pub flags: i32,
    pub mins: Vec3Bits,
    pub maxs: Vec3Bits,
}

//just a plane in the third dimension
#[derive(Clone, Copy, Debug, PartialEq, Eq, Structural)]
pub struct aas_plane_s {
    pub normal: Vec3Bits,
    pub dist: u32,
    pub type_: i32,
}

//edge
#[derive(Clone, Copy, Debug, PartialEq, Eq, Structural)]
pub struct aas_edge_s {
    pub v0: i32,
    pub v1: i32,
}

//a face bounds an area, often it will also seperate two areas
#[derive(Clone, Copy, Debug, PartialEq, Eq, Structural)]
pub struct aas_face_s {
    pub planenum: i32,
    pub faceflags: i32,
    pub numedges: i32,
    pub firstedge: i32,
    pub frontarea: i32,
    pub backarea: i32,
}

//area with a boundary of faces
#[derive(Clone, Copy, Debug, PartialEq, Eq, Structural)]
pub struct aas_area_s {
    pub areanum: i32,
    pub numfaces: i32,
    pub firstface: i32,
    pub mins: Vec3Bits,
    pub maxs: Vec3Bits,
    pub center: Vec3Bits,
}

//area settings
#[derive(Clone, Copy, Debug, PartialEq, Eq, Structural)]
pub struct aas_areasettings_s {
    pub contents: i32,
    pub areaflags: i32,
    pub presencetype: i32,
    pub cluster: i32,
    pub clusterareanum: i32,
    pub numreachableareas: i32,
    pub firstreachablearea: i32,
}

//reachability to another area
#[derive(Clone, Copy, Debug, PartialEq, Eq, Structural)]
pub struct aas_reachability_s {
    pub areanum: i32,
    pub facenum: i32,
    pub edgenum: i32,
    pub start: Vec3Bits,
    pub end: Vec3Bits,
    pub traveltype: i32,
    pub traveltime: u16,
}

//nodes of the bsp tree
#[derive(Clone, Copy, Debug, PartialEq, Eq, Structural)]
pub struct aas_node_s {
    pub planenum: i32,
    pub child0: i32,
    pub child1: i32,
}

//cluster portal
#[derive(Clone, Copy, Debug, PartialEq, Eq, Structural)]
pub struct aas_portal_s {
    pub areanum: i32,
    pub frontcluster: i32,
    pub backcluster: i32,
    pub clusterareanum0: i32,
    pub clusterareanum1: i32,
}

//cluster
#[derive(Clone, Copy, Debug, PartialEq, Eq, Structural)]
pub struct aas_cluster_s {
    pub numareas: i32,
    pub numreachabilityareas: i32,
    pub numportals: i32,
    pub firstportal: i32,
}

pub type aas_bbox_t = aas_bbox_s;
pub type aas_plane_t = aas_plane_s;
pub type aas_edge_t = aas_edge_s;
pub type aas_face_t = aas_face_s;
pub type aas_area_t = aas_area_s;
pub type aas_areasettings_t = aas_areasettings_s;
pub type aas_reachability_t = aas_reachability_s;
pub type aas_node_t = aas_node_s;
pub type aas_portal_t = aas_portal_s;
pub type aas_cluster_t = aas_cluster_s;

/// A structure that the AAS file stores as a fixed number of words.
pub trait Record: Sized {
    /// Number of 32 bit words of the structure in the file.
    spec fn nwords() -> nat;

    /// The words the structure is stored as.
    spec fn to_words(&self) -> Seq<u32>;

    /// The structure read back from its words.
    spec fn from_words(w: Seq<u32>) -> Self;

    /// Storing a structure and reading it back gives the structure.
    proof fn lemma_words(r: Self)
        ensures
            r.to_words().len() == Self::nwords(),
            Self::from_words(r.to_words()) == r,
            1 <= Self::nwords() <= 16,
    ;

    fn nwords_exec() -> (n: usize)
        ensures
            n == Self::nwords(),
    ;

    fn push_words(&self, out: &mut Vec<u32>)
        ensures
            final(out)@ == old(out)@ + self.to_words(),
    ;

    fn read(w: &[u32], off: usize) -> (r: Self)
        requires
            off + Self::nwords() <= w@.len(),
        ensures
            r == Self::from_words(w@.subrange(off as int, off + Self::nwords())),
    ;
}

/// A signed word stored as its two's complement bits reads back unchanged.
pub proof fn lemma_i32_word(x: i32)
    ensures
        (x as u32) as i32 == x,
{
    assert((x as u32) as i32 == x) by (bit_vector);
}

/// A travel time stored in the low half of a word reads back unchanged.
pub proof fn lemma_u16_word(x: u16)
    ensures
        ((x as u32) & 0xffffu32) as u16 == x,
{
    assert(((x as u32) & 0xffffu32) as u16 == x) by (bit_vector);
}

impl Record for i32 {
    open spec fn nwords() -> nat {
        1
    }

    open spec fn to_words(&self) -> Seq<u32> {
        seq![*self as u32]
    }

    open spec fn from_words(w: Seq<u32>) -> Self {
        w[0] as i32
    }

    proof fn lemma_words(r: Self) {
        lemma_i32_word(r);
    }

    fn nwords_exec() -> (n: usize) {
        1
    }

    fn push_words(&self, out: &mut Vec<u32>) {
        out.push(*self as u32);
        proof {
            assert(out@ =~= old(out)@ + self.to_words());
        }
    }

    fn read(w: &[u32], off: usize) -> (r: Self) {
        w[off] as i32
    }
}

impl Record for Vec3Bits {
    open spec fn nwords() -> nat {
        3
    }

    open spec fn to_words(&self) -> Seq<u32> {
        seq![self.x, self.y, self.z]
    }

    open spec fn from_words(w: Seq<u32>) -> Self {
        Vec3Bits { x: w[0], y: w[1], z: w[2] }
    }

    proof fn lemma_words(r: Self) {
    }

    fn nwords_exec() -> (n: usize) {
        3
    }

    fn push_words(&self, out: &mut Vec<u32>) {
        out.push(self.x);
        out.push(self.y);
        out.push(self.z);
        proof {
            assert(out@ =~= old(out)@ + self.to_words());
        }
    }

    fn read(w: &[u32], off: usize) -> (r: Self) {
        Vec3Bits { x: w[off], y: w[off + 1], z: w[off + 2] }
    }
}

impl Record for aas_bbox_s {
    open spec fn nwords() -> nat {
        8
    }

    open spec fn to_words(&self) -> Seq<u32> {
        seq![self.presencetype as u32, self.flags as u32, self.mins.x, self.mins.y, self.mins.z, self.maxs.x, self.maxs.y, self.maxs.z]
    }

    open spec fn from_words(w: Seq<u32>) -> Self {
        aas_bbox_s { presencetype: w[0] as i32, flags: w[1] as i32, mins: Vec3Bits { x: w[2], y: w[3], z: w[4] }, maxs: Vec3Bits { x: w[5], y: w[6], z: w[7] } }
    }

    proof fn lemma_words(r: Self) {
        lemma_i32_word(r.presencetype);
        lemma_i32_word(r.flags);
        assert(Self::from_words(r.to_words()) == r);
    }

    fn nwords_exec() -> (n: usize) {
        8
    }

    fn push_words(&self, out: &mut Vec<u32>) {
        out.push(self.presencetype as u32);
        out.push(self.flags as u32);
        out.push(self.mins.x);
        out.push(self.mins.y);
        out.push(self.mins.z);
        out.push(self.maxs.x);
        out.push(self.maxs.y);
        out.push(self.maxs.z);
        proof {
            assert(out@ =~= old(out)@ + self.to_words());
        }
    }

    fn read(w: &[u32], off: usize) -> (r: Self) {
        aas_bbox_s { presencetype: w[off + 0] as i32, flags: w[off + 1] as i32, mins: Vec3Bits { x: w[off + 2], y: w[off + 3], z: w[off + 4] }, maxs: Vec3Bits { x: w[off + 5], y: w[off + 6], z: w[off + 7] } }
    }
}

impl Record for aas_plane_s {
    open spec fn nwords() -> nat {
        5
    }

    open spec fn to_words(&self) -> Seq<u32> {
        seq![self.normal.x, self.normal.y, self.normal.z, self.dist, self.type_ as u32]
    }

    open spec fn from_words(w: Seq<u32>) -> Self {
        aas_plane_s { normal: Vec3Bits { x: w[0], y: w[1], z: w[2] }, dist: w[3], type_: w[4] as i32 }
    }

    proof fn lemma_words(r: Self) {
        lemma_i32_word(r.type_);
        assert(Self::from_words(r.to_words()) == r);
    }

    fn nwords_exec() -> (n: usize) {
        5
    }

    fn push_words(&self, out: &mut Vec<u32>) {
        out.push(self.normal.x);
        out.push(self.normal.y);
        out.push(self.normal.z);
        out.push(self.dist);
        out.push(self.type_ as u32);
        proof {
            assert(out@ =~= old(out)@ + self.to_words());
        }
    }

    fn read(w: &[u32], off: usize) -> (r: Self) {
        aas_plane_s { normal: Vec3Bits { x: w[off + 0], y: w[off + 1], z: w[off + 2] }, dist: w[off + 3], type_: w[off + 4] as i32 }
    }
}

impl Record for aas_edge_s {
    open spec fn nwords() -> nat {
        2
    }

    open spec fn to_words(&self) -> Seq<u32> {
        seq![self.v0 as u32, self.v1 as u32]
    }

    open spec fn from_words(w: Seq<u32>) -> Self {
        aas_edge_s { v0: w[0] as i32, v1: w[1] as i32 }
    }

    proof fn lemma_words(r: Self) {
        lemma_i32_word(r.v0);
        lemma_i32_word(r.v1);
        assert(Self::from_words(r.to_words()) == r);
    }

    fn nwords_exec() -> (n: usize) {
        2
    }

    fn push_words(&self, out: &mut Vec<u32>) {
        out.push(self.v0 as u32);
        out.push(self.v1 as u32);
        proof {
            assert(out@ =~= old(out)@ + self.to_words());
        }
    }

    fn read(w: &[u32], off: usize) -> (r: Self) {
        aas_edge_s { v0: w[off + 0] as i32, v1: w[off + 1] as i32 }
    }
}

impl Record for aas_face_s {
    open spec fn nwords() -> nat {
        6
    }

    open spec fn to_words(&self) -> Seq<u32> {
        seq![self.planenum as u32, self.faceflags as u32, self.numedges as u32, self.firstedge as u32, self.frontarea as u32, self.backarea as u32]
    }

    open spec fn from_words(w: Seq<u32>) -> Self {
        aas_face_s { planenum: w[0] as i32, faceflags: w[1] as i32, numedges: w[2] as i32, firstedge: w[3] as i32, frontarea: w[4] as i32, backarea: w[5] as i32 }
    }

    proof fn lemma_words(r: Self) {
        lemma_i32_word(r.planenum);
        lemma_i32_word(r.faceflags);
        lemma_i32_word(r.numedges);
        lemma_i32_word(r.firstedge);
        lemma_i32_word(r.frontarea);
        lemma_i32_word(r.backarea);
        assert(Self::from_words(r.to_words()) == r);
    }

    fn nwords_exec() -> (n: usize) {
        6
    }

    fn push_words(&self, out: &mut Vec<u32>) {
        out.push(self.planenum as u32);
        out.push(self.faceflags as u32);
        out.push(self.numedges as u32);
        out.push(self.firstedge as u32);
        out.push(self.frontarea as u32);
        out.push(self.backarea as u32);
        proof {
            assert(out@ =~= old(out)@ + self.to_words());
        }
    }

    fn read(w: &[u32], off: usize) -> (r: Self) {
        aas_face_s { planenum: w[off + 0] as i32, faceflags: w[off + 1] as i32, numedges: w[off + 2] as i32, firstedge: w[off + 3] as i32, frontarea: w[off + 4] as i32, backarea: w[off + 5] as i32 }
    }
}

impl Record for aas_area_s {
    open spec fn nwords() -> nat {
        12
    }

    open spec fn to_words(&self) -> Seq<u32> {
        seq![self.areanum as u32, self.numfaces as u32, self.firstface as u32, self.mins.x, self.mins.y, self.mins.z, self.maxs.x, self.maxs.y, self.maxs.z, self.center.x, self.center.y, self.center.z]
    }

    open spec fn from_words(w: Seq<u32>) -> Self {
        aas_area_s { areanum: w[0] as i32, numfaces: w[1] as i32, firstface: w[2] as i32, mins: Vec3Bits { x: w[3], y: w[4], z: w[5] }, maxs: Vec3Bits { x: w[6], y: w[7], z: w[8] }, center: Vec3Bits { x: w[9], y: w[10], z: w[11] } }
    }

    proof fn lemma_words(r: Self) {
        lemma_i32_word(r.areanum);
        lemma_i32_word(r.numfaces);
        lemma_i32_word(r.firstface);
        assert(Self::from_words(r.to_words()) == r);
    }

    fn nwords_exec() -> (n: usize) {
        12
    }

    fn push_words(&self, out: &mut Vec<u32>) {
        out.push(self.areanum as u32);
        out.push(self.numfaces as u32);
        out.push(self.firstface as u32);
        out.push(self.mins.x);
        out.push(self.mins.y);
        out.push(self.mins.z);
        out.push(self.maxs.x);
        out.push(self.maxs.y);
        out.push(self.maxs.z);
        out.push(self.center.x);
        out.push(self.center.y);
        out.push(self.center.z);
        proof {
            assert(out@ =~= old(out)@ + self.to_words());
        }
    }

    fn read(w: &[u32], off: usize) -> (r: Self) {
        aas_area_s { areanum: w[off + 0] as i32, numfaces: w[off + 1] as i32, firstface: w[off + 2] as i32, mins: Vec3Bits { x: w[off + 3], y: w[off + 4], z: w[off + 5] }, maxs: Vec3Bits { x: w[off + 6], y: w[off + 7], z: w[off + 8] }, center: Vec3Bits { x: w[off + 9], y: w[off + 10], z: w[off + 11] } }
    }
}

impl Record for aas_areasettings_s {
    open spec fn nwords() -> nat {
        7
    }

    open spec fn to_words(&self) -> Seq<u32> {
        seq![self.contents as u32, self.areaflags as u32, self.presencetype as u32, self.cluster as u32, self.clusterareanum as u32, self.numreachableareas as u32, self.firstreachablearea as u32]
    }

    open spec fn from_words(w: Seq<u32>) -> Self {
        aas_areasettings_s { contents: w[0] as i32, areaflags: w[1] as i32, presencetype: w[2] as i32, cluster: w[3] as i32, clusterareanum: w[4] as i32, numreachableareas: w[5] as i32, firstreachablearea: w[6] as i32 }
    }

    proof fn lemma_words(r: Self) {
        lemma_i32_word(r.contents);
        lemma_i32_word(r.areaflags);
        lemma_i32_word(r.presencetype);
        lemma_i32_word(r.cluster);
        lemma_i32_word(r.clusterareanum);
        lemma_i32_word(r.numreachableareas);
        lemma_i32_word(r.firstreachablearea);
        assert(Self::from_words(r.to_words()) == r);
    }

    fn nwords_exec() -> (n: usize) {
        7
    }

    fn push_words(&self, out: &mut Vec<u32>) {
        out.push(self.contents as u32);
        out.push(self.areaflags as u32);
        out.push(self.presencetype as u32);
        out.push(self.cluster as u32);
        out.push(self.clusterareanum as u32);
        out.push(self.numreachableareas as u32);
        out.push(self.firstreachablearea as u32);
        proof {
            assert(out@ =~= old(out)@ + self.to_words());
        }
    }

    fn read(w: &[u32], off: usize) -> (r: Self) {
        aas_areasettings_s { contents: w[off + 0] as i32, areaflags: w[off + 1] as i32, presencetype: w[off + 2] as i32, cluster: w[off + 3] as i32, clusterareanum: w[off + 4] as i32, numreachableareas: w[off + 5] as i32, firstreachablearea: w[off + 6] as i32 }
    }
}

impl Record for aas_reachability_s {
    open spec fn nwords() -> nat {
        11
    }

    open spec fn to_words(&self) -> Seq<u32> {
        seq![self.areanum as u32, self.facenum as u32, self.edgenum as u32, self.start.x, self.start.y, self.start.z, self.end.x, self.end.y, self.end.z, self.traveltype as u32, self.traveltime as u32]
    }

    open spec fn from_words(w: Seq<u32>) -> Self {
        aas_reachability_s { areanum: w[0] as i32, facenum: w[1] as i32, edgenum: w[2] as i32, start: Vec3Bits { x: w[3], y: w[4], z: w[5] }, end: Vec3Bits { x: w[6], y: w[7], z: w[8] }, traveltype: w[9] as i32, traveltime: (w[10] & 0xffffu32) as u16 }
    }

    proof fn lemma_words(r: Self) {
        lemma_i32_word(r.areanum);
        lemma_i32_word(r.facenum);
        lemma_i32_word(r.edgenum);
        lemma_i32_word(r.traveltype);
        lemma_u16_word(r.traveltime);
        assert(Self::from_words(r.to_words()) == r);
    }

    fn nwords_exec() -> (n: usize) {
        11
    }

    fn push_words(&self, out: &mut Vec<u32>) {
        out.push(self.areanum as u32);
        out.push(self.facenum as u32);
        out.push(self.edgenum as u32);
        out.push(self.start.x);
        out.push(self.start.y);
        out.push(self.start.z);
        out.push(self.end.x);
        out.push(self.end.y);
        out.push(self.end.z);
        out.push(self.traveltype as u32);
        out.push(self.traveltime as u32);
        proof {
            assert(out@ =~= old(out)@ + self.to_words());
        }
    }

    fn read(w: &[u32], off: usize) -> (r: Self) {
        aas_reachability_s { areanum: w[off + 0] as i32, facenum: w[off + 1] as i32, edgenum: w[off + 2] as i32, start: Vec3Bits { x: w[off + 3], y: w[off + 4], z: w[off + 5] }, end: Vec3Bits { x: w[off + 6], y: w[off + 7], z: w[off + 8] }, traveltype: w[off + 9] as i32, traveltime: (w[off + 10] & 0xffffu32) as u16 }
    }
}

impl Record for aas_node_s {
    open spec fn nwords() -> nat {
        3
    }

    open spec fn to_words(&self) -> Seq<u32> {
        seq![self.planenum as u32, self.child0 as u32, self.child1 as u32]
    }

    open spec fn from_words(w: Seq<u32>) -> Self {
        aas_node_s { planenum: w[0] as i32, child0: w[1] as i32, child1: w[2] as i32 }
    }

    proof fn lemma_words(r: Self) {
        lemma_i32_word(r.planenum);
        lemma_i32_word(r.child0);
        lemma_i32_word(r.child1);
        assert(Self::from_words(r.to_words()) == r);
    }

    fn nwords_exec() -> (n: usize) {
        3
    }

    fn push_words(&self, out: &mut Vec<u32>) {
        out.push(self.planenum as u32);
        out.push(self.child0 as u32);
        out.push(self.child1 as u32);
        proof {
            assert(out@ =~= old(out)@ + self.to_words());
        }
    }

    fn read(w: &[u32], off: usize) -> (r: Self) {
        aas_node_s { planenum: w[off + 0] as i32, child0: w[off + 1] as i32, child1: w[off + 2] as i32 }
    }
}

impl Record for aas_portal_s {
    open spec fn nwords() -> nat {
        5
    }

    open spec fn to_words(&self) -> Seq<u32> {
        seq![self.areanum as u32, self.frontcluster as u32, self.backcluster as u32, self.clusterareanum0 as u32, self.clusterareanum1 as u32]
    }

    open spec fn from_words(w: Seq<u32>) -> Self {
        aas_portal_s { areanum: w[0] as i32, frontcluster: w[1] as i32, backcluster: w[2] as i32, clusterareanum0: w[3] as i32, clusterareanum1: w[4] as i32 }
    }

    proof fn lemma_words(r: Self) {
        lemma_i32_word(r.areanum);
        lemma_i32_word(r.frontcluster);
        lemma_i32_word(r.backcluster);
        lemma_i32_word(r.clusterareanum0);
        lemma_i32_word(r.clusterareanum1);
        assert(Self::from_words(r.to_words()) == r);
    }

    fn nwords_exec() -> (n: usize) {
        5
    }

    fn push_words(&self, out: &mut Vec<u32>) {
        out.push(self.areanum as u32);
        out.push(self.frontcluster as u32);
        out.push(self.backcluster as u32);
        out.push(self.clusterareanum0 as u32);
        out.push(self.clusterareanum1 as u32);
        proof {
            assert(out@ =~= old(out)@ + self.to_words());
        }
    }

    fn read(w: &[u32], off: usize) -> (r: Self) {
        aas_portal_s { areanum: w[off + 0] as i32, frontcluster: w[off + 1] as i32, backcluster: w[off + 2] as i32, clusterareanum0: w[off + 3] as i32, clusterareanum1: w[off + 4] as i32 }
    }
}

impl Record for aas_cluster_s {
    open spec fn nwords() -> nat {
        4
    }

    open spec fn to_words(&self) -> Seq<u32> {
        seq![self.numareas as u32, self.numreachabilityareas as u32, self.numportals as u32, self.firstportal as u32]
    }

    open spec fn from_words(w: Seq<u32>) -> Self {
        aas_cluster_s { numareas: w[0] as i32, numreachabilityareas: w[1] as i32, numportals: w[2] as i32, firstportal: w[3] as i32 }
    }

    proof fn lemma_words(r: Self) {
        lemma_i32_word(r.numareas);
        lemma_i32_word(r.numreachabilityareas);
        lemma_i32_word(r.numportals);
        lemma_i32_word(r.firstportal);
        assert(Self::from_words(r.to_words()) == r);
    }

    fn nwords_exec() -> (n: usize) {
        4
    }

    fn push_words(&self, out: &mut Vec<u32>) {
        out.push(self.numareas as u32);
        out.push(self.numreachabilityareas as u32);
        out.push(self.numportals as u32);
        out.push(self.firstportal as u32);
        proof {
            assert(out@ =~= old(out)@ + self.to_words());
        }
    }

    fn read(w: &[u32], off: usize) -> (r: Self) {
        aas_cluster_s { numareas: w[off + 0] as i32, numreachabilityareas: w[off + 1] as i32, numportals: w[off + 2] as i32, firstportal: w[off + 3] as i32 }
    }
}

} // verus!
