//! AAS file loading and writing.
//!
//! An AAS file is a header followed by fourteen lumps. The header holds the
//! identification, the version, the checksum of the BSP file it was made
//! for and, for every lump, its byte offset and length. Every value is a
//! little endian 32 bit word. In version 5 files the header bytes after the
//! identification and version are scrambled by `AAS_DData`.
use vstd::prelude::*;
use vstd::arithmetic::div_mod::lemma_fundamental_div_mod_converse;
use crate::aasfile::{
    AAS_LUMPS, Record, Vec3Bits, aas_area_s, aas_areasettings_s, aas_bbox_s, aas_cluster_s, aas_edge_s,
    aas_face_s, aas_node_s, aas_plane_s, aas_portal_s, aas_reachability_s,
};
use crate::aasworld::{aas_s, AAS_DumpAASData};

verus! {

pub const AASID: i32 = 0x45414153;
pub const AASVERSION_OLD: i32 = 4;
pub const AASVERSION: i32 = 5;

/// Size of the file header in bytes: three words and fourteen lumps of two.
pub const AAS_HEADER_SIZE: usize = 124;

//error codes of the bot library
pub const BLERR_NOERROR: i32 = 0;
pub const BLERR_CANNOTOPENAASFILE: i32 = 4;
pub const BLERR_WRONGAASFILEID: i32 = 5;
pub const BLERR_WRONGAASFILEVERSION: i32 = 6;
pub const BLERR_CANNOTREADAASLUMP: i32 = 7;

/// Why an AAS file could not be loaded.
#[derive(Clone, Copy, Debug, PartialEq, Eq, Structural)]
pub enum AasFileError {
    /// the file does not start with the AAS identification
    WrongId,
    /// the file is neither version 4 nor version 5
    WrongVersion,
    /// the file was made for another BSP file
    OutOfDate,
    /// a lump has a negative length, or a negative offset and data
    CannotReadLump,
}

/// The bot library error code of a load error.
pub fn aas_file_error_code(e: AasFileError) -> (code: i32)
    ensures
        code == match e {
            AasFileError::WrongId => BLERR_WRONGAASFILEID,
            AasFileError::WrongVersion => BLERR_WRONGAASFILEVERSION,
            AasFileError::OutOfDate => BLERR_WRONGAASFILEVERSION,
            AasFileError::CannotReadLump => BLERR_CANNOTREADAASLUMP,
        },
{
    match e {
        AasFileError::WrongId => BLERR_WRONGAASFILEID,
        AasFileError::WrongVersion => BLERR_WRONGAASFILEVERSION,
        AasFileError::OutOfDate => BLERR_WRONGAASFILEVERSION,
        AasFileError::CannotReadLump => BLERR_CANNOTREADAASLUMP,
    }
}

//==================================================================
// bytes and words
//==================================================================

/// Byte `k` of a file; bytes past the end of the file read as zero.
pub open spec fn file_byte(f: Seq<u8>, k: int) -> u8 {
    if 0 <= k < f.len() { f[k] } else { 0u8 }
}

/// The word of four little endian bytes.
pub open spec fn le_u32(b0: u8, b1: u8, b2: u8, b3: u8) -> u32 {
    (b0 as u32) | ((b1 as u32) << 8u32) | ((b2 as u32) << 16u32) | ((b3 as u32) << 24u32)
}

/// The little endian word that starts at byte `k` of a file.
pub open spec fn file_word(f: Seq<u8>, k: int) -> u32 {
    le_u32(file_byte(f, k), file_byte(f, k + 1), file_byte(f, k + 2), file_byte(f, k + 3))
}

/// Byte `b` (0 to 3) of a word stored little endian.
pub open spec fn word_byte(w: u32, b: int) -> u8 {
    if b == 0 {
        (w & 0xffu32) as u8
    } else if b == 1 {
        ((w >> 8u32) & 0xffu32) as u8
    } else if b == 2 {
        ((w >> 16u32) & 0xffu32) as u8
    } else {
        ((w >> 24u32) & 0xffu32) as u8
    }
}

/// Words stored as little endian bytes.
pub open spec fn words_bytes(ws: Seq<u32>) -> Seq<u8> {
    Seq::new(4 * ws.len(), |k: int| word_byte(ws[k / 4], k % 4))
}

pub proof fn lemma_le_word_bytes(w: u32)
    ensures
        le_u32(word_byte(w, 0), word_byte(w, 1), word_byte(w, 2), word_byte(w, 3)) == w,
{
    assert(le_u32(
        (w & 0xffu32) as u8,
        ((w >> 8u32) & 0xffu32) as u8,
        ((w >> 16u32) & 0xffu32) as u8,
        ((w >> 24u32) & 0xffu32) as u8,
    ) == w) by (bit_vector);
}

/// A word stored in the middle of a file reads back unchanged.
pub proof fn lemma_words_bytes_read(p: Seq<u8>, ws: Seq<u32>, s: Seq<u8>, j: int)
    requires
        0 <= j < ws.len(),
    ensures
        file_word(p + words_bytes(ws) + s, p.len() + 4 * j) == ws[j],
{
    let f = p + words_bytes(ws) + s;
    let k = p.len() + 4 * j;
    let wb = words_bytes(ws);
    assert forall|b: int| 0 <= b < 4 implies file_byte(f, k + b) == word_byte(ws[j], b) by {
        assert(f[k + b] == wb[4 * j + b]);
        assert((4 * j + b) / 4 == j);
        assert((4 * j + b) % 4 == b);
    }
    lemma_le_word_bytes(ws[j]);
}

/// Reads the little endian word at byte `k` of a file, zero past its end.
pub fn read_file_word(f: &[u8], k: u64) -> (w: u32)
    ensures
        w == file_word(f@, k as int),
{
    let b0: u8 = if k < f.len() as u64 { f[k as usize] } else { 0 };
    let b1: u8 = if k < u64::MAX && k + 1 < f.len() as u64 { f[(k + 1) as usize] } else { 0 };
    let b2: u8 = if k < u64::MAX - 1 && k + 2 < f.len() as u64 { f[(k + 2) as usize] } else { 0 };
    let b3: u8 = if k < u64::MAX - 2 && k + 3 < f.len() as u64 { f[(k + 3) as usize] } else { 0 };
    (b0 as u32) | ((b1 as u32) << 8u32) | ((b2 as u32) << 16u32) | ((b3 as u32) << 24u32)
}

/// Appends a word to a byte buffer as four little endian bytes.
pub fn push_word_bytes(out: &mut Vec<u8>, w: u32)
    ensures
        final(out)@ == old(out)@ + words_bytes(seq![w]),
{
    out.push((w & 0xff) as u8);
    out.push(((w >> 8) & 0xff) as u8);
    out.push(((w >> 16) & 0xff) as u8);
    out.push(((w >> 24) & 0xff) as u8);
    proof {
        let wb = words_bytes(seq![w]);
        assert(wb.len() == 4);
        assert(wb[0] == word_byte(w, 0));
        assert(wb[1] == word_byte(w, 1));
        assert(wb[2] == word_byte(w, 2));
        assert(wb[3] == word_byte(w, 3));
        assert(out@ =~= old(out)@ + wb);
    }
}

pub proof fn lemma_words_bytes_push(ws: Seq<u32>, w: u32)
    ensures
        words_bytes(ws.push(w)) == words_bytes(ws) + words_bytes(seq![w]),
{
    let a = words_bytes(ws.push(w));
    let b = words_bytes(ws) + words_bytes(seq![w]);
    assert forall|k: int| 0 <= k < a.len() implies a[k] == b[k] by {
        if k < 4 * ws.len() {
            assert(ws.push(w)[k / 4] == ws[k / 4]);
        } else {
            let kk = k - 4 * ws.len();
            assert(k / 4 == ws.len() + kk / 4);
            assert(k % 4 == kk % 4);
        }
    }
    assert(a =~= b);
}

/// Appends words to a byte buffer, each as four little endian bytes.
pub fn push_words_bytes(out: &mut Vec<u8>, ws: &Vec<u32>)
    ensures
        final(out)@ == old(out)@ + words_bytes(ws@),
{
    let mut i: usize = 0;
    while i < ws.len()
        invariant
            i <= ws.len(),
            out@ == old(out)@ + words_bytes(ws@.take(i as int)),
        decreases ws.len() - i,
    {
        proof {
            lemma_words_bytes_push(ws@.take(i as int), ws@[i as int]);
            assert(ws@.take(i as int).push(ws@[i as int]) =~= ws@.take(i + 1));
        }
        push_word_bytes(out, ws[i]);
        i += 1;
    }
    proof {
        assert(ws@.take(ws.len() as int) =~= ws@);
    }
}

//==================================================================
// lumps
//==================================================================

/// The words of a lump of structures: the words of every structure in turn.
pub open spec fn lump_words<T: Record>(rs: Seq<T>) -> Seq<u32> {
    Seq::new(rs.len() * T::nwords(), |k: int| rs[k / (T::nwords() as int)].to_words()[k % (T::nwords() as int)])
}

/// The bytes of a lump of structures.
pub open spec fn lump_bytes<T: Record>(rs: Seq<T>) -> Seq<u8> {
    words_bytes(lump_words(rs))
}

/// Number of structures in a lump of `len` bytes.
pub open spec fn lump_count<T: Record>(len: int) -> int {
    len / (4 * T::nwords() as int)
}

/// The structures of the lump at byte `ofs` of the file with `len` bytes.
pub open spec fn lump_records<T: Record>(f: Seq<u8>, ofs: int, len: int) -> Seq<T> {
    Seq::new(
        lump_count::<T>(len) as nat,
        |i: int| T::from_words(Seq::new(T::nwords(), |m: int| file_word(f, ofs + 4 * (i * T::nwords() + m)))),
    )
}

proof fn lemma_split_index(i: int, m: int, k: nat)
    requires
        k >= 1,
        0 <= i,
        0 <= m < k,
    ensures
        (i * k + m) / (k as int) == i,
        (i * k + m) % (k as int) == m,
{
    lemma_fundamental_div_mod_converse(i * k + m, k as int, i, m);
}

pub proof fn lemma_lump_words_index<T: Record>(rs: Seq<T>, i: int, m: int)
    requires
        0 <= i < rs.len(),
        0 <= m < T::nwords(),
    ensures
        0 <= i * T::nwords() + m < rs.len() * T::nwords(),
        lump_words(rs)[i * T::nwords() + m] == rs[i].to_words()[m],
{
    T::lemma_words(rs[i]);
    lemma_split_index(i, m, T::nwords());
    assert(i * T::nwords() + m < rs.len() * T::nwords()) by (nonlinear_arith)
        requires
            0 <= i < rs.len(),
            0 <= m < T::nwords(),
    ;
}

/// A lump written between any bytes reads back as the same structures.
pub proof fn lemma_lump_roundtrip<T: Record>(p: Seq<u8>, rs: Seq<T>, s: Seq<u8>)
    ensures
        lump_bytes(rs).len() == 4 * T::nwords() * rs.len(),
        lump_records::<T>(p + lump_bytes(rs) + s, p.len() as int, lump_bytes(rs).len() as int) == rs,
{
    let k = T::nwords();
    let f = p + lump_bytes(rs) + s;
    let ws = lump_words(rs);
    if rs.len() > 0 {
        T::lemma_words(rs[0]);
    }
    assert(4 * (rs.len() * k) == 4 * k * rs.len()) by (nonlinear_arith);
    lemma_nwords_positive::<T>();
    let len = 4 * k * rs.len();
    assert(lump_count::<T>(len as int) == rs.len()) by {
        assert(len as int == (rs.len() as int) * (4 * k as int) + 0) by (nonlinear_arith)
            requires len == 4 * k * rs.len();
        lemma_fundamental_div_mod_converse(len as int, 4 * k as int, rs.len() as int, 0);
    }
    let out = lump_records::<T>(f, p.len() as int, len as int);
    assert forall|i: int| 0 <= i < rs.len() implies out[i] == rs[i] by {
        let wi = Seq::new(k, |m: int| file_word(f, p.len() + 4 * (i * k + m)));
        T::lemma_words(rs[i]);
        assert forall|m: int| 0 <= m < k implies wi[m] == rs[i].to_words()[m] by {
            lemma_lump_words_index(rs, i, m);
            lemma_words_bytes_read(p, ws, s, i * k + m);
        }
        T::lemma_words(rs[i]);
        assert(wi =~= rs[i].to_words());
    }
    assert(out =~= rs);
}

pub proof fn lemma_nwords_positive<T: Record>()
    ensures
        1 <= T::nwords() <= 16,
{
    T::lemma_words(vstd::pervasive::arbitrary::<T>());
}

/// Appends the words of a lump of structures.
pub fn push_lump_words<T: Record>(out: &mut Vec<u32>, rs: &Vec<T>)
    ensures
        final(out)@ == old(out)@ + lump_words(rs@),
{
    let k = T::nwords_exec();
    proof {
        lemma_nwords_positive::<T>();
        assert(rs@.take(0).len() == 0);
        assert(lump_words(rs@.take(0)).len() == 0 * T::nwords());
        assert(lump_words(rs@.take(0)) =~= Seq::<u32>::empty());
        assert(out@ =~= old(out)@ + lump_words(rs@.take(0)));
    }
    let mut i: usize = 0;
    while i < rs.len()
        invariant
            k == T::nwords(),
            k >= 1,
            i <= rs.len(),
            out@ == old(out)@ + lump_words(rs@.take(i as int)),
        decreases rs.len() - i,
    {
        let ghost before = out@;
        rs[i].push_words(out);
        proof {
            let a = lump_words(rs@.take(i + 1));
            let b = lump_words(rs@.take(i as int)) + rs@[i as int].to_words();
            T::lemma_words(rs@[i as int]);
            assert(a.len() == b.len()) by (nonlinear_arith)
                requires
                    a.len() == (i + 1) * k,
                    b.len() == i * k + k,
            ;
            assert forall|j: int| 0 <= j < a.len() implies a[j] == b[j] by {
                if j < i * k {
                    let q = j / (k as int);
                    let m = j % (k as int);
                    assert(j == q * k + m && 0 <= m < k && 0 <= q) by {
                        vstd::arithmetic::div_mod::lemma_fundamental_div_mod(j, k as int);
                        vstd::arithmetic::div_mod::lemma_div_pos_is_pos(j, k as int);
                        vstd::arithmetic::div_mod::lemma_mod_bound(j, k as int);
                    }
                    assert(q < i) by (nonlinear_arith)
                        requires
                            j == q * k + m,
                            0 <= m,
                            j < i * k,
                            k >= 1,
                    ;
                    assert(rs@.take(i + 1)[q] == rs@.take(i as int)[q]);
                } else {
                    let m = j - i * k;
                    lemma_split_index(i as int, m, k as nat);
                }
            }
            assert(a =~= b);
            assert(rs@.take(i + 1) =~= rs@.take(i as int).push(rs@[i as int]));
        }
        i += 1;
    }
    proof {
        assert(rs@.take(rs.len() as int) =~= rs@);
    }
}

/// Reads a lump of structures from the file (`AAS_LoadAASLump`): the lump
/// at byte `offset` with `length` bytes. Bytes past the end of the file read
/// as zero. A negative length, or a negative offset with a positive length,
/// cannot be read.
pub fn AAS_LoadAASLump<T: Record>(f: &[u8], offset: i32, length: i32) -> (r: Option<Vec<T>>)
    ensures
        r is None <==> (length < 0 || (length > 0 && offset < 0)),
        r matches Some(v) ==> v@ == lump_records::<T>(f@, offset as int, length as int),
{
    if length < 0 || (length > 0 && offset < 0) {
        return None;
    }
    let k = T::nwords_exec();
    proof { lemma_nwords_positive::<T>(); }
    if length == 0 {
        let v: Vec<T> = Vec::new();
        proof {
            assert(lump_count::<T>(0) == 0);
            assert(v@ =~= lump_records::<T>(f@, offset as int, length as int));
        }
        return Some(v);
    }
    let n: usize = (length as usize) / (4 * k);
    proof {
        assert(n == lump_count::<T>(length as int));
        assert(n * k <= length) by (nonlinear_arith)
            requires
                n == (length as int) / (4 * k as int),
                k >= 1,
                length > 0,
        ;
    }
    let total = n * k;
    // the words of the lump
    let mut words: Vec<u32> = Vec::new();
    let mut j: usize = 0;
    while j < total
        invariant
            total <= length,
            0 <= offset,
            j <= total,
            words@.len() == j,
            forall|t: int| 0 <= t < j ==> words@[t] == file_word(f@, offset + 4 * t),
        decreases total - j,
    {
        let w = read_file_word(f, (offset as u64) + 4 * (j as u64));
        words.push(w);
        j += 1;
    }
    let mut out: Vec<T> = Vec::new();
    let mut i: usize = 0;
    while i < n
        invariant
            n == lump_count::<T>(length as int),
            total == n * k,
            k == T::nwords(),
            k >= 1,
            words@.len() == total,
            forall|t: int| 0 <= t < total ==> words@[t] == file_word(f@, offset + 4 * t),
            i <= n,
            out@ =~= lump_records::<T>(f@, offset as int, length as int).take(i as int),
        decreases n - i,
    {
        proof {
            assert((i + 1) * k <= n * k) by (nonlinear_arith)
                requires
                    i < n,
            ;
            assert(i * k + k == (i + 1) * k) by (nonlinear_arith);
        }
        let rec = T::read(words.as_slice(), i * k);
        proof {
            let ws = words@.subrange(i * k, i * k + k);
            let expect = Seq::new(k as nat, |m: int| file_word(f@, offset + 4 * (i * k + m)));
            assert(ws =~= expect);
        }
        out.push(rec);
        i += 1;
    }
    proof {
        assert(lump_records::<T>(f@, offset as int, length as int).take(n as int)
            =~= lump_records::<T>(f@, offset as int, length as int));
    }
    Some(out)
}


//==================================================================
// header scrambling
//==================================================================

/// The key byte `AAS_DData` combines with byte `i` of the scrambled data.
pub open spec fn dd_key(i: int) -> u8 {
    ((i % 256) * 119 % 256) as u8
}

/// The bytes `start..start + size` of `data` scrambled by `AAS_DData`.
pub open spec fn dd_spec(data: Seq<u8>, start: int, size: int) -> Seq<u8> {
    Seq::new(data.len(), |j: int| if start <= j < start + size { data[j] ^ dd_key(j - start) } else { data[j] })
}

/// Scrambles (and, applied again, unscrambles) `size` bytes of `data` from
/// byte `start` (`AAS_DData`): byte `i` of them is combined by exclusive or
/// with the low byte of `i * 119`.
pub fn AAS_DData(data: &mut Vec<u8>, start: usize, size: usize)
    requires
        start + size <= old(data).len(),
    ensures
        final(data)@ == dd_spec(old(data)@, start as int, size as int),
{
    let mut i: usize = 0;
    while i < size
        invariant
            start + size <= data.len(),
            data.len() == old(data).len(),
            i <= size,
            forall|j: int| 0 <= j < data.len() ==> data@[j] == (if start <= j < start + i {
                old(data)@[j] ^ dd_key(j - start)
            } else {
                old(data)@[j]
            }),
        decreases size - i,
    {
        let key: u8 = (((i % 256) as u32) * 119 % 256) as u8;
        let b = data[start + i];
        data.set(start + i, b ^ key);
        i += 1;
    }
    proof {
        assert(data@ =~= dd_spec(old(data)@, start as int, size as int));
    }
}

/// Scrambling twice gives the bytes back.
pub proof fn lemma_dd_involution(data: Seq<u8>, start: int, size: int)
    ensures
        dd_spec(dd_spec(data, start, size), start, size) == data,
{
    let d2 = dd_spec(dd_spec(data, start, size), start, size);
    assert forall|j: int| 0 <= j < data.len() implies d2[j] == data[j] by {
        if start <= j < start + size {
            let x = data[j];
            let k = dd_key(j - start);
            assert((x ^ k) ^ k == x) by (bit_vector);
        }
    }
    assert(d2 =~= data);
}

//==================================================================
// the header
//==================================================================

/// The version the file claims.
pub open spec fn file_version(f: Seq<u8>) -> i32 {
    file_word(f, 4) as i32
}

/// Byte `j` of the header once unscrambled (version 5 files only).
pub open spec fn header_byte(f: Seq<u8>, j: int) -> u8 {
    if file_version(f) == AASVERSION && 8 <= j < AAS_HEADER_SIZE {
        file_byte(f, j) ^ dd_key(j - 8)
    } else {
        file_byte(f, j)
    }
}

/// Word `k` of the unscrambled header.
pub open spec fn header_word(f: Seq<u8>, k: int) -> u32 {
    le_u32(header_byte(f, 4 * k), header_byte(f, 4 * k + 1), header_byte(f, 4 * k + 2), header_byte(f, 4 * k + 3))
}

/// Byte offset of lump `l`.
pub open spec fn lump_ofs(f: Seq<u8>, l: int) -> i32 {
    header_word(f, 3 + 2 * l) as i32
}

/// Byte length of lump `l`.
pub open spec fn lump_len(f: Seq<u8>, l: int) -> i32 {
    header_word(f, 4 + 2 * l) as i32
}

/// Lump `l` can be read: its length is not negative, and its offset is not
/// negative when it holds data.
pub open spec fn lump_readable(f: Seq<u8>, l: int) -> bool {
    !(lump_len(f, l) < 0 || (lump_len(f, l) > 0 && lump_ofs(f, l) < 0))
}

/// The structures of lump `l`.
pub open spec fn lump_of<T: Record>(f: Seq<u8>, l: int) -> Seq<T> {
    lump_records::<T>(f, lump_ofs(f, l) as int, lump_len(f, l) as int)
}

/// Why the file cannot be loaded for a map with BSP checksum `checksum`,
/// or `None` when it can.
pub open spec fn load_error(f: Seq<u8>, checksum: i32) -> Option<AasFileError> {
    if file_word(f, 0) as i32 != AASID {
        Some(AasFileError::WrongId)
    } else if file_version(f) != AASVERSION_OLD && file_version(f) != AASVERSION {
        Some(AasFileError::WrongVersion)
    } else if header_word(f, 2) as i32 != checksum {
        Some(AasFileError::OutOfDate)
    } else if !(forall|l: int| 0 <= l < AAS_LUMPS ==> lump_readable(f, l)) {
        Some(AasFileError::CannotReadLump)
    } else {
        None
    }
}

/// The world holds the lumps of the file.
pub open spec fn loaded_from(f: Seq<u8>, w: aas_s) -> bool {
    &&& w.bboxes@ == lump_of::<aas_bbox_s>(f, 0)
    &&& w.vertexes@ == lump_of::<Vec3Bits>(f, 1)
    &&& w.planes@ == lump_of::<aas_plane_s>(f, 2)
    &&& w.edges@ == lump_of::<aas_edge_s>(f, 3)
    &&& w.edgeindex@ == lump_of::<i32>(f, 4)
    &&& w.faces@ == lump_of::<aas_face_s>(f, 5)
    &&& w.faceindex@ == lump_of::<i32>(f, 6)
    &&& w.areas@ == lump_of::<aas_area_s>(f, 7)
    &&& w.areasettings@ == lump_of::<aas_areasettings_s>(f, 8)
    &&& w.reachability@ == lump_of::<aas_reachability_s>(f, 9)
    &&& w.nodes@ == lump_of::<aas_node_s>(f, 10)
    &&& w.portals@ == lump_of::<aas_portal_s>(f, 11)
    &&& w.portalindex@ == lump_of::<i32>(f, 12)
    &&& w.clusters@ == lump_of::<aas_cluster_s>(f, 13)
}

/// Reads the header of a file, unscrambled when the file is version 5.
fn read_header(f: &[u8]) -> (h: Vec<u8>)
    ensures
        h@.len() == AAS_HEADER_SIZE,
        forall|t: int| 0 <= t < AAS_HEADER_SIZE ==> h@[t] == header_byte(f@, t),
{
    let mut h: Vec<u8> = Vec::new();
    let mut j: usize = 0;
    while j < AAS_HEADER_SIZE
        invariant
            j <= AAS_HEADER_SIZE,
            h@.len() == j,
            forall|t: int| 0 <= t < j ==> h@[t] == file_byte(f@, t),
        decreases AAS_HEADER_SIZE - j,
    {
        let b: u8 = if j < f.len() { f[j] } else { 0 };
        h.push(b);
        j += 1;
    }
    let version = read_file_word(f, 4) as i32;
    if version == AASVERSION {
        AAS_DData(&mut h, 8, AAS_HEADER_SIZE - 8);
    }
    h
}

/// Word `k` of the unscrambled header.
fn header_field(h: &Vec<u8>, k: usize, Ghost(f): Ghost<Seq<u8>>) -> (w: u32)
    requires
        k < 31,
        h@.len() == AAS_HEADER_SIZE,
        forall|t: int| 0 <= t < AAS_HEADER_SIZE ==> h@[t] == header_byte(f, t),
    ensures
        w == header_word(f, k as int),
{
    (h[4 * k] as u32) | ((h[4 * k + 1] as u32) << 8u32) | ((h[4 * k + 2] as u32) << 16u32) | ((h[4 * k + 3] as u32) << 24u32)
}

/// Reads lump `l` of the file whose unscrambled header is `h`.
fn load_lump<T: Record>(f: &[u8], h: &Vec<u8>, l: usize) -> (r: Option<Vec<T>>)
    requires
        l < AAS_LUMPS,
        h@.len() == AAS_HEADER_SIZE,
        forall|t: int| 0 <= t < AAS_HEADER_SIZE ==> h@[t] == header_byte(f@, t),
    ensures
        r is None <==> !lump_readable(f@, l as int),
        r matches Some(v) ==> v@ == lump_of::<T>(f@, l as int),
{
    let ofs = header_field(h, 3 + 2 * l, Ghost(f@)) as i32;
    let len = header_field(h, 4 + 2 * l, Ghost(f@)) as i32;
    AAS_LoadAASLump::<T>(f, ofs, len)
}

/// Loads an AAS file (`AAS_LoadAASFile`) for a map whose BSP file has
/// checksum `checksum`. The loaded data is dumped first. The lumps are read
/// as they are stored; on success the world is loaded, not initialized, and
/// holds the file's checksum. On failure the world is left dumped.
pub fn AAS_LoadAASFile(w: &mut aas_s, f: &[u8], checksum: i32) -> (r: Result<(), AasFileError>)
    ensures
        final(w).numframes == old(w).numframes,
        match r {
            Ok(()) => {
                &&& load_error(f@, checksum) is None
                &&& loaded_from(f@, *final(w))
                &&& final(w).loaded
                &&& !final(w).initialized
                &&& !final(w).savefile
                &&& final(w).bspchecksum == checksum
            },
            Err(e) => {
                &&& load_error(f@, checksum) == Some(e)
                &&& final(w).is_dumped()
            },
        },
{
    AAS_DumpAASData(w);
    //check header identification
    let ident = read_file_word(f, 0) as i32;
    if ident != AASID {
        return Err(AasFileError::WrongId);
    }
    //check the version
    let version = read_file_word(f, 4) as i32;
    if version != AASVERSION_OLD && version != AASVERSION {
        return Err(AasFileError::WrongVersion);
    }
    let h = read_header(f);
    let filechecksum = header_field(&h, 2, Ghost(f@)) as i32;
    w.bspchecksum = checksum;
    if filechecksum != checksum {
        return Err(AasFileError::OutOfDate);
    }
    //load the lumps
    let v0 = match load_lump::<aas_bbox_s>(f, &h, 0) { Some(v) => v, None => { return Err(AasFileError::CannotReadLump); } };
    let v1 = match load_lump::<Vec3Bits>(f, &h, 1) { Some(v) => v, None => { return Err(AasFileError::CannotReadLump); } };
    let v2 = match load_lump::<aas_plane_s>(f, &h, 2) { Some(v) => v, None => { return Err(AasFileError::CannotReadLump); } };
    let v3 = match load_lump::<aas_edge_s>(f, &h, 3) { Some(v) => v, None => { return Err(AasFileError::CannotReadLump); } };
    let v4 = match load_lump::<i32>(f, &h, 4) { Some(v) => v, None => { return Err(AasFileError::CannotReadLump); } };
    let v5 = match load_lump::<aas_face_s>(f, &h, 5) { Some(v) => v, None => { return Err(AasFileError::CannotReadLump); } };
    let v6 = match load_lump::<i32>(f, &h, 6) { Some(v) => v, None => { return Err(AasFileError::CannotReadLump); } };
    let v7 = match load_lump::<aas_area_s>(f, &h, 7) { Some(v) => v, None => { return Err(AasFileError::CannotReadLump); } };
    let v8 = match load_lump::<aas_areasettings_s>(f, &h, 8) { Some(v) => v, None => { return Err(AasFileError::CannotReadLump); } };
    let v9 = match load_lump::<aas_reachability_s>(f, &h, 9) { Some(v) => v, None => { return Err(AasFileError::CannotReadLump); } };
    let v10 = match load_lump::<aas_node_s>(f, &h, 10) { Some(v) => v, None => { return Err(AasFileError::CannotReadLump); } };
    let v11 = match load_lump::<aas_portal_s>(f, &h, 11) { Some(v) => v, None => { return Err(AasFileError::CannotReadLump); } };
    let v12 = match load_lump::<i32>(f, &h, 12) { Some(v) => v, None => { return Err(AasFileError::CannotReadLump); } };
    let v13 = match load_lump::<aas_cluster_s>(f, &h, 13) { Some(v) => v, None => { return Err(AasFileError::CannotReadLump); } };
    proof {
        assert forall|l: int| 0 <= l < AAS_LUMPS implies lump_readable(f@, l) by {
            if l == 0 {} else if l == 1 {} else if l == 2 {} else if l == 3 {}
            else if l == 4 {} else if l == 5 {} else if l == 6 {} else if l == 7 {}
            else if l == 8 {} else if l == 9 {} else if l == 10 {} else if l == 11 {}
            else if l == 12 {} else {}
        }
    }
    w.bboxes = v0;
    w.vertexes = v1;
    w.planes = v2;
    w.edges = v3;
    w.edgeindex = v4;
    w.faces = v5;
    w.faceindex = v6;
    w.areas = v7;
    w.areasettings = v8;
    w.reachability = v9;
    w.nodes = v10;
    w.portals = v11;
    w.portalindex = v12;
    w.clusters = v13;
    //aas file is loaded
    w.loaded = true;
    Ok(())
}


//==================================================================
// writing
//==================================================================

/// The bytes of lump `l` of the world.
pub open spec fn lump_part(w: aas_s, l: int) -> Seq<u8> {
    if l == 0 {
        lump_bytes(w.bboxes@)
    } else if l == 1 {
        lump_bytes(w.vertexes@)
    } else if l == 2 {
        lump_bytes(w.planes@)
    } else if l == 3 {
        lump_bytes(w.edges@)
    } else if l == 4 {
        lump_bytes(w.edgeindex@)
    } else if l == 5 {
        lump_bytes(w.faces@)
    } else if l == 6 {
        lump_bytes(w.faceindex@)
    } else if l == 7 {
        lump_bytes(w.areas@)
    } else if l == 8 {
        lump_bytes(w.areasettings@)
    } else if l == 9 {
        lump_bytes(w.reachability@)
    } else if l == 10 {
        lump_bytes(w.nodes@)
    } else if l == 11 {
        lump_bytes(w.portals@)
    } else if l == 12 {
        lump_bytes(w.portalindex@)
    } else {
        lump_bytes(w.clusters@)
    }
}

/// The bytes of the lumps before lump `l`.
pub open spec fn lump_prefix(w: aas_s, l: int) -> Seq<u8>
    decreases l,
{
    if l <= 0 {
        Seq::empty()
    } else {
        lump_prefix(w, l - 1) + lump_part(w, l - 1)
    }
}

/// The bytes of lump `l` and of the lumps after it.
pub open spec fn lump_suffix(w: aas_s, l: int) -> Seq<u8>
    decreases AAS_LUMPS - l,
{
    if l >= AAS_LUMPS {
        Seq::empty()
    } else {
        lump_part(w, l) + lump_suffix(w, l + 1)
    }
}

/// The words of the file header of the world: identification, version,
/// checksum, then the offset and length of every lump in turn, the lumps
/// following the header in order.
pub open spec fn header_words(w: aas_s) -> Seq<u32> {
    Seq::new(31, |k: int|
        if k == 0 {
            AASID as u32
        } else if k == 1 {
            AASVERSION as u32
        } else if k == 2 {
            w.bspchecksum as u32
        } else if (k - 3) % 2 == 0 {
            (AAS_HEADER_SIZE + lump_prefix(w, (k - 3) / 2).len()) as u32
        } else {
            lump_part(w, (k - 3) / 2).len() as u32
        })
}

/// The bytes `AAS_WriteAASFile` writes for the world: the scrambled header
/// and the fourteen lumps.
pub open spec fn aas_file_bytes(w: aas_s) -> Seq<u8> {
    dd_spec(words_bytes(header_words(w)), 8, AAS_HEADER_SIZE - 8) + lump_prefix(w, AAS_LUMPS as int)
}

/// The world fits an AAS file: every offset and length fits a signed word.
pub open spec fn aas_file_fits(w: aas_s) -> bool {
    AAS_HEADER_SIZE + lump_prefix(w, AAS_LUMPS as int).len() <= 0x7fffffff
}

pub proof fn lemma_prefix_suffix(w: aas_s, l: int)
    requires
        0 <= l <= AAS_LUMPS,
    ensures
        lump_prefix(w, l) + lump_suffix(w, l) == lump_prefix(w, AAS_LUMPS as int),
        lump_prefix(w, l).len() <= lump_prefix(w, AAS_LUMPS as int).len(),
    decreases AAS_LUMPS - l,
{
    if l == AAS_LUMPS {
        assert(lump_prefix(w, l) + lump_suffix(w, l) =~= lump_prefix(w, l));
    } else {
        lemma_prefix_suffix(w, l + 1);
        assert(lump_prefix(w, l) + lump_suffix(w, l) =~= lump_prefix(w, l + 1) + lump_suffix(w, l + 1));
    }
}

fn push_lump_bytes<T: Record>(body: &mut Vec<u8>, rs: &Vec<T>)
    ensures
        final(body)@ == old(body)@ + lump_bytes(rs@),
{
    let mut words: Vec<u32> = Vec::new();
    push_lump_words(&mut words, rs);
    proof { assert(words@ =~= lump_words(rs@)); }
    push_words_bytes(body, &words);
}

/// The lumps of the world in file order, and where each ends in them.
fn lump_body(w: &aas_s) -> (r: (Vec<u8>, Vec<u64>))
    ensures
        r.0@ == lump_prefix(*w, AAS_LUMPS as int),
        r.1@.len() == AAS_LUMPS,
        forall|k: int| 0 <= k < AAS_LUMPS ==> #[trigger] r.1@[k] == lump_prefix(*w, k + 1).len(),
{
    let mut body: Vec<u8> = Vec::new();
    let mut ends: Vec<u64> = Vec::new();
    proof { assert(lump_prefix(*w, 0) =~= Seq::<u8>::empty()); }
    push_lump_bytes(&mut body, &w.bboxes);
    proof { assert(body@ =~= lump_prefix(*w, 1)); lemma_prefix_suffix(*w, 1); }
    ends.push(body.len() as u64);
    push_lump_bytes(&mut body, &w.vertexes);
    proof { assert(body@ =~= lump_prefix(*w, 2)); lemma_prefix_suffix(*w, 2); }
    ends.push(body.len() as u64);
    push_lump_bytes(&mut body, &w.planes);
    proof { assert(body@ =~= lump_prefix(*w, 3)); lemma_prefix_suffix(*w, 3); }
    ends.push(body.len() as u64);
    push_lump_bytes(&mut body, &w.edges);
    proof { assert(body@ =~= lump_prefix(*w, 4)); lemma_prefix_suffix(*w, 4); }
    ends.push(body.len() as u64);
    push_lump_bytes(&mut body, &w.edgeindex);
    proof { assert(body@ =~= lump_prefix(*w, 5)); lemma_prefix_suffix(*w, 5); }
    ends.push(body.len() as u64);
    push_lump_bytes(&mut body, &w.faces);
    proof { assert(body@ =~= lump_prefix(*w, 6)); lemma_prefix_suffix(*w, 6); }
    ends.push(body.len() as u64);
    push_lump_bytes(&mut body, &w.faceindex);
    proof { assert(body@ =~= lump_prefix(*w, 7)); lemma_prefix_suffix(*w, 7); }
    ends.push(body.len() as u64);
    push_lump_bytes(&mut body, &w.areas);
    proof { assert(body@ =~= lump_prefix(*w, 8)); lemma_prefix_suffix(*w, 8); }
    ends.push(body.len() as u64);
    push_lump_bytes(&mut body, &w.areasettings);
    proof { assert(body@ =~= lump_prefix(*w, 9)); lemma_prefix_suffix(*w, 9); }
    ends.push(body.len() as u64);
    push_lump_bytes(&mut body, &w.reachability);
    proof { assert(body@ =~= lump_prefix(*w, 10)); lemma_prefix_suffix(*w, 10); }
    ends.push(body.len() as u64);
    push_lump_bytes(&mut body, &w.nodes);
    proof { assert(body@ =~= lump_prefix(*w, 11)); lemma_prefix_suffix(*w, 11); }
    ends.push(body.len() as u64);
    push_lump_bytes(&mut body, &w.portals);
    proof { assert(body@ =~= lump_prefix(*w, 12)); lemma_prefix_suffix(*w, 12); }
    ends.push(body.len() as u64);
    push_lump_bytes(&mut body, &w.portalindex);
    proof { assert(body@ =~= lump_prefix(*w, 13)); lemma_prefix_suffix(*w, 13); }
    ends.push(body.len() as u64);
    push_lump_bytes(&mut body, &w.clusters);
    proof { assert(body@ =~= lump_prefix(*w, 14)); lemma_prefix_suffix(*w, 14); }
    ends.push(body.len() as u64);
    proof {
        assert(lump_prefix(*w, 14) == lump_prefix(*w, AAS_LUMPS as int));
    }
    (body, ends)
}

/// Tells whether the world fits an AAS file.
pub fn AAS_FileFits(w: &aas_s) -> (r: bool)
    ensures
        r == aas_file_fits(*w),
{
    let (_body, ends) = lump_body(w);
    ends[13] <= 0x7fffffff - 124
}

/// Writes the world as an AAS file (`AAS_WriteAASFile`): the header with
/// identification, version 5, the world's checksum and the offset and
/// length of every lump, scrambled by `AAS_DData`, followed by the lumps in
/// order.
pub fn AAS_WriteAASFile(w: &aas_s) -> (out: Vec<u8>)
    requires
        aas_file_fits(*w),
    ensures
        out@ == aas_file_bytes(*w),
{
    let (mut body, ends) = lump_body(w);
    let e0 = ends[0];
    let e1 = ends[1];
    let e2 = ends[2];
    let e3 = ends[3];
    let e4 = ends[4];
    let e5 = ends[5];
    let e6 = ends[6];
    let e7 = ends[7];
    let e8 = ends[8];
    let e9 = ends[9];
    let e10 = ends[10];
    let e11 = ends[11];
    let e12 = ends[12];
    let e13 = ends[13];
    proof {
        lemma_prefix_suffix(*w, 0);
        lemma_prefix_suffix(*w, 1);
        lemma_prefix_suffix(*w, 2);
        lemma_prefix_suffix(*w, 3);
        lemma_prefix_suffix(*w, 4);
        lemma_prefix_suffix(*w, 5);
        lemma_prefix_suffix(*w, 6);
        lemma_prefix_suffix(*w, 7);
        lemma_prefix_suffix(*w, 8);
        lemma_prefix_suffix(*w, 9);
        lemma_prefix_suffix(*w, 10);
        lemma_prefix_suffix(*w, 11);
        lemma_prefix_suffix(*w, 12);
        lemma_prefix_suffix(*w, 13);
    }
    let mut hw: Vec<u32> = Vec::new();
    hw.push(AASID as u32);
    hw.push(AASVERSION as u32);
    hw.push(w.bspchecksum as u32);
    hw.push((124 + 0) as u32);
    hw.push((e0) as u32);
    hw.push((124 + e0) as u32);
    hw.push((e1 - e0) as u32);
    hw.push((124 + e1) as u32);
    hw.push((e2 - e1) as u32);
    hw.push((124 + e2) as u32);
    hw.push((e3 - e2) as u32);
    hw.push((124 + e3) as u32);
    hw.push((e4 - e3) as u32);
    hw.push((124 + e4) as u32);
    hw.push((e5 - e4) as u32);
    hw.push((124 + e5) as u32);
    hw.push((e6 - e5) as u32);
    hw.push((124 + e6) as u32);
    hw.push((e7 - e6) as u32);
    hw.push((124 + e7) as u32);
    hw.push((e8 - e7) as u32);
    hw.push((124 + e8) as u32);
    hw.push((e9 - e8) as u32);
    hw.push((124 + e9) as u32);
    hw.push((e10 - e9) as u32);
    hw.push((124 + e10) as u32);
    hw.push((e11 - e10) as u32);
    hw.push((124 + e11) as u32);
    hw.push((e12 - e11) as u32);
    hw.push((124 + e12) as u32);
    hw.push((e13 - e12) as u32);
    proof {
        assert(hw@ =~= header_words(*w));
    }
    let mut out: Vec<u8> = Vec::new();
    push_words_bytes(&mut out, &hw);
    AAS_DData(&mut out, 8, AAS_HEADER_SIZE - 8);
    out.append(&mut body);
    proof {
        assert(out@ =~= aas_file_bytes(*w));
    }
    out
}

/// The header of a written file reads back as the header words.
proof fn lemma_written_header(w: aas_s)
    ensures
        file_word(aas_file_bytes(w), 0) as i32 == AASID,
        file_version(aas_file_bytes(w)) == AASVERSION,
        forall|k: int| 0 <= k < 31 ==> #[trigger] header_word(aas_file_bytes(w), k) == header_words(w)[k],
{
    let f = aas_file_bytes(w);
    let hw = header_words(w);
    let body = lump_prefix(w, AAS_LUMPS as int);
    let g = words_bytes(hw) + body;
    assert(words_bytes(hw).len() == AAS_HEADER_SIZE);
    assert forall|j: int| 0 <= j < AAS_HEADER_SIZE implies #[trigger] file_byte(g, j) == (
        if 8 <= j { file_byte(f, j) ^ dd_key(j - 8) } else { file_byte(f, j) }) by {
        if 8 <= j {
            let x = g[j];
            let kk = dd_key(j - 8);
            assert(f[j] == x ^ kk);
            assert((x ^ kk) ^ kk == x) by (bit_vector);
        }
    }
    assert(Seq::<u8>::empty() + words_bytes(hw) + body =~= g);
    lemma_words_bytes_read(Seq::empty(), hw, body, 0);
    lemma_words_bytes_read(Seq::empty(), hw, body, 1);
    assert(file_word(f, 0) == hw[0]);
    assert(file_word(f, 4) == hw[1]);
    crate::aasfile::lemma_i32_word(AASID);
    crate::aasfile::lemma_i32_word(AASVERSION);
    assert forall|k: int| 0 <= k < 31 implies #[trigger] header_word(f, k) == hw[k] by {
        lemma_words_bytes_read(Seq::empty(), hw, body, k);
    }
}

/// The header of a written file gives every lump's offset and length.
proof fn lemma_written_lumps(w: aas_s, l: int)
    requires
        aas_file_fits(w),
        0 <= l < AAS_LUMPS,
    ensures
        lump_ofs(aas_file_bytes(w), l) == AAS_HEADER_SIZE + lump_prefix(w, l).len(),
        lump_len(aas_file_bytes(w), l) == lump_part(w, l).len(),
        lump_readable(aas_file_bytes(w), l),
{
    let f = aas_file_bytes(w);
    let hw = header_words(w);
    lemma_written_header(w);
    lemma_prefix_suffix(w, l);
    lemma_prefix_suffix(w, l + 1);
    assert(header_word(f, 3 + 2 * l) == hw[3 + 2 * l]);
    assert(header_word(f, 4 + 2 * l) == hw[4 + 2 * l]);
    assert((3 + 2 * l - 3) / 2 == l);
    assert((4 + 2 * l - 3) / 2 == l);
}

proof fn lemma_lump_in_written<T: Record>(w: aas_s, l: int, rs: Seq<T>)
    requires
        aas_file_fits(w),
        0 <= l < AAS_LUMPS,
        lump_part(w, l) == lump_bytes(rs),
    ensures
        lump_of::<T>(aas_file_bytes(w), l) == rs,
{
    let f = aas_file_bytes(w);
    let hb = dd_spec(words_bytes(header_words(w)), 8, AAS_HEADER_SIZE - 8);
    lemma_written_lumps(w, l);
    lemma_prefix_suffix(w, l);
    assert(lump_suffix(w, l) == lump_part(w, l) + lump_suffix(w, l + 1));
    lemma_lump_roundtrip::<T>(hb + lump_prefix(w, l), rs, lump_suffix(w, l + 1));
    assert(f =~= hb + lump_prefix(w, l) + lump_bytes(rs) + lump_suffix(w, l + 1));
}

/// Reading back what was written gives the world's data: an AAS file
/// written for a world loads, for the world's checksum, without error and
/// holds exactly the world's lumps.
pub proof fn lemma_write_then_load(w: aas_s)
    requires
        aas_file_fits(w),
    ensures
        load_error(aas_file_bytes(w), w.bspchecksum) is None,
        loaded_from(aas_file_bytes(w), w),
{
    let f = aas_file_bytes(w);
    lemma_written_header(w);
    crate::aasfile::lemma_i32_word(w.bspchecksum);
    assert(header_word(f, 2) as i32 == w.bspchecksum);
    assert forall|l: int| 0 <= l < AAS_LUMPS implies lump_readable(f, l) by {
        lemma_written_lumps(w, l);
    }
    lemma_lump_in_written::<aas_bbox_s>(w, 0, w.bboxes@);
    lemma_lump_in_written::<Vec3Bits>(w, 1, w.vertexes@);
    lemma_lump_in_written::<aas_plane_s>(w, 2, w.planes@);
    lemma_lump_in_written::<aas_edge_s>(w, 3, w.edges@);
    lemma_lump_in_written::<i32>(w, 4, w.edgeindex@);
    lemma_lump_in_written::<aas_face_s>(w, 5, w.faces@);
    lemma_lump_in_written::<i32>(w, 6, w.faceindex@);
    lemma_lump_in_written::<aas_area_s>(w, 7, w.areas@);
    lemma_lump_in_written::<aas_areasettings_s>(w, 8, w.areasettings@);
    lemma_lump_in_written::<aas_reachability_s>(w, 9, w.reachability@);
    lemma_lump_in_written::<aas_node_s>(w, 10, w.nodes@);
    lemma_lump_in_written::<aas_portal_s>(w, 11, w.portals@);
    lemma_lump_in_written::<i32>(w, 12, w.portalindex@);
    lemma_lump_in_written::<aas_cluster_s>(w, 13, w.clusters@);
}


//==================================================================
// record layout
//==================================================================

/// Word `m` of record `i` of lump `l`, whose records are `n` words long.
pub open spec fn record_word(f: Seq<u8>, l: int, n: int, i: int, m: int) -> u32 {
    file_word(f, lump_ofs(f, l) as int + 4 * (i * n + m))
}

/// The vector held in words `m` to `m + 2` of record `i` of lump `l`.
pub open spec fn record_vec(f: Seq<u8>, l: int, n: int, i: int, m: int) -> Vec3Bits {
    Vec3Bits { x: record_word(f, l, n, i, m), y: record_word(f, l, n, i, m + 1), z: record_word(f, l, n, i, m + 2) }
}

/// Bounding box `i` is stored as presence type, flags, mins and maxs.
pub open spec fn bbox_record(f: Seq<u8>, i: int, r: aas_bbox_s) -> bool {
    &&& r.presencetype == record_word(f, 0, 8, i, 0) as i32
    &&& r.flags == record_word(f, 0, 8, i, 1) as i32
    &&& r.mins == record_vec(f, 0, 8, i, 2)
    &&& r.maxs == record_vec(f, 0, 8, i, 5)
}

/// Plane `i` is stored as normal, distance and type.
pub open spec fn plane_record(f: Seq<u8>, i: int, r: aas_plane_s) -> bool {
    &&& r.normal == record_vec(f, 2, 5, i, 0)
    &&& r.dist == record_word(f, 2, 5, i, 3)
    &&& r.type_ == record_word(f, 2, 5, i, 4) as i32
}

/// Edge `i` is stored as its two vertex numbers.
pub open spec fn edge_record(f: Seq<u8>, i: int, r: aas_edge_s) -> bool {
    &&& r.v0 == record_word(f, 3, 2, i, 0) as i32
    &&& r.v1 == record_word(f, 3, 2, i, 1) as i32
}

/// Face `i` is stored as plane, flags, edge count, first edge, front and back area.
pub open spec fn face_record(f: Seq<u8>, i: int, r: aas_face_s) -> bool {
    &&& r.planenum == record_word(f, 5, 6, i, 0) as i32
    &&& r.faceflags == record_word(f, 5, 6, i, 1) as i32
    &&& r.numedges == record_word(f, 5, 6, i, 2) as i32
    &&& r.firstedge == record_word(f, 5, 6, i, 3) as i32
    &&& r.frontarea == record_word(f, 5, 6, i, 4) as i32
    &&& r.backarea == record_word(f, 5, 6, i, 5) as i32
}

/// Area `i` is stored as number, face count, first face, mins, maxs and center.
pub open spec fn area_record(f: Seq<u8>, i: int, r: aas_area_s) -> bool {
    &&& r.areanum == record_word(f, 7, 12, i, 0) as i32
    &&& r.numfaces == record_word(f, 7, 12, i, 1) as i32
    &&& r.firstface == record_word(f, 7, 12, i, 2) as i32
    &&& r.mins == record_vec(f, 7, 12, i, 3)
    &&& r.maxs == record_vec(f, 7, 12, i, 6)
    &&& r.center == record_vec(f, 7, 12, i, 9)
}

/// Area settings `i` are stored as contents, area flags, presence type,
/// cluster, number in the cluster, reachability count and first reachability.
pub open spec fn areasettings_record(f: Seq<u8>, i: int, r: aas_areasettings_s) -> bool {
    &&& r.contents == record_word(f, 8, 7, i, 0) as i32
    &&& r.areaflags == record_word(f, 8, 7, i, 1) as i32
    &&& r.presencetype == record_word(f, 8, 7, i, 2) as i32
    &&& r.cluster == record_word(f, 8, 7, i, 3) as i32
    &&& r.clusterareanum == record_word(f, 8, 7, i, 4) as i32
    &&& r.numreachableareas == record_word(f, 8, 7, i, 5) as i32
    &&& r.firstreachablearea == record_word(f, 8, 7, i, 6) as i32
}

/// Reachability `i` is stored as area, face, edge, start, end, travel type
/// and, in the low half of the last word, travel time.
pub open spec fn reachability_record(f: Seq<u8>, i: int, r: aas_reachability_s) -> bool {
    &&& r.areanum == record_word(f, 9, 11, i, 0) as i32
    &&& r.facenum == record_word(f, 9, 11, i, 1) as i32
    &&& r.edgenum == record_word(f, 9, 11, i, 2) as i32
    &&& r.start == record_vec(f, 9, 11, i, 3)
    &&& r.end == record_vec(f, 9, 11, i, 6)
    &&& r.traveltype == record_word(f, 9, 11, i, 9) as i32
    &&& r.traveltime == (record_word(f, 9, 11, i, 10) & 0xffffu32) as u16
}

/// Node `i` is stored as plane and its two children.
pub open spec fn node_record(f: Seq<u8>, i: int, r: aas_node_s) -> bool {
    &&& r.planenum == record_word(f, 10, 3, i, 0) as i32
    &&& r.child0 == record_word(f, 10, 3, i, 1) as i32
    &&& r.child1 == record_word(f, 10, 3, i, 2) as i32
}

/// Portal `i` is stored as area, front cluster, back cluster and its numbers
/// in the front and back cluster.
pub open spec fn portal_record(f: Seq<u8>, i: int, r: aas_portal_s) -> bool {
    &&& r.areanum == record_word(f, 11, 5, i, 0) as i32
    &&& r.frontcluster == record_word(f, 11, 5, i, 1) as i32
    &&& r.backcluster == record_word(f, 11, 5, i, 2) as i32
    &&& r.clusterareanum0 == record_word(f, 11, 5, i, 3) as i32
    &&& r.clusterareanum1 == record_word(f, 11, 5, i, 4) as i32
}

/// Cluster `i` is stored as area count, reachability area count, portal
/// count and first portal.
pub open spec fn cluster_record(f: Seq<u8>, i: int, r: aas_cluster_s) -> bool {
    &&& r.numareas == record_word(f, 13, 4, i, 0) as i32
    &&& r.numreachabilityareas == record_word(f, 13, 4, i, 1) as i32
    &&& r.numportals == record_word(f, 13, 4, i, 2) as i32
    &&& r.firstportal == record_word(f, 13, 4, i, 3) as i32
}

/// Every structure of the world is the record at its place in the file, in
/// the field order of the file format.
pub open spec fn file_layout(f: Seq<u8>, w: aas_s) -> bool {
    &&& forall|i: int| 0 <= i < w.bboxes@.len() ==> bbox_record(f, i, #[trigger] w.bboxes@[i])
    &&& forall|i: int| 0 <= i < w.vertexes@.len() ==> #[trigger] w.vertexes@[i] == record_vec(f, 1, 3, i, 0)
    &&& forall|i: int| 0 <= i < w.planes@.len() ==> plane_record(f, i, #[trigger] w.planes@[i])
    &&& forall|i: int| 0 <= i < w.edges@.len() ==> edge_record(f, i, #[trigger] w.edges@[i])
    &&& forall|i: int| 0 <= i < w.edgeindex@.len() ==> #[trigger] w.edgeindex@[i] == record_word(f, 4, 1, i, 0) as i32
    &&& forall|i: int| 0 <= i < w.faces@.len() ==> face_record(f, i, #[trigger] w.faces@[i])
    &&& forall|i: int| 0 <= i < w.faceindex@.len() ==> #[trigger] w.faceindex@[i] == record_word(f, 6, 1, i, 0) as i32
    &&& forall|i: int| 0 <= i < w.areas@.len() ==> area_record(f, i, #[trigger] w.areas@[i])
    &&& forall|i: int| 0 <= i < w.areasettings@.len() ==> areasettings_record(f, i, #[trigger] w.areasettings@[i])
    &&& forall|i: int| 0 <= i < w.reachability@.len() ==> reachability_record(f, i, #[trigger] w.reachability@[i])
    &&& forall|i: int| 0 <= i < w.nodes@.len() ==> node_record(f, i, #[trigger] w.nodes@[i])
    &&& forall|i: int| 0 <= i < w.portals@.len() ==> portal_record(f, i, #[trigger] w.portals@[i])
    &&& forall|i: int| 0 <= i < w.portalindex@.len() ==> #[trigger] w.portalindex@[i] == record_word(f, 12, 1, i, 0) as i32
    &&& forall|i: int| 0 <= i < w.clusters@.len() ==> cluster_record(f, i, #[trigger] w.clusters@[i])
}

/// Loading reads every structure field by field from its record: in the
/// area settings lump, for instance, the first word of each 28 byte record
/// is the contents and the second the area flags.
pub proof fn lemma_loaded_layout(f: Seq<u8>, w: aas_s)
    requires
        loaded_from(f, w),
    ensures
        file_layout(f, w),
{
}

/// Writing stores every structure field by field in its record, so that a
/// reader of the file format finds each field at its place.
pub proof fn lemma_written_layout(w: aas_s)
    requires
        aas_file_fits(w),
    ensures
        file_layout(aas_file_bytes(w), w),
{
    lemma_write_then_load(w);
    lemma_loaded_layout(aas_file_bytes(w), w);
}

} // verus!
