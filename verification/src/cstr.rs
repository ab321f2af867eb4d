//! NUL-terminated byte strings, as the bot library keeps its names.
//!
//! A buffer is a sequence of bytes; the string it holds is every byte before
//! the first zero byte (or the whole buffer when it holds no zero byte).
use vstd::prelude::*;

verus! {

/// Index of the first zero byte of `s`, or `s.len()` when there is none.
pub open spec fn nul_index(s: Seq<u8>) -> nat
    decreases s.len(),
{
    if s.len() == 0 {
        0
    } else if s[0] == 0u8 {
        0
    } else {
        1 + nul_index(s.drop_first())
    }
}

/// The string held by a buffer: the bytes before the first zero byte.
pub open spec fn cstr_view(s: Seq<u8>) -> Seq<u8> {
    s.take(nul_index(s) as int)
}

/// The buffer holds a terminating zero byte.
pub open spec fn has_nul(s: Seq<u8>) -> bool {
    nul_index(s) < s.len()
}

pub proof fn lemma_nul_index(s: Seq<u8>)
    ensures
        nul_index(s) <= s.len(),
        forall|k: int| 0 <= k < nul_index(s) ==> s[k] != 0u8,
        nul_index(s) < s.len() ==> s[nul_index(s) as int] == 0u8,
    decreases s.len(),
{
    if s.len() > 0 && s[0] != 0u8 {
        lemma_nul_index(s.drop_first());
        assert forall|k: int| 0 <= k < nul_index(s) implies s[k] != 0u8 by {
            if k > 0 {
                assert(s[k] == s.drop_first()[k - 1]);
            }
        }
    }
}

/// Any index that holds zero with no zero before it is the first zero.
pub proof fn lemma_nul_index_unique(s: Seq<u8>, n: int)
    requires
        0 <= n <= s.len(),
        forall|k: int| 0 <= k < n ==> s[k] != 0u8,
        n < s.len() ==> s[n] == 0u8,
    ensures
        nul_index(s) == n,
    decreases s.len(),
{
    if s.len() > 0 && n > 0 {
        assert forall|k: int| 0 <= k < n - 1 implies s.drop_first()[k] != 0u8 by {
            assert(s.drop_first()[k] == s[k + 1]);
        }
        if n - 1 < s.drop_first().len() {
            assert(s.drop_first()[n - 1] == s[n]);
        }
        lemma_nul_index_unique(s.drop_first(), n - 1);
    }
}

/// Length of the string held in `s` (C `strlen`).
pub fn c_strlen(s: &[u8]) -> (n: usize)
    ensures
        n == nul_index(s@),
{
    proof { lemma_nul_index(s@); }
    let mut i: usize = 0;
    while i < s.len() && s[i] != 0
        invariant
            i <= s.len(),
            forall|k: int| 0 <= k < i ==> s@[k] != 0u8,
        decreases s.len() - i,
    {
        i += 1;
    }
    proof { lemma_nul_index_unique(s@, i as int); }
    i
}

/// Byte of a buffer, reading zero past its end.
pub open spec fn byte_or_nul(s: Seq<u8>, k: int) -> u8 {
    if 0 <= k < s.len() { s[k] } else { 0u8 }
}

/// Sign of a string comparison result, as C strcmp compares strings.
pub open spec fn str_compare_spec(a: Seq<u8>, b: Seq<u8>) -> int
    decreases a.len(),
{
    if a.len() == 0 || b.len() == 0 {
        byte_or_nul(a, 0) - byte_or_nul(b, 0)
    } else if a[0] != b[0] {
        a[0] - b[0]
    } else {
        str_compare_spec(a.drop_first(), b.drop_first())
    }
}

/// Compares the strings held in two buffers byte by byte (C strcmp): zero
/// when they are equal, else the difference of the first differing bytes.
pub fn c_str_compare(a: &[u8], b: &[u8]) -> (r: i32)
    ensures
        r == str_compare_spec(cstr_view(a@), cstr_view(b@)),
        (r == 0) <==> cstr_view(a@) == cstr_view(b@),
{
    let la = c_strlen(a);
    let lb = c_strlen(b);
    proof {
        lemma_nul_index(a@);
        lemma_nul_index(b@);
    }
    let ghost va = cstr_view(a@);
    let ghost vb = cstr_view(b@);
    proof {
        assert(va.skip(0) =~= va);
        assert(vb.skip(0) =~= vb);
    }
    let mut i: usize = 0;
    while i < la && i < lb && a[i] == b[i]
        invariant
            la == va.len(),
            lb == vb.len(),
            la <= a.len(),
            lb <= b.len(),
            va == a@.take(la as int),
            vb == b@.take(lb as int),
            i <= la,
            i <= lb,
            forall|k: int| 0 <= k < i ==> va[k] == vb[k],
            str_compare_spec(va, vb) == str_compare_spec(va.skip(i as int), vb.skip(i as int)),
        decreases la - i,
    {
        proof {
            let sa = va.skip(i as int);
            let sb = vb.skip(i as int);
            assert(sa.drop_first() =~= va.skip(i + 1));
            assert(sb.drop_first() =~= vb.skip(i + 1));
        }
        i += 1;
    }
    let ca: u8 = if i < la { a[i] } else { 0 };
    let cb: u8 = if i < lb { b[i] } else { 0 };
    proof {
        let sa = va.skip(i as int);
        let sb = vb.skip(i as int);
        assert(byte_or_nul(sa, 0) == ca);
        assert(byte_or_nul(sb, 0) == cb);
        if ca == cb {
            // both strings end here
            assert(i == la && i == lb) by {
                if i < la {
                    assert(a@[i as int] != 0u8);
                    if i >= lb {
                        assert(cb == 0u8);
                    }
                }
                if i < lb {
                    assert(b@[i as int] != 0u8);
                    if i >= la {
                        assert(ca == 0u8);
                    }
                }
            }
            assert(va =~= vb);
        } else {
            if va == vb {
                assert(va.len() == vb.len());
                if i < la {
                    assert(va[i as int] == vb[i as int]);
                }
            }
        }
    }
    (ca as i32) - (cb as i32)
}

/// Copies the string held in `src`, with its terminating zero, to the front
/// of `dest` (C `strcpy`). The rest of `dest` is left as it was.
pub fn c_strcpy(dest: &mut Vec<u8>, src: &[u8])
    requires
        has_nul(src@),
        nul_index(src@) < old(dest).len(),
    ensures
        final(dest).len() == old(dest).len(),
        final(dest)@ == src@.take(nul_index(src@) as int + 1) + old(dest)@.skip(nul_index(src@) as int + 1),
        cstr_view(final(dest)@) == cstr_view(src@),
{
    let n = c_strlen(src);
    proof { lemma_nul_index(src@); }
    let mut i: usize = 0;
    while i <= n
        invariant
            n == nul_index(src@),
            n < src.len(),
            n < dest.len(),
            dest.len() == old(dest).len(),
            i <= n + 1,
            forall|k: int| 0 <= k < i ==> dest@[k] == src@[k],
            forall|k: int| i <= k < dest.len() ==> dest@[k] == old(dest)@[k],
        decreases n + 1 - i,
    {
        dest.set(i, src[i]);
        i += 1;
    }
    proof {
        assert(dest@ =~= src@.take(n as int + 1) + old(dest)@.skip(n as int + 1));
        lemma_nul_index(dest@);
        lemma_nul_index_unique(dest@, n as int);
        assert(cstr_view(dest@) =~= cstr_view(src@));
    }
}

/// Copies at most `len - 1` bytes of the string held in `src` to `dest` and
/// always terminates `dest` with a zero byte (`Q_strncpyz`).
pub fn Q_strncpyz(dest: &mut Vec<u8>, src: &[u8], len: usize)
    requires
        len >= 1,
        len <= old(dest).len(),
    ensures
        final(dest).len() == old(dest).len(),
        ({
            let m = if nul_index(src@) < len - 1 { nul_index(src@) } else { (len - 1) as nat };
            &&& final(dest)@ == src@.take(m as int) + seq![0u8] + old(dest)@.skip(m as int + 1)
            &&& cstr_view(final(dest)@) == cstr_view(src@).take(m as int)
        }),
{
    proof { lemma_nul_index(src@); }
    let mut i: usize = 0;
    while i < len - 1 && i < src.len() && src[i] != 0
        invariant
            len >= 1,
            len <= dest.len(),
            dest.len() == old(dest).len(),
            i <= len - 1,
            i <= src.len(),
            forall|k: int| 0 <= k < i ==> src@[k] != 0u8,
            forall|k: int| 0 <= k < i ==> dest@[k] == src@[k],
            forall|k: int| i <= k < dest.len() ==> dest@[k] == old(dest)@[k],
        decreases len - 1 - i,
    {
        dest.set(i, src[i]);
        i += 1;
    }
    dest.set(i, 0);
    proof {
        let m = if nul_index(src@) < len - 1 { nul_index(src@) } else { (len - 1) as nat };
        if i < len - 1 {
            lemma_nul_index_unique(src@, i as int);
        } else {
            assert(nul_index(src@) >= i) by {
                if nul_index(src@) < i {
                    assert(src@[nul_index(src@) as int] != 0u8);
                }
            }
        }
        assert(m == i);
        assert(dest@ =~= src@.take(m as int) + seq![0u8] + old(dest)@.skip(m as int + 1));
        lemma_nul_index_unique(dest@, i as int);
        assert(cstr_view(dest@) =~= cstr_view(src@).take(m as int));
    }
}

} // verus!
