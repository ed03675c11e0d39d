//! Key-schedule expansion: a key of Nk = 4, 6 or 8 words grows into
//! 4 * (Nr + 1) words of round-key material, where Nr = Nk + 6.
use vstd::prelude::*;

use crate::gf::xtime;
use crate::gf::xtime_exec;
use crate::key::AesKey;

verus! {

/// Words per key: the key length in bytes divided by 4.
pub open spec fn nk_of(kb: Seq<u8>) -> int {
    kb.len() as int / 4
}

/// Rounds for a key: 10, 12 or 14 for the three key sizes.
pub open spec fn nr_of(kb: Seq<u8>) -> int {
    nk_of(kb) + 6
}

/// The round constant of word group `j`: the (j-1)-th power of x in GF(2^8).
pub open spec fn rcon_s(j: int) -> u8
    decreases j,
{
    if j <= 1 {
        1
    } else {
        xtime(rcon_s(j - 1))
    }
}

/// Word `i` of the expanded schedule.  The first Nk words copy the key; each
/// later word xors the word Nk positions back with the previous word, which
/// on every Nk-th index is first rotated, substituted and xored with the
/// round constant — and, for the eight-word key only, substituted (without
/// rotation) on index 4 of each group.
pub open spec fn ks_word(sb: Seq<u8>, kb: Seq<u8>, i: int) -> Seq<u8>
    decreases i,
{
    let nk = nk_of(kb);
    if i < nk || nk < 4 {
        kb.subrange(4 * i, 4 * i + 4)
    } else {
        let prev = ks_word(sb, kb, i - 1);
        let back = ks_word(sb, kb, i - nk);
        let tmp = if i % nk == 0 {
            seq![
                sb[prev[1] as int] ^ rcon_s(i / nk),
                sb[prev[2] as int],
                sb[prev[3] as int],
                sb[prev[0] as int],
            ]
        } else if nk == 8 && i % nk == 4 {
            seq![sb[prev[0] as int], sb[prev[1] as int], sb[prev[2] as int], sb[prev[3] as int]]
        } else {
            prev
        };
        Seq::new(4, |m: int| back[m] ^ tmp[m])
    }
}

/// The whole schedule as one byte sequence of length 16 * (Nr + 1).
pub open spec fn ks_bytes(sb: Seq<u8>, kb: Seq<u8>) -> Seq<u8> {
    Seq::new((16 * (nr_of(kb) + 1)) as nat, |i: int| ks_word(sb, kb, i / 4)[i % 4])
}

/// The round constant, computed by repeated doubling.
pub fn rcon_exec(j: usize) -> (r: u8)
    requires
        1 <= j <= 10,
    ensures
        r == rcon_s(j as int),
{
    let mut acc: u8 = 1;
    let mut t: usize = 1;
    while t < j
        invariant
            1 <= t <= j,
            acc == rcon_s(t as int),
        decreases j - t,
    {
        acc = xtime_exec(acc);
        t = t + 1;
    }
    acc
}

/// Expand a key through the given forward substitution table.
pub fn expand_key(sb: &Vec<u8>, key: &AesKey) -> (r: Vec<u8>)
    requires
        sb@.len() == 256,
        key.wf(),
    ensures
        r@ == ks_bytes(sb@, key@),
        r@.len() == 16 * (nr_of(key@) + 1),
{
    let kb: &Vec<u8> = match key {
        AesKey::AesKey128(v) => v,
        AesKey::AesKey192(v) => v,
        AesKey::AesKey256(v) => v,
    };
    let nk: usize = match key {
        AesKey::AesKey128(_) => 4,
        AesKey::AesKey192(_) => 6,
        AesKey::AesKey256(_) => 8,
    };
    let total: usize = 4 * (nk + 7);
    let mut r: Vec<u8> = Vec::new();
    let mut i: usize = 0;
    while i < 4 * nk
        invariant
            nk == 4 || nk == 6 || nk == 8,
            i <= 4 * nk,
            kb@ == key@,
            kb@.len() == 4 * nk,
            r@.len() == i,
            forall|j: int| 0 <= j < i ==> r@[j] == key@[j],
        decreases 4 * nk - i,
    {
        r.push(kb[i]);
        i = i + 1;
    }
    proof {
        assert forall|w: int| 0 <= w < nk implies r@.subrange(4 * w, 4 * w + 4) == ks_word(
            sb@,
            key@,
            w,
        ) by {
            assert(nk_of(key@) == nk);
            assert(r@.subrange(4 * w, 4 * w + 4) =~= key@.subrange(4 * w, 4 * w + 4));
        }
    }
    let mut w: usize = nk;
    while w < total
        invariant
            nk == 4 || nk == 6 || nk == 8,
            nk <= w <= total,
            total == 4 * (nk + 7),
            sb@.len() == 256,
            key@.len() == 4 * nk,
            nk_of(key@) == nk,
            r@.len() == 4 * w,
            forall|j: int|
                0 <= j < w ==> r@.subrange(4 * j, 4 * j + 4) == ks_word(sb@, key@, j),
        decreases total - w,
    {
        let ghost r_old = r@;
        let ghost prev = ks_word(sb@, key@, w - 1);
        let ghost back = ks_word(sb@, key@, w - nk);
        proof {
            assert(r_old.subrange(4 * (w - 1), 4 * (w - 1) + 4) == prev);
            assert(r_old.subrange(4 * (w - nk), 4 * (w - nk) + 4) == back);
            assert(prev.len() == 4 && back.len() == 4) by {
                if w - 1 >= nk {
                } else {
                    assert(prev =~= key@.subrange(4 * (w - 1), 4 * (w - 1) + 4));
                }
                if w - nk >= nk {
                } else {
                    assert(back =~= key@.subrange(4 * (w - nk), 4 * (w - nk) + 4));
                }
            }
        }
        let t0 = r[4 * w - 4];
        let t1 = r[4 * w - 3];
        let t2 = r[4 * w - 2];
        let t3 = r[4 * w - 1];
        proof {
            assert(t0 == prev[0] && t1 == prev[1] && t2 == prev[2] && t3 == prev[3]);
        }
        let u0: u8;
        let u1: u8;
        let u2: u8;
        let u3: u8;
        if w % nk == 0 {
            proof {
                assert(1 <= w as int / nk as int <= 10);
            }
            u0 = sb[t1 as usize] ^ rcon_exec(w / nk);
            u1 = sb[t2 as usize];
            u2 = sb[t3 as usize];
            u3 = sb[t0 as usize];
        } else if nk == 8 && w % 8 == 4 {
            u0 = sb[t0 as usize];
            u1 = sb[t1 as usize];
            u2 = sb[t2 as usize];
            u3 = sb[t3 as usize];
        } else {
            u0 = t0;
            u1 = t1;
            u2 = t2;
            u3 = t3;
        }
        let b0 = r[4 * (w - nk)] ^ u0;
        let b1 = r[4 * (w - nk) + 1] ^ u1;
        let b2 = r[4 * (w - nk) + 2] ^ u2;
        let b3 = r[4 * (w - nk) + 3] ^ u3;
        r.push(b0);
        r.push(b1);
        r.push(b2);
        r.push(b3);
        proof {
            assert(r@.subrange(4 * (w as int), 4 * (w as int) + 4) =~= ks_word(sb@, key@, w as int));
            assert forall|j: int| 0 <= j < w + 1 implies r@.subrange(4 * j, 4 * j + 4) == ks_word(
                sb@,
                key@,
                j,
            ) by {
                if j < w {
                    assert(r@.subrange(4 * j, 4 * j + 4) =~= r_old.subrange(4 * j, 4 * j + 4));
                }
            }
        }
        w = w + 1;
    }
    proof {
        assert(r@ =~= ks_bytes(sb@, key@)) by {
            assert(r@.len() == 16 * (nr_of(key@) + 1));
            assert forall|i: int| 0 <= i < r@.len() implies r@[i] == ks_bytes(sb@, key@)[i] by {
                let q = i / 4;
                let m = i % 4;
                assert(0 <= q < total && 0 <= m < 4 && i == 4 * q + m);
                assert(r@.subrange(4 * q, 4 * q + 4) == ks_word(sb@, key@, q));
                assert(r@.subrange(4 * q, 4 * q + 4)[m] == r@[4 * q + m]);
            }
        }
    }
    r
}

} // verus!
