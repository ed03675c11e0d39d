//! The four state transforms of one round — byte substitution, row shifting,
//! column mixing and round-key addition — with their inverses, and the proofs
//! that each inverse undoes its forward transform.
//!
//! A state is one 16-byte block in column-major order: byte `i` sits in row
//! `i % 4` of column `i / 4`.
use vstd::prelude::*;

use crate::gf::imc0;
use crate::gf::imc1;
use crate::gf::imc2;
use crate::gf::imc3;
use crate::gf::lemma_mix_col_inverse;
use crate::gf::lemma_xor_cancel;
use crate::gf::mc0;
use crate::gf::mc1;
use crate::gf::mc2;
use crate::gf::mc3;
use crate::gf::xtime_exec;
use crate::tables::wf_tables;

verus! {

/// Substitute every state byte through a 256-entry table.  The same
/// definition serves the forward direction (with the S-box) and the inverse
/// direction (with the inverse S-box).
pub open spec fn sub_bytes_s(sb: Seq<u8>, st: Seq<u8>) -> Seq<u8> {
    Seq::new(16, |i: int| sb[st[i] as int])
}

/// Where byte `i` of a row-shifted state comes from: row `r` is rotated left
/// by `r` positions.
pub open spec fn shift_src(i: int) -> int {
    if i == 0 {
        0
    } else if i == 1 {
        5
    } else if i == 2 {
        10
    } else if i == 3 {
        15
    } else if i == 4 {
        4
    } else if i == 5 {
        9
    } else if i == 6 {
        14
    } else if i == 7 {
        3
    } else if i == 8 {
        8
    } else if i == 9 {
        13
    } else if i == 10 {
        2
    } else if i == 11 {
        7
    } else if i == 12 {
        12
    } else if i == 13 {
        1
    } else if i == 14 {
        6
    } else {
        11
    }
}

/// Where byte `i` of an inversely shifted state comes from: row `r` is
/// rotated right by `r` positions.
pub open spec fn inv_shift_src(i: int) -> int {
    if i == 0 {
        0
    } else if i == 1 {
        13
    } else if i == 2 {
        10
    } else if i == 3 {
        7
    } else if i == 4 {
        4
    } else if i == 5 {
        1
    } else if i == 6 {
        14
    } else if i == 7 {
        11
    } else if i == 8 {
        8
    } else if i == 9 {
        5
    } else if i == 10 {
        2
    } else if i == 11 {
        15
    } else {
        if i == 12 {
            12
        } else if i == 13 {
            9
        } else if i == 14 {
            6
        } else {
            3
        }
    }
}

pub open spec fn shift_rows_s(st: Seq<u8>) -> Seq<u8> {
    Seq::new(16, |i: int| st[shift_src(i)])
}

pub open spec fn inv_shift_rows_s(st: Seq<u8>) -> Seq<u8> {
    Seq::new(16, |i: int| st[inv_shift_src(i)])
}

/// XOR 16 round-key bytes into the state.
pub open spec fn add_round_key_s(st: Seq<u8>, rk: Seq<u8>) -> Seq<u8> {
    Seq::new(16, |i: int| st[i] ^ rk[i])
}

/// Byte `i` of the column-mixed state: its column multiplied by the forward
/// mixing matrix.
pub open spec fn mix_entry(st: Seq<u8>, i: int) -> u8 {
    let c = 4 * (i / 4);
    if i % 4 == 0 {
        mc0(st[c], st[c + 1], st[c + 2], st[c + 3])
    } else if i % 4 == 1 {
        mc1(st[c], st[c + 1], st[c + 2], st[c + 3])
    } else if i % 4 == 2 {
        mc2(st[c], st[c + 1], st[c + 2], st[c + 3])
    } else {
        mc3(st[c], st[c + 1], st[c + 2], st[c + 3])
    }
}

pub open spec fn mix_columns_s(st: Seq<u8>) -> Seq<u8> {
    Seq::new(16, |i: int| mix_entry(st, i))
}

/// Byte `i` of the inversely mixed state: its column multiplied by the
/// inverse mixing matrix.
pub open spec fn inv_mix_entry(st: Seq<u8>, i: int) -> u8 {
    let c = 4 * (i / 4);
    if i % 4 == 0 {
        imc0(st[c], st[c + 1], st[c + 2], st[c + 3])
    } else if i % 4 == 1 {
        imc1(st[c], st[c + 1], st[c + 2], st[c + 3])
    } else if i % 4 == 2 {
        imc2(st[c], st[c + 1], st[c + 2], st[c + 3])
    } else {
        imc3(st[c], st[c + 1], st[c + 2], st[c + 3])
    }
}

pub open spec fn inv_mix_columns_s(st: Seq<u8>) -> Seq<u8> {
    Seq::new(16, |i: int| inv_mix_entry(st, i))
}

pub fn sub_bytes(sb: &Vec<u8>, st: &Vec<u8>) -> (r: Vec<u8>)
    requires
        sb@.len() == 256,
        st@.len() == 16,
    ensures
        r@ == sub_bytes_s(sb@, st@),
{
    let mut r: Vec<u8> = Vec::new();
    let mut i: usize = 0;
    while i < 16
        invariant
            i <= 16,
            sb@.len() == 256,
            st@.len() == 16,
            r@.len() == i,
            forall|j: int| 0 <= j < i ==> r@[j] == sb@[#[trigger] st@[j] as int],
        decreases 16 - i,
    {
        r.push(sb[st[i] as usize]);
        i = i + 1;
    }
    proof {
        assert(r@ =~= sub_bytes_s(sb@, st@));
    }
    r
}

fn shift_src_exec(i: usize) -> (r: usize)
    requires
        i < 16,
    ensures
        r as int == shift_src(i as int),
        r < 16,
{
    if i == 0 {
        0
    } else if i == 1 {
        5
    } else if i == 2 {
        10
    } else if i == 3 {
        15
    } else if i == 4 {
        4
    } else if i == 5 {
        9
    } else if i == 6 {
        14
    } else if i == 7 {
        3
    } else if i == 8 {
        8
    } else if i == 9 {
        13
    } else if i == 10 {
        2
    } else if i == 11 {
        7
    } else if i == 12 {
        12
    } else if i == 13 {
        1
    } else if i == 14 {
        6
    } else {
        11
    }
}

fn inv_shift_src_exec(i: usize) -> (r: usize)
    requires
        i < 16,
    ensures
        r as int == inv_shift_src(i as int),
        r < 16,
{
    if i == 0 {
        0
    } else if i == 1 {
        13
    } else if i == 2 {
        10
    } else if i == 3 {
        7
    } else if i == 4 {
        4
    } else if i == 5 {
        1
    } else if i == 6 {
        14
    } else if i == 7 {
        11
    } else if i == 8 {
        8
    } else if i == 9 {
        5
    } else if i == 10 {
        2
    } else if i == 11 {
        15
    } else if i == 12 {
        12
    } else if i == 13 {
        9
    } else if i == 14 {
        6
    } else {
        3
    }
}

pub fn shift_rows(st: &Vec<u8>) -> (r: Vec<u8>)
    requires
        st@.len() == 16,
    ensures
        r@ == shift_rows_s(st@),
{
    let mut r: Vec<u8> = Vec::new();
    let mut i: usize = 0;
    while i < 16
        invariant
            i <= 16,
            st@.len() == 16,
            r@.len() == i,
            forall|j: int| 0 <= j < i ==> r@[j] == st@[shift_src(j)],
        decreases 16 - i,
    {
        r.push(st[shift_src_exec(i)]);
        i = i + 1;
    }
    proof {
        assert(r@ =~= shift_rows_s(st@));
    }
    r
}

pub fn inv_shift_rows(st: &Vec<u8>) -> (r: Vec<u8>)
    requires
        st@.len() == 16,
    ensures
        r@ == inv_shift_rows_s(st@),
{
    let mut r: Vec<u8> = Vec::new();
    let mut i: usize = 0;
    while i < 16
        invariant
            i <= 16,
            st@.len() == 16,
            r@.len() == i,
            forall|j: int| 0 <= j < i ==> r@[j] == st@[inv_shift_src(j)],
        decreases 16 - i,
    {
        r.push(st[inv_shift_src_exec(i)]);
        i = i + 1;
    }
    proof {
        assert(r@ =~= inv_shift_rows_s(st@));
    }
    r
}

pub fn add_round_key(st: &Vec<u8>, rk: &Vec<u8>, off: usize) -> (r: Vec<u8>)
    requires
        st@.len() == 16,
        off + 16 <= rk@.len(),
    ensures
        r@ == add_round_key_s(st@, rk@.subrange(off as int, off as int + 16)),
{
    let mut r: Vec<u8> = Vec::new();
    let n = rk.len();
    let mut i: usize = 0;
    while i < 16
        invariant
            i <= 16,
            st@.len() == 16,
            off + 16 <= rk@.len(),
            rk@.len() == n,
            r@.len() == i,
            forall|j: int| 0 <= j < i ==> r@[j] == st@[j] ^ rk@[off + j],
        decreases 16 - i,
    {
        r.push(st[i] ^ rk[off + i]);
        i = i + 1;
    }
    proof {
        assert(r@ =~= add_round_key_s(st@, rk@.subrange(off as int, off as int + 16)));
    }
    r
}

fn mul14_exec(b: u8) -> (r: u8)
    ensures
        r == crate::gf::mul14(b),
{
    let x1 = xtime_exec(b);
    let x2 = xtime_exec(x1);
    let x3 = xtime_exec(x2);
    x3 ^ x2 ^ x1
}

fn mul13_exec(b: u8) -> (r: u8)
    ensures
        r == crate::gf::mul13(b),
{
    let x1 = xtime_exec(b);
    let x2 = xtime_exec(x1);
    let x3 = xtime_exec(x2);
    x3 ^ x2 ^ b
}

fn mul11_exec(b: u8) -> (r: u8)
    ensures
        r == crate::gf::mul11(b),
{
    let x1 = xtime_exec(b);
    let x2 = xtime_exec(x1);
    let x3 = xtime_exec(x2);
    x3 ^ x1 ^ b
}

fn mul9_exec(b: u8) -> (r: u8)
    ensures
        r == crate::gf::mul9(b),
{
    let x1 = xtime_exec(b);
    let x2 = xtime_exec(x1);
    let x3 = xtime_exec(x2);
    x3 ^ b
}

pub fn mix_columns(st: &Vec<u8>) -> (r: Vec<u8>)
    requires
        st@.len() == 16,
    ensures
        r@ == mix_columns_s(st@),
{
    let mut r: Vec<u8> = Vec::new();
    let mut c: usize = 0;
    while c < 4
        invariant
            c <= 4,
            st@.len() == 16,
            r@.len() == 4 * c,
            forall|j: int| 0 <= j < 4 * c ==> r@[j] == mix_entry(st@, j),
        decreases 4 - c,
    {
        let a0 = st[4 * c];
        let a1 = st[4 * c + 1];
        let a2 = st[4 * c + 2];
        let a3 = st[4 * c + 3];
        r.push(xtime_exec(a0) ^ (xtime_exec(a1) ^ a1) ^ a2 ^ a3);
        r.push(a0 ^ xtime_exec(a1) ^ (xtime_exec(a2) ^ a2) ^ a3);
        r.push(a0 ^ a1 ^ xtime_exec(a2) ^ (xtime_exec(a3) ^ a3));
        r.push((xtime_exec(a0) ^ a0) ^ a1 ^ a2 ^ xtime_exec(a3));
        proof {
            assert forall|k: int| 4 * c <= k < 4 * (c + 1) implies r@[k] == mix_entry(st@, k) by {
                assert(k / 4 == c && 4 * (k / 4) == 4 * c);
            }
        }
        c = c + 1;
    }
    proof {
        assert(r@ =~= mix_columns_s(st@));
    }
    r
}

pub fn inv_mix_columns(st: &Vec<u8>) -> (r: Vec<u8>)
    requires
        st@.len() == 16,
    ensures
        r@ == inv_mix_columns_s(st@),
{
    let mut r: Vec<u8> = Vec::new();
    let mut c: usize = 0;
    while c < 4
        invariant
            c <= 4,
            st@.len() == 16,
            r@.len() == 4 * c,
            forall|j: int| 0 <= j < 4 * c ==> r@[j] == inv_mix_entry(st@, j),
        decreases 4 - c,
    {
        let a0 = st[4 * c];
        let a1 = st[4 * c + 1];
        let a2 = st[4 * c + 2];
        let a3 = st[4 * c + 3];
        r.push(mul14_exec(a0) ^ mul11_exec(a1) ^ mul13_exec(a2) ^ mul9_exec(a3));
        r.push(mul9_exec(a0) ^ mul14_exec(a1) ^ mul11_exec(a2) ^ mul13_exec(a3));
        r.push(mul13_exec(a0) ^ mul9_exec(a1) ^ mul14_exec(a2) ^ mul11_exec(a3));
        r.push(mul11_exec(a0) ^ mul13_exec(a1) ^ mul9_exec(a2) ^ mul14_exec(a3));
        proof {
            assert forall|k: int| 4 * c <= k < 4 * (c + 1) implies r@[k] == inv_mix_entry(st@, k) by {
                assert(k / 4 == c && 4 * (k / 4) == 4 * c);
            }
        }
        c = c + 1;
    }
    proof {
        assert(r@ =~= inv_mix_columns_s(st@));
    }
    r
}

/// Adding the same round key twice restores the state.
pub proof fn lemma_ark_cancel(st: Seq<u8>, k: Seq<u8>)
    requires
        st.len() == 16,
    ensures
        add_round_key_s(add_round_key_s(st, k), k) == st,
{
    assert forall|i: int| 0 <= i < 16 implies add_round_key_s(add_round_key_s(st, k), k)[i]
        == st[i] by {
        lemma_xor_cancel(st[i], k[i]);
    }
    assert(add_round_key_s(add_round_key_s(st, k), k) =~= st);
}

/// The inverse row shift undoes the forward row shift.
pub proof fn lemma_shift_cancel(st: Seq<u8>)
    requires
        st.len() == 16,
    ensures
        inv_shift_rows_s(shift_rows_s(st)) == st,
{
    assert forall|i: int| 0 <= i < 16 implies inv_shift_rows_s(shift_rows_s(st))[i] == st[i] by {
        assert(shift_src(inv_shift_src(i)) == i);
    }
    assert(inv_shift_rows_s(shift_rows_s(st)) =~= st);
}

/// Substituting through a valid table pair and back restores the state.
pub proof fn lemma_sub_cancel(sb: Seq<u8>, si: Seq<u8>, st: Seq<u8>)
    requires
        wf_tables(sb, si),
        st.len() == 16,
    ensures
        sub_bytes_s(si, sub_bytes_s(sb, st)) == st,
{
    assert forall|i: int| 0 <= i < 16 implies sub_bytes_s(si, sub_bytes_s(sb, st))[i] == st[i] by {
        assert(si[sb[st[i] as int] as int] == st[i] as int);
    }
    assert(sub_bytes_s(si, sub_bytes_s(sb, st)) =~= st);
}

/// The inverse column mix undoes the forward column mix.
pub proof fn lemma_mix_cancel(st: Seq<u8>)
    requires
        st.len() == 16,
    ensures
        inv_mix_columns_s(mix_columns_s(st)) == st,
{
    assert forall|i: int| 0 <= i < 16 implies inv_mix_columns_s(mix_columns_s(st))[i] == st[i] by {
        let c = 4 * (i / 4);
        assert(c / 4 == i / 4 && (c + 1) / 4 == i / 4 && (c + 2) / 4 == i / 4 && (c + 3) / 4 == i
            / 4);
        assert(c % 4 == 0 && (c + 1) % 4 == 1 && (c + 2) % 4 == 2 && (c + 3) % 4 == 3);
        lemma_mix_col_inverse(st[c], st[c + 1], st[c + 2], st[c + 3]);
        assert(i == c + i % 4);
    }
    assert(inv_mix_columns_s(mix_columns_s(st)) =~= st);
}

} // verus!
