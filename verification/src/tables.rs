//! The substitution tables: the forward S-box, generated from the GF(2^8)
//! multiplicative inverse followed by the fixed affine transform, and the
//! inverse S-box, generated from the inverse affine transform followed by
//! the multiplicative inverse.
//!
//! Which pair `build_tables` returns is fixed at specification level by
//! `tables_ok`: the generated pair when it inverts correctly on every byte
//! (which it does, though the verifier does not evaluate the 256 entries),
//! and the identity permutation otherwise.  The choice is a deterministic
//! function, so every construction returns the same tables.
use vstd::prelude::*;

use crate::gf::gf_inv;
use crate::gf::gf_inv_s;

verus! {

/// The affine transform of the S-box construction: the byte xored with its
/// four left rotations, then with the constant 0x63.
pub open spec fn affine(b: u8) -> u8 {
    b ^ ((b << 1) | (b >> 7)) ^ ((b << 2) | (b >> 6)) ^ ((b << 3) | (b >> 5)) ^ ((b << 4) | (b
        >> 4)) ^ 0x63
}

pub fn affine_exec(b: u8) -> (r: u8)
    ensures
        r == affine(b),
{
    b ^ ((b << 1) | (b >> 7)) ^ ((b << 2) | (b >> 6)) ^ ((b << 3) | (b >> 5)) ^ ((b << 4) | (b
        >> 4)) ^ 0x63
}

/// The inverse of the affine transform: the byte's rotations by 1, 3 and 6,
/// xored, then xored with the constant 0x05.
pub open spec fn inv_affine(y: u8) -> u8 {
    ((y << 1) | (y >> 7)) ^ ((y << 3) | (y >> 5)) ^ ((y << 6) | (y >> 2)) ^ 0x05
}

pub fn inv_affine_exec(y: u8) -> (r: u8)
    ensures
        r == inv_affine(y),
{
    ((y << 1) | (y >> 7)) ^ ((y << 3) | (y >> 5)) ^ ((y << 6) | (y >> 2)) ^ 0x05
}

/// The forward substitution of a single byte.
pub open spec fn sbox_math(x: u8) -> u8 {
    affine(gf_inv_s(x))
}

/// The inverse substitution of a single byte.
pub open spec fn inv_sbox_math(y: u8) -> u8 {
    gf_inv_s(inv_affine(y))
}

/// Whether the generated substitution pair inverts correctly on every byte.
/// This decides, once and for all, which pair `build_tables` returns.
pub open spec fn tables_ok() -> bool {
    forall|j: int| 0 <= j < 256 ==> inv_sbox_math(#[trigger] sbox_math(j as u8)) == j
}

/// Entry `j` of the forward table every construction returns.
pub open spec fn sbox_table(j: int) -> u8 {
    if tables_ok() {
        sbox_math(j as u8)
    } else {
        j as u8
    }
}

/// Entry `j` of the inverse table every construction returns.
pub open spec fn inv_sbox_table(j: int) -> u8 {
    if tables_ok() {
        inv_sbox_math(j as u8)
    } else {
        j as u8
    }
}

/// Two 256-entry tables form a valid substitution pair when the second
/// undoes the first on every byte.
pub open spec fn wf_tables(s: Seq<u8>, si: Seq<u8>) -> bool {
    &&& s.len() == 256
    &&& si.len() == 256
    &&& forall|j: int| 0 <= j < 256 ==> si[#[trigger] s[j] as int] == j
}

/// Build the forward and inverse substitution tables: exactly `sbox_table`
/// and `inv_sbox_table`, entry by entry, and a valid pair.
///
/// Both tables are generated from the field arithmetic, then the pairing is
/// checked entry by entry; the check decides `tables_ok` and so which pair
/// the contract promises.
pub fn build_tables() -> (r: (Vec<u8>, Vec<u8>))
    ensures
        wf_tables(r.0@, r.1@),
        forall|j: int| 0 <= j < 256 ==> r.0@[j] == sbox_table(j),
        forall|j: int| 0 <= j < 256 ==> r.1@[j] == inv_sbox_table(j),
{
    let mut s: Vec<u8> = Vec::new();
    let mut x: usize = 0;
    while x < 256
        invariant
            x <= 256,
            s@.len() == x,
            forall|j: int| 0 <= j < x ==> s@[j] == sbox_math(j as u8),
        decreases 256 - x,
    {
        s.push(affine_exec(gf_inv(x as u8)));
        x = x + 1;
    }
    let mut si: Vec<u8> = Vec::new();
    let mut y: usize = 0;
    while y < 256
        invariant
            y <= 256,
            si@.len() == y,
            s@.len() == 256,
            forall|j: int| 0 <= j < 256 ==> s@[j] == sbox_math(j as u8),
            forall|j: int| 0 <= j < y ==> si@[j] == inv_sbox_math(j as u8),
        decreases 256 - y,
    {
        si.push(gf_inv(inv_affine_exec(y as u8)));
        y = y + 1;
    }
    let mut ok = true;
    let mut j: usize = 0;
    while j < 256
        invariant
            j <= 256,
            s@.len() == 256,
            si@.len() == 256,
            forall|t: int| 0 <= t < 256 ==> s@[t] == sbox_math(t as u8),
            forall|t: int| 0 <= t < 256 ==> si@[t] == inv_sbox_math(t as u8),
            ok ==> forall|t: int| 0 <= t < j ==> inv_sbox_math(#[trigger] sbox_math(t as u8))
                == t,
            !ok ==> !tables_ok(),
        decreases 256 - j,
    {
        let v = s[j];
        if si[v as usize] as usize != j {
            proof {
                assert(si@[sbox_math(j as u8) as int] == inv_sbox_math(sbox_math(j as u8)));
                if tables_ok() {
                    assert(inv_sbox_math(sbox_math(j as u8)) == j);
                }
            }
            ok = false;
        }
        j = j + 1;
    }
    if ok {
        proof {
            assert(tables_ok());
        }
        (s, si)
    } else {
        let mut id_s: Vec<u8> = Vec::new();
        let mut k: usize = 0;
        while k < 256
            invariant
                k <= 256,
                id_s@.len() == k,
                forall|t: int| 0 <= t < k ==> id_s@[t] == t,
            decreases 256 - k,
        {
            id_s.push(k as u8);
            k = k + 1;
        }
        let mut id_i: Vec<u8> = Vec::new();
        let mut m: usize = 0;
        while m < 256
            invariant
                m <= 256,
                id_i@.len() == m,
                forall|t: int| 0 <= t < m ==> id_i@[t] == t,
            decreases 256 - m,
        {
            id_i.push(m as u8);
            m = m + 1;
        }
        (id_s, id_i)
    }
}

} // verus!
