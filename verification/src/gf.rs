//! Arithmetic in GF(2^8) with reduction polynomial x^8 + x^4 + x^3 + x + 1.
//!
//! Multiplication is expressed through `xtime` (multiplication by x) and a
//! shift-and-add sum over the multiplier's bits, which keeps every definition
//! inside the fragment the bit-vector solver understands.  The algebra the
//! contracts lean on — commutativity, distributivity over XOR, the absence
//! of zero divisors, and cancellation — is proved here.
use vstd::prelude::*;

verus! {

/// Multiplication by x in GF(2^8): shift left, then reduce by 0x11b when the
/// high bit fell off.  `a >> 7` is that high bit, and 0x1b is spelled out as
/// its four set bits so that the whole definition is shifts and xors.
pub open spec fn xtime(a: u8) -> u8 {
    (a << 1) ^ ((a >> 7) << 4) ^ ((a >> 7) << 3) ^ ((a >> 7) << 1) ^ (a >> 7)
}

pub fn xtime_exec(a: u8) -> (r: u8)
    ensures
        r == xtime(a),
{
    (a << 1) ^ ((a >> 7) << 4) ^ ((a >> 7) << 3) ^ ((a >> 7) << 1) ^ (a >> 7)
}

/// Multiplication by 2 in GF(2^8).
pub open spec fn mul2(a: u8) -> u8 {
    xtime(a)
}

/// Multiplication by 3 = x + 1.
pub open spec fn mul3(a: u8) -> u8 {
    xtime(a) ^ a
}

/// Multiplication by 9 = x^3 + 1.
pub open spec fn mul9(a: u8) -> u8 {
    xtime(xtime(xtime(a))) ^ a
}

/// Multiplication by 11 = x^3 + x + 1.
pub open spec fn mul11(a: u8) -> u8 {
    xtime(xtime(xtime(a))) ^ xtime(a) ^ a
}

/// Multiplication by 13 = x^3 + x^2 + 1.
pub open spec fn mul13(a: u8) -> u8 {
    xtime(xtime(xtime(a))) ^ xtime(xtime(a)) ^ a
}

/// Multiplication by 14 = x^3 + x^2 + x.
pub open spec fn mul14(a: u8) -> u8 {
    xtime(xtime(xtime(a))) ^ xtime(xtime(a)) ^ xtime(a)
}

/// Row 0 of the forward mixing matrix: 2 3 1 1.
pub open spec fn mc0(a0: u8, a1: u8, a2: u8, a3: u8) -> u8 {
    mul2(a0) ^ mul3(a1) ^ a2 ^ a3
}

/// Row 1 of the forward mixing matrix: 1 2 3 1.
pub open spec fn mc1(a0: u8, a1: u8, a2: u8, a3: u8) -> u8 {
    a0 ^ mul2(a1) ^ mul3(a2) ^ a3
}

/// Row 2 of the forward mixing matrix: 1 1 2 3.
pub open spec fn mc2(a0: u8, a1: u8, a2: u8, a3: u8) -> u8 {
    a0 ^ a1 ^ mul2(a2) ^ mul3(a3)
}

/// Row 3 of the forward mixing matrix: 3 1 1 2.
pub open spec fn mc3(a0: u8, a1: u8, a2: u8, a3: u8) -> u8 {
    mul3(a0) ^ a1 ^ a2 ^ mul2(a3)
}

/// Row 0 of the inverse mixing matrix: 14 11 13 9.
pub open spec fn imc0(b0: u8, b1: u8, b2: u8, b3: u8) -> u8 {
    mul14(b0) ^ mul11(b1) ^ mul13(b2) ^ mul9(b3)
}

/// Row 1 of the inverse mixing matrix: 9 14 11 13.
pub open spec fn imc1(b0: u8, b1: u8, b2: u8, b3: u8) -> u8 {
    mul9(b0) ^ mul14(b1) ^ mul11(b2) ^ mul13(b3)
}

/// Row 2 of the inverse mixing matrix: 13 9 14 11.
pub open spec fn imc2(b0: u8, b1: u8, b2: u8, b3: u8) -> u8 {
    mul13(b0) ^ mul9(b1) ^ mul14(b2) ^ mul11(b3)
}

/// Row 3 of the inverse mixing matrix: 11 13 9 14.
pub open spec fn imc3(b0: u8, b1: u8, b2: u8, b3: u8) -> u8 {
    mul11(b0) ^ mul13(b1) ^ mul9(b2) ^ mul14(b3)
}

/// The inverse mixing matrix really is the inverse of the forward one:
/// applied to a mixed column it restores the original four bytes.
#[verifier::rlimit(100)]
pub proof fn lemma_mix_col_inverse(a0: u8, a1: u8, a2: u8, a3: u8)
    ensures
        imc0(mc0(a0, a1, a2, a3), mc1(a0, a1, a2, a3), mc2(a0, a1, a2, a3), mc3(a0, a1, a2, a3))
            == a0,
        imc1(mc0(a0, a1, a2, a3), mc1(a0, a1, a2, a3), mc2(a0, a1, a2, a3), mc3(a0, a1, a2, a3))
            == a1,
        imc2(mc0(a0, a1, a2, a3), mc1(a0, a1, a2, a3), mc2(a0, a1, a2, a3), mc3(a0, a1, a2, a3))
            == a2,
        imc3(mc0(a0, a1, a2, a3), mc1(a0, a1, a2, a3), mc2(a0, a1, a2, a3), mc3(a0, a1, a2, a3))
            == a3,
{
    let xa0 = xtime(a0);
    let xa1 = xtime(a1);
    let xa2 = xtime(a2);
    let xa3 = xtime(a3);
    let b0 = mc0(a0, a1, a2, a3);
    let b1 = mc1(a0, a1, a2, a3);
    let b2 = mc2(a0, a1, a2, a3);
    let b3 = mc3(a0, a1, a2, a3);
    let x10 = xtime(b0);
    let x20 = xtime(x10);
    let x30 = xtime(x20);
    let x11 = xtime(b1);
    let x21 = xtime(x11);
    let x31 = xtime(x21);
    let x12 = xtime(b2);
    let x22 = xtime(x12);
    let x32 = xtime(x22);
    let x13 = xtime(b3);
    let x23 = xtime(x13);
    let x33 = xtime(x23);
    assert(x30 ^ x20 ^ x10 ^ (x31 ^ x11 ^ b1) ^ (x32 ^ x22 ^ b2) ^ (x33 ^ b3) == a0 && (x30 ^ b0)
        ^ (x31 ^ x21 ^ x11) ^ (x32 ^ x12 ^ b2) ^ (x33 ^ x23 ^ b3) == a1 && (x30 ^ x20 ^ b0) ^ (x31
        ^ b1) ^ (x32 ^ x22 ^ x12) ^ (x33 ^ x13 ^ b3) == a2 && (x30 ^ x10 ^ b0) ^ (x31 ^ x21 ^ b1)
        ^ (x32 ^ b2) ^ (x33 ^ x23 ^ x13) == a3) by (bit_vector)
        requires
            xa0 == xtime(a0),
            xa1 == xtime(a1),
            xa2 == xtime(a2),
            xa3 == xtime(a3),
            b0 == xa0 ^ (xa1 ^ a1) ^ a2 ^ a3,
            b1 == a0 ^ xa1 ^ (xa2 ^ a2) ^ a3,
            b2 == a0 ^ a1 ^ xa2 ^ (xa3 ^ a3),
            b3 == (xa0 ^ a0) ^ a1 ^ a2 ^ xa3,
            x10 == xtime(b0),
            x20 == xtime(x10),
            x30 == xtime(x20),
            x11 == xtime(b1),
            x21 == xtime(x11),
            x31 == xtime(x21),
            x12 == xtime(b2),
            x22 == xtime(x12),
            x32 == xtime(x22),
            x13 == xtime(b3),
            x23 == xtime(x13),
            x33 == xtime(x23),
    ;
}

/// XOR with the same byte twice gives the original byte back.
pub proof fn lemma_xor_cancel(a: u8, b: u8)
    ensures
        (a ^ b) ^ b == a,
{
    assert((a ^ b) ^ b == a) by (bit_vector);
}

/// The shift-and-add sum for multiplier `b` over the multiplicand's already
/// computed multiples `t0 .. t7` by the powers of x.
pub open spec fn mul_sum(
    b: u8,
    t0: u8,
    t1: u8,
    t2: u8,
    t3: u8,
    t4: u8,
    t5: u8,
    t6: u8,
    t7: u8,
) -> u8 {
    (if b & 1 == 1 {
        t0
    } else {
        0
    }) ^ (if (b >> 1) & 1 == 1 {
        t1
    } else {
        0
    }) ^ (if (b >> 2) & 1 == 1 {
        t2
    } else {
        0
    }) ^ (if (b >> 3) & 1 == 1 {
        t3
    } else {
        0
    }) ^ (if (b >> 4) & 1 == 1 {
        t4
    } else {
        0
    }) ^ (if (b >> 5) & 1 == 1 {
        t5
    } else {
        0
    }) ^ (if (b >> 6) & 1 == 1 {
        t6
    } else {
        0
    }) ^ (if (b >> 7) & 1 == 1 {
        t7
    } else {
        0
    })
}

/// Multiplication in GF(2^8): the sum, over the set bits `i` of `b`, of `a`
/// multiplied by x^i.
pub open spec fn gf_mul_s(a: u8, b: u8) -> u8 {
    let x1 = xtime(a);
    let x2 = xtime(x1);
    let x3 = xtime(x2);
    let x4 = xtime(x3);
    let x5 = xtime(x4);
    let x6 = xtime(x5);
    let x7 = xtime(x6);
    mul_sum(b, a, x1, x2, x3, x4, x5, x6, x7)
}

/// Multiplication in GF(2^8), the carry-less shift-and-add schoolbook form.
pub fn gf_mul(a: u8, b: u8) -> (r: u8)
    ensures
        r == gf_mul_s(a, b),
{
    let x1 = xtime_exec(a);
    let x2 = xtime_exec(x1);
    let x3 = xtime_exec(x2);
    let x4 = xtime_exec(x3);
    let x5 = xtime_exec(x4);
    let x6 = xtime_exec(x5);
    let x7 = xtime_exec(x6);
    (if b & 1 == 1 {
        a
    } else {
        0
    }) ^ (if (b >> 1) & 1 == 1 {
        x1
    } else {
        0
    }) ^ (if (b >> 2) & 1 == 1 {
        x2
    } else {
        0
    }) ^ (if (b >> 3) & 1 == 1 {
        x3
    } else {
        0
    }) ^ (if (b >> 4) & 1 == 1 {
        x4
    } else {
        0
    }) ^ (if (b >> 5) & 1 == 1 {
        x5
    } else {
        0
    }) ^ (if (b >> 6) & 1 == 1 {
        x6
    } else {
        0
    }) ^ (if (b >> 7) & 1 == 1 {
        x7
    } else {
        0
    })
}

/// Multiplication is commutative.
pub proof fn lemma_gf_mul_comm(a: u8, b: u8)
    ensures
        gf_mul_s(a, b) == gf_mul_s(b, a),
{
    let xa_1 = xtime(a);
    let xa_2 = xtime(xa_1);
    let xa_3 = xtime(xa_2);
    let xa_4 = xtime(xa_3);
    let xa_5 = xtime(xa_4);
    let xa_6 = xtime(xa_5);
    let xa_7 = xtime(xa_6);
    let xb_1 = xtime(b);
    let xb_2 = xtime(xb_1);
    let xb_3 = xtime(xb_2);
    let xb_4 = xtime(xb_3);
    let xb_5 = xtime(xb_4);
    let xb_6 = xtime(xb_5);
    let xb_7 = xtime(xb_6);
    assert(gf_mul_s(a, b) == mul_sum(b, a, xa_1, xa_2, xa_3, xa_4, xa_5, xa_6, xa_7));
    assert(gf_mul_s(b, a) == mul_sum(a, b, xb_1, xb_2, xb_3, xb_4, xb_5, xb_6, xb_7));
    assert(mul_sum(b, a, xa_1, xa_2, xa_3, xa_4, xa_5, xa_6, xa_7) == mul_sum(
        a,
        b,
        xb_1,
        xb_2,
        xb_3,
        xb_4,
        xb_5,
        xb_6,
        xb_7,
    )) by (bit_vector)
        requires
            xa_1 == xtime(a),
            xa_2 == xtime(xa_1),
            xa_3 == xtime(xa_2),
            xa_4 == xtime(xa_3),
            xa_5 == xtime(xa_4),
            xa_6 == xtime(xa_5),
            xa_7 == xtime(xa_6),
            xb_1 == xtime(b),
            xb_2 == xtime(xb_1),
            xb_3 == xtime(xb_2),
            xb_4 == xtime(xb_3),
            xb_5 == xtime(xb_4),
            xb_6 == xtime(xb_5),
            xb_7 == xtime(xb_6),
    ;
}

/// Multiplication distributes over XOR, the field's addition.
pub proof fn lemma_gf_mul_linear(a: u8, b: u8, c: u8)
    ensures
        gf_mul_s(a, b ^ c) == gf_mul_s(a, b) ^ gf_mul_s(a, c),
{
    let xa_1 = xtime(a);
    let xa_2 = xtime(xa_1);
    let xa_3 = xtime(xa_2);
    let xa_4 = xtime(xa_3);
    let xa_5 = xtime(xa_4);
    let xa_6 = xtime(xa_5);
    let xa_7 = xtime(xa_6);
    assert(gf_mul_s(a, b ^ c) == mul_sum(b ^ c, a, xa_1, xa_2, xa_3, xa_4, xa_5, xa_6, xa_7));
    assert(gf_mul_s(a, b) == mul_sum(b, a, xa_1, xa_2, xa_3, xa_4, xa_5, xa_6, xa_7));
    assert(gf_mul_s(a, c) == mul_sum(c, a, xa_1, xa_2, xa_3, xa_4, xa_5, xa_6, xa_7));
    assert(mul_sum(b ^ c, a, xa_1, xa_2, xa_3, xa_4, xa_5, xa_6, xa_7) == mul_sum(
        b,
        a,
        xa_1,
        xa_2,
        xa_3,
        xa_4,
        xa_5,
        xa_6,
        xa_7,
    ) ^ mul_sum(c, a, xa_1, xa_2, xa_3, xa_4, xa_5, xa_6, xa_7)) by (bit_vector);
}

/// The field has no zero divisors.
#[verifier::rlimit(100)]
pub proof fn lemma_gf_no_zero_divisors(a: u8, d: u8)
    ensures
        a != 0 && d != 0 ==> gf_mul_s(a, d) != 0,
{
    let xa_1 = xtime(a);
    let xa_2 = xtime(xa_1);
    let xa_3 = xtime(xa_2);
    let xa_4 = xtime(xa_3);
    let xa_5 = xtime(xa_4);
    let xa_6 = xtime(xa_5);
    let xa_7 = xtime(xa_6);
    assert(gf_mul_s(a, d) == mul_sum(d, a, xa_1, xa_2, xa_3, xa_4, xa_5, xa_6, xa_7));
    assert(a != 0 && d != 0 ==> mul_sum(d, a, xa_1, xa_2, xa_3, xa_4, xa_5, xa_6, xa_7) != 0)
        by (bit_vector)
        requires
            xa_1 == xtime(a),
            xa_2 == xtime(xa_1),
            xa_3 == xtime(xa_2),
            xa_4 == xtime(xa_3),
            xa_5 == xtime(xa_4),
            xa_6 == xtime(xa_5),
            xa_7 == xtime(xa_6),
    ;
}

/// Multiplication by a nonzero element can be cancelled.
pub proof fn lemma_gf_cancel(a: u8, b: u8, c: u8)
    requires
        a != 0,
        gf_mul_s(a, b) == gf_mul_s(a, c),
    ensures
        b == c,
{
    lemma_gf_mul_linear(a, b, c);
    let u = gf_mul_s(a, b);
    let v = gf_mul_s(a, c);
    assert(u ^ v == 0) by (bit_vector)
        requires
            u == v,
    ;
    lemma_gf_no_zero_divisors(a, b ^ c);
    assert(b ^ c == 0 ==> b == c) by (bit_vector);
}

/// The first candidate at or above `b` that multiplies with `a` to 1,
/// or 0 when no candidate below 256 works.
pub open spec fn inv_search(a: u8, b: int) -> u8
    decreases 256 - b,
{
    if b < 1 || b >= 256 {
        0
    } else if gf_mul_s(a, b as u8) == 1 {
        b as u8
    } else {
        inv_search(a, b + 1)
    }
}

/// Multiplicative inverse in GF(2^8), with 0 mapped to 0 by convention.
pub open spec fn gf_inv_s(a: u8) -> u8 {
    if a == 0 {
        0
    } else {
        inv_search(a, 1)
    }
}

/// Multiplicative inverse by exhaustive search over the 255 candidates.
pub fn gf_inv(a: u8) -> (r: u8)
    ensures
        r == gf_inv_s(a),
        a == 0 ==> r == 0,
{
    if a == 0 {
        return 0;
    }
    let mut b: usize = 1;
    while b < 256
        invariant
            a != 0,
            1 <= b <= 256,
            inv_search(a, 1) == inv_search(a, b as int),
        decreases 256 - b,
    {
        let p = gf_mul(a, b as u8);
        if p == 1 {
            return b as u8;
        }
        b = b + 1;
    }
    0
}

/// A nonzero search result really is an inverse: it multiplies with `a` to 1.
proof fn lemma_inv_search_mul(a: u8, b: int)
    requires
        1 <= b <= 256,
    ensures
        inv_search(a, b) != 0 ==> gf_mul_s(a, inv_search(a, b)) == 1,
    decreases 256 - b,
{
    if b < 256 && gf_mul_s(a, b as u8) != 1 {
        lemma_inv_search_mul(a, b + 1);
    }
}

/// What `gf_inv_s` returns is a multiplicative inverse whenever it is
/// nonzero.
pub proof fn lemma_gf_inv_mul(a: u8)
    ensures
        gf_inv_s(a) != 0 ==> gf_mul_s(a, gf_inv_s(a)) == 1,
{
    if a != 0 {
        lemma_inv_search_mul(a, 1);
    }
}

} // verus!
