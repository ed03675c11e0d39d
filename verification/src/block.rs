//! One whole block transform: the initial key addition, Nr - 1 full rounds,
//! and the final round without column mixing — and the proof that the
//! inverse pipeline undoes the forward one.
use vstd::prelude::*;

use crate::rounds::add_round_key_s;
use crate::rounds::inv_mix_columns_s;
use crate::rounds::inv_shift_rows_s;
use crate::rounds::lemma_ark_cancel;
use crate::rounds::lemma_mix_cancel;
use crate::rounds::lemma_shift_cancel;
use crate::rounds::lemma_sub_cancel;
use crate::rounds::mix_columns_s;
use crate::rounds::shift_rows_s;
use crate::rounds::sub_bytes_s;
use crate::schedule::ks_bytes;
use crate::schedule::nr_of;
use crate::tables::wf_tables;

verus! {

/// The 16 round-key bytes of round `r`.
pub open spec fn rk_slice(rk: Seq<u8>, r: int) -> Seq<u8> {
    rk.subrange(16 * r, 16 * r + 16)
}

/// The full forward rounds `r .. nr`, each one substitution, shift, mix and
/// key addition.
pub open spec fn enc_loop_s(sb: Seq<u8>, rk: Seq<u8>, nr: int, st: Seq<u8>, r: int) -> Seq<u8>
    decreases nr - r,
{
    if r >= nr {
        st
    } else {
        enc_loop_s(
            sb,
            rk,
            nr,
            add_round_key_s(mix_columns_s(shift_rows_s(sub_bytes_s(sb, st))), rk_slice(rk, r)),
            r + 1,
        )
    }
}

/// Encrypt one 16-byte block.
pub open spec fn enc_block_s(sb: Seq<u8>, rk: Seq<u8>, nr: int, b: Seq<u8>) -> Seq<u8> {
    add_round_key_s(
        shift_rows_s(
            sub_bytes_s(sb, enc_loop_s(sb, rk, nr, add_round_key_s(b, rk_slice(rk, 0)), 1)),
        ),
        rk_slice(rk, nr),
    )
}

/// The inverse rounds `r` down to 1: key addition, inverse mix, inverse
/// shift, inverse substitution each.
pub open spec fn dec_loop_s(si: Seq<u8>, rk: Seq<u8>, st: Seq<u8>, r: int) -> Seq<u8>
    decreases r,
{
    if r <= 0 {
        st
    } else {
        dec_loop_s(
            si,
            rk,
            sub_bytes_s(si, inv_shift_rows_s(inv_mix_columns_s(add_round_key_s(st, rk_slice(rk, r))))),
            r - 1,
        )
    }
}

/// Decrypt one 16-byte block: undo the final round, run the inverse rounds,
/// undo the initial key addition.
pub open spec fn dec_block_s(si: Seq<u8>, rk: Seq<u8>, nr: int, c: Seq<u8>) -> Seq<u8> {
    add_round_key_s(
        dec_loop_s(
            si,
            rk,
            sub_bytes_s(si, inv_shift_rows_s(add_round_key_s(c, rk_slice(rk, nr)))),
            nr - 1,
        ),
        rk_slice(rk, 0),
    )
}

/// The forward round loop keeps the state at 16 bytes.
pub proof fn lemma_enc_loop_len(sb: Seq<u8>, rk: Seq<u8>, nr: int, st: Seq<u8>, r: int)
    requires
        st.len() == 16,
    ensures
        enc_loop_s(sb, rk, nr, st, r).len() == 16,
    decreases nr - r,
{
    if r >= nr {
    } else {
        lemma_enc_loop_len(
            sb,
            rk,
            nr,
            add_round_key_s(mix_columns_s(shift_rows_s(sub_bytes_s(sb, st))), rk_slice(rk, r)),
            r + 1,
        );
    }
}

/// Running the inverse rounds `nr - 1` down to 1 on the output of the
/// forward rounds `r .. nr` is the same as running them `r - 1` down to 1 on
/// the input: each inverse round peels one forward round.
proof fn lemma_loop_round_trip(sb: Seq<u8>, si: Seq<u8>, rk: Seq<u8>, nr: int, st: Seq<u8>, r: int)
    requires
        wf_tables(sb, si),
        st.len() == 16,
        1 <= r <= nr,
    ensures
        dec_loop_s(si, rk, enc_loop_s(sb, rk, nr, st, r), nr - 1) == dec_loop_s(si, rk, st, r - 1),
    decreases nr - r,
{
    if r == nr {
    } else {
        let st1 = add_round_key_s(
            mix_columns_s(shift_rows_s(sub_bytes_s(sb, st))),
            rk_slice(rk, r),
        );
        lemma_loop_round_trip(sb, si, rk, nr, st1, r + 1);
        lemma_ark_cancel(mix_columns_s(shift_rows_s(sub_bytes_s(sb, st))), rk_slice(rk, r));
        lemma_mix_cancel(shift_rows_s(sub_bytes_s(sb, st)));
        lemma_shift_cancel(sub_bytes_s(sb, st));
        lemma_sub_cancel(sb, si, st);
    }
}

/// Decrypting an encrypted block under the same schedule and a valid table
/// pair gives the block back.
pub proof fn lemma_block_round_trip(sb: Seq<u8>, si: Seq<u8>, rk: Seq<u8>, nr: int, b: Seq<u8>)
    requires
        wf_tables(sb, si),
        b.len() == 16,
        1 <= nr,
    ensures
        dec_block_s(si, rk, nr, enc_block_s(sb, rk, nr, b)) == b,
{
    let st0 = add_round_key_s(b, rk_slice(rk, 0));
    let e = enc_loop_s(sb, rk, nr, st0, 1);
    lemma_enc_loop_len(sb, rk, nr, st0, 1);
    lemma_ark_cancel(shift_rows_s(sub_bytes_s(sb, e)), rk_slice(rk, nr));
    lemma_shift_cancel(sub_bytes_s(sb, e));
    lemma_sub_cancel(sb, si, e);
    lemma_loop_round_trip(sb, si, rk, nr, st0, 1);
    lemma_ark_cancel(b, rk_slice(rk, 0));
}

/// The block round trip stated over a key of any of the three sizes: under
/// the schedule expanded from the key, decryption undoes encryption on every
/// 16-byte block.
pub proof fn lemma_key_block_round_trip(sb: Seq<u8>, si: Seq<u8>, kb: Seq<u8>, b: Seq<u8>)
    requires
        wf_tables(sb, si),
        kb.len() == 16 || kb.len() == 24 || kb.len() == 32,
        b.len() == 16,
    ensures
        dec_block_s(si, ks_bytes(sb, kb), nr_of(kb), enc_block_s(sb, ks_bytes(sb, kb), nr_of(kb), b))
            == b,
{
    lemma_block_round_trip(sb, si, ks_bytes(sb, kb), nr_of(kb), b);
}

} // verus!
