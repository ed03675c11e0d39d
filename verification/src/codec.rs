//! The whole-buffer codec: PKCS#7 padding, then each 16-byte block encrypted
//! or decrypted independently (an ECB-equivalent mode, deliberately without
//! chaining), and the padding stripped and validated again on the way back.
use vstd::prelude::*;
use vstd::arithmetic::div_mod::lemma_div_multiples_vanish;
use vstd::arithmetic::div_mod::lemma_mod_multiples_basic;

use crate::block::dec_block_s;
use crate::block::enc_block_s;
use crate::block::lemma_block_round_trip;
use crate::cipher::Aes;
use crate::key::AesError;
use crate::schedule::ks_bytes;
use crate::schedule::nr_of;
use crate::tables::wf_tables;

verus! {

/// How many bytes PKCS#7 appends: 1 to 16, so that the result is a whole
/// number of blocks and the count is always recoverable from the last byte.
pub open spec fn pad_len(n: int) -> int {
    16 - n % 16
}

/// The padded plaintext: the input followed by `pad_len` copies of the pad
/// count itself.
pub open spec fn pad16(s: Seq<u8>) -> Seq<u8> {
    s + Seq::new(pad_len(s.len() as int) as nat, |i: int| pad_len(s.len() as int) as u8)
}

/// Block `j` of a buffer.
pub open spec fn block_at(d: Seq<u8>, j: int) -> Seq<u8> {
    d.subrange(16 * j, 16 * j + 16)
}

/// How many whole blocks a buffer holds.
pub open spec fn num_blocks(d: Seq<u8>) -> int {
    d.len() as int / 16
}

/// Every block encrypted independently, results concatenated.
pub open spec fn ecb_enc(sb: Seq<u8>, rk: Seq<u8>, nr: int, d: Seq<u8>) -> Seq<u8> {
    Seq::new((16 * num_blocks(d)) as nat, |i: int| enc_block_s(sb, rk, nr, block_at(d, i / 16))[i % 16])
}

/// Every block decrypted independently, results concatenated.
pub open spec fn ecb_dec(si: Seq<u8>, rk: Seq<u8>, nr: int, d: Seq<u8>) -> Seq<u8> {
    Seq::new((16 * num_blocks(d)) as nat, |i: int| dec_block_s(si, rk, nr, block_at(d, i / 16))[i % 16])
}

/// Encrypt a buffer of any length: pad, then encrypt block by block.
pub open spec fn enc_buf_s(sb: Seq<u8>, rk: Seq<u8>, nr: int, p: Seq<u8>) -> Seq<u8> {
    ecb_enc(sb, rk, nr, pad16(p))
}

/// A decrypted buffer carries valid padding: it is non-empty, whole blocks,
/// its last byte names a count between 1 and 16, and that many trailing
/// bytes all equal the count.
pub open spec fn valid_pad(d: Seq<u8>) -> bool {
    &&& d.len() > 0
    &&& d.len() % 16 == 0
    &&& 1 <= d[d.len() - 1] as int <= 16
    &&& forall|i: int|
        d.len() - d[d.len() - 1] as int <= i < d.len() ==> #[trigger] d[i] == d[d.len() - 1]
}

/// Decrypt a buffer: `None` when the length is not a positive multiple of 16
/// or the recovered padding is invalid, otherwise the plaintext with the
/// padding stripped.
pub open spec fn dec_buf_s(si: Seq<u8>, rk: Seq<u8>, nr: int, c: Seq<u8>) -> Option<Seq<u8>> {
    if c.len() == 0 || c.len() % 16 != 0 {
        None
    } else {
        let d = ecb_dec(si, rk, nr, c);
        if valid_pad(d) {
            Some(d.take(d.len() - d[d.len() - 1] as int))
        } else {
            None
        }
    }
}

/// Block `j` of the blockwise encryption is the encryption of block `j`.
pub proof fn lemma_ecb_enc_block(sb: Seq<u8>, rk: Seq<u8>, nr: int, d: Seq<u8>, j: int)
    requires
        0 <= j < num_blocks(d),
    ensures
        block_at(ecb_enc(sb, rk, nr, d), j) == enc_block_s(sb, rk, nr, block_at(d, j)),
{
    assert forall|k: int| 0 <= k < 16 implies block_at(ecb_enc(sb, rk, nr, d), j)[k]
        == enc_block_s(sb, rk, nr, block_at(d, j))[k] by {
        let i = 16 * j + k;
        assert(i / 16 == j && i % 16 == k);
    }
    assert(block_at(ecb_enc(sb, rk, nr, d), j) =~= enc_block_s(sb, rk, nr, block_at(d, j)));
}

/// Block `j` of the blockwise decryption is the decryption of block `j`.
pub proof fn lemma_ecb_dec_block(si: Seq<u8>, rk: Seq<u8>, nr: int, d: Seq<u8>, j: int)
    requires
        0 <= j < num_blocks(d),
    ensures
        block_at(ecb_dec(si, rk, nr, d), j) == dec_block_s(si, rk, nr, block_at(d, j)),
{
    assert forall|k: int| 0 <= k < 16 implies block_at(ecb_dec(si, rk, nr, d), j)[k]
        == dec_block_s(si, rk, nr, block_at(d, j))[k] by {
        let i = 16 * j + k;
        assert(i / 16 == j && i % 16 == k);
    }
    assert(block_at(ecb_dec(si, rk, nr, d), j) =~= dec_block_s(si, rk, nr, block_at(d, j)));
}

/// Blocks are processed independently: equal input blocks anywhere in the
/// same buffer give equal output blocks.
pub proof fn lemma_ecb_no_chaining(sb: Seq<u8>, rk: Seq<u8>, nr: int, d: Seq<u8>, i: int, j: int)
    requires
        0 <= i < num_blocks(d),
        0 <= j < num_blocks(d),
        block_at(d, i) == block_at(d, j),
    ensures
        block_at(ecb_enc(sb, rk, nr, d), i) == block_at(ecb_enc(sb, rk, nr, d), j),
{
    lemma_ecb_enc_block(sb, rk, nr, d, i);
    lemma_ecb_enc_block(sb, rk, nr, d, j);
}

/// Decrypting an encrypted buffer under the same schedule and a valid table
/// pair gives exactly the original bytes back, for a buffer of any length.
pub proof fn lemma_buffer_round_trip(sb: Seq<u8>, si: Seq<u8>, rk: Seq<u8>, nr: int, p: Seq<u8>)
    requires
        wf_tables(sb, si),
        1 <= nr,
    ensures
        dec_buf_s(si, rk, nr, enc_buf_s(sb, rk, nr, p)) == Some(p),
{
    let n = p.len() as int;
    let pl = pad_len(n);
    let d = pad16(p);
    assert(0 <= n % 16 < 16);
    assert(1 <= pl <= 16);
    assert(d.len() == n + pl);
    let q = n / 16;
    assert(n == 16 * q + n % 16);
    assert(d.len() == 16 * (q + 1));
    lemma_mod_multiples_basic(q + 1, 16);
    assert(d.len() % 16 == 0);
    lemma_div_multiples_vanish(q + 1, 16);
    assert(num_blocks(d) == q + 1);
    let c = ecb_enc(sb, rk, nr, d);
    assert(c.len() == d.len());
    assert(c.len() % 16 == 0 && c.len() > 0);
    lemma_div_multiples_vanish(q + 1, 16);
    assert(num_blocks(c) == q + 1);
    let dd = ecb_dec(si, rk, nr, c);
    assert forall|i: int| 0 <= i < dd.len() implies dd[i] == d[i] by {
        let j = i / 16;
        assert(0 <= j < q + 1);
        lemma_ecb_dec_block(si, rk, nr, c, j);
        lemma_ecb_enc_block(sb, rk, nr, d, j);
        assert(block_at(d, j).len() == 16);
        lemma_block_round_trip(sb, si, rk, nr, block_at(d, j));
        assert(dd[i] == dec_block_s(si, rk, nr, block_at(c, j))[i % 16]);
        assert(block_at(ecb_dec(si, rk, nr, c), j)[i % 16] == dd[16 * j + i % 16]);
        assert(i == 16 * j + i % 16);
        assert(dd[i] == block_at(d, j)[i % 16]);
        assert(block_at(d, j)[i % 16] == d[16 * j + i % 16]);
    }
    assert(dd =~= d);
    assert(d[d.len() - 1] == pl as u8);
    assert(valid_pad(d)) by {
        assert forall|i: int| d.len() - pl <= i < d.len() implies #[trigger] d[i] == d[d.len()
            - 1] by {
            assert(d[i] == pl as u8);
        }
    }
    assert(d.take(d.len() - pl) =~= p);
}

/// The buffer round trip stated over a key of any of the three sizes.
pub proof fn lemma_key_buffer_round_trip(sb: Seq<u8>, si: Seq<u8>, kb: Seq<u8>, p: Seq<u8>)
    requires
        wf_tables(sb, si),
        kb.len() == 16 || kb.len() == 24 || kb.len() == 32,
    ensures
        dec_buf_s(si, ks_bytes(sb, kb), nr_of(kb), enc_buf_s(sb, ks_bytes(sb, kb), nr_of(kb), p))
            == Some(p),
{
    lemma_buffer_round_trip(sb, si, ks_bytes(sb, kb), nr_of(kb), p);
}

/// Decrypting what a cipher encrypted gives the buffer back, for a buffer of
/// any length: the round trip of the `encrypt` and `decrypt` methods.
pub proof fn lemma_cipher_buffer_round_trip(c: &Aes, p: Seq<u8>)
    requires
        c.wf(),
    ensures
        dec_buf_s(c.si(), c.rks(), c.nrr(), enc_buf_s(c.sb(), c.rks(), c.nrr(), p)) == Some(p),
{
    c.lemma_wf_facts();
    lemma_buffer_round_trip(c.sb(), c.si(), c.rks(), c.nrr(), p);
}

impl Aes {
    /// Encrypt a buffer of any length; the result is the padded input,
    /// one block at a time.
    pub fn encrypt(&self, plain: &Vec<u8>) -> (r: Vec<u8>)
        requires
            self.wf(),
            plain@.len() + 16 <= usize::MAX,
        ensures
            r@ == enc_buf_s(self.sb(), self.rks(), self.nrr(), plain@),
    {
        let n = plain.len();
        let pad: usize = 16 - (n % 16);
        let mut padded: Vec<u8> = Vec::new();
        let mut i: usize = 0;
        while i < n
            invariant
                i <= n,
                n == plain@.len(),
                padded@.len() == i,
                forall|j: int| 0 <= j < i ==> padded@[j] == plain@[j],
            decreases n - i,
        {
            padded.push(plain[i]);
            i = i + 1;
        }
        let mut t: usize = 0;
        while t < pad
            invariant
                t <= pad,
                pad == pad_len(n as int),
                n == plain@.len(),
                padded@.len() == n + t,
                forall|j: int| 0 <= j < n ==> padded@[j] == plain@[j],
                forall|j: int| n <= j < n + t ==> padded@[j] == pad as u8,
            decreases pad - t,
        {
            padded.push(pad as u8);
            t = t + 1;
        }
        proof {
            assert(padded@ =~= pad16(plain@));
            let q = n as int / 16;
            assert(n as int == 16 * q + n as int % 16);
            assert(padded@.len() == 16 * (q + 1));
            lemma_mod_multiples_basic(q + 1, 16);
            lemma_div_multiples_vanish(q + 1, 16);
            assert(num_blocks(padded@) == q + 1);
        }
        let nb = padded.len() / 16;
        proof {
            assert(16 * (nb as int) == padded@.len());
        }
        let mut out: Vec<u8> = Vec::new();
        let mut bi: usize = 0;
        while bi < nb
            invariant
                self.wf(),
                bi <= nb,
                padded@.len() == 16 * nb,
                padded@.len() <= usize::MAX,
                nb == num_blocks(padded@),
                out@.len() == 16 * bi,
                forall|j: int|
                    0 <= j < 16 * bi ==> out@[j] == ecb_enc(
                        self.sb(),
                        self.rks(),
                        self.nrr(),
                        padded@,
                    )[j],
            decreases nb - bi,
        {
            let mut blk: Vec<u8> = Vec::new();
            let mut k: usize = 0;
            while k < 16
                invariant
                    k <= 16,
                    bi < nb,
                    padded@.len() == 16 * nb,
                    padded@.len() <= usize::MAX,
                    blk@.len() == k,
                    forall|m: int| 0 <= m < k ==> blk@[m] == padded@[16 * bi + m],
                decreases 16 - k,
            {
                blk.push(padded[16 * bi + k]);
                k = k + 1;
            }
            proof {
                assert(blk@ =~= block_at(padded@, bi as int));
            }
            let cb = self.encrypt_block(&blk);
            let ghost out_old = out@;
            let mut k2: usize = 0;
            while k2 < 16
                invariant
                    k2 <= 16,
                    cb@.len() == 16,
                    out@.len() == out_old.len() + k2,
                    out@ == out_old + cb@.take(k2 as int),
                decreases 16 - k2,
            {
                out.push(cb[k2]);
                proof {
                    assert(out@ =~= out_old + cb@.take(k2 + 1));
                }
                k2 = k2 + 1;
            }
            proof {
                assert(cb@.take(16) =~= cb@);
                assert forall|j: int| 0 <= j < 16 * (bi + 1) implies out@[j] == ecb_enc(
                    self.sb(),
                    self.rks(),
                    self.nrr(),
                    padded@,
                )[j] by {
                    if j < 16 * bi {
                        assert(out@[j] == out_old[j]);
                    } else {
                        let m = j - 16 * bi;
                        assert(out@[j] == cb@[m]);
                        assert(j / 16 == bi && j % 16 == m);
                        assert(cb@ == enc_block_s(
                            self.sb(),
                            self.rks(),
                            self.nrr(),
                            block_at(padded@, bi as int),
                        ));
                    }
                }
            }
            bi = bi + 1;
        }
        proof {
            assert(out@ =~= ecb_enc(self.sb(), self.rks(), self.nrr(), padded@));
        }
        out
    }

    /// Decrypt a buffer: reject anything that is not a positive whole number
    /// of blocks, decrypt block by block, then validate and strip the
    /// padding.  Nothing is returned on failure.
    pub fn decrypt(&self, cipher: &Vec<u8>) -> (r: Result<Vec<u8>, AesError>)
        requires
            self.wf(),
        ensures
            match r {
                Ok(p) => dec_buf_s(self.si(), self.rks(), self.nrr(), cipher@) == Some(p@),
                Err(e) => dec_buf_s(self.si(), self.rks(), self.nrr(), cipher@) is None && e
                    == AesError::MalformedInput,
            },
            cipher@.len() == 0 || cipher@.len() % 16 != 0 ==> r is Err,
    {
        let n = cipher.len();
        if n == 0 || n % 16 != 0 {
            return Err(AesError::MalformedInput);
        }
        let nb = n / 16;
        proof {
            assert(16 * (nb as int) == n);
            assert(nb == num_blocks(cipher@));
        }
        let mut d: Vec<u8> = Vec::new();
        let mut bi: usize = 0;
        while bi < nb
            invariant
                self.wf(),
                bi <= nb,
                cipher@.len() == 16 * nb,
                cipher@.len() <= usize::MAX,
                nb == num_blocks(cipher@),
                d@.len() == 16 * bi,
                forall|j: int|
                    0 <= j < 16 * bi ==> d@[j] == ecb_dec(
                        self.si(),
                        self.rks(),
                        self.nrr(),
                        cipher@,
                    )[j],
            decreases nb - bi,
        {
            let mut blk: Vec<u8> = Vec::new();
            let mut k: usize = 0;
            while k < 16
                invariant
                    k <= 16,
                    bi < nb,
                    cipher@.len() == 16 * nb,
                    cipher@.len() <= usize::MAX,
                    blk@.len() == k,
                    forall|m: int| 0 <= m < k ==> blk@[m] == cipher@[16 * bi + m],
                decreases 16 - k,
            {
                blk.push(cipher[16 * bi + k]);
                k = k + 1;
            }
            proof {
                assert(blk@ =~= block_at(cipher@, bi as int));
            }
            let pb = self.decrypt_block(&blk);
            let ghost d_old = d@;
            let mut k2: usize = 0;
            while k2 < 16
                invariant
                    k2 <= 16,
                    pb@.len() == 16,
                    d@.len() == d_old.len() + k2,
                    d@ == d_old + pb@.take(k2 as int),
                decreases 16 - k2,
            {
                d.push(pb[k2]);
                proof {
                    assert(d@ =~= d_old + pb@.take(k2 + 1));
                }
                k2 = k2 + 1;
            }
            proof {
                assert(pb@.take(16) =~= pb@);
                assert forall|j: int| 0 <= j < 16 * (bi + 1) implies d@[j] == ecb_dec(
                    self.si(),
                    self.rks(),
                    self.nrr(),
                    cipher@,
                )[j] by {
                    if j < 16 * bi {
                        assert(d@[j] == d_old[j]);
                    } else {
                        let m = j - 16 * bi;
                        assert(d@[j] == pb@[m]);
                        assert(j / 16 == bi && j % 16 == m);
                        assert(pb@ == dec_block_s(
                            self.si(),
                            self.rks(),
                            self.nrr(),
                            block_at(cipher@, bi as int),
                        ));
                    }
                }
            }
            bi = bi + 1;
        }
        proof {
            assert(d@ =~= ecb_dec(self.si(), self.rks(), self.nrr(), cipher@));
        }
        let p = d[n - 1];
        if p < 1 || p > 16 {
            return Err(AesError::MalformedInput);
        }
        let pu = p as usize;
        let mut i: usize = n - pu;
        while i < n
            invariant
                d@ == ecb_dec(self.si(), self.rks(), self.nrr(), cipher@),
                d@.len() == n,
                n >= 16,
                cipher@.len() == n,
                n % 16 == 0,
                p == d@[n - 1],
                1 <= p <= 16,
                pu == p as usize,
                n - pu <= i <= n,
                forall|j: int| n - pu <= j < i ==> d@[j] == p,
            decreases n - i,
        {
            if d[i] != p {
                proof {
                    if valid_pad(d@) {
                        assert(d@[i as int] == d@[n - 1]);
                    }
                }
                return Err(AesError::MalformedInput);
            }
            i = i + 1;
        }
        let keep = n - pu;
        let mut out: Vec<u8> = Vec::new();
        let mut k: usize = 0;
        while k < keep
            invariant
                k <= keep,
                keep <= d@.len(),
                out@.len() == k,
                forall|j: int| 0 <= j < k ==> out@[j] == d@[j],
            decreases keep - k,
        {
            out.push(d[k]);
            k = k + 1;
        }
        proof {
            assert(valid_pad(d@));
            assert(out@ =~= d@.take(keep as int));
        }
        Ok(out)
    }
}

} // verus!
