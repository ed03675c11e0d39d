//! The block cipher object: substitution tables plus the expanded round-key
//! schedule for one key, with the single-block operations.
use vstd::prelude::*;

use crate::block::dec_block_s;
use crate::block::enc_block_s;
use crate::block::enc_loop_s;
use crate::block::dec_loop_s;
use crate::block::rk_slice;
use crate::key::AesKey;
use crate::rounds::add_round_key;
use crate::rounds::add_round_key_s;
use crate::rounds::inv_mix_columns;
use crate::rounds::inv_shift_rows;
use crate::rounds::mix_columns;
use crate::rounds::shift_rows;
use crate::rounds::sub_bytes;
use crate::schedule::expand_key;
use crate::schedule::ks_bytes;
use crate::schedule::nr_of;
use crate::block::lemma_block_round_trip;
use crate::tables::build_tables;
use crate::tables::inv_sbox_table;
use crate::tables::sbox_table;
use crate::tables::wf_tables;

verus! {

/// A ready-to-use cipher: the table pair and the schedule expanded from one
/// key.  The schedule is built once at construction and never mutated.
pub struct Aes {
    sbox: Vec<u8>,
    inv_sbox: Vec<u8>,
    round_keys: Vec<u8>,
    nr: usize,
}

impl Aes {
    /// The forward substitution table.
    pub closed spec fn sb(&self) -> Seq<u8> {
        self.sbox@
    }

    /// The inverse substitution table.
    pub closed spec fn si(&self) -> Seq<u8> {
        self.inv_sbox@
    }

    /// The expanded round-key bytes.
    pub closed spec fn rks(&self) -> Seq<u8> {
        self.round_keys@
    }

    /// The round count.
    pub closed spec fn nrr(&self) -> int {
        self.nr as int
    }

    /// A usable cipher: a valid table pair, a supported round count, and a
    /// schedule of the matching length.
    pub closed spec fn wf(&self) -> bool {
        &&& wf_tables(self.sbox@, self.inv_sbox@)
        &&& (self.nr == 10 || self.nr == 12 || self.nr == 14)
        &&& self.round_keys@.len() == 16 * (self.nr + 1)
    }

    /// What well-formedness gives a caller outside this module.
    pub proof fn lemma_wf_facts(&self)
        requires
            self.wf(),
        ensures
            wf_tables(self.sb(), self.si()),
            self.nrr() == 10 || self.nrr() == 12 || self.nrr() == 14,
            self.rks().len() == 16 * (self.nrr() + 1),
    {
    }

    /// Construction is deterministic: two ciphers whose contracts pin them to
    /// the same key hold the same tables, the same schedule and the same
    /// round count, so their encryptions and decryptions agree everywhere.
    pub proof fn lemma_new_deterministic(c1: Aes, c2: Aes, kb: Seq<u8>)
        requires
            c1.wf(),
            c2.wf(),
            forall|j: int| 0 <= j < 256 ==> c1.sb()[j] == sbox_table(j),
            forall|j: int| 0 <= j < 256 ==> c1.si()[j] == inv_sbox_table(j),
            forall|j: int| 0 <= j < 256 ==> c2.sb()[j] == sbox_table(j),
            forall|j: int| 0 <= j < 256 ==> c2.si()[j] == inv_sbox_table(j),
            c1.rks() == ks_bytes(c1.sb(), kb),
            c2.rks() == ks_bytes(c2.sb(), kb),
            c1.nrr() == nr_of(kb),
            c2.nrr() == nr_of(kb),
        ensures
            c1.sb() == c2.sb(),
            c1.si() == c2.si(),
            c1.rks() == c2.rks(),
            c1.nrr() == c2.nrr(),
    {
        assert forall|j: int| 0 <= j < 256 implies c1.sb()[j] == c2.sb()[j] by {
            assert(c1.sb()[j] == sbox_table(j));
            assert(c2.sb()[j] == sbox_table(j));
        }
        assert forall|j: int| 0 <= j < 256 implies c1.si()[j] == c2.si()[j] by {
            assert(c1.si()[j] == inv_sbox_table(j));
            assert(c2.si()[j] == inv_sbox_table(j));
        }
        assert(c1.sb() =~= c2.sb());
        assert(c1.si() =~= c2.si());
    }

    /// Decrypting what this cipher encrypted gives the block back, for every
    /// 16-byte block: the round trip of `encrypt_block` and `decrypt_block`.
    pub proof fn lemma_cipher_block_round_trip(&self, b: Seq<u8>)
        requires
            self.wf(),
            b.len() == 16,
        ensures
            dec_block_s(self.si(), self.rks(), self.nrr(), enc_block_s(self.sb(), self.rks(), self.nrr(), b))
                == b,
    {
        lemma_block_round_trip(self.sb(), self.si(), self.rks(), self.nrr(), b);
    }

    /// Build the tables and expand the key's round-key schedule.
    pub fn new(key: &AesKey) -> (c: Aes)
        requires
            key.wf(),
        ensures
            c.wf(),
            c.rks() == ks_bytes(c.sb(), key@),
            c.nrr() == nr_of(key@),
            forall|j: int| 0 <= j < 256 ==> c.sb()[j] == sbox_table(j),
            forall|j: int| 0 <= j < 256 ==> c.si()[j] == inv_sbox_table(j),
    {
        let t = build_tables();
        let round_keys = expand_key(&t.0, key);
        let nr: usize = match key {
            AesKey::AesKey128(_) => 10,
            AesKey::AesKey192(_) => 12,
            AesKey::AesKey256(_) => 14,
        };
        Aes { sbox: t.0, inv_sbox: t.1, round_keys, nr }
    }

    /// Encrypt one 16-byte block: initial key addition, Nr - 1 full rounds,
    /// and the final round without column mixing.
    pub fn encrypt_block(&self, b: &Vec<u8>) -> (r: Vec<u8>)
        requires
            self.wf(),
            b@.len() == 16,
        ensures
            r@ == enc_block_s(self.sb(), self.rks(), self.nrr(), b@),
            r@.len() == 16,
    {
        let mut st = add_round_key(b, &self.round_keys, 0);
        let ghost st0 = st@;
        proof {
            assert(st0 == add_round_key_s(b@, rk_slice(self.round_keys@, 0)));
        }
        let mut r: usize = 1;
        while r < self.nr
            invariant
                self.wf(),
                1 <= r <= self.nr,
                st@.len() == 16,
                enc_loop_s(self.sbox@, self.round_keys@, self.nr as int, st@, r as int)
                    == enc_loop_s(self.sbox@, self.round_keys@, self.nr as int, st0, 1),
            decreases self.nr - r,
        {
            let t1 = sub_bytes(&self.sbox, &st);
            let t2 = shift_rows(&t1);
            let t3 = mix_columns(&t2);
            st = add_round_key(&t3, &self.round_keys, 16 * r);
            r = r + 1;
        }
        let t1 = sub_bytes(&self.sbox, &st);
        let t2 = shift_rows(&t1);
        add_round_key(&t2, &self.round_keys, 16 * self.nr)
    }

    /// Decrypt one 16-byte block: undo the final round, run the inverse
    /// rounds, undo the initial key addition.
    pub fn decrypt_block(&self, c: &Vec<u8>) -> (r: Vec<u8>)
        requires
            self.wf(),
            c@.len() == 16,
        ensures
            r@ == dec_block_s(self.si(), self.rks(), self.nrr(), c@),
            r@.len() == 16,
    {
        let t1 = add_round_key(c, &self.round_keys, 16 * self.nr);
        let t2 = inv_shift_rows(&t1);
        let mut st = sub_bytes(&self.inv_sbox, &t2);
        let ghost st0 = st@;
        let mut r: usize = self.nr - 1;
        while r >= 1
            invariant
                self.wf(),
                0 <= r <= self.nr - 1,
                st@.len() == 16,
                dec_loop_s(self.inv_sbox@, self.round_keys@, st@, r as int)
                    == dec_loop_s(self.inv_sbox@, self.round_keys@, st0, self.nr - 1),
            decreases r,
        {
            let u1 = add_round_key(&st, &self.round_keys, 16 * r);
            let u2 = inv_mix_columns(&u1);
            let u3 = inv_shift_rows(&u2);
            st = sub_bytes(&self.inv_sbox, &u3);
            r = r - 1;
        }
        add_round_key(&st, &self.round_keys, 0)
    }
}

} // verus!
