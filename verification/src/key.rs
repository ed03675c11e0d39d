//! Keys and the engine's error type.
//!
//! A key is a tagged variant selecting the 128-, 192- or 256-bit cipher; its
//! byte length must match the tag exactly — the engine never pads or
//! truncates key material itself.
use vstd::prelude::*;

verus! {

/// The two recoverable failures the engine can report.
#[derive(Clone, Copy, Debug, PartialEq, Eq, Structural)]
pub enum AesError {
    /// A key was requested from a byte string whose length is not 16, 24 or 32.
    InvalidKeySize,
    /// A buffer handed to decryption is not a whole number of blocks, or its
    /// recovered padding is not valid.
    MalformedInput,
}

/// A cipher key: 16, 24 or 32 bytes, selecting 10, 12 or 14 rounds.
pub enum AesKey {
    AesKey128(Vec<u8>),
    AesKey192(Vec<u8>),
    AesKey256(Vec<u8>),
}

impl View for AesKey {
    type V = Seq<u8>;

    open spec fn view(&self) -> Seq<u8> {
        match self {
            AesKey::AesKey128(v) => v@,
            AesKey::AesKey192(v) => v@,
            AesKey::AesKey256(v) => v@,
        }
    }
}

impl AesKey {
    /// The byte length matches the variant tag.
    pub open spec fn wf(&self) -> bool {
        match self {
            AesKey::AesKey128(v) => v@.len() == 16,
            AesKey::AesKey192(v) => v@.len() == 24,
            AesKey::AesKey256(v) => v@.len() == 32,
        }
    }

    /// Build a key from raw bytes; only the three exact lengths are accepted.
    pub fn from_bytes(b: &Vec<u8>) -> (r: Result<AesKey, AesError>)
        ensures
            match r {
                Ok(k) => (b@.len() == 16 || b@.len() == 24 || b@.len() == 32) && k.wf() && k@
                    == b@,
                Err(e) => !(b@.len() == 16 || b@.len() == 24 || b@.len() == 32) && e
                    == AesError::InvalidKeySize,
            },
    {
        let n = b.len();
        if n != 16 && n != 24 && n != 32 {
            return Err(AesError::InvalidKeySize);
        }
        let mut v: Vec<u8> = Vec::new();
        let mut i: usize = 0;
        while i < n
            invariant
                i <= n,
                n == b@.len(),
                v@.len() == i,
                forall|j: int| 0 <= j < i ==> v@[j] == b@[j],
            decreases n - i,
        {
            v.push(b[i]);
            i = i + 1;
        }
        proof {
            assert(v@ =~= b@);
        }
        if n == 16 {
            Ok(AesKey::AesKey128(v))
        } else if n == 24 {
            Ok(AesKey::AesKey192(v))
        } else {
            Ok(AesKey::AesKey256(v))
        }
    }
}

/// Normalize raw key material to exactly `key_size` bytes: keep a long
/// input's prefix, extend a short one with zero bytes.
pub fn pad_key(key: &Vec<u8>, key_size: usize) -> (r: Vec<u8>)
    ensures
        r@.len() == key_size,
        forall|i: int|
            0 <= i < key_size ==> r@[i] == (if i < key@.len() {
                key@[i]
            } else {
                0u8
            }),
{
    let mut r: Vec<u8> = Vec::new();
    let mut i: usize = 0;
    while i < key_size
        invariant
            i <= key_size,
            r@.len() == i,
            forall|j: int|
                0 <= j < i ==> r@[j] == (if j < key@.len() {
                    key@[j]
                } else {
                    0u8
                }),
        decreases key_size - i,
    {
        if i < key.len() {
            r.push(key[i]);
        } else {
            r.push(0u8);
        }
        i = i + 1;
    }
    r
}

} // verus!
