//! A verified AES block-cipher engine: GF(2^8) arithmetic, substitution
//! tables, key-schedule expansion, the forward and inverse round pipelines,
//! single-block operations, and a whole-buffer codec with PKCS#7 padding.
//!
//! Blocks are processed independently (an ECB-equivalent mode): the cipher
//! deliberately offers no chaining and is not semantically secure against
//! pattern leakage across blocks.
pub mod block;
pub mod cipher;
pub mod codec;
pub mod gf;
pub mod key;
pub mod rounds;
pub mod schedule;
pub mod tables;
