//! Tests of the AES engine: the FIPS-197 known-answer vectors, round trips
//! at block and buffer level, the substitution-table pairing, the
//! key-schedule length, and the error paths.
use aes_engine::cipher::Aes;
use aes_engine::key::pad_key;
use aes_engine::key::AesError;
use aes_engine::key::AesKey;
use aes_engine::schedule::expand_key;
use aes_engine::tables::build_tables;

fn hex(s: &str) -> Vec<u8> {
    let chars: Vec<char> = s.chars().collect();
    chars.chunks(2).map(|c| u8::from_str_radix(&String::from_iter(c.iter()), 16).unwrap()).collect()
}

fn key_from(bytes: Vec<u8>) -> AesKey {
    AesKey::from_bytes(&bytes).unwrap()
}

#[test]
fn kat_aes128_zero_key_zero_block() {
    let cipher = Aes::new(&key_from(vec![0u8; 16]));
    let c = cipher.encrypt_block(&vec![0u8; 16]);
    assert_eq!(c, hex("66e94bd4ef8a2c3b884cfa59ca342b2e"));
}

#[test]
fn kat_aes128_fips_appendix_c() {
    let cipher = Aes::new(&key_from(hex("000102030405060708090a0b0c0d0e0f")));
    let c = cipher.encrypt_block(&hex("00112233445566778899aabbccddeeff"));
    assert_eq!(c, hex("69c4e0d86a7b0430d8cdb78070b4c55a"));
    let p = cipher.decrypt_block(&hex("69c4e0d86a7b0430d8cdb78070b4c55a"));
    assert_eq!(p, hex("00112233445566778899aabbccddeeff"));
}

#[test]
fn kat_aes192_fips_appendix_c() {
    let cipher = Aes::new(&key_from(hex("000102030405060708090a0b0c0d0e0f1011121314151617")));
    let c = cipher.encrypt_block(&hex("00112233445566778899aabbccddeeff"));
    assert_eq!(c, hex("dda97ca4864cdfe06eaf70a0ec0d7191"));
    let p = cipher.decrypt_block(&hex("dda97ca4864cdfe06eaf70a0ec0d7191"));
    assert_eq!(p, hex("00112233445566778899aabbccddeeff"));
}

#[test]
fn kat_aes256_fips_appendix_c() {
    let cipher = Aes::new(
        &key_from(hex("000102030405060708090a0b0c0d0e0f101112131415161718191a1b1c1d1e1f")),
    );
    let c = cipher.encrypt_block(&hex("00112233445566778899aabbccddeeff"));
    assert_eq!(c, hex("8ea2b7ca516745bfeafc49904b496089"));
    let p = cipher.decrypt_block(&hex("8ea2b7ca516745bfeafc49904b496089"));
    assert_eq!(p, hex("00112233445566778899aabbccddeeff"));
}

#[test]
fn block_round_trip_all_key_sizes() {
    let block: Vec<u8> = (0u8..16u8).map(|i| i.wrapping_mul(37).wrapping_add(11)).collect();
    for key_len in [16usize, 24, 32] {
        let kb: Vec<u8> = (0..key_len).map(|i| (i as u8).wrapping_mul(7).wrapping_add(3)).collect();
        let cipher = Aes::new(&key_from(kb));
        let c = cipher.encrypt_block(&block);
        assert_ne!(c, block);
        assert_eq!(cipher.decrypt_block(&c), block);
    }
}

#[test]
fn buffer_round_trip_many_lengths() {
    for key_len in [16usize, 24, 32] {
        let kb: Vec<u8> = (0..key_len).map(|i| (i as u8).wrapping_mul(31).wrapping_add(5)).collect();
        let cipher = Aes::new(&key_from(kb));
        for n in [0usize, 1, 15, 16, 17, 32, 33, 100] {
            let plain: Vec<u8> = (0..n).map(|i| (i as u8).wrapping_mul(13)).collect();
            let c = cipher.encrypt(&plain);
            assert_eq!(c.len(), (n / 16 + 1) * 16);
            assert_eq!(cipher.decrypt(&c), Ok(plain));
        }
    }
}

#[test]
fn ecb_identical_blocks_give_identical_cipher_blocks() {
    let cipher = Aes::new(&key_from(hex("000102030405060708090a0b0c0d0e0f")));
    let mut plain = vec![0xabu8; 16];
    plain.extend_from_slice(&[0xab; 16]);
    let c = cipher.encrypt(&plain);
    assert_eq!(c.len(), 48);
    assert_eq!(c[0..16], c[16..32]);
}

#[test]
fn malformed_length_is_rejected_without_output() {
    let cipher = Aes::new(&key_from(vec![0u8; 16]));
    assert_eq!(cipher.decrypt(&vec![]), Err(AesError::MalformedInput));
    assert_eq!(cipher.decrypt(&vec![1u8; 15]), Err(AesError::MalformedInput));
    assert_eq!(cipher.decrypt(&vec![1u8; 17]), Err(AesError::MalformedInput));
    assert_eq!(cipher.decrypt(&vec![1u8; 31]), Err(AesError::MalformedInput));
}

#[test]
fn malformed_padding_is_rejected() {
    let cipher = Aes::new(&key_from(vec![7u8; 16]));
    // A block that decrypts to a pad count of zero.
    let zero_pad = cipher.encrypt_block(&vec![0u8; 16]);
    assert_eq!(cipher.decrypt(&zero_pad), Err(AesError::MalformedInput));
    // A block that decrypts to a pad count of 17.
    let too_long = cipher.encrypt_block(&vec![0x11u8; 16]);
    assert_eq!(cipher.decrypt(&too_long), Err(AesError::MalformedInput));
    // A block whose trailing bytes disagree with the pad count.
    let mut inconsistent_plain = vec![0u8; 16];
    inconsistent_plain[15] = 2;
    let inconsistent = cipher.encrypt_block(&inconsistent_plain);
    assert_eq!(cipher.decrypt(&inconsistent), Err(AesError::MalformedInput));
}

#[test]
fn full_pad_block_decrypts_to_empty() {
    let cipher = Aes::new(&key_from(vec![7u8; 16]));
    let full_pad = cipher.encrypt_block(&vec![0x10u8; 16]);
    assert_eq!(cipher.decrypt(&full_pad), Ok(vec![]));
    assert_eq!(cipher.encrypt(&vec![]), full_pad);
}

#[test]
fn substitution_tables_pair_up() {
    let (s, si) = build_tables();
    assert_eq!(s.len(), 256);
    assert_eq!(si.len(), 256);
    for x in 0..256usize {
        assert_eq!(si[s[x] as usize] as usize, x);
        assert_eq!(s[si[x] as usize] as usize, x);
    }
    // Spot values of the standard S-box.
    assert_eq!(s[0], 0x63);
    assert_eq!(s[1], 0x7c);
    assert_eq!(s[0x53], 0xed);
    assert_eq!(si[0x63], 0x00);
}

#[test]
fn key_schedule_lengths() {
    let (s, _) = build_tables();
    assert_eq!(expand_key(&s, &key_from(vec![0u8; 16])).len(), 16 * 11);
    assert_eq!(expand_key(&s, &key_from(vec![0u8; 24])).len(), 16 * 13);
    assert_eq!(expand_key(&s, &key_from(vec![0u8; 32])).len(), 16 * 15);
}

#[test]
fn key_schedule_fips_example() {
    let (s, _) = build_tables();
    let rk = expand_key(&s, &key_from(hex("2b7e151628aed2a6abf7158809cf4f3c")));
    // Word 4 of the FIPS-197 Appendix A.1 expansion.
    assert_eq!(&rk[16..20], &hex("a0fafe17")[..]);
    // Word 43, the last word.
    assert_eq!(&rk[172..176], &hex("b6630ca6")[..]);
}

#[test]
fn invalid_key_sizes_are_rejected() {
    for n in [0usize, 1, 8, 15, 17, 23, 25, 31, 33, 64] {
        assert!(matches!(AesKey::from_bytes(&vec![0u8; n]), Err(AesError::InvalidKeySize)));
    }
    assert!(AesKey::from_bytes(&vec![0u8; 16]).is_ok());
    assert!(AesKey::from_bytes(&vec![0u8; 24]).is_ok());
    assert!(AesKey::from_bytes(&vec![0u8; 32]).is_ok());
}

#[test]
fn pad_key_truncates_or_zero_extends() {
    let long: Vec<u8> = (1u8..=20u8).collect();
    let r = pad_key(&long, 16);
    assert_eq!(r, (1u8..=16u8).collect::<Vec<u8>>());
    let short = vec![9u8, 8, 7];
    let r2 = pad_key(&short, 16);
    assert_eq!(&r2[0..3], &[9, 8, 7]);
    assert_eq!(&r2[3..16], &[0u8; 13]);
    assert_eq!(r2.len(), 16);
}
