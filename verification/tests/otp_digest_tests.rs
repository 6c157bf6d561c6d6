use otp_pds::present::{generate_round_keys_128, generate_round_keys_80, present_64bit_encrypt};
use otp_pds::{otp_digest, otp_digest_iter, otp_scramble, otp_unscramble, Present};

const ROUND_KEYS_80: [u64; 32] = [
    0x0000000000000000, 0xc000000000000000, 0x5000180000000001, 0x60000a0003000001,
    0xb0000c0001400062, 0x900016000180002a, 0x0001920002c00033, 0xa000a0003240005b,
    0xd000d4001400064c, 0x30017a001a800284, 0xe01926002f400355, 0xf00a1c0324c005ed,
    0x800d5e014380649e, 0x4017b001abc02876, 0x71926802f600357f, 0x10a1ce324d005ec7,
    0x20d5e21439c649a8, 0xc17b041abc428730, 0xc926b82f60835781, 0x6a1cd924d705ec19,
    0xbd5e0d439b249aea, 0x07b077abc1a8736e, 0x426ba0f60ef5783e, 0x41cda84d741ec1d5,
    0xf5e0e839b509ae8f, 0x2b075ebc1d0736ad, 0x86ba2560ebd783ad, 0x8cdab0d744ac1d77,
    0x1e0eb19b561ae89b, 0xd075c3c1d6336acd, 0x8ba27a0eb8783ac9, 0x6dab31744f41d700,
];

const ROUND_KEYS_128: [u64; 32] = [
    0x0000000000000000, 0xcc00000000000000, 0xc300000000000000, 0x5b30000000000000,
    0x580c000000000001, 0x656cc00000000001, 0x6e60300000000001, 0xb595b30000000001,
    0xbeb980c000000002, 0x96d656cc00000002, 0x9ffae60300000002, 0x065b595b30000002,
    0x0f7feb980c000003, 0xac196d656cc00003, 0xa33dffae60300003, 0xd6b065b595b30003,
    0xdf8cf7feb980c004, 0x3b5ac196d656cc04, 0x387e33dffae60304, 0xeced6b065b595b34,
    0xe3e1f8cf7feb9809, 0x6bb3b5ac196d6569, 0xbb8f87e33dffae65, 0x80aeced6b065b590,
    0xc1ee3e1f8cf7febf, 0x2602bb3b5ac196d0, 0xcb07b8f87e33dffc, 0x34980aeced6b065d,
    0x8b2c1ee3e1f8cf78, 0x54d2602bb3b5ac1e, 0x4a2cb07b8f87e33a, 0x97534980aeced6b7,
];

#[test]
fn test_generate_80() {
    let key = [0u8; 10];
    let round_keys = generate_round_keys_80(&key);
    assert_eq!(round_keys, ROUND_KEYS_80);
}

#[test]
fn test_generate_128() {
    let key = [0u8; 16];
    let round_keys = generate_round_keys_128(&key);
    assert_eq!(round_keys, ROUND_KEYS_128);
}

#[test]
fn test_enc_80() {
    let cipher = Present::new_80(&[0; 10]);
    assert_eq!(cipher.encrypt_block(0), 0x5579c1387b228445);
}

#[test]
fn test_dec_80() {
    let cipher = Present::new_80(&[0; 10]);
    assert_eq!(cipher.decrypt_block(0x5579c1387b228445), 0);
}

#[test]
fn test_enc_128() {
    let cipher = Present::new_128(&[0; 16]);
    assert_eq!(cipher.encrypt_block(0), 0x96db702a2e6900af);
    assert_eq!(cipher.encrypt_block(!0), 0x3c6019e5e5edd563);
    let cipher = Present::new_128(&[0xff; 16]);
    assert_eq!(cipher.encrypt_block(0), 0x13238c710272a5d8);
    assert_eq!(cipher.encrypt_block(!0), 0x628d9fbd4218e5b4);
}

#[test]
fn test_dec_128() {
    let cipher = Present::new_128(&[0; 16]);
    assert_eq!(cipher.decrypt_block(0x96db702a2e6900af), 0);
    assert_eq!(cipher.decrypt_block(0x3c6019e5e5edd563), !0);
    let cipher = Present::new_128(&[0xff; 16]);
    assert_eq!(cipher.decrypt_block(0x13238c710272a5d8), 0);
    assert_eq!(cipher.decrypt_block(0x628d9fbd4218e5b4), !0);
}

#[test]
fn test_matches_python_128_and_is_little_endian() {
    assert_eq!(
        present_64bit_encrypt(0x0123456789abcdef, 0x0123456789abcdef0123456789abcdefu128),
        0xe9d28685e671dd6
    );
}

fn blocks_of(data: &[u8]) -> Vec<u64> {
    data.chunks_exact(8)
        .map(|c| u64::from_le_bytes(c.try_into().unwrap()))
        .collect()
}

#[test]
fn test_digest_iter_matches_digest() {
    // Even number of blocks
    let data: Vec<u8> = (0..32).collect();
    let iv = 0x1234567890abcdef;
    let cnst = 0xfedcba0987654321fedcba0987654321u128;
    let expected = otp_digest(&data, iv, cnst);
    assert_eq!(otp_digest_iter(&blocks_of(&data), iv, cnst), expected);

    // Odd number of blocks
    let data: Vec<u8> = (0..24).collect();
    let expected = otp_digest(&data, iv, cnst);
    assert_eq!(otp_digest_iter(&blocks_of(&data), iv, cnst), expected);

    // Single block
    let data = [0u8; 8];
    let expected = otp_digest(&data, iv, cnst);
    assert_eq!(otp_digest_iter(&blocks_of(&data), iv, cnst), expected);

    // Empty
    let expected = otp_digest(&[], iv, cnst);
    assert_eq!(otp_digest_iter(&[], iv, cnst), expected);
}

#[test]
fn test_scramble_roundtrip() {
    let key = 0x0f1e2d3c4b5a69788796a5b4c3d2e1f0u128;
    for &block in &[0u64, 1, 0xdeadbeefcafef00d, u64::MAX] {
        let scrambled = otp_scramble(block, key);
        assert_ne!(scrambled, block);
        assert_eq!(otp_unscramble(scrambled, key), block);
    }
}

#[test]
fn test_digest_empty_is_finalization_only() {
    // With no data blocks only the finalization step runs: the digest of
    // an empty buffer is iv XOR the encryption of iv under the constant.
    let iv = 0x0123456789abcdefu64;
    let cnst = 0x00112233445566778899aabbccddeeffu128;
    let expected = iv ^ otp_scramble(iv, cnst);
    assert_eq!(otp_digest(&[], iv, cnst), expected);
    assert_eq!(otp_digest_iter(&[], iv, cnst), expected);
}

#[test]
fn test_single_block_self_pairs() {
    // An odd trailing block is duplicated into both halves of the pairing
    // key before compression.
    let iv = 0x5555aaaa5555aaaau64;
    let cnst = 0x0f0f0f0f0f0f0f0f0f0f0f0f0f0f0f0fu128;
    let block = 0x1122334455667788u64;
    let pair_key = (block as u128) | ((block as u128) << 64);
    let after_block = iv ^ otp_scramble(iv, pair_key);
    let expected = after_block ^ otp_scramble(after_block, cnst);
    assert_eq!(otp_digest_iter(&[block], iv, cnst), expected);
}
