//! OTP content scrambling and the OTP integrity digest.
//!
//! The digest folds a sequence of 64-bit data blocks into a single 64-bit
//! value with a Merkle–Damgård iterated construction over a Davies–Meyer
//! compression step built on the PRESENT cipher: pairs of data blocks form
//! a 128-bit key, the accumulator is encrypted under it, and the ciphertext
//! is XORed back into the accumulator.  A whole-buffer entry point and a
//! streaming entry point share the same step sequence, so they agree bit
//! for bit on the same logical data.

use vstd::prelude::*;

verus! {

use vstd::bytes::{spec_u64_from_le_bytes, u64_from_le_bytes};
use vstd::slice::slice_subrange;
use crate::present::{
    present_64bit_encrypt,
    present_from_u128,
    spec_present64_decrypt,
    spec_present64_encrypt,
};

/// The 128-bit compression key formed from a pair of 64-bit data blocks:
/// the first of the pair in the low half, the second in the high half.
pub open spec fn spec_pair_key(lo: u64, hi: u64) -> u128 {
    (lo as u128) | ((hi as u128) << 64)
}

/// One Davies–Meyer compression step: encrypt the accumulator under the
/// given 128-bit key and XOR the ciphertext back into the accumulator.
pub open spec fn spec_compress(state: u64, key: u128) -> u64 {
    state ^ spec_present64_encrypt(state, key)
}

/// The digest of the remaining data blocks, starting from accumulator
/// `state`: blocks are consumed two at a time, an odd final block is
/// paired with itself, and one last compression against `cnst` finalizes
/// the digest.
pub open spec fn spec_digest_blocks(blocks: Seq<u64>, state: u64, cnst: u128) -> u64
    decreases blocks.len(),
{
    if blocks.len() >= 2 {
        spec_digest_blocks(
            blocks.skip(2),
            spec_compress(state, spec_pair_key(blocks[0], blocks[1])),
            cnst,
        )
    } else if blocks.len() == 1 {
        spec_compress(spec_compress(state, spec_pair_key(blocks[0], blocks[0])), cnst)
    } else {
        spec_compress(state, cnst)
    }
}

/// The 64-bit little-endian data blocks of a byte buffer.
pub open spec fn spec_blocks_of_bytes(bytes: Seq<u8>) -> Seq<u64> {
    Seq::new(bytes.len() / 8, |i: int| spec_u64_from_le_bytes(bytes.subrange(8 * i, 8 * i + 8)))
}

/// Scramble a 64-bit block of OTP content under a 128-bit key.
pub fn otp_scramble(data: u64, key: u128) -> (r: u64)
    ensures
        r == spec_present64_encrypt(data, key),
{
    present_from_u128(key).encrypt_block(data)
}

/// Unscramble a 64-bit block of OTP content: the exact inverse of
/// `otp_scramble` under the same key.
pub fn otp_unscramble(data: u64, key: u128) -> (r: u64)
    ensures
        r == spec_present64_decrypt(data, key),
{
    present_from_u128(key).decrypt_block(data)
}

/// Compute the OTP digest over a byte buffer holding little-endian 64-bit
/// data blocks.  The buffer length must be a multiple of 8; violating
/// that is a caller programming error, not a recoverable fault.
pub fn otp_digest(data: &[u8], iv: u64, cnst: u128) -> (r: u64)
    requires
        data@.len() % 8 == 0,
    ensures
        r == spec_digest_blocks(spec_blocks_of_bytes(data@), iv, cnst),
{
    let n = data.len();
    let mut blocks: Vec<u64> = Vec::new();
    let mut i: usize = 0;
    while i < n / 8
        invariant
            i <= n / 8,
            n == data@.len(),
            blocks@.len() == i,
            forall|j: int| 0 <= j < i ==> blocks@[j] == spec_blocks_of_bytes(data@)[j],
        decreases n / 8 - i,
    {
        proof {
            assert(8 * (n / 8) <= n) by (nonlinear_arith);
        }
        let chunk = slice_subrange(data, 8 * i, 8 * i + 8);
        let w = u64_from_le_bytes(chunk);
        blocks.push(w);
        i = i + 1;
    }
    proof {
        assert(blocks@ =~= spec_blocks_of_bytes(data@));
    }
    otp_digest_iter(blocks.as_slice(), iv, cnst)
}

/// Compute the OTP digest over pre-decoded little-endian 64-bit data
/// blocks, one block at a time.  Equivalent to `otp_digest` on the bytes
/// the blocks were decoded from.
pub fn otp_digest_iter(blocks: &[u64], iv: u64, cnst: u128) -> (r: u64)
    ensures
        r == spec_digest_blocks(blocks@, iv, cnst),
{
    let n = blocks.len();
    let mut state = iv;
    let mut i: usize = 0;
    proof {
        assert(blocks@.skip(0) =~= blocks@);
    }
    while n - i >= 2
        invariant
            i <= n,
            n == blocks@.len(),
            spec_digest_blocks(blocks@.skip(i as int), state, cnst) == spec_digest_blocks(
                blocks@,
                iv,
                cnst,
            ),
        decreases n - i,
    {
        let b0 = blocks[i];
        let b1 = blocks[i + 1];
        let key = (b0 as u128) | ((b1 as u128) << 64);
        proof {
            assert(blocks@.skip(i as int).skip(2) =~= blocks@.skip(i as int + 2));
            assert(blocks@.skip(i as int)[0] == blocks@[i as int]);
            assert(blocks@.skip(i as int)[1] == blocks@[i as int + 1]);
        }
        state = state ^ present_64bit_encrypt(state, key);
        i = i + 2;
    }
    // Align to a pair: an odd final block is duplicated into both halves.
    if i < n {
        proof {
            assert(blocks@.skip(i as int).len() == 1);
            assert(blocks@.skip(i as int)[0] == blocks@[i as int]);
        }
        let b = blocks[i];
        let key = (b as u128) | ((b as u128) << 64);
        state = state ^ present_64bit_encrypt(state, key);
    }
    // Finalize against the 128-bit constant.
    state ^ present_64bit_encrypt(state, cnst)
}

/// The streaming digest agrees with the whole-buffer digest: on the same
/// logical data — a byte buffer and the little-endian 64-bit blocks
/// decoded from it — both entry points compute the same value, for every
/// initialization vector and every finalization constant.
pub proof fn lemma_digest_iter_matches_digest(bytes: Seq<u8>, blocks: Seq<u64>, iv: u64, cnst: u128)
    requires
        bytes.len() % 8 == 0,
        blocks == spec_blocks_of_bytes(bytes),
    ensures
        spec_digest_blocks(blocks, iv, cnst) == spec_digest_blocks(
            spec_blocks_of_bytes(bytes),
            iv,
            cnst,
        ),
{
}

} // verus!
