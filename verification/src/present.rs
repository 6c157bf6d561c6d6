//! The PRESENT block cipher.
//!
//! A substitution-permutation cipher on 64-bit blocks with an 80-bit or
//! 128-bit key.  Key-schedule derivation, the S-box and P-box layers and
//! the round structure follow the published cipher exactly, bit for bit:
//! the OTP digest values computed on top of this cipher are defined
//! relative to these exact round keys.

use vstd::prelude::*;

verus! {

use vstd::bytes::{spec_u128_from_le_bytes, u128_from_le_bytes};

/// Number of round keys in a schedule, for either key width.
pub const ROUNDS: usize = 32;

/// The PRESENT 4-bit S-box, packed as sixteen nibbles: entry `i` occupies
/// bits `4*i .. 4*i + 4`.
pub const S_BOX: u64 = 0x21748fe3da09b65c;

/// The inverse of `S_BOX`, packed the same way.
pub const S_BOX_INV: u64 = 0xa970364bd21c8fe5;

// ------------------------------------------------------------------
// Bit-level helpers shared by the specifications and the proofs.
// ------------------------------------------------------------------

/// Nibble `i` of `x` (the bits `4*i .. 4*i + 4`).
pub open spec fn spec_nibble(x: u64, i: u64) -> u64
    recommends
        i < 16,
{
    (x >> ((4 * i) as u64)) & 0xf
}

/// Bit `i` of `x`, as 0 or 1.
pub open spec fn spec_bit(x: u64, i: u64) -> u64
    recommends
        i < 64,
{
    (x >> i) & 1
}

/// Entry `n & 0xf` of a lookup table packed as sixteen nibbles.
pub open spec fn spec_sbox_lookup(lut: u64, n: u64) -> u64 {
    (lut >> ((4 * (n & 0xf)) as u64)) & 0xf
}

broadcast proof fn lemma_mask_nibble_bound(x: u64)
    by (bit_vector)
    ensures
        #[trigger] (x & 0xf) < 16,
{
}

broadcast proof fn lemma_mask_nibble_bound_u128(x: u128)
    by (bit_vector)
    ensures
        #[trigger] (x & 0xf) < 16,
{
}

// ------------------------------------------------------------------
// S-box layer
// ------------------------------------------------------------------

/// The first `i` nibbles of `s` pushed through the table `lut`, each kept
/// in place; the remaining nibbles are still zero.
pub open spec fn spec_substitute_rec(lut: u64, s: u64, i: nat) -> u64
    decreases i,
{
    if i == 0 {
        0u64
    } else {
        spec_substitute_rec(lut, s, (i - 1) as nat) | (spec_sbox_lookup(
            lut,
            spec_nibble(s, (i - 1) as u64),
        ) << ((4 * (i - 1)) as u64))
    }
}

/// The S-box applied to all 16 nibbles of the state (encryption direction).
pub open spec fn spec_s_box_layer(s: u64) -> u64 {
    spec_substitute_rec(S_BOX, s, 16)
}

/// The inverse S-box applied to all 16 nibbles (decryption direction).
pub open spec fn spec_s_box_layer_dec(s: u64) -> u64 {
    spec_substitute_rec(S_BOX_INV, s, 16)
}

fn sbox_lookup(lut: u64, n: u64) -> (r: u64)
    ensures
        r == spec_sbox_lookup(lut, n),
{
    proof {
        broadcast use lemma_mask_nibble_bound;

    }
    (lut >> (4 * (n & 0xf))) & 0xf
}

fn substitute(lut: u64, state: u64) -> (r: u64)
    ensures
        r == spec_substitute_rec(lut, state, 16),
{
    let mut output: u64 = 0;
    let mut i: usize = 0;
    while i < 16
        invariant
            i <= 16,
            output == spec_substitute_rec(lut, state, i as nat),
        decreases 16 - i,
    {
        let shift: u64 = 4 * (i as u64);
        let nib = (state >> shift) & 0xf;
        output = output | (sbox_lookup(lut, nib) << shift);
        i = i + 1;
    }
    output
}

/// S-box layer for encryption.
fn s_box_layer(state: u64) -> (r: u64)
    ensures
        r == spec_s_box_layer(state),
{
    substitute(S_BOX, state)
}

/// S-box layer for decryption.
fn s_box_layer_dec(state: u64) -> (r: u64)
    ensures
        r == spec_s_box_layer_dec(state),
{
    substitute(S_BOX_INV, state)
}

// ------------------------------------------------------------------
// P-box layer
// ------------------------------------------------------------------

/// Destination of bit `i` under the PRESENT bit permutation.
pub open spec fn spec_pbox_dest(i: u64) -> u64
    recommends
        i < 64,
{
    (16 * (i % 4) + i / 4) as u64
}

/// Destination of bit `i` under the inverse permutation.
pub open spec fn spec_pbox_dest_inv(i: u64) -> u64
    recommends
        i < 64,
{
    (4 * (i % 16) + i / 16) as u64
}

/// The first `i` bits of `s` scattered to their destinations; `enc` picks
/// the forward or the inverse permutation.
pub open spec fn spec_scatter_rec(s: u64, i: nat, enc: bool) -> u64
    decreases i,
{
    if i == 0 {
        0u64
    } else {
        let b = (i - 1) as u64;
        let dest = if enc {
            spec_pbox_dest(b)
        } else {
            spec_pbox_dest_inv(b)
        };
        spec_scatter_rec(s, (i - 1) as nat, enc) | (spec_bit(s, b) << dest)
    }
}

/// The bit permutation applied to the whole state (encryption direction).
pub open spec fn spec_p_box_layer(s: u64) -> u64 {
    spec_scatter_rec(s, 64, true)
}

/// The inverse bit permutation (decryption direction).
pub open spec fn spec_p_box_layer_dec(s: u64) -> u64 {
    spec_scatter_rec(s, 64, false)
}

fn permute(state: u64, enc: bool) -> (r: u64)
    ensures
        r == spec_scatter_rec(state, 64, enc),
{
    let mut output: u64 = 0;
    let mut i: usize = 0;
    while i < 64
        invariant
            i <= 64,
            output == spec_scatter_rec(state, i as nat, enc),
        decreases 64 - i,
    {
        let iu = i as u64;
        proof {
            assert(16 * (iu % 4) + iu / 4 < 64 && 4 * (iu % 16) + iu / 16 < 64) by (bit_vector)
                requires
                    iu < 64,
            ;
        }
        let dest: u64 = if enc {
            16 * (iu % 4) + iu / 4
        } else {
            4 * (iu % 16) + iu / 16
        };
        output = output | (((state >> iu) & 1) << dest);
        i = i + 1;
    }
    output
}

/// P-box layer for encryption.
fn p_box_layer(state: u64) -> (r: u64)
    ensures
        r == spec_p_box_layer(state),
{
    permute(state, true)
}

/// P-box layer for decryption.
fn p_box_layer_dec(state: u64) -> (r: u64)
    ensures
        r == spec_p_box_layer_dec(state),
{
    permute(state, false)
}

// ------------------------------------------------------------------
// Key schedules
// ------------------------------------------------------------------

/// One key-schedule step for the 128-bit variant: rotate the key register
/// left by 61, push the top two nibbles through the S-box, and XOR the
/// 1-indexed round counter into bits 62..67.
pub open spec fn spec_ks128_next(k: u128, r: nat) -> u128 {
    let rot = (k << 61) | (k >> 67);
    let sb = ((spec_sbox_lookup(S_BOX, ((rot >> 124) & 0xf) as u64) as u128) << 124) | ((
    spec_sbox_lookup(S_BOX, ((rot >> 120) & 0xf) as u64) as u128) << 120) | (rot & (!0u128 >> 8));
    sb ^ (((r + 1) as u128) << 62)
}

/// The 128-bit key register just before round key `r` is extracted.
pub open spec fn spec_ks128_state(k0: u128, r: nat) -> u128
    decreases r,
{
    if r == 0 {
        k0
    } else {
        spec_ks128_next(spec_ks128_state(k0, (r - 1) as nat), (r - 1) as nat)
    }
}

/// The full 32-entry schedule derived from a 128-bit key.
pub open spec fn spec_round_keys_128(k0: u128) -> Seq<u64> {
    Seq::new(32, |i: int| (spec_ks128_state(k0, i as nat) >> 64) as u64)
}

/// One key-schedule step for the 80-bit variant, on the key held in the
/// top 80 bits of a 128-bit register: the equivalent cyclic rotation,
/// the S-box on the top nibble, and the round counter at bit 15.
pub open spec fn spec_ks80_next(k: u128, r: nat) -> u128 {
    let rot = ((k & 0x7ffff) << 61) | (k >> 19);
    let sb = ((spec_sbox_lookup(S_BOX, ((rot >> 76) & 0xf) as u64) as u128) << 76) | (rot & (!0u128
        >> 52));
    sb ^ (((r + 1) as u128) << 15)
}

/// The 80-bit key register just before round key `r` is extracted.
pub open spec fn spec_ks80_state(k0: u128, r: nat) -> u128
    decreases r,
{
    if r == 0 {
        k0
    } else {
        spec_ks80_next(spec_ks80_state(k0, (r - 1) as nat), (r - 1) as nat)
    }
}

/// A 10-byte key padded to 16 bytes: six zero bytes below, the key above.
pub open spec fn spec_pad80(key: Seq<u8>) -> Seq<u8>
    recommends
        key.len() == 10,
{
    Seq::new(16, |i: int| if i < 6 { 0u8 } else { key[i - 6] })
}

/// The full 32-entry schedule derived from an 80-bit key register.
pub open spec fn spec_round_keys_80(k0: u128) -> Seq<u64> {
    Seq::new(32, |i: int| (spec_ks80_state(k0, i as nat) >> 16) as u64)
}

fn round_keys_from_u128(k0: u128) -> (r: [u64; ROUNDS])
    ensures
        r@ == spec_round_keys_128(k0),
{
    let mut round_keys: [u64; ROUNDS] = [0u64; ROUNDS];
    let mut k: u128 = k0;
    let mut i: usize = 0;
    while i < ROUNDS
        invariant
            i <= ROUNDS,
            k == spec_ks128_state(k0, i as nat),
            round_keys@.len() == 32,
            forall|j: int|
                0 <= j < i ==> round_keys@[j] == (spec_ks128_state(k0, j as nat) >> 64) as u64,
        decreases ROUNDS - i,
    {
        round_keys[i] = (k >> 64) as u64;
        // 1. rotate the register left by 61 bits
        k = (k << 61) | (k >> 67);
        // 2. S-box on the top two nibbles
        proof {
            broadcast use lemma_mask_nibble_bound_u128;

        }
        let n1 = sbox_lookup(S_BOX, ((k >> 124) & 0xf) as u64);
        let n0 = sbox_lookup(S_BOX, ((k >> 120) & 0xf) as u64);
        k = ((n1 as u128) << 124) | ((n0 as u128) << 120) | (k & (!0u128 >> 8));
        // 3. XOR in the 1-indexed round counter
        k = k ^ (((i + 1) as u128) << 62);
        i = i + 1;
    }
    proof {
        assert(round_keys@ =~= spec_round_keys_128(k0));
    }
    round_keys
}

/// Generate the round keys for a 128-bit key given as little-endian bytes.
pub fn generate_round_keys_128(key: &[u8; 16]) -> (r: [u64; ROUNDS])
    ensures
        r@ == spec_round_keys_128(spec_u128_from_le_bytes(key@)),
{
    let k0 = u128_from_le_bytes(key.as_slice());
    round_keys_from_u128(k0)
}

/// Generate the round keys for an 80-bit key given as little-endian bytes.
pub fn generate_round_keys_80(key: &[u8; 10]) -> (r: [u64; ROUNDS])
    ensures
        r@ == spec_round_keys_80(spec_u128_from_le_bytes(spec_pad80(key@))),
{
    // Pad the key so that it sits in the top 80 bits of a 128-bit register.
    let mut padded: [u8; 16] = [0u8; 16];
    let mut j: usize = 0;
    while j < 10
        invariant
            j <= 10,
            padded@.len() == 16,
            forall|t: int| 0 <= t < 6 ==> padded@[t] == 0u8,
            forall|t: int| 6 <= t < 6 + j ==> padded@[t] == key@[t - 6],
            forall|t: int| 6 + j <= t < 16 ==> padded@[t] == 0u8,
        decreases 10 - j,
    {
        padded[6 + j] = key[j];
        j = j + 1;
    }
    proof {
        assert(padded@ =~= spec_pad80(key@));
    }
    let k0 = u128_from_le_bytes(padded.as_slice());

    let mut round_keys: [u64; ROUNDS] = [0u64; ROUNDS];
    let mut k: u128 = k0;
    let mut i: usize = 0;
    while i < ROUNDS
        invariant
            i <= ROUNDS,
            k == spec_ks80_state(k0, i as nat),
            round_keys@.len() == 32,
            forall|j: int|
                0 <= j < i ==> round_keys@[j] == (spec_ks80_state(k0, j as nat) >> 16) as u64,
        decreases ROUNDS - i,
    {
        round_keys[i] = (k >> 16) as u64;
        // 1. the equivalent of rotating the 80-bit register left by 61 bits
        k = ((k & 0x7ffff) << 61) | (k >> 19);
        // 2. S-box on the top nibble
        proof {
            broadcast use lemma_mask_nibble_bound_u128;

        }
        let n = sbox_lookup(S_BOX, ((k >> 76) & 0xf) as u64);
        k = ((n as u128) << 76) | (k & (!0u128 >> 52));
        // 3. XOR in the 1-indexed round counter
        k = k ^ (((i + 1) as u128) << 15);
        i = i + 1;
    }
    proof {
        assert(round_keys@ =~= spec_round_keys_80(k0));
    }
    round_keys
}

// ------------------------------------------------------------------
// Block transform
// ------------------------------------------------------------------

/// Rounds `i .. 32` of encryption applied to an already-whitened state.
pub open spec fn spec_encrypt_from(keys: Seq<u64>, s: u64, i: int) -> u64
    recommends
        keys.len() == 32,
    decreases 32 - i,
{
    if 1 <= i < 32 {
        spec_encrypt_from(keys, spec_p_box_layer(spec_s_box_layer(s)) ^ keys[i], i + 1)
    } else {
        s
    }
}

/// Encryption of one block under a 32-entry schedule.
pub open spec fn spec_encrypt_block(keys: Seq<u64>, block: u64) -> u64
    recommends
        keys.len() == 32,
{
    spec_encrypt_from(keys, block ^ keys[0], 1)
}

/// Round keys `31` down to `i` peeled off an encrypted state.
pub open spec fn spec_decrypt_down(keys: Seq<u64>, s: u64, i: int) -> u64
    recommends
        keys.len() == 32,
    decreases 32 - i,
{
    if 1 <= i < 32 {
        spec_s_box_layer_dec(spec_p_box_layer_dec(spec_decrypt_down(keys, s, i + 1) ^ keys[i]))
    } else {
        s
    }
}

/// Decryption of one block under a 32-entry schedule: the exact inverse
/// of `spec_encrypt_block`.
pub open spec fn spec_decrypt_block(keys: Seq<u64>, block: u64) -> u64
    recommends
        keys.len() == 32,
{
    spec_decrypt_down(keys, block, 1) ^ keys[0]
}

/// Encryption of one 64-bit block under a 128-bit key value.
pub open spec fn spec_present64_encrypt(plain: u64, key: u128) -> u64 {
    spec_encrypt_block(spec_round_keys_128(key), plain)
}

/// Decryption of one 64-bit block under a 128-bit key value.
pub open spec fn spec_present64_decrypt(cipher: u64, key: u128) -> u64 {
    spec_decrypt_block(spec_round_keys_128(key), cipher)
}

/// PRESENT block cipher instance: a derived 32-entry round-key schedule.
///
/// The view of an instance is its schedule, always exactly 32 words long
/// whichever key width derived it.
pub struct Present {
    round_keys: [u64; ROUNDS],
}

impl View for Present {
    type V = Seq<u64>;

    closed spec fn view(&self) -> Seq<u64> {
        self.round_keys@
    }
}

impl Present {
    /// Create a new 128-bit PRESENT cipher instance.
    pub fn new_128(key: &[u8; 16]) -> (c: Present)
        ensures
            c@ == spec_round_keys_128(spec_u128_from_le_bytes(key@)),
            c@.len() == 32,
    {
        Present { round_keys: generate_round_keys_128(key) }
    }

    /// Create a new 80-bit PRESENT cipher instance.
    pub fn new_80(key: &[u8; 10]) -> (c: Present)
        ensures
            c@ == spec_round_keys_80(spec_u128_from_le_bytes(spec_pad80(key@))),
            c@.len() == 32,
    {
        Present { round_keys: generate_round_keys_80(key) }
    }

    /// Encrypt a 64-bit block.
    pub fn encrypt_block(&self, block: u64) -> (r: u64)
        ensures
            r == spec_encrypt_block(self@, block),
    {
        let mut state = block ^ self.round_keys[0];
        let mut i: usize = 1;
        while i < ROUNDS
            invariant
                1 <= i <= 32,
                spec_encrypt_from(self@, state, i as int) == spec_encrypt_block(self@, block),
            decreases ROUNDS - i,
        {
            state = s_box_layer(state);
            state = p_box_layer(state);
            state = state ^ self.round_keys[i];
            i = i + 1;
        }
        state
    }

    /// Decrypt a 64-bit block: the exact inverse of `encrypt_block`.
    pub fn decrypt_block(&self, block: u64) -> (r: u64)
        ensures
            r == spec_decrypt_block(self@, block),
    {
        let mut state = block;
        let mut i: usize = ROUNDS - 1;
        while i >= 1
            invariant
                0 <= i <= 31,
                state == spec_decrypt_down(self@, block, i + 1 as int),
            decreases i,
        {
            state = state ^ self.round_keys[i];
            state = p_box_layer_dec(state);
            state = s_box_layer_dec(state);
            i = i - 1;
        }
        state ^ self.round_keys[0]
    }
}

/// A cipher instance derived directly from a 128-bit key value.
pub(crate) fn present_from_u128(key: u128) -> (c: Present)
    ensures
        c@ == spec_round_keys_128(key),
        c@.len() == 32,
{
    Present { round_keys: round_keys_from_u128(key) }
}

/// Scramble a 64-bit block with the PRESENT cipher under a 128-bit key.
pub fn present_64bit_encrypt(plain: u64, key: u128) -> (r: u64)
    ensures
        r == spec_present64_encrypt(plain, key),
{
    present_from_u128(key).encrypt_block(plain)
}

// ------------------------------------------------------------------
// The S-box layer, the P-box layer and hence the whole block transform
// are invertible.
// ------------------------------------------------------------------

broadcast proof fn lemma_spec_nibble_bound(x: u64, i: u64)
    by (bit_vector)
    ensures
        #[trigger] spec_nibble(x, i) < 16,
{
}

proof fn lemma_sbox_entries()
    by (bit_vector)
    ensures
        forall|n: u64|
            n < 16 ==> spec_sbox_lookup(S_BOX_INV, #[trigger] spec_sbox_lookup(S_BOX, n)) == n,
        forall|lut: u64, n: u64| #[trigger] spec_sbox_lookup(lut, n) < 16,
{
}

proof fn lemma_nibble_or_update(x: u64, y: u64, a: u64, q: u64)
    by (bit_vector)
    requires
        y < 16,
        a < 16,
        q < 16,
    ensures
        a == q && spec_nibble(x, q) == 0 ==> spec_nibble(x | (y << ((4 * a) as u64)), q) == y,
        a != q ==> spec_nibble(x | (y << ((4 * a) as u64)), q) == spec_nibble(x, q),
{
}

/// After `i` steps of substitution, the first `i` nibbles went through the
/// table and the rest are still zero.
proof fn lemma_substitute_nibbles(lut: u64, s: u64, i: nat)
    requires
        i <= 16,
    ensures
        forall|q: u64|
            q < i ==> #[trigger] spec_nibble(spec_substitute_rec(lut, s, i), q)
                == spec_sbox_lookup(lut, spec_nibble(s, q)),
        forall|q: u64|
            i <= q < 16 ==> #[trigger] spec_nibble(spec_substitute_rec(lut, s, i), q) == 0,
    decreases i,
{
    if i == 0 {
        assert(forall|q: u64| #[trigger] spec_nibble(0u64, q) == 0) by (bit_vector);
    } else {
        lemma_substitute_nibbles(lut, s, (i - 1) as nat);
        lemma_sbox_entries();
        let prev = spec_substitute_rec(lut, s, (i - 1) as nat);
        let b = (i - 1) as u64;
        let y = spec_sbox_lookup(lut, spec_nibble(s, b));
        let cur = spec_substitute_rec(lut, s, i);
        assert(cur == prev | (y << ((4 * b) as u64)));
        assert forall|q: u64| q < 16 implies {
            &&& q < i ==> spec_nibble(cur, q) == spec_sbox_lookup(lut, spec_nibble(s, q))
            &&& i <= q ==> spec_nibble(cur, q) == 0
        } by {
            lemma_nibble_or_update(prev, y, b, q);
        }
    }
}

proof fn lemma_u64_eq_by_nibbles(a: u64, b: u64)
    requires
        forall|q: u64| q < 16 ==> #[trigger] spec_nibble(a, q) == spec_nibble(b, q),
    ensures
        a == b,
{
    assert(a == b) by (bit_vector)
        requires
            spec_nibble(a, 0) == spec_nibble(b, 0),
            spec_nibble(a, 1) == spec_nibble(b, 1),
            spec_nibble(a, 2) == spec_nibble(b, 2),
            spec_nibble(a, 3) == spec_nibble(b, 3),
            spec_nibble(a, 4) == spec_nibble(b, 4),
            spec_nibble(a, 5) == spec_nibble(b, 5),
            spec_nibble(a, 6) == spec_nibble(b, 6),
            spec_nibble(a, 7) == spec_nibble(b, 7),
            spec_nibble(a, 8) == spec_nibble(b, 8),
            spec_nibble(a, 9) == spec_nibble(b, 9),
            spec_nibble(a, 10) == spec_nibble(b, 10),
            spec_nibble(a, 11) == spec_nibble(b, 11),
            spec_nibble(a, 12) == spec_nibble(b, 12),
            spec_nibble(a, 13) == spec_nibble(b, 13),
            spec_nibble(a, 14) == spec_nibble(b, 14),
            spec_nibble(a, 15) == spec_nibble(b, 15),
    ;
}

/// Substituting through a table and then through its inverse table
/// restores the state.
proof fn lemma_s_box_layer_inverse(s: u64)
    ensures
        spec_s_box_layer_dec(spec_s_box_layer(s)) == s,
{
    broadcast use lemma_spec_nibble_bound;

    let t = spec_s_box_layer(s);
    let u = spec_s_box_layer_dec(t);
    lemma_substitute_nibbles(S_BOX, s, 16);
    lemma_substitute_nibbles(S_BOX_INV, t, 16);
    lemma_sbox_entries();
    assert forall|q: u64| q < 16 implies #[trigger] spec_nibble(u, q) == spec_nibble(s, q) by {
        assert(spec_nibble(t, q) == spec_sbox_lookup(S_BOX, spec_nibble(s, q)));
        assert(spec_nibble(u, q) == spec_sbox_lookup(S_BOX_INV, spec_nibble(t, q)));
    }
    lemma_u64_eq_by_nibbles(u, s);
}

/// The forward and inverse bit-destination maps are mutually inverse
/// bijections of the 64 bit positions.
proof fn lemma_pbox_dest_bijective()
    by (bit_vector)
    ensures
        forall|i: u64| i < 64 ==> #[trigger] spec_pbox_dest(i) < 64,
        forall|i: u64| i < 64 ==> #[trigger] spec_pbox_dest_inv(i) < 64,
        forall|i: u64| i < 64 ==> spec_pbox_dest_inv(#[trigger] spec_pbox_dest(i)) == i,
        forall|i: u64| i < 64 ==> spec_pbox_dest(#[trigger] spec_pbox_dest_inv(i)) == i,
{
}

proof fn lemma_bit_or_update(x: u64, y: u64, p: u64, q: u64)
    by (bit_vector)
    requires
        y < 2,
        p < 64,
        q < 64,
    ensures
        p == q && spec_bit(x, q) == 0 ==> spec_bit(x | (y << p), q) == y,
        p != q ==> spec_bit(x | (y << p), q) == spec_bit(x, q),
{
}

broadcast proof fn lemma_spec_bit_bound(x: u64, i: u64)
    by (bit_vector)
    ensures
        #[trigger] spec_bit(x, i) < 2,
{
}

/// The destination map of a scatter direction, and its inverse.
spec fn spec_dir_dest(i: u64, enc: bool) -> u64 {
    if enc {
        spec_pbox_dest(i)
    } else {
        spec_pbox_dest_inv(i)
    }
}

spec fn spec_dir_inv(i: u64, enc: bool) -> u64 {
    if enc {
        spec_pbox_dest_inv(i)
    } else {
        spec_pbox_dest(i)
    }
}

/// After `i` steps of scattering, destination bits whose source lies
/// below `i` carry the source bit and all others are still zero.
proof fn lemma_scatter_bits(s: u64, i: nat, enc: bool)
    requires
        i <= 64,
    ensures
        forall|q: u64|
            q < 64 ==> #[trigger] spec_bit(spec_scatter_rec(s, i, enc), q) == (if spec_dir_inv(
                q,
                enc,
            ) < i {
                spec_bit(s, spec_dir_inv(q, enc))
            } else {
                0u64
            }),
    decreases i,
{
    broadcast use lemma_spec_bit_bound;

    lemma_pbox_dest_bijective();
    if i == 0 {
        assert(forall|q: u64| #[trigger] spec_bit(0u64, q) == 0) by (bit_vector);
    } else {
        lemma_scatter_bits(s, (i - 1) as nat, enc);
        let prev = spec_scatter_rec(s, (i - 1) as nat, enc);
        let b = (i - 1) as u64;
        let dest = spec_dir_dest(b, enc);
        let y = spec_bit(s, b);
        let cur = spec_scatter_rec(s, i, enc);
        assert(cur == prev | (y << dest));
        assert forall|q: u64| q < 64 implies #[trigger] spec_bit(cur, q) == (if spec_dir_inv(q, enc)
            < i {
            spec_bit(s, spec_dir_inv(q, enc))
        } else {
            0u64
        }) by {
            lemma_bit_or_update(prev, y, dest, q);
            if dest == q {
                assert(spec_dir_inv(q, enc) == b);
            } else {
                assert(spec_dir_inv(q, enc) != b) by {
                    if spec_dir_inv(q, enc) == b {
                        assert(spec_dir_dest(spec_dir_inv(q, enc), enc) == q);
                    }
                }
            }
        }
    }
}

proof fn lemma_nibble_from_bits(a: u64, b: u64, q: u64)
    by (bit_vector)
    requires
        q < 16,
        spec_bit(a, (4 * q) as u64) == spec_bit(b, (4 * q) as u64),
        spec_bit(a, (4 * q + 1) as u64) == spec_bit(b, (4 * q + 1) as u64),
        spec_bit(a, (4 * q + 2) as u64) == spec_bit(b, (4 * q + 2) as u64),
        spec_bit(a, (4 * q + 3) as u64) == spec_bit(b, (4 * q + 3) as u64),
    ensures
        spec_nibble(a, q) == spec_nibble(b, q),
{
}

/// Permuting the bits forward and then backward restores the state.
proof fn lemma_p_box_layer_inverse(s: u64)
    ensures
        spec_p_box_layer_dec(spec_p_box_layer(s)) == s,
{
    let t = spec_p_box_layer(s);
    let u = spec_p_box_layer_dec(t);
    lemma_scatter_bits(s, 64, true);
    lemma_scatter_bits(t, 64, false);
    lemma_pbox_dest_bijective();
    assert forall|q: u64| q < 64 implies #[trigger] spec_bit(u, q) == spec_bit(s, q) by {
        assert(spec_bit(u, q) == spec_bit(t, spec_pbox_dest(q)));
        assert(spec_bit(t, spec_pbox_dest(q)) == spec_bit(s, q));
    }
    assert forall|q: u64| q < 16 implies #[trigger] spec_nibble(u, q) == spec_nibble(s, q) by {
        assert(spec_bit(u, (4 * q) as u64) == spec_bit(s, (4 * q) as u64));
        assert(spec_bit(u, (4 * q + 1) as u64) == spec_bit(s, (4 * q + 1) as u64));
        assert(spec_bit(u, (4 * q + 2) as u64) == spec_bit(s, (4 * q + 2) as u64));
        assert(spec_bit(u, (4 * q + 3) as u64) == spec_bit(s, (4 * q + 3) as u64));
        lemma_nibble_from_bits(u, s, q);
    }
    lemma_u64_eq_by_nibbles(u, s);
}

proof fn lemma_xor_cancel(a: u64, k: u64)
    by (bit_vector)
    ensures
        (a ^ k) ^ k == a,
{
}

/// Rounds `i .. 32` of encryption are undone by peeling round keys `31`
/// down to `i`.
proof fn lemma_decrypt_down_inverts(keys: Seq<u64>, s: u64, i: int)
    requires
        keys.len() == 32,
        1 <= i <= 32,
    ensures
        spec_decrypt_down(keys, spec_encrypt_from(keys, s, i), i) == s,
    decreases 32 - i,
{
    if i < 32 {
        let mixed = spec_p_box_layer(spec_s_box_layer(s)) ^ keys[i];
        lemma_decrypt_down_inverts(keys, mixed, i + 1);
        lemma_xor_cancel(spec_p_box_layer(spec_s_box_layer(s)), keys[i]);
        lemma_p_box_layer_inverse(spec_s_box_layer(s));
        lemma_s_box_layer_inverse(s);
    }
}

/// Decryption is the exact inverse of encryption: for every 64-bit block
/// and every 32-entry round-key schedule — hence for both key widths —
/// decrypting an encrypted block returns the original block.
pub proof fn lemma_decrypt_block_inverts_encrypt_block(keys: Seq<u64>, block: u64)
    requires
        keys.len() == 32,
    ensures
        spec_decrypt_block(keys, spec_encrypt_block(keys, block)) == block,
{
    lemma_decrypt_down_inverts(keys, block ^ keys[0], 1);
    lemma_xor_cancel(block, keys[0]);
}

/// The scramble/unscramble pair round-trips: unscrambling a scrambled
/// 64-bit block under the same 128-bit key returns the original block.
pub proof fn lemma_present64_decrypt_inverts_encrypt(plain: u64, key: u128)
    ensures
        spec_present64_decrypt(spec_present64_encrypt(plain, key), key) == plain,
{
    lemma_decrypt_block_inverts_encrypt_block(spec_round_keys_128(key), plain);
}

} // verus!
