//! SHA-256 proof-of-work: challenges, verification, targets and difficulty.
use crate::codec::{le_bytes, push_bytes32, push_le};
use crate::hashing::{sha256, sha256_of};
use vstd::arithmetic::power2::{lemma2_to64, pow2};
use vstd::prelude::*;
use vstd::std_specs::bits::{axiom_u8_leading_zeros, u8_leading_zeros};

verus! {

/// Difficulty at which `difficulty_to_value` starts to scale.
pub const BASE_DIFFICULTY: u8 = 8;

pub const MAX_DIFFICULTY: u8 = 255;

/// Difficulty above which each bit earns a fee discount.
pub const FEE_DISCOUNT_BASE_DIFFICULTY: u8 = 12;

/// Discount in basis points per difficulty bit above the base.
pub const FEE_DISCOUNT_SCALE: u64 = 500;

/// Target number of blocks between state transitions.
pub const TARGET_TRANSITION_BLOCKS: u64 = 5;

pub const ADJUSTMENT_WINDOW: u64 = 10;

/// Largest factor by which one adjustment may move the ratio.
pub const MAX_ADJUSTMENT_FACTOR: u64 = 4;

/// A nonce claimed to solve a challenge.
#[derive(Clone, Copy, Debug, PartialEq, Eq)]
pub struct PoWProof {
    pub challenge: [u8; 32],
    pub nonce: [u8; 32],
}

/// Leading zero bits of a byte string (a string of zeros counts all its bits).
pub open spec fn leading_zero_bits(s: Seq<u8>) -> nat
    decreases s.len(),
{
    if s.len() == 0 {
        0
    } else if s[0] == 0 {
        8 + leading_zero_bits(s.drop_first())
    } else {
        u8_leading_zeros(s[0]) as nat
    }
}

/// The difficulty a hash achieves: its leading zero bits, with 256 reported as 255.
pub open spec fn hash_difficulty(s: Seq<u8>) -> nat {
    if leading_zero_bits(s) >= 255 {
        255
    } else {
        leading_zero_bits(s)
    }
}

/// The hash a proof is judged by: SHA-256 of challenge then nonce.
pub open spec fn proof_hash(challenge: Seq<u8>, nonce: Seq<u8>) -> Seq<u8> {
    sha256_of(challenge + nonce)
}

/// `a` is strictly below `b` in lexicographic byte order.
pub open spec fn lex_lt(a: Seq<u8>, b: Seq<u8>) -> bool
    decreases a.len(),
{
    if a.len() == 0 || b.len() == 0 {
        false
    } else if a[0] < b[0] {
        true
    } else if a[0] > b[0] {
        false
    } else {
        lex_lt(a.drop_first(), b.drop_first())
    }
}

/// `a` is at most `b` in lexicographic byte order.
pub open spec fn lex_le(a: Seq<u8>, b: Seq<u8>) -> bool
    decreases a.len(),
{
    if a.len() == 0 || b.len() == 0 {
        true
    } else if a[0] < b[0] {
        true
    } else if a[0] > b[0] {
        false
    } else {
        lex_le(a.drop_first(), b.drop_first())
    }
}

/// Byte `i` of the target for `bits` leading zero bits.
pub open spec fn target_byte(bits: u8, i: int) -> u8 {
    if bits >= 255 {
        0
    } else if i < bits / 8 {
        0
    } else if i == bits / 8 {
        0xffu8 >> (bits % 8)
    } else {
        0xff
    }
}

/// The 32-byte target for `bits` leading zero bits.
pub open spec fn target_of(bits: u8) -> Seq<u8> {
    Seq::new(32, |i: int| target_byte(bits, i))
}

/// Floor of the base-2 logarithm, with 0 for inputs up to 1.
pub open spec fn floor_log2(x: nat) -> nat
    decreases x,
{
    if x <= 1 {
        0
    } else {
        1 + floor_log2(x / 2)
    }
}

/// The ratio of target to actual blocks, in thousandths, clamped to [250, 4000].
pub open spec fn clamped_ratio(actual: nat, target: nat) -> nat {
    let r = (target * 1000) / actual;
    if r < 250 {
        250
    } else if r > 4000 {
        4000
    } else {
        r
    }
}

/// The difficulty after one adjustment step.
pub open spec fn adjusted_difficulty(prev: u8, actual: nat, target: nat) -> int {
    if actual == 0 {
        if prev == 255 {
            255
        } else {
            prev + 1
        }
    } else {
        let c = clamped_ratio(actual, target);
        if c > 1000 {
            let up = prev + floor_log2(c / 1000);
            if up > 255 {
                255
            } else {
                up
            }
        } else if c < 1000 {
            let down = prev - floor_log2(1000nat / c);
            if down < 1 {
                1
            } else {
                down
            }
        } else {
            prev as int
        }
    }
}

/// SHA-256 of `challenge` then `nonce`.
pub fn compute_hash(challenge: &[u8; 32], nonce: &[u8; 32]) -> (r: [u8; 32])
    ensures
        r@ == proof_hash(challenge@, nonce@),
{
    let mut buf: Vec<u8> = Vec::new();
    push_bytes32(&mut buf, challenge);
    push_bytes32(&mut buf, nonce);
    sha256(buf.as_slice())
}

/// Whether the proof's hash has at least `difficulty` leading zero bits.
pub fn verify(proof: &PoWProof, difficulty: u8) -> (r: bool)
    ensures
        r == (hash_difficulty(proof_hash(proof.challenge@, proof.nonce@)) >= difficulty),
{
    let hash = compute_hash(&proof.challenge, &proof.nonce);
    let actual = count_leading_zero_bits(&hash);
    actual >= difficulty
}

/// The difficulty the proof's hash achieves.
pub fn verify_and_get_difficulty(proof: &PoWProof) -> (r: u8)
    ensures
        r == hash_difficulty(proof_hash(proof.challenge@, proof.nonce@)),
{
    let hash = compute_hash(&proof.challenge, &proof.nonce);
    count_leading_zero_bits(&hash)
}

proof fn lemma_leading_zero_bits_prefix(s: Seq<u8>, i: int)
    requires
        0 <= i <= s.len(),
        forall|j: int| 0 <= j < i ==> s[j] == 0,
    ensures
        leading_zero_bits(s) == 8 * i + leading_zero_bits(s.subrange(i, s.len() as int)),
    decreases i,
{
    if i > 0 {
        let t = s.drop_first();
        lemma_leading_zero_bits_prefix(t, i - 1);
        assert(t.subrange(i - 1, t.len() as int) =~= s.subrange(i, s.len() as int));
    } else {
        assert(s.subrange(0, s.len() as int) =~= s);
    }
}

/// Leading zero bits of a 32-byte hash, 255 when all bits are zero.
pub fn count_leading_zero_bits(hash: &[u8; 32]) -> (r: u8)
    ensures
        r == hash_difficulty(hash@),
{
    let mut zero_bytes: u8 = 0;
    let mut i: usize = 0;
    while i < 32
        invariant
            i <= 32,
            zero_bytes == i,
            forall|j: int| 0 <= j < i ==> hash@[j] == 0,
        decreases 32 - i,
    {
        let byte = hash[i];
        if byte != 0 {
            let lz = byte.leading_zeros();
            proof {
                axiom_u8_leading_zeros(byte);
                lemma_leading_zero_bits_prefix(hash@, i as int);
                assert(hash@.subrange(i as int, 32)[0] == byte);
            }
            return zero_bytes * 8 + lz as u8;
        }
        zero_bytes = zero_bytes + 1;
        i = i + 1;
    }
    proof {
        lemma_leading_zero_bits_prefix(hash@, 32);
        assert(hash@.subrange(32, 32).len() == 0);
    }
    255
}

proof fn lemma_floor_log2_le(x: nat)
    ensures
        floor_log2(x) <= x,
        x > 1 ==> floor_log2(x) >= 1,
    decreases x,
{
    if x > 1 {
        lemma_floor_log2_le(x / 2);
    }
}

/// Floor of log2 of `x`, 0 for `x <= 1`.
fn log2_approx(x: u64) -> (r: u64)
    ensures
        r == floor_log2(x as nat),
{
    let mut v: u64 = x;
    let mut r: u64 = 0;
    proof {
        lemma_floor_log2_le(x as nat);
    }
    while v > 1
        invariant
            floor_log2(x as nat) == r + floor_log2(v as nat),
            floor_log2(x as nat) <= x,
        decreases v,
    {
        proof {
            lemma_floor_log2_le(v as nat);
        }
        v = v / 2;
        r = r + 1;
    }
    r
}

proof fn lemma_floor_log2_small()
    ensures
        floor_log2(0) == 0,
        floor_log2(1) == 0,
        floor_log2(2) == 1,
        floor_log2(3) == 1,
        floor_log2(4) == 2,
{
    reveal_with_fuel(floor_log2, 3);
}

/// Next difficulty from the previous one and the blocks taken versus the target.
pub fn adjust_difficulty(prev_difficulty: u8, actual_blocks: u64, target_blocks: u64) -> (r: u8)
    ensures
        r as int == adjusted_difficulty(prev_difficulty, actual_blocks as nat, target_blocks as nat),
        1 <= r || (actual_blocks != 0 && r == prev_difficulty),
{
    if actual_blocks == 0 {
        return prev_difficulty.saturating_add(1);
    }
    let ratio: u128 = (target_blocks as u128 * 1000) / actual_blocks as u128;
    let clamped: u64 = if ratio < 250 {
        250
    } else if ratio > 4000 {
        4000
    } else {
        ratio as u64
    };
    proof {
        lemma_floor_log2_small();
    }
    if clamped > 1000 {
        let bits = log2_approx(clamped / 1000);
        proof {
            assert(clamped / 1000 <= 4);
        }
        prev_difficulty.saturating_add(bits as u8)
    } else if clamped < 1000 {
        let bits = log2_approx(1000 / clamped);
        proof {
            vstd::arithmetic::div_mod::lemma_div_is_ordered_by_denominator(1000, 250, clamped as int);
            assert(1000u64 / clamped <= 4);
        }
        let down = prev_difficulty.saturating_sub(bits as u8);
        if down < 1 {
            1
        } else {
            down
        }
    } else {
        prev_difficulty
    }
}

/// The 32-byte target that a hash must not exceed to have `difficulty_bits`
/// leading zero bits; all zero for 255 and above.
pub fn difficulty_to_target(difficulty_bits: u8) -> (r: [u8; 32])
    ensures
        r@ == target_of(difficulty_bits),
{
    if difficulty_bits >= 255 {
        let z = [0u8; 32];
        proof {
            assert(z@ =~= target_of(difficulty_bits));
        }
        return z;
    }
    let mut target = [0xffu8; 32];
    let full_bytes: u8 = difficulty_bits / 8;
    let remaining_bits: u8 = difficulty_bits % 8;
    let mut i: usize = 0;
    while i < full_bytes as usize
        invariant
            full_bytes == difficulty_bits / 8,
            full_bytes < 32,
            i <= full_bytes,
            target@.len() == 32,
            forall|j: int| 0 <= j < i ==> target@[j] == 0,
            forall|j: int| i <= j < 32 ==> target@[j] == 0xff,
        decreases full_bytes - i,
    {
        target[i] = 0;
        i = i + 1;
    }
    target[full_bytes as usize] = 0xffu8 >> remaining_bits;
    proof {
        assert(target@ =~= target_of(difficulty_bits));
    }
    target
}

/// Whether `hash <= target` in lexicographic byte order.
pub fn meets_target(hash: &[u8; 32], target: &[u8; 32]) -> (r: bool)
    ensures
        r == lex_le(hash@, target@),
{
    let mut i: usize = 0;
    proof {
        assert(hash@.subrange(0, 32) =~= hash@);
        assert(target@.subrange(0, 32) =~= target@);
    }
    while i < 32
        invariant
            i <= 32,
            lex_le(hash@, target@) == lex_le(hash@.subrange(i as int, 32), target@.subrange(i as int, 32)),
        decreases 32 - i,
    {
        let ghost a = hash@.subrange(i as int, 32);
        let ghost b = target@.subrange(i as int, 32);
        proof {
            assert(a.drop_first() =~= hash@.subrange(i + 1, 32));
            assert(b.drop_first() =~= target@.subrange(i + 1, 32));
        }
        if hash[i] < target[i] {
            return true;
        }
        if hash[i] > target[i] {
            return false;
        }
        i = i + 1;
    }
    true
}

/// The challenge of a cell transition: SHA-256 of pair id, batch id
/// (8 bytes little-endian) and previous state hash.
pub fn generate_challenge(pair_id: &[u8; 32], batch_id: u64, prev_state_hash: &[u8; 32]) -> (r: [u8; 32])
    ensures
        r@ == sha256_of(pair_id@ + le_bytes(batch_id as nat, 8) + prev_state_hash@),
{
    let mut buf: Vec<u8> = Vec::new();
    push_bytes32(&mut buf, pair_id);
    push_le(&mut buf, batch_id as u128, 8);
    push_bytes32(&mut buf, prev_state_hash);
    sha256(buf.as_slice())
}

/// A challenge that also binds the window of `window_blocks` blocks that
/// `block_number` falls in.
pub fn generate_challenge_with_window(
    pair_id: &[u8; 32],
    batch_id: u64,
    prev_state_hash: &[u8; 32],
    block_number: u64,
    window_blocks: u64,
) -> (r: [u8; 32])
    requires
        window_blocks > 0,
    ensures
        r@ == sha256_of(
            pair_id@ + le_bytes(batch_id as nat, 8) + prev_state_hash@ + le_bytes(
                (block_number / window_blocks) as nat,
                8,
            ),
        ),
{
    let window = block_number / window_blocks;
    let mut buf: Vec<u8> = Vec::new();
    push_bytes32(&mut buf, pair_id);
    push_le(&mut buf, batch_id as u128, 8);
    push_bytes32(&mut buf, prev_state_hash);
    push_le(&mut buf, window as u128, 8);
    sha256(buf.as_slice())
}

/// Value of a proof: `base_value * 2^(min(difficulty, 64) - 8)`, saturating,
/// and `base_value` itself at difficulty 8 or below.
pub fn difficulty_to_value(difficulty: u8, base_value: u64) -> (r: u64)
    ensures
        difficulty <= BASE_DIFFICULTY ==> r == base_value,
        difficulty > BASE_DIFFICULTY ==> {
            let shift = (if difficulty > 64 {
                64
            } else {
                difficulty
            }) - BASE_DIFFICULTY;
            let v = base_value * pow2(shift as nat);
            r == (if v > u64::MAX {
                u64::MAX as int
            } else {
                v
            })
        },
{
    if difficulty <= BASE_DIFFICULTY {
        return base_value;
    }
    let effective: u8 = if difficulty > 64 {
        64
    } else {
        difficulty
    };
    let shift: u8 = effective - BASE_DIFFICULTY;
    let p = pow2_u64(shift as u32);
    match base_value.checked_mul(p) {
        Some(v) => v,
        None => u64::MAX,
    }
}

/// `2^e` for `e < 64`.
pub(crate) fn pow2_u64(e: u32) -> (r: u64)
    requires
        e < 64,
    ensures
        r == pow2(e as nat),
        r > 0,
{
    proof {
        vstd::arithmetic::power2::lemma_pow2_pos(e as nat);
    }
    let mut p: u64 = 1;
    let mut i: u32 = 0;
    proof {
        lemma2_to64();
    }
    while i < e
        invariant
            i <= e < 64,
            p == pow2(i as nat),
        decreases e - i,
    {
        proof {
            vstd::arithmetic::power2::lemma_pow2_unfold((i + 1) as nat);
            vstd::arithmetic::power2::lemma_pow2_strictly_increases((i + 1) as nat, 64);
            lemma2_to64();
        }
        p = p * 2;
        i = i + 1;
    }
    p
}

/// Fee discount in basis points: 500 per difficulty bit above 12, capped at
/// `max_discount_bps`.
pub fn difficulty_to_fee_discount(difficulty: u8, max_discount_bps: u64) -> (r: u64)
    ensures
        r == (if difficulty <= FEE_DISCOUNT_BASE_DIFFICULTY {
            0
        } else if (difficulty - FEE_DISCOUNT_BASE_DIFFICULTY) * FEE_DISCOUNT_SCALE > max_discount_bps {
            max_discount_bps as int
        } else {
            (difficulty - FEE_DISCOUNT_BASE_DIFFICULTY) * FEE_DISCOUNT_SCALE
        }),
{
    if difficulty <= FEE_DISCOUNT_BASE_DIFFICULTY {
        return 0;
    }
    let bits_above_base = (difficulty - FEE_DISCOUNT_BASE_DIFFICULTY) as u64;
    let discount = bits_above_base * FEE_DISCOUNT_SCALE;
    if discount > max_discount_bps {
        max_discount_bps
    } else {
        discount
    }
}

/// Expected number of hashes to reach `difficulty`: `2^difficulty`,
/// saturating at `u64::MAX` above 63.
pub fn estimate_hashes(difficulty: u8) -> (r: u64)
    ensures
        difficulty <= 63 ==> r == pow2(difficulty as nat),
        difficulty > 63 ==> r == u64::MAX,
{
    if difficulty == 0 {
        proof {
            lemma2_to64();
        }
        return 1;
    }
    if difficulty > 63 {
        return u64::MAX;
    }
    pow2_u64(difficulty as u32)
}

/// The hash that identifies a proof, for replay protection.
pub fn compute_proof_hash(challenge: &[u8; 32], nonce: &[u8; 32]) -> (r: [u8; 32])
    ensures
        r@ == proof_hash(challenge@, nonce@),
{
    compute_hash(challenge, nonce)
}

/// A proof is well formed when neither its challenge nor its nonce is all zero.
pub fn is_valid_proof_structure(proof: &PoWProof) -> (r: bool)
    ensures
        r == (proof.challenge@ != Seq::new(32, |i: int| 0u8) && proof.nonce@ != Seq::new(
            32,
            |i: int| 0u8,
        )),
{
    !crate::codec::is_zero32(&proof.challenge) && !crate::codec::is_zero32(&proof.nonce)
}

proof fn lemma_lex_lt_at(a: Seq<u8>, b: Seq<u8>, i: int)
    requires
        0 <= i < a.len(),
        i < b.len(),
        forall|j: int| 0 <= j < i ==> a[j] == b[j],
        a[i] < b[i],
    ensures
        lex_lt(a, b),
    decreases i,
{
    if i > 0 {
        lemma_lex_lt_at(a.drop_first(), b.drop_first(), i - 1);
    }
}

/// Raising the difficulty strictly lowers the target in byte order.
pub proof fn lemma_target_monotonic(d1: u8, d2: u8)
    requires
        d1 < d2,
    ensures
        lex_lt(target_of(d2), target_of(d1)),
{
    let t1 = target_of(d1);
    let t2 = target_of(d2);
    let r1 = d1 % 8;
    let r2 = d2 % 8;
    assert(0xffu8 >> r1 >= 1) by (bit_vector)
        requires
            r1 < 8,
    ;
    let i = (d1 / 8) as int;
    if d2 >= 255 || d2 / 8 > d1 / 8 {
        lemma_lex_lt_at(t2, t1, i);
    } else {
        assert(0xffu8 >> r2 < 0xffu8 >> r1) by (bit_vector)
            requires
                r1 < r2 < 8,
        ;
        lemma_lex_lt_at(t2, t1, i);
    }
}

/// The nonce tried in round `i` of mining: SHA-256 of `i` (8 bytes
/// little-endian) then the challenge.
pub open spec fn candidate_nonce(challenge: Seq<u8>, i: nat) -> Seq<u8> {
    sha256_of(le_bytes(i, 8) + challenge)
}

/// The nonce of round `i` reaches `difficulty`.
pub open spec fn candidate_works(challenge: Seq<u8>, i: nat, difficulty: u8) -> bool {
    hash_difficulty(proof_hash(challenge, candidate_nonce(challenge, i))) >= difficulty
}

/// Searches nonces `SHA-256(i ‖ challenge)` for `i` below `max_iterations`
/// and returns the first one that reaches `difficulty`.
pub fn mine(challenge: &[u8; 32], difficulty: u8, max_iterations: u64) -> (r: Option<[u8; 32]>)
    ensures
        r is None <==> forall|i: nat| i < max_iterations ==> !#[trigger] candidate_works(
            challenge@,
            i,
            difficulty,
        ),
        r matches Some(nonce) ==> exists|i: nat|
            i < max_iterations && nonce@ == #[trigger] candidate_nonce(challenge@, i)
                && candidate_works(challenge@, i, difficulty) && forall|j: nat|
                j < i ==> !#[trigger] candidate_works(challenge@, j, difficulty),
{
    let mut i: u64 = 0;
    while i < max_iterations
        invariant
            i <= max_iterations,
            forall|j: nat| j < i ==> !#[trigger] candidate_works(challenge@, j, difficulty),
        decreases max_iterations - i,
    {
        let mut buf: Vec<u8> = Vec::new();
        push_le(&mut buf, i as u128, 8);
        push_bytes32(&mut buf, challenge);
        proof {
            assert(buf@ =~= le_bytes(i as nat, 8) + challenge@);
        }
        let nonce = sha256(buf.as_slice());
        if verify(&PoWProof { challenge: *challenge, nonce }, difficulty) {
            proof {
                assert(candidate_works(challenge@, i as nat, difficulty));
                assert(nonce@ == candidate_nonce(challenge@, i as nat));
            }
            return Some(nonce);
        }
        proof {
            assert(!candidate_works(challenge@, i as nat, difficulty));
        }
        i = i + 1;
    }
    None
}

} // verus!
