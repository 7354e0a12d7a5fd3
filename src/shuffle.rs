//! Deterministic Fisher-Yates shuffle seeded from revealed secrets.
use crate::batch_math::MathError;
use crate::codec::{le_bytes, le_value, push_bytes32, push_le, read_le};
use crate::hashing::{sha256, sha256_of};
use vstd::prelude::*;

verus! {

/// Bytewise XOR of two 32-byte strings.
pub open spec fn xor32(a: Seq<u8>, b: Seq<u8>) -> Seq<u8> {
    Seq::new(32, |i: int| a[i] ^ b[i])
}

/// XOR of all secrets, starting from 32 zero bytes.
pub open spec fn xor_all(s: Seq<[u8; 32]>) -> Seq<u8>
    decreases s.len(),
{
    if s.len() == 0 {
        Seq::new(32, |i: int| 0u8)
    } else {
        xor32(xor_all(s.drop_last()), s.last()@)
    }
}

/// The shuffle seed of a list of secrets (without block entropy).
pub open spec fn seed_of(secrets: Seq<[u8; 32]>) -> Seq<u8> {
    sha256_of(xor_all(secrets) + le_bytes(secrets.len(), 8))
}

/// The shuffle seed of a list of secrets, mixed with the entropy of a later
/// block and the batch id.
pub open spec fn secure_seed_of(secrets: Seq<[u8; 32]>, entropy: Seq<u8>, batch_id: u64) -> Seq<u8> {
    sha256_of(
        xor_all(secrets) + entropy + le_bytes(batch_id as nat, 8) + le_bytes(secrets.len(), 8),
    )
}

/// The indices `0 .. n` in order.
pub open spec fn identity(n: nat) -> Seq<usize> {
    Seq::new(n, |k: int| k as usize)
}

/// Swaps positions `i` and `j`.
pub open spec fn swap_at(s: Seq<usize>, i: int, j: int) -> Seq<usize> {
    s.update(i, s[j]).update(j, s[i])
}

/// The seed that the step at position `i` draws from.
pub open spec fn next_seed(seed: Seq<u8>, i: nat) -> Seq<u8> {
    sha256_of(seed + le_bytes(i, 8))
}

/// Fisher-Yates from position `i` down to 1.
pub open spec fn fisher_yates(perm: Seq<usize>, seed: Seq<u8>, i: nat) -> Seq<usize>
    decreases i,
{
    if i == 0 {
        perm
    } else {
        let s2 = next_seed(seed, i);
        let j = le_value(s2.subrange(0, 8)) % (i + 1);
        fisher_yates(swap_at(perm, i as int, j as int), s2, (i - 1) as nat)
    }
}

/// The shuffled order of `0 .. n` under `seed`.
pub open spec fn shuffle_spec(n: nat, seed: Seq<u8>) -> Seq<usize> {
    if n == 0 {
        Seq::empty()
    } else {
        fisher_yates(identity(n), seed, (n - 1) as nat)
    }
}

/// `p` holds each of `0 .. n` exactly once.
pub open spec fn is_permutation(p: Seq<usize>, n: nat) -> bool {
    &&& p.len() == n
    &&& forall|a: int| 0 <= a < n ==> p[a] < n
    &&& forall|a: int, b: int| 0 <= a < n && 0 <= b < n && a != b ==> p[a] != p[b]
}

proof fn lemma_fisher_yates_len(perm: Seq<usize>, seed: Seq<u8>, i: nat)
    requires
        i < perm.len(),
    ensures
        fisher_yates(perm, seed, i).len() == perm.len(),
    decreases i,
{
    if i > 0 {
        let s2 = next_seed(seed, i);
        let j = le_value(s2.subrange(0, 8)) % (i + 1);
        lemma_fisher_yates_len(swap_at(perm, i as int, j as int), s2, (i - 1) as nat);
    }
}

/// XOR of all secrets.
fn xor_secrets(secrets: &[[u8; 32]]) -> (r: [u8; 32])
    ensures
        r@ == xor_all(secrets@),
{
    let mut acc = [0u8; 32];
    let mut k: usize = 0;
    proof {
        assert(secrets@.subrange(0, 0) =~= Seq::<[u8; 32]>::empty());
        assert(acc@ =~= xor_all(secrets@.subrange(0, 0)));
    }
    while k < secrets.len()
        invariant
            k <= secrets@.len(),
            acc@ == xor_all(secrets@.subrange(0, k as int)),
        decreases secrets@.len() - k,
    {
        let ghost prev = acc@;
        let secret = secrets[k];
        let mut i: usize = 0;
        while i < 32
            invariant
                i <= 32,
                acc@.len() == 32,
                forall|t: int| 0 <= t < i ==> acc@[t] == prev[t] ^ secret@[t],
                forall|t: int| i <= t < 32 ==> acc@[t] == prev[t],
            decreases 32 - i,
        {
            acc[i] = acc[i] ^ secret[i];
            i = i + 1;
        }
        proof {
            let s = secrets@.subrange(0, k + 1);
            assert(s.drop_last() =~= secrets@.subrange(0, k as int));
            assert(acc@ =~= xor32(prev, secret@));
        }
        k = k + 1;
    }
    proof {
        assert(secrets@.subrange(0, secrets@.len() as int) =~= secrets@);
    }
    acc
}

/// Seed from the secrets alone: SHA-256 of their XOR then their count.
pub fn generate_seed(secrets: &[[u8; 32]]) -> (r: [u8; 32])
    ensures
        r@ == seed_of(secrets@),
{
    let x = xor_secrets(secrets);
    let mut buf: Vec<u8> = Vec::new();
    push_bytes32(&mut buf, &x);
    push_le(&mut buf, secrets.len() as u128, 8);
    sha256(buf.as_slice())
}

/// Seed from the secrets, the entropy of a block after the reveal window and
/// the batch id: SHA-256 of XOR, entropy, batch id and count.
pub fn generate_seed_secure(secrets: &[[u8; 32]], block_entropy: &[u8; 32], batch_id: u64) -> (r: [
    u8;
    32
])
    ensures
        r@ == secure_seed_of(secrets@, block_entropy@, batch_id),
{
    let x = xor_secrets(secrets);
    let mut buf: Vec<u8> = Vec::new();
    push_bytes32(&mut buf, &x);
    push_bytes32(&mut buf, block_entropy);
    push_le(&mut buf, batch_id as u128, 8);
    push_le(&mut buf, secrets.len() as u128, 8);
    sha256(buf.as_slice())
}

/// The indices `0 .. length` shuffled by Fisher-Yates under `seed`.
pub fn shuffle_indices(length: usize, seed: &[u8; 32]) -> (r: Vec<usize>)
    ensures
        r@ == shuffle_spec(length as nat, seed@),
        is_permutation(r@, length as nat),
{
    let mut shuffled: Vec<usize> = Vec::new();
    if length == 0 {
        return shuffled;
    }
    let mut k: usize = 0;
    while k < length
        invariant
            k <= length,
            shuffled@ =~= identity(k as nat),
        decreases length - k,
    {
        shuffled.push(k);
        k = k + 1;
    }
    let mut current_seed: [u8; 32] = *seed;
    let mut i: usize = length - 1;
    while i > 0
        invariant
            i < length,
            shuffle_spec(length as nat, seed@) == fisher_yates(shuffled@, current_seed@, i as nat),
            is_permutation(shuffled@, length as nat),
        decreases i,
    {
        let mut buf: Vec<u8> = Vec::new();
        push_bytes32(&mut buf, &current_seed);
        push_le(&mut buf, i as u128, 8);
        current_seed = sha256(buf.as_slice());
        let j = u256_mod_from_bytes(&current_seed, i + 1);
        let ghost before = shuffled@;
        let a = shuffled[i];
        let b = shuffled[j];
        shuffled.set(i, b);
        shuffled.set(j, a);
        proof {
            assert(shuffled@ =~= swap_at(before, i as int, j as int));
            assert forall|x: int, y: int|
                0 <= x < length && 0 <= y < length && x != y implies shuffled@[x] != shuffled@[y] by {
                let sx = if x == i {
                    j as int
                } else if x == j {
                    i as int
                } else {
                    x
                };
                let sy = if y == i {
                    j as int
                } else if y == j {
                    i as int
                } else {
                    y
                };
                assert(shuffled@[x] == before[sx]);
                assert(shuffled@[y] == before[sy]);
            }
        }
        i = i - 1;
    }
    shuffled
}

/// Element `position` of the shuffled order.
pub fn get_shuffled_index(total_length: usize, position: usize, seed: &[u8; 32]) -> (r: Result<
    usize,
    MathError,
>)
    ensures
        position >= total_length ==> r == Err::<usize, MathError>(MathError::PositionOutOfBounds),
        position < total_length ==> r == Ok::<usize, MathError>(
            shuffle_spec(total_length as nat, seed@)[position as int],
        ),
{
    if position >= total_length {
        return Err(MathError::PositionOutOfBounds);
    }
    if total_length == 1 {
        proof {
            reveal_with_fuel(fisher_yates, 1);
            assert(shuffle_spec(1, seed@) == identity(1));
        }
        return Ok(0);
    }
    let shuffled = shuffle_indices(total_length, seed);
    Ok(shuffled[position])
}

/// Whether `claimed_indices` is exactly the shuffle of `0 .. original_length`
/// under `seed`.
pub fn verify_shuffle(original_length: usize, claimed_indices: &[usize], seed: &[u8; 32]) -> (r:
    bool)
    ensures
        r == (claimed_indices@ == shuffle_spec(original_length as nat, seed@)),
{
    if claimed_indices.len() != original_length {
        proof {
            if original_length > 0 {
                lemma_fisher_yates_len(identity(original_length as nat), seed@, (original_length - 1) as nat);
            }
        }
        return false;
    }
    let expected = shuffle_indices(original_length, seed);
    let mut i: usize = 0;
    while i < original_length
        invariant
            i <= original_length,
            claimed_indices@.len() == original_length,
            expected@.len() == original_length,
            expected@ == shuffle_spec(original_length as nat, seed@),
            forall|t: int| 0 <= t < i ==> claimed_indices@[t] == expected@[t],
        decreases original_length - i,
    {
        if claimed_indices[i] != expected[i] {
            proof {
                assert(claimed_indices@[i as int] != expected@[i as int]);
            }
            return false;
        }
        i = i + 1;
    }
    proof {
        assert(claimed_indices@ =~= expected@);
    }
    true
}

/// Priority orders `0 .. priority_count` in order, then the remaining orders
/// shuffled under `seed`.
pub fn partition_and_shuffle(total_orders: usize, priority_count: usize, seed: &[u8; 32]) -> (r: Vec<
    usize,
>)
    requires
        priority_count <= total_orders,
    ensures
        r@.len() == total_orders,
        forall|k: int| 0 <= k < priority_count ==> r@[k] == k,
        forall|k: int|
            priority_count <= k < total_orders ==> r@[k] == priority_count + shuffle_spec(
                (total_orders - priority_count) as nat,
                seed@,
            )[k - priority_count],
{
    let mut execution: Vec<usize> = Vec::new();
    let mut i: usize = 0;
    while i < priority_count
        invariant
            i <= priority_count,
            execution@.len() == i,
            forall|k: int| 0 <= k < i ==> execution@[k] == k,
        decreases priority_count - i,
    {
        execution.push(i);
        i = i + 1;
    }
    let regular_count = total_orders - priority_count;
    if regular_count > 0 {
        let regular = shuffle_indices(regular_count, seed);
        let mut k: usize = 0;
        while k < regular_count
            invariant
                k <= regular_count,
                regular_count == total_orders - priority_count,
                regular@ == shuffle_spec(regular_count as nat, seed@),
                is_permutation(regular@, regular_count as nat),
                execution@.len() == priority_count + k,
                forall|t: int| 0 <= t < priority_count ==> execution@[t] == t,
                forall|t: int|
                    priority_count <= t < priority_count + k ==> execution@[t] == priority_count
                        + regular@[t - priority_count],
            decreases regular_count - k,
        {
            execution.push(priority_count + regular[k]);
            k = k + 1;
        }
    }
    execution
}

/// The first 8 bytes of `bytes`, read little-endian, modulo `n`.
fn u256_mod_from_bytes(bytes: &[u8; 32], n: usize) -> (r: usize)
    requires
        n > 0,
    ensures
        r == le_value(bytes@.subrange(0, 8)) % (n as nat),
        r < n,
{
    let value = read_le(bytes.as_slice(), 0, 8);
    proof {
        crate::codec::lemma_pow256_values();
    }
    ((value as u64) % (n as u64)) as usize
}

/// Equal seeds give equal shuffles.
pub proof fn lemma_shuffle_deterministic(n: nat, s1: Seq<u8>, s2: Seq<u8>)
    requires
        s1 == s2,
    ensures
        shuffle_spec(n, s1) == shuffle_spec(n, s2),
{
}

} // verus!
