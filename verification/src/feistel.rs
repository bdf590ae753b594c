//! The Feistel round engine: one reversible round transform over an 8-byte
//! block, and the 16-round forward and backward block transforms built on
//! it. Running the 16 backward rounds in descending order exactly undoes
//! the 16 forward rounds — proved here as [`lemma_block_inverse`] — even
//! though the per-round function is not itself invertible.
use vstd::prelude::*;

verus! {

/// The chained lookup index after consuming bytes `0..=k` of a 4-byte
/// half: the running sum of the bytes so far, modulo 256.
pub open spec fn chain_index(half: Seq<u8>, k: int) -> int
    decreases k,
{
    if k <= 0 {
        half[0] as int
    } else {
        (chain_index(half, k - 1) + half[k]) % 256
    }
}

/// The 4-byte output of one round's chained S-box lookup. Input bytes are
/// consumed in forward order while output bytes are filled in reverse
/// position order: output position `p` holds the lookup for input byte
/// `3 - p`.
pub open spec fn feistel_output(sbox: Seq<u8>, half: Seq<u8>) -> Seq<u8> {
    Seq::new(4, |p: int| sbox[chain_index(half, 3 - p)])
}

/// Byte-wise XOR of two 4-byte halves.
pub open spec fn xor4(a: Seq<u8>, b: Seq<u8>) -> Seq<u8> {
    Seq::new(4, |p: int| a[p] ^ b[p])
}

/// One encryption round: the new left half is the old right half, and the
/// new right half is the old left half XORed with the lookup output of the
/// old right half.
pub open spec fn round_forward(sbox: Seq<u8>, block: Seq<u8>) -> Seq<u8> {
    let left = block.subrange(0, 4);
    let right = block.subrange(4, 8);
    right + xor4(left, feistel_output(sbox, right))
}

/// One decryption round, the mirror image: the lookup is computed from the
/// current left half, the XOR lands in the new left half, and the old left
/// half becomes the new right half.
pub open spec fn round_backward(sbox: Seq<u8>, block: Seq<u8>) -> Seq<u8> {
    let left = block.subrange(0, 4);
    let right = block.subrange(4, 8);
    xor4(right, feistel_output(sbox, left)) + left
}

/// The 16 S-boxes a cipher context carries: one 256-entry table per round.
pub open spec fn wf_sboxes(sboxes: Seq<Seq<u8>>) -> bool {
    sboxes.len() == 16 && forall|i: int| 0 <= i < 16 ==> (#[trigger] sboxes[i]).len() == 256
}

/// A block after the first `n` encryption rounds, round `i` using S-box `i`
/// in ascending order.
pub open spec fn encrypt_block(sboxes: Seq<Seq<u8>>, block: Seq<u8>, n: int) -> Seq<u8>
    decreases n,
{
    if n <= 0 {
        block
    } else {
        round_forward(sboxes[n - 1], encrypt_block(sboxes, block, n - 1))
    }
}

/// A block after the last `n` decryption rounds, rounds visited in
/// descending index order starting at `n - 1`.
pub open spec fn decrypt_block(sboxes: Seq<Seq<u8>>, block: Seq<u8>, n: int) -> Seq<u8>
    decreases n,
{
    if n <= 0 {
        block
    } else {
        decrypt_block(sboxes, round_backward(sboxes[n - 1], block), n - 1)
    }
}

pub proof fn lemma_encrypt_block_len(sboxes: Seq<Seq<u8>>, block: Seq<u8>, n: int)
    requires
        block.len() == 8,
    ensures
        encrypt_block(sboxes, block, n).len() == 8,
        decrypt_block(sboxes, block, n).len() == 8,
    decreases n,
{
    if n > 0 {
        lemma_encrypt_block_len(sboxes, block, n - 1);
        lemma_encrypt_block_len(sboxes, round_backward(sboxes[n - 1], block), n - 1);
    }
}

/// One backward round undoes one forward round (standard Feistel
/// reversibility: XORing the same lookup output twice restores the half).
proof fn lemma_round_inverse(sbox: Seq<u8>, block: Seq<u8>)
    requires
        block.len() == 8,
    ensures
        round_backward(sbox, round_forward(sbox, block)) == block,
{
    let left = block.subrange(0, 4);
    let right = block.subrange(4, 8);
    let f = round_forward(sbox, block);
    assert(f.subrange(0, 4) =~= right);
    assert(f.subrange(4, 8) =~= xor4(left, feistel_output(sbox, right)));
    let out = feistel_output(sbox, right);
    assert forall|p: int| 0 <= p < 4 implies xor4(xor4(left, out), out)[p] == left[p] by {
        let x = left[p];
        let y = out[p];
        assert((x ^ y) ^ y == x) by (bit_vector);
    }
    assert(round_backward(sbox, f) =~= block);
}

/// Running `n` backward rounds in descending order against a block
/// produced by `n` forward rounds restores the block exactly.
pub proof fn lemma_block_inverse(sboxes: Seq<Seq<u8>>, block: Seq<u8>, n: int)
    requires
        block.len() == 8,
    ensures
        decrypt_block(sboxes, encrypt_block(sboxes, block, n), n) == block,
    decreases n,
{
    if n > 0 {
        lemma_encrypt_block_len(sboxes, block, n - 1);
        lemma_round_inverse(sboxes[n - 1], encrypt_block(sboxes, block, n - 1));
        lemma_block_inverse(sboxes, block, n - 1);
    }
}

} // verus!
