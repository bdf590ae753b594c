//! The cipher context and the ECB block cipher driver.
//!
//! A context is an immutable bundle of the 16 S-boxes generated from a
//! 32-byte key; the raw key is consumed by construction and not retained.
//! Encryption pads the message and transforms each 8-byte block
//! independently; decryption validates the ciphertext length, inverts each
//! block, and removes the padding, rejecting malformed padding explicitly.
use crate::errors::EdesError;
use crate::feistel::decrypt_block;
use crate::feistel::encrypt_block;
use crate::feistel::feistel_output;
use crate::feistel::lemma_block_inverse;
use crate::feistel::lemma_encrypt_block_len;
use crate::feistel::round_backward;
use crate::feistel::round_forward;
use crate::feistel::wf_sboxes;
use crate::padding::pad_amount;
use crate::padding::pkcs7_pad;
use crate::padding::pkcs7_unpad;
use crate::padding::spec_pad;
use crate::padding::spec_unpad;
use crate::feistel::chain_index;
use crate::sbox::gen_sboxes;
use crate::sbox::spec_sboxes;
use vstd::prelude::*;

verus! {

/// The 8-byte block of `data` at block index `k`.
pub open spec fn block_at(data: Seq<u8>, k: int) -> Seq<u8> {
    data.subrange(8 * k, 8 * k + 8)
}

/// ECB encryption of a block-aligned buffer: every block is transformed
/// independently by the 16 forward rounds, in original block order.
pub open spec fn ecb_encrypt(data: Seq<u8>, sboxes: Seq<Seq<u8>>) -> Seq<u8> {
    Seq::new(data.len(), |i: int| encrypt_block(sboxes, block_at(data, i / 8), 16)[i % 8])
}

/// ECB decryption of a block-aligned buffer: every block is transformed
/// independently by the 16 backward rounds, in original block order.
pub open spec fn ecb_decrypt(data: Seq<u8>, sboxes: Seq<Seq<u8>>) -> Seq<u8> {
    Seq::new(data.len(), |i: int| decrypt_block(sboxes, block_at(data, i / 8), 16)[i % 8])
}

/// What encryption returns: the message padded, then transformed block by
/// block.
pub open spec fn spec_encrypt(message: Seq<u8>, sboxes: Seq<Seq<u8>>) -> Seq<u8> {
    ecb_encrypt(spec_pad(message), sboxes)
}

/// What decryption returns: an error for a length that cannot have come
/// out of encryption, otherwise the block-wise inverse transform followed
/// by unpadding, which rejects a malformed final byte.
pub open spec fn spec_decrypt(ciphertext: Seq<u8>, sboxes: Seq<Seq<u8>>) -> Result<
    Seq<u8>,
    EdesError,
> {
    if ciphertext.len() == 0 || ciphertext.len() % 8 != 0 {
        Err(EdesError::InvalidCiphertextLength)
    } else {
        match spec_unpad(ecb_decrypt(ciphertext, sboxes)) {
            Some(message) => Ok(message),
            None => Err(EdesError::InvalidPadding),
        }
    }
}

/// The cipher context: the 16 S-boxes derived from one key. Immutable
/// after construction and reusable across unlimited encrypt and decrypt
/// calls.
pub struct EdesContext {
    sboxes: Vec<Vec<u8>>,
}

impl View for EdesContext {
    type V = Seq<Seq<u8>>;

    closed spec fn view(&self) -> Seq<Seq<u8>> {
        self.sboxes@.map_values(|b: Vec<u8>| b@)
    }
}

impl EdesContext {
    /// The context carries exactly 16 tables of 256 entries each.
    pub open spec fn wf(&self) -> bool {
        wf_sboxes(self@)
    }

    /// Builds a context from a key, which must be exactly 32 bytes;
    /// eagerly generates the 16 S-boxes and consumes the key.
    pub fn new(sha256_key: Vec<u8>) -> (r: Result<EdesContext, EdesError>)
        ensures
            sha256_key.len() == 32 ==> (r matches Ok(ctx) && ctx@ == spec_sboxes(sha256_key@)
                && ctx.wf()),
            sha256_key.len() != 32 ==> r == Err::<EdesContext, EdesError>(
                EdesError::InvalidKeyLength,
            ),
    {
        if sha256_key.len() != 32 {
            return Err(EdesError::InvalidKeyLength);
        }
        let ghost key_view = sha256_key@;
        let sboxes = gen_sboxes(sha256_key);
        let ctx = EdesContext { sboxes };
        proof {
            assert(ctx@ =~= spec_sboxes(key_view));
        }
        Ok(ctx)
    }
}

/// Computes the chained S-box lookup output for one 4-byte half, returned
/// as the output bytes in position order 0..=3.
fn chain_lookup(sbox: &Vec<u8>, h0: u8, h1: u8, h2: u8, h3: u8) -> (out: (u8, u8, u8, u8))
    requires
        sbox.len() == 256,
    ensures
        ({
            let o = feistel_output(sbox@, seq![h0, h1, h2, h3]);
            out.0 == o[0] && out.1 == o[1] && out.2 == o[2] && out.3 == o[3]
        }),
{
    let ghost half = seq![h0, h1, h2, h3];
    proof {
        assert(half[0] == h0 && half[1] == h1 && half[2] == h2 && half[3] == h3);
    }
    let mut index: u16 = h0 as u16;
    assert(index as int == chain_index(half, 0));
    let o3 = sbox[index as usize];
    index = (index + h1 as u16) % 256;
    assert(index as int == chain_index(half, 1));
    let o2 = sbox[index as usize];
    index = (index + h2 as u16) % 256;
    assert(index as int == chain_index(half, 2));
    let o1 = sbox[index as usize];
    index = (index + h3 as u16) % 256;
    assert(index as int == chain_index(half, 3));
    let o0 = sbox[index as usize];
    proof {
        let o = feistel_output(sbox@, half);
        assert(o[0] == sbox@[chain_index(half, 3)]);
        assert(o[1] == sbox@[chain_index(half, 2)]);
        assert(o[2] == sbox@[chain_index(half, 1)]);
        assert(o[3] == sbox@[chain_index(half, 0)]);
    }
    (o0, o1, o2, o3)
}

/// Encrypts a message under the given context. The output is the padded
/// message transformed block by block: its length is the message length
/// rounded up to the next multiple of 8, always strictly greater — between
/// 1 and 8 bytes are added.
pub fn encrypt(message: Vec<u8>, context: &EdesContext) -> (result: Vec<u8>)
    requires
        context.wf(),
        message.len() + 8 <= usize::MAX,
    ensures
        result@ == spec_encrypt(message@, context@),
        result@.len() % 8 == 0,
        message@.len() < result@.len() <= message@.len() + 8,
{
    let ghost msg = message@;
    let ghost sb = context@;
    let mut result = message;
    pkcs7_pad(&mut result);
    let ghost padded = result@;
    let num_blocks = result.len() / 8;
    proof {
        assert(8 * num_blocks == padded.len());
    }
    let mut block_id: usize = 0;
    while block_id < num_blocks
        invariant
            context.wf(),
            sb == context@,
            block_id <= num_blocks,
            result.len() == padded.len(),
            8 * num_blocks == padded.len(),
            forall|i: int|
                0 <= i < 8 * block_id ==> result@[i] == #[trigger] ecb_encrypt(padded, sb)[i],
            forall|i: int| 8 * block_id <= i < padded.len() ==> result@[i] == padded[i],
        decreases num_blocks - block_id,
    {
        let offset = block_id * 8;
        let mut l0 = result[offset];
        let mut l1 = result[offset + 1];
        let mut l2 = result[offset + 2];
        let mut l3 = result[offset + 3];
        let mut r0 = result[offset + 4];
        let mut r1 = result[offset + 5];
        let mut r2 = result[offset + 6];
        let mut r3 = result[offset + 7];
        let ghost orig_block = block_at(padded, block_id as int);
        proof {
            assert(orig_block =~= seq![l0, l1, l2, l3, r0, r1, r2, r3]);
        }
        let mut round: usize = 0;
        while round < 16
            invariant
                round <= 16,
                context.wf(),
                sb == context@,
                orig_block.len() == 8,
                seq![l0, l1, l2, l3, r0, r1, r2, r3] == encrypt_block(sb, orig_block, round as int),
            decreases 16 - round,
        {
            let sbox = &context.sboxes[round];
            proof {
                assert(sbox@ == sb[round as int]);
                assert(sbox@.len() == 256);
            }
            let ghost cur = seq![l0, l1, l2, l3, r0, r1, r2, r3];
            let (o0, o1, o2, o3) = chain_lookup(sbox, r0, r1, r2, r3);
            let nr0 = l0 ^ o0;
            let nr1 = l1 ^ o1;
            let nr2 = l2 ^ o2;
            let nr3 = l3 ^ o3;
            l0 = r0;
            l1 = r1;
            l2 = r2;
            l3 = r3;
            r0 = nr0;
            r1 = nr1;
            r2 = nr2;
            r3 = nr3;
            proof {
                assert(cur.subrange(0, 4) =~= seq![cur[0], cur[1], cur[2], cur[3]]);
                assert(cur.subrange(4, 8) =~= seq![l0, l1, l2, l3]);
                assert(seq![l0, l1, l2, l3, r0, r1, r2, r3] =~= round_forward(sbox@, cur));
            }
            round = round + 1;
        }
        proof {
            assert(seq![l0, l1, l2, l3, r0, r1, r2, r3] == encrypt_block(sb, orig_block, 16));
        }
        result[offset] = l0;
        result[offset + 1] = l1;
        result[offset + 2] = l2;
        result[offset + 3] = l3;
        result[offset + 4] = r0;
        result[offset + 5] = r1;
        result[offset + 6] = r2;
        result[offset + 7] = r3;
        proof {
            let fin = seq![l0, l1, l2, l3, r0, r1, r2, r3];
            assert forall|i: int|
                8 * block_id <= i < 8 * block_id + 8 implies result@[i] == #[trigger] ecb_encrypt(
                padded,
                sb,
            )[i] by {
                let p = i - 8 * block_id;
                assert(i / 8 == block_id as int);
                assert(i % 8 == p);
                assert(result@[i] == fin[p]);
                assert(block_at(padded, block_id as int) == orig_block);
            }
        }
        block_id = block_id + 1;
    }
    proof {
        assert(result@ =~= ecb_encrypt(padded, sb));
    }
    result
}

/// Decrypts a ciphertext under the given context. The ciphertext length
/// must be a positive multiple of 8 and the recovered padding must be
/// well-formed; each failure is reported as its own error.
pub fn decrypt(ciphertext: Vec<u8>, context: &EdesContext) -> (r: Result<Vec<u8>, EdesError>)
    requires
        context.wf(),
    ensures
        ({
            match spec_decrypt(ciphertext@, context@) {
                Ok(message) => r matches Ok(v) && v@ == message,
                Err(e) => r == Err::<Vec<u8>, EdesError>(e),
            }
        }),
{
    if ciphertext.len() == 0 || ciphertext.len() % 8 != 0 {
        return Err(EdesError::InvalidCiphertextLength);
    }
    let ghost ct = ciphertext@;
    let ghost sb = context@;
    let mut result = ciphertext;
    let num_blocks = result.len() / 8;
    proof {
        assert(8 * num_blocks == ct.len());
    }
    let mut block_id: usize = 0;
    while block_id < num_blocks
        invariant
            context.wf(),
            sb == context@,
            block_id <= num_blocks,
            result.len() == ct.len(),
            8 * num_blocks == ct.len(),
            forall|i: int|
                0 <= i < 8 * block_id ==> result@[i] == #[trigger] ecb_decrypt(ct, sb)[i],
            forall|i: int| 8 * block_id <= i < ct.len() ==> result@[i] == ct[i],
        decreases num_blocks - block_id,
    {
        let offset = block_id * 8;
        let mut l0 = result[offset];
        let mut l1 = result[offset + 1];
        let mut l2 = result[offset + 2];
        let mut l3 = result[offset + 3];
        let mut r0 = result[offset + 4];
        let mut r1 = result[offset + 5];
        let mut r2 = result[offset + 6];
        let mut r3 = result[offset + 7];
        let ghost orig_block = block_at(ct, block_id as int);
        proof {
            assert(orig_block =~= seq![l0, l1, l2, l3, r0, r1, r2, r3]);
        }
        let mut round: usize = 16;
        while round > 0
            invariant
                round <= 16,
                context.wf(),
                sb == context@,
                orig_block.len() == 8,
                seq![l0, l1, l2, l3, r0, r1, r2, r3].len() == 8,
                decrypt_block(sb, seq![l0, l1, l2, l3, r0, r1, r2, r3], round as int)
                    == decrypt_block(sb, orig_block, 16),
            decreases round,
        {
            let sbox = &context.sboxes[round - 1];
            proof {
                assert(sbox@ == sb[round as int - 1]);
                assert(sbox@.len() == 256);
            }
            let ghost cur = seq![l0, l1, l2, l3, r0, r1, r2, r3];
            let (o0, o1, o2, o3) = chain_lookup(sbox, l0, l1, l2, l3);
            let nl0 = r0 ^ o0;
            let nl1 = r1 ^ o1;
            let nl2 = r2 ^ o2;
            let nl3 = r3 ^ o3;
            r0 = l0;
            r1 = l1;
            r2 = l2;
            r3 = l3;
            l0 = nl0;
            l1 = nl1;
            l2 = nl2;
            l3 = nl3;
            proof {
                assert(cur.subrange(0, 4) =~= seq![r0, r1, r2, r3]);
                assert(cur.subrange(4, 8) =~= seq![cur[4], cur[5], cur[6], cur[7]]);
                assert(seq![l0, l1, l2, l3, r0, r1, r2, r3] =~= round_backward(sbox@, cur));
            }
            round = round - 1;
        }
        proof {
            assert(seq![l0, l1, l2, l3, r0, r1, r2, r3] == decrypt_block(sb, orig_block, 16));
        }
        result[offset] = l0;
        result[offset + 1] = l1;
        result[offset + 2] = l2;
        result[offset + 3] = l3;
        result[offset + 4] = r0;
        result[offset + 5] = r1;
        result[offset + 6] = r2;
        result[offset + 7] = r3;
        proof {
            let fin = seq![l0, l1, l2, l3, r0, r1, r2, r3];
            assert forall|i: int|
                8 * block_id <= i < 8 * block_id + 8 implies result@[i] == #[trigger] ecb_decrypt(
                ct,
                sb,
            )[i] by {
                let p = i - 8 * block_id;
                assert(i / 8 == block_id as int);
                assert(i % 8 == p);
                assert(result@[i] == fin[p]);
                assert(block_at(ct, block_id as int) == orig_block);
            }
        }
        block_id = block_id + 1;
    }
    proof {
        assert(result@ =~= ecb_decrypt(ct, sb));
    }
    match pkcs7_unpad(&mut result) {
        Ok(_) => Ok(result),
        Err(e) => Err(e),
    }
}

/// Determinism: encryption has no hidden input. Any two ciphertexts
/// produced from the same message under contexts built from the same key
/// are byte-for-byte identical.
pub proof fn lemma_encrypt_deterministic(
    message: Seq<u8>,
    key: Seq<u8>,
    c1: Seq<u8>,
    c2: Seq<u8>,
)
    requires
        c1 == spec_encrypt(message, spec_sboxes(key)),
        c2 == spec_encrypt(message, spec_sboxes(key)),
    ensures
        c1 == c2,
{
}

/// Padding bound: the ciphertext length is always a multiple of 8 and
/// exceeds the message length by at least 1 and at most 8 bytes.
pub proof fn lemma_ciphertext_length(message: Seq<u8>, sboxes: Seq<Seq<u8>>)
    ensures
        spec_encrypt(message, sboxes).len() % 8 == 0,
        message.len() < spec_encrypt(message, sboxes).len() <= message.len() + 8,
{
    assert(spec_pad(message).len() == message.len() + pad_amount(message.len()));
}

/// Inverting every block of an ECB-encrypted, block-aligned buffer
/// restores the buffer.
pub proof fn lemma_ecb_inverse(data: Seq<u8>, sboxes: Seq<Seq<u8>>)
    requires
        data.len() % 8 == 0,
    ensures
        ecb_decrypt(ecb_encrypt(data, sboxes), sboxes) == data,
{
    let e = ecb_encrypt(data, sboxes);
    assert forall|i: int| 0 <= i < data.len() implies ecb_decrypt(e, sboxes)[i] == data[i] by {
        let k = i / 8;
        let p = i % 8;
        assert(8 * k + p == i);
        assert(8 * k + 8 <= data.len());
        let b = block_at(data, k);
        assert(b.len() == 8);
        lemma_encrypt_block_len(sboxes, b, 16);
        assert(block_at(e, k) =~= encrypt_block(sboxes, b, 16)) by {
            assert forall|q: int| 0 <= q < 8 implies block_at(e, k)[q] == encrypt_block(
                sboxes,
                b,
                16,
            )[q] by {
                assert(e[8 * k + q] == encrypt_block(sboxes, block_at(data, (8 * k + q) / 8), 16)[(8
                    * k + q) % 8]);
                assert((8 * k + q) / 8 == k);
                assert((8 * k + q) % 8 == q);
            }
        }
        lemma_block_inverse(sboxes, b, 16);
        assert(ecb_decrypt(e, sboxes)[i] == decrypt_block(sboxes, block_at(e, k), 16)[p]);
    }
    assert(ecb_decrypt(e, sboxes) =~= data);
}

/// Round-trip law: for every message (including the empty one) and every
/// bundle of S-boxes — in particular those generated from any 32-byte key —
/// decrypting the encryption succeeds and returns exactly the message.
pub proof fn lemma_round_trip(message: Seq<u8>, sboxes: Seq<Seq<u8>>)
    ensures
        spec_decrypt(spec_encrypt(message, sboxes), sboxes) == Ok::<Seq<u8>, EdesError>(message),
{
    let n = message.len();
    let v = pad_amount(n);
    let padded = spec_pad(message);
    assert(padded.len() == n + v);
    assert(1 <= v <= 8);
    assert(padded.len() % 8 == 0);
    let c = ecb_encrypt(padded, sboxes);
    assert(c.len() == padded.len());
    lemma_ecb_inverse(padded, sboxes);
    assert(padded[padded.len() - 1] == v as u8);
    assert(spec_unpad(padded) == Some(padded.take(padded.len() - v)));
    assert(padded.take(n as int) =~= message);
}

} // verus!
