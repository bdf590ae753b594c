//! PKCS#7-style padding codec for 8-byte blocks.
//!
//! Padding always adds between 1 and 8 bytes, each equal to the number of
//! bytes added, so the padded length is a positive multiple of 8 even when
//! the input is already block-aligned.
use crate::errors::EdesError;
use vstd::prelude::*;

verus! {

/// How many bytes padding adds to a payload of length `n`: always in 1..=8,
/// and exactly enough to reach the next multiple of 8 (a full extra block
/// when `n` is already a multiple of 8).
pub open spec fn pad_amount(n: nat) -> nat {
    if n % 8 == 0 {
        8
    } else {
        (8 - n % 8) as nat
    }
}

/// A payload with its padding appended: `pad_amount(n)` bytes, each holding
/// the value `pad_amount(n)`.
pub open spec fn spec_pad(data: Seq<u8>) -> Seq<u8> {
    data + Seq::new(pad_amount(data.len()), |i: int| pad_amount(data.len()) as u8)
}

/// What unpadding yields: `None` when the buffer is empty or its final byte
/// is 0 or exceeds the buffer length (malformed padding), otherwise the
/// buffer with that many trailing bytes removed.
pub open spec fn spec_unpad(data: Seq<u8>) -> Option<Seq<u8>> {
    if data.len() == 0 {
        None
    } else {
        let v = data[data.len() - 1] as int;
        if v == 0 || v > data.len() {
            None
        } else {
            Some(data.take(data.len() - v))
        }
    }
}

/// Appends PKCS#7-style padding in place.
pub fn pkcs7_pad(payload: &mut Vec<u8>)
    requires
        old(payload).len() + 8 <= usize::MAX,
    ensures
        final(payload)@ == spec_pad(old(payload)@),
        final(payload).len() == old(payload).len() + pad_amount(old(payload)@.len()),
        final(payload).len() % 8 == 0,
{
    let payload_len = payload.len();
    let padding_value: usize = if payload_len % 8 == 0 {
        8
    } else {
        8 - payload_len % 8
    };
    assert(padding_value == pad_amount(old(payload)@.len()));
    let mut added: usize = 0;
    while added < padding_value
        invariant
            added <= padding_value,
            padding_value == pad_amount(old(payload)@.len()),
            payload_len == old(payload).len(),
            payload_len + 8 <= usize::MAX,
            payload@ == old(payload)@ + Seq::new(added as nat, |i: int| padding_value as u8),
        decreases padding_value - added,
    {
        payload.push(padding_value as u8);
        added = added + 1;
        assert(payload@ =~= old(payload)@ + Seq::new(added as nat, |i: int| padding_value as u8));
    }
    assert(payload@ =~= spec_pad(old(payload)@));
}

/// Removes PKCS#7-style padding in place, rejecting a malformed final byte
/// (value 0, or greater than the buffer length) instead of reading out of
/// range. On rejection the payload is left unchanged.
pub fn pkcs7_unpad(payload: &mut Vec<u8>) -> (r: Result<(), EdesError>)
    ensures
        spec_unpad(old(payload)@) is Some ==> r is Ok && final(payload)@ == spec_unpad(
            old(payload)@,
        ).unwrap(),
        spec_unpad(old(payload)@) is None ==> r == Err::<(), EdesError>(EdesError::InvalidPadding)
            && final(payload)@ == old(payload)@,
{
    let len = payload.len();
    if len == 0 {
        return Err(EdesError::InvalidPadding);
    }
    let padding_value = payload[len - 1];
    if padding_value == 0 || padding_value as usize > len {
        return Err(EdesError::InvalidPadding);
    }
    payload.truncate(len - padding_value as usize);
    assert(payload@ =~= spec_unpad(old(payload)@).unwrap());
    Ok(())
}

} // verus!
