//! Key-dependent S-box generation.
//!
//! A 32-byte key deterministically yields 16 substitution tables of 256
//! bytes each. Generation is sequential and stateful across boxes: before
//! every box after the first, the working key is transformed in place, so
//! box `i` depends on the side effects of generating boxes `0..i`. Each
//! table starts as the identity permutation and is shuffled only by swaps,
//! which is why every generated table is itself a permutation of the byte
//! values — a fact proved here as [`lemma_sboxes_bijective`].
use vstd::prelude::*;

verus! {

/// The identity table: entry `i` holds the byte value `i`.
pub open spec fn sbox_identity() -> Seq<u8> {
    Seq::new(256, |i: int| i as u8)
}

/// The running sum of the first `n` key bytes, reduced modulo 256 at each
/// step; the shuffle's starting index over the whole 32-byte key.
pub open spec fn key_byte_sum(key: Seq<u8>, n: int) -> int
    decreases n,
{
    if n <= 0 {
        0
    } else {
        (key_byte_sum(key, n - 1) + key[n - 1]) % 256
    }
}

/// One in-place transform of the working key before generating box
/// `idx` (for `idx > 0`): each of the first 31 bytes becomes the next
/// byte XORed with the box index; the last byte is left untouched.
pub open spec fn next_working_key(key: Seq<u8>, idx: u8) -> Seq<u8> {
    Seq::new(32, |p: int| if p < 31 { key[p + 1] ^ idx } else { key[p] })
}

/// What the working key holds after the transforms for boxes `0..=i`:
/// box 0 leaves the key as given, box `i > 0` applies one transform with
/// its own index.
pub open spec fn working_key(key: Seq<u8>, i: int) -> Seq<u8>
    decreases i,
{
    if i <= 0 {
        key
    } else {
        next_working_key(working_key(key, i - 1), i as u8)
    }
}

/// The shuffle from position `i` to the end of the table: at each step the
/// sampled key position is `(table[i] + table[j]) mod 32`, the running index
/// `j` advances by that key byte modulo 256, and entries `i` and `j` are
/// swapped. Returns the final table together with the final running index.
pub open spec fn shuffle_from(sbox: Seq<u8>, j: int, key: Seq<u8>, i: int) -> (Seq<u8>, int)
    decreases 256 - i,
{
    if i < 0 || i >= 256 {
        (sbox, j)
    } else {
        let k = (sbox[i] + sbox[j]) % 32;
        let j2 = (j + key[k]) % 256;
        let swapped = sbox.update(i, sbox[j2]).update(j2, sbox[i]);
        shuffle_from(swapped, j2, key, i + 1)
    }
}

/// The S-box generated from one (already transformed) working key.
pub open spec fn spec_create_sbox(key: Seq<u8>) -> Seq<u8> {
    shuffle_from(sbox_identity(), key_byte_sum(key, 32), key, 0).0
}

/// All 16 S-boxes derived from a key, in round order.
pub open spec fn spec_sboxes(key: Seq<u8>) -> Seq<Seq<u8>> {
    Seq::new(16, |i: int| spec_create_sbox(working_key(key, i)))
}

/// The byte value `v` occurs somewhere in the table.
pub open spec fn appears(s: Seq<u8>, v: u8) -> bool {
    exists|i: int| 0 <= i < 256 && s[i] == v
}

/// The table is a permutation of the byte values: 256 entries, no two
/// entries equal, and every byte value present — so each value appears
/// exactly once.
pub open spec fn is_permutation(s: Seq<u8>) -> bool {
    &&& s.len() == 256
    &&& forall|x: int, y: int|
        0 <= x < 256 && 0 <= y < 256 && x != y ==> s[x] != s[y]
    &&& forall|v: u8| #[trigger] appears(s, v)
}

proof fn lemma_identity_is_permutation()
    ensures
        is_permutation(sbox_identity()),
{
    let s = sbox_identity();
    assert forall|v: u8| #[trigger] appears(s, v) by {
        assert(s[v as int] == v);
    }
}

/// Swapping two entries of a permutation leaves a permutation.
proof fn lemma_swap_preserves_permutation(s: Seq<u8>, a: int, b: int)
    requires
        is_permutation(s),
        0 <= a < 256,
        0 <= b < 256,
    ensures
        is_permutation(s.update(a, s[b]).update(b, s[a])),
{
    let t = s.update(a, s[b]).update(b, s[a]);
    assert forall|x: int, y: int|
        0 <= x < 256 && 0 <= y < 256 && x != y implies t[x] != t[y] by {
        let sx = if x == a { b } else if x == b { a } else { x };
        let sy = if y == a { b } else if y == b { a } else { y };
        assert(t[x] == s[sx]);
        assert(t[y] == s[sy]);
        assert(sx != sy);
    }
    assert forall|v: u8| #[trigger] appears(t, v) by {
        let w = choose|i: int| 0 <= i < 256 && s[i] == v;
        assert(appears(s, v));
        if w == a {
            assert(t[b] == v);
        } else if w == b {
            assert(t[a] == v);
        } else {
            assert(t[w] == v);
        }
    }
}

/// The shuffle only ever swaps existing entries, so it preserves being a
/// permutation, whatever the key and running index.
proof fn lemma_shuffle_preserves_permutation(sbox: Seq<u8>, j: int, key: Seq<u8>, i: int)
    requires
        is_permutation(sbox),
        0 <= j < 256,
        key.len() == 32,
    ensures
        is_permutation(shuffle_from(sbox, j, key, i).0),
    decreases 256 - i,
{
    if 0 <= i < 256 {
        let k = (sbox[i] + sbox[j]) % 32;
        let j2 = (j + key[k]) % 256;
        let swapped = sbox.update(i, sbox[j2]).update(j2, sbox[i]);
        lemma_swap_preserves_permutation(sbox, i, j2);
        lemma_shuffle_preserves_permutation(swapped, j2, key, i + 1);
    }
}

proof fn lemma_key_byte_sum_bounds(key: Seq<u8>, n: int)
    ensures
        0 <= key_byte_sum(key, n) < 256,
    decreases n,
{
    if n > 0 {
        lemma_key_byte_sum_bounds(key, n - 1);
    }
}

proof fn lemma_working_key_len(key: Seq<u8>, i: int)
    requires
        key.len() == 32,
    ensures
        working_key(key, i).len() == 32,
    decreases i,
{
    if i > 0 {
        lemma_working_key_len(key, i - 1);
    }
}

/// The S-box generated from any 32-byte working key is a permutation.
pub proof fn lemma_create_sbox_permutation(key: Seq<u8>)
    requires
        key.len() == 32,
    ensures
        is_permutation(spec_create_sbox(key)),
{
    lemma_identity_is_permutation();
    lemma_key_byte_sum_bounds(key, 32);
    lemma_shuffle_preserves_permutation(sbox_identity(), key_byte_sum(key, 32), key, 0);
}

/// S-box bijectivity: for any 32-byte key, each of the 16 generated tables
/// contains each byte value 0..=255 exactly once — no two entries are equal
/// and every value appears.
pub proof fn lemma_sboxes_bijective(key: Seq<u8>)
    requires
        key.len() == 32,
    ensures
        forall|i: int| 0 <= i < 16 ==> is_permutation(#[trigger] spec_sboxes(key)[i]),
{
    assert forall|i: int| 0 <= i < 16 implies is_permutation(#[trigger] spec_sboxes(key)[i]) by {
        lemma_working_key_len(key, i);
        lemma_create_sbox_permutation(working_key(key, i));
    }
}

/// Generates one S-box from the current working key, transforming the key
/// in place first when the box index is positive.
pub fn create_sbox(key: &mut Vec<u8>, sbox_index: u8) -> (sbox: Vec<u8>)
    requires
        old(key).len() == 32,
    ensures
        final(key)@ == if sbox_index == 0 {
            old(key)@
        } else {
            next_working_key(old(key)@, sbox_index)
        },
        final(key).len() == 32,
        sbox@ == spec_create_sbox(final(key)@),
        sbox.len() == 256,
{
    if sbox_index > 0 {
        let mut p: usize = 0;
        while p < 31
            invariant
                p <= 31,
                key@.len() == 32,
                forall|q: int| 0 <= q < p ==> key@[q] == old(key)@[q + 1] ^ sbox_index,
                forall|q: int| p <= q < 32 ==> key@[q] == old(key)@[q],
            decreases 31 - p,
        {
            let v = key[p + 1] ^ sbox_index;
            key[p] = v;
            p = p + 1;
        }
        assert(key@ =~= next_working_key(old(key)@, sbox_index));
    }
    let ghost wkey = key@;

    let mut sbox: Vec<u8> = Vec::new();
    let mut x: usize = 0;
    while x < 256
        invariant
            x <= 256,
            sbox.len() == x,
            forall|q: int| 0 <= q < x ==> sbox@[q] == q as u8,
        decreases 256 - x,
    {
        sbox.push(x as u8);
        x = x + 1;
    }
    assert(sbox@ =~= sbox_identity());

    let mut j: u16 = 0;
    let mut i: usize = 0;
    while i < 32
        invariant
            i <= 32,
            key@ == wkey,
            key@.len() == 32,
            j < 256,
            j as int == key_byte_sum(wkey, i as int),
        decreases 32 - i,
    {
        j = (j + key[i] as u16) % 256;
        i = i + 1;
    }

    let mut i2: usize = 0;
    while i2 < 256
        invariant
            i2 <= 256,
            key@ == wkey,
            key@.len() == 32,
            sbox.len() == 256,
            j < 256,
            shuffle_from(sbox@, j as int, wkey, i2 as int) == shuffle_from(
                sbox_identity(),
                key_byte_sum(wkey, 32),
                wkey,
                0,
            ),
        decreases 256 - i2,
    {
        let ghost pre_sbox = sbox@;
        let ghost pre_j = j as int;
        let k = ((sbox[i2] as u16 + sbox[j as usize] as u16) % 32) as usize;
        assert(k as int == (pre_sbox[i2 as int] + pre_sbox[pre_j]) % 32);
        let j_new = (j + key[k] as u16) % 256;
        let p = sbox[i2];
        let q = sbox[j_new as usize];
        sbox[i2] = q;
        sbox[j_new as usize] = p;
        assert(sbox@ == pre_sbox.update(i2 as int, pre_sbox[j_new as int]).update(
            j_new as int,
            pre_sbox[i2 as int],
        ));
        j = j_new;
        i2 = i2 + 1;
    }
    assert(sbox@ == spec_create_sbox(wkey));
    sbox
}

/// Generates the 16 S-boxes for a 32-byte key, threading the working key
/// through the boxes in order.
pub fn gen_sboxes(key: Vec<u8>) -> (sboxes: Vec<Vec<u8>>)
    requires
        key.len() == 32,
    ensures
        sboxes.len() == 16,
        forall|i: int| 0 <= i < 16 ==> #[trigger] sboxes@[i]@ == spec_sboxes(key@)[i],
        forall|i: int| 0 <= i < 16 ==> #[trigger] sboxes@[i]@.len() == 256,
{
    let ghost orig = key@;
    let mut working = key;
    let mut sboxes: Vec<Vec<u8>> = Vec::new();
    let mut i: u8 = 0;
    while i < 16
        invariant
            i <= 16,
            working.len() == 32,
            working@ == working_key(orig, i as int - 1),
            sboxes.len() == i as int,
            forall|k: int| 0 <= k < i as int ==> #[trigger] sboxes@[k]@ == spec_sboxes(orig)[k],
            forall|k: int| 0 <= k < i as int ==> #[trigger] sboxes@[k]@.len() == 256,
        decreases 16 - i,
    {
        let sb = create_sbox(&mut working, i);
        proof {
            if i == 0 {
                assert(working@ == working_key(orig, 0));
            } else {
                assert(working@ == next_working_key(working_key(orig, i as int - 1), i));
                assert(working@ == working_key(orig, i as int));
            }
            assert(sb@ == spec_sboxes(orig)[i as int]);
        }
        sboxes.push(sb);
        i = i + 1;
    }
    sboxes
}

} // verus!
