//! Properties of `authenticate` and `verify`, stated over their contracts.
use vstd::prelude::*;
use crate::model::{
    clamp_r, key_s, lemma_le_bytes_len, lemma_le_bytes_of_value, lemma_le_value_bound,
    lemma_pow256_values, num_chunks, poly1305_tag, poly_acc, tag_value,
};
use crate::{auth_result, verify_result, Poly1305Error};

verus! {

/// `s` with bit `bit` of byte `i` inverted.
pub open spec fn flip_bit(s: Seq<u8>, i: int, bit: u8) -> Seq<u8> {
    s.update(i, s[i] ^ (1u8 << bit))
}

/// Authentication is deterministic: equal keys and messages give equal results.
pub proof fn authenticate_deterministic(k1: Seq<u8>, m1: Seq<u8>, k2: Seq<u8>, m2: Seq<u8>)
    requires
        k1 == k2,
        m1 == m2,
    ensures
        auth_result(k1, m1) == auth_result(k2, m2),
{
}

/// A tag is 16 bytes long.
pub proof fn tag_len(key: Seq<u8>, message: Seq<u8>)
    ensures
        poly1305_tag(key, message).len() == 16,
{
    lemma_le_bytes_len(tag_value(key, message), 16);
}

/// The tag that `authenticate` returns is accepted by `verify` with the same
/// key and message.
pub proof fn verify_accepts_own_tag(key: Seq<u8>, message: Seq<u8>)
    requires
        key.len() == 32,
    ensures
        auth_result(key, message) == Ok::<Seq<u8>, Poly1305Error>(poly1305_tag(key, message)),
        verify_result(key, poly1305_tag(key, message), message) == Ok::<bool, Poly1305Error>(true),
{
    tag_len(key, message);
}

/// Inverting any single bit of a genuine tag makes `verify` answer `false`.
pub proof fn verify_rejects_flipped_tag_bit(key: Seq<u8>, message: Seq<u8>, i: int, bit: u8)
    requires
        key.len() == 32,
        0 <= i < 16,
        bit < 8,
    ensures
        verify_result(key, flip_bit(poly1305_tag(key, message), i, bit), message) == Ok::<
            bool,
            Poly1305Error,
        >(false),
{
    let t = poly1305_tag(key, message);
    tag_len(key, message);
    let x = t[i];
    assert(bit < 8 ==> x ^ (1u8 << bit) != x) by (bit_vector);
    assert(flip_bit(t, i, bit)[i] != t[i]);
}

/// A key that is not 32 bytes fails `authenticate` with `InvalidKeyLength`; a
/// tag that is not 16 bytes fails `verify` with `InvalidTagLength`, whatever
/// the key and message.
pub proof fn length_errors(key: Seq<u8>, tag: Seq<u8>, message: Seq<u8>)
    ensures
        key.len() != 32 ==> auth_result(key, message) == Err::<Seq<u8>, Poly1305Error>(
            Poly1305Error::InvalidKeyLength,
        ),
        tag.len() != 16 ==> verify_result(key, tag, message) == Err::<bool, Poly1305Error>(
            Poly1305Error::InvalidTagLength,
        ),
{
}

/// The tag of the empty message is the second key half `s`, unchanged.
pub proof fn empty_message_tag_is_s(key: Seq<u8>)
    requires
        key.len() == 32,
    ensures
        auth_result(key, Seq::empty()) == Ok::<Seq<u8>, Poly1305Error>(key.subrange(16, 32)),
{
    let m = Seq::<u8>::empty();
    let s = key.subrange(16, 32);
    assert(num_chunks(0) == 0);
    assert(poly_acc(m, clamp_r(key), 0) == 0);
    lemma_le_value_bound(s);
    lemma_pow256_values();
    assert(tag_value(key, m) == key_s(key));
    lemma_le_bytes_of_value(s);
}

} // verus!
