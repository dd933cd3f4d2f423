//! The four stages of Poly1305: key clamping, block accumulation, tag
//! finalization and constant-time comparison.
use vstd::prelude::*;
use vstd::arithmetic::div_mod::{lemma_add_mod_noop_right, lemma_mul_mod_noop_left};
use crate::codec::{load_le64, push_le64};
use crate::compare::ct_eq_bytes;
use crate::field::{add_block, finalize, mul_reduce, Limbs};
use crate::model::{
    chunk, chunk_value, clamp_mask, clamp_r, clamped, le_bytes, le_value, lemma_le_bytes_split,
    lemma_le_value_bound, lemma_le_value_concat, lemma_le_value_zeros, lemma_pow256_values,
    num_chunks, poly1305_tag, poly_acc, poly_eval, pow256, prime, two128, two64,
};

verus! {

/// A 16-byte first key half that the clamping mask leaves as it is.
pub open spec fn is_clamped(r: Seq<u8>) -> bool {
    &&& r.len() == 16
    &&& forall|i: int| 0 <= i < 16 ==> #[trigger] r[i] & clamp_mask(i) == r[i]
}

fn clamp_mask_at(i: usize) -> (m: u8)
    requires
        i < 16,
    ensures
        m == clamp_mask(i as int),
{
    if i == 3 || i == 7 || i == 11 || i == 15 {
        15
    } else if i == 4 || i == 8 || i == 12 {
        252
    } else {
        255
    }
}

/// Key clamper: the first 16 key bytes with the clamping mask applied.
pub fn clamp_key(key: &[u8]) -> (r: Vec<u8>)
    requires
        key@.len() >= 16,
    ensures
        r@ == clamped(key@),
        is_clamped(r@),
{
    let mut r: Vec<u8> = Vec::new();
    let mut i: usize = 0;
    while i < 16
        invariant
            0 <= i <= 16,
            key@.len() >= 16,
            r@.len() == i,
            forall|j: int| 0 <= j < i ==> #[trigger] r@[j] == key@[j] & clamp_mask(j),
        decreases 16 - i,
    {
        r.push(key[i] & clamp_mask_at(i));
        i = i + 1;
    }
    proof {
        assert(r@ =~= clamped(key@));
        assert forall|i: int| 0 <= i < 16 implies #[trigger] r@[i] & clamp_mask(i) == r@[i] by {
            let x = key@[i];
            let m = clamp_mask(i);
            assert((x & m) & m == x & m) by (bit_vector);
        }
    }
    r
}

proof fn lemma_le_value_single(b: u8)
    ensures
        le_value(seq![b]) == b,
{
    assert(seq![b].subrange(1, 1) =~= Seq::<u8>::empty());
    assert(le_value(Seq::<u8>::empty()) == 0);
    assert(le_value(seq![b]) == seq![b][0] as nat + 256 * le_value(seq![b].subrange(1, 1)));
}

/// A 16-byte string is two little-endian words.
proof fn lemma_le_value_words(s: Seq<u8>)
    requires
        s.len() == 16,
    ensures
        le_value(s) == le_value(s.subrange(0, 8)) + two64() * le_value(s.subrange(8, 16)),
{
    assert(s =~= s.subrange(0, 8) + s.subrange(8, 16));
    lemma_le_value_concat(s.subrange(0, 8), s.subrange(8, 16));
    lemma_pow256_values();
}

/// A word whose top byte is at most 15 is below `2^60`.
proof fn lemma_word_below_2_60(w: Seq<u8>)
    requires
        w.len() == 8,
        w[7] <= 15,
    ensures
        le_value(w) < 0x1000_0000_0000_0000,
{
    assert(w =~= w.subrange(0, 7) + seq![w[7]]);
    lemma_le_value_concat(w.subrange(0, 7), seq![w[7]]);
    lemma_le_value_single(w[7]);
    lemma_le_value_bound(w.subrange(0, 7));
    lemma_pow256_values();
    let lo = le_value(w.subrange(0, 7));
    let hi = w[7] as int;
    assert(pow256(w.subrange(0, 7).len()) == 0x100_0000_0000_0000);
    assert(le_value(w) == lo + 0x100_0000_0000_0000 * hi);
    assert(lo + 0x100_0000_0000_0000 * hi < 0x1000_0000_0000_0000) by (nonlinear_arith)
        requires
            lo < 0x100_0000_0000_0000,
            0 <= hi <= 15,
    ;
}

/// A word whose low byte is divisible by 4 is divisible by 4.
proof fn lemma_word_div4(w: Seq<u8>)
    requires
        w.len() == 8,
        w[0] % 4 == 0,
    ensures
        le_value(w) % 4 == 0,
{
    let x = le_value(w.subrange(1, 8));
    assert(le_value(w) == w[0] + 256 * x);
}

/// What a padded block is worth: a chunk, the marker byte 1, and zeros.
proof fn lemma_padded_value(c: Seq<u8>, z: Seq<u8>)
    requires
        forall|i: int| 0 <= i < z.len() ==> z[i] == 0,
    ensures
        le_value(c + seq![1u8] + z) == chunk_value(c),
{
    let tail = seq![1u8] + z;
    assert(c + seq![1u8] + z =~= c + tail);
    lemma_le_value_concat(c, tail);
    lemma_le_value_concat(seq![1u8], z);
    lemma_le_value_single(1u8);
    lemma_le_value_zeros(z);
    assert(pow256(1) == 256) by {
        reveal_with_fuel(pow256, 2);
    }
    assert(le_value(tail) == 1);
    let p = pow256(c.len());
    assert(p * 1 == p) by (nonlinear_arith);
}

/// The chunk of `m` from `start` to `end`, followed by the marker byte 1 and
/// zeros up to 17 bytes.
fn pad_block(m: &[u8], start: usize, end: usize) -> (blk: Vec<u8>)
    requires
        start < end <= m@.len(),
        end - start <= 16,
    ensures
        blk@.len() == 17,
        blk@ == m@.subrange(start as int, end as int) + seq![1u8] + Seq::new(
            (16 - (end - start)) as nat,
            |i: int| 0u8,
        ),
{
    let mut blk: Vec<u8> = Vec::new();
    let mut i: usize = start;
    while i < end
        invariant
            start <= i <= end <= m@.len(),
            blk@ == m@.subrange(start as int, i as int),
        decreases end - i,
    {
        blk.push(m[i]);
        i = i + 1;
        proof {
            assert(blk@ =~= m@.subrange(start as int, i as int));
        }
    }
    let ghost c = blk@;
    blk.push(1u8);
    while blk.len() < 17
        invariant
            c.len() == end - start <= 16,
            c.len() + 1 <= blk@.len() <= 17,
            blk@ == c + seq![1u8] + Seq::new((blk@.len() - c.len() - 1) as nat, |i: int| 0u8),
        decreases 17 - blk@.len(),
    {
        blk.push(0u8);
        proof {
            assert(blk@ =~= c + seq![1u8] + Seq::new(
                (blk@.len() - c.len() - 1) as nat,
                |i: int| 0u8,
            ));
        }
    }
    proof {
        assert(blk@ =~= c + seq![1u8] + Seq::new((16 - (end - start)) as nat, |i: int| 0u8));
    }
    blk
}

/// Block accumulator: folds the chunks of `m`, in order, into the accumulator,
/// with the clamped first key half `r`.
pub fn accumulate(r: &[u8], m: &[u8]) -> (h: Limbs)
    requires
        is_clamped(r@),
    ensures
        h.l2 <= 4,
        h.value() % prime() == poly_eval(m@, le_value(r@)),
{
    let r0 = load_le64(r, 0);
    let r1 = load_le64(r, 8);
    let ghost rv = le_value(r@);
    proof {
        let x7 = r@[7];
        let x8 = r@[8];
        let x15 = r@[15];
        assert(x7 & 15 == x7 ==> x7 <= 15) by (bit_vector);
        assert(x15 & 15 == x15 ==> x15 <= 15) by (bit_vector);
        assert(x8 & 252 == x8 ==> x8 % 4 == 0) by (bit_vector);
        assert(r@[7] & clamp_mask(7) == r@[7]);
        assert(r@[15] & clamp_mask(15) == r@[15]);
        assert(r@[8] & clamp_mask(8) == r@[8]);
        assert(r@.subrange(0, 8)[7] == x7);
        assert(r@.subrange(8, 16)[7] == x15);
        assert(r@.subrange(8, 16)[0] == x8);
        lemma_word_below_2_60(r@.subrange(0, 8));
        lemma_word_below_2_60(r@.subrange(8, 16));
        lemma_word_div4(r@.subrange(8, 16));
        lemma_le_value_words(r@);
    }
    let len = m.len();
    let n: usize = if len % 16 == 0 {
        len / 16
    } else {
        len / 16 + 1
    };
    let mut h = Limbs::zero();
    let mut k: usize = 0;
    while k < n
        invariant
            len == m@.len(),
            n == num_chunks(len as nat),
            k <= n,
            h.l2 <= 4,
            r0 < 0x1000_0000_0000_0000,
            r1 < 0x1000_0000_0000_0000,
            r1 % 4 == 0,
            rv == r0 + two64() * r1,
            h.value() % prime() == poly_acc(m@, rv, k as nat),
        decreases n - k,
    {
        let start: usize = 16 * k;
        let end: usize = if len - start >= 16 {
            start + 16
        } else {
            len
        };
        let blk = pad_block(m, start, end);
        let c0 = load_le64(blk.as_slice(), 0);
        let c1 = load_le64(blk.as_slice(), 8);
        let c2: u64 = blk[16] as u64;
        let ghost c = chunk(m@, k as nat);
        proof {
            assert(c == m@.subrange(start as int, end as int));
            let z = Seq::new((16 - (end - start)) as nat, |i: int| 0u8);
            lemma_padded_value(c, z);
            let b = blk@;
            assert(b =~= b.subrange(0, 16) + seq![b[16]]);
            lemma_le_value_concat(b.subrange(0, 16), seq![b[16]]);
            lemma_le_value_single(b[16]);
            lemma_le_value_words(b.subrange(0, 16));
            assert(b.subrange(0, 16).subrange(0, 8) =~= b.subrange(0, 8));
            assert(b.subrange(0, 16).subrange(8, 16) =~= b.subrange(8, 16));
            lemma_pow256_values();
            if end - start < 16 {
                assert(b[16] == z[(16 - (end - start)) - 1]);
            } else {
                assert(b[16] == 1);
            }
        }
        let a = add_block(h, c0, c1, c2);
        let ghost hk = h.value();
        h = mul_reduce(a, r0, r1);
        proof {
            let cv = chunk_value(c) as int;
            let p = prime();
            assert(a.value() == hk + cv);
            lemma_mul_mod_noop_left(hk + cv, rv as int, p);
            lemma_mul_mod_noop_left(hk % p + cv, rv as int, p);
            lemma_add_mod_noop_right(cv, hk, p);
            assert(poly_acc(m@, rv, (k + 1) as nat) == ((poly_acc(m@, rv, k as nat) + cv) * rv) % p);
        }
        k = k + 1;
    }
    h
}

/// Tag finalizer: reduces the accumulator fully, adds `s` modulo `2^128` and
/// serializes the sum as 16 little-endian bytes.
pub fn finalize_tag(h: Limbs, s: &[u8]) -> (tag: Vec<u8>)
    requires
        h.l2 <= 4,
        s@.len() == 16,
    ensures
        tag@ == le_bytes(((h.value() % prime() + le_value(s@)) % two128()) as nat, 16),
{
    let s0 = load_le64(s, 0);
    let s1 = load_le64(s, 8);
    let (t0, t1) = finalize(h, s0, s1);
    let mut tag: Vec<u8> = Vec::new();
    push_le64(&mut tag, t0);
    push_le64(&mut tag, t1);
    proof {
        lemma_le_value_words(s@);
        lemma_pow256_values();
        lemma_le_bytes_split(t0 as nat, t1 as nat, 8, 8);
        assert(tag@ =~= le_bytes(t0 as nat, 8) + le_bytes(t1 as nat, 8));
    }
    tag
}

/// Constant-time comparator: whether two tags are equal, with no early exit
/// on the first differing byte.
pub fn tags_equal(computed: &[u8], supplied: &[u8]) -> (eq: bool)
    ensures
        eq == (computed@ == supplied@),
{
    ct_eq_bytes(computed, supplied)
}

/// The bytes of `b` from `start` to `end`.
fn copy_range(b: &[u8], start: usize, end: usize) -> (r: Vec<u8>)
    requires
        start <= end <= b@.len(),
    ensures
        r@ == b@.subrange(start as int, end as int),
{
    let mut r: Vec<u8> = Vec::new();
    let mut i: usize = start;
    while i < end
        invariant
            start <= i <= end <= b@.len(),
            r@ == b@.subrange(start as int, i as int),
        decreases end - i,
    {
        r.push(b[i]);
        i = i + 1;
        proof {
            assert(r@ =~= b@.subrange(start as int, i as int));
        }
    }
    r
}

/// The Poly1305 tag of `m` under a 32-byte key.
pub fn compute_tag(key: &[u8], m: &[u8]) -> (tag: Vec<u8>)
    requires
        key@.len() == 32,
    ensures
        tag@ == poly1305_tag(key@, m@),
{
    let r = clamp_key(key);
    let h = accumulate(r.as_slice(), m);
    let s = copy_range(key, 16, 32);
    let tag = finalize_tag(h, s.as_slice());
    proof {
        lemma_le_value_bound(s@);
        lemma_pow256_values();
        assert(h.value() % prime() == poly_eval(m@, clamp_r(key@)));
    }
    tag
}

} // verus!
