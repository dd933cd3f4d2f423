//! Mathematical model of Poly1305: byte strings as little-endian numbers,
//! key clamping, message chunking and the tag as a function of key and message.
use vstd::prelude::*;
use vstd::arithmetic::div_mod::{lemma_fundamental_div_mod, lemma_fundamental_div_mod_converse};

verus! {

/// The prime `2^130 - 5`.
pub open spec fn prime() -> int {
    4 * two128() - 5
}

/// `2^64`.
pub open spec fn two64() -> int {
    0x1_0000_0000_0000_0000
}

/// `2^128`.
pub open spec fn two128() -> int {
    0xffff_ffff_ffff_ffff_ffff_ffff_ffff_ffff as int + 1
}

/// `256^n`.
pub open spec fn pow256(n: nat) -> nat
    decreases n,
{
    if n == 0 {
        1
    } else {
        256 * pow256((n - 1) as nat)
    }
}

/// The little-endian number that a byte string denotes.
pub open spec fn le_value(s: Seq<u8>) -> nat
    decreases s.len(),
{
    if s.len() == 0 {
        0
    } else {
        s[0] as nat + 256 * le_value(s.subrange(1, s.len() as int))
    }
}

/// The `n` low-order bytes of `v`, least significant first.
pub open spec fn le_bytes(v: nat, n: nat) -> Seq<u8>
    decreases n,
{
    if n == 0 {
        Seq::empty()
    } else {
        seq![(v % 256) as u8] + le_bytes(v / 256, (n - 1) as nat)
    }
}

/// The clamping mask for byte `i` of the first key half: the top four bits of
/// every 32-bit word and the low two bits of words one to three are cleared.
pub open spec fn clamp_mask(i: int) -> u8 {
    if i == 3 || i == 7 || i == 11 || i == 15 {
        15
    } else if i == 4 || i == 8 || i == 12 {
        252
    } else {
        255
    }
}

/// The first key half with the clamping mask applied.
pub open spec fn clamped(key: Seq<u8>) -> Seq<u8> {
    Seq::new(16, |i: int| key[i] & clamp_mask(i))
}

/// The evaluation point `r`.
pub open spec fn clamp_r(key: Seq<u8>) -> nat {
    le_value(clamped(key))
}

/// The additive mask `s`: the second key half, unmodified.
pub open spec fn key_s(key: Seq<u8>) -> nat {
    le_value(key.subrange(16, 32))
}

/// How many chunks of at most 16 bytes a message of `len` bytes has.
pub open spec fn num_chunks(len: nat) -> nat {
    if len % 16 == 0 {
        len / 16
    } else {
        len / 16 + 1
    }
}

/// Chunk `i` of the message: 16 bytes, or fewer for a short last chunk.
pub open spec fn chunk(m: Seq<u8>, i: nat) -> Seq<u8> {
    let start = 16 * i as int;
    let end = if start + 16 <= m.len() {
        start + 16
    } else {
        m.len() as int
    };
    m.subrange(start, end)
}

/// A chunk read little-endian with a 1 bit appended just above its bytes.
pub open spec fn chunk_value(c: Seq<u8>) -> nat {
    le_value(c) + pow256(c.len())
}

/// The accumulator after the first `k` chunks: add the chunk, multiply by `r`,
/// reduce modulo the prime.
pub open spec fn poly_acc(m: Seq<u8>, r: nat, k: nat) -> nat
    decreases k,
{
    if k == 0 {
        0
    } else {
        (((poly_acc(m, r, (k - 1) as nat) + chunk_value(chunk(m, (k - 1) as nat))) * r) as int % prime()) as nat
    }
}

/// The accumulator after the whole message.
pub open spec fn poly_eval(m: Seq<u8>, r: nat) -> nat {
    poly_acc(m, r, num_chunks(m.len()))
}

/// The tag as a number: the accumulator plus `s`, modulo `2^128`.
pub open spec fn tag_value(key: Seq<u8>, m: Seq<u8>) -> nat {
    (poly_eval(m, clamp_r(key)) + key_s(key)) % pow256(16)
}

/// The 16-byte Poly1305 tag of message `m` under the 32-byte key `key`.
pub open spec fn poly1305_tag(key: Seq<u8>, m: Seq<u8>) -> Seq<u8> {
    le_bytes(tag_value(key, m), 16)
}

pub proof fn lemma_pow256_values()
    ensures
        pow256(7) == 0x100_0000_0000_0000,
        pow256(8) == 0x1_0000_0000_0000_0000,
        pow256(16) == two128(),
{
    reveal_with_fuel(pow256, 17);
    assert(two128() == 0x1_0000_0000_0000_0000 * 0x1_0000_0000_0000_0000);
}

pub proof fn lemma_pow256_add(a: nat, b: nat)
    ensures
        pow256(a + b) == pow256(a) * pow256(b),
    decreases a,
{
    if a > 0 {
        lemma_pow256_add((a - 1) as nat, b);
        let x = pow256((a - 1) as nat);
        let y = pow256(b);
        assert((a - 1 + b) as nat == (a + b - 1) as nat);
        assert(pow256(a + b) == 256 * pow256((a - 1 + b) as nat));
        assert(256 * (x * y) == (256 * x) * y) by (nonlinear_arith);
    } else {
        assert(pow256(0) == 1);
        assert(a + b == b);
    }
}

pub proof fn lemma_le_value_bound(s: Seq<u8>)
    ensures
        le_value(s) < pow256(s.len()),
    decreases s.len(),
{
    if s.len() > 0 {
        let t = s.subrange(1, s.len() as int);
        lemma_le_value_bound(t);
        let x = le_value(t);
        let p = pow256(t.len());
        assert(s[0] as nat + 256 * x < 256 * p) by (nonlinear_arith)
            requires
                x < p,
                s[0] < 256,
        ;
    }
}

pub proof fn lemma_le_value_concat(a: Seq<u8>, b: Seq<u8>)
    ensures
        le_value(a + b) == le_value(a) + pow256(a.len()) * le_value(b),
    decreases a.len(),
{
    if a.len() == 0 {
        assert(a + b =~= b);
        assert(pow256(0) == 1);
    } else {
        let a1 = a.subrange(1, a.len() as int);
        lemma_le_value_concat(a1, b);
        assert((a + b).subrange(1, (a + b).len() as int) =~= a1 + b);
        let x = le_value(a1);
        let p = pow256(a1.len());
        let y = le_value(b);
        assert(256 * (x + p * y) == 256 * x + (256 * p) * y) by (nonlinear_arith);
        assert((a + b)[0] == a[0]);
        assert(pow256(a.len()) == 256 * p);
        assert(le_value(a + b) == a[0] as nat + 256 * le_value(a1 + b));
    }
}

pub proof fn lemma_le_value_zeros(s: Seq<u8>)
    requires
        forall|i: int| 0 <= i < s.len() ==> s[i] == 0,
    ensures
        le_value(s) == 0,
    decreases s.len(),
{
    if s.len() > 0 {
        lemma_le_value_zeros(s.subrange(1, s.len() as int));
    }
}

/// Serializing the value of a byte string gives the byte string back.
pub proof fn lemma_le_bytes_of_value(s: Seq<u8>)
    ensures
        le_bytes(le_value(s), s.len()) == s,
    decreases s.len(),
{
    if s.len() > 0 {
        let t = s.subrange(1, s.len() as int);
        lemma_le_bytes_of_value(t);
        let v = le_value(s);
        assert(v % 256 == s[0] as nat && v / 256 == le_value(t));
        assert(le_bytes(v, s.len()) =~= s);
    }
}

/// `le_bytes` of a number whose low part fills `n` bytes splits in two.
pub proof fn lemma_le_bytes_split(a: nat, b: nat, n: nat, k: nat)
    requires
        a < pow256(n),
    ensures
        le_bytes(a + pow256(n) * b, n + k) == le_bytes(a, n) + le_bytes(b, k),
    decreases n,
{
    if n == 0 {
        assert(le_bytes(a, n) + le_bytes(b, k) =~= le_bytes(b, k));
    } else {
        let p = pow256((n - 1) as nat);
        let v = a + pow256(n) * b;
        lemma_fundamental_div_mod(a as int, 256);
        assert(v == (a / 256 + p * b) * 256 + a % 256) by (nonlinear_arith)
            requires
                v == a + (256 * p) * b,
                a == 256 * (a / 256) + a % 256,
        ;
        lemma_fundamental_div_mod_converse(v as int, 256, (a / 256 + p * b) as int, (a % 256) as int);
        assert(a / 256 < p) by (nonlinear_arith)
            requires
                a < 256 * p,
                a == 256 * (a / 256) + a % 256,
                a % 256 >= 0,
        ;
        lemma_le_bytes_split(a / 256, b, (n - 1) as nat, k);
        assert(le_bytes(v, n + k) =~= le_bytes(a, n) + le_bytes(b, k));
    }
}

pub proof fn lemma_le_bytes_len(v: nat, n: nat)
    ensures
        le_bytes(v, n).len() == n,
    decreases n,
{
    if n > 0 {
        lemma_le_bytes_len(v / 256, (n - 1) as nat);
    }
}

} // verus!
