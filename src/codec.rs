//! Little-endian conversion between byte strings and 64-bit words.
use vstd::prelude::*;
use crate::model::{le_bytes, le_value, lemma_pow256_add, lemma_pow256_values, pow256};

verus! {

pub proof fn lemma_pow256_mono(a: nat, b: nat)
    requires
        a <= b,
    ensures
        1 <= pow256(a) <= pow256(b),
    decreases b,
{
    if b > a {
        lemma_pow256_mono(a, (b - 1) as nat);
    } else if a > 0 {
        lemma_pow256_mono((a - 1) as nat, (a - 1) as nat);
    }
}

/// Reads the eight bytes at `off` as a little-endian word.
pub fn load_le64(b: &[u8], off: usize) -> (r: u64)
    requires
        off + 8 <= b@.len(),
    ensures
        r == le_value(b@.subrange(off as int, off + 8)),
{
    let n: usize = b.len();
    let mut v: u64 = 0;
    let mut i: usize = 8;
    while i > 0
        invariant
            0 <= i <= 8,
            n == b@.len(),
            off + 8 <= b@.len(),
            v == le_value(b@.subrange(off + i, off + 8)),
            v < pow256((8 - i) as nat),
        decreases i,
    {
        let ghost k = (8 - i) as nat;
        proof {
            lemma_pow256_values();
            lemma_pow256_mono(k, 7);
            assert(v * 256 + 255 < pow256(8)) by (nonlinear_arith)
                requires
                    v < pow256(k),
                    pow256(k) <= pow256(7),
                    pow256(8) == 256 * pow256(7),
            ;
        }
        i = i - 1;
        let byte = b[off + i];
        proof {
            let s = b@.subrange(off + i, off + 8);
            assert(s.subrange(1, s.len() as int) =~= b@.subrange(off + i + 1, off + 8));
            assert(pow256((8 - i) as nat) == 256 * pow256(k));
        }
        v = v * 256 + byte as u64;
    }
    v
}

/// Appends the eight little-endian bytes of `v`.
pub fn push_le64(out: &mut Vec<u8>, v: u64)
    ensures
        final(out)@ == old(out)@ + le_bytes(v as nat, 8),
{
    let mut w: u64 = v;
    let mut i: usize = 0;
    while i < 8
        invariant
            0 <= i <= 8,
            out@ + le_bytes(w as nat, (8 - i) as nat) == old(out)@ + le_bytes(v as nat, 8),
        decreases 8 - i,
    {
        let ghost before = out@;
        let ghost wk = w;
        out.push((w % 256) as u8);
        w = w / 256;
        proof {
            assert(le_bytes(wk as nat, (8 - i) as nat) == seq![(wk % 256) as u8] + le_bytes(
                w as nat,
                (8 - i - 1) as nat,
            ));
            assert(out@ + le_bytes(w as nat, (8 - i - 1) as nat) =~= before + le_bytes(
                wk as nat,
                (8 - i) as nat,
            ));
        }
        i = i + 1;
    }
    proof {
        assert(le_bytes(w as nat, 0) =~= Seq::<u8>::empty());
        assert(out@ =~= out@ + le_bytes(w as nat, 0));
    }
}

} // verus!
