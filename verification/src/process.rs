//! Cutting a buffer into fixed-size chunks.
use vstd::prelude::*;
use crate::ocl_v2::chunk_count;

verus! {

/// Length of chunk `k` when `len` bytes are cut every `bytes` bytes.
pub open spec fn chunk_len(len: nat, bytes: nat, k: nat) -> nat {
    if len - k * bytes < bytes {
        (len - k * bytes) as nat
    } else {
        bytes
    }
}

/// Sum of the first `n` entries of `s`.
pub open spec fn sum_prefix(s: Seq<usize>, n: nat) -> nat
    decreases n,
{
    if n == 0 || n > s.len() {
        0
    } else {
        sum_prefix(s, (n - 1) as nat) + s[n - 1] as nat
    }
}

/// Lengths of the chunks that `len` bytes fall into when cut every `bytes`
/// bytes: all full but possibly the last, and together exactly `len`.
pub fn chunk_lengths(len: usize, bytes: usize) -> (v: Vec<usize>)
    requires
        bytes > 0,
    ensures
        v@.len() == chunk_count(len as nat, bytes as nat),
        forall|k: int| 0 <= k < v@.len() ==> #[trigger] v@[k] as nat == chunk_len(len as nat, bytes as nat, k as nat),
        forall|k: int| 0 <= k < v@.len() ==> 0 < #[trigger] v@[k] <= bytes,
        sum_prefix(v@, v@.len()) == len,
{
    let mut v: Vec<usize> = Vec::new();
    let mut start: usize = 0;
    while start < len
        invariant
            bytes > 0,
            start <= len,
            sum_prefix(v@, v@.len()) == start,
            forall|k: int| 0 <= k < v@.len() ==> #[trigger] v@[k] as nat == chunk_len(len as nat, bytes as nat, k as nat),
            forall|k: int| 0 <= k < v@.len() ==> 0 < #[trigger] v@[k] <= bytes,
            start < len ==> start == v@.len() * bytes && v@.len() == chunk_count(start as nat, bytes as nat),
            start == len ==> v@.len() == chunk_count(len as nat, bytes as nat),
        decreases len - start,
    {
        let rest = len - start;
        let c = if rest < bytes { rest } else { bytes };
        let ghost k = v@.len();
        assert(c as nat == chunk_len(len as nat, bytes as nat, k as nat));
        let ghost before = v@;
        v.push(c);
        proof {
            lemma_sum_prefix_push(before, c, k as nat);
            assert(v@ =~= before.push(c));
            assert(sum_prefix(v@, v@.len()) == sum_prefix(v@, k as nat) + c);
        }
        if rest < bytes {
            start = len;
        } else {
            start = start + bytes;
        }
        proof {
            assert((k + 1) * bytes == k * bytes + bytes) by (nonlinear_arith);
            lemma_chunk_count(start as nat, bytes as nat, k as nat);
            if start < len {
                assert(start == (k + 1) * bytes) by (nonlinear_arith)
                    requires start == k * bytes + bytes;
            }
        }
    }
    v
}

/// `len` bytes with `k * size < len <= (k + 1) * size` fall into `k + 1` chunks.
proof fn lemma_chunk_count(len: nat, size: nat, k: nat)
    requires
        size > 0,
        k * size < len <= (k + 1) * size,
    ensures
        chunk_count(len, size) == k + 1,
{
    let q = (len - 1) as nat / size;
    let r = (len - 1) as nat % size;
    vstd::arithmetic::div_mod::lemma_fundamental_div_mod((len - 1) as int, size as int);
    assert(q == k) by (nonlinear_arith)
        requires
            (len - 1) == size * q + r,
            0 <= r < size,
            k * size < len <= (k + 1) * size,
            size > 0,
    {
    }
}

/// Pushing an entry does not change the sums of earlier prefixes.
proof fn lemma_sum_prefix_push(s: Seq<usize>, x: usize, n: nat)
    requires
        n <= s.len(),
    ensures
        sum_prefix(s.push(x), n) == sum_prefix(s, n),
    decreases n,
{
    if n > 0 {
        lemma_sum_prefix_push(s, x, (n - 1) as nat);
    }
}

} // verus!
