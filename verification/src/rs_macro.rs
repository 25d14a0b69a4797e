//! Summing a list of numbers from the first one onwards.
use vstd::prelude::*;

verus! {

/// Sum of `s`, each entry added to the sum of those after it.
pub open spec fn spec_sum(s: Seq<usize>) -> nat
    decreases s.len(),
{
    if s.len() == 0 {
        0
    } else {
        s[0] as nat + spec_sum(s.subrange(1, s.len() as int))
    }
}

/// Sum of `values`: one value is itself, more are the first plus the sum of
/// the rest.
pub fn add(values: &[usize]) -> (r: usize)
    requires
        spec_sum(values@) <= usize::MAX,
    ensures
        r == spec_sum(values@),
{
    let n = values.len();
    let mut acc: usize = 0;
    let mut i: usize = n;
    while i > 0
        invariant
            n == values@.len(),
            i <= n,
            spec_sum(values@) <= usize::MAX,
            acc == spec_sum(values@.subrange(i as int, n as int)),
        decreases i,
    {
        proof {
            lemma_sum_split(values@, (i - 1) as nat);
            lemma_suffix_le(values@, (i - 1) as nat);
        }
        acc = values[i - 1] + acc;
        i = i - 1;
    }
    proof {
        assert(values@.subrange(0, n as int) =~= values@);
    }
    acc
}

/// The entry at `k` opens the suffix of `s` from `k`.
proof fn lemma_sum_split(s: Seq<usize>, k: nat)
    requires
        k < s.len(),
    ensures
        spec_sum(s.subrange(k as int, s.len() as int)) == s[k as int] as nat + spec_sum(
            s.subrange(k + 1 as int, s.len() as int),
        ),
{
    assert(s.subrange(k as int, s.len() as int).subrange(1, s.len() - k) =~= s.subrange(
        k + 1 as int,
        s.len() as int,
    ));
}

/// A suffix sums to no more than the whole.
proof fn lemma_suffix_le(s: Seq<usize>, k: nat)
    requires
        k <= s.len(),
    ensures
        spec_sum(s.subrange(k as int, s.len() as int)) <= spec_sum(s),
    decreases k,
{
    if k == 0 {
        assert(s.subrange(0, s.len() as int) =~= s);
    } else {
        lemma_sum_split(s, (k - 1) as nat);
        lemma_suffix_le(s, (k - 1) as nat);
    }
}

} // verus!
