//! Facts about 64-bit masks: single bits, runs of consecutive bits, and the
//! population count. The chunk free-mask proofs are built on these.

use vstd::prelude::*;

verus! {

/// True when bit `i` of `m` is set.
pub open spec fn has_bit(m: u64, i: u32) -> bool {
    i < 64 && (m >> (i as u64)) & 1 == 1
}

/// How many bits of `m` are set.
pub open spec fn popcount(m: u64) -> nat
    decreases m,
{
    if m == 0 {
        0
    } else {
        (m % 2) as nat + popcount(m / 2)
    }
}

/// The mask with the low `n` bits set.
pub open spec fn low_ones(n: u32) -> u64 {
    if n >= 64 {
        0xffff_ffff_ffff_ffffu64
    } else {
        ((1u64 << (n as u64)) - 1) as u64
    }
}

/// The mask with `count` bits set, starting at bit `index`.
pub open spec fn run_mask(index: u32, count: u32) -> u64 {
    (low_ones(count) << (index as u64)) as u64
}

/// Bits `index .. index + count` of `m` are all set.
pub open spec fn run_free(m: u64, index: u32, count: u32) -> bool {
    forall|j: u32| index <= j < index + count ==> #[trigger] has_bit(m, j)
}

/// The zero mask has no bit at all.
pub proof fn lemma_zero_mask()
    ensures
        forall|i: u32| !has_bit(0u64, i),
{
    assert forall|i: u32| !has_bit(0u64, i) by {
        assert(i < 64 ==> (0u64 >> (i as u64)) & 1 == 0) by (bit_vector);
    }
}

/// Disjoint masks have additive population counts.
pub proof fn lemma_popcount_or_disjoint(a: u64, b: u64)
    requires
        a & b == 0,
    ensures
        popcount(a | b) == popcount(a) + popcount(b),
    decreases a,
{
    if a == 0 || b == 0 {
        assert((a == 0 ==> a | b == b) && (b == 0 ==> a | b == a)) by (bit_vector);
    } else {
        assert((a & b == 0 && a != 0 && b != 0) ==> ((a / 2) & (b / 2) == 0 && (a | b) / 2 == (a
            / 2) | (b / 2) && (a | b) % 2 == (a % 2) + (b % 2) && (a | b) != 0)) by (bit_vector);
        lemma_popcount_or_disjoint(a / 2, b / 2);
    }
}

/// A single bit has population count one.
pub proof fn lemma_popcount_single(j: u32)
    requires
        j < 64,
    ensures
        popcount(1u64 << (j as u64)) == 1,
    decreases j,
{
    if j == 0 {
        assert(1u64 << 0 == 1) by (bit_vector);
        assert(popcount(0) == 0);
    } else {
        assert((0 < j < 64) ==> ((1u64 << (j as u64)) % 2 == 0 && (1u64 << (j as u64)) / 2 == (1u64
            << ((j - 1) as u64)) && (1u64 << (j as u64)) != 0)) by (bit_vector);
        lemma_popcount_single((j - 1) as u32);
    }
}

/// A run of `count` bits splits into its first `count - 1` bits and its top
/// bit, and the two parts are disjoint.
pub proof fn lemma_run_mask_unfold(index: u32, count: u32)
    requires
        1 <= count,
        index + count <= 64,
    ensures
        run_mask(index, count) == (run_mask(index, (count - 1) as u32) | (1u64 << ((index + count
            - 1) as u64))),
        run_mask(index, (count - 1) as u32) & (1u64 << ((index + count - 1) as u64)) == 0,
{
    let i = index;
    let c = count;
    assert(run_mask(i, c) == (run_mask(i, (c - 1) as u32) | (1u64 << ((i + c - 1) as u64))) && (
    run_mask(i, (c - 1) as u32) & (1u64 << ((i + c - 1) as u64))) == 0) by (bit_vector)
        requires
            1 <= c,
            i + c <= 64,
    ;
}

/// A run of `count` bits has population count `count`.
pub proof fn lemma_popcount_run(index: u32, count: u32)
    requires
        index + count <= 64,
    ensures
        popcount(run_mask(index, count)) == count,
    decreases count,
{
    if count == 0 {
        let i = index;
        assert(run_mask(i, 0) == 0) by (bit_vector);
    } else {
        lemma_run_mask_unfold(index, count);
        lemma_popcount_run(index, (count - 1) as u32);
        lemma_popcount_single((index + count - 1) as u32);
        lemma_popcount_or_disjoint(
            run_mask(index, (count - 1) as u32),
            1u64 << ((index + count - 1) as u64),
        );
    }
}

/// Removing a sub-mask by xor leaves the rest: the two parts are disjoint,
/// rejoin to the whole, and the population counts add up.
pub proof fn lemma_popcount_xor_subset(m: u64, s: u64)
    requires
        m & s == s,
    ensures
        (m ^ s) & s == 0,
        (m ^ s) | s == m,
        m ^ s == m & !s,
        popcount(m) == popcount(m ^ s) + popcount(s),
{
    assert((m & s == s) ==> ((m ^ s) & s == 0 && ((m ^ s) | s) == m && (m ^ s) == (m & !s)))
        by (bit_vector);
    lemma_popcount_or_disjoint(m ^ s, s);
}

/// A run is free in `m` exactly when the run's mask is contained in `m`.
pub proof fn lemma_run_free_mask(m: u64, index: u32, count: u32)
    requires
        index + count <= 64,
    ensures
        run_free(m, index, count) <==> (m & run_mask(index, count)) == run_mask(index, count),
    decreases count,
{
    if count == 0 {
        let i = index;
        assert(run_mask(i, 0) == 0 && m & 0u64 == 0) by (bit_vector);
    } else {
        lemma_run_mask_unfold(index, count);
        lemma_run_free_mask(m, index, (count - 1) as u32);
        let s = run_mask(index, (count - 1) as u32);
        let b = 1u64 << ((index + count - 1) as u64);
        assert((s & b == 0) ==> ((m & (s | b) == (s | b)) <==> (m & s == s && m & b == b)))
            by (bit_vector);
        let j = (index + count - 1) as u32;
        assert((j < 64) ==> ((m & (1u64 << (j as u64)) == (1u64 << (j as u64))) <==> ((m >> (
        j as u64)) & 1 == 1))) by (bit_vector);
        assert(run_free(m, index, count) <==> (run_free(m, index, (count - 1) as u32) && has_bit(
            m,
            j,
        )));
    }
}

/// A run of `k + 1` free bits is a run of `k` free bits plus bit `i + k`.
pub proof fn lemma_run_free_extend(m: u64, i: u32, k: u32)
    requires
        i <= 64,
        k < 64,
    ensures
        run_free(m, i, (k + 1) as u32) <==> (run_free(m, i, k) && has_bit(m, (i + k) as u32)),
{
    if run_free(m, i, (k + 1) as u32) {
        assert(has_bit(m, (i + k) as u32));
        assert forall|j: u32| i <= j < i + k implies #[trigger] has_bit(m, j) by {
            assert(has_bit(m, j));
        }
    }
    if run_free(m, i, k) && has_bit(m, (i + k) as u32) {
        assert forall|j: u32| i <= j < i + k + 1 implies #[trigger] has_bit(m, j) by {
            if j < i + k {
                assert(has_bit(m, j));
            }
        }
    }
}

/// One step of narrowing the candidate-position mask: and-ing in the free
/// mask shifted by `k` extends every candidate's verified run from `k` to
/// `k + 1` bits.
pub proof fn lemma_runs_step(m: u64, runs0: u64, runs1: u64, k: u32)
    requires
        runs1 == runs0 & (m >> (k as u64)),
        k < 64,
        forall|i: u32|
            #[trigger] has_bit(runs0, i) <==> (i < 64 && i + k <= 64 && run_free(m, i, k)),
    ensures
        forall|i: u32|
            #[trigger] has_bit(runs1, i) <==> (i < 64 && i + k + 1 <= 64 && run_free(
                m,
                i,
                (k + 1) as u32,
            )),
{
    assert forall|i: u32|
        #[trigger] has_bit(runs1, i) <==> (i < 64 && i + k + 1 <= 64 && run_free(
            m,
            i,
            (k + 1) as u32,
        )) by {
        assert(has_bit(runs0, i) == (i < 64 && i + k <= 64 && run_free(m, i, k)));
        assert(has_bit(runs1, i) <==> (has_bit(runs0, i) && i + k < 64 && has_bit(
            m,
            (i + k) as u32,
        ))) by (bit_vector)
            requires
                runs1 == runs0 & (m >> (k as u64)),
                k < 64,
        ;
        if i < 64 {
            lemma_run_free_extend(m, i, k);
        }
    }
}

/// The low `n` ones hold a free run of any `c <= n` bits from position zero.
pub proof fn lemma_low_ones_run(n: u32, c: u32)
    requires
        c <= n <= 64,
    ensures
        run_free(low_ones(n), 0, c),
{
    assert forall|j: u32| 0 <= j < 0 + c implies #[trigger] has_bit(low_ones(n), j) by {
        assert((j < n && n <= 64) ==> (j < 64 && (low_ones(n) >> (j as u64)) & 1 == 1))
            by (bit_vector);
    }
}

/// A run within the first `n` bits stays inside the mask of `n` low ones.
pub proof fn lemma_run_within(index: u32, count: u32, n: u32)
    requires
        index + count <= n,
        n <= 64,
        count < 64,
    ensures
        run_mask(index, count) & !low_ones(n) == 0,
{
    assert(run_mask(index, count) & !low_ones(n) == 0) by (bit_vector)
        requires
            index + count <= n,
            n <= 64,
            count < 64,
    ;
}

/// A non-empty free run in a mask bounded by `low_ones(n)` lies below `n`.
pub proof fn lemma_run_in_mask(m: u64, index: u32, count: u32, n: u32)
    requires
        m & !low_ones(n) == 0,
        run_free(m, index, count),
        1 <= count,
        index + count <= 64,
        n <= 64,
    ensures
        index + count <= n,
{
    let j = (index + count - 1) as u32;
    assert(has_bit(m, j));
    assert((m & !low_ones(n) == 0 && j < 64 && (m >> (j as u64)) & 1 == 1 && n <= 64) ==> j < n)
        by (bit_vector);
}

/// Acquiring a run of blocks and releasing it returns the free mask to its
/// starting value, and while the run is held the popcount is down by exactly
/// its length: free bits are conserved across acquire/release pairs.
pub proof fn lemma_acquire_release_round_trip(m: u64, index: u32, count: u32)
    requires
        index + count <= 64,
        m & run_mask(index, count) == run_mask(index, count),
    ensures
        ((m & !run_mask(index, count)) | run_mask(index, count)) == m,
        popcount(m & !run_mask(index, count)) + popcount(run_mask(index, count)) == popcount(m),
        popcount(run_mask(index, count)) == count,
{
    lemma_popcount_xor_subset(m, run_mask(index, count));
    lemma_popcount_run(index, count);
}

} // verus!
