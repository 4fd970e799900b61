//! Shard sizing: each shard holds an equal share of the data, rounded up to
//! the engine's alignment.
use vstd::prelude::*;

verus! {

/// Every shard length is a multiple of this many bytes.
pub const SHARD_ALIGNMENT: usize = 64;

/// `ceil(size / count)`.
pub open spec fn base_shard_size(size: nat, count: nat) -> nat
    recommends
        count > 0,
{
    ((size + count - 1) / count as int) as nat
}

/// `x` rounded up to the next multiple of the alignment.
pub open spec fn align_up(x: nat) -> nat {
    (((x + 63) / 64) * 64) as nat
}

/// The length of each of `count` shards that together hold `size` bytes.
pub open spec fn shard_size_of(size: nat, count: nat) -> nat
    recommends
        count > 0,
{
    align_up(base_shard_size(size, count))
}

/// The total length of the shards, padding included.
pub open spec fn padded_size_of(size: nat, count: nat) -> nat
    recommends
        count > 0,
{
    shard_size_of(size, count) * count
}

/// The sizes that one configuration's shards are cut to.
#[derive(Clone, Copy, Debug, PartialEq, Eq, Structural)]
pub struct ShardPlan {
    pub shard_size: usize,
    pub padded_size: usize,
}

/// Plans shards for `size` bytes split over `num_original_shards` shards.
pub fn plan_shards(size: usize, num_original_shards: usize) -> (plan: ShardPlan)
    requires
        num_original_shards >= 1,
        padded_size_of(size as nat, num_original_shards as nat) <= usize::MAX,
    ensures
        plan.shard_size == shard_size_of(size as nat, num_original_shards as nat),
        plan.padded_size == padded_size_of(size as nat, num_original_shards as nat),
{
    let n = num_original_shards;
    proof {
        assert(size % n != 0 ==> size / n < usize::MAX) by (nonlinear_arith)
            requires
                n >= 1,
                size <= usize::MAX,
        {
            if size % n != 0 {
                assert(n >= 2);
                assert(size / n <= size);
            }
        }
    }
    let base: usize = if size % n == 0 { size / n } else { size / n + 1 };
    proof {
        let b = base_shard_size(size as nat, n as nat);
        assert(base == b) by (nonlinear_arith)
            requires
                n >= 1,
                b == (size + n - 1) / n as int,
                size % n == 0 ==> base == size / n,
                size % n != 0 ==> base == size / n + 1,
        {
            let q = size / n;
            let m = size % n;
            assert(size == q * n + m);
            if m == 0 {
                assert((q * n + n - 1) / n as int == q);
            } else {
                assert(q * n + n - 1 + m == (q + 1) * n + (m - 1));
                assert((size + n - 1) / n as int == q + 1);
            }
        }
        lemma_align_up_bounds(b);
        lemma_base_le_padded(size as nat, n as nat);
    }
    let aligned: usize = if base % 64 == 0 { base } else { (base / 64 + 1) * 64 };
    proof {
        assert(aligned == align_up(base as nat)) by (nonlinear_arith)
            requires
                base % 64 == 0 ==> aligned == base,
                base % 64 != 0 ==> aligned == (base / 64 + 1) * 64,
        {
        }
    }
    ShardPlan { shard_size: aligned, padded_size: aligned * n }
}

/// The largest padded size over every pairing of a data size with a shard
/// configuration `(original, recovery)`; zero when either list is empty.
pub open spec fn max_padded_over(sizes: Seq<usize>, configs: Seq<(usize, usize)>) -> nat
    decreases sizes.len(),
{
    if sizes.len() == 0 {
        0
    } else {
        let rest = max_padded_over(sizes.drop_last(), configs);
        let here = max_padded_for(sizes.last() as nat, configs);
        if here > rest { here } else { rest }
    }
}

/// The largest padded size of `size` over the shard configurations.
pub open spec fn max_padded_for(size: nat, configs: Seq<(usize, usize)>) -> nat
    decreases configs.len(),
{
    if configs.len() == 0 {
        0
    } else {
        let rest = max_padded_for(size, configs.drop_last());
        let here = padded_size_of(size, configs.last().0 as nat);
        if here > rest { here } else { rest }
    }
}

/// Every configuration has at least one original shard, and every pairing's
/// padded size fits in memory.
pub open spec fn matrix_fits(sizes: Seq<usize>, configs: Seq<(usize, usize)>) -> bool {
    forall|i: int, j: int|
        0 <= i < sizes.len() && 0 <= j < configs.len() ==> configs[j].0 >= 1
            && #[trigger] padded_size_of(sizes[i] as nat, configs[j].0 as nat) <= usize::MAX
}

/// The length of the one buffer that serves every configuration of the matrix.
pub fn max_padded_size(sizes: &Vec<usize>, configs: &Vec<(usize, usize)>) -> (max: usize)
    requires
        matrix_fits(sizes@, configs@),
    ensures
        max == max_padded_over(sizes@, configs@),
{
    let mut best: usize = 0;
    let mut i: usize = 0;
    while i < sizes.len()
        invariant
            i <= sizes@.len(),
            matrix_fits(sizes@, configs@),
            best == max_padded_over(sizes@.subrange(0, i as int), configs@),
        decreases sizes.len() - i,
    {
        let size = sizes[i];
        let mut here: usize = 0;
        let mut j: usize = 0;
        while j < configs.len()
            invariant
                i < sizes@.len(),
                j <= configs@.len(),
                size == sizes@[i as int],
                matrix_fits(sizes@, configs@),
                here == max_padded_for(size as nat, configs@.subrange(0, j as int)),
            decreases configs.len() - j,
        {
            assert(padded_size_of(sizes@[i as int] as nat, configs@[j as int].0 as nat) <= usize::MAX);
            let padded = calculate_padded_size(size, configs[j].0);
            assert(configs@.subrange(0, j + 1).drop_last() == configs@.subrange(0, j as int));
            if padded > here {
                here = padded;
            }
            j += 1;
        }
        assert(configs@.subrange(0, j as int) == configs@);
        assert(sizes@.subrange(0, i + 1).drop_last() == sizes@.subrange(0, i as int));
        if here > best {
            best = here;
        }
        i += 1;
    }
    assert(sizes@.subrange(0, i as int) == sizes@);
    best
}

/// The padded total length for `size` bytes over `num_original_shards` shards.
pub fn calculate_padded_size(size: usize, num_original_shards: usize) -> (padded: usize)
    requires
        num_original_shards >= 1,
        padded_size_of(size as nat, num_original_shards as nat) <= usize::MAX,
    ensures
        padded == padded_size_of(size as nat, num_original_shards as nat),
{
    plan_shards(size, num_original_shards).padded_size
}

/// The padded size divides evenly into the shards, each shard length is a
/// multiple of the alignment, and the padding never loses data.
pub proof fn lemma_padding_invariant(size: nat, count: nat)
    requires
        size >= 1,
        count >= 1,
    ensures
        padded_size_of(size, count) % count == 0,
        (padded_size_of(size, count) / count) % 64 == 0,
        padded_size_of(size, count) >= size,
{
    let s = shard_size_of(size, count);
    lemma_base_le_padded(size, count);
    lemma_align_up_bounds(base_shard_size(size, count));
    assert((s * count) % count == 0 && (s * count) / count == s) by (nonlinear_arith)
        requires
            count >= 1,
    {
    }
    assert(size <= s * count) by (nonlinear_arith)
        requires
            size <= base_shard_size(size, count) * count,
            base_shard_size(size, count) <= s,
    {
    }
}

/// The padded total length, or `None` when there are no shards or the
/// length does not fit in `usize`.
pub fn checked_padded_size(size: usize, num_original_shards: usize) -> (padded: Option<usize>)
    ensures
        padded is Some <==> (num_original_shards >= 1 && padded_size_of(
            size as nat,
            num_original_shards as nat,
        ) <= usize::MAX),
        padded matches Some(p) ==> p == padded_size_of(size as nat, num_original_shards as nat),
{
    if num_original_shards == 0 {
        return None;
    }
    let n = num_original_shards;
    proof {
        assert(size % n != 0 ==> size / n < usize::MAX) by (nonlinear_arith)
            requires
                n >= 1,
                size <= usize::MAX,
        {
            if size % n != 0 {
                assert(n >= 2);
            }
        }
    }
    let base: usize = if size % n == 0 { size / n } else { size / n + 1 };
    let units: usize = if base % 64 == 0 { base / 64 } else { base / 64 + 1 };
    proof {
        let b = base_shard_size(size as nat, n as nat);
        assert(base == b) by (nonlinear_arith)
            requires
                n >= 1,
                b == (size + n - 1) / n as int,
                size % n == 0 ==> base == size / n,
                size % n != 0 ==> base == size / n + 1,
        {
            let q = size / n;
            let m = size % n;
            assert(size == q * n + m);
            if m == 0 {
                assert((q * n + n - 1) / n as int == q);
            } else {
                assert(q * n + n - 1 + m == (q + 1) * n + (m - 1));
                assert((size + n - 1) / n as int == q + 1);
            }
        }
        assert(units * 64 == align_up(b)) by (nonlinear_arith)
            requires
                b == base,
                base % 64 == 0 ==> units == base / 64,
                base % 64 != 0 ==> units == base / 64 + 1,
        {
        }
        assert(align_up(b) * n == units * (64 * n)) by (nonlinear_arith)
            requires
                units * 64 == align_up(b),
        {
        }
    }
    if units == 0 {
        proof {
            assert(units * (64 * n) == 0) by (nonlinear_arith)
                requires
                    units == 0,
            {
            }
        }
        return Some(0);
    }
    match 64usize.checked_mul(n) {
        None => {
            proof {
                lemma_padded_overflow(units as nat, n as nat);
            }
            None
        },
        Some(stride) => units.checked_mul(stride),
    }
}

proof fn lemma_padded_overflow(units: nat, n: nat)
    requires
        64 * n > usize::MAX,
        units >= 1,
    ensures
        units * (64 * n) > usize::MAX,
{
    assert(units * (64 * n) >= 64 * n) by (nonlinear_arith)
        requires
            units >= 1,
    {
    }
}

proof fn lemma_align_up_bounds(x: nat)
    ensures
        x <= align_up(x),
        align_up(x) % 64 == 0,
        align_up(x) < x + 64,
{
    assert(x <= align_up(x) && align_up(x) < x + 64 && align_up(x) % 64 == 0) by (nonlinear_arith)
        requires
            align_up(x) == ((x + 63) / 64) * 64,
    {
    }
}

proof fn lemma_base_le_padded(size: nat, count: nat)
    requires
        count >= 1,
    ensures
        base_shard_size(size, count) <= shard_size_of(size, count) <= padded_size_of(size, count),
        size <= base_shard_size(size, count) * count,
{
    let b = base_shard_size(size, count);
    lemma_align_up_bounds(b);
    assert(size <= b * count) by (nonlinear_arith)
        requires
            count >= 1,
            b == (size + count - 1) / count as int,
    {
    }
    assert(shard_size_of(size, count) <= shard_size_of(size, count) * count) by (nonlinear_arith)
        requires
            count >= 1,
    {
    }
}

} // verus!
