//! Cutting a padded buffer into equal shards, borrowed in place.
use vstd::prelude::*;

verus! {

/// Why a buffer cannot be cut into the configured shards.
#[derive(Clone, Copy, Debug, PartialEq, Eq, Structural)]
pub enum PartitionError {
    /// The shard size is zero or does not divide the buffer length.
    Indivisible,
    /// The buffer divides into a different number of shards than configured.
    CountMismatch,
}

/// The `index`-th piece of length `shard_size` of `data`.
pub open spec fn chunk_at(data: Seq<u8>, shard_size: nat, index: int) -> Seq<u8> {
    data.subrange(index * shard_size, (index + 1) * shard_size)
}

/// `data` cut into consecutive pieces of length `shard_size`.
pub open spec fn chunks_of(data: Seq<u8>, shard_size: nat) -> Seq<Seq<u8>>
    recommends
        shard_size > 0,
{
    Seq::new(data.len() / shard_size, |i: int| chunk_at(data, shard_size, i))
}

/// The bytes of each borrowed shard.
pub open spec fn shard_views(shards: Seq<&[u8]>) -> Seq<Seq<u8>> {
    shards.map_values(|s: &[u8]| s@)
}

/// The shards laid end to end.
pub open spec fn concat(shards: Seq<Seq<u8>>) -> Seq<u8>
    decreases shards.len(),
{
    if shards.len() == 0 {
        Seq::empty()
    } else {
        concat(shards.drop_last()) + shards.last()
    }
}

/// Cuts `data` into `num_original` shards of `shard_size` bytes each, in
/// buffer order, without copying.
pub fn partition_shards<'a>(data: &'a [u8], shard_size: usize, num_original: usize) -> (res:
    Result<Vec<&'a [u8]>, PartitionError>)
    ensures
        res == Err::<Vec<&'a [u8]>, PartitionError>(PartitionError::Indivisible) <==> (shard_size
            == 0 || data@.len() % shard_size as nat != 0),
        res == Err::<Vec<&'a [u8]>, PartitionError>(PartitionError::CountMismatch) <==> (
        shard_size > 0 && data@.len() % shard_size as nat == 0 && data@.len() / shard_size as nat
            != num_original),
        res matches Ok(shards) ==> shards@.len() == num_original && shard_views(shards@)
            == chunks_of(data@, shard_size as nat),
{
    if shard_size == 0 || data.len() % shard_size != 0 {
        return Err(PartitionError::Indivisible);
    }
    let count = data.len() / shard_size;
    if count != num_original {
        return Err(PartitionError::CountMismatch);
    }
    let total: usize = data.len();
    let mut shards: Vec<&'a [u8]> = Vec::new();
    let mut i: usize = 0;
    while i < count
        invariant
            total == data@.len(),
            shard_size > 0,
            count == data@.len() / shard_size as nat,
            i <= count,
            shards@.len() == i,
            forall|k: int|
                0 <= k < i ==> #[trigger] shards@[k]@ == chunk_at(data@, shard_size as nat, k),
        decreases count - i,
    {
        proof {
            assert((i + 1) * shard_size <= total) by (nonlinear_arith)
                requires
                    i < count,
                    count == total / shard_size,
                    total == data@.len(),
                    shard_size > 0,
            {
            }
            assert(i * shard_size + shard_size == (i + 1) * shard_size) by (nonlinear_arith);
        }
        let start = i * shard_size;
        let piece = vstd::slice::slice_subrange(data, start, start + shard_size);
        shards.push(piece);
        i += 1;
    }
    assert(shard_views(shards@) =~= chunks_of(data@, shard_size as nat));
    Ok(shards)
}

/// A buffer of `count` shards' length cuts into exactly `count` shards, each
/// `shard_size` long, and laying them end to end gives the buffer back.
pub proof fn lemma_partition_invariant(data: Seq<u8>, shard_size: nat, count: nat)
    requires
        shard_size > 0,
        data.len() == count * shard_size,
    ensures
        chunks_of(data, shard_size).len() == count,
        forall|i: int|
            0 <= i < count ==> (#[trigger] chunks_of(data, shard_size)[i]).len() == shard_size,
        concat(chunks_of(data, shard_size)) == data,
{
    let chunks = chunks_of(data, shard_size);
    assert(data.len() / shard_size == count) by (nonlinear_arith)
        requires
            shard_size > 0,
            data.len() == count * shard_size,
    {
    }
    assert forall|i: int| 0 <= i < count implies (#[trigger] chunks[i]).len() == shard_size by {
        lemma_chunk_in_bounds(shard_size, count, i);
    }
    lemma_concat_prefix(data, shard_size, count, count);
    assert(chunks.take(count as int) =~= chunks);
    assert(data.subrange(0, (count * shard_size) as int) =~= data);
}

proof fn lemma_chunk_in_bounds(shard_size: nat, count: nat, i: int)
    requires
        0 <= i < count,
    ensures
        0 <= i * shard_size,
        i * shard_size + shard_size == (i + 1) * shard_size,
        (i + 1) * shard_size <= count * shard_size,
{
    assert(0 <= i * shard_size && (i + 1) * shard_size <= count * shard_size) by (nonlinear_arith)
        requires
            0 <= i < count,
    {
    }
    assert(i * shard_size + shard_size == (i + 1) * shard_size) by (nonlinear_arith);
}

proof fn lemma_concat_prefix(data: Seq<u8>, shard_size: nat, count: nat, k: nat)
    requires
        shard_size > 0,
        data.len() == count * shard_size,
        data.len() / shard_size == count,
        k <= count,
    ensures
        concat(chunks_of(data, shard_size).take(k as int)) == data.subrange(0, (k * shard_size) as int),
    decreases k,
{
    let chunks = chunks_of(data, shard_size);
    if k == 0 {
        assert(chunks.take(0) =~= Seq::<Seq<u8>>::empty());
        assert(data.subrange(0, 0) =~= Seq::<u8>::empty());
        assert(concat(chunks.take(0)) == Seq::<u8>::empty());
        assert(k * shard_size == 0) by (nonlinear_arith)
            requires
                k == 0,
        {
        }
    } else {
        let j = (k - 1) as nat;
        lemma_concat_prefix(data, shard_size, count, j);
        lemma_chunk_in_bounds(shard_size, count, j as int);
        assert(chunks.len() == count);
        assert((j + 1) * shard_size == k * shard_size);
        assert(j * shard_size <= k * shard_size) by (nonlinear_arith)
            requires
                j <= k,
        {
        }
        assert(chunks.take(k as int).len() == k);
        assert(chunks.take(k as int).drop_last() =~= chunks.take(j as int));
        assert(chunks.take(k as int).last() == chunk_at(data, shard_size, j as int));
        assert(data.subrange(0, (j * shard_size) as int) + chunk_at(data, shard_size, j as int)
            =~= data.subrange(0, (k * shard_size) as int));
        assert(concat(chunks.take(k as int)) == concat(chunks.take(j as int)) + chunk_at(
            data,
            shard_size,
            j as int,
        ));
        assert(concat(chunks.take(k as int)) == data.subrange(0, (k * shard_size) as int));
    }
}

} // verus!
