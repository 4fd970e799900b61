//! One encode/decode round trip per trial, and the trials of one
//! configuration.
//!
//! Decoding always withholds the first `num_recovery` original shards and
//! supplies the rest together with every recovery shard: the largest loss
//! the recovery shards can make good, so that every recovery shard is used.
use vstd::prelude::*;
use std::time::Instant;
use crate::engine::{
    decoder_add_original, decoder_add_recovery, decoder_decode, decoder_originals,
    decoder_agrees, decoder_recoveries, decoder_shape, encoder_add_original, missing_below, encoder_encode, encoder_received,
    encoder_shape, engine_accepts, new_decoder, new_encoder, recovery_of,
};
use crate::partition::{lemma_partition_invariant, partition_shards, shard_views, PartitionError};
use crate::planner::{lemma_padding_invariant, padded_size_of, plan_shards, shard_size_of};

verus! {

/// Why a configuration did not complete.
#[derive(Clone, Copy, Debug, PartialEq, Eq, Structural)]
pub enum RunError {
    /// The shared buffer is shorter than the configuration's padded size.
    BufferTooShort,
    /// The padded buffer does not cut into the configured shards.
    Partition(PartitionError),
    /// The engine refused the shard layout while encoding.
    EncodeRejected,
    /// The engine refused the shard layout while decoding.
    DecodeRejected,
    /// The decoder's output differs from the withheld original shards.
    RestoredMismatch,
}

/// What the harness does after a configuration fails.
#[derive(Clone, Copy, Debug, PartialEq, Eq, Structural)]
pub enum Disposition {
    /// Report the configuration as too small and go on with the next one.
    Skip,
    /// Stop the run: the engine's contract was broken.
    Abort,
}

/// A layout that cannot be made is skipped; an engine refusal or a wrong
/// restoration aborts the run.
pub fn disposition(e: RunError) -> (d: Disposition)
    ensures
        d == Disposition::Skip <==> (e == RunError::BufferTooShort || e is Partition),
{
    match e {
        RunError::BufferTooShort | RunError::Partition(_) => Disposition::Skip,
        _ => Disposition::Abort,
    }
}

/// What one encode/decode round trip produced.
pub struct TrialOutcome {
    /// Nanoseconds spent in the engine's encode call.
    pub encode_nanos: u128,
    /// Nanoseconds spent in the engine's decode call.
    pub decode_nanos: u128,
    /// The recovery shards, in index order.
    pub recovery: Vec<Vec<u8>>,
    /// The withheld original shards as the decoder restored them, in index order.
    pub restored: Vec<Vec<u8>>,
}

/// The bytes of each owned shard.
pub open spec fn owned_views(shards: Seq<Vec<u8>>) -> Seq<Seq<u8>> {
    shards.map_values(|s: Vec<u8>| s@)
}

/// The decoder's output is exactly the first `withheld` originals, each
/// under its own index, in order.
pub open spec fn restores_withheld(
    restored: Seq<(usize, Vec<u8>)>,
    original: Seq<Seq<u8>>,
    withheld: nat,
) -> bool {
    &&& restored.len() == withheld
    &&& forall|i: int|
        0 <= i < withheld ==> (#[trigger] restored[i]).0 == i && restored[i].1@ == original[i]
}

/// Original shards fit for a round trip: at least one, each `shard_size` long.
pub open spec fn well_formed_shards(original: Seq<&[u8]>, shard_size: nat) -> bool {
    &&& original.len() >= 1
    &&& forall|i: int| 0 <= i < original.len() ==> (#[trigger] original[i])@.len() == shard_size
}

/// Whether two byte strings are equal.
pub fn bytes_equal(a: &[u8], b: &[u8]) -> (eq: bool)
    ensures
        eq == (a@ == b@),
{
    if a.len() != b.len() {
        return false;
    }
    let mut i: usize = 0;
    while i < a.len()
        invariant
            a@.len() == b@.len(),
            i <= a@.len(),
            forall|k: int| 0 <= k < i ==> a@[k] == b@[k],
        decreases a.len() - i,
    {
        if a[i] != b[i] {
            return false;
        }
        i += 1;
    }
    assert(a@ =~= b@);
    true
}

/// Whether the decoder's output `restored` is exactly the first `withheld`
/// original shards, each under its own index, in order.
pub fn check_restored(restored: &Vec<(usize, Vec<u8>)>, original: &Vec<&[u8]>, withheld: usize) -> (ok:
    bool)
    requires
        withheld <= original@.len(),
    ensures
        ok == restores_withheld(restored@, shard_views(original@), withheld as nat),
{
    if restored.len() != withheld {
        return false;
    }
    let mut i: usize = 0;
    while i < withheld
        invariant
            restored@.len() == withheld,
            withheld <= original@.len(),
            i <= withheld,
            forall|k: int|
                0 <= k < i ==> (#[trigger] restored@[k]).0 == k && restored@[k].1@ == shard_views(
                    original@,
                )[k],
        decreases withheld - i,
    {
        if restored[i].0 != i || !bytes_equal(restored[i].1.as_slice(), original[i]) {
            return false;
        }
        i += 1;
    }
    true
}

/// The shard bytes of the decoder's `(index, shard)` pairs.
fn restored_shards(restored: &Vec<(usize, Vec<u8>)>) -> (shards: Vec<Vec<u8>>)
    ensures
        shards@.len() == restored@.len(),
        forall|i: int| 0 <= i < restored@.len() ==> (#[trigger] shards@[i])@ == restored@[i].1@,
{
    let mut shards: Vec<Vec<u8>> = Vec::new();
    let mut i: usize = 0;
    while i < restored.len()
        invariant
            i <= restored@.len(),
            shards@.len() == i,
            forall|k: int| 0 <= k < i ==> (#[trigger] shards@[k])@ == restored@[k].1@,
        decreases restored@.len() - i,
    {
        shards.push(restored[i].1.clone());
        i += 1;
    }
    shards
}

/// Makes an encoder for the shards' layout and feeds it every original shard
/// in order.
fn loaded_encoder(original: &Vec<&[u8]>, num_recovery: usize, shard_size: usize) -> (res: Result<
    reed_solomon_simd::ReedSolomonEncoder,
    RunError,
>)
    requires
        well_formed_shards(original@, shard_size as nat),
    ensures
        engine_accepts(original@.len(), num_recovery as nat, shard_size as nat) ==> res is Ok,
        res is Err ==> res == Err::<reed_solomon_simd::ReedSolomonEncoder, RunError>(
            RunError::EncodeRejected,
        ),
        res matches Ok(e) ==> encoder_shape(e) == (
        original@.len(),
        num_recovery as nat,
        shard_size as nat,
        ) && encoder_received(e) == shard_views(original@),
{
    let n = original.len();
    let mut encoder = match new_encoder(n, num_recovery, shard_size) {
        Ok(e) => e,
        Err(_) => return Err(RunError::EncodeRejected),
    };
    let mut i: usize = 0;
    while i < n
        invariant
            n == original@.len(),
            i <= n,
            well_formed_shards(original@, shard_size as nat),
            encoder_shape(encoder) == (n as nat, num_recovery as nat, shard_size as nat),
            encoder_received(encoder) == shard_views(original@).take(i as int),
        decreases n - i,
    {
        let r = encoder_add_original(&mut encoder, original[i]);
        assert(original@[i as int]@.len() == shard_size);
        if r.is_err() {
            return Err(RunError::EncodeRejected);
        }
        assert(shard_views(original@).take(i + 1) =~= shard_views(original@).take(i as int).push(
            original@[i as int]@,
        ));
        i += 1;
    }
    assert(shard_views(original@).take(n as int) =~= shard_views(original@));
    Ok(encoder)
}

/// The natural numbers in `lo..hi`.
pub open spec fn index_range(lo: nat, hi: nat) -> Set<nat> {
    Set::new(|j: nat| lo <= j < hi)
}

proof fn lemma_index_range_len(lo: nat, hi: nat)
    requires
        lo <= hi,
    ensures
        index_range(lo, hi).finite(),
        index_range(lo, hi).len() == hi - lo,
    decreases hi - lo,
{
    if lo == hi {
        assert(index_range(lo, hi) =~= Set::<nat>::empty());
    } else {
        let h = (hi - 1) as nat;
        lemma_index_range_len(lo, h);
        assert(index_range(lo, h).insert(h) =~= index_range(lo, hi));
    }
}

/// The original shards that decoding is given: those from `withheld` on,
/// under their own indices.
pub open spec fn supplied_originals(originals: Seq<Seq<u8>>, withheld: nat) -> Map<nat, Seq<u8>> {
    Map::new(|j: nat| withheld <= j < originals.len(), |j: nat| originals[j as int])
}

/// The recovery shards that decoding is given: all of them.
pub open spec fn supplied_recoveries(recovery: Seq<Seq<u8>>) -> Map<nat, Seq<u8>> {
    Map::new(|j: nat| j < recovery.len(), |j: nat| recovery[j as int])
}

proof fn lemma_missing_prefix(withheld: nat, count: nat, k: nat)
    requires
        withheld <= count,
        k <= count,
    ensures
        missing_below(k, index_range(withheld, count)) == Seq::new(
            if k <= withheld { k } else { withheld },
            |i: int| i as nat,
        ),
    decreases k,
{
    if k > 0 {
        lemma_missing_prefix(withheld, count, (k - 1) as nat);
        if k <= withheld {
            assert(Seq::new((k - 1) as nat, |i: int| i as nat).push((k - 1) as nat) =~= Seq::new(
                k,
                |i: int| i as nat,
            ));
        }
    } else {
        assert(Seq::new(0, |i: int| i as nat) =~= Seq::<nat>::empty());
    }
}

/// Makes a decoder for the shards' layout and feeds it the original shards
/// from `recovery.len()` on, under their own indices, and every recovery shard.
fn loaded_decoder(original: &Vec<&[u8]>, recovery: &Vec<Vec<u8>>, shard_size: usize) -> (res:
    Result<reed_solomon_simd::ReedSolomonDecoder, RunError>)
    requires
        well_formed_shards(original@, shard_size as nat),
        1 <= recovery@.len() <= original@.len(),
        forall|i: int| 0 <= i < recovery@.len() ==> (#[trigger] recovery@[i])@.len() == shard_size,
    ensures
        engine_accepts(original@.len(), recovery@.len(), shard_size as nat) ==> res is Ok,
        res is Err ==> res == Err::<reed_solomon_simd::ReedSolomonDecoder, RunError>(
            RunError::DecodeRejected,
        ),
        res matches Ok(d) ==> decoder_shape(d) == (
        original@.len(),
        recovery@.len(),
        shard_size as nat,
        ),
        res matches Ok(d) ==> decoder_originals(d) == supplied_originals(
            shard_views(original@),
            recovery@.len(),
        ),
        res matches Ok(d) ==> decoder_recoveries(d) == supplied_recoveries(owned_views(recovery@)),
{
    let n = original.len();
    let r = recovery.len();
    let mut decoder = match new_decoder(n, r, shard_size) {
        Ok(d) => d,
        Err(_) => return Err(RunError::DecodeRejected),
    };
    let ghost views = shard_views(original@);
    assert(decoder_originals(decoder) =~= Map::new(
        |j: nat| r <= j < r,
        |j: nat| views[j as int],
    ));
    let mut i: usize = r;
    while i < n
        invariant
            n == original@.len(),
            r <= i <= n,
            well_formed_shards(original@, shard_size as nat),
            decoder_shape(decoder) == (n as nat, r as nat, shard_size as nat),
            views == shard_views(original@),
            decoder_originals(decoder) == Map::new(
                |j: nat| r <= j < i,
                |j: nat| views[j as int],
            ),
            decoder_recoveries(decoder).dom() == Set::<nat>::empty(),
        decreases n - i,
    {
        assert(original@[i as int]@.len() == shard_size);
        if decoder_add_original(&mut decoder, i, original[i]).is_err() {
            return Err(RunError::DecodeRejected);
        }
        assert(Map::new(|j: nat| r <= j < i, |j: nat| views[j as int]).insert(
            i as nat,
            original@[i as int]@,
        ) =~= Map::new(|j: nat| r <= j < i + 1, |j: nat| views[j as int]));
        i += 1;
    }
    assert(decoder_originals(decoder) =~= supplied_originals(views, r as nat));
    let ghost rviews = owned_views(recovery@);
    assert(decoder_recoveries(decoder) =~= Map::new(|j: nat| j < 0, |j: nat| rviews[j as int]));
    let mut k: usize = 0;
    while k < r
        invariant
            r == recovery@.len(),
            k <= r,
            forall|j: int| 0 <= j < recovery@.len() ==> (#[trigger] recovery@[j])@.len() == shard_size,
            decoder_shape(decoder) == (n as nat, r as nat, shard_size as nat),
            rviews == owned_views(recovery@),
            decoder_originals(decoder) == supplied_originals(shard_views(original@), r as nat),
            decoder_recoveries(decoder) == Map::new(|j: nat| j < k, |j: nat| rviews[j as int]),
        decreases r - k,
    {
        assert(recovery@[k as int]@.len() == shard_size);
        if decoder_add_recovery(&mut decoder, k, recovery[k].as_slice()).is_err() {
            return Err(RunError::DecodeRejected);
        }
        assert(Map::new(|j: nat| j < k, |j: nat| rviews[j as int]).insert(
            k as nat,
            recovery@[k as int]@,
        ) =~= Map::new(|j: nat| j < k + 1, |j: nat| rviews[j as int]));
        k += 1;
    }
    assert(decoder_recoveries(decoder) =~= supplied_recoveries(rviews));
    Ok(decoder)
}

/// One round trip: encodes the original shards, then decodes with the first
/// `num_recovery` originals withheld, and checks that they come back intact.
/// Only the engine's encode and decode calls are timed.
pub fn run_trial(original: &Vec<&[u8]>, num_recovery: usize, shard_size: usize) -> (res: Result<
    TrialOutcome,
    RunError,
>)
    requires
        well_formed_shards(original@, shard_size as nat),
        1 <= num_recovery <= original@.len(),
    ensures
        engine_accepts(original@.len(), num_recovery as nat, shard_size as nat) ==> res is Ok,
        res matches Err(e) ==> (e == RunError::EncodeRejected || e == RunError::DecodeRejected || e
            == RunError::RestoredMismatch),
        res matches Ok(t) ==> owned_views(t.recovery@) == recovery_of(
            original@.len(),
            num_recovery as nat,
            shard_views(original@),
        ),
        res matches Ok(t) ==> t.recovery@.len() == num_recovery && forall|i: int|
            0 <= i < num_recovery ==> (#[trigger] t.recovery@[i])@.len() == shard_size,
        res matches Ok(t) ==> owned_views(t.restored@) == shard_views(original@).take(
            num_recovery as int,
        ),
{
    let mut encoder = loaded_encoder(original, num_recovery, shard_size)?;
    let start = Instant::now();
    let encoded = encoder_encode(&mut encoder);
    let encode_nanos = start.elapsed().as_nanos();
    let recovery = match encoded {
        Ok(v) => v,
        Err(_) => return Err(RunError::EncodeRejected),
    };
    let mut decoder = loaded_decoder(original, &recovery, shard_size)?;
    proof {
        let (n, r) = (original@.len(), num_recovery as nat);
        lemma_index_range_len(r, n);
        lemma_index_range_len(0, r);
        assert(decoder_originals(decoder).dom() =~= index_range(r, n));
        assert(decoder_recoveries(decoder).dom() =~= index_range(0, r));
    }
    let ghost loaded = decoder;
    let start = Instant::now();
    let decoded = decoder_decode(&mut decoder);
    let decode_nanos = start.elapsed().as_nanos();
    let restored = match decoded {
        Ok(v) => v,
        Err(_) => return Err(RunError::DecodeRejected),
    };
    proof {
        let (n, r) = (original@.len(), num_recovery as nat);
        let o = shard_views(original@);
        lemma_missing_prefix(r, n, n);
        assert(decoder_originals(loaded).dom() =~= index_range(r, n));
        assert(decoder_agrees(loaded, o));
        let idx = restored@.map_values(|p: (usize, Vec<u8>)| p.0 as nat);
        assert(idx.len() == r);
        assert forall|i: int| 0 <= i < r implies (#[trigger] restored@[i]).0 == i
            && restored@[i].1@ == o[i] by {
            assert(idx[i] == i as nat);
        }
        assert(restores_withheld(restored@, o, r));
    }
    if !check_restored(&restored, original, num_recovery) {
        return Err(RunError::RestoredMismatch);
    }
    let shards = restored_shards(&restored);
    proof {
        assert(owned_views(shards@) =~= shard_views(original@).take(num_recovery as int));
    }
    Ok(TrialOutcome { encode_nanos, decode_nanos, recovery, restored: shards })
}

/// Two encodings of shards with the same bytes, in the same configuration,
/// give the same recovery shards.
pub proof fn lemma_encode_deterministic(
    original_count: nat,
    recovery_count: nat,
    first: Seq<Seq<u8>>,
    second: Seq<Seq<u8>>,
)
    requires
        first == second,
    ensures
        recovery_of(original_count, recovery_count, first) == recovery_of(
            original_count,
            recovery_count,
            second,
        ),
{
}

/// The totals over the trials of one configuration.
pub struct ConfigTiming {
    /// How many round trips were run.
    pub trials: usize,
    /// Nanoseconds in the engine's encode calls, summed over the trials.
    pub encode_nanos_total: u128,
    /// Nanoseconds in the engine's decode calls, summed over the trials.
    pub decode_nanos_total: u128,
}

/// The mean of `trials` durations that sum to `total`.
pub fn average_nanos(total: u128, trials: usize) -> (avg: u128)
    requires
        trials >= 1,
    ensures
        avg == total as nat / trials as nat,
{
    total / (trials as u128)
}

/// Runs `trials` round trips of one configuration: `size` bytes, padded and
/// cut into `num_original` shards taken from the front of the shared buffer
/// `data`, with `num_recovery` recovery shards.
pub fn run_configuration(
    data: &[u8],
    size: usize,
    num_original: usize,
    num_recovery: usize,
    trials: usize,
) -> (res: Result<ConfigTiming, RunError>)
    requires
        1 <= num_recovery <= num_original,
        padded_size_of(size as nat, num_original as nat) <= usize::MAX,
        trials >= 1,
    ensures
        res == Err::<ConfigTiming, RunError>(RunError::BufferTooShort) <==> data@.len()
            < padded_size_of(size as nat, num_original as nat),
        size == 0 ==> res == Err::<ConfigTiming, RunError>(
            RunError::Partition(PartitionError::Indivisible),
        ),
        (size >= 1 && data@.len() >= padded_size_of(size as nat, num_original as nat)
            && engine_accepts(
            num_original as nat,
            num_recovery as nat,
            shard_size_of(size as nat, num_original as nat),
        )) ==> res is Ok,
        res matches Ok(t) ==> t.trials == trials,
{
    let plan = plan_shards(size, num_original);
    proof {
        let s = plan.shard_size as nat;
        let n = num_original as nat;
        if size >= 1 {
            lemma_padding_invariant(size as nat, n);
            assert((s * n) / n == s) by (nonlinear_arith)
                requires
                    n >= 1,
            {
            }
            assert(s >= 1) by (nonlinear_arith)
                requires
                    s * n >= 1,
            {
            }
            assert((s * n) % s == 0 && (s * n) / s == n) by (nonlinear_arith)
                requires
                    s >= 1,
            {
            }
        } else {
            assert((size + n - 1) / n as int == 0) by (nonlinear_arith)
                requires
                    size == 0,
                    n >= 1,
            {
            }
            assert(s * n == 0) by (nonlinear_arith)
                requires
                    s == 0,
            {
            }
        }
    }
    if data.len() < plan.padded_size {
        return Err(RunError::BufferTooShort);
    }
    let padded = vstd::slice::slice_subrange(data, 0, plan.padded_size);
    let original = match partition_shards(padded, plan.shard_size, num_original) {
        Ok(shards) => shards,
        Err(e) => return Err(RunError::Partition(e)),
    };
    assert(padded@.len() == plan.padded_size);
    proof {
        let (s, n) = (plan.shard_size as nat, num_original as nat);
        assert(s * n == n * s) by (nonlinear_arith);
        lemma_partition_invariant(padded@, plan.shard_size as nat, num_original as nat);
        assert forall|i: int| 0 <= i < original@.len() implies (#[trigger] original@[i])@.len()
            == plan.shard_size by {
            assert(shard_views(original@)[i] == original@[i]@);
        }
    }
    let mut encode_total: u128 = 0;
    let mut decode_total: u128 = 0;
    let mut t: usize = 0;
    while t < trials
        invariant
            t <= trials,
            size >= 1,
            plan.shard_size == shard_size_of(size as nat, num_original as nat),
            data@.len() >= padded_size_of(size as nat, num_original as nat),
            original@.len() == num_original,
            1 <= num_recovery <= num_original,
            plan.shard_size > 0,
            forall|i: int|
                0 <= i < original@.len() ==> (#[trigger] original@[i])@.len() == plan.shard_size,
        decreases trials - t,
    {
        let outcome = run_trial(&original, num_recovery, plan.shard_size)?;
        encode_total = encode_total.saturating_add(outcome.encode_nanos);
        decode_total = decode_total.saturating_add(outcome.decode_nanos);
        t += 1;
    }
    Ok(ConfigTiming { trials, encode_nanos_total: encode_total, decode_nanos_total: decode_total })
}

} // verus!
