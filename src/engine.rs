//! The erasure-coding engine, reed-solomon-simd, as this library relies on it.
//!
//! The engine's encoder collects original shards and computes recovery
//! shards from them; its decoder collects surviving shards by index and
//! restores the missing originals. What each holds is named here, and each
//! method that the harness calls has a wrapper stating what it does to that.
use vstd::prelude::*;
use reed_solomon_simd::{Error, ReedSolomonDecoder, ReedSolomonEncoder};

verus! {

#[verifier::external_type_specification]
#[verifier::external_body]
pub struct ExReedSolomonEncoder(ReedSolomonEncoder);

#[verifier::external_type_specification]
#[verifier::external_body]
pub struct ExReedSolomonDecoder(ReedSolomonDecoder);

#[verifier::external_type_specification]
#[verifier::external_body]
pub struct ExEngineError(Error);

/// Shard counts and shard length that the engine always accepts: both counts
/// in `1..=32768` and an even, non-zero shard length.
pub open spec fn engine_accepts(original_count: nat, recovery_count: nat, shard_bytes: nat) -> bool {
    1 <= original_count <= 32768 && 1 <= recovery_count <= 32768 && shard_bytes > 0 && shard_bytes
        % 2 == 0
}

/// Shard counts and shard length that the engine always refuses.
pub open spec fn engine_rejects(original_count: nat, recovery_count: nat, shard_bytes: nat) -> bool {
    original_count == 0 || recovery_count == 0 || original_count > 65536 || recovery_count > 65536
        || shard_bytes == 0 || shard_bytes % 2 == 1
}

/// The encoder's `(original_count, recovery_count, shard_bytes)`.
pub uninterp spec fn encoder_shape(e: ReedSolomonEncoder) -> (nat, nat, nat);

/// The original shards added to the encoder since it was made or last encoded.
pub uninterp spec fn encoder_received(e: ReedSolomonEncoder) -> Seq<Seq<u8>>;

/// The recovery shards that the engine computes from a full set of originals.
pub uninterp spec fn recovery_of(
    original_count: nat,
    recovery_count: nat,
    originals: Seq<Seq<u8>>,
) -> Seq<Seq<u8>>;

/// The decoder's `(original_count, recovery_count, shard_bytes)`.
pub uninterp spec fn decoder_shape(d: ReedSolomonDecoder) -> (nat, nat, nat);

/// The original shards added to the decoder, by index.
pub uninterp spec fn decoder_originals(d: ReedSolomonDecoder) -> Map<nat, Seq<u8>>;

/// The recovery shards added to the decoder, by index.
pub uninterp spec fn decoder_recoveries(d: ReedSolomonDecoder) -> Map<nat, Seq<u8>>;

/// The indices below `count` that are not in `supplied`, ascending.
pub open spec fn missing_below(count: nat, supplied: Set<nat>) -> Seq<nat>
    decreases count,
{
    if count == 0 {
        Seq::empty()
    } else {
        let below = missing_below((count - 1) as nat, supplied);
        if supplied.contains((count - 1) as nat) {
            below
        } else {
            below.push((count - 1) as nat)
        }
    }
}

/// The shards given to the decoder are those of the full set of originals
/// `originals` and of the recovery shards computed from it.
pub open spec fn decoder_agrees(d: ReedSolomonDecoder, originals: Seq<Seq<u8>>) -> bool {
    let (n, r, bytes) = decoder_shape(d);
    &&& originals.len() == n
    &&& forall|i: int| 0 <= i < n ==> (#[trigger] originals[i]).len() == bytes
    &&& forall|i: nat| #[trigger]
        decoder_originals(d).contains_key(i) ==> i < n && decoder_originals(d)[i]
            == originals[i as int]
    &&& forall|j: nat| #[trigger]
        decoder_recoveries(d).contains_key(j) ==> j < r && decoder_recoveries(d)[j]
            == recovery_of(n, r, originals)[j as int]
}

/// Relies on `ReedSolomonEncoder::new`: it validates the counts (both
/// non-zero, the smaller rounded up to a power of two plus the larger at most
/// 65536) and the shard length (non-zero, even), and starts empty.
#[verifier::external_body]
pub(crate) fn new_encoder(original_count: usize, recovery_count: usize, shard_bytes: usize) -> (res:
    Result<ReedSolomonEncoder, Error>)
    ensures
        engine_accepts(original_count as nat, recovery_count as nat, shard_bytes as nat)
            ==> res is Ok,
        engine_rejects(original_count as nat, recovery_count as nat, shard_bytes as nat)
            ==> res is Err,
        res matches Ok(e) ==> encoder_shape(e) == (
        original_count as nat,
        recovery_count as nat,
        shard_bytes as nat,
        ) && encoder_received(e) == Seq::<Seq<u8>>::empty(),
{
    ReedSolomonEncoder::new(original_count, recovery_count, shard_bytes)
}

/// Relies on `ReedSolomonEncoder::add_original_shard`: it refuses a shard
/// beyond `original_count` or of the wrong length, leaving the encoder as it
/// was, and otherwise appends it.
#[verifier::external_body]
pub(crate) fn encoder_add_original(e: &mut ReedSolomonEncoder, shard: &[u8]) -> (res: Result<
    (),
    Error,
>)
    ensures
        res is Ok <==> (encoder_received(*old(e)).len() < encoder_shape(*old(e)).0
            && shard@.len() == encoder_shape(*old(e)).2),
        res is Ok ==> encoder_shape(*final(e)) == encoder_shape(*old(e)) && encoder_received(
            *final(e),
        ) == encoder_received(*old(e)).push(shard@),
        res is Err ==> *final(e) == *old(e),
{
    e.add_original_shard(shard)
}

/// Relies on `ReedSolomonEncoder::encode` and `EncoderResult::recovery_iter`:
/// encoding needs all `original_count` originals and yields `recovery_count`
/// shards of `shard_bytes` each, which depend on the originals alone.
#[verifier::external_body]
pub(crate) fn encoder_encode(e: &mut ReedSolomonEncoder) -> (res: Result<Vec<Vec<u8>>, Error>)
    ensures
        res is Ok <==> encoder_received(*old(e)).len() == encoder_shape(*old(e)).0,
        res matches Ok(v) ==> v@.len() == encoder_shape(*old(e)).1 && (forall|i: int|
            0 <= i < v@.len() ==> (#[trigger] v@[i])@.len() == encoder_shape(*old(e)).2)
            && v@.map_values(|s: Vec<u8>| s@) == recovery_of(
            encoder_shape(*old(e)).0,
            encoder_shape(*old(e)).1,
            encoder_received(*old(e)),
        ),
{
    e.encode().map(|r| r.recovery_iter().map(|s| s.to_vec()).collect())
}

/// Relies on `ReedSolomonDecoder::new`: the same validation as the
/// encoder's, and it starts with no shards.
#[verifier::external_body]
pub(crate) fn new_decoder(original_count: usize, recovery_count: usize, shard_bytes: usize) -> (res:
    Result<ReedSolomonDecoder, Error>)
    ensures
        engine_accepts(original_count as nat, recovery_count as nat, shard_bytes as nat)
            ==> res is Ok,
        engine_rejects(original_count as nat, recovery_count as nat, shard_bytes as nat)
            ==> res is Err,
        res matches Ok(d) ==> decoder_shape(d) == (
        original_count as nat,
        recovery_count as nat,
        shard_bytes as nat,
        ),
        res matches Ok(d) ==> decoder_originals(d).dom() == Set::<nat>::empty(),
        res matches Ok(d) ==> decoder_recoveries(d).dom() == Set::<nat>::empty(),
{
    ReedSolomonDecoder::new(original_count, recovery_count, shard_bytes)
}

/// Relies on `ReedSolomonDecoder::add_original_shard`: for an index in
/// range, it refuses a repeated index or a shard of the wrong length, leaving
/// the decoder as it was, and otherwise records the shard under its index.
#[verifier::external_body]
pub(crate) fn decoder_add_original(d: &mut ReedSolomonDecoder, index: usize, shard: &[u8]) -> (res:
    Result<(), Error>)
    requires
        index < decoder_shape(*old(d)).0,
    ensures
        res is Ok <==> (!decoder_originals(*old(d)).contains_key(index as nat) && shard@.len()
            == decoder_shape(*old(d)).2),
        res is Ok ==> decoder_shape(*final(d)) == decoder_shape(*old(d)) && decoder_originals(
            *final(d),
        ) == decoder_originals(*old(d)).insert(index as nat, shard@) && decoder_recoveries(
            *final(d),
        ) == decoder_recoveries(*old(d)),
        res is Err ==> *final(d) == *old(d),
{
    d.add_original_shard(index, shard)
}

/// Relies on `ReedSolomonDecoder::add_recovery_shard`: as for originals, with
/// indices below `recovery_count`.
#[verifier::external_body]
pub(crate) fn decoder_add_recovery(d: &mut ReedSolomonDecoder, index: usize, shard: &[u8]) -> (res:
    Result<(), Error>)
    requires
        index < decoder_shape(*old(d)).1,
    ensures
        res is Ok <==> (!decoder_recoveries(*old(d)).contains_key(index as nat) && shard@.len()
            == decoder_shape(*old(d)).2),
        res is Ok ==> decoder_shape(*final(d)) == decoder_shape(*old(d)) && decoder_recoveries(
            *final(d),
        ) == decoder_recoveries(*old(d)).insert(index as nat, shard@) && decoder_originals(
            *final(d),
        ) == decoder_originals(*old(d)),
        res is Err ==> *final(d) == *old(d),
{
    d.add_recovery_shard(index, shard)
}

/// Relies on `ReedSolomonDecoder::decode` and
/// `DecoderResult::restored_original_iter`: decoding needs at least
/// `original_count` shards in all; it yields `(index, shard)` for each
/// missing original, by ascending index, and any `original_count` shards of
/// one encoding restore its originals.
#[verifier::external_body]
pub(crate) fn decoder_decode(d: &mut ReedSolomonDecoder) -> (res: Result<Vec<(usize, Vec<u8>)>, Error>)
    ensures
        res is Ok <==> decoder_originals(*old(d)).dom().len() + decoder_recoveries(
            *old(d),
        ).dom().len() >= decoder_shape(*old(d)).0,
        res matches Ok(v) ==> v@.map_values(|p: (usize, Vec<u8>)| p.0 as nat) == missing_below(
            decoder_shape(*old(d)).0,
            decoder_originals(*old(d)).dom(),
        ),
        res matches Ok(v) ==> forall|k: int|
            0 <= k < v@.len() ==> (#[trigger] v@[k]).1@.len() == decoder_shape(*old(d)).2,
        res matches Ok(v) ==> forall|o: Seq<Seq<u8>>| #[trigger]
            decoder_agrees(*old(d), o) ==> forall|k: int|
                0 <= k < v@.len() ==> (#[trigger] v@[k]).1@ == o[v@[k].0 as int],
{
    d.decode().map(|r| r.restored_original_iter().map(|(i, s)| (i, s.to_vec())).collect())
}

} // verus!
