//! The decisions of the request lifecycle. The caller performs the outside
//! work (the provider call, the transcoding) between the steps and holds
//! the cache lock only for the duration of each step.
use crate::cache::{
    after_lookup, entry_size, evicted, has_key, inserted, keys_unique, lemma_evicted_suffix,
    lemma_lookup_push_other, lemma_suffix_after_push, lemma_total_nonneg, lemma_total_push,
    lemma_without_key, lookup, total_size, without, Entry, SpeechCache,
};
use crate::request::{
    canonical_bits, canonical_key, is_finite_bits, validation_message, CacheKey, Gain, KeyModel,
    SynthesisDescriptor, ValidationError, IDENTITY_GAIN_BITS,
};
use vstd::prelude::*;

verus! {

/// How long clients may keep a response, in seconds: seven days.
pub const CACHE_MAX_AGE_SECS: u64 = 604800;

/// The provider status that counts as success.
pub const PROVIDER_OK: u16 = 200;

/// The result of the first step of a request.
#[derive(Debug)]
pub enum Lookup {
    /// The audio was cached: answer with it.
    Hit(Vec<u8>),
    /// Not cached: ask the provider for this descriptor.
    Miss(SynthesisDescriptor),
}

/// What the client gets back.
#[derive(Debug)]
pub enum Outcome {
    Audio(Vec<u8>),
    BadRequest(String),
    ServerError(String),
}

impl Outcome {
    pub fn status_code(&self) -> (r: u16)
        ensures
            self is Audio ==> r == 200,
            self is BadRequest ==> r == 400,
            self is ServerError ==> r == 500,
    {
        match self {
            Outcome::Audio(_) => 200,
            Outcome::BadRequest(_) => 400,
            Outcome::ServerError(_) => 500,
        }
    }
}

/// Why the gain transcoder gave no audio. It never gives partial output.
#[derive(Clone, Copy, Debug, PartialEq, Eq, Structural)]
pub enum TranscodeError {
    /// No container or codec was recognized in the input.
    UnsupportedFormat,
    /// No decoder exists for the track's codec.
    DecoderInit,
    /// The encoder could not be built, or failed to encode or flush.
    Encode,
}

pub open spec fn transcode_message(e: TranscodeError) -> Seq<char> {
    match e {
        TranscodeError::UnsupportedFormat => "unsupported format"@,
        TranscodeError::DecoderInit => "decoder init failed"@,
        TranscodeError::Encode => "encode failed"@,
    }
}

impl TranscodeError {
    pub fn message(&self) -> (r: String)
        ensures
            r@ == transcode_message(*self),
    {
        match self {
            TranscodeError::UnsupportedFormat => "unsupported format".to_owned(),
            TranscodeError::DecoderInit => "decoder init failed".to_owned(),
            TranscodeError::Encode => "encode failed".to_owned(),
        }
    }
}

/// A failed transcoding becomes a server error carrying the reason; nothing
/// is cached.
pub fn transcode_failed(e: TranscodeError) -> (r: Outcome)
    ensures
        r matches Outcome::ServerError(m) && m@ == transcode_message(e),
{
    Outcome::ServerError(e.message())
}

/// A refused request becomes a client error carrying the reason.
pub fn reject(e: ValidationError) -> (r: Outcome)
    ensures
        r matches Outcome::BadRequest(m) && m@ == validation_message(e),
{
    Outcome::BadRequest(e.message())
}

/// First step: look the key up. A hit is answered from the cache, a miss
/// hands back the descriptor to send to the provider.
pub fn begin_request(cache: &mut SpeechCache, key: &CacheKey) -> (r: Lookup)
    requires
        old(cache).wf(),
    ensures
        final(cache).wf(),
        final(cache).capacity_spec() == old(cache).capacity_spec(),
        final(cache)@ == after_lookup(old(cache)@, key@),
        keys_unique(final(cache)@),
        total_size(final(cache)@) <= final(cache).capacity_spec(),
        match r {
            Lookup::Hit(b) => lookup(old(cache)@, key@) == Some(b@),
            Lookup::Miss(d) => lookup(old(cache)@, key@) is None && d@ == key@.0,
        },
{
    match cache.get(key) {
        Some(bytes) => Lookup::Hit(bytes),
        None => Lookup::Miss(key.request.duplicate()),
    }
}

/// Whether the provider answered with success.
pub fn provider_succeeded(status: u16) -> (r: bool)
    ensures
        r == (status == PROVIDER_OK),
{
    status == PROVIDER_OK
}

/// Whether the provider's audio must go through the gain transcoder. At
/// the identity gain the bytes are passed through unchanged.
pub fn needs_transcoding(gain: Gain) -> (r: bool)
    ensures
        r == (gain.bits != IDENTITY_GAIN_BITS),
{
    !gain.is_identity()
}

/// Last step: cache the final audio under the full key and answer with it.
pub fn finish_request(cache: &mut SpeechCache, key: CacheKey, audio: Vec<u8>) -> (r: Vec<u8>)
    requires
        old(cache).wf(),
    ensures
        final(cache).wf(),
        final(cache).capacity_spec() == old(cache).capacity_spec(),
        final(cache)@ == inserted(old(cache)@, old(cache).capacity_spec() as int, (key@, audio@)),
        keys_unique(final(cache)@),
        total_size(final(cache)@) <= final(cache).capacity_spec(),
        r@ == audio@,
{
    let stored = audio.clone();
    assert(stored@ =~= audio@);
    cache.insert(key, stored);
    audio
}

/// After any insert the cache stays within its budget and keeps unique
/// keys, and what remains is the newest part of the access order: an
/// entry is dropped only with every entry used less recently than it.
pub proof fn lemma_insert_keeps_budget(s: Seq<Entry>, cap: int, e: Entry)
    requires
        keys_unique(s),
        total_size(s) <= cap,
    ensures
        keys_unique(inserted(s, cap, e)),
        total_size(inserted(s, cap, e)) <= cap,
        entry_size(e) <= cap ==> exists|n: int|
            0 <= n <= without(s, e.0).len() && inserted(s, cap, e) == #[trigger] without(
                s,
                e.0,
            ).push(e).subrange(n, without(s, e.0).len() + 1 as int),
{
    if entry_size(e) <= cap {
        let base = without(s, e.0);
        lemma_without_key(s, e.0);
        lemma_evicted_suffix(base.push(e), cap);
        let n = choose|n: int|
            0 <= n < base.push(e).len() && evicted(base.push(e), cap) == base.push(e).subrange(
                n,
                base.push(e).len() as int,
            );
        lemma_suffix_after_push(base, e, n);
        lemma_evicted_fits(base.push(e), cap);
    }
}

/// Eviction brings the total within `cap` whenever the newest entry alone
/// fits.
pub proof fn lemma_evicted_fits(s: Seq<Entry>, cap: int)
    requires
        s.len() > 0,
        entry_size(s.last()) <= cap,
    ensures
        total_size(evicted(s, cap)) <= cap,
    decreases s.len(),
{
    if s.len() <= 1 {
        assert(s.drop_first().len() == 0);
        assert(total_size(s.drop_first()) == 0);
    } else if total_size(s) > cap {
        assert(s.drop_first().last() == s.last());
        lemma_evicted_fits(s.drop_first(), cap);
    }
}

/// A request repeated after the first one completed is answered from the
/// cache with the same bytes, so the provider is asked only once: after
/// `finish_request` stores `audio` under `k`, the cache is
/// `inserted(cache@, cap, (k, audio))`, on which `begin_request` for `k`
/// returns `Hit` with exactly `audio`. This holds whenever the audio fits
/// the budget on its own.
pub proof fn lemma_repeat_request_hits(cache: &SpeechCache, k: KeyModel, audio: Seq<u8>)
    requires
        cache.wf(),
        entry_size((k, audio)) <= cache.capacity_spec(),
    ensures
        lookup(inserted(cache@, cache.capacity_spec() as int, (k, audio)), k) == Some(audio),
{
    cache.lemma_wf_bounds();
    let s = cache@;
    let cap = cache.capacity_spec() as int;
    let e = (k, audio);
    let base = without(s, k);
    lemma_without_key(s, k);
    lemma_evicted_suffix(base.push(e), cap);
    let n = choose|n: int|
        0 <= n < base.push(e).len() && evicted(base.push(e), cap) == base.push(e).subrange(
            n,
            base.push(e).len() as int,
        );
    lemma_suffix_after_push(base, e, n);
}

/// Two requests that differ only in the gain value get different keys, so
/// their audio is cached apart.
pub proof fn lemma_gain_distinguishes_keys(
    text: Seq<char>,
    voice: Option<Seq<char>>,
    gain_a: u32,
    gain_b: u32,
)
    requires
        is_finite_bits(gain_a),
        is_finite_bits(gain_b),
        canonical_bits(gain_a) != canonical_bits(gain_b),
    ensures
        canonical_key(text, voice, gain_a) != canonical_key(text, voice, gain_b),
{
}

/// Requests that differ only in a gain value are cached apart. Where the
/// first one's audio is cached and the second one's key is not, the second
/// request misses, so it never gets the first one's audio; once its own
/// audio is stored (with room in the budget, so nothing is evicted) a
/// lookup finds that audio under its key and the first entry unchanged.
pub proof fn lemma_gain_keys_cached_apart(
    cache: &SpeechCache,
    text: Seq<char>,
    voice: Option<Seq<char>>,
    gain_a: u32,
    gain_b: u32,
    audio_b: Seq<u8>,
)
    requires
        cache.wf(),
        is_finite_bits(gain_a),
        is_finite_bits(gain_b),
        canonical_bits(gain_a) != canonical_bits(gain_b),
        !has_key(cache@, canonical_key(text, voice, gain_b)),
        total_size(cache@) + entry_size((canonical_key(text, voice, gain_b), audio_b))
            <= cache.capacity_spec(),
    ensures
        canonical_key(text, voice, gain_a) != canonical_key(text, voice, gain_b),
        lookup(cache@, canonical_key(text, voice, gain_b)) is None,
        lookup(
            inserted(
                cache@,
                cache.capacity_spec() as int,
                (canonical_key(text, voice, gain_b), audio_b),
            ),
            canonical_key(text, voice, gain_b),
        ) == Some(audio_b),
        lookup(
            inserted(
                cache@,
                cache.capacity_spec() as int,
                (canonical_key(text, voice, gain_b), audio_b),
            ),
            canonical_key(text, voice, gain_a),
        ) == lookup(cache@, canonical_key(text, voice, gain_a)),
{
    cache.lemma_wf_bounds();
    let s = cache@;
    let cap = cache.capacity_spec() as int;
    let ka = canonical_key(text, voice, gain_a);
    let kb = canonical_key(text, voice, gain_b);
    let e = (kb, audio_b);
    lemma_total_nonneg(s);
    lemma_total_push(s, e);
    assert(without(s, kb) == s);
    assert(evicted(s.push(e), cap) == s.push(e));
    assert(inserted(s, cap, e) == s.push(e));
    lemma_suffix_after_push(s, e, 0);
    assert(s.push(e).subrange(0, s.len() + 1 as int) =~= s.push(e));
    lemma_lookup_push_other(s, e, ka);
}

} // verus!
