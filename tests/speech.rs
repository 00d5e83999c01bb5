use speech_proxy::cache::{SpeechCache, DEFAULT_CAPACITY};
use speech_proxy::request::{canonicalize, CacheKey, Gain, ValidationError};
use speech_proxy::service::{
    begin_request, finish_request, needs_transcoding, provider_succeeded, reject,
    transcode_failed, Lookup, Outcome, TranscodeError, CACHE_MAX_AGE_SECS,
};

fn key(text: &str, voice: Option<&str>, volume: Option<f32>) -> CacheKey {
    canonicalize(text, voice.map(|v| v.to_string()), volume.map(|v| v.to_bits())).unwrap()
}

#[test]
fn text_of_100_chars_is_accepted() {
    let text = "a".repeat(100);
    assert!(canonicalize(&text, None, None).is_ok());
    assert!(canonicalize(&text, Some("alloy".to_string()), Some(2.0f32.to_bits())).is_ok());
}

#[test]
fn text_of_101_chars_is_rejected_for_any_voice_and_volume() {
    let text = "a".repeat(101);
    let voices = [None, Some("echo".to_string()), Some("nova".to_string())];
    let volumes = [None, Some(1.0f32.to_bits()), Some(0.5f32.to_bits()), Some(f32::NAN.to_bits())];
    for voice in voices.iter() {
        for volume in volumes.iter() {
            let r = canonicalize(&text, voice.clone(), *volume);
            assert_eq!(r.unwrap_err(), ValidationError::TextTooLong);
        }
    }
    let outcome = reject(ValidationError::TextTooLong);
    assert_eq!(outcome.status_code(), 400);
    match outcome {
        Outcome::BadRequest(m) => assert_eq!(m, "text too long"),
        _ => panic!("expected a client error"),
    }
}

#[test]
fn text_length_counts_code_points() {
    let text = "é".repeat(100);
    assert_eq!(text.len(), 200);
    assert!(canonicalize(&text, None, None).is_ok());
    assert!(canonicalize(&"é".repeat(101), None, None).is_err());
}

#[test]
fn non_finite_volume_is_rejected() {
    for bad in [f32::NAN, f32::INFINITY, f32::NEG_INFINITY] {
        let r = canonicalize("hi", None, Some(bad.to_bits()));
        assert_eq!(r.unwrap_err(), ValidationError::InvalidGain);
    }
    assert_eq!(ValidationError::InvalidGain.message(), "invalid gain");
    assert_eq!(Gain::from_bits(f32::NAN.to_bits()), Err(ValidationError::InvalidGain));
}

#[test]
fn negative_zero_volume_keys_as_zero() {
    assert_eq!(Gain::from_bits((-0.0f32).to_bits()), Ok(Gain { bits: 0 }));
    let a = key("hi", None, Some(-0.0));
    let b = key("hi", None, Some(0.0));
    assert!(a.same_as(&b));
}

#[test]
fn hello_world_is_canonicalized_with_defaults() {
    let k = key("Hello world", None, None);
    assert_eq!(k.request.model, "tts-1");
    assert_eq!(k.request.voice, "echo");
    assert_eq!(k.request.input, "Hello world");
    assert_eq!(k.request.response_format, "mp3");
    assert_eq!(k.volume_factor, Gain::identity());
    assert_eq!(k.volume_factor.bits, 1.0f32.to_bits());
    assert!(k.volume_factor.is_identity());
}

#[test]
fn supplied_voice_is_kept() {
    let k = key("Hello", Some("nova"), Some(2.0));
    assert_eq!(k.request.voice, "nova");
    assert_eq!(k.volume_factor.bits, 2.0f32.to_bits());
    assert!(!k.volume_factor.is_identity());
}

#[test]
fn end_to_end_hello_world_passes_provider_bytes_through() {
    let mut cache = SpeechCache::new(DEFAULT_CAPACITY);
    let k = key("Hello world", None, None);
    let provider_bytes: Vec<u8> = vec![0xff, 0xfb, 0x90, 0x64, 1, 2, 3];
    let mut provider_calls = 0;

    let first = match begin_request(&mut cache, &k) {
        Lookup::Hit(_) => panic!("empty cache cannot hit"),
        Lookup::Miss(descriptor) => {
            assert_eq!(descriptor.model, "tts-1");
            assert_eq!(descriptor.voice, "echo");
            assert_eq!(descriptor.input, "Hello world");
            assert_eq!(descriptor.response_format, "mp3");
            provider_calls += 1;
            assert!(provider_succeeded(200));
            assert!(!needs_transcoding(k.volume_factor));
            finish_request(&mut cache, k.duplicate(), provider_bytes.clone())
        }
    };
    assert_eq!(first, provider_bytes);
    assert_eq!(Outcome::Audio(first.clone()).status_code(), 200);

    let second = match begin_request(&mut cache, &k) {
        Lookup::Hit(bytes) => bytes,
        Lookup::Miss(_) => panic!("repeated request must be served from the cache"),
    };
    assert_eq!(provider_calls, 1);
    assert_eq!(second, first);
}

#[test]
fn provider_failure_is_not_success() {
    assert!(!provider_succeeded(500));
    assert!(!provider_succeeded(404));
    assert!(!provider_succeeded(201));
}

#[test]
fn different_volumes_are_cached_apart() {
    let mut cache = SpeechCache::new(DEFAULT_CAPACITY);
    let quiet = key("Hello", Some("echo"), Some(1.0));
    let loud = key("Hello", Some("echo"), Some(2.0));
    assert!(!quiet.same_as(&loud));
    assert!(needs_transcoding(loud.volume_factor));
    assert!(cache.insert(quiet.duplicate(), vec![1, 1, 1]));
    assert!(cache.insert(loud.duplicate(), vec![2, 2, 2]));
    assert_eq!(cache.len(), 2);
    assert_eq!(cache.get(&quiet), Some(vec![1, 1, 1]));
    assert_eq!(cache.get(&loud), Some(vec![2, 2, 2]));
}

#[test]
fn entry_size_counts_key_and_value() {
    // 5 + 4 + 2 + 3 bytes of strings, nothing for the gain, 10 bytes of audio.
    let mut cache = SpeechCache::new(1000);
    assert!(cache.insert(key("hi", None, None), vec![0u8; 10]));
    assert_eq!(cache.total_size(), 24);
}

#[test]
fn hello_world_key_accounts_its_string_bytes() {
    // "tts-1" + "echo" + "Hello world" + "mp3" = 5 + 4 + 11 + 3 bytes.
    let mut cache = SpeechCache::new(1000);
    assert!(cache.insert(key("Hello world", None, None), Vec::new()));
    assert_eq!(cache.total_size(), 23);
}

#[test]
fn non_ascii_text_is_accounted_in_utf8_bytes() {
    // "é" takes two bytes in UTF-8.
    let mut cache = SpeechCache::new(1000);
    assert!(cache.insert(key("éé", None, None), vec![0u8; 1]));
    assert_eq!(cache.total_size(), 5 + 4 + 4 + 3 + 1);
}

#[test]
fn least_recently_used_is_evicted_first() {
    // Each entry below accounts 14 + 86 = 100 bytes.
    let mut cache = SpeechCache::new(300);
    let a = key("aa", None, None);
    let b = key("bb", None, None);
    let c = key("cc", None, None);
    let d = key("dd", None, None);
    assert!(cache.insert(a.duplicate(), vec![1; 86]));
    assert!(cache.insert(b.duplicate(), vec![2; 86]));
    assert!(cache.insert(c.duplicate(), vec![3; 86]));
    assert_eq!(cache.total_size(), 300);
    // Reading `a` makes `b` the oldest.
    assert_eq!(cache.get(&a), Some(vec![1; 86]));
    assert!(cache.insert(d.duplicate(), vec![4; 86]));
    assert_eq!(cache.total_size(), 300);
    assert_eq!(cache.get(&b), None);
    assert_eq!(cache.get(&a), Some(vec![1; 86]));
    assert_eq!(cache.get(&c), Some(vec![3; 86]));
    assert_eq!(cache.get(&d), Some(vec![4; 86]));
}

#[test]
fn budget_holds_over_many_inserts() {
    let mut cache = SpeechCache::new(1000);
    for i in 0..200u32 {
        let text = format!("text {}", i);
        let len = (i as usize * 37) % 700;
        cache.insert(key(&text, None, None), vec![7u8; len]);
        assert!(cache.total_size() <= cache.capacity());
    }
}

#[test]
fn oversized_entry_is_refused() {
    let mut cache = SpeechCache::new(100);
    let small = key("x", None, None);
    assert!(cache.insert(small.duplicate(), vec![0; 10]));
    let big = key("y", None, None);
    assert!(!cache.insert(big.duplicate(), vec![0; 100]));
    assert_eq!(cache.get(&big), None);
    assert_eq!(cache.get(&small), Some(vec![0; 10]));
    assert!(cache.total_size() <= 100);
}

#[test]
fn insert_replaces_existing_entry() {
    let mut cache = SpeechCache::new(1000);
    let k = key("same", None, None);
    assert!(cache.insert(k.duplicate(), vec![1, 2]));
    assert!(cache.insert(k.duplicate(), vec![3, 4, 5]));
    assert_eq!(cache.len(), 1);
    assert_eq!(cache.get(&k), Some(vec![3, 4, 5]));
}

#[test]
fn transcode_errors_are_server_errors() {
    let cases = [
        (TranscodeError::UnsupportedFormat, "unsupported format"),
        (TranscodeError::DecoderInit, "decoder init failed"),
        (TranscodeError::Encode, "encode failed"),
    ];
    for (e, text) in cases {
        let outcome = transcode_failed(e);
        assert_eq!(outcome.status_code(), 500);
        match outcome {
            Outcome::ServerError(m) => assert_eq!(m, text),
            _ => panic!("expected a server error"),
        }
    }
}

#[test]
fn cache_lifetime_is_seven_days() {
    assert_eq!(CACHE_MAX_AGE_SECS, 7 * 24 * 60 * 60);
}
