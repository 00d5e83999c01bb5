//! Turning raw request parameters into a validated cache key.
//!
//! Text length is measured in Unicode code points. A gain factor is carried
//! as the bit pattern of an IEEE-754 single-precision value, so that the
//! library can validate and compare it without floating-point arithmetic.
use vstd::prelude::*;

verus! {

/// Longest accepted input text, in code points.
pub const MAX_TEXT_LEN: usize = 100;

/// Bit pattern of the single-precision value 1.0.
pub const IDENTITY_GAIN_BITS: u32 = 0x3f80_0000;

/// Bit pattern of the single-precision value -0.0.
pub const NEGATIVE_ZERO_BITS: u32 = 0x8000_0000;

/// Exponent field of a single-precision value.
pub const EXPONENT_MASK: u32 = 0x7f80_0000;

/// A value whose exponent bits are all set is an infinity or a NaN.
pub open spec fn is_finite_bits(bits: u32) -> bool {
    bits & EXPONENT_MASK != EXPONENT_MASK
}

/// -0.0 and 0.0 compare equal, so both are keyed as 0.0.
pub open spec fn canonical_bits(bits: u32) -> u32 {
    if bits == NEGATIVE_ZERO_BITS {
        0
    } else {
        bits
    }
}

/// A finite linear gain factor in canonical form.
#[derive(Clone, Copy, Debug, PartialEq, Eq, Structural, Hash)]
pub struct Gain {
    pub bits: u32,
}

impl Gain {
    pub open spec fn wf(&self) -> bool {
        is_finite_bits(self.bits) && self.bits != NEGATIVE_ZERO_BITS
    }

    /// The gain that leaves a waveform unchanged.
    pub fn identity() -> (r: Gain)
        ensures
            r.bits == IDENTITY_GAIN_BITS,
            r.wf(),
    {
        assert(IDENTITY_GAIN_BITS & EXPONENT_MASK != EXPONENT_MASK) by (bit_vector);
        Gain { bits: IDENTITY_GAIN_BITS }
    }

    /// Validates the bit pattern of a single-precision value as a gain.
    pub fn from_bits(bits: u32) -> (r: Result<Gain, ValidationError>)
        ensures
            is_finite_bits(bits) ==> r == Ok::<Gain, ValidationError>(
                Gain { bits: canonical_bits(bits) },
            ),
            !is_finite_bits(bits) ==> r == Err::<Gain, ValidationError>(
                ValidationError::InvalidGain,
            ),
            r matches Ok(g) ==> g.wf(),
    {
        if bits & EXPONENT_MASK == EXPONENT_MASK {
            Err(ValidationError::InvalidGain)
        } else if bits == NEGATIVE_ZERO_BITS {
            assert(0u32 & EXPONENT_MASK != EXPONENT_MASK) by (bit_vector);
            Ok(Gain { bits: 0 })
        } else {
            Ok(Gain { bits })
        }
    }

    pub fn is_identity(&self) -> (r: bool)
        ensures
            r == (self.bits == IDENTITY_GAIN_BITS),
    {
        self.bits == IDENTITY_GAIN_BITS
    }
}

/// Why a request was refused before any work was done.
#[derive(Clone, Copy, Debug, PartialEq, Eq, Structural)]
pub enum ValidationError {
    TextTooLong,
    InvalidGain,
}

pub open spec fn validation_message(e: ValidationError) -> Seq<char> {
    match e {
        ValidationError::TextTooLong => "text too long"@,
        ValidationError::InvalidGain => "invalid gain"@,
    }
}

impl ValidationError {
    /// The diagnostic text sent back to the client.
    pub fn message(&self) -> (r: String)
        ensures
            r@ == validation_message(*self),
    {
        match self {
            ValidationError::TextTooLong => "text too long".to_owned(),
            ValidationError::InvalidGain => "invalid gain".to_owned(),
        }
    }
}

/// What is sent to the speech provider.
#[derive(Debug)]
pub struct SynthesisDescriptor {
    pub model: String,
    pub voice: String,
    pub input: String,
    pub response_format: String,
}

/// A descriptor as four character sequences: model, voice, input, format.
pub type DescriptorModel = (Seq<char>, Seq<char>, Seq<char>, Seq<char>);

/// A cache key as its descriptor and the bits of its gain.
pub type KeyModel = (DescriptorModel, u32);

impl View for SynthesisDescriptor {
    type V = DescriptorModel;

    open spec fn view(&self) -> DescriptorModel {
        (self.model@, self.voice@, self.input@, self.response_format@)
    }
}

impl SynthesisDescriptor {
    pub fn duplicate(&self) -> (r: SynthesisDescriptor)
        ensures
            r@ == self@,
    {
        SynthesisDescriptor {
            model: self.model.clone(),
            voice: self.voice.clone(),
            input: self.input.clone(),
            response_format: self.response_format.clone(),
        }
    }

    pub fn same_as(&self, other: &SynthesisDescriptor) -> (r: bool)
        ensures
            r == (self@ == other@),
    {
        self.model == other.model && self.voice == other.voice && self.input == other.input
            && self.response_format == other.response_format
    }
}

/// The fingerprint of a request: everything that affects the audio bytes.
#[derive(Debug)]
pub struct CacheKey {
    pub request: SynthesisDescriptor,
    pub volume_factor: Gain,
}

impl View for CacheKey {
    type V = KeyModel;

    open spec fn view(&self) -> KeyModel {
        (self.request@, self.volume_factor.bits)
    }
}

impl CacheKey {
    pub fn duplicate(&self) -> (r: CacheKey)
        ensures
            r@ == self@,
            r.volume_factor == self.volume_factor,
    {
        CacheKey { request: self.request.duplicate(), volume_factor: self.volume_factor }
    }

    pub fn same_as(&self, other: &CacheKey) -> (r: bool)
        ensures
            r == (self@ == other@),
    {
        self.volume_factor.bits == other.volume_factor.bits && self.request.same_as(&other.request)
    }
}

pub open spec fn model_name() -> Seq<char> {
    "tts-1"@
}

pub open spec fn default_voice() -> Seq<char> {
    "echo"@
}

pub open spec fn output_format() -> Seq<char> {
    "mp3"@
}

pub open spec fn text_fits(text: Seq<char>) -> bool {
    text.len() <= MAX_TEXT_LEN
}

/// The key that a valid request is canonicalized to.
pub open spec fn canonical_key(text: Seq<char>, voice: Option<Seq<char>>, gain_bits: u32) -> KeyModel {
    (
        (
            model_name(),
            match voice {
                Some(v) => v,
                None => default_voice(),
            },
            text,
            output_format(),
        ),
        canonical_bits(gain_bits),
    )
}

/// An absent gain is fine; a supplied one must be finite.
pub open spec fn gain_supplied_ok(gain_bits: Option<u32>) -> bool {
    match gain_bits {
        Some(b) => is_finite_bits(b),
        None => true,
    }
}

pub open spec fn gain_or_identity(gain_bits: Option<u32>) -> u32 {
    match gain_bits {
        Some(b) => b,
        None => IDENTITY_GAIN_BITS,
    }
}

pub open spec fn voice_view(voice: Option<String>) -> Option<Seq<char>> {
    match voice {
        Some(v) => Some(v@),
        None => None,
    }
}

/// Validates a request and builds its cache key: the voice defaults to
/// "echo", the gain to 1.0. Text is checked before the gain.
pub fn canonicalize(text: &str, voice: Option<String>, gain_bits: Option<u32>) -> (r: Result<
    CacheKey,
    ValidationError,
>)
    ensures
        !text_fits(text@) ==> r == Err::<CacheKey, ValidationError>(ValidationError::TextTooLong),
        text_fits(text@) && !gain_supplied_ok(gain_bits) ==> r == Err::<CacheKey, ValidationError>(
            ValidationError::InvalidGain,
        ),
        r is Ok <==> text_fits(text@) && gain_supplied_ok(gain_bits),
        r matches Ok(k) ==> k.volume_factor.wf() && k@ == canonical_key(
            text@,
            voice_view(voice),
            gain_or_identity(gain_bits),
        ),
{
    if text.unicode_len() > MAX_TEXT_LEN {
        return Err(ValidationError::TextTooLong);
    }
    let volume_factor = match gain_bits {
        Some(b) => match Gain::from_bits(b) {
            Ok(g) => g,
            Err(e) => {
                return Err(e);
            },
        },
        None => Gain::identity(),
    };
    let voice = match voice {
        Some(v) => v,
        None => "echo".to_owned(),
    };
    proof {
        reveal_strlit("tts-1");
        reveal_strlit("echo");
        reveal_strlit("mp3");
    }
    let request = SynthesisDescriptor {
        model: "tts-1".to_owned(),
        voice,
        input: text.to_owned(),
        response_format: "mp3".to_owned(),
    };
    Ok(CacheKey { request, volume_factor })
}

} // verus!
