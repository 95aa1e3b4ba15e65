//! Decisions of loading modulator audio from WAV files: which sample
//! encodings are read, and how. Reading the file, converting samples to
//! floats, mixing to mono and resampling happen outside this crate.

use vstd::prelude::*;

verus! {

/// How the samples of a WAV file are read and scaled to -1.0..=1.0.
#[derive(Debug, Clone, Copy, PartialEq, Eq, Structural)]
pub enum WavSampleKind {
    /// 32-bit floats, taken as they are
    Float,
    /// 8-bit unsigned samples around 128 (full scale 128)
    Unsigned8,
    /// 16-bit signed samples (full scale 32768)
    Signed16,
    /// 24-bit signed samples (full scale 8388608)
    Signed24,
    /// 32-bit signed samples (full scale 2147483648)
    Signed32,
}

/// Why an audio file cannot be loaded as a modulator.
#[derive(Debug, Clone, Copy, PartialEq, Eq, Structural)]
pub enum AudioLoadError {
    /// A file that is not WAV
    UnsupportedFormat,
    /// Integer samples of a bit depth other than 8, 16, 24 or 32
    UnsupportedBitDepth(u16),
}

/// Which audio files can be loaded: WAV files, told by their lower-cased
/// extension.
pub fn check_audio_extension(extension_lower: &str) -> (r: Result<(), AudioLoadError>)
    ensures
        r is Ok <==> extension_lower@ == "wav"@,
        r is Err ==> r == Err::<(), AudioLoadError>(AudioLoadError::UnsupportedFormat),
{
    let given = extension_lower.to_owned();
    let wav = "wav".to_owned();
    if given == wav {
        Ok(())
    } else {
        Err(AudioLoadError::UnsupportedFormat)
    }
}

/// The reading for a WAV file's sample format: float samples, or integer
/// samples of 8, 16, 24 or 32 bits; other integer depths are refused.
pub fn wav_sample_kind(is_float: bool, bits_per_sample: u16) -> (r: Result<WavSampleKind, AudioLoadError>)
    ensures
        is_float ==> r == Ok::<WavSampleKind, AudioLoadError>(WavSampleKind::Float),
        !is_float ==> r == match bits_per_sample {
            8 => Ok(WavSampleKind::Unsigned8),
            16 => Ok(WavSampleKind::Signed16),
            24 => Ok(WavSampleKind::Signed24),
            32 => Ok(WavSampleKind::Signed32),
            _ => Err(AudioLoadError::UnsupportedBitDepth(bits_per_sample)),
        },
{
    if is_float {
        return Ok(WavSampleKind::Float);
    }
    match bits_per_sample {
        8 => Ok(WavSampleKind::Unsigned8),
        16 => Ok(WavSampleKind::Signed16),
        24 => Ok(WavSampleKind::Signed24),
        32 => Ok(WavSampleKind::Signed32),
        _ => Err(AudioLoadError::UnsupportedBitDepth(bits_per_sample)),
    }
}

/// The stored byte of an 8-bit WAV sample. WAV stores 8-bit samples
/// unsigned, centred on 128 (silence); the reader hands them out signed,
/// as the byte minus 128, and this undoes that shift.
pub fn wav_u8_sample(raw: i8) -> (u: u8)
    ensures
        u == raw + 128,
{
    (raw as i16 + 128) as u8
}

/// Whether samples at `sample_rate` Hz have to be resampled to the
/// 44100 Hz modulator rate.
pub fn needs_resample(sample_rate: u32) -> (b: bool)
    ensures
        b == (sample_rate != 44100),
{
    sample_rate != 44100
}

} // verus!
