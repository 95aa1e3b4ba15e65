use rastersong::audio_effects::{bit_crush, fm_gather, quantize_sample};
use rastersong::audio_loader::{
    check_audio_extension, needs_resample, wav_sample_kind, wav_u8_sample, AudioLoadError, WavSampleKind,
};

/// Documents the video signal format: 8-bit unsigned samples.
#[test]
fn test_video_signal_format_documentation() {
    let video_signal: Vec<u8> = vec![0, 1, 128, 255];
    assert_eq!(video_signal[0], 0);
    assert_eq!(video_signal[1], 1);
    assert_eq!(video_signal[2], 128);
    assert_eq!(video_signal[3], 255);
}

/// Documents the modulation signal format: normalised floats in -1.0..=1.0.
#[test]
fn test_modulation_signal_format_documentation() {
    let modulator: Vec<f32> = vec![-1.0, 0.0, 1.0];
    for &sample in &modulator {
        assert!(sample >= -1.0 && sample <= 1.0);
    }
    assert!((modulator[0] - (-1.0)).abs() < 0.01);
    assert!((modulator[1] - 0.0).abs() < 0.01);
    assert!((modulator[2] - 1.0).abs() < 0.01);
}

#[test]
fn test_bit_crush_basic() {
    let signal: Vec<u8> = (0..=255).collect();
    let result = bit_crush(&signal, 4);
    assert_eq!(result.len(), signal.len());
    assert_ne!(result, signal);
}

#[test]
fn test_bit_crush_8_bits() {
    let signal: Vec<u8> = (0..=255).collect();
    let result = bit_crush(&signal, 8);
    assert_eq!(result.len(), signal.len());
}

#[test]
fn test_bit_crush_1_bit() {
    let signal: Vec<u8> = (0..=255).collect();
    let result = bit_crush(&signal, 1);
    assert_eq!(result.len(), signal.len());
    let unique_values: std::collections::HashSet<u8> = result.iter().cloned().collect();
    assert!(unique_values.len() <= 2);
}

#[test]
fn bit_crush_levels_are_exact() {
    assert_eq!(quantize_sample(200, 1), 128);
    assert_eq!(quantize_sample(127, 1), 0);
    assert_eq!(quantize_sample(37, 4), 32);
    assert_eq!(quantize_sample(255, 3), 224);
    assert_eq!(quantize_sample(77, 8), 77);
    // depths outside 1..=8 are clamped
    assert_eq!(quantize_sample(200, 0), 128);
    assert_eq!(quantize_sample(77, 12), 77);
}

#[test]
fn bit_crush_eight_bits_is_identity() {
    let signal: Vec<u8> = (0..=255).collect();
    assert_eq!(bit_crush(&signal, 8), signal);
}

#[test]
fn bit_crush_is_idempotent_and_monotone() {
    let signal: Vec<u8> = (0..=255).collect();
    for bits in 0..10u8 {
        let once = bit_crush(&signal, bits);
        let twice = bit_crush(&once, bits);
        assert_eq!(once, twice);
        for w in once.windows(2) {
            assert!(w[0] <= w[1]);
        }
    }
}

#[test]
fn bit_crush_empty_signal() {
    assert!(bit_crush(&[], 4).is_empty());
}

#[test]
fn fm_gather_reads_at_clamped_offsets() {
    let carrier: Vec<u8> = vec![10, 20, 30, 40, 50];
    let offsets: Vec<i32> = vec![0, 1, -5, 100, -1];
    assert_eq!(fm_gather(&carrier, &offsets), vec![10, 30, 10, 50, 40]);
}

#[test]
fn fm_gather_zero_offsets_is_identity() {
    let carrier: Vec<u8> = (0..=255).collect();
    let offsets = vec![0i32; carrier.len()];
    assert_eq!(fm_gather(&carrier, &offsets), carrier);
}

#[test]
fn fm_gather_empty_carrier() {
    assert!(fm_gather(&[], &[]).is_empty());
}

#[test]
fn wav_sample_kinds() {
    assert_eq!(wav_sample_kind(true, 32), Ok(WavSampleKind::Float));
    assert_eq!(wav_sample_kind(false, 8), Ok(WavSampleKind::Unsigned8));
    assert_eq!(wav_sample_kind(false, 16), Ok(WavSampleKind::Signed16));
    assert_eq!(wav_sample_kind(false, 24), Ok(WavSampleKind::Signed24));
    assert_eq!(wav_sample_kind(false, 32), Ok(WavSampleKind::Signed32));
    assert_eq!(wav_sample_kind(false, 12), Err(AudioLoadError::UnsupportedBitDepth(12)));
}

#[test]
fn wav_eight_bit_samples_are_unsigned() {
    // the reader hands out the stored byte minus 128
    assert_eq!(wav_u8_sample(0), 128); // silence
    assert_eq!(wav_u8_sample(-128), 0);
    assert_eq!(wav_u8_sample(127), 255);
    assert_eq!(wav_u8_sample(-1), 127);
    // normalised as in loading: silence is 0.0, the lowest byte full negative scale
    assert_eq!((wav_u8_sample(0) as f32 - 128.0) / 128.0, 0.0);
    assert_eq!((wav_u8_sample(-128) as f32 - 128.0) / 128.0, -1.0);
}

#[test]
fn bit_crush_levels_are_bounded() {
    let signal: Vec<u8> = (0..=255).collect();
    for bits in 1..=8u8 {
        let result = bit_crush(&signal, bits);
        let unique: std::collections::HashSet<u8> = result.iter().cloned().collect();
        assert_eq!(unique.len(), 1usize << bits);
        let step = 256usize >> bits;
        assert!(result.iter().all(|&v| v as usize % step == 0));
    }
}

#[test]
fn only_wav_files_load() {
    assert_eq!(check_audio_extension("wav"), Ok(()));
    assert_eq!(check_audio_extension("mp3"), Err(AudioLoadError::UnsupportedFormat));
    assert_eq!(check_audio_extension(""), Err(AudioLoadError::UnsupportedFormat));
    assert!(!needs_resample(44100));
    assert!(needs_resample(48000));
}
