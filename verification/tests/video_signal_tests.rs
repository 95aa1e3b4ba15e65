use rastersong::video_signal::{CodecError, MappingMode, VideoSignalCodec, VideoSignalMetadata};
use rastersong::video_signal_processor::{modulator_chunk, InterpolationMode, VideoSignalProcessor};

fn fps30() -> u32 {
    30.0f32.to_bits()
}

#[test]
fn test_encode_decode_accurate() {
    let metadata = VideoSignalMetadata::new(2, 2, fps30(), MappingMode::Accurate);
    let codec = VideoSignalCodec::new(metadata);
    let frame = vec![
        253, 0, 0, 255, // Bright red
        0, 253, 0, 255, // Bright green
        0, 0, 253, 255, // Bright blue
        200, 150, 100, 255, // Some color
    ];
    let audio = codec.encode_frame(&frame).unwrap();
    let decoded = codec.decode_frame(&audio).unwrap();
    assert_eq!(frame, decoded);
}

#[test]
fn test_encode_decode_bugged() {
    let metadata = VideoSignalMetadata::new(2, 2, fps30(), MappingMode::Bugged);
    let codec = VideoSignalCodec::new(metadata);
    let frame = vec![
        127, 127, 127, 255, // Mid-gray
        0, 0, 0, 255, // Black
        253, 253, 253, 255, // Near-white
        64, 128, 192, 255, // Some color
    ];
    let audio = codec.encode_frame(&frame).unwrap();
    let decoded = codec.decode_frame(&audio).unwrap();
    assert_eq!(frame, decoded);
}

#[test]
fn metadata_counts_three_samples_per_pixel() {
    let m = VideoSignalMetadata::new(240, 180, fps30(), MappingMode::Accurate);
    assert_eq!(m.bytes_per_frame, 240 * 180 * 3);
    assert_eq!(m.sample_rate, 44100);
    assert_eq!(m.total_frames, 0);
    assert_eq!(f32::from_bits(m.fps_bits), 30.0);
}

#[test]
fn black_and_white_samples() {
    let accurate = VideoSignalCodec::new(VideoSignalMetadata::new(1, 1, fps30(), MappingMode::Accurate));
    assert_eq!(accurate.encode_frame(&[0, 128, 255, 255]).unwrap(), vec![1, 129, 255]);
    let bugged = VideoSignalCodec::new(VideoSignalMetadata::new(1, 1, fps30(), MappingMode::Bugged));
    assert_eq!(bugged.encode_frame(&[0, 127, 255, 255]).unwrap(), vec![129, 0, 127]);
    // 255 comes back as 254 in both modes; alpha is always opaque
    assert_eq!(accurate.decode_frame(&[255, 0, 1]).unwrap(), vec![254, 0, 0, 255]);
    assert_eq!(bugged.decode_frame(&[127, 128, 129]).unwrap(), vec![254, 0, 0, 255]);
}

#[test]
fn wrong_sizes_are_refused() {
    let codec = VideoSignalCodec::new(VideoSignalMetadata::new(2, 2, fps30(), MappingMode::Accurate));
    assert_eq!(
        codec.encode_frame(&[0u8; 15]),
        Err(CodecError::FrameSizeMismatch { expected: 16, got: 15 })
    );
    assert_eq!(
        codec.decode_frame(&[0u8; 13]),
        Err(CodecError::SampleCountMismatch { expected: 12, got: 13 })
    );
}

#[test]
fn encode_frames_counts_and_decode_frames_pads() {
    let mut codec = VideoSignalCodec::new(VideoSignalMetadata::new(1, 1, fps30(), MappingMode::Accurate));
    let frames = vec![vec![10, 20, 30, 255], vec![40, 50, 60, 255]];
    let signal = codec.encode_frames(&frames).unwrap();
    assert_eq!(signal, vec![11, 21, 31, 41, 51, 61]);
    assert_eq!(codec.metadata().total_frames, 2);
    let decoded = codec.decode_frames(&signal).unwrap();
    assert_eq!(decoded, frames);
    // an incomplete last frame is padded with black
    let partial = codec.decode_frames(&[11, 21, 31, 41]).unwrap();
    assert_eq!(partial, vec![vec![10, 20, 30, 255], vec![40, 0, 0, 255]]);
}

#[test]
fn encode_frames_failure_leaves_count() {
    let mut codec = VideoSignalCodec::new(VideoSignalMetadata::new(1, 1, fps30(), MappingMode::Accurate));
    let frames = vec![vec![10, 20, 30, 255], vec![1, 2, 3]];
    assert_eq!(
        codec.encode_frames(&frames),
        Err(CodecError::FrameSizeMismatch { expected: 4, got: 3 })
    );
    assert_eq!(codec.metadata().total_frames, 0);
}

#[test]
fn modulator_chunk_pads_with_silence() {
    let m: Vec<u32> = vec![0.5f32.to_bits(), (-0.25f32).to_bits(), 1.0f32.to_bits()];
    let chunk = modulator_chunk(&m, 1, 4);
    let floats: Vec<f32> = chunk.iter().map(|b| f32::from_bits(*b)).collect();
    assert_eq!(floats, vec![-0.25, 1.0, 0.0, 0.0]);
    assert_eq!(modulator_chunk(&m, 5, 2), vec![0, 0]);
    assert!(modulator_chunk(&m, 0, 0).is_empty());
}

#[test]
fn processor_modulator_lifecycle() {
    let mut p = VideoSignalProcessor::new(2, 2, fps30(), MappingMode::Accurate);
    assert!(!p.has_modulator());
    assert_eq!(p.metadata().bytes_per_frame, 12);
    p.load_modulator(vec![1.0f32.to_bits(); 100]);
    assert!(p.has_modulator());
    assert_eq!(p.modulator().unwrap().len(), 100);
    p.clear_modulator();
    assert!(p.modulator().is_none());
    assert_ne!(InterpolationMode::Linear, InterpolationMode::Sinc);
}

#[test]
fn processor_without_effects_round_trips() {
    let p = VideoSignalProcessor::new(2, 2, fps30(), MappingMode::Accurate);
    let frame = vec![100, 100, 100, 255, 150, 150, 150, 255, 200, 200, 200, 255, 250, 250, 250, 255];
    let signal = p.codec().encode_frame(&frame).unwrap();
    let back = p.codec().decode_frame(&signal).unwrap();
    assert_eq!(back, frame);
}
