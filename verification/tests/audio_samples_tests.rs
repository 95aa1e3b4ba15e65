use rastersong::media::audio_samples::{
    extract_sample, interleave_samples, AudioFormat, AudioSamples, AudioSamplesError, RawSample,
    SampleEncoding, SampleError,
};

fn bits(v: &[f32]) -> Vec<u32> {
    v.iter().map(|x| x.to_bits()).collect()
}

#[test]
fn stereo_channels_deinterleave() {
    let s = AudioSamples::new(44100, 2, AudioFormat::F32, bits(&[0.1, -0.1, 0.2, -0.2, 0.3, -0.3]), 0f64.to_bits(), 1f64.to_bits());
    assert_eq!(s.sample_count(), 3);
    assert_eq!(s.channel_data(0).unwrap(), bits(&[0.1, 0.2, 0.3]));
    assert_eq!(s.channel_data(1).unwrap(), bits(&[-0.1, -0.2, -0.3]));
    assert_eq!(s.channel_data(2), Err(AudioSamplesError::ChannelOutOfRange { channel: 2, channels: 2 }));
    assert_eq!(s.data_size(), 24);
    assert_eq!(s.sample_rate(), 44100);
    assert_eq!(s.channels(), 2);
    assert_eq!(*s.format(), AudioFormat::F32);
    assert_eq!(s.time_range_bits(), (0f64.to_bits(), 1f64.to_bits()));
    assert_eq!(f64::from_bits(s.end_time_bits()) - f64::from_bits(s.start_time_bits()), 1.0);
}

#[test]
fn samples_are_read_little_endian() {
    let plane = 0.5f32.to_le_bytes().to_vec();
    assert_eq!(extract_sample(&plane, SampleEncoding::F32, 0), Ok(RawSample::F32Bits(0.5f32.to_bits())));
    assert_eq!(extract_sample(&plane, SampleEncoding::F32, 1), Err(SampleError::IndexOutOfBounds));
    let i16s: Vec<u8> = [1000i16, -2].iter().flat_map(|v| v.to_le_bytes()).collect();
    assert_eq!(extract_sample(&i16s, SampleEncoding::I16, 1), Ok(RawSample::I16(-2)));
    assert_eq!(extract_sample(&i16s, SampleEncoding::I16, 0), Ok(RawSample::I16(1000)));
    let i32s = (-70000i32).to_le_bytes();
    assert_eq!(extract_sample(&i32s, SampleEncoding::I32, 0), Ok(RawSample::I32(-70000)));
    assert_eq!(extract_sample(&i32s, SampleEncoding::Unsupported, 0), Err(SampleError::UnsupportedFormat));
}

#[test]
fn planar_and_packed_interleave() {
    let left: Vec<u8> = [1i16, 2, 3].iter().flat_map(|v| v.to_le_bytes()).collect();
    let right: Vec<u8> = [-1i16, -2, -3].iter().flat_map(|v| v.to_le_bytes()).collect();
    let planar = interleave_samples(&[left, right], SampleEncoding::I16, 2, 3, true).unwrap();
    let want: Vec<RawSample> = [1i16, -1, 2, -2, 3, -3].iter().map(|v| RawSample::I16(*v)).collect();
    assert_eq!(planar, want);
    let packed_plane: Vec<u8> = [1i16, -1, 2, -2, 3, -3].iter().flat_map(|v| v.to_le_bytes()).collect();
    let packed = interleave_samples(&[packed_plane], SampleEncoding::I16, 2, 3, false).unwrap();
    assert_eq!(packed, want);
    let short: Vec<u8> = vec![0, 0];
    assert_eq!(interleave_samples(&[short], SampleEncoding::I16, 1, 2, false), Err(SampleError::IndexOutOfBounds));
    assert_eq!(interleave_samples(&[vec![0u8; 8]], SampleEncoding::Unsupported, 1, 1, false), Err(SampleError::UnsupportedFormat));
}
