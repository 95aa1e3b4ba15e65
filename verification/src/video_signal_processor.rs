//! The frame-processing workflow's state: a codec for the video's frames
//! and the modulator audio the effects are driven by.
//!
//! Modulator samples are 32-bit floats in -1.0..=1.0, carried here as their
//! IEEE-754 bit patterns; the effects themselves compute with floats and run
//! outside this crate.

use crate::video_signal::{MappingMode, VideoSignalCodec, VideoSignalMetadata};
use vstd::prelude::*;

verus! {

/// Interpolation mode for modulator resampling.
#[derive(Debug, Clone, Copy, PartialEq, Eq, Structural)]
pub enum InterpolationMode {
    /// Linear interpolation (fast, good quality)
    Linear,
    /// Sinc interpolation with Lanczos window (slow, highest quality)
    Sinc,
}

/// The bits of the float 0.0: the neutral modulator value (silence).
pub open spec fn neutral_bits() -> u32 {
    0
}

/// Sample `i` of the chunk of `count` modulator samples from `start`:
/// the modulator's sample, or silence past its end.
pub open spec fn chunk_sample(modulator: Seq<u32>, start: int, i: int) -> u32 {
    if start + i < modulator.len() {
        modulator[start + i]
    } else {
        neutral_bits()
    }
}

/// The `count` modulator samples from position `start`, padded with silence
/// (never wrapped) past the end of the modulator.
pub fn modulator_chunk(modulator: &[u32], start: usize, count: usize) -> (chunk: Vec<u32>)
    requires
        start + count <= usize::MAX,
    ensures
        chunk.len() == count,
        forall|i: int| 0 <= i < count ==> #[trigger] chunk@[i] == chunk_sample(modulator@, start as int, i),
        forall|i: int|
            0 <= i < count && start + i < modulator.len() ==> #[trigger] chunk@[i] == modulator@[start + i],
        forall|i: int| 0 <= i < count && start + i >= modulator.len() ==> #[trigger] chunk@[i] == 0u32,
{
    let mut chunk: Vec<u32> = Vec::with_capacity(count);
    let mut i: usize = 0;
    while i < count
        invariant
            start + count <= usize::MAX,
            i <= count,
            chunk.len() == i,
            forall|k: int| 0 <= k < i ==> #[trigger] chunk@[k] == chunk_sample(modulator@, start as int, k),
        decreases count - i,
    {
        let idx = start + i;
        if idx < modulator.len() {
            chunk.push(modulator[idx]);
        } else {
            chunk.push(0);
        }
        i = i + 1;
    }
    chunk
}

/// Processes video frames with audio modulation effects: holds the codec
/// for the video's frames and, once loaded, the modulator audio.
pub struct VideoSignalProcessor {
    codec: VideoSignalCodec,
    modulator_audio: Option<Vec<u32>>,
}

impl VideoSignalProcessor {
    /// The metadata of the codec.
    pub closed spec fn metadata_spec(&self) -> VideoSignalMetadata {
        self.codec@
    }

    /// The loaded modulator samples (as float bits), if any.
    pub closed spec fn modulator_spec(&self) -> Option<Seq<u32>> {
        match self.modulator_audio {
            Some(v) => Some(v@),
            None => None,
        }
    }

    /// A processor for `width` x `height` frames at the frame rate whose
    /// `f32` bits are `fps_bits`, without a modulator.
    pub fn new(width: u32, height: u32, fps_bits: u32, mapping_mode: MappingMode) -> (p: Self)
        requires
            width * height * 3 <= u32::MAX,
        ensures
            p.metadata_spec().width == width,
            p.metadata_spec().height == height,
            p.metadata_spec().fps_bits == fps_bits,
            p.metadata_spec().total_frames == 0,
            p.metadata_spec().bytes_per_frame == width * height * 3,
            p.metadata_spec().sample_rate == 44100,
            p.metadata_spec().mapping_mode == mapping_mode,
            p.modulator_spec() is None,
    {
        let metadata = VideoSignalMetadata::new(width, height, fps_bits, mapping_mode);
        VideoSignalProcessor { codec: VideoSignalCodec::new(metadata), modulator_audio: None }
    }

    /// Load modulator audio (mono, 44.1 kHz, samples in -1.0..=1.0 as float
    /// bits), replacing any loaded before.
    pub fn load_modulator(&mut self, audio_data: Vec<u32>)
        ensures
            final(self).modulator_spec() == Some(audio_data@),
            final(self).metadata_spec() == old(self).metadata_spec(),
    {
        self.modulator_audio = Some(audio_data);
    }

    /// Drop the modulator audio.
    pub fn clear_modulator(&mut self)
        ensures
            final(self).modulator_spec() is None,
            final(self).metadata_spec() == old(self).metadata_spec(),
    {
        self.modulator_audio = None;
    }

    /// Whether modulator audio is loaded.
    pub fn has_modulator(&self) -> (b: bool)
        ensures
            b == self.modulator_spec() is Some,
    {
        self.modulator_audio.is_some()
    }

    /// The loaded modulator samples (as float bits), if any.
    pub fn modulator(&self) -> (m: Option<&[u32]>)
        ensures
            match self.modulator_spec() {
                Some(s) => m matches Some(v) && v@ == s,
                None => m is None,
            },
    {
        match &self.modulator_audio {
            Some(v) => Some(v.as_slice()),
            None => None,
        }
    }

    /// The codec's metadata.
    pub fn metadata(&self) -> (m: &VideoSignalMetadata)
        ensures
            *m == self.metadata_spec(),
    {
        self.codec.metadata()
    }

    /// The codec that turns frames into signals and back.
    pub fn codec(&self) -> (c: &VideoSignalCodec)
        ensures
            c@ == self.metadata_spec(),
    {
        &self.codec
    }
}

} // verus!
