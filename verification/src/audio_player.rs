//! Audio playback control.
//!
//! The player decides what its GStreamer pipeline
//! (`filesrc ! decodebin ! audioconvert ! audioresample ! autoaudiosink`)
//! has to do; the caller performs each request on the pipeline.

use vstd::prelude::*;

verus! {

/// A state the pipeline is asked to reach.
#[derive(Debug, Clone, Copy, PartialEq, Eq, Structural)]
pub enum PipelineState {
    Null,
    Paused,
    Playing,
}

/// How a seek repositions the pipeline.
#[derive(Debug, Clone, Copy, PartialEq, Eq, Structural)]
pub enum SeekMode {
    /// Flush, and seek to the exact position.
    Flush,
    /// Flush, and seek to the nearest key unit.
    FlushKeyUnit,
}

/// A request the player makes of its pipeline.
#[derive(Debug, Clone, Copy, PartialEq, Eq, Structural)]
pub enum PipelineRequest {
    /// Change the pipeline's state.
    SetState(PipelineState),
    /// Seek to a position in nanoseconds.
    Seek { mode: SeekMode, position_ns: u64 },
    /// Report the current position in nanoseconds, if known.
    QueryPosition,
    /// Report the duration in nanoseconds, if known.
    QueryDuration,
}

/// `str::starts_with`.
#[verifier::external_body]
fn str_starts_with(s: &str, prefix: &str) -> (b: bool)
    ensures
        b == prefix@.is_prefix_of(s@),
{
    s.starts_with(prefix)
}

/// Whether a pad that `decodebin` added, with caps named `caps_name`,
/// is linked to the sink pad of the converter: only pads of the wanted
/// media kind (`media_prefix`, e.g. `"audio/"`) and only while the sink pad
/// is free.
pub fn should_link_pad(caps_name: &str, media_prefix: &str, sink_is_linked: bool) -> (b: bool)
    ensures
        b == (media_prefix@.is_prefix_of(caps_name@) && !sink_is_linked),
{
    str_starts_with(caps_name, media_prefix) && !sink_is_linked
}

/// Controls playback of one audio file.
pub struct AudioPlayer {
    location: String,
    requested: PipelineState,
}

impl AudioPlayer {
    /// The file being played.
    pub closed spec fn location_view(&self) -> Seq<char> {
        self.location@
    }

    /// The state last asked of the pipeline.
    pub closed spec fn requested_state(&self) -> PipelineState {
        self.requested
    }

    /// A player for the file at `audio_path`. Its pipeline is built from
    /// that file and brought to the paused state.
    pub fn new(audio_path: &str) -> (p: Self)
        ensures
            p.location_view() == audio_path@,
            p.requested_state() == PipelineState::Paused,
    {
        AudioPlayer { location: audio_path.to_owned(), requested: PipelineState::Paused }
    }

    /// The file being played.
    pub fn location(&self) -> (s: &str)
        ensures
            s@ == self.location_view(),
    {
        self.location.as_str()
    }

    /// The state last asked of the pipeline.
    pub fn state(&self) -> (s: PipelineState)
        ensures
            s == self.requested_state(),
    {
        self.requested
    }

    /// Start playing.
    pub fn play(&mut self) -> (r: PipelineRequest)
        ensures
            r == PipelineRequest::SetState(PipelineState::Playing),
            final(self).requested_state() == PipelineState::Playing,
            final(self).location_view() == old(self).location_view(),
    {
        self.requested = PipelineState::Playing;
        PipelineRequest::SetState(PipelineState::Playing)
    }

    /// Pause.
    pub fn pause(&mut self) -> (r: PipelineRequest)
        ensures
            r == PipelineRequest::SetState(PipelineState::Paused),
            final(self).requested_state() == PipelineState::Paused,
            final(self).location_view() == old(self).location_view(),
    {
        self.requested = PipelineState::Paused;
        PipelineRequest::SetState(PipelineState::Paused)
    }

    /// Seek to `position_ns` nanoseconds, flushing the pipeline.
    pub fn seek(&self, position_ns: u64) -> (r: PipelineRequest)
        ensures
            r == (PipelineRequest::Seek { mode: SeekMode::Flush, position_ns }),
    {
        PipelineRequest::Seek { mode: SeekMode::Flush, position_ns }
    }

    /// Ask for the current position.
    pub fn get_position(&self) -> (r: PipelineRequest)
        ensures
            r == PipelineRequest::QueryPosition,
    {
        PipelineRequest::QueryPosition
    }

    /// Ask for the duration.
    pub fn get_duration(&self) -> (r: PipelineRequest)
        ensures
            r == PipelineRequest::QueryDuration,
    {
        PipelineRequest::QueryDuration
    }

    /// Stop: the pipeline is taken back to the null state.
    pub fn shutdown(&mut self) -> (r: PipelineRequest)
        ensures
            r == PipelineRequest::SetState(PipelineState::Null),
            final(self).requested_state() == PipelineState::Null,
            final(self).location_view() == old(self).location_view(),
    {
        self.requested = PipelineState::Null;
        PipelineRequest::SetState(PipelineState::Null)
    }
}

} // verus!
