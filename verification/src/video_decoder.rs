//! Video playback control for a GStreamer pipeline
//! (`filesrc ! decodebin ! videoconvert ! appsink`, RGBA frames).
//!
//! The decoder decides what its pipeline has to do and keeps the last frame
//! the sink delivered; the caller performs each request on the pipeline and
//! hands over each delivered frame.

use crate::audio_player::{PipelineRequest, PipelineState, SeekMode};
use vstd::prelude::*;

verus! {

/// A frame delivered by the pipeline's sink.
#[derive(Clone, Debug)]
pub struct VideoFrame {
    pub width: u32,
    pub height: u32,
    /// RGBA bytes
    pub data: Vec<u8>,
}

/// Controls playback of one video file and holds its current frame.
pub struct VideoDecoder {
    location: String,
    requested: PipelineState,
    current_frame: Option<VideoFrame>,
}

impl VideoDecoder {
    /// The file being played.
    pub closed spec fn location_view(&self) -> Seq<char> {
        self.location@
    }

    /// The state last asked of the pipeline.
    pub closed spec fn requested_state(&self) -> PipelineState {
        self.requested
    }

    /// The last frame delivered: (width, height, RGBA bytes).
    pub closed spec fn frame_view(&self) -> Option<(u32, u32, Seq<u8>)> {
        match self.current_frame {
            Some(f) => Some((f.width, f.height, f.data@)),
            None => None,
        }
    }

    /// A decoder for the file at `video_path`. Its pipeline is built from
    /// that file and brought to the paused state, to preroll the first frame.
    pub fn new(video_path: &str) -> (d: Self)
        ensures
            d.location_view() == video_path@,
            d.requested_state() == PipelineState::Paused,
            d.frame_view() is None,
    {
        VideoDecoder { location: video_path.to_owned(), requested: PipelineState::Paused, current_frame: None }
    }

    /// The file being played.
    pub fn location(&self) -> (s: &str)
        ensures
            s@ == self.location_view(),
    {
        self.location.as_str()
    }

    /// The state last asked of the pipeline.
    pub fn state(&self) -> (s: PipelineState)
        ensures
            s == self.requested_state(),
    {
        self.requested
    }

    /// Start playing.
    pub fn play(&mut self) -> (r: PipelineRequest)
        ensures
            r == PipelineRequest::SetState(PipelineState::Playing),
            final(self).requested_state() == PipelineState::Playing,
            final(self).location_view() == old(self).location_view(),
            final(self).frame_view() == old(self).frame_view(),
    {
        self.requested = PipelineState::Playing;
        PipelineRequest::SetState(PipelineState::Playing)
    }

    /// Pause.
    pub fn pause(&mut self) -> (r: PipelineRequest)
        ensures
            r == PipelineRequest::SetState(PipelineState::Paused),
            final(self).requested_state() == PipelineState::Paused,
            final(self).location_view() == old(self).location_view(),
            final(self).frame_view() == old(self).frame_view(),
    {
        self.requested = PipelineState::Paused;
        PipelineRequest::SetState(PipelineState::Paused)
    }

    /// Seek to the key unit nearest `position_ns` nanoseconds, flushing.
    pub fn seek(&self, position_ns: u64) -> (r: PipelineRequest)
        ensures
            r == (PipelineRequest::Seek { mode: SeekMode::FlushKeyUnit, position_ns }),
    {
        PipelineRequest::Seek { mode: SeekMode::FlushKeyUnit, position_ns }
    }

    /// Ask for the current position.
    pub fn get_position(&self) -> (r: PipelineRequest)
        ensures
            r == PipelineRequest::QueryPosition,
    {
        PipelineRequest::QueryPosition
    }

    /// Ask for the duration.
    pub fn get_duration(&self) -> (r: PipelineRequest)
        ensures
            r == PipelineRequest::QueryDuration,
    {
        PipelineRequest::QueryDuration
    }

    /// Record a frame the sink delivered; it replaces the current frame.
    pub fn receive_frame(&mut self, width: u32, height: u32, data: Vec<u8>)
        ensures
            final(self).frame_view() == Some((width, height, data@)),
            final(self).requested_state() == old(self).requested_state(),
            final(self).location_view() == old(self).location_view(),
    {
        self.current_frame = Some(VideoFrame { width, height, data });
    }

    /// A copy of the last frame delivered, if any.
    pub fn get_current_frame(&self) -> (f: Option<VideoFrame>)
        ensures
            match self.frame_view() {
                Some((w, h, d)) => f matches Some(fr) && fr.width == w && fr.height == h && fr.data@ == d,
                None => f is None,
            },
    {
        match &self.current_frame {
            Some(fr) => {
                let mut data: Vec<u8> = Vec::with_capacity(fr.data.len());
                let mut i: usize = 0;
                while i < fr.data.len()
                    invariant
                        i <= fr.data.len(),
                        data@ == fr.data@.take(i as int),
                    decreases fr.data.len() - i,
                {
                    data.push(fr.data[i]);
                    i = i + 1;
                    proof {
                        assert(data@ =~= fr.data@.take(i as int));
                    }
                }
                proof {
                    assert(fr.data@.take(fr.data.len() as int) =~= fr.data@);
                }
                Some(VideoFrame { width: fr.width, height: fr.height, data })
            },
            None => None,
        }
    }

    /// Stop: the pipeline is taken back to the null state.
    pub fn shutdown(&mut self) -> (r: PipelineRequest)
        ensures
            r == PipelineRequest::SetState(PipelineState::Null),
            final(self).requested_state() == PipelineState::Null,
            final(self).location_view() == old(self).location_view(),
            final(self).frame_view() == old(self).frame_view(),
    {
        self.requested = PipelineState::Null;
        PipelineRequest::SetState(PipelineState::Null)
    }
}

} // verus!
