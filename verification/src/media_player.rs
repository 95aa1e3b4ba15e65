//! Synchronised playback of a video and its audio: every command goes to
//! both pipelines, video first; the video gives the timeline.

use crate::audio_player::{AudioPlayer, PipelineRequest, PipelineState, SeekMode};
use crate::video_decoder::{VideoDecoder, VideoFrame};
use vstd::prelude::*;

verus! {

/// Coordinates synchronised playback of video and audio.
pub struct MediaPlayer {
    video: VideoDecoder,
    audio: AudioPlayer,
}

/// Requests for the two pipelines, to be performed video first.
#[derive(Debug, Clone, Copy, PartialEq, Eq, Structural)]
pub struct PlayerRequests {
    pub video: PipelineRequest,
    pub audio: PipelineRequest,
}

impl MediaPlayer {
    /// The video side.
    pub closed spec fn video_spec(&self) -> VideoDecoder {
        self.video
    }

    /// The audio side.
    pub closed spec fn audio_spec(&self) -> AudioPlayer {
        self.audio
    }

    /// A player whose video and audio both come from `media_path`.
    pub fn new(media_path: &str) -> (p: Self)
        ensures
            p.video_spec().location_view() == media_path@,
            p.audio_spec().location_view() == media_path@,
            p.video_spec().requested_state() == PipelineState::Paused,
            p.audio_spec().requested_state() == PipelineState::Paused,
    {
        MediaPlayer { video: VideoDecoder::new(media_path), audio: AudioPlayer::new(media_path) }
    }

    /// Start both.
    pub fn play(&mut self) -> (r: PlayerRequests)
        ensures
            r == (PlayerRequests {
                video: PipelineRequest::SetState(PipelineState::Playing),
                audio: PipelineRequest::SetState(PipelineState::Playing),
            }),
            final(self).video_spec().requested_state() == PipelineState::Playing,
            final(self).audio_spec().requested_state() == PipelineState::Playing,
    {
        let video = self.video.play();
        let audio = self.audio.play();
        PlayerRequests { video, audio }
    }

    /// Pause both.
    pub fn pause(&mut self) -> (r: PlayerRequests)
        ensures
            r == (PlayerRequests {
                video: PipelineRequest::SetState(PipelineState::Paused),
                audio: PipelineRequest::SetState(PipelineState::Paused),
            }),
            final(self).video_spec().requested_state() == PipelineState::Paused,
            final(self).audio_spec().requested_state() == PipelineState::Paused,
    {
        let video = self.video.pause();
        let audio = self.audio.pause();
        PlayerRequests { video, audio }
    }

    /// Seek both to `position_ns`: the video to the nearest key unit, the
    /// audio exactly.
    pub fn seek(&self, position_ns: u64) -> (r: PlayerRequests)
        ensures
            r == (PlayerRequests {
                video: PipelineRequest::Seek { mode: SeekMode::FlushKeyUnit, position_ns },
                audio: PipelineRequest::Seek { mode: SeekMode::Flush, position_ns },
            }),
    {
        PlayerRequests { video: self.video.seek(position_ns), audio: self.audio.seek(position_ns) }
    }

    /// The position comes from the video pipeline.
    pub fn get_position(&self) -> (r: PipelineRequest)
        ensures
            r == PipelineRequest::QueryPosition,
    {
        self.video.get_position()
    }

    /// The duration comes from the video pipeline.
    pub fn get_duration(&self) -> (r: PipelineRequest)
        ensures
            r == PipelineRequest::QueryDuration,
    {
        self.video.get_duration()
    }

    /// The video decoder, to hand it delivered frames.
    pub fn video_mut(&mut self) -> (v: &mut VideoDecoder)
        ensures
            *v == old(self).video_spec(),
            final(self).video_spec() == *final(v),
            final(self).audio_spec() == old(self).audio_spec(),
    {
        &mut self.video
    }

    /// A copy of the video's current frame, if any.
    pub fn get_current_frame(&self) -> (f: Option<VideoFrame>)
        ensures
            match self.video_spec().frame_view() {
                Some((w, h, d)) => f matches Some(fr) && fr.width == w && fr.height == h && fr.data@ == d,
                None => f is None,
            },
    {
        self.video.get_current_frame()
    }
}

} // verus!
