//! RasterSong: turning video frames into audio-rate signals and back,
//! with the bookkeeping that seeking and frame caching rely on.

pub mod audio_effects;
pub mod audio_loader;
pub mod audio_player;
pub mod media;
pub mod media_player;
pub mod playback;
pub mod video_decoder;
pub mod video_signal;
pub mod video_signal_processor;

use crate::media::backend_init::{BackendInit, InitStep};
use vstd::prelude::*;

verus! {

/// What `init` asks the caller to do for each backend.
#[derive(Debug, Clone, Copy, PartialEq, Eq, Structural)]
pub struct InitSteps {
    /// GStreamer's one-time set-up
    pub gstreamer: InitStep,
    /// FFmpeg's one-time set-up
    pub ffmpeg: InitStep,
}

/// The step a backend in `state` needs: its routine until it has completed.
pub open spec fn step_for(state: BackendInit) -> InitStep {
    if state.completed() {
        InitStep::AlreadyInitialized
    } else {
        InitStep::RunBackendInit
    }
}

/// Initialise the library before any media functionality is used:
/// GStreamer (for playback) and FFmpeg (for decoding), each asked for only
/// until its one-time set-up has completed.
pub fn init(gstreamer_state: &BackendInit, ffmpeg_state: &BackendInit) -> (steps: InitSteps)
    ensures
        steps.gstreamer == step_for(*gstreamer_state),
        steps.ffmpeg == step_for(*ffmpeg_state),
{
    InitSteps { gstreamer: media::gstreamer::init(gstreamer_state), ffmpeg: media::init(ffmpeg_state) }
}

} // verus!
