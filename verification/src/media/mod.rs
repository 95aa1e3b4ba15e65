//! Media bookkeeping: frame metadata for seeking, the decoded-frame cache,
//! GOP decoding decisions, frame and sample containers, media identifiers,
//! the media registry and backend start-up.

pub mod audio_samples;
pub mod backend_init;
pub mod ffmpeg;
pub mod frame_cache;
pub mod frame_metadata;
pub mod gop_decode;
pub mod gstreamer;
pub mod media_id;
pub mod media_store;
pub mod media_worker;
pub mod video_frame;

pub use audio_samples::{AudioFormat, AudioSamples};
pub use backend_init::{BackendInit, InitStep};
pub use ffmpeg::{init, is_initialized};
pub use media_id::MediaId;
pub use media_store::MediaStore;
pub use video_frame::{PixelFormat, SerializableVideoFrame, VideoFrame};
