//! Decisions of a media worker serving decode requests: a requested frame
//! comes from the cache when it is there, else its GOP is decoded first;
//! a requested GOP is decoded only when it is not cached.
//!
//! The worker thread, its channels and the decoding itself run outside;
//! they hand these functions what they found and do what they are told.

use crate::media::frame_cache::{touched, FrameCache};
use crate::media::video_frame::VideoFrame;
use vstd::prelude::*;

verus! {

/// Why a worker could not serve a request.
#[derive(Debug, Clone, Copy, PartialEq, Eq, Structural)]
pub enum WorkerError {
    /// The file has no video stream
    NoVideoDecoder,
    /// No frame's metadata matches the requested time
    NoFrameAtTimestamp,
    /// The frame is still not cached after its GOP was decoded
    FrameMissingAfterDecode,
    /// The file has no audio stream
    NoAudioDecoder,
}

/// The first step of serving a frame request.
pub enum FrameStep {
    /// The frame, from the cache
    Ready(VideoFrame),
    /// Decode this GOP, then take the frame from the cache
    DecodeGop { gop_id: usize, frame_number: usize },
}

/// First step of a frame request. `found` is the frame nearest the
/// requested time, as (frame number, GOP); looking it up in the cache makes
/// its GOP, where cached, the most recently used.
pub fn frame_request_step(has_video: bool, found: Option<(usize, usize)>, cache: &mut FrameCache) -> (r: Result<FrameStep, WorkerError>)
    requires
        old(cache).wf(),
    ensures
        final(cache).wf(),
        final(cache).table() == old(cache).table(),
        final(cache).cached_bytes() == old(cache).cached_bytes(),
        final(cache).max_gops_limit() == old(cache).max_gops_limit(),
        final(cache).max_bytes_limit() == old(cache).max_bytes_limit(),
        final(cache).lru_order() == (match found {
            Some((n, g)) => if has_video && old(cache).table().contains_key(g) {
                touched(old(cache).lru_order(), g)
            } else {
                old(cache).lru_order()
            },
            None => old(cache).lru_order(),
        }),
        !has_video ==> (r matches Err(e) && e == WorkerError::NoVideoDecoder),
        has_video && found is None ==> (r matches Err(e) && e == WorkerError::NoFrameAtTimestamp),
        has_video ==> (found matches Some((n, g)) ==> if old(cache).table().contains_key(g)
            && old(cache).table()[g].frames@.contains_key(n) {
            (r matches Ok(FrameStep::Ready(f)) && f@ == old(cache).table()[g].frames@[n]@)
        } else {
            (r matches Ok(FrameStep::DecodeGop { gop_id, frame_number }) && gop_id == g && frame_number == n)
        }),
{
    if !has_video {
        return Err(WorkerError::NoVideoDecoder);
    }
    match found {
        None => Err(WorkerError::NoFrameAtTimestamp),
        Some((frame_number, gop_id)) => match cache.get_frame(gop_id, frame_number) {
            Some(f) => Ok(FrameStep::Ready(f)),
            None => Ok(FrameStep::DecodeGop { gop_id, frame_number }),
        },
    }
}

/// The frame of a request after its GOP was decoded.
pub fn frame_after_decode(cache: &mut FrameCache, gop_id: usize, frame_number: usize) -> (r: Result<VideoFrame, WorkerError>)
    requires
        old(cache).wf(),
    ensures
        final(cache).wf(),
        final(cache).table() == old(cache).table(),
        final(cache).cached_bytes() == old(cache).cached_bytes(),
        final(cache).max_gops_limit() == old(cache).max_gops_limit(),
        final(cache).max_bytes_limit() == old(cache).max_bytes_limit(),
        final(cache).lru_order() == (if old(cache).table().contains_key(gop_id) {
            touched(old(cache).lru_order(), gop_id)
        } else {
            old(cache).lru_order()
        }),
        old(cache).table().contains_key(gop_id) && old(cache).table()[gop_id].frames@.contains_key(frame_number)
            ==> (r matches Ok(f) && f@ == old(cache).table()[gop_id].frames@[frame_number]@),
        !(old(cache).table().contains_key(gop_id) && old(cache).table()[gop_id].frames@.contains_key(frame_number))
            ==> (r matches Err(e) && e == WorkerError::FrameMissingAfterDecode),
{
    match cache.get_frame(gop_id, frame_number) {
        Some(f) => Ok(f),
        None => Err(WorkerError::FrameMissingAfterDecode),
    }
}

/// Whether a GOP request needs decoding: not when the GOP is cached.
pub fn gop_request_needs_decode(has_video: bool, cache: &FrameCache, gop_index: usize) -> (r: Result<bool, WorkerError>)
    ensures
        !has_video ==> (r matches Err(e) && e == WorkerError::NoVideoDecoder),
        has_video ==> (r matches Ok(b) && b == !cache.table().contains_key(gop_index)),
{
    if !has_video {
        return Err(WorkerError::NoVideoDecoder);
    }
    Ok(!cache.contains_gop(gop_index))
}

/// Whether a samples request can be served: only with an audio stream.
pub fn samples_request_check(has_audio: bool) -> (r: Result<(), WorkerError>)
    ensures
        has_audio <==> r is Ok,
        r matches Err(e) ==> e == WorkerError::NoAudioDecoder,
{
    if has_audio {
        Ok(())
    } else {
        Err(WorkerError::NoAudioDecoder)
    }
}

} // verus!
