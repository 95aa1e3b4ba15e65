use rastersong::media::frame_cache::FrameCache;
use rastersong::media::frame_metadata::{FrameMetadata, FrameMetadataCache, MetadataScan};
use rastersong::media::gop_decode::{
    plan_gop_decode, FrameDecision, GopCollector, GopDecodeError, GopDecodePlan, SeekMethod,
};
use rastersong::media::media_worker::{
    frame_after_decode, frame_request_step, gop_request_needs_decode, samples_request_check, FrameStep,
    WorkerError,
};
use rastersong::media::video_frame::{PixelFormat, VideoFrame};
use std::collections::HashMap;

/// A 1-pixel-wide frame of `height` rows whose bytes are all `fill`.
fn frame(height: u32, fill: u8, t: f64) -> VideoFrame {
    let plane = vec![fill; 4 * height as usize];
    VideoFrame::from_rgba_plane(1, height, &plane, 4, t.to_bits())
}

fn gop(frames: &[(usize, u8)]) -> HashMap<usize, VideoFrame> {
    frames.iter().map(|(n, fill)| (*n, frame(1, *fill, *n as f64))).collect()
}

#[test]
fn stored_gop_is_found_again() {
    let mut cache = FrameCache::new(10, 1);
    cache.store_gop(3, gop(&[(30, 1), (31, 2), (32, 3)]));
    assert!(cache.contains_gop(3));
    assert!(cache.contains_frame(3, 31));
    assert!(!cache.contains_frame(3, 33));
    assert!(!cache.contains_frame(4, 31));
    assert_eq!(cache.get_frame(3, 32).unwrap().data(), &[3, 3, 3, 3]);
    let mut fills: Vec<u8> = cache.get_gop(3).unwrap().iter().map(|f| f.data()[0]).collect();
    fills.sort();
    assert_eq!(fills, vec![1, 2, 3]);
    let stats = cache.stats();
    assert_eq!(stats.gop_count, 1);
    assert_eq!(stats.frame_count, 3);
    assert_eq!(stats.size_bytes, 12);
    // the byte count is the size of all cached frames' data
    assert_eq!(cache.size_bytes(), 3 * 4);
    let total: usize = cache.get_gop(3).unwrap().iter().map(|f| f.data_size()).sum();
    assert_eq!(cache.size_bytes(), total);
}

#[test]
fn replacing_a_gop_updates_the_size() {
    let mut cache = FrameCache::new(10, 1);
    cache.store_gop(0, gop(&[(0, 1), (1, 1)]));
    cache.store_gop(0, gop(&[(0, 9)]));
    let stats = cache.stats();
    assert_eq!(stats.gop_count, 1);
    assert_eq!(stats.frame_count, 1);
    assert_eq!(stats.size_bytes, 4);
    assert_eq!(cache.get_frame(0, 0).unwrap().data(), &[9, 9, 9, 9]);
}

#[test]
fn gop_limit_evicts() {
    let mut cache = FrameCache::new(2, 1);
    cache.store_gop(0, gop(&[(0, 1)]));
    cache.store_gop(1, gop(&[(1, 1)]));
    cache.store_gop(2, gop(&[(2, 1)]));
    let stats = cache.stats();
    assert_eq!(stats.gop_count, 2);
    assert!(cache.contains_gop(2));
    assert!(cache.contains_gop(1));
    assert!(!cache.contains_gop(0), "the least recently used GOP goes first");
    assert_eq!(stats.size_bytes, 8);
}

#[test]
fn reading_a_gop_keeps_it_cached() {
    let mut cache = FrameCache::new(2, 1);
    cache.store_gop(0, gop(&[(0, 1)]));
    cache.store_gop(1, gop(&[(1, 1)]));
    // GOP 0 is read, so GOP 1 is now the least recently used
    assert!(cache.get_frame(0, 0).is_some());
    cache.store_gop(2, gop(&[(2, 1)]));
    assert!(cache.contains_gop(0));
    assert!(!cache.contains_gop(1));
    assert!(cache.contains_gop(2));
    // reading a whole GOP counts too
    assert!(cache.get_gop(0).is_some());
    cache.store_gop(3, gop(&[(3, 1)]));
    assert!(cache.contains_gop(0));
    assert!(!cache.contains_gop(2));
    // adding a frame to a cached GOP counts as a use
    cache.store_frame(3, 30, frame(1, 2, 0.0));
    cache.store_gop(4, gop(&[(4, 1)]));
    assert!(cache.contains_gop(3));
    assert!(!cache.contains_gop(0));
}

#[test]
fn zero_gop_limit_keeps_only_the_newest() {
    let mut cache = FrameCache::new(0, 1);
    cache.store_gop(0, gop(&[(0, 1)]));
    cache.store_gop(1, gop(&[(1, 1)]));
    assert!(!cache.contains_gop(0));
    assert!(cache.contains_gop(1));
    assert_eq!(cache.stats().gop_count, 1);
}

#[test]
fn byte_limit_evicts_but_keeps_an_oversized_gop() {
    let mut cache = FrameCache::new(100, 1);
    // 1 MB = 1048576 bytes; each of these frames is 4 * 131072 = 524288 bytes
    cache.store_gop(0, [(0usize, frame(131072, 1, 0.0))].into_iter().collect());
    cache.store_gop(1, [(1usize, frame(131072, 2, 0.0))].into_iter().collect());
    assert_eq!(cache.stats().gop_count, 2);
    assert_eq!(cache.stats().size_bytes, 1048576);
    cache.store_gop(2, [(2usize, frame(131072, 3, 0.0))].into_iter().collect());
    assert_eq!(cache.stats().gop_count, 2);
    assert!(cache.contains_gop(2));
    assert!(!cache.contains_gop(0));
    assert!(cache.contains_gop(1));
    // a GOP larger than the whole limit is stored alone
    cache.store_gop(3, [(3usize, frame(300000, 4, 0.0))].into_iter().collect());
    assert_eq!(cache.stats().gop_count, 1);
    assert!(cache.contains_gop(3));
    assert_eq!(cache.stats().size_mb, 1);
}

#[test]
fn store_frame_adds_or_creates() {
    let mut cache = FrameCache::new(10, 1);
    cache.store_frame(5, 50, frame(1, 1, 0.0));
    assert!(cache.contains_frame(5, 50));
    cache.store_frame(5, 51, frame(2, 2, 0.0));
    assert_eq!(cache.stats().frame_count, 2);
    assert_eq!(cache.stats().size_bytes, 12);
    // a frame already there is kept
    cache.store_frame(5, 50, frame(1, 7, 0.0));
    assert_eq!(cache.get_frame(5, 50).unwrap().data(), &[1, 1, 1, 1]);
    assert_eq!(cache.stats().size_bytes, 12);
    cache.clear();
    assert_eq!(cache.stats().gop_count, 0);
    assert_eq!(cache.stats().size_bytes, 0);
}

#[test]
fn video_frame_accessors_and_base64() {
    let plane = vec![1, 2, 3, 4, 9, 9, 5, 6, 7, 8, 9, 9];
    let f = VideoFrame::from_rgba_plane(1, 2, &plane, 6, 1.5f64.to_bits());
    assert_eq!(f.dimensions(), (1, 2));
    assert_eq!(f.width(), 1);
    assert_eq!(f.height(), 2);
    assert!(matches!(f.format(), PixelFormat::RGBA));
    assert_eq!(f.data(), &[1, 2, 3, 4, 5, 6, 7, 8]);
    assert_eq!(f.data_size(), 8);
    assert_eq!(f64::from_bits(f.timestamp_bits()), 1.5);
    assert_eq!(f.to_base64(), "AQIDBAUGBwg=");
    let s = f.to_serializable();
    assert_eq!(s.dimensions(), (1, 2));
    assert_eq!(s.data, "AQIDBAUGBwg=");
    assert!(VideoFrame::validate_dimensions(0, 2).is_err());
    assert!(VideoFrame::validate_dimensions(2, 2).is_ok());
}

fn scanned(keys: &[bool]) -> FrameMetadataCache {
    let mut cache = FrameMetadataCache::new();
    let mut scan = MetadataScan::new();
    for (i, k) in keys.iter().enumerate() {
        scan.record_frame(&mut cache, i as i64 * 10, 0, *k, if i == 3 { Some(4096) } else { None });
    }
    cache
}

#[test]
fn gop_plans() {
    let cache = scanned(&[true, false, false, true, false]);
    let p0 = plan_gop_decode(&cache, 0).unwrap();
    assert_eq!(p0, GopDecodePlan { gop_id: 0, frame_count: 3, keyframe_pts: 0, keyframe_offset: None });
    assert_eq!(p0.first_seek(), SeekMethod::StreamPts(0));
    let p1 = plan_gop_decode(&cache, 1).unwrap();
    assert_eq!(p1.frame_count, 2);
    assert_eq!(p1.first_seek(), SeekMethod::ByteOffset(4096));
    assert_eq!(p1.fallback_seek(), SeekMethod::StreamPts(30));
    assert_eq!(plan_gop_decode(&cache, 2), Err(GopDecodeError::NotInMetadata));
    let no_key = scanned(&[false, false]);
    assert_eq!(plan_gop_decode(&no_key, 0), Err(GopDecodeError::NoKeyframe));
    let mut odd = FrameMetadataCache::new();
    odd.add_frame(FrameMetadata { frame_number: 9, pts: 0, timestamp_bits: 0, is_keyframe: true, gop_id: 0, file_offset: None });
    assert_eq!(plan_gop_decode(&odd, 0), Err(GopDecodeError::NoFrames));
}

#[test]
fn gop_collection_and_finish() {
    let cache_meta = scanned(&[true, false, false, true, false]);
    let plan = plan_gop_decode(&cache_meta, 0).unwrap();
    let mut c = GopCollector::new(&plan);
    assert_eq!(c.classify(None), FrameDecision::Skip);
    assert_eq!(c.classify(Some((4, 1))), FrameDecision::PastGop);
    assert_eq!(c.classify(Some((2, 0))), FrameDecision::Keep(2));
    assert!(!c.keep(2, frame(1, 2, 0.0)));
    assert!(!c.keep(0, frame(1, 0, 0.0)));
    assert!(!c.is_complete());
    assert!(c.keep(1, frame(1, 1, 0.0)));
    assert_eq!(c.kept_count(), 3);
    let mut cache = FrameCache::new(10, 1);
    let out = c.finish(&mut cache);
    let fills: Vec<u8> = out.iter().map(|f| f.data()[0]).collect();
    assert_eq!(fills, vec![0, 1, 2]);
    assert!(cache.contains_frame(0, 0) && cache.contains_frame(0, 1) && cache.contains_frame(0, 2));
    assert_eq!(cache.stats().frame_count, 3);
}

#[test]
fn worker_requests() {
    let mut cache = FrameCache::new(10, 1);
    assert!(matches!(frame_request_step(false, Some((0, 0)), &mut cache), Err(WorkerError::NoVideoDecoder)));
    assert!(matches!(frame_request_step(true, None, &mut cache), Err(WorkerError::NoFrameAtTimestamp)));
    assert!(matches!(
        frame_request_step(true, Some((4, 1)), &mut cache),
        Ok(FrameStep::DecodeGop { gop_id: 1, frame_number: 4 })
    ));
    assert!(matches!(frame_after_decode(&mut cache, 1, 4), Err(WorkerError::FrameMissingAfterDecode)));
    cache.store_gop(1, gop(&[(4, 6)]));
    match frame_request_step(true, Some((4, 1)), &mut cache) {
        Ok(FrameStep::Ready(f)) => assert_eq!(f.data(), &[6, 6, 6, 6]),
        _ => panic!("frame should come from the cache"),
    }
    assert_eq!(frame_after_decode(&mut cache, 1, 4).unwrap().data(), &[6, 6, 6, 6]);
    assert_eq!(gop_request_needs_decode(true, &cache, 1), Ok(false));
    assert_eq!(gop_request_needs_decode(true, &cache, 2), Ok(true));
    assert_eq!(gop_request_needs_decode(false, &cache, 2), Err(WorkerError::NoVideoDecoder));
    assert_eq!(samples_request_check(false), Err(WorkerError::NoAudioDecoder));
    assert_eq!(samples_request_check(true), Ok(()));
}
