use rastersong::{init, InitSteps};
use rastersong::media::backend_init::{BackendInit, InitStep};
use rastersong::media::frame_cache::FrameCache;
use rastersong::media::frame_metadata::{FrameMetadata, FrameMetadataCache, MetadataScan};
use rastersong::media::media_id::MediaId;
use rastersong::media::media_store::{media_duration_bits, LoadError, LoadedMediaData, MediaStore};
use rastersong::media::{gstreamer, is_initialized};

#[test]
fn test_init() {
    let mut gst = BackendInit::new();
    let mut ff = BackendInit::new();
    let steps = init(&gst, &ff);
    assert_eq!(steps, InitSteps { gstreamer: InitStep::RunBackendInit, ffmpeg: InitStep::RunBackendInit });
    gst.mark_completed();
    ff.mark_completed();
    let again = init(&gst, &ff);
    assert_eq!(again, InitSteps { gstreamer: InitStep::AlreadyInitialized, ffmpeg: InitStep::AlreadyInitialized });
    assert!(gstreamer::is_initialized(&gst) && is_initialized(&ff));
}

#[test]
fn test_ffmpeg_initialization() {
    let mut state = BackendInit::new();
    let step = rastersong::media::init(&state);
    assert!(step == InitStep::RunBackendInit, "FFmpeg initialization failed");
    state.mark_completed();
    assert!(is_initialized(&state), "FFmpeg should be initialized");
}

#[test]
fn gstreamer_initialization_runs_once() {
    let mut state = BackendInit::new();
    assert!(!gstreamer::is_initialized(&state));
    assert_eq!(gstreamer::init(&state), InitStep::RunBackendInit);
    state.mark_completed();
    assert!(gstreamer::is_initialized(&state));
    assert_eq!(gstreamer::init(&state), InitStep::AlreadyInitialized);
}

#[test]
fn test_metadata_cache() {
    let mut cache = FrameMetadataCache::new();
    for i in 0..30usize {
        cache.add_frame(FrameMetadata {
            frame_number: i,
            pts: i as i64 * 1000,
            timestamp_bits: (i as f64 * 0.033).to_bits(),
            is_keyframe: i % 10 == 0,
            gop_id: i / 10,
            file_offset: Some(i as i64 * 4096),
        });
    }
    assert_eq!(cache.frame_count(), 30);
    assert_eq!(cache.gop_count(), 3);
    assert_eq!(cache.keyframe_positions().len(), 3);

    let keyframe = cache.get_keyframe_before(15).unwrap();
    assert_eq!(keyframe.frame_number, 10);
    assert!(keyframe.is_keyframe);

    assert_eq!(cache.get_gop_size(0), 10);
    assert_eq!(cache.get_gop_size(1), 10);
    assert_eq!(cache.get_gop_size(2), 10);

    let gop_frames = cache.get_frames_in_gop(1).unwrap();
    assert_eq!(gop_frames.len(), 10);
    assert_eq!(gop_frames[0].frame_number, 10);
}

#[test]
fn metadata_lookups_at_the_edges() {
    let mut cache = FrameMetadataCache::new();
    assert!(cache.get_keyframe_before(0).is_none());
    assert!(cache.get_frames_in_gop(0).is_none());
    assert_eq!(cache.get_gop_size(0), 0);
    for i in 0..5usize {
        cache.add_frame(FrameMetadata {
            frame_number: i,
            pts: i as i64,
            timestamp_bits: 0,
            is_keyframe: i == 2,
            gop_id: 0,
            file_offset: None,
        });
    }
    assert!(cache.get_keyframe_before(1).is_none());
    assert_eq!(cache.get_keyframe_before(4).unwrap().frame_number, 2);
    assert_eq!(cache.get_gop_id(3), Some(0));
    assert_eq!(cache.get_gop_id(9), None);
    assert!(cache.is_keyframe(2));
    assert!(!cache.is_keyframe(3));
    assert!(cache.get_frame(5).is_none());
    assert_eq!(cache.get_frame(4).unwrap().pts, 4);
}

#[test]
fn scan_numbers_frames_and_opens_gops_at_keyframes() {
    let mut cache = FrameMetadataCache::new();
    let mut scan = MetadataScan::new();
    let keys = [true, false, false, true, false, true, true];
    for (i, k) in keys.iter().enumerate() {
        scan.record_frame(&mut cache, i as i64 * 100, 0, *k, None);
    }
    let gops: Vec<usize> = (0..keys.len()).map(|i| cache.get_frame(i).unwrap().gop_id).collect();
    assert_eq!(gops, vec![0, 0, 0, 1, 1, 2, 3]);
    let numbers: Vec<usize> = (0..keys.len()).map(|i| cache.get_frame(i).unwrap().frame_number).collect();
    assert_eq!(numbers, vec![0, 1, 2, 3, 4, 5, 6]);
    assert_eq!(cache.gop_count(), 4);
    // seeking: the keyframe before frame 4 opens frame 4's GOP
    let k = cache.get_keyframe_before(4).unwrap();
    assert_eq!(k.frame_number, 3);
    assert_eq!(k.gop_id, cache.get_frame(4).unwrap().gop_id);
}

#[test]
fn scan_starting_without_keyframe_stays_in_gop_zero() {
    let mut cache = FrameMetadataCache::new();
    let mut scan = MetadataScan::new();
    scan.record_frame(&mut cache, 0, 0, false, Some(7));
    scan.record_frame(&mut cache, 1, 0, true, None);
    assert_eq!(cache.get_frame(0).unwrap().gop_id, 0);
    assert_eq!(cache.get_frame(1).unwrap().gop_id, 1);
    assert_eq!(cache.get_frame(0).unwrap().file_offset, Some(7));
}

#[test]
fn test_media_id_creation() {
    let id1 = MediaId::new();
    let id2 = MediaId::new();
    assert_ne!(id1, id2);
    let id_string = id1.to_string();
    let id_parsed = MediaId::from_string(&id_string).unwrap();
    assert_eq!(id1, id_parsed);
}

#[test]
fn media_id_text_and_version() {
    let id = MediaId::from_string("550e8400-e29b-41d4-a716-446655440000").unwrap();
    assert_eq!(id.as_u128(), 0x550e8400e29b41d4a716446655440000);
    assert_eq!(id.to_string(), "550e8400-e29b-41d4-a716-446655440000");
    assert!(MediaId::from_string("not a uuid").is_err());
    assert!(MediaId::from_string("").is_err());
    let fresh = MediaId::new().as_u128();
    assert_eq!((fresh >> 76) & 0xF, 4);
    assert_eq!((fresh >> 62) & 0x3, 2);
    assert_eq!(MediaId::from_u128(7).to_string(), "00000000-0000-0000-0000-000000000007");
}

#[test]
fn test_media_store_empty() {
    let media_store: MediaStore<String, u32> = MediaStore::new();
    let media_list = media_store.list_media();
    println!("Current media files: {:?}", media_list);
    assert!(media_list.is_empty(), "New MediaStore should be empty");
}

#[test]
fn media_store_register_and_remove() {
    let mut store: MediaStore<String, u32> = MediaStore::default();
    let a = MediaId::from_u128(1);
    let b = MediaId::from_u128(2);
    store.store_loaded_media(LoadedMediaData { id: a, media_file: "a.mp4".to_string(), worker_handle: 10 });
    store.store_loaded_media(LoadedMediaData { id: b, media_file: "b.mp4".to_string(), worker_handle: 20 });
    assert_eq!(store.get_media(&a).map(|s| s.as_str()), Some("a.mp4"));
    let mut ids: Vec<u128> = store.list_media().iter().map(|i| i.as_u128()).collect();
    ids.sort();
    assert_eq!(ids, vec![1, 2]);
    let removed = store.remove_media(&a);
    assert!(removed.removed());
    assert_eq!(removed.worker_handle, Some(10));
    assert!(store.get_media(&a).is_none());
    assert!(!store.remove_media(&a).removed());
    let (files, workers) = store.shutdown();
    assert_eq!(files.len(), 1);
    assert_eq!(files[0].1, "b.mp4");
    assert_eq!(workers[0].1, 20);
    assert!(store.list_media().is_empty());
}

#[test]
fn frame_cache_starts_empty() {
    let mut cache = FrameCache::default();
    let stats = cache.stats();
    assert_eq!(stats.gop_count, 0);
    assert_eq!(stats.frame_count, 0);
    assert_eq!(stats.size_bytes, 0);
    assert_eq!(stats.size_mb, 0);
    assert!(!cache.contains_gop(0));
    assert!(!cache.contains_frame(0, 0));
    assert!(cache.get_frame(0, 0).is_none());
    assert!(cache.get_gop(0).is_none());
}

#[test]
fn loaded_media_duration() {
    let v = 12.5f64.to_bits();
    let a = 13.0f64.to_bits();
    assert_eq!(media_duration_bits(Some(v), Some(a)), Ok(v));
    assert_eq!(media_duration_bits(None, Some(a)), Ok(a));
    assert_eq!(media_duration_bits(Some(v), None), Ok(v));
    assert_eq!(media_duration_bits(None, None), Err(LoadError::NoStreams));
}
