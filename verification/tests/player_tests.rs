use rastersong::audio_player::{should_link_pad, AudioPlayer, PipelineRequest, PipelineState, SeekMode};
use rastersong::media_player::{MediaPlayer, PlayerRequests};
use rastersong::video_decoder::VideoDecoder;

#[test]
fn audio_player_requests() {
    let mut p = AudioPlayer::new("song.wav");
    assert_eq!(p.location(), "song.wav");
    assert_eq!(p.state(), PipelineState::Paused);
    assert_eq!(p.play(), PipelineRequest::SetState(PipelineState::Playing));
    assert_eq!(p.state(), PipelineState::Playing);
    assert_eq!(p.pause(), PipelineRequest::SetState(PipelineState::Paused));
    assert_eq!(p.seek(5_000), PipelineRequest::Seek { mode: SeekMode::Flush, position_ns: 5_000 });
    assert_eq!(p.get_position(), PipelineRequest::QueryPosition);
    assert_eq!(p.get_duration(), PipelineRequest::QueryDuration);
    assert_eq!(p.shutdown(), PipelineRequest::SetState(PipelineState::Null));
}

#[test]
fn pads_are_linked_by_media_kind() {
    assert!(should_link_pad("audio/x-raw", "audio/", false));
    assert!(!should_link_pad("audio/x-raw", "audio/", true));
    assert!(!should_link_pad("video/x-raw", "audio/", false));
    assert!(should_link_pad("video/x-raw", "video/", false));
}

#[test]
fn video_decoder_keeps_the_last_frame() {
    let mut d = VideoDecoder::new("clip.mp4");
    assert!(d.get_current_frame().is_none());
    assert_eq!(d.seek(7), PipelineRequest::Seek { mode: SeekMode::FlushKeyUnit, position_ns: 7 });
    d.receive_frame(1, 1, vec![1, 2, 3, 4]);
    d.receive_frame(1, 1, vec![5, 6, 7, 8]);
    let f = d.get_current_frame().unwrap();
    assert_eq!((f.width, f.height, f.data), (1, 1, vec![5, 6, 7, 8]));
}

#[test]
fn media_player_drives_both_pipelines() {
    let mut p = MediaPlayer::new("clip.mp4");
    assert_eq!(
        p.play(),
        PlayerRequests {
            video: PipelineRequest::SetState(PipelineState::Playing),
            audio: PipelineRequest::SetState(PipelineState::Playing),
        }
    );
    assert_eq!(
        p.seek(9),
        PlayerRequests {
            video: PipelineRequest::Seek { mode: SeekMode::FlushKeyUnit, position_ns: 9 },
            audio: PipelineRequest::Seek { mode: SeekMode::Flush, position_ns: 9 },
        }
    );
    assert_eq!(p.get_position(), PipelineRequest::QueryPosition);
    p.video_mut().receive_frame(2, 1, vec![0; 8]);
    assert_eq!(p.get_current_frame().unwrap().width, 2);
    assert_eq!(p.pause().audio, PipelineRequest::SetState(PipelineState::Paused));
}

#[test]
fn prefetch_once_per_gop_reached() {
    let mut t = rastersong::playback::PrefetchTracker::new();
    assert!(t.gops_to_prefetch(false, Some(3)).is_empty());
    assert!(t.gops_to_prefetch(true, None).is_empty());
    assert_eq!(t.gops_to_prefetch(true, Some(3)), vec![4, 5]);
    assert!(t.gops_to_prefetch(true, Some(3)).is_empty());
    assert_eq!(t.gops_to_prefetch(true, Some(4)), vec![5, 6]);
    assert_eq!(t.gops_to_prefetch(true, Some(0)), vec![1, 2]);
}
