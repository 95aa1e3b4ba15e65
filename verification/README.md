# RasterSong

RasterSong turns video frames into audio-rate signals, lets audio effects
driven by a modulator play over them, and folds the result back into
frames. This crate holds its logic with Verus proofs; `app/` holds what
runs around it.

- `src/video_signal.rs`: frame ↔ signal codec, with its round-trip laws.
- `src/audio_effects.rs`: the integer effects (bit crushing, the reading
  step of frequency modulation).
- `src/video_signal_processor.rs`: the processor's state and the
  modulator chunking.
- `src/media/`: frame metadata for seeking and GOPs, the decoded-frame
  cache (least recently used GOPs evicted first), GOP decoding decisions, a worker's request decisions, frames,
  audio samples, media identifiers, the media registry, and one-time
  backend start-up.
- `src/audio_loader.rs`: which WAV sample encodings are read, and how.
- `src/playback.rs`: which GOPs to prefetch during playback.
- `src/audio_player.rs`, `src/video_decoder.rs`, `src/media_player.rs`:
  playback controllers that tell their GStreamer pipelines what to do.
- `app/`: floating-point effects, FFmpeg and GStreamer calls, WAV loading,
  worker threads, and serde forms of the library's types.

Floating-point values (frame rates, timestamps, modulator samples) cross
into the library as their IEEE-754 bit patterns.
