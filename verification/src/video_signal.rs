//! Video signal encoding and decoding.
//!
//! An RGBA frame is unravelled into a mono stream of 8-bit samples (the
//! red, green and blue bytes of each pixel, alpha dropped) so that audio
//! effects can be applied to it, and the stream is folded back into RGBA
//! frames afterwards.

use vstd::prelude::*;

verus! {

/// How an 8-bit colour value is mapped to an 8-bit audio sample.
#[derive(Debug, Clone, Copy, PartialEq, Eq, Structural)]
pub enum MappingMode {
    /// Unsigned mapping: 0..=255 becomes 1..=255 (0 is never produced).
    Accurate,
    /// Signed mapping: 0..=255 becomes -127..=127, stored as the byte of an `i8`.
    Bugged,
}

/// The sample that stands for colour value `v`.
pub open spec fn encode_sample(mode: MappingMode, v: u8) -> u8 {
    match mode {
        MappingMode::Accurate => if v == 255 { 255 } else { (v + 1) as u8 },
        MappingMode::Bugged => if v == 255 {
            127
        } else if v < 127 {
            (v + 129) as u8
        } else {
            (v - 127) as u8
        },
    }
}

/// The colour value that sample `a` stands for.
pub open spec fn decode_sample(mode: MappingMode, a: u8) -> u8 {
    match mode {
        MappingMode::Accurate => if a == 0 { 0 } else { (a - 1) as u8 },
        MappingMode::Bugged => if a < 128 {
            (a + 127) as u8
        } else if a == 128 {
            0
        } else {
            (a - 129) as u8
        },
    }
}

/// The signal of an RGBA frame: three samples per whole pixel.
pub open spec fn encode_spec(mode: MappingMode, frame: Seq<u8>) -> Seq<u8> {
    Seq::new(
        (3 * (frame.len() / 4)) as nat,
        |i: int| encode_sample(mode, frame[4 * (i / 3) + i % 3]),
    )
}

/// The RGBA frame of a signal: one opaque pixel per whole group of three samples.
pub open spec fn decode_spec(mode: MappingMode, samples: Seq<u8>) -> Seq<u8> {
    Seq::new(
        (4 * (samples.len() / 3)) as nat,
        |i: int|
            if i % 4 == 3 {
                255u8
            } else {
                decode_sample(mode, samples[3 * (i / 4) + i % 4])
            },
    )
}

/// The sample that stands for black: what an incomplete last frame is padded with.
pub open spec fn black_sample(mode: MappingMode) -> u8 {
    encode_sample(mode, 0)
}

/// Metadata for video signal encoding and decoding.
///
/// `fps_bits` holds the IEEE-754 bit pattern of the frame rate (an `f32`);
/// nothing in this crate computes with it.
#[derive(Debug, Clone, Copy)]
pub struct VideoSignalMetadata {
    pub width: u32,
    pub height: u32,
    pub fps_bits: u32,
    pub total_frames: usize,
    pub bytes_per_frame: usize,
    pub sample_rate: u32,
    pub mapping_mode: MappingMode,
}

/// Number of bytes of an RGBA frame of these dimensions.
pub open spec fn rgba_len(m: VideoSignalMetadata) -> int {
    m.width * m.height * 4
}

/// Dimensions whose RGBA byte count fits the `u32` arithmetic of the codec.
pub open spec fn dimensions_fit(m: VideoSignalMetadata) -> bool {
    m.width * m.height * 4 <= u32::MAX
}

impl VideoSignalMetadata {
    /// Metadata for `width` x `height` frames: three samples per pixel,
    /// 44100 Hz modulator rate, no frames encoded yet.
    pub fn new(width: u32, height: u32, fps_bits: u32, mapping_mode: MappingMode) -> (m: Self)
        requires
            width * height * 3 <= u32::MAX,
        ensures
            m.width == width,
            m.height == height,
            m.fps_bits == fps_bits,
            m.total_frames == 0,
            m.bytes_per_frame == width * height * 3,
            m.sample_rate == 44100,
            m.mapping_mode == mapping_mode,
    {
        proof {
            vstd::arithmetic::mul::lemma_mul_nonnegative(width as int, height as int);
            assert(width * height <= width * height * 3) by (nonlinear_arith)
                requires width * height >= 0;
        }
        let pixels: u32 = width * height;
        let bytes_per_frame = (pixels * 3) as usize;
        VideoSignalMetadata {
            width,
            height,
            fps_bits,
            total_frames: 0,
            bytes_per_frame,
            sample_rate: 44100,
            mapping_mode,
        }
    }
}

/// Why a frame or a signal was refused.
#[derive(Debug, Clone, Copy, PartialEq, Eq, Structural)]
pub enum CodecError {
    /// The RGBA frame does not have `width * height * 4` bytes.
    FrameSizeMismatch { expected: usize, got: usize },
    /// The signal does not have `bytes_per_frame` samples.
    SampleCountMismatch { expected: usize, got: usize },
}

fn encode_one(mode: MappingMode, v: u8) -> (a: u8)
    ensures
        a == encode_sample(mode, v),
{
    match mode {
        MappingMode::Accurate => if v == 255 { 255 } else { v + 1 },
        MappingMode::Bugged => if v == 255 {
            127
        } else if v < 127 {
            v + 129
        } else {
            v - 127
        },
    }
}

fn decode_one(mode: MappingMode, a: u8) -> (v: u8)
    ensures
        v == decode_sample(mode, a),
{
    match mode {
        MappingMode::Accurate => if a == 0 { 0 } else { a - 1 },
        MappingMode::Bugged => if a < 128 {
            a + 127
        } else if a == 128 {
            0
        } else {
            a - 129
        },
    }
}

/// `(d * q + r) / d == q` and `(d * q + r) % d == r` for `0 <= r < d`.
proof fn lemma_div_mod_parts(q: int, r: int, d: int)
    requires
        0 < d,
        0 <= r < d,
    ensures
        (d * q + r) / d == q,
        (d * q + r) % d == r,
{
    vstd::arithmetic::mul::lemma_mul_is_commutative(d, q);
    vstd::arithmetic::div_mod::lemma_fundamental_div_mod_converse(d * q + r, d, q, r);
}

/// Video signal encoder/decoder.
pub struct VideoSignalCodec {
    metadata: VideoSignalMetadata,
}

impl View for VideoSignalCodec {
    type V = VideoSignalMetadata;

    closed spec fn view(&self) -> VideoSignalMetadata {
        self.metadata
    }
}

impl VideoSignalCodec {
    /// A codec for frames described by `metadata`.
    pub fn new(metadata: VideoSignalMetadata) -> (c: Self)
        ensures
            c@ == metadata,
    {
        VideoSignalCodec { metadata }
    }

    /// The metadata the codec works with.
    pub fn metadata(&self) -> (m: &VideoSignalMetadata)
        ensures
            *m == self@,
    {
        &self.metadata
    }

    /// Encode one RGBA frame to signal samples (alpha is dropped).
    ///
    /// Fails when the frame does not have `width * height * 4` bytes.
    pub fn encode_frame(&self, frame_rgba: &[u8]) -> (res: Result<Vec<u8>, CodecError>)
        requires
            dimensions_fit(self@),
        ensures
            frame_rgba.len() == rgba_len(self@) ==> (res matches Ok(s) && s@ == encode_spec(
                self@.mapping_mode,
                frame_rgba@,
            )),
            frame_rgba.len() != rgba_len(self@) ==> res == Err::<Vec<u8>, CodecError>(
                CodecError::FrameSizeMismatch {
                    expected: rgba_len(self@) as usize,
                    got: frame_rgba.len(),
                },
            ),
    {
        let w = self.metadata.width;
        let h = self.metadata.height;
        proof {
            vstd::arithmetic::mul::lemma_mul_nonnegative(w as int, h as int);
            assert(w * h <= w * h * 4) by (nonlinear_arith)
                requires w * h >= 0;
        }
        let pixels: u32 = w * h;
        let expected_size = (pixels * 4) as usize;
        if frame_rgba.len() != expected_size {
            return Err(CodecError::FrameSizeMismatch { expected: expected_size, got: frame_rgba.len() });
        }
        let mode = self.metadata.mapping_mode;
        let ghost target = encode_spec(mode, frame_rgba@);
        let n = frame_rgba.len() / 4;
        let mut samples: Vec<u8> = Vec::with_capacity(self.metadata.bytes_per_frame);
        let mut k: usize = 0;
        while k < n
            invariant
                n == frame_rgba.len() / 4,
                k <= n,
                target == encode_spec(mode, frame_rgba@),
                samples.len() == 3 * k,
                forall|j: int| 0 <= j < 3 * k ==> samples@[j] == #[trigger] target[j],
            decreases n - k,
        {
            let base = 4 * k;
            let r = encode_one(mode, frame_rgba[base]);
            let g = encode_one(mode, frame_rgba[base + 1]);
            let b = encode_one(mode, frame_rgba[base + 2]);
            proof {
                lemma_div_mod_parts(k as int, 0, 3);
                lemma_div_mod_parts(k as int, 1, 3);
                lemma_div_mod_parts(k as int, 2, 3);
            }
            samples.push(r);
            samples.push(g);
            samples.push(b);
            k = k + 1;
        }
        assert(samples@ =~= target);
        Ok(samples)
    }

    /// Decode signal samples back to an RGBA frame (alpha set to 255).
    ///
    /// Fails when the signal does not have `bytes_per_frame` samples.
    pub fn decode_frame(&self, audio_samples: &[u8]) -> (res: Result<Vec<u8>, CodecError>)
        requires
            dimensions_fit(self@),
        ensures
            audio_samples.len() == self@.bytes_per_frame ==> (res matches Ok(f) && f@
                == decode_spec(self@.mapping_mode, audio_samples@)),
            audio_samples.len() != self@.bytes_per_frame ==> res == Err::<Vec<u8>, CodecError>(
                CodecError::SampleCountMismatch {
                    expected: self@.bytes_per_frame,
                    got: audio_samples.len(),
                },
            ),
    {
        if audio_samples.len() != self.metadata.bytes_per_frame {
            return Err(
                CodecError::SampleCountMismatch {
                    expected: self.metadata.bytes_per_frame,
                    got: audio_samples.len(),
                },
            );
        }
        let w = self.metadata.width;
        let h = self.metadata.height;
        proof {
            vstd::arithmetic::mul::lemma_mul_nonnegative(w as int, h as int);
            assert(w * h <= w * h * 4) by (nonlinear_arith)
                requires w * h >= 0;
        }
        let pixels: u32 = w * h;
        let frame_size = (pixels * 4) as usize;
        let mode = self.metadata.mapping_mode;
        let ghost target = decode_spec(mode, audio_samples@);
        let n = audio_samples.len() / 3;
        let mut frame: Vec<u8> = Vec::with_capacity(frame_size);
        let mut k: usize = 0;
        while k < n
            invariant
                n == audio_samples.len() / 3,
                k <= n,
                target == decode_spec(mode, audio_samples@),
                frame.len() == 4 * k,
                forall|j: int| 0 <= j < 4 * k ==> frame@[j] == #[trigger] target[j],
            decreases n - k,
        {
            let base = 3 * k;
            let r = decode_one(mode, audio_samples[base]);
            let g = decode_one(mode, audio_samples[base + 1]);
            let b = decode_one(mode, audio_samples[base + 2]);
            proof {
                lemma_div_mod_parts(k as int, 0, 4);
                lemma_div_mod_parts(k as int, 1, 4);
                lemma_div_mod_parts(k as int, 2, 4);
                lemma_div_mod_parts(k as int, 3, 4);
            }
            frame.push(r);
            frame.push(g);
            frame.push(b);
            frame.push(255);
            k = k + 1;
        }
        assert(frame@ =~= target);
        Ok(frame)
    }
}


/// The signals of all `frames`, one after the other.
pub open spec fn encode_all(mode: MappingMode, frames: Seq<Vec<u8>>) -> Seq<u8> {
    Seq::new(frames.len(), |i: int| encode_spec(mode, frames[i]@)).flatten()
}

/// Number of frames a signal of `len` samples is cut into: whole frames plus
/// one padded frame for a remainder.
pub open spec fn frames_in_signal(len: int, per_frame: int) -> int {
    len / per_frame + if len % per_frame > 0 { 1int } else { 0int }
}

/// The samples of frame `f` of a signal, padded with `pad` past its end.
pub open spec fn padded_chunk(signal: Seq<u8>, per_frame: int, f: int, pad: u8) -> Seq<u8> {
    Seq::new(
        per_frame as nat,
        |j: int|
            if f * per_frame + j < signal.len() {
                signal[f * per_frame + j]
            } else {
                pad
            },
    )
}

proof fn lemma_encode_all_push(mode: MappingMode, frames: Seq<Vec<u8>>, i: int)
    requires
        0 <= i < frames.len(),
    ensures
        encode_all(mode, frames.take(i + 1)) == encode_all(mode, frames.take(i)) + encode_spec(
            mode,
            frames[i]@,
        ),
{
    let a = Seq::new(frames.take(i).len(), |k: int| encode_spec(mode, frames.take(i)[k]@));
    let b = Seq::new(frames.take(i + 1).len(), |k: int| encode_spec(mode, frames.take(i + 1)[k]@));
    assert(b =~= a.push(encode_spec(mode, frames[i]@)));
    a.lemma_flatten_push(encode_spec(mode, frames[i]@));
}

impl VideoSignalCodec {
    /// Encode several RGBA frames into one continuous signal.
    ///
    /// On success the count of encoded frames grows by `frames.len()`; on
    /// failure (the first frame of the wrong size) nothing changes.
    pub fn encode_frames(&mut self, frames: &[Vec<u8>]) -> (res: Result<Vec<u8>, CodecError>)
        requires
            dimensions_fit(old(self)@),
            old(self)@.total_frames + frames.len() <= usize::MAX,
        ensures
            (forall|i: int| 0 <= i < frames.len() ==> (#[trigger] frames@[i]).len() == rgba_len(
                old(self)@,
            )) ==> {
                &&& res matches Ok(s) && s@ == encode_all(old(self)@.mapping_mode, frames@)
                &&& final(self)@ == (VideoSignalMetadata {
                    total_frames: (old(self)@.total_frames + frames.len()) as usize,
                    ..old(self)@
                })
            },
            res is Ok <==> (forall|i: int| 0 <= i < frames.len() ==> (#[trigger] frames@[i]).len() == rgba_len(
                old(self)@,
            )),
            res is Err ==> {
                &&& final(self)@ == old(self)@
                &&& exists|k: int|
                    0 <= k < frames.len() && (#[trigger] frames@[k]).len() != rgba_len(old(self)@)
                        && (forall|j: int| 0 <= j < k ==> (#[trigger] frames@[j]).len() == rgba_len(
                        old(self)@,
                    )) && res == Err::<Vec<u8>, CodecError>(
                        CodecError::FrameSizeMismatch {
                            expected: rgba_len(old(self)@) as usize,
                            got: frames@[k].len(),
                        },
                    )
            },
    {
        let mode = self.metadata.mapping_mode;
        let mut signal: Vec<u8> = Vec::new();
        let mut i: usize = 0;
        while i < frames.len()
            invariant
                i <= frames.len(),
                mode == self@.mapping_mode,
                dimensions_fit(self@),
                signal@ == encode_all(mode, frames@.take(i as int)),
                forall|j: int| 0 <= j < i ==> (#[trigger] frames@[j]).len() == rgba_len(self@),
            decreases frames.len() - i,
        {
            match self.encode_frame(frames[i].as_slice()) {
                Ok(mut samples) => {
                    proof {
                        lemma_encode_all_push(mode, frames@, i as int);
                    }
                    signal.append(&mut samples);
                },
                Err(e) => {
                    return Err(e);
                },
            }
            i = i + 1;
        }
        assert(frames@.take(frames.len() as int) =~= frames@);
        self.metadata.total_frames = self.metadata.total_frames + frames.len();
        Ok(signal)
    }

    /// Decode a continuous signal into frames.
    ///
    /// The signal is cut into chunks of `bytes_per_frame` samples; an
    /// incomplete last chunk is padded with black before it is decoded.
    pub fn decode_frames(&self, audio_buffer: &[u8]) -> (res: Result<Vec<Vec<u8>>, CodecError>)
        requires
            dimensions_fit(self@),
            self@.bytes_per_frame > 0,
        ensures
            res matches Ok(frames) && {
                &&& frames.len() == frames_in_signal(
                    audio_buffer.len() as int,
                    self@.bytes_per_frame as int,
                )
                &&& forall|f: int|
                    0 <= f < frames.len() ==> (#[trigger] frames@[f])@ == decode_spec(
                        self@.mapping_mode,
                        padded_chunk(
                            audio_buffer@,
                            self@.bytes_per_frame as int,
                            f,
                            black_sample(self@.mapping_mode),
                        ),
                    )
            },
    {
        let spf = self.metadata.bytes_per_frame;
        let len = audio_buffer.len();
        let mode = self.metadata.mapping_mode;
        let pad = encode_one(mode, 0);
        let num_complete = len / spf;
        proof {
            vstd::arithmetic::div_mod::lemma_fundamental_div_mod(len as int, spf as int);
            vstd::arithmetic::div_mod::lemma_mod_bound(len as int, spf as int);
            vstd::arithmetic::mul::lemma_mul_is_commutative(spf as int, num_complete as int);
            if len % spf > 0 {
                assert(spf >= 2);
                assert(num_complete * 2 <= len) by (nonlinear_arith)
                    requires num_complete * spf <= len, spf >= 2, num_complete >= 0;
            }
        }
        let total = if len % spf > 0 { num_complete + 1 } else { num_complete };
        let mut frames: Vec<Vec<u8>> = Vec::new();
        let mut f: usize = 0;
        while f < total
            invariant
                spf == self@.bytes_per_frame,
                spf > 0,
                len == audio_buffer.len(),
                mode == self@.mapping_mode,
                pad == black_sample(mode),
                dimensions_fit(self@),
                num_complete == len / spf,
                num_complete * spf <= len,
                len - num_complete * spf < spf,
                total == frames_in_signal(len as int, spf as int),
                total == num_complete || (total == num_complete + 1 && len % spf > 0),
                f <= total,
                frames.len() == f,
                forall|g: int|
                    0 <= g < f ==> (#[trigger] frames@[g])@ == decode_spec(
                        mode,
                        padded_chunk(audio_buffer@, spf as int, g, pad),
                    ),
            decreases total - f,
        {
            proof {
                vstd::arithmetic::mul::lemma_mul_inequality(f as int, num_complete as int, spf as int);
            }
            let start = f * spf;
            let avail = len - start;
            let ghost target = padded_chunk(audio_buffer@, spf as int, f as int, pad);
            let mut chunk: Vec<u8> = Vec::with_capacity(spf);
            let mut j: usize = 0;
            while j < spf
                invariant
                    j <= spf,
                    start == f * spf,
                    start <= len,
                    avail == len - start,
                    len == audio_buffer.len(),
                    target == padded_chunk(audio_buffer@, spf as int, f as int, pad),
                    chunk.len() == j,
                    forall|k: int| 0 <= k < j ==> chunk@[k] == #[trigger] target[k],
                decreases spf - j,
            {
                if j < avail {
                    chunk.push(audio_buffer[start + j]);
                } else {
                    chunk.push(pad);
                }
                j = j + 1;
            }
            assert(chunk@ =~= target);
            match self.decode_frame(chunk.as_slice()) {
                Ok(frame) => {
                    frames.push(frame);
                },
                Err(e) => {
                    return Err(e);
                },
            }
            f = f + 1;
        }
        Ok(frames)
    }
}


/// Every colour value survives encoding and decoding, except 255, which
/// comes back as 254, in both mapping modes.
pub proof fn lemma_sample_roundtrip(mode: MappingMode, v: u8)
    ensures
        decode_sample(mode, encode_sample(mode, v)) == if v == 255 {
            254u8
        } else {
            v
        },
{
}

/// The accurate mapping sends colour values to `1..=255`: it never produces
/// a zero sample.
pub proof fn lemma_accurate_never_zero(v: u8)
    ensures
        encode_sample(MappingMode::Accurate, v) >= 1,
        v < 255 ==> encode_sample(MappingMode::Accurate, v) == v + 1,
{
}

/// Decoding the signal of an RGBA frame gives back the frame, for frames
/// whose pixels are opaque and whose colour values stay below 255.
pub proof fn lemma_frame_roundtrip(mode: MappingMode, frame: Seq<u8>)
    requires
        frame.len() % 4 == 0,
        forall|i: int| 0 <= i < frame.len() && i % 4 == 3 ==> #[trigger] frame[i] == 255,
        forall|i: int| 0 <= i < frame.len() && i % 4 != 3 ==> #[trigger] frame[i] < 255,
    ensures
        decode_spec(mode, encode_spec(mode, frame)) == frame,
{
    let enc = encode_spec(mode, frame);
    let dec = decode_spec(mode, enc);
    let n = (frame.len() / 4) as int;
    vstd::arithmetic::div_mod::lemma_fundamental_div_mod(frame.len() as int, 4);
    lemma_div_mod_parts(n, 0, 3);
    assert(enc.len() == 3 * n);
    assert(dec.len() == 4 * n);
    assert forall|i: int| 0 <= i < frame.len() implies dec[i] == frame[i] by {
        let k = i / 4;
        let c = i % 4;
        vstd::arithmetic::div_mod::lemma_fundamental_div_mod(i, 4);
        vstd::arithmetic::div_mod::lemma_mod_bound(i, 4);
        if c != 3 {
            lemma_div_mod_parts(k, c, 3);
            assert(3 * k + c < 3 * n);
            assert(enc[3 * k + c] == encode_sample(mode, frame[4 * k + c]));
            lemma_sample_roundtrip(mode, frame[i]);
        }
    }
    assert(dec =~= frame);
}

/// With consistent metadata (three samples per pixel), what `encode_frame`
/// produces from a frame has exactly the length `decode_frame` accepts, and
/// decoding it gives the frame back when its pixels are opaque and its
/// colour values stay below 255.
pub proof fn lemma_codec_roundtrip(m: VideoSignalMetadata, frame: Seq<u8>)
    requires
        m.bytes_per_frame == m.width * m.height * 3,
        frame.len() == rgba_len(m),
    ensures
        encode_spec(m.mapping_mode, frame).len() == m.bytes_per_frame,
        (forall|i: int| 0 <= i < frame.len() && i % 4 == 3 ==> #[trigger] frame[i] == 255) && (
        forall|i: int| 0 <= i < frame.len() && i % 4 != 3 ==> #[trigger] frame[i] < 255)
            ==> decode_spec(m.mapping_mode, encode_spec(m.mapping_mode, frame)) == frame,
{
    let p = m.width * m.height;
    assert(frame.len() == 4 * p) by (nonlinear_arith)
        requires frame.len() == m.width * m.height * 4, p == m.width * m.height;
    lemma_div_mod_parts(p, 0, 4);
    assert(m.bytes_per_frame == 3 * p) by (nonlinear_arith)
        requires m.bytes_per_frame == m.width * m.height * 3, p == m.width * m.height;
    if (forall|i: int| 0 <= i < frame.len() && i % 4 == 3 ==> #[trigger] frame[i] == 255) && (
    forall|i: int| 0 <= i < frame.len() && i % 4 != 3 ==> #[trigger] frame[i] < 255) {
        lemma_frame_roundtrip(m.mapping_mode, frame);
    }
}

/// Concatenating parts of one length `len`: the result has `len` samples
/// per part, and sample `j` of part `i` stands at `i * len + j`.
proof fn lemma_flatten_uniform(parts: Seq<Seq<u8>>, len: int)
    requires
        len >= 0,
        forall|i: int| 0 <= i < parts.len() ==> (#[trigger] parts[i]).len() == len,
    ensures
        parts.flatten().len() == parts.len() * len,
        forall|i: int, j: int|
            0 <= i < parts.len() && 0 <= j < len ==> parts.flatten()[i * len + j] == #[trigger] parts[i][j],
    decreases parts.len(),
{
    if parts.len() > 0 {
        let init = parts.drop_last();
        let n = parts.len() - 1;
        assert forall|i: int| 0 <= i < init.len() implies (#[trigger] init[i]).len() == len by {
            assert(init[i] == parts[i]);
        }
        lemma_flatten_uniform(init, len);
        assert(parts =~= init.push(parts.last()));
        init.lemma_flatten_push(parts.last());
        assert(parts.flatten() =~= init.flatten() + parts.last());
        assert(n * len + len == parts.len() * len) by (nonlinear_arith)
            requires n == parts.len() - 1;
        assert forall|i: int, j: int| 0 <= i < parts.len() && 0 <= j < len implies parts.flatten()[i * len
            + j] == #[trigger] parts[i][j] by {
            if i < n {
                assert(i * len + j < n * len) by (nonlinear_arith)
                    requires i < n, 0 <= j < len, 0 <= i;
                assert(init[i] == parts[i]);
            } else {
                assert(i * len == n * len);
            }
        }
    }
}

/// Whole-signal round trip: with consistent metadata, the signal
/// `encode_frames` makes of frames of the right size is cut by
/// `decode_frames` into exactly as many frames (no padding is needed), and
/// each decodes back to its frame when its pixels are opaque and its
/// colour values stay below 255.
pub proof fn lemma_signal_roundtrip(m: VideoSignalMetadata, frames: Seq<Vec<u8>>, f: int)
    requires
        m.bytes_per_frame == m.width * m.height * 3,
        m.bytes_per_frame > 0,
        forall|i: int| 0 <= i < frames.len() ==> (#[trigger] frames[i]).len() == rgba_len(m),
        0 <= f < frames.len(),
    ensures
        frames_in_signal(encode_all(m.mapping_mode, frames).len() as int, m.bytes_per_frame as int)
            == frames.len(),
        padded_chunk(
            encode_all(m.mapping_mode, frames),
            m.bytes_per_frame as int,
            f,
            black_sample(m.mapping_mode),
        ) == encode_spec(m.mapping_mode, frames[f]@),
        (forall|i: int| 0 <= i < frames[f].len() && i % 4 == 3 ==> #[trigger] frames[f]@[i] == 255) && (
        forall|i: int| 0 <= i < frames[f].len() && i % 4 != 3 ==> #[trigger] frames[f]@[i] < 255)
            ==> decode_spec(
            m.mapping_mode,
            padded_chunk(
                encode_all(m.mapping_mode, frames),
                m.bytes_per_frame as int,
                f,
                black_sample(m.mapping_mode),
            ),
        ) == frames[f]@,
{
    let mode = m.mapping_mode;
    let bpf = m.bytes_per_frame as int;
    let parts = Seq::new(frames.len(), |i: int| encode_spec(mode, frames[i]@));
    assert forall|i: int| 0 <= i < parts.len() implies (#[trigger] parts[i]).len() == bpf by {
        lemma_codec_roundtrip(m, frames[i]@);
    }
    lemma_flatten_uniform(parts, bpf);
    let sig = encode_all(mode, frames);
    assert(sig.len() == frames.len() * bpf);
    lemma_div_mod_parts(frames.len() as int, 0, bpf);
    vstd::arithmetic::mul::lemma_mul_is_commutative(frames.len() as int, bpf);
    let chunk = padded_chunk(sig, bpf, f, black_sample(mode));
    assert forall|j: int| 0 <= j < bpf implies chunk[j] == parts[f][j] by {
        assert(f * bpf + j < frames.len() * bpf) by (nonlinear_arith)
            requires 0 <= f < frames.len(), 0 <= j < bpf;
        assert(sig[f * bpf + j] == parts[f][j]);
    }
    assert(chunk =~= parts[f]);
    lemma_codec_roundtrip(m, frames[f]@);
}

/// A byte read as a signed 8-bit value (two's complement).
pub open spec fn signed_byte(a: u8) -> int {
    if a < 128 {
        a as int
    } else {
        a - 256
    }
}

/// `v` clamped into `lo..=hi`.
pub open spec fn clamp_to(v: int, lo: int, hi: int) -> int {
    if v < lo {
        lo
    } else if v > hi {
        hi
    } else {
        v
    }
}

/// The two mappings, sample by sample. Accurate: colour `v` becomes
/// `v + 1` (at most 255), and sample `a` becomes `a - 1` (at least 0).
/// Bugged: colour `v` becomes the byte of the signed value `v - 127`
/// (clamped into -127..=127), and sample `a`, read as a signed byte,
/// becomes `a + 127` (clamped into 0..=255).
pub proof fn lemma_sample_mapping(v: u8, a: u8)
    ensures
        encode_sample(MappingMode::Accurate, v) == clamp_to(v + 1, 1, 255),
        signed_byte(encode_sample(MappingMode::Bugged, v)) == clamp_to(v - 127, -127, 127),
        decode_sample(MappingMode::Accurate, a) == clamp_to(a - 1, 0, 255),
        decode_sample(MappingMode::Bugged, a) == clamp_to(signed_byte(a) + 127, 0, 255),
{
}

/// The signal of a frame: pixel `p` gives samples `3p`, `3p + 1`, `3p + 2`,
/// its red, green and blue values mapped one by one; alpha is dropped and
/// an incomplete last pixel gives nothing.
pub proof fn lemma_encode_layout(mode: MappingMode, frame: Seq<u8>)
    ensures
        encode_spec(mode, frame).len() == 3 * (frame.len() / 4),
        forall|p: int, c: int|
            0 <= p < frame.len() / 4 && 0 <= c < 3 ==> #[trigger] encode_spec(mode, frame)[3 * p + c]
                == encode_sample(mode, frame[4 * p + c]),
{
    assert forall|p: int, c: int| 0 <= p < frame.len() / 4 && 0 <= c < 3 implies #[trigger] encode_spec(
        mode,
        frame,
    )[3 * p + c] == encode_sample(mode, frame[4 * p + c]) by {
        lemma_div_mod_parts(p, c, 3);
    }
}

/// The frame of a signal: samples `3p`, `3p + 1`, `3p + 2` give pixel `p`,
/// each mapped back, with alpha 255; an incomplete last group of samples
/// gives nothing.
pub proof fn lemma_decode_layout(mode: MappingMode, samples: Seq<u8>)
    ensures
        decode_spec(mode, samples).len() == 4 * (samples.len() / 3),
        forall|p: int, c: int|
            0 <= p < samples.len() / 3 && 0 <= c < 3 ==> #[trigger] decode_spec(mode, samples)[4 * p + c]
                == decode_sample(mode, samples[3 * p + c]),
        forall|p: int| 0 <= p < samples.len() / 3 ==> #[trigger] decode_spec(mode, samples)[4 * p + 3] == 255,
{
    assert forall|p: int, c: int| 0 <= p < samples.len() / 3 && 0 <= c < 3 implies #[trigger] decode_spec(
        mode,
        samples,
    )[4 * p + c] == decode_sample(mode, samples[3 * p + c]) by {
        lemma_div_mod_parts(p, c, 4);
    }
    assert forall|p: int| 0 <= p < samples.len() / 3 implies #[trigger] decode_spec(mode, samples)[4 * p + 3]
        == 255 by {
        lemma_div_mod_parts(p, 3, 4);
    }
}

/// Padding decodes to black: in both modes the padding sample decodes to
/// colour 0, so in frame `f` of a signal cut into chunks of `per_frame`
/// samples, every colour value whose sample lies past the end of the
/// signal is 0, and every sample before the end is the signal's own.
pub proof fn lemma_padding_is_black(mode: MappingMode, signal: Seq<u8>, per_frame: int, f: int)
    requires
        per_frame > 0,
        f >= 0,
    ensures
        decode_sample(mode, black_sample(mode)) == 0,
        forall|p: int, c: int|
            0 <= p < per_frame / 3 && 0 <= c < 3 && f * per_frame + 3 * p + c >= signal.len() ==> #[trigger] decode_spec(
                mode,
                padded_chunk(signal, per_frame, f, black_sample(mode)),
            )[4 * p + c] == 0,
        forall|j: int|
            0 <= j < per_frame && f * per_frame + j < signal.len() ==> #[trigger] padded_chunk(
                signal,
                per_frame,
                f,
                black_sample(mode),
            )[j] == signal[f * per_frame + j],
{
    let chunk = padded_chunk(signal, per_frame, f, black_sample(mode));
    lemma_sample_mapping(0, black_sample(mode));
    lemma_decode_layout(mode, chunk);
    assert forall|p: int, c: int|
        0 <= p < per_frame / 3 && 0 <= c < 3 && f * per_frame + 3 * p + c >= signal.len() implies #[trigger] decode_spec(
        mode,
        chunk,
    )[4 * p + c] == 0 by {
        assert(3 * p + c < per_frame) by {
            vstd::arithmetic::div_mod::lemma_fundamental_div_mod(per_frame, 3);
        }
        assert(chunk[3 * p + c] == black_sample(mode));
    }
}

} // verus!
