//! Decoded audio samples, and the reading of raw sample planes into
//! interleaved samples.
//!
//! Samples are 32-bit floats; this module carries each one as its IEEE-754
//! bit pattern (`u32`) and times as the bits of an `f64`.

use vstd::prelude::*;

verus! {

/// Supported audio formats.
#[derive(Debug, Clone, Copy, PartialEq, Eq, Structural)]
pub enum AudioFormat {
    /// 32-bit floating point (standard internal format)
    F32,
    /// 16-bit signed integer
    I16,
}

/// How the samples of a decoded plane are stored.
#[derive(Debug, Clone, Copy, PartialEq, Eq, Structural)]
pub enum SampleEncoding {
    /// Little-endian 32-bit floats
    F32,
    /// Little-endian 16-bit signed integers
    I16,
    /// Little-endian 32-bit signed integers
    I32,
    /// Any other sample format
    Unsupported,
}

/// One sample as read from a plane, before conversion to a float.
#[derive(Debug, Clone, Copy, PartialEq, Eq, Structural)]
pub enum RawSample {
    /// The bits of a 32-bit float
    F32Bits(u32),
    /// A 16-bit signed integer sample (full scale 32768)
    I16(i16),
    /// A 32-bit signed integer sample (full scale 2147483648)
    I32(i32),
}

/// Why raw sample data could not be read.
#[derive(Debug, Clone, Copy, PartialEq, Eq, Structural)]
pub enum SampleError {
    /// The plane ends before the sample
    IndexOutOfBounds,
    /// The sample format is not one of F32, I16, I32
    UnsupportedFormat,
}

/// Why `channel_data` refused a channel.
#[derive(Debug, Clone, Copy, PartialEq, Eq, Structural)]
pub enum AudioSamplesError {
    /// The channel index is not below the channel count
    ChannelOutOfRange { channel: usize, channels: u16 },
}

/// Bytes per sample of an encoding.
pub open spec fn sample_width(e: SampleEncoding) -> int {
    match e {
        SampleEncoding::I16 => 2,
        _ => 4,
    }
}

/// Little-endian unsigned value of four bytes.
pub open spec fn le_u32(b: Seq<u8>, at: int) -> int {
    b[at] + 256 * b[at + 1] + 65536 * b[at + 2] + 16777216 * b[at + 3]
}

/// Little-endian two's-complement value of two bytes.
pub open spec fn le_i16(b: Seq<u8>, at: int) -> int {
    let u = b[at] + 256 * b[at + 1];
    if u >= 32768 {
        u - 65536
    } else {
        u
    }
}

/// Little-endian two's-complement value of four bytes.
pub open spec fn le_i32(b: Seq<u8>, at: int) -> int {
    let u = le_u32(b, at);
    if u >= 0x8000_0000 {
        u - 0x1_0000_0000
    } else {
        u
    }
}

/// Sample `index` of `plane` in encoding `e`, or why it cannot be read.
pub open spec fn sample_at(plane: Seq<u8>, e: SampleEncoding, index: int) -> Result<RawSample, SampleError> {
    let at = index * sample_width(e);
    if e == SampleEncoding::Unsupported {
        Err(SampleError::UnsupportedFormat)
    } else if at + sample_width(e) > plane.len() {
        Err(SampleError::IndexOutOfBounds)
    } else {
        match e {
            SampleEncoding::F32 => Ok(RawSample::F32Bits(le_u32(plane, at) as u32)),
            SampleEncoding::I16 => Ok(RawSample::I16(le_i16(plane, at) as i16)),
            _ => Ok(RawSample::I32(le_i32(plane, at) as i32)),
        }
    }
}

/// Read sample `index` of a plane: its bytes start at `index` times the
/// sample width.
pub fn extract_sample(plane: &[u8], encoding: SampleEncoding, index: usize) -> (r: Result<RawSample, SampleError>)
    requires
        index * 4 <= usize::MAX,
    ensures
        r == sample_at(plane@, encoding, index as int),
{
    match encoding {
        SampleEncoding::Unsupported => Err(SampleError::UnsupportedFormat),
        SampleEncoding::I16 => {
            let at = index * 2;
            if plane.len() < 2 || at > plane.len() - 2 {
                Err(SampleError::IndexOutOfBounds)
            } else {
                let u: u32 = plane[at] as u32 + (plane[at + 1] as u32) * 256;
                let v: i16 = if u >= 32768 {
                    (u as i32 - 65536) as i16
                } else {
                    u as i16
                };
                Ok(RawSample::I16(v))
            }
        },
        _ => {
            let at = index * 4;
            if plane.len() < 4 || at > plane.len() - 4 {
                Err(SampleError::IndexOutOfBounds)
            } else {
                let u: u32 = plane[at] as u32 + (plane[at + 1] as u32) * 256 + (plane[at + 2] as u32)
                    * 65536 + (plane[at + 3] as u32) * 16777216;
                match encoding {
                    SampleEncoding::F32 => Ok(RawSample::F32Bits(u)),
                    _ => {
                        let v: i32 = if u >= 0x8000_0000 {
                            (u as i64 - 0x1_0000_0000) as i32
                        } else {
                            u as i32
                        };
                        Ok(RawSample::I32(v))
                    },
                }
            }
        },
    }
}

/// Position `k` of the interleaved output: (plane, index within the plane).
/// Planar data keeps each channel in its own plane; packed data is
/// interleaved already, in plane 0.
pub open spec fn interleaved_source(k: int, channels: int, planar: bool) -> (int, int) {
    if planar {
        (k % channels, k / channels)
    } else {
        (0, k)
    }
}

/// Whether reading the first `n` interleaved samples succeeds.
pub open spec fn all_readable(planes: Seq<Vec<u8>>, e: SampleEncoding, channels: int, planar: bool, n: int) -> bool {
    forall|k: int|
        0 <= k < n ==> (#[trigger] sample_at(
            planes[interleaved_source(k, channels, planar).0]@,
            e,
            interleaved_source(k, channels, planar).1,
        )) is Ok
}

/// Read `samples` samples per channel into one interleaved list (for
/// stereo: left, right, left, right, ...). Planar data takes sample `i` of
/// channel `ch` from plane `ch`; packed data reads plane 0 in order. The
/// first sample that cannot be read stops the reading with its error.
pub fn interleave_samples(
    planes: &[Vec<u8>],
    encoding: SampleEncoding,
    channels: usize,
    samples: usize,
    planar: bool,
) -> (r: Result<Vec<RawSample>, SampleError>)
    requires
        samples * channels * 4 <= usize::MAX,
        planar ==> channels <= planes.len(),
        !planar && samples * channels > 0 ==> planes.len() >= 1,
    ensures
        all_readable(planes@, encoding, channels as int, planar, samples * channels) <==> r is Ok,
        r matches Ok(v) ==> v.len() == samples * channels && forall|k: int|
            0 <= k < v.len() ==> #[trigger] v@[k] == sample_at(
                planes@[interleaved_source(k, channels as int, planar).0]@,
                encoding,
                interleaved_source(k, channels as int, planar).1,
            )->Ok_0,
        r matches Ok(v) ==> (planar ==> forall|i: int, ch: int|
            0 <= i < samples && 0 <= ch < channels ==> #[trigger] v@[i * channels + ch] == sample_at(
                planes@[ch]@,
                encoding,
                i,
            )->Ok_0),
        r matches Ok(v) ==> (!planar ==> forall|k: int|
            0 <= k < v.len() ==> #[trigger] v@[k] == sample_at(planes@[0]@, encoding, k)->Ok_0),
{
    let total = samples * channels;
    let mut data: Vec<RawSample> = Vec::new();
    let mut k: usize = 0;
    let mut i: usize = 0;
    let mut ch: usize = 0;
    while k < total
        invariant
            total == samples * channels,
            samples * channels * 4 <= usize::MAX,
            planar ==> channels <= planes.len(),
            !planar && total > 0 ==> planes.len() >= 1,
            k <= total,
            data.len() == k,
            all_readable(planes@, encoding, channels as int, planar, k as int),
            forall|j: int|
                0 <= j < k ==> #[trigger] data@[j] == sample_at(
                    planes@[interleaved_source(j, channels as int, planar).0]@,
                    encoding,
                    interleaved_source(j, channels as int, planar).1,
                )->Ok_0,
            planar && channels > 0 ==> ch < channels && k == i * channels + ch,
        decreases total - k,
    {
        let ghost src = interleaved_source(k as int, channels as int, planar);
        proof {
            if planar {
                assert(channels > 0) by (nonlinear_arith)
                    requires
                        k < total,
                        total == samples * channels,
                ;
                assert(i < samples) by (nonlinear_arith)
                    requires
                        k == i * channels + ch,
                        k < samples * channels,
                        ch < channels,
                        channels > 0,
                ;
                assert(src.0 == ch && src.1 == i) by (nonlinear_arith)
                    requires
                        src == interleaved_source(k as int, channels as int, planar),
                        planar,
                        k == i * channels + ch,
                        ch < channels,
                        0 <= i,
                ;
                assert(i * 4 <= usize::MAX) by (nonlinear_arith)
                    requires
                        i < samples,
                        samples * channels * 4 <= usize::MAX,
                        channels > 0,
                ;
            } else {
                assert(k * 4 <= usize::MAX) by (nonlinear_arith)
                    requires
                        k < total,
                        total == samples * channels,
                        samples * channels * 4 <= usize::MAX,
                ;
            }
        }
        let res = if planar {
            extract_sample(planes[ch].as_slice(), encoding, i)
        } else {
            extract_sample(planes[0].as_slice(), encoding, k)
        };
        match res {
            Ok(s) => {
                data.push(s);
            },
            Err(e) => {
                proof {
                    assert(sample_at(planes@[src.0]@, encoding, src.1) is Err);
                    assert(!all_readable(planes@, encoding, channels as int, planar, samples * channels));
                }
                return Err(e);
            },
        }
        proof {
            assert(data@[k as int] == sample_at(planes@[src.0]@, encoding, src.1)->Ok_0);
        }
        k = k + 1;
        if planar {
            assert((i + 1) * channels == i * channels + channels) by (nonlinear_arith);
            if ch + 1 == channels {
                ch = 0;
                i = i + 1;
            } else {
                ch = ch + 1;
            }
        }
    }
    proof {
        if planar {
            assert forall|i: int, ch: int| 0 <= i < samples && 0 <= ch < channels implies #[trigger] data@[i
                * channels + ch] == sample_at(planes@[ch]@, encoding, i)->Ok_0 by {
                lemma_planar_position(i, ch, channels as int);
                assert(i * channels + ch < samples * channels) by (nonlinear_arith)
                    requires
                        0 <= i < samples,
                        0 <= ch < channels,
                ;
            }
        }
    }
    Ok(data)
}

/// Planar layout: interleaved position `i * channels + ch` is sample `i` of
/// plane `ch`.
pub proof fn lemma_planar_position(i: int, ch: int, channels: int)
    requires
        0 <= i,
        0 <= ch < channels,
    ensures
        interleaved_source(i * channels + ch, channels, true) == (ch, i),
{
    vstd::arithmetic::div_mod::lemma_fundamental_div_mod_converse(i * channels + ch, channels, i, ch);
    vstd::arithmetic::mul::lemma_mul_is_commutative(i, channels);
}

/// The samples a plane holds, read little-endian at `width * index`:
/// F32 gives the four bytes as the float's bits, I16 and I32 the bytes as
/// a two's-complement integer; past the end of the plane, or in another
/// encoding, there is no sample.
pub proof fn lemma_sample_bytes(plane: Seq<u8>, index: int)
    requires
        index >= 0,
    ensures
        4 * index + 4 <= plane.len() ==> sample_at(plane, SampleEncoding::F32, index) == Ok::<RawSample, SampleError>(
            RawSample::F32Bits(
                (plane[4 * index] + 256 * plane[4 * index + 1] + 65536 * plane[4 * index + 2] + 16777216
                    * plane[4 * index + 3]) as u32,
            ),
        ),
        4 * index + 4 <= plane.len() ==> sample_at(plane, SampleEncoding::I32, index) == Ok::<RawSample, SampleError>(
            RawSample::I32(
                ({
                    let u = plane[4 * index] + 256 * plane[4 * index + 1] + 65536 * plane[4 * index + 2]
                        + 16777216 * plane[4 * index + 3];
                    if u >= 0x8000_0000 {
                        u - 0x1_0000_0000
                    } else {
                        u
                    }
                }) as i32,
            ),
        ),
        2 * index + 2 <= plane.len() ==> sample_at(plane, SampleEncoding::I16, index) == Ok::<RawSample, SampleError>(
            RawSample::I16(
                ({
                    let u = plane[2 * index] + 256 * plane[2 * index + 1];
                    if u >= 32768 {
                        u - 65536
                    } else {
                        u
                    }
                }) as i16,
            ),
        ),
        4 * index + 4 > plane.len() ==> sample_at(plane, SampleEncoding::F32, index) == Err::<RawSample, SampleError>(
            SampleError::IndexOutOfBounds,
        ),
        2 * index + 2 > plane.len() ==> sample_at(plane, SampleEncoding::I16, index) == Err::<RawSample, SampleError>(
            SampleError::IndexOutOfBounds,
        ),
        sample_at(plane, SampleEncoding::Unsupported, index) == Err::<RawSample, SampleError>(
            SampleError::UnsupportedFormat,
        ),
{
}

/// Decoded audio samples: interleaved 32-bit float samples (as bits) with
/// their rate, channel count and time range (as bits of `f64` seconds).
#[derive(Debug, Clone)]
pub struct AudioSamples {
    sample_rate: u32,
    channels: u16,
    format: AudioFormat,
    data: Vec<u32>,
    start_time_bits: u64,
    end_time_bits: u64,
}

/// What an `AudioSamples` holds.
pub struct AudioSamplesView {
    pub sample_rate: u32,
    pub channels: u16,
    pub format: AudioFormat,
    pub data: Seq<u32>,
    pub start_time_bits: u64,
    pub end_time_bits: u64,
}

impl View for AudioSamples {
    type V = AudioSamplesView;

    closed spec fn view(&self) -> AudioSamplesView {
        AudioSamplesView {
            sample_rate: self.sample_rate,
            channels: self.channels,
            format: self.format,
            data: self.data@,
            start_time_bits: self.start_time_bits,
            end_time_bits: self.end_time_bits,
        }
    }
}

impl AudioSamples {
    /// Samples with the given rate, channels, format, interleaved data and
    /// time range.
    pub fn new(
        sample_rate: u32,
        channels: u16,
        format: AudioFormat,
        data: Vec<u32>,
        start_time_bits: u64,
        end_time_bits: u64,
    ) -> (s: Self)
        ensures
            s@ == (AudioSamplesView {
                sample_rate,
                channels,
                format,
                data: data@,
                start_time_bits,
                end_time_bits,
            }),
    {
        AudioSamples { sample_rate, channels, format, data, start_time_bits, end_time_bits }
    }

    /// Sample rate in Hz.
    pub fn sample_rate(&self) -> (r: u32)
        ensures
            r == self@.sample_rate,
    {
        self.sample_rate
    }

    /// Number of channels.
    pub fn channels(&self) -> (c: u16)
        ensures
            c == self@.channels,
    {
        self.channels
    }

    /// Audio format.
    pub fn format(&self) -> (f: &AudioFormat)
        ensures
            *f == self@.format,
    {
        &self.format
    }

    /// Interleaved samples, as float bits (stereo: L, R, L, R, ...).
    pub fn data(&self) -> (d: &[u32])
        ensures
            d@ == self@.data,
    {
        self.data.as_slice()
    }

    /// Time range (start, end), as the bits of `f64` seconds.
    pub fn time_range_bits(&self) -> (r: (u64, u64))
        ensures
            r == (self@.start_time_bits, self@.end_time_bits),
    {
        (self.start_time_bits, self.end_time_bits)
    }

    /// Start time, as the bits of `f64` seconds.
    pub fn start_time_bits(&self) -> (t: u64)
        ensures
            t == self@.start_time_bits,
    {
        self.start_time_bits
    }

    /// End time, as the bits of `f64` seconds.
    pub fn end_time_bits(&self) -> (t: u64)
        ensures
            t == self@.end_time_bits,
    {
        self.end_time_bits
    }

    /// Number of samples per channel.
    pub fn sample_count(&self) -> (n: usize)
        requires
            self@.channels > 0,
        ensures
            n == self@.data.len() / (self@.channels as nat),
    {
        self.data.len() / self.channels as usize
    }

    /// The samples of one channel (0 = left, 1 = right for stereo).
    pub fn channel_data(&self, channel: usize) -> (r: Result<Vec<u32>, AudioSamplesError>)
        requires
            self@.channels > 0,
        ensures
            channel >= self@.channels <==> r is Err,
            r matches Err(e) ==> e == (AudioSamplesError::ChannelOutOfRange {
                channel,
                channels: self@.channels,
            }),
            r matches Ok(v) ==> v.len() == self@.data.len() / (self@.channels as nat) && forall|i: int|
                0 <= i < v.len() ==> #[trigger] v@[i] == self@.data[i * self@.channels + channel],
    {
        if channel >= self.channels as usize {
            return Err(AudioSamplesError::ChannelOutOfRange { channel, channels: self.channels });
        }
        let c = self.channels as usize;
        let count = self.sample_count();
        let mut out: Vec<u32> = Vec::new();
        let mut i: usize = 0;
        while i < count
            invariant
                c == self.channels as usize,
                c > 0,
                channel < c,
                count == self.data.len() / c,
                i <= count,
                out.len() == i,
                forall|j: int| 0 <= j < i ==> #[trigger] out@[j] == self.data@[j * c + channel],
            decreases count - i,
        {
            assert(i * c + channel < self.data.len()) by (nonlinear_arith)
                requires
                    i < count,
                    count == self.data.len() / c,
                    channel < c,
                    c > 0,
            {
                assert(count * c <= self.data.len());
                assert(i * c + c <= count * c);
            }
            let index = i * c + channel;
            out.push(self.data[index]);
            i = i + 1;
        }
        Ok(out)
    }

    /// Size of the sample data in bytes (4 per sample).
    pub fn data_size(&self) -> (n: usize)
        requires
            self@.data.len() * 4 <= usize::MAX,
        ensures
            n == self@.data.len() * 4,
    {
        self.data.len() * 4
    }
}

} // verus!
