//! Decoded video frames.

use base64::Engine as _;
use vstd::prelude::*;

verus! {

/// Supported pixel formats.
#[derive(Clone, Copy, Debug, PartialEq, Eq, Structural)]
pub enum PixelFormat {
    /// RGB (3 bytes per pixel)
    RGB,
    /// RGBA (4 bytes per pixel)
    RGBA,
    /// YUV 4:2:0 planar
    YUV420P,
}

/// The contents of a `VideoFrame`.
pub struct FrameView {
    pub width: u32,
    pub height: u32,
    pub format: PixelFormat,
    pub data: Seq<u8>,
    pub timestamp_bits: u64,
}

/// A decoded video frame with pixel data.
///
/// `timestamp_bits` holds the IEEE-754 bit pattern of the timestamp in
/// seconds (an `f64`); nothing in this crate computes with it.
#[derive(Debug)]
pub struct VideoFrame {
    width: u32,
    height: u32,
    format: PixelFormat,
    data: Vec<u8>,
    timestamp_bits: u64,
}

impl View for VideoFrame {
    type V = FrameView;

    closed spec fn view(&self) -> FrameView {
        FrameView {
            width: self.width,
            height: self.height,
            format: self.format,
            data: self.data@,
            timestamp_bits: self.timestamp_bits,
        }
    }
}

/// Why a frame could not be built.
#[derive(Debug, Clone, Copy, PartialEq, Eq, Structural)]
pub enum FrameError {
    /// The frame has no pixels.
    InvalidDimensions { width: u32, height: u32 },
}

/// `rows` rows of `row_bytes` bytes, taken `stride` bytes apart from `plane`.
pub open spec fn packed_rows(plane: Seq<u8>, stride: int, row_bytes: int, rows: int) -> Seq<u8> {
    Seq::new(
        (rows * row_bytes) as nat,
        |i: int| plane[(i / row_bytes) * stride + i % row_bytes],
    )
}

/// Byte `x` of row `y` in tightly packed rows of `row_bytes` bytes.
pub open spec fn frame_byte(data: Seq<u8>, row_bytes: int, y: int, x: int) -> u8 {
    data[y * row_bytes + x]
}

/// Packing copies each row as it stands: byte `x` of packed row `y` is byte
/// `y * stride + x` of the plane, and there are `rows * row_bytes` bytes.
pub proof fn lemma_rows_copied(plane: Seq<u8>, stride: int, row_bytes: int, rows: int, y: int, x: int)
    requires
        0 <= y < rows,
        0 <= x < row_bytes,
    ensures
        packed_rows(plane, stride, row_bytes, rows).len() == rows * row_bytes,
        frame_byte(packed_rows(plane, stride, row_bytes, rows), row_bytes, y, x) == plane[y * stride + x],
{
    let i = y * row_bytes + x;
    assert(0 <= y * row_bytes) by (nonlinear_arith)
        requires
            0 <= y,
            0 < row_bytes,
    ;
    assert(i < rows * row_bytes) by (nonlinear_arith)
        requires
            i == y * row_bytes + x,
            y + 1 <= rows,
            x < row_bytes,
            0 < row_bytes,
    ;
    vstd::arithmetic::div_mod::lemma_fundamental_div_mod_converse(i, row_bytes, y, x);
}

/// The base64 symbol of a 6-bit value (standard alphabet).
pub open spec fn base64_symbol(v: int) -> char {
    if v < 26 {
        (65 + v) as char
    } else if v < 52 {
        (97 + v - 26) as char
    } else if v < 62 {
        (48 + v - 52) as char
    } else if v == 62 {
        '+'
    } else {
        '/'
    }
}

/// Standard base64 (RFC 4648 alphabet, `=` padding) of `data`.
pub open spec fn base64_encode(data: Seq<u8>) -> Seq<char>
    decreases data.len(),
{
    if data.len() == 0 {
        Seq::empty()
    } else if data.len() == 1 {
        let a = data[0] as int;
        seq![base64_symbol(a / 4), base64_symbol((a % 4) * 16), '=', '=']
    } else if data.len() == 2 {
        let a = data[0] as int;
        let b = data[1] as int;
        seq![base64_symbol(a / 4), base64_symbol((a % 4) * 16 + b / 16), base64_symbol((b % 16) * 4), '=']
    } else {
        let a = data[0] as int;
        let b = data[1] as int;
        let c = data[2] as int;
        seq![
            base64_symbol(a / 4),
            base64_symbol((a % 4) * 16 + b / 16),
            base64_symbol((b % 16) * 4 + c / 64),
            base64_symbol(c % 64),
        ] + base64_encode(data.subrange(3, data.len() as int))
    }
}

/// `base64::engine::general_purpose::STANDARD.encode`: the standard
/// alphabet with `=` padding, as the crate documents it. It panics when the
/// encoded length overflows `usize`, which the bound on the input rules out.
#[verifier::external_body]
fn base64_standard_encode(data: &[u8]) -> (s: String)
    requires
        data.len() <= usize::MAX / 2,
    ensures
        s@ == base64_encode(data@),
{
    base64::engine::general_purpose::STANDARD.encode(data)
}

/// Copy of a byte slice.
fn copy_bytes(src: &[u8]) -> (out: Vec<u8>)
    ensures
        out@ == src@,
{
    let mut out: Vec<u8> = Vec::with_capacity(src.len());
    let mut i: usize = 0;
    while i < src.len()
        invariant
            i <= src.len(),
            out@ == src@.take(i as int),
        decreases src.len() - i,
    {
        out.push(src[i]);
        i = i + 1;
        assert(out@ =~= src@.take(i as int));
    }
    assert(src@.take(src.len() as int) =~= src@);
    out
}

impl VideoFrame {
    /// Check the dimensions of a decoded frame before it is converted:
    /// a frame without pixels is refused.
    pub fn validate_dimensions(width: u32, height: u32) -> (res: Result<(), FrameError>)
        ensures
            res is Ok <==> (width > 0 && height > 0),
            res is Err ==> res == Err::<(), FrameError>(FrameError::InvalidDimensions { width, height }),
    {
        if width == 0 || height == 0 {
            Err(FrameError::InvalidDimensions { width, height })
        } else {
            Ok(())
        }
    }

    /// An RGBA frame from the first plane of a converted frame: `height`
    /// rows of `width * 4` bytes, each starting `stride` bytes after the
    /// one before, packed tightly.
    pub fn from_rgba_plane(width: u32, height: u32, plane: &[u8], stride: usize, timestamp_bits: u64) -> (f: Self)
        requires
            width > 0,
            height > 0,
            width * 4 * height <= usize::MAX,
            (height - 1) * stride + width * 4 <= plane.len(),
        ensures
            f@.width == width,
            f@.height == height,
            f@.format == PixelFormat::RGBA,
            f@.timestamp_bits == timestamp_bits,
            f@.data == packed_rows(plane@, stride as int, width * 4, height as int),
            f@.data.len() == width * 4 * height,
            forall|y: int, x: int|
                0 <= y < height && 0 <= x < width * 4 ==> #[trigger] frame_byte(f@.data, width * 4, y, x)
                    == plane@[y * stride + x],
    {
        let row_bytes = (width as usize) * 4;
        let rows = height as usize;
        let ghost target = packed_rows(plane@, stride as int, row_bytes as int, rows as int);
        let mut data: Vec<u8> = Vec::with_capacity(row_bytes * rows);
        let mut y: usize = 0;
        while y < rows
            invariant
                y <= rows,
                rows == height,
                row_bytes == width * 4,
                width > 0,
                (rows - 1) * stride + row_bytes <= plane.len(),
                rows * row_bytes <= usize::MAX,
                target == packed_rows(plane@, stride as int, row_bytes as int, rows as int),
                data.len() == y * row_bytes,
                forall|i: int| 0 <= i < y * row_bytes ==> data@[i] == #[trigger] target[i],
            decreases rows - y,
        {
            proof {
                vstd::arithmetic::mul::lemma_mul_inequality(y as int, (rows - 1) as int, stride as int);
                vstd::arithmetic::mul::lemma_mul_inequality((y + 1) as int, rows as int, row_bytes as int);
                vstd::arithmetic::mul::lemma_mul_is_distributive_add_other_way(row_bytes as int, y as int, 1);
            }
            let row_start = y * stride;
            let mut x: usize = 0;
            while x < row_bytes
                invariant
                    x <= row_bytes,
                    y < rows,
                    row_bytes > 0,
                    row_start == y * stride,
                    row_start + row_bytes <= plane.len(),
                    (y + 1) * row_bytes <= rows * row_bytes,
                    (y + 1) * row_bytes == y * row_bytes + row_bytes,
                    rows * row_bytes <= usize::MAX,
                    target == packed_rows(plane@, stride as int, row_bytes as int, rows as int),
                    data.len() == y * row_bytes + x,
                    forall|i: int| 0 <= i < y * row_bytes + x ==> data@[i] == #[trigger] target[i],
                decreases row_bytes - x,
            {
                proof {
                    let i = y * row_bytes + x;
                    vstd::arithmetic::div_mod::lemma_fundamental_div_mod_converse(
                        i as int,
                        row_bytes as int,
                        y as int,
                        x as int,
                    );
                    vstd::arithmetic::mul::lemma_mul_is_commutative(y as int, row_bytes as int);
                }
                data.push(plane[row_start + x]);
                x = x + 1;
            }
            y = y + 1;
        }
        assert(data@ =~= target);
        proof {
            assert forall|y: int, x: int|
                0 <= y < height && 0 <= x < width * 4 implies #[trigger] frame_byte(data@, width * 4, y, x)
                    == plane@[y * stride + x] by {
                lemma_rows_copied(plane@, stride as int, row_bytes as int, rows as int, y, x);
            }
        }
        VideoFrame { width, height, format: PixelFormat::RGBA, data, timestamp_bits }
    }

    /// Frame dimensions (width, height).
    pub fn dimensions(&self) -> (d: (u32, u32))
        ensures
            d == (self@.width, self@.height),
    {
        (self.width, self.height)
    }

    /// Frame width in pixels.
    pub fn width(&self) -> (w: u32)
        ensures
            w == self@.width,
    {
        self.width
    }

    /// Frame height in pixels.
    pub fn height(&self) -> (h: u32)
        ensures
            h == self@.height,
    {
        self.height
    }

    /// Pixel format.
    pub fn format(&self) -> (f: &PixelFormat)
        ensures
            *f == self@.format,
    {
        &self.format
    }

    /// Pixel data (for RGBA: 4 bytes per pixel, rows packed tightly).
    pub fn data(&self) -> (d: &[u8])
        ensures
            d@ == self@.data,
    {
        self.data.as_slice()
    }

    /// Timestamp in seconds, as the bits of an `f64`.
    pub fn timestamp_bits(&self) -> (t: u64)
        ensures
            t == self@.timestamp_bits,
    {
        self.timestamp_bits
    }

    /// Size of the frame data in bytes.
    pub fn data_size(&self) -> (n: usize)
        ensures
            n == self@.data.len(),
    {
        self.data.len()
    }

    /// An identical frame.
    pub fn duplicate(&self) -> (f: Self)
        ensures
            f@ == self@,
    {
        VideoFrame {
            width: self.width,
            height: self.height,
            format: self.format,
            data: copy_bytes(self.data.as_slice()),
            timestamp_bits: self.timestamp_bits,
        }
    }

    /// The frame data in standard base64.
    pub fn to_base64(&self) -> (s: String)
        requires
            self@.data.len() <= usize::MAX / 2,
        ensures
            s@ == base64_encode(self@.data),
    {
        base64_standard_encode(self.data.as_slice())
    }

    /// The frame in its transferable form (base64 pixel data).
    pub fn to_serializable(&self) -> (s: SerializableVideoFrame)
        requires
            self@.data.len() <= usize::MAX / 2,
        ensures
            s.width == self@.width,
            s.height == self@.height,
            s.data@ == base64_encode(self@.data),
            s.timestamp_bits == self@.timestamp_bits,
    {
        SerializableVideoFrame {
            width: self.width,
            height: self.height,
            data: self.to_base64(),
            timestamp_bits: self.timestamp_bits,
        }
    }
}

/// A video frame in transferable form: the RGBA pixel data in base64.
///
/// `timestamp_bits` holds the IEEE-754 bit pattern of the timestamp in
/// seconds (an `f64`).
#[derive(Clone, Debug)]
pub struct SerializableVideoFrame {
    /// Frame width in pixels
    pub width: u32,
    /// Frame height in pixels
    pub height: u32,
    /// Base64-encoded RGBA pixel data
    pub data: String,
    /// Timestamp in seconds, as the bits of an `f64`
    pub timestamp_bits: u64,
}

impl SerializableVideoFrame {
    /// Frame dimensions (width, height).
    pub fn dimensions(&self) -> (d: (u32, u32))
        ensures
            d == (self.width, self.height),
    {
        (self.width, self.height)
    }
}

} // verus!
