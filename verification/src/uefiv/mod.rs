//! The UnEFficient Video container (`.uefiv`).
//!
//! An 8-byte header (`UEV`, big-endian width, big-endian height, display mode)
//! followed by whole frames of `width * height * bytes_per_pixel` bytes each.
use vstd::prelude::*;
use crate::video::{lemma_video_rect_fits, spec_pixel_rect, spec_video_rect, Pixel, Rect, Vec2, VideoRect};

verus! {

/// Color encoding of the pixels of a video (low nibble of the display mode byte).
#[derive(Clone, Copy, Debug, PartialEq, Eq, Structural)]
pub enum ColorMode {
    /// 16 colors, text mode (stored as one byte per pixel).
    T4,
    /// 256 shades of gray.
    G8M,
    /// 256 colors, `RRRGGGBB`.
    G8C,
    /// 24-bit color.
    G24,
}

impl ColorMode {
    /// The value of the color mode nibble that selects this mode.
    pub fn code(&self) -> (c: u8)
        ensures
            c < 16,
            spec_color_mode_of(c) == Some(*self),
            *self == ColorMode::T4 ==> c == 0,
            *self == ColorMode::G8M ==> c == 1,
            *self == ColorMode::G8C ==> c == 2,
            *self == ColorMode::G24 ==> c == 3,
    {
        match self {
            ColorMode::T4 => 0x0,
            ColorMode::G8M => 0x1,
            ColorMode::G8C => 0x2,
            ColorMode::G24 => 0x3,
        }
    }
}

/// Bytes per pixel of each color mode.
pub open spec fn spec_color_mode_bpp(mode: ColorMode) -> nat {
    match mode {
        ColorMode::T4 => 1,
        ColorMode::G8M => 1,
        ColorMode::G8C => 1,
        ColorMode::G24 => 3,
    }
}

/// The number of bytes that one pixel takes in the given color mode.
pub fn color_mode_bpp(mode: &ColorMode) -> (bpp: usize)
    ensures
        bpp == spec_color_mode_bpp(*mode),
{
    match mode {
        ColorMode::T4 => 1,
        ColorMode::G8M => 1,
        ColorMode::G8C => 1,
        ColorMode::G24 => 3,
    }
}

/// Why a buffer could not be read as a video, or a frame could not be rendered.
#[derive(Clone, Copy, Debug, PartialEq, Eq, Structural)]
pub enum UEFIVideoError {
    /// Too short, no `UEV` magic, or an unknown color mode nibble.
    InvalidHeader,
    /// Not returned by this library: an unknown color mode is an invalid header.
    InvalidColorMode,
    /// The body is not a whole number of frames.
    InvalidBodySize,
    /// The frame's color mode cannot be drawn.
    ColorFormatNotImplemented,
    /// There is no frame with that number.
    FrameIndexOutOfBounds,
}

/// Length of the header that precedes the frames.
pub const HEADER_LEN: usize = 8;

/// Big-endian value of two bytes.
pub open spec fn be_u16(hi: u8, lo: u8) -> nat {
    hi as nat * 256 + lo as nat
}

/// The color mode that the low nibble of a display mode byte selects, if any.
pub open spec fn spec_color_mode_of(mode: u8) -> Option<ColorMode> {
    let n = mode % 16;
    if n == 0 {
        Some(ColorMode::T4)
    } else if n == 1 {
        Some(ColorMode::G8M)
    } else if n == 2 {
        Some(ColorMode::G8C)
    } else if n == 3 {
        Some(ColorMode::G24)
    } else {
        None
    }
}

/// Frames per second that the high nibble of a display mode byte selects:
/// twice the nibble, where a zero nibble means one frame per second.
pub open spec fn spec_framerate(mode: u8) -> nat {
    let r = mode / 16;
    if r == 0 {
        1
    } else {
        2 * r as nat
    }
}

/// Microseconds between two frames.
pub open spec fn spec_frame_duration(mode: u8) -> nat {
    1_000_000nat / spec_framerate(mode)
}

/// The header is well formed: long enough, the `UEV` magic, a known color mode.
pub open spec fn header_ok(b: Seq<u8>) -> bool {
    &&& b.len() >= 8
    &&& b[0] == 0x55u8
    &&& b[1] == 0x45u8
    &&& b[2] == 0x56u8
    &&& spec_color_mode_of(b[7]) is Some
}

pub open spec fn spec_width(b: Seq<u8>) -> nat {
    be_u16(b[3], b[4])
}

pub open spec fn spec_height(b: Seq<u8>) -> nat {
    be_u16(b[5], b[6])
}

/// Bytes per frame that a well-formed header announces.
pub open spec fn spec_frame_size(b: Seq<u8>) -> nat {
    spec_width(b) * spec_height(b) * spec_color_mode_bpp(spec_color_mode_of(b[7]).unwrap())
}

/// The body (everything after the header) is a whole number of frames.
pub open spec fn body_fits(b: Seq<u8>) -> bool {
    (b.len() - 8) % (spec_frame_size(b) as int) == 0
}

/// A header is accepted exactly when the buffer holds at least 8 bytes that
/// start with `UEV` and byte 7's low nibble names one of the four color modes.
pub proof fn lemma_header_ok_bytes(b: Seq<u8>)
    ensures
        header_ok(b) <==> (b.len() >= 8 && b[0] == 0x55u8 && b[1] == 0x45u8 && b[2] == 0x56u8
            && b[7] % 16 < 4),
{
}

/// What a well-formed header says, byte by byte: width in bytes 3-4 and height
/// in bytes 5-6, both big-endian; the color mode in the low nibble of byte 7;
/// twice the high nibble of byte 7 frames per second (one for a zero nibble);
/// frames of width times height pixels of one byte, three for 24-bit color.
pub proof fn lemma_header_fields(b: Seq<u8>)
    requires
        header_ok(b),
    ensures
        spec_width(b) == b[3] as int * 256 + b[4] as int,
        spec_height(b) == b[5] as int * 256 + b[6] as int,
        b[7] % 16 == 0 ==> spec_color_mode_of(b[7]) == Some(ColorMode::T4),
        b[7] % 16 == 1 ==> spec_color_mode_of(b[7]) == Some(ColorMode::G8M),
        b[7] % 16 == 2 ==> spec_color_mode_of(b[7]) == Some(ColorMode::G8C),
        b[7] % 16 == 3 ==> spec_color_mode_of(b[7]) == Some(ColorMode::G24),
        spec_frame_duration(b[7]) == 1_000_000int / (if b[7] / 16 == 0 {
            1int
        } else {
            2 * (b[7] / 16) as int
        }),
        spec_frame_size(b) == (b[3] as int * 256 + b[4] as int) * (b[5] as int * 256 + b[6] as int)
            * (if b[7] % 16 == 3 {
            3int
        } else {
            1int
        }),
{
}

/// Buffers that `UEFIVideo::from` can examine: where the header is well formed,
/// the frame size is not zero (it divides the body length) and fits a `usize`.
pub open spec fn decodable(b: Seq<u8>) -> bool {
    header_ok(b) ==> 0 < spec_frame_size(b) <= usize::MAX
}

/// A video decoded from a byte buffer that it borrows. Values that `from`
/// returns satisfy `wf`; the methods ask for it.
pub struct UEFIVideo<'lt> {
    pub width: u16,
    pub height: u16,
    pub color_mode: ColorMode,
    /// Microseconds per frame.
    pub frame_duration: usize,
    /// Bytes per frame.
    pub frame_size: usize,
    pub frame_count: usize,
    /// The buffer the video was decoded from, header included; `wf` ties the
    /// other fields to it.
    pub buffer: &'lt Vec<u8>,
}

impl<'lt> UEFIVideo<'lt> {
    /// The whole buffer the video was decoded from, header included.
    pub open spec fn data(&self) -> Seq<u8> {
        self.buffer@
    }

    /// The fields agree with the header of the buffer, and the body is a whole
    /// number of frames.
    pub open spec fn wf(&self) -> bool {
        let b = self.data();
        &&& header_ok(b)
        &&& decodable(b)
        &&& body_fits(b)
        &&& self.width == spec_width(b)
        &&& self.height == spec_height(b)
        &&& spec_color_mode_of(b[7]) == Some(self.color_mode)
        &&& self.frame_duration == spec_frame_duration(b[7])
        &&& self.frame_size == spec_frame_size(b)
        &&& self.frame_count == (b.len() - 8) / (self.frame_size as int)
    }

    /// The bytes of frame `i`.
    pub open spec fn frame_bytes(&self, i: int) -> Seq<u8> {
        self.data().subrange(8 + self.frame_size * i, 8 + self.frame_size * (i + 1))
    }

    /// Whether `from` can examine `buf`: false exactly where the header is well
    /// formed but announces frames of zero bytes or of more bytes than a
    /// `usize` counts.
    pub fn can_decode(buf: &Vec<u8>) -> (ok: bool)
        ensures
            ok == decodable(buf@),
            header_ok(buf@) ==> (ok <==> 0 < (buf@[3] as int * 256 + buf@[4] as int) * (buf@[5] as int
                * 256 + buf@[6] as int) * (if buf@[7] % 16 == 3 {
                3int
            } else {
                1int
            }) <= usize::MAX),
    {
        proof {
            if header_ok(buf@) {
                lemma_header_fields(buf@);
            }
        }
        if buf.len() < HEADER_LEN || buf[0] != 0x55u8 || buf[1] != 0x45u8 || buf[2] != 0x56u8 {
            return true;
        }
        let mode = buf[7];
        let low = mode & 0xF;
        assert(low == mode % 16) by (bit_vector)
            requires
                low == mode & 0xF,
        ;
        let bpp: usize = match low {
            0x0 => 1,
            0x1 => 1,
            0x2 => 1,
            0x3 => 3,
            _ => {
                return true;
            },
        };
        let width = be_u16_of(buf[3], buf[4]) as usize;
        let height = be_u16_of(buf[5], buf[6]) as usize;
        match width.checked_mul(height) {
            None => {
                proof {
                    assert(width * height <= width * height * bpp) by (nonlinear_arith)
                        requires
                            bpp >= 1,
                    ;
                }
                false
            },
            Some(area) => match area.checked_mul(bpp) {
                None => false,
                Some(size) => size != 0,
            },
        }
    }

    /// Decodes the header of `buf`; the frames stay in `buf`.
    pub fn from(buf: &'lt Vec<u8>) -> (res: Result<UEFIVideo<'lt>, UEFIVideoError>)
        requires
            decodable(buf@),
        ensures
            res is Ok <==> header_ok(buf@) && body_fits(buf@),
            !header_ok(buf@) ==> res == Err::<UEFIVideo<'lt>, UEFIVideoError>(
                UEFIVideoError::InvalidHeader,
            ),
            header_ok(buf@) && !body_fits(buf@) ==> res == Err::<UEFIVideo<'lt>, UEFIVideoError>(
                UEFIVideoError::InvalidBodySize,
            ),
            res matches Ok(v) ==> v.data() == buf@ && v.wf(),
            header_ok(buf@) ==> (res is Ok <==> (buf@.len() - 8) % ((buf@[3] as int * 256
                + buf@[4] as int) * (buf@[5] as int * 256 + buf@[6] as int) * (if buf@[7] % 16 == 3 {
                3int
            } else {
                1int
            })) == 0),
            res matches Ok(v) ==> {
                &&& v.width as int == buf@[3] as int * 256 + buf@[4] as int
                &&& v.height as int == buf@[5] as int * 256 + buf@[6] as int
                &&& v.frame_size == v.width * v.height * (if v.color_mode == ColorMode::G24 {
                    3int
                } else {
                    1int
                })
                &&& v.frame_count * v.frame_size == buf@.len() - 8
            },
    {
        proof {
            if header_ok(buf@) {
                lemma_header_fields(buf@);
            }
        }
        if buf.len() < HEADER_LEN {
            return Err(UEFIVideoError::InvalidHeader);
        }
        if buf[0] != 0x55u8 || buf[1] != 0x45u8 || buf[2] != 0x56u8 {
            return Err(UEFIVideoError::InvalidHeader);
        }
        let width = be_u16_of(buf[3], buf[4]);
        let height = be_u16_of(buf[5], buf[6]);
        let mode = buf[7];
        let low = mode & 0xF;
        let high = (mode >> 4) & 0xF;
        assert(low == mode % 16 && high == mode / 16) by (bit_vector)
            requires
                low == mode & 0xF,
                high == (mode >> 4) & 0xF,
        ;
        let color_mode = match low {
            0x0 => ColorMode::T4,
            0x1 => ColorMode::G8M,
            0x2 => ColorMode::G8C,
            0x3 => ColorMode::G24,
            _ => {
                return Err(UEFIVideoError::InvalidHeader);
            },
        };
        let framerate: u8 = match high {
            0x0 => 1,
            x => x * 2,
        };
        let frame_duration = 1_000_000 / framerate as usize;
        let bpp = color_mode_bpp(&color_mode);
        proof {
            let w = width as int;
            let h = height as int;
            assert(w * h <= w * h * bpp) by (nonlinear_arith)
                requires
                    bpp >= 1,
                    w >= 0,
                    h >= 0,
            ;
        }
        let frame_size = width as usize * height as usize * bpp;
        if (buf.len() - HEADER_LEN) % frame_size != 0 {
            return Err(UEFIVideoError::InvalidBodySize);
        }
        let frame_count = (buf.len() - HEADER_LEN) / frame_size;
        proof {
            vstd::arithmetic::div_mod::lemma_fundamental_div_mod(
                (buf.len() - HEADER_LEN) as int,
                frame_size as int,
            );
            assert(frame_count * frame_size == frame_size * frame_count) by (nonlinear_arith);
        }
        Ok(UEFIVideo {
            width,
            height,
            color_mode,
            frame_duration,
            frame_size,
            frame_count,
            buffer: buf,
        })
    }

    /// The body of a well-formed video is exactly `frame_count` frames.
    pub proof fn lemma_body_is_frames(&self)
        requires
            self.wf(),
        ensures
            self.data().len() == 8 + self.frame_count * self.frame_size,
    {
        let body = self.data().len() - 8;
        vstd::arithmetic::div_mod::lemma_fundamental_div_mod(body, self.frame_size as int);
        assert(self.frame_size * self.frame_count == self.frame_count * self.frame_size)
            by (nonlinear_arith);
    }

    /// The bytes of frame `i`.
    pub fn get_frame_slice(&self, i: usize) -> (frame: &[u8])
        requires
            self.wf(),
            i < self.frame_count,
        ensures
            frame@ == self.frame_bytes(i as int),
            frame@.len() == self.frame_size,
            forall|k: int|
                0 <= k < self.frame_size ==> #[trigger] frame@[k] == self.buffer@[8 + self.frame_size
                    * i + k],
    {
        proof {
            self.lemma_body_is_frames();
            assert(self.data().len() == self.buffer.len());
            lemma_frame_in_body(self.frame_size as int, self.frame_count as int, i as int);
        }
        let start = self.frame_size * i + HEADER_LEN;
        let end = start + self.frame_size;
        vstd::slice::slice_subrange(self.buffer.as_slice(), start, end)
    }

    /// Width and height are not zero.
    proof fn lemma_dimensions_positive(&self)
        requires
            self.wf(),
        ensures
            self.width > 0,
            self.height > 0,
    {
        let bpp = spec_color_mode_bpp(self.color_mode);
        let (w, h) = (self.width as int, self.height as int);
        if w == 0 || h == 0 {
            assert(w * h * bpp == 0) by (nonlinear_arith)
                requires
                    w == 0 || h == 0,
            ;
        }
    }

    /// The squares that draw frame `index` of a `RRRGGGBB` video.
    fn render_g8c(&self, index: usize, r: &VideoRect) -> (fills: Vec<FillRect>)
        requires
            self.wf(),
            self.color_mode == ColorMode::G8C,
            index < self.frame_count,
            rect_fits(*r, self.width as int, self.height as int),
        ensures
            draws_frame(
                fills@,
                self.frame_bytes(index as int),
                self.width as int,
                self.height as int,
                *r,
                |px: u8| spec_g8c_color(px),
            ),
    {
        let frame = self.get_frame_slice(index);
        let w = self.width as usize;
        let h = self.height as usize;
        let ps = r.pixel_size;
        proof {
            self.lemma_dimensions_positive();
            assert(self.frame_size == w * h) by {
                let bpp = spec_color_mode_bpp(self.color_mode);
                assert(spec_color_mode_of(self.data()[7]).unwrap() == self.color_mode);
                assert(bpp == 1);
                assert(w * h * bpp == w * h) by (nonlinear_arith)
                    requires
                        bpp == 1,
                ;
            }
        }
        let mut fills: Vec<FillRect> = Vec::new();
        let mut i: usize = 0;
        assert(0 * w == 0);
        for y in 0..h
            invariant
                frame@ == self.frame_bytes(index as int),
                frame@.len() == w * h,
                w == self.width,
                h == self.height,
                0 < w,
                ps == r.pixel_size,
                rect_fits(*r, w as int, h as int),
                i == y * w,
                fills@.len() == i,
                forall|xx: int, yy: int|
                    0 <= xx < w && 0 <= yy < h && pixel_index(w as int, xx, yy) < fills@.len()
                        ==> #[trigger] fills@[pixel_index(w as int, xx, yy)] == (FillRect {
                        rect: spec_pixel_rect(*r, xx, yy),
                        color: spec_g8c_color(frame@[pixel_index(w as int, xx, yy)]),
                    }),
        {
            proof {
                assert(y * ps <= (h - 1) * ps) by (nonlinear_arith)
                    requires
                        y <= h - 1,
                ;
            }
            for x in 0..w
                invariant
                    frame@ == self.frame_bytes(index as int),
                    frame@.len() == w * h,
                    w == self.width,
                    h == self.height,
                    0 < w,
                    y < h,
                    ps == r.pixel_size,
                    y * ps <= (h - 1) * ps,
                    rect_fits(*r, w as int, h as int),
                    i == y * w + x,
                    fills@.len() == i,
                    forall|xx: int, yy: int|
                        0 <= xx < w && 0 <= yy < h && pixel_index(w as int, xx, yy) < fills@.len()
                            ==> #[trigger] fills@[pixel_index(w as int, xx, yy)] == (FillRect {
                            rect: spec_pixel_rect(*r, xx, yy),
                            color: spec_g8c_color(frame@[pixel_index(w as int, xx, yy)]),
                        }),
            {
                proof {
                    assert(x * ps <= (w - 1) * ps) by (nonlinear_arith)
                        requires
                            x <= w - 1,
                    ;
                    lemma_pixel_index_bounds(w as int, h as int, x as int, y as int);
                }
                let px = frame[i];
                let fill = FillRect {
                    rect: Rect {
                        x: r.origin.x + x * ps,
                        y: r.origin.y + y * ps,
                        w: ps,
                        h: ps,
                    },
                    color: Pixel { red: px & 0xE0, green: (px & 0x1C) << 3u8, blue: (px & 0x3) << 6u8 },
                };
                let ghost old_fills = fills@;
                fills.push(fill);
                proof {
                    assert(fill.rect == spec_pixel_rect(*r, x as int, y as int));
                    assert(px == frame@[pixel_index(w as int, x as int, y as int)]);
                    assert(fill.color == spec_g8c_color(px));
                    assert forall|xx: int, yy: int|
                        0 <= xx < w && 0 <= yy < h && pixel_index(w as int, xx, yy) < fills@.len()
                            implies #[trigger] fills@[pixel_index(w as int, xx, yy)] == (FillRect {
                            rect: spec_pixel_rect(*r, xx, yy),
                            color: spec_g8c_color(frame@[pixel_index(w as int, xx, yy)]),
                        }) by {
                        if pixel_index(w as int, xx, yy) == old_fills.len() {
                            lemma_pixel_index_unique(w as int, xx, yy, x as int, y as int);
                        }
                    }
                }
                i += 1;
            }
            assert(y * w + w == (y + 1) * w) by (nonlinear_arith);
        }
        proof {
            assert(h * w == w * h) by (nonlinear_arith);
            assert forall|x: int, y: int| 0 <= x < w && 0 <= y < h implies #[trigger] fills@[pixel_index(
                w as int,
                x,
                y,
            )] == (FillRect {
                rect: spec_pixel_rect(*r, x, y),
                color: spec_g8c_color(frame@[pixel_index(w as int, x, y)]),
            }) by {
                lemma_pixel_index_bounds(w as int, h as int, x, y);
            }
            assert(fills@.len() == w * h);
        }
        fills
    }

    /// The squares that draw frame `index` of a gray-level video.
    fn render_g8m(&self, index: usize, r: &VideoRect) -> (fills: Vec<FillRect>)
        requires
            self.wf(),
            self.color_mode == ColorMode::G8M,
            index < self.frame_count,
            rect_fits(*r, self.width as int, self.height as int),
        ensures
            draws_frame(
                fills@,
                self.frame_bytes(index as int),
                self.width as int,
                self.height as int,
                *r,
                |px: u8| spec_g8m_color(px),
            ),
    {
        let frame = self.get_frame_slice(index);
        let w = self.width as usize;
        let h = self.height as usize;
        let ps = r.pixel_size;
        proof {
            self.lemma_dimensions_positive();
            assert(self.frame_size == w * h) by {
                let bpp = spec_color_mode_bpp(self.color_mode);
                assert(spec_color_mode_of(self.data()[7]).unwrap() == self.color_mode);
                assert(bpp == 1);
                assert(w * h * bpp == w * h) by (nonlinear_arith)
                    requires
                        bpp == 1,
                ;
            }
        }
        let mut fills: Vec<FillRect> = Vec::new();
        let mut i: usize = 0;
        assert(0 * w == 0);
        for y in 0..h
            invariant
                frame@ == self.frame_bytes(index as int),
                frame@.len() == w * h,
                w == self.width,
                h == self.height,
                0 < w,
                ps == r.pixel_size,
                rect_fits(*r, w as int, h as int),
                i == y * w,
                fills@.len() == i,
                forall|xx: int, yy: int|
                    0 <= xx < w && 0 <= yy < h && pixel_index(w as int, xx, yy) < fills@.len()
                        ==> #[trigger] fills@[pixel_index(w as int, xx, yy)] == (FillRect {
                        rect: spec_pixel_rect(*r, xx, yy),
                        color: spec_g8m_color(frame@[pixel_index(w as int, xx, yy)]),
                    }),
        {
            proof {
                assert(y * ps <= (h - 1) * ps) by (nonlinear_arith)
                    requires
                        y <= h - 1,
                ;
            }
            for x in 0..w
                invariant
                    frame@ == self.frame_bytes(index as int),
                    frame@.len() == w * h,
                    w == self.width,
                    h == self.height,
                    0 < w,
                    y < h,
                    ps == r.pixel_size,
                    y * ps <= (h - 1) * ps,
                    rect_fits(*r, w as int, h as int),
                    i == y * w + x,
                    fills@.len() == i,
                    forall|xx: int, yy: int|
                        0 <= xx < w && 0 <= yy < h && pixel_index(w as int, xx, yy) < fills@.len()
                            ==> #[trigger] fills@[pixel_index(w as int, xx, yy)] == (FillRect {
                            rect: spec_pixel_rect(*r, xx, yy),
                            color: spec_g8m_color(frame@[pixel_index(w as int, xx, yy)]),
                        }),
            {
                proof {
                    assert(x * ps <= (w - 1) * ps) by (nonlinear_arith)
                        requires
                            x <= w - 1,
                    ;
                    lemma_pixel_index_bounds(w as int, h as int, x as int, y as int);
                }
                let px = frame[i];
                let fill = FillRect {
                    rect: Rect {
                        x: r.origin.x + x * ps,
                        y: r.origin.y + y * ps,
                        w: ps,
                        h: ps,
                    },
                    color: Pixel { red: px, green: px, blue: px },
                };
                let ghost old_fills = fills@;
                fills.push(fill);
                proof {
                    assert(fill.rect == spec_pixel_rect(*r, x as int, y as int));
                    assert(px == frame@[pixel_index(w as int, x as int, y as int)]);
                    assert(fill.color == spec_g8m_color(px));
                    assert forall|xx: int, yy: int|
                        0 <= xx < w && 0 <= yy < h && pixel_index(w as int, xx, yy) < fills@.len()
                            implies #[trigger] fills@[pixel_index(w as int, xx, yy)] == (FillRect {
                            rect: spec_pixel_rect(*r, xx, yy),
                            color: spec_g8m_color(frame@[pixel_index(w as int, xx, yy)]),
                        }) by {
                        if pixel_index(w as int, xx, yy) == old_fills.len() {
                            lemma_pixel_index_unique(w as int, xx, yy, x as int, y as int);
                        }
                    }
                }
                i += 1;
            }
            assert(y * w + w == (y + 1) * w) by (nonlinear_arith);
        }
        proof {
            assert(h * w == w * h) by (nonlinear_arith);
            assert forall|x: int, y: int| 0 <= x < w && 0 <= y < h implies #[trigger] fills@[pixel_index(
                w as int,
                x,
                y,
            )] == (FillRect {
                rect: spec_pixel_rect(*r, x, y),
                color: spec_g8m_color(frame@[pixel_index(w as int, x, y)]),
            }) by {
                lemma_pixel_index_bounds(w as int, h as int, x, y);
            }
            assert(fills@.len() == w * h);
        }
        fills
    }

    /// The squares that draw frame `index`, in frame order; only the 8-bit
    /// color modes can be drawn.
    pub fn render_frame(&self, index: usize, r: &VideoRect) -> (res: Result<
        Vec<FillRect>,
        UEFIVideoError,
    >)
        requires
            self.wf(),
            index < self.frame_count && (self.color_mode == ColorMode::G8C || self.color_mode
                == ColorMode::G8M) ==> rect_fits(*r, self.width as int, self.height as int),
        ensures
            index >= self.frame_count ==> res == Err::<Vec<FillRect>, UEFIVideoError>(
                UEFIVideoError::FrameIndexOutOfBounds,
            ),
            index < self.frame_count && (self.color_mode == ColorMode::T4 || self.color_mode
                == ColorMode::G24) ==> res == Err::<Vec<FillRect>, UEFIVideoError>(
                UEFIVideoError::ColorFormatNotImplemented,
            ),
            index < self.frame_count && self.color_mode == ColorMode::G8C ==> (res matches Ok(fills)
                && draws_frame(
                fills@,
                self.frame_bytes(index as int),
                self.width as int,
                self.height as int,
                *r,
                |px: u8| spec_g8c_color(px),
            )),
            index < self.frame_count && self.color_mode == ColorMode::G8M ==> (res matches Ok(fills)
                && draws_frame(
                fills@,
                self.frame_bytes(index as int),
                self.width as int,
                self.height as int,
                *r,
                |px: u8| spec_g8m_color(px),
            )),
    {
        if index >= self.frame_count {
            return Err(UEFIVideoError::FrameIndexOutOfBounds);
        }
        match self.color_mode {
            ColorMode::G8C => Ok(self.render_g8c(index, r)),
            ColorMode::G8M => Ok(self.render_g8m(index, r)),
            _ => Err(UEFIVideoError::ColorFormatNotImplemented),
        }
    }
}

/// A display mode byte written as the format describes it, `(framerate / 2) << 4`
/// over the color mode, gives back that frame rate (even, up to 30); a zero
/// high nibble means one frame per second. The color mode comes from the low
/// nibble alone.
pub proof fn lemma_display_mode_encoding(fps: nat, color: nat)
    requires
        fps % 2 == 0,
        fps <= 30,
        color < 16,
    ensures
        ({
            let mode = ((fps / 2) * 16 + color) as u8;
            &&& spec_framerate(mode) == if fps == 0 {
                1
            } else {
                fps
            }
            &&& mode % 16 == color
        }),
{
}

/// The layout that `video_rect` computes for a video's size on a screen that
/// holds it can always be drawn: every pixel square of every frame has
/// `usize` coordinates and lies on the screen.
pub proof fn lemma_layout_renderable(screen: Vec2, video: UEFIVideo)
    requires
        video.wf(),
        video.width <= screen.x,
        video.height <= screen.y,
    ensures
        ({
            let r = spec_video_rect(screen, Vec2 { x: video.width as usize, y: video.height as usize });
            &&& rect_fits(r, video.width as int, video.height as int)
            &&& forall|x: int, y: int|
                0 <= x < video.width && 0 <= y < video.height ==> {
                    let p = #[trigger] spec_pixel_rect(r, x, y);
                    &&& p.x + p.w <= screen.x
                    &&& p.y + p.h <= screen.y
                }
        }),
{
    video.lemma_dimensions_positive();
    let size = Vec2 { x: video.width as usize, y: video.height as usize };
    lemma_video_rect_fits(screen, size);
    let r = spec_video_rect(screen, size);
    let ps = r.pixel_size as int;
    let (w, h) = (video.width as int, video.height as int);
    assert((w - 1) * ps <= w * ps && (h - 1) * ps <= h * ps) by (nonlinear_arith)
        requires
            0 <= ps,
            1 <= w,
            1 <= h,
    ;
}

/// One video pixel as drawn: a square of the screen filled with a color.
#[derive(Clone, Copy, Debug, PartialEq, Eq, Structural)]
pub struct FillRect {
    pub rect: Rect,
    pub color: Pixel,
}

/// A `RRRGGGBB` byte as a 24-bit color: each component keeps its bits at the
/// top of its byte.
pub open spec fn spec_g8c_color(px: u8) -> Pixel {
    Pixel { red: px & 0xE0, green: (px & 0x1C) << 3u8, blue: (px & 0x3) << 6u8 }
}

/// A gray level as a 24-bit color.
pub open spec fn spec_g8m_color(px: u8) -> Pixel {
    Pixel { red: px, green: px, blue: px }
}

/// Position of the pixel in column `x` and row `y` of a frame `w` pixels wide:
/// rows from top to bottom, each from left to right.
pub open spec fn pixel_index(w: int, x: int, y: int) -> int {
    y * w + x
}

/// The video's pixels, drawn from the top left at `r.pixel_size` screen pixels
/// each, fit the range of `usize` coordinates.
pub open spec fn rect_fits(r: VideoRect, w: int, h: int) -> bool {
    &&& r.origin.x + (w - 1) * r.pixel_size <= usize::MAX
    &&& r.origin.y + (h - 1) * r.pixel_size <= usize::MAX
}

/// `fills` draws a `w` by `h` frame of pixel bytes `frame`, one square per
/// pixel in frame order, each colored by `color` from its byte.
pub open spec fn draws_frame(
    fills: Seq<FillRect>,
    frame: Seq<u8>,
    w: int,
    h: int,
    r: VideoRect,
    color: spec_fn(u8) -> Pixel,
) -> bool {
    &&& fills.len() == w * h
    &&& forall|x: int, y: int|
        0 <= x < w && 0 <= y < h ==> #[trigger] fills[pixel_index(w, x, y)] == (FillRect {
            rect: spec_pixel_rect(r, x, y),
            color: color(frame[pixel_index(w, x, y)]),
        })
}

/// Square `k` of a drawn `RRRGGGBB` frame `w` pixels wide is pixel `k` of the
/// frame: column `k % w`, row `k / w`, its corner that many squares from the
/// origin, its color the top three bits of the byte as red, the next three as
/// green and the last two as blue, each left-aligned in its component.
pub proof fn lemma_g8c_squares(
    fills: Seq<FillRect>,
    frame: Seq<u8>,
    w: int,
    h: int,
    r: VideoRect,
)
    requires
        0 < w,
        0 <= h,
        rect_fits(r, w, h),
        draws_frame(fills, frame, w, h, r, |px: u8| spec_g8c_color(px)),
    ensures
        fills.len() == w * h,
        forall|k: int|
            0 <= k < fills.len() ==> {
                let f = #[trigger] fills[k];
                &&& f.rect.x == r.origin.x + (k % w) * r.pixel_size
                &&& f.rect.y == r.origin.y + (k / w) * r.pixel_size
                &&& f.rect.w == r.pixel_size
                &&& f.rect.h == r.pixel_size
                &&& f.color.red == frame[k] & 0xE0
                &&& f.color.green == (frame[k] & 0x1C) << 3u8
                &&& f.color.blue == (frame[k] & 0x3) << 6u8
            },
{
    assert forall|k: int| 0 <= k < fills.len() implies {
        let f = #[trigger] fills[k];
        &&& f.rect.x == r.origin.x + (k % w) * r.pixel_size
        &&& f.rect.y == r.origin.y + (k / w) * r.pixel_size
        &&& f.rect.w == r.pixel_size
        &&& f.rect.h == r.pixel_size
        &&& f.color.red == frame[k] & 0xE0
        &&& f.color.green == (frame[k] & 0x1C) << 3u8
        &&& f.color.blue == (frame[k] & 0x3) << 6u8
    } by {
        lemma_square_position(fills.len() as int, w, h, r, k);
        assert(fills[pixel_index(w, k % w, k / w)] == fills[k]);
    }
}

/// Square `k` of a drawn gray-level frame `w` pixels wide is pixel `k` of the
/// frame (column `k % w`, row `k / w`), its three components the byte.
pub proof fn lemma_g8m_squares(
    fills: Seq<FillRect>,
    frame: Seq<u8>,
    w: int,
    h: int,
    r: VideoRect,
)
    requires
        0 < w,
        0 <= h,
        rect_fits(r, w, h),
        draws_frame(fills, frame, w, h, r, |px: u8| spec_g8m_color(px)),
    ensures
        fills.len() == w * h,
        forall|k: int|
            0 <= k < fills.len() ==> {
                let f = #[trigger] fills[k];
                &&& f.rect.x == r.origin.x + (k % w) * r.pixel_size
                &&& f.rect.y == r.origin.y + (k / w) * r.pixel_size
                &&& f.rect.w == r.pixel_size
                &&& f.rect.h == r.pixel_size
                &&& f.color.red == frame[k]
                &&& f.color.green == frame[k]
                &&& f.color.blue == frame[k]
            },
{
    assert forall|k: int| 0 <= k < fills.len() implies {
        let f = #[trigger] fills[k];
        &&& f.rect.x == r.origin.x + (k % w) * r.pixel_size
        &&& f.rect.y == r.origin.y + (k / w) * r.pixel_size
        &&& f.rect.w == r.pixel_size
        &&& f.rect.h == r.pixel_size
        &&& f.color.red == frame[k]
        &&& f.color.green == frame[k]
        &&& f.color.blue == frame[k]
    } by {
        lemma_square_position(fills.len() as int, w, h, r, k);
        assert(fills[pixel_index(w, k % w, k / w)] == fills[k]);
    }
}

/// Position `k` of a `w` by `h` frame is the pixel in column `k % w` and row
/// `k / w`, and its square's corner fits a `usize`.
proof fn lemma_square_position(n: int, w: int, h: int, r: VideoRect, k: int)
    requires
        0 < w,
        0 <= h,
        n == w * h,
        0 <= k < n,
        rect_fits(r, w, h),
    ensures
        0 <= k % w < w,
        0 <= k / w < h,
        pixel_index(w, k % w, k / w) == k,
        spec_pixel_rect(r, k % w, k / w).x == r.origin.x + (k % w) * r.pixel_size,
        spec_pixel_rect(r, k % w, k / w).y == r.origin.y + (k / w) * r.pixel_size,
{
    vstd::arithmetic::div_mod::lemma_fundamental_div_mod(k, w);
    let (x, y) = (k % w, k / w);
    let ps = r.pixel_size as int;
    assert(0 <= y < h) by (nonlinear_arith)
        requires
            k == w * y + x,
            0 <= x < w,
            0 <= k < w * h,
    ;
    assert(x * ps <= (w - 1) * ps && y * ps <= (h - 1) * ps && 0 <= x * ps && 0 <= y * ps)
        by (nonlinear_arith)
        requires
            0 <= x < w,
            0 <= y < h,
            0 <= ps,
    ;
}

/// Pixel positions of a `w` by `h` frame lie in `0 .. w * h`.
proof fn lemma_pixel_index_bounds(w: int, h: int, x: int, y: int)
    requires
        0 <= x < w,
        0 <= y < h,
    ensures
        0 <= pixel_index(w, x, y) < w * h,
        pixel_index(w, x, y) + 1 <= w * h,
        w * h == h * w,
{
    assert(0 <= y * w + x < w * h && w * h == h * w) by (nonlinear_arith)
        requires
            0 <= x < w,
            0 <= y < h,
    ;
}

/// Distinct pixels of a row-major frame have distinct positions.
proof fn lemma_pixel_index_unique(w: int, x1: int, y1: int, x2: int, y2: int)
    requires
        0 <= x1 < w,
        0 <= x2 < w,
        0 <= y1,
        0 <= y2,
        pixel_index(w, x1, y1) == pixel_index(w, x2, y2),
    ensures
        x1 == x2,
        y1 == y2,
{
    if y1 < y2 {
        assert(y1 * w + w <= y2 * w) by (nonlinear_arith)
            requires
                y1 < y2,
                0 < w,
        ;
    } else if y2 < y1 {
        assert(y2 * w + w <= y1 * w) by (nonlinear_arith)
            requires
                y2 < y1,
                0 < w,
        ;
    }
}

/// Frame `i < count` of size `size` ends inside a body of `size * count` bytes.
proof fn lemma_frame_in_body(size: int, count: int, i: int)
    requires
        0 < size,
        0 <= i < count,
    ensures
        0 <= size * i,
        size * i + size <= size * count,
        size * (i + 1) == size * i + size,
{
    assert(size * i + size <= size * count && 0 <= size * i && size * (i + 1) == size * i + size)
        by (nonlinear_arith)
        requires
            0 < size,
            0 <= i < count,
    ;
}

/// The big-endian value of two bytes, as the header stores width and height.
pub(crate) fn be_u16_of(hi: u8, lo: u8) -> (v: u16)
    ensures
        v == be_u16(hi, lo),
{
    let v = (hi as u16) << 8 | lo as u16;
    assert(v == hi as u16 * 256 + lo as u16) by (bit_vector)
        requires
            v == (hi as u16) << 8 | lo as u16,
    ;
    v
}

} // verus!
