//! Screen geometry: where a video goes on the screen, the rectangle of each of
//! its pixels, and colors.
use vstd::prelude::*;

verus! {

/// A pair of screen coordinates or sizes.
#[derive(Clone, Copy, Debug, PartialEq, Eq, Structural)]
pub struct Vec2 {
    pub x: usize,
    pub y: usize,
}

/// An axis-aligned rectangle on the screen.
#[derive(Clone, Copy, Debug, PartialEq, Eq, Structural)]
pub struct Rect {
    pub x: usize,
    pub y: usize,
    pub w: usize,
    pub h: usize,
}

/// Where a video is drawn: its top-left corner and the side of the square that
/// each video pixel becomes.
#[derive(Clone, Copy, Debug, PartialEq, Eq, Structural)]
pub struct VideoRect {
    pub origin: Vec2,
    pub pixel_size: usize,
}

/// A 24-bit color.
#[derive(Clone, Copy, Debug, PartialEq, Eq, Structural)]
pub struct Pixel {
    pub red: u8,
    pub green: u8,
    pub blue: u8,
}

pub open spec fn spec_min(a: int, b: int) -> int {
    if a < b {
        a
    } else {
        b
    }
}

/// The largest whole scale at which a video of `in_size` pixels fits the
/// screen, and the corner that centers it (rounding toward the top left).
pub open spec fn spec_video_rect(screen: Vec2, in_size: Vec2) -> VideoRect {
    let ps = spec_min((screen.x / in_size.x) as int, (screen.y / in_size.y) as int);
    VideoRect {
        origin: Vec2 {
            x: ((screen.x - in_size.x * ps) / 2) as usize,
            y: ((screen.y - in_size.y * ps) / 2) as usize,
        },
        pixel_size: ps as usize,
    }
}

/// Lays out a video of `in_size` pixels on a screen of `screen` pixels
/// (the screen's resolution).
pub fn video_rect(screen: Vec2, in_size: Vec2) -> (r: VideoRect)
    requires
        0 < in_size.x <= screen.x,
        0 < in_size.y <= screen.y,
    ensures
        r == spec_video_rect(screen, in_size),
        1 <= r.pixel_size,
        r.pixel_size * in_size.x <= screen.x,
        r.pixel_size * in_size.y <= screen.y,
        (r.pixel_size + 1) * in_size.x > screen.x || (r.pixel_size + 1) * in_size.y > screen.y,
        2 * r.origin.x + in_size.x * r.pixel_size <= screen.x <= 2 * r.origin.x + in_size.x
            * r.pixel_size + 1,
        2 * r.origin.y + in_size.y * r.pixel_size <= screen.y <= 2 * r.origin.y + in_size.y
            * r.pixel_size + 1,
{
    proof {
        lemma_video_rect_fits(screen, in_size);
        let ps = spec_video_rect(screen, in_size).pixel_size as int;
        assert(ps * in_size.x == in_size.x * ps && ps * in_size.y == in_size.y * ps && (ps + 1)
            * in_size.x == in_size.x * (ps + 1) && (ps + 1) * in_size.y == in_size.y * (ps + 1))
            by (nonlinear_arith);
    }
    let screen_w = screen.x;
    let screen_h = screen.y;
    let x_ratio = screen_w / in_size.x;
    let y_ratio = screen_h / in_size.y;
    let pixel_size = if x_ratio < y_ratio {
        x_ratio
    } else {
        y_ratio
    };
    proof {
        lemma_scaled_fits(in_size.x as int, screen_w as int, pixel_size as int);
        lemma_scaled_fits(in_size.y as int, screen_h as int, pixel_size as int);
    }
    let video_w = in_size.x * pixel_size;
    let video_h = in_size.y * pixel_size;
    let x = (screen_w - video_w) / 2;
    let y = (screen_h - video_h) / 2;
    VideoRect { origin: Vec2 { x, y }, pixel_size }
}

/// `n` copies of a scale no larger than `total / n` fit in `total`.
proof fn lemma_scaled_fits(n: int, total: int, scale: int)
    requires
        0 < n,
        0 <= scale <= total / n,
        0 <= total,
    ensures
        0 <= n * scale <= total,
{
    vstd::arithmetic::div_mod::lemma_fundamental_div_mod(total, n);
    assert(0 <= n * scale <= n * (total / n)) by (nonlinear_arith)
        requires
            0 < n,
            0 <= scale <= total / n,
    ;
}

/// The layout of a video on a screen that can hold it uses a scale of at least
/// one, keeps the whole video (every one of its pixel rectangles) on the
/// screen, centers it (the margins on opposite sides differ by at most one
/// screen pixel, the extra one at the right or bottom), and no larger scale fits.
pub proof fn lemma_video_rect_fits(screen: Vec2, in_size: Vec2)
    requires
        0 < in_size.x <= screen.x,
        0 < in_size.y <= screen.y,
    ensures
        ({
            let r = spec_video_rect(screen, in_size);
            let ps = r.pixel_size as int;
            &&& 1 <= ps
            &&& r.origin.x + in_size.x * ps <= screen.x
            &&& r.origin.y + in_size.y * ps <= screen.y
            &&& 2 * r.origin.x + in_size.x * ps <= screen.x <= 2 * r.origin.x + in_size.x * ps + 1
            &&& 2 * r.origin.y + in_size.y * ps <= screen.y <= 2 * r.origin.y + in_size.y * ps + 1
            &&& ps * in_size.x <= screen.x
            &&& ps * in_size.y <= screen.y
            &&& (in_size.x * (ps + 1) > screen.x || in_size.y * (ps + 1) > screen.y)
            &&& forall|x: int, y: int|
                0 <= x < in_size.x && 0 <= y < in_size.y ==> {
                    let p = #[trigger] spec_pixel_rect(r, x, y);
                    &&& p.x + p.w <= screen.x
                    &&& p.y + p.h <= screen.y
                }
        }),
{
    let r = spec_video_rect(screen, in_size);
    let ps = r.pixel_size as int;
    let (sw, sh, ix, iy) = (screen.x as int, screen.y as int, in_size.x as int, in_size.y as int);
    let qx = sw / ix;
    let qy = sh / iy;
    vstd::arithmetic::div_mod::lemma_fundamental_div_mod(sw, ix);
    vstd::arithmetic::div_mod::lemma_fundamental_div_mod(sh, iy);
    assert(qx >= 1) by {
        vstd::arithmetic::div_mod::lemma_div_is_ordered(ix, sw, ix);
        vstd::arithmetic::div_mod::lemma_div_basics(ix);
    }
    assert(qy >= 1) by {
        vstd::arithmetic::div_mod::lemma_div_is_ordered(iy, sh, iy);
        vstd::arithmetic::div_mod::lemma_div_basics(iy);
    }
    lemma_scaled_fits(ix, sw, ps);
    lemma_scaled_fits(iy, sh, ps);
    assert(ix * (qx + 1) > sw) by (nonlinear_arith)
        requires
            sw == ix * qx + sw % ix,
            sw % ix < ix,
    ;
    assert(iy * (qy + 1) > sh) by (nonlinear_arith)
        requires
            sh == iy * qy + sh % iy,
            sh % iy < iy,
    ;
    assert forall|x: int, y: int| 0 <= x < in_size.x && 0 <= y < in_size.y implies {
        let p = #[trigger] spec_pixel_rect(r, x, y);
        &&& p.x + p.w <= screen.x
        &&& p.y + p.h <= screen.y
    } by {
        assert(x * ps + ps <= ix * ps && 0 <= x * ps) by (nonlinear_arith)
            requires
                0 <= x < ix,
                0 <= ps,
        ;
        assert(y * ps + ps <= iy * ps && 0 <= y * ps) by (nonlinear_arith)
            requires
                0 <= y < iy,
                0 <= ps,
        ;
    }
}

/// The screen rectangle of the video pixel in column `x` and row `y`.
pub open spec fn spec_pixel_rect(r: VideoRect, x: int, y: int) -> Rect {
    Rect {
        x: (r.origin.x + x * r.pixel_size) as usize,
        y: (r.origin.y + y * r.pixel_size) as usize,
        w: r.pixel_size,
        h: r.pixel_size,
    }
}

/// The color that `clear_hex` fills the screen with: `0xRRGGBB`, the highest
/// byte ignored.
pub open spec fn spec_hex_pixel(c: u32) -> Pixel {
    Pixel {
        red: ((c / 0x10000) % 0x100) as u8,
        green: ((c / 0x100) % 0x100) as u8,
        blue: (c % 0x100) as u8,
    }
}

/// Splits `0xRRGGBB` into its color components.
pub fn hex_to_pixel(c: u32) -> (p: Pixel)
    ensures
        p == spec_hex_pixel(c),
        p.red as int * 0x10000 + p.green as int * 0x100 + p.blue as int == c % 0x1000000,
{
    let r = (c >> 16 & 0xff) as u8;
    let g = (c >> 8 & 0xff) as u8;
    let b = (c & 0xff) as u8;
    assert(r == (c / 0x10000) % 0x100 && g == (c / 0x100) % 0x100 && b == c % 0x100) by (bit_vector)
        requires
            r == (c >> 16 & 0xff) as u8,
            g == (c >> 8 & 0xff) as u8,
            b == (c & 0xff) as u8,
    ;
    Pixel { red: r, green: g, blue: b }
}

} // verus!
