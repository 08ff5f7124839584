use bad_uefi::uefiv::{color_mode_bpp, ColorMode, FillRect, UEFIVideo, UEFIVideoError};
use bad_uefi::video::{video_rect, Pixel, Rect, Vec2, VideoRect};

fn header(width: u16, height: u16, mode: u8) -> Vec<u8> {
    let w = width.to_be_bytes();
    let h = height.to_be_bytes();
    vec![b'U', b'E', b'V', w[0], w[1], h[0], h[1], mode]
}

fn video_bytes(width: u16, height: u16, mode: u8, body: &[u8]) -> Vec<u8> {
    let mut v = header(width, height, mode);
    v.extend_from_slice(body);
    v
}

#[test]
fn bytes_per_pixel_of_each_mode() {
    assert_eq!(color_mode_bpp(&ColorMode::T4), 1);
    assert_eq!(color_mode_bpp(&ColorMode::G8M), 1);
    assert_eq!(color_mode_bpp(&ColorMode::G8C), 1);
    assert_eq!(color_mode_bpp(&ColorMode::G24), 3);
}

#[test]
fn color_mode_codes() {
    assert_eq!(ColorMode::T4.code(), 0);
    assert_eq!(ColorMode::G8M.code(), 1);
    assert_eq!(ColorMode::G8C.code(), 2);
    assert_eq!(ColorMode::G24.code(), 3);
}

#[test]
fn decodes_header_and_counts_frames() {
    let buf = video_bytes(2, 1, 0x22, &[1, 2, 3, 4]);
    let v = UEFIVideo::from(&buf).unwrap();
    assert_eq!(v.width, 2);
    assert_eq!(v.height, 1);
    assert_eq!(v.color_mode, ColorMode::G8C);
    assert_eq!(v.frame_duration, 250_000);
    assert_eq!(v.frame_size, 2);
    assert_eq!(v.frame_count, 2);
    assert_eq!(v.get_frame_slice(0), &[1, 2]);
    assert_eq!(v.get_frame_slice(1), &[3, 4]);
}

#[test]
fn width_and_height_are_big_endian() {
    let buf = video_bytes(0x0102, 0x0003, 0x01, &vec![0u8; 0x0102 * 3]);
    let v = UEFIVideo::from(&buf).unwrap();
    assert_eq!(v.width, 258);
    assert_eq!(v.height, 3);
    assert_eq!(v.color_mode, ColorMode::G8M);
    assert_eq!(v.frame_count, 1);
}

#[test]
fn framerate_nibble_zero_means_one_frame_per_second() {
    let buf = video_bytes(1, 1, 0x00, &[7]);
    let v = UEFIVideo::from(&buf).unwrap();
    assert_eq!(v.frame_duration, 1_000_000);
    assert_eq!(v.color_mode, ColorMode::T4);
}

#[test]
fn highest_framerate_nibble_is_thirty_frames_per_second() {
    let buf = video_bytes(1, 1, 0xF1, &[7]);
    let v = UEFIVideo::from(&buf).unwrap();
    assert_eq!(v.frame_duration, 33_333);
}

#[test]
fn encoded_framerate_round_trips() {
    // (24 / 2) << 4 with color mode g8c
    let buf = video_bytes(1, 1, (12 << 4) | 2, &[]);
    let v = UEFIVideo::from(&buf).unwrap();
    assert_eq!(v.frame_duration, 1_000_000 / 24);
    assert_eq!(v.color_mode, ColorMode::G8C);
}

#[test]
fn twenty_four_bit_frames_take_three_bytes_per_pixel() {
    let buf = video_bytes(2, 2, 0x23, &[0u8; 24]);
    let v = UEFIVideo::from(&buf).unwrap();
    assert_eq!(v.color_mode, ColorMode::G24);
    assert_eq!(v.frame_size, 12);
    assert_eq!(v.frame_count, 2);
    assert_eq!(v.get_frame_slice(1).len(), 12);
}

#[test]
fn empty_body_has_no_frames() {
    let buf = header(4, 4, 0x02);
    let v = UEFIVideo::from(&buf).unwrap();
    assert_eq!(v.frame_count, 0);
}

#[test]
fn short_buffer_is_invalid_header() {
    let buf = vec![b'U', b'E', b'V', 0, 1, 0, 1];
    assert_eq!(UEFIVideo::from(&buf).err(), Some(UEFIVideoError::InvalidHeader));
    let empty: Vec<u8> = Vec::new();
    assert_eq!(UEFIVideo::from(&empty).err(), Some(UEFIVideoError::InvalidHeader));
}

#[test]
fn wrong_magic_is_invalid_header() {
    let mut buf = video_bytes(1, 1, 0x02, &[0]);
    buf[2] = b'X';
    assert_eq!(UEFIVideo::from(&buf).err(), Some(UEFIVideoError::InvalidHeader));
}

#[test]
fn unknown_color_mode_is_invalid_header() {
    let buf = video_bytes(1, 1, 0x04, &[0]);
    assert_eq!(UEFIVideo::from(&buf).err(), Some(UEFIVideoError::InvalidHeader));
    let buf = video_bytes(1, 1, 0x2F, &[0]);
    assert_eq!(UEFIVideo::from(&buf).err(), Some(UEFIVideoError::InvalidHeader));
}

#[test]
fn partial_frame_is_invalid_body_size() {
    let buf = video_bytes(2, 2, 0x02, &[0, 1, 2, 3, 4]);
    assert_eq!(UEFIVideo::from(&buf).err(), Some(UEFIVideoError::InvalidBodySize));
}

#[test]
fn render_out_of_range_frame() {
    let buf = video_bytes(1, 1, 0x02, &[0]);
    let v = UEFIVideo::from(&buf).unwrap();
    let r = VideoRect { origin: Vec2 { x: 0, y: 0 }, pixel_size: 1 };
    assert_eq!(v.render_frame(1, &r).err(), Some(UEFIVideoError::FrameIndexOutOfBounds));
}

#[test]
fn render_unsupported_color_modes() {
    let r = VideoRect { origin: Vec2 { x: 0, y: 0 }, pixel_size: 1 };
    let buf = video_bytes(1, 1, 0x00, &[0]);
    let v = UEFIVideo::from(&buf).unwrap();
    assert_eq!(v.render_frame(0, &r).err(), Some(UEFIVideoError::ColorFormatNotImplemented));
    let buf = video_bytes(1, 1, 0x03, &[0, 0, 0]);
    let v = UEFIVideo::from(&buf).unwrap();
    assert_eq!(v.render_frame(0, &r).err(), Some(UEFIVideoError::ColorFormatNotImplemented));
}

#[test]
fn render_rrrgggbb_frame() {
    // frame 0 is ignored, frame 1 is drawn
    let buf = video_bytes(2, 2, 0x02, &[0, 0, 0, 0, 0xFF, 0b101_110_01, 0x00, 0x1C]);
    let v = UEFIVideo::from(&buf).unwrap();
    let r = VideoRect { origin: Vec2 { x: 10, y: 20 }, pixel_size: 3 };
    let fills = v.render_frame(1, &r).unwrap();
    assert_eq!(
        fills,
        vec![
            FillRect {
                rect: Rect { x: 10, y: 20, w: 3, h: 3 },
                color: Pixel { red: 0xE0, green: 0xE0, blue: 0xC0 },
            },
            FillRect {
                rect: Rect { x: 13, y: 20, w: 3, h: 3 },
                color: Pixel { red: 0xA0, green: 0xC0, blue: 0x40 },
            },
            FillRect {
                rect: Rect { x: 10, y: 23, w: 3, h: 3 },
                color: Pixel { red: 0, green: 0, blue: 0 },
            },
            FillRect {
                rect: Rect { x: 13, y: 23, w: 3, h: 3 },
                color: Pixel { red: 0, green: 0xE0, blue: 0 },
            },
        ]
    );
}

#[test]
fn render_gray_frame() {
    let buf = video_bytes(3, 1, 0x01, &[0x00, 0x80, 0xFF]);
    let v = UEFIVideo::from(&buf).unwrap();
    let r = VideoRect { origin: Vec2 { x: 0, y: 5 }, pixel_size: 2 };
    let fills = v.render_frame(0, &r).unwrap();
    assert_eq!(fills.len(), 3);
    assert_eq!(fills[1].rect, Rect { x: 2, y: 5, w: 2, h: 2 });
    assert_eq!(fills[1].color, Pixel { red: 0x80, green: 0x80, blue: 0x80 });
    assert_eq!(fills[2].rect, Rect { x: 4, y: 5, w: 2, h: 2 });
    assert_eq!(fills[2].color, Pixel { red: 0xFF, green: 0xFF, blue: 0xFF });
}

#[test]
fn laid_out_video_renders_on_screen() {
    let buf = video_bytes(3, 2, 0x01, &[1, 2, 3, 4, 5, 6]);
    let v = UEFIVideo::from(&buf).unwrap();
    let screen = Vec2 { x: 17, y: 9 };
    let r = video_rect(screen, Vec2 { x: v.width as usize, y: v.height as usize });
    let fills = v.render_frame(0, &r).unwrap();
    assert_eq!(fills.len(), 6);
    for f in &fills {
        assert!(f.rect.x + f.rect.w <= screen.x);
        assert!(f.rect.y + f.rect.h <= screen.y);
    }
}

#[test]
fn decodability_check() {
    // well-formed header announcing frames of zero bytes: `from` would divide by zero
    assert!(!UEFIVideo::can_decode(&header(0, 5, 0x02)));
    assert!(!UEFIVideo::can_decode(&header(5, 0, 0x23)));
    assert!(UEFIVideo::can_decode(&header(5, 5, 0x02)));
    // headers that `from` rejects can always be examined
    assert!(UEFIVideo::can_decode(&vec![1, 2, 3]));
    assert!(UEFIVideo::can_decode(&header(0, 0, 0x04)));
    let mut bad_magic = header(0, 0, 0x02);
    bad_magic[0] = b'X';
    assert!(UEFIVideo::can_decode(&bad_magic));
}
