use bad_uefi::video::{hex_to_pixel, video_rect, Pixel, Vec2, VideoRect};

#[test]
fn layout_scales_and_centers() {
    let r = video_rect(Vec2 { x: 100, y: 50 }, Vec2 { x: 30, y: 20 });
    assert_eq!(r, VideoRect { origin: Vec2 { x: 20, y: 5 }, pixel_size: 2 });
}

#[test]
fn layout_of_screen_sized_video() {
    let r = video_rect(Vec2 { x: 640, y: 480 }, Vec2 { x: 640, y: 480 });
    assert_eq!(r, VideoRect { origin: Vec2 { x: 0, y: 0 }, pixel_size: 1 });
}

#[test]
fn layout_limited_by_width() {
    let r = video_rect(Vec2 { x: 1024, y: 768 }, Vec2 { x: 480, y: 360 });
    assert_eq!(r.pixel_size, 2);
    assert_eq!(r.origin, Vec2 { x: 32, y: 24 });
    // the video fits and one more step of scale would not
    assert!(r.origin.x + 480 * 2 <= 1024 && 480 * 3 > 1024);
}

#[test]
fn layout_odd_margin_rounds_toward_top_left() {
    let r = video_rect(Vec2 { x: 11, y: 4 }, Vec2 { x: 2, y: 2 });
    assert_eq!(r.pixel_size, 2);
    assert_eq!(r.origin, Vec2 { x: 3, y: 0 });
}

#[test]
fn hex_color_components() {
    assert_eq!(hex_to_pixel(0x12345678), Pixel { red: 0x34, green: 0x56, blue: 0x78 });
    assert_eq!(hex_to_pixel(0x00FF8000), Pixel { red: 0xFF, green: 0x80, blue: 0x00 });
    let p = hex_to_pixel(0xABCDEF);
    assert_eq!(((p.red as u32) << 16) | ((p.green as u32) << 8) | p.blue as u32, 0xABCDEF);
}
