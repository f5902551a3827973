use lpb::ssd1306_driver::{FrameBuffer, Ssd1306DriverError, REFRESH_CHUNKS};
use lpb::front_display::{FrontDisplay, FrontDisplayError};

#[test]
fn draw_pixel_sets_one_bit() {
    let mut fb = FrameBuffer::new(128, 64);
    fb.draw_pixel(3, 10, true);
    let packets = fb.refresh_packets();
    // pixel (3, 10) lives in byte 3 + 1 * 128 = 131, bit 2
    // byte 131 = 16 * 8 + 3 goes out in chunk 8 at position 4
    assert_eq!(packets[8][4], 0b100);
    fb.draw_pixel(3, 10, false);
    assert_eq!(fb.refresh_packets()[8][4], 0b100);
    fb.draw_pixel(3, 11, true);
    assert_eq!(fb.refresh_packets()[8][4], 0b1100);
}

#[test]
fn draw_pixel_outside_is_ignored() {
    let mut fb = FrameBuffer::new(128, 64);
    let before = fb.refresh_packets();
    fb.draw_pixel(-1, 0, true);
    fb.draw_pixel(128, 0, true);
    fb.draw_pixel(0, 64, true);
    fb.draw_pixel(0, -3, true);
    assert_eq!(fb.refresh_packets(), before);
    assert_eq!(fb.width(), 128);
    assert_eq!(fb.height(), 64);
}

#[test]
fn refresh_packets_layout() {
    let mut fb = FrameBuffer::new(128, 64);
    // set bit 0 of bytes 16 and 17 (pixels (16, 0) and (17, 0))
    fb.draw_pixel(16, 0, true);
    fb.draw_pixel(17, 0, true);
    fb.draw_pixel(0, 0, true);
    let p = fb.refresh_packets();
    assert_eq!(p.len(), REFRESH_CHUNKS);
    for chunk in &p {
        assert_eq!(chunk[0], 0x40);
    }
    // chunk 0: byte 16 first, then bytes 1..=15; byte 0 is never sent
    assert_eq!(p[0][1], 1);
    assert_eq!(p[0][2..], [0u8; 15]);
    // chunk 1: byte 32, then bytes 17..=31
    assert_eq!(p[1][1], 0);
    assert_eq!(p[1][2], 1);
}

#[test]
fn front_display_does_nothing() {
    FrontDisplay::load_font();
    FrontDisplay::println();
    assert_eq!(FrontDisplayError.message(), "Could not access I2C-Device");
    assert_eq!(Ssd1306DriverError.message(), "I2C Device shows unusual behaviour");
}
