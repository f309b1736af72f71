use kmem::color::Color;
use kmem::logger::{level_color, level_label, FrameBufferInfo, Level, Logger, PixelFormat};

fn info(stride: usize, vres: usize, format: PixelFormat) -> FrameBufferInfo {
    FrameBufferInfo {
        byte_len: stride * vres * 4,
        horizontal_resolution: stride,
        vertical_resolution: vres,
        pixel_format: format,
        bytes_per_pixel: 4,
        stride,
    }
}

fn pixel(l: &Logger, stride: usize, x: usize, y: usize) -> [u8; 4] {
    let o = (y * stride + x) * 4;
    let b = l.buffer();
    [b[o], b[o + 1], b[o + 2], b[o + 3]]
}

#[test]
fn new_console_is_cleared() {
    let l = Logger::new(vec![0xaa; 16 * 24 * 4], info(16, 24, PixelFormat::RGB));
    assert!(l.buffer().iter().all(|&b| b == 0));
    assert_eq!(l.cursor(), (0, 0));
}

#[test]
fn clearing_stops_at_byte_len() {
    let mut i = info(16, 24, PixelFormat::RGB);
    i.byte_len = 8;
    let l = Logger::new(vec![0xaa; 16 * 24 * 4 + 4], i);
    assert!(l.buffer()[..8].iter().all(|&b| b == 0));
    assert!(l.buffer()[8..].iter().all(|&b| b == 0xaa));
}

#[test]
fn letter_is_drawn_from_its_glyph() {
    let mut l = Logger::new(vec![0; 16 * 24 * 4], info(16, 24, PixelFormat::RGB));
    l.write_char('A');
    // first glyph row of 'A' is 0x0c: pixels 2 and 3
    assert_eq!(pixel(&l, 16, 2, 0), [255, 255, 255, 0]);
    assert_eq!(pixel(&l, 16, 3, 0), [255, 255, 255, 0]);
    assert_eq!(pixel(&l, 16, 0, 0), [0, 0, 0, 0]);
    // last glyph row is empty
    assert_eq!(pixel(&l, 16, 2, 7), [0, 0, 0, 0]);
    assert_eq!(l.cursor(), (8, 0));
}

#[test]
fn unknown_character_is_a_full_block() {
    let mut l = Logger::new(vec![0; 16 * 24 * 4], info(16, 24, PixelFormat::RGB));
    l.write_char('\u{e9}');
    for y in 0..8 {
        for x in 0..8 {
            assert_eq!(pixel(&l, 16, x, y), [255, 255, 255, 0]);
        }
    }
    assert_eq!(pixel(&l, 16, 8, 0), [0, 0, 0, 0]);
}

#[test]
fn bgr_swaps_channels() {
    let mut l = Logger::new(vec![0; 16 * 24 * 4], info(16, 24, PixelFormat::BGR));
    l.set_color(Color::new(1, 2, 3));
    l.write_char('\u{2588}');
    assert_eq!(pixel(&l, 16, 0, 0), [3, 2, 1, 0]);
}

#[test]
fn newline_and_wrap_move_the_cursor() {
    let mut l = Logger::new(vec![0; 16 * 24 * 4], info(16, 24, PixelFormat::RGB));
    l.write_char('\n');
    assert_eq!(l.cursor(), (0, 12));
    l.write_char('\n');
    // the bottom was reached: cleared, back to the top
    assert_eq!(l.cursor(), (0, 0));
    l.write_str("ab");
    assert_eq!(l.cursor(), (16, 0));
    l.write_char('c');
    assert_eq!(l.cursor(), (8, 12));
}

#[test]
fn screen_clears_when_full() {
    let mut l = Logger::new(vec![0; 16 * 24 * 4], info(16, 24, PixelFormat::RGB));
    l.write_str("\u{2588}\n");
    assert_eq!(pixel(&l, 16, 0, 0), [255, 255, 255, 0]);
    l.write_char('\n');
    assert!(l.buffer().iter().all(|&b| b == 0));
}

#[test]
fn record_is_written_in_level_colour() {
    let mut l = Logger::new(vec![0; 128 * 40 * 4], info(128, 40, PixelFormat::RGB));
    l.log(Level::Error, "hi");
    // 'E' starts with a full first row, in red
    assert_eq!(pixel(&l, 128, 0, 0), [255, 0, 0, 0]);
    // the '-' after the label is white, on its fourth row
    assert_eq!(pixel(&l, 128, 48, 3), [255, 255, 255, 0]);
    assert_eq!(l.cursor(), (0, 12));
}

#[test]
fn level_colours_and_labels() {
    assert_eq!(level_color(Level::Trace), Color::new(0x76, 0x26, 0x71));
    assert_eq!(level_color(Level::Debug), Color::new(0x39, 0xb5, 0x4a));
    assert_eq!(level_color(Level::Info), Color::new(0xff, 0xff, 0xff));
    assert_eq!(level_color(Level::Warn), Color::new(0xff, 0xc7, 0x06));
    assert_eq!(level_color(Level::Error), Color::new(0xff, 0, 0));
    assert_eq!(level_label(Level::Info), "INFO ");
    assert_eq!(level_label(Level::Trace), "TRACE");
}
