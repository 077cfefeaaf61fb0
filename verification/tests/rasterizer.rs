use hexspin::TransformedVertex;
use hexspin::line::draw_line;
use hexspin::raster::{PixelBuffer, Rgba};

fn red() -> Rgba {
    Rgba { r: 0xFF, g: 0x00, b: 0x00, a: 0xFF }
}

fn vertex(x: i32, y: i32) -> TransformedVertex {
    TransformedVertex { x, y }
}

fn red_pixels(buf: &PixelBuffer) -> Vec<(usize, usize)> {
    let width = buf.width();
    let height = buf.height();
    let bytes = buf.bytes();
    let mut out = Vec::new();
    for y in 0..height {
        for x in 0..width {
            let off = (y * width + x) * 4;
            let px = (bytes[off], bytes[off + 1], bytes[off + 2], bytes[off + 3]);
            if px != (0, 0, 0, 0) {
                assert_eq!(px, (0xFF, 0x00, 0x00, 0xFF), "unexpected color at {x},{y}");
                out.push((x, y));
            }
        }
    }
    out
}

#[test]
fn new_buffer_is_zeroed_with_given_dimensions() {
    let buf = PixelBuffer::new(11, 7);
    assert_eq!(buf.width(), 11);
    assert_eq!(buf.height(), 7);
    assert_eq!(buf.bytes().len(), 11 * 7 * 4);
    assert!(buf.bytes().iter().all(|&b| b == 0));
}

#[test]
fn clear_resets_every_byte() {
    let mut buf = PixelBuffer::new(9, 5);
    buf.plot(2, 3, red());
    buf.plot(8, 4, red());
    assert!(buf.bytes().iter().any(|&b| b != 0));
    buf.clear();
    assert!(buf.bytes().iter().all(|&b| b == 0));
    assert_eq!(buf.bytes().len(), 9 * 5 * 4);
}

#[test]
fn plot_writes_four_bytes_in_place() {
    let mut buf = PixelBuffer::new(10, 10);
    buf.plot(3, 4, red());
    assert_eq!(red_pixels(&buf), vec![(3, 4)]);
}

#[test]
fn plot_skips_out_of_range_silently() {
    let mut buf = PixelBuffer::new(10, 10);
    buf.plot(-1, 5, red());
    buf.plot(5, -1, red());
    buf.plot(10, 5, red());
    buf.plot(5, 10, red());
    buf.plot(i64::MIN, i64::MAX, red());
    assert!(buf.bytes().iter().all(|&b| b == 0));
}

#[test]
fn degenerate_line_plots_exactly_one_pixel() {
    let mut buf = PixelBuffer::new(10, 10);
    draw_line(vertex(3, 4), vertex(3, 4), &mut buf, red());
    assert_eq!(red_pixels(&buf), vec![(3, 4)]);
}

#[test]
fn line_reaches_both_endpoints() {
    let mut buf = PixelBuffer::new(20, 20);
    draw_line(vertex(2, 3), vertex(13, 9), &mut buf, red());
    let pixels = red_pixels(&buf);
    assert!(pixels.contains(&(2, 3)));
    assert!(pixels.contains(&(13, 9)));
}

#[test]
fn corner_pixel_is_drawable() {
    let mut buf = PixelBuffer::new(8, 8);
    draw_line(vertex(7, 7), vertex(7, 7), &mut buf, red());
    assert_eq!(red_pixels(&buf), vec![(7, 7)]);
}

#[test]
fn out_of_bounds_segment_leaves_buffer_untouched() {
    let mut buf = PixelBuffer::new(8, 8);
    draw_line(vertex(-10, -3), vertex(-2, -9), &mut buf, red());
    assert!(buf.bytes().iter().all(|&b| b == 0));
}

#[test]
fn crossing_segment_paints_only_in_bounds_pixels() {
    let mut buf = PixelBuffer::new(8, 8);
    draw_line(vertex(-5, 2), vertex(12, 6), &mut buf, red());
    let pixels = red_pixels(&buf);
    assert!(!pixels.is_empty());
    for (x, y) in pixels {
        assert!(x < 8 && y < 8);
    }
}

#[test]
fn line_is_symmetric_for_horizontal_vertical_and_diagonal() {
    let cases = vec![
        (vertex(1, 2), vertex(7, 2)),
        (vertex(3, 1), vertex(3, 8)),
        (vertex(0, 0), vertex(5, 5)),
        (vertex(7, 2), vertex(2, 7)),
        (vertex(4, 4), vertex(4, 4)),
    ];
    for (a, b) in cases {
        let mut fwd = PixelBuffer::new(10, 10);
        let mut rev = PixelBuffer::new(10, 10);
        draw_line(a, b, &mut fwd, red());
        draw_line(b, a, &mut rev, red());
        assert_eq!(red_pixels(&fwd), red_pixels(&rev), "case {:?} {:?}", (a.x, a.y), (b.x, b.y));
    }
}

#[test]
fn line_path_is_eight_connected() {
    let mut buf = PixelBuffer::new(30, 30);
    draw_line(vertex(1, 1), vertex(25, 9), &mut buf, red());
    let pixels = red_pixels(&buf);
    assert!(pixels.len() >= 2);
    for &(x, y) in &pixels {
        let mut has_neighbour = false;
        for &(ox, oy) in &pixels {
            if (ox, oy) != (x, y) {
                let dx = (ox as i64 - x as i64).abs();
                let dy = (oy as i64 - y as i64).abs();
                if dx <= 1 && dy <= 1 {
                    has_neighbour = true;
                }
            }
        }
        assert!(has_neighbour, "isolated pixel at {x},{y}");
    }
}
