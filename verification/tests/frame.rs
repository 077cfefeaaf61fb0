use hexspin::TransformedVertex;
use hexspin::compose::compose_frame;
use hexspin::line::draw_line;
use hexspin::raster::{PixelBuffer, Rgba};

const WIDTH: usize = 800;
const HEIGHT: usize = 600;

fn stroke() -> Rgba {
    Rgba { r: 0xFF, g: 0x00, b: 0x00, a: 0xFF }
}

// The float-to-pixel transform of the display shell: rotate about the
// origin, translate to the window center, truncate toward zero.
fn rotate_point(x: f32, y: f32, angle: f32, cx: f32, cy: f32) -> TransformedVertex {
    let c = angle.cos();
    let s = angle.sin();
    let rx = c * x - s * y;
    let ry = s * x + c * y;
    TransformedVertex { x: (rx + cx) as i32, y: (ry + cy) as i32 }
}

fn hexagon_vertices(angle: f32) -> [TransformedVertex; 6] {
    let mut verts = [TransformedVertex { x: 0, y: 0 }; 6];
    for (i, v) in verts.iter_mut().enumerate() {
        let theta = i as f32 * std::f32::consts::PI / 3.0;
        *v = rotate_point(100.0 * theta.cos(), 100.0 * theta.sin(), angle, 400.0, 300.0);
    }
    verts
}

fn red_pixels(buf: &PixelBuffer) -> Vec<(usize, usize)> {
    let width = buf.width();
    let bytes = buf.bytes();
    let mut out = Vec::new();
    for y in 0..buf.height() {
        for x in 0..width {
            let off = (y * width + x) * 4;
            let px = (bytes[off], bytes[off + 1], bytes[off + 2], bytes[off + 3]);
            if px != (0, 0, 0, 0) {
                assert_eq!(px, (0xFF, 0x00, 0x00, 0xFF), "unexpected color at {x},{y}");
                out.push((x, y));
            }
        }
    }
    out
}

#[test]
fn vertex_zero_transforms_to_the_expected_pixel() {
    let verts = hexagon_vertices(0.0);
    assert_eq!((verts[0].x, verts[0].y), (500, 300));
}

#[test]
fn first_edge_at_angle_zero_is_a_connected_red_path() {
    let verts = hexagon_vertices(0.0);
    let mut buf = PixelBuffer::new(WIDTH, HEIGHT);
    draw_line(verts[0], verts[1], &mut buf, stroke());
    let pixels = red_pixels(&buf);
    assert!(pixels.contains(&(500, 300)));
    assert!(pixels.contains(&(verts[1].x as usize, verts[1].y as usize)));
    assert!(pixels.len() >= 2);
    for &(x, y) in &pixels {
        let mut has_neighbour = false;
        for &(ox, oy) in &pixels {
            if (ox, oy) != (x, y)
                && (ox as i64 - x as i64).abs() <= 1
                && (oy as i64 - y as i64).abs() <= 1
            {
                has_neighbour = true;
            }
        }
        assert!(has_neighbour, "isolated pixel at {x},{y}");
    }
}

#[test]
fn composing_at_angle_zero_matches_the_snapshot() {
    let verts = hexagon_vertices(0.0);
    let mut buf = PixelBuffer::new(WIDTH, HEIGHT);
    compose_frame(&verts, &mut buf);
    let union_count = red_pixels(&buf).len();

    // Drawn alone, the six edges meet only at the six shared corners, so
    // the union misses exactly one pixel for each corner.
    let mut edge_sum = 0;
    for i in 0..6 {
        let mut single = PixelBuffer::new(WIDTH, HEIGHT);
        draw_line(verts[i], verts[(i + 1) % 6], &mut single, stroke());
        edge_sum += red_pixels(&single).len();
    }
    assert_eq!(union_count, edge_sum - 6);

    // The snapshot itself: the exact deterministic pixel count of the
    // angle-zero frame.
    assert_eq!(union_count, 546);
}

#[test]
fn composing_twice_at_the_same_angle_is_identical() {
    let verts = hexagon_vertices(0.0);
    let mut first = PixelBuffer::new(WIDTH, HEIGHT);
    let mut second = PixelBuffer::new(WIDTH, HEIGHT);
    compose_frame(&verts, &mut first);
    compose_frame(&verts, &mut second);
    compose_frame(&verts, &mut second);
    assert_eq!(first.bytes(), second.bytes());
}

#[test]
fn every_corner_of_the_hexagon_is_painted() {
    let verts = hexagon_vertices(0.0);
    let mut buf = PixelBuffer::new(WIDTH, HEIGHT);
    compose_frame(&verts, &mut buf);
    let pixels = red_pixels(&buf);
    for v in verts {
        assert!(pixels.contains(&(v.x as usize, v.y as usize)), "corner {},{}", v.x, v.y);
    }
}
