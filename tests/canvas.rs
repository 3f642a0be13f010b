use raytracer::canvas::{pixel_coords, Canvas};

#[test]
fn new() {
    let canvas = Canvas::<[f64; 3]>::empty(10, 20);

    assert_eq!(canvas.width, 10);
    assert_eq!(canvas.height, 20);
    assert_eq!(canvas.pixels.len(), 200);
    for pixel in canvas.pixels {
        assert_eq!(pixel[0], 0.0);
        assert_eq!(pixel[1], 0.0);
        assert_eq!(pixel[2], 0.0);
    }
}

#[test]
fn write_pixel() {
    let mut canvas = Canvas::<[f64; 3]>::empty(10, 20);
    let red = [1.0, 0.0, 0.0];
    canvas.write_pixel(2, 3, red);

    assert_eq!(canvas.pixel_at(2, 3), red);
    assert_eq!(canvas.pixels[2 + 3 * 10], red);
    assert_eq!(canvas.pixel_at(3, 2), [0.0, 0.0, 0.0]);
}

#[test]
fn canvas_over_given_pixels_is_row_major() {
    let canvas = Canvas::new(3, 2, vec![0u32, 1, 2, 3, 4, 5]);
    assert_eq!(canvas.pixel_at(0, 0), 0);
    assert_eq!(canvas.pixel_at(2, 0), 2);
    assert_eq!(canvas.pixel_at(0, 1), 3);
    assert_eq!(canvas.pixel_at(2, 1), 5);
}

#[test]
fn pixel_coords_follow_rows() {
    assert_eq!(pixel_coords(0, 5), (0, 0));
    assert_eq!(pixel_coords(4, 5), (4, 0));
    assert_eq!(pixel_coords(7, 5), (2, 1));
    assert_eq!(pixel_coords(14, 5), (4, 2));
}

#[test]
fn pixel_coords_round_trip_every_pixel() {
    let (w, h) = (11usize, 7usize);
    for y in 0..h {
        for x in 0..w {
            assert_eq!(pixel_coords(x + y * w, w), (x, y));
        }
    }
}

#[test]
fn single_column_canvas() {
    let mut canvas = Canvas::filled(1, 4, 0u8);
    canvas.write_pixel(0, 3, 9);
    assert_eq!(canvas.pixels, vec![0, 0, 0, 9]);
    assert_eq!(pixel_coords(3, 1), (0, 3));
}

#[test]
fn filled_canvas_holds_fill_everywhere() {
    let canvas = Canvas::filled(4, 3, 7u16);
    assert_eq!(canvas.pixels, vec![7u16; 12]);
    let blank = Canvas::<u16>::filled(0, 5, 1);
    assert!(blank.pixels.is_empty());
}
