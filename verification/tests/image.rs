use waterfall::{ColorRgb, ImageBuffer};

const BLACK: ColorRgb = ColorRgb { r: 0, g: 0, b: 0 };
const WHITE: ColorRgb = ColorRgb { r: 255, g: 255, b: 255 };
const RED: ColorRgb = ColorRgb { r: 255, g: 0, b: 0 };
const GREEN: ColorRgb = ColorRgb { r: 0, g: 200, b: 0 };
const BLUE: ColorRgb = ColorRgb { r: 0, g: 0, b: 150 };

fn pixels(img: &ImageBuffer<ColorRgb>) -> Vec<Vec<ColorRgb>> {
    let mut rows = Vec::new();
    for y in 0..img.height() {
        let mut row = Vec::new();
        for x in 0..img.width() {
            row.push(img.pixel(x, y).unwrap());
        }
        rows.push(row);
    }
    rows
}

#[test]
fn new_buffer_is_black() {
    let img = ImageBuffer::new(3, 2);
    assert_eq!(img.width(), 3);
    assert_eq!(img.height(), 2);
    assert_eq!(pixels(&img), vec![vec![BLACK; 3]; 2]);
}

#[test]
fn new_buffer_may_be_empty() {
    let img = ImageBuffer::new(0, 0);
    assert_eq!((img.width(), img.height()), (0, 0));
    assert_eq!(img.pixel(0, 0), None);
    let img = ImageBuffer::new(0, 4);
    assert_eq!((img.width(), img.height()), (0, 4));
    let img = ImageBuffer::new(4, 0);
    assert_eq!((img.width(), img.height()), (4, 0));
    assert_eq!(img.rgb_bytes(), Vec::<u8>::new());
}

#[test]
fn pixel_outside_the_buffer_is_none() {
    let img = ImageBuffer::new(3, 2);
    assert_eq!(img.pixel(2, 1), Some(BLACK));
    assert_eq!(img.pixel(3, 1), None);
    assert_eq!(img.pixel(2, 2), None);
    assert_eq!(img.pixel(usize::MAX, usize::MAX), None);
}

#[test]
fn set_pixel_sets_one_pixel() {
    let mut img = ImageBuffer::new(3, 2);
    img.set_pixel(2, 1, RED);
    assert_eq!(pixels(&img), vec![vec![BLACK, BLACK, BLACK], vec![BLACK, BLACK, RED]]);
    img.set_pixel(0, 0, GREEN);
    img.set_pixel(2, 1, BLUE);
    assert_eq!(pixels(&img), vec![vec![GREEN, BLACK, BLACK], vec![BLACK, BLACK, BLUE]]);
}

#[test]
fn set_pixel_out_of_range_does_nothing() {
    let mut img = ImageBuffer::new(3, 2);
    img.set_pixel(1, 1, RED);
    let before = pixels(&img);
    img.set_pixel(3, 0, WHITE);
    img.set_pixel(0, 2, WHITE);
    img.set_pixel(usize::MAX, 0, WHITE);
    img.set_pixel(0, usize::MAX, WHITE);
    assert_eq!(pixels(&img), before);
    assert_eq!((img.width(), img.height()), (3, 2));
}

#[test]
fn overlay_changes_only_the_pixel_under_the_source() {
    let mut dst = ImageBuffer::new(5, 5);
    let mut src = ImageBuffer::new(2, 2);
    src.set_pixel(1, 1, WHITE);
    dst.overlay(&src, 3, 3);
    for y in 0..5 {
        for x in 0..5 {
            let expected = if (x, y) == (4, 4) { WHITE } else { BLACK };
            assert_eq!(dst.pixel(x, y), Some(expected));
        }
    }
}

#[test]
fn overlay_skips_black_source_pixels() {
    let mut dst = ImageBuffer::new(3, 3);
    for y in 0..3 {
        for x in 0..3 {
            dst.set_pixel(x, y, GREEN);
        }
    }
    let mut src = ImageBuffer::new(2, 2);
    src.set_pixel(0, 0, RED);
    src.set_pixel(1, 1, BLUE);
    dst.overlay(&src, 1, 0);
    assert_eq!(
        pixels(&dst),
        vec![
            vec![GREEN, RED, GREEN],
            vec![GREEN, GREEN, BLUE],
            vec![GREEN, GREEN, GREEN],
        ]
    );
}

#[test]
fn overlay_clips_at_the_edges() {
    let mut dst = ImageBuffer::new(3, 2);
    let mut src = ImageBuffer::new(4, 4);
    for y in 0..4 {
        for x in 0..4 {
            src.set_pixel(x, y, WHITE);
        }
    }
    dst.overlay(&src, 2, 1);
    assert_eq!(pixels(&dst), vec![vec![BLACK, BLACK, BLACK], vec![BLACK, BLACK, WHITE]]);
    assert_eq!((dst.width(), dst.height()), (3, 2));
}

#[test]
fn overlay_wholly_outside_changes_nothing() {
    let mut dst = ImageBuffer::new(3, 2);
    dst.set_pixel(1, 1, RED);
    let before = pixels(&dst);
    let mut src = ImageBuffer::new(2, 2);
    src.set_pixel(0, 0, WHITE);
    src.set_pixel(1, 1, WHITE);
    dst.overlay(&src, 3, 0);
    dst.overlay(&src, 0, 2);
    dst.overlay(&src, usize::MAX, usize::MAX);
    dst.overlay(&src, usize::MAX, 0);
    dst.overlay(&src, 0, usize::MAX);
    assert_eq!(pixels(&dst), before);
}

#[test]
fn overlay_of_an_empty_source_changes_nothing() {
    let mut dst = ImageBuffer::new(2, 2);
    dst.set_pixel(0, 1, BLUE);
    let before = pixels(&dst);
    dst.overlay(&ImageBuffer::new(0, 0), 0, 0);
    dst.overlay(&ImageBuffer::new(0, 3), 1, 1);
    assert_eq!(pixels(&dst), before);
}

#[test]
fn horizontal_line_fills_its_row_only() {
    let mut img = ImageBuffer::new(3, 3);
    img.set_pixel(0, 0, RED);
    img.set_pixel(1, 1, GREEN);
    img.set_pixel(2, 2, BLUE);
    img.horizontal_line(1, WHITE);
    assert_eq!(
        pixels(&img),
        vec![
            vec![RED, BLACK, BLACK],
            vec![WHITE, WHITE, WHITE],
            vec![BLACK, BLACK, BLUE],
        ]
    );
}

#[test]
fn vertical_line_fills_its_column_only() {
    let mut img = ImageBuffer::new(3, 3);
    img.set_pixel(0, 0, RED);
    img.set_pixel(1, 1, GREEN);
    img.set_pixel(2, 2, BLUE);
    img.vertical_line(2, WHITE);
    assert_eq!(
        pixels(&img),
        vec![
            vec![RED, BLACK, WHITE],
            vec![BLACK, GREEN, WHITE],
            vec![BLACK, BLACK, WHITE],
        ]
    );
}

#[test]
fn lines_in_a_buffer_without_pixels() {
    let mut img = ImageBuffer::new(0, 2);
    img.horizontal_line(1, WHITE);
    assert_eq!((img.width(), img.height()), (0, 2));
    let mut img = ImageBuffer::new(2, 0);
    img.vertical_line(1, WHITE);
    assert_eq!((img.width(), img.height()), (2, 0));
}

#[test]
fn bytes_are_row_major_rgb() {
    let mut img = ImageBuffer::new(2, 2);
    img.set_pixel(0, 0, ColorRgb { r: 1, g: 2, b: 3 });
    img.set_pixel(1, 0, ColorRgb { r: 4, g: 5, b: 6 });
    img.set_pixel(0, 1, ColorRgb { r: 7, g: 8, b: 9 });
    img.set_pixel(1, 1, ColorRgb { r: 10, g: 11, b: 12 });
    assert_eq!(img.rgb_bytes(), vec![1, 2, 3, 4, 5, 6, 7, 8, 9, 10, 11, 12]);
}

#[test]
fn bytes_of_a_wide_buffer() {
    let mut img = ImageBuffer::new(3, 1);
    img.set_pixel(2, 0, RED);
    assert_eq!(img.rgb_bytes(), vec![0, 0, 0, 0, 0, 0, 255, 0, 0]);
    let mut img = ImageBuffer::new(1, 3);
    img.set_pixel(0, 2, RED);
    assert_eq!(img.rgb_bytes(), vec![0, 0, 0, 0, 0, 0, 255, 0, 0]);
}

#[test]
fn from_rows_keeps_the_pixels() {
    let rows = vec![vec![RED, GREEN], vec![BLUE, WHITE], vec![BLACK, RED]];
    let img = ImageBuffer::from_rows(2, &rows).unwrap();
    assert_eq!((img.width(), img.height()), (2, 3));
    assert_eq!(pixels(&img), rows);
}

#[test]
fn from_rows_refuses_ragged_rows() {
    let rows = vec![vec![RED, GREEN], vec![BLUE]];
    assert!(ImageBuffer::from_rows(2, &rows).is_none());
    let rows = vec![vec![RED, GREEN], vec![BLUE, WHITE]];
    assert!(ImageBuffer::from_rows(3, &rows).is_none());
    assert!(ImageBuffer::from_rows(0, &Vec::new()).is_some());
    assert!(ImageBuffer::from_rows(5, &Vec::new()).is_some());
}

#[test]
fn plot_sets_the_pixel_relative_to_a_corner() {
    let mut img = ImageBuffer::new(4, 3);
    img.plot(1, 0, 2, 1, RED);
    img.plot(0, 2, 0, 0, GREEN);
    img.plot(3, 3, -3, -3, BLUE);
    assert_eq!(
        pixels(&img),
        vec![
            vec![BLUE, BLACK, BLACK, BLACK],
            vec![BLACK, BLACK, BLACK, RED],
            vec![GREEN, BLACK, BLACK, BLACK],
        ]
    );
}

#[test]
fn plot_outside_the_buffer_does_nothing() {
    let mut img = ImageBuffer::new(4, 3);
    img.set_pixel(0, 0, RED);
    let before = pixels(&img);
    img.plot(0, 0, -1, 0, WHITE);
    img.plot(0, 0, 0, -1, WHITE);
    img.plot(2, 0, -3, 0, WHITE);
    img.plot(0, 0, 4, 0, WHITE);
    img.plot(0, 0, 0, 3, WHITE);
    img.plot(u32::MAX, 0, i32::MAX, 0, WHITE);
    img.plot(0, u32::MAX, 0, i32::MAX, WHITE);
    img.plot(0, 0, i32::MIN, i32::MIN, WHITE);
    assert_eq!(pixels(&img), before);
}
