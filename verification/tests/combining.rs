use vxsky::bitmap::Bitmap;
use vxsky::processing::{combine_images, layout_horizontal, ProcessingError};

fn solid(width: u32, height: u32, rgba: [u8; 4]) -> Bitmap {
    let mut pixels = Vec::new();
    for _ in 0..(width as usize * height as usize) {
        pixels.extend_from_slice(&rgba);
    }
    Bitmap::new(width, height, pixels).unwrap()
}

fn pixel(bitmap: &Bitmap, x: u32, y: u32) -> [u8; 4] {
    let at = 4 * (y as usize * bitmap.width() as usize + x as usize);
    let bytes = bitmap.as_raw();
    [bytes[at], bytes[at + 1], bytes[at + 2], bytes[at + 3]]
}

const RED: [u8; 4] = [255, 0, 0, 255];
const GREEN: [u8; 4] = [0, 255, 0, 255];
const BLUE: [u8; 4] = [0, 0, 255, 255];
const GREY: [u8; 4] = [90, 90, 90, 255];
const CLEAR: [u8; 4] = [0, 0, 0, 0];

#[test]
fn combine_of_nothing_is_refused() {
    let images: Vec<Bitmap> = Vec::new();
    assert!(matches!(
        combine_images(&images, 10, 10, true),
        Err(ProcessingError::EmptyImageArray)
    ));
    assert!(matches!(
        combine_images(&images, 10, 10, false),
        Err(ProcessingError::EmptyImageArray)
    ));
}

#[test]
fn combine_of_five_is_refused() {
    let images = vec![
        solid(2, 2, RED),
        solid(2, 2, GREEN),
        solid(2, 2, BLUE),
        solid(2, 2, GREY),
        solid(2, 2, RED),
    ];
    assert!(matches!(
        combine_images(&images, 4, 4, true),
        Err(ProcessingError::TooManyImages)
    ));
    let mut images = images;
    images.push(solid(1, 1, BLUE));
    assert!(matches!(
        combine_images(&images, 4, 4, false),
        Err(ProcessingError::TooManyImages)
    ));
}

#[test]
fn combine_of_one_is_that_image() {
    let mut pixels = Vec::new();
    for i in 0..(3 * 2 * 4) {
        pixels.push((i * 7 % 256) as u8);
    }
    let images = vec![Bitmap::new(3, 2, pixels.clone()).unwrap()];
    let combined = combine_images(&images, 100, 100, true).ok().unwrap();
    assert_eq!(combined.dimensions(), (3, 2));
    assert_eq!(combined.as_raw(), &pixels);
}

#[test]
fn combine_of_two_places_them_side_by_side() {
    let images = vec![solid(4, 3, RED), solid(4, 3, GREEN)];
    let canvas = combine_images(&images, 8, 3, false).ok().unwrap();
    assert_eq!(canvas.dimensions(), (8, 3));
    for y in 0..3 {
        for x in 0..4 {
            assert_eq!(pixel(&canvas, x, y), RED);
        }
        for x in 4..8 {
            assert_eq!(pixel(&canvas, x, y), GREEN);
        }
    }
}

#[test]
fn combine_keeps_the_order_of_the_images() {
    let images = vec![solid(2, 2, GREEN), solid(8, 6, RED)];
    let canvas = combine_images(&images, 16, 6, false).ok().unwrap();
    assert_eq!(pixel(&canvas, 0, 0), GREEN);
    assert_eq!(pixel(&canvas, 7, 5), GREEN);
    assert_eq!(pixel(&canvas, 8, 0), RED);
    assert_eq!(pixel(&canvas, 15, 5), RED);
}

#[test]
fn combine_of_two_pads_the_smaller_aspect() {
    let images = vec![solid(8, 8, RED), solid(8, 4, GREEN)];
    let canvas = combine_images(&images, 16, 8, true).ok().unwrap();
    assert_eq!(canvas.dimensions(), (16, 8));
    assert_eq!(pixel(&canvas, 3, 3), RED);
    assert_eq!(pixel(&canvas, 12, 1), CLEAR);
    assert_eq!(pixel(&canvas, 12, 2), GREEN);
    assert_eq!(pixel(&canvas, 12, 5), GREEN);
    assert_eq!(pixel(&canvas, 12, 6), CLEAR);
}

#[test]
fn combine_of_three_spans_the_third_below() {
    let images = vec![solid(4, 3, RED), solid(4, 3, GREEN), solid(4, 3, BLUE)];
    let canvas = combine_images(&images, 8, 6, false).ok().unwrap();
    assert_eq!(canvas.dimensions(), (8, 6));
    for y in 0..3 {
        for x in 0..4 {
            assert_eq!(pixel(&canvas, x, y), RED);
        }
        for x in 4..8 {
            assert_eq!(pixel(&canvas, x, y), GREEN);
        }
    }
    for y in 3..6 {
        for x in 0..8 {
            assert_eq!(pixel(&canvas, x, y), BLUE);
        }
    }
}

#[test]
fn combine_of_three_pads_the_third_in_the_full_width() {
    let images = vec![solid(4, 4, RED), solid(4, 4, GREEN), solid(4, 4, BLUE)];
    let canvas = combine_images(&images, 8, 8, true).ok().unwrap();
    assert_eq!(canvas.dimensions(), (8, 8));
    for y in 4..8 {
        for x in 0..2 {
            assert_eq!(pixel(&canvas, x, y), CLEAR);
        }
        for x in 2..6 {
            assert_eq!(pixel(&canvas, x, y), BLUE);
        }
        for x in 6..8 {
            assert_eq!(pixel(&canvas, x, y), CLEAR);
        }
    }
    assert_eq!(pixel(&canvas, 0, 3), RED);
    assert_eq!(pixel(&canvas, 7, 3), GREEN);
}

#[test]
fn combine_of_four_is_a_grid() {
    let images = vec![solid(4, 3, RED), solid(4, 3, GREEN), solid(4, 3, BLUE), solid(4, 3, GREY)];
    let canvas = combine_images(&images, 8, 6, true).ok().unwrap();
    assert_eq!(canvas.dimensions(), (8, 6));
    for y in 0..6 {
        for x in 0..8 {
            let expected = match (x < 4, y < 3) {
                (true, true) => RED,
                (false, true) => GREEN,
                (true, false) => BLUE,
                (false, false) => GREY,
            };
            assert_eq!(pixel(&canvas, x, y), expected);
        }
    }
}

#[test]
fn combine_scales_to_the_last_of_the_largest() {
    let images = vec![solid(4, 3, RED), solid(3, 4, GREEN)];
    let canvas = combine_images(&images, 6, 4, false).ok().unwrap();
    assert_eq!(canvas.dimensions(), (6, 4));
    for y in 0..4 {
        for x in 0..3 {
            assert_eq!(pixel(&canvas, x, y), RED);
        }
        for x in 3..6 {
            assert_eq!(pixel(&canvas, x, y), GREEN);
        }
    }
}

#[test]
fn row_starts_each_image_where_the_last_one_ends() {
    let mut canvas = Bitmap::transparent(7, 3);
    let images = vec![solid(2, 1, RED), solid(1, 2, GREEN), solid(3, 1, BLUE)];
    layout_horizontal(&mut canvas, &images, 1);
    assert_eq!(canvas.dimensions(), (7, 3));
    let expected = [
        [CLEAR, CLEAR, CLEAR, CLEAR, CLEAR, CLEAR, CLEAR],
        [RED, RED, GREEN, BLUE, BLUE, BLUE, CLEAR],
        [CLEAR, CLEAR, GREEN, CLEAR, CLEAR, CLEAR, CLEAR],
    ];
    for y in 0..3 {
        for x in 0..7 {
            assert_eq!(pixel(&canvas, x, y), expected[y as usize][x as usize]);
        }
    }
}

#[test]
fn row_is_cut_at_the_edge_of_the_canvas() {
    let mut canvas = Bitmap::transparent(3, 2);
    let images = vec![solid(2, 5, RED), solid(2, 5, GREEN)];
    layout_horizontal(&mut canvas, &images, 1);
    assert_eq!(canvas.dimensions(), (3, 2));
    assert_eq!(pixel(&canvas, 0, 0), CLEAR);
    assert_eq!(pixel(&canvas, 0, 1), RED);
    assert_eq!(pixel(&canvas, 1, 1), RED);
    assert_eq!(pixel(&canvas, 2, 1), GREEN);
}

#[test]
fn row_of_nothing_changes_nothing() {
    let mut canvas = solid(2, 2, GREY);
    let images: Vec<Bitmap> = Vec::new();
    layout_horizontal(&mut canvas, &images, 0);
    assert_eq!(canvas.as_raw(), solid(2, 2, GREY).as_raw());
}

#[test]
fn row_leaves_the_rest_of_the_canvas_as_it_was() {
    let mut canvas = solid(6, 4, GREY);
    let images = vec![solid(2, 2, RED), solid(3, 1, GREEN)];
    layout_horizontal(&mut canvas, &images, 1);
    assert_eq!(canvas.dimensions(), (6, 4));
    let expected = [
        [GREY, GREY, GREY, GREY, GREY, GREY],
        [RED, RED, GREEN, GREEN, GREEN, GREY],
        [RED, RED, GREY, GREY, GREY, GREY],
        [GREY, GREY, GREY, GREY, GREY, GREY],
    ];
    for y in 0..4 {
        for x in 0..6 {
            assert_eq!(pixel(&canvas, x, y), expected[y as usize][x as usize]);
        }
    }
}

#[test]
fn row_draws_opaque_pixels_and_skips_transparent_ones() {
    let mut canvas = solid(4, 3, GREY);
    let mut pixels = Vec::new();
    pixels.extend_from_slice(&RED);
    pixels.extend_from_slice(&[9, 9, 9, 0]);
    pixels.extend_from_slice(&CLEAR);
    pixels.extend_from_slice(&BLUE);
    let images = vec![solid(1, 1, GREEN), Bitmap::new(2, 2, pixels).unwrap()];
    layout_horizontal(&mut canvas, &images, 1);
    let expected = [
        [GREY, GREY, GREY, GREY],
        [GREEN, RED, GREY, GREY],
        [GREY, GREY, BLUE, GREY],
    ];
    for y in 0..3 {
        for x in 0..4 {
            assert_eq!(pixel(&canvas, x, y), expected[y as usize][x as usize]);
        }
    }
}

#[test]
fn combine_leaves_a_larger_canvas_transparent_around_the_layout() {
    let images = vec![solid(4, 3, RED), solid(4, 3, GREEN)];
    let canvas = combine_images(&images, 10, 5, false).ok().unwrap();
    assert_eq!(canvas.dimensions(), (10, 5));
    for y in 0..5 {
        for x in 0..10 {
            let expected = if y >= 3 || x >= 8 {
                CLEAR
            } else if x < 4 {
                RED
            } else {
                GREEN
            };
            assert_eq!(pixel(&canvas, x, y), expected);
        }
    }
    let images = vec![solid(2, 2, RED), solid(2, 2, GREEN), solid(2, 2, BLUE)];
    let canvas = combine_images(&images, 6, 5, false).ok().unwrap();
    assert_eq!(canvas.dimensions(), (6, 5));
    for y in 0..5 {
        for x in 0..6 {
            let expected = if y >= 4 {
                CLEAR
            } else if y >= 2 {
                BLUE
            } else if x < 2 {
                RED
            } else if x < 4 {
                GREEN
            } else {
                CLEAR
            };
            assert_eq!(pixel(&canvas, x, y), expected);
        }
    }
}

#[test]
fn combine_shows_each_piece_where_it_is_opaque() {
    let holed = |rgba: [u8; 4]| {
        let mut pixels = Vec::new();
        for at in 0..4 {
            if at == 1 {
                pixels.extend_from_slice(&[9, 9, 9, 0]);
            } else {
                pixels.extend_from_slice(&rgba);
            }
        }
        Bitmap::new(2, 2, pixels).unwrap()
    };
    let images = vec![holed(RED), holed(GREEN), holed(BLUE), holed(GREY)];
    let canvas = combine_images(&images, 4, 4, false).ok().unwrap();
    let expected = [
        [RED, CLEAR, GREEN, CLEAR],
        [RED, RED, GREEN, GREEN],
        [BLUE, CLEAR, GREY, CLEAR],
        [BLUE, BLUE, GREY, GREY],
    ];
    for y in 0..4 {
        for x in 0..4 {
            assert_eq!(pixel(&canvas, x, y), expected[y as usize][x as usize]);
        }
    }
}
