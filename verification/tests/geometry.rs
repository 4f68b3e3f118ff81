use vxsky::bitmap::Bitmap;
use vxsky::geometry::{centering_offset, letterbox_dimensions, product};
use vxsky::processing::{find_img_with_most_pixels, get_total_img_size, ProcessingError};

fn blank(width: u32, height: u32) -> Bitmap {
    Bitmap::transparent(width, height)
}

#[test]
fn product_does_not_wrap() {
    assert_eq!(product(u32::MAX, u32::MAX), 18_446_744_065_119_617_025);
    assert_eq!(product(800, 600), 480_000);
    assert_eq!(product(0, 7), 0);
}

#[test]
fn letterbox_keeps_matching_aspect_without_padding() {
    let size = letterbox_dimensions(400, 300, 800, 600);
    assert_eq!(size, (800, 600));
    assert_eq!(centering_offset(size, 800, 600), (0, 0));
}

#[test]
fn letterbox_of_wide_image_is_bound_by_width() {
    let size = letterbox_dimensions(100, 50, 60, 60);
    assert_eq!(size, (60, 30));
    assert_eq!(centering_offset(size, 60, 60), (0, 15));
}

#[test]
fn letterbox_of_tall_image_is_bound_by_height() {
    let size = letterbox_dimensions(50, 100, 60, 60);
    assert_eq!(size, (30, 60));
    assert_eq!(centering_offset(size, 60, 60), (15, 0));
}

#[test]
fn letterbox_rounds_down() {
    let size = letterbox_dimensions(3, 2, 10, 10);
    assert_eq!(size, (10, 6));
    assert_eq!(centering_offset(size, 10, 10), (0, 2));
    let size = letterbox_dimensions(2, 3, 10, 11);
    assert_eq!(size, (7, 11));
    assert_eq!(centering_offset(size, 10, 11), (1, 0));
}

#[test]
fn letterbox_is_exact_where_the_quotient_is_whole() {
    assert_eq!(letterbox_dimensions(11, 15, 800, 600), (440, 600));
    assert_eq!(letterbox_dimensions(5, 77, 333, 77), (5, 77));
    assert_eq!(letterbox_dimensions(1939, 760, 1939, 3067), (1939, 760));
    assert_eq!(centering_offset((440, 600), 800, 600), (180, 0));
}

#[test]
fn letterbox_stays_within_one_pixel_of_the_aspect() {
    for &(width, height, target_width, target_height) in
        &[(7u32, 5u32, 13u32, 11u32), (1920, 1080, 800, 600), (1, 1000, 64, 64), (999, 1, 31, 17)]
    {
        let (new_width, new_height) =
            letterbox_dimensions(width, height, target_width, target_height);
        assert!(new_width <= target_width && new_height <= target_height);
        let (w, h) = (width as u64, height as u64);
        let (tw, th) = (target_width as u64, target_height as u64);
        let (nw, nh) = (new_width as u64, new_height as u64);
        if w * th > tw * h {
            assert_eq!(new_width, target_width);
            assert!(nh * w <= tw * h && tw * h < (nh + 1) * w);
        } else {
            assert_eq!(new_height, target_height);
            assert!(nw * h <= th * w && th * w < (nw + 1) * h);
        }
    }
}

#[test]
fn letterbox_of_empty_images() {
    assert_eq!(letterbox_dimensions(0, 0, 10, 20), (0, 20));
    assert_eq!(letterbox_dimensions(5, 0, 10, 20), (10, 0));
    assert_eq!(letterbox_dimensions(0, 5, 10, 20), (0, 20));
    assert_eq!(letterbox_dimensions(5, 5, 0, 0), (0, 0));
}

#[test]
fn letterbox_at_the_limits_of_the_coordinates() {
    assert_eq!(
        letterbox_dimensions(u32::MAX, u32::MAX, u32::MAX, u32::MAX),
        (u32::MAX, u32::MAX)
    );
    assert_eq!(letterbox_dimensions(u32::MAX, 1, u32::MAX, u32::MAX), (u32::MAX, 1));
    assert_eq!(letterbox_dimensions(1, u32::MAX, u32::MAX, u32::MAX), (1, u32::MAX));
}

#[test]
fn reference_is_the_largest_image() {
    let images = vec![blank(4, 4), blank(10, 10), blank(5, 5)];
    let reference = find_img_with_most_pixels(&images).ok().unwrap();
    assert_eq!(reference.dimensions(), (10, 10));
}

#[test]
fn reference_is_the_last_of_the_largest() {
    let images = vec![blank(6, 2), blank(4, 3), blank(3, 4), blank(1, 1)];
    let reference = find_img_with_most_pixels(&images).ok().unwrap();
    assert_eq!(reference.dimensions(), (3, 4));
    let images = vec![blank(2, 6), blank(12, 1), blank(1, 1)];
    let reference = find_img_with_most_pixels(&images).ok().unwrap();
    assert_eq!(reference.dimensions(), (12, 1));
}

#[test]
fn reference_of_nothing_is_missing() {
    let images: Vec<Bitmap> = Vec::new();
    assert!(matches!(
        find_img_with_most_pixels(&images),
        Err(ProcessingError::CouldNotFindMostPixels)
    ));
}

#[test]
fn canvas_of_one_image_is_the_image() {
    let images = vec![blank(300, 200)];
    assert_eq!(get_total_img_size(&images).ok().unwrap(), (300, 200));
}

#[test]
fn canvas_of_two_images_is_twice_as_wide() {
    let images = vec![blank(300, 200), blank(10, 10)];
    assert_eq!(get_total_img_size(&images).ok().unwrap(), (600, 200));
}

#[test]
fn canvas_of_three_or_four_images_is_a_grid() {
    let images = vec![blank(10, 10), blank(300, 200), blank(10, 10)];
    assert_eq!(get_total_img_size(&images).ok().unwrap(), (600, 400));
    let images = vec![blank(10, 10), blank(30, 20), blank(10, 10), blank(7, 70)];
    assert_eq!(get_total_img_size(&images).ok().unwrap(), (60, 40));
}

#[test]
fn canvas_follows_the_last_of_the_largest() {
    let images = vec![blank(4, 3), blank(3, 4)];
    assert_eq!(get_total_img_size(&images).ok().unwrap(), (6, 4));
    let images = vec![blank(3, 4), blank(4, 3)];
    assert_eq!(get_total_img_size(&images).ok().unwrap(), (8, 3));
}

#[test]
fn canvas_of_nothing_is_missing() {
    let images: Vec<Bitmap> = Vec::new();
    assert!(matches!(
        get_total_img_size(&images),
        Err(ProcessingError::CouldNotFindMostPixels)
    ));
}
