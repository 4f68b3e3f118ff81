use image::imageops::{self, FilterType};
use image::RgbaImage;
use vxsky::bitmap::Bitmap;
use vxsky::processing::{compose_thumbnail, scale_image_iterable};

fn gradient(width: u32, height: u32) -> Vec<u8> {
    let mut pixels = Vec::new();
    for y in 0..height {
        for x in 0..width {
            let red = (x * 255 / width.max(1)) as u8;
            let green = (y * 255 / height.max(1)) as u8;
            let blue = ((x + y) % 256) as u8;
            let alpha = if (x / 3 + y / 2) % 4 == 0 { 0 } else if x % 5 == 0 { 128 } else { 255 };
            pixels.extend_from_slice(&[red, green, blue, alpha]);
        }
    }
    pixels
}

#[test]
fn stretching_uses_the_gaussian_kernel() {
    let pixels = gradient(20, 12);
    let source = Bitmap::new(20, 12, pixels.clone()).unwrap();
    let scaled = scale_image_iterable(&source, 9, 15, false);
    let buffer = RgbaImage::from_raw(20, 12, pixels).unwrap();
    let expected = imageops::resize(&buffer, 9, 15, FilterType::Gaussian);
    assert_eq!(scaled.dimensions(), (9, 15));
    assert_eq!(scaled.as_raw(), expected.as_raw());
    let other = imageops::resize(&buffer, 9, 15, FilterType::Lanczos3);
    assert_ne!(scaled.as_raw(), other.as_raw());
}

#[test]
fn padding_uses_the_lanczos_kernel() {
    let pixels = gradient(20, 12);
    let source = Bitmap::new(20, 12, pixels.clone()).unwrap();
    let scaled = scale_image_iterable(&source, 30, 30, true);
    let buffer = RgbaImage::from_raw(20, 12, pixels).unwrap();
    let inner = imageops::resize(&buffer, 30, 18, FilterType::Lanczos3);
    let mut expected = RgbaImage::new(30, 30);
    imageops::overlay(&mut expected, &inner, 0, 6);
    assert_eq!(scaled.dimensions(), (30, 30));
    assert_eq!(scaled.as_raw(), expected.as_raw());
    let other = imageops::resize(&buffer, 30, 18, FilterType::Gaussian);
    assert_ne!(inner.as_raw(), other.as_raw());
}

#[test]
fn background_is_blurred_with_deviation_fifty() {
    let pixels = gradient(16, 10);
    let images = vec![Bitmap::new(16, 10, pixels.clone()).unwrap()];
    let composed = compose_thumbnail(&images).ok().unwrap();
    let buffer = RgbaImage::from_raw(16, 10, pixels.clone()).unwrap();
    let mut expected = imageops::blur(&buffer, 50.0);
    imageops::overlay(&mut expected, &buffer, 0, 0);
    assert_eq!(composed.dimensions(), (16, 10));
    assert_eq!(composed.as_raw(), expected.as_raw());
    let weaker = imageops::blur(&buffer, 5.0);
    assert_ne!(imageops::blur(&buffer, 50.0).as_raw(), weaker.as_raw());
}

#[test]
fn picture_shows_each_layer_where_the_other_gives_way() {
    let pixels = gradient(16, 10);
    let images = vec![Bitmap::new(16, 10, pixels.clone()).unwrap()];
    let composed = compose_thumbnail(&images).ok().unwrap();
    let buffer = RgbaImage::from_raw(16, 10, pixels.clone()).unwrap();
    let blurred = imageops::blur(&buffer, 50.0);
    let mut opaque = 0;
    let mut clear = 0;
    for (at, pixel) in pixels.chunks(4).enumerate() {
        let shown = &composed.as_raw()[4 * at..4 * at + 4];
        if pixel[3] == 255 {
            assert_eq!(shown, pixel);
            opaque += 1;
        } else if pixel[3] == 0 {
            assert_eq!(shown, &blurred.as_raw()[4 * at..4 * at + 4]);
            clear += 1;
        }
    }
    assert!(opaque > 0 && clear > 0);
}
