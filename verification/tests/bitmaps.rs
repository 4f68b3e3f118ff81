use vxsky::bitmap::Bitmap;

#[test]
fn bitmap_takes_a_buffer_of_the_right_length() {
    let bitmap = Bitmap::new(2, 3, vec![7; 24]).unwrap();
    assert_eq!(bitmap.width(), 2);
    assert_eq!(bitmap.height(), 3);
    assert_eq!(bitmap.dimensions(), (2, 3));
    assert_eq!(bitmap.area(), 6);
    assert_eq!(bitmap.as_raw(), &vec![7u8; 24]);
    assert_eq!(bitmap.into_raw(), vec![7u8; 24]);
}

#[test]
fn bitmap_refuses_a_buffer_of_another_length() {
    assert!(Bitmap::new(2, 3, vec![0; 23]).is_none());
    assert!(Bitmap::new(2, 3, vec![0; 25]).is_none());
    assert!(Bitmap::new(2, 3, Vec::new()).is_none());
    assert!(Bitmap::new(u32::MAX, u32::MAX, vec![0; 4]).is_none());
}

#[test]
fn bitmap_without_pixels_has_no_bytes() {
    let bitmap = Bitmap::new(0, 5, Vec::new()).unwrap();
    assert_eq!(bitmap.dimensions(), (0, 5));
    assert_eq!(bitmap.area(), 0);
    assert!(bitmap.as_raw().is_empty());
}

#[test]
fn transparent_bitmap_is_all_zero() {
    let bitmap = Bitmap::transparent(3, 2);
    assert_eq!(bitmap.dimensions(), (3, 2));
    assert_eq!(bitmap.as_raw(), &vec![0u8; 24]);
}

#[test]
fn clone_keeps_size_and_bytes() {
    let bitmap = Bitmap::new(1, 2, vec![1, 2, 3, 4, 5, 6, 7, 8]).unwrap();
    let copy = bitmap.clone();
    assert_eq!(copy.dimensions(), (1, 2));
    assert_eq!(copy.as_raw(), bitmap.as_raw());
}
