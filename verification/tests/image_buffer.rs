use insploray::ImageBuffer;

#[test]
fn new_image_is_default_filled() {
    let img: ImageBuffer<u32> = ImageBuffer::new(3, 2);
    assert_eq!(img.get_dimensions(), [3, 2]);
    assert_eq!(img.buffer.len(), 6);
    assert!(img.buffer.iter().all(|p| *p == 0));
}

#[test]
fn get_after_set() {
    let mut img: ImageBuffer<u32> = ImageBuffer::new(4, 3);
    img.set_pixel(2, 1, 7);
    assert_eq!(img.get_pixel(2, 1), Some(7));
    assert_eq!(img.buffer[1 * 4 + 2], 7);
    assert_eq!(img.get_pixel(1, 2), Some(0));
    assert_eq!(img[(2, 1)], 7);
}

#[test]
fn out_of_bounds_reads_and_writes() {
    let mut img: ImageBuffer<u32> = ImageBuffer::new(2, 2);
    assert_eq!(img.get_pixel(2, 0), None);
    assert_eq!(img.get_pixel(0, 2), None);
    img.set_pixel(5, 0, 9);
    img.set_pixel(0, 5, 9);
    assert_eq!(img.buffer, vec![0, 0, 0, 0]);
}

#[test]
fn map_applies_to_every_pixel() {
    let mut img: ImageBuffer<u32> = ImageBuffer::new(2, 2);
    img.set_pixel(0, 0, 1);
    img.set_pixel(1, 1, 5);
    img.map(|p| p * 2 + 1);
    assert_eq!(img.buffer, vec![3, 1, 1, 11]);
}

#[test]
fn iter_pixels_is_row_major() {
    let mut img: ImageBuffer<u32> = ImageBuffer::new(3, 2);
    img.set_pixel(2, 1, 8);
    img.set_pixel(1, 0, 4);
    let px = img.iter_pixels();
    assert_eq!(px.len(), 6);
    assert_eq!(px[1], (1, 0, 4));
    assert_eq!(px[3], (0, 1, 0));
    assert_eq!(px[5], (2, 1, 8));
}

#[test]
fn empty_image() {
    let img: ImageBuffer<u32> = ImageBuffer::new(0, 5);
    assert_eq!(img.get_dimensions(), [0, 5]);
    assert!(img.iter_pixels().is_empty());
    assert_eq!(img.get_pixel(0, 0), None);
}

#[test]
fn default_image_has_no_pixels() {
    let img: ImageBuffer<u32> = ImageBuffer::default();
    assert_eq!(img.get_dimensions(), [0, 0]);
    assert!(img.buffer.is_empty());
    assert_eq!(img.get_pixel(0, 0), None);
}

#[test]
fn index_mut_writes_in_place() {
    let mut img: ImageBuffer<u32> = ImageBuffer::new(3, 2);
    img[(1, 1)] = 9;
    assert_eq!(img.buffer[1 * 3 + 1], 9);
    assert_eq!(img.get_pixel(1, 1), Some(9));
    img[(0, 0)] += 4;
    assert_eq!(img[(0, 0)], 4);
}

#[test]
fn accessors_work_with_a_longer_buffer() {
    let mut img: ImageBuffer<u32> = ImageBuffer::new(2, 2);
    img.buffer.push(11);
    assert_eq!(img.get_pixel(1, 1), Some(0));
    img.set_pixel(1, 1, 5);
    assert_eq!(img.buffer, vec![0, 0, 0, 5, 11]);
    assert_eq!(img.get_pixel(2, 0), None);
    let pixels = img.iter_pixels();
    assert_eq!(pixels.len(), 5);
    assert_eq!(pixels[4], (0, 2, 11));
}

