use rustracer::texture::ImageTexture;

fn gradient(nx: u32, ny: u32) -> Vec<u8> {
    let mut v = Vec::new();
    for j in 0..ny {
        for i in 0..nx {
            v.push(i as u8);
            v.push(j as u8);
            v.push((i + j) as u8 + 100);
        }
    }
    v
}

#[test]
fn texel_reads_rgb_of_row_and_column() {
    let t = ImageTexture::new(gradient(4, 3), 4, 3).unwrap();
    assert_eq!(t.texel(0, 0), (0, 0, 100));
    assert_eq!(t.texel(2, 1), (2, 1, 103));
    assert_eq!(t.texel(3, 2), (3, 2, 105));
}

#[test]
fn texel_clamps_to_last_column_and_row() {
    let t = ImageTexture::new(gradient(4, 3), 4, 3).unwrap();
    assert_eq!(t.texel(4, 0), (3, 0, 103));
    assert_eq!(t.texel(100, 100), (3, 2, 105));
    assert_eq!(t.texel(usize::MAX, 1), (3, 1, 104));
}

#[test]
fn single_texel_image() {
    let t = ImageTexture::new(vec![9, 8, 7], 1, 1).unwrap();
    assert_eq!(t.texel(5, 5), (9, 8, 7));
}

#[test]
fn mismatched_or_empty_images_are_refused() {
    assert!(ImageTexture::new(gradient(4, 3), 4, 4).is_none());
    assert!(ImageTexture::new(Vec::new(), 0, 3).is_none());
    assert!(ImageTexture::new(Vec::new(), 3, 0).is_none());
    assert!(ImageTexture::new(vec![1, 2, 3, 4], 1, 1).is_none());
}

#[test]
fn new_keeps_the_data() {
    let t = ImageTexture::new(gradient(2, 2), 2, 2).unwrap();
    assert_eq!((t.nx, t.ny), (2, 2));
    assert_eq!(t.image, gradient(2, 2));
}
