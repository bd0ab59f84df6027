use raytracer::rtw_image::{RTWImage, RtwImageError};
use raytracer::texture::ImageTexture;

fn two_by_two() -> RTWImage<f64> {
    // pixels (x, y): (0,0)=1, (1,0)=2, (0,1)=3, (1,1)=4, channels n, n+0.1, n+0.2
    let mut data = Vec::new();
    for n in [1.0, 2.0, 3.0, 4.0] {
        data.push(n);
        data.push(n + 0.1);
        data.push(n + 0.2);
    }
    RTWImage::new(2, 2, data).unwrap()
}

#[test]
fn empty_image_is_refused() {
    let r: Result<RTWImage<f64>, RtwImageError> = RTWImage::new(0, 0, Vec::new());
    assert_eq!(r.err(), Some(RtwImageError::Empty));
}

#[test]
fn empty_width_is_refused() {
    let r: Result<RTWImage<f64>, RtwImageError> = RTWImage::new(0, 7, Vec::new());
    assert_eq!(r.err(), Some(RtwImageError::Empty));
}

#[test]
fn size_is_kept() {
    let img = two_by_two();
    assert_eq!(img.width(), 2);
    assert_eq!(img.height(), 2);
}

#[test]
fn pixel_data_reads_row_by_row() {
    let img = two_by_two();
    assert_eq!(img.pixel_data(0, 0), (1.0, 1.1, 1.2));
    assert_eq!(img.pixel_data(1, 0), (2.0, 2.1, 2.2));
    assert_eq!(img.pixel_data(0, 1), (3.0, 3.1, 3.2));
    assert_eq!(img.pixel_data(1, 1), (4.0, 4.1, 4.2));
}

#[test]
fn pixel_data_clamps_to_last_column_and_row() {
    let img = two_by_two();
    assert_eq!(img.pixel_data(9, 0), (2.0, 2.1, 2.2));
    assert_eq!(img.pixel_data(0, 9), (3.0, 3.1, 3.2));
    assert_eq!(img.pixel_data(usize::MAX, usize::MAX), (4.0, 4.1, 4.2));
}

#[test]
fn wide_image_indexing() {
    let data: Vec<u8> = (0..18u8).collect();
    let img = RTWImage::new(3, 2, data).unwrap();
    assert_eq!(img.pixel_data(2, 0), (6, 7, 8));
    assert_eq!(img.pixel_data(1, 1), (12, 13, 14));
}

#[test]
fn default_image_is_empty() {
    let img: RTWImage<f64> = RTWImage::default();
    assert_eq!(img.width(), 0);
    assert_eq!(img.height(), 0);
}

#[test]
fn load_keeps_size_even_when_refused() {
    let mut img: RTWImage<f64> = RTWImage::default();
    assert_eq!(img.load(0, 4, Vec::new()), Err(RtwImageError::Empty));
    assert_eq!(img.height(), 4);
    assert_eq!(img.load(1, 1, vec![0.5, 0.25, 0.0]), Ok(()));
    assert_eq!(img.pixel_data(0, 0), (0.5, 0.25, 0.0));
}

#[test]
fn image_texture_reads_clamped_texels() {
    let data: Vec<u8> = (0..12u8).collect();
    let tex = ImageTexture::new(2, 2, data).unwrap();
    assert_eq!(tex.texel(0, 0), Some((0, 1, 2)));
    assert_eq!(tex.texel(1, 1), Some((9, 10, 11)));
    assert_eq!(tex.texel(5, 0), Some((3, 4, 5)));
    assert_eq!(tex.image().width(), 2);
}

#[test]
fn image_texture_refuses_empty_image() {
    let r: Result<ImageTexture<u8>, RtwImageError> = ImageTexture::new(3, 0, Vec::new());
    assert!(r.is_err());
}
