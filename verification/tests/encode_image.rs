use vuoom::capture::CapturedFrame;
use vuoom::encode::error::EncodeError;
use vuoom::encode::image::{encode_png_to_vec, read_png, swizzle_rb, RgbaImage};
use vuoom::session::screenshot::{data_url, frame_url};

#[test]
fn valid_buffer_check() {
    assert!(RgbaImage::new(2, 2, vec![0u8; 16]).is_valid());
    assert!(!RgbaImage::new(2, 2, vec![0u8; 15]).is_valid());
}

#[test]
fn writes_valid_png_signature() {
    let img = RgbaImage::new(2, 2, vec![255u8; 16]);
    let bytes = encode_png_to_vec(&img).unwrap();
    assert_eq!(&bytes[0..8], &[0x89, 0x50, 0x4E, 0x47, 0x0D, 0x0A, 0x1A, 0x0A]);
}

#[test]
fn wrong_size_buffer_errors() {
    let img = RgbaImage::new(2, 2, vec![0u8; 10]);
    let r = encode_png_to_vec(&img);
    assert!(matches!(r, Err(EncodeError::Png(_))));
    assert_eq!(r.unwrap_err().message(), "png encoding failed: pixel buffer 10 != 2x2x4");
}

#[test]
fn png_round_trips_rgba() {
    let img = RgbaImage::new(2, 1, vec![1, 2, 3, 255, 4, 5, 6, 255]);
    let back = read_png(&encode_png_to_vec(&img).unwrap()).unwrap();
    assert_eq!((back.width, back.height), (2, 1));
    assert_eq!(back.pixels, img.pixels);
}

#[test]
fn swizzle_is_its_own_inverse() {
    let bgra = vec![10, 20, 30, 255];
    let rgba = swizzle_rb(&bgra);
    assert_eq!(rgba, vec![30, 20, 10, 255]);
    assert_eq!(swizzle_rb(&rgba), bgra);
}

#[test]
fn a_partial_pixel_is_left_alone() {
    assert_eq!(swizzle_rb(&[1, 2, 3, 4, 5, 6]), vec![3, 2, 1, 4, 5, 6]);
}

#[test]
fn an_image_without_pixels_is_no_png() {
    let r = encode_png_to_vec(&RgbaImage::new(0, 4, Vec::new()));
    assert!(matches!(r, Err(EncodeError::Png(_))));
}

#[test]
fn what_is_no_png_is_not_read() {
    let own = match png::Decoder::new(std::io::Cursor::new(vec![1u8, 2, 3])).read_info() {
        Ok(_) => panic!("three bytes are no picture"),
        Err(e) => e.to_string(),
    };
    assert!(matches!(read_png(&vec![1, 2, 3]), Err(EncodeError::Png(m)) if m == own));
}

#[test]
fn rgb_files_become_rgba_and_grey_ones_are_refused() {
    let mut grey = Vec::new();
    {
        let mut enc = png::Encoder::new(&mut grey, 2, 1);
        enc.set_color(png::ColorType::Grayscale);
        enc.set_depth(png::BitDepth::Eight);
        enc.write_header().unwrap().write_image_data(&[7, 9]).unwrap();
    }
    let refused = read_png(&grey).unwrap_err();
    assert!(refused.message().contains("unsupported PNG color type"));
    let mut rgb = Vec::new();
    {
        let mut enc = png::Encoder::new(&mut rgb, 1, 1);
        enc.set_color(png::ColorType::Rgb);
        enc.set_depth(png::BitDepth::Eight);
        enc.write_header().unwrap().write_image_data(&[1, 2, 3]).unwrap();
    }
    assert_eq!(read_png(&rgb).unwrap().pixels, vec![1, 2, 3, 255]);
}

#[test]
fn data_urls_hold_the_file_in_base64() {
    assert_eq!(data_url(&b"Man".to_vec()), "data:image/png;base64,TWFu");
    assert_eq!(data_url(&b"Ma".to_vec()), "data:image/png;base64,TWE=");
    assert_eq!(data_url(&b"M".to_vec()), "data:image/png;base64,TQ==");
    assert_eq!(data_url(&vec![0xfb, 0xff, 0xfe]), "data:image/png;base64,+//+");
    assert_eq!(data_url(&Vec::new()), "data:image/png;base64,");
}

#[test]
fn a_screenshot_is_the_url_of_its_png() {
    let frame = CapturedFrame { width: 1, height: 1, bgra: vec![1, 2, 3, 255], qpc: 0 };
    let png = encode_png_to_vec(&RgbaImage::new(1, 1, vec![3, 2, 1, 255])).unwrap();
    assert_eq!(frame_url(&frame).unwrap(), data_url(&png));
    let bad = CapturedFrame { width: 2, height: 1, bgra: vec![1, 2, 3, 255], qpc: 0 };
    assert!(matches!(frame_url(&bad), Err(EncodeError::Png(_))));
}
