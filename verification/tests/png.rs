use waterfall::{ColorRgb, ImageBuffer, RenderError};

const SIGNATURE: [u8; 8] = [137, 80, 78, 71, 13, 10, 26, 10];

fn sample() -> ImageBuffer<ColorRgb> {
    let mut img = ImageBuffer::new(3, 2);
    img.set_pixel(0, 0, ColorRgb { r: 1, g: 2, b: 3 });
    img.set_pixel(1, 0, ColorRgb { r: 40, g: 50, b: 60 });
    img.set_pixel(2, 0, ColorRgb { r: 255, g: 0, b: 0 });
    img.set_pixel(0, 1, ColorRgb { r: 0, g: 255, b: 0 });
    img.set_pixel(2, 1, ColorRgb { r: 0, g: 0, b: 255 });
    img
}

#[test]
fn encode_gives_a_png_file() {
    let png = sample().encode().unwrap();
    assert_eq!(&png[..8], &SIGNATURE[..]);
    assert_ne!(png, sample().rgb_bytes());
    // the header chunk follows the signature and holds width and height
    assert_eq!(&png[12..16], &b"IHDR"[..]);
    assert_eq!(&png[16..20], &[0, 0, 0, 3][..]);
    assert_eq!(&png[20..24], &[0, 0, 0, 2][..]);
}

#[test]
fn encoded_png_decodes_to_the_pixels() {
    let img = sample();
    let png = img.encode().unwrap();
    let decoded = lodepng::decode24(&png).unwrap();
    assert_eq!((decoded.width, decoded.height), (3, 2));
    let mut bytes = Vec::new();
    for p in &decoded.buffer {
        bytes.push(p.r);
        bytes.push(p.g);
        bytes.push(p.b);
    }
    assert_eq!(bytes, img.rgb_bytes());
}

#[test]
fn encoding_is_repeatable() {
    assert_eq!(sample().encode().unwrap(), sample().encode().unwrap());
}

#[test]
fn empty_buffer_is_a_codec_failure() {
    assert_eq!(ImageBuffer::new(0, 0).encode(), Err(RenderError::CodecFailure));
    assert_eq!(ImageBuffer::new(0, 5).encode(), Err(RenderError::CodecFailure));
    assert_eq!(ImageBuffer::new(5, 0).encode(), Err(RenderError::CodecFailure));
}

#[test]
fn codec_result_keeps_bytes_and_maps_errors() {
    let bytes = vec![1u8, 2, 3];
    assert_eq!(waterfall::png::codec_result(Ok(bytes.clone())), Ok(bytes));
    let refused = lodepng::decode24(&[0u8; 4]).err().unwrap();
    assert_eq!(waterfall::png::codec_result(Err(refused)), Err(RenderError::CodecFailure));
}

#[test]
fn small_images_fit_the_encoder() {
    assert!(waterfall::png::fits_encoder(1, 1));
    assert!(waterfall::png::fits_encoder(3, 2));
    assert!(waterfall::png::fits_encoder(2416, 300));
    assert!(waterfall::png::fits_encoder(0, 0));
    assert!(waterfall::png::fits_encoder(usize::MAX, 0));
}

#[test]
fn encoder_limit_is_on_the_scanline_bytes() {
    let limit = waterfall::png::ENCODER_LIMIT;
    assert_eq!(limit, 1 << 30);
    // one row: 3 * width + 1 bytes
    assert!(waterfall::png::fits_encoder((limit - 1) / 3, 1));
    assert!(!waterfall::png::fits_encoder((limit - 1) / 3 + 1, 1));
    // no width: one filter byte per row
    assert!(waterfall::png::fits_encoder(0, limit));
    assert!(!waterfall::png::fits_encoder(0, limit + 1));
    // 16384 rows of 65536 bytes are the limit exactly
    assert!(waterfall::png::fits_encoder(21845, 16384));
    assert!(!waterfall::png::fits_encoder(21845, 16385));
    assert!(!waterfall::png::fits_encoder(27000, 27000));
    assert!(!waterfall::png::fits_encoder(usize::MAX, 1));
    assert!(!waterfall::png::fits_encoder(1, usize::MAX));
    assert!(!waterfall::png::fits_encoder(usize::MAX, usize::MAX));
}

#[test]
fn image_that_fits_is_encoded() {
    let img = ImageBuffer::new(64, 48);
    assert!(waterfall::png::fits_encoder(img.width(), img.height()));
    let png = img.encode().unwrap();
    let decoded = lodepng::decode24(&png).unwrap();
    assert_eq!((decoded.width, decoded.height), (64, 48));
    assert!(decoded.buffer.iter().all(|p| (p.r, p.g, p.b) == (0, 0, 0)));
}
