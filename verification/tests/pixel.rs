use lut_mapper::image_io::ExportFormat;
use lut_mapper::pixel::{
    color_image_to_rgba, encode_image, gpu_readback, image_from_rgba_unmultiplied,
    load_image_from_bytes, pixels_from_rgba_bytes, rgba_bytes, PixelImage, Rgba8,
};

fn px(r: u8, g: u8, b: u8, a: u8) -> Rgba8 {
    Rgba8 { r, g, b, a }
}

#[test]
fn decoded_bytes_become_premultiplied_pixels() {
    let bytes = [10, 20, 30, 255, 200, 100, 50, 0, 255, 128, 0, 128];
    let img = image_from_rgba_unmultiplied([3, 1], &bytes);
    assert_eq!(img.size, [3, 1]);
    assert_eq!(img.pixels, vec![px(10, 20, 30, 255), px(0, 0, 0, 0), px(128, 64, 0, 128)]);
}

#[test]
fn premultiply_rounds() {
    // 255 * 1 / 255 = 1; 1 * 1 / 255 rounds to 0; 200 * 100 / 255 = 78.4 -> 78
    let bytes = [255, 1, 200, 1, 200, 0, 0, 100];
    let img = image_from_rgba_unmultiplied([1, 2], &bytes);
    assert_eq!(img.pixels, vec![px(1, 0, 1, 1), px(78, 0, 0, 100)]);
}


#[test]
fn rgba_bytes_in_order() {
    let pixels = vec![px(1, 2, 3, 4), px(5, 6, 7, 8)];
    assert_eq!(rgba_bytes(&pixels), vec![1, 2, 3, 4, 5, 6, 7, 8]);
    assert_eq!(rgba_bytes(&Vec::new()), Vec::<u8>::new());
}

#[test]
fn export_buffer_holds_the_pixels() {
    let img = PixelImage { size: [2, 1], pixels: vec![px(9, 8, 7, 255), px(1, 2, 3, 255)] };
    let bytes = encode_image(&img, ExportFormat::Png).unwrap();
    let back = load_image_from_bytes(&bytes).unwrap();
    assert_eq!(back.size, [2, 1]);
    assert_eq!(back.pixels, img.pixels);
}

#[test]
fn export_buffer_of_empty_image() {
    let img = PixelImage { size: [0, 5], pixels: vec![] };
    let _buffer = color_image_to_rgba(&img);
}

#[test]
fn opaque_bytes_round_trip() {
    let bytes = vec![1, 2, 3, 255, 250, 0, 77, 255, 0, 0, 0, 255, 9, 99, 199, 255];
    let img = image_from_rgba_unmultiplied([2, 2], &bytes);
    assert_eq!(rgba_bytes(&img.pixels), bytes);
}

#[test]
fn export_then_load_keeps_opaque_and_clear_pixels() {
    let pixels = vec![px(5, 6, 7, 255), px(0, 0, 0, 0), px(255, 255, 255, 255)];
    let img = PixelImage { size: [3, 1], pixels: pixels.clone() };
    let bytes = encode_image(&img, ExportFormat::Png).unwrap();
    assert_eq!(load_image_from_bytes(&bytes).unwrap().pixels, pixels);
}

#[test]
fn png_bytes_decode_to_pixels() {
    let mut buf = std::io::Cursor::new(Vec::new());
    let img = image::RgbaImage::from_raw(2, 1, vec![10, 20, 30, 255, 255, 128, 0, 128]).unwrap();
    image::DynamicImage::ImageRgba8(img)
        .write_to(&mut buf, image::ImageFormat::Png)
        .unwrap();
    let loaded = load_image_from_bytes(buf.get_ref()).unwrap();
    assert_eq!(loaded.size, [2, 1]);
    assert_eq!(loaded.pixels, vec![px(10, 20, 30, 255), px(128, 64, 0, 128)]);
}

#[test]
fn garbage_bytes_give_an_error() {
    assert!(load_image_from_bytes(&[1, 2, 3, 4, 5]).is_err());
    assert!(load_image_from_bytes(&[]).is_err());
}

#[test]
fn encoded_png_loads_back() {
    let pixels = vec![px(1, 2, 3, 255), px(0, 0, 0, 0), px(200, 100, 50, 255), px(9, 9, 9, 255)];
    let img = PixelImage { size: [2, 2], pixels: pixels.clone() };
    let bytes = encode_image(&img, ExportFormat::Png).unwrap();
    assert_eq!(&bytes[1..4], b"PNG");
    let back = load_image_from_bytes(&bytes).unwrap();
    assert_eq!(back.size, [2, 2]);
    assert_eq!(back.pixels, pixels);
}

#[test]
fn encoded_tiff_loads_back() {
    let pixels = vec![px(7, 8, 9, 255), px(250, 1, 2, 255)];
    let img = PixelImage { size: [1, 2], pixels: pixels.clone() };
    let bytes = encode_image(&img, ExportFormat::Tiff).unwrap();
    assert_eq!(load_image_from_bytes(&bytes).unwrap().pixels, pixels);
}

#[test]
fn extra_pixels_are_accepted_for_the_buffer() {
    let img = PixelImage { size: [1, 1], pixels: vec![px(1, 2, 3, 4), px(5, 6, 7, 8)] };
    let _buffer = color_image_to_rgba(&img);
}

#[test]
fn bytes_to_pixels() {
    assert_eq!(
        pixels_from_rgba_bytes(&[1, 2, 3, 4, 5, 6, 7, 8]),
        vec![px(1, 2, 3, 4), px(5, 6, 7, 8)]
    );
    assert!(pixels_from_rgba_bytes(&[]).is_empty());
}

#[test]
fn gpu_readback_uses_mapped_bytes_or_original() {
    let original = PixelImage { size: [2, 1], pixels: vec![px(1, 1, 1, 1), px(2, 2, 2, 2)] };
    let out = gpu_readback(&original, Some(&[9, 8, 7, 6, 5, 4, 3, 2]));
    assert_eq!(out.size, [2, 1]);
    assert_eq!(out.pixels, vec![px(9, 8, 7, 6), px(5, 4, 3, 2)]);
    let same = gpu_readback(&original, None);
    assert_eq!(same.size, [2, 1]);
    assert_eq!(same.pixels, original.pixels);
}
