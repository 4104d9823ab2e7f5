use std::io::Read;

use svg2tex_rs::{PdfConverter, TexEngine, TexFormat};

fn inflate(data: &[u8]) -> Vec<u8> {
    let mut out = Vec::new();
    flate2::read::ZlibDecoder::new(data).read_to_end(&mut out).unwrap();
    out
}

#[test]
fn opaque_pixels_give_an_rgb_image_without_mask() {
    let mut c = PdfConverter::new(true, TexEngine::PdfTeX, TexFormat::Standalone);
    let rgba = [10, 20, 30, 255, 40, 50, 60, 255];
    let img = c.image_resource_from_rgba(2, 1, &rgba).unwrap();
    assert_eq!(img.width, 2);
    assert_eq!(img.height, 1);
    assert_eq!(img.color_space, "DeviceRGB");
    assert_eq!(img.bits_per_component, 8);
    assert_eq!(img.filter, "FlateDecode");
    assert_eq!(inflate(&img.data), vec![10, 20, 30, 40, 50, 60]);
    assert!(img.smask.is_none());
    assert_eq!(c.resources.next_id(), 1);
}

#[test]
fn transparent_pixels_add_a_numbered_alpha_mask() {
    let mut c = PdfConverter::new(true, TexEngine::PdfTeX, TexFormat::Standalone);
    c.resources.get_next_id();
    let rgba = [1, 2, 3, 255, 4, 5, 6, 128, 9];
    let img = c.image_resource_from_rgba(2, 1, &rgba).unwrap();
    assert_eq!(inflate(&img.data), vec![1, 2, 3, 4, 5, 6]);
    let mask = img.smask.unwrap();
    assert_eq!(mask.name, "SMask2");
    assert_eq!(mask.width, 2);
    assert_eq!(mask.height, 1);
    assert_eq!(mask.bits_per_component, 8);
    assert_eq!(mask.filter, "FlateDecode");
    assert_eq!(inflate(&mask.data), vec![255, 128]);
    assert_eq!(c.resources.next_id(), 3);
}

#[test]
fn undecodable_bytes_give_no_image() {
    let mut c = PdfConverter::new(true, TexEngine::PdfTeX, TexFormat::Standalone);
    assert!(c.decode_image_bytes(b"not an image").is_none());
    assert_eq!(c.resources.next_id(), 1);
}

#[test]
fn hex_streams_use_uppercase_pairs() {
    assert_eq!(PdfConverter::hex_stream(&[0x00, 0x7f, 0xab, 0xff]), "007FABFF");
    assert_eq!(PdfConverter::ascii_hex_stream(&[0x0a]), "0A>");
    assert_eq!(PdfConverter::ascii_hex_stream(&[]), ">");
}

#[test]
fn encoded_png_is_decoded_into_its_samples() {
    let rgba = image::RgbaImage::from_raw(2, 1, vec![255, 0, 0, 255, 0, 0, 255, 64]).unwrap();
    let mut png = std::io::Cursor::new(Vec::new());
    rgba.write_to(&mut png, image::ImageFormat::Png).unwrap();
    let mut c = PdfConverter::new(true, TexEngine::PdfTeX, TexFormat::Standalone);
    let img = c.decode_image_bytes(png.get_ref()).unwrap();
    assert_eq!((img.width, img.height), (2, 1));
    assert_eq!(inflate(&img.data), vec![255, 0, 0, 0, 0, 255]);
    let mask = img.smask.unwrap();
    assert_eq!(mask.name, "SMask1");
    assert_eq!(inflate(&mask.data), vec![255, 64]);
}
