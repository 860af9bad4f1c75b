use std::io::Cursor;
use darken::pipeline::{measure_bytes, process_bytes, render_png, ProcessError};
use darken::image_data::DecodedImage;
use darken::brightness::analyze;
use darken::codec::{Background, RecolorOptions};
use darken::color::RgbColor;

fn png_of(width: u32, height: u32, pixels: Vec<u8>) -> Vec<u8> {
    let buf = image::RgbaImage::from_raw(width, height, pixels).unwrap();
    let mut out = Vec::new();
    image::DynamicImage::ImageRgba8(buf)
        .write_to(&mut Cursor::new(&mut out), image::ImageFormat::Png)
        .unwrap();
    out
}

fn no_background() -> RecolorOptions {
    RecolorOptions { apply: true, auto_adjust: false, background: Background::Unset }
}

#[test]
fn measures_decoded_png() {
    let bytes = png_of(2, 1, vec![255, 255, 255, 255, 0, 0, 0, 255]);
    let entry = measure_bytes(&bytes).unwrap();
    assert_eq!((entry.image.width, entry.image.height), (2, 1));
    assert_eq!(entry.image.pixels, vec![255, 255, 255, 255, 0, 0, 0, 255]);
    assert_eq!(entry.stats.average, 5000);
}

#[test]
fn rejects_bytes_that_are_no_image() {
    assert!(measure_bytes(&vec![1, 2, 3, 4, 5]).is_err());
    assert!(measure_bytes(&Vec::new()).is_err());
    assert_eq!(process_bytes(&vec![0; 64], &no_background()), Err(ProcessError::Unreadable));
}

#[test]
fn processed_output_keeps_dimensions() {
    let bytes = png_of(3, 2, vec![200; 24]);
    let out = process_bytes(&bytes, &no_background()).unwrap();
    let decoded = image::load_from_memory(&out).unwrap().to_rgba8();
    assert_eq!((decoded.width(), decoded.height()), (3, 2));
}

#[test]
fn processed_pixels_come_from_the_palette() {
    let bytes = png_of(1, 1, vec![250, 250, 250, 255]);
    let out = process_bytes(&bytes, &no_background()).unwrap();
    let decoded = image::load_from_memory(&out).unwrap().to_rgba8();
    assert_eq!(decoded.into_raw(), vec![236, 239, 244, 255]);
}

#[test]
fn render_composites_background_before_quantizing() {
    let img = DecodedImage::new(1, 1, vec![0, 0, 0, 0]).unwrap();
    let stats = analyze(&img);
    let o = RecolorOptions {
        apply: true,
        auto_adjust: false,
        background: Background::Color(RgbColor { red: 0x20, green: 0x20, blue: 0x20 }),
    };
    let out = render_png(&img, &o, &stats).unwrap();
    let decoded = image::load_from_memory(&out).unwrap().to_rgba8();
    assert_eq!(decoded.into_raw(), vec![46, 52, 64, 255]);
}

#[test]
fn rejects_buffer_of_wrong_size() {
    assert!(DecodedImage::new(2, 2, vec![0; 15]).is_err());
    assert!(DecodedImage::new(2, 2, vec![0; 16]).is_ok());
}

#[test]
fn zero_sized_image_cannot_be_written() {
    let img = DecodedImage::new(0, 0, Vec::new()).unwrap();
    let stats = analyze(&img);
    assert!(render_png(&img, &no_background(), &stats).is_err());
}
