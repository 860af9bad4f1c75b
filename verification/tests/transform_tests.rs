use darken::image_data::DecodedImage;
use darken::brightness::{analyze, BrightnessStats};
use darken::palette::{apply, nearest_color, palette_color_exec, effective_bg, PALETTE_LEN};
use darken::codec::{Background, RecolorOptions};
use darken::color::RgbColor;

fn image_of(width: u32, height: u32, pixels: Vec<u8>) -> DecodedImage {
    DecodedImage::new(width, height, pixels).unwrap()
}

fn opts(apply_flag: bool, auto_adjust: bool, background: Background) -> RecolorOptions {
    RecolorOptions { apply: apply_flag, auto_adjust, background }
}

#[test]
fn brightness_of_white_is_full_scale() {
    let img = image_of(1, 1, vec![255, 255, 255, 255]);
    assert_eq!(analyze(&img).average, 10000);
}

#[test]
fn brightness_of_black_is_zero() {
    let img = image_of(2, 1, vec![0, 0, 0, 255, 0, 0, 0, 0]);
    assert_eq!(analyze(&img).average, 0);
}

#[test]
fn brightness_of_pure_red_matches_luma_weight() {
    let img = image_of(1, 1, vec![255, 0, 0, 255]);
    assert_eq!(analyze(&img).average, 2990);
}

#[test]
fn brightness_of_empty_image_is_zero() {
    let img = image_of(0, 0, vec![]);
    assert_eq!(analyze(&img).average, 0);
}

#[test]
fn brightness_averages_over_pixels() {
    let img = image_of(2, 1, vec![255, 255, 255, 255, 0, 0, 0, 255]);
    assert_eq!(analyze(&img).average, 5000);
}

#[test]
fn nearest_to_palette_entry_is_itself() {
    for i in 0..PALETTE_LEN {
        let c = palette_color_exec(i);
        assert_eq!(nearest_color(c), c);
    }
}

#[test]
fn nearest_to_white_is_brightest_snow_tone() {
    let white = RgbColor { red: 255, green: 255, blue: 255 };
    assert_eq!(nearest_color(white), RgbColor { red: 236, green: 239, blue: 244 });
}

#[test]
fn quantizes_without_background() {
    let img = image_of(1, 1, vec![250, 250, 250, 200]);
    let stats = analyze(&img);
    let out = apply(&img, &opts(true, false, Background::Unset), &stats);
    assert_eq!(out.width, 1);
    assert_eq!(out.height, 1);
    assert_eq!(out.pixels, vec![236, 239, 244, 200]);
}

#[test]
fn transparent_image_over_white_quantizes_to_nearest_white() {
    let img = image_of(2, 2, vec![0; 16]);
    let stats = analyze(&img);
    let white = RgbColor { red: 255, green: 255, blue: 255 };
    let out = apply(&img, &opts(true, false, Background::Color(white)), &stats);
    for px in 0..4 {
        assert_eq!(&out.pixels[4 * px..4 * px + 4], &[236, 239, 244, 255]);
    }
}

#[test]
fn transparent_image_over_dark_gray_quantizes_to_darkest_tone() {
    let img = image_of(1, 1, vec![0, 0, 0, 0]);
    let stats = analyze(&img);
    let gray = RgbColor { red: 0x20, green: 0x20, blue: 0x20 };
    let out = apply(&img, &opts(true, false, Background::Color(gray)), &stats);
    assert_eq!(out.pixels, vec![46, 52, 64, 255]);
}

#[test]
fn transform_is_deterministic() {
    let pixels: Vec<u8> = (0u16..64).map(|i| (i * 4 % 256) as u8).collect();
    let img = image_of(4, 4, pixels);
    let stats = analyze(&img);
    let o = opts(true, false, Background::Color(RgbColor { red: 10, green: 200, blue: 30 }));
    let a = apply(&img, &o, &stats);
    let b = apply(&img, &o, &stats);
    assert_eq!(a.pixels, b.pixels);
    assert_eq!((a.width, a.height), (b.width, b.height));
}

#[test]
fn auto_adjust_overrides_background_for_bright_images() {
    let bright = BrightnessStats { average: 9000 };
    let dark = BrightnessStats { average: 1000 };
    let o = opts(true, true, Background::Color(RgbColor { red: 255, green: 0, blue: 0 }));
    assert_eq!(effective_bg(&o, &bright), Some(palette_color_exec(0)));
    assert_eq!(effective_bg(&o, &dark), None);
}

#[test]
fn literal_background_is_used_without_auto_adjust() {
    let stats = BrightnessStats { average: 9000 };
    let c = RgbColor { red: 1, green: 2, blue: 3 };
    let o = opts(true, false, Background::Color(c));
    assert_eq!(effective_bg(&o, &stats), Some(c));
    let o2 = opts(true, false, Background::Unset);
    assert_eq!(effective_bg(&o2, &stats), None);
}

#[test]
fn composite_weighs_alpha() {
    let img = image_of(1, 1, vec![255, 255, 255, 128]);
    let stats = analyze(&img);
    let black = RgbColor { red: 0, green: 0, blue: 0 };
    let out = apply(&img, &opts(true, false, Background::Color(black)), &stats);
    assert_eq!(out.pixels, vec![94, 129, 172, 255]);
}
