//! The compute path behind the adapter's fetch: container bytes in,
//! statistics or a recolored PNG out.  The adapter downloads bytes and
//! uploads results; everything between is verified against the decode
//! and encode names of [`crate::image_data`].

use vstd::prelude::*;
use crate::brightness::{BrightnessStats, analyze, spec_brightness};
use crate::codec::{Background, RecolorOptions};
use crate::image_data::{DecodedImage, DecodeFailure, decoded_image_of, png_bytes_of, load_image, save_png};
use crate::palette::{apply, spec_effective_bg, transform_pixels};
use crate::cache::CacheEntry;

verus! {

/// Why processing an attachment's bytes failed.
#[derive(Clone, Copy, PartialEq, Eq, Structural, Debug)]
pub enum ProcessError {
    /// The bytes hold no supported image container or pixel layout.
    Unreadable,
    /// The recolored buffer could not be written as a PNG container.
    Unwritable,
}

/// Decode fetched bytes and measure their brightness: the cache entry
/// for an attachment URL.  Fails exactly when the bytes decode to no
/// supported image; a returned entry is always well-formed.
pub fn measure_bytes(bytes: &Vec<u8>) -> (r: Result<CacheEntry, DecodeFailure>)
    ensures
        decoded_image_of(bytes@) is None ==> r matches Err(_),
        decoded_image_of(bytes@) matches Some(img) ==> (r matches Ok(e)
            && e@.width == img.width
            && e@.height == img.height
            && e@.pixels == img.pixels@
            && e@.pixels.len() == 4 * e@.width * e@.height
            && e@.average == spec_brightness(img.pixels@)),
{
    let image = match load_image(bytes) {
        Ok(image) => image,
        Err(e) => {
            return Err(e);
        },
    };
    let stats = analyze(&image);
    Ok(CacheEntry { image, stats })
}

/// Recolor a decoded image and write it as PNG bytes.  The pixel
/// transform is pinned exactly, and any image with at least one pixel is
/// delivered; only a zero-sized image fails, with `Unwritable`.
pub fn render_png(img: &DecodedImage, options: &RecolorOptions, stats: &BrightnessStats) -> (r:
    Result<Vec<u8>, ProcessError>)
    requires
        img.wf(),
        options.background != Background::Ask,
    ensures
        ({
            let out = transform_pixels(img.pixels@, spec_effective_bg(*options, *stats));
            match r {
                Ok(bytes) => bytes@ == png_bytes_of(img.width, img.height, out),
                Err(e) => e == ProcessError::Unwritable,
            }
        }),
        img.width >= 1 && img.height >= 1 ==> r is Ok,
{
    let dark = apply(img, options, stats);
    match save_png(&dark) {
        Some(bytes) => Ok(bytes),
        None => Err(ProcessError::Unwritable),
    }
}

/// The whole compute path of an apply press: decode the fetched bytes,
/// measure them, recolor against the palette, and write a PNG.  Bytes
/// that decode to an image with at least one pixel are always delivered.
pub fn process_bytes(bytes: &Vec<u8>, options: &RecolorOptions) -> (r: Result<
    Vec<u8>,
    ProcessError,
>)
    requires
        options.background != Background::Ask,
    ensures
        decoded_image_of(bytes@) is None ==> r == Err::<Vec<u8>, ProcessError>(
            ProcessError::Unreadable,
        ),
        decoded_image_of(bytes@) matches Some(img) ==> ({
            let stats = BrightnessStats { average: spec_brightness(img.pixels@) as u32 };
            let out = transform_pixels(img.pixels@, spec_effective_bg(*options, stats));
            match r {
                Ok(b) => b@ == png_bytes_of(img.width, img.height, out),
                Err(e) => e == ProcessError::Unwritable,
            }
        }),
        decoded_image_of(bytes@) matches Some(img) && img.width >= 1 && img.height >= 1
            ==> r is Ok,
{
    let image = match load_image(bytes) {
        Ok(image) => image,
        Err(_) => {
            return Err(ProcessError::Unreadable);
        },
    };
    let stats = analyze(&image);
    render_png(&image, options, &stats)
}

} // verus!
