//! The in-memory pixel model and the two trusted crossings into the
//! `image` crate: container bytes in, container bytes out.  Everything
//! between those crossings works on [`DecodedImage`] and is verified.

use vstd::prelude::*;
use std::io::Cursor;

verus! {

/// A fully decoded image: RGBA, one byte per channel, row-major.
pub struct DecodedImage {
    pub width: u32,
    pub height: u32,
    pub pixels: Vec<u8>,
}

/// Error for bytes that no supported image container or pixel layout
/// explains.
#[derive(Clone, Copy, PartialEq, Eq, Structural, Debug)]
pub struct DecodeFailure;

impl DecodedImage {
    /// The pixel buffer holds exactly four bytes per pixel.
    pub open spec fn wf(&self) -> bool {
        self.pixels@.len() == 4 * self.width * self.height
    }

    /// Build an image from its parts, rejecting a buffer whose size does
    /// not match the dimensions.
    pub fn new(width: u32, height: u32, pixels: Vec<u8>) -> (r: Result<DecodedImage, DecodeFailure>)
        ensures
            pixels@.len() == 4 * width * height ==> (r matches Ok(img)
                && img.width == width && img.height == height && img.pixels@ == pixels@
                && img.wf()),
            pixels@.len() != 4 * width * height ==> r matches Err(_),
    {
        proof {
            let w = width as int;
            let h = height as int;
            assert(w * h <= 0xffff_ffffu64 * 0xffff_ffffu64 && (4 * w) * h == 4 * (w * h))
                by (nonlinear_arith)
                requires w <= u32::MAX && h <= u32::MAX && 0 <= w && 0 <= h;
        }
        let wh = (width as u128) * (height as u128);
        let expect = 4 * wh;
        if pixels.len() as u128 == expect {
            Ok(DecodedImage { width, height, pixels })
        } else {
            Err(DecodeFailure)
        }
    }

    /// Copy the image; cache lookups hand entries out by value so no
    /// caller ever holds the cache's lock while it works.
    pub fn duplicate(&self) -> (r: DecodedImage)
        ensures
            r.width == self.width,
            r.height == self.height,
            r.pixels@ == self.pixels@,
    {
        let mut pixels: Vec<u8> = Vec::new();
        let mut i: usize = 0;
        let n = self.pixels.len();
        while i < n
            invariant
                i <= n == self.pixels@.len(),
                pixels@ =~= self.pixels@.take(i as int),
            decreases n - i,
        {
            pixels.push(self.pixels[i]);
            i += 1;
        }
        proof {
            assert(self.pixels@.take(n as int) =~= self.pixels@);
        }
        DecodedImage { width: self.width, height: self.height, pixels }
    }
}

/// The image, if any, that the `image` crate decodes from these container
/// bytes, laid out as RGBA.  A pure function of the bytes.
pub uninterp spec fn decoded_image_of(bytes: Seq<u8>) -> Option<DecodedImage>;

/// The PNG container bytes the `image` crate writes for this RGBA buffer.
/// A pure function of the dimensions and the pixels.
pub uninterp spec fn png_bytes_of(width: u32, height: u32, pixels: Seq<u8>) -> Seq<u8>;

/// Relies on `image::load_from_memory` to decode a container from bytes
/// and on `DynamicImage::to_rgba8` to lay the result out as RGBA; both
/// depend on the bytes alone.  An `ImageBuffer` always holds exactly
/// `width * height` pixels of four bytes each, which is the well-formed
/// shape claimed of the result.
#[verifier::external_body]
fn decode_image_bytes(bytes: &Vec<u8>) -> (r: Option<DecodedImage>)
    ensures
        r == decoded_image_of(bytes@),
        r matches Some(img) ==> img.wf(),
{
    match image::load_from_memory(bytes.as_slice()) {
        Ok(img) => {
            let rgba = img.to_rgba8();
            let (width, height) = (rgba.width(), rgba.height());
            Some(DecodedImage { width, height, pixels: rgba.into_raw() })
        },
        Err(_) => None,
    }
}

/// Relies on `image::RgbaImage::from_raw` to rebuild a pixel buffer and
/// `DynamicImage::write_to` to encode it as PNG; the written bytes depend
/// on the dimensions and pixels alone.  The buffer must hold exactly four
/// bytes per pixel: `from_raw` also accepts a longer buffer, and the PNG
/// encoder then panics on the length mismatch.  For an exact buffer the
/// encoder fails only on a zero width or height — writing into a `Vec`
/// cannot fail — so encoding a nonempty image always succeeds.
#[verifier::external_body]
fn encode_png_bytes(img: &DecodedImage) -> (r: Option<Vec<u8>>)
    requires
        img.wf(),
    ensures
        r matches Some(bytes) ==> bytes@ == png_bytes_of(img.width, img.height, img.pixels@),
        img.width >= 1 && img.height >= 1 ==> r is Some,
{
    let buf = image::RgbaImage::from_raw(img.width, img.height, img.pixels.clone())?;
    let mut out: Vec<u8> = Vec::new();
    image::DynamicImage::ImageRgba8(buf)
        .write_to(&mut Cursor::new(&mut out), image::ImageFormat::Png)
        .ok()?;
    Some(out)
}

/// Decode container bytes into the library's pixel model.  Succeeds
/// exactly when the `image` crate finds a supported container in the
/// bytes; anything else is a `DecodeFailure`.
pub fn load_image(bytes: &Vec<u8>) -> (r: Result<DecodedImage, DecodeFailure>)
    ensures
        decoded_image_of(bytes@) matches Some(img) ==> (r matches Ok(out)
            && out.width == img.width && out.height == img.height
            && out.pixels@ == img.pixels@ && out.wf()),
        decoded_image_of(bytes@) is None ==> r matches Err(_),
{
    match decode_image_bytes(bytes) {
        Some(img) => Ok(img),
        None => Err(DecodeFailure),
    }
}

/// Encode an image as PNG container bytes.  Succeeds for every
/// well-formed image with at least one pixel; only a zero-sized image
/// has no PNG form.
pub fn save_png(img: &DecodedImage) -> (r: Option<Vec<u8>>)
    requires
        img.wf(),
    ensures
        r matches Some(bytes) ==> bytes@ == png_bytes_of(img.width, img.height, img.pixels@),
        img.width >= 1 && img.height >= 1 ==> r is Some,
{
    encode_png_bytes(img)
}

} // verus!
