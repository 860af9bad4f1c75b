//! Perceived brightness of a decoded image: the mean of an integer luma
//! over all pixels, scaled so that `0` is black and `10000` is white.
//! Deterministic and side-effect-free; any well-formed buffer is
//! analyzable.

use vstd::prelude::*;
use vstd::arithmetic::mul::lemma_mul_inequality;
use vstd::arithmetic::div_mod::{lemma_div_is_ordered, lemma_div_multiples_vanish};
use crate::image_data::DecodedImage;

verus! {

/// Brightness is reported on a scale of `0..=10000`.
pub const BRIGHTNESS_SCALE: u32 = 10000;

/// Brightness statistics of one decoded image.  Immutable once computed.
#[derive(Clone, Copy, PartialEq, Eq, Structural, Debug)]
pub struct BrightnessStats {
    pub average: u32,
}

impl BrightnessStats {
    /// The average always lies on the scale.
    pub open spec fn wf(&self) -> bool {
        self.average <= BRIGHTNESS_SCALE
    }
}

/// Integer luma of one pixel, in thousandths of a channel unit:
/// `0..=255000`.  The usual perceptual weights for red, green and blue.
pub open spec fn luma_millis(r: u8, g: u8, b: u8) -> int {
    299 * r + 587 * g + 114 * b
}

/// Sum of the luma of the first `k` pixels of an RGBA buffer.
pub open spec fn luma_sum(p: Seq<u8>, k: int) -> int
    decreases k,
{
    if k <= 0 {
        0
    } else {
        luma_sum(p, k - 1) + luma_millis(p[4 * (k - 1)], p[4 * (k - 1) + 1], p[4 * (k - 1) + 2])
    }
}

/// Mean brightness of a buffer of `n` pixels on the `0..=10000` scale;
/// an empty image counts as fully dark.
pub open spec fn spec_brightness(p: Seq<u8>) -> int {
    let n = p.len() as int / 4;
    if n == 0 {
        0
    } else {
        luma_sum(p, n) * 10000 / (255000 * n)
    }
}

proof fn lemma_luma_sum_bound(p: Seq<u8>, k: int)
    requires
        0 <= k,
        4 * k <= p.len(),
    ensures
        0 <= luma_sum(p, k) <= 255000 * k,
    decreases k,
{
    if k > 0 {
        lemma_luma_sum_bound(p, k - 1);
    }
}

/// Compute the brightness statistics of an image.  The result is a pure
/// function of the pixel buffer, so two runs over the same buffer agree
/// bit for bit.
pub fn analyze(img: &DecodedImage) -> (r: BrightnessStats)
    requires
        img.wf(),
    ensures
        r.average as int == spec_brightness(img.pixels@),
        r.wf(),
{
    let ghost p = img.pixels@;
    let len = img.pixels.len();
    let n = len / 4;
    proof {
        let w = img.width as int;
        let h = img.height as int;
        let m = w * h;
        assert((4 * w) * h == 4 * m) by (nonlinear_arith)
            requires m == w * h;
        assert(p.len() == 4 * m);
        lemma_div_multiples_vanish(m, 4);
        assert(len as int / 4 == m);
    }
    assert(len == 4 * n);
    assert(n == p.len() as int / 4);
    if n == 0 {
        return BrightnessStats { average: 0 };
    }
    let mut sum: u128 = 0;
    let mut i: usize = 0;
    while i < n
        invariant
            i <= n,
            len == 4 * n,
            len == p.len(),
            p == img.pixels@,
            sum as int == luma_sum(p, i as int),
            sum <= 255000 * (i as u128),
        decreases n - i,
    {
        let r = img.pixels[4 * i];
        let g = img.pixels[4 * i + 1];
        let b = img.pixels[4 * i + 2];
        let l: u128 = 299 * (r as u128) + 587 * (g as u128) + 114 * (b as u128);
        sum = sum + l;
        i += 1;
    }
    proof {
        lemma_luma_sum_bound(p, n as int);
    }
    let denom: u128 = 255000 * (n as u128);
    let q: u128 = sum * 10000 / denom;
    proof {
        let s = sum as int;
        let d = 255000 * (n as int);
        lemma_mul_inequality(s, d, 10000);
        lemma_div_is_ordered(s * 10000, d * 10000, d);
        lemma_div_multiples_vanish(10000, d);
        assert(d * 10000 == 10000 * d) by (nonlinear_arith);
        assert(q as int == s * 10000 / d);
        assert(q <= 10000);
    }
    BrightnessStats { average: q as u32 }
}

/// Law: the analyzer is deterministic.  Two buffers that hold the same
/// bytes have the same brightness, whatever images they came from.
pub proof fn lemma_brightness_deterministic(p1: Seq<u8>, p2: Seq<u8>)
    requires
        p1 == p2,
    ensures
        spec_brightness(p1) == spec_brightness(p2),
{
}

} // verus!
