//! The recoloring transform: map every pixel to the nearest entry of a
//! fixed Nord-style palette, optionally compositing the image over a
//! background color first so translucent pixels take on its hue.
//! Pure and deterministic: the output is a function of the pixel buffer,
//! the options and the statistics alone.

use vstd::prelude::*;
use vstd::arithmetic::div_mod::{
    lemma_div_multiples_vanish, lemma_div_is_ordered, lemma_fundamental_div_mod_converse,
};
use crate::color::RgbColor;
use crate::codec::{Background, RecolorOptions};
use crate::brightness::BrightnessStats;
use crate::image_data::DecodedImage;

verus! {

/// Number of palette entries.
pub const PALETTE_LEN: usize = 16;

/// The fixed palette: the four dark "polar night" tones, the three light
/// "snow storm" tones, the four "frost" blues and the five "aurora"
/// accents of the Nord scheme.
pub open spec fn palette_color(i: int) -> RgbColor {
    if i == 0 { RgbColor { red: 46, green: 52, blue: 64 } }
    else if i == 1 { RgbColor { red: 59, green: 66, blue: 82 } }
    else if i == 2 { RgbColor { red: 67, green: 76, blue: 94 } }
    else if i == 3 { RgbColor { red: 76, green: 86, blue: 106 } }
    else if i == 4 { RgbColor { red: 216, green: 222, blue: 233 } }
    else if i == 5 { RgbColor { red: 229, green: 233, blue: 240 } }
    else if i == 6 { RgbColor { red: 236, green: 239, blue: 244 } }
    else if i == 7 { RgbColor { red: 143, green: 188, blue: 187 } }
    else if i == 8 { RgbColor { red: 136, green: 192, blue: 208 } }
    else if i == 9 { RgbColor { red: 129, green: 161, blue: 193 } }
    else if i == 10 { RgbColor { red: 94, green: 129, blue: 172 } }
    else if i == 11 { RgbColor { red: 191, green: 97, blue: 106 } }
    else if i == 12 { RgbColor { red: 208, green: 135, blue: 112 } }
    else if i == 13 { RgbColor { red: 235, green: 203, blue: 139 } }
    else if i == 14 { RgbColor { red: 163, green: 190, blue: 140 } }
    else { RgbColor { red: 180, green: 142, blue: 173 } }
}

/// Executable twin of [`palette_color`].
pub fn palette_color_exec(i: usize) -> (r: RgbColor)
    requires
        i < PALETTE_LEN,
    ensures
        r == palette_color(i as int),
{
    if i == 0 { RgbColor { red: 46, green: 52, blue: 64 } }
    else if i == 1 { RgbColor { red: 59, green: 66, blue: 82 } }
    else if i == 2 { RgbColor { red: 67, green: 76, blue: 94 } }
    else if i == 3 { RgbColor { red: 76, green: 86, blue: 106 } }
    else if i == 4 { RgbColor { red: 216, green: 222, blue: 233 } }
    else if i == 5 { RgbColor { red: 229, green: 233, blue: 240 } }
    else if i == 6 { RgbColor { red: 236, green: 239, blue: 244 } }
    else if i == 7 { RgbColor { red: 143, green: 188, blue: 187 } }
    else if i == 8 { RgbColor { red: 136, green: 192, blue: 208 } }
    else if i == 9 { RgbColor { red: 129, green: 161, blue: 193 } }
    else if i == 10 { RgbColor { red: 94, green: 129, blue: 172 } }
    else if i == 11 { RgbColor { red: 191, green: 97, blue: 106 } }
    else if i == 12 { RgbColor { red: 208, green: 135, blue: 112 } }
    else if i == 13 { RgbColor { red: 235, green: 203, blue: 139 } }
    else if i == 14 { RgbColor { red: 163, green: 190, blue: 140 } }
    else { RgbColor { red: 180, green: 142, blue: 173 } }
}

/// Squared distance between two colors in RGB space.
pub open spec fn dist2(a: RgbColor, b: RgbColor) -> int {
    (a.red - b.red) * (a.red - b.red)
    + (a.green - b.green) * (a.green - b.green)
    + (a.blue - b.blue) * (a.blue - b.blue)
}

/// Index of the entry among the first `k` palette colors closest to `c`,
/// ties resolved toward the lower index.
pub open spec fn best_idx(c: RgbColor, k: int) -> int
    decreases k,
{
    if k <= 1 {
        0
    } else {
        let prev = best_idx(c, k - 1);
        if dist2(palette_color(k - 1), c) < dist2(palette_color(prev), c) {
            k - 1
        } else {
            prev
        }
    }
}

/// The palette entry nearest to `c`.
pub open spec fn nearest_in_palette(c: RgbColor) -> RgbColor {
    palette_color(best_idx(c, PALETTE_LEN as int))
}

fn sq_diff(x: u8, y: u8) -> (r: u32)
    ensures
        r as int == (x - y) * (x - y),
        r <= 65025,
{
    let d: u32 = if x >= y {
        (x - y) as u32
    } else {
        (y - x) as u32
    };
    proof {
        let dd = d as int;
        let xx = x as int;
        let yy = y as int;
        assert(dd * dd == (xx - yy) * (xx - yy) && dd * dd <= 65025) by (nonlinear_arith)
            requires
                0 <= dd <= 255,
                (xx >= yy && dd == xx - yy) || (xx < yy && dd == yy - xx);
    }
    d * d
}

fn dist2_exec(a: RgbColor, b: RgbColor) -> (r: u32)
    ensures
        r as int == dist2(a, b),
{
    sq_diff(a.red, b.red) + sq_diff(a.green, b.green) + sq_diff(a.blue, b.blue)
}

/// Find the palette entry nearest to `c` by scanning all entries.
pub fn nearest_color(c: RgbColor) -> (r: RgbColor)
    ensures
        r == nearest_in_palette(c),
{
    let mut best: usize = 0;
    let mut bestd: u32 = dist2_exec(palette_color_exec(0), c);
    let mut j: usize = 1;
    while j < PALETTE_LEN
        invariant
            1 <= j <= PALETTE_LEN,
            best as int == best_idx(c, j as int),
            best < j,
            bestd as int == dist2(palette_color(best as int), c),
        decreases PALETTE_LEN - j,
    {
        let d = dist2_exec(palette_color_exec(j), c);
        if d < bestd {
            best = j;
            bestd = d;
        }
        j += 1;
    }
    palette_color_exec(best)
}

/// One channel of compositing a source channel over a background channel
/// under source alpha `a`.
pub open spec fn comp_ch(s: u8, b: u8, a: u8) -> int {
    (s * a + b * (255 - a)) / 255
}

proof fn lemma_comp_ch_bound(s: u8, b: u8, a: u8)
    ensures
        0 <= comp_ch(s, b, a) <= 255,
{
    let t = s as int * a as int + b as int * (255 - a as int);
    assert(0 <= t && t <= 65025) by (nonlinear_arith)
        requires
            t == s as int * a as int + b as int * (255 - a as int),
            0 <= s as int <= 255,
            0 <= b as int <= 255,
            0 <= a as int <= 255;
    lemma_div_is_ordered(t, 65025int, 255);
    lemma_div_multiples_vanish(255, 255);
    lemma_div_is_ordered(0, t, 255);
}

fn comp_ch_exec(s: u8, b: u8, a: u8) -> (r: u8)
    ensures
        r as int == comp_ch(s, b, a),
{
    proof {
        lemma_comp_ch_bound(s, b, a);
    }
    let t: u32 = (s as u32) * (a as u32) + (b as u32) * (255 - a as u32);
    (t / 255) as u8
}

/// The source color of pixel `pi`.
pub open spec fn src_color(p: Seq<u8>, pi: int) -> RgbColor {
    RgbColor { red: p[4 * pi], green: p[4 * pi + 1], blue: p[4 * pi + 2] }
}

/// Pixel `pi` composited over the background color.
pub open spec fn composited_color(p: Seq<u8>, bgc: RgbColor, pi: int) -> RgbColor {
    let a = p[4 * pi + 3];
    RgbColor {
        red: comp_ch(p[4 * pi], bgc.red, a) as u8,
        green: comp_ch(p[4 * pi + 1], bgc.green, a) as u8,
        blue: comp_ch(p[4 * pi + 2], bgc.blue, a) as u8,
    }
}

/// The palette color that pixel `pi` maps to.
pub open spec fn mapped_color(p: Seq<u8>, bg: Option<RgbColor>, pi: int) -> RgbColor {
    match bg {
        Some(bgc) => nearest_in_palette(composited_color(p, bgc, pi)),
        None => nearest_in_palette(src_color(p, pi)),
    }
}

/// The alpha that pixel `pi` keeps: opaque after a composite, the source
/// alpha otherwise.
pub open spec fn out_alpha(p: Seq<u8>, bg: Option<RgbColor>, pi: int) -> u8 {
    match bg {
        Some(_) => 255,
        None => p[4 * pi + 3],
    }
}

/// Byte `i` of the transformed buffer.
pub open spec fn out_byte(p: Seq<u8>, bg: Option<RgbColor>, i: int) -> u8 {
    let pi = i / 4;
    let ch = i % 4;
    if ch == 0 {
        mapped_color(p, bg, pi).red
    } else if ch == 1 {
        mapped_color(p, bg, pi).green
    } else if ch == 2 {
        mapped_color(p, bg, pi).blue
    } else {
        out_alpha(p, bg, pi)
    }
}

/// The whole transformed buffer: same length, every pixel mapped.
pub open spec fn transform_pixels(p: Seq<u8>, bg: Option<RgbColor>) -> Seq<u8> {
    Seq::new(p.len(), |i: int| out_byte(p, bg, i))
}

/// The background the transform actually composites with.  With
/// `auto_adjust` set, the background is recomputed from the statistics
/// the caller measured now — a bright image gets the darkest palette
/// tone, a dark one none — overriding whatever was chosen before.
/// Otherwise a literal choice is used as given, and no composite happens
/// without one.
pub open spec fn spec_effective_bg(o: RecolorOptions, stats: BrightnessStats) -> Option<RgbColor> {
    if o.auto_adjust {
        if stats.average >= 5000 {
            Some(palette_color(0))
        } else {
            None
        }
    } else {
        match o.background {
            Background::Color(c) => Some(c),
            _ => None,
        }
    }
}

/// Executable twin of [`spec_effective_bg`].
pub fn effective_bg(o: &RecolorOptions, stats: &BrightnessStats) -> (r: Option<RgbColor>)
    ensures
        r == spec_effective_bg(*o, *stats),
{
    if o.auto_adjust {
        if stats.average >= 5000 {
            Some(palette_color_exec(0))
        } else {
            None
        }
    } else {
        match o.background {
            Background::Color(c) => Some(c),
            _ => None,
        }
    }
}

/// Recolor an image against the palette.  The caller must have resolved
/// the "ask the user" sentinel into a literal color first; the output has
/// the source's dimensions, and every byte is pinned by
/// [`transform_pixels`].
pub fn apply(img: &DecodedImage, options: &RecolorOptions, stats: &BrightnessStats) -> (r: DecodedImage)
    requires
        img.wf(),
        options.background != Background::Ask,
    ensures
        r.width == img.width,
        r.height == img.height,
        r.pixels@ == transform_pixels(img.pixels@, spec_effective_bg(*options, *stats)),
        r.wf(),
{
    let ghost p = img.pixels@;
    let bg = effective_bg(options, stats);
    let ghost gbg = spec_effective_bg(*options, *stats);
    let len = img.pixels.len();
    let n = len / 4;
    proof {
        let w = img.width as int;
        let h = img.height as int;
        let m = w * h;
        assert((4 * w) * h == 4 * m) by (nonlinear_arith)
            requires m == w * h;
        assert(p.len() == 4 * m);
        lemma_div_multiples_vanish(m, 4);
    }
    assert(len == 4 * n);
    let mut out: Vec<u8> = Vec::new();
    let mut pi: usize = 0;
    while pi < n
        invariant
            pi <= n,
            len == 4 * n,
            len == p.len(),
            p == img.pixels@,
            bg == gbg,
            out@.len() == 4 * pi,
            forall|j: int| 0 <= j < 4 * pi ==> out@[j] == out_byte(p, gbg, j),
        decreases n - pi,
    {
        let r0 = img.pixels[4 * pi];
        let g0 = img.pixels[4 * pi + 1];
        let b0 = img.pixels[4 * pi + 2];
        let a0 = img.pixels[4 * pi + 3];
        let (c, alpha): (RgbColor, u8) = match bg {
            Some(bgc) => {
                let cc = RgbColor {
                    red: comp_ch_exec(r0, bgc.red, a0),
                    green: comp_ch_exec(g0, bgc.green, a0),
                    blue: comp_ch_exec(b0, bgc.blue, a0),
                };
                proof {
                    lemma_comp_ch_bound(r0, bgc.red, a0);
                    lemma_comp_ch_bound(g0, bgc.green, a0);
                    lemma_comp_ch_bound(b0, bgc.blue, a0);
                    assert(cc == composited_color(p, bgc, pi as int));
                }
                (nearest_color(cc), 255u8)
            },
            None => {
                let cc = RgbColor { red: r0, green: g0, blue: b0 };
                proof {
                    assert(cc == src_color(p, pi as int));
                }
                (nearest_color(cc), a0)
            },
        };
        proof {
            assert(c == mapped_color(p, gbg, pi as int));
            assert(alpha == out_alpha(p, gbg, pi as int));
            lemma_fundamental_div_mod_converse(4 * pi as int, 4, pi as int, 0);
            lemma_fundamental_div_mod_converse(4 * pi as int + 1, 4, pi as int, 1);
            lemma_fundamental_div_mod_converse(4 * pi as int + 2, 4, pi as int, 2);
            lemma_fundamental_div_mod_converse(4 * pi as int + 3, 4, pi as int, 3);
        }
        out.push(c.red);
        out.push(c.green);
        out.push(c.blue);
        out.push(alpha);
        pi += 1;
    }
    proof {
        assert(out@ =~= transform_pixels(p, gbg));
    }
    DecodedImage { width: img.width, height: img.height, pixels: out }
}

/// Law: the transform is deterministic.  Equal pixel buffers under equal
/// options and statistics produce byte-identical output buffers.
pub proof fn lemma_transform_deterministic(
    p1: Seq<u8>,
    p2: Seq<u8>,
    o1: RecolorOptions,
    o2: RecolorOptions,
    s1: BrightnessStats,
    s2: BrightnessStats,
)
    requires
        p1 == p2,
        o1 == o2,
        s1 == s2,
    ensures
        transform_pixels(p1, spec_effective_bg(o1, s1)) == transform_pixels(
            p2,
            spec_effective_bg(o2, s2),
        ),
{
}

/// Law: a fully transparent image composited over a background quantizes
/// every pixel to the palette entry nearest that background, at full
/// opacity.
pub proof fn lemma_transparent_composite(p: Seq<u8>, bgc: RgbColor)
    requires
        p.len() % 4 == 0,
        forall|k: int| 0 <= k < p.len() as int / 4 ==> p[#[trigger] (4 * k + 3)] == 0,
    ensures
        transform_pixels(p, Some(bgc)).len() == p.len(),
        forall|k: int| 0 <= k < p.len() as int / 4 ==> {
            let q = transform_pixels(p, Some(bgc));
            q[#[trigger] (4 * k)] == nearest_in_palette(bgc).red
            && q[4 * k + 1] == nearest_in_palette(bgc).green
            && q[4 * k + 2] == nearest_in_palette(bgc).blue
            && q[4 * k + 3] == 255
        },
{
    let q = transform_pixels(p, Some(bgc));
    let n = p.len() as int / 4;
    assert forall|k: int| 0 <= k < n implies {
        q[#[trigger] (4 * k)] == nearest_in_palette(bgc).red
        && q[4 * k + 1] == nearest_in_palette(bgc).green
        && q[4 * k + 2] == nearest_in_palette(bgc).blue
        && q[4 * k + 3] == 255
    } by {
        assert(p.len() == 4 * n + p.len() % 4);
        lemma_fundamental_div_mod_converse(4 * k, 4, k, 0);
        lemma_fundamental_div_mod_converse(4 * k + 1, 4, k, 1);
        lemma_fundamental_div_mod_converse(4 * k + 2, 4, k, 2);
        lemma_fundamental_div_mod_converse(4 * k + 3, 4, k, 3);
        assert(p[4 * k + 3] == 0);
        let a: u8 = 0;
        assert(comp_ch(p[4 * k], bgc.red, a) == bgc.red) by {
            assert(p[4 * k] as int * 0 == 0);
            assert(bgc.red as int * 255 == 255 * bgc.red as int);
            lemma_div_multiples_vanish(bgc.red as int, 255);
        }
        assert(comp_ch(p[4 * k + 1], bgc.green, a) == bgc.green) by {
            assert(p[4 * k + 1] as int * 0 == 0);
            lemma_div_multiples_vanish(bgc.green as int, 255);
        }
        assert(comp_ch(p[4 * k + 2], bgc.blue, a) == bgc.blue) by {
            assert(p[4 * k + 2] as int * 0 == 0);
            lemma_div_multiples_vanish(bgc.blue as int, 255);
        }
        assert(composited_color(p, bgc, k) == bgc);
        assert(mapped_color(p, Some(bgc), k) == nearest_in_palette(bgc));
    }
}

} // verus!
