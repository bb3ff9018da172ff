use vstd::prelude::*;

use rayon::iter::{IntoParallelRefIterator, ParallelIterator};

use crate::pixel::{premultiplied, premultiply, PixelImage, Rgba8};

verus! {

/// One of the three colour channels of an image.
#[derive(Clone, Copy, Debug, PartialEq, Eq, Structural)]
pub enum Channel {
    R,
    G,
    B,
}

/// The label shown for a channel.
pub open spec fn channel_label(c: Channel) -> Seq<char> {
    match c {
        Channel::R => "R"@,
        Channel::G => "G"@,
        Channel::B => "B"@,
    }
}

/// The position of a channel in per-channel arrays.
pub open spec fn channel_index(c: Channel) -> int {
    match c {
        Channel::R => 0,
        Channel::G => 1,
        Channel::B => 2,
    }
}

impl Channel {
    /// The channels in order red, green, blue.
    pub const ALL: [Channel; 3] = [Channel::R, Channel::G, Channel::B];

    /// The label shown for the channel.
    pub fn label(self) -> (s: &'static str)
        ensures
            s@ == channel_label(self),
    {
        match self {
            Channel::R => "R",
            Channel::G => "G",
            Channel::B => "B",
        }
    }

    /// The position of the channel in per-channel arrays: 0 for red, 1 for
    /// green, 2 for blue.
    pub fn index(self) -> (i: usize)
        ensures
            i == channel_index(self),
    {
        match self {
            Channel::R => 0,
            Channel::G => 1,
            Channel::B => 2,
        }
    }
}

/// A lookup table from an input channel value to a mapped value.
pub type Lut = [u8; 256];

/// The integer part of the channel settings: one lookup table per channel,
/// and the colour that each channel contributes to the output.
#[derive(Clone, Copy, Debug)]
pub struct ChannelMix {
    pub luts: [Lut; 3],
    pub colors: [Rgba8; 3],
}

/// The output colours that the channels start with: red becomes magenta,
/// green becomes yellow, blue becomes cyan.
pub open spec fn default_palette() -> [Rgba8; 3] {
    [
        Rgba8 { r: 255, g: 0, b: 255, a: 255 },
        Rgba8 { r: 255, g: 255, b: 0, a: 255 },
        Rgba8 { r: 0, g: 255, b: 255, a: 255 },
    ]
}

/// The output colours that the channels start with: red becomes magenta,
/// green becomes yellow, blue becomes cyan, all opaque.
pub fn default_colors() -> (colors: [Rgba8; 3])
    ensures
        colors == default_palette(),
{
    [
        Rgba8 { r: 255, g: 0, b: 255, a: 255 },
        Rgba8 { r: 255, g: 255, b: 0, a: 255 },
        Rgba8 { r: 0, g: 255, b: 255, a: 255 },
    ]
}

/// One output channel: the mapped channel values weighted by the matching
/// channel of each channel's colour, summed, capped at `255 * 255` and scaled
/// back by `255` (rounding down).
pub open spec fn mix_value(rm: int, gm: int, bm: int, rc: int, gc: int, bc: int) -> int {
    let sum = rm * rc + gm * gc + bm * bc;
    (if sum < 255 * 255 { sum } else { 255 * 255int }) / 255
}

/// The pixel that mixing makes of `px`: each channel goes through its table,
/// the three colours are weighted by the results, and the mix is stored with
/// the alpha of `px`.
pub open spec fn mixed_pixel(px: Rgba8, mix: ChannelMix) -> Rgba8 {
    mix_mapped(
        mix.luts[0][px.r as int] as int,
        mix.luts[1][px.g as int] as int,
        mix.luts[2][px.b as int] as int,
        mix.colors,
        px.a,
    )
}

/// The stored pixel for mapped channel values `rm`, `gm`, `bm`, the channel
/// colours `c` and alpha `a`.
pub open spec fn mix_mapped(rm: int, gm: int, bm: int, c: [Rgba8; 3], a: u8) -> Rgba8 {
    premultiplied(
        mix_value(rm, gm, bm, c[0].r as int, c[1].r as int, c[2].r as int) as u8,
        mix_value(rm, gm, bm, c[0].g as int, c[1].g as int, c[2].g as int) as u8,
        mix_value(rm, gm, bm, c[0].b as int, c[1].b as int, c[2].b as int) as u8,
        a,
    )
}

proof fn lemma_mix_value_bounds(rm: int, gm: int, bm: int, rc: int, gc: int, bc: int)
    requires
        0 <= rm <= 255,
        0 <= gm <= 255,
        0 <= bm <= 255,
        0 <= rc <= 255,
        0 <= gc <= 255,
        0 <= bc <= 255,
    ensures
        0 <= rm * rc <= 255 * 255,
        0 <= gm * gc <= 255 * 255,
        0 <= bm * bc <= 255 * 255,
        0 <= mix_value(rm, gm, bm, rc, gc, bc) <= 255,
{
    assert(0 <= rm * rc <= 255 * 255) by (nonlinear_arith)
        requires
            0 <= rm <= 255,
            0 <= rc <= 255,
    ;
    assert(0 <= gm * gc <= 255 * 255) by (nonlinear_arith)
        requires
            0 <= gm <= 255,
            0 <= gc <= 255,
    ;
    assert(0 <= bm * bc <= 255 * 255) by (nonlinear_arith)
        requires
            0 <= bm <= 255,
            0 <= bc <= 255,
    ;
}

/// One output channel of the mix, computed in `u32` without overflow.
fn mix_channel(rm: u32, gm: u32, bm: u32, rc: u32, gc: u32, bc: u32) -> (v: u8)
    requires
        rm <= 255,
        gm <= 255,
        bm <= 255,
        rc <= 255,
        gc <= 255,
        bc <= 255,
    ensures
        v == mix_value(rm as int, gm as int, bm as int, rc as int, gc as int, bc as int),
{
    proof {
        lemma_mix_value_bounds(rm as int, gm as int, bm as int, rc as int, gc as int, bc as int);
    }
    let sum = rm * rc + gm * gc + bm * bc;
    let capped = if sum < 255 * 255 {
        sum
    } else {
        255 * 255
    };
    (capped / 255) as u8
}

/// Mixes one pixel.
pub fn mix_pixel(px: &Rgba8, mix: &ChannelMix) -> (out: Rgba8)
    ensures
        out == mixed_pixel(*px, *mix),
{
    let rm = mix.luts[0][px.r as usize] as u32;
    let gm = mix.luts[1][px.g as usize] as u32;
    let bm = mix.luts[2][px.b as usize] as u32;
    let r_color = mix.colors[0];
    let g_color = mix.colors[1];
    let b_color = mix.colors[2];
    let out_r = mix_channel(rm, gm, bm, r_color.r as u32, g_color.r as u32, b_color.r as u32);
    let out_g = mix_channel(rm, gm, bm, r_color.g as u32, g_color.g as u32, b_color.g as u32);
    let out_b = mix_channel(rm, gm, bm, r_color.b as u32, g_color.b as u32, b_color.b as u32);
    premultiply(out_r, out_g, out_b, px.a)
}

/// Mixes every pixel on rayon's thread pool with `par_iter().map(..).collect()`.
/// Trusted: rayon calls the closure, which is the verified `mix_pixel`, once per
/// pixel and collects the results into a vector in the order of the pixels.
#[verifier::external_body]
fn par_mix_pixels(pixels: &Vec<Rgba8>, mix: &ChannelMix) -> (out: Vec<Rgba8>)
    ensures
        out@.len() == pixels@.len(),
        forall|i: int| 0 <= i < pixels@.len() ==> #[trigger] out@[i] == mixed_pixel(pixels@[i], *mix),
{
    pixels.par_iter().map(|px| mix_pixel(px, mix)).collect()
}

/// The processing backend that runs on the CPU.
#[derive(Clone, Copy, Debug)]
pub struct CpuPipeline;

impl CpuPipeline {
    /// Mixes every pixel of `original`; the size stays the same.
    pub fn process(&self, original: &PixelImage, mix: &ChannelMix) -> (out: PixelImage)
        ensures
            out.size == original.size,
            out.pixels@.len() == original.pixels@.len(),
            original.wf() ==> out.wf(),
            forall|i: int|
                0 <= i < original.pixels@.len() ==> #[trigger] out.pixels@[i] == mixed_pixel(
                    original.pixels@[i],
                    *mix,
                ),
    {
        let pixels = par_mix_pixels(&original.pixels, mix);
        PixelImage { size: original.size, pixels }
    }
}


/// A table that maps every value to itself.
pub open spec fn is_identity_lut(lut: Lut) -> bool {
    forall|i: int| 0 <= i < 256 ==> #[trigger] lut[i] == i
}

/// Opaque red, green and blue, one per channel: each channel keeps its colour.
pub open spec fn primary_palette() -> [Rgba8; 3] {
    [
        Rgba8 { r: 255, g: 0, b: 0, a: 255 },
        Rgba8 { r: 0, g: 255, b: 0, a: 255 },
        Rgba8 { r: 0, g: 0, b: 255, a: 255 },
    ]
}

proof fn lemma_mix_single(u: int, v: int, w: int)
    requires
        0 <= u <= 255,
        0 <= v <= 255,
        0 <= w <= 255,
    ensures
        mix_value(u, v, w, 255, 0, 0) == u,
        mix_value(u, v, w, 0, 255, 0) == v,
        mix_value(u, v, w, 0, 0, 255) == w,
{
    assert(u * 255 / 255 == u) by (nonlinear_arith)
        requires
            0 <= u <= 255,
    ;
    assert(v * 255 / 255 == v) by (nonlinear_arith)
        requires
            0 <= v <= 255,
    ;
    assert(w * 255 / 255 == w) by (nonlinear_arith)
        requires
            0 <= w <= 255,
    ;
}

proof fn lemma_mix_pair(u: int, v: int)
    requires
        0 <= u <= 255,
        0 <= v <= 255,
    ensures
        mix_value(u, v, 0, 255, 255, 0) == if u + v < 255 { u + v } else { 255 },
        mix_value(0, u, v, 0, 255, 255) == if u + v < 255 { u + v } else { 255 },
        mix_value(u, 0, v, 255, 0, 255) == if u + v < 255 { u + v } else { 255 },
{
    assert(u * 255 + v * 255 == (u + v) * 255) by (nonlinear_arith);
    assert((u + v) * 255 / 255 == u + v) by (nonlinear_arith)
        requires
            0 <= u + v,
    ;
}

/// Mixing never changes alpha.
pub proof fn lemma_mix_keeps_alpha(px: Rgba8, mix: ChannelMix)
    ensures
        mixed_pixel(px, mix).a == px.a,
{
}

/// A fully transparent pixel always becomes transparent black.
pub proof fn lemma_mix_transparent(px: Rgba8, mix: ChannelMix)
    requires
        px.a == 0,
    ensures
        mixed_pixel(px, mix) == (Rgba8 { r: 0, g: 0, b: 0, a: 0 }),
{
}

/// With identity tables and the primary colours, mixing leaves every opaque
/// pixel as it is.
pub proof fn lemma_mix_identity(px: Rgba8, mix: ChannelMix)
    requires
        px.a == 255,
        is_identity_lut(mix.luts[0]),
        is_identity_lut(mix.luts[1]),
        is_identity_lut(mix.luts[2]),
        mix.colors == primary_palette(),
    ensures
        mixed_pixel(px, mix) == px,
{
    assert(mix.luts[0][px.r as int] == px.r);
    assert(mix.luts[1][px.g as int] == px.g);
    assert(mix.luts[2][px.b as int] == px.b);
    lemma_mix_single(px.r as int, px.g as int, px.b as int);
}

/// With identity tables and the default colours (magenta, yellow, cyan) an
/// opaque pixel `(r, g, b)` becomes `(r + g, g + b, r + b)`, each capped at 255.
pub proof fn lemma_mix_default_palette(px: Rgba8, mix: ChannelMix)
    requires
        px.a == 255,
        is_identity_lut(mix.luts[0]),
        is_identity_lut(mix.luts[1]),
        is_identity_lut(mix.luts[2]),
        mix.colors == default_palette(),
    ensures
        mixed_pixel(px, mix).r == if px.r + px.g < 255 { px.r + px.g } else { 255 },
        mixed_pixel(px, mix).g == if px.g + px.b < 255 { px.g + px.b } else { 255 },
        mixed_pixel(px, mix).b == if px.r + px.b < 255 { px.r + px.b } else { 255 },
        mixed_pixel(px, mix).a == 255,
{
    assert(mix.luts[0][px.r as int] == px.r);
    assert(mix.luts[1][px.g as int] == px.g);
    assert(mix.luts[2][px.b as int] == px.b);
    lemma_mix_pair(px.r as int, px.g as int);
    lemma_mix_pair(px.g as int, px.b as int);
    lemma_mix_pair(px.r as int, px.b as int);
}

/// Tables that map everything to 0 turn every pixel into black of the same
/// alpha.
pub proof fn lemma_mix_black(px: Rgba8, mix: ChannelMix)
    requires
        forall|k: int, i: int| 0 <= k < 3 && 0 <= i < 256 ==> #[trigger] mix.luts[k][i] == 0,
    ensures
        mixed_pixel(px, mix) == (Rgba8 { r: 0, g: 0, b: 0, a: px.a }),
{
    assert(mix.luts[0][px.r as int] == 0);
    assert(mix.luts[1][px.g as int] == 0);
    assert(mix.luts[2][px.b as int] == 0);
    assert(crate::pixel::mul_frac_round(0, px.a) == 0);
}

proof fn lemma_mix_value_monotone(
    rm: int,
    gm: int,
    bm: int,
    rm2: int,
    gm2: int,
    bm2: int,
    rc: int,
    gc: int,
    bc: int,
)
    requires
        0 <= rm <= rm2,
        0 <= gm <= gm2,
        0 <= bm <= bm2,
        0 <= rc,
        0 <= gc,
        0 <= bc,
    ensures
        mix_value(rm, gm, bm, rc, gc, bc) <= mix_value(rm2, gm2, bm2, rc, gc, bc),
{
    assert(rm * rc <= rm2 * rc) by (nonlinear_arith)
        requires
            0 <= rm <= rm2,
            0 <= rc,
    ;
    assert(gm * gc <= gm2 * gc) by (nonlinear_arith)
        requires
            0 <= gm <= gm2,
            0 <= gc,
    ;
    assert(bm * bc <= bm2 * bc) by (nonlinear_arith)
        requires
            0 <= bm <= bm2,
            0 <= bc,
    ;
    let s1 = rm * rc + gm * gc + bm * bc;
    let s2 = rm2 * rc + gm2 * gc + bm2 * bc;
    let c1 = if s1 < 255 * 255 { s1 } else { 255 * 255int };
    let c2 = if s2 < 255 * 255 { s2 } else { 255 * 255int };
    assert(c1 / 255 <= c2 / 255) by (nonlinear_arith)
        requires
            0 <= c1 <= c2,
    ;
}

proof fn lemma_mul_frac_round_monotone(v1: u8, v2: u8, f: u8)
    requires
        v1 <= v2,
    ensures
        crate::pixel::mul_frac_round(v1, f) <= crate::pixel::mul_frac_round(v2, f),
{
    let p1 = v1 * f + 128;
    let p2 = v2 * f + 128;
    assert(v1 * f <= v2 * f) by (nonlinear_arith)
        requires
            v1 <= v2,
            0 <= f,
    ;
    assert(v2 * f <= 255 * 255) by (nonlinear_arith)
        requires
            v2 <= 255,
            f <= 255,
            0 <= f,
    ;
    assert(p1 / 256 <= p2 / 256) by (nonlinear_arith)
        requires
            0 <= p1 <= p2,
    ;
    assert((p1 + p1 / 256) / 256 <= (p2 + p2 / 256) / 256) by (nonlinear_arith)
        requires
            0 <= p1 <= p2,
            p1 / 256 <= p2 / 256,
    ;
    assert((p2 + p2 / 256) / 256 <= 255) by (nonlinear_arith)
        requires
            0 <= p2 <= 255 * 255 + 128,
    ;
}

proof fn lemma_mix_mapped_monotone(
    rm: int,
    gm: int,
    bm: int,
    rm2: int,
    gm2: int,
    bm2: int,
    c: [Rgba8; 3],
    a: u8,
)
    requires
        0 <= rm <= rm2 <= 255,
        0 <= gm <= gm2 <= 255,
        0 <= bm <= bm2 <= 255,
    ensures
        mix_mapped(rm, gm, bm, c, a).r <= mix_mapped(rm2, gm2, bm2, c, a).r,
        mix_mapped(rm, gm, bm, c, a).g <= mix_mapped(rm2, gm2, bm2, c, a).g,
        mix_mapped(rm, gm, bm, c, a).b <= mix_mapped(rm2, gm2, bm2, c, a).b,
{
    lemma_mix_value_monotone(rm, gm, bm, rm2, gm2, bm2, c[0].r as int, c[1].r as int, c[2].r as int);
    lemma_mix_value_monotone(rm, gm, bm, rm2, gm2, bm2, c[0].g as int, c[1].g as int, c[2].g as int);
    lemma_mix_value_monotone(rm, gm, bm, rm2, gm2, bm2, c[0].b as int, c[1].b as int, c[2].b as int);
    lemma_mix_value_bounds(rm2, gm2, bm2, c[0].r as int, c[1].r as int, c[2].r as int);
    lemma_mix_value_bounds(rm2, gm2, bm2, c[0].g as int, c[1].g as int, c[2].g as int);
    lemma_mix_value_bounds(rm2, gm2, bm2, c[0].b as int, c[1].b as int, c[2].b as int);
    lemma_mix_value_bounds(rm, gm, bm, c[0].r as int, c[1].r as int, c[2].r as int);
    lemma_mix_value_bounds(rm, gm, bm, c[0].g as int, c[1].g as int, c[2].g as int);
    lemma_mix_value_bounds(rm, gm, bm, c[0].b as int, c[1].b as int, c[2].b as int);
    let r1 = mix_value(rm, gm, bm, c[0].r as int, c[1].r as int, c[2].r as int) as u8;
    let g1 = mix_value(rm, gm, bm, c[0].g as int, c[1].g as int, c[2].g as int) as u8;
    let b1 = mix_value(rm, gm, bm, c[0].b as int, c[1].b as int, c[2].b as int) as u8;
    let r2 = mix_value(rm2, gm2, bm2, c[0].r as int, c[1].r as int, c[2].r as int) as u8;
    let g2 = mix_value(rm2, gm2, bm2, c[0].g as int, c[1].g as int, c[2].g as int) as u8;
    let b2 = mix_value(rm2, gm2, bm2, c[0].b as int, c[1].b as int, c[2].b as int) as u8;
    lemma_mul_frac_round_monotone(r1, r2, a);
    lemma_mul_frac_round_monotone(g1, g2, a);
    lemma_mul_frac_round_monotone(b1, b2, a);
}

/// Raising table entries never darkens the result: if every table of `hi`
/// gives at least what the same table of `lo` gives, with the same colours,
/// every channel of the mix of `hi` is at least that of `lo`.
pub proof fn lemma_mix_monotone(px: Rgba8, lo: ChannelMix, hi: ChannelMix)
    requires
        lo.colors == hi.colors,
        forall|k: int, i: int|
            0 <= k < 3 && 0 <= i < 256 ==> #[trigger] lo.luts[k][i] <= hi.luts[k][i],
    ensures
        mixed_pixel(px, lo).r <= mixed_pixel(px, hi).r,
        mixed_pixel(px, lo).g <= mixed_pixel(px, hi).g,
        mixed_pixel(px, lo).b <= mixed_pixel(px, hi).b,
{
    assert(lo.luts[0][px.r as int] <= hi.luts[0][px.r as int]);
    assert(lo.luts[1][px.g as int] <= hi.luts[1][px.g as int]);
    assert(lo.luts[2][px.b as int] <= hi.luts[2][px.b as int]);
    lemma_mix_mapped_monotone(
        lo.luts[0][px.r as int] as int,
        lo.luts[1][px.g as int] as int,
        lo.luts[2][px.b as int] as int,
        hi.luts[0][px.r as int] as int,
        hi.luts[1][px.g as int] as int,
        hi.luts[2][px.b as int] as int,
        lo.colors,
        px.a,
    );
}

/// A table whose values never decrease as the input grows.
pub open spec fn is_nondecreasing_lut(lut: Lut) -> bool {
    forall|i: int, j: int| 0 <= i <= j < 256 ==> #[trigger] lut[i] <= #[trigger] lut[j]
}

/// With nondecreasing tables, a pixel that is at least as bright in every
/// channel (with the same alpha) mixes to a pixel that is at least as bright in
/// every channel.
pub proof fn lemma_mix_monotone_in_pixel(lo: Rgba8, hi: Rgba8, mix: ChannelMix)
    requires
        lo.a == hi.a,
        lo.r <= hi.r,
        lo.g <= hi.g,
        lo.b <= hi.b,
        is_nondecreasing_lut(mix.luts[0]),
        is_nondecreasing_lut(mix.luts[1]),
        is_nondecreasing_lut(mix.luts[2]),
    ensures
        mixed_pixel(lo, mix).r <= mixed_pixel(hi, mix).r,
        mixed_pixel(lo, mix).g <= mixed_pixel(hi, mix).g,
        mixed_pixel(lo, mix).b <= mixed_pixel(hi, mix).b,
{
    assert(mix.luts[0][lo.r as int] <= mix.luts[0][hi.r as int]);
    assert(mix.luts[1][lo.g as int] <= mix.luts[1][hi.g as int]);
    assert(mix.luts[2][lo.b as int] <= mix.luts[2][hi.b as int]);
    lemma_mix_mapped_monotone(
        mix.luts[0][lo.r as int] as int,
        mix.luts[1][lo.g as int] as int,
        mix.luts[2][lo.b as int] as int,
        mix.luts[0][hi.r as int] as int,
        mix.luts[1][hi.g as int] as int,
        mix.luts[2][hi.b as int] as int,
        mix.colors,
        lo.a,
    );
}

/// Invocations per workgroup of the GPU shader.
pub const WORKGROUP_SIZE: u32 = 64;

/// The most workgroups the GPU pipeline dispatches along x.
pub const MAX_X_DISPATCH: u32 = 65535;

/// The number of workgroups needed for `n` pixels, one invocation per pixel.
pub open spec fn workgroups_for(n: int) -> int {
    (n + 63) / 64
}

/// The dispatch size for `n` pixels: `x` workgroups along x (at most
/// `MAX_X_DISPATCH`) and enough rows `y` to hold all workgroups.
pub open spec fn spec_workgroup_grid(n: int) -> (int, int) {
    let total: int = workgroups_for(n);
    (
        if total < 65535 { total } else { 65535 },
        (total + 65535 - 1) / 65535,
    )
}

/// The dispatch size for `total_pixels` pixels on the GPU.
pub fn workgroup_grid(total_pixels: u32) -> (grid: (u32, u32))
    requires
        total_pixels + 63 <= u32::MAX,
    ensures
        grid.0 == spec_workgroup_grid(total_pixels as int).0,
        grid.1 == spec_workgroup_grid(total_pixels as int).1,
{
    let total_workgroups = (total_pixels + 63) / WORKGROUP_SIZE;
    let workgroups_x = if total_workgroups < MAX_X_DISPATCH {
        total_workgroups
    } else {
        MAX_X_DISPATCH
    };
    let workgroups_y = (total_workgroups + MAX_X_DISPATCH - 1) / MAX_X_DISPATCH;
    (workgroups_x, workgroups_y)
}

/// The pixel that the shader invocation with workgroup row `wy` and global x
/// index `gx` works on.
pub open spec fn shader_pixel_index(wy: int, gx: int) -> int {
    wy * 65535 * 64 + gx
}

/// Every pixel gets an invocation: for each pixel `p` below `n` there is a
/// workgroup row below `y` and a global x index below `64 * x` whose
/// invocation works on `p`.
pub proof fn lemma_grid_covers(n: int, p: int)
    requires
        0 <= p < n,
    ensures
        ({
            let (x, y) = spec_workgroup_grid(n);
            let wy = p / (65535 * 64int);
            let gx = p % (65535 * 64int);
            &&& 0 <= wy < y
            &&& 0 <= gx < 64 * x
            &&& shader_pixel_index(wy, gx) == p
        }),
{
    let total: int = workgroups_for(n);
    let (x, y) = spec_workgroup_grid(n);
    let m: int = 65535 * 64int;
    let wy: int = p / m;
    let gx: int = p % m;
    assert(p == wy * m + gx && 0 <= gx < m && 0 <= wy) by (nonlinear_arith)
        requires
            m == 65535 * 64,
            wy == p / m,
            gx == p % m,
            0 <= p,
    ;
    assert(n <= 64 * total) by (nonlinear_arith)
        requires
            total == (n + 63) / 64,
            0 < n,
    ;
    assert(total <= 65535 * y) by (nonlinear_arith)
        requires
            y == (total + 65535 - 1) / 65535,
            0 <= total,
    ;
    assert(wy < y) by (nonlinear_arith)
        requires
            p < n,
            n <= 64 * total,
            total <= 65535 * y,
            wy == p / m,
            m == 65535 * 64,
            0 <= p,
    ;
    if total < 65535 {
        assert(p < m);
        assert(wy == 0) by (nonlinear_arith)
            requires
                wy == p / m,
                0 <= p < m,
        ;
        assert(gx == p);
    }
    assert(shader_pixel_index(wy, gx) == wy * m + gx) by (nonlinear_arith)
        requires
            m == 65535 * 64,
    ;
}

} // verus!
