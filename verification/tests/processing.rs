use lut_mapper::pixel::{PixelImage, Rgba8};
use lut_mapper::processing::{
    default_colors, mix_pixel, workgroup_grid, Channel, ChannelMix, CpuPipeline, Lut,
};

fn px(r: u8, g: u8, b: u8, a: u8) -> Rgba8 {
    Rgba8 { r, g, b, a }
}

fn identity() -> Lut {
    let mut lut = [0u8; 256];
    for (i, v) in lut.iter_mut().enumerate() {
        *v = i as u8;
    }
    lut
}

fn primaries() -> [Rgba8; 3] {
    [px(255, 0, 0, 255), px(0, 255, 0, 255), px(0, 0, 255, 255)]
}

#[test]
fn channel_labels_and_indices() {
    assert_eq!(Channel::R.label(), "R");
    assert_eq!(Channel::G.label(), "G");
    assert_eq!(Channel::B.label(), "B");
    let idx: Vec<usize> = Channel::ALL.iter().map(|c| c.index()).collect();
    assert_eq!(idx, vec![0, 1, 2]);
}

#[test]
fn default_colors_are_magenta_yellow_cyan() {
    assert_eq!(
        default_colors(),
        [px(255, 0, 255, 255), px(255, 255, 0, 255), px(0, 255, 255, 255)]
    );
}

#[test]
fn identity_mix_keeps_opaque_pixels() {
    let mix = ChannelMix { luts: [identity(); 3], colors: primaries() };
    for p in [px(0, 0, 0, 255), px(12, 200, 99, 255), px(255, 255, 255, 255)] {
        assert_eq!(mix_pixel(&p, &mix), p);
    }
}

#[test]
fn identity_mix_changes_translucent_pixels() {
    // stored values are premultiplied again on the way out
    let mix = ChannelMix { luts: [identity(); 3], colors: primaries() };
    assert_eq!(mix_pixel(&px(100, 100, 100, 128), &mix), px(50, 50, 50, 128));
}

#[test]
fn default_palette_adds_and_caps() {
    let mix = ChannelMix { luts: [identity(); 3], colors: default_colors() };
    assert_eq!(mix_pixel(&px(10, 20, 30, 255), &mix), px(30, 50, 40, 255));
    assert_eq!(mix_pixel(&px(200, 100, 0, 255), &mix), px(255, 100, 200, 255));
}

#[test]
fn mix_formula_exact_value() {
    // out = min(r*rc + g*gc + b*bc, 65025) / 255
    let mix = ChannelMix {
        luts: [identity(); 3],
        colors: [px(100, 0, 0, 255), px(50, 0, 0, 255), px(10, 0, 0, 255)],
    };
    // 200*100 + 100*50 + 51*10 = 25510 -> 100
    assert_eq!(mix_pixel(&px(200, 100, 51, 255), &mix), px(100, 0, 0, 255));
}

#[test]
fn luts_are_applied_per_channel() {
    let mut inv = [0u8; 256];
    for (i, v) in inv.iter_mut().enumerate() {
        *v = 255 - i as u8;
    }
    let mix = ChannelMix { luts: [inv, identity(), [0u8; 256]], colors: primaries() };
    assert_eq!(mix_pixel(&px(0, 40, 200, 255), &mix), px(255, 40, 0, 255));
}

#[test]
fn black_tables_give_black() {
    let mix = ChannelMix { luts: [[0u8; 256]; 3], colors: default_colors() };
    assert_eq!(mix_pixel(&px(1, 2, 3, 77), &mix), px(0, 0, 0, 77));
}

#[test]
fn transparent_pixels_become_transparent_black() {
    let mix = ChannelMix { luts: [[255u8; 256]; 3], colors: default_colors() };
    assert_eq!(mix_pixel(&px(9, 9, 9, 0), &mix), px(0, 0, 0, 0));
}

#[test]
fn raising_tables_never_darkens() {
    let lo = ChannelMix { luts: [identity(); 3], colors: default_colors() };
    let mut brighter = identity();
    for v in brighter.iter_mut() {
        *v = v.saturating_add(40);
    }
    let hi = ChannelMix { luts: [brighter; 3], colors: default_colors() };
    for p in [px(0, 0, 0, 255), px(30, 60, 90, 200), px(250, 1, 128, 17)] {
        let a = mix_pixel(&p, &lo);
        let b = mix_pixel(&p, &hi);
        assert!(a.r <= b.r && a.g <= b.g && a.b <= b.b);
        assert_eq!(a.a, p.a);
        assert_eq!(b.a, p.a);
    }
}

#[test]
fn cpu_pipeline_maps_every_pixel_in_order() {
    let mix = ChannelMix { luts: [identity(); 3], colors: default_colors() };
    let pixels: Vec<Rgba8> = (0..1000u32).map(|i| px((i % 256) as u8, (i / 4 % 256) as u8, 7, 255)).collect();
    let img = PixelImage { size: [40, 25], pixels: pixels.clone() };
    let out = CpuPipeline.process(&img, &mix);
    assert_eq!(out.size, [40, 25]);
    assert_eq!(out.pixels.len(), 1000);
    for (o, p) in out.pixels.iter().zip(pixels.iter()) {
        assert_eq!(*o, mix_pixel(p, &mix));
    }
}

#[test]
fn cpu_pipeline_empty_image() {
    let mix = ChannelMix { luts: [identity(); 3], colors: default_colors() };
    let out = CpuPipeline.process(&PixelImage { size: [0, 0], pixels: vec![] }, &mix);
    assert_eq!(out.size, [0, 0]);
    assert!(out.pixels.is_empty());
}

#[test]
fn grid_sizes() {
    assert_eq!(workgroup_grid(0), (0, 0));
    assert_eq!(workgroup_grid(1), (1, 1));
    assert_eq!(workgroup_grid(64), (1, 1));
    assert_eq!(workgroup_grid(65), (2, 1));
    assert_eq!(workgroup_grid(65535 * 64), (65535, 1));
    assert_eq!(workgroup_grid(65535 * 64 + 1), (65535, 2));
    assert_eq!(workgroup_grid(u32::MAX - 63), (65535, 1025));
}

#[test]
fn grid_covers_every_pixel() {
    for n in [1u32, 63, 64, 1000, 65535 * 64 + 5, 10_000_000] {
        let (x, y) = workgroup_grid(n);
        let p = n - 1;
        let wy = p / (65535 * 64);
        let gx = p % (65535 * 64);
        assert!(wy < y && gx < 64 * x);
        assert_eq!(wy * 65535 * 64 + gx, p);
    }
}

#[test]
fn brighter_input_never_mixes_darker() {
    let mut curve = [0u8; 256];
    for (i, v) in curve.iter_mut().enumerate() {
        *v = ((i * i) / 255) as u8;
    }
    let mix = ChannelMix { luts: [curve, identity(), curve], colors: default_colors() };
    let pairs = [
        (px(0, 0, 0, 255), px(1, 0, 0, 255)),
        (px(10, 20, 30, 255), px(10, 90, 30, 255)),
        (px(100, 100, 100, 128), px(200, 150, 101, 128)),
    ];
    for (lo, hi) in pairs {
        let a = mix_pixel(&lo, &mix);
        let b = mix_pixel(&hi, &mix);
        assert!(a.r <= b.r && a.g <= b.g && a.b <= b.b);
    }
}
