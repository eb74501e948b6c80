use msg_shaders::nebula::{
    clamp_octaves, pack_star_colors, StarSlice, MAX_NEBULA_LAYERS, MAX_STAR_COLORS,
    MAX_STAR_LAYERS,
};
use msg_shaders::packing::pack_prefix;
use msg_shaders::quantize::DitherPattern;

const ZERO: [f32; 4] = [0.0, 0.0, 0.0, 0.0];
const STAR: [f32; 4] = [0.60, 0.80, 1.00, 1.0];

#[test]
fn dither_pattern_reaches_the_shader() {
    assert_eq!(DitherPattern::Bayer8x8.as_u32(), 2);
}

#[test]
fn layer_and_star_counts_are_capped() {
    let layers = vec![1u8; MAX_NEBULA_LAYERS + 3];
    let stars: Vec<Vec<[f32; 4]>> = vec![vec![STAR]; MAX_STAR_LAYERS + 2];
    assert_eq!(pack_prefix(&layers, MAX_NEBULA_LAYERS, 0).count, MAX_NEBULA_LAYERS);
    assert_eq!(pack_star_colors(&stars, ZERO).layer_count, MAX_STAR_LAYERS);
}

#[test]
fn octaves_are_clamped() {
    assert_eq!(clamp_octaves(99), 8);
    assert_eq!(clamp_octaves(0), 1);
}

#[test]
fn octaves_in_range_are_kept() {
    for o in 1..=8 {
        assert_eq!(clamp_octaves(o), o);
    }
    assert_eq!(clamp_octaves(u32::MAX), 8);
}

#[test]
fn star_layers_get_disjoint_color_slices() {
    let stars = vec![
        vec![[1.0, 0.0, 0.0, 1.0], [0.0, 1.0, 0.0, 1.0]],
        vec![[0.0, 0.0, 1.0, 1.0]],
    ];
    let u = pack_star_colors(&stars, ZERO);

    assert_eq!((u.slices[0].first, u.slices[0].count), (0, 2));
    assert_eq!((u.slices[1].first, u.slices[1].count), (2, 1));
    assert_eq!(u.colors[0], [1.0, 0.0, 0.0, 1.0]);
    assert_eq!(u.colors[2], [0.0, 0.0, 1.0, 1.0]);
}

#[test]
fn star_colors_past_the_cap_are_dropped_from_the_tail() {
    let stars = vec![vec![[1.0, 0.0, 0.0, 1.0]; MAX_STAR_COLORS], vec![[0.0, 1.0, 0.0, 1.0]]];
    let u = pack_star_colors(&stars, ZERO);

    assert_eq!(u.slices[0].count, MAX_STAR_COLORS);
    // Nothing left for the second layer, which then draws no stars.
    assert_eq!(u.slices[1].count, 0);
}

#[test]
fn star_slices_of_empty_slots_are_zero() {
    let stars = vec![vec![STAR]];
    let u = pack_star_colors(&stars, ZERO);
    assert_eq!(u.slices.len(), MAX_STAR_LAYERS);
    for k in 1..MAX_STAR_LAYERS {
        assert_eq!(u.slices[k], StarSlice { first: 0, count: 0 });
    }
    assert_eq!(u.colors.len(), MAX_STAR_COLORS);
    for c in 1..MAX_STAR_COLORS {
        assert_eq!(u.colors[c], ZERO);
    }
}

#[test]
fn partly_fitting_layer_keeps_its_front_colors() {
    let a = [1.0, 0.0, 0.0, 1.0];
    let b = [0.0, 1.0, 0.0, 1.0];
    let c = [0.0, 0.0, 1.0, 1.0];
    let stars = vec![vec![a; 6], vec![b, c, a], vec![c]];
    let u = pack_star_colors(&stars, ZERO);
    assert_eq!(u.slices[1], StarSlice { first: 6, count: 2 });
    assert_eq!(u.colors[6], b);
    assert_eq!(u.colors[7], c);
    assert_eq!(u.slices[2], StarSlice { first: 8, count: 0 });
}

#[test]
fn later_layers_do_not_move_earlier_slices() {
    let short = vec![vec![STAR; 3], vec![STAR; 2]];
    let long = vec![vec![STAR; 3], vec![STAR; 2], vec![STAR; 7], vec![STAR]];
    let a = pack_star_colors(&short, ZERO);
    let b = pack_star_colors(&long, ZERO);
    assert_eq!(a.slices[0], b.slices[0]);
    assert_eq!(a.slices[1], b.slices[1]);
    assert_eq!(b.slices[2], StarSlice { first: 5, count: 3 });
    assert_eq!(b.slices[3], StarSlice { first: 8, count: 0 });
}

#[test]
fn layer_colors_stay_on_their_own_layer() {
    // Each uniform slot is packed from its own layer alone.
    let marker = [1.0, 0.0, 1.0, 1.0];
    let mut layers = vec![[[0.1, 0.1, 0.1, 1.0]; 3], [[0.2, 0.2, 0.2, 1.0]; 3]];
    layers[0][1] = marker;
    let u = pack_prefix(&layers, MAX_NEBULA_LAYERS, [ZERO; 3]);
    assert_eq!(u.slots[0][1], marker);
    for i in 1..u.count {
        let l = u.slots[i];
        assert!(l[0] != marker && l[1] != marker && l[2] != marker, "layer {i} saw layer 0");
    }
}

#[test]
fn layer_colors_never_reach_shape_uniforms() {
    // (colors, shape) per layer: recoloring layer 0 leaves every shape as it was.
    let base = vec![([0.1f32; 4], (0.0035f32, 5u32)), ([0.2f32; 4], (0.009f32, 5u32))];
    let mut recolored = base.clone();
    recolored[0].0 = [1.0, 0.0, 0.0, 1.0];
    let fill = (ZERO, (0.0, 0));
    let a = pack_prefix(&base, MAX_NEBULA_LAYERS, fill);
    let b = pack_prefix(&recolored, MAX_NEBULA_LAYERS, fill);
    assert_eq!(a.count, b.count);
    for i in 0..a.count {
        assert_eq!(a.slots[i].1, b.slots[i].1, "layer {i} shape");
    }
}
