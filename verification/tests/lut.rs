use msg_shaders::lut::{
    bake_lut, lut_side_of, plan_lut, LutPlan, EMPTY_PALETTE_LUT_RESOLUTION,
    PALETTE_LUT_RESOLUTION,
};

#[test]
fn lut_is_baked_x_fastest_then_y_then_z() {
    let data = bake_lut(3, |x, y, z| (x, y, z));
    assert_eq!(data.len(), 27);
    for z in 0..3u32 {
        for y in 0..3u32 {
            for x in 0..3u32 {
                let i = ((z * 3 + y) * 3 + x) as usize;
                assert_eq!(data[i], (x, y, z));
            }
        }
    }
}

#[test]
fn lut_resolution_zero_bakes_one_cell() {
    assert_eq!(lut_side_of(0), 1);
    let data = bake_lut(0, |x, y, z| x + y + z + 7);
    assert_eq!(data, vec![7]);
}

#[test]
fn lut_cells_see_their_centers() {
    // The baker hands each cell its own coordinates, as the palette match
    // at the cell center needs.
    let n = 4u32;
    let data = bake_lut(n, |x, y, z| {
        let inv = 1.0 / n as f32;
        [(x as f32 + 0.5) * inv, (y as f32 + 0.5) * inv, (z as f32 + 0.5) * inv]
    });
    assert_eq!(data.len(), 64);
    assert_eq!(data[0], [0.125, 0.125, 0.125]);
    assert_eq!(data[63], [0.875, 0.875, 0.875]);
    assert_eq!(data[1], [0.375, 0.125, 0.125]);
    assert_eq!(data[4], [0.125, 0.375, 0.125]);
    assert_eq!(data[16], [0.125, 0.125, 0.375]);
}

#[test]
fn lut_is_rebuilt_only_when_the_palette_changes() {
    assert_eq!(plan_lut(None, 42, 3), LutPlan::Rebuild { resolution: PALETTE_LUT_RESOLUTION });
    assert_eq!(plan_lut(Some(42), 42, 3), LutPlan::Reuse);
    assert_eq!(plan_lut(Some(41), 42, 3), LutPlan::Rebuild { resolution: 64 });
}

#[test]
fn empty_palette_gets_a_placeholder_table() {
    assert_eq!(
        plan_lut(None, 9, 0),
        LutPlan::Rebuild { resolution: EMPTY_PALETTE_LUT_RESOLUTION }
    );
    assert_eq!(EMPTY_PALETTE_LUT_RESOLUTION, 2);
}
