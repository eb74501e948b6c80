use msg_shaders::lensing::{MAX_DEFLECTION_SOURCES, MAX_LENSES};
use msg_shaders::packing::{dropped_count, pack_prefix};
use msg_shaders::quantize::MAX_PALETTE_COLORS;

#[test]
fn pack_copies_the_front_and_fills_the_rest() {
    let items = [3u32, 4, 5];
    let p = pack_prefix(&items, 5, 0);
    assert_eq!(p.count, 3);
    assert_eq!(p.slots, vec![3, 4, 5, 0, 0]);
}

#[test]
fn pack_drops_items_past_the_capacity() {
    let items: Vec<u32> = (0..70).collect();
    let p = pack_prefix(&items, MAX_PALETTE_COLORS, 0);
    assert_eq!(p.count, MAX_PALETTE_COLORS);
    assert_eq!(p.slots.len(), MAX_PALETTE_COLORS);
    assert_eq!(p.slots[63], 63);
}

#[test]
fn pack_of_nothing_is_all_fill() {
    let items: [i8; 0] = [];
    let p = pack_prefix(&items, 4, -1);
    assert_eq!(p.count, 0);
    assert_eq!(p.slots, vec![-1; 4]);
}

#[test]
fn full_source_array_reports_the_drops() {
    let sources = vec![7u16; MAX_DEFLECTION_SOURCES + 5];
    let p = pack_prefix(&sources, MAX_DEFLECTION_SOURCES, 0);
    assert_eq!(p.count, MAX_DEFLECTION_SOURCES);
    assert_eq!(dropped_count(sources.len(), MAX_DEFLECTION_SOURCES), 5);
    assert_eq!(dropped_count(MAX_LENSES, MAX_LENSES), 0);
    assert_eq!(dropped_count(0, MAX_LENSES), 0);
}
