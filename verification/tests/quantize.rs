use msg_shaders::quantize::{palette_key, palette_key_in_order, DitherPattern, MAX_PALETTE_COLORS};
use std::hash::{Hash, Hasher};

#[test]
fn dither_pattern_default_is_bayer4x4() {
    assert_eq!(DitherPattern::default(), DitherPattern::Bayer4x4);
}

#[test]
fn dither_pattern_as_u32() {
    assert_eq!(DitherPattern::Off.as_u32(), 0);
    assert_eq!(DitherPattern::Bayer4x4.as_u32(), 1);
    assert_eq!(DitherPattern::Bayer8x8.as_u32(), 2);
}

#[test]
fn dither_codes_are_distinct() {
    let all = [DitherPattern::Off, DitherPattern::Bayer4x4, DitherPattern::Bayer8x8];
    for a in all {
        for b in all {
            assert_eq!(a.as_u32() == b.as_u32(), a == b);
        }
    }
}

#[test]
fn palette_cap_is_sixty_four() {
    assert_eq!(MAX_PALETTE_COLORS, 64);
}

fn bits(c: [f32; 4]) -> [u32; 3] {
    [c[0].to_bits(), c[1].to_bits(), c[2].to_bits()]
}

#[test]
fn palette_key_is_deterministic() {
    let palette = [bits([0.0, 0.0, 0.0, 1.0]), bits([1.0, 1.0, 1.0, 1.0])];
    assert_eq!(palette_key(2, &palette), palette_key(2, &palette));
}

#[test]
fn palette_key_ignores_alpha_and_inactive_entries() {
    // Alpha never reaches the key; entries past the size do not either.
    let a = [bits([0.2, 0.4, 0.6, 1.0]), bits([1.0, 0.0, 0.0, 1.0])];
    let b = [bits([0.2, 0.4, 0.6, 0.1]), bits([0.0, 1.0, 0.0, 0.5])];
    assert_eq!(palette_key(1, &a), palette_key(1, &b));
}

#[test]
fn palette_key_changes_with_the_palette() {
    let a = [bits([0.2, 0.4, 0.6, 1.0])];
    let b = [bits([0.2, 0.4, 0.7, 1.0])];
    assert_ne!(palette_key(1, &a), palette_key(1, &b));
    assert_ne!(palette_key(1, &a), palette_key(0, &a));
}

#[test]
fn palette_key_size_past_the_entries_reads_only_the_entries() {
    let a = [bits([0.2, 0.4, 0.6, 1.0])];
    // A size larger than the list hashes the size and every entry there is.
    assert_eq!(palette_key(5, &a), palette_key(5, &a));
    assert_ne!(palette_key(5, &a), palette_key(1, &a));
}

#[test]
fn palette_key_matches_the_word_by_word_hash() {
    let palette = [bits([0.5, 0.25, 0.125, 1.0]), bits([1.0, 1.0, 1.0, 1.0])];
    let mut hasher = std::collections::hash_map::DefaultHasher::new();
    2u32.hash(&mut hasher);
    for c in &palette {
        for w in c {
            w.hash(&mut hasher);
        }
    }
    assert_eq!(palette_key(2, &palette), hasher.finish());
}

#[test]
fn palette_key_in_order_writes_the_chosen_byte_order() {
    let palette = [bits([0.5, 0.25, 0.125, 1.0])];
    let mut le = std::collections::hash_map::DefaultHasher::new();
    let mut be = std::collections::hash_map::DefaultHasher::new();
    for w in [1u32, palette[0][0], palette[0][1], palette[0][2]] {
        le.write(&w.to_le_bytes());
        be.write(&w.to_be_bytes());
    }
    assert_eq!(palette_key_in_order(true, 1, &palette), le.finish());
    assert_eq!(palette_key_in_order(false, 1, &palette), be.finish());
    let key = palette_key(1, &palette);
    assert!(key == le.finish() || key == be.finish());
}
