use msg_shaders::lensing::{
    select_lenses, sort_by_rank_desc, LensCandidate, LENSING_FIELD_RES, MAX_LENSES,
};

fn cand(rank: i32, lens: u32, q: Option<u8>) -> LensCandidate<u32, u8> {
    LensCandidate { rank, lens, quantization: q }
}

#[test]
fn lenses_that_fit_keep_gather_order() {
    let c = vec![cand(1, 10, None), cand(5, 11, None), cand(3, 12, None)];
    let s = select_lenses(&c);
    assert_eq!(s.lenses, vec![10, 11, 12]);
    assert_eq!(s.quantization, None);
}

#[test]
fn first_palette_wins() {
    let c = vec![cand(1, 10, None), cand(5, 11, Some(7)), cand(3, 12, Some(9))];
    assert_eq!(select_lenses(&c).quantization, Some(7));
}

#[test]
fn palette_of_a_dropped_lens_still_counts() {
    // The palette is taken before the cap: the first carrier wins even if
    // its lens loses its slot.
    let mut c = vec![cand(-100, 0, Some(3))];
    for i in 0..MAX_LENSES as u32 {
        c.push(cand(10, i + 1, None));
    }
    let s = select_lenses(&c);
    assert_eq!(s.quantization, Some(3));
    assert_eq!(s.lenses.len(), MAX_LENSES);
    assert!(!s.lenses.contains(&0));
}

#[test]
fn strongest_lenses_win_the_slots() {
    let mut c = Vec::new();
    for i in 0..(MAX_LENSES as i32 + 10) {
        c.push(cand(i, i as u32, None));
    }
    let s = select_lenses(&c);
    assert_eq!(s.lenses.len(), MAX_LENSES);
    assert_eq!(s.lenses[0], MAX_LENSES as u32 + 9);
    assert_eq!(*s.lenses.last().unwrap(), 10);
    for w in s.lenses.windows(2) {
        assert!(w[0] > w[1]);
    }
}

#[test]
fn equal_ranks_keep_gather_order() {
    let c = vec![cand(2, 1, None), cand(5, 2, None), cand(2, 3, None), cand(5, 4, None)];
    let sorted = sort_by_rank_desc(&c);
    let lenses: Vec<u32> = sorted.iter().map(|c| c.lens).collect();
    assert_eq!(lenses, vec![2, 4, 1, 3]);
}

#[test]
fn field_resolution_is_512() {
    assert_eq!(LENSING_FIELD_RES, 512);
}

#[test]
fn equal_ranks_keep_gather_order_past_the_cap() {
    let mut c = Vec::new();
    for i in 0..(MAX_LENSES as u32 + 6) {
        c.push(cand((i % 2) as i32, i, None));
    }
    let s = select_lenses(&c);
    // Every odd-indexed (rank 1) lens first, in gather order, then the even ones.
    let expected: Vec<u32> = (0..(MAX_LENSES as u32 + 6))
        .filter(|i| i % 2 == 1)
        .chain((0..(MAX_LENSES as u32 + 6)).filter(|i| i % 2 == 0))
        .take(MAX_LENSES)
        .collect();
    assert_eq!(s.lenses, expected);
}
