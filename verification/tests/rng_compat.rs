use hauberk::Pcg32;
use rand_core::Rng;

fn assert_matches_reference(state: u64, stream: u64, draws: usize) {
    let mut ours = Pcg32::new(state, stream);
    let mut reference = rand_pcg::Pcg32::new(state, stream);
    for i in 0..draws {
        let a = ours.next_u32();
        let b = reference.next_u32();
        assert_eq!(a, b, "draw {} diverged for seed ({:#x}, {:#x})", i, state, stream);
    }
}

#[test]
fn matches_rand_pcg_on_game_seed() {
    assert_matches_reference(0x844cfa4bf95ef68, 0x2a04cd05868ddbcd, 1000);
}

#[test]
fn matches_rand_pcg_on_zero_seed() {
    assert_matches_reference(0, 0, 1000);
}

#[test]
fn matches_rand_pcg_on_default_pcg_seed() {
    assert_matches_reference(0xcafef00dd15ea5e5, 0xa02bdbf7bb3c0a7, 1000);
}

#[test]
fn matches_rand_pcg_on_extreme_seed() {
    assert_matches_reference(u64::MAX, u64::MAX, 1000);
}

#[test]
fn same_seed_gives_same_sequence() {
    let mut a = Pcg32::new(42, 54);
    let mut b = Pcg32::new(42, 54);
    for _ in 0..100 {
        assert_eq!(a.next_u32(), b.next_u32());
    }
}

#[test]
fn first_draw_on_game_seed_is_pinned() {
    // the reference value was produced by rand_pcg's Pcg32 on this seed
    let mut reference = rand_pcg::Pcg32::new(0x844cfa4bf95ef68, 0x2a04cd05868ddbcd);
    let expected = reference.next_u32();
    let mut ours = Pcg32::new(0x844cfa4bf95ef68, 0x2a04cd05868ddbcd);
    assert_eq!(ours.next_u32(), expected);
}

#[test]
fn next_bounded_stays_in_range() {
    let mut r = Pcg32::new(7, 11);
    for _ in 0..200 {
        let v = r.next_bounded(3, 10).unwrap();
        assert!((3..10).contains(&v));
    }
}

#[test]
fn next_bounded_rejects_degenerate_ranges() {
    let mut r = Pcg32::new(7, 11);
    assert_eq!(r.next_bounded(5, 5), None);
    assert_eq!(r.next_bounded(6, 5), None);
    // a rejected range consumes no draw
    let mut fresh = Pcg32::new(7, 11);
    assert_eq!(r.next_bounded(0, 100), fresh.next_bounded(0, 100));
}

#[test]
fn next_bounded_is_plain_modulo_of_one_draw() {
    let mut a = Pcg32::new(99, 101);
    let mut b = Pcg32::new(99, 101);
    let raw = a.next_u32();
    let bounded = b.next_bounded(10, 17).unwrap();
    assert_eq!(bounded, 10 + raw % 7);
}

#[test]
fn pick_index_on_empty_is_none() {
    let mut r = Pcg32::new(1, 2);
    assert_eq!(r.pick_index(0), None);
}

#[test]
fn pick_index_stays_in_range_and_is_deterministic() {
    let mut a = Pcg32::new(8, 16);
    let mut b = Pcg32::new(8, 16);
    for len in 1..50usize {
        let ia = a.pick_index(len).unwrap();
        let ib = b.pick_index(len).unwrap();
        assert_eq!(ia, ib);
        assert!(ia < len);
    }
}
