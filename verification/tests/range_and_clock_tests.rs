use game_core::arena::CropArena;
use game_core::crops::{CropDefinition, CropStage, CropStatus};
use game_core::days::{DayClock, DAY_LENGTH_MILLIS};
use game_core::range::Range;
use rand::SeedableRng;

#[test]
fn sampling_stays_within_bounds() {
    let mut rng = rand::rngs::StdRng::seed_from_u64(42);
    let r = Range { min: 3, max: 9 };
    for _ in 0..1000 {
        let v = r.get(&mut rng);
        assert!((3..=9).contains(&v));
    }
}

#[test]
fn degenerate_range_returns_the_constant() {
    let mut rng = rand::rngs::StdRng::seed_from_u64(43);
    let r = Range { min: 7, max: 7 };
    for _ in 0..100 {
        assert_eq!(r.get(&mut rng), 7);
    }
}

#[test]
fn sampling_is_deterministic_under_a_fixed_seed() {
    let r = Range { min: 0, max: 1000 };
    let mut a = rand::rngs::StdRng::seed_from_u64(77);
    let mut b = rand::rngs::StdRng::seed_from_u64(77);
    let xs: Vec<u32> = (0..50).map(|_| r.get(&mut a)).collect();
    let ys: Vec<u32> = (0..50).map(|_| r.get(&mut b)).collect();
    assert_eq!(xs, ys);
}

#[test]
fn range_default_is_zero_to_one() {
    assert_eq!(Range::default(), Range { min: 0, max: 1 });
}

#[test]
fn status_default_is_growing() {
    assert_eq!(CropStatus::default(), CropStatus::Growing);
}

#[test]
fn clock_counts_down_and_fires_on_expiry() {
    let mut clock = DayClock::new(1000);
    assert!(!clock.advance(999));
    assert_eq!(clock.remaining, 1);
    assert!(clock.advance(1));
    assert_eq!(clock.remaining, 1000);
}

#[test]
fn clock_keeps_the_overshoot_remainder() {
    let mut clock = DayClock::new(1000);
    assert!(clock.advance(2500));
    // 1500 ms beyond the first expiry wraps to half a period left.
    assert_eq!(clock.remaining, 500);
}

#[test]
fn clock_reports_at_most_one_day_per_frame() {
    let mut clock = DayClock::new(100);
    let mut fired = 0;
    if clock.advance(1000) {
        fired += 1;
    }
    assert_eq!(fired, 1);
}

#[test]
fn default_day_length_is_forty_five_seconds() {
    assert_eq!(DAY_LENGTH_MILLIS, 45_000);
    let arena = CropArena::new(1);
    assert_eq!(arena.clock.period, 45_000);
}

#[test]
fn frame_drives_the_day_cycle() {
    let def = CropDefinition {
        id: "framed".to_string(),
        stages: vec![CropStage {
            model: "m.glb".to_string(),
            duration: Range { min: 4, max: 4 },
            begin_status: Some(CropStatus::Growing),
        }],
    };
    let mut arena = CropArena::new_with_period(5, 10);
    let mut out = Vec::new();
    let h = arena.plant(&def, &mut out).unwrap();
    assert!(!arena.frame(9, &mut out));
    assert_eq!(arena.get(h).unwrap().timer, 4);
    assert!(arena.frame(1, &mut out));
    assert_eq!(arena.get(h).unwrap().timer, 3);
    assert!(arena.frame(25, &mut out));
    assert_eq!(arena.get(h).unwrap().timer, 2);
    assert_eq!(arena.clock.remaining, 5);
}

#[test]
fn manual_trigger_rewinds_the_countdown() {
    let mut arena = CropArena::new_with_period(5, 100);
    let mut out = Vec::new();
    assert!(!arena.frame(60, &mut out));
    assert_eq!(arena.clock.remaining, 40);
    arena.trigger_day(&mut out);
    assert_eq!(arena.clock.remaining, 100);
}
