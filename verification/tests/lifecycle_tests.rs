use game_core::arena::CropArena;
use game_core::crops::{CropDefinition, CropInstance, CropStage, CropStatus};
use game_core::items::{ItemDrop, ItemId};
use game_core::lifecycle::{advance_crop, CropEffect, DespawnReason};
use game_core::range::Range;
use rand::SeedableRng;

fn stage(model: &str, min: u32, max: u32, begin: Option<CropStatus>) -> CropStage {
    CropStage {
        model: model.to_string(),
        duration: Range { min, max },
        begin_status: begin,
    }
}

fn growing_def(durations: &[(u32, u32)]) -> CropDefinition {
    CropDefinition {
        id: "test-crop".to_string(),
        stages: durations
            .iter()
            .map(|&(min, max)| stage("m.glb", min, max, Some(CropStatus::Growing)))
            .collect(),
    }
}

#[test]
fn empty_stage_list_rejected() {
    let def = CropDefinition {
        id: "empty".to_string(),
        stages: vec![],
    };
    assert!(CropInstance::new(&def).is_err());
    let mut arena = CropArena::new(7);
    let mut out = Vec::new();
    assert!(arena.plant(&def, &mut out).is_err());
    assert_eq!(arena.len(), 0);
    assert!(out.is_empty());
}

#[test]
fn positive_timer_only_decrements() {
    let mut rng = rand::rngs::StdRng::seed_from_u64(1);
    let def = growing_def(&[(4, 4), (2, 2)]);
    let mut inst = CropInstance::new(&def).unwrap();
    inst.timer = 4;
    let mut out = Vec::new();
    let alive = advance_crop(&mut inst, 0, &mut rng, &mut out);
    assert!(alive);
    assert_eq!(inst.timer, 3);
    assert_eq!(inst.index, 0);
    assert_eq!(inst.status, CropStatus::Growing);
    assert!(out.is_empty());
}

#[test]
fn zero_timer_ticks_never_underflow() {
    // Stages that carry the status over never reset the timer, so it stays
    // at zero across repeated ticks while the index moves one per tick.
    let mut rng = rand::rngs::StdRng::seed_from_u64(2);
    let stages: Vec<CropStage> = (0..5).map(|_| stage("m.glb", 1, 1, None)).collect();
    let mut inst = CropInstance {
        id: "zeros".to_string(),
        stages,
        index: 0,
        timer: 0,
        status: CropStatus::Growing,
        fruit: None,
    };
    for expected_index in 1..5 {
        let mut out = Vec::new();
        let alive = advance_crop(&mut inst, 0, &mut rng, &mut out);
        assert!(alive);
        assert_eq!(inst.index, expected_index);
        assert_eq!(inst.timer, 0);
    }
    let mut out = Vec::new();
    let alive = advance_crop(&mut inst, 0, &mut rng, &mut out);
    assert!(!alive);
    assert_eq!(
        out,
        vec![CropEffect::Despawned {
            crop: 0,
            reason: DespawnReason::EndOfLife
        }]
    );
}

#[test]
fn none_begin_status_carries_status_over() {
    let mut rng = rand::rngs::StdRng::seed_from_u64(3);
    let drops = vec![ItemDrop {
        item: ItemId("berry".to_string()),
        amount: Range { min: 1, max: 2 },
    }];
    let before = CropStatus::Fruiting {
        model: "fruit.glb".to_string(),
        drops: drops.clone(),
    };
    let mut inst = CropInstance {
        id: "carry".to_string(),
        stages: vec![
            stage("a.glb", 1, 1, Some(before.clone())),
            stage("b.glb", 1, 1, None),
        ],
        index: 0,
        timer: 0,
        status: before.clone(),
        fruit: Some(drops.clone()),
    };
    let mut out = Vec::new();
    let alive = advance_crop(&mut inst, 9, &mut rng, &mut out);
    assert!(alive);
    assert_eq!(inst.index, 1);
    // The status is exactly its pre-transition value, the timer was not
    // reset, and the fruit payload is untouched.
    assert_eq!(inst.status, before);
    assert_eq!(inst.timer, 0);
    assert_eq!(inst.fruit, Some(drops.clone()));
    // The outgoing Fruiting status resolved its drops.
    assert_eq!(
        out,
        vec![
            CropEffect::StageChanged {
                crop: 9,
                id: "carry".to_string()
            },
            CropEffect::CollidersRegenerated { crop: 9 },
            CropEffect::LoadModel {
                crop: 9,
                model: "b.glb".to_string()
            },
            CropEffect::DropsResolved { crop: 9, drops },
        ]
    );
}

#[test]
fn two_stage_fruiting_scenario() {
    // Stages: one-day Growing, then a Fruiting stage with a seed drop.
    let drops = vec![ItemDrop {
        item: ItemId("seed".to_string()),
        amount: Range { min: 1, max: 1 },
    }];
    let fruiting = CropStatus::Fruiting {
        model: "m".to_string(),
        drops: drops.clone(),
    };
    let def = CropDefinition {
        id: "scenario".to_string(),
        stages: vec![
            stage("s0.glb", 1, 1, Some(CropStatus::Growing)),
            stage("s1.glb", 1, 1, Some(fruiting.clone())),
        ],
    };
    let mut arena = CropArena::new(11);
    let mut out = Vec::new();
    let h = arena.plant(&def, &mut out).unwrap();
    assert_eq!(arena.get(h).unwrap().timer, 1);
    assert_eq!(arena.get(h).unwrap().status, CropStatus::Growing);

    // Day 1: the countdown runs out (1 -> 0); no stage change yet.
    arena.trigger_day(&mut out);
    assert_eq!(arena.get(h).unwrap().index, 0);
    assert_eq!(arena.get(h).unwrap().timer, 0);

    // Day 2: the stage advances and the Fruiting status attaches its drops.
    arena.trigger_day(&mut out);
    let inst = arena.get(h).unwrap();
    assert_eq!(inst.index, 1);
    assert_eq!(inst.status, fruiting);
    assert_eq!(inst.fruit, Some(drops));

    // Day 3: advancement overruns the last stage; the crop is done.
    let mut day3 = Vec::new();
    arena.trigger_day(&mut day3);
    assert!(arena.get(h).is_none());
    assert_eq!(arena.len(), 1);
    assert!(day3.contains(&CropEffect::Despawned {
        crop: h,
        reason: DespawnReason::EndOfLife
    }));
}

#[test]
fn dead_status_destroys_on_entry() {
    let def = CropDefinition {
        id: "doomed".to_string(),
        stages: vec![
            stage("s0.glb", 1, 1, Some(CropStatus::Growing)),
            stage("s1.glb", 1, 1, Some(CropStatus::Dead)),
        ],
    };
    let mut arena = CropArena::new(13);
    let mut out = Vec::new();
    let h = arena.plant(&def, &mut out).unwrap();
    arena.trigger_day(&mut out); // countdown 1 -> 0
    let mut day2 = Vec::new();
    arena.trigger_day(&mut day2); // enters the Dead stage
    assert!(arena.get(h).is_none());
    assert!(day2.contains(&CropEffect::Despawned {
        crop: h,
        reason: DespawnReason::Died
    }));
}

#[test]
fn outgoing_dead_status_destroys_before_status_change() {
    // A crop whose current status is Dead is destroyed by the outgoing
    // dispatch of the next transition, before any new status applies.
    let mut rng = rand::rngs::StdRng::seed_from_u64(4);
    let mut inst = CropInstance {
        id: "wilted".to_string(),
        stages: vec![
            stage("a.glb", 1, 1, Some(CropStatus::Dead)),
            stage("b.glb", 1, 1, Some(CropStatus::Growing)),
        ],
        index: 0,
        timer: 0,
        status: CropStatus::Dead,
        fruit: None,
    };
    let mut out = Vec::new();
    let alive = advance_crop(&mut inst, 3, &mut rng, &mut out);
    assert!(!alive);
    assert_eq!(
        out,
        vec![
            CropEffect::StageChanged {
                crop: 3,
                id: "wilted".to_string()
            },
            CropEffect::CollidersRegenerated { crop: 3 },
            CropEffect::LoadModel {
                crop: 3,
                model: "b.glb".to_string()
            },
            CropEffect::Despawned {
                crop: 3,
                reason: DespawnReason::Died
            },
        ]
    );
}

#[test]
fn planting_seeds_status_without_attaching_fruit() {
    // Stage 0's status is seeded at planting, but the drop payload only
    // attaches when a later transition enters a Fruiting/Seeding stage.
    let drops = vec![ItemDrop {
        item: ItemId("pip".to_string()),
        amount: Range { min: 2, max: 2 },
    }];
    let seeding = CropStatus::Seeding {
        model: "s.glb".to_string(),
        drops,
    };
    let def = CropDefinition {
        id: "early-seeder".to_string(),
        stages: vec![stage("a.glb", 3, 3, Some(seeding.clone()))],
    };
    let mut arena = CropArena::new(37);
    let mut out = Vec::new();
    let h = arena.plant(&def, &mut out).unwrap();
    let inst = arena.get(h).unwrap();
    assert_eq!(inst.status, seeding);
    assert_eq!(inst.fruit, None);
    assert_eq!(inst.timer, 3);
}

#[test]
fn full_lifecycle_tick_count() {
    // With fixed durations 2, 3, 1 the crop lives through
    // (2+1) + (3+1) + (1+1) = 9 day-ticks and dies on the ninth.
    let def = growing_def(&[(2, 2), (3, 3), (1, 1)]);
    let mut arena = CropArena::new(17);
    let mut out = Vec::new();
    let h = arena.plant(&def, &mut out).unwrap();
    for _ in 0..8 {
        arena.trigger_day(&mut out);
        assert!(arena.get(h).is_some());
    }
    arena.trigger_day(&mut out);
    assert!(arena.get(h).is_none());
}

#[test]
fn manual_trigger_twice_gives_two_passes() {
    let def = growing_def(&[(5, 5)]);
    let mut arena = CropArena::new_with_period(19, 1000);
    let mut out = Vec::new();
    let h = arena.plant(&def, &mut out).unwrap();
    assert_eq!(arena.get(h).unwrap().timer, 5);
    // Two manual triggers within the same frame: two full advancement
    // passes, two decrements, and the countdown rewound to a full period.
    arena.trigger_day(&mut out);
    arena.trigger_day(&mut out);
    assert_eq!(arena.get(h).unwrap().timer, 3);
    assert_eq!(arena.clock.remaining, 1000);
}

#[test]
fn status_model_override_is_second_load() {
    let fruiting = CropStatus::Fruiting {
        model: "override.glb".to_string(),
        drops: vec![],
    };
    let def = CropDefinition {
        id: "layered".to_string(),
        stages: vec![
            stage("s0.glb", 1, 1, Some(CropStatus::Growing)),
            stage("s1.glb", 1, 1, Some(fruiting)),
        ],
    };
    let mut arena = CropArena::new(23);
    let mut out = Vec::new();
    let h = arena.plant(&def, &mut out).unwrap();
    arena.trigger_day(&mut out);
    let mut day2 = Vec::new();
    arena.trigger_day(&mut day2);
    // The stage's own model loads first, the status override second.
    assert_eq!(
        day2,
        vec![
            CropEffect::StageChanged {
                crop: h,
                id: "layered".to_string()
            },
            CropEffect::CollidersRegenerated { crop: h },
            CropEffect::LoadModel {
                crop: h,
                model: "s1.glb".to_string()
            },
            CropEffect::LoadModel {
                crop: h,
                model: "override.glb".to_string()
            },
        ]
    );
}

#[test]
fn planting_emits_collider_and_model_effects() {
    let def = growing_def(&[(3, 3)]);
    let mut arena = CropArena::new(29);
    let mut out = Vec::new();
    let h = arena.plant(&def, &mut out).unwrap();
    assert_eq!(
        out,
        vec![
            CropEffect::CollidersRegenerated { crop: h },
            CropEffect::LoadModel {
                crop: h,
                model: "m.glb".to_string()
            },
        ]
    );
}

#[test]
fn handles_stay_stable_across_despawn() {
    let short = growing_def(&[(0, 0)]);
    let long = growing_def(&[(9, 9)]);
    let mut arena = CropArena::new(31);
    let mut out = Vec::new();
    let h0 = arena.plant(&short, &mut out).unwrap();
    let h1 = arena.plant(&long, &mut out).unwrap();
    assert_eq!((h0, h1), (0, 1));
    arena.trigger_day(&mut out); // the short crop overruns immediately
    assert!(arena.get(h0).is_none());
    assert_eq!(arena.get(h1).unwrap().timer, 8);
    assert_eq!(arena.len(), 2);
}
