//! The stage-advancement state machine: what one "new day" signal does to one
//! planted crop, and the side effects it hands to the outside collaborators.

use vstd::prelude::*;

use crate::crops::{CropInstance, CropStatus, InstanceView, StageView, StatusView};
use crate::items::{clone_drops, DropView, ItemDrop};

verus! {

/// Why an instance was removed from the world.
#[derive(Debug, Clone, Copy, PartialEq, Eq, Structural)]
pub enum DespawnReason {
    /// Advancement ran past the final stage: the expected terminal condition,
    /// logged as a non-fatal diagnostic.
    EndOfLife,
    /// The Dead status destroyed the crop.
    Died,
}

/// A side effect emitted while advancing a crop, in emission order, consumed
/// by the visual-effects, physics, asset and drop collaborators.
#[derive(Debug, PartialEq)]
pub enum CropEffect {
    /// A stage transition occurred on the identified crop.
    StageChanged { crop: usize, id: String },
    /// The colliders under the crop's visual subtree must be removed and
    /// recomputed, because the visual model is about to change.
    CollidersRegenerated { crop: usize },
    /// Load the named visual model and swap it in.
    LoadModel { crop: usize, model: String },
    /// The outgoing stage's drop table is handed to the drop collaborator.
    DropsResolved { crop: usize, drops: Vec<ItemDrop> },
    /// The instance was removed from the world.
    Despawned { crop: usize, reason: DespawnReason },
}

/// Mathematical shape of a [`CropEffect`].
#[verifier::ext_equal]
pub enum EffectView {
    StageChanged { crop: int, id: Seq<char> },
    CollidersRegenerated { crop: int },
    LoadModel { crop: int, model: Seq<char> },
    DropsResolved { crop: int, drops: Seq<DropView> },
    Despawned { crop: int, reason: DespawnReason },
}

impl View for CropEffect {
    type V = EffectView;

    open spec fn view(&self) -> EffectView {
        match self {
            CropEffect::StageChanged { crop, id } => EffectView::StageChanged {
                crop: *crop as int,
                id: id@,
            },
            CropEffect::CollidersRegenerated { crop } => EffectView::CollidersRegenerated {
                crop: *crop as int,
            },
            CropEffect::LoadModel { crop, model } => EffectView::LoadModel {
                crop: *crop as int,
                model: model@,
            },
            CropEffect::DropsResolved { crop, drops } => EffectView::DropsResolved {
                crop: *crop as int,
                drops: crate::items::drops_view(drops@),
            },
            CropEffect::Despawned { crop, reason } => EffectView::Despawned {
                crop: *crop as int,
                reason: *reason,
            },
        }
    }
}

/// The effect list, element by element, as its mathematical shape.
pub open spec fn effects_view(es: Seq<CropEffect>) -> Seq<EffectView> {
    es.map_values(|e: CropEffect| e@)
}

/// The instance state after one day-tick, `None` when the instance is
/// destroyed. `roll` is the freshly sampled duration, consulted only when the
/// tick enters a stage whose incoming status is Growing.
///
/// The transition, run once per "new day" signal per live crop:
/// a positive countdown timer is decremented (saturating) and nothing else
/// happens; at zero the stage index advances, past the last stage the crop is
/// done, a Dead status going out of effect destroys it, and otherwise the
/// entered stage's `begin_status` is applied: `None` carries the status over
/// unchanged, Dead destroys the crop, Fruiting/Seeding attach their drop
/// payload, and only Growing refreshes the countdown timer.
pub open spec fn tick_post(pre: InstanceView, roll: u32) -> Option<InstanceView> {
    if pre.timer > 0 {
        Some(InstanceView { timer: (pre.timer - 1) as u32, ..pre })
    } else if pre.index + 1 >= pre.stages.len() {
        None
    } else if pre.status is Dead {
        None
    } else {
        let j = pre.index + 1;
        match pre.stages[j].begin_status {
            None => Some(InstanceView { index: j, ..pre }),
            Some(ns) => match ns {
                StatusView::Dead => None,
                StatusView::Growing => Some(
                    InstanceView { index: j, status: StatusView::Growing, timer: roll, ..pre },
                ),
                StatusView::Fruiting { model: _, drops } => Some(
                    InstanceView { index: j, status: ns, fruit: Some(drops), ..pre },
                ),
                StatusView::Seeding { model: _, drops } => Some(
                    InstanceView { index: j, status: ns, fruit: Some(drops), ..pre },
                ),
            },
        }
    }
}

/// Whether the tick refreshes the countdown timer: that happens exactly when
/// a stage is entered and its incoming status is Growing.
pub open spec fn tick_resamples(pre: InstanceView) -> bool {
    &&& pre.timer == 0
    &&& pre.index + 1 < pre.stages.len()
    &&& !(pre.status is Dead)
    &&& pre.stages[pre.index + 1].begin_status matches Some(StatusView::Growing)
}

/// When the tick samples a fresh duration, the sample lies within the entered
/// stage's duration bounds.
pub open spec fn roll_ok(pre: InstanceView, roll: u32) -> bool {
    tick_resamples(pre) ==> {
        let d = pre.stages[pre.index + 1].duration;
        d.min <= roll <= d.max
    }
}

/// The side effects of one day-tick, in emission order: on a stage change the
/// transition notification, the collider invalidation/regeneration request
/// and the stage model load; then the outgoing status's drop resolution; then
/// the incoming status's own model override or the despawn.
pub open spec fn tick_effects(pre: InstanceView, crop: int, roll: u32) -> Seq<EffectView> {
    if pre.timer > 0 {
        Seq::<EffectView>::empty()
    } else if pre.index + 1 >= pre.stages.len() {
        seq![EffectView::Despawned { crop, reason: DespawnReason::EndOfLife }]
    } else {
        let j = pre.index + 1;
        let head = seq![
            EffectView::StageChanged { crop, id: pre.id },
            EffectView::CollidersRegenerated { crop },
            EffectView::LoadModel { crop, model: pre.stages[j].model },
        ];
        if pre.status is Dead {
            head + seq![EffectView::Despawned { crop, reason: DespawnReason::Died }]
        } else {
            let mid = match pre.status {
                StatusView::Fruiting { model: _, drops } => seq![
                    EffectView::DropsResolved { crop, drops },
                ],
                StatusView::Seeding { model: _, drops } => seq![
                    EffectView::DropsResolved { crop, drops },
                ],
                _ => Seq::<EffectView>::empty(),
            };
            let tail = match pre.stages[j].begin_status {
                None => Seq::<EffectView>::empty(),
                Some(ns) => match ns {
                    StatusView::Dead => seq![
                        EffectView::Despawned { crop, reason: DespawnReason::Died },
                    ],
                    StatusView::Growing => Seq::<EffectView>::empty(),
                    StatusView::Fruiting { model, drops: _ } => seq![
                        EffectView::LoadModel { crop, model },
                    ],
                    StatusView::Seeding { model, drops: _ } => seq![
                        EffectView::LoadModel { crop, model },
                    ],
                },
            };
            head + mid + tail
        }
    }
}

/// Everything one day-tick on one crop guarantees, for the duration sample
/// `roll` that the tick drew (any value, when it drew none).
pub open spec fn tick_rel(
    pre: InstanceView,
    post: InstanceView,
    alive: bool,
    out_pre: Seq<EffectView>,
    out_post: Seq<EffectView>,
    crop: int,
    roll: u32,
) -> bool {
    &&& roll_ok(pre, roll)
    &&& (match tick_post(pre, roll) {
        Some(v) => alive && post == v,
        None => !alive,
    })
    &&& out_post == out_pre + tick_effects(pre, crop, roll)
}

/// The instance state after first-stage initialization at planting time:
/// the status is seeded from stage 0's `begin_status` (or the Growing
/// default) and the countdown timer from stage 0's duration.
pub open spec fn init_post(pre: InstanceView, roll: u32) -> InstanceView {
    InstanceView {
        status: match pre.stages[0].begin_status {
            Some(s) => s,
            None => StatusView::Growing,
        },
        timer: roll,
        ..pre
    }
}

/// The sample drawn at planting lies within stage 0's duration bounds.
pub open spec fn init_roll_ok(pre: InstanceView, roll: u32) -> bool {
    pre.stages.len() > 0 ==> {
        let d = pre.stages[0].duration;
        d.min <= roll <= d.max
    }
}

/// The side effects of planting: a collider request and the first stage's
/// model load.
pub open spec fn init_effects(pre: InstanceView, crop: int) -> Seq<EffectView> {
    seq![
        EffectView::CollidersRegenerated { crop },
        EffectView::LoadModel { crop, model: pre.stages[0].model },
    ]
}

/// Everything planting initialization on one crop guarantees, for the
/// duration sample `roll` it drew.
pub open spec fn init_rel(
    pre: InstanceView,
    post: InstanceView,
    out_pre: Seq<EffectView>,
    out_post: Seq<EffectView>,
    crop: int,
    roll: u32,
) -> bool {
    &&& init_roll_ok(pre, roll)
    &&& post == init_post(pre, roll)
    &&& out_post == out_pre + init_effects(pre, crop)
}

/// Performs first-stage initialization on a freshly constructed instance:
/// logically the stage-advancement step applied once at planting time,
/// without the decrement/notify machinery.
pub fn initialize_crop(
    data: &mut CropInstance,
    crop: usize,
    rng: &mut rand::rngs::StdRng,
    out: &mut Vec<CropEffect>,
)
    requires
        old(data)@.wf(),
    ensures
        exists|roll: u32|
            init_rel(
                old(data)@,
                final(data)@,
                effects_view(old(out)@),
                effects_view(final(out)@),
                crop as int,
                roll,
            ),
        final(data)@.wf(),
{
    let ghost pre = data@;
    let ghost out0 = effects_view(out@);
    out.push(CropEffect::CollidersRegenerated { crop });
    out.push(CropEffect::LoadModel { crop, model: data.stages[0].model.clone() });
    let st: CropStatus = match &data.stages[0].begin_status {
        Some(s) => s.clone(),
        None => CropStatus::Growing,
    };
    data.status = st;
    let d = data.stages[0].duration;
    let t = d.get(rng);
    data.timer = t;
    proof {
        assert(data@ =~= init_post(pre, t));
        assert(effects_view(out@) =~= out0 + init_effects(pre, crop as int));
        assert(init_rel(pre, data@, out0, effects_view(out@), crop as int, t));
    }
}

/// Runs the stage-advancement algorithm for one "new day" signal on one live
/// crop. Returns whether the instance is still alive; when it is not, the
/// caller removes it from the world and its state is meaningless.
pub fn advance_crop(
    data: &mut CropInstance,
    crop: usize,
    rng: &mut rand::rngs::StdRng,
    out: &mut Vec<CropEffect>,
) -> (alive: bool)
    requires
        old(data)@.wf(),
    ensures
        exists|roll: u32|
            tick_rel(
                old(data)@,
                final(data)@,
                alive,
                effects_view(old(out)@),
                effects_view(final(out)@),
                crop as int,
                roll,
            ),
        alive ==> final(data)@.wf(),
{
    let ghost pre = data@;
    let ghost out0 = effects_view(out@);
    if data.timer > 0 {
        data.timer = data.timer - 1;
        proof {
            assert(data@ =~= tick_post(pre, 0u32)->Some_0);
            assert(effects_view(out@) =~= out0 + tick_effects(pre, crop as int, 0u32));
            assert(tick_rel(pre, data@, true, out0, effects_view(out@), crop as int, 0u32));
        }
        return true;
    }
    let n = data.stages.len();
    proof {
        assert(data.index < n);
    }
    let j = data.index + 1;
    if j >= n {
        out.push(CropEffect::Despawned { crop, reason: DespawnReason::EndOfLife });
        proof {
            assert(effects_view(out@) =~= out0 + tick_effects(pre, crop as int, 0u32));
            assert(tick_rel(pre, data@, false, out0, effects_view(out@), crop as int, 0u32));
        }
        return false;
    }
    data.index = j;
    out.push(CropEffect::StageChanged { crop, id: data.id.clone() });
    out.push(CropEffect::CollidersRegenerated { crop });
    out.push(CropEffect::LoadModel { crop, model: data.stages[j].model.clone() });
    let mut died = false;
    match &data.status {
        CropStatus::Growing => {},
        CropStatus::Dead => {
            died = true;
        },
        CropStatus::Fruiting { model: _, drops } => {
            let ds = clone_drops(drops);
            out.push(CropEffect::DropsResolved { crop, drops: ds });
        },
        CropStatus::Seeding { model: _, drops } => {
            let ds = clone_drops(drops);
            out.push(CropEffect::DropsResolved { crop, drops: ds });
        },
    }
    if died {
        out.push(CropEffect::Despawned { crop, reason: DespawnReason::Died });
        proof {
            assert(effects_view(out@) =~= out0 + tick_effects(pre, crop as int, 0u32));
            assert(tick_rel(pre, data@, false, out0, effects_view(out@), crop as int, 0u32));
        }
        return false;
    }
    let next_status: Option<CropStatus> = match &data.stages[j].begin_status {
        Some(s) => Some(s.clone()),
        None => None,
    };
    match next_status {
        None => {
            proof {
                assert(data@ =~= tick_post(pre, 0u32)->Some_0);
                assert(effects_view(out@) =~= out0 + tick_effects(pre, crop as int, 0u32));
                assert(tick_rel(pre, data@, true, out0, effects_view(out@), crop as int, 0u32));
            }
            true
        },
        Some(ns) => match ns {
            CropStatus::Dead => {
                out.push(CropEffect::Despawned { crop, reason: DespawnReason::Died });
                proof {
                    assert(effects_view(out@) =~= out0 + tick_effects(pre, crop as int, 0u32));
                    assert(tick_rel(pre, data@, false, out0, effects_view(out@), crop as int,
                        0u32));
                }
                false
            },
            CropStatus::Growing => {
                data.status = CropStatus::Growing;
                let d = data.stages[j].duration;
                let t = d.get(rng);
                data.timer = t;
                proof {
                    assert(data@ =~= tick_post(pre, t)->Some_0);
                    assert(effects_view(out@) =~= out0 + tick_effects(pre, crop as int, t));
                    assert(tick_rel(pre, data@, true, out0, effects_view(out@), crop as int, t));
                }
                true
            },
            CropStatus::Fruiting { model, drops } => {
                out.push(CropEffect::LoadModel { crop, model: model.clone() });
                data.fruit = Some(clone_drops(&drops));
                data.status = CropStatus::Fruiting { model, drops };
                proof {
                    assert(data@ =~= tick_post(pre, 0u32)->Some_0);
                    assert(effects_view(out@) =~= out0 + tick_effects(pre, crop as int, 0u32));
                    assert(tick_rel(pre, data@, true, out0, effects_view(out@), crop as int,
                        0u32));
                }
                true
            },
            CropStatus::Seeding { model, drops } => {
                out.push(CropEffect::LoadModel { crop, model: model.clone() });
                data.fruit = Some(clone_drops(&drops));
                data.status = CropStatus::Seeding { model, drops };
                proof {
                    assert(data@ =~= tick_post(pre, 0u32)->Some_0);
                    assert(effects_view(out@) =~= out0 + tick_effects(pre, crop as int, 0u32));
                    assert(tick_rel(pre, data@, true, out0, effects_view(out@), crop as int,
                        0u32));
                }
                true
            },
        },
    }
}

/// Repeated day-ticks at the specification level: the tick run at step `k`
/// consumes `rolls[k]` as its duration sample, and a destroyed instance
/// stays destroyed.
pub open spec fn run_days(pre: InstanceView, rolls: Seq<u32>) -> Option<InstanceView>
    decreases rolls.len(),
{
    if rolls.len() == 0 {
        Some(pre)
    } else {
        match tick_post(pre, rolls[0]) {
            Some(p) => run_days(p, rolls.drop_first()),
            None => None,
        }
    }
}

/// Saturating countdown: a tick with a positive timer decrements it by
/// exactly one and touches nothing else, and a tick at zero moves the stage
/// index forward by exactly one or destroys the instance. In particular the
/// timer never underflows, however many times a zero-timer instance ticks.
pub proof fn lemma_timer_saturates(pre: InstanceView, roll: u32)
    ensures
        pre.timer > 0 ==> tick_post(pre, roll) == Some(
            InstanceView { timer: (pre.timer - 1) as u32, ..pre },
        ),
        pre.timer > 0 ==> tick_post(pre, roll)->Some_0.index == pre.index,
        pre.timer == 0 ==> (tick_post(pre, roll) matches Some(v) ==> v.index == pre.index + 1),
{
}

/// Idempotence of "no status change" stages: entering a stage whose
/// `begin_status` is `None` leaves the current status equal to its
/// pre-transition value, and neither resets the timer nor touches the
/// attached drop payload.
pub proof fn lemma_no_status_change(pre: InstanceView, roll: u32)
    requires
        pre.timer == 0,
        pre.index + 1 < pre.stages.len(),
        !(pre.status is Dead),
        pre.stages[pre.index + 1].begin_status is None,
    ensures
        tick_post(pre, roll) == Some(InstanceView { index: pre.index + 1, ..pre }),
        tick_post(pre, roll)->Some_0.status == pre.status,
        tick_post(pre, roll)->Some_0.timer == pre.timer,
        tick_post(pre, roll)->Some_0.fruit == pre.fruit,
{
}

/// Every stage of the list begins with the Growing status, so each stage
/// entry samples a fresh duration.
pub open spec fn all_growing(stages: Seq<StageView>) -> bool {
    forall|i: int|
        0 <= i < stages.len() ==> (#[trigger] stages[i]).begin_status == Some(StatusView::Growing)
}

/// The number of day-ticks from the given state until the instance is
/// destroyed, for an all-Growing stage list: the current stage runs its
/// timer down and advances one tick later, and each later stage is entered
/// with a fresh sample consumed from `rolls` at the entering tick. Summed
/// stage by stage this is the sampled durations plus one advancing tick per
/// remaining stage; the last advance overruns the stage list and destroys
/// the instance.
pub open spec fn ticks_until_despawn(
    stages: Seq<StageView>,
    index: int,
    timer: u32,
    rolls: Seq<u32>,
) -> int
    decreases stages.len() - index,
{
    if index + 1 >= stages.len() {
        timer + 1
    } else {
        (timer + 1) + ticks_until_despawn(
            stages,
            index + 1,
            rolls[timer as int],
            rolls.skip(timer + 1),
        )
    }
}

/// The remaining lifetime covers at least the current stage's countdown and
/// its advancing tick.
pub proof fn lemma_ticks_until_despawn_pos(
    stages: Seq<StageView>,
    index: int,
    timer: u32,
    rolls: Seq<u32>,
)
    ensures
        ticks_until_despawn(stages, index, timer, rolls) >= timer + 1,
    decreases stages.len() - index,
{
    if index + 1 < stages.len() {
        lemma_ticks_until_despawn_pos(
            stages,
            index + 1,
            rolls[timer as int],
            rolls.skip(timer + 1),
        );
    }
}

/// Running the countdown: as long as the timer lasts, each tick only
/// decrements it.
proof fn lemma_countdown(pre: InstanceView, rolls: Seq<u32>, k: int)
    requires
        0 <= k <= pre.timer,
        rolls.len() >= k,
    ensures
        run_days(pre, rolls.take(k)) == Some(InstanceView { timer: (pre.timer - k) as u32, ..pre }),
    decreases k,
{
    if k == 0 {
        assert(rolls.take(0).len() == 0);
        assert(InstanceView { timer: (pre.timer - 0) as u32, ..pre } =~= pre);
    } else {
        let p1 = InstanceView { timer: (pre.timer - 1) as u32, ..pre };
        assert(tick_post(pre, rolls.take(k)[0]) == Some(p1));
        lemma_countdown(p1, rolls.drop_first(), k - 1);
        assert(rolls.take(k).drop_first() =~= rolls.drop_first().take(k - 1));
        assert(InstanceView { timer: (p1.timer - (k - 1)) as u32, ..p1 } =~= InstanceView {
            timer: (pre.timer - k) as u32,
            ..pre
        });
    }
}

/// Ticks compose: running `a + b` days runs `a` days and then `b` more from
/// wherever that left the instance.
proof fn lemma_run_days_append(pre: InstanceView, a: Seq<u32>, b: Seq<u32>)
    ensures
        run_days(pre, a + b) == (match run_days(pre, a) {
            Some(m) => run_days(m, b),
            None => None,
        }),
    decreases a.len(),
{
    if a.len() == 0 {
        assert(a + b =~= b);
    } else {
        assert((a + b)[0] == a[0]);
        match tick_post(pre, a[0]) {
            Some(p) => {
                assert((a + b).drop_first() =~= a.drop_first() + b);
                lemma_run_days_append(p, a.drop_first(), b);
            },
            None => {
                assert((a + b).len() > 0);
            },
        }
    }
}

/// Full lifecycle progression: a well-formed instance whose stages all begin
/// Growing, ticked day by day, stays alive through every stage and is
/// destroyed by the overrunning tick after the last stage's countdown —
/// after exactly `ticks_until_despawn` day-ticks, one advancing tick plus
/// the freshly sampled duration for each stage not yet completed.
pub proof fn lemma_crop_lifecycle(pre: InstanceView, rolls: Seq<u32>)
    requires
        pre.wf(),
        all_growing(pre.stages),
        pre.status == StatusView::Growing,
        rolls.len() >= ticks_until_despawn(pre.stages, pre.index, pre.timer, rolls),
    ensures
        run_days(pre, rolls.take(ticks_until_despawn(pre.stages, pre.index, pre.timer, rolls)))
            is None,
        forall|k: int|
            0 <= k < ticks_until_despawn(pre.stages, pre.index, pre.timer, rolls) ==> run_days(
                pre,
                rolls.take(k),
            ) is Some,
    decreases pre.stages.len() - pre.index,
{
    let total = ticks_until_despawn(pre.stages, pre.index, pre.timer, rolls);
    let t = pre.timer as int;
    lemma_ticks_until_despawn_pos(pre.stages, pre.index, pre.timer, rolls);
    // Phase 1: the countdown. Through tick t the timer only decrements.
    assert forall|k: int| 0 <= k <= t implies run_days(pre, rolls.take(k)) is Some by {
        lemma_countdown(pre, rolls, k);
    }
    lemma_countdown(pre, rolls, t);
    let s_t = InstanceView { timer: 0u32, ..pre };
    assert(run_days(pre, rolls.take(t)) == Some(s_t)) by {
        assert(InstanceView { timer: (pre.timer - t) as u32, ..pre } =~= s_t);
    }
    // The advancing tick t consumes rolls[t].
    let one = seq![rolls[t]];
    assert(rolls.take(t + 1) =~= rolls.take(t) + one);
    lemma_run_days_append(pre, rolls.take(t), one);
    assert(run_days(pre, rolls.take(t + 1)) == run_days(s_t, one));
    assert(one[0] == rolls[t]);
    match tick_post(s_t, rolls[t]) {
        Some(p) => {
            assert(run_days(s_t, one) == run_days(p, one.drop_first()));
            assert(one.drop_first().len() == 0);
            assert(run_days(p, one.drop_first()) == Some(p));
        },
        None => {
            assert(run_days(s_t, one) is None);
        },
    }
    assert(run_days(pre, rolls.take(t + 1)) == tick_post(s_t, rolls[t]));
    if pre.index + 1 >= pre.stages.len() {
        // Overrun of the final stage: destroyed, after exactly t + 1 ticks.
        assert(total == t + 1);
        assert(run_days(pre, rolls.take(total)) is None);
    } else {
        // A fresh stage is entered with status Growing and timer rolls[t].
        let j = pre.index + 1;
        assert(pre.stages[j].begin_status == Some(StatusView::Growing));
        let s_next = InstanceView {
            index: j,
            status: StatusView::Growing,
            timer: rolls[t],
            ..pre
        };
        assert(tick_post(s_t, rolls[t]) == Some(s_next));
        let rest = rolls.skip(t + 1);
        let inner = ticks_until_despawn(pre.stages, j, rolls[t], rest);
        assert(total == (t + 1) + inner);
        lemma_crop_lifecycle(s_next, rest);
        // Compose: k ticks beyond the entry are k ticks on the fresh stage.
        assert forall|k: int| t + 1 <= k <= total implies run_days(pre, rolls.take(k))
            == run_days(s_next, rest.take(k - (t + 1))) by {
            assert(rolls.take(k) =~= rolls.take(t + 1) + rest.take(k - (t + 1)));
            lemma_run_days_append(pre, rolls.take(t + 1), rest.take(k - (t + 1)));
        }
        assert(run_days(pre, rolls.take(total)) is None);
        assert forall|k: int| 0 <= k < total implies run_days(pre, rolls.take(k)) is Some by {
            if k <= t {
                lemma_countdown(pre, rolls, k);
            } else {
                assert(run_days(s_next, rest.take(k - (t + 1))) is Some);
            }
        }
    }
}

} // verus!
