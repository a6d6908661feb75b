//! The crop world: an explicit arena of planted instances indexed by stable
//! integer handles, the shared random source, and the day-cycle clock that
//! drives advancement.

use vstd::prelude::*;

use crate::crops::{stages_wf, CropDefinition, CropInstance, DefView, InstanceView, StatusView};
use crate::days::{DayClock, DAY_LENGTH_MILLIS};
use crate::lifecycle::{
    advance_crop, effects_view, init_effects, init_post, init_rel, init_roll_ok, initialize_crop,
    roll_ok, tick_effects, tick_post, tick_rel, CropEffect, EffectView,
};

verus! {

/// A planted slot as its mathematical shape; despawned slots are `None`.
pub open spec fn slot_view(s: Option<CropInstance>) -> Option<InstanceView> {
    match s {
        Some(c) => Some(c@),
        None => None,
    }
}

/// One advancement pass relates each pre-slot to its post-slot through the
/// day-tick transition, with the duration sample `roll` where one was drawn.
pub open spec fn slot_rel(
    pre: Option<InstanceView>,
    post: Option<InstanceView>,
    roll: u32,
) -> bool {
    match pre {
        None => post is None,
        Some(p) => roll_ok(p, roll) && post == tick_post(p, roll),
    }
}

/// The effects of one advancement pass over the slots below `upto`, in slot
/// order, each crop keyed by its own slot index.
pub open spec fn day_effects_upto(
    pres: Seq<Option<InstanceView>>,
    rolls: Seq<u32>,
    upto: int,
) -> Seq<EffectView>
    decreases upto,
{
    if upto <= 0 {
        Seq::<EffectView>::empty()
    } else {
        day_effects_upto(pres, rolls, upto - 1) + match pres[upto - 1] {
            None => Seq::<EffectView>::empty(),
            Some(p) => tick_effects(p, upto - 1, rolls[upto - 1]),
        }
    }
}

/// One advancement pass with the given per-slot duration samples: every slot
/// steps once, in slot order, and the pass appends exactly the per-slot
/// effects.
pub open spec fn day_rel_with(
    pres: Seq<Option<InstanceView>>,
    posts: Seq<Option<InstanceView>>,
    out_pre: Seq<EffectView>,
    out_post: Seq<EffectView>,
    rolls: Seq<u32>,
) -> bool {
    &&& rolls.len() == pres.len()
    &&& posts.len() == pres.len()
    &&& forall|i: int| 0 <= i < pres.len() ==> slot_rel(pres[i], posts[i], rolls[i])
    &&& out_post == out_pre + day_effects_upto(pres, rolls, pres.len() as int)
}

/// One advancement pass, for some sequence of duration samples.
pub open spec fn day_rel(
    pres: Seq<Option<InstanceView>>,
    posts: Seq<Option<InstanceView>>,
    out_pre: Seq<EffectView>,
    out_post: Seq<EffectView>,
) -> bool {
    exists|rolls: Seq<u32>| day_rel_with(pres, posts, out_pre, out_post, rolls)
}

/// The accumulated pass effects depend only on the samples already consumed.
proof fn lemma_day_effects_agree(
    pres: Seq<Option<InstanceView>>,
    rolls1: Seq<u32>,
    rolls2: Seq<u32>,
    upto: int,
)
    requires
        forall|i: int| 0 <= i < upto ==> rolls1[i] == rolls2[i],
    ensures
        day_effects_upto(pres, rolls1, upto) == day_effects_upto(pres, rolls2, upto),
    decreases upto,
{
    if upto > 0 {
        lemma_day_effects_agree(pres, rolls1, rolls2, upto - 1);
    }
}

/// The state of a crop freshly constructed from `d`, before planting
/// initialization seeds its status and timer.
pub open spec fn fresh_view(d: DefView) -> InstanceView {
    InstanceView {
        id: d.id,
        stages: d.stages,
        index: 0,
        timer: 0,
        status: StatusView::Growing,
        fruit: None,
    }
}

/// The state of a crop just planted from `d`, having drawn `roll` for
/// stage 0's duration.
pub open spec fn plant_post(d: DefView, roll: u32) -> InstanceView {
    init_post(fresh_view(d), roll)
}

/// Everything planting guarantees about the new slot and the emitted
/// effects, for the duration sample it drew.
pub open spec fn plant_rel(
    d: DefView,
    slot: Option<InstanceView>,
    out_pre: Seq<EffectView>,
    out_post: Seq<EffectView>,
    crop: int,
    roll: u32,
) -> bool {
    &&& init_roll_ok(fresh_view(d), roll)
    &&& slot == Some(plant_post(d, roll))
    &&& out_post == out_pre + init_effects(fresh_view(d), crop)
}

/// Everything planting guarantees, for some duration sample.
pub open spec fn planted(
    d: DefView,
    slot: Option<InstanceView>,
    out_pre: Seq<EffectView>,
    out_post: Seq<EffectView>,
    crop: int,
) -> bool {
    exists|roll: u32| plant_rel(d, slot, out_pre, out_post, crop, roll)
}

/// The world of planted crops.
pub struct CropArena {
    pub slots: Vec<Option<CropInstance>>,
    pub rng: rand::rngs::StdRng,
    pub clock: DayClock,
}

impl CropArena {
    /// The slots, element by element, as their mathematical shape. Handles
    /// are indices into this sequence and stay stable for the world's life.
    pub open spec fn slots_view(self) -> Seq<Option<InstanceView>> {
        self.slots@.map_values(|s: Option<CropInstance>| slot_view(s))
    }

    /// The clock is live and every planted instance is well-formed.
    pub open spec fn wf(self) -> bool {
        &&& self.clock.wf()
        &&& forall|i: int|
            0 <= i < self.slots_view().len() ==> (#[trigger] self.slots_view()[i] matches Some(v)
                ==> v.wf())
    }

    /// A fresh world: no crops, a generator seeded with `seed`, and a full
    /// countdown of the default day length.
    pub fn new(seed: u64) -> (r: CropArena)
        ensures
            r.slots_view().len() == 0,
            r.clock == (DayClock { period: DAY_LENGTH_MILLIS, remaining: DAY_LENGTH_MILLIS }),
            r.wf(),
    {
        CropArena {
            slots: Vec::new(),
            rng: crate::entropy::rng_from_seed(seed),
            clock: DayClock::new(DAY_LENGTH_MILLIS),
        }
    }

    /// A fresh world whose day lasts `period_millis` real milliseconds.
    pub fn new_with_period(seed: u64, period_millis: u64) -> (r: CropArena)
        requires
            period_millis > 0,
        ensures
            r.slots_view().len() == 0,
            r.clock == (DayClock { period: period_millis, remaining: period_millis }),
            r.wf(),
    {
        CropArena {
            slots: Vec::new(),
            rng: crate::entropy::rng_from_seed(seed),
            clock: DayClock::new(period_millis),
        }
    }

    /// Plants a crop from a definition: constructs the instance, runs
    /// first-stage initialization (model load, collider request, status and
    /// timer seeding) and stores it under a fresh handle. A definition with
    /// an empty stage list is rejected and nothing is planted.
    #[verifier::rlimit(50)]
    pub fn plant(&mut self, def: &CropDefinition, out: &mut Vec<CropEffect>) -> (r: Result<
        usize,
        (),
    >)
        requires
            old(self).wf(),
            stages_wf(def@.stages),
        ensures
            final(self).wf(),
            final(self).clock == old(self).clock,
            r is Err <==> def@.stages.len() == 0,
            r is Err ==> final(self).slots_view() == old(self).slots_view() && final(out)@ == old(
                out,
            )@,
            r matches Ok(h) ==> h == old(self).slots_view().len(),
            r is Ok ==> final(self).slots_view().len() == old(self).slots_view().len() + 1,
            r is Ok ==> forall|i: int|
                0 <= i < old(self).slots_view().len() ==> final(self).slots_view()[i] == old(
                    self,
                ).slots_view()[i],
            r matches Ok(h) ==> planted(
                def@,
                final(self).slots_view()[h as int],
                effects_view(old(out)@),
                effects_view(final(out)@),
                h as int,
            ),
    {
        let mut c = match CropInstance::new(def) {
            Ok(c) => c,
            Err(()) => {
                return Err(());
            },
        };
        let ghost out0 = effects_view(out@);
        let h = self.slots.len();
        initialize_crop(&mut c, h, &mut self.rng, out);
        let ghost cv = c@;
        self.slots.push(Some(c));
        proof {
            assert(self.slots_view() =~= old(self).slots_view().push(Some(cv)));
            assert(self.slots_view()[h as int] == Some(cv));
            let roll = choose|roll: u32|
                init_rel(fresh_view(def@), cv, out0, effects_view(out@), h as int, roll);
            assert(plant_rel(
                def@,
                self.slots_view()[h as int],
                out0,
                effects_view(out@),
                h as int,
                roll,
            ));
            assert(planted(
                def@,
                self.slots_view()[h as int],
                effects_view(old(out)@),
                effects_view(out@),
                h as int,
            ));
        }
        Ok(h)
    }

    /// Runs one advancement pass: every live crop observes the same "new
    /// day" signal once, in slot order, and each instance's full transition
    /// completes before the next instance is processed. Handles stay stable;
    /// a destroyed crop leaves an empty slot behind.
    pub fn update_crops(&mut self, out: &mut Vec<CropEffect>)
        requires
            old(self).wf(),
        ensures
            final(self).wf(),
            final(self).clock == old(self).clock,
            final(self).slots_view().len() == old(self).slots_view().len(),
            day_rel(
                old(self).slots_view(),
                final(self).slots_view(),
                effects_view(old(out)@),
                effects_view(final(out)@),
            ),
    {
        let ghost pres = self.slots_view();
        let ghost out0 = effects_view(out@);
        let ghost mut rolls: Seq<u32> = Seq::empty();
        let n = self.slots.len();
        let mut i: usize = 0;
        while i < n
            invariant
                i <= n,
                self.slots.len() == n,
                pres.len() == n,
                pres == old(self).slots_view(),
                out0 == effects_view(old(out)@),
                self.clock == old(self).clock,
                rolls.len() == i as int,
                forall|k: int| i <= k < n ==> #[trigger] self.slots_view()[k] == pres[k],
                forall|k: int|
                    0 <= k < i ==> slot_rel(pres[k], #[trigger] self.slots_view()[k], rolls[k]),
                forall|k: int|
                    0 <= k < n ==> (#[trigger] self.slots_view()[k] matches Some(v) ==> v.wf()),
                effects_view(out@) == out0 + day_effects_upto(pres, rolls, i as int),
            decreases n - i,
        {
            let ghost rolls0 = rolls;
            let ghost sv0 = self.slots_view();
            let slot_opt = self.slots[i].take();
            match slot_opt {
                None => {
                    proof {
                        assert(sv0[i as int] is None);
                        assert(pres[i as int] is None);
                        rolls = rolls.push(0u32);
                        lemma_day_effects_agree(pres, rolls0, rolls, i as int);
                        assert(self.slots_view() =~= sv0);
                        assert(effects_view(out@) =~= out0 + day_effects_upto(
                            pres,
                            rolls,
                            (i + 1) as int,
                        ));
                    }
                },
                Some(mut c) => {
                    let ghost cpre = c@;
                    let ghost out_a = effects_view(out@);
                    proof {
                        assert(sv0[i as int] == Some(cpre));
                        assert(pres[i as int] == Some(cpre));
                        assert(cpre.wf());
                    }
                    let alive = advance_crop(&mut c, i, &mut self.rng, out);
                    let ghost cpost = c@;
                    if alive {
                        self.slots[i] = Some(c);
                    }
                    proof {
                        let roll = choose|roll: u32|
                            tick_rel(cpre, cpost, alive, out_a, effects_view(out@), i as int, roll);
                        rolls = rolls.push(roll);
                        lemma_day_effects_agree(pres, rolls0, rolls, i as int);
                        if alive {
                            assert(self.slots_view() =~= sv0.update(i as int, Some(cpost)));
                        } else {
                            assert(self.slots_view() =~= sv0.update(
                                i as int,
                                Option::<InstanceView>::None,
                            ));
                        }
                        assert(effects_view(out@) =~= out0 + day_effects_upto(
                            pres,
                            rolls,
                            (i + 1) as int,
                        ));
                    }
                },
            }
            i = i + 1;
        }
        proof {
            assert(day_rel_with(
                pres,
                self.slots_view(),
                out0,
                effects_view(out@),
                rolls,
            ));
        }
    }

    /// Fires the "new day" signal immediately, as the manual debug trigger
    /// does: the countdown rewinds to a full period, no extra signals
    /// accumulate, and every live crop advances exactly once.
    pub fn trigger_day(&mut self, out: &mut Vec<CropEffect>)
        requires
            old(self).wf(),
        ensures
            final(self).wf(),
            final(self).clock == (DayClock {
                period: old(self).clock.period,
                remaining: old(self).clock.period,
            }),
            final(self).slots_view().len() == old(self).slots_view().len(),
            day_rel(
                old(self).slots_view(),
                final(self).slots_view(),
                effects_view(old(out)@),
                effects_view(final(out)@),
            ),
    {
        self.clock.reset();
        self.update_crops(out);
    }

    /// Advances the simulation by one frame of `delta` elapsed milliseconds:
    /// counts the clock down and, exactly when a day expired within this
    /// frame, runs one advancement pass.
    pub fn frame(&mut self, delta: u64, out: &mut Vec<CropEffect>) -> (fired: bool)
        requires
            old(self).wf(),
        ensures
            final(self).wf(),
            fired == (delta >= old(self).clock.remaining),
            final(self).clock.period == old(self).clock.period,
            !fired ==> final(self).clock.remaining == old(self).clock.remaining - delta,
            fired ==> final(self).clock.remaining == old(self).clock.period - ((delta - old(
                self,
            ).clock.remaining) % (old(self).clock.period as int)),
            fired ==> day_rel(
                old(self).slots_view(),
                final(self).slots_view(),
                effects_view(old(out)@),
                effects_view(final(out)@),
            ),
            !fired ==> final(self).slots_view() == old(self).slots_view() && final(out)@ == old(
                out,
            )@,
    {
        let fired = self.clock.advance(delta);
        if fired {
            self.update_crops(out);
        }
        fired
    }

    /// The number of slots ever allotted; every handle lies below it.
    pub fn len(&self) -> (n: usize)
        ensures
            n == self.slots_view().len(),
    {
        self.slots.len()
    }

    /// The live instance under a handle; `None` for a despawned crop or an
    /// unknown handle.
    pub fn get(&self, h: usize) -> (r: Option<&CropInstance>)
        ensures
            r matches Some(c) ==> h < self.slots_view().len() && self.slots_view()[h as int]
                == Some(c@),
            r is None ==> h >= self.slots_view().len() || self.slots_view()[h as int] is None,
    {
        if h < self.slots.len() {
            self.slots[h].as_ref()
        } else {
            None
        }
    }
}

} // verus!
