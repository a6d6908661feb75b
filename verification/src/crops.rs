//! The crop data model: static growth-stage definitions and per-planted-crop
//! runtime state.

use vstd::prelude::*;

use crate::items::{clone_drops, drops_valid, drops_view, ItemDrop};
use crate::range::Range;

verus! {

/// The crop's categorical state, independent of which stage index it is on.
#[derive(Debug, PartialEq, Hash)]
pub enum CropStatus {
    Growing,
    Fruiting { model: String, drops: Vec<ItemDrop> },
    Seeding { model: String, drops: Vec<ItemDrop> },
    Dead,
}

/// Mathematical shape of a [`CropStatus`].
#[verifier::ext_equal]
pub enum StatusView {
    Growing,
    Fruiting { model: Seq<char>, drops: Seq<crate::items::DropView> },
    Seeding { model: Seq<char>, drops: Seq<crate::items::DropView> },
    Dead,
}

impl View for CropStatus {
    type V = StatusView;

    open spec fn view(&self) -> StatusView {
        match self {
            CropStatus::Growing => StatusView::Growing,
            CropStatus::Fruiting { model, drops } => StatusView::Fruiting {
                model: model@,
                drops: drops_view(drops@),
            },
            CropStatus::Seeding { model, drops } => StatusView::Seeding {
                model: model@,
                drops: drops_view(drops@),
            },
            CropStatus::Dead => StatusView::Dead,
        }
    }
}

/// Every sampling range reachable from the status is valid.
pub open spec fn status_wf(s: StatusView) -> bool {
    match s {
        StatusView::Fruiting { drops, .. } => drops_valid(drops),
        StatusView::Seeding { drops, .. } => drops_valid(drops),
        _ => true,
    }
}

impl Default for CropStatus {
    /// A crop starts out growing unless its first stage says otherwise.
    fn default() -> (r: Self)
        ensures
            r@ == StatusView::Growing,
    {
        CropStatus::Growing
    }
}

impl Clone for CropStatus {
    fn clone(&self) -> (r: Self)
        ensures
            r@ == self@,
    {
        match self {
            CropStatus::Growing => CropStatus::Growing,
            CropStatus::Fruiting { model, drops } => CropStatus::Fruiting {
                model: model.clone(),
                drops: clone_drops(drops),
            },
            CropStatus::Seeding { model, drops } => CropStatus::Seeding {
                model: model.clone(),
                drops: clone_drops(drops),
            },
            CropStatus::Dead => CropStatus::Dead,
        }
    }
}

/// One entry in a crop's ordered growth sequence: a visual model, a randomized
/// duration, and an optional status change applied on entering the stage.
/// `begin_status: None` means "carry over the previous status unchanged".
#[derive(Debug, PartialEq)]
pub struct CropStage {
    pub model: String,
    pub duration: Range,
    pub begin_status: Option<CropStatus>,
}

/// Mathematical shape of a [`CropStage`].
#[verifier::ext_equal]
pub struct StageView {
    pub model: Seq<char>,
    pub duration: Range,
    pub begin_status: Option<StatusView>,
}

impl View for CropStage {
    type V = StageView;

    open spec fn view(&self) -> StageView {
        StageView {
            model: self.model@,
            duration: self.duration,
            begin_status: match &self.begin_status {
                Some(s) => Some(s@),
                None => None,
            },
        }
    }
}

/// Every sampling range reachable from the stage is valid.
pub open spec fn stage_wf(st: StageView) -> bool {
    &&& st.duration.valid()
    &&& (st.begin_status matches Some(s) ==> status_wf(s))
}

impl Clone for CropStage {
    fn clone(&self) -> (r: Self)
        ensures
            r@ == self@,
    {
        CropStage {
            model: self.model.clone(),
            duration: self.duration,
            begin_status: match &self.begin_status {
                Some(s) => Some(s.clone()),
                None => None,
            },
        }
    }
}

/// The stage list, element by element, as its mathematical shape.
pub open spec fn stages_view(sts: Seq<CropStage>) -> Seq<StageView> {
    sts.map_values(|st: CropStage| st@)
}

/// Every sampling range reachable from any stage is valid.
pub open spec fn stages_wf(sts: Seq<StageView>) -> bool {
    forall|i: int| 0 <= i < sts.len() ==> stage_wf(#[trigger] sts[i])
}

/// Copies a stage list; the copy has the same shape.
pub fn clone_stages(sts: &Vec<CropStage>) -> (r: Vec<CropStage>)
    ensures
        stages_view(r@) == stages_view(sts@),
        r@.len() == sts@.len(),
{
    let mut r: Vec<CropStage> = Vec::new();
    let mut i: usize = 0;
    while i < sts.len()
        invariant
            i <= sts.len(),
            r@.len() == i,
            forall|k: int| 0 <= k < i ==> #[trigger] r@[k]@ == sts@[k]@,
        decreases sts.len() - i,
    {
        r.push(sts[i].clone());
        i = i + 1;
    }
    proof {
        assert(stages_view(r@) =~= stages_view(sts@));
    }
    r
}

/// Static, serializable description of a crop's ordered growth stages,
/// loaded from a data file and shared read-only by planted instances.
#[derive(Debug, PartialEq)]
pub struct CropDefinition {
    pub id: String,
    pub stages: Vec<CropStage>,
}

/// Mathematical shape of a [`CropDefinition`].
#[verifier::ext_equal]
pub struct DefView {
    pub id: Seq<char>,
    pub stages: Seq<StageView>,
}

impl View for CropDefinition {
    type V = DefView;

    open spec fn view(&self) -> DefView {
        DefView { id: self.id@, stages: stages_view(self.stages@) }
    }
}

/// One planted, live crop: its own copy of the definition's stage list, the
/// current stage index, the countdown timer in days until the next stage, the
/// current status, and the drop payload attached when a fruiting or seeding
/// stage begins.
#[derive(Debug, PartialEq)]
pub struct CropInstance {
    pub id: String,
    pub stages: Vec<CropStage>,
    pub index: usize,
    pub timer: u32,
    pub status: CropStatus,
    pub fruit: Option<Vec<ItemDrop>>,
}

/// Mathematical shape of a [`CropInstance`].
#[verifier::ext_equal]
pub struct InstanceView {
    pub id: Seq<char>,
    pub stages: Seq<StageView>,
    pub index: int,
    pub timer: u32,
    pub status: StatusView,
    pub fruit: Option<Seq<crate::items::DropView>>,
}

impl View for CropInstance {
    type V = InstanceView;

    open spec fn view(&self) -> InstanceView {
        InstanceView {
            id: self.id@,
            stages: stages_view(self.stages@),
            index: self.index as int,
            timer: self.timer,
            status: self.status@,
            fruit: match &self.fruit {
                Some(ds) => Some(drops_view(ds@)),
                None => None,
            },
        }
    }
}

impl InstanceView {
    /// A live instance: a nonempty stage list, the index a valid subscript
    /// into it, and every sampling range valid.
    pub open spec fn wf(self) -> bool {
        &&& self.stages.len() > 0
        &&& 0 <= self.index < self.stages.len()
        &&& stages_wf(self.stages)
        &&& status_wf(self.status)
        &&& (self.fruit matches Some(ds) ==> drops_valid(ds))
    }
}

impl CropInstance {
    /// Constructs the runtime state for a crop planted from `def`: stage 0,
    /// timer and status not yet seeded (planting initialization does that).
    /// An empty stage list is rejected and no instance is created.
    pub fn new(def: &CropDefinition) -> (r: Result<CropInstance, ()>)
        requires
            stages_wf(def@.stages),
        ensures
            r is Err <==> def@.stages.len() == 0,
            r matches Ok(c) ==> c@ == (InstanceView {
                id: def@.id,
                stages: def@.stages,
                index: 0,
                timer: 0,
                status: StatusView::Growing,
                fruit: None,
            }),
            r matches Ok(c) ==> c@.wf(),
    {
        if def.stages.len() == 0 {
            return Err(());
        }
        let c = CropInstance {
            id: def.id.clone(),
            stages: clone_stages(&def.stages),
            index: 0,
            timer: 0,
            status: CropStatus::Growing,
            fruit: None,
        };
        proof {
            assert(c@ =~= InstanceView {
                id: def@.id,
                stages: def@.stages,
                index: 0,
                timer: 0,
                status: StatusView::Growing,
                fruit: None,
            });
        }
        Ok(c)
    }
}

/// The shape of the example definition written out as a reference data file.
pub open spec fn example_def_view() -> DefView {
    DefView {
        id: "Example"@,
        stages: seq![
            StageView {
                model: "::crate-color.glb"@,
                duration: Range { min: 1, max: 2 },
                begin_status: Some(StatusView::Growing),
            },
            StageView {
                model: "::crate-color.glb"@,
                duration: Range { min: 1, max: 2 },
                begin_status: None,
            },
            StageView {
                model: "::crate-color.glb"@,
                duration: Range { min: 1, max: 2 },
                begin_status: Some(
                    StatusView::Fruiting {
                        model: "::crate-color.glb"@,
                        drops: seq![
                            crate::items::DropView {
                                item: "test"@,
                                amount: Range { min: 1, max: 3 },
                            },
                        ],
                    },
                ),
            },
        ],
    }
}

/// The example crop definition that the data-file emitter writes out for
/// hand authors to start from.
pub fn example_definition() -> (d: CropDefinition)
    ensures
        d@ == example_def_view(),
{
    let mut drops: Vec<ItemDrop> = Vec::new();
    drops.push(ItemDrop {
        item: crate::items::ItemId(String::from_str("test")),
        amount: Range { min: 1, max: 3 },
    });
    let mut stages: Vec<CropStage> = Vec::new();
    stages.push(CropStage {
        model: String::from_str("::crate-color.glb"),
        duration: Range { min: 1, max: 2 },
        begin_status: Some(CropStatus::Growing),
    });
    stages.push(CropStage {
        model: String::from_str("::crate-color.glb"),
        duration: Range { min: 1, max: 2 },
        begin_status: None,
    });
    stages.push(CropStage {
        model: String::from_str("::crate-color.glb"),
        duration: Range { min: 1, max: 2 },
        begin_status: Some(CropStatus::Fruiting {
            model: String::from_str("::crate-color.glb"),
            drops,
        }),
    });
    let d = CropDefinition { id: String::from_str("Example"), stages };
    proof {
        assert(d@ =~~= example_def_view());
    }
    d
}

} // verus!
