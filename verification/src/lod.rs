//! Level-of-detail bookkeeping: which of the three detail levels of a model
//! exist, which one is shown, and how the shown level follows the camera.
//!
//! The per-level payload `M` (geometry and render handle) is opaque here.
//! Distance thresholds are compared by the caller; this module receives, per
//! level, whether the camera is within that level's threshold.
pub mod clustering;
pub mod qem;

use vstd::prelude::*;

verus! {

/// Detail levels, finest first.
#[derive(Debug, Clone, Copy, PartialEq, Eq, Structural, Hash, PartialOrd, Ord)]
pub enum LODLevel {
    /// Original precision.
    LOD0,
    /// First simplification (about half the triangles).
    LOD1,
    /// Strongest simplification (about a quarter of the triangles).
    LOD2,
}

impl LODLevel {
    /// Position of the level, finest first.
    pub open spec fn spec_index(self) -> int {
        match self {
            LODLevel::LOD0 => 0,
            LODLevel::LOD1 => 1,
            LODLevel::LOD2 => 2,
        }
    }

    /// Position of the level, finest first.
    pub fn index(self) -> (i: usize)
        ensures
            i == self.spec_index(),
    {
        match self {
            LODLevel::LOD0 => 0,
            LODLevel::LOD1 => 1,
            LODLevel::LOD2 => 2,
        }
    }

    /// All levels, finest first.
    pub fn all_levels() -> (levels: Vec<LODLevel>)
        ensures
            levels@ == seq![LODLevel::LOD0, LODLevel::LOD1, LODLevel::LOD2],
    {
        let levels = vec![LODLevel::LOD0, LODLevel::LOD1, LODLevel::LOD2];
        assert(levels@ =~= seq![LODLevel::LOD0, LODLevel::LOD1, LODLevel::LOD2]);
        levels
    }
}

/// Level with the given position.
pub open spec fn level_at(i: int) -> LODLevel {
    if i == 0 {
        LODLevel::LOD0
    } else if i == 1 {
        LODLevel::LOD1
    } else {
        LODLevel::LOD2
    }
}

/// Level chosen for a camera position: the finest level, from position `from`
/// on, that exists and whose distance threshold the camera is within; the
/// coarsest level when there is none.
pub open spec fn spec_select_from(present: Seq<bool>, within: Seq<bool>, from: int) -> LODLevel
    decreases 3 - from,
{
    if from >= 3 {
        LODLevel::LOD2
    } else if present[from] && within[from] {
        level_at(from)
    } else {
        spec_select_from(present, within, from + 1)
    }
}

/// Level chosen for a camera position (see `spec_select_from`).
pub open spec fn spec_select(present: Seq<bool>, within: Seq<bool>) -> LODLevel {
    spec_select_from(present, within, 0)
}

/// Level-of-detail state of one model.
pub struct LODManager<M> {
    /// Payload of each level, indexed by level position; the finest level
    /// is always there.
    pub lod_meshes: Vec<Option<M>>,
    /// Level being shown.
    pub current_lod: LODLevel,
    /// The shown level changed and the renderer has not caught up yet.
    pub needs_update: bool,
}

impl<M> LODManager<M> {
    /// Three levels, the finest one present.
    pub open spec fn wf(&self) -> bool {
        &&& self.lod_meshes@.len() == 3
        &&& self.lod_meshes@[0] is Some
    }

    /// Which levels exist, finest first.
    pub open spec fn present(&self) -> Seq<bool> {
        Seq::new(3, |i: int| self.lod_meshes@[i] is Some)
    }

    /// A model with its original geometry as the finest level and whichever
    /// simplified levels could be built; it starts on the finest level.
    pub fn new(lod0: M, lod1: Option<M>, lod2: Option<M>) -> (manager: Self)
        ensures
            manager.wf(),
            manager.lod_meshes@ == seq![Some(lod0), lod1, lod2],
            manager.current_lod == LODLevel::LOD0,
            !manager.needs_update,
    {
        let mut lod_meshes: Vec<Option<M>> = Vec::new();
        lod_meshes.push(Some(lod0));
        lod_meshes.push(lod1);
        lod_meshes.push(lod2);
        assert(lod_meshes@ =~= seq![Some(lod0), lod1, lod2]);
        LODManager { lod_meshes, current_lod: LODLevel::LOD0, needs_update: false }
    }

    /// Level for a camera position, given for each level (finest first)
    /// whether the camera is within that level's distance threshold: the
    /// finest existing level whose threshold holds, else the coarsest level.
    pub fn select_lod_by_distance(&self, within_threshold: [bool; 3]) -> (level: LODLevel)
        requires
            self.wf(),
        ensures
            level == spec_select(self.present(), within_threshold@),
    {
        let levels = LODLevel::all_levels();
        let mut k: usize = 0;
        while k < 3
            invariant
                self.wf(),
                k <= 3,
                levels@ == seq![LODLevel::LOD0, LODLevel::LOD1, LODLevel::LOD2],
                spec_select(self.present(), within_threshold@) == spec_select_from(self.present(), within_threshold@, k as int),
            decreases 3 - k,
        {
            let level = levels[k];
            assert(level == level_at(k as int));
            let present = match &self.lod_meshes[k] {
                Some(_) => true,
                None => false,
            };
            assert(present == self.present()[k as int]);
            if present && within_threshold[k] {
                return level;
            }
            k = k + 1;
        }
        LODLevel::LOD2
    }

    /// Follows the camera: switches to the level selected for it and
    /// reports whether the shown level changed (a change also marks the
    /// renderer as behind).
    pub fn update_lod(&mut self, within_threshold: [bool; 3]) -> (changed: bool)
        requires
            old(self).wf(),
        ensures
            final(self).wf(),
            final(self).current_lod == spec_select(old(self).present(), within_threshold@),
            changed == (final(self).current_lod != old(self).current_lod),
            final(self).needs_update == (old(self).needs_update || changed),
            final(self).lod_meshes@ == old(self).lod_meshes@,
    {
        let new_lod = self.select_lod_by_distance(within_threshold);
        if new_lod != self.current_lod {
            self.current_lod = new_lod;
            self.needs_update = true;
            true
        } else {
            false
        }
    }

    /// Payload of the level being shown, if that level exists.
    pub fn current_lod_data(&self) -> (data: Option<&M>)
        requires
            self.wf(),
        ensures
            self.lod_meshes@[self.current_lod.spec_index()] is Some
                ==> data == Some(&self.lod_meshes@[self.current_lod.spec_index()]->0),
            self.lod_meshes@[self.current_lod.spec_index()] is None ==> data is None,
    {
        match &self.lod_meshes[self.current_lod.index()] {
            Some(m) => Some(m),
            None => None,
        }
    }

    /// Marks the renderer as caught up with the shown level.
    pub fn mark_updated(&mut self)
        ensures
            !final(self).needs_update,
            final(self).current_lod == old(self).current_lod,
            final(self).lod_meshes@ == old(self).lod_meshes@,
    {
        self.needs_update = false;
    }
}

/// A selected level exists, unless it is the coarsest level chosen because
/// no existing level's threshold holds.
pub proof fn law_selected_level_exists_or_coarsest(present: Seq<bool>, within: Seq<bool>)
    requires
        present.len() == 3,
        within.len() == 3,
    ensures
        present[spec_select(present, within).spec_index()]
            || spec_select(present, within) == LODLevel::LOD2,
{
    reveal_with_fuel(spec_select_from, 4);
}

/// Moving the camera away never selects a finer level: if every threshold
/// that holds for the far position also holds for the near one, the far
/// position's level is at least as coarse.
pub proof fn law_farther_is_not_finer(present: Seq<bool>, near: Seq<bool>, far: Seq<bool>)
    requires
        present.len() == 3,
        near.len() == 3,
        far.len() == 3,
        forall|i: int| 0 <= i < 3 && #[trigger] far[i] ==> near[i],
    ensures
        spec_select(present, near).spec_index() <= spec_select(present, far).spec_index(),
{
    reveal_with_fuel(spec_select_from, 4);
    assert(far[0] ==> near[0]);
    assert(far[1] ==> near[1]);
    assert(far[2] ==> near[2]);
}

} // verus!
