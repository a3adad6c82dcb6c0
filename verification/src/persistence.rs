//! Staged phases of loading saved objects back into the world.
//!
//! Loading runs as an ordered sequence of phases with explicit flush
//! barriers between them: structural changes queued in one phase are
//! committed at the following flush, so a phase never reads another
//! phase's half-applied work. Blueprint loading runs wholly before
//! ordinary loading.

use vstd::prelude::*;

verus! {

/// An entity that currently has this is in the process of being loaded.
#[derive(Debug, Clone, Copy, PartialEq, Eq, Structural)]
pub struct NeedsLoaded;

/// The ordered phases of loading saved entities.
#[derive(Debug, Clone, Copy, PartialEq, Eq, Hash)]
pub enum LoadingSystemSet {
    /// Reads the saved bytes in and attaches them.
    BeginLoading,
    /// Flush barrier.
    FlushBeginLoading,
    /// All loading logic belongs here.
    DoLoading,
    /// Flush barrier.
    FlushDoLoading,
    /// Detaches the loading markers.
    DoneLoading,
    /// Flush barrier.
    FlushDoneLoading,
}

/// The ordered phases of loading blueprints; all of them run before
/// [`LoadingSystemSet::BeginLoading`].
#[derive(Debug, Clone, Copy, PartialEq, Eq, Hash)]
pub enum LoadingBlueprintSystemSet {
    /// Reads the blueprint bytes in and attaches them.
    BeginLoadingBlueprints,
    /// Flush barrier.
    FlushBeginLoadingBlueprints,
    /// All blueprint loading logic belongs here.
    DoLoadingBlueprints,
    /// Flush barrier.
    FlushDoLoadingBlueprints,
    /// Detaches the blueprint loading markers.
    DoneLoadingBlueprints,
    /// Flush barrier.
    FlushDoneLoadingBlueprints,
}

/// Where each loading phase stands in the tick's schedule. Blueprint
/// phases occupy the ranks below every ordinary loading phase.
pub open spec fn spec_loading_rank(s: LoadingSystemSet) -> int {
    match s {
        LoadingSystemSet::BeginLoading => 6,
        LoadingSystemSet::FlushBeginLoading => 7,
        LoadingSystemSet::DoLoading => 8,
        LoadingSystemSet::FlushDoLoading => 9,
        LoadingSystemSet::DoneLoading => 10,
        LoadingSystemSet::FlushDoneLoading => 11,
    }
}

/// Where each blueprint phase stands in the tick's schedule.
pub open spec fn spec_blueprint_rank(s: LoadingBlueprintSystemSet) -> int {
    match s {
        LoadingBlueprintSystemSet::BeginLoadingBlueprints => 0,
        LoadingBlueprintSystemSet::FlushBeginLoadingBlueprints => 1,
        LoadingBlueprintSystemSet::DoLoadingBlueprints => 2,
        LoadingBlueprintSystemSet::FlushDoLoadingBlueprints => 3,
        LoadingBlueprintSystemSet::DoneLoadingBlueprints => 4,
        LoadingBlueprintSystemSet::FlushDoneLoadingBlueprints => 5,
    }
}

impl LoadingSystemSet {
    /// The phase's position in the schedule; phases run in rank order.
    pub fn rank(&self) -> (r: u8)
        ensures
            r == spec_loading_rank(*self),
    {
        match self {
            LoadingSystemSet::BeginLoading => 6,
            LoadingSystemSet::FlushBeginLoading => 7,
            LoadingSystemSet::DoLoading => 8,
            LoadingSystemSet::FlushDoLoading => 9,
            LoadingSystemSet::DoneLoading => 10,
            LoadingSystemSet::FlushDoneLoading => 11,
        }
    }
}

impl LoadingBlueprintSystemSet {
    /// The phase's position in the schedule; phases run in rank order.
    pub fn rank(&self) -> (r: u8)
        ensures
            r == spec_blueprint_rank(*self),
    {
        match self {
            LoadingBlueprintSystemSet::BeginLoadingBlueprints => 0,
            LoadingBlueprintSystemSet::FlushBeginLoadingBlueprints => 1,
            LoadingBlueprintSystemSet::DoLoadingBlueprints => 2,
            LoadingBlueprintSystemSet::FlushDoLoadingBlueprints => 3,
            LoadingBlueprintSystemSet::DoneLoadingBlueprints => 4,
            LoadingBlueprintSystemSet::FlushDoneLoadingBlueprints => 5,
        }
    }
}

/// The schedule is a strict order: distinct phases never share a rank, and
/// every blueprint phase precedes every ordinary loading phase.
pub proof fn lemma_loading_schedule_strict(
    a: LoadingSystemSet,
    b: LoadingSystemSet,
    c: LoadingBlueprintSystemSet,
    d: LoadingBlueprintSystemSet,
)
    ensures
        spec_loading_rank(a) == spec_loading_rank(b) ==> a == b,
        spec_blueprint_rank(c) == spec_blueprint_rank(d) ==> c == d,
        spec_blueprint_rank(c) < spec_loading_rank(a),
{
}

} // verus!
