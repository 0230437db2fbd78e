//! The course of a run: its stages, and what a failure on one file means
//! for it.

use crate::decode::LoadError;
use vstd::prelude::*;

verus! {

/// The stage that a run has reached.
#[derive(Clone, Copy, Debug, PartialEq, Eq, Structural)]
pub enum Stage {
    /// Input files are being looked for.
    Discovering,
    /// Input files are being read, decoded and filtered.
    Ingesting,
    /// Every file was handled and every batch merged into the store.
    Merging,
    /// Reports are being computed and written.
    Exporting,
    /// The run is over.
    Done,
}

/// What happens in a run.
#[derive(Clone, Copy, Debug, PartialEq, Eq, Structural)]
pub enum Event {
    /// The search for input files is over.
    Discovered,
    /// A file gave its batch of records.
    FileLoaded,
    /// A file was skipped after a failure.
    FileSkipped,
    /// The last batch was merged.
    Ingested,
    /// The export has begun.
    ExportStarted,
    /// The last report was written.
    Exported,
}

/// What a failure on one file means for the run.
#[derive(Clone, Copy, Debug, PartialEq, Eq, Structural)]
pub enum Recovery {
    /// The run cannot go on.
    Abort,
    /// The file is passed over and the run goes on.
    Skip,
}

impl Stage {
    /// The position of a stage in the course of a run.
    pub open spec fn rank(self) -> int {
        match self {
            Stage::Discovering => 0,
            Stage::Ingesting => 1,
            Stage::Merging => 2,
            Stage::Exporting => 3,
            Stage::Done => 4,
        }
    }

    /// The stage after an event. An event moves a run to the next stage
    /// where it ends the present one, and leaves the stage as it is
    /// otherwise: what happens to one file changes no stage.
    pub open spec fn after(self, event: Event) -> Stage {
        match (self, event) {
            (Stage::Discovering, Event::Discovered) => Stage::Ingesting,
            (Stage::Ingesting, Event::Ingested) => Stage::Merging,
            (Stage::Merging, Event::ExportStarted) => Stage::Exporting,
            (Stage::Exporting, Event::Exported) => Stage::Done,
            _ => self,
        }
    }

    /// The stage after an event. No event takes a run back to an earlier
    /// stage, or more than one stage forward.
    pub fn advance(self, event: Event) -> (next: Stage)
        ensures
            next == self.after(event),
            self.rank() <= next.rank() <= self.rank() + 1,
            event == Event::FileLoaded || event == Event::FileSkipped ==> next == self,
    {
        match self {
            Stage::Discovering => match event {
                Event::Discovered => Stage::Ingesting,
                _ => self,
            },
            Stage::Ingesting => match event {
                Event::Ingested => Stage::Merging,
                _ => self,
            },
            Stage::Merging => match event {
                Event::ExportStarted => Stage::Exporting,
                _ => self,
            },
            Stage::Exporting => match event {
                Event::Exported => Stage::Done,
                _ => self,
            },
            Stage::Done => self,
        }
    }
}

/// What a loading error means for the run: a file that cannot be read stops
/// it, since its results would be incomplete without notice; a file that
/// cannot be decoded or judged is passed over.
pub open spec fn recovery_for(error: LoadError) -> Recovery {
    match error {
        LoadError::Read => Recovery::Abort,
        _ => Recovery::Skip,
    }
}

/// What a loading error means for the run.
pub fn recovery(error: &LoadError) -> (r: Recovery)
    ensures
        r == recovery_for(*error),
{
    match error {
        LoadError::Read => Recovery::Abort,
        _ => Recovery::Skip,
    }
}

/// A run that has begun stays begun: whatever events follow, the stage
/// never falls back.
pub proof fn lemma_stages_never_fall_back(stage: Stage, events: Seq<Event>)
    ensures
        stage.rank() <= stage_after_all(stage, events).rank(),
    decreases events.len(),
{
    if events.len() > 0 {
        lemma_stages_never_fall_back(stage, events.drop_last());
    }
}

/// The stage after a sequence of events.
pub open spec fn stage_after_all(stage: Stage, events: Seq<Event>) -> Stage
    decreases events.len(),
{
    if events.len() == 0 {
        stage
    } else {
        stage_after_all(stage, events.drop_last()).after(events.last())
    }
}

} // verus!
