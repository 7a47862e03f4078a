//! Build tasks and progress events.
use vstd::prelude::*;

verus! {

/// What a build was asked for.
#[derive(Debug, Clone)]
pub enum BuildTask {
    FullRebuild,
    Manual,
}

/// Build progress, as pushed to the admin page.
#[derive(Debug, Clone)]
pub enum BuildEvent {
    Started { trigger: String },
    StageBegin { stage: String },
    StageEnd { stage: String },
    Finished { total_ms: u64, total_pages: usize, rebuilt: usize, cached: usize },
    Failed { error: String },
}

} // verus!
