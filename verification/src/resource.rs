//! What the resource pollers report.

use crate::model::{RunnerResource, SourceKind};
use vstd::prelude::*;

verus! {

/// One poll of a source of runners.
pub struct ResourceUpdate {
    pub source: SourceKind,
    pub resources: Vec<RunnerResource>,
    /// The running containers that a prefix matched.
    pub matched_seen: usize,
    /// The running containers that no prefix matched.
    pub unmatched_seen: usize,
    pub error: Option<String>,
}

} // verus!
