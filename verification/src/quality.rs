use vstd::prelude::*;

verus! {

/// What a quality recommendation asks for.
#[derive(Debug, Clone, Copy, PartialEq, Eq, Structural)]
pub enum RecommendationType {
    AdjustSize,
    ImproveBoundary,
    AddContext,
    ReduceOverlap,
    IncreaseOverlap,
    PreserveStructure,
    IncreaseInformationDensity,
}

} // verus!
