//! How competent a model is.

use vstd::prelude::*;

verus! {

/// How competent a model is. Small comes before medium and medium before large.
#[derive(Debug, Clone, Copy, PartialEq, Eq, PartialOrd, Ord, Hash, Structural)]
pub enum ModelTier {
    /// Cheap and fast.
    Small,
    /// In between.
    Medium,
    /// The most competent.
    Large,
}

impl ModelTier {
    /// The place of a tier in their order.
    pub open spec fn rank(self) -> int {
        match self {
            ModelTier::Small => 0,
            ModelTier::Medium => 1,
            ModelTier::Large => 2,
        }
    }

    /// Whether a tier is at least as competent as another.
    pub fn at_least(&self, other: &ModelTier) -> (r: bool)
        ensures
            r == (self.rank() >= other.rank()),
    {
        match (self, other) {
            (ModelTier::Large, _) => true,
            (ModelTier::Medium, ModelTier::Large) => false,
            (ModelTier::Medium, _) => true,
            (ModelTier::Small, ModelTier::Small) => true,
            (ModelTier::Small, _) => false,
        }
    }
}

} // verus!
