//! The stages a research project moves through.

use vstd::prelude::*;

verus! {

/// A project's stage, from planning to approval.
#[derive(Debug, Clone)]
pub enum ProjectStatus {
    Planning,
    Active,
    Clinical,
    Approved,
}

impl ProjectStatus {
    /// The stage after this one; approval is final.
    pub open spec fn next_spec(self) -> ProjectStatus {
        match self {
            ProjectStatus::Planning => ProjectStatus::Active,
            ProjectStatus::Active => ProjectStatus::Clinical,
            ProjectStatus::Clinical => ProjectStatus::Approved,
            ProjectStatus::Approved => ProjectStatus::Approved,
        }
    }

    /// The stage a project enters when it advances from this one.
    pub fn advanced(&self) -> (r: ProjectStatus)
        ensures
            r == self.next_spec(),
    {
        match self {
            ProjectStatus::Planning => ProjectStatus::Active,
            ProjectStatus::Active => ProjectStatus::Clinical,
            ProjectStatus::Clinical => ProjectStatus::Approved,
            ProjectStatus::Approved => ProjectStatus::Approved,
        }
    }
}

} // verus!
