//! Lower-case status labels of the sections list.

use vstd::prelude::*;

use crate::api::ComponentStatus;

verus! {

pub open spec fn section_label(s: ComponentStatus) -> Seq<char> {
    match s {
        ComponentStatus::Operational => "operational"@,
        ComponentStatus::DegradedPerformance => "degraded"@,
        ComponentStatus::PartialOutage => "partial outage"@,
        ComponentStatus::MajorOutage => "major outage"@,
        ComponentStatus::UnderMaintenance => "maintenance"@,
    }
}

/// Lower-case label of a component status.
pub fn label(s: ComponentStatus) -> (r: &'static str)
    ensures
        r@ == section_label(s),
{
    match s {
        ComponentStatus::Operational => "operational",
        ComponentStatus::DegradedPerformance => "degraded",
        ComponentStatus::PartialOutage => "partial outage",
        ComponentStatus::MajorOutage => "major outage",
        ComponentStatus::UnderMaintenance => "maintenance",
    }
}

} // verus!
