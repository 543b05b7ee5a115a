//! Scroll affordance of a list: whether items are hidden above or below.

use vstd::prelude::*;

verus! {

/// (▲ shown, ▼ shown) for a list window starting at `offset` that shows
/// `visible` of `total` items in an area of the given size; neither on an
/// empty area.
pub fn scroll_markers(area_width: u16, area_height: u16, offset: usize, visible: usize, total: usize) -> (r: (
    bool,
    bool,
))
    requires
        offset + visible <= usize::MAX,
    ensures
        r == if area_width == 0 || area_height == 0 {
            (false, false)
        } else {
            (offset > 0, offset + visible < total)
        },
{
    if area_width == 0 || area_height == 0 {
        return (false, false);
    }
    (offset > 0, offset + visible < total)
}

} // verus!
