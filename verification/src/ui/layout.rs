//! Rectangles of the terminal grid and the outer layout of the screen.

use vstd::prelude::*;

verus! {

/// A rectangle of terminal cells.
#[derive(Debug, Clone, Copy, PartialEq, Eq, Structural)]
pub struct Area {
    pub x: u16,
    pub y: u16,
    pub width: u16,
    pub height: u16,
}

pub open spec fn sat_add(a: int, b: int) -> int {
    if a + b > u16::MAX {
        u16::MAX as int
    } else {
        a + b
    }
}

pub open spec fn sat_sub(a: int, b: int) -> int {
    if a >= b {
        a - b
    } else {
        0
    }
}

pub open spec fn min_int(a: int, b: int) -> int {
    if a <= b {
        a
    } else {
        b
    }
}

pub open spec fn max_int(a: int, b: int) -> int {
    if a >= b {
        a
    } else {
        b
    }
}

impl Area {
    /// Column just past the right edge (saturating).
    pub open spec fn right(self) -> int {
        sat_add(self.x as int, self.width as int)
    }

    /// Row just past the bottom edge (saturating).
    pub open spec fn bottom(self) -> int {
        sat_add(self.y as int, self.height as int)
    }
}

/// Overlap of two rectangles (empty, at the later corner, when disjoint).
pub open spec fn intersection_spec(a: Area, b: Area) -> Area {
    let x1 = max_int(a.x as int, b.x as int);
    let y1 = max_int(a.y as int, b.y as int);
    let x2 = min_int(a.right(), b.right());
    let y2 = min_int(a.bottom(), b.bottom());
    Area { x: x1 as u16, y: y1 as u16, width: sat_sub(x2, x1) as u16, height: sat_sub(y2, y1) as u16 }
}

fn sat_add16(a: u16, b: u16) -> (r: u16)
    ensures
        r as int == sat_add(a as int, b as int),
{
    if a as u32 + b as u32 > 65535 {
        65535
    } else {
        a + b
    }
}

pub fn intersection(a: Area, b: Area) -> (r: Area)
    ensures
        r == intersection_spec(a, b),
{
    let x1 = if a.x >= b.x {
        a.x
    } else {
        b.x
    };
    let y1 = if a.y >= b.y {
        a.y
    } else {
        b.y
    };
    let ar = sat_add16(a.x, a.width);
    let br = sat_add16(b.x, b.width);
    let ab = sat_add16(a.y, a.height);
    let bb = sat_add16(b.y, b.height);
    let x2 = if ar <= br {
        ar
    } else {
        br
    };
    let y2 = if ab <= bb {
        ab
    } else {
        bb
    };
    Area {
        x: x1,
        y: y1,
        width: if x2 >= x1 {
            x2 - x1
        } else {
            0
        },
        height: if y2 >= y1 {
            y2 - y1
        } else {
            0
        },
    }
}

/// Maximum width of the stacked body; wider screens get side padding.
pub const BODY_MAX_WIDTH: u16 = 100;

/// `rect` shrunk by `padding` cells on every side.
pub fn inset(rect: Area, padding: u16) -> (r: Area)
    requires
        rect.x + padding <= u16::MAX,
        rect.y + padding <= u16::MAX,
        padding * 2 <= u16::MAX,
    ensures
        r == (Area {
            x: (rect.x + padding) as u16,
            y: (rect.y + padding) as u16,
            width: sat_sub(rect.width as int, padding * 2) as u16,
            height: sat_sub(rect.height as int, padding * 2) as u16,
        }),
{
    let p2 = padding * 2;
    Area {
        x: rect.x + padding,
        y: rect.y + padding,
        width: if rect.width >= p2 {
            rect.width - p2
        } else {
            0
        },
        height: if rect.height >= p2 {
            rect.height - p2
        } else {
            0
        },
    }
}

/// `area` narrowed to `max_width` and centred horizontally; unchanged
/// when it is not wider.
pub fn centered(area: Area, max_width: u16) -> (r: Area)
    requires
        area.x + area.width <= u16::MAX,
    ensures
        area.width <= max_width ==> r == area,
        area.width > max_width ==> r == (Area {
            x: (area.x + (area.width - max_width) / 2) as u16,
            width: max_width,
            ..area
        }),
{
    if area.width <= max_width {
        return area;
    }
    let pad = (area.width - max_width) / 2;
    Area { x: area.x + pad, width: max_width, ..area }
}

/// `rect` shrunk by one cell on every side, saturating.
pub fn inset_one(area: Area) -> (r: Area)
    ensures
        r == (Area {
            x: sat_add(area.x as int, 1) as u16,
            y: sat_add(area.y as int, 1) as u16,
            width: sat_sub(area.width as int, 2) as u16,
            height: sat_sub(area.height as int, 2) as u16,
        }),
{
    Area {
        x: sat_add16(area.x, 1),
        y: sat_add16(area.y, 1),
        width: if area.width >= 2 {
            area.width - 2
        } else {
            0
        },
        height: if area.height >= 2 {
            area.height - 2
        } else {
            0
        },
    }
}

} // verus!
