//! Geometry of the loading skeleton: where the placeholder service rows
//! and their blocks go, and where the placeholder incident groups go.

use vstd::prelude::*;

use crate::ui::layout::{Area, intersection, intersection_spec};

verus! {

/// Lines per placeholder service row.
pub const SERVICE_ROW: u16 = 3;

/// Blank lines between placeholder rows.
pub const SERVICE_GAP: u16 = 1;

/// How many of `n` rows fit from the top of `area`.
pub open spec fn rows_fitting(area: Area, n: int) -> int {
    if area.height < SERVICE_ROW {
        0
    } else {
        let fit = (area.height - SERVICE_ROW) / 4 + 1;
        if n < fit {
            n
        } else {
            fit
        }
    }
}

/// `n` rows of three lines separated by one blank line, stacked against
/// the top of `area`; rows that would overflow are dropped.
pub fn layout_rows(area: Area, n: u16) -> (rows: Vec<Area>)
    requires
        area.y + area.height <= 65531,
    ensures
        rows@.len() == rows_fitting(area, n as int),
        forall|k: int|
            0 <= k < rows@.len() ==> #[trigger] rows@[k] == (Area {
                x: area.x,
                y: (area.y + 4 * k) as u16,
                width: area.width,
                height: SERVICE_ROW,
            }),
{
    let mut rows: Vec<Area> = Vec::new();
    let mut y: u16 = area.y;
    let max_y: u16 = area.y + area.height;
    let mut i: u16 = 0;
    while i < n
        invariant
            i <= n,
            area.y + area.height <= 65531,
            max_y == area.y + area.height,
            rows@.len() == i,
            i <= rows_fitting(area, n as int),
            y == area.y + 4 * i - (if i > 0 { 1int } else { 0int }),
            i > 0 ==> y <= max_y,
            forall|k: int|
                0 <= k < rows@.len() ==> #[trigger] rows@[k] == (Area {
                    x: area.x,
                    y: (area.y + 4 * k) as u16,
                    width: area.width,
                    height: SERVICE_ROW,
                }),
        decreases n - i,
    {
        if i > 0 {
            y = y + SERVICE_GAP;
        }
        if y + SERVICE_ROW > max_y {
            assert(rows_fitting(area, n as int) == i) by (nonlinear_arith)
                requires
                    y == area.y + 4 * i,
                    y + 3 > area.y + area.height,
                    i <= rows_fitting(area, n as int),
                    rows_fitting(area, n as int) == if area.height < 3 {
                        0
                    } else {
                        let fit = (area.height - 3) / 4 + 1;
                        if n < fit {
                            n as int
                        } else {
                            fit
                        }
                    },
            ;
            return rows;
        }
        assert(i + 1 <= rows_fitting(area, n as int)) by (nonlinear_arith)
            requires
                y == area.y + 4 * i,
                y + 3 <= area.y + area.height,
                i < n,
                rows_fitting(area, n as int) == if area.height < 3 {
                    0
                } else {
                    let fit = (area.height - 3) / 4 + 1;
                    if n < fit {
                        n as int
                    } else {
                        fit
                    }
                },
        ;
        rows.push(Area { x: area.x, y, width: area.width, height: SERVICE_ROW });
        y = y + SERVICE_ROW;
        i = i + 1;
    }
    rows
}

/// One line of `parent` at row `y`, from column `x`, `width` wide,
/// clipped to the parent.
pub fn row_rect(parent: Area, y: u16, x: u16, width: u16) -> (r: Area)
    ensures
        r == intersection_spec(Area { x, y, width, height: 1 }, parent),
{
    intersection(Area { x, y, width, height: 1 }, parent)
}

pub open spec fn clamp_int(v: int, lo: int, hi: int) -> int {
    if v < lo {
        lo
    } else if v > hi {
        hi
    } else {
        v
    }
}

pub open spec fn min16(a: int, b: int) -> int {
    if a <= b {
        a
    } else {
        b
    }
}

/// Placeholder blocks of one service row (rect, braille?): name and
/// status pill on the first line, the bar on the second, and three axis
/// labels (left, centred, right) on the third.
pub open spec fn service_row_blocks_spec(area: Area) -> Seq<(Area, bool)> {
    let w = area.width as int;
    let name_w = clamp_int(w / 3, 8, 22);
    let status_w = min16(11, w);
    let left_w = min16(7, w);
    let center_w = min16(14, w);
    let right_w = min16(5, w);
    let center_x = area.x + (w - center_w) / 2;
    let right_x = area.x + w - right_w;
    let status_x = area.x + w - status_w;
    let y0 = area.y as int;
    let y2 = area.y + 2;
    seq![
        (intersection_spec(Area { x: area.x, y: y0 as u16, width: name_w as u16, height: 1 }, area), false),
        (intersection_spec(Area { x: status_x as u16, y: y0 as u16, width: status_w as u16, height: 1 }, area), false),
        (Area { x: area.x, y: (area.y + 1) as u16, width: area.width, height: 1 }, true),
        (intersection_spec(Area { x: area.x, y: y2 as u16, width: left_w as u16, height: 1 }, area), false),
        (intersection_spec(Area { x: center_x as u16, y: y2 as u16, width: center_w as u16, height: 1 }, area), false),
        (intersection_spec(Area { x: right_x as u16, y: y2 as u16, width: right_w as u16, height: 1 }, area), false),
    ]
}

/// The six placeholder blocks of a service row of height three.
pub fn service_row_blocks(area: Area) -> (r: Vec<(Area, bool)>)
    requires
        area.height == SERVICE_ROW,
        area.x + area.width <= u16::MAX,
        area.y + area.height <= u16::MAX,
    ensures
        r@ == service_row_blocks_spec(area),
{
    let w = area.width;
    let third = w / 3;
    let name_w = if third < 8 {
        8
    } else if third > 22 {
        22
    } else {
        third
    };
    let status_w = if 11 <= w {
        11
    } else {
        w
    };
    let left_w = if 7 <= w {
        7
    } else {
        w
    };
    let center_w = if 14 <= w {
        14
    } else {
        w
    };
    let right_w = if 5 <= w {
        5
    } else {
        w
    };
    let center_x = area.x + (w - center_w) / 2;
    let right_x = area.x + (w - right_w);
    let status_x = area.x + (w - status_w);
    let y0 = area.y;
    let y2 = area.y + 2;
    let mut r: Vec<(Area, bool)> = Vec::new();
    r.push((row_rect(area, y0, area.x, name_w), false));
    r.push((row_rect(area, y0, status_x, status_w), false));
    r.push((Area { x: area.x, y: area.y + 1, width: area.width, height: 1 }, true));
    r.push((row_rect(area, y2, area.x, left_w), false));
    r.push((row_rect(area, y2, center_x, center_w), false));
    r.push((row_rect(area, y2, right_x, right_w), false));
    assert(r@ =~= service_row_blocks_spec(area));
    r
}

/// Heading width and bullet count of each placeholder incident group.
pub open spec fn skeleton_group(g: int) -> (int, int) {
    if g == 0 {
        (16, 3)
    } else if g == 1 {
        (18, 1)
    } else if g == 2 {
        (22, 4)
    } else {
        (20, 2)
    }
}

/// Placeholder incident groups `g..4` laid out from line `y` of `area`:
/// each group is a heading block on one line, then (when the pane is wide
/// enough for the text column) a bullet column at `area.x + 3` and a
/// block of streaming text lines beside it, followed by a blank line.
/// Groups stop where the pane's height runs out; a group with no line
/// left for its text keeps its heading and ends the list.
pub open spec fn incident_skeleton_from(area: Area, g: int, y: int) -> Seq<(Area, Option<(u16, Area, u16)>)>
    decreases 4 - g,
{
    let max_y = area.y + area.height;
    if g >= 4 || g < 0 || y >= max_y {
        Seq::empty()
    } else {
        let hw = skeleton_group(g).0;
        let bullets = skeleton_group(g).1;
        let heading = Area { x: area.x, y: y as u16, width: min16(hw, area.width as int) as u16, height: 1 };
        let y1 = y + 1;
        let indent = min16(3, area.width as int);
        let stream_x = area.x + indent + 2;
        if stream_x >= area.x + area.width {
            seq![(heading, None::<(u16, Area, u16)>)] + incident_skeleton_from(area, g + 1, y1)
        } else {
            let lines = min16(bullets, max_y - y1);
            if lines <= 0 {
                seq![(heading, None::<(u16, Area, u16)>)]
            } else {
                seq![
                    (
                        heading,
                        Some(
                            (
                                (area.x + indent) as u16,
                                Area {
                                    x: stream_x as u16,
                                    y: y1 as u16,
                                    width: (area.width - (indent + 2)) as u16,
                                    height: lines as u16,
                                },
                                lines as u16,
                            ),
                        ),
                    ),
                ] + incident_skeleton_from(area, g + 1, y1 + lines + 1)
            }
        }
    }
}

/// The placeholder incident groups of the (already inset) events pane
/// `area`; none when it has no width.
pub open spec fn incident_skeleton_spec(area: Area) -> Seq<(Area, Option<(u16, Area, u16)>)> {
    if area.width == 0 {
        Seq::empty()
    } else {
        incident_skeleton_from(area, 0, area.y as int)
    }
}

/// Where the placeholder incident groups go in `area`: per group, its
/// heading block and, when there is room, the bullet column, the
/// streaming text block and its line count.
pub fn incident_skeleton_blocks(area: Area) -> (r: Vec<(Area, Option<(u16, Area, u16)>)>)
    requires
        area.x + area.width <= u16::MAX,
        area.y + area.height < u16::MAX,
    ensures
        r@ == incident_skeleton_spec(area),
{
    let mut r: Vec<(Area, Option<(u16, Area, u16)>)> = Vec::new();
    if area.width == 0 {
        return r;
    }
    let max_y: u16 = area.y + area.height;
    let mut y: u16 = area.y;
    let mut g: usize = 0;
    while g < 4
        invariant
            area.x + area.width <= u16::MAX,
            area.y + area.height < u16::MAX,
            area.width > 0,
            max_y == area.y + area.height,
            g <= 4,
            y <= max_y + 1,
            r@ + incident_skeleton_from(area, g as int, y as int) == incident_skeleton_spec(area),
        decreases 4 - g,
    {
        let ghost before = r@;
        if y >= max_y {
            assert(incident_skeleton_from(area, g as int, y as int) =~= Seq::empty());
            assert(r@ =~= r@ + Seq::<(Area, Option<(u16, Area, u16)>)>::empty());
            return r;
        }
        let (hw, bullets): (u16, u16) = if g == 0 {
            (16, 3)
        } else if g == 1 {
            (18, 1)
        } else if g == 2 {
            (22, 4)
        } else {
            (20, 2)
        };
        let heading = Area {
            x: area.x,
            y,
            width: if hw < area.width {
                hw
            } else {
                area.width
            },
            height: 1,
        };
        y = y + 1;
        let indent: u16 = if 3 < area.width {
            3
        } else {
            area.width
        };
        let stream_x32: u32 = area.x as u32 + indent as u32 + 2;
        if stream_x32 >= area.x as u32 + area.width as u32 {
            r.push((heading, None));
            proof {
                let rest = incident_skeleton_from(area, g + 1, y as int);
                assert(incident_skeleton_from(area, g as int, y - 1) == seq![(heading, None::<(u16, Area, u16)>)]
                    + rest);
                assert(r@ + rest =~= before + (seq![(heading, None::<(u16, Area, u16)>)] + rest));
            }
            g = g + 1;
            continue;
        }
        let stream_x = stream_x32 as u16;
        let avail: u16 = max_y - y;
        let lines: u16 = if bullets < avail {
            bullets
        } else {
            avail
        };
        if lines == 0 {
            r.push((heading, None));
            proof {
                assert(incident_skeleton_from(area, g as int, y - 1) == seq![(heading, None::<(u16, Area, u16)>)]);
                assert(r@ =~= before + seq![(heading, None::<(u16, Area, u16)>)]);
            }
            return r;
        }
        let stream = Area { x: stream_x, y, width: area.width - (indent + 2), height: lines };
        let item = (heading, Some((area.x + indent, stream, lines)));
        r.push(item);
        let y_next = y + lines + 1;
        proof {
            let rest = incident_skeleton_from(area, g + 1, y_next as int);
            assert(incident_skeleton_from(area, g as int, y - 1) == seq![item] + rest);
            assert(r@ + rest =~= before + (seq![item] + rest));
        }
        y = y_next;
        g = g + 1;
    }
    assert(incident_skeleton_from(area, 4, y as int) =~= Seq::empty());
    assert(r@ =~= r@ + Seq::<(Area, Option<(u16, Area, u16)>)>::empty());
    r
}

} // verus!
