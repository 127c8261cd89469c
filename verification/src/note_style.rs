use vstd::prelude::*;

verus! {

/// An 8-bit RGBA color.
#[derive(Debug, Clone, Copy, PartialEq, Eq, Structural)]
pub struct Rgba {
    pub r: u8,
    pub g: u8,
    pub b: u8,
    pub a: u8,
}

pub open spec fn rgba(r: u8, g: u8, b: u8, a: u8) -> Rgba {
    Rgba { r, g, b, a }
}

/// The colors of the notes of one lane.
#[derive(Debug, Clone, Copy, PartialEq, Eq, Structural)]
pub struct LaneNotePalette {
    pub tap: Rgba,
    pub hold_head: Rgba,
    pub hold_body: Rgba,
    pub flick_head: Rgba,
    pub flick_arrow: Rgba,
    pub skyarea_head: Rgba,
    pub skyarea_body: Rgba,
}

/// The palette of a lane: purple for lane 0, four shades of blue for the
/// central lanes, red for lane 5 (and beyond).
pub open spec fn lane_palette(lane: usize) -> LaneNotePalette {
    if lane == 0 {
        LaneNotePalette {
            tap: rgba(174, 118, 255, 255),
            hold_head: rgba(202, 156, 255, 255),
            hold_body: rgba(124, 84, 192, 212),
            flick_head: rgba(192, 138, 255, 255),
            flick_arrow: rgba(248, 224, 255, 255),
            skyarea_head: rgba(160, 110, 238, 255),
            skyarea_body: rgba(120, 84, 182, 124),
        }
    } else if lane == 1 {
        LaneNotePalette {
            tap: rgba(100, 206, 255, 255),
            hold_head: rgba(129, 220, 255, 255),
            hold_body: rgba(73, 145, 186, 212),
            flick_head: rgba(128, 220, 255, 255),
            flick_arrow: rgba(220, 245, 255, 255),
            skyarea_head: rgba(82, 186, 236, 255),
            skyarea_body: rgba(52, 130, 170, 124),
        }
    } else if lane == 2 {
        LaneNotePalette {
            tap: rgba(108, 220, 255, 255),
            hold_head: rgba(138, 232, 255, 255),
            hold_body: rgba(77, 156, 190, 212),
            flick_head: rgba(140, 233, 255, 255),
            flick_arrow: rgba(226, 248, 255, 255),
            skyarea_head: rgba(90, 194, 238, 255),
            skyarea_body: rgba(58, 136, 174, 124),
        }
    } else if lane == 3 {
        LaneNotePalette {
            tap: rgba(120, 216, 255, 255),
            hold_head: rgba(149, 228, 255, 255),
            hold_body: rgba(84, 153, 188, 212),
            flick_head: rgba(148, 228, 255, 255),
            flick_arrow: rgba(226, 248, 255, 255),
            skyarea_head: rgba(96, 191, 238, 255),
            skyarea_body: rgba(64, 134, 172, 124),
        }
    } else if lane == 4 {
        LaneNotePalette {
            tap: rgba(131, 205, 255, 255),
            hold_head: rgba(161, 218, 255, 255),
            hold_body: rgba(92, 142, 184, 212),
            flick_head: rgba(162, 220, 255, 255),
            flick_arrow: rgba(226, 244, 255, 255),
            skyarea_head: rgba(106, 181, 232, 255),
            skyarea_body: rgba(72, 122, 168, 124),
        }
    } else {
        LaneNotePalette {
            tap: rgba(255, 112, 108, 255),
            hold_head: rgba(255, 142, 138, 255),
            hold_body: rgba(194, 82, 78, 212),
            flick_head: rgba(255, 134, 128, 255),
            flick_arrow: rgba(255, 228, 226, 255),
            skyarea_head: rgba(238, 100, 94, 255),
            skyarea_body: rgba(176, 72, 68, 124),
        }
    }
}

fn color(r: u8, g: u8, b: u8, a: u8) -> (c: Rgba)
    ensures
        c == rgba(r, g, b, a),
{
    Rgba { r, g, b, a }
}

/// The colors of the notes of a lane.
pub fn lane_note_palette(lane: usize) -> (p: LaneNotePalette)
    ensures
        p == lane_palette(lane),
{
    match lane {
        0 => LaneNotePalette {
            tap: color(174, 118, 255, 255),
            hold_head: color(202, 156, 255, 255),
            hold_body: color(124, 84, 192, 212),
            flick_head: color(192, 138, 255, 255),
            flick_arrow: color(248, 224, 255, 255),
            skyarea_head: color(160, 110, 238, 255),
            skyarea_body: color(120, 84, 182, 124),
        },
        1 => LaneNotePalette {
            tap: color(100, 206, 255, 255),
            hold_head: color(129, 220, 255, 255),
            hold_body: color(73, 145, 186, 212),
            flick_head: color(128, 220, 255, 255),
            flick_arrow: color(220, 245, 255, 255),
            skyarea_head: color(82, 186, 236, 255),
            skyarea_body: color(52, 130, 170, 124),
        },
        2 => LaneNotePalette {
            tap: color(108, 220, 255, 255),
            hold_head: color(138, 232, 255, 255),
            hold_body: color(77, 156, 190, 212),
            flick_head: color(140, 233, 255, 255),
            flick_arrow: color(226, 248, 255, 255),
            skyarea_head: color(90, 194, 238, 255),
            skyarea_body: color(58, 136, 174, 124),
        },
        3 => LaneNotePalette {
            tap: color(120, 216, 255, 255),
            hold_head: color(149, 228, 255, 255),
            hold_body: color(84, 153, 188, 212),
            flick_head: color(148, 228, 255, 255),
            flick_arrow: color(226, 248, 255, 255),
            skyarea_head: color(96, 191, 238, 255),
            skyarea_body: color(64, 134, 172, 124),
        },
        4 => LaneNotePalette {
            tap: color(131, 205, 255, 255),
            hold_head: color(161, 218, 255, 255),
            hold_body: color(92, 142, 184, 212),
            flick_head: color(162, 220, 255, 255),
            flick_arrow: color(226, 244, 255, 255),
            skyarea_head: color(106, 181, 232, 255),
            skyarea_body: color(72, 122, 168, 124),
        },
        _ => LaneNotePalette {
            tap: color(255, 112, 108, 255),
            hold_head: color(255, 142, 138, 255),
            hold_body: color(194, 82, 78, 212),
            flick_head: color(255, 134, 128, 255),
            flick_arrow: color(255, 228, 226, 255),
            skyarea_head: color(238, 100, 94, 255),
            skyarea_body: color(176, 72, 68, 124),
        },
    }
}

/// Fill and edge colors of a flick: green for right, yellow for left.
pub fn flick_direction_shape_colors(flick_right: bool) -> (c: (Rgba, Rgba))
    ensures
        c == (if flick_right {
            (rgba(74, 216, 136, 136), rgba(154, 255, 190, 242))
        } else {
            (rgba(238, 214, 84, 128), rgba(255, 246, 154, 242))
        }),
{
    if flick_right {
        (color(74, 216, 136, 136), color(154, 255, 190, 242))
    } else {
        (color(238, 214, 84, 128), color(255, 246, 154, 242))
    }
}

} // verus!
