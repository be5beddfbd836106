//! The geometry of a corridor between two rectangles.
//!
//! A corridor runs from a first rectangle to a second one that lies wholly
//! below it (a vertical corridor) or wholly to the right of it (a horizontal
//! one). The horizontal case is the vertical one with x and y, width and
//! height exchanged, and is stated that way.
//!
//! Where the two rectangles have enough columns in common, a vertical
//! corridor is one straight run down from the first to the second. Otherwise
//! the run leaves the first rectangle, goes down to the middle row of the
//! second, and a second segment, the bend, leads from its foot sideways to the
//! second rectangle.

use crate::room::{room_of, Rectangle, Room, RoomType};
use vstd::prelude::*;

verus! {

/// A corridor: a run, which starts at the first rectangle, and where the run
/// does not reach the second rectangle, a bend that does.
#[derive(Debug, Clone, Copy, PartialEq, Eq, Structural)]
pub struct Passage {
    /// the segment that leaves the first rectangle
    pub run: Room,
    /// the segment across the foot of the run, if the corridor is L-shaped
    pub bend: Option<Room>,
}

impl Passage {
    /// The segments in the order in which they are handed out: the bend, if
    /// there is one, before the run.
    pub open spec fn rooms(self) -> Seq<Room> {
        match self.bend {
            Some(bend) => seq![bend, self.run],
            None => seq![self.run],
        }
    }

    /// Every segment is a corridor that is neither empty nor a line.
    pub open spec fn solid(self) -> bool {
        &&& self.run.room_type == RoomType::Coridor
        &&& self.run.positive()
        &&& self.bend matches Some(bend) ==> bend.room_type == RoomType::Coridor
            && bend.positive()
    }

    /// The corridor leads from `first` to `second`: a straight run touches
    /// both; of an L-shaped corridor the run touches `first`, the bend touches
    /// `second`, and the two segments touch each other.
    pub open spec fn links(self, first: Rectangle, second: Rectangle) -> bool {
        let from = room_of(RoomType::BasicRoom, first);
        let to = room_of(RoomType::BasicRoom, second);
        match self.bend {
            None => self.run.touches(from) && self.run.touches(to),
            Some(bend) => self.run.touches(from) && bend.touches(to) && bend.touches(self.run),
        }
    }

    /// The corridor with x and y, width and height exchanged.
    pub open spec fn mirrored(self) -> Passage {
        Passage {
            run: mirror_room(self.run),
            bend: match self.bend {
                Some(bend) => Some(mirror_room(bend)),
                None => None,
            },
        }
    }
}

/// The rectangle with x and y, width and height exchanged.
pub open spec fn mirror(rect: Rectangle) -> Rectangle {
    [rect[1], rect[0], rect[3], rect[2]]
}

/// The room with x and y, width and height exchanged.
pub open spec fn mirror_room(room: Room) -> Room {
    Room {
        room_type: room.room_type,
        x: room.y,
        y: room.x,
        width: room.height,
        height: room.width,
    }
}

/// The first column that both rectangles have.
pub open spec fn shared_low(first: Rectangle, second: Rectangle) -> int {
    if first[0] >= second[0] {
        first[0] as int
    } else {
        second[0] as int
    }
}

/// The column after the last one from which a corridor of width `width` can
/// start and stay in the columns of both rectangles. It is below zero where
/// the corridor is wider than the narrower rectangle reaches.
pub open spec fn shared_high(first: Rectangle, second: Rectangle, width: u32) -> int {
    if first[0] + first[2] <= second[0] + second[2] {
        first[0] + first[2] - width
    } else {
        second[0] + second[2] - width
    }
}

/// The rectangles have enough columns in common for a straight run.
pub open spec fn straight(first: Rectangle, second: Rectangle, width: u32) -> bool {
    shared_low(first, second) < shared_high(first, second, width)
}

/// The range from which the column of a vertical run is drawn: the columns
/// from which a straight run can start, if there are any, and else the
/// columns of the first rectangle. `None` where that range is empty or does
/// not end on the grid.
pub open spec fn vert_range(first: Rectangle, second: Rectangle, width: u32) -> Option<
    (u32, u32),
> {
    if straight(first, second, width) {
        if shared_high(first, second, width) <= u32::MAX {
            Some((shared_low(first, second) as u32, shared_high(first, second, width) as u32))
        } else {
            None
        }
    } else if first[2] > 0 && first[0] + first[2] <= u32::MAX {
        Some((first[0], (first[0] + first[2]) as u32))
    } else {
        None
    }
}

/// A corridor segment.
pub open spec fn segment(x: int, y: int, width: int, height: int) -> Room {
    Room {
        room_type: RoomType::Coridor,
        x: x as u32,
        y: y as u32,
        width: width as u32,
        height: height as u32,
    }
}

/// The vertical corridor of width `width` from `first` down to `second` whose
/// run stands in column `at`.
///
/// The run starts under `first`. A straight run ends on `second`. Otherwise
/// it goes on for half the height of `second`, and the bend, as high as the
/// corridor is wide, ends level with the foot of the run. If `first` starts
/// no further left than `second`, the bend leads from `shared_high` to the
/// run; else from the run to the left edge of `second`.
///
/// There is no such corridor (`None`) where `at` is not in the range to draw
/// from, where the width is zero, where `second` does not start below the
/// end of `first`, and where a bend would be empty or leave the grid.
pub open spec fn vert_passage(first: Rectangle, second: Rectangle, width: u32, at: u32) -> Option<
    Passage,
> {
    let top = first[1] + first[3];
    let gap = second[1] - top;
    match vert_range(first, second, width) {
        None => None,
        Some(range) => {
            if !(range.0 <= at < range.1) || width == 0 || gap <= 0 {
                None
            } else if straight(first, second, width) {
                Some(Passage { run: segment(at as int, top, width as int, gap), bend: None })
            } else {
                let reach = gap + second[3] / 2;
                let level = top + reach - width;
                let from = if first[0] >= second[0] {
                    shared_high(first, second, width)
                } else {
                    at as int
                };
                let upto = if first[0] >= second[0] {
                    at as int
                } else {
                    second[0] as int
                };
                if reach > u32::MAX || level < 0 || level > u32::MAX || from < 0 || upto <= from {
                    None
                } else {
                    Some(
                        Passage {
                            run: segment(at as int, top, width as int, reach),
                            bend: Some(segment(from, level, upto - from, width as int)),
                        },
                    )
                }
            }
        },
    }
}

/// The range from which the row of a horizontal run is drawn.
pub open spec fn hor_range(first: Rectangle, second: Rectangle, width: u32) -> Option<(u32, u32)> {
    vert_range(mirror(first), mirror(second), width)
}

/// The horizontal corridor of width `width` from `first` to `second` on its
/// right whose run lies in row `at`: the mirror image of the vertical
/// corridor between the mirror images.
pub open spec fn hor_passage(first: Rectangle, second: Rectangle, width: u32, at: u32) -> Option<
    Passage,
> {
    match vert_passage(mirror(first), mirror(second), width, at) {
        Some(passage) => Some(passage.mirrored()),
        None => None,
    }
}

/// A vertical corridor is made of solid segments and leads from the first
/// rectangle to the second.
pub proof fn vert_passage_links(first: Rectangle, second: Rectangle, width: u32, at: u32)
    requires
        vert_passage(first, second, width, at) is Some,
    ensures
        vert_passage(first, second, width, at)->0.solid(),
        vert_passage(first, second, width, at)->0.links(first, second),
{
}

/// A horizontal corridor is made of solid segments and leads from the first
/// rectangle to the second.
pub proof fn hor_passage_links(first: Rectangle, second: Rectangle, width: u32, at: u32)
    requires
        hor_passage(first, second, width, at) is Some,
    ensures
        hor_passage(first, second, width, at)->0.solid(),
        hor_passage(first, second, width, at)->0.links(first, second),
{
    vert_passage_links(mirror(first), mirror(second), width, at);
}

/// The range from which the column of the run is drawn for a vertical
/// corridor from `bx1` down to `bx2`.
pub fn coridor_vert_range(bx1: Rectangle, bx2: Rectangle, coridor_width: u32) -> (range: Option<
    (u32, u32),
>)
    ensures
        range == vert_range(bx1, bx2, coridor_width),
        range matches Some(r) ==> r.0 < r.1,
{
    let low: u32 = if bx1[0] >= bx2[0] {
        bx1[0]
    } else {
        bx2[0]
    };
    let end1: u64 = bx1[0] as u64 + bx1[2] as u64;
    let end2: u64 = bx2[0] as u64 + bx2[2] as u64;
    let end: u64 = if end1 <= end2 {
        end1
    } else {
        end2
    };
    if low as u64 + (coridor_width as u64) < end {
        let high: u64 = end - coridor_width as u64;
        if high <= u32::MAX as u64 {
            Some((low, high as u32))
        } else {
            None
        }
    } else if bx1[2] > 0 && end1 <= u32::MAX as u64 {
        Some((bx1[0], end1 as u32))
    } else {
        None
    }
}

/// The vertical corridor from `bx1` down to `bx2` whose run stands in column
/// `at`, if there is one.
pub fn coridor_vert_passage(bx1: Rectangle, bx2: Rectangle, coridor_width: u32, at: u32) -> (passage:
    Option<Passage>)
    ensures
        passage == vert_passage(bx1, bx2, coridor_width, at),
        passage matches Some(p) ==> p.solid() && p.links(bx1, bx2),
{
    let range = match coridor_vert_range(bx1, bx2, coridor_width) {
        Some(range) => range,
        None => { return None; },
    };
    let top: u64 = bx1[1] as u64 + bx1[3] as u64;
    if at < range.0 || at >= range.1 || coridor_width == 0 || bx2[1] as u64 <= top {
        return None;
    }
    let gap: u64 = bx2[1] as u64 - top;
    let end1: u64 = bx1[0] as u64 + bx1[2] as u64;
    let end2: u64 = bx2[0] as u64 + bx2[2] as u64;
    let end: u64 = if end1 <= end2 {
        end1
    } else {
        end2
    };
    let low: u32 = if bx1[0] >= bx2[0] {
        bx1[0]
    } else {
        bx2[0]
    };
    let mut coridor: Rectangle = [at, top as u32, coridor_width, gap as u32];
    if low as u64 + (coridor_width as u64) < end {
        // a straight run
        return Some(Passage { run: Room::new(RoomType::Coridor, coridor), bend: None });
    }
    // a run with a bend at its foot
    let reach: u64 = gap + (bx2[3] / 2) as u64;
    let foot: u64 = top + reach;
    if reach > u32::MAX as u64 || foot < coridor_width as u64 || foot - coridor_width as u64
        > u32::MAX as u64 {
        return None;
    }
    coridor[3] = reach as u32;
    let mut h_coridor: Rectangle = [0, (foot - coridor_width as u64) as u32, 0, coridor_width];
    if bx1[0] >= bx2[0] {
        if end < coridor_width as u64 || at as u64 <= end - coridor_width as u64 {
            return None;
        }
        h_coridor[0] = (end - coridor_width as u64) as u32;
        h_coridor[2] = at - h_coridor[0];
    } else {
        if bx2[0] <= at {
            return None;
        }
        h_coridor[0] = at;
        h_coridor[2] = bx2[0] - at;
    }
    Some(
        Passage {
            run: Room::new(RoomType::Coridor, coridor),
            bend: Some(Room::new(RoomType::Coridor, h_coridor)),
        },
    )
}

/// The rectangle with x and y, width and height exchanged.
pub fn mirrored(rect: Rectangle) -> (turned: Rectangle)
    ensures
        turned == mirror(rect),
{
    let turned: Rectangle = [rect[1], rect[0], rect[3], rect[2]];
    assert(turned@ =~= mirror(rect)@);
    turned
}

/// The room with x and y, width and height exchanged.
pub fn mirrored_room(room: Room) -> (turned: Room)
    ensures
        turned == mirror_room(room),
{
    Room {
        room_type: room.room_type,
        x: room.y,
        y: room.x,
        width: room.height,
        height: room.width,
    }
}

/// The range from which the row of the run is drawn for a horizontal
/// corridor from `bx1` to `bx2` on its right.
pub fn coridor_hor_range(bx1: Rectangle, bx2: Rectangle, coridor_width: u32) -> (range: Option<
    (u32, u32),
>)
    ensures
        range == hor_range(bx1, bx2, coridor_width),
        range matches Some(r) ==> r.0 < r.1,
{
    coridor_vert_range(mirrored(bx1), mirrored(bx2), coridor_width)
}

/// The horizontal corridor from `bx1` to `bx2` on its right whose run lies in
/// row `at`, if there is one.
pub fn coridor_hor_passage(bx1: Rectangle, bx2: Rectangle, coridor_width: u32, at: u32) -> (passage:
    Option<Passage>)
    ensures
        passage == hor_passage(bx1, bx2, coridor_width, at),
        passage matches Some(p) ==> p.solid() && p.links(bx1, bx2),
{
    match coridor_vert_passage(mirrored(bx1), mirrored(bx2), coridor_width, at) {
        Some(upright) => {
            let bend: Option<Room> = match upright.bend {
                Some(bend) => Some(mirrored_room(bend)),
                None => None,
            };
            Some(Passage { run: mirrored_room(upright.run), bend: bend })
        },
        None => None,
    }
}

} // verus!
