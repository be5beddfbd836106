//! The room of a leaf: a rectangle inside the leaf that keeps a margin to
//! every side.

use crate::draws::{draw, drawn, rest, rng_words};
use crate::partition::SubDungeon;
use crate::room::Rectangle;
use rand::StdRng;
use vstd::prelude::*;

verus! {

/// The range from which the width (or height) of a room is drawn in a
/// subdungeon of width (or height) `len`: from a half of `len` up to, and
/// without, four fifths of it.
pub open spec fn size_range(len: u32) -> (u32, u32) {
    ((10 * len / 20) as u32, (16 * len / 20) as u32)
}

/// The margin that a room keeps to each side of a subdungeon of width (or
/// height) `len`: a twentieth of it.
pub open spec fn margin(len: u32) -> int {
    (len / 20) as int
}

/// The range from which the x (or y) of a room of width (or height) `size` is
/// drawn, in a subdungeon that starts at `origin` and is `len` wide (or
/// high): so that the margin is kept before the room and after it.
pub open spec fn origin_range(origin: u32, len: u32, size: u32) -> (u32, u32) {
    ((origin + margin(len)) as u32, (origin + len - size - margin(len)) as u32)
}

/// The subdungeon can take a room: there is a width and a height to draw.
pub open spec fn roomy(node: SubDungeon) -> bool {
    size_range(node.width).0 < size_range(node.width).1 && size_range(node.height).0 < size_range(
        node.height,
    ).1
}

/// The room of the leaf `node` that a generator in state `words` places, and
/// the state afterwards. The width is drawn first, then the height, the x
/// and the y.
pub open spec fn room_in(node: SubDungeon, words: Seq<u64>) -> (Rectangle, Seq<u64>) {
    let widths = size_range(node.width);
    let width = drawn(words, widths.0, widths.1);
    let after_width = rest(words, widths.0, widths.1);
    let heights = size_range(node.height);
    let height = drawn(after_width, heights.0, heights.1);
    let after_height = rest(after_width, heights.0, heights.1);
    let columns = origin_range(node.x, node.width, width);
    let x = drawn(after_height, columns.0, columns.1);
    let after_x = rest(after_height, columns.0, columns.1);
    let rows = origin_range(node.y, node.height, height);
    let y = drawn(after_x, rows.0, rows.1);
    ([x, y, width, height], rest(after_x, rows.0, rows.1))
}

/// The rectangle `rect` is a room for `node`: each of its sizes lies in the
/// range for it, and it keeps the margin to all four sides.
pub open spec fn lodged(node: SubDungeon, rect: Rectangle) -> bool {
    &&& size_range(node.width).0 <= rect[2] < size_range(node.width).1
    &&& size_range(node.height).0 <= rect[3] < size_range(node.height).1
    &&& node.x + margin(node.width) <= rect[0]
    &&& rect[0] + rect[2] + margin(node.width) < node.x + node.width
    &&& node.y + margin(node.height) <= rect[1]
    &&& rect[1] + rect[3] + margin(node.height) < node.y + node.height
}

/// A subdungeon can take a room if and only if it measures three units or
/// more each way.
pub proof fn roomy_law(node: SubDungeon)
    ensures
        roomy(node) <==> node.width >= 3 && node.height >= 3,
{
}

/// What is placed in a subdungeon that can take a room is a room for it.
pub proof fn room_in_is_lodged(node: SubDungeon, words: Seq<u64>)
    requires
        roomy(node),
        node.x + node.width <= u32::MAX,
        node.y + node.height <= u32::MAX,
    ensures
        lodged(node, room_in(node, words).0),
{
}

/// A room for a subdungeon lies inside it, ends before its right and lower
/// edge, and is neither empty nor a line.
pub proof fn lodged_law(node: SubDungeon, rect: Rectangle)
    requires
        lodged(node, rect),
    ensures
        node.holds(rect),
        rect[2] > 0,
        rect[3] > 0,
{
}

/// The range from which the width (or height) of a room is drawn in a
/// subdungeon of width (or height) `len`. It has a member if and only if
/// `len` is three or more.
pub fn room_size_range(len: u32) -> (range: (u32, u32))
    ensures
        range == size_range(len),
        range.0 < range.1 <==> len >= 3,
        range.0 < range.1 ==> range.0 >= 1,
        range.1 <= len,
{
    let low: u64 = 10 * (len as u64) / 20;
    let high: u64 = 16 * (len as u64) / 20;
    (low as u32, high as u32)
}

/// The range from which the x (or y) of a room of width (or height) `size` is
/// drawn, in a subdungeon that starts at `origin` and is `len` wide (or
/// high); `None` where the subdungeon does not end on the grid or the range
/// is empty. For a size out of the range for `len` it is never empty.
pub fn room_origin_range(origin: u32, len: u32, size: u32) -> (range: Option<(u32, u32)>)
    ensures
        match range {
            Some(r) => r == origin_range(origin, len, size) && r.0 < r.1,
            None => origin + len > u32::MAX || origin + margin(len) >= origin + len - size
                - margin(len),
        },
        origin + len <= u32::MAX && size < size_range(len).1 ==> range is Some,
{
    let edge: u64 = (len / 20) as u64;
    let end: u64 = origin as u64 + len as u64;
    if end > u32::MAX as u64 || origin as u64 + edge + size as u64 + edge >= end {
        return None;
    }
    Some(((origin as u64 + edge) as u32, (end - size as u64 - edge) as u32))
}

/// Places a room in the leaf `node`, if the leaf ends on the grid and can
/// take one.
///
/// The room is the one that `room_in` describes for the state of the
/// generator. A leaf that gets no room takes no draw.
pub fn place_room(node: &SubDungeon, rng: &mut StdRng) -> (room: Option<Rectangle>)
    ensures
        room is Some <==> roomy(*node) && node.on_grid(),
        room matches Some(rect) ==> (rect, rng_words(*final(rng))) == room_in(
            *node,
            rng_words(*old(rng)),
        ) && lodged(*node, rect),
        room is None ==> *final(rng) == *old(rng),
{
    let widths = room_size_range(node.width);
    let heights = room_size_range(node.height);
    if widths.0 >= widths.1 || heights.0 >= heights.1 || node.x as u64 + node.width as u64
        > u32::MAX as u64 || node.y as u64 + node.height as u64 > u32::MAX as u64 {
        return None;
    }
    let mut room: Rectangle = [0, 0, 0, 0];
    room[2] = draw(rng, widths.0, widths.1);
    room[3] = draw(rng, heights.0, heights.1);
    let columns = room_origin_range(node.x, node.width, room[2]).unwrap();
    room[0] = draw(rng, columns.0, columns.1);
    let rows = room_origin_range(node.y, node.height, room[3]).unwrap();
    room[1] = draw(rng, rows.0, rows.1);
    assert(room@ =~= room_in(*node, rng_words(*old(rng))).0@);
    Some(room)
}

} // verus!
