//! What holds at every stage of a run, and why a step keeps it.

use crate::corridor::Passage;
use crate::placement::{lodged, lodged_law};
use crate::stages::{closed, closing_counts, notify, open_count, ready, waiting};
use crate::partition::SubDungeon;
use crate::room::{room_of, Rectangle, Room, RoomType};
use crate::tree::{is_tree, leaves_apart, node_ok};
use vstd::prelude::*;

verus! {

/// The room may be handed out for the area `[0, width) x [0, height)`: it is
/// neither empty nor a line, it is no cave, and if it is a basic room, it
/// lies in the area and keeps clear of its right and lower edge.
pub open spec fn fair(room: Room, width: u32, height: u32) -> bool {
    &&& room.positive()
    &&& room.room_type != RoomType::Cave
    &&& room.room_type == RoomType::BasicRoom ==> room.inside(width, height)
}

/// Every room of the list may be handed out.
pub open spec fn all_fair(rooms: Seq<Room>, width: u32, height: u32) -> bool {
    forall|k: int| 0 <= k < rooms.len() ==> #[trigger] fair(rooms[k], width, height)
}

/// The list holds the basic room with the rectangle `rect`.
pub open spec fn placed(rooms: Seq<Room>, rect: Rectangle) -> bool {
    exists|k: int| 0 <= k < rooms.len() && #[trigger] rooms[k] == room_of(RoomType::BasicRoom, rect)
}

/// The room is the room of a leaf of the list.
pub open spec fn owned(nodes: Seq<SubDungeon>, room: Room) -> bool {
    exists|j: int|
        0 <= j < nodes.len() && (#[trigger] nodes[j]).is_leaf() && nodes[j].bounding_rect
            == Some(room.rect()) && room.room_type == RoomType::BasicRoom
}

/// Every basic room of the list is the room of a leaf.
pub open spec fn all_owned(nodes: Seq<SubDungeon>, rooms: Seq<Room>) -> bool {
    forall|k: int|
        0 <= k < rooms.len() && (#[trigger] rooms[k]).room_type == RoomType::BasicRoom ==> owned(
            nodes,
            rooms[k],
        )
}

/// No two basic rooms of the list overlap.
pub open spec fn rooms_apart(rooms: Seq<Room>) -> bool {
    forall|a: int, b: int|
        0 <= a < b < rooms.len() && (#[trigger] rooms[a]).room_type == RoomType::BasicRoom && (
        #[trigger] rooms[b]).room_type == RoomType::BasicRoom ==> !rooms[a].overlaps(rooms[b])
}

/// At index `k` the list holds a corridor from `first` to `second`: either
/// one segment that touches both, or a bend at `k` and a run at `k + 1`, of
/// which the run touches `first`, the bend touches `second`, and the two
/// touch each other.
pub open spec fn joins(rooms: Seq<Room>, k: int, first: Rectangle, second: Rectangle) -> bool {
    let from = room_of(RoomType::BasicRoom, first);
    let to = room_of(RoomType::BasicRoom, second);
    &&& 0 <= k < rooms.len()
    &&& rooms[k].room_type == RoomType::Coridor
    &&& {
        ||| rooms[k].touches(from) && rooms[k].touches(to)
        ||| {
            &&& k + 1 < rooms.len()
            &&& rooms[k + 1].room_type == RoomType::Coridor
            &&& rooms[k + 1].touches(from)
            &&& rooms[k].touches(to)
            &&& rooms[k].touches(rooms[k + 1])
        }
    }
}

/// The list holds a corridor from `first` to `second`.
pub open spec fn linked(rooms: Seq<Room>, first: Rectangle, second: Rectangle) -> bool {
    exists|k: int| joins(rooms, k, first, second)
}

/// The bounding rectangle of node `i`, if it has one, is sound. It lies in
/// the node, ends before the node's right and lower edge, and is neither
/// empty nor a line. For a leaf it is the rectangle of a basic room of the
/// list. For any other node both children are closed, the rectangle is that
/// of one of them, and the list holds a corridor from the first child's
/// rectangle to the second's.
pub open spec fn sound(nodes: Seq<SubDungeon>, rooms: Seq<Room>, i: int) -> bool {
    nodes[i].bounding_rect matches Some(rect) ==> {
        &&& nodes[i].holds(rect)
        &&& rect[2] > 0
        &&& rect[3] > 0
        &&& match nodes[i].childs {
            None => placed(rooms, rect),
            Some(c) => {
                &&& nodes[c[0] as int].bounding_rect matches Some(first)
                &&& nodes[c[1] as int].bounding_rect matches Some(second)
                &&& (rect == first || rect == second)
                &&& linked(rooms, first, second)
            },
        }
    }
}

/// The stage is in order: the list is a tree whose leaves are apart; every
/// bounding rectangle is sound; the queue holds, each once, the nodes that
/// wait to be joined, and no others; every room may be handed out; every
/// basic room is the room of a leaf; and no two basic rooms overlap.
#[verifier::opaque]
pub open spec fn orderly(
    nodes: Seq<SubDungeon>,
    rooms: Seq<Room>,
    queue: Seq<usize>,
    width: u32,
    height: u32,
) -> bool {
    &&& is_tree(nodes, width, height)
    &&& leaves_apart(nodes)
    &&& all_owned(nodes, rooms)
    &&& rooms_apart(rooms)
    &&& forall|i: int| 0 <= i < nodes.len() ==> #[trigger] sound(nodes, rooms, i)
    &&& forall|k: int|
        0 <= k < queue.len() ==> (#[trigger] queue[k]) < nodes.len() && waiting(
            nodes,
            queue[k] as int,
        )
    &&& forall|j: int, k: int| 0 <= j < k < queue.len() ==> queue[j] != queue[k]
    &&& forall|i: int|
        0 <= i < nodes.len() && #[trigger] waiting(nodes, i) ==> queue.contains(i as usize)
    &&& all_fair(rooms, width, height)
}

/// Every leaf from index `from` on is open.
pub open spec fn leaves_open(nodes: Seq<SubDungeon>, from: int) -> bool {
    forall|j: int|
        from <= j < nodes.len() && (#[trigger] nodes[j]).is_leaf() ==> nodes[j].bounding_rect
            is None
}

/// Every leaf before index `upto` is closed.
pub open spec fn leaves_closed(nodes: Seq<SubDungeon>, upto: int) -> bool {
    forall|j: int|
        0 <= j < upto && j < nodes.len() && (#[trigger] nodes[j]).is_leaf()
            ==> nodes[j].bounding_rect is Some
}

/// Node `i` is closed, and its bounding rectangle is sound.
pub open spec fn settled(nodes: Seq<SubDungeon>, rooms: Seq<Room>, i: int) -> bool {
    nodes[i].bounding_rect is Some && sound(nodes, rooms, i)
}

/// The run is complete. The list is a tree whose leaves are apart and whose
/// nodes are all closed, with sound bounding rectangles: every leaf has its
/// room in the list of rooms, and for every node that was split the list
/// holds a corridor between what its two children stand for. Every room may
/// be handed out, every basic room is the room of a leaf, and no two basic
/// rooms overlap.
pub open spec fn finished(nodes: Seq<SubDungeon>, rooms: Seq<Room>, width: u32, height: u32) -> bool {
    &&& is_tree(nodes, width, height)
    &&& leaves_apart(nodes)
    &&& all_fair(rooms, width, height)
    &&& all_owned(nodes, rooms)
    &&& rooms_apart(rooms)
    &&& forall|i: int| 0 <= i < nodes.len() ==> #[trigger] settled(nodes, rooms, i)
}

/// A bounding rectangle changes nothing in the shape of the tree.
pub(crate) proof fn closing_keeps_tree(
    nodes: Seq<SubDungeon>,
    i: int,
    rect: Rectangle,
    width: u32,
    height: u32,
)
    requires
        is_tree(nodes, width, height),
        0 <= i < nodes.len(),
    ensures
        is_tree(closed(nodes, i, rect), width, height),
        leaves_apart(nodes) ==> leaves_apart(closed(nodes, i, rect)),
{
    let after = closed(nodes, i, rect);
    if leaves_apart(nodes) {
        assert forall|a: int, b: int|
            0 <= a < after.len() && 0 <= b < after.len() && a != b && (#[trigger] after[a]).is_leaf()
                && (#[trigger] after[b]).is_leaf() implies after[a].apart(after[b]) by {
            assert(nodes[a].apart(nodes[b]));
        }
    }
    assert forall|j: int| 0 <= j < after.len() implies #[trigger] node_ok(
        after,
        j,
        width,
        height,
    ) by {
        assert(node_ok(nodes, j, width, height));
    }
}

/// A corridor that the list holds is still there when rooms are appended.
pub(crate) proof fn joins_stay(
    rooms: Seq<Room>,
    more: Seq<Room>,
    k: int,
    first: Rectangle,
    second: Rectangle,
)
    requires
        joins(rooms, k, first, second),
    ensures
        joins(rooms + more, k, first, second),
{
}

/// A corridor that is made of solid segments and leads from `first` to
/// `second` is found in the list it is appended to, where the list ended.
pub(crate) proof fn passage_joins(rooms: Seq<Room>, passage: Passage, first: Rectangle, second: Rectangle)
    requires
        passage.solid(),
        passage.links(first, second),
    ensures
        joins(rooms + passage.rooms(), rooms.len() as int, first, second),
{
}

/// A stage in order holds a tree whose leaves are apart, and rooms that may be
/// handed out.
pub(crate) proof fn order_holds_tree(
    nodes: Seq<SubDungeon>,
    rooms: Seq<Room>,
    queue: Seq<usize>,
    width: u32,
    height: u32,
)
    requires
        orderly(nodes, rooms, queue, width, height),
    ensures
        is_tree(nodes, width, height),
        leaves_apart(nodes),
        all_fair(rooms, width, height),
{
    reveal(orderly);
}

/// A tree whose nodes are all open, with no room handed out and no node in
/// the queue, is a stage in order.
pub(crate) proof fn order_begins(nodes: Seq<SubDungeon>, width: u32, height: u32)
    requires
        is_tree(nodes, width, height),
        leaves_apart(nodes),
        forall|i: int| 0 <= i < nodes.len() ==> (#[trigger] nodes[i]).bounding_rect is None,
    ensures
        orderly(nodes, Seq::<Room>::empty(), Seq::<usize>::empty(), width, height),
{
    reveal(orderly);
    assert forall|j: int| 0 <= j < nodes.len() implies !(#[trigger] waiting(nodes, j)) by {
        assert(node_ok(nodes, j, width, height));
    }
}

/// The node at the front of the queue is an open node of the tree. Its
/// children are closed, and what either of them stands for fits the node.
pub(crate) proof fn front_waits(
    nodes: Seq<SubDungeon>,
    rooms: Seq<Room>,
    queue: Seq<usize>,
    width: u32,
    height: u32,
)
    requires
        orderly(nodes, rooms, queue, width, height),
        queue.len() > 0,
    ensures
        queue[0] < nodes.len(),
        waiting(nodes, queue[0] as int),
        node_ok(nodes, queue[0] as int, width, height),
        ({
            let node = nodes[queue[0] as int];
            let c = node.childs->0;
            &&& nodes[c[0] as int].bounding_rect matches Some(first)
            &&& nodes[c[1] as int].bounding_rect matches Some(second)
            &&& node.holds(first)
            &&& node.holds(second)
            &&& first[2] > 0
            &&& first[3] > 0
            &&& second[2] > 0
            &&& second[3] > 0
        }),
{
    reveal(orderly);
    let i = queue[0] as int;
    assert(waiting(nodes, i));
    assert(node_ok(nodes, i, width, height));
    let c = nodes[i].childs->0;
    assert(sound(nodes, rooms, c[0] as int));
    assert(sound(nodes, rooms, c[1] as int));
}

/// A step that closes node `i` of a stage in order.
///
/// The node is open, and `rect` fits it. Either it is a leaf, and `more` is
/// its room; or it waits at the front of the queue, `rect` is what one of
/// its children stands for, and `more` is a corridor between the two. `left`
/// is the queue without the node.
spec fn closes(
    nodes: Seq<SubDungeon>,
    rooms: Seq<Room>,
    queue: Seq<usize>,
    i: int,
    rect: Rectangle,
    more: Seq<Room>,
    left: Seq<usize>,
    width: u32,
    height: u32,
) -> bool {
    &&& orderly(nodes, rooms, queue, width, height)
    &&& 0 <= i < nodes.len()
    &&& nodes[i].bounding_rect is None
    &&& nodes[i].holds(rect)
    &&& rect[2] > 0
    &&& rect[3] > 0
    &&& all_fair(more, width, height)
    &&& match nodes[i].childs {
        None => more == seq![room_of(RoomType::BasicRoom, rect)] && left == queue,
        Some(c) => {
            &&& nodes[c[0] as int].bounding_rect matches Some(first)
            &&& nodes[c[1] as int].bounding_rect matches Some(second)
            &&& (rect == first || rect == second)
            &&& joins(rooms + more, rooms.len() as int, first, second)
            &&& forall|k: int|
                0 <= k < more.len() ==> (#[trigger] more[k]).room_type == RoomType::Coridor
            &&& queue.len() > 0
            &&& queue[0] == i
            &&& left == queue.subrange(1, queue.len() as int)
        },
    }
}

/// After the step every bounding rectangle is sound.
proof fn closing_keeps_sound(
    nodes: Seq<SubDungeon>,
    rooms: Seq<Room>,
    queue: Seq<usize>,
    i: int,
    rect: Rectangle,
    more: Seq<Room>,
    left: Seq<usize>,
    width: u32,
    height: u32,
)
    requires
        closes(nodes, rooms, queue, i, rect, more, left, width, height),
    ensures
        forall|j: int|
            0 <= j < nodes.len() ==> #[trigger] sound(closed(nodes, i, rect), rooms + more, j),
{
    reveal(orderly);
    let after = closed(nodes, i, rect);
    let all = rooms + more;
    // No node that was closed before has node `i` as a child.
    assert forall|j: int| 0 <= j < nodes.len() implies #[trigger] sound(after, all, j) by {
        if j == i {
            assert(node_ok(nodes, i, width, height));
            if nodes[i].childs is None {
                assert(all[rooms.len() as int] == more[0]);
            }
        } else {
            assert(sound(nodes, rooms, j));
            assert(node_ok(nodes, j, width, height));
            if let Some(r) = nodes[j].bounding_rect {
                match nodes[j].childs {
                    None => {
                        let k = choose|k: int|
                            0 <= k < rooms.len() && #[trigger] rooms[k] == room_of(
                                RoomType::BasicRoom,
                                r,
                            );
                        assert(all[k] == rooms[k]);
                    },
                    Some(c) => {
                        let first = nodes[c[0] as int].bounding_rect->0;
                        let second = nodes[c[1] as int].bounding_rect->0;
                        let k = choose|k: int| joins(rooms, k, first, second);
                        joins_stay(rooms, more, k, first, second);
                    },
                }
            }
        }
    }
}

/// After the step every room may be handed out, every basic room is the room
/// of a leaf, and no two basic rooms overlap.
proof fn closing_keeps_rooms(
    nodes: Seq<SubDungeon>,
    rooms: Seq<Room>,
    queue: Seq<usize>,
    i: int,
    rect: Rectangle,
    more: Seq<Room>,
    left: Seq<usize>,
    width: u32,
    height: u32,
)
    requires
        closes(nodes, rooms, queue, i, rect, more, left, width, height),
    ensures
        all_fair(rooms + more, width, height),
        all_owned(closed(nodes, i, rect), rooms + more),
        rooms_apart(rooms + more),
{
    reveal(orderly);
    let after = closed(nodes, i, rect);
    let all = rooms + more;
    assert forall|k: int| 0 <= k < all.len() implies #[trigger] fair(all[k], width, height) by {
        if k < rooms.len() {
            assert(fair(rooms[k], width, height));
        } else {
            assert(fair(more[k - rooms.len()], width, height));
        }
    }
    // Every basic room keeps its leaf, and a new one is apart from the others.
    assert forall|k: int|
        0 <= k < all.len() && (#[trigger] all[k]).room_type == RoomType::BasicRoom implies owned(
        after,
        all[k],
    ) by {
        if k < rooms.len() {
            assert(all[k] == rooms[k]);
            let j = choose|j: int|
                0 <= j < nodes.len() && (#[trigger] nodes[j]).is_leaf() && nodes[j].bounding_rect
                    == Some(rooms[k].rect()) && rooms[k].room_type == RoomType::BasicRoom;
            assert(after[j].is_leaf() && after[j].bounding_rect == Some(rooms[k].rect()));
        } else {
            assert(all[k] == more[k - rooms.len()]);
            assert(all[k].rect() =~= rect);
            assert(after[i].is_leaf() && after[i].bounding_rect == Some(all[k].rect()));
        }
    }
    assert forall|a: int, b: int|
        0 <= a < b < all.len() && (#[trigger] all[a]).room_type == RoomType::BasicRoom && (
        #[trigger] all[b]).room_type == RoomType::BasicRoom implies !all[a].overlaps(all[b]) by {
        if b < rooms.len() {
            assert(all[a] == rooms[a] && all[b] == rooms[b]);
        } else {
            assert(all[b] == more[b - rooms.len()]);
            assert(a < rooms.len());
            assert(all[a] == rooms[a]);
            let j = choose|j: int|
                0 <= j < nodes.len() && (#[trigger] nodes[j]).is_leaf() && nodes[j].bounding_rect
                    == Some(rooms[a].rect()) && rooms[a].room_type == RoomType::BasicRoom;
            assert(sound(nodes, rooms, j));
            assert(nodes[i].apart(nodes[j]));
        }
    }
}

/// After the step the queue holds, each once, the nodes that wait, and no
/// others.
proof fn closing_keeps_queue(
    nodes: Seq<SubDungeon>,
    rooms: Seq<Room>,
    queue: Seq<usize>,
    i: int,
    rect: Rectangle,
    more: Seq<Room>,
    left: Seq<usize>,
    width: u32,
    height: u32,
)
    requires
        closes(nodes, rooms, queue, i, rect, more, left, width, height),
    ensures
        ({
            let after = closed(nodes, i, rect);
            let line = notify(after, left, i);
            &&& forall|k: int|
                0 <= k < line.len() ==> (#[trigger] line[k]) < after.len() && waiting(
                    after,
                    line[k] as int,
                )
            &&& forall|j: int, k: int| 0 <= j < k < line.len() ==> line[j] != line[k]
            &&& forall|j: int|
                0 <= j < after.len() && #[trigger] waiting(after, j) ==> line.contains(j as usize)
        }),
{
    reveal(orderly);
    let after = closed(nodes, i, rect);
    let line = notify(after, left, i);
    assert(node_ok(nodes, i, width, height));

    // The node is not in what is left of the queue, and what is left of the
    // queue was in the queue.
    assert forall|k: int| 0 <= k < left.len() implies left[k] != i && queue.contains(
        #[trigger] left[k],
    ) && waiting(nodes, left[k] as int) && left[k] < nodes.len() by {
        if nodes[i].childs is None {
            assert(queue[k] == left[k]);
        } else {
            assert(queue[k + 1] == left[k]);
        }
    }
    assert forall|j: int, k: int| 0 <= j < k < left.len() implies left[j] != left[k] by {
        if nodes[i].childs is None {
            assert(queue[j] == left[j] && queue[k] == left[k]);
        } else {
            assert(queue[j + 1] == left[j] && queue[k + 1] == left[k]);
        }
    }

    // The parent joins the queue if it waits now; it did not wait before.
    match nodes[i].parent {
        None => {
            assert(line == left);
        },
        Some(p) => {
            assert(node_ok(nodes, p as int, width, height));
            assert(sound(nodes, rooms, p as int));
            assert(!waiting(nodes, p as int));
            if ready(after, p as int) {
                assert(line == left.push(p));
                assert(waiting(after, p as int));
                assert forall|k: int| 0 <= k < left.len() implies left[k] != p by {
                    assert(waiting(nodes, left[k] as int));
                }
            } else {
                assert(line == left);
            }
        },
    }
    assert forall|k: int| 0 <= k < line.len() implies (#[trigger] line[k]) < after.len()
        && waiting(after, line[k] as int) by {
        if k < left.len() {
            assert(line[k] == left[k]);
            assert(waiting(nodes, left[k] as int));
            assert(node_ok(nodes, left[k] as int, width, height));
        } else {
            assert(line[k] == nodes[i].parent->0);
        }
    }
    assert forall|j: int, k: int| 0 <= j < k < line.len() implies line[j] != line[k] by {
        if k < left.len() {
            assert(line[j] == left[j] && line[k] == left[k]);
        } else {
            assert(line[j] == left[j]);
        }
    }
    assert forall|j: int| 0 <= j < after.len() && #[trigger] waiting(after, j) implies line.contains(
        j as usize,
    ) by {
        assert(node_ok(nodes, j, width, height));
        if waiting(nodes, j) {
            assert(queue.contains(j as usize));
            let k = choose|k: int| 0 <= k < queue.len() && queue[k] == j as usize;
            if nodes[i].childs is None {
                assert(left[k] == j as usize);
                assert(line[k] == j as usize);
            } else {
                assert(k != 0);
                assert(left[k - 1] == j as usize);
                assert(line[k - 1] == j as usize);
            }
        } else {
            let p = nodes[i].parent->0;
            assert(j == p);
            assert(line[left.len() as int] == p);
        }
    }
}

/// Closing a node keeps the stage in order.
proof fn closing_keeps_order(
    nodes: Seq<SubDungeon>,
    rooms: Seq<Room>,
    queue: Seq<usize>,
    i: int,
    rect: Rectangle,
    more: Seq<Room>,
    left: Seq<usize>,
    width: u32,
    height: u32,
)
    requires
        closes(nodes, rooms, queue, i, rect, more, left, width, height),
    ensures
        orderly(
            closed(nodes, i, rect),
            rooms + more,
            notify(closed(nodes, i, rect), left, i),
            width,
            height,
        ),
{
    reveal(orderly);
    closing_keeps_tree(nodes, i, rect, width, height);
    closing_keeps_sound(nodes, rooms, queue, i, rect, more, left, width, height);
    closing_keeps_rooms(nodes, rooms, queue, i, rect, more, left, width, height);
    closing_keeps_queue(nodes, rooms, queue, i, rect, more, left, width, height);
}

/// When the queue is empty and every leaf is closed, every node is closed.
pub(crate) proof fn nothing_left_open(
    nodes: Seq<SubDungeon>,
    rooms: Seq<Room>,
    width: u32,
    height: u32,
    from: int,
)
    requires
        orderly(nodes, rooms, Seq::<usize>::empty(), width, height),
        leaves_closed(nodes, nodes.len() as int),
        0 <= from <= nodes.len(),
    ensures
        forall|j: int| from <= j < nodes.len() ==> (#[trigger] nodes[j]).bounding_rect is Some,
        from == 0 ==> finished(nodes, rooms, width, height),
    decreases nodes.len() - from,
{
    reveal(orderly);
    if from < nodes.len() {
        nothing_left_open(nodes, rooms, width, height, from + 1);
        assert(node_ok(nodes, from, width, height));
        if !nodes[from].is_leaf() && nodes[from].bounding_rect is None {
            assert(waiting(nodes, from));
            assert(Seq::<usize>::empty().contains(from as usize));
        }
    }
    if from == 0 {
        assert forall|i: int| 0 <= i < nodes.len() implies #[trigger] settled(nodes, rooms, i) by {
            assert(sound(nodes, rooms, i));
            assert(nodes[i].bounding_rect is Some);
        }
    }
}

/// Placing the room of an open leaf keeps the stage in order: the leaf is
/// closed with the room, the room is handed out, and the parent joins the
/// queue if the sibling is closed as well.
pub(crate) proof fn placing_keeps_order(
    nodes: Seq<SubDungeon>,
    rooms: Seq<Room>,
    queue: Seq<usize>,
    i: int,
    rect: Rectangle,
    width: u32,
    height: u32,
)
    requires
        orderly(nodes, rooms, queue, width, height),
        0 <= i < nodes.len(),
        nodes[i].is_leaf(),
        nodes[i].bounding_rect is None,
        lodged(nodes[i], rect),
    ensures
        orderly(
            closed(nodes, i, rect),
            rooms.push(room_of(RoomType::BasicRoom, rect)),
            notify(closed(nodes, i, rect), queue, i),
            width,
            height,
        ),
{
    let more = seq![room_of(RoomType::BasicRoom, rect)];
    lodged_law(nodes[i], rect);
    order_holds_tree(nodes, rooms, queue, width, height);
    assert(node_ok(nodes, i, width, height));
    assert(fair(more[0], width, height));
    assert(rooms.push(room_of(RoomType::BasicRoom, rect)) =~= rooms + more);
    closing_keeps_order(nodes, rooms, queue, i, rect, more, queue, width, height);
}

/// Joining the node at the front of the queue keeps the stage in order: the
/// corridor between what its children stand for is handed out, the node is
/// closed with one of the two rectangles, and its parent joins the queue if
/// the sibling is closed as well. One node less is open.
pub(crate) proof fn joining_keeps_order(
    nodes: Seq<SubDungeon>,
    rooms: Seq<Room>,
    queue: Seq<usize>,
    passage: Passage,
    rect: Rectangle,
    width: u32,
    height: u32,
)
    requires
        orderly(nodes, rooms, queue, width, height),
        queue.len() > 0,
        passage.solid(),
        ({
            let c = nodes[queue[0] as int].childs->0;
            let first = nodes[c[0] as int].bounding_rect->0;
            let second = nodes[c[1] as int].bounding_rect->0;
            passage.links(first, second) && (rect == first || rect == second)
        }),
    ensures
        orderly(
            closed(nodes, queue[0] as int, rect),
            rooms + passage.rooms(),
            notify(
                closed(nodes, queue[0] as int, rect),
                queue.subrange(1, queue.len() as int),
                queue[0] as int,
            ),
            width,
            height,
        ),
        open_count(closed(nodes, queue[0] as int, rect)) < open_count(nodes),
{
    let i = queue[0] as int;
    front_waits(nodes, rooms, queue, width, height);
    let c = nodes[i].childs->0;
    let first = nodes[c[0] as int].bounding_rect->0;
    let second = nodes[c[1] as int].bounding_rect->0;
    let more = passage.rooms();
    passage_joins(rooms, passage, first, second);
    assert forall|k: int| 0 <= k < more.len() implies #[trigger] fair(more[k], width, height)
        && more[k].room_type == RoomType::Coridor by {}
    closing_keeps_order(
        nodes,
        rooms,
        queue,
        i,
        rect,
        more,
        queue.subrange(1, queue.len() as int),
        width,
        height,
    );
    closing_counts(nodes, i, rect);
}

} // verus!
