//! A generation run, stated step by step: the tree is built, every leaf gets
//! its room, and the nodes are joined from the leaves up.
//!
//! A node is closed once it has a bounding rectangle: a leaf when its room is
//! placed, any other node when a corridor joins what its two children stand
//! for. A node whose children are both closed waits in a queue to be joined.

use crate::corridor::{hor_passage, hor_range, vert_passage, vert_range, Passage};
use crate::draws::{drawn, rest, seeded_words};
use crate::partition::SubDungeon;
use crate::placement::{room_in, roomy};
use crate::room::{room_of, GenerateError, Rectangle, Room, RoomType};
use crate::settings::Settings;
use crate::tree::tree_of;
use vstd::prelude::*;

verus! {

/// How far a run has come: the tree, the rooms handed out so far, the nodes
/// that wait to be joined, and the state of the generator.
pub struct Stage {
    /// the partition tree
    pub nodes: Seq<SubDungeon>,
    /// the rooms and corridors handed out so far
    pub rooms: Seq<Room>,
    /// the indices of the nodes that wait to be joined, first come first
    pub queue: Seq<usize>,
    /// the state of the generator
    pub words: Seq<u64>,
}

/// The list in which node `i` has the bounding rectangle `rect`.
pub open spec fn closed(nodes: Seq<SubDungeon>, i: int, rect: Rectangle) -> Seq<SubDungeon> {
    nodes.update(i, SubDungeon { bounding_rect: Some(rect), ..nodes[i] })
}

/// Node `p` was split and both its children are closed.
pub open spec fn ready(nodes: Seq<SubDungeon>, p: int) -> bool {
    &&& nodes[p].childs matches Some(c)
    &&& nodes[c[0] as int].bounding_rect is Some
    &&& nodes[c[1] as int].bounding_rect is Some
}

/// Node `p` is ready and not yet closed.
pub open spec fn waiting(nodes: Seq<SubDungeon>, p: int) -> bool {
    ready(nodes, p) && nodes[p].bounding_rect is None
}

/// The queue after node `i` was closed: the parent of the node joins it if
/// the node's sibling is closed as well.
pub open spec fn notify(nodes: Seq<SubDungeon>, queue: Seq<usize>, i: int) -> Seq<usize> {
    match nodes[i].parent {
        Some(p) => if ready(nodes, p as int) {
            queue.push(p)
        } else {
            queue
        },
        None => queue,
    }
}

/// The stage after the leaf `i` got its room.
pub open spec fn settle(st: Stage, i: int) -> Stage {
    let placed = room_in(st.nodes[i], st.words);
    let nodes = closed(st.nodes, i, placed.0);
    Stage {
        nodes,
        rooms: st.rooms.push(room_of(RoomType::BasicRoom, placed.0)),
        queue: notify(nodes, st.queue, i),
        words: placed.1,
    }
}

/// The stage after every leaf from index `i` on got its room, in the order of
/// the indices; or the failure at the first leaf that cannot take one.
pub open spec fn furnish(st: Stage, i: int) -> Result<Stage, GenerateError>
    decreases st.nodes.len() - i,
{
    if i < 0 || i >= st.nodes.len() {
        Ok(st)
    } else if !st.nodes[i].is_leaf() {
        furnish(st, i + 1)
    } else if !roomy(st.nodes[i]) {
        Err(GenerateError::SubdungeonTooSmall)
    } else {
        furnish(settle(st, i), i + 1)
    }
}

/// The corridor of width `width` from `first` to `second` that a generator in
/// state `words` lays, and the state afterwards: the column (or row) of the
/// run is drawn from the range for it. `None` where there is nothing to draw
/// from, or no corridor for what was drawn.
pub open spec fn link(
    width: u32,
    first: Rectangle,
    second: Rectangle,
    upright: bool,
    words: Seq<u64>,
) -> Option<(Passage, Seq<u64>)> {
    let range = if upright {
        vert_range(first, second, width)
    } else {
        hor_range(first, second, width)
    };
    match range {
        None => None,
        Some(r) => {
            let at = drawn(words, r.0, r.1);
            let passage = if upright {
                vert_passage(first, second, width, at)
            } else {
                hor_passage(first, second, width, at)
            };
            match passage {
                None => None,
                Some(p) => Some((p, rest(words, r.0, r.1))),
            }
        },
    }
}

/// The stage after the node at the front of the queue was joined.
///
/// A corridor is laid between what its two children stand for: a vertical
/// one if the children start at the same x, so that the second lies below
/// the first, and a horizontal one otherwise. Then a coin decides which of
/// the two rectangles stands for the node from now on: the first on 1, the
/// second on 0.
pub open spec fn join(cfg: Settings, st: Stage) -> Result<Stage, GenerateError> {
    let i = st.queue[0] as int;
    let c = st.nodes[i].childs->0;
    let first = st.nodes[c[0] as int].bounding_rect->0;
    let second = st.nodes[c[1] as int].bounding_rect->0;
    let upright = st.nodes[c[0] as int].x == st.nodes[c[1] as int].x;
    match link(cfg.coridor_width, first, second, upright, st.words) {
        None => Err(GenerateError::CorridorOutOfRange),
        Some(laid) => {
            let coin = drawn(laid.1, 0, 2);
            let rect = if coin == 1 {
                first
            } else {
                second
            };
            let nodes = closed(st.nodes, i, rect);
            Ok(
                Stage {
                    nodes,
                    rooms: st.rooms + laid.0.rooms(),
                    queue: notify(nodes, st.queue.subrange(1, st.queue.len() as int), i),
                    words: rest(laid.1, 0, 2),
                },
            )
        },
    }
}

/// The number of nodes that are not closed.
pub open spec fn open_count(nodes: Seq<SubDungeon>) -> nat
    decreases nodes.len(),
{
    if nodes.len() == 0 {
        0
    } else if nodes.last().bounding_rect is None {
        open_count(nodes.drop_last()) + 1
    } else {
        open_count(nodes.drop_last())
    }
}

/// Closing an open node leaves one open node less.
pub proof fn closing_counts(nodes: Seq<SubDungeon>, i: int, rect: Rectangle)
    requires
        0 <= i < nodes.len(),
        nodes[i].bounding_rect is None,
    ensures
        open_count(closed(nodes, i, rect)) + 1 == open_count(nodes),
    decreases nodes.len(),
{
    let after = closed(nodes, i, rect);
    if i == nodes.len() - 1 {
        assert(after.drop_last() =~= nodes.drop_last());
    } else {
        closing_counts(nodes.drop_last(), i, rect);
        assert(after.drop_last() =~= closed(nodes.drop_last(), i, rect));
    }
}

/// The front of the queue is an open node of the list.
pub open spec fn front_open(st: Stage) -> bool {
    st.queue[0] < st.nodes.len() && st.nodes[st.queue[0] as int].bounding_rect is None
}

/// The stage after the queue was worked off: the node at its front is joined,
/// which may bring its parent into the queue, until the queue is empty; or
/// the failure at the first node for which no corridor can be laid. (A queue
/// whose front is no open node would end the pass; no run comes to one.)
pub open spec fn connect(cfg: Settings, st: Stage) -> Result<Stage, GenerateError>
    decreases open_count(st.nodes),
{
    if st.queue.len() == 0 || !front_open(st) {
        Ok(st)
    } else {
        match join(cfg, st) {
            Err(e) => Err(e),
            Ok(next) => {
                proof {
                    let i = st.queue[0] as int;
                    closing_counts(st.nodes, i, next.nodes[i].bounding_rect->0);
                    assert(next.nodes =~= closed(st.nodes, i, next.nodes[i].bounding_rect->0));
                }
                connect(cfg, next)
            },
        }
    }
}

/// The stage at which a run begins to place rooms: the tree is built, no
/// room is handed out and no node waits.
pub open spec fn bare(tree: (Seq<SubDungeon>, Seq<u64>)) -> Stage {
    Stage { nodes: tree.0, rooms: Seq::empty(), queue: Seq::empty(), words: tree.1 }
}

/// The whole run for a seed, an area and the settings: the last stage, or the
/// failure that ends the run.
///
/// Settings or an area at fault end it before anything is drawn. Otherwise
/// the generator is made from the seed; the tree is built; the leaves get
/// their rooms; the nodes are joined.
pub open spec fn run(cfg: Settings, seed: Seq<usize>, width: u32, height: u32) -> Result<
    Stage,
    GenerateError,
> {
    match cfg.fault(width, height) {
        Some(e) => Err(e),
        None => match furnish(bare(tree_of(cfg, width, height, seeded_words(seed))), 0) {
            Err(e) => Err(e),
            Ok(placed) => connect(cfg, placed),
        },
    }
}

/// What a generator hands out, with the list taken as a sequence.
pub open spec fn handed_out(rooms: Result<Vec<Room>, GenerateError>) -> Result<
    Seq<Room>,
    GenerateError,
> {
    match rooms {
        Ok(list) => Ok(list@),
        Err(e) => Err(e),
    }
}

/// The rooms of a run, or its failure.
pub open spec fn rooms_of(cfg: Settings, seed: Seq<usize>, width: u32, height: u32) -> Result<
    Seq<Room>,
    GenerateError,
> {
    match run(cfg, seed, width, height) {
        Ok(st) => Ok(st.rooms),
        Err(e) => Err(e),
    }
}

} // verus!
