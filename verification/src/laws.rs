//! What holds of the generator as a whole.

use crate::draws::{drawn, rest, seeded_words};
use crate::corridor::{hor_passage_links, hor_range, vert_passage_links, vert_range};
use crate::stages::{
    bare, connect, front_open, furnish, join, link, rooms_of, settle, Stage,
};
use crate::invariants::{fair, finished, joins, linked, placed, settled};
use crate::partition::{asks_coin, chance_at, cuts_width, stops_at, tiles, SubDungeon};
use crate::placement::{lodged_law, room_in, room_in_is_lodged, roomy, roomy_law};
use crate::room::{room_of, GenerateError, Room, RoomType};
use crate::settings::{Settings, Tunable};
use crate::tree::{grow, halve, halve_keeps_tree, is_tree, node_ok, root, sweep, tree_of, visit};
use vstd::prelude::*;

verus! {

/// Generation is a function of its input: two runs on the same seed, the
/// same area and the same settings hand out the same list, room for room, or
/// fail alike.
pub proof fn same_input_same_rooms(
    cfg: Settings,
    seed: Seq<usize>,
    width: u32,
    height: u32,
    once: Result<Seq<Room>, GenerateError>,
    again: Result<Seq<Room>, GenerateError>,
)
    requires
        once == rooms_of(cfg, seed, width, height),
        again == rooms_of(cfg, seed, width, height),
    ensures
        once == again,
{
}

/// In a finished layout no rectangle is empty or a line, and every basic room
/// lies in the area `[0, width) x [0, height)`, clear of its right and lower
/// edge.
pub proof fn rooms_are_solid_and_inside(
    nodes: Seq<SubDungeon>,
    rooms: Seq<Room>,
    width: u32,
    height: u32,
)
    requires
        finished(nodes, rooms, width, height),
    ensures
        forall|k: int|
            0 <= k < rooms.len() ==> (#[trigger] rooms[k]).width > 0 && rooms[k].height > 0,
        forall|k: int|
            0 <= k < rooms.len() && (#[trigger] rooms[k]).room_type == RoomType::BasicRoom
                ==> rooms[k].x + rooms[k].width < width && rooms[k].y + rooms[k].height < height,
{
    assert forall|k: int| 0 <= k < rooms.len() implies (#[trigger] rooms[k]).width > 0
        && rooms[k].height > 0 && (rooms[k].room_type == RoomType::BasicRoom ==> rooms[k].x
        + rooms[k].width < width && rooms[k].y + rooms[k].height < height) by {
        assert(fair(rooms[k], width, height));
    }
}

/// In a finished layout the two children of every node that was split divide
/// its rectangle, and what the two stand for is joined by a corridor of the
/// list. Where both children are leaves, these are their rooms, and the list
/// holds both.
pub proof fn children_divide_and_are_joined(
    nodes: Seq<SubDungeon>,
    rooms: Seq<Room>,
    width: u32,
    height: u32,
    i: int,
)
    requires
        finished(nodes, rooms, width, height),
        0 <= i < nodes.len(),
        nodes[i].childs is Some,
    ensures
        ({
            let c = nodes[i].childs->0;
            let first = nodes[c[0] as int];
            let second = nodes[c[1] as int];
            &&& tiles(nodes[i], first, second)
            &&& first.bounding_rect is Some
            &&& second.bounding_rect is Some
            &&& exists|k: int| joins(rooms, k, first.bounding_rect->0, second.bounding_rect->0)
            &&& first.is_leaf() ==> placed(rooms, first.bounding_rect->0)
            &&& second.is_leaf() ==> placed(rooms, second.bounding_rect->0)
        }),
{
    let c = nodes[i].childs->0;
    assert(node_ok(nodes, i, width, height));
    assert(settled(nodes, rooms, i));
    assert(settled(nodes, rooms, c[0] as int));
    assert(settled(nodes, rooms, c[1] as int));
    assert(linked(rooms, nodes[c[0] as int].bounding_rect->0, nodes[c[1] as int].bounding_rect->0));
}

/// An option holds what it was last set to, and setting it leaves the other
/// options alone.
pub proof fn option_keeps_value(cfg: Settings, option: Tunable, value: u32, other: Tunable)
    ensures
        cfg.with(option, value).get(option) == value,
        other != option ==> cfg.with(option, value).get(other) == cfg.get(other),
        cfg.with(option, value).with(option, cfg.get(option)) == cfg,
{
}

/// Options can be set in any order: two different options can change
/// places, and of two values for one option the later one stays.
pub proof fn options_in_any_order(
    cfg: Settings,
    first: Tunable,
    a: u32,
    second: Tunable,
    b: u32,
)
    ensures
        first != second ==> cfg.with(first, a).with(second, b) == cfg.with(second, b).with(
            first,
            a,
        ),
        first == second ==> cfg.with(first, a).with(second, b) == cfg.with(second, b),
{
}

/// Setting every option, one after another, gives the settings that hold
/// those seven values, whatever the settings were before.
pub proof fn options_build_settings(start: Settings, wanted: Settings)
    ensures
        start.with(Tunable::BsMaxDeep, wanted.bs_max_deep).with(
            Tunable::DenySplitDeep,
            wanted.deny_split_deep,
        ).with(Tunable::SplitChanceDec, wanted.split_chance_dec).with(
            Tunable::SplitMaxCoeff,
            wanted.split_max_coeff,
        ).with(Tunable::SplitDefaultChance, wanted.split_default_chance).with(
            Tunable::MinRoomSplittableSize,
            wanted.min_room_splittable_size,
        ).with(Tunable::CoridorWidth, wanted.coridor_width) == wanted,
{
}

/// With a split chance of zero nothing is split: the tree is its root.
pub proof fn no_chance_no_split(cfg: Settings, width: u32, height: u32, words: Seq<u64>)
    requires
        cfg.split_default_chance == 0,
    ensures
        tree_of(cfg, width, height, words).0 == seq![root(width, height)],
{
    let nodes = seq![root(width, height)];
    assert(chance_at(cfg, 0) == 0);
    assert(!stops_at(cfg, 0));
    let visited = visit(cfg, nodes, 0, words);
    assert(visited.0 == nodes);
    assert(sweep(cfg, nodes, 0, 1, words) == sweep(cfg, visited.0, 1, 1, visited.1));
    assert(sweep(cfg, visited.0, 1, 1, visited.1) == visited);
    assert(grow(cfg, nodes, 0, 0, words) == grow(cfg, nodes, 1, 1, visited.1));
    assert(grow(cfg, nodes, 1, 1, visited.1) == (nodes, visited.1));
}

/// The root of a tree that was not split gets the only room, and no node
/// waits; unless the area is too small for a room.
proof fn one_leaf_one_room(st: Stage, width: u32, height: u32)
    requires
        st.nodes == seq![root(width, height)],
        st.rooms.len() == 0,
        st.queue.len() == 0,
    ensures
        match furnish(st, 0) {
            Ok(next) => {
                &&& width >= 3 && height >= 3
                &&& next.rooms.len() == 1
                &&& next.rooms[0].room_type == RoomType::BasicRoom
                &&& fair(next.rooms[0], width, height)
                &&& next.queue.len() == 0
            },
            Err(e) => e == GenerateError::SubdungeonTooSmall && (width < 3 || height < 3),
        },
{
    let node = root(width, height);
    assert(st.nodes[0] == node);
    roomy_law(node);
    if roomy(node) {
        let next = settle(st, 0);
        let rect = room_in(node, st.words).0;
        room_in_is_lodged(node, st.words);
        lodged_law(node, rect);
        assert(next.rooms =~= seq![room_of(RoomType::BasicRoom, rect)]);
        assert(next.queue.len() == 0);
        assert(furnish(st, 0) == furnish(next, 1));
        assert(furnish(next, 1) == Ok::<Stage, GenerateError>(next));
    }
}

/// With a split chance of zero, and settings and an area that are not at
/// fault, the layout is one basic room and no corridor, if the area measures
/// three units or more each way; the room lies in the area. A smaller area
/// is too small for a room.
pub proof fn no_chance_one_room(cfg: Settings, seed: Seq<usize>, width: u32, height: u32)
    requires
        cfg.split_default_chance == 0,
        cfg.fault(width, height) is None,
    ensures
        width >= 3 && height >= 3 ==> ({
            &&& rooms_of(cfg, seed, width, height) matches Ok(rooms)
            &&& rooms.len() == 1
            &&& rooms[0].room_type == RoomType::BasicRoom
            &&& fair(rooms[0], width, height)
        }),
        width < 3 || height < 3 ==> rooms_of(cfg, seed, width, height) == Err::<
            Seq<Room>,
            GenerateError,
        >(GenerateError::SubdungeonTooSmall),
{
    no_chance_no_split(cfg, width, height, seeded_words(seed));
    let st = bare(tree_of(cfg, width, height, seeded_words(seed)));
    one_leaf_one_room(st, width, height);
    if let Ok(next) = furnish(st, 0) {
        assert(connect(cfg, next) == Ok::<Stage, GenerateError>(next));
    }
}

/// With a split chance of 100, `deny_split_deep` at 1 and `bs_max_deep` at 0,
/// an area that exceeds `min_room_splittable_size` both ways is split once
/// and no further: the tree is the root and its two children.
pub proof fn one_split_three_nodes(cfg: Settings, width: u32, height: u32, words: Seq<u64>)
    requires
        cfg.usable(),
        cfg.split_default_chance == 100,
        cfg.deny_split_deep == 1,
        cfg.bs_max_deep == 0,
        cfg.min_room_splittable_size < width,
        cfg.min_room_splittable_size < height,
    ensures
        tree_of(cfg, width, height, words) == visit(cfg, seq![root(width, height)], 0, words),
        tree_of(cfg, width, height, words).0.len() == 3,
        is_tree(tree_of(cfg, width, height, words).0, width, height),
        tree_of(cfg, width, height, words).0[0].childs == Some([1usize, 2usize]),
        tree_of(cfg, width, height, words).0[1].is_leaf(),
        tree_of(cfg, width, height, words).0[2].is_leaf(),
        tree_of(cfg, width, height, words).0[0].bounding_rect is None,
        tree_of(cfg, width, height, words).0[1].bounding_rect is None,
        tree_of(cfg, width, height, words).0[2].bounding_rect is None,
{
    let nodes = seq![root(width, height)];
    assert(chance_at(cfg, 0) == 100);
    assert(!stops_at(cfg, 0));
    assert(stops_at(cfg, 1));
    let visited = visit(cfg, nodes, 0, words);
    let low = (100 - cfg.split_max_coeff) as u32;
    let after_roll = rest(words, 0, 100);
    let coef = drawn(after_roll, low, cfg.split_max_coeff);
    assert(drawn(words, 0, 100) < 100);
    assert(coef <= 100);
    assert(node_ok(nodes, 0, width, height));
    let along_x = if asks_coin(cfg, width, height) {
        cuts_width(cfg, width, height, drawn(rest(after_roll, low, cfg.split_max_coeff), 0, 2))
    } else {
        cuts_width(cfg, width, height, 0)
    };
    assert(visited.0 == halve(nodes, 0, coef, along_x));
    halve_keeps_tree(nodes, 0, coef, along_x, width, height);
    assert(visited.0[0].childs->0@ =~= [1usize, 2usize]@);
    assert(sweep(cfg, nodes, 0, 1, words) == sweep(cfg, visited.0, 1, 1, visited.1));
    assert(sweep(cfg, visited.0, 1, 1, visited.1) == visited);
    assert(grow(cfg, nodes, 0, 0, words) == grow(cfg, visited.0, 1, 1, visited.1));
    assert(grow(cfg, visited.0, 1, 1, visited.1) == visited);
}

/// The two leaves of a tree of three nodes get their rooms one after the
/// other, and then the root waits to be joined; unless a leaf is too small.
proof fn two_leaves_two_rooms(st: Stage, width: u32, height: u32)
    requires
        st.nodes.len() == 3,
        is_tree(st.nodes, width, height),
        st.nodes[0].childs == Some([1usize, 2usize]),
        st.nodes[1].is_leaf(),
        st.nodes[2].is_leaf(),
        st.nodes[0].bounding_rect is None,
        st.nodes[1].bounding_rect is None,
        st.nodes[2].bounding_rect is None,
        st.rooms.len() == 0,
        st.queue.len() == 0,
    ensures
        match furnish(st, 0) {
            Ok(next) => {
                &&& next.rooms.len() == 2
                &&& next.rooms[0].room_type == RoomType::BasicRoom
                &&& next.rooms[1].room_type == RoomType::BasicRoom
                &&& !next.rooms[0].overlaps(next.rooms[1])
                &&& next.queue == seq![0usize]
                &&& next.nodes.len() == 3
                &&& next.nodes[0].bounding_rect is None
                &&& next.nodes[0].parent is None
            },
            Err(e) => e == GenerateError::SubdungeonTooSmall,
        },
{
    assert(node_ok(st.nodes, 0, width, height));
    assert(node_ok(st.nodes, 1, width, height));
    assert(node_ok(st.nodes, 2, width, height));
    assert(furnish(st, 0) == furnish(st, 1));
    if roomy(st.nodes[1]) {
        let s1 = settle(st, 1);
        let first = room_in(st.nodes[1], st.words).0;
        room_in_is_lodged(st.nodes[1], st.words);
        lodged_law(st.nodes[1], first);
        assert(furnish(st, 1) == furnish(s1, 2));
        assert(s1.queue.len() == 0);
        assert(s1.nodes[2] == st.nodes[2]);
        assert(s1.nodes[0] == st.nodes[0]);
        assert(s1.rooms =~= seq![room_of(RoomType::BasicRoom, first)]);
        if roomy(s1.nodes[2]) {
            let s2 = settle(s1, 2);
            let second = room_in(st.nodes[2], s1.words).0;
            room_in_is_lodged(st.nodes[2], s1.words);
            lodged_law(st.nodes[2], second);
            assert(furnish(s1, 2) == furnish(s2, 3));
            assert(furnish(s2, 3) == Ok::<Stage, GenerateError>(s2));
            assert(s2.nodes[0] == st.nodes[0]);
            assert(s2.queue =~= seq![0usize]);
            assert(s2.rooms =~= seq![
                room_of(RoomType::BasicRoom, first),
                room_of(RoomType::BasicRoom, second),
            ]);
            assert(st.nodes[1].apart(st.nodes[2]));
        }
    }
}

/// When only the root waits, joining it ends the run: the corridor between
/// its children, of one or two segments, is appended to the rooms.
proof fn joining_the_root(cfg: Settings, st: Stage)
    requires
        st.queue == seq![0usize],
        st.nodes.len() > 0,
        st.nodes[0].bounding_rect is None,
        st.nodes[0].parent is None,
    ensures
        match connect(cfg, st) {
            Ok(last) => {
                &&& last.rooms.len() == st.rooms.len() + 1 || last.rooms.len() == st.rooms.len()
                    + 2
                &&& forall|k: int| 0 <= k < st.rooms.len() ==> last.rooms[k] == st.rooms[k]
                &&& forall|k: int|
                    st.rooms.len() <= k < last.rooms.len() ==> (#[trigger] last.rooms[k]).room_type
                        == RoomType::Coridor
            },
            Err(e) => e == GenerateError::CorridorOutOfRange,
        },
{
    assert(front_open(st));
    match join(cfg, st) {
        Ok(next) => {
            let c = st.nodes[0].childs->0;
            let first = st.nodes[c[0] as int].bounding_rect->0;
            let second = st.nodes[c[1] as int].bounding_rect->0;
            let upright = st.nodes[c[0] as int].x == st.nodes[c[1] as int].x;
            let laid = link(cfg.coridor_width, first, second, upright, st.words)->0;
            if upright {
                let range = vert_range(first, second, cfg.coridor_width)->0;
                let at = drawn(st.words, range.0, range.1);
                vert_passage_links(first, second, cfg.coridor_width, at);
            } else {
                let range = hor_range(first, second, cfg.coridor_width)->0;
                let at = drawn(st.words, range.0, range.1);
                hor_passage_links(first, second, cfg.coridor_width, at);
            }
            assert(laid.0.solid());
            assert(next.rooms == st.rooms + laid.0.rooms());
            assert(next.queue.len() == 0);
            assert(connect(cfg, next) == Ok::<Stage, GenerateError>(next));
            assert(connect(cfg, st) == Ok::<Stage, GenerateError>(next));
        },
        Err(e) => {
            assert(connect(cfg, st) == Err::<Stage, GenerateError>(e));
        },
    }
}

/// With a split chance of 100, `deny_split_deep` at 1 and `bs_max_deep` at 0,
/// an area that exceeds `min_room_splittable_size` both ways gives two basic
/// rooms that do not overlap, followed by the one or two segments of the
/// corridor between them; unless a half is too small for a room or no
/// corridor fits.
pub proof fn one_split_two_rooms(cfg: Settings, seed: Seq<usize>, width: u32, height: u32)
    requires
        cfg.fault(width, height) is None,
        cfg.split_default_chance == 100,
        cfg.deny_split_deep == 1,
        cfg.bs_max_deep == 0,
        cfg.min_room_splittable_size < width,
        cfg.min_room_splittable_size < height,
    ensures
        match rooms_of(cfg, seed, width, height) {
            Ok(rooms) => {
                &&& rooms.len() == 3 || rooms.len() == 4
                &&& rooms[0].room_type == RoomType::BasicRoom
                &&& rooms[1].room_type == RoomType::BasicRoom
                &&& !rooms[0].overlaps(rooms[1])
                &&& forall|k: int|
                    2 <= k < rooms.len() ==> (#[trigger] rooms[k]).room_type == RoomType::Coridor
            },
            Err(e) => e == GenerateError::SubdungeonTooSmall || e
                == GenerateError::CorridorOutOfRange,
        },
{
    let words = seeded_words(seed);
    one_split_three_nodes(cfg, width, height, words);
    let st = bare(tree_of(cfg, width, height, words));
    two_leaves_two_rooms(st, width, height);
    if let Ok(next) = furnish(st, 0) {
        joining_the_root(cfg, next);
    }
}

} // verus!
