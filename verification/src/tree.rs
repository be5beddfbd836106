//! The partition tree: the area is cut into subdungeons, each of which is cut
//! again or left as a leaf.
//!
//! The tree lives in one growing list. A node never moves, so its index names
//! it; children and parent are held as indices. The root has index 0, and the
//! two children of a node are appended when the node is split. Nodes are
//! visited in the order of their indices. That is the order in which a queue
//! hands them out which starts with the root and takes in the children of
//! every node that is split: breadth first, the nodes of one depth side by
//! side.

use crate::draws::{draw, drawn, rest, rng_words};
use crate::partition::{
    asks_coin, chance_at, children, cuts_width, split, split_chance, splittable, stops, stops_at,
    tiles, SubDungeon,
};
use crate::room::GenerateError;
use crate::settings::Settings;
use rand::StdRng;
use vstd::prelude::*;

verus! {

/// The root of a tree over the area `[0, width) x [0, height)`.
pub open spec fn root(width: u32, height: u32) -> SubDungeon {
    SubDungeon::fresh(0, 0, width, height, 0, None)
}

/// Node `i` sits well in the list: it lies in the area; its parent, which
/// only the root lacks, stands before it and names it as a child; and if it
/// was split, its children stand side by side after it, name it as their
/// parent, are one level deeper and divide its rectangle.
pub open spec fn node_ok(nodes: Seq<SubDungeon>, i: int, width: u32, height: u32) -> bool {
    let node = nodes[i];
    &&& node.within(width, height)
    &&& match node.parent {
        None => i == 0,
        Some(p) => {
            &&& p < i
            &&& nodes[p as int].childs matches Some(c)
            &&& (c[0] == i || c[1] == i)
        },
    }
    &&& match node.childs {
        None => true,
        Some(c) => {
            &&& i < c[0]
            &&& c[1] == c[0] + 1
            &&& c[1] < nodes.len()
            &&& nodes[c[0] as int].parent == Some(i as usize)
            &&& nodes[c[1] as int].parent == Some(i as usize)
            &&& nodes[c[0] as int].deep == node.deep + 1
            &&& nodes[c[1] as int].deep == node.deep + 1
            &&& tiles(node, nodes[c[0] as int], nodes[c[1] as int])
        },
    }
}

/// The list is a partition tree over the area `[0, width) x [0, height)`:
/// node 0 is the whole area at depth 0, and every node sits well.
pub open spec fn is_tree(nodes: Seq<SubDungeon>, width: u32, height: u32) -> bool {
    &&& nodes.len() >= 1
    &&& nodes[0].x == 0
    &&& nodes[0].y == 0
    &&& nodes[0].width == width
    &&& nodes[0].height == height
    &&& nodes[0].deep == 0
    &&& forall|i: int| 0 <= i < nodes.len() ==> #[trigger] node_ok(nodes, i, width, height)
}

/// No two leaves of the list have a point in common.
pub open spec fn leaves_apart(nodes: Seq<SubDungeon>) -> bool {
    forall|i: int, j: int|
        0 <= i < nodes.len() && 0 <= j < nodes.len() && i != j && (#[trigger] nodes[i]).is_leaf()
            && (#[trigger] nodes[j]).is_leaf() ==> nodes[i].apart(nodes[j])
}

/// The two nodes have the same rectangle, the same depth and the same parent.
pub open spec fn same_place(one: SubDungeon, other: SubDungeon) -> bool {
    &&& one.x == other.x
    &&& one.y == other.y
    &&& one.width == other.width
    &&& one.height == other.height
    &&& one.deep == other.deep
    &&& one.parent == other.parent
}

/// The cut of `node`, which has index `index`, into `first` and `second` is
/// one that the settings allow. It is made at `coef` percent, which lies in
/// `[100 - split_max_coeff, split_max_coeff)`. It divides the width if the
/// node is lower than `min_room_splittable_size`, and the height if the node
/// is not but is no wider than that size.
pub open spec fn cut_by_rule(
    cfg: Settings,
    node: SubDungeon,
    index: int,
    first: SubDungeon,
    second: SubDungeon,
    coef: u32,
    along_x: bool,
) -> bool {
    &&& 100 - cfg.split_max_coeff <= coef < cfg.split_max_coeff
    &&& same_place(first, children(node, index as usize, coef, along_x).0)
    &&& same_place(second, children(node, index as usize, coef, along_x).1)
    &&& node.height < cfg.min_room_splittable_size ==> along_x
    &&& node.height >= cfg.min_room_splittable_size && node.width
        <= cfg.min_room_splittable_size ==> !along_x
}

/// If node `i` was split, it was split by the rules: its depth does not stop
/// the builder, it exceeds `min_room_splittable_size` one way at least, the
/// chance of a split at its depth is not zero, and the cut is one that the
/// settings allow.
pub open spec fn split_by_rule(cfg: Settings, nodes: Seq<SubDungeon>, i: int) -> bool {
    nodes[i].childs matches Some(c) ==> {
        &&& !stops_at(cfg, nodes[i].deep)
        &&& splittable(cfg, nodes[i].width, nodes[i].height)
        &&& chance_at(cfg, nodes[i].deep) > 0
        &&& exists|coef: u32, along_x: bool| #[trigger]
            cut_by_rule(cfg, nodes[i], i, nodes[c[0] as int], nodes[c[1] as int], coef, along_x)
    }
}

/// Every node that was split was split by the rules.
pub open spec fn ruled(cfg: Settings, nodes: Seq<SubDungeon>) -> bool {
    forall|i: int| 0 <= i < nodes.len() ==> #[trigger] split_by_rule(cfg, nodes, i)
}

/// The nodes stand in the order of their depths: breadth first.
pub open spec fn in_levels(nodes: Seq<SubDungeon>) -> bool {
    forall|a: int, b: int|
        0 <= a <= b < nodes.len() ==> (#[trigger] nodes[a]).deep <= (#[trigger] nodes[b]).deep
}

/// The two lists hold the same tree: node for node they differ in nothing but
/// the bounding rectangle.
pub open spec fn same_shape(before: Seq<SubDungeon>, after: Seq<SubDungeon>) -> bool {
    &&& before.len() == after.len()
    &&& forall|j: int|
        0 <= j < before.len() ==> same_place(before[j], #[trigger] after[j]) && before[j].childs
            == after[j].childs
}

/// No node of the list has a bounding rectangle yet.
pub open spec fn all_open(nodes: Seq<SubDungeon>) -> bool {
    forall|i: int| 0 <= i < nodes.len() ==> (#[trigger] nodes[i]).bounding_rect is None
}

/// The list after node `i` was cut at `coef` percent: its two children are
/// appended, and the node names them.
pub open spec fn halve(nodes: Seq<SubDungeon>, i: int, coef: u32, along_x: bool) -> Seq<
    SubDungeon,
> {
    let halves = children(nodes[i], i as usize, coef, along_x);
    let first = nodes.len() as usize;
    let second = (nodes.len() + 1) as usize;
    nodes.update(i, SubDungeon { childs: Some([first, second]), ..nodes[i] }).push(halves.0).push(
        halves.1,
    )
}

/// The visit of node `i` with the generator in state `words`: the list and the
/// state afterwards.
///
/// A node that is too small to be split takes no draw. Any other node takes a
/// roll from `[0, 100)` and is split if the roll lies below the chance for
/// its depth. The split point is then drawn from
/// `[100 - split_max_coeff, split_max_coeff)`, and after it, where the
/// direction is open, a coin from `[0, 2)`.
pub open spec fn visit(cfg: Settings, nodes: Seq<SubDungeon>, i: int, words: Seq<u64>) -> (
    Seq<SubDungeon>,
    Seq<u64>,
) {
    let node = nodes[i];
    if !splittable(cfg, node.width, node.height) {
        (nodes, words)
    } else {
        let roll = drawn(words, 0, 100);
        let after_roll = rest(words, 0, 100);
        if roll >= chance_at(cfg, node.deep) {
            (nodes, after_roll)
        } else {
            let low = (100 - cfg.split_max_coeff) as u32;
            let coef = drawn(after_roll, low, cfg.split_max_coeff);
            let after_coef = rest(after_roll, low, cfg.split_max_coeff);
            if asks_coin(cfg, node.width, node.height) {
                let coin = drawn(after_coef, 0, 2);
                (
                    halve(nodes, i, coef, cuts_width(cfg, node.width, node.height, coin)),
                    rest(after_coef, 0, 2),
                )
            } else {
                (halve(nodes, i, coef, cuts_width(cfg, node.width, node.height, 0)), after_coef)
            }
        }
    }
}

/// The visits of the nodes `i`, `i + 1`, ... up to `end`, one after another.
pub open spec fn sweep(cfg: Settings, nodes: Seq<SubDungeon>, i: int, end: int, words: Seq<u64>)
    -> (Seq<SubDungeon>, Seq<u64>)
    decreases end - i,
{
    if i >= end {
        (nodes, words)
    } else {
        let visited = visit(cfg, nodes, i, words);
        sweep(cfg, visited.0, i + 1, end, visited.1)
    }
}

/// The tree grown level by level. The nodes from `start` on are those of
/// depth `deep`. They are visited in turn, which appends the nodes of the
/// next depth, and so on until a level stays empty or the depth stops the
/// builder.
pub open spec fn grow(cfg: Settings, nodes: Seq<SubDungeon>, start: int, deep: u32, words: Seq<u64>)
    -> (Seq<SubDungeon>, Seq<u64>)
    decreases u32::MAX - deep,
{
    if start >= nodes.len() || stops_at(cfg, deep) {
        (nodes, words)
    } else {
        let swept = sweep(cfg, nodes, start, nodes.len() as int, words);
        grow(cfg, swept.0, nodes.len() as int, (deep + 1) as u32, swept.1)
    }
}

/// The partition tree for the area `[0, width) x [0, height)` that a
/// generator in state `words` builds, and the state it is left in.
pub open spec fn tree_of(cfg: Settings, width: u32, height: u32, words: Seq<u64>) -> (
    Seq<SubDungeon>,
    Seq<u64>,
) {
    grow(cfg, seq![root(width, height)], 0, 0, words)
}

/// What a visit of node `i` may do to the list: the nodes that were there
/// stay as they are, but that node `i` may now have children; what is
/// appended are leaves one level below node `i`, without a bounding
/// rectangle.
pub open spec fn extends(before: Seq<SubDungeon>, after: Seq<SubDungeon>, i: int) -> bool {
    &&& before.len() <= after.len()
    &&& forall|j: int| 0 <= j < before.len() && j != i ==> #[trigger] after[j] == before[j]
    &&& after[i].deep == before[i].deep
    &&& after[i].bounding_rect == before[i].bounding_rect
    &&& forall|j: int|
        before.len() <= j < after.len() ==> {
            &&& (#[trigger] after[j]).is_leaf()
            &&& after[j].bounding_rect is None
            &&& after[j].deep == before[i].deep + 1
        }
}

/// Cutting a leaf of a tree leaves a tree, and its leaves stay apart.
pub(crate) proof fn halve_keeps_tree(
    nodes: Seq<SubDungeon>,
    i: int,
    coef: u32,
    along_x: bool,
    width: u32,
    height: u32,
)
    requires
        is_tree(nodes, width, height),
        0 <= i < nodes.len(),
        nodes.len() + 1 <= usize::MAX,
        nodes[i].is_leaf(),
        nodes[i].deep < u32::MAX,
        coef <= 100,
    ensures
        is_tree(halve(nodes, i, coef, along_x), width, height),
        extends(nodes, halve(nodes, i, coef, along_x), i),
        leaves_apart(nodes) ==> leaves_apart(halve(nodes, i, coef, along_x)),
{
    let after = halve(nodes, i, coef, along_x);
    let halves = children(nodes[i], i as usize, coef, along_x);
    let len = nodes.len() as int;
    assert(node_ok(nodes, i, width, height));
    assert(nodes[i].width * coef <= nodes[i].width * 100) by (nonlinear_arith)
        requires
            0 <= coef <= 100,
            0 <= nodes[i].width,
    ;
    assert(nodes[i].height * coef <= nodes[i].height * 100) by (nonlinear_arith)
        requires
            0 <= coef <= 100,
            0 <= nodes[i].height,
    ;
    assert(tiles(nodes[i], halves.0, halves.1));
    assert forall|j: int| 0 <= j < after.len() implies #[trigger] node_ok(
        after,
        j,
        width,
        height,
    ) by {
        if j < len {
            assert(node_ok(nodes, j, width, height));
        }
    }
    if leaves_apart(nodes) {
        assert forall|a: int, b: int|
            0 <= a < after.len() && 0 <= b < after.len() && a != b && (#[trigger] after[a]).is_leaf()
                && (#[trigger] after[b]).is_leaf() implies after[a].apart(after[b]) by {
            if a < len && b < len {
                assert(nodes[a].apart(nodes[b]));
            } else if a < len {
                assert(nodes[a].apart(nodes[i]));
            } else if b < len {
                assert(nodes[i].apart(nodes[b]));
            }
        }
    }
}

/// A cut by the rules leaves every node split by the rules.
pub(crate) proof fn halve_keeps_rules(
    cfg: Settings,
    nodes: Seq<SubDungeon>,
    i: int,
    coef: u32,
    along_x: bool,
    width: u32,
    height: u32,
)
    requires
        is_tree(nodes, width, height),
        ruled(cfg, nodes),
        0 <= i < nodes.len(),
        nodes.len() + 1 <= usize::MAX,
        nodes[i].is_leaf(),
        !stops_at(cfg, nodes[i].deep),
        splittable(cfg, nodes[i].width, nodes[i].height),
        chance_at(cfg, nodes[i].deep) > 0,
        100 - cfg.split_max_coeff <= coef < cfg.split_max_coeff,
        nodes[i].height < cfg.min_room_splittable_size ==> along_x,
        nodes[i].height >= cfg.min_room_splittable_size && nodes[i].width
            <= cfg.min_room_splittable_size ==> !along_x,
    ensures
        ruled(cfg, halve(nodes, i, coef, along_x)),
{
    let after = halve(nodes, i, coef, along_x);
    let len = nodes.len() as int;
    assert forall|j: int| 0 <= j < after.len() implies #[trigger] split_by_rule(cfg, after, j) by {
        if j == i {
            assert(after[i].childs->0@ =~= [len as usize, (len + 1) as usize]@);
            assert(cut_by_rule(cfg, after[i], i, after[len], after[len + 1], coef, along_x));
        } else if j < len {
            assert(split_by_rule(cfg, nodes, j));
            assert(node_ok(nodes, j, width, height));
            if let Some(c) = nodes[j].childs {
                let (at, across) = choose|at: u32, across: bool| #[trigger]
                    cut_by_rule(cfg, nodes[j], j, nodes[c[0] as int], nodes[c[1] as int], at, across);
                assert(cut_by_rule(
                    cfg,
                    after[j],
                    j,
                    after[c[0] as int],
                    after[c[1] as int],
                    at,
                    across,
                ));
            }
        }
    }
}

/// Bounding rectangles change nothing in how the nodes were split, nor in
/// their order.
pub(crate) proof fn shape_keeps_rules(
    cfg: Settings,
    before: Seq<SubDungeon>,
    after: Seq<SubDungeon>,
    width: u32,
    height: u32,
)
    requires
        is_tree(before, width, height),
        ruled(cfg, before),
        same_shape(before, after),
    ensures
        ruled(cfg, after),
        in_levels(before) ==> in_levels(after),
{
    if in_levels(before) {
        assert forall|a: int, b: int| 0 <= a <= b < after.len() implies (#[trigger] after[a]).deep
            <= (#[trigger] after[b]).deep by {
            assert(before[a].deep <= before[b].deep);
        }
    }
    assert forall|j: int| 0 <= j < after.len() implies #[trigger] split_by_rule(cfg, after, j) by {
        assert(split_by_rule(cfg, before, j));
        assert(node_ok(before, j, width, height));
        assert(same_place(before[j], after[j]));
        if let Some(c) = before[j].childs {
            let (at, across) = choose|at: u32, across: bool| #[trigger]
                cut_by_rule(cfg, before[j], j, before[c[0] as int], before[c[1] as int], at, across);
            assert(same_place(before[c[0] as int], after[c[0] as int]));
            assert(same_place(before[c[1] as int], after[c[1] as int]));
            assert(cut_by_rule(
                cfg,
                after[j],
                j,
                after[c[0] as int],
                after[c[1] as int],
                at,
                across,
            ));
        }
    }
}

/// Visits node `i`: decides whether it is split, and if so appends its two
/// children.
fn visit_node(
    cfg: &Settings,
    nodes: &mut Vec<SubDungeon>,
    i: usize,
    rng: &mut StdRng,
    Ghost(width): Ghost<u32>,
    Ghost(height): Ghost<u32>,
)
    requires
        cfg.usable(),
        i < old(nodes)@.len(),
        is_tree(old(nodes)@, width, height),
        old(nodes)@[i as int].is_leaf(),
        !stops_at(*cfg, old(nodes)@[i as int].deep),
        ruled(*cfg, old(nodes)@),
    ensures
        ruled(*cfg, final(nodes)@),
        (final(nodes)@, rng_words(*final(rng))) == visit(
            *cfg,
            old(nodes)@,
            i as int,
            rng_words(*old(rng)),
        ),
        is_tree(final(nodes)@, width, height),
        extends(old(nodes)@, final(nodes)@, i as int),
        leaves_apart(old(nodes)@) ==> leaves_apart(final(nodes)@),
{
    let node: SubDungeon = nodes[i];
    let w: u32 = node.width;
    let h: u32 = node.height;
    let least: u32 = cfg.min_room_splittable_size;
    assert(node_ok(nodes@, i as int, width, height));
    if w > least || h > least {
        let roll: u32 = draw(rng, 0, 100);
        if roll < split_chance(cfg, node.deep) {
            let coef: u32 = draw(rng, 100 - cfg.split_max_coeff, cfg.split_max_coeff);
            let along_x: bool = if h < least {
                true
            } else if w > least {
                draw(rng, 0, 2) == 1
            } else {
                false
            };
            let halves = split(&node, i, coef, along_x).unwrap();
            nodes.push(halves.0);
            nodes.push(halves.1);
            let n: usize = nodes.len();
            let mut parent: SubDungeon = node;
            parent.childs = Some([n - 2, n - 1]);
            nodes.set(i, parent);
            proof {
                halve_keeps_tree(old(nodes)@, i as int, coef, along_x, width, height);
                halve_keeps_rules(*cfg, old(nodes)@, i as int, coef, along_x, width, height);
                assert(nodes@ =~= halve(old(nodes)@, i as int, coef, along_x));
            }
        }
    }
}

/// Builds the partition tree for the area `[0, width) x [0, height)`, unless
/// the settings or the area are at fault.
///
/// The tree is the one that `tree_of` describes for the state of the
/// generator. In it the children of every node that was split divide that
/// node, every node lies in the area, the nodes stand in the order of their
/// depths, every node that was split was split by the rules, no two leaves
/// have a point in common, and no node has a bounding rectangle yet.
/// Settings or an area at fault take no draw.
pub fn build_tree(cfg: &Settings, width: u32, height: u32, rng: &mut StdRng) -> (tree: Result<
    Vec<SubDungeon>,
    GenerateError,
>)
    ensures
        match tree {
            Ok(nodes) => {
                &&& cfg.fault(width, height) is None
                &&& (nodes@, rng_words(*final(rng))) == tree_of(
                    *cfg,
                    width,
                    height,
                    rng_words(*old(rng)),
                )
                &&& is_tree(nodes@, width, height)
                &&& in_levels(nodes@)
                &&& ruled(*cfg, nodes@)
                &&& leaves_apart(nodes@)
                &&& all_open(nodes@)
            },
            Err(e) => cfg.fault(width, height) == Some(e) && *final(rng) == *old(rng),
        },
{
    if let Some(fault) = cfg.check(width, height) {
        return Err(fault);
    }
    let mut nodes: Vec<SubDungeon> = Vec::new();
    nodes.push(SubDungeon::new(0, 0, width, height, 0, None));
    let mut start: usize = 0;
    let mut deep: u32 = 0;
    assert(nodes@ =~= seq![root(width, height)]);
    assert(node_ok(nodes@, 0, width, height));
    while start < nodes.len() && !stops(cfg, deep)
        invariant
            cfg.usable(),
            start <= nodes@.len(),
            is_tree(nodes@, width, height),
            in_levels(nodes@),
            forall|j: int| 0 <= j < nodes@.len() ==> (#[trigger] nodes@[j]).deep <= deep,
            ruled(*cfg, nodes@),
            leaves_apart(nodes@),
            all_open(nodes@),
            forall|j: int|
                start <= j < nodes@.len() ==> (#[trigger] nodes@[j]).is_leaf() && nodes@[j].deep
                    == deep,
            grow(*cfg, nodes@, start as int, deep, rng_words(*rng)) == tree_of(
                *cfg,
                width,
                height,
                rng_words(*old(rng)),
            ),
        decreases u32::MAX - deep,
    {
        let end: usize = nodes.len();
        let ghost level = nodes@;
        let ghost words = rng_words(*rng);
        let mut i: usize = start;
        while i < end
            invariant
                cfg.usable(),
                !stops_at(*cfg, deep),
                start <= i <= end <= nodes@.len(),
                is_tree(nodes@, width, height),
                in_levels(nodes@),
                forall|j: int| 0 <= j < end ==> (#[trigger] nodes@[j]).deep <= deep,
                ruled(*cfg, nodes@),
                leaves_apart(nodes@),
                all_open(nodes@),
                forall|j: int| i <= j < nodes@.len() ==> (#[trigger] nodes@[j]).is_leaf(),
                forall|j: int| i <= j < end ==> (#[trigger] nodes@[j]).deep == deep,
                forall|j: int| end <= j < nodes@.len() ==> (#[trigger] nodes@[j]).deep == deep + 1,
                sweep(*cfg, nodes@, i as int, end as int, rng_words(*rng)) == sweep(
                    *cfg,
                    level,
                    start as int,
                    end as int,
                    words,
                ),
            decreases end - i,
        {
            visit_node(cfg, &mut nodes, i, rng, Ghost(width), Ghost(height));
            i = i + 1;
        }
        start = end;
        deep = deep + 1;
    }
    Ok(nodes)
}

} // verus!
