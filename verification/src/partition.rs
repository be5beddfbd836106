//! Subdungeons, and how one is cut in two.

use crate::room::Rectangle;
use crate::settings::Settings;
use vstd::prelude::*;

verus! {

/// A node of the partition tree.
#[derive(Default, Clone, Copy, Debug)]
pub struct SubDungeon {
    /// x of the upper left corner
    pub x: u32,
    /// y of the upper left corner
    pub y: u32,
    /// width in units
    pub width: u32,
    /// height in units
    pub height: u32,
    /// the depth of the node; the root has depth 0
    pub deep: u32,
    /// the indices of the two children, if the node was split
    pub childs: Option<[usize; 2]>,
    /// the index of the parent; the root has none
    pub parent: Option<usize>,
    /// the rectangle that stands for the node when corridors are laid: the
    /// room of a leaf, or what one of the two children stands for
    pub bounding_rect: Option<Rectangle>,
}

impl SubDungeon {
    /// A node without children and without a bounding rectangle.
    pub fn new(x: u32, y: u32, w: u32, h: u32, deep: u32, parent: Option<usize>) -> (node:
        SubDungeon)
        ensures
            node == SubDungeon::fresh(x, y, w, h, deep, parent),
    {
        SubDungeon {
            x: x,
            y: y,
            width: w,
            height: h,
            deep: deep,
            childs: None,
            parent: parent,
            bounding_rect: None,
        }
    }

    /// The node that `new` makes.
    pub open spec fn fresh(
        x: u32,
        y: u32,
        w: u32,
        h: u32,
        deep: u32,
        parent: Option<usize>,
    ) -> SubDungeon {
        SubDungeon { x, y, width: w, height: h, deep, childs: None, parent, bounding_rect: None }
    }

    /// The node was not split.
    pub open spec fn is_leaf(self) -> bool {
        self.childs is None
    }

    /// The point `(px, py)` lies in the node's rectangle.
    pub open spec fn covers(self, px: int, py: int) -> bool {
        self.x <= px < self.x + self.width && self.y <= py < self.y + self.height
    }

    /// The node's rectangle lies in the area `[0, width) x [0, height)`.
    pub open spec fn within(self, width: u32, height: u32) -> bool {
        self.x + self.width <= width && self.y + self.height <= height
    }

    /// The node's rectangle and that of `other` have no point in common: one
    /// of them is empty, or one ends where the other has not begun.
    pub open spec fn apart(self, other: SubDungeon) -> bool {
        ||| self.width == 0 || self.height == 0
        ||| other.width == 0 || other.height == 0
        ||| self.x + self.width <= other.x
        ||| other.x + other.width <= self.x
        ||| self.y + self.height <= other.y
        ||| other.y + other.height <= self.y
    }

    /// The node's rectangle ends on the grid, whose coordinates are `u32`.
    pub open spec fn on_grid(self) -> bool {
        self.x + self.width <= u32::MAX && self.y + self.height <= u32::MAX
    }

    /// The rectangle `rect` lies in the node's rectangle and ends before the
    /// node's right and lower edge.
    pub open spec fn holds(self, rect: Rectangle) -> bool {
        &&& self.x <= rect[0]
        &&& rect[0] + rect[2] < self.x + self.width
        &&& self.y <= rect[1]
        &&& rect[1] + rect[3] < self.y + self.height
    }
}

/// The chance, in percent, that a node of depth `deep` is split. Above
/// `deny_split_deep` it is `split_default_chance`. From there on it goes down
/// by `split_chance_dec` with every level, and is zero once more than 100 was
/// taken off, or more than there was.
pub open spec fn chance_at(cfg: Settings, deep: u32) -> int {
    if deep < cfg.deny_split_deep {
        cfg.split_default_chance as int
    } else {
        let penalty = (deep - cfg.deny_split_deep + 1) * cfg.split_chance_dec;
        if penalty > 100 || penalty > cfg.split_default_chance {
            0
        } else {
            cfg.split_default_chance - penalty
        }
    }
}

/// No node of depth `deep` is visited, nor any that comes after it: the depth
/// has passed `bs_max_deep`. Depths are counted in `u32`, so a node of depth
/// `u32::MAX` is not split either.
pub open spec fn stops_at(cfg: Settings, deep: u32) -> bool {
    deep == u32::MAX || deep > cfg.bs_max_deep
}

/// A subdungeon of this size may be split: it exceeds
/// `min_room_splittable_size` in one direction at least.
pub open spec fn splittable(cfg: Settings, width: u32, height: u32) -> bool {
    width > cfg.min_room_splittable_size || height > cfg.min_room_splittable_size
}

/// A coin decides the direction of the cut: the subdungeon is high enough to
/// be cut either way and wide enough to be cut along x.
pub open spec fn asks_coin(cfg: Settings, width: u32, height: u32) -> bool {
    height >= cfg.min_room_splittable_size && width > cfg.min_room_splittable_size
}

/// The cut divides the width (the children stand side by side) and not the
/// height: the subdungeon is too low to be cut the other way, or the coin
/// fell on 1.
pub open spec fn cuts_width(cfg: Settings, width: u32, height: u32, coin: u32) -> bool {
    height < cfg.min_room_splittable_size || (width > cfg.min_room_splittable_size && coin == 1)
}

/// The share of `len` that the first child gets at `coef` percent.
pub open spec fn cut(len: u32, coef: u32) -> int {
    len * coef / 100
}

/// The two children of `node`, which has index `index`, for a cut at `coef`
/// percent.
pub open spec fn children(node: SubDungeon, index: usize, coef: u32, along_x: bool) -> (
    SubDungeon,
    SubDungeon,
) {
    let deep = (node.deep + 1) as u32;
    if along_x {
        let part = cut(node.width, coef) as u32;
        (
            SubDungeon::fresh(node.x, node.y, part, node.height, deep, Some(index)),
            SubDungeon::fresh(
                (node.x + part) as u32,
                node.y,
                (node.width - part) as u32,
                node.height,
                deep,
                Some(index),
            ),
        )
    } else {
        let part = cut(node.height, coef) as u32;
        (
            SubDungeon::fresh(node.x, node.y, node.width, part, deep, Some(index)),
            SubDungeon::fresh(
                node.x,
                (node.y + part) as u32,
                node.width,
                (node.height - part) as u32,
                deep,
                Some(index),
            ),
        )
    }
}

/// `first` and `second` divide `whole` along one axis: `first` starts where
/// `whole` starts, `second` starts where `first` ends and ends where `whole`
/// ends, and across the cut all three are alike.
pub open spec fn tiles(whole: SubDungeon, first: SubDungeon, second: SubDungeon) -> bool {
    &&& first.x == whole.x
    &&& first.y == whole.y
    &&& {
        ||| {
            &&& first.height == whole.height
            &&& second.height == whole.height
            &&& second.y == whole.y
            &&& second.x == first.x + first.width
            &&& first.width + second.width == whole.width
        }
        ||| {
            &&& first.width == whole.width
            &&& second.width == whole.width
            &&& second.x == whole.x
            &&& second.y == first.y + first.height
            &&& first.height + second.height == whole.height
        }
    }
}

/// Two halves that divide a rectangle along one axis cover it point for
/// point, and no point lies in both.
pub proof fn tiling_law(whole: SubDungeon, first: SubDungeon, second: SubDungeon)
    requires
        tiles(whole, first, second),
    ensures
        forall|px: int, py: int|
            whole.covers(px, py) <==> (#[trigger] first.covers(px, py) || second.covers(px, py)),
        forall|px: int, py: int| !(#[trigger] first.covers(px, py) && second.covers(px, py)),
{
}

/// Two subdungeons are apart if and only if no point lies in both.
pub proof fn apart_law(one: SubDungeon, other: SubDungeon)
    ensures
        one.apart(other) <==> forall|px: int, py: int|
            !(#[trigger] one.covers(px, py) && other.covers(px, py)),
{
    if !one.apart(other) {
        let px = if one.x >= other.x {
            one.x as int
        } else {
            other.x as int
        };
        let py = if one.y >= other.y {
            one.y as int
        } else {
            other.y as int
        };
        assert(one.covers(px, py) && other.covers(px, py));
    }
}

/// The chance that a node of depth `deep` is split, in percent.
pub fn split_chance(cfg: &Settings, deep: u32) -> (chance: u32)
    ensures
        chance == chance_at(*cfg, deep),
        chance <= cfg.split_default_chance,
{
    if deep < cfg.deny_split_deep {
        cfg.split_default_chance
    } else {
        let levels: u64 = (deep - cfg.deny_split_deep) as u64 + 1;
        assert(levels * cfg.split_chance_dec <= 0x1_0000_0000 * 0xFFFF_FFFF) by (nonlinear_arith)
            requires
                0 <= levels <= 0x1_0000_0000,
                0 <= cfg.split_chance_dec <= 0xFFFF_FFFF,
        ;
        let penalty: u64 = levels * (cfg.split_chance_dec as u64);
        if penalty > 100 || penalty > cfg.split_default_chance as u64 {
            0
        } else {
            cfg.split_default_chance - penalty as u32
        }
    }
}

/// Whether the builder stops at a node of depth `deep`.
pub fn stops(cfg: &Settings, deep: u32) -> (halt: bool)
    ensures
        halt == stops_at(*cfg, deep),
{
    deep == u32::MAX || deep > cfg.bs_max_deep
}

/// The share of `len` that the first child gets at `coef` percent. For a
/// percentage of 100 or less it is no more than `len`.
pub fn cut_at(len: u32, coef: u32) -> (part: u64)
    ensures
        part == cut(len, coef),
        coef <= 100 ==> part <= len,
{
    assert(len * coef <= 0xFFFF_FFFF * 0xFFFF_FFFF) by (nonlinear_arith)
        requires
            0 <= len <= 0xFFFF_FFFF,
            0 <= coef <= 0xFFFF_FFFF,
    ;
    assert(coef <= 100 ==> len * coef <= len * 100) by (nonlinear_arith)
        requires
            0 <= coef,
            0 <= len,
    ;
    let product: u64 = (len as u64) * (coef as u64);
    product / 100
}

/// The node can be cut at `coef` percent: the percentage is 100 or less, a
/// deeper level can be counted, and the node ends on the grid.
pub open spec fn divisible(node: SubDungeon, coef: u32) -> bool {
    coef <= 100 && node.deep < u32::MAX && node.on_grid()
}

/// Cuts `node`, which has index `index`, at `coef` percent of its width or of
/// its height, if it can be cut. The halves divide the node, so each lies in
/// the area that the node lies in.
pub fn split(node: &SubDungeon, index: usize, coef: u32, along_x: bool) -> (halves: Option<
    (SubDungeon, SubDungeon),
>)
    ensures
        halves is Some <==> divisible(*node, coef),
        halves matches Some(pair) ==> ({
            &&& pair == children(*node, index, coef, along_x)
            &&& tiles(*node, pair.0, pair.1)
            &&& pair.0.deep == node.deep + 1
            &&& pair.1.deep == node.deep + 1
        }),
{
    if coef > 100 || node.deep == u32::MAX || node.x as u64 + node.width as u64 > u32::MAX as u64
        || node.y as u64 + node.height as u64 > u32::MAX as u64 {
        return None;
    }
    let x1: u32 = node.x;
    let y1: u32 = node.y;
    let mut x2: u32 = x1;
    let mut y2: u32 = y1;
    let mut w1: u32 = node.width;
    let mut h1: u32 = node.height;
    if along_x {
        x2 = x1 + cut_at(node.width, coef) as u32;
        w1 = x2 - x1;
    } else {
        y2 = y1 + cut_at(node.height, coef) as u32;
        h1 = y2 - y1;
    }
    Some(
        (
            SubDungeon::new(x1, y1, w1, h1, node.deep + 1, Some(index)),
            SubDungeon::new(
                x2,
                y2,
                node.width - (x2 - x1),
                node.height - (y2 - y1),
                node.deep + 1,
                Some(index),
            ),
        ),
    )
}

} // verus!
