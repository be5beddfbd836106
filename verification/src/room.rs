//! The rectangles a generator hands out, and the interface every generator shares.

use vstd::prelude::*;

verus! {

/// Type of the room
#[derive(Debug, Clone, Copy, PartialEq, Eq, Structural)]
pub enum RoomType {
    /// Basic room is the room where enemies, treasures and bosses are placed
    BasicRoom,
    /// Coridor is a connecter Cave-BasicRoom or BasicRoom-BasicRoom
    Coridor,
    /// Cave is the "main hall" of a dungeon; a partitioning generator never makes one
    Cave,
}

/// Room description struct
#[derive(Debug, Clone, Copy, PartialEq, Eq, Structural)]
pub struct Room {
    /// The type of the room
    pub room_type: RoomType,
    /// x absolute coordinate
    pub x: u32,
    /// y absolute coordinate
    pub y: u32,
    /// width of the room in units
    pub width: u32,
    /// height of the room in units
    pub height: u32,
}

/// A rectangle on the grid, as `[x, y, width, height]`.
pub type Rectangle = [u32; 4];

/// Why a layout could not be generated.
#[derive(Debug, Clone, Copy, PartialEq, Eq, Structural)]
pub enum GenerateError {
    /// `split_max_coeff` lies outside `51..=100`, so no percentage can be drawn
    /// from `[100 - split_max_coeff, split_max_coeff)`.
    SplitCoefficient,
    /// The area to fill has no width or no height.
    EmptyArea,
    /// `min_room_splittable_size` is zero.
    ZeroSplittableSize,
    /// A leaf of the partition is narrower or lower than three units, which
    /// leaves no size to draw for its room.
    SubdungeonTooSmall,
    /// A corridor segment would be empty or would leave the grid.
    CorridorOutOfRange,
}

impl Room {
    /// The rectangle `rect`, tagged with `room_type`.
    pub fn new(room_type: RoomType, rect: Rectangle) -> (room: Room)
        ensures
            room == room_of(room_type, rect),
    {
        Room { room_type: room_type, x: rect[0], y: rect[1], width: rect[2], height: rect[3] }
    }

    /// The bare rectangle of this room.
    pub open spec fn rect(self) -> Rectangle {
        [self.x, self.y, self.width, self.height]
    }

    /// The point `(px, py)` lies in the room; the right and the lower edge
    /// are not part of it.
    pub open spec fn covers(self, px: int, py: int) -> bool {
        self.x <= px < self.x + self.width && self.y <= py < self.y + self.height
    }

    /// The room is neither empty nor a line.
    pub open spec fn positive(self) -> bool {
        self.width > 0 && self.height > 0
    }

    /// The room and `other`, taken with their edges, have a point in common:
    /// they overlap, or share a stretch of an edge, or meet in a corner.
    pub open spec fn touches(self, other: Room) -> bool {
        &&& self.x <= other.x + other.width
        &&& other.x <= self.x + self.width
        &&& self.y <= other.y + other.height
        &&& other.y <= self.y + self.height
    }

    /// The room and `other` have a point in common (edges to the right and
    /// below not counted): neither is empty, and each begins before the other
    /// ends.
    pub open spec fn overlaps(self, other: Room) -> bool {
        &&& self.positive()
        &&& other.positive()
        &&& self.x < other.x + other.width
        &&& other.x < self.x + self.width
        &&& self.y < other.y + other.height
        &&& other.y < self.y + self.height
    }

    /// The room lies in the area `[0, width) x [0, height)` and keeps clear of
    /// its right and lower edge.
    pub open spec fn inside(self, width: u32, height: u32) -> bool {
        self.x + self.width < width && self.y + self.height < height
    }
}

/// The room `Room::new` builds.
pub open spec fn room_of(room_type: RoomType, rect: Rectangle) -> Room {
    Room { room_type, x: rect[0], y: rect[1], width: rect[2], height: rect[3] }
}

/// Two rooms overlap if and only if some point lies in both.
pub proof fn overlap_law(one: Room, other: Room)
    ensures
        one.overlaps(other) <==> exists|px: int, py: int|
            #[trigger] one.covers(px, py) && other.covers(px, py),
{
    if one.overlaps(other) {
        let px = if one.x >= other.x {
            one.x as int
        } else {
            other.x as int
        };
        let py = if one.y >= other.y {
            one.y as int
        } else {
            other.y as int
        };
        assert(one.covers(px, py) && other.covers(px, py));
    }
}

impl GenerateError {
    /// The message of each error, as a sequence of characters.
    pub open spec fn text(self) -> Seq<char> {
        match self {
            GenerateError::SplitCoefficient => "split_max_coeff must lie between 51 and 100"@,
            GenerateError::EmptyArea => "width and height must not be zero"@,
            GenerateError::ZeroSplittableSize => "min_room_splittable_size must not be zero"@,
            GenerateError::SubdungeonTooSmall => "a subdungeon is too small to hold a room"@,
            GenerateError::CorridorOutOfRange => "a corridor does not fit between two rooms"@,
        }
    }

    /// A description of the error for the caller to show.
    pub fn message(&self) -> (m: &'static str)
        ensures
            m@ == self.text(),
    {
        match self {
            GenerateError::SplitCoefficient => "split_max_coeff must lie between 51 and 100",
            GenerateError::EmptyArea => "width and height must not be zero",
            GenerateError::ZeroSplittableSize => "min_room_splittable_size must not be zero",
            GenerateError::SubdungeonTooSmall => "a subdungeon is too small to hold a room",
            GenerateError::CorridorOutOfRange => "a corridor does not fit between two rooms",
        }
    }
}

/// What every dungeon generator offers: a list of rooms for a seed and an area.
pub trait DungeonGenerator {
    /// Lays out a dungeon of `width` by `height` units (for example tiles, not
    /// pixels) from `seed`. No generator hands out an empty rectangle.
    fn generate(&mut self, seed: &[usize], width: u32, height: u32) -> (rooms: Result<
        Vec<Room>,
        GenerateError,
    >)
        ensures
            rooms matches Ok(list) ==> forall|i: int|
                0 <= i < list@.len() ==> (#[trigger] list@[i]).positive(),
    ;
}

} // verus!
