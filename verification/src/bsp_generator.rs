//! The generator: its settings, and the run from a seed to a list of rooms.

use crate::corridor::{
    coridor_hor_passage, coridor_hor_range, coridor_vert_passage, coridor_vert_range, Passage,
};
use crate::draws::{draw, rng_words, seeded};
use crate::stages::{
    bare, closed, connect, front_open, furnish, handed_out, join, link, notify, open_count,
    rooms_of, run, Stage,
};
use crate::invariants::{
    fair, finished, front_waits, joining_keeps_order, leaves_closed, leaves_open,
    nothing_left_open, order_begins, order_holds_tree, orderly, placing_keeps_order,
};
use crate::partition::SubDungeon;
use crate::placement::place_room;
use crate::room::{DungeonGenerator, GenerateError, Rectangle, Room, RoomType};
use crate::settings::{Settings, Tunable};
use crate::tree::{
    all_open, build_tree, in_levels, is_tree, leaves_apart, node_ok, ruled, same_shape,
    shape_keeps_rules,
};
use rand::StdRng;
use std::collections::VecDeque;
use vstd::prelude::*;

verus! {

/// Simple Binary Space Partioning dungeon generation algorithm:
///
///  1. The area is split into random rectangles with the help of a binary tree
///  2. In every rectangle a random room is generated
///  3. Corridors are generated with the help of the binary tree of the first step
pub struct BSPGenerator {
    settings: Settings,
}

impl View for BSPGenerator {
    type V = Settings;

    closed spec fn view(&self) -> Settings {
        self.settings
    }
}

impl Default for BSPGenerator {
    fn default() -> (generator: BSPGenerator)
        ensures
            generator@ == Settings::initial(),
    {
        BSPGenerator {
            settings: Settings {
                bs_max_deep: 5,
                deny_split_deep: 3,
                split_chance_dec: 30,
                split_max_coeff: 70,
                split_default_chance: 100,
                min_room_splittable_size: 150,
                coridor_width: 15,
            },
        }
    }
}

impl BSPGenerator {
    /// The settings of this generator.
    pub fn settings(&self) -> (settings: Settings)
        ensures
            settings == self@,
    {
        self.settings
    }

    /// levels of binary tree
    pub fn bs_max_deep(self, value: u32) -> (generator: Self)
        ensures
            generator@ == self@.with(Tunable::BsMaxDeep, value),
    {
        let mut generator = self;
        generator.settings.bs_max_deep = value;
        generator
    }

    /// level of tree from which node can deny split
    pub fn deny_split_deep(self, value: u32) -> (generator: Self)
        ensures
            generator@ == self@.with(Tunable::DenySplitDeep, value),
    {
        let mut generator = self;
        generator.settings.deny_split_deep = value;
        generator
    }

    /// split chance decreasment per tree level starting "deny_split_deep"
    pub fn split_chance_dec(self, value: u32) -> (generator: Self)
        ensures
            generator@ == self@.with(Tunable::SplitChanceDec, value),
    {
        let mut generator = self;
        generator.settings.split_chance_dec = value;
        generator
    }

    /// max splitting coefficient
    pub fn split_max_coeff(self, value: u32) -> (generator: Self)
        ensures
            generator@ == self@.with(Tunable::SplitMaxCoeff, value),
    {
        let mut generator = self;
        generator.settings.split_max_coeff = value;
        generator
    }

    /// default splitting chance
    pub fn split_default_chance(self, value: u32) -> (generator: Self)
        ensures
            generator@ == self@.with(Tunable::SplitDefaultChance, value),
    {
        let mut generator = self;
        generator.settings.split_default_chance = value;
        generator
    }

    /// minimum splittable size of subdungeon
    pub fn min_room_splittable_size(self, value: u32) -> (generator: Self)
        ensures
            generator@ == self@.with(Tunable::MinRoomSplittableSize, value),
    {
        let mut generator = self;
        generator.settings.min_room_splittable_size = value;
        generator
    }

    /// constant width of corridors
    pub fn coridor_width(self, value: u32) -> (generator: Self)
        ensures
            generator@ == self@.with(Tunable::CoridorWidth, value),
    {
        let mut generator = self;
        generator.settings.coridor_width = value;
        generator
    }

    /// Appends what a corridor is made of: the bend, if it has one, then the
    /// run.
    fn push_passage(passage: Passage, rooms: &mut Vec<Room>)
        ensures
            final(rooms)@ == old(rooms)@ + passage.rooms(),
    {
        if let Some(bend) = passage.bend {
            rooms.push(bend);
        }
        rooms.push(passage.run);
        assert(rooms@ =~= old(rooms)@ + passage.rooms());
    }

    /// Lays a vertical corridor from `bx1` down to `bx2` and appends its
    /// segments to `rooms`. The column of the run is drawn.
    fn generate_coridor_vert(
        &self,
        bx1: Rectangle,
        bx2: Rectangle,
        rng: &mut StdRng,
        rooms: &mut Vec<Room>,
    ) -> (done: Result<(), GenerateError>)
        ensures
            match link(self@.coridor_width, bx1, bx2, true, rng_words(*old(rng))) {
                Some(laid) => {
                    &&& done is Ok
                    &&& final(rooms)@ == old(rooms)@ + laid.0.rooms()
                    &&& rng_words(*final(rng)) == laid.1
                    &&& laid.0.solid()
                    &&& laid.0.links(bx1, bx2)
                },
                None => done == Err::<(), GenerateError>(GenerateError::CorridorOutOfRange),
            },
    {
        let range = match coridor_vert_range(bx1, bx2, self.settings.coridor_width) {
            Some(range) => range,
            None => { return Err(GenerateError::CorridorOutOfRange); },
        };
        let at: u32 = draw(rng, range.0, range.1);
        match coridor_vert_passage(bx1, bx2, self.settings.coridor_width, at) {
            Some(passage) => {
                Self::push_passage(passage, rooms);
                Ok(())
            },
            None => Err(GenerateError::CorridorOutOfRange),
        }
    }

    /// Lays a horizontal corridor from `bx1` to `bx2` on its right and
    /// appends its segments to `rooms`. The row of the run is drawn.
    fn generate_coridor_hor(
        &self,
        bx1: Rectangle,
        bx2: Rectangle,
        rng: &mut StdRng,
        rooms: &mut Vec<Room>,
    ) -> (done: Result<(), GenerateError>)
        ensures
            match link(self@.coridor_width, bx1, bx2, false, rng_words(*old(rng))) {
                Some(laid) => {
                    &&& done is Ok
                    &&& final(rooms)@ == old(rooms)@ + laid.0.rooms()
                    &&& rng_words(*final(rng)) == laid.1
                    &&& laid.0.solid()
                    &&& laid.0.links(bx1, bx2)
                },
                None => done == Err::<(), GenerateError>(GenerateError::CorridorOutOfRange),
            },
    {
        let range = match coridor_hor_range(bx1, bx2, self.settings.coridor_width) {
            Some(range) => range,
            None => { return Err(GenerateError::CorridorOutOfRange); },
        };
        let at: u32 = draw(rng, range.0, range.1);
        match coridor_hor_passage(bx1, bx2, self.settings.coridor_width, at) {
            Some(passage) => {
                Self::push_passage(passage, rooms);
                Ok(())
            },
            None => Err(GenerateError::CorridorOutOfRange),
        }
    }

    /// Tells the parent of node `i`, which was just closed: if the sibling is
    /// closed too, the parent joins the queue.
    fn notify_parent(
        nodes: &Vec<SubDungeon>,
        queue: &mut VecDeque<usize>,
        i: usize,
        Ghost(width): Ghost<u32>,
        Ghost(height): Ghost<u32>,
    )
        requires
            is_tree(nodes@, width, height),
            i < nodes@.len(),
        ensures
            final(queue)@ == notify(nodes@, old(queue)@, i as int),
    {
        assert(node_ok(nodes@, i as int, width, height));
        if let Some(parent) = nodes[i].parent {
            assert(node_ok(nodes@, parent as int, width, height));
            let childs: [usize; 2] = nodes[parent].childs.unwrap();
            if nodes[childs[0]].bounding_rect.is_some() && nodes[childs[1]].bounding_rect.is_some() {
                queue.push_back(parent);
            }
        }
    }

    /// Places a room in every leaf, in the order of the indices.
    fn furnish_rooms(
        nodes: &mut Vec<SubDungeon>,
        rng: &mut StdRng,
        Ghost(width): Ghost<u32>,
        Ghost(height): Ghost<u32>,
    ) -> (placed: Result<(Vec<Room>, VecDeque<usize>), GenerateError>)
        requires
            is_tree(old(nodes)@, width, height),
            leaves_apart(old(nodes)@),
            all_open(old(nodes)@),
        ensures
            match placed {
                Ok(lists) => {
                    &&& furnish(bare((old(nodes)@, rng_words(*old(rng)))), 0) == Ok::<
                        Stage,
                        GenerateError,
                    >(
                        Stage {
                            nodes: final(nodes)@,
                            rooms: lists.0@,
                            queue: lists.1@,
                            words: rng_words(*final(rng)),
                        },
                    )
                    &&& orderly(final(nodes)@, lists.0@, lists.1@, width, height)
                    &&& leaves_closed(final(nodes)@, final(nodes)@.len() as int)
                    &&& same_shape(old(nodes)@, final(nodes)@)
                },
                Err(e) => e == GenerateError::SubdungeonTooSmall && furnish(
                    bare((old(nodes)@, rng_words(*old(rng)))),
                    0,
                ) == Err::<Stage, GenerateError>(e),
            },
    {
        let mut rooms: Vec<Room> = Vec::new();
        let mut queue: VecDeque<usize> = VecDeque::new();
        let ghost start = bare((nodes@, rng_words(*rng)));
        let mut i: usize = 0;
        proof {
            order_begins(nodes@, width, height);
        }
        while i < nodes.len()
            invariant
                i <= nodes@.len(),
                start == bare((old(nodes)@, rng_words(*old(rng)))),
                same_shape(old(nodes)@, nodes@),
                orderly(nodes@, rooms@, queue@, width, height),
                leaves_open(nodes@, i as int),
                leaves_closed(nodes@, i as int),
                furnish(
                    Stage { nodes: nodes@, rooms: rooms@, queue: queue@, words: rng_words(*rng) },
                    i as int,
                ) == furnish(start, 0),
            decreases nodes@.len() - i,
        {
            if nodes[i].childs.is_none() {
                let d: SubDungeon = nodes[i];
                let ghost before = Stage {
                    nodes: nodes@,
                    rooms: rooms@,
                    queue: queue@,
                    words: rng_words(*rng),
                };
                proof {
                    order_holds_tree(nodes@, rooms@, queue@, width, height);
                    assert(node_ok(nodes@, i as int, width, height));
                }
                match place_room(&d, rng) {
                    None => {
                        return Err(GenerateError::SubdungeonTooSmall);
                    },
                    Some(room) => {
                        // the room goes out, and the leaf is closed with it
                        rooms.push(Room::new(RoomType::BasicRoom, room));
                        let mut node: SubDungeon = d;
                        node.bounding_rect = Some(room);
                        nodes.set(i, node);
                        proof {
                            assert(nodes@ =~= closed(before.nodes, i as int, room));
                            placing_keeps_order(
                                before.nodes,
                                before.rooms,
                                before.queue,
                                i as int,
                                room,
                                width,
                                height,
                            );
                            order_holds_tree(
                                nodes@,
                                rooms@,
                                notify(nodes@, queue@, i as int),
                                width,
                                height,
                            );
                        }
                        Self::notify_parent(nodes, &mut queue, i, Ghost(width), Ghost(height));
                    },
                }
            }
            i = i + 1;
        }
        Ok((rooms, queue))
    }

    /// Joins the node at the front of the queue: lays a corridor between what
    /// its two children stand for, lets one of the two stand for the node,
    /// and tells the node's parent.
    fn join_front(
        &self,
        nodes: &mut Vec<SubDungeon>,
        rooms: &mut Vec<Room>,
        queue: &mut VecDeque<usize>,
        rng: &mut StdRng,
        Ghost(width): Ghost<u32>,
        Ghost(height): Ghost<u32>,
    ) -> (done: Result<(), GenerateError>)
        requires
            old(queue)@.len() > 0,
            orderly(old(nodes)@, old(rooms)@, old(queue)@, width, height),
        ensures
            front_open(
                Stage {
                    nodes: old(nodes)@,
                    rooms: old(rooms)@,
                    queue: old(queue)@,
                    words: rng_words(*old(rng)),
                },
            ),
            match done {
                Ok(_) => {
                    &&& join(
                        self@,
                        Stage {
                            nodes: old(nodes)@,
                            rooms: old(rooms)@,
                            queue: old(queue)@,
                            words: rng_words(*old(rng)),
                        },
                    ) == Ok::<Stage, GenerateError>(
                        Stage {
                            nodes: final(nodes)@,
                            rooms: final(rooms)@,
                            queue: final(queue)@,
                            words: rng_words(*final(rng)),
                        },
                    )
                    &&& orderly(final(nodes)@, final(rooms)@, final(queue)@, width, height)
                    &&& open_count(final(nodes)@) < open_count(old(nodes)@)
                    &&& same_shape(old(nodes)@, final(nodes)@)
                    &&& forall|j: int|
                        0 <= j < old(nodes)@.len() && (#[trigger] old(nodes)@[j]).is_leaf()
                            ==> final(nodes)@[j] == old(nodes)@[j]
                },
                Err(e) => e == GenerateError::CorridorOutOfRange && join(
                    self@,
                    Stage {
                        nodes: old(nodes)@,
                        rooms: old(rooms)@,
                        queue: old(queue)@,
                        words: rng_words(*old(rng)),
                    },
                ) == Err::<Stage, GenerateError>(e),
            },
    {
        let ghost before = Stage {
            nodes: nodes@,
            rooms: rooms@,
            queue: queue@,
            words: rng_words(*rng),
        };
        proof {
            front_waits(nodes@, rooms@, queue@, width, height);
        }
        let i: usize = queue.pop_front().unwrap();
        let p: SubDungeon = nodes[i];
        let childs: [usize; 2] = p.childs.unwrap();
        let (ch1, ch2) = (nodes[childs[0]], nodes[childs[1]]);
        let (bx1, bx2) = (ch1.bounding_rect.unwrap(), ch2.bounding_rect.unwrap());
        let done = if ch1.x == ch2.x {
            self.generate_coridor_vert(bx1, bx2, rng, rooms)
        } else {
            self.generate_coridor_hor(bx1, bx2, rng, rooms)
        };
        if let Err(e) = done {
            return Err(e);
        }
        let ghost laid = link(self@.coridor_width, bx1, bx2, ch1.x == ch2.x, before.words)->0;
        // one of the two rectangles stands for the node from now on
        let rect: Rectangle = if draw(rng, 0, 2) == 1 {
            bx1
        } else {
            bx2
        };
        let mut node: SubDungeon = p;
        node.bounding_rect = Some(rect);
        nodes.set(i, node);
        proof {
            assert(nodes@ =~= closed(before.nodes, i as int, rect));
            joining_keeps_order(
                before.nodes,
                before.rooms,
                before.queue,
                laid.0,
                rect,
                width,
                height,
            );
            order_holds_tree(
                nodes@,
                rooms@,
                notify(nodes@, queue@, i as int),
                width,
                height,
            );
        }
        Self::notify_parent(nodes, queue, i, Ghost(width), Ghost(height));
        Ok(())
    }

    /// Joins the nodes that wait in the queue, each with a corridor between
    /// what its children stand for, until no node waits any more.
    fn connect_rooms(
        &self,
        nodes: &mut Vec<SubDungeon>,
        rooms: &mut Vec<Room>,
        waiting_nodes: VecDeque<usize>,
        rng: &mut StdRng,
        Ghost(width): Ghost<u32>,
        Ghost(height): Ghost<u32>,
    ) -> (done: Result<(), GenerateError>)
        requires
            orderly(old(nodes)@, old(rooms)@, waiting_nodes@, width, height),
            leaves_closed(old(nodes)@, old(nodes)@.len() as int),
        ensures
            match done {
                Ok(_) => {
                    &&& connect(
                        self@,
                        Stage {
                            nodes: old(nodes)@,
                            rooms: old(rooms)@,
                            queue: waiting_nodes@,
                            words: rng_words(*old(rng)),
                        },
                    ) == Ok::<Stage, GenerateError>(
                        Stage {
                            nodes: final(nodes)@,
                            rooms: final(rooms)@,
                            queue: Seq::empty(),
                            words: rng_words(*final(rng)),
                        },
                    )
                    &&& finished(final(nodes)@, final(rooms)@, width, height)
                    &&& same_shape(old(nodes)@, final(nodes)@)
                },
                Err(e) => e == GenerateError::CorridorOutOfRange && connect(
                    self@,
                    Stage {
                        nodes: old(nodes)@,
                        rooms: old(rooms)@,
                        queue: waiting_nodes@,
                        words: rng_words(*old(rng)),
                    },
                ) == Err::<Stage, GenerateError>(e),
            },
    {
        let mut queue: VecDeque<usize> = waiting_nodes;
        let ghost start = Stage {
            nodes: nodes@,
            rooms: rooms@,
            queue: queue@,
            words: rng_words(*rng),
        };
        while queue.len() > 0
            invariant
                start == (Stage {
                    nodes: old(nodes)@,
                    rooms: old(rooms)@,
                    queue: waiting_nodes@,
                    words: rng_words(*old(rng)),
                }),
                same_shape(old(nodes)@, nodes@),
                orderly(nodes@, rooms@, queue@, width, height),
                leaves_closed(nodes@, nodes@.len() as int),
                connect(
                    self@,
                    Stage { nodes: nodes@, rooms: rooms@, queue: queue@, words: rng_words(*rng) },
                ) == connect(self@, start),
            decreases open_count(nodes@),
        {
            if let Err(e) = self.join_front(
                nodes,
                rooms,
                &mut queue,
                rng,
                Ghost(width),
                Ghost(height),
            ) {
                return Err(e);
            }
        }
        proof {
            assert(queue@ =~= Seq::<usize>::empty());
            nothing_left_open(nodes@, rooms@, width, height, 0);
        }
        Ok(())
    }

    /// Generates a layout and hands out the tree with it: the partition of
    /// the area `[0, width) x [0, height)`, each node with the rectangle that
    /// stands for it, and the rooms and corridors.
    ///
    /// What comes back is what `run` describes for the settings, the seed and
    /// the area, so the same input gives the same layout. Settings or an area
    /// at fault are refused before anything is drawn; a leaf too small for a
    /// room, or two rectangles between which no corridor fits, end the run
    /// with a failure and nothing is handed out. In a layout every node that
    /// was split was split by the rules, every room is neither empty nor a
    /// line, every basic room lies in the area, no two basic rooms overlap,
    /// every leaf has its room, and every node that was split has a corridor
    /// between what its two children stand for.
    pub fn layout(&self, seed: &[usize], width: u32, height: u32) -> (result: Result<
        (Vec<SubDungeon>, Vec<Room>),
        GenerateError,
    >)
        ensures
            match result {
                Ok(lists) => {
                    &&& run(self@, seed@, width, height) matches Ok(st)
                    &&& st.nodes == lists.0@
                    &&& st.rooms == lists.1@
                    &&& finished(lists.0@, lists.1@, width, height)
                    &&& ruled(self@, lists.0@)
                    &&& in_levels(lists.0@)
                },
                Err(e) => run(self@, seed@, width, height) == Err::<Stage, GenerateError>(e),
            },
            self@.fault(width, height) matches Some(fault) ==> result == Err::<
                (Vec<SubDungeon>, Vec<Room>),
                GenerateError,
            >(fault),
            self@.fault(width, height) is None ==> match result {
                Ok(_) => true,
                Err(e) => e == GenerateError::SubdungeonTooSmall || e
                    == GenerateError::CorridorOutOfRange,
            },
    {
        if let Some(fault) = self.settings.check(width, height) {
            return Err(fault);
        }
        let mut rng: StdRng = seeded(seed);
        let mut dungeon: Vec<SubDungeon> = match build_tree(
            &self.settings,
            width,
            height,
            &mut rng,
        ) {
            Ok(nodes) => nodes,
            Err(e) => { return Err(e); },
        };
        let ghost tree = dungeon@;
        let (mut rooms, queue) = match Self::furnish_rooms(
            &mut dungeon,
            &mut rng,
            Ghost(width),
            Ghost(height),
        ) {
            Ok(lists) => lists,
            Err(e) => { return Err(e); },
        };
        match self.connect_rooms(
            &mut dungeon,
            &mut rooms,
            queue,
            &mut rng,
            Ghost(width),
            Ghost(height),
        ) {
            Ok(_) => {
                proof {
                    shape_keeps_rules(self@, tree, dungeon@, width, height);
                }
                Ok((dungeon, rooms))
            },
            Err(e) => Err(e),
        }
    }
}

impl DungeonGenerator for BSPGenerator {
    /// Generates a layout for the area `[0, width) x [0, height)`.
    ///
    /// The rooms are those of `layout`, in the order in which they were made.
    /// The generator itself is left as it was.
    fn generate(&mut self, seed: &[usize], width: u32, height: u32) -> (rooms: Result<
        Vec<Room>,
        GenerateError,
    >)
        ensures
            final(self)@ == old(self)@,
            handed_out(rooms) == rooms_of(old(self)@, seed@, width, height),
            rooms matches Ok(list) ==> ({
                &&& run(old(self)@, seed@, width, height) matches Ok(st)
                &&& finished(st.nodes, list@, width, height)
                &&& ruled(old(self)@, st.nodes)
                &&& in_levels(st.nodes)
            }),
            old(self)@.fault(width, height) matches Some(fault) ==> rooms == Err::<
                Vec<Room>,
                GenerateError,
            >(fault),
            old(self)@.fault(width, height) is None ==> match rooms {
                Ok(_) => true,
                Err(e) => e == GenerateError::SubdungeonTooSmall || e
                    == GenerateError::CorridorOutOfRange,
            },
    {
        match self.layout(seed, width, height) {
            Ok(lists) => {
                let list: Vec<Room> = lists.1;
                assert forall|i: int| 0 <= i < list@.len() implies (#[trigger] list@[i]).positive() by {
                    assert(fair(list@[i], width, height));
                }
                Ok(list)
            },
            Err(e) => Err(e),
        }
    }
}

} // verus!
