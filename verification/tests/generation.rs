use dungeon_generator::bsp_generator::BSPGenerator;
use dungeon_generator::partition::SubDungeon;
use dungeon_generator::placement::place_room;
use dungeon_generator::room::{DungeonGenerator, GenerateError, Room, RoomType};
use dungeon_generator::settings::Settings;
use dungeon_generator::tree::build_tree;
use rand::{Rng, SeedableRng, StdRng};

fn seeds() -> Vec<Vec<usize>> {
    let mut all = Vec::new();
    for s in 0..40usize {
        all.push(vec![s, s * 7 + 1, 42]);
    }
    all.push(vec![]);
    all.push(vec![1, 2, 3, 4]);
    all
}

fn touches(a: &Room, b: &Room) -> bool {
    let (ax, ay, aw, ah) = (a.x as u64, a.y as u64, a.width as u64, a.height as u64);
    let (bx, by, bw, bh) = (b.x as u64, b.y as u64, b.width as u64, b.height as u64);
    ax <= bx + bw && bx <= ax + aw && ay <= by + bh && by <= ay + ah
}

fn overlap(a: &Room, b: &Room) -> bool {
    a.x < b.x + b.width && b.x < a.x + a.width && a.y < b.y + b.height && b.y < a.y + a.height
}

fn as_room(rect: [u32; 4]) -> Room {
    Room::new(RoomType::BasicRoom, rect)
}

fn linked(rooms: &Vec<Room>, first: [u32; 4], second: [u32; 4]) -> bool {
    let from = as_room(first);
    let to = as_room(second);
    for k in 0..rooms.len() {
        if rooms[k].room_type != RoomType::Coridor {
            continue;
        }
        if touches(&rooms[k], &from) && touches(&rooms[k], &to) {
            return true;
        }
        if k + 1 < rooms.len()
            && rooms[k + 1].room_type == RoomType::Coridor
            && touches(&rooms[k + 1], &from)
            && touches(&rooms[k], &to)
            && touches(&rooms[k], &rooms[k + 1])
        {
            return true;
        }
    }
    false
}

fn tiled(whole: &SubDungeon, first: &SubDungeon, second: &SubDungeon) -> bool {
    let side_by_side = first.height == whole.height
        && second.height == whole.height
        && second.y == whole.y
        && second.x == first.x + first.width
        && first.width + second.width == whole.width;
    let stacked = first.width == whole.width
        && second.width == whole.width
        && second.x == whole.x
        && second.y == first.y + first.height
        && first.height + second.height == whole.height;
    first.x == whole.x && first.y == whole.y && (side_by_side || stacked)
}

fn check_tree(nodes: &Vec<SubDungeon>, width: u32, height: u32) {
    assert!(nodes.len() >= 1);
    assert_eq!((nodes[0].x, nodes[0].y, nodes[0].width, nodes[0].height), (0, 0, width, height));
    assert_eq!(nodes[0].deep, 0);
    assert_eq!(nodes[0].parent, None);
    for i in 0..nodes.len() {
        let node = &nodes[i];
        assert!(node.x + node.width <= width && node.y + node.height <= height);
        if i > 0 {
            let p = node.parent.unwrap();
            assert!(p < i);
            let c = nodes[p].childs.unwrap();
            assert!(c[0] == i || c[1] == i);
        }
        if let Some(c) = node.childs {
            assert!(i < c[0] && c[1] == c[0] + 1 && c[1] < nodes.len());
            assert_eq!(nodes[c[0]].parent, Some(i));
            assert_eq!(nodes[c[1]].parent, Some(i));
            assert_eq!(nodes[c[0]].deep, node.deep + 1);
            assert_eq!(nodes[c[1]].deep, node.deep + 1);
            assert!(tiled(node, &nodes[c[0]], &nodes[c[1]]));
        }
    }
}

#[test]
fn default_generator_has_the_documented_settings() {
    let generator = BSPGenerator::default();
    assert_eq!(
        generator.settings(),
        Settings {
            bs_max_deep: 5,
            deny_split_deep: 3,
            split_chance_dec: 30,
            split_max_coeff: 70,
            split_default_chance: 100,
            min_room_splittable_size: 150,
            coridor_width: 15,
        }
    );
}

#[test]
fn each_builder_sets_its_own_option() {
    let base = BSPGenerator::default().settings();
    assert_eq!(
        BSPGenerator::default().bs_max_deep(9).settings(),
        Settings { bs_max_deep: 9, ..base }
    );
    assert_eq!(
        BSPGenerator::default().deny_split_deep(8).settings(),
        Settings { deny_split_deep: 8, ..base }
    );
    assert_eq!(
        BSPGenerator::default().split_chance_dec(7).settings(),
        Settings { split_chance_dec: 7, ..base }
    );
    assert_eq!(
        BSPGenerator::default().split_max_coeff(66).settings(),
        Settings { split_max_coeff: 66, ..base }
    );
    assert_eq!(
        BSPGenerator::default().split_default_chance(55).settings(),
        Settings { split_default_chance: 55, ..base }
    );
    assert_eq!(
        BSPGenerator::default().min_room_splittable_size(44).settings(),
        Settings { min_room_splittable_size: 44, ..base }
    );
    assert_eq!(
        BSPGenerator::default().coridor_width(3).settings(),
        Settings { coridor_width: 3, ..base }
    );
}

#[test]
fn options_can_be_set_in_any_order() {
    let wanted = Settings {
        bs_max_deep: 1,
        deny_split_deep: 2,
        split_chance_dec: 3,
        split_max_coeff: 60,
        split_default_chance: 5,
        min_room_splittable_size: 6,
        coridor_width: 7,
    };
    let one = BSPGenerator::default()
        .bs_max_deep(1)
        .deny_split_deep(2)
        .split_chance_dec(3)
        .split_max_coeff(60)
        .split_default_chance(5)
        .min_room_splittable_size(6)
        .coridor_width(7);
    let other = BSPGenerator::default()
        .coridor_width(99)
        .coridor_width(7)
        .min_room_splittable_size(6)
        .split_default_chance(5)
        .split_max_coeff(60)
        .split_chance_dec(3)
        .deny_split_deep(2)
        .bs_max_deep(1);
    assert_eq!(one.settings(), wanted);
    assert_eq!(other.settings(), wanted);
}

#[test]
fn equal_settings_generate_equal_layouts() {
    let mut one = BSPGenerator::default().min_room_splittable_size(120).coridor_width(10);
    let mut other = BSPGenerator::default().coridor_width(10).min_room_splittable_size(120);
    for seed in seeds() {
        assert_eq!(one.generate(&seed, 900, 700), other.generate(&seed, 900, 700));
    }
}

#[test]
fn generation_is_deterministic() {
    let mut generator = BSPGenerator::default();
    for seed in seeds() {
        let once = generator.generate(&seed, 1000, 800);
        let again = generator.generate(&seed, 1000, 800);
        assert_eq!(once, again);
        let fresh = BSPGenerator::default().generate(&seed, 1000, 800);
        assert_eq!(once, fresh);
    }
}

#[test]
fn seeds_make_a_difference() {
    let mut generator = BSPGenerator::default();
    let first = generator.generate(&[1, 2, 3], 1000, 800);
    let mut differs = false;
    for seed in seeds() {
        if generator.generate(&seed, 1000, 800) != first {
            differs = true;
        }
    }
    assert!(differs);
}

#[test]
fn draws_spread_over_their_range() {
    // A single room in a 1000 x 1000 area: its width is drawn from [500, 800).
    let mut generator = BSPGenerator::default().split_default_chance(0);
    let mut widths = Vec::new();
    for seed in seeds() {
        let rooms = generator.generate(&seed, 1000, 1000).unwrap();
        assert!(500 <= rooms[0].width && rooms[0].width < 800);
        assert!(500 <= rooms[0].height && rooms[0].height < 800);
        widths.push(rooms[0].width);
    }
    assert!(widths.iter().any(|w| *w != 500));
    assert!(widths.iter().any(|w| *w != widths[0]));
}

#[test]
fn rooms_lie_in_the_area_and_are_not_empty() {
    let mut generator = BSPGenerator::default();
    let mut layouts = 0;
    for seed in seeds() {
        if let Ok(rooms) = generator.generate(&seed, 1000, 800) {
            layouts += 1;
            assert!(rooms.len() >= 1);
            for room in rooms.iter() {
                assert!(room.width > 0 && room.height > 0);
                assert!(room.room_type != RoomType::Cave);
                if room.room_type == RoomType::BasicRoom {
                    assert!(room.x + room.width < 1000);
                    assert!(room.y + room.height < 800);
                }
            }
        }
    }
    assert!(layouts > 0);
}

#[test]
fn basic_rooms_come_first_and_do_not_overlap() {
    let mut generator = BSPGenerator::default();
    for seed in seeds() {
        if let Ok(rooms) = generator.generate(&seed, 1000, 800) {
            let basic = rooms.iter().filter(|r| r.room_type == RoomType::BasicRoom).count();
            for k in 0..rooms.len() {
                assert_eq!(rooms[k].room_type == RoomType::BasicRoom, k < basic);
            }
            for a in 0..basic {
                for b in a + 1..basic {
                    assert!(!overlap(&rooms[a], &rooms[b]));
                }
            }
        }
    }
}

#[test]
fn children_tile_their_parent() {
    let generator = BSPGenerator::default();
    for seed in seeds() {
        if let Ok((nodes, _)) = generator.layout(&seed, 1000, 800) {
            check_tree(&nodes, 1000, 800);
        }
    }
}

#[test]
fn build_tree_tiles_at_full_split_chance() {
    let cfg = Settings {
        bs_max_deep: 3,
        deny_split_deep: 4,
        split_chance_dec: 0,
        split_max_coeff: 70,
        split_default_chance: 100,
        min_room_splittable_size: 1,
        coridor_width: 1,
    };
    for seed in seeds() {
        let mut rng: StdRng = SeedableRng::from_seed(&seed[..]);
        let nodes = build_tree(&cfg, 640, 480, &mut rng).unwrap();
        check_tree(&nodes, 640, 480);
        // every node above depth 4 is split, and no node below
        assert_eq!(nodes.len(), 31);
        for node in nodes.iter() {
            assert_eq!(node.childs.is_some(), node.deep < 4);
            assert_eq!(node.bounding_rect, None);
        }
    }
}

#[test]
fn breadth_first_order_keeps_depths_together() {
    let generator = BSPGenerator::default();
    for seed in seeds() {
        if let Ok((nodes, _)) = generator.layout(&seed, 2000, 2000) {
            for i in 1..nodes.len() {
                assert!(nodes[i - 1].deep <= nodes[i].deep);
            }
        }
    }
}

#[test]
fn every_node_is_closed_and_every_pair_is_linked() {
    let generator = BSPGenerator::default();
    let mut layouts = 0;
    for seed in seeds() {
        if let Ok((nodes, rooms)) = generator.layout(&seed, 1000, 800) {
            layouts += 1;
            for node in nodes.iter() {
                let rect = node.bounding_rect.unwrap();
                assert!(node.x <= rect[0] && rect[0] + rect[2] < node.x + node.width);
                assert!(node.y <= rect[1] && rect[1] + rect[3] < node.y + node.height);
                match node.childs {
                    None => assert!(rooms.contains(&as_room(rect))),
                    Some(c) => {
                        let first = nodes[c[0]].bounding_rect.unwrap();
                        let second = nodes[c[1]].bounding_rect.unwrap();
                        assert!(rect == first || rect == second);
                        assert!(linked(&rooms, first, second));
                    },
                }
            }
        }
    }
    assert!(layouts > 0);
}

#[test]
fn layout_and_generate_hand_out_the_same_rooms() {
    let mut generator = BSPGenerator::default();
    for seed in seeds() {
        let rooms = generator.generate(&seed, 1000, 800);
        match generator.layout(&seed, 1000, 800) {
            Ok((_, list)) => assert_eq!(rooms, Ok(list)),
            Err(e) => assert_eq!(rooms, Err(e)),
        }
    }
}

#[test]
fn no_split_gives_one_room() {
    let mut generator = BSPGenerator::default().split_default_chance(0);
    for seed in seeds() {
        for (w, h) in [(1000u32, 800u32), (3, 3), (151, 20), (20, 151), (4000000000, 4000000000)] {
            let rooms = generator.generate(&seed, w, h).unwrap();
            assert_eq!(rooms.len(), 1);
            let room = rooms[0];
            assert_eq!(room.room_type, RoomType::BasicRoom);
            assert!(room.width > 0 && room.height > 0);
            assert!(room.x as u64 + (room.width as u64) < w as u64);
            assert!(room.y as u64 + (room.height as u64) < h as u64);
        }
    }
}

#[test]
fn the_only_room_of_a_three_by_three_area() {
    let mut generator = BSPGenerator::default().split_default_chance(0);
    let rooms = generator.generate(&[5], 3, 3).unwrap();
    assert_eq!(rooms.len(), 1);
    assert_eq!((rooms[0].width, rooms[0].height), (1, 1));
    assert!(rooms[0].x < 2 && rooms[0].y < 2);
}

#[test]
fn forced_single_split_gives_two_rooms_and_a_corridor() {
    let mut generator = BSPGenerator::default()
        .split_default_chance(100)
        .deny_split_deep(1)
        .bs_max_deep(0)
        .min_room_splittable_size(10);
    for seed in seeds() {
        let rooms = generator.generate(&seed, 200, 200).unwrap();
        assert!(rooms.len() == 3 || rooms.len() == 4);
        assert_eq!(rooms[0].room_type, RoomType::BasicRoom);
        assert_eq!(rooms[1].room_type, RoomType::BasicRoom);
        for k in 2..rooms.len() {
            assert_eq!(rooms[k].room_type, RoomType::Coridor);
        }
        assert!(!overlap(&rooms[0], &rooms[1]));
        assert!(linked(&rooms, [rooms[0].x, rooms[0].y, rooms[0].width, rooms[0].height], [
            rooms[1].x,
            rooms[1].y,
            rooms[1].width,
            rooms[1].height
        ]));
        // rooms this large always have rows or columns in common
        assert_eq!(rooms.len(), 3);
        assert!(rooms[2].width == 15 || rooms[2].height == 15);
    }
}

#[test]
fn forced_single_split_has_three_nodes() {
    let generator = BSPGenerator::default()
        .split_default_chance(100)
        .deny_split_deep(1)
        .bs_max_deep(0)
        .min_room_splittable_size(10);
    for seed in seeds() {
        let (nodes, rooms) = generator.layout(&seed, 200, 200).unwrap();
        assert_eq!(nodes.len(), 3);
        assert_eq!(nodes[0].childs, Some([1, 2]));
        check_tree(&nodes, 200, 200);
        assert_eq!(nodes[1].bounding_rect.map(as_room), Some(rooms[0]));
        assert_eq!(nodes[2].bounding_rect.map(as_room), Some(rooms[1]));
        let merged = nodes[0].bounding_rect.map(as_room).unwrap();
        assert!(merged == rooms[0] || merged == rooms[1]);
    }
}

#[test]
fn stopping_depth_leaves_rooms_on_every_leaf() {
    // nodes of depth 2 end the splitting; all four of them get a room
    let generator = BSPGenerator::default()
        .split_default_chance(100)
        .deny_split_deep(2)
        .bs_max_deep(1)
        .min_room_splittable_size(10);
    for seed in seeds() {
        if let Ok((nodes, rooms)) = generator.layout(&seed, 2000, 2000) {
            assert_eq!(nodes.len(), 7);
            let basic = rooms.iter().filter(|r| r.room_type == RoomType::BasicRoom).count();
            assert_eq!(basic, 4);
        }
    }
}

#[test]
fn a_split_coefficient_out_of_range_is_refused() {
    for coeff in [0u32, 1, 50, 101, 1000, u32::MAX] {
        let mut generator = BSPGenerator::default().split_max_coeff(coeff);
        assert_eq!(generator.generate(&[1], 1000, 1000), Err(GenerateError::SplitCoefficient));
    }
    for coeff in [51u32, 70, 100] {
        let mut generator = BSPGenerator::default().split_max_coeff(coeff).split_default_chance(0);
        assert!(generator.generate(&[1], 1000, 1000).is_ok());
    }
}

#[test]
fn an_empty_area_is_refused() {
    let mut generator = BSPGenerator::default();
    assert_eq!(generator.generate(&[1], 0, 100), Err(GenerateError::EmptyArea));
    assert_eq!(generator.generate(&[1], 100, 0), Err(GenerateError::EmptyArea));
    assert_eq!(generator.generate(&[1], 0, 0), Err(GenerateError::EmptyArea));
}

#[test]
fn a_splittable_size_of_zero_is_refused() {
    let mut generator = BSPGenerator::default().min_room_splittable_size(0);
    assert_eq!(generator.generate(&[1], 100, 100), Err(GenerateError::ZeroSplittableSize));
}

#[test]
fn an_area_too_small_for_a_room_fails() {
    let mut generator = BSPGenerator::default().split_default_chance(0);
    for (w, h) in [(1u32, 1u32), (2, 2), (2, 1000), (1000, 2), (1, 3)] {
        assert_eq!(generator.generate(&[1], w, h), Err(GenerateError::SubdungeonTooSmall));
    }
}

#[test]
fn leaves_too_small_for_a_room_fail() {
    // every node down to depth 8 is split; no leaf of a 16 x 16 area is left
    // with three units each way
    let mut generator = BSPGenerator::default()
        .deny_split_deep(9)
        .bs_max_deep(8)
        .min_room_splittable_size(1);
    for seed in seeds() {
        assert_eq!(generator.generate(&seed, 16, 16), Err(GenerateError::SubdungeonTooSmall));
    }
}

#[test]
fn a_late_decay_does_not_lift_the_stop() {
    let generator = BSPGenerator::default()
        .deny_split_deep(10)
        .bs_max_deep(0)
        .min_room_splittable_size(10);
    for seed in seeds() {
        let (nodes, _) = generator.layout(&seed, 2000, 2000).unwrap();
        assert_eq!(nodes.len(), 3);
    }
}

#[test]
fn the_room_of_seed_one_two_three() {
    let mut generator = BSPGenerator::default().split_default_chance(0);
    assert_eq!(
        generator.generate(&[1, 2, 3], 1000, 1000),
        Ok(vec![Room { room_type: RoomType::BasicRoom, x: 103, y: 106, width: 779, height: 781 }])
    );
}

#[test]
fn the_pair_of_seed_one_two_three() {
    let mut generator = BSPGenerator::default()
        .split_default_chance(100)
        .deny_split_deep(1)
        .bs_max_deep(0)
        .min_room_splittable_size(10);
    assert_eq!(
        generator.generate(&[1, 2, 3], 200, 200),
        Ok(vec![
            Room { room_type: RoomType::BasicRoom, x: 32, y: 11, width: 60, height: 126 },
            Room { room_type: RoomType::BasicRoom, x: 114, y: 20, width: 58, height: 150 },
            Room { room_type: RoomType::Coridor, x: 92, y: 85, width: 22, height: 15 },
        ])
    );
}

#[test]
fn a_bent_corridor_of_seed_three() {
    let mut generator = BSPGenerator::default()
        .split_default_chance(100)
        .deny_split_deep(1)
        .bs_max_deep(0)
        .min_room_splittable_size(10)
        .coridor_width(30);
    assert_eq!(
        generator.generate(&[3], 60, 200),
        Ok(vec![
            Room { room_type: RoomType::BasicRoom, x: 19, y: 16, width: 35, height: 56 },
            Room { room_type: RoomType::BasicRoom, x: 4, y: 125, width: 39, height: 56 },
            Room { room_type: RoomType::Coridor, x: 13, y: 123, width: 12, height: 30 },
            Room { room_type: RoomType::Coridor, x: 25, y: 72, width: 30, height: 81 },
        ])
    );
}

#[test]
fn place_room_keeps_the_margins() {
    let node = SubDungeon::new(100, 200, 400, 60, 3, Some(1));
    for seed in seeds() {
        let mut rng: StdRng = SeedableRng::from_seed(&seed[..]);
        let room = place_room(&node, &mut rng).unwrap();
        assert!(200 <= room[2] && room[2] < 320);
        assert!(30 <= room[3] && room[3] < 48);
        assert!(120 <= room[0] && room[0] + room[2] + 20 < 500);
        assert!(203 <= room[1] && room[1] + room[3] + 3 < 260);
    }
}

#[test]
fn build_tree_refuses_settings_at_fault_without_a_draw() {
    let good = BSPGenerator::default().settings();
    let mut rng: StdRng = SeedableRng::from_seed(&[4usize][..]);
    let mut untouched: StdRng = SeedableRng::from_seed(&[4usize][..]);
    let coeff = Settings { split_max_coeff: 50, ..good };
    assert_eq!(build_tree(&coeff, 100, 100, &mut rng).err(), Some(GenerateError::SplitCoefficient));
    assert_eq!(build_tree(&good, 0, 100, &mut rng).err(), Some(GenerateError::EmptyArea));
    let size = Settings { min_room_splittable_size: 0, ..good };
    assert_eq!(build_tree(&size, 100, 100, &mut rng).err(), Some(GenerateError::ZeroSplittableSize));
    assert_eq!(rng.next_u64(), untouched.next_u64());
}

#[test]
fn place_room_refuses_a_leaf_off_the_grid() {
    let node = SubDungeon::new(u32::MAX - 5, 0, 100, 100, 0, None);
    let mut rng: StdRng = SeedableRng::from_seed(&[4usize][..]);
    assert_eq!(place_room(&node, &mut rng), None);
    let edge = SubDungeon::new(u32::MAX - 100, u32::MAX - 100, 100, 100, 0, None);
    let room = place_room(&edge, &mut rng).unwrap();
    assert!(room[0] as u64 + (room[2] as u64) < u32::MAX as u64);
    assert!(room[1] as u64 + (room[3] as u64) < u32::MAX as u64);
}

#[test]
fn place_room_refuses_a_small_leaf_without_a_draw() {
    let node = SubDungeon::new(0, 0, 2, 500, 0, None);
    let mut rng: StdRng = SeedableRng::from_seed(&[9usize, 9][..]);
    let mut untouched: StdRng = SeedableRng::from_seed(&[9usize, 9][..]);
    assert_eq!(place_room(&node, &mut rng), None);
    assert_eq!(rng.next_u64(), untouched.next_u64());
}

#[test]
fn a_corridor_of_width_zero_fails() {
    let mut generator = BSPGenerator::default()
        .split_default_chance(100)
        .deny_split_deep(1)
        .bs_max_deep(0)
        .min_room_splittable_size(10)
        .coridor_width(0);
    for seed in seeds() {
        assert_eq!(generator.generate(&seed, 200, 200), Err(GenerateError::CorridorOutOfRange));
    }
    // without a split no corridor is asked for
    let mut single = BSPGenerator::default().split_default_chance(0).coridor_width(0);
    assert!(single.generate(&[1], 200, 200).is_ok());
}

#[test]
fn generate_leaves_the_settings_alone() {
    let mut generator = BSPGenerator::default().coridor_width(9);
    let before = generator.settings();
    let _ = generator.generate(&[3, 1], 1000, 1000);
    assert_eq!(generator.settings(), before);
}

#[test]
fn an_area_within_the_splittable_size_is_not_split() {
    // the chance of a split is 100 percent, but 150 does not exceed 150
    let generator = BSPGenerator::default();
    for seed in seeds() {
        let (nodes, rooms) = generator.layout(&seed, 150, 150).unwrap();
        assert_eq!(nodes.len(), 1);
        assert_eq!(rooms.len(), 1);
        let (wide, _) = generator.layout(&seed, 151, 150).unwrap();
        assert!(wide.len() >= 3);
    }
}

#[test]
fn a_low_area_is_cut_along_x() {
    let generator = BSPGenerator::default().bs_max_deep(0);
    for seed in seeds() {
        let (nodes, _) = generator.layout(&seed, 1000, 100).unwrap();
        assert_eq!(nodes.len(), 3);
        assert_eq!((nodes[1].y, nodes[2].y), (0, 0));
        assert_eq!((nodes[1].height, nodes[2].height), (100, 100));
        assert_eq!(nodes[2].x, nodes[1].width);
        assert_eq!(nodes[1].width + nodes[2].width, 1000);
    }
}

#[test]
fn a_narrow_area_is_cut_along_y() {
    let generator = BSPGenerator::default().bs_max_deep(0);
    for seed in seeds() {
        let (nodes, _) = generator.layout(&seed, 100, 1000).unwrap();
        assert_eq!(nodes.len(), 3);
        assert_eq!((nodes[1].x, nodes[2].x), (0, 0));
        assert_eq!((nodes[1].width, nodes[2].width), (100, 100));
        assert_eq!(nodes[2].y, nodes[1].height);
        assert_eq!(nodes[1].height + nodes[2].height, 1000);
    }
}

#[test]
fn a_coin_picks_the_direction_of_a_large_area() {
    let generator = BSPGenerator::default().bs_max_deep(0);
    let mut along_x = 0;
    let mut along_y = 0;
    for seed in seeds() {
        let (nodes, _) = generator.layout(&seed, 1000, 1000).unwrap();
        if nodes[2].x > 0 {
            along_x += 1;
        } else {
            along_y += 1;
        }
    }
    assert!(along_x > 0 && along_y > 0);
}

#[test]
fn the_split_point_lies_in_the_coefficient_range() {
    let cfg = Settings {
        bs_max_deep: 3,
        deny_split_deep: 4,
        split_chance_dec: 0,
        split_max_coeff: 70,
        split_default_chance: 100,
        min_room_splittable_size: 1,
        coridor_width: 1,
    };
    for seed in seeds() {
        let mut rng: StdRng = SeedableRng::from_seed(&seed[..]);
        let nodes = build_tree(&cfg, 6400, 4800, &mut rng).unwrap();
        for node in nodes.iter() {
            if let Some(c) = node.childs {
                let first = &nodes[c[0]];
                if first.height == node.height && first.width != node.width {
                    assert!(node.width * 30 / 100 <= first.width);
                    assert!(first.width <= node.width * 69 / 100);
                } else {
                    assert!(node.height * 30 / 100 <= first.height);
                    assert!(first.height <= node.height * 69 / 100);
                }
            }
        }
    }
}

#[test]
fn a_chance_below_one_hundred_leaves_some_areas_whole() {
    let generator = BSPGenerator::default().split_default_chance(50).bs_max_deep(0);
    let mut whole = 0;
    let mut cut = 0;
    for seed in seeds() {
        let (nodes, _) = generator.layout(&seed, 1000, 1000).unwrap();
        if nodes.len() == 1 {
            whole += 1;
        } else {
            assert_eq!(nodes.len(), 3);
            cut += 1;
        }
    }
    assert!(whole > 0 && cut > 0);
}

fn rooms_from<G: DungeonGenerator>(generator: &mut G, seed: &[usize]) -> usize {
    match generator.generate(seed, 1000, 800) {
        Ok(rooms) => rooms.len(),
        Err(_) => 0,
    }
}

#[test]
fn any_generator_is_used_through_the_trait() {
    let mut generator = BSPGenerator::default().split_default_chance(0);
    assert_eq!(rooms_from(&mut generator, &[1, 2, 3]), 1);
    let mut pair = BSPGenerator::default().bs_max_deep(0);
    assert_eq!(rooms_from(&mut pair, &[1, 2, 3]), 3);
}

#[test]
fn items_are_found_at_the_root_of_the_crate() {
    let mut generator = dungeon_generator::BSPGenerator::default().split_default_chance(0);
    let rooms: Result<Vec<dungeon_generator::Room>, dungeon_generator::GenerateError> =
        dungeon_generator::DungeonGenerator::generate(&mut generator, &[1, 2, 3], 1000, 1000);
    let rect: dungeon_generator::Rectangle = [103, 106, 779, 781];
    assert_eq!(
        rooms,
        Ok(vec![dungeon_generator::Room::new(dungeon_generator::RoomType::BasicRoom, rect)])
    );
    let node = dungeon_generator::SubDungeon::new(0, 0, 1, 1, 0, None);
    assert_eq!(node.deep, 0);
    let settings: dungeon_generator::Settings = generator.settings();
    assert_eq!(settings.split_default_chance, 0);
}
