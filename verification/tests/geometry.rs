use dungeon_generator::corridor::{
    coridor_hor_passage, coridor_hor_range, coridor_vert_passage, coridor_vert_range, mirrored,
    mirrored_room, Passage,
};
use dungeon_generator::partition::{cut_at, split, split_chance, stops, SubDungeon};
use dungeon_generator::placement::{room_origin_range, room_size_range};
use dungeon_generator::room::{GenerateError, Room, RoomType};
use dungeon_generator::settings::Settings;

fn defaults() -> Settings {
    Settings {
        bs_max_deep: 5,
        deny_split_deep: 3,
        split_chance_dec: 30,
        split_max_coeff: 70,
        split_default_chance: 100,
        min_room_splittable_size: 150,
        coridor_width: 15,
    }
}

fn coridor(x: u32, y: u32, width: u32, height: u32) -> Room {
    Room { room_type: RoomType::Coridor, x, y, width, height }
}

#[test]
fn room_new_takes_the_four_numbers_in_order() {
    let room = Room::new(RoomType::BasicRoom, [1, 2, 3, 4]);
    assert_eq!(room.room_type, RoomType::BasicRoom);
    assert_eq!((room.x, room.y, room.width, room.height), (1, 2, 3, 4));
    let other = Room::new(RoomType::Cave, [9, 8, 7, 6]);
    assert_eq!(other, Room { room_type: RoomType::Cave, x: 9, y: 8, width: 7, height: 6 });
}

#[test]
fn subdungeon_new_is_an_open_leaf() {
    let node = SubDungeon::new(3, 4, 50, 60, 2, Some(7));
    assert_eq!((node.x, node.y, node.width, node.height, node.deep), (3, 4, 50, 60, 2));
    assert_eq!(node.parent, Some(7));
    assert_eq!(node.childs, None);
    assert_eq!(node.bounding_rect, None);
}

#[test]
fn split_chance_decays_from_deny_split_deep() {
    let cfg = defaults();
    assert_eq!(split_chance(&cfg, 0), 100);
    assert_eq!(split_chance(&cfg, 2), 100);
    assert_eq!(split_chance(&cfg, 3), 70);
    assert_eq!(split_chance(&cfg, 4), 40);
    assert_eq!(split_chance(&cfg, 5), 10);
    assert_eq!(split_chance(&cfg, 6), 0);
    assert_eq!(split_chance(&cfg, u32::MAX), 0);
}

#[test]
fn split_chance_never_goes_below_zero() {
    let mut cfg = defaults();
    cfg.split_default_chance = 50;
    cfg.split_chance_dec = 40;
    assert_eq!(split_chance(&cfg, 3), 10);
    assert_eq!(split_chance(&cfg, 4), 0);
    cfg.split_chance_dec = u32::MAX;
    cfg.deny_split_deep = 0;
    assert_eq!(split_chance(&cfg, u32::MAX), 0);
    cfg.split_chance_dec = 0;
    assert_eq!(split_chance(&cfg, u32::MAX), 50);
}

#[test]
fn builder_stops_past_bs_max_deep() {
    let mut cfg = defaults();
    assert!(!stops(&cfg, 0));
    assert!(!stops(&cfg, 5));
    assert!(stops(&cfg, 6));
    assert!(stops(&cfg, u32::MAX));
    cfg.deny_split_deep = 10;
    cfg.bs_max_deep = 0;
    assert!(!stops(&cfg, 0));
    assert!(stops(&cfg, 1));
    assert!(stops(&cfg, 10));
    cfg.bs_max_deep = u32::MAX;
    assert!(!stops(&cfg, u32::MAX - 1));
    assert!(stops(&cfg, u32::MAX));
}

#[test]
fn cut_at_rounds_down() {
    assert_eq!(cut_at(151, 30), 45);
    assert_eq!(cut_at(1000, 69), 690);
    assert_eq!(cut_at(3, 33), 0);
    assert_eq!(cut_at(u32::MAX, 100), 4294967295);
    assert_eq!(cut_at(u32::MAX, 50), 2147483647);
    assert_eq!(cut_at(0, 70), 0);
    assert_eq!(cut_at(10, 250), 25);
    assert_eq!(cut_at(u32::MAX, u32::MAX), 184467440651196170);
}

#[test]
fn split_along_x_puts_children_side_by_side() {
    let node = SubDungeon::new(10, 20, 100, 50, 2, None);
    let (first, second) = split(&node, 7, 40, true).unwrap();
    assert_eq!((first.x, first.y, first.width, first.height), (10, 20, 40, 50));
    assert_eq!((second.x, second.y, second.width, second.height), (50, 20, 60, 50));
    assert_eq!((first.deep, second.deep), (3, 3));
    assert_eq!((first.parent, second.parent), (Some(7), Some(7)));
    assert_eq!((first.childs, second.childs), (None, None));
}

#[test]
fn split_along_y_stacks_children() {
    let node = SubDungeon::new(10, 20, 100, 50, 0, None);
    let (first, second) = split(&node, 0, 40, false).unwrap();
    assert_eq!((first.x, first.y, first.width, first.height), (10, 20, 100, 20));
    assert_eq!((second.x, second.y, second.width, second.height), (10, 40, 100, 30));
}

#[test]
fn split_may_leave_an_empty_child() {
    let node = SubDungeon::new(0, 0, 3, 200, 0, None);
    let (first, second) = split(&node, 0, 30, true).unwrap();
    assert_eq!((first.x, first.width), (0, 0));
    assert_eq!((second.x, second.width), (0, 3));
}

#[test]
fn split_at_the_ends_of_the_scale() {
    let node = SubDungeon::new(5, 5, 40, 40, 0, None);
    let (first, second) = split(&node, 0, 0, true).unwrap();
    assert_eq!((first.x, first.width, second.x, second.width), (5, 0, 5, 40));
    let (first, second) = split(&node, 0, 100, false).unwrap();
    assert_eq!((first.y, first.height, second.y, second.height), (5, 40, 45, 0));
}

#[test]
fn split_refuses_what_cannot_be_cut() {
    let node = SubDungeon::new(10, 20, 100, 50, 2, None);
    assert!(split(&node, 7, 101, true).is_none());
    assert!(split(&node, 7, 100, true).is_some());
    let deepest = SubDungeon::new(10, 20, 100, 50, u32::MAX, None);
    assert!(split(&deepest, 7, 50, true).is_none());
    let off_grid = SubDungeon::new(u32::MAX, 0, 1, 50, 0, None);
    assert!(split(&off_grid, 7, 50, true).is_none());
    let low = SubDungeon::new(0, u32::MAX - 9, 10, 10, 0, None);
    assert!(split(&low, 7, 50, false).is_none());
    let edge = SubDungeon::new(u32::MAX - 10, u32::MAX - 10, 10, 10, 0, None);
    let (first, second) = split(&edge, 7, 50, true).unwrap();
    assert_eq!((first.width, second.x, second.width), (5, u32::MAX - 5, 5));
}

#[test]
fn room_sizes_run_from_a_half_to_four_fifths() {
    assert_eq!(room_size_range(100), (50, 80));
    assert_eq!(room_size_range(20), (10, 16));
    assert_eq!(room_size_range(3), (1, 2));
    assert_eq!(room_size_range(2), (1, 1));
    assert_eq!(room_size_range(1), (0, 0));
    assert_eq!(room_size_range(0), (0, 0));
    assert_eq!(room_size_range(u32::MAX), (2147483647, 3435973836));
}

#[test]
fn room_origin_keeps_a_twentieth_on_both_sides() {
    assert_eq!(room_origin_range(10, 100, 60), Some((15, 45)));
    assert_eq!(room_origin_range(0, 3, 1), Some((0, 2)));
    assert_eq!(room_origin_range(7, 19, 9), Some((7, 17)));
    assert_eq!(room_origin_range(u32::MAX - 100, 100, 60), Some((u32::MAX - 95, u32::MAX - 65)));
}

#[test]
fn room_origin_has_no_range_for_a_room_too_large() {
    assert_eq!(room_origin_range(10, 100, 90), None);
    assert_eq!(room_origin_range(10, 100, 89), Some((15, 16)));
    assert_eq!(room_origin_range(10, 100, 200), None);
    assert_eq!(room_origin_range(0, 0, 0), None);
    assert_eq!(room_origin_range(u32::MAX, 100, 60), None);
}

#[test]
fn straight_vertical_corridor() {
    let a = [10, 10, 50, 20];
    let b = [20, 60, 50, 20];
    assert_eq!(coridor_vert_range(a, b, 5), Some((20, 55)));
    assert_eq!(
        coridor_vert_passage(a, b, 5, 30),
        Some(Passage { run: coridor(30, 30, 5, 30), bend: None })
    );
    assert_eq!(
        coridor_vert_passage(a, b, 5, 54),
        Some(Passage { run: coridor(54, 30, 5, 30), bend: None })
    );
}

#[test]
fn vertical_corridor_needs_a_column_from_the_range() {
    let a = [10, 10, 50, 20];
    let b = [20, 60, 50, 20];
    assert_eq!(coridor_vert_passage(a, b, 5, 19), None);
    assert_eq!(coridor_vert_passage(a, b, 5, 55), None);
}

#[test]
fn bent_corridor_to_the_right() {
    let a = [0, 0, 10, 10];
    let b = [20, 30, 10, 10];
    assert_eq!(coridor_vert_range(a, b, 2), Some((0, 10)));
    assert_eq!(
        coridor_vert_passage(a, b, 2, 5),
        Some(Passage { run: coridor(5, 10, 2, 25), bend: Some(coridor(5, 33, 15, 2)) })
    );
}

#[test]
fn bent_corridor_to_the_left() {
    let a = [30, 0, 10, 10];
    let b = [0, 30, 10, 10];
    assert_eq!(coridor_vert_range(a, b, 2), Some((30, 40)));
    assert_eq!(
        coridor_vert_passage(a, b, 2, 35),
        Some(Passage { run: coridor(35, 10, 2, 25), bend: Some(coridor(8, 33, 27, 2)) })
    );
}

#[test]
fn bent_corridor_under_a_wide_corridor_width() {
    let a = [0, 0, 10, 10];
    let b = [5, 30, 15, 10];
    assert_eq!(coridor_vert_range(a, b, 15), Some((0, 10)));
    assert_eq!(
        coridor_vert_passage(a, b, 15, 3),
        Some(Passage { run: coridor(3, 10, 15, 25), bend: Some(coridor(3, 20, 2, 15)) })
    );
    // the run would stand at or behind the left edge of the second rectangle
    assert_eq!(coridor_vert_passage(a, b, 15, 5), None);
    assert_eq!(coridor_vert_passage(a, b, 15, 7), None);
}

#[test]
fn no_corridor_of_width_zero() {
    let a = [10, 10, 50, 20];
    let b = [20, 60, 50, 20];
    assert_eq!(coridor_vert_range(a, b, 0), Some((20, 60)));
    assert_eq!(coridor_vert_passage(a, b, 0, 30), None);
}

#[test]
fn no_corridor_unless_the_second_starts_below_the_first() {
    assert_eq!(coridor_vert_passage([0, 0, 10, 10], [0, 10, 10, 10], 2, 3), None);
    assert_eq!(coridor_vert_passage([0, 0, 10, 10], [0, 5, 10, 10], 2, 3), None);
    assert_eq!(
        coridor_vert_passage([0, 0, 10, 10], [0, 11, 10, 10], 2, 3),
        Some(Passage { run: coridor(3, 10, 2, 1), bend: None })
    );
}

#[test]
fn no_bend_above_the_grid() {
    // the bend would start two rows above row 0
    let a = [0, 0, 4, 1];
    let b = [10, 2, 4, 2];
    assert_eq!(coridor_vert_range(a, b, 5), Some((0, 4)));
    assert_eq!(coridor_vert_passage(a, b, 5, 1), None);
}

#[test]
fn no_range_for_an_empty_first_rectangle() {
    assert_eq!(coridor_vert_range([5, 0, 0, 10], [50, 30, 10, 10], 2), None);
    assert_eq!(coridor_vert_range([u32::MAX, 0, 5, 10], [0, 30, 10, 10], 2), None);
}

#[test]
fn horizontal_corridor_mirrors_the_vertical_one() {
    let a = [10, 10, 20, 50];
    let b = [60, 20, 20, 50];
    assert_eq!(coridor_hor_range(a, b, 5), Some((20, 55)));
    assert_eq!(
        coridor_hor_passage(a, b, 5, 30),
        Some(Passage { run: coridor(30, 30, 30, 5), bend: None })
    );
    let c = [0, 0, 10, 10];
    let d = [30, 20, 10, 10];
    assert_eq!(coridor_hor_range(c, d, 2), Some((0, 10)));
    assert_eq!(
        coridor_hor_passage(c, d, 2, 5),
        Some(Passage { run: coridor(10, 5, 25, 2), bend: Some(coridor(33, 5, 2, 15)) })
    );
}

#[test]
fn mirror_exchanges_the_axes() {
    assert_eq!(mirrored([1, 2, 3, 4]), [2, 1, 4, 3]);
    assert_eq!(
        mirrored_room(Room { room_type: RoomType::Coridor, x: 1, y: 2, width: 3, height: 4 }),
        Room { room_type: RoomType::Coridor, x: 2, y: 1, width: 4, height: 3 }
    );
}

#[test]
fn settings_are_checked_in_order() {
    let mut cfg = defaults();
    assert_eq!(cfg.check(100, 100), None);
    assert_eq!(cfg.check(0, 100), Some(GenerateError::EmptyArea));
    assert_eq!(cfg.check(100, 0), Some(GenerateError::EmptyArea));
    cfg.min_room_splittable_size = 0;
    assert_eq!(cfg.check(100, 100), Some(GenerateError::ZeroSplittableSize));
    assert_eq!(cfg.check(0, 100), Some(GenerateError::EmptyArea));
    cfg.split_max_coeff = 50;
    assert_eq!(cfg.check(0, 100), Some(GenerateError::SplitCoefficient));
    cfg.split_max_coeff = 101;
    assert_eq!(cfg.check(100, 100), Some(GenerateError::SplitCoefficient));
    cfg.split_max_coeff = 100;
    cfg.min_room_splittable_size = 1;
    assert_eq!(cfg.check(1, 1), None);
    cfg.split_max_coeff = 51;
    assert_eq!(cfg.check(1, 1), None);
}

#[test]
fn every_error_has_its_message() {
    assert_eq!(
        GenerateError::SplitCoefficient.message(),
        "split_max_coeff must lie between 51 and 100"
    );
    assert_eq!(GenerateError::EmptyArea.message(), "width and height must not be zero");
    assert_eq!(
        GenerateError::ZeroSplittableSize.message(),
        "min_room_splittable_size must not be zero"
    );
    assert_eq!(
        GenerateError::SubdungeonTooSmall.message(),
        "a subdungeon is too small to hold a room"
    );
    assert_eq!(
        GenerateError::CorridorOutOfRange.message(),
        "a corridor does not fit between two rooms"
    );
}
