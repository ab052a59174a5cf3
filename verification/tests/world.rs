use sideworld::camera::Camera;
use sideworld::common::{Vec2, AABB};
use sideworld::components::{CameraAction, PlayerAction, World};
use sideworld::fixed::Fixed;
use sideworld::platforms::MoverBlock;
use sideworld::registry::{copy_list, map_keys, set_members};
use sideworld::systems::create_world;
use std::collections::{HashMap, HashSet};

fn v(x: i64, y: i64) -> Vec2 {
    Vec2::from_raw(x, y)
}

#[test]
fn a_new_world_is_empty_and_alive() {
    let w = World::new();
    assert!(w.alive);
    assert!(w.simulate);
    assert!(w.entities.is_empty());
    assert!(w.positions.is_empty());
    assert!(w.collisions.is_empty());
    assert!(w.velocities.is_empty());
    assert!(w.groundables.is_empty());
    assert!(w.cameras.is_empty());
    assert!(w.mover_blocks.is_empty());
    assert!(w.player_actions.is_empty());
    assert!(w.camera_actions.is_empty());
    assert!(w.statics_collisions.is_empty());
    assert_eq!(w.next, 1);
    assert_eq!((w.current_camera, w.current_player, w.current_tilemap), (0, 0, 0));
    assert!(w.has_room());
}

#[test]
fn ids_are_handed_out_in_rising_order() {
    let mut w = World::new();
    assert_eq!(w.new_entity(), 1);
    assert_eq!(w.new_entity(), 2);
    assert_eq!(w.new_player(), 3);
    assert_eq!(w.next, 4);
    assert_eq!(w.entities.len(), 3);
    assert!(w.entities.contains(&1) && w.entities.contains(&2) && w.entities.contains(&3));
}

#[test]
fn a_full_world_has_no_room() {
    let mut w = World::new();
    w.next = usize::MAX;
    assert!(!w.has_room());
    w.next = usize::MAX - 1;
    assert!(w.has_room());
    assert_eq!(w.new_entity(), usize::MAX - 1);
    assert!(!w.has_room());
}

#[test]
fn a_new_player_has_its_components() {
    let mut w = World::new();
    let id = w.new_player();
    assert_eq!(w.positions[&id], v(8_000_000, 4_000_000));
    assert_eq!(w.collisions[&id], AABB::new(v(0, 0), v(1_000_000, 2_000_000)));
    assert_eq!(w.velocities[&id], v(0, 0));
    assert_eq!(w.groundables[&id], false);
    assert_eq!(w.player_actions[&id], Vec::<PlayerAction>::new());
    assert!(!w.cameras.contains_key(&id));
    assert!(!w.mover_blocks.contains_key(&id));
}

#[test]
fn a_new_camera_has_its_components() {
    let mut w = World::new();
    let id = w.new_camera(Fixed::from_units(20), v(1, 2), v(640_000_000, 480_000_000));
    let cam = w.cameras[&id];
    assert_eq!(cam.fovy.raw, 20_000_000);
    assert_eq!(cam.pos, v(1, 2));
    assert_eq!(cam.screen_height.raw, 480_000_000);
    // 640 / 480 = 1.333333...
    assert_eq!(cam.ratio.raw, 1_333_333);
    assert_eq!(w.camera_actions[&id], Vec::<CameraAction>::new());
    assert!(!w.positions.contains_key(&id));
    assert_eq!(cam, Camera::new(Fixed::from_units(20), v(1, 2), v(640_000_000, 480_000_000)));
}

#[test]
fn a_world_with_a_camera_makes_it_current() {
    let w = World::new_with_camera(Fixed::from_units(20), v(640_000_000, 480_000_000));
    assert_eq!(w.current_camera, 1);
    assert_eq!(w.cameras[&1].pos, v(0, 0));
    assert_eq!(w.cameras[&1].fovy.raw, 20_000_000);
    assert_eq!(w.next, 2);
}

#[test]
fn a_new_background_stands_at_the_origin() {
    let mut w = World::new();
    let (id, picture) = w.new_background(v(16_000_000, 12_000_000), v(32_000_000, 24_000_000));
    assert_eq!(w.positions[&id], v(0, 0));
    assert_eq!(picture, AABB::new(v(16_000_000, 12_000_000), v(16_000_000, 12_000_000)));
    assert!(!w.collisions.contains_key(&id));
}

#[test]
fn a_new_mover_block_starts_at_its_start() {
    let mut w = World::new();
    let id = w.new_mover_block(v(0, 10_000_000), v(20_000_000, 10_000_000), Fixed::from_units(4));
    assert_eq!(
        w.mover_blocks[&id],
        MoverBlock { start: v(0, 10_000_000), end: v(20_000_000, 10_000_000), travel_time: Fixed::from_units(4) }
    );
    assert_eq!(w.positions[&id], v(0, 10_000_000));
    assert_eq!(w.collisions[&id], AABB::new(v(0, 0), v(4_000_000, 1_000_000)));
    assert!(!w.velocities.contains_key(&id));
}

#[test]
fn a_new_obstacle_is_half_its_size_each_way() {
    let mut w = World::new();
    let id = w.new_static_obstacle(v(3_000_000, 4_000_000), v(2_000_000, 5_000_001));
    assert_eq!(w.positions[&id], v(3_000_000, 4_000_000));
    assert_eq!(w.collisions[&id], AABB::new(v(0, 0), v(1_000_000, 2_500_000)));
    assert!(!w.velocities.contains_key(&id));
    assert!(!w.groundables.contains_key(&id));
}

#[test]
fn lookups_need_both_components() {
    let mut w = World::new();
    let player = w.new_player();
    let slab = w.new_static_obstacle(v(1, 2), v(4, 6));
    let bare = w.new_entity();
    assert_eq!(w.get_moving_entity(player), Some((&v(8_000_000, 4_000_000), &v(0, 0))));
    assert_eq!(w.get_moving_entity(slab), None);
    assert_eq!(w.get_moving_entity(bare), None);
    assert_eq!(w.get_moving_entity(1234), None);
    assert_eq!(
        w.get_collider_entity(player),
        Some((&v(8_000_000, 4_000_000), &AABB::new(v(0, 0), v(1_000_000, 2_000_000))))
    );
    assert_eq!(w.get_collider_entity(slab), Some((&v(1, 2), &AABB::new(v(0, 0), v(2, 3)))));
    assert_eq!(w.get_collider_entity(bare), None);
    w.velocities.insert(bare, v(1, 1));
    assert_eq!(w.get_moving_entity(bare), None);
}

#[test]
fn deleting_takes_every_component_but_the_schedule() {
    let mut w = World::new_with_camera(Fixed::from_units(20), v(640_000_000, 480_000_000));
    let cam = w.current_camera;
    let player = w.new_player();
    let block = w.new_mover_block(v(0, 0), v(1, 1), Fixed::from_units(1));
    w.delete_entity(player);
    assert!(!w.entities.contains(&player));
    assert!(!w.positions.contains_key(&player));
    assert!(!w.collisions.contains_key(&player));
    assert!(!w.velocities.contains_key(&player));
    assert!(!w.groundables.contains_key(&player));
    assert!(!w.player_actions.contains_key(&player));
    w.delete_entity(cam);
    assert!(!w.cameras.contains_key(&cam));
    assert!(!w.camera_actions.contains_key(&cam));
    w.delete_entity(block);
    assert!(!w.positions.contains_key(&block));
    assert!(w.mover_blocks.contains_key(&block));
    assert!(w.entities.is_empty());
    // ids are not handed out again
    assert_eq!(w.new_entity(), 4);
    // deleting what is not there changes nothing
    w.delete_entity(1000);
    assert_eq!(w.entities.len(), 1);
}

#[test]
fn a_created_world_has_a_player_and_the_first_block() {
    let w = create_world(None);
    assert_eq!(w.current_player, 1);
    assert_eq!(w.positions[&1], v(8_000_000, 4_000_000));
    assert_eq!(
        w.mover_blocks[&2],
        MoverBlock { start: v(0, 10_000_000), end: v(20_000_000, 10_000_000), travel_time: Fixed::from_units(4) }
    );
    assert_eq!(w.positions[&2], v(0, 10_000_000));
    assert_eq!(w.next, 3);
}

#[test]
fn a_loaded_world_is_kept_and_added_to() {
    let mut loaded = World::new_with_camera(Fixed::from_units(20), v(640_000_000, 480_000_000));
    let slab = loaded.new_static_obstacle(v(1, 2), v(4, 6));
    let w = create_world(Some(loaded));
    assert_eq!(w.current_camera, 1);
    assert!(w.collisions.contains_key(&slab));
    assert_eq!(w.current_player, 3);
    assert!(w.mover_blocks.contains_key(&4));
}

#[test]
fn keys_and_members_are_listed_once_each() {
    let mut set = HashSet::new();
    let mut map = HashMap::new();
    for k in [5usize, 1, 9, 3] {
        set.insert(k);
        map.insert(k, k * 2);
    }
    let mut members = set_members(&set);
    members.sort();
    assert_eq!(members, vec![1, 3, 5, 9]);
    let mut keys = map_keys(&map);
    keys.sort();
    assert_eq!(keys, vec![1, 3, 5, 9]);
    assert_eq!(set_members(&HashSet::new()), Vec::<usize>::new());
    assert_eq!(copy_list(&vec![3, 1, 2]), vec![3, 1, 2]);
}
