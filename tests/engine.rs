use sprite_ecs::components::{pack_rgb, Position, RenderTarget, Sprite, TimeResources, WobbleMove};
use sprite_ecs::compositor::draw_sprite;
use sprite_ecs::entity::{Entity, MissingComponent};
use sprite_ecs::search::{FindEntityWithComponent, FindEntityWithComponentMut};
use sprite_ecs::systems::{
    check_frame, check_render_target, run_frame,
    sys_clear_render_target, sys_draw_sprites, sys_time_resources, sys_wobble_move,
    wobble_position_x, FrameError, BACKGROUND, SINE_ONE,
};

fn target(width: u32, height: u32) -> Sprite {
    Sprite::filled(width, height, 0, 0, BACKGROUND).unwrap()
}

fn render_target_entity(width: u32, height: u32) -> Entity {
    let mut e = Entity::new();
    e.add_component(RenderTarget);
    e.add_component(target(width, height));
    e
}

fn timing(start: u64) -> TimeResources {
    TimeResources {
        start_time_instant: start,
        last_frame_instant: start,
        this_frame_instant: start,
        delta_time: 0,
        total_time: 0,
    }
}

#[test]
fn add_then_get_returns_value() {
    let mut e = Entity::new();
    assert!(!e.has_component::<Position>());
    e.add_component(Position { x: 3, y: -4 });
    assert!(e.has_component::<Position>());
    assert_eq!(e.get_component::<Position>(), Some(&Position { x: 3, y: -4 }));
    assert!(!e.has_component::<WobbleMove>());
}

#[test]
fn add_overwrites_previous_value() {
    let mut e = Entity::new();
    e.add_component(WobbleMove { amplitude: 1 });
    e.add_component(WobbleMove { amplitude: 7 });
    assert_eq!(e.get_component::<WobbleMove>(), Some(&WobbleMove { amplitude: 7 }));
}

#[test]
fn get_mut_changes_stored_value() {
    let mut e = Entity::new();
    e.add_component(Position { x: 0, y: 0 });
    if let Some(p) = e.get_component_mut::<Position>() {
        p.x = 9;
    }
    assert_eq!(e.get_component::<Position>(), Some(&Position { x: 9, y: 0 }));
    assert!(e.get_component_mut::<TimeResources>().is_none());
}

#[test]
fn remove_then_absent() {
    let mut e = Entity::new();
    e.add_component(Position { x: 1, y: 2 });
    e.add_component(RenderTarget);
    assert_eq!(e.remove_component::<Position>(), Ok(Position { x: 1, y: 2 }));
    assert!(!e.has_component::<Position>());
    assert!(e.get_component::<Position>().is_none());
    assert!(e.has_component::<RenderTarget>());
}

#[test]
fn remove_missing_fails_and_keeps_entity() {
    let mut e = Entity::new();
    e.add_component(Position { x: 1, y: 2 });
    assert_eq!(e.remove_component::<WobbleMove>(), Err(MissingComponent));
    assert_eq!(e.get_component::<Position>(), Some(&Position { x: 1, y: 2 }));
    assert!(!e.has_component::<WobbleMove>());
}

#[test]
fn find_returns_first_match() {
    let mut a = Entity::new();
    a.add_component(Position { x: 1, y: 1 });
    let mut b = Entity::new();
    b.add_component(RenderTarget);
    b.add_component(Position { x: 2, y: 2 });
    let mut c = Entity::new();
    c.add_component(RenderTarget);
    c.add_component(Position { x: 3, y: 3 });
    let mut v = vec![a, b, c];
    let found = v.find_entity_with_component::<RenderTarget>().unwrap();
    assert_eq!(found.get_component::<Position>(), Some(&Position { x: 2, y: 2 }));
    assert!(v.find_entity_with_component::<WobbleMove>().is_none());
    let m = v.find_entity_with_component_mut::<RenderTarget>().unwrap();
    m.add_component(WobbleMove { amplitude: 5 });
    assert!(v[1].has_component::<WobbleMove>());
    assert!(!v[2].has_component::<WobbleMove>());
    assert!(v.find_entity_with_component_mut::<TimeResources>().is_none());
}

#[test]
fn fully_offscreen_sprite_is_culled() {
    let mut t = target(320, 180);
    let before = t.data.clone();
    let s = Sprite::filled(10, 10, 0, 0, 0xFFFF_FFFF).unwrap();
    draw_sprite(&mut t, &Position { x: -20, y: -20 }, &s);
    assert_eq!(t.data, before);
}

#[test]
fn partial_overlap_writes_only_in_bounds_pixels() {
    let mut t = target(320, 180);
    let s = Sprite::filled(4, 4, 0, 0, 0xFFFF_FFFF).unwrap();
    draw_sprite(&mut t, &Position { x: 318, y: 178 }, &s);
    for y in 0..180usize {
        for x in 0..320usize {
            let v = t.data[y * 320 + x];
            if x >= 318 && y >= 178 {
                assert_eq!(v, 0xFFFF_FFFF);
            } else {
                assert_eq!(v, BACKGROUND);
            }
        }
    }
}

#[test]
fn draw_respects_anchor_and_copies_alpha_verbatim() {
    let mut t = Sprite::filled(4, 3, 0, 0, 0).unwrap();
    let s = Sprite::from_pixels(vec![0x0102_0304, 0x0506_0708], 2, 1, 1, 0).unwrap();
    draw_sprite(&mut t, &Position { x: 2, y: 1 }, &s);
    assert_eq!(t.data, vec![0, 0, 0, 0, 0, 0x0102_0304, 0x0506_0708, 0, 0, 0, 0, 0]);
}

#[test]
fn draw_twice_equals_draw_once() {
    let s = Sprite::from_pixels(vec![1, 2, 3, 4, 5, 6], 3, 2, 1, 1).unwrap();
    let mut once = target(5, 4);
    draw_sprite(&mut once, &Position { x: 4, y: 0 }, &s);
    let mut twice = target(5, 4);
    draw_sprite(&mut twice, &Position { x: 4, y: 0 }, &s);
    draw_sprite(&mut twice, &Position { x: 4, y: 0 }, &s);
    assert_eq!(once.data, twice.data);
    assert_eq!(once.data[4], 5);
}

#[test]
fn malformed_sprite_draws_nothing() {
    let mut t = target(2, 2);
    let s = Sprite { data: vec![7], width: 2, height: 2, anchor_x: 0, anchor_y: 0 };
    draw_sprite(&mut t, &Position { x: 0, y: 0 }, &s);
    assert_eq!(t.data, vec![BACKGROUND; 4]);
    assert!(!s.is_well_formed());
}

#[test]
fn wobble_at_time_zero_is_centered() {
    assert_eq!(wobble_position_x(320, 160, 0), 160);
    let mut e = Entity::new();
    e.add_component(Position { x: 320, y: 90 });
    e.add_component(WobbleMove { amplitude: 160 });
    let mut v = vec![render_target_entity(320, 180), e];
    sys_wobble_move(&mut v, 0);
    assert_eq!(v[1].get_component::<Position>(), Some(&Position { x: 160, y: 90 }));
}

#[test]
fn wobble_offset_rounds_half_away_from_zero() {
    assert_eq!(wobble_position_x(320, 160, SINE_ONE), 320);
    assert_eq!(wobble_position_x(320, 160, -SINE_ONE), 0);
    assert_eq!(wobble_position_x(100, 1, SINE_ONE / 2), 51);
    assert_eq!(wobble_position_x(100, 1, -SINE_ONE / 2), 49);
    assert_eq!(wobble_position_x(100, 3, 100_000), 50);
    assert_eq!(wobble_position_x(u32::MAX, i32::MAX, SINE_ONE), i32::MAX);
}

#[test]
fn wobble_skips_entities_without_position() {
    let mut e = Entity::new();
    e.add_component(WobbleMove { amplitude: 10 });
    let mut still = Entity::new();
    still.add_component(Position { x: 5, y: 5 });
    let mut v = vec![render_target_entity(20, 10), e, still];
    sys_wobble_move(&mut v, SINE_ONE);
    assert!(!v[1].has_component::<Position>());
    assert_eq!(v[2].get_component::<Position>(), Some(&Position { x: 5, y: 5 }));
}

#[test]
fn check_reports_missing_render_target() {
    let v = vec![Entity::new()];
    assert_eq!(check_render_target(&v), Some(FrameError::NoRenderTarget));
    let mut bare = Entity::new();
    bare.add_component(RenderTarget);
    let w = vec![Entity::new(), bare, render_target_entity(2, 2)];
    assert_eq!(check_render_target(&w), Some(FrameError::RenderTargetWithoutSprite));
    let ok = vec![Entity::new(), render_target_entity(2, 2)];
    assert_eq!(check_render_target(&ok), None);
}

#[test]
fn clear_sets_background() {
    let mut rt = Entity::new();
    rt.add_component(RenderTarget);
    rt.add_component(Sprite::filled(3, 2, 0, 0, 0x1234).unwrap());
    let mut v = vec![rt];
    sys_clear_render_target(&mut v);
    let s = v[0].get_component::<Sprite>().unwrap();
    assert_eq!(s.data, vec![0xFF00_0000; 6]);
    assert_eq!((s.width, s.height), (3, 2));
}

#[test]
fn check_frame_reports_errors_in_step_order() {
    let mut resources = Entity::new();
    let none = vec![Entity::new()];
    assert_eq!(check_frame(&resources, &none), Some(FrameError::NoRenderTarget));
    let v = vec![render_target_entity(2, 1)];
    assert_eq!(check_frame(&resources, &v), Some(FrameError::MissingTimeResources));
    resources.add_component(timing(0));
    assert_eq!(check_frame(&resources, &v), None);
    assert_eq!(check_frame(&resources, &none), Some(FrameError::NoRenderTarget));
}

#[test]
fn timing_advances_monotonically() {
    let mut r = Entity::new();
    r.add_component(timing(100));
    sys_time_resources(&mut r, 150);
    let t1 = *r.get_component::<TimeResources>().unwrap();
    assert_eq!(t1.this_frame_instant, 150);
    assert_eq!(t1.last_frame_instant, 100);
    assert_eq!(t1.delta_time, 50);
    assert_eq!(t1.total_time, 50);
    sys_time_resources(&mut r, 170);
    let t2 = *r.get_component::<TimeResources>().unwrap();
    assert!(t2.this_frame_instant >= t1.this_frame_instant);
    assert_eq!(t2.last_frame_instant, 150);
    assert_eq!(t2.delta_time, 20);
    assert_eq!(t2.total_time, 70);
    assert_eq!(t2.start_time_instant, 100);
}

#[test]
fn draw_composites_in_order_and_keeps_target_sprite() {
    let mut a = Entity::new();
    a.add_component(Sprite::filled(2, 2, 0, 0, 0xAA).unwrap());
    a.add_component(Position { x: 0, y: 0 });
    let mut b = Entity::new();
    b.add_component(Sprite::filled(2, 2, 0, 0, 0xBB).unwrap());
    b.add_component(Position { x: 1, y: 0 });
    let mut unplaced = Entity::new();
    unplaced.add_component(Sprite::filled(3, 3, 0, 0, 0xCC).unwrap());
    let mut v = vec![a, render_target_entity(3, 2), b, unplaced];
    sys_draw_sprites(&mut v);
    let s = v[1].get_component::<Sprite>().unwrap();
    assert_eq!(s.data, vec![0xAA, 0xBB, 0xBB, 0xAA, 0xBB, 0xBB]);
    assert!(v[1].has_component::<RenderTarget>());
    assert!(v[0].has_component::<Sprite>());
}

#[test]
fn full_tick_keeps_render_target_sprite() {
    let mut resources = Entity::new();
    resources.add_component(timing(0));
    let mut mover = Entity::new();
    mover.add_component(Sprite::filled(2, 2, 1, 1, 0xFFFF_FFFF).unwrap());
    mover.add_component(Position { x: 8, y: 3 });
    mover.add_component(WobbleMove { amplitude: 4 });
    let mut v = vec![render_target_entity(8, 6), mover];
    for now in [10u64, 20, 30] {
        sys_clear_render_target(&mut v);
        sys_time_resources(&mut resources, now);
        sys_wobble_move(&mut v, 0);
        sys_draw_sprites(&mut v);
        assert!(v[0].has_component::<Sprite>());
    }
    assert_eq!(v[1].get_component::<Position>(), Some(&Position { x: 4, y: 3 }));
    let s = v[0].get_component::<Sprite>().unwrap();
    assert_eq!(s.data.len(), 48);
    assert_eq!(s.data[2 * 8 + 3], 0xFFFF_FFFF);
    assert_eq!(s.data[0], BACKGROUND);
}

#[test]
fn pack_rgb_makes_opaque_pixels() {
    assert_eq!(pack_rgb(&vec![0x12, 0x34, 0x56, 0, 0, 0, 0xFF, 0xFF, 0xFF, 9]), vec![
        0xFF12_3456,
        0xFF00_0000,
        0xFFFF_FFFF
    ]);
    let s = Sprite::from_rgb(&vec![1, 2, 3, 4, 5, 6], 2, 1, 1, 0).unwrap();
    assert_eq!(s.data, vec![0xFF01_0203, 0xFF04_0506]);
    assert!(Sprite::from_rgb(&vec![1, 2, 3], 2, 1, 0, 0).is_none());
}

#[test]
fn sprite_constructors_check_size() {
    assert!(Sprite::from_pixels(vec![0; 5], 2, 3, 0, 0).is_none());
    let s = Sprite::from_pixels(vec![0; 6], 2, 3, 1, 2).unwrap();
    assert!(s.is_well_formed());
    assert_eq!((s.anchor_x, s.anchor_y), (1, 2));
    let e = Sprite::filled(0, 7, 0, 0, 1).unwrap();
    assert!(e.data.is_empty());
}

#[test]
fn rgb_rows_are_flipped_and_anchored_at_centre() {
    let rgb = vec![1, 2, 3, 4, 5, 6, 7, 8, 9, 10, 11, 12, 13, 14, 15, 16, 17, 18];
    let s = Sprite::from_rgb_flipped(rgb, 2, 3).unwrap();
    assert_eq!(s.data, vec![0xFF0D_0E0F, 0xFF10_1112, 0xFF07_0809, 0xFF0A_0B0C, 0xFF01_0203, 0xFF04_0506]);
    assert_eq!((s.width, s.height, s.anchor_x, s.anchor_y), (2, 3, 1, 1));
    assert!(Sprite::from_rgb_flipped(vec![0; 5], 1, 2).is_none());
}

#[test]
fn run_frame_ticks_whole_pipeline() {
    let mut resources = Entity::new();
    resources.add_component(timing(1_000));
    let mut mover = Entity::new();
    mover.add_component(Sprite::filled(1, 1, 0, 0, 0xFF11_2233).unwrap());
    mover.add_component(Position { x: 0, y: 1 });
    mover.add_component(WobbleMove { amplitude: 2 });
    let mut v = vec![render_target_entity(6, 3), mover];
    let seen = std::cell::Cell::new(0u64);
    assert_eq!(check_frame(&resources, &v), None);
    run_frame(&mut resources, &mut v, 4_000, |t| {
        seen.set(t);
        SINE_ONE
    });
    assert_eq!(seen.get(), 3_000);
    let t = *resources.get_component::<TimeResources>().unwrap();
    assert_eq!((t.this_frame_instant, t.delta_time, t.total_time), (4_000, 3_000, 3_000));
    assert_eq!(v[1].get_component::<Position>(), Some(&Position { x: 5, y: 1 }));
    let s = v[0].get_component::<Sprite>().unwrap();
    assert_eq!(s.data[6 + 5], 0xFF11_2233);
    assert_eq!(s.data.iter().filter(|p| **p == BACKGROUND).count(), 17);
}
