use flipwrecked::ship::{
    calculate_jump_scale, ButtonSet, Buttons, JumpPhase, Ship, Vec2, BEARING_LIMIT, BEARING_WRAP,
    COLLIDER_RADIUS,
    JUMP_COOLDOWN, JUMP_FRAMES, SCALE_UNIT, SHIP_UNIT, WINDOW_HEIGHT, WINDOW_WIDTH,
};

const NO_FACING: Vec2 = Vec2 { x: 0, y: -1000 };

#[test]
fn new_ship_is_at_rest() {
    let s = Ship::new(100, 200);
    assert_eq!(s.location(), Vec2 { x: 100 * SHIP_UNIT, y: 200 * SHIP_UNIT });
    assert_eq!(s.velocity(), Vec2 { x: 0, y: 0 });
    assert_eq!(s.bearing(), 0);
    assert_eq!(s.scale(), SCALE_UNIT);
    assert_eq!(s.phase(), JumpPhase::Grounded);
    assert!(!s.is_flipped());
    assert_eq!(s.cooldown(), 0);
}

#[test]
fn jump_scale_curve_values() {
    assert_eq!(calculate_jump_scale(0), 7500);
    assert_eq!(calculate_jump_scale(6), 7125);
    assert_eq!(calculate_jump_scale(29), 11250);
    assert_eq!(calculate_jump_scale(36), 15000);
    assert_eq!(calculate_jump_scale(60), 7500);
}

#[test]
fn jump_scale_curve_and_cooldown() {
    let mut s = Ship::new(300, 300);
    s.jump();
    assert_eq!(s.phase(), JumpPhase::Jumping(0));
    for _ in 0..30 {
        s.update(NO_FACING);
    }
    assert_ne!(s.scale(), SCALE_UNIT);
    for _ in 30..JUMP_FRAMES {
        s.update(NO_FACING);
    }
    assert_eq!(s.scale(), SCALE_UNIT);
    assert_eq!(s.cooldown(), 30);
    assert!(s.just_landed());
    for _ in 0..JUMP_COOLDOWN - 1 {
        s.update(NO_FACING);
    }
    assert_eq!(s.cooldown(), 1);
    assert!(!s.just_landed());
    s.update(NO_FACING);
    assert_eq!(s.phase(), JumpPhase::Grounded);
}

#[test]
fn jump_while_jumping_or_cooling_down_is_ignored() {
    let mut s = Ship::new(300, 300);
    s.jump();
    for _ in 0..10 {
        s.update(NO_FACING);
    }
    let before = s;
    s.jump();
    assert_eq!(s, before);
    assert_eq!(s.phase(), JumpPhase::Jumping(10));
    for _ in 10..JUMP_FRAMES + 3 {
        s.update(NO_FACING);
    }
    assert_eq!(s.phase(), JumpPhase::Cooldown(27));
    let before = s;
    s.jump();
    assert_eq!(s, before);
}

#[test]
fn drag_slows_a_coasting_ship() {
    let mut s = Ship::new(400, 300);
    s.velocity = Vec2 { x: 20_000, y: -7_000 };
    let mut last = s.velocity();
    for _ in 0..400 {
        s.update(NO_FACING);
        let v = s.velocity();
        assert!(v.x.abs() <= last.x.abs() && v.x >= 0);
        assert!(v.y.abs() <= last.y.abs() && v.y <= 0);
        assert!(last.x == 0 || v.x.abs() < last.x.abs());
        last = v;
    }
    assert_eq!(s.velocity(), Vec2 { x: 0, y: 0 });
}

#[test]
fn forward_accelerates_along_facing() {
    let mut s = Ship::new(400, 300);
    s.key_down_event(Buttons::Up);
    s.update(Vec2 { x: 0, y: -1000 });
    // (0 + 1.0) * 0.97 = 0.97 px/frame, then 0.2 of it is travelled
    assert_eq!(s.velocity(), Vec2 { x: 0, y: -970 });
    assert_eq!(s.location(), Vec2 { x: 400_000, y: 300_000 - 194 });
    s.key_up_event(Buttons::Up);
    s.update(Vec2 { x: 0, y: -1000 });
    assert_eq!(s.velocity(), Vec2 { x: 0, y: -940 });
}

#[test]
fn turning_accumulates_bearing() {
    let mut s = Ship::new(400, 300);
    s.key_down_event(Buttons::Right);
    s.update(NO_FACING);
    assert_eq!(s.bearing(), 1000);
    assert_eq!(s.angular_velocity, 970);
    s.key_up_event(Buttons::Right);
    s.key_down_event(Buttons::Left);
    s.update(NO_FACING);
    assert_eq!(s.bearing(), 970);
    assert_eq!(s.angular_velocity, -29);
    let mut t = Ship::new(400, 300);
    t.key_down_event(Buttons::Left);
    t.update(NO_FACING);
    assert_eq!(t.bearing(), -1000);
    t.key_down_event(Buttons::Right);
    t.update(NO_FACING);
    assert_eq!(t.bearing(), -1000 - 970);
}

#[test]
fn bearing_far_out_takes_whole_turns_off() {
    let mut s = Ship::new(400, 300);
    s.bearing = BEARING_LIMIT;
    s.key_down_event(Buttons::Right);
    s.update(NO_FACING);
    assert_eq!(s.bearing(), BEARING_LIMIT + 1000 - BEARING_WRAP);
}

#[test]
fn ship_stays_inside_playfield() {
    let mut s = Ship::new(10, 2000);
    s.update(NO_FACING);
    assert_eq!(s.location(), Vec2 { x: COLLIDER_RADIUS, y: WINDOW_HEIGHT - COLLIDER_RADIUS });
    let mut t = Ship::new(400, 300);
    t.key_down_event(Buttons::Up);
    for _ in 0..2000 {
        t.update(Vec2 { x: 1000, y: 0 });
    }
    assert_eq!(t.location().x, WINDOW_WIDTH - COLLIDER_RADIUS);
}

#[test]
fn pressed_set_tracks_intents() {
    let mut b = ButtonSet::new();
    assert!(!b.contains(Buttons::Up));
    b.insert(Buttons::Up);
    b.insert(Buttons::Left);
    assert!(b.contains(Buttons::Up) && b.contains(Buttons::Left) && !b.contains(Buttons::Right));
    b.remove(Buttons::Up);
    b.remove(Buttons::Right);
    assert!(!b.contains(Buttons::Up) && b.contains(Buttons::Left));
}

#[test]
fn flipping_sticks() {
    let mut s = Ship::new(400, 300);
    s.flip();
    assert!(s.is_flipped());
    s.update(NO_FACING);
    assert!(s.is_flipped());
}

#[test]
fn sprite_rectangle_follows_scale() {
    let s = Ship::new(400, 300);
    assert_eq!(s.draw_rect(), (336, 236, 128));
    let mut t = Ship::new(400, 300);
    t.scale = 15_000;
    assert_eq!(t.draw_rect(), (304, 204, 192));
}
