use flipwrecked::field::{Field, InjectMode, WaveType, UNIT};
use flipwrecked::fixed::{clamp, scale};
use flipwrecked::game::{
    field_to_screen_coords, screen_to_field_coords, ship_cell, ship_splash, wave_layer, MainState,
    Splash, SPLASH_RADIUS, WAKE_MAGNITUDE, WAKE_RADIUS,
};
use flipwrecked::ship::{JumpPhase, Ship, Vec2};

const UP: Vec2 = Vec2 { x: 0, y: -1000 };

#[test]
fn coordinate_conversions() {
    assert_eq!(screen_to_field_coords(0, 0), (0, 0));
    assert_eq!(screen_to_field_coords(109, 250), (10, 25));
    assert_eq!(field_to_screen_coords(7, 3), (70, 30));
    assert_eq!(ship_cell(&Ship::new(100, 100)), (10, 10));
    assert_eq!(ship_cell(&Ship::new(-50, 599)), (0, 59));
}

#[test]
fn fixed_point_helpers() {
    assert_eq!(scale(1000, 97, 100), 970);
    assert_eq!(scale(-1000, 97, 100), -970);
    assert_eq!(scale(-1, 99, 100), 0);
    assert_eq!(scale(7, 1, 2), 3);
    assert_eq!(clamp(5, 0, 3), 3);
    assert_eq!(clamp(-5, 0, 3), 0);
    assert_eq!(clamp(2, 0, 3), 2);
}

#[test]
fn wave_tiles_by_height() {
    assert_eq!(wave_layer(-100_001), 0);
    assert_eq!(wave_layer(-100_000), 1);
    assert_eq!(wave_layer(0), 1);
    assert_eq!(wave_layer(1), 2);
    assert_eq!(wave_layer(100_000), 2);
    assert_eq!(wave_layer(100_001), 3);
}

#[test]
fn splash_kind_follows_jump_phase() {
    let mut s = Ship::new(100, 100);
    assert_eq!(
        ship_splash(&s, (10, 10), false),
        Some(Splash { x: 10, y: 10, radius: WAKE_RADIUS, force: -WAKE_MAGNITUDE, mode: InjectMode::Additive })
    );
    s.jump();
    assert_eq!(ship_splash(&s, (10, 10), true), None);
    s.phase = JumpPhase::Cooldown(30);
    assert_eq!(
        ship_splash(&s, (3, 4), true),
        Some(Splash { x: 3, y: 4, radius: SPLASH_RADIUS, force: UNIT, mode: InjectMode::Overwrite })
    );
    s.phase = JumpPhase::Cooldown(29);
    assert_eq!(ship_splash(&s, (3, 4), true).unwrap().mode, InjectMode::Additive);
}

#[test]
fn ships_leave_wakes_of_opposite_sign() {
    let mut g = MainState::new();
    g.field = Field::filled(80, 60, WaveType::new(0));
    g.update(UP, UP);
    assert!(g.field.read_strength(10, 10) < 0);
    assert!(g.field.read_strength(60, 40) > 0);
    assert!(g.field.read_strength(40, 30) == 0);
    assert_eq!(g.frame, 1);
    assert!(!g.player1.is_flipped() && !g.player2.is_flipped());
}

#[test]
fn positive_wave_capsizes_player_one_only_when_grounded() {
    let mut g = MainState::new();
    g.field.create_splash(10, 10, 3, UNIT, InjectMode::Overwrite);
    g.calculate_flips();
    assert!(g.player1.is_flipped());
    assert!(!g.player2.is_flipped());

    let mut h = MainState::new();
    h.field.create_splash(10, 10, 3, UNIT, InjectMode::Overwrite);
    h.player1.jump();
    h.calculate_flips();
    assert!(!h.player1.is_flipped());

    let mut k = MainState::new();
    k.field.create_splash(10, 10, 3, -UNIT, InjectMode::Overwrite);
    k.calculate_flips();
    assert!(!k.player1.is_flipped());
}

#[test]
fn ship_cooling_down_can_capsize() {
    let mut g = MainState::new();
    g.field.create_splash(10, 10, 3, UNIT, InjectMode::Overwrite);
    g.player1.phase = JumpPhase::Cooldown(5);
    g.calculate_flips();
    assert!(g.player1.is_flipped());

    let mut h = MainState::new();
    h.field.create_splash(60, 40, 3, -UNIT, InjectMode::Overwrite);
    h.player2.phase = JumpPhase::Jumping(12);
    h.calculate_flips();
    assert!(!h.player2.is_flipped());
}

#[test]
fn negative_wave_capsizes_player_two() {
    let mut g = MainState::new();
    g.field.create_splash(60, 40, 2, -UNIT, InjectMode::Overwrite);
    g.calculate_flips();
    assert!(g.player2.is_flipped());
    assert!(!g.player1.is_flipped());
    g.field = Field::filled(80, 60, WaveType::new(0));
    g.calculate_flips();
    assert!(g.player2.is_flipped());
}

#[test]
fn landing_splash_capsizes_nearby_opponent() {
    let mut g = MainState::new();
    g.field = Field::filled(80, 60, WaveType::new(0));
    g.player2 = Ship::new(140, 100);
    g.player1.jump();
    let mut landed = false;
    for _ in 0..61 {
        g.update(UP, UP);
        if g.player1.just_landed() {
            landed = true;
            break;
        }
    }
    assert!(landed);
    assert!(g.player2.is_flipped());
    assert!(!g.player1.is_flipped());
}
