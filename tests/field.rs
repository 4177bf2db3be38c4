use flipwrecked::field::{
    Field, InjectMode, WaveType, DEFAULT_OFFSET, FIELD_HEIGHT, FIELD_WIDTH, POSITION_LIMIT, UNIT,
};

fn zero_field(w: usize, h: usize) -> Field {
    Field::filled(w, h, WaveType::new(0))
}

fn all_positions(f: &Field) -> Vec<(i32, i32, i64)> {
    let mut out = Vec::new();
    for x in 0..f.width() as i32 {
        for y in 0..f.height() as i32 {
            out.push((x, y, f.read_strength(x, y)));
        }
    }
    out
}

#[test]
fn default_field_has_small_offset() {
    let f = Field::new();
    assert_eq!(f.width(), FIELD_WIDTH);
    assert_eq!(f.height(), FIELD_HEIGHT);
    assert_eq!(f.read_strength(0, 0), DEFAULT_OFFSET);
    assert_eq!(f.read_strength(79, 59), DEFAULT_OFFSET);
    let d = WaveType::default();
    assert_eq!(d.position, 1000);
    assert_eq!(d.velocity, 1000);
}

#[test]
fn restoring_force_pulls_toward_zero() {
    assert_eq!(WaveType::new(UNIT).restoring_force(), -50_000);
    assert_eq!(WaveType::new(-UNIT).restoring_force(), 50_000);
    assert_eq!(WaveType::new(0).restoring_force(), 0);
    assert_eq!(WaveType::new(19).restoring_force(), 0);
}

#[test]
fn overwrite_sets_every_cell_in_square() {
    let mut f = zero_field(20, 20);
    f.create_splash(5, 5, 1, 300, InjectMode::Additive);
    f.create_splash(5, 5, 2, 700_000, InjectMode::Overwrite);
    for (x, y, p) in all_positions(&f) {
        let inside = (x - 5).abs() <= 2 && (y - 5).abs() <= 2;
        assert_eq!(p, if inside { 700_000 } else { 0 }, "cell {} {}", x, y);
    }
}

#[test]
fn additive_adds_exactly_the_magnitude() {
    let mut f = zero_field(20, 20);
    f.create_splash(5, 5, 1, 300, InjectMode::Additive);
    f.create_splash(6, 6, 1, -1000, InjectMode::Additive);
    assert_eq!(f.read_strength(4, 4), 300);
    assert_eq!(f.read_strength(5, 5), -700);
    assert_eq!(f.read_strength(6, 6), -700);
    assert_eq!(f.read_strength(7, 7), -1000);
    assert_eq!(f.read_strength(8, 8), 0);
    assert_eq!(f.read_strength(3, 5), 0);
}

#[test]
fn additive_saturates_at_the_limit() {
    let mut f = zero_field(4, 4);
    f.create_splash(1, 1, 0, POSITION_LIMIT, InjectMode::Additive);
    f.create_splash(1, 1, 0, POSITION_LIMIT, InjectMode::Additive);
    assert_eq!(f.read_strength(1, 1), POSITION_LIMIT);
}

#[test]
fn splash_is_clipped_at_the_corner() {
    let mut f = zero_field(10, 8);
    f.create_splash(0, 0, 2, UNIT, InjectMode::Overwrite);
    for (x, y, p) in all_positions(&f) {
        let inside = x <= 2 && y <= 2;
        assert_eq!(p, if inside { UNIT } else { 0 }, "cell {} {}", x, y);
    }
}

#[test]
fn splash_centred_off_the_grid_is_moved_onto_it() {
    let mut f = zero_field(10, 8);
    f.create_splash(11, 3, 2, UNIT, InjectMode::Overwrite);
    for (x, y, p) in all_positions(&f) {
        let inside = (7..=9).contains(&x) && (1..=5).contains(&y);
        assert_eq!(p, if inside { UNIT } else { 0 }, "cell {} {}", x, y);
    }
    let mut g = zero_field(20, 20);
    g.create_splash(20, 100, 0, 300, InjectMode::Overwrite);
    for (x, y, p) in all_positions(&g) {
        assert_eq!(p, if x == 19 && y == 19 { 300 } else { 0 }, "cell {} {}", x, y);
    }
}

#[test]
fn reads_clamp_coordinates_onto_the_grid() {
    let mut f = zero_field(10, 8);
    f.create_splash(0, 0, 0, 5, InjectMode::Overwrite);
    f.create_splash(9, 7, 0, 9, InjectMode::Overwrite);
    assert_eq!(f.read_strength(-3, -40), 5);
    assert_eq!(f.read_strength(500, 7), 9);
    assert_eq!(f.read_strength(i32::MAX, i32::MAX), 9);
}

#[test]
fn area_sample_gives_max_and_min_of_region() {
    let mut f = zero_field(20, 20);
    f.create_splash(10, 10, 0, 400_000, InjectMode::Overwrite);
    f.create_splash(12, 8, 0, -250_000, InjectMode::Overwrite);
    f.create_splash(13, 10, 0, 900_000, InjectMode::Overwrite);
    let (max, min) = f.read_strength_area(10, 10);
    assert_eq!(max, 400_000);
    assert_eq!(min, -250_000);
    assert!(max >= min);
    let (max, min) = f.sample_strength_area(10, 10, 3);
    assert_eq!((max, min), (900_000, -250_000));
    let (max, min) = f.sample_strength_area(2, 2, 1);
    assert_eq!((max, min), (0, 0));
}

#[test]
fn area_sample_uses_region_values_not_zero() {
    let mut f = zero_field(6, 6);
    f.create_splash(2, 2, 5, 300_000, InjectMode::Overwrite);
    let (max, min) = f.sample_strength_area(2, 2, 1);
    assert_eq!((max, min), (300_000, 300_000));
    let (max, min) = f.sample_strength_area(-10, 40, 0);
    assert_eq!((max, min), (f.read_strength(0, 5), f.read_strength(0, 5)));
}

#[test]
fn step_on_field_at_rest_stays_at_rest() {
    let mut f = zero_field(12, 9);
    for _ in 0..5 {
        f.update();
    }
    assert!(all_positions(&f).iter().all(|c| c.2 == 0));
}

#[test]
fn one_step_of_a_single_cell() {
    // centre at 1.0, neighbours at 0: the position keeps 99% and the
    // velocity takes the restoring force and the coupling, then decays.
    let mut f = zero_field(5, 5);
    f.create_splash(2, 2, 0, UNIT, InjectMode::Overwrite);
    f.update();
    assert_eq!(f.read_strength(2, 2), 990_000);
    // a neighbour on the axis is pulled up by the centre but does not move
    // on the first step
    assert_eq!(f.read_strength(2, 1), 0);
    f.update();
    assert!(f.read_strength(2, 1) > 0);
    assert!(f.read_strength(1, 1) > 0);
    assert!(f.read_strength(2, 1) > f.read_strength(1, 1));
    assert!(f.read_strength(2, 2) < 990_000);
}

#[test]
fn splash_then_step_keeps_center_dominant() {
    let mut f = zero_field(20, 20);
    f.create_splash(10, 10, 3, UNIT, InjectMode::Overwrite);
    f.update();
    let centre = f.read_strength(10, 10);
    assert!(centre > 0);
    assert!(centre < UNIT);
    for (_, _, p) in all_positions(&f) {
        assert!(p <= centre);
    }
}

#[test]
fn neighbour_forces_use_previous_positions() {
    // left cell moving at 1.0, both at rest position: the right cell feels
    // no pull this step, the left one only its own restoring force
    let mut f = zero_field(2, 1);
    f.cells[0].velocity = UNIT;
    f.update();
    assert_eq!(f.cells[0], WaveType { position: 9_900, velocity: 989_505 });
    assert_eq!(f.cells[1], WaveType { position: 0, velocity: 0 });
    f.update();
    assert!(f.cells[1].velocity > 0);
    assert!(f.cells[0].position > 9_900);
}

#[test]
fn velocities_stay_clamped_over_many_steps() {
    let mut f = zero_field(20, 20);
    f.create_splash(10, 10, 3, UNIT, InjectMode::Overwrite);
    for _ in 0..500 {
        f.update();
        assert!(f.cells.iter().all(|c| c.velocity.abs() <= UNIT));
        assert!(f.cells.iter().all(|c| c.position.abs() <= POSITION_LIMIT));
    }
}

#[test]
fn sprinkle_sets_one_cell_to_one_unit() {
    let mut f = zero_field(7, 5);
    f.sprinkle_at(9, 13);
    assert_eq!(f.read_strength(2, 3), UNIT);
    assert_eq!(all_positions(&f).iter().filter(|c| c.2 != 0).count(), 1);

    let mut g = zero_field(7, 5);
    g.sprinkle_random_bits();
    let set: Vec<_> = all_positions(&g).into_iter().filter(|c| c.2 != 0).collect();
    assert_eq!(set.len(), 1);
    assert_eq!(set[0].2, UNIT);
}
