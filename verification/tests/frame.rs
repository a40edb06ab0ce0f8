use ascii_cube::angle::{Angle, Rotation};
use ascii_cube::cube::{create_all_sides, Cube};
use ascii_cube::error::ConfigError;
use ascii_cube::fixed::ONE;
use ascii_cube::frame::{advance_frame, in_range};
use ascii_cube::input::{rotation_from_keys, Keys};
use ascii_cube::point::{Point, COORD_LIMIT};
use ascii_cube::rotation::rotate;
use ascii_cube::screen::{init_display_points, prepare_display, DisplayPoint, BLANK, SENTINEL_DEPTH};

fn pt(x: i64, y: i64, z: i64, d: char) -> Point {
    Point { x, y, z, d }
}

fn no_keys() -> Keys {
    Keys { w: false, s: false, a: false, d: false, q: false, e: false }
}

fn tenth() -> Angle {
    Angle::new(1068377587, 107195315).unwrap()
}

#[test]
fn no_key_means_no_rotation() {
    let none = Angle::zero();
    assert_eq!(rotation_from_keys(&no_keys(), &tenth()), Rotation { x: none, y: none, z: none });
}

#[test]
fn each_key_turns_its_axis() {
    let step = tenth();
    let back = step.opposite();
    let none = Angle::zero();
    let r = |keys: Keys| rotation_from_keys(&keys, &step);
    assert_eq!(r(Keys { w: true, ..no_keys() }), Rotation { x: step, y: none, z: none });
    assert_eq!(r(Keys { s: true, ..no_keys() }), Rotation { x: back, y: none, z: none });
    assert_eq!(r(Keys { a: true, ..no_keys() }), Rotation { x: none, y: back, z: none });
    assert_eq!(r(Keys { d: true, ..no_keys() }), Rotation { x: none, y: step, z: none });
    assert_eq!(r(Keys { q: true, ..no_keys() }), Rotation { x: none, y: none, z: back });
    assert_eq!(r(Keys { e: true, ..no_keys() }), Rotation { x: none, y: none, z: step });
}

#[test]
fn first_key_of_an_axis_wins() {
    let step = tenth();
    let back = step.opposite();
    let all = Keys { w: true, s: true, a: true, d: true, q: true, e: true };
    assert_eq!(rotation_from_keys(&all, &step), Rotation { x: step, y: back, z: back });
}

#[test]
fn in_range_checks_every_coordinate() {
    assert!(in_range(&Vec::new()));
    assert!(in_range(&vec![pt(COORD_LIMIT, -COORD_LIMIT, 0, '#')]));
    assert!(!in_range(&vec![pt(0, 0, 0, '#'), pt(COORD_LIMIT + 1, 0, 0, '#')]));
    assert!(!in_range(&vec![pt(0, -COORD_LIMIT - 1, 0, '#')]));
    assert!(!in_range(&vec![pt(0, 0, i64::MIN, '#')]));
}

#[test]
fn frame_shows_the_cloud_as_it_stood_then_rotates_it() {
    let cube = Cube::new(4 * ONE, 4).unwrap();
    let offset = pt(5 * ONE, 4 * ONE, 0, '\0');
    let rotation = rotation_from_keys(&Keys { w: true, e: true, ..no_keys() }, &tenth());
    let mut points = Vec::new();
    create_all_sides(&mut points, &cube);
    let before = points.clone();
    let frame = advance_frame(&mut points, &cube, &offset, &rotation).unwrap();

    let mut expected = init_display_points(&cube, &offset).unwrap();
    for p in &before {
        prepare_display(&mut expected, p, &offset);
    }
    assert_eq!(frame, expected);
    assert_eq!(frame.len(), 12);
    assert_eq!(frame[0].len(), 13);
    let turned: Vec<Point> = before.iter().map(|p| rotate(p, &rotation)).collect();
    assert_eq!(points, turned);
    assert_ne!(points, before);
}

#[test]
fn frame_of_the_resting_cube_shows_the_back_face() {
    // The back face lies at z = +size/2, nearest to the viewer.
    let cube = Cube::new(4 * ONE, 4).unwrap();
    let offset = pt(4 * ONE, 4 * ONE, 0, '\0');
    let still = rotation_from_keys(&no_keys(), &tenth());
    let mut points = Vec::new();
    create_all_sides(&mut points, &cube);
    let before = points.clone();
    let frame = advance_frame(&mut points, &cube, &offset, &still).unwrap();
    assert_eq!(points, before);
    assert_eq!(frame[3][3], DisplayPoint { z: 2 * ONE, d: '$' });
    assert_eq!(frame[0][0], DisplayPoint { z: SENTINEL_DEPTH, d: BLANK });
    // The samples of an edge stop one step short of its far end: the cloud covers five
    // columns and five rows but for the far corner.
    assert_eq!(frame[6][6], DisplayPoint { z: SENTINEL_DEPTH, d: BLANK });
    let drawn = frame.iter().flatten().filter(|c| c.d != BLANK).count();
    assert_eq!(drawn, 24);
}

#[test]
fn frame_without_a_buffer_leaves_the_cloud_alone() {
    let cube = Cube::new(4 * ONE, 4).unwrap();
    let offset = pt(-8 * ONE, 0, 0, '\0');
    let rotation = rotation_from_keys(&Keys { w: true, ..no_keys() }, &tenth());
    let mut points = Vec::new();
    create_all_sides(&mut points, &cube);
    let before = points.clone();
    assert_eq!(
        advance_frame(&mut points, &cube, &offset, &rotation),
        Err(ConfigError::EmptyBuffer)
    );
    assert_eq!(points, before);
}

#[test]
fn cube_keeps_its_shape_over_many_frames() {
    let cube = Cube::new(40 * ONE, 6).unwrap();
    let offset = pt(45 * ONE, 40 * ONE, 0, '\0');
    let rotation = rotation_from_keys(&Keys { w: true, d: true, e: true, ..no_keys() }, &tenth());
    let mut points = Vec::new();
    create_all_sides(&mut points, &cube);
    let norms: Vec<i128> = points
        .iter()
        .map(|p| (p.x as i128).pow(2) + (p.y as i128).pow(2) + (p.z as i128).pow(2))
        .collect();
    for _ in 0..500 {
        assert!(in_range(&points));
        advance_frame(&mut points, &cube, &offset, &rotation).unwrap();
    }
    for (p, n) in points.iter().zip(norms) {
        let now = (p.x as i128).pow(2) + (p.y as i128).pow(2) + (p.z as i128).pow(2);
        // the squared distance from the centre moves by less than one part in ten thousand
        assert!((now - n).abs() * 10_000 < n);
    }
}
