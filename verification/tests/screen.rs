use ascii_cube::cube::{create_side, Cube};
use ascii_cube::error::ConfigError;
use ascii_cube::fixed::ONE;
use ascii_cube::point::Point;
use ascii_cube::screen::{
    init_display_points, locate, prepare_display, DisplayPoint, BLANK, SENTINEL_DEPTH,
};

fn pt(x: i64, y: i64, z: i64, d: char) -> Point {
    Point { x, y, z, d }
}

fn blank() -> DisplayPoint {
    DisplayPoint { z: SENTINEL_DEPTH, d: BLANK }
}

fn small_buffer() -> (Vec<Vec<DisplayPoint>>, Point) {
    let cube = Cube::new(2 * ONE, 2).unwrap();
    let offset = pt(2 * ONE, 2 * ONE, 0, '\0');
    (init_display_points(&cube, &offset).unwrap(), offset)
}

#[test]
fn sentinel_is_a_thousand_units_back_and_blank() {
    assert_eq!(SENTINEL_DEPTH, -1000 * ONE);
    assert_eq!(BLANK, ' ');
}

#[test]
fn fresh_buffer_is_sized_by_cube_and_offset_and_blank() {
    let cube = Cube::new(40 * ONE, 80).unwrap();
    let offset = pt(45 * ONE, 40 * ONE, 120 * ONE, '\0');
    let dps = init_display_points(&cube, &offset).unwrap();
    assert_eq!(dps.len(), 120);
    assert!(dps.iter().all(|row| row.len() == 125));
    assert!(dps.iter().all(|row| row.iter().all(|c| *c == blank())));
}

#[test]
fn fresh_buffer_extent_rounds_down() {
    let cube = Cube::new(ONE, 2).unwrap();
    let dps = init_display_points(&cube, &pt(ONE - 1, ONE / 2, 0, '\0')).unwrap();
    assert_eq!(dps.len(), 2);
    assert_eq!(dps[0].len(), 2);
    let dps = init_display_points(&cube, &pt(-1, -ONE, 0, '\0')).unwrap();
    assert_eq!(dps.len(), 1);
    assert_eq!(dps[0].len(), 1);
}

#[test]
fn empty_buffer_is_refused() {
    let cube = Cube::new(ONE, 2).unwrap();
    let none = Err(ConfigError::EmptyBuffer);
    assert_eq!(init_display_points(&cube, &pt(-2 * ONE, 0, 0, '\0')), none);
    assert_eq!(init_display_points(&cube, &pt(0, -2 * ONE, 0, '\0')), none);
    assert_eq!(init_display_points(&cube, &pt(-ONE - 1, 0, 0, '\0')), none);
    assert_eq!(init_display_points(&cube, &pt(i64::MIN, i64::MIN, 0, '\0')), none);
    assert!(init_display_points(&cube, &pt(-ONE, -ONE, 0, '\0')).is_ok());
}

#[test]
fn locate_gives_column_and_row() {
    let (dps, offset) = small_buffer();
    assert_eq!(locate(&dps, &pt(0, 0, 0, '#'), &offset), Some((2, 2)));
    assert_eq!(locate(&dps, &pt(ONE / 2, -ONE, 0, '#'), &offset), Some((2, 1)));
    assert_eq!(locate(&dps, &pt(-2 * ONE, 4 * ONE - 1, 0, '#'), &offset), Some((0, 5)));
    assert_eq!(locate(&dps, &pt(4 * ONE - 1, -2 * ONE, 0, '#'), &offset), Some((5, 0)));
}

#[test]
fn locate_finds_no_cell_out_of_bounds() {
    let (dps, offset) = small_buffer();
    assert_eq!(locate(&dps, &pt(-2 * ONE - 1, 0, 0, '#'), &offset), None);
    assert_eq!(locate(&dps, &pt(0, -2 * ONE - 1, 0, '#'), &offset), None);
    assert_eq!(locate(&dps, &pt(4 * ONE, 0, 0, '#'), &offset), None);
    assert_eq!(locate(&dps, &pt(0, 4 * ONE, 0, '#'), &offset), None);
    assert_eq!(locate(&dps, &pt(i64::MIN, i64::MAX, 0, '#'), &offset), None);
    assert_eq!(locate(&Vec::new(), &pt(0, 0, 0, '#'), &offset), None);
}

#[test]
fn point_in_view_takes_its_cell() {
    let (mut dps, offset) = small_buffer();
    prepare_display(&mut dps, &pt(ONE / 2, -ONE, 7, '#'), &offset);
    for (y, row) in dps.iter().enumerate() {
        for (x, c) in row.iter().enumerate() {
            if (x, y) == (2, 1) {
                assert_eq!(*c, DisplayPoint { z: 7, d: '#' });
            } else {
                assert_eq!(*c, blank());
            }
        }
    }
}

#[test]
fn nearer_point_replaces_and_farther_point_does_not() {
    let (mut dps, offset) = small_buffer();
    prepare_display(&mut dps, &pt(0, 0, 5, 'a'), &offset);
    prepare_display(&mut dps, &pt(1, 1, 9, 'b'), &offset);
    assert_eq!(dps[2][2], DisplayPoint { z: 9, d: 'b' });
    prepare_display(&mut dps, &pt(2, 2, 8, 'c'), &offset);
    assert_eq!(dps[2][2], DisplayPoint { z: 9, d: 'b' });
}

#[test]
fn equal_depth_does_not_replace() {
    let (mut dps, offset) = small_buffer();
    prepare_display(&mut dps, &pt(0, 0, 5, 'a'), &offset);
    prepare_display(&mut dps, &pt(0, 0, 5, 'b'), &offset);
    assert_eq!(dps[2][2], DisplayPoint { z: 5, d: 'a' });
}

#[test]
fn point_at_or_behind_the_sentinel_is_not_drawn() {
    let (mut dps, offset) = small_buffer();
    prepare_display(&mut dps, &pt(0, 0, SENTINEL_DEPTH, 'a'), &offset);
    prepare_display(&mut dps, &pt(0, 0, i64::MIN, 'b'), &offset);
    assert_eq!(dps[2][2], blank());
    prepare_display(&mut dps, &pt(0, 0, SENTINEL_DEPTH + 1, 'c'), &offset);
    assert_eq!(dps[2][2], DisplayPoint { z: SENTINEL_DEPTH + 1, d: 'c' });
}

#[test]
fn depth_test_does_not_depend_on_order() {
    let points = [
        pt(0, 0, 3, 'a'),
        pt(ONE / 3, ONE / 2, 11, 'b'),
        pt(ONE - 1, 1, -4, 'c'),
        pt(5, ONE - 1, 10, 'd'),
        pt(ONE, 0, 99, 'e'),
    ];
    let orders: [[usize; 5]; 6] = [
        [0, 1, 2, 3, 4],
        [4, 3, 2, 1, 0],
        [1, 0, 4, 2, 3],
        [3, 2, 0, 4, 1],
        [2, 4, 1, 3, 0],
        [1, 3, 0, 2, 4],
    ];
    for order in orders {
        let (mut dps, offset) = small_buffer();
        for i in order {
            prepare_display(&mut dps, &points[i], &offset);
        }
        assert_eq!(dps[2][2], DisplayPoint { z: 11, d: 'b' });
        assert_eq!(dps[2][3], DisplayPoint { z: 99, d: 'e' });
        let drawn = dps.iter().flatten().filter(|c| **c != blank()).count();
        assert_eq!(drawn, 2);
    }
}

#[test]
fn point_out_of_bounds_is_dropped() {
    let (mut dps, offset) = small_buffer();
    let fresh = dps.clone();
    // columns and rows run from 0 to 5
    prepare_display(&mut dps, &pt(-2 * ONE - 1, 0, 50, 'a'), &offset);
    prepare_display(&mut dps, &pt(0, -2 * ONE - 1, 50, 'b'), &offset);
    prepare_display(&mut dps, &pt(4 * ONE, 0, 50, 'c'), &offset);
    prepare_display(&mut dps, &pt(0, 4 * ONE, 50, 'd'), &offset);
    prepare_display(&mut dps, &pt(-100 * ONE, -100 * ONE, 50, 'e'), &offset);
    prepare_display(&mut dps, &pt(i64::MAX, i64::MAX, 50, 'f'), &offset);
    prepare_display(&mut dps, &pt(i64::MIN, i64::MIN, 50, 'g'), &offset);
    prepare_display(&mut dps, &pt(i64::MIN, 0, 50, 'h'), &pt(i64::MIN, 0, 0, '\0'));
    prepare_display(&mut dps, &pt(i64::MAX, 0, 50, 'i'), &pt(i64::MAX, 0, 0, '\0'));
    assert_eq!(dps, fresh);
}

#[test]
fn cell_index_rounds_down_not_toward_zero() {
    let (mut dps, offset) = small_buffer();
    let fresh = dps.clone();
    // one step below zero lands in column −1, not in column 0
    prepare_display(&mut dps, &pt(-2 * ONE - 1, -2 * ONE, 50, 'a'), &offset);
    assert_eq!(dps, fresh);
    prepare_display(&mut dps, &pt(-2 * ONE, -2 * ONE, 50, 'b'), &offset);
    assert_eq!(dps[0][0], DisplayPoint { z: 50, d: 'b' });
    prepare_display(&mut dps, &pt(4 * ONE - 1, 4 * ONE - 1, 50, 'c'), &offset);
    assert_eq!(dps[5][5], DisplayPoint { z: 50, d: 'c' });
}

#[test]
fn ragged_and_empty_buffers_are_handled() {
    let offset = pt(0, 0, 0, '\0');
    let mut dps: Vec<Vec<DisplayPoint>> = Vec::new();
    prepare_display(&mut dps, &pt(0, 0, 1, 'a'), &offset);
    assert!(dps.is_empty());
    let mut dps = vec![vec![blank(); 3], vec![], vec![blank(); 1]];
    prepare_display(&mut dps, &pt(0, ONE, 1, 'a'), &offset);
    prepare_display(&mut dps, &pt(ONE, 2 * ONE, 1, 'b'), &offset);
    prepare_display(&mut dps, &pt(2 * ONE, 0, 1, 'c'), &offset);
    assert_eq!(dps, vec![
        vec![blank(), blank(), DisplayPoint { z: 1, d: 'c' }],
        vec![],
        vec![blank()],
    ]);
}

#[test]
fn front_face_end_to_end() {
    let cube = Cube::new(2 * ONE, 2).unwrap();
    let offset = pt(2 * ONE, 2 * ONE, 0, '\0');
    let points = create_side(&cube, &pt(-ONE, -ONE, -ONE, '#'));
    assert_eq!(points.len(), 4);
    let mut dps = init_display_points(&cube, &offset).unwrap();
    for p in &points {
        prepare_display(&mut dps, p, &offset);
    }
    assert_eq!(dps.len(), 6);
    for (y, row) in dps.iter().enumerate() {
        assert_eq!(row.len(), 6);
        for (x, c) in row.iter().enumerate() {
            if (x == 1 || x == 2) && (y == 1 || y == 2) {
                assert_eq!(*c, DisplayPoint { z: -ONE, d: '#' });
            } else {
                assert_eq!(*c, blank());
            }
        }
    }
}

#[test]
fn pass_with_nothing_in_view_leaves_the_buffer_blank() {
    let (mut dps, offset) = small_buffer();
    for i in 0..50i64 {
        prepare_display(&mut dps, &pt(4 * ONE + i, i * ONE, i, '#'), &offset);
        prepare_display(&mut dps, &pt(i * ONE, -3 * ONE - i, i, '$'), &offset);
    }
    assert_eq!(dps.len(), 6);
    assert!(dps.iter().all(|row| row.len() == 6 && row.iter().all(|c| *c == blank())));
}
