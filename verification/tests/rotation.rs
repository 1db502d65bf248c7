use game_of_life::{Pattern, Universe};

#[test]
fn test_get_angle_index_90() {
    let universe = Universe::new(5, 3).unwrap();

    let start_index = universe.get_angle_index(0, 0, 90);
    assert_eq!(start_index, 10);

    let row_0_col_1 = universe.get_angle_index(0, 1, 90);
    assert_eq!(row_0_col_1, 5);

    let row_0_col_2 = universe.get_angle_index(0, 2, 90);
    assert_eq!(row_0_col_2, 0);

    let row_1_col_1 = universe.get_angle_index(1, 1, 90);
    assert_eq!(row_1_col_1, 6);

    let last = universe.get_angle_index(4, 2, 90);
    assert_eq!(last, 4);

    let row_4_col_0 = universe.get_angle_index(4, 0, 90);
    assert_eq!(row_4_col_0, 14);
}

#[test]
fn test_get_angle_index_180() {
    let universe = Universe::new(5, 3).unwrap();

    let start_index = universe.get_angle_index(0, 0, 180);
    assert_eq!(start_index, 14);

    let row_2_col_3 = universe.get_angle_index(2, 3, 180);
    assert_eq!(row_2_col_3, 1);

    let row_1_col_3 = universe.get_angle_index(1, 3, 180);
    assert_eq!(row_1_col_3, 6);
}

#[test]
fn test_get_angle_index_270() {
    let universe = Universe::new(5, 3).unwrap();

    let start_index = universe.get_angle_index(0, 0, 270);
    assert_eq!(start_index, 4);

    let row_0_col_1 = universe.get_angle_index(0, 1, 270);
    assert_eq!(row_0_col_1, 9);

    let row_1_col_2 = universe.get_angle_index(1, 2, 270);
    assert_eq!(row_1_col_2, 13);

    let row_2_col_1 = universe.get_angle_index(2, 1, 270);
    assert_eq!(row_2_col_1, 7);
}

#[test]
fn angle_index_identity_is_row_major() {
    let universe = Universe::new(5, 3).unwrap();
    assert_eq!(universe.get_angle_index(0, 0, 0), 0);
    assert_eq!(universe.get_angle_index(2, 4, 0), 14);
    assert_eq!(universe.get_angle_index(1, 3, 0), 8);
}

#[test]
fn angle_dimensions_swap_on_quarter_turns() {
    let universe = Universe::new(5, 3).unwrap();
    assert_eq!(universe.angle_width(0), 5);
    assert_eq!(universe.angle_height(0), 3);
    assert_eq!(universe.angle_width(90), 3);
    assert_eq!(universe.angle_height(90), 5);
    assert_eq!(universe.angle_width(180), 5);
    assert_eq!(universe.angle_height(180), 3);
    assert_eq!(universe.angle_width(270), 3);
    assert_eq!(universe.angle_height(270), 5);
}

#[test]
fn pattern_angle_index_matches_universe() {
    let pattern = Pattern::lightweight_spaceship();
    assert_eq!(pattern.width(), 7);
    assert_eq!(pattern.height(), 6);
    assert_eq!(pattern.angle_width(90), 6);
    assert_eq!(pattern.angle_height(270), 7);
    let universe = Universe::new(7, 6).unwrap();
    for angle in [0u32, 90, 180, 270] {
        for row in 0..pattern.angle_height(angle) {
            for col in 0..pattern.angle_width(angle) {
                assert_eq!(
                    pattern.get_angle_index(row, col, angle),
                    universe.get_angle_index(row, col, angle)
                );
            }
        }
    }
}

#[test]
fn every_rotation_is_a_bijection() {
    let pattern = Pattern::diehard();
    let size = pattern.width() * pattern.height();
    for angle in [0u32, 90, 180, 270] {
        let mut seen = vec![false; size];
        for row in 0..pattern.angle_height(angle) {
            for col in 0..pattern.angle_width(angle) {
                let index = pattern.get_angle_index(row, col, angle);
                assert!(index < size);
                assert!(!seen[index]);
                seen[index] = true;
            }
        }
        assert!(seen.iter().all(|&s| s));
    }
}
