use game_of_life::{GridError, Pattern, Universe};

fn alive(universe: &Universe) -> Vec<usize> {
    universe.get_cells().ones().collect()
}

fn live_cells(pattern: &Pattern) -> Vec<(usize, usize)> {
    let mut out = Vec::new();
    for row in 0..pattern.height() {
        for col in 0..pattern.width() {
            if pattern.get(row * pattern.width() + col) {
                out.push((row, col));
            }
        }
    }
    out
}

#[test]
fn blinker_cells() {
    let p = Pattern::blinker();
    assert_eq!((p.width(), p.height()), (5, 5));
    assert_eq!(live_cells(&p), vec![(2, 1), (2, 2), (2, 3)]);
}

#[test]
fn toad_cells() {
    let p = Pattern::toad();
    assert_eq!((p.width(), p.height()), (6, 6));
    assert_eq!(live_cells(&p), vec![(2, 2), (2, 3), (2, 4), (3, 1), (3, 2), (3, 3)]);
}

#[test]
fn beacon_cells() {
    let p = Pattern::beacon();
    assert_eq!((p.width(), p.height()), (6, 6));
    assert_eq!(
        live_cells(&p),
        vec![(1, 1), (1, 2), (2, 1), (2, 2), (3, 3), (3, 4), (4, 3), (4, 4)]
    );
}

#[test]
fn glider_cells() {
    let p = Pattern::glider();
    assert_eq!((p.width(), p.height()), (5, 5));
    assert_eq!(live_cells(&p), vec![(1, 2), (2, 3), (3, 1), (3, 2), (3, 3)]);
}

#[test]
fn catalogue_dimensions_and_populations() {
    let all: Vec<(Pattern, usize, usize, usize)> = vec![
        (Pattern::blinker(), 5, 5, 3),
        (Pattern::toad(), 6, 6, 6),
        (Pattern::beacon(), 6, 6, 8),
        (Pattern::pulsar(), 17, 17, 48),
        (Pattern::pentadecathlon(), 11, 18, 12),
        (Pattern::glider(), 5, 5, 5),
        (Pattern::lightweight_spaceship(), 7, 6, 9),
        (Pattern::midweight_spaceship(), 8, 7, 11),
        (Pattern::heavyweight_spaceship(), 9, 7, 13),
        (Pattern::r_pentomino(), 5, 5, 5),
        (Pattern::diehard(), 10, 5, 7),
        (Pattern::gosper_glider_gun(), 38, 11, 36),
        (Pattern::minimal_block_engine(), 10, 8, 10),
        (Pattern::small_block_engine(), 7, 7, 13),
        (Pattern::linear_engine(), 41, 3, 28),
        (Pattern::eater_one(), 6, 6, 7),
    ];
    for (pattern, width, height, population) in all {
        assert_eq!(pattern.width(), width);
        assert_eq!(pattern.height(), height);
        assert_eq!(live_cells(&pattern).len(), population);
    }
}

#[test]
fn pulsar_is_symmetric() {
    let p = Pattern::pulsar();
    for row in 0..17 {
        for col in 0..17 {
            let here = p.get(row * 17 + col);
            assert_eq!(here, p.get(col * 17 + row));
            assert_eq!(here, p.get((16 - row) * 17 + col));
            assert_eq!(here, p.get(row * 17 + (16 - col)));
        }
    }
    assert!(p.get(2 * 17 + 4));
    assert!(p.get(14 * 17 + 12));
    assert!(!p.get(0));
}

#[test]
fn linear_engine_is_one_row() {
    let cells = live_cells(&Pattern::linear_engine());
    assert!(cells.iter().all(|&(row, _)| row == 1));
    assert_eq!(cells[0], (1, 1));
    assert_eq!(cells[27], (1, 39));
    assert!(!cells.contains(&(1, 9)));
}

#[test]
fn eater_one_cells() {
    assert_eq!(
        live_cells(&Pattern::eater_one()),
        vec![(1, 1), (1, 2), (2, 1), (2, 3), (3, 3), (4, 3), (4, 4)]
    );
}

#[test]
fn insert_at_zero_degrees_copies_the_pattern() {
    let mut universe = Universe::new(8, 8).unwrap();
    universe.insert_pattern(&Pattern::glider(), 1, 2, 0).unwrap();
    // Glider cells (1,2),(2,3),(3,1),(3,2),(3,3) moved by (1, 2).
    assert_eq!(alive(&universe), vec![2 * 8 + 4, 3 * 8 + 5, 4 * 8 + 3, 4 * 8 + 4, 4 * 8 + 5]);
}

#[test]
fn insert_overwrites_the_whole_block() {
    let mut universe = Universe::new_sparse(6, 6, 1).unwrap();
    universe.insert_pattern(&Pattern::blinker(), 0, 0, 0).unwrap();
    let cells = universe.get_cells();
    for row in 0..6usize {
        for col in 0..6usize {
            let expected = if row < 5 && col < 5 { row == 2 && (1..=3).contains(&col) } else { true };
            assert_eq!(cells.contains(row * 6 + col), expected);
        }
    }
}

#[test]
fn insert_at_quarter_turns() {
    // Diehard is 10 wide and 5 high; turned by 90 degrees it is 5 wide and
    // 10 high.
    let pattern = Pattern::diehard();
    for angle in [0u32, 90, 180, 270] {
        let mut universe = Universe::new(12, 12).unwrap();
        universe.insert_pattern(&pattern, 1, 1, angle).unwrap();
        let cells = universe.get_cells();
        let rows = pattern.angle_height(angle);
        let cols = pattern.angle_width(angle);
        let mut population = 0;
        for r in 0..rows {
            for c in 0..cols {
                let source = pattern.get(pattern.get_angle_index(r, c, angle));
                assert_eq!(cells.contains((r + 1) * 12 + c + 1), source);
                population += source as usize;
            }
        }
        assert_eq!(population, 7);
        assert_eq!(cells.count_ones(..), 7);
    }
}

#[test]
fn insert_blinker_turned_is_vertical() {
    let mut universe = Universe::new(5, 5).unwrap();
    universe.insert_pattern(&Pattern::blinker(), 0, 0, 90).unwrap();
    assert_eq!(alive(&universe), vec![7, 12, 17]);
    let mut universe = Universe::new(5, 5).unwrap();
    universe.insert_pattern(&Pattern::blinker(), 0, 0, 180).unwrap();
    assert_eq!(alive(&universe), vec![11, 12, 13]);
}

#[test]
fn insert_half_turn_reverses_the_glider() {
    let mut universe = Universe::new(5, 5).unwrap();
    universe.insert_pattern(&Pattern::glider(), 0, 0, 180).unwrap();
    // (r, c) takes the cell at (4 - r, 4 - c).
    assert_eq!(alive(&universe), vec![6, 7, 8, 11, 17]);
}

#[test]
fn insert_clips_at_the_edges() {
    let mut universe = Universe::new(6, 6).unwrap();
    universe.insert_pattern(&Pattern::glider(), 3, 4, 0).unwrap();
    // Only rows 0..3 and columns 0..2 of the glider fit: none of its live
    // cells (1,2),(2,3) lie there.
    assert_eq!(alive(&universe), Vec::<usize>::new());
    universe.insert_pattern(&Pattern::glider(), 4, 3, 0).unwrap();
    // Rows 0..2 and columns 0..3: the cell (1, 2) lands at (5, 5).
    assert_eq!(alive(&universe), vec![35]);
}

#[test]
fn insert_rejects_other_angles() {
    let mut universe = Universe::new(6, 6).unwrap();
    let glider = Pattern::glider();
    assert_eq!(universe.insert_pattern(&glider, 0, 0, 45), Err(GridError::InvalidArgument));
    assert_eq!(universe.insert_pattern(&glider, 0, 0, 360), Err(GridError::InvalidArgument));
    assert_eq!(universe.insert_pattern(&glider, 9, 9, 1), Err(GridError::InvalidArgument));
    assert_eq!(alive(&universe), Vec::<usize>::new());
}

#[test]
fn insert_rejects_a_corner_outside_the_grid() {
    let mut universe = Universe::new(6, 6).unwrap();
    let glider = Pattern::glider();
    assert_eq!(universe.insert_pattern(&glider, 6, 0, 0), Err(GridError::OutOfBounds));
    assert_eq!(universe.insert_pattern(&glider, 0, 6, 90), Err(GridError::OutOfBounds));
    assert_eq!(alive(&universe), Vec::<usize>::new());
}

#[test]
fn inserted_glider_flies() {
    let mut universe = Universe::new(6, 6).unwrap();
    universe.insert_pattern(&Pattern::glider(), 0, 0, 0).unwrap();
    assert_eq!(alive(&universe), vec![8, 15, 19, 20, 21]);
    universe.tick();
    assert_eq!(alive(&universe), vec![13, 15, 20, 21, 26]);
}
