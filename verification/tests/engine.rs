use fixedbitset::FixedBitSet;
use game_of_life::{GridError, Pattern, Universe};

fn alive(universe: &Universe) -> Vec<usize> {
    universe.get_cells().ones().collect()
}

fn states(universe: &Universe) -> Vec<bool> {
    let cells = universe.get_cells();
    (0..cells.len()).map(|i| cells.contains(i)).collect()
}

/// One generation computed cell by cell, with no tracking at all.
fn full_step(cells: &[bool], width: usize, height: usize) -> Vec<bool> {
    let mut next = vec![false; cells.len()];
    for row in 0..height {
        for col in 0..width {
            let mut n = 0;
            for dr in [height - 1, 0, 1] {
                for dc in [width - 1, 0, 1] {
                    if dr == 0 && dc == 0 {
                        continue;
                    }
                    let r = (row + dr) % height;
                    let c = (col + dc) % width;
                    if cells[r * width + c] {
                        n += 1;
                    }
                }
            }
            let was = cells[row * width + col];
            next[row * width + col] = if was { n == 2 || n == 3 } else { n == 3 };
        }
    }
    next
}

fn input_spaceship() -> Universe {
    let mut universe = Universe::new(6, 6).unwrap();
    universe.set_cells(&[(1, 2), (2, 3), (3, 1), (3, 2), (3, 3)]).unwrap();
    universe
}

fn expected_spaceship() -> Universe {
    let mut universe = Universe::new(6, 6).unwrap();
    universe.set_cells(&[(2, 1), (2, 3), (3, 2), (3, 3), (4, 2)]).unwrap();
    universe
}

#[test]
fn test_tick() {
    let mut input_universe = input_spaceship();
    let expected_universe = expected_spaceship();

    input_universe.tick();
    assert_eq!(input_universe.get_cells(), expected_universe.get_cells());
}

#[test]
fn glider_moves_one_step() {
    let mut universe = input_spaceship();
    assert_eq!(alive(&universe), vec![8, 15, 19, 20, 21]);
    universe.tick();
    assert_eq!(alive(&universe), vec![13, 15, 20, 21, 26]);
}

#[test]
fn glider_returns_after_crossing_the_torus() {
    let mut universe = input_spaceship();
    let start = states(&universe);
    // A glider moves one cell diagonally every four ticks.
    for _ in 0..24 {
        universe.tick();
    }
    assert_eq!(states(&universe), start);
}

#[test]
fn new_is_all_dead() {
    let universe = Universe::new(7, 5).unwrap();
    assert_eq!(universe.width(), 7);
    assert_eq!(universe.height(), 5);
    assert_eq!(universe.get_cells().len(), 35);
    assert_eq!(alive(&universe), Vec::<usize>::new());
}

#[test]
fn new_rejects_zero_dimensions() {
    assert_eq!(Universe::new(0, 5).err(), Some(GridError::InvalidArgument));
    assert_eq!(Universe::new(5, 0).err(), Some(GridError::InvalidArgument));
    assert_eq!(Universe::new_pattern(0, 0).err(), Some(GridError::InvalidArgument));
    assert_eq!(Universe::new_sparse(0, 1, 1).err(), Some(GridError::InvalidArgument));
    assert_eq!(Universe::new_rand(1, 0, &[]).err(), Some(GridError::InvalidArgument));
    assert_eq!(Universe::new_oscillators(0, 9, 2).err(), Some(GridError::InvalidArgument));
}

#[test]
fn empty_universe_stays_empty() {
    let mut universe = Universe::new(5, 5).unwrap();
    for _ in 0..3 {
        universe.tick();
        assert_eq!(alive(&universe), Vec::<usize>::new());
    }
}

#[test]
fn new_sparse_marks_multiples() {
    let universe = Universe::new_sparse(4, 3, 5).unwrap();
    assert_eq!(alive(&universe), vec![0, 5, 10]);
    let universe = Universe::new_sparse(3, 2, 1).unwrap();
    assert_eq!(alive(&universe), vec![0, 1, 2, 3, 4, 5]);
}

#[test]
fn new_sparse_rejects_zero_scarcity() {
    assert_eq!(Universe::new_sparse(4, 3, 0).err(), Some(GridError::InvalidArgument));
}

#[test]
fn new_pattern_marks_multiples_of_two_and_seven() {
    let universe = Universe::new_pattern(5, 3).unwrap();
    assert_eq!(alive(&universe), vec![0, 2, 4, 6, 7, 8, 10, 12, 14]);
}

#[test]
fn new_rand_takes_the_given_states() {
    let draws = [true, false, false, true, true, false];
    let universe = Universe::new_rand(3, 2, &draws).unwrap();
    assert_eq!(states(&universe), draws.to_vec());
    assert_eq!(universe.width(), 3);
    assert_eq!(universe.height(), 2);
}

#[test]
fn new_rand_rejects_a_wrong_number_of_states() {
    assert_eq!(
        Universe::new_rand(3, 2, &[true, false]).err(),
        Some(GridError::InvalidArgument)
    );
}

#[test]
fn blinker_oscillates() {
    let mut universe = Universe::new(5, 5).unwrap();
    universe.set_cells(&[(2, 1), (2, 2), (2, 3)]).unwrap();
    universe.tick();
    assert_eq!(alive(&universe), vec![7, 12, 17]);
    universe.tick();
    assert_eq!(alive(&universe), vec![11, 12, 13]);
}

#[test]
fn rule_underpopulation_and_overpopulation() {
    // A lone cell dies.
    let mut universe = Universe::new(5, 5).unwrap();
    universe.set_cells(&[(2, 2)]).unwrap();
    universe.tick();
    assert_eq!(alive(&universe), Vec::<usize>::new());
    // The centre of a plus sign has four neighbours and dies; the arms have
    // one neighbour each and die; the four corners are born.
    let mut universe = Universe::new(7, 7).unwrap();
    universe.set_cells(&[(3, 3), (2, 3), (4, 3), (3, 2), (3, 4)]).unwrap();
    universe.tick();
    assert_eq!(alive(&universe), vec![16, 17, 18, 23, 25, 30, 31, 32]);
}

#[test]
fn block_is_stable() {
    let mut universe = Universe::new(4, 4).unwrap();
    universe.set_cells(&[(1, 1), (1, 2), (2, 1), (2, 2)]).unwrap();
    for _ in 0..4 {
        universe.tick();
        assert_eq!(alive(&universe), vec![5, 6, 9, 10]);
    }
}

#[test]
fn tracked_ticks_match_full_recomputation() {
    for (width, height, scarcity) in [(6u32, 6u32, 3u32), (8, 5, 2), (5, 9, 4), (2, 2, 3), (1, 1, 1), (10, 10, 7)] {
        let mut universe = Universe::new_sparse(width, height, scarcity).unwrap();
        let mut reference = states(&universe);
        for _ in 0..12 {
            assert_eq!(states(&universe), reference);
            universe.tick();
            reference = full_step(&reference, width as usize, height as usize);
        }
        assert_eq!(states(&universe), reference);
    }
}

#[test]
fn tracked_ticks_match_full_recomputation_after_edits() {
    let mut universe = Universe::new(9, 8).unwrap();
    universe.insert_pattern(&Pattern::r_pentomino(), 2, 2, 90).unwrap();
    universe.toggle_cell(7, 8).unwrap();
    universe.toggle_cell(0, 0).unwrap();
    universe.toggle_cell(0, 8).unwrap();
    universe.set_cells(&[(6, 6), (6, 7), (5, 7)]).unwrap();
    let mut reference = states(&universe);
    for step in 0..20 {
        universe.tick();
        reference = full_step(&reference, 9, 8);
        assert_eq!(states(&universe), reference);
        if step == 7 {
            universe.toggle_cell(4, 4).unwrap();
            reference[4 * 9 + 4] = !reference[4 * 9 + 4];
        }
    }
}

#[test]
fn tracked_ticks_match_on_drawn_states() {
    // A fixed sequence of draws from a small linear congruential generator.
    let (width, height) = (11usize, 7usize);
    let mut seed: u32 = 12345;
    let mut draws = Vec::new();
    for _ in 0..width * height {
        seed = seed.wrapping_mul(1103515245).wrapping_add(12345);
        draws.push((seed >> 16) & 1 == 1);
    }
    let mut universe = Universe::new_rand(width as u32, height as u32, &draws).unwrap();
    let mut reference = draws.clone();
    for _ in 0..15 {
        universe.tick();
        reference = full_step(&reference, width, height);
        assert_eq!(states(&universe), reference);
    }
}

#[test]
fn untracked_toggle_is_not_seen_by_the_tick() {
    let mut universe = Universe::new(5, 5).unwrap();
    universe.toggle_cell_not_active(2, 2).unwrap();
    assert_eq!(alive(&universe), vec![12]);
    // No cell is active, so the tick copies every cell.
    universe.tick();
    assert_eq!(alive(&universe), vec![12]);
}

#[test]
fn toggle_twice_restores_the_grid() {
    let mut universe = Universe::new_sparse(6, 4, 3).unwrap();
    let before = states(&universe);
    universe.toggle_cell(2, 5).unwrap();
    let between = states(&universe);
    assert_eq!(between[17], !before[17]);
    for i in 0..before.len() {
        if i != 17 {
            assert_eq!(between[i], before[i]);
        }
    }
    universe.toggle_cell(2, 5).unwrap();
    assert_eq!(states(&universe), before);

    universe.toggle_cell_not_active(3, 0).unwrap();
    assert_ne!(states(&universe), before);
    universe.toggle_cell_not_active(3, 0).unwrap();
    assert_eq!(states(&universe), before);
}

#[test]
fn toggle_rejects_cells_outside_the_grid() {
    let mut universe = Universe::new(4, 3).unwrap();
    assert_eq!(universe.toggle_cell(3, 0), Err(GridError::OutOfBounds));
    assert_eq!(universe.toggle_cell(0, 4), Err(GridError::OutOfBounds));
    assert_eq!(universe.toggle_cell_not_active(3, 3), Err(GridError::OutOfBounds));
    assert_eq!(universe.toggle_cell_not_active(2, 4), Err(GridError::OutOfBounds));
    assert_eq!(alive(&universe), Vec::<usize>::new());
    assert_eq!(universe.toggle_cell(2, 3), Ok(()));
    assert_eq!(alive(&universe), vec![11]);
}

#[test]
fn set_cells_keeps_other_cells() {
    let mut universe = Universe::new(4, 3).unwrap();
    universe.set_cells(&[(0, 1), (2, 3)]).unwrap();
    universe.set_cells(&[(1, 1), (0, 1)]).unwrap();
    assert_eq!(alive(&universe), vec![1, 5, 11]);
}

#[test]
fn set_cells_rejects_a_list_with_an_outside_cell_and_changes_nothing() {
    let mut universe = Universe::new(4, 3).unwrap();
    assert_eq!(universe.set_cells(&[(0, 1), (3, 0)]), Err(GridError::OutOfBounds));
    assert_eq!(universe.set_cells(&[(0, 4)]), Err(GridError::OutOfBounds));
    assert_eq!(alive(&universe), Vec::<usize>::new());
    assert_eq!(universe.set_cells(&[]), Ok(()));
}

#[test]
fn resizing_clears_the_universe() {
    let mut universe = Universe::new_sparse(4, 3, 2).unwrap();
    universe.set_width(6).unwrap();
    assert_eq!(universe.width(), 6);
    assert_eq!(universe.height(), 3);
    assert_eq!(universe.get_cells().len(), 18);
    assert_eq!(alive(&universe), Vec::<usize>::new());
    universe.set_cells(&[(1, 5)]).unwrap();
    universe.set_height(2).unwrap();
    assert_eq!(universe.width(), 6);
    assert_eq!(universe.height(), 2);
    assert_eq!(universe.get_cells().len(), 12);
    assert_eq!(alive(&universe), Vec::<usize>::new());
    universe.tick();
    assert_eq!(alive(&universe), Vec::<usize>::new());
}

#[test]
fn resizing_to_zero_is_refused() {
    let mut universe = Universe::new_sparse(4, 3, 2).unwrap();
    let before = states(&universe);
    assert_eq!(universe.set_width(0), Err(GridError::InvalidArgument));
    assert_eq!(universe.set_height(0), Err(GridError::InvalidArgument));
    assert_eq!(universe.width(), 4);
    assert_eq!(universe.height(), 3);
    assert_eq!(states(&universe), before);
}

#[test]
fn huge_dimensions_fail_or_fit_the_word() {
    // The product overflows a 32-bit word; on wider machines it fits, and no
    // grid of that size is allocated here.
    let product = (u32::MAX as u128) * (u32::MAX as u128);
    if product > usize::MAX as u128 {
        assert_eq!(
            Universe::new(u32::MAX, u32::MAX).err(),
            Some(GridError::AllocationFailure)
        );
    }
}

#[test]
fn get_cells_is_the_current_buffer() {
    let mut universe = Universe::new(3, 3).unwrap();
    universe.set_cells(&[(1, 0), (1, 1), (1, 2)]).unwrap();
    let mut expected = FixedBitSet::with_capacity(9);
    expected.insert(3);
    expected.insert(4);
    expected.insert(5);
    assert_eq!(universe.get_cells(), &expected);
    universe.tick();
    // On a 3 by 3 torus every dead cell sees the three live cells and is
    // born; every live cell sees the other two and stays.
    let cells = universe.get_cells();
    assert_eq!(cells.len(), 9);
    assert_eq!(cells.count_ones(..), 9);
}

#[test]
fn render_draws_one_line_per_row() {
    let mut universe = Universe::new(3, 2).unwrap();
    assert_eq!(universe.render(), "\u{25FB}\u{25FB}\u{25FB}\n\u{25FB}\u{25FB}\u{25FB}\n");
    universe.set_cells(&[(0, 1), (1, 2)]).unwrap();
    assert_eq!(universe.render(), "\u{25FB}\u{25FC}\u{25FB}\n\u{25FB}\u{25FB}\u{25FC}\n");
    let single = Universe::new_sparse(1, 1, 1).unwrap();
    assert_eq!(single.render(), "\u{25FC}\n");
}

#[test]
fn oscillators_tile_the_grid() {
    let universe = Universe::new_oscillators(12, 12, 6).unwrap();
    let mut expected = Vec::new();
    for row in [2usize, 8] {
        for col in [1usize, 2, 3, 7, 8, 9] {
            expected.push(row * 12 + col);
        }
    }
    assert_eq!(alive(&universe), expected);
}

#[test]
fn oscillators_overlap_when_the_spacing_is_small() {
    let universe = Universe::new_oscillators(7, 7, 3).unwrap();
    let mut expected = Vec::new();
    for row in [2usize, 5] {
        for col in [1usize, 2, 4, 5] {
            expected.push(row * 7 + col);
        }
    }
    assert_eq!(alive(&universe), expected);
}

#[test]
fn oscillators_are_cut_off_at_the_edges() {
    // Anchors at rows 0 and 4 and at columns 0 and 4 of a 6 by 7 grid: the
    // second row of anchors has no room for the blinker's middle row, the
    // second column only for the first of its three cells.
    let universe = Universe::new_oscillators(6, 7, 4).unwrap();
    assert_eq!(alive(&universe), vec![2 * 6 + 1, 2 * 6 + 2, 2 * 6 + 3, 2 * 6 + 5, 6 * 6 + 1, 6 * 6 + 2, 6 * 6 + 3, 6 * 6 + 5]);
}

#[test]
fn oscillators_need_room() {
    let universe = Universe::new_oscillators(6, 6, 6).unwrap();
    assert_eq!(alive(&universe), Vec::<usize>::new());
    let universe = Universe::new_oscillators(9, 5, 5).unwrap();
    assert_eq!(alive(&universe), Vec::<usize>::new());
    assert_eq!(Universe::new_oscillators(6, 6, 0).err(), Some(GridError::InvalidArgument));
}

#[test]
fn oscillators_oscillate() {
    let mut universe = Universe::new_oscillators(10, 10, 5).unwrap();
    let start = states(&universe);
    universe.tick();
    let turned = states(&universe);
    assert_ne!(turned, start);
    assert_eq!(turned, full_step(&start, 10, 10));
    universe.tick();
    assert_eq!(states(&universe), start);
}

#[test]
fn tick_all_sees_untracked_changes() {
    let mut universe = Universe::new(5, 5).unwrap();
    universe.toggle_cell_not_active(2, 1).unwrap();
    universe.toggle_cell_not_active(2, 2).unwrap();
    universe.toggle_cell_not_active(2, 3).unwrap();
    universe.tick_all();
    assert_eq!(alive(&universe), vec![7, 12, 17]);
    // From here on the marks are right again.
    universe.tick();
    assert_eq!(alive(&universe), vec![11, 12, 13]);
}

#[test]
fn tracked_and_untracked_ticks_agree() {
    for (width, height, scarcity) in [(6u32, 6u32, 3u32), (7, 4, 2), (3, 8, 5), (1, 3, 2)] {
        let mut pruned = Universe::new_sparse(width, height, scarcity).unwrap();
        let mut full = Universe::new_sparse(width, height, scarcity).unwrap();
        for n in 0..10 {
            assert_eq!(pruned.get_cells(), full.get_cells(), "after {} ticks", n);
            pruned.tick();
            full.tick_all();
        }
        assert_eq!(pruned.get_cells(), full.get_cells());
    }
}

#[test]
fn checked_index_validates_both_coordinates() {
    let universe = Universe::new(4, 3).unwrap();
    assert_eq!(universe.checked_index(0, 0), Ok(0));
    assert_eq!(universe.checked_index(2, 3), Ok(11));
    assert_eq!(universe.checked_index(1, 2), Ok(6));
    assert_eq!(universe.checked_index(3, 0), Err(GridError::OutOfBounds));
    assert_eq!(universe.checked_index(0, 4), Err(GridError::OutOfBounds));
    assert_eq!(universe.checked_index(u32::MAX, u32::MAX), Err(GridError::OutOfBounds));
}

fn active(universe: &Universe) -> Vec<usize> {
    universe.get_active_cells().ones().collect()
}

#[test]
fn toggle_marks_the_neighbourhood_active() {
    let mut universe = Universe::new(4, 3).unwrap();
    assert_eq!(active(&universe), Vec::<usize>::new());
    universe.toggle_cell(1, 1).unwrap();
    assert_eq!(active(&universe), vec![0, 1, 2, 4, 5, 6, 8, 9, 10]);
    universe.toggle_cell_not_active(1, 3).unwrap();
    assert_eq!(active(&universe), vec![0, 1, 2, 4, 5, 6, 8, 9, 10]);
    universe.toggle_cell(0, 0).unwrap();
    assert_eq!(active(&universe), vec![0, 1, 2, 3, 4, 5, 6, 7, 8, 9, 10, 11]);
}

#[test]
fn tick_marks_exactly_what_changed_and_its_neighbours() {
    let mut universe = Universe::new(6, 6).unwrap();
    universe.set_cells(&[(2, 2)]).unwrap();
    assert_eq!(active(&universe), vec![7, 8, 9, 13, 14, 15, 19, 20, 21]);
    // The lone cell dies: it is the only cell that changes.
    universe.tick();
    assert_eq!(active(&universe), vec![7, 8, 9, 13, 14, 15, 19, 20, 21]);
    // Nothing changes any more, so nothing stays active.
    universe.tick();
    assert_eq!(active(&universe), Vec::<usize>::new());
    universe.tick();
    assert_eq!(active(&universe), Vec::<usize>::new());
}

#[test]
fn stale_marks_do_not_survive_a_tick() {
    let mut universe = Universe::new(5, 5).unwrap();
    universe.toggle_cell(0, 0).unwrap();
    universe.tick();
    universe.tick();
    universe.tick();
    assert_eq!(alive(&universe), Vec::<usize>::new());
    assert_eq!(active(&universe), Vec::<usize>::new());
    // A change that is not marked stays unseen, also where marks once were.
    universe.toggle_cell_not_active(1, 1).unwrap();
    universe.tick();
    assert_eq!(alive(&universe), vec![6]);
    universe.tick();
    assert_eq!(alive(&universe), vec![6]);
}

#[test]
fn seeded_constructors_mark_every_cell() {
    let all: Vec<usize> = (0..12).collect();
    assert_eq!(active(&Universe::new_sparse(4, 3, 5).unwrap()), all);
    assert_eq!(active(&Universe::new_pattern(4, 3).unwrap()), all);
    assert_eq!(active(&Universe::new_rand(4, 3, &[false; 12]).unwrap()), all);
}

#[test]
fn insert_marks_the_block_and_its_border() {
    let mut universe = Universe::new(9, 9).unwrap();
    universe.insert_pattern(&Pattern::blinker(), 2, 2, 0).unwrap();
    // The block covers rows and columns 2 to 6; with its border, 1 to 7.
    let mut expected = Vec::new();
    for row in 1..=7usize {
        for col in 1..=7usize {
            expected.push(row * 9 + col);
        }
    }
    assert_eq!(active(&universe), expected);
}

#[test]
fn oscillators_mark_the_blocks_and_their_borders() {
    let universe = Universe::new_oscillators(8, 8, 7).unwrap();
    // Anchors at 0 and 7: the blocks cover 0..=4 and 7, and with their
    // borders every row and column of an 8 by 8 torus.
    let all: Vec<usize> = (0..64).collect();
    assert_eq!(active(&universe), all);
    let universe = Universe::new_oscillators(10, 10, 9).unwrap();
    // Blocks cover 0..=4 and 9; with borders 0..=5 and 8..=9.
    let mut expected = Vec::new();
    for row in [0usize, 1, 2, 3, 4, 5, 8, 9] {
        for col in [0usize, 1, 2, 3, 4, 5, 8, 9] {
            expected.push(row * 10 + col);
        }
    }
    assert_eq!(active(&universe), expected);
}
