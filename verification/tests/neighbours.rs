use game_of_life::{GridError, NeighbourIter, Universe};

fn collect(mut iter: NeighbourIter) -> Vec<usize> {
    let mut out = Vec::new();
    while let Some(index) = iter.next() {
        out.push(index);
    }
    out
}

#[test]
fn test_get_neighbour() {
    let indices: Vec<usize> = collect(Universe::get_neighbours(0, 4, 3));

    let expected_indices = [11, 8, 9, 3, 1, 7, 4, 5];

    assert_eq!(indices.len(), expected_indices.len());
    for i in 0..expected_indices.len() {
        assert_eq!(expected_indices[i], indices[i]);
    }
}

#[test]
fn test_get_neighbour_array() {
    let indices = Universe::get_neighbour_array(0, 4, 3);

    let expected_indices = [11, 8, 9, 3, 1, 7, 4, 5];

    assert_eq!(expected_indices, indices);
}

#[test]
fn test_count_neighbours() {
    let (width, height) = (20, 30);
    let universe = Universe::new_sparse(width, height, 3).unwrap();
    let (width, height) = (width as usize, height as usize);

    let expected_count = universe.index_neighbour_count(0);

    let mut count = 0;
    let cells = universe.get_cells();
    for i in Universe::get_neighbour_array(0, width, height) {
        count += cells.contains(i) as u8;
    }

    assert_eq!(expected_count, count);
}

#[test]
fn neighbours_of_an_inner_cell() {
    // Cell (1, 1) of a 4 by 3 grid.
    assert_eq!(Universe::get_neighbour_array(5, 4, 3), [0, 1, 2, 4, 6, 8, 9, 10]);
}

#[test]
fn neighbours_of_the_last_cell_wrap_both_ways() {
    // Cell (2, 3) of a 4 by 3 grid.
    assert_eq!(Universe::get_neighbour_array(11, 4, 3), [6, 7, 4, 10, 8, 2, 3, 0]);
}

#[test]
fn neighbours_on_a_single_cell_grid_are_the_cell() {
    assert_eq!(Universe::get_neighbour_array(0, 1, 1), [0; 8]);
}

#[test]
fn lazy_and_array_neighbours_agree_everywhere() {
    for (width, height) in [(1usize, 1usize), (1, 4), (4, 1), (2, 2), (3, 5), (7, 4)] {
        for index in 0..width * height {
            let lazy = collect(Universe::get_neighbours(index, width, height));
            let array = Universe::get_neighbour_array(index, width, height);
            assert_eq!(lazy, array.to_vec());
        }
    }
}

#[test]
fn iterator_stays_exhausted() {
    let mut iter = Universe::get_neighbours(3, 4, 3);
    for _ in 0..8 {
        assert!(iter.next().is_some());
    }
    assert_eq!(iter.state, 8);
    for _ in 0..300 {
        assert_eq!(iter.next(), None);
    }
    assert_eq!(iter.state, 255);
}

#[test]
fn iterator_counts_every_call() {
    let mut iter = Universe::get_neighbours(0, 4, 3);
    for asked in 0..8u8 {
        assert_eq!(iter.state, asked);
        assert!(iter.next().is_some());
    }
    // A call that returns nothing counts too.
    assert_eq!(iter.next(), None);
    assert_eq!(iter.state, 9);
    assert_eq!(iter.next(), None);
    assert_eq!(iter.state, 10);
}

#[test]
fn iterator_counter_stops_at_its_limit() {
    let mut iter = NeighbourIter {
        width: 4,
        row: 0,
        col: 0,
        north: 2,
        south: 1,
        east: 1,
        west: 3,
        state: 254,
    };
    assert_eq!(iter.next(), None);
    assert_eq!(iter.state, 255);
    assert_eq!(iter.next(), None);
    assert_eq!(iter.state, 255);
}

#[test]
fn iterator_keeps_its_coordinates() {
    let mut iter = Universe::get_neighbours(6, 4, 3);
    for _ in 0..12 {
        iter.next();
        assert_eq!(
            (iter.width, iter.row, iter.col, iter.north, iter.south, iter.east, iter.west),
            (4, 1, 2, 0, 2, 3, 1)
        );
    }
}

#[test]
fn checked_neighbour_count_validates_the_index() {
    let universe = Universe::new_sparse(4, 4, 2).unwrap();
    assert_eq!(universe.checked_neighbour_count(0), Ok(2));
    assert_eq!(universe.checked_neighbour_count(5), Ok(6));
    assert_eq!(universe.checked_neighbour_count(15), Ok(6));
    for index in 0..16 {
        assert_eq!(
            universe.checked_neighbour_count(index),
            Ok(universe.index_neighbour_count(index))
        );
    }
    assert_eq!(universe.checked_neighbour_count(16), Err(GridError::OutOfBounds));
    assert_eq!(universe.checked_neighbour_count(usize::MAX), Err(GridError::OutOfBounds));
}

#[test]
fn iterator_built_by_hand_resumes_from_its_state() {
    let mut iter = NeighbourIter {
        width: 4,
        row: 0,
        col: 0,
        north: 2,
        south: 1,
        east: 1,
        west: 3,
        state: 5,
    };
    assert_eq!(iter.next(), Some(7));
    assert_eq!(iter.next(), Some(4));
    assert_eq!(iter.next(), Some(5));
    assert_eq!(iter.next(), None);
}

#[test]
fn get_index_is_row_major() {
    assert_eq!(Universe::get_index(4, 0, 0), 0);
    assert_eq!(Universe::get_index(4, 2, 3), 11);
    assert_eq!(Universe::get_index(7, 3, 5), 26);
}

#[test]
fn neighbour_counts_agree_on_every_cell() {
    for (width, height, scarcity) in [(2u32, 2u32, 1u32), (2, 2, 3), (5, 4, 2), (6, 6, 3), (9, 3, 4)] {
        let universe = Universe::new_sparse(width, height, scarcity).unwrap();
        let cells = universe.get_cells();
        for index in 0..(width * height) as usize {
            let mut count = 0u8;
            for n in Universe::get_neighbour_array(index, width as usize, height as usize) {
                count += cells.contains(n) as u8;
            }
            assert_eq!(universe.index_neighbour_count(index), count);
        }
    }
}

#[test]
fn neighbour_count_exact_values() {
    // 4 by 4, alive where the index is even: columns 0 and 2 are alive.
    let universe = Universe::new_sparse(4, 4, 2).unwrap();
    // A live cell in column 0 has the two cells above and below it alive.
    assert_eq!(universe.index_neighbour_count(0), 2);
    // A dead cell in column 1 has columns 0 and 2 on both sides: six alive.
    assert_eq!(universe.index_neighbour_count(5), 6);
    let full = Universe::new_sparse(3, 3, 1).unwrap();
    assert_eq!(full.index_neighbour_count(4), 8);
    let empty = Universe::new(3, 3).unwrap();
    assert_eq!(empty.index_neighbour_count(4), 0);
}
