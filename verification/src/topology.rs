//! Row-major cell indices and the eight neighbours of a cell on a torus.

use vstd::prelude::*;

verus! {

/// The linear index of the cell at (`row`, `col`) in a grid `width` cells wide.
pub open spec fn cell_index(width: int, row: int, col: int) -> int {
    row * width + col
}

/// The coordinate one step before `x` on a ring of `n` positions.
pub open spec fn step_back(x: int, n: int) -> int {
    if x == 0 {
        n - 1
    } else {
        x - 1
    }
}

/// The coordinate one step after `x` on a ring of `n` positions.
pub open spec fn step_forth(x: int, n: int) -> int {
    if x == n - 1 {
        0
    } else {
        x + 1
    }
}

/// Whether `a` is `b` or one step from it on a ring of `n` positions.
pub open spec fn near(a: int, b: int, n: int) -> bool {
    a == b || a == step_back(b, n) || a == step_forth(b, n)
}

/// Grid dimensions that this library works with: at least one row and one
/// column, and a cell count that fits the machine word.
pub open spec fn valid_dims(width: int, height: int) -> bool {
    1 <= width && 1 <= height && width * height <= usize::MAX
}

/// The eight neighbours of cell `index`, wrapping at the edges, in the order
/// NW, N, NE, W, E, SW, S, SE.
pub open spec fn neighbour_indices(index: int, width: int, height: int) -> Seq<int> {
    let row = index / width;
    let col = index % width;
    let north = step_back(row, height);
    let south = step_forth(row, height);
    let west = step_back(col, width);
    let east = step_forth(col, width);
    seq![
        cell_index(width, north, west),
        cell_index(width, north, col),
        cell_index(width, north, east),
        cell_index(width, row, west),
        cell_index(width, row, east),
        cell_index(width, south, west),
        cell_index(width, south, col),
        cell_index(width, south, east),
    ]
}

/// Whether cell `i` is cell `j` or one of its eight neighbours.
pub open spec fn in_neighbourhood(i: int, j: int, width: int, height: int) -> bool {
    i == j || neighbour_indices(j, width, height).contains(i)
}

/// Whether cell `i` lies within one toroidal step of cell `j` in both its row
/// and its column.
pub open spec fn adjacent(i: int, j: int, width: int, height: int) -> bool {
    near(i / width, j / width, height) && near(i % width, j % width, width)
}

/// A cell inside the grid has a row below `height` and a column below `width`,
/// and its index is rebuilt from the two.
pub proof fn lemma_coords(index: int, width: int, height: int)
    requires
        1 <= width,
        1 <= height,
        0 <= index < width * height,
    ensures
        0 <= index / width < height,
        0 <= index % width < width,
        index == cell_index(width, index / width, index % width),
{
    vstd::arithmetic::div_mod::lemma_fundamental_div_mod(index, width);
    assert(0 <= index / width < height) by (nonlinear_arith)
        requires
            1 <= width,
            0 <= index < width * height,
            index == width * (index / width) + index % width,
            0 <= index % width < width,
    ;
    assert(width * (index / width) == (index / width) * width) by (nonlinear_arith);
}

/// A row below `height` and a column below `width` name a cell inside the
/// grid, whose row and column they are.
pub proof fn lemma_index_of_coords(width: int, height: int, row: int, col: int)
    requires
        0 <= row < height,
        0 <= col < width,
    ensures
        0 <= cell_index(width, row, col) < width * height,
        cell_index(width, row, col) / width == row,
        cell_index(width, row, col) % width == col,
{
    assert(0 <= row * width + col < width * height) by (nonlinear_arith)
        requires
            0 <= row < height,
            0 <= col < width,
    ;
    vstd::arithmetic::div_mod::lemma_fundamental_div_mod_converse(
        row * width + col,
        width,
        row,
        col,
    );
}

/// Every neighbour of a cell inside the grid lies inside the grid.
pub proof fn lemma_neighbours_in_grid(index: int, width: int, height: int)
    requires
        1 <= width,
        1 <= height,
        0 <= index < width * height,
    ensures
        neighbour_indices(index, width, height).len() == 8,
        forall|k: int|
            0 <= k < 8 ==> 0 <= #[trigger] neighbour_indices(index, width, height)[k] < width
                * height,
{
    lemma_coords(index, width, height);
    let row = index / width;
    let col = index % width;
    let north = step_back(row, height);
    let south = step_forth(row, height);
    let west = step_back(col, width);
    let east = step_forth(col, width);
    lemma_index_of_coords(width, height, north, west);
    lemma_index_of_coords(width, height, north, col);
    lemma_index_of_coords(width, height, north, east);
    lemma_index_of_coords(width, height, row, west);
    lemma_index_of_coords(width, height, row, east);
    lemma_index_of_coords(width, height, south, west);
    lemma_index_of_coords(width, height, south, col);
    lemma_index_of_coords(width, height, south, east);
}

/// Membership in a neighbourhood is nearness of rows and of columns.
pub proof fn lemma_neighbourhood_is_adjacency(i: int, j: int, width: int, height: int)
    requires
        1 <= width,
        1 <= height,
        0 <= i < width * height,
        0 <= j < width * height,
    ensures
        in_neighbourhood(i, j, width, height) == adjacent(i, j, width, height),
{
    lemma_coords(i, width, height);
    lemma_coords(j, width, height);
    let row = j / width;
    let col = j % width;
    let north = step_back(row, height);
    let south = step_forth(row, height);
    let west = step_back(col, width);
    let east = step_forth(col, width);
    lemma_index_of_coords(width, height, north, west);
    lemma_index_of_coords(width, height, north, col);
    lemma_index_of_coords(width, height, north, east);
    lemma_index_of_coords(width, height, row, west);
    lemma_index_of_coords(width, height, row, east);
    lemma_index_of_coords(width, height, south, west);
    lemma_index_of_coords(width, height, south, col);
    lemma_index_of_coords(width, height, south, east);
    let s = neighbour_indices(j, width, height);
    assert(s[0] == cell_index(width, north, west));
    assert(s[1] == cell_index(width, north, col));
    assert(s[2] == cell_index(width, north, east));
    assert(s[3] == cell_index(width, row, west));
    assert(s[4] == cell_index(width, row, east));
    assert(s[5] == cell_index(width, south, west));
    assert(s[6] == cell_index(width, south, col));
    assert(s[7] == cell_index(width, south, east));
    if adjacent(i, j, width, height) && i != j {
        let r = i / width;
        let c = i % width;
        assert(i == cell_index(width, r, c));
        assert(r == north || r == row || r == south);
        assert(c == west || c == col || c == east);
        assert(!(r == row && c == col));
        assert(s[0] == i || s[1] == i || s[2] == i || s[3] == i || s[4] == i || s[5] == i
            || s[6] == i || s[7] == i);
        assert(s.contains(i));
    }
    if s.contains(i) {
        let k = choose|k: int| 0 <= k < s.len() && s[k] == i;
        assert(0 <= k < 8);
        assert(adjacent(i, j, width, height));
    }
}

/// Neighbourhoods are symmetric: `i` is in that of `j` exactly when `j` is in
/// that of `i`.
pub proof fn lemma_neighbourhood_symmetric(i: int, j: int, width: int, height: int)
    requires
        1 <= width,
        1 <= height,
        0 <= i < width * height,
        0 <= j < width * height,
    ensures
        in_neighbourhood(i, j, width, height) == in_neighbourhood(j, i, width, height),
{
    lemma_neighbourhood_is_adjacency(i, j, width, height);
    lemma_neighbourhood_is_adjacency(j, i, width, height);
    lemma_coords(i, width, height);
    lemma_coords(j, width, height);
}

} // verus!
