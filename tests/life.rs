use life_grid::cells::{map_from_draws, CellMap, Cells};

fn grid(width: usize, height: usize, live: &[(usize, usize)]) -> CellMap {
    let mut m = vec![vec![false; height]; width];
    for &(x, y) in live {
        m[x][y] = true;
    }
    m
}

fn engine(width: usize, height: usize, live: &[(usize, usize)]) -> Cells {
    Cells::from_cells(grid(width, height, live)).expect("a rectangular grid")
}

#[test]
fn corner_counts_opposite_corner_as_neighbor() {
    // (0, 0) is dead with live neighbours (1, 0), (0, 1) and, across both
    // edges, (3, 3): three in all, so it is born.
    let mut c = engine(4, 4, &[(1, 0), (0, 1), (3, 3)]);
    c.update();
    assert!(c.borrow_cells()[0][0]);
}

#[test]
fn single_corner_cell_wraps_on_three_by_three() {
    // On a 3x3 torus every cell neighbours every other: with (0, 0) live and
    // (1, 0), (2, 2) live, each dead cell sees three and each live cell two.
    let mut c = engine(3, 3, &[(0, 0), (1, 0), (2, 2)]);
    c.update();
    assert_eq!(c.borrow_cells(), &vec![vec![true; 3]; 3]);
    // (0, 0)'s only live neighbours are (2, 0) and (2, 2), both across an
    // edge: it survives on two. A clamped grid would leave it none.
    let mut d = engine(3, 3, &[(0, 0), (2, 0), (2, 2)]);
    d.update();
    assert!(d.borrow_cells()[0][0]);
}

#[test]
fn l_shape_births_the_fourth_corner() {
    let mut c = engine(3, 3, &[(0, 0), (1, 0), (0, 1)]);
    c.update();
    assert!(c.borrow_cells()[1][1]);
    assert_eq!(c.borrow_cells(), &vec![vec![true; 3]; 3]);
}

#[test]
fn l_shape_births_the_fourth_corner_on_a_larger_grid() {
    let mut c = engine(5, 5, &[(1, 1), (2, 1), (1, 2)]);
    c.update();
    assert_eq!(c.borrow_cells(), &grid(5, 5, &[(1, 1), (2, 1), (1, 2), (2, 2)]));
}

#[test]
fn live_cell_with_one_neighbor_dies() {
    let mut c = engine(5, 5, &[(2, 2), (2, 3)]);
    c.update();
    assert_eq!(c.borrow_cells(), &grid(5, 5, &[]));
}

#[test]
fn live_cell_with_two_neighbors_survives() {
    let mut c = engine(5, 5, &[(1, 2), (2, 2), (3, 2)]);
    c.update();
    assert_eq!(c.borrow_cells(), &grid(5, 5, &[(2, 1), (2, 2), (2, 3)]));
}

#[test]
fn live_cell_with_four_neighbors_dies() {
    // (2, 2) has four live neighbours and dies; the plus sign grows into a ring.
    let mut c = engine(5, 5, &[(2, 2), (1, 2), (3, 2), (2, 1), (2, 3)]);
    c.update();
    let expected = grid(
        5,
        5,
        &[(1, 1), (1, 2), (1, 3), (2, 1), (2, 3), (3, 1), (3, 2), (3, 3)],
    );
    assert_eq!(c.borrow_cells(), &expected);
}

#[test]
fn block_is_a_still_life() {
    let block = grid(4, 4, &[(1, 1), (2, 1), (1, 2), (2, 2)]);
    let mut c = Cells::from_cells(block.clone()).unwrap();
    for _ in 0..5 {
        c.update();
        assert_eq!(c.borrow_cells(), &block);
    }
    let wide = grid(8, 6, &[(0, 0), (1, 0), (0, 1), (1, 1)]);
    let mut d = Cells::from_cells(wide.clone()).unwrap();
    d.update();
    assert_eq!(d.borrow_cells(), &wide);
}

#[test]
fn block_across_the_seam_is_a_still_life() {
    let block = grid(5, 4, &[(4, 3), (0, 3), (4, 0), (0, 0)]);
    let mut c = Cells::from_cells(block.clone()).unwrap();
    c.update();
    assert_eq!(c.borrow_cells(), &block);
}

#[test]
fn new_grid_has_its_extent_before_any_update() {
    let c = Cells::new(3, 9);
    assert_eq!(c.borrow_cells().len(), 3);
    assert!(c.borrow_cells().iter().all(|col| col.len() == 9));
}

#[test]
fn blinker_oscillates_with_period_two() {
    let vertical = grid(5, 5, &[(2, 1), (2, 2), (2, 3)]);
    let horizontal = grid(5, 5, &[(1, 2), (2, 2), (3, 2)]);
    let mut c = Cells::from_cells(vertical.clone()).unwrap();
    c.update();
    assert_eq!(c.borrow_cells(), &horizontal);
    c.update();
    assert_eq!(c.borrow_cells(), &vertical);
}

#[test]
fn update_depends_on_current_grid_only() {
    // `a` has advanced once, so its scratch buffer holds the vertical
    // blinker; `b` starts at the same grid with a dead scratch buffer.
    let vertical = grid(5, 5, &[(2, 1), (2, 2), (2, 3)]);
    let horizontal = grid(5, 5, &[(1, 2), (2, 2), (3, 2)]);
    let mut a = Cells::from_cells(vertical.clone()).unwrap();
    a.update();
    let mut b = Cells::from_cells(horizontal).unwrap();
    assert_eq!(a.borrow_cells(), b.borrow_cells());
    a.update();
    b.update();
    assert_eq!(a.borrow_cells(), b.borrow_cells());
    assert_eq!(a.borrow_cells(), &vertical);
}

#[test]
fn dimensions_are_kept_across_updates() {
    let mut c = Cells::new(7, 5);
    for _ in 0..10 {
        c.update();
        assert_eq!(c.width(), 7);
        assert_eq!(c.height(), 5);
        assert_eq!(c.borrow_cells().len(), 7);
        assert!(c.borrow_cells().iter().all(|col| col.len() == 5));
    }
}

#[test]
fn new_random_grid_has_requested_extent() {
    let c = Cells::new(128, 128);
    assert_eq!(c.width(), 128);
    assert_eq!(c.height(), 128);
    assert_eq!(c.borrow_cells().len(), 128);
    assert!(c.borrow_cells().iter().all(|col| col.len() == 128));
}

#[test]
fn copy_of_view_is_independent_of_engine() {
    let vertical = grid(5, 5, &[(2, 1), (2, 2), (2, 3)]);
    let horizontal = grid(5, 5, &[(1, 2), (2, 2), (3, 2)]);
    let mut c = Cells::from_cells(vertical.clone()).unwrap();
    c.update();
    let mut copy = c.borrow_cells().clone();
    copy[0][0] = true;
    copy[2][2] = false;
    assert_eq!(c.borrow_cells(), &horizontal);
    c.update();
    assert_eq!(c.borrow_cells(), &vertical);
    c.update();
    assert_eq!(c.borrow_cells(), &horizontal);
}

#[test]
fn single_cell_grid_is_its_own_eight_neighbors() {
    // On a 1x1 torus the cell's eight neighbours are all itself: a live cell
    // sees eight and dies, a dead one sees none and stays dead.
    let mut c = engine(1, 1, &[(0, 0)]);
    c.update();
    assert_eq!(c.borrow_cells(), &vec![vec![false]]);
    c.update();
    assert_eq!(c.borrow_cells(), &vec![vec![false]]);
}

#[test]
fn from_cells_rejects_degenerate_grids() {
    assert!(Cells::from_cells(vec![]).is_none());
    assert!(Cells::from_cells(vec![vec![], vec![]]).is_none());
    assert!(Cells::from_cells(vec![vec![true, false], vec![true]]).is_none());
    let c = Cells::from_cells(vec![vec![true, false, true], vec![false, false, true]]).unwrap();
    assert_eq!(c.width(), 2);
    assert_eq!(c.height(), 3);
    assert_eq!(c.borrow_cells(), &vec![vec![true, false, true], vec![false, false, true]]);
}

#[test]
fn draws_are_laid_out_column_by_column() {
    let draws = vec![true, false, false, false, true, true];
    let m = map_from_draws(2, 3, &draws);
    assert_eq!(m, vec![vec![true, false, false], vec![false, true, true]]);
    let n = map_from_draws(3, 2, &draws);
    assert_eq!(n, vec![vec![true, false], vec![false, false], vec![true, true]]);
}

#[test]
fn engine_seeded_from_given_draws() {
    // Column-major draws for the L of (0, 0), (1, 0), (0, 1) on a 3x3 grid.
    let draws = vec![true, true, false, true, false, false, false, false, false];
    let mut c = Cells::from_draws(3, 3, &draws);
    assert_eq!(c.width(), 3);
    assert_eq!(c.height(), 3);
    assert_eq!(c.borrow_cells(), &grid(3, 3, &[(0, 0), (1, 0), (0, 1)]));
    c.update();
    assert_eq!(c.borrow_cells(), &vec![vec![true; 3]; 3]);
}
