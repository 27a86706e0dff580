use kyutile::shapes::{ellipse, flood, rectangle, MAX_EXTENT};

#[test]
fn a_box_that_is_not_filled_is_its_outline() {
    assert_eq!(
        rectangle(5, 5, 1, 1, 3, 3, false),
        vec![(1, 1), (1, 2), (1, 3), (2, 1), (2, 3), (3, 1), (3, 2), (3, 3)]
    );
}

#[test]
fn a_filled_box_holds_every_cell() {
    assert_eq!(
        rectangle(5, 5, 1, 1, 3, 3, true),
        vec![(1, 1), (1, 2), (1, 3), (2, 1), (2, 2), (2, 3), (3, 1), (3, 2), (3, 3)]
    );
}

#[test]
fn a_box_takes_its_corners_in_any_order() {
    let outline = rectangle(6, 6, 1, 2, 4, 4, false);
    assert_eq!(rectangle(6, 6, 4, 4, 1, 2, false), outline);
    assert_eq!(rectangle(6, 6, 4, 2, 1, 4, false), outline);
    assert_eq!(rectangle(6, 6, 1, 4, 4, 2, false), outline);
    assert_eq!(
        outline,
        vec![(2, 1), (2, 2), (2, 3), (2, 4), (3, 1), (3, 4), (4, 1), (4, 2), (4, 3), (4, 4)]
    );
}

#[test]
fn a_box_of_one_cell_or_one_line() {
    assert_eq!(rectangle(4, 4, 2, 1, 2, 1, false), vec![(1, 2)]);
    assert_eq!(rectangle(4, 4, 0, 3, 3, 3, false), vec![(3, 0), (3, 1), (3, 2), (3, 3)]);
    assert_eq!(rectangle(4, 4, 1, 0, 1, 2, true), vec![(0, 1), (1, 1), (2, 1)]);
}

#[test]
fn a_box_past_the_edge_gives_no_cell_outside_the_grid() {
    let filled = rectangle(5, 5, 3, 3, 10, 10, true);
    assert_eq!(filled, vec![(3, 3), (3, 4), (4, 3), (4, 4)]);
    let outline = rectangle(5, 5, 3, 3, 10, 10, false);
    assert_eq!(outline, vec![(3, 3), (3, 4), (4, 3)]);
    assert_eq!(rectangle(5, 5, 7, 7, 10, 10, true), Vec::new());
    let far = rectangle(5, 5, 0, 0, usize::MAX, usize::MAX, false);
    assert_eq!(far, vec![(0, 0), (0, 1), (0, 2), (0, 3), (0, 4), (1, 0), (2, 0), (3, 0), (4, 0)]);
    for shape in [filled, outline, far] {
        assert!(shape.iter().all(|&(row, col)| row <= 4 && col <= 4));
    }
}

#[test]
fn an_ellipse_in_a_square_box() {
    assert_eq!(
        ellipse(7, 7, 1, 1, 5, 5, false),
        vec![(1, 2), (1, 3), (1, 4), (2, 1), (2, 5), (3, 1), (3, 5), (4, 1), (4, 5), (5, 2), (5, 3), (5, 4)]
    );
    assert_eq!(
        ellipse(7, 7, 1, 1, 5, 5, true),
        vec![
            (1, 2), (1, 3), (1, 4),
            (2, 1), (2, 2), (2, 3), (2, 4), (2, 5),
            (3, 1), (3, 2), (3, 3), (3, 4), (3, 5),
            (4, 1), (4, 2), (4, 3), (4, 4), (4, 5),
            (5, 2), (5, 3), (5, 4),
        ]
    );
}

#[test]
fn an_ellipse_in_a_wide_box() {
    assert_eq!(
        ellipse(9, 7, 0, 1, 8, 5, false),
        vec![
            (1, 2), (1, 3), (1, 4), (1, 5), (1, 6),
            (2, 1), (2, 7),
            (3, 0), (3, 8),
            (4, 1), (4, 7),
            (5, 2), (5, 3), (5, 4), (5, 5), (5, 6),
        ]
    );
}

#[test]
fn an_ellipse_in_a_box_of_even_width_and_odd_height() {
    assert_eq!(
        ellipse(8, 8, 0, 0, 7, 6, false),
        vec![
            (0, 2), (0, 3), (0, 4), (0, 5),
            (1, 1), (1, 6),
            (2, 0), (2, 7),
            (3, 0), (3, 7),
            (4, 0), (4, 7),
            (5, 1), (5, 6),
            (6, 2), (6, 3), (6, 4), (6, 5),
        ]
    );
}

#[test]
fn an_ellipse_takes_its_corners_in_any_order() {
    let filled = ellipse(6, 4, 5, 0, 0, 3, true);
    assert_eq!(filled, ellipse(6, 4, 0, 0, 5, 3, true));
    assert_eq!(filled, ellipse(6, 4, 0, 3, 5, 0, true));
    assert_eq!(
        filled,
        vec![
            (0, 1), (0, 2), (0, 3), (0, 4),
            (1, 0), (1, 1), (1, 2), (1, 3), (1, 4), (1, 5),
            (2, 0), (2, 1), (2, 2), (2, 3), (2, 4), (2, 5),
            (3, 1), (3, 2), (3, 3), (3, 4),
        ]
    );
}

#[test]
fn an_ellipse_in_a_flat_box() {
    assert_eq!(ellipse(5, 5, 2, 2, 2, 2, false), vec![(2, 2)]);
    assert_eq!(ellipse(5, 5, 0, 2, 4, 2, false), vec![(2, 0), (2, 1), (2, 2), (2, 3), (2, 4)]);
    assert_eq!(ellipse(5, 5, 2, 0, 2, 4, false), vec![(2, 2)]);
}

#[test]
fn an_ellipse_past_the_edge_gives_no_cell_outside_the_grid() {
    assert_eq!(ellipse(5, 5, 3, 3, 10, 10, false), vec![(4, 4)]);
    let wide = ellipse(4, 3, 0, 0, MAX_EXTENT, 2, true);
    assert!(wide.iter().all(|&(row, col)| row <= 2 && col <= 3));
    assert!(wide.contains(&(1, 0)));
    assert_eq!(ellipse(3, 3, 100, 100, 120, 130, true), Vec::new());
}

fn islands() -> Vec<Vec<i32>> {
    vec![vec![1, 1, 0, 0], vec![1, 0, 0, 1], vec![1, 1, 0, 1], vec![0, 1, 1, 1]]
}

#[test]
fn a_flood_fill_without_limit_gives_the_whole_region() {
    assert_eq!(
        flood(&islands(), 4, 4, 0, 0, None),
        vec![(0, 0), (0, 1), (1, 0), (1, 3), (2, 0), (2, 1), (2, 3), (3, 1), (3, 2), (3, 3)]
    );
    assert_eq!(
        flood(&islands(), 4, 4, 2, 0, None),
        vec![(0, 2), (0, 3), (1, 1), (1, 2), (2, 2)]
    );
    assert_eq!(flood(&islands(), 4, 4, 0, 3, None), vec![(3, 0)]);
}

#[test]
fn a_flood_fill_gives_no_cell_of_another_tile() {
    let grid = islands();
    for (x, y) in [(0, 0), (2, 0), (0, 3), (3, 3)] {
        let tile = grid[y][x];
        let region = flood(&grid, 4, 4, x, y, None);
        assert!(region.contains(&(y, x)));
        assert!(region.iter().all(|&(row, col)| grid[row][col] == tile));
        for &(row, col) in &region {
            for (r, c) in [(row + 1, col), (row, col + 1)] {
                if r < 4 && c < 4 && grid[r][c] == tile {
                    assert!(region.contains(&(r, c)));
                }
            }
        }
    }
}

#[test]
fn a_flood_fill_with_a_limit_stops_after_that_many_moves() {
    assert_eq!(flood(&islands(), 4, 4, 0, 0, Some(0)), vec![(0, 0)]);
    assert_eq!(flood(&islands(), 4, 4, 0, 0, Some(1)), vec![(0, 0), (0, 1), (1, 0)]);
    assert_eq!(flood(&islands(), 4, 4, 0, 0, Some(2)), vec![(0, 0), (0, 1), (1, 0), (2, 0)]);
    assert_eq!(
        flood(&islands(), 4, 4, 0, 0, Some(4)),
        vec![(0, 0), (0, 1), (1, 0), (2, 0), (2, 1), (3, 1)]
    );
    assert_eq!(flood(&islands(), 4, 4, 0, 0, Some(9)), flood(&islands(), 4, 4, 0, 0, None));
    assert_eq!(
        flood(&islands(), 4, 4, 0, 0, Some(usize::MAX)),
        flood(&islands(), 4, 4, 0, 0, None)
    );
}

#[test]
fn a_flood_fill_from_outside_the_grid_gives_nothing() {
    assert_eq!(flood(&islands(), 4, 4, 4, 0, None), Vec::new());
    assert_eq!(flood(&islands(), 4, 4, 0, 9, Some(3)), Vec::new());
}

#[test]
fn a_flood_fill_over_a_plain_grid_gives_every_cell() {
    let grid = vec![vec![5; 6]; 5];
    assert_eq!(flood(&grid, 6, 5, 3, 2, None).len(), 30);
    assert_eq!(flood(&grid, 6, 5, 0, 0, Some(2)), vec![(0, 0), (0, 1), (0, 2), (1, 0), (1, 1), (2, 0)]);
}
