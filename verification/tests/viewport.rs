//! Placements on the screen: scrolling, cell sizes, redrawing.

use kitty_graphics::grid::KittyGrid;
use kitty_graphics::placement::{compute_extent, delete_fits, test_removes};
use kitty_graphics::placements::{changed_chunks_fit, compute_cell_list, image_ids, scroll};
use kitty_graphics::store::KittyImageStore;
use kitty_graphics::types::{
    KittyAction, KittyCommand, KittyControlData, KittyImage, KittyImageChunk, KittyPlacement,
    SizeInPixels,
};
use kitty_graphics::viewport::{
    compute_cells, make_chunk, move_fits, move_up, rescale, rescale_fits, test_touches_lines,
};
use std::collections::HashMap;

const CELL: SizeInPixels = SizeInPixels { height: 20, width: 10 };

/// A grid with a placement of image 1 for each (x, y, width, height).
fn grid_with(places: &[(usize, usize, usize, usize)]) -> KittyGrid {
    let mut grid = KittyGrid::new(Some(CELL));
    let mut store = KittyImageStore::default();
    store.store_image(KittyImage { id: 1, width: 1, height: 1, pixel_data: vec![0; 4] });
    for (x, y, width, height) in places {
        let control = KittyControlData {
            action: KittyAction::Put,
            image_id: Some(1),
            display_width: Some(*width),
            display_height: Some(*height),
            ..KittyControlData::default()
        };
        let command = KittyCommand { control, payload: vec![] };
        assert!(grid.handle_command(&mut store, Some(CELL), command, *x, *y).is_ok());
    }
    grid
}

fn placement(x: usize, y: isize, width: usize, height: usize) -> KittyPlacement {
    KittyPlacement {
        image_id: 1,
        placement_id: 1,
        pixel_x: x,
        pixel_y: y,
        display_width: width,
        display_height: height,
        z_index: 0,
    }
}

fn drawn(grid: &KittyGrid, changes: &[(usize, usize)], scrollback: usize) -> Vec<(u32, usize, usize)> {
    let changes: HashMap<usize, usize> = changes.iter().copied().collect();
    assert!(grid.changed_kitty_chunks_fit(Some(CELL), &changes, scrollback, 0, 0));
    grid.changed_kitty_chunks_in_viewport(Some(CELL), changes, scrollback, 80, 0, 0)
        .iter()
        .map(|c| (c.kitty_placement_id, c.cell_x, c.cell_y))
        .collect()
}

#[test]
fn a_chunk_is_the_whole_image_at_its_cell() {
    let grid = grid_with(&[(25, 45, 30, 50)]);
    let chunks = grid.changed_kitty_chunks_in_viewport(
        Some(CELL),
        HashMap::from([(2, 1)]),
        1,
        80,
        100,
        200,
    );
    assert_eq!(
        chunks,
        vec![KittyImageChunk {
            cell_x: 102,
            cell_y: 201,
            kitty_image_pixel_x: 0,
            kitty_image_pixel_y: 0,
            kitty_image_pixel_width: 30,
            kitty_image_pixel_height: 50,
            kitty_image_id: 1,
            kitty_placement_id: 1,
        }]
    );
}

#[test]
fn only_touched_placements_are_drawn() {
    // From the row 40 to the row 60.
    let grid = grid_with(&[(0, 40, 10, 20)]);
    assert_eq!(drawn(&grid, &[(2, 1)], 0), vec![(1, 0, 2)]);
    assert_eq!(drawn(&grid, &[(0, 10)], 0), vec![(1, 0, 2)]);
    // Edges that meet count as touching.
    assert_eq!(drawn(&grid, &[(1, 1)], 0), vec![(1, 0, 2)]);
    assert_eq!(drawn(&grid, &[(3, 1)], 0), vec![(1, 0, 2)]);
    assert_eq!(drawn(&grid, &[(0, 1)], 0), vec![]);
    assert_eq!(drawn(&grid, &[(4, 9)], 0), vec![]);
    assert_eq!(drawn(&grid, &[], 0), vec![]);
    // Lines are counted from the end of the scrollback.
    assert_eq!(drawn(&grid, &[(0, 1)], 2), vec![(1, 0, 0)]);
    // A tall placement reaches over the changed lines.
    let tall = grid_with(&[(0, 0, 10, 1000)]);
    assert_eq!(drawn(&tall, &[(10, 1)], 0), vec![(1, 0, 0)]);
}

#[test]
fn a_placement_is_drawn_once() {
    let grid = grid_with(&[(0, 0, 10, 100), (50, 20, 10, 100), (90, 500, 10, 10)]);
    assert_eq!(
        drawn(&grid, &[(0, 1), (1, 1), (2, 1), (3, 5)], 0),
        vec![(1, 0, 0), (2, 5, 1)]
    );
}

#[test]
fn a_placement_in_the_scrollback_is_drawn_from_the_top() {
    let grid = grid_with(&[(0, 40, 10, 100)]);
    assert_eq!(drawn(&grid, &[(0, 1)], 5), vec![(1, 0, 0)]);
    assert_eq!(drawn(&grid, &[(0, 1)], 0), vec![]);
    assert_eq!(drawn(&grid, &[(1, 1)], 1), vec![(1, 0, 1)]);
}

#[test]
fn nothing_is_drawn_in_cells_of_unknown_size() {
    let grid = grid_with(&[(0, 0, 10, 10)]);
    let changes = HashMap::from([(0, usize::MAX)]);
    assert!(grid.changed_kitty_chunks_fit(None, &changes, 0, 0, 0));
    assert!(grid.changed_kitty_chunks_in_viewport(None, changes, 0, 80, 0, 0).is_empty());
    assert!(grid.placement_cell_coordinates_in_viewport(None, 24, 0).is_empty());
    assert!(grid.placement_cell_coordinates_fit(None, usize::MAX));
}

#[test]
fn drawing_beyond_the_range_does_not_fit() {
    let grid = grid_with(&[(0, 0, 10, 10)]);
    let one = HashMap::from([(0, 1)]);
    assert!(grid.changed_kitty_chunks_fit(Some(CELL), &one, 0, usize::MAX, usize::MAX));
    assert!(!grid.changed_kitty_chunks_fit(Some(CELL), &one, usize::MAX, 0, 0));
    assert!(!grid.changed_kitty_chunks_fit(Some(CELL), &HashMap::from([(0, usize::MAX)]), 0, 0, 0));
    assert!(!grid.changed_kitty_chunks_fit(Some(CELL), &HashMap::from([(usize::MAX, 1)]), 1, 0, 0));
    let flat = SizeInPixels { height: 0, width: 10 };
    assert!(!grid.changed_kitty_chunks_fit(Some(flat), &one, 0, 0, 0));
    let right = grid_with(&[(10, 0, 10, 10)]);
    assert!(!right.changed_kitty_chunks_fit(Some(CELL), &one, 0, usize::MAX, 0));
    // What is not touched is not drawn.
    assert!(right.changed_kitty_chunks_fit(Some(CELL), &HashMap::from([(9, 1)]), 0, usize::MAX, 0));
    let none: HashMap<usize, usize> = HashMap::new();
    assert!(changed_chunks_fit(&vec![], &one, usize::MAX, CELL, 0, 0));
    assert!(grid.changed_kitty_chunks_fit(Some(CELL), &none, usize::MAX, 0, 0));
}

#[test]
fn scrolling_moves_placements_up_until_they_are_gone() {
    let mut grid = grid_with(&[(0, 0, 10, 21), (0, 40, 10, 20)]);
    assert!(grid.offset_grid_top_fits(Some(CELL)));
    grid.offset_grid_top(Some(CELL));
    // At -20 and 20.
    assert_eq!(drawn(&grid, &[(0, 100)], 0), vec![(1, 0, 0), (2, 0, 1)]);
    grid.offset_grid_top(Some(CELL));
    assert_eq!(drawn(&grid, &[(0, 100)], 0), vec![(2, 0, 0)]);
    grid.offset_grid_top(None);
    assert_eq!(drawn(&grid, &[(0, 100)], 0), vec![(2, 0, 0)]);
    grid.offset_grid_top(Some(CELL));
    assert!(grid.clear().is_none());
}

#[test]
fn one_placement_scrolls() {
    assert_eq!(move_up(&placement(3, 20, 1, 1), CELL), Some(placement(3, 0, 1, 1)));
    assert_eq!(move_up(&placement(3, 0, 1, 21), CELL), Some(placement(3, -20, 1, 21)));
    assert_eq!(move_up(&placement(3, 0, 1, 20), CELL), None);
    assert_eq!(
        scroll(&vec![placement(3, 0, 1, 20), placement(4, 20, 1, 20)], CELL),
        vec![placement(4, 0, 1, 20)]
    );
    assert!(move_fits(&placement(0, isize::MIN + 20, 0, 0), CELL));
    assert!(!move_fits(&placement(0, isize::MIN + 19, 0, 0), CELL));
    assert!(!move_fits(&placement(0, isize::MAX, 0, 21), CELL));
}

#[test]
fn a_new_cell_size_keeps_the_cells() {
    let mut grid = grid_with(&[(35, 65, 10, 20)]);
    let larger = SizeInPixels { height: 30, width: 15 };
    assert!(grid.character_cell_size_change_fits(Some(larger)));
    grid.character_cell_size_possibly_changed(Some(larger));
    // The cell (3, 3) begins at (45, 90) now.
    let chunks = grid.changed_kitty_chunks_in_viewport(
        Some(larger),
        HashMap::from([(0, 100)]),
        0,
        80,
        0,
        0,
    );
    assert_eq!((chunks[0].cell_x, chunks[0].cell_y), (3, 3));
    assert_eq!(grid.placement_cell_coordinates_in_viewport(Some(CELL), 100, 0), vec![(4, 5, 4, 5)]);
    // The same size again changes nothing.
    grid.character_cell_size_possibly_changed(Some(larger));
    assert_eq!(grid.placement_cell_coordinates_in_viewport(Some(CELL), 100, 0), vec![(4, 5, 4, 5)]);
}

#[test]
fn an_unknown_cell_size_changes_nothing() {
    let mut grid = grid_with(&[(35, 65, 10, 20)]);
    let tiny = SizeInPixels { height: 1, width: 1 };
    grid.character_cell_size_possibly_changed(None);
    // The size before is unknown now.
    grid.character_cell_size_possibly_changed(Some(tiny));
    assert_eq!(grid.placement_cell_coordinates_in_viewport(Some(CELL), 100, 0), vec![(3, 4, 3, 4)]);
    grid.character_cell_size_possibly_changed(Some(CELL));
    assert_eq!(
        grid.placement_cell_coordinates_in_viewport(Some(CELL), 100, 0),
        vec![(65, 66, 35, 36)]
    );
}

#[test]
fn one_placement_is_rescaled() {
    let larger = SizeInPixels { height: 30, width: 15 };
    assert_eq!(rescale(&placement(35, 65, 7, 8), CELL, larger), placement(45, 90, 7, 8));
    // Division rounds towards zero.
    assert_eq!(rescale(&placement(0, -25, 7, 8), CELL, larger), placement(0, -30, 7, 8));
    assert_eq!(rescale(&placement(0, -19, 7, 8), CELL, larger), placement(0, 0, 7, 8));
    assert!(rescale_fits(&placement(0, 0, 0, 0), CELL, larger));
    let flat = SizeInPixels { height: 0, width: 10 };
    let narrow = SizeInPixels { height: 10, width: 0 };
    assert!(!rescale_fits(&placement(0, 0, 0, 0), flat, larger));
    assert!(!rescale_fits(&placement(0, 0, 0, 0), narrow, larger));
    assert_eq!(rescale(&placement(35, 65, 7, 8), CELL, flat), placement(30, 0, 7, 8));
    let huge = SizeInPixels { height: usize::MAX / 2, width: usize::MAX };
    assert!(!rescale_fits(&placement(20, 0, 0, 0), CELL, huge));
    assert!(!rescale_fits(&placement(0, 40, 0, 0), CELL, huge));
    assert!(rescale_fits(&placement(10, 20, 0, 0), CELL, huge));
}

#[test]
fn a_cell_size_change_out_of_range_does_not_fit() {
    let grid = grid_with(&[(20, 40, 1, 1)]);
    let huge = SizeInPixels { height: usize::MAX / 2, width: usize::MAX };
    assert!(!grid.character_cell_size_change_fits(Some(huge)));
    assert!(grid.character_cell_size_change_fits(Some(CELL)));
    assert!(grid.character_cell_size_change_fits(None));
    let empty = KittyGrid::new(Some(SizeInPixels { height: 0, width: 0 }));
    assert!(empty.character_cell_size_change_fits(Some(huge)));
}

#[test]
fn cells_of_a_placement() {
    // Top, bottom, left, right.
    assert_eq!(compute_cells(&placement(25, 45, 30, 50), 100, 0, CELL), Some((2, 5, 2, 5)));
    assert_eq!(compute_cells(&placement(20, 40, 30, 40), 100, 0, CELL), Some((2, 4, 2, 5)));
    // The bottom is not below the viewport.
    assert_eq!(compute_cells(&placement(20, 40, 30, 40), 3, 0, CELL), Some((2, 3, 2, 5)));
    assert_eq!(compute_cells(&placement(20, 400, 30, 40), 3, 0, CELL), Some((20, 3, 2, 5)));
    // What is in the scrollback is not visible.
    assert_eq!(compute_cells(&placement(0, 0, 10, 50), 100, 1, CELL), Some((0, 2, 0, 1)));
    assert_eq!(compute_cells(&placement(0, 0, 10, 50), 100, 3, CELL), Some((0, 0, 0, 1)));
    assert_eq!(compute_cells(&placement(0, -30, 10, 50), 100, 0, CELL), Some((0, 1, 0, 1)));
    // No extent, no cells.
    assert_eq!(compute_cells(&placement(15, 25, 0, 0), 100, 0, CELL), Some((1, 1, 1, 1)));
    // Numbers out of range.
    assert_eq!(compute_cells(&placement(0, 0, 1, 1), 1, usize::MAX, CELL), None);
    assert_eq!(compute_cells(&placement(0, 0, usize::MAX, 1), 1, 0, CELL), None);
    assert_eq!(
        compute_cells(&placement(0, 0, 1, 1), 1, 0, SizeInPixels { height: 0, width: 1 }),
        None
    );
}

#[test]
fn cells_of_all_placements() {
    let grid = grid_with(&[(25, 45, 30, 50), (0, 0, 10, 20)]);
    assert!(grid.placement_cell_coordinates_fit(Some(CELL), 0));
    assert_eq!(
        grid.placement_cell_coordinates_in_viewport(Some(CELL), 24, 0),
        vec![(2, 5, 2, 5), (0, 1, 0, 1)]
    );
    assert!(!grid.placement_cell_coordinates_fit(Some(CELL), usize::MAX));
    let list = vec![placement(0, 0, 10, 20), placement(0, 0, usize::MAX, 1)];
    assert_eq!(compute_cell_list(&list, 24, 0, CELL), None);
    assert_eq!(image_ids(&list), vec![1, 1]);
}

#[test]
fn touching_lines() {
    let p = placement(0, 40, 10, 20);
    assert_eq!(test_touches_lines(&p, 2, 1, 0, CELL), Some(true));
    assert_eq!(test_touches_lines(&p, 0, 1, 0, CELL), Some(false));
    assert_eq!(test_touches_lines(&p, 0, 1, 1, CELL), Some(true));
    assert_eq!(test_touches_lines(&p, 0, usize::MAX, 0, CELL), None);
    assert_eq!(test_touches_lines(&p, usize::MAX, 1, 1, CELL), None);
    assert_eq!(test_touches_lines(&placement(0, isize::MAX, 1, 1), 0, 1, 0, CELL), None);
    assert_eq!(make_chunk(&placement(10, 0, 1, 1), CELL, 0, usize::MAX, 0), None);
    assert_eq!(make_chunk(&placement(10, -5, 3, 4), CELL, 0, 7, 8).unwrap().cell_y, 8);
}

#[test]
fn the_extent_of_an_image() {
    assert_eq!(compute_extent(Some(7), Some(8), Some(9), 10), Some(7));
    assert_eq!(compute_extent(None, Some(8), Some(9), 10), Some(72));
    assert_eq!(compute_extent(None, Some(8), None, 10), Some(10));
    assert_eq!(compute_extent(None, None, Some(9), 10), Some(10));
    assert_eq!(compute_extent(None, Some(usize::MAX), Some(2), 10), None);
}

#[test]
fn deletion_of_one_placement() {
    let delete = |kind: char| KittyControlData {
        delete_type: Some(kind),
        display_x: Some(5),
        display_y: Some(5),
        columns: Some(0),
        rows: Some(0),
        ..KittyControlData::default()
    };
    let p = placement(0, 0, 10, 20);
    for kind in ['a', 'c', 'x', 'y'] {
        assert!(delete_fits(&delete(kind), Some(CELL)));
        assert_eq!(test_removes(&delete(kind), Some(CELL), &p), Some(true));
    }
    assert_eq!(test_removes(&delete('x'), None, &p), Some(false));
    assert_eq!(test_removes(&delete('c'), None, &placement(0, 0, 10, 5)), Some(false));
    let far = placement(1, isize::MAX, usize::MAX, 1);
    assert_eq!(test_removes(&delete('c'), None, &far), None);
    assert_eq!(test_removes(&delete('x'), Some(CELL), &far), None);
    assert_eq!(test_removes(&delete('y'), Some(CELL), &far), Some(false));
    assert!(!delete_fits(
        &KittyControlData { columns: Some(usize::MAX), ..delete('x') },
        Some(CELL)
    ));
}
