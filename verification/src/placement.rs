//! The geometry of one image on the screen.
//!
//! Positions are kept in machine integers. For each computation there is a condition
//! (`.._in_range`) that says when all of its steps fit, and a function (`.._fits`) that
//! tests it. Sizes are converted to `isize` by truncation.

use crate::types::{KittyControlData, KittyPlacement, SizeInPixels};
use vstd::prelude::*;

verus! {

/// Whether a number fits in an `isize`.
pub open spec fn is_isize(n: int) -> bool {
    isize::MIN <= n <= isize::MAX
}

/// Whether a number fits in a `usize`.
pub open spec fn is_usize(n: int) -> bool {
    0 <= n <= usize::MAX
}

/// The extent of an image on one axis: as the command says, or as many cells as it says, or
/// that of the image itself.
pub open spec fn display_extent(
    pixels: Option<usize>,
    cells: Option<usize>,
    cell_extent: Option<usize>,
    image_extent: usize,
) -> int {
    match pixels {
        Some(pixels) => pixels as int,
        None => match (cells, cell_extent) {
            (Some(cells), Some(cell_extent)) => cells * cell_extent,
            _ => image_extent as int,
        },
    }
}

/// The width of a cell, if it is known.
pub open spec fn cell_width(cell_size: Option<SizeInPixels>) -> Option<usize> {
    match cell_size {
        Some(size) => Some(size.width),
        None => None,
    }
}

/// The height of a cell, if it is known.
pub open spec fn cell_height(cell_size: Option<SizeInPixels>) -> Option<usize> {
    match cell_size {
        Some(size) => Some(size.height),
        None => None,
    }
}

/// The width that a command shows an image at.
pub open spec fn placed_width(
    control: KittyControlData,
    cell_size: Option<SizeInPixels>,
    image_width: usize,
) -> int {
    display_extent(control.display_width, control.columns, cell_width(cell_size), image_width)
}

/// The height that a command shows an image at.
pub open spec fn placed_height(
    control: KittyControlData,
    cell_size: Option<SizeInPixels>,
    image_height: usize,
) -> int {
    display_extent(control.display_height, control.rows, cell_height(cell_size), image_height)
}

/// The extent of an image on one axis, if it fits in a `usize`.
pub fn compute_extent(
    pixels: Option<usize>,
    cells: Option<usize>,
    cell_extent: Option<usize>,
    image_extent: usize,
) -> (extent: Option<usize>)
    ensures
        match extent {
            Some(extent) => display_extent(pixels, cells, cell_extent, image_extent) == extent,
            None => !is_usize(display_extent(pixels, cells, cell_extent, image_extent)),
        },
{
    match pixels {
        Some(pixels) => Some(pixels),
        None => match (cells, cell_extent) {
            (Some(cells), Some(cell_extent)) => cells.checked_mul(cell_extent),
            _ => Some(image_extent),
        },
    }
}

// ---------------------------------------------------------------------------------------
// Deletion

/// Whether a point of the screen lies on a placement.
pub open spec fn under_point(p: KittyPlacement, x: usize, y: usize) -> bool {
    &&& p.pixel_x <= x < p.pixel_x + p.display_width
    &&& p.pixel_y <= y as isize
    &&& (y as isize) < p.pixel_y + (p.display_height as isize)
}

/// Whether [`under_point`] can be computed, from left to right and no further than needed.
pub open spec fn under_point_in_range(p: KittyPlacement, x: usize, y: usize) -> bool {
    p.pixel_x <= x ==> {
        &&& is_usize(p.pixel_x + p.display_width)
        &&& x < p.pixel_x + p.display_width && p.pixel_y <= y as isize ==> is_isize(
            p.pixel_y + (p.display_height as isize),
        )
    }
}

/// Whether a placement and a column of cells have a pixel column in common.
pub open spec fn on_column(p: KittyPlacement, column: usize, cell_size: SizeInPixels) -> bool {
    let start = column * cell_size.width;
    &&& p.pixel_x < start + cell_size.width
    &&& p.pixel_x + p.display_width > start
}

/// Whether the pixels of a column can be computed.
pub open spec fn column_in_range(column: usize, cell_size: SizeInPixels) -> bool {
    &&& is_usize(column * cell_size.width)
    &&& is_usize(column * cell_size.width + cell_size.width)
}

/// Whether [`on_column`] can be computed.
pub open spec fn on_column_in_range(
    p: KittyPlacement,
    column: usize,
    cell_size: SizeInPixels,
) -> bool {
    p.pixel_x < column * cell_size.width + cell_size.width ==> is_usize(
        p.pixel_x + p.display_width,
    )
}

/// The first pixel row of a row of cells.
pub open spec fn row_start(row: usize, cell_size: SizeInPixels) -> isize {
    ((row * cell_size.height) as usize) as isize
}

/// Whether a placement and a row of cells have a pixel row in common.
pub open spec fn on_row(p: KittyPlacement, row: usize, cell_size: SizeInPixels) -> bool {
    let start = row_start(row, cell_size);
    &&& p.pixel_y < start + (cell_size.height as isize)
    &&& p.pixel_y + (p.display_height as isize) > start
}

/// Whether the pixels of a row can be computed.
pub open spec fn row_in_range(row: usize, cell_size: SizeInPixels) -> bool {
    &&& is_usize(row * cell_size.height)
    &&& is_isize(row_start(row, cell_size) + (cell_size.height as isize))
}

/// Whether [`on_row`] can be computed.
pub open spec fn on_row_in_range(p: KittyPlacement, row: usize, cell_size: SizeInPixels) -> bool {
    p.pixel_y < row_start(row, cell_size) + (cell_size.height as isize) ==> is_isize(
        p.pixel_y + (p.display_height as isize),
    )
}

/// What a delete command deletes if it does not say.
pub open spec fn delete_type_of(control: KittyControlData) -> char {
    match control.delete_type {
        Some(delete_type) => delete_type,
        None => 'a',
    }
}

/// Whether a delete command removes a placement: all (`a`), those of an image (`i`), one of
/// an image (`p`), those under a point (`c`), on a column (`x`), on a row (`y`) or with a
/// z-index (`z`). A command that lacks what its kind needs removes nothing.
pub open spec fn removes(
    control: KittyControlData,
    cell_size: Option<SizeInPixels>,
    p: KittyPlacement,
) -> bool {
    match delete_type_of(control) {
        'a' | 'A' => true,
        'i' | 'I' => control.image_id == Some(p.image_id),
        'p' | 'P' => control.image_id == Some(p.image_id) && control.placement_id == Some(
            p.placement_id,
        ),
        'c' | 'C' => match (control.display_x, control.display_y) {
            (Some(x), Some(y)) => under_point(p, x, y),
            _ => false,
        },
        'x' | 'X' => match (cell_size, control.columns) {
            (Some(cell_size), Some(column)) => on_column(p, column, cell_size),
            _ => false,
        },
        'y' | 'Y' => match (cell_size, control.rows) {
            (Some(cell_size), Some(row)) => on_row(p, row, cell_size),
            _ => false,
        },
        'z' | 'Z' => control.z_index == Some(p.z_index),
        _ => false,
    }
}

/// Whether the pixels that a delete command speaks of can be computed.
pub open spec fn delete_in_range(
    control: KittyControlData,
    cell_size: Option<SizeInPixels>,
) -> bool {
    match delete_type_of(control) {
        'x' | 'X' => match (cell_size, control.columns) {
            (Some(cell_size), Some(column)) => column_in_range(column, cell_size),
            _ => true,
        },
        'y' | 'Y' => match (cell_size, control.rows) {
            (Some(cell_size), Some(row)) => row_in_range(row, cell_size),
            _ => true,
        },
        _ => true,
    }
}

/// Whether [`removes`] can be computed.
pub open spec fn removes_in_range(
    control: KittyControlData,
    cell_size: Option<SizeInPixels>,
    p: KittyPlacement,
) -> bool {
    match delete_type_of(control) {
        'c' | 'C' => match (control.display_x, control.display_y) {
            (Some(x), Some(y)) => under_point_in_range(p, x, y),
            _ => true,
        },
        'x' | 'X' => match (cell_size, control.columns) {
            (Some(cell_size), Some(column)) => on_column_in_range(p, column, cell_size),
            _ => true,
        },
        'y' | 'Y' => match (cell_size, control.rows) {
            (Some(cell_size), Some(row)) => on_row_in_range(p, row, cell_size),
            _ => true,
        },
        _ => true,
    }
}

/// Tests whether a point lies on a placement, or `None` if that cannot be computed.
fn test_point(p: &KittyPlacement, x: usize, y: usize) -> (on: Option<bool>)
    ensures
        match on {
            Some(on) => under_point_in_range(*p, x, y) && on == under_point(*p, x, y),
            None => !under_point_in_range(*p, x, y),
        },
{
    if x < p.pixel_x {
        return Some(false);
    }
    let right = match p.pixel_x.checked_add(p.display_width) {
        Some(right) => right,
        None => return None,
    };
    if x >= right || (y as isize) < p.pixel_y {
        return Some(false);
    }
    match p.pixel_y.checked_add(p.display_height as isize) {
        Some(bottom) => Some((y as isize) < bottom),
        None => None,
    }
}

/// Tests whether a placement is on a column, or `None` if that cannot be computed.
fn test_column(p: &KittyPlacement, column: usize, cell_size: SizeInPixels) -> (on: Option<bool>)
    ensures
        match on {
            Some(on) => {
                &&& column_in_range(column, cell_size)
                &&& on_column_in_range(*p, column, cell_size)
                &&& on == on_column(*p, column, cell_size)
            },
            None => !(column_in_range(column, cell_size) && on_column_in_range(
                *p,
                column,
                cell_size,
            )),
        },
{
    let start = match column.checked_mul(cell_size.width) {
        Some(start) => start,
        None => return None,
    };
    let end = match start.checked_add(cell_size.width) {
        Some(end) => end,
        None => return None,
    };
    if p.pixel_x >= end {
        return Some(false);
    }
    match p.pixel_x.checked_add(p.display_width) {
        Some(right) => Some(right > start),
        None => None,
    }
}

/// Tests whether a placement is on a row, or `None` if that cannot be computed.
fn test_row(p: &KittyPlacement, row: usize, cell_size: SizeInPixels) -> (on: Option<bool>)
    ensures
        match on {
            Some(on) => {
                &&& row_in_range(row, cell_size)
                &&& on_row_in_range(*p, row, cell_size)
                &&& on == on_row(*p, row, cell_size)
            },
            None => !(row_in_range(row, cell_size) && on_row_in_range(*p, row, cell_size)),
        },
{
    let start = match row.checked_mul(cell_size.height) {
        Some(start) => start as isize,
        None => return None,
    };
    let end = match start.checked_add(cell_size.height as isize) {
        Some(end) => end,
        None => return None,
    };
    if p.pixel_y >= end {
        return Some(false);
    }
    match p.pixel_y.checked_add(p.display_height as isize) {
        Some(bottom) => Some(bottom > start),
        None => None,
    }
}

/// Tests whether the pixels that a delete command speaks of can be computed.
pub fn delete_fits(control: &KittyControlData, cell_size: Option<SizeInPixels>) -> (fits: bool)
    ensures
        fits == delete_in_range(*control, cell_size),
{
    let delete_type = match control.delete_type {
        Some(delete_type) => delete_type,
        None => 'a',
    };
    match delete_type {
        'x' | 'X' => match (cell_size, control.columns) {
            (Some(cell_size), Some(column)) => match column.checked_mul(cell_size.width) {
                Some(start) => start.checked_add(cell_size.width).is_some(),
                None => false,
            },
            _ => true,
        },
        'y' | 'Y' => match (cell_size, control.rows) {
            (Some(cell_size), Some(row)) => match row.checked_mul(cell_size.height) {
                Some(start) => (start as isize).checked_add(cell_size.height as isize).is_some(),
                None => false,
            },
            _ => true,
        },
        _ => true,
    }
}

/// Tests whether a delete command removes a placement, or `None` if that cannot be computed.
pub fn test_removes(
    control: &KittyControlData,
    cell_size: Option<SizeInPixels>,
    p: &KittyPlacement,
) -> (removed: Option<bool>)
    requires
        delete_in_range(*control, cell_size),
    ensures
        match removed {
            Some(removed) => {
                &&& removes_in_range(*control, cell_size, *p)
                &&& removed == removes(*control, cell_size, *p)
            },
            None => !removes_in_range(*control, cell_size, *p),
        },
{
    let delete_type = match control.delete_type {
        Some(delete_type) => delete_type,
        None => 'a',
    };
    match delete_type {
        'a' | 'A' => Some(true),
        'i' | 'I' => match control.image_id {
            Some(id) => Some(p.image_id == id),
            None => Some(false),
        },
        'p' | 'P' => match (control.image_id, control.placement_id) {
            (Some(image_id), Some(placement_id)) => Some(
                p.image_id == image_id && p.placement_id == placement_id,
            ),
            _ => Some(false),
        },
        'c' | 'C' => match (control.display_x, control.display_y) {
            (Some(x), Some(y)) => test_point(p, x, y),
            _ => Some(false),
        },
        'x' | 'X' => match (cell_size, control.columns) {
            (Some(cell_size), Some(column)) => test_column(p, column, cell_size),
            _ => Some(false),
        },
        'y' | 'Y' => match (cell_size, control.rows) {
            (Some(cell_size), Some(row)) => test_row(p, row, cell_size),
            _ => Some(false),
        },
        'z' | 'Z' => match control.z_index {
            Some(z_index) => Some(p.z_index == z_index),
            None => Some(false),
        },
        _ => Some(false),
    }
}

} // verus!
