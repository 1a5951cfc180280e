//! Placements as the screen scrolls, as its cells change in size, and as it is redrawn.

use crate::placement::{is_isize, is_usize};
use crate::types::{KittyImageChunk, KittyPlacement, SizeInPixels};
use vstd::prelude::*;

verus! {

// ---------------------------------------------------------------------------------------
// Scrolling

/// A placement moved up.
pub open spec fn moved_up(p: KittyPlacement, pixels: isize) -> KittyPlacement {
    KittyPlacement { pixel_y: (p.pixel_y - pixels) as isize, ..p }
}

/// Whether a placement ends above the first line.
pub open spec fn gone(p: KittyPlacement) -> bool {
    p.pixel_y + (p.display_height as isize) <= 0
}

/// Whether a placement can be moved up by a line, and its end computed.
pub open spec fn move_in_range(p: KittyPlacement, cell_size: SizeInPixels) -> bool {
    &&& is_isize(p.pixel_y - (cell_size.height as isize))
    &&& is_isize(p.pixel_y - (cell_size.height as isize) + (p.display_height as isize))
}

/// Tests whether a placement can be moved up by a line.
pub fn move_fits(p: &KittyPlacement, cell_size: SizeInPixels) -> (fits: bool)
    ensures
        fits == move_in_range(*p, cell_size),
{
    match p.pixel_y.checked_sub(cell_size.height as isize) {
        Some(y) => y.checked_add(p.display_height as isize).is_some(),
        None => false,
    }
}

/// Moves a placement up by a line. Gives nothing if it then ends above the first line.
pub fn move_up(p: &KittyPlacement, cell_size: SizeInPixels) -> (moved: Option<KittyPlacement>)
    requires
        move_in_range(*p, cell_size),
    ensures
        ({
            let expected = moved_up(*p, cell_size.height as isize);
            moved == (if gone(expected) {
                None
            } else {
                Some(expected)
            })
        }),
{
    let pixel_y: isize = p.pixel_y - cell_size.height as isize;
    if pixel_y + p.display_height as isize <= 0 {
        None
    } else {
        Some(KittyPlacement { pixel_y, ..*p })
    }
}

// ---------------------------------------------------------------------------------------
// Change of the cell size

/// Division that rounds towards zero.
pub open spec fn truncated_quotient(a: int, b: int) -> int {
    if a >= 0 {
        a / b
    } else {
        -((-a) / b)
    }
}

/// How large a quotient can be.
proof fn lemma_quotient_bound(n: int, b: int)
    requires
        n >= 0,
        b != 0,
    ensures
        b > 0 ==> 0 <= n / b <= n,
        b < 0 ==> -n <= n / b <= 0,
        b < -1 ==> -n <= 2 * (n / b),
{
    let q = n / b;
    let r = n % b;
    vstd::arithmetic::div_mod::lemma_fundamental_div_mod(n, b);
    if b > 0 {
        assert(0 <= q <= n) by (nonlinear_arith)
            requires
                n == b * q + r,
                0 <= r < b,
                n >= 0,
        ;
    } else {
        assert(q <= 0) by (nonlinear_arith)
            requires
                n == b * q + r,
                0 <= r < -b,
                n >= 0,
                b < 0,
        ;
        assert(-n <= q) by (nonlinear_arith)
            requires
                n == b * q + r,
                0 <= r,
                q <= 0,
                b <= -1,
        ;
        if b < -1 {
            assert(-n <= 2 * q) by (nonlinear_arith)
                requires
                    n == b * q + r,
                    0 <= r,
                    q <= 0,
                    b <= -2,
            ;
        }
    }
}

/// Divides and rounds towards zero.
fn divide(a: isize, b: isize) -> (q: isize)
    requires
        b != 0,
        !(a == isize::MIN && b == -1),
    ensures
        q == truncated_quotient(a as int, b as int),
{
    proof {
        lemma_quotient_bound(if a >= 0 { a as int } else { -(a as int) }, b as int);
    }
    a / b
}

/// The pixel column of a placement in cells of another width: the same cell column, counted
/// in whole cells.
pub open spec fn rescaled_x(x: int, old_width: int, new_width: int) -> int {
    x / old_width * new_width
}

/// The pixel row of a placement in cells of another height.
pub open spec fn rescaled_y(y: int, old_height: isize, new_height: isize) -> int {
    truncated_quotient(y, old_height as int) * new_height
}

/// A placement in cells of another size.
pub open spec fn rescaled(
    p: KittyPlacement,
    old_size: SizeInPixels,
    new_size: SizeInPixels,
) -> KittyPlacement {
    KittyPlacement {
        pixel_x: rescaled_x(
            p.pixel_x as int,
            old_size.width as int,
            new_size.width as int,
        ) as usize,
        pixel_y: rescaled_y(
            p.pixel_y as int,
            old_size.height as isize,
            new_size.height as isize,
        ) as isize,
        ..p
    }
}

/// Whether [`rescaled`] can be computed.
pub open spec fn rescale_in_range(
    p: KittyPlacement,
    old_size: SizeInPixels,
    new_size: SizeInPixels,
) -> bool {
    &&& old_size.width != 0
    &&& old_size.height as isize != 0
    &&& !(p.pixel_y == isize::MIN && old_size.height as isize == -1)
    &&& is_usize(
        rescaled_x(p.pixel_x as int, old_size.width as int, new_size.width as int),
    )
    &&& is_isize(
        rescaled_y(p.pixel_y as int, old_size.height as isize, new_size.height as isize),
    )
}

/// Tests whether a placement can be rescaled.
pub fn rescale_fits(
    p: &KittyPlacement,
    old_size: SizeInPixels,
    new_size: SizeInPixels,
) -> (fits: bool)
    ensures
        fits == rescale_in_range(*p, old_size, new_size),
{
    let old_height: isize = old_size.height as isize;
    if old_size.width == 0 || old_height == 0 || (p.pixel_y == isize::MIN && old_height == -1) {
        return false;
    }
    let column: usize = p.pixel_x / old_size.width;
    let row: isize = divide(p.pixel_y, old_height);
    column.checked_mul(new_size.width).is_some() && row.checked_mul(
        new_size.height as isize,
    ).is_some()
}

/// Rescales a placement.
pub fn rescale(p: &KittyPlacement, old_size: SizeInPixels, new_size: SizeInPixels) -> (q:
    KittyPlacement)
    requires
        rescale_in_range(*p, old_size, new_size),
    ensures
        q == rescaled(*p, old_size, new_size),
{
    let column: usize = p.pixel_x / old_size.width;
    let row: isize = divide(p.pixel_y, old_size.height as isize);
    KittyPlacement {
        pixel_x: column * new_size.width,
        pixel_y: row * new_size.height as isize,
        ..*p
    }
}

// ---------------------------------------------------------------------------------------
// Redrawing

/// The first pixel row of a line of the viewport.
pub open spec fn line_top(line: usize, scrollback: usize, cell_size: SizeInPixels) -> isize {
    (((line + scrollback) * cell_size.height) as usize) as isize
}

/// The pixel row behind `count` lines from `line` on.
pub open spec fn lines_bottom(
    line: usize,
    count: usize,
    scrollback: usize,
    cell_size: SizeInPixels,
) -> int {
    line_top(line, scrollback, cell_size) + (((count * cell_size.height) as usize) as isize)
}

/// The pixel row behind a placement.
pub open spec fn placement_bottom(p: KittyPlacement) -> int {
    p.pixel_y + (p.display_height as isize)
}

/// Whether a placement touches the pixel rows from `top` to `bottom`: it begins there, or it
/// ends there, or it reaches over them.
pub open spec fn touches(p: KittyPlacement, top: int, bottom: int) -> bool {
    ||| top <= p.pixel_y <= bottom
    ||| top <= placement_bottom(p) <= bottom
    ||| p.pixel_y <= top && bottom <= placement_bottom(p)
}

/// Whether a placement touches `count` lines of the viewport from `line` on.
pub open spec fn touches_lines(
    p: KittyPlacement,
    line: usize,
    count: usize,
    scrollback: usize,
    cell_size: SizeInPixels,
) -> bool {
    touches(
        p,
        line_top(line, scrollback, cell_size) as int,
        lines_bottom(line, count, scrollback, cell_size),
    )
}

/// Whether [`touches_lines`] can be computed.
pub open spec fn touches_lines_in_range(
    p: KittyPlacement,
    line: usize,
    count: usize,
    scrollback: usize,
    cell_size: SizeInPixels,
) -> bool {
    &&& is_usize(count * cell_size.height)
    &&& is_usize(line + scrollback)
    &&& is_usize((line + scrollback) * cell_size.height)
    &&& is_isize(lines_bottom(line, count, scrollback, cell_size))
    &&& is_isize(placement_bottom(p))
}

/// The line of cells that a placement begins on, counted from the top of the scrollback. One
/// that begins above is taken to begin there.
pub open spec fn first_line(p: KittyPlacement, cell_size: SizeInPixels) -> int {
    if p.pixel_y >= 0 {
        p.pixel_y as int / cell_size.height as int
    } else {
        0
    }
}

/// The cell column of the screen that a placement is drawn at.
pub open spec fn drawn_column(p: KittyPlacement, cell_size: SizeInPixels, x_offset: usize) -> int {
    x_offset + p.pixel_x as int / cell_size.width as int
}

/// The cell line of the screen that a placement is drawn at. One that begins in the
/// scrollback is drawn from the first line on.
pub open spec fn drawn_line(
    p: KittyPlacement,
    cell_size: SizeInPixels,
    scrollback: usize,
    y_offset: usize,
) -> int {
    let line = first_line(p, cell_size);
    y_offset + (if line < scrollback {
        0
    } else {
        line - scrollback
    })
}

/// What is drawn of a placement: all of the image, at its place.
pub open spec fn chunk_of(
    p: KittyPlacement,
    cell_size: SizeInPixels,
    scrollback: usize,
    x_offset: usize,
    y_offset: usize,
) -> KittyImageChunk {
    KittyImageChunk {
        cell_x: drawn_column(p, cell_size, x_offset) as usize,
        cell_y: drawn_line(p, cell_size, scrollback, y_offset) as usize,
        kitty_image_pixel_x: 0,
        kitty_image_pixel_y: 0,
        kitty_image_pixel_width: p.display_width,
        kitty_image_pixel_height: p.display_height,
        kitty_image_id: p.image_id,
        kitty_placement_id: p.placement_id,
    }
}

/// Whether [`chunk_of`] can be computed.
pub open spec fn chunk_in_range(
    p: KittyPlacement,
    cell_size: SizeInPixels,
    scrollback: usize,
    x_offset: usize,
    y_offset: usize,
) -> bool {
    &&& cell_size.width != 0
    &&& p.pixel_y >= 0 ==> cell_size.height != 0
    &&& is_usize(drawn_column(p, cell_size, x_offset))
    &&& is_usize(drawn_line(p, cell_size, scrollback, y_offset))
}

/// Tests whether a placement touches lines of the viewport, or `None` if that cannot be
/// computed.
pub fn test_touches_lines(
    p: &KittyPlacement,
    line: usize,
    count: usize,
    scrollback: usize,
    cell_size: SizeInPixels,
) -> (touched: Option<bool>)
    ensures
        match touched {
            Some(touched) => {
                &&& touches_lines_in_range(*p, line, count, scrollback, cell_size)
                &&& touched == touches_lines(*p, line, count, scrollback, cell_size)
            },
            None => !touches_lines_in_range(*p, line, count, scrollback, cell_size),
        },
{
    let height: usize = match count.checked_mul(cell_size.height) {
        Some(height) => height,
        None => return None,
    };
    let first: usize = match line.checked_add(scrollback) {
        Some(first) => first,
        None => return None,
    };
    let top: isize = match first.checked_mul(cell_size.height) {
        Some(top) => top as isize,
        None => return None,
    };
    let bottom: isize = match top.checked_add(height as isize) {
        Some(bottom) => bottom,
        None => return None,
    };
    let placement_top: isize = p.pixel_y;
    let placement_bottom: isize = match p.pixel_y.checked_add(p.display_height as isize) {
        Some(placement_bottom) => placement_bottom,
        None => return None,
    };
    Some(
        (placement_top >= top && placement_top <= bottom) || (placement_bottom >= top
            && placement_bottom <= bottom) || (placement_bottom >= bottom && placement_top <= top),
    )
}

/// What is drawn of a placement, or `None` if that cannot be computed.
pub fn make_chunk(
    p: &KittyPlacement,
    cell_size: SizeInPixels,
    scrollback: usize,
    x_offset: usize,
    y_offset: usize,
) -> (chunk: Option<KittyImageChunk>)
    ensures
        match chunk {
            Some(chunk) => {
                &&& chunk_in_range(*p, cell_size, scrollback, x_offset, y_offset)
                &&& chunk == chunk_of(*p, cell_size, scrollback, x_offset, y_offset)
            },
            None => !chunk_in_range(*p, cell_size, scrollback, x_offset, y_offset),
        },
{
    if cell_size.width == 0 || (p.pixel_y >= 0 && cell_size.height == 0) {
        return None;
    }
    let cell_x: usize = match x_offset.checked_add(p.pixel_x / cell_size.width) {
        Some(cell_x) => cell_x,
        None => return None,
    };
    let line: usize = if p.pixel_y >= 0 {
        p.pixel_y as usize / cell_size.height
    } else {
        0
    };
    let cell_y: usize = match y_offset.checked_add(line.saturating_sub(scrollback)) {
        Some(cell_y) => cell_y,
        None => return None,
    };
    // Always the entire image: this avoids coordinate mapping issues between source and
    // display dimensions
    Some(
        KittyImageChunk {
            cell_x,
            cell_y,
            kitty_image_pixel_x: 0,
            kitty_image_pixel_y: 0,
            kitty_image_pixel_width: p.display_width,
            kitty_image_pixel_height: p.display_height,
            kitty_image_id: p.image_id,
            kitty_placement_id: p.placement_id,
        },
    )
}

// ---------------------------------------------------------------------------------------
// Cell coordinates

/// The pixel row of a placement, counted from the top of the viewport.
pub open spec fn row_in_viewport(
    p: KittyPlacement,
    scrollback: usize,
    cell_size: SizeInPixels,
) -> int {
    p.pixel_y - (((scrollback * cell_size.height) as usize) as isize)
}

/// How many pixel rows of a placement are below the top of the viewport.
pub open spec fn visible_height(
    p: KittyPlacement,
    scrollback: usize,
    cell_size: SizeInPixels,
) -> int {
    let y = row_in_viewport(p, scrollback, cell_size);
    if y >= 0 {
        p.display_height as int
    } else if (p.display_height as isize) + y > 0 {
        (p.display_height as isize) + y
    } else {
        0
    }
}

/// How many cells it takes to hold an extent.
pub open spec fn cells_for(extent: int, cell_extent: int) -> int {
    (extent + cell_extent - 1) / cell_extent
}

/// The first line of the viewport that a placement is on.
pub open spec fn top_line(p: KittyPlacement, scrollback: usize, cell_size: SizeInPixels) -> int {
    let y = row_in_viewport(p, scrollback, cell_size);
    if y > 0 {
        y / cell_size.height as int
    } else {
        0
    }
}

/// The cells of the viewport that a placement is on: from the first line to the line behind
/// the last, at most `viewport_height`, and from the first column to the column behind the
/// last.
pub open spec fn cells_of(
    p: KittyPlacement,
    viewport_height: usize,
    scrollback: usize,
    cell_size: SizeInPixels,
) -> (usize, usize, usize, usize) {
    let top = top_line(p, scrollback, cell_size);
    let bottom = top + cells_for(
        visible_height(p, scrollback, cell_size),
        cell_size.height as int,
    );
    let left = p.pixel_x as int / cell_size.width as int;
    let right = left + cells_for(p.display_width as int, cell_size.width as int);
    (
        top as usize,
        if bottom < viewport_height {
            bottom as usize
        } else {
            viewport_height
        },
        left as usize,
        right as usize,
    )
}

/// Whether [`cells_of`] can be computed.
pub open spec fn cells_in_range(
    p: KittyPlacement,
    scrollback: usize,
    cell_size: SizeInPixels,
) -> bool {
    let y = row_in_viewport(p, scrollback, cell_size);
    let height = visible_height(p, scrollback, cell_size);
    &&& is_usize(scrollback * cell_size.height)
    &&& is_isize(y)
    &&& cell_size.height != 0
    &&& cell_size.width != 0
    &&& y < 0 ==> is_isize((p.display_height as isize) + y)
    &&& is_usize(height + cell_size.height)
    &&& is_usize(p.display_width + cell_size.width)
    &&& is_usize(
        top_line(p, scrollback, cell_size) + cells_for(height, cell_size.height as int),
    )
    &&& is_usize(
        p.pixel_x as int / cell_size.width as int + cells_for(
            p.display_width as int,
            cell_size.width as int,
        ),
    )
}

/// The cells of the viewport that a placement is on, or `None` if they cannot be computed.
pub fn compute_cells(
    p: &KittyPlacement,
    viewport_height: usize,
    scrollback: usize,
    cell_size: SizeInPixels,
) -> (cells: Option<(usize, usize, usize, usize)>)
    ensures
        match cells {
            Some(cells) => {
                &&& cells_in_range(*p, scrollback, cell_size)
                &&& cells == cells_of(*p, viewport_height, scrollback, cell_size)
            },
            None => !cells_in_range(*p, scrollback, cell_size),
        },
{
    let scrollback_pixels: isize = match scrollback.checked_mul(cell_size.height) {
        Some(pixels) => pixels as isize,
        None => return None,
    };
    let y: isize = match p.pixel_y.checked_sub(scrollback_pixels) {
        Some(y) => y,
        None => return None,
    };
    if cell_size.height == 0 || cell_size.width == 0 {
        return None;
    }
    let image_y: usize = if y > 0 {
        y as usize / cell_size.height
    } else {
        0
    };
    let image_x: usize = p.pixel_x / cell_size.width;
    let height: usize = if y < 0 {
        match (p.display_height as isize).checked_add(y) {
            Some(height) => if height > 0 {
                height as usize
            } else {
                0
            },
            None => return None,
        }
    } else {
        p.display_height
    };
    let cells_high: usize = match height.checked_add(cell_size.height) {
        Some(sum) => (sum - 1) / cell_size.height,
        None => return None,
    };
    let cells_wide: usize = match p.display_width.checked_add(cell_size.width) {
        Some(sum) => (sum - 1) / cell_size.width,
        None => return None,
    };
    let bottom: usize = match image_y.checked_add(cells_high) {
        Some(bottom) => bottom,
        None => return None,
    };
    let right: usize = match image_x.checked_add(cells_wide) {
        Some(right) => right,
        None => return None,
    };
    Some(
        (
            image_y,
            if bottom < viewport_height {
                bottom
            } else {
                viewport_height
            },
            image_x,
            right,
        ),
    )
}

/// A change of the cell size keeps the cell that a placement begins at, as long as the new
/// cells have an extent, and aligns the placement with it.
pub proof fn lemma_rescaling_keeps_cells(
    x: int,
    y: int,
    old_width: int,
    new_width: int,
    old_height: isize,
    new_height: isize,
)
    requires
        x >= 0,
        old_width > 0,
        new_width > 0,
        old_height > 0,
        new_height > 0,
    ensures
        rescaled_x(x, old_width, new_width) / new_width == x / old_width,
        rescaled_x(x, old_width, new_width) % new_width == 0,
        truncated_quotient(rescaled_y(y, old_height, new_height), new_height as int)
            == truncated_quotient(y, old_height as int),
        rescaled_y(y, old_height, new_height) % (new_height as int) == 0,
{
    let column = x / old_width;
    let row = truncated_quotient(y, old_height as int);
    let h = new_height as int;
    vstd::arithmetic::div_mod::lemma_div_multiples_vanish(column, new_width);
    vstd::arithmetic::div_mod::lemma_mod_multiples_basic(column, new_width);
    vstd::arithmetic::div_mod::lemma_mod_multiples_basic(row, h);
    assert(column * new_width == new_width * column) by (nonlinear_arith);
    assert(row * h == h * row) by (nonlinear_arith);
    if y >= 0 {
        lemma_quotient_bound(y, old_height as int);
        assert(row * h >= 0) by (nonlinear_arith)
            requires
                row >= 0,
                h > 0,
        ;
        vstd::arithmetic::div_mod::lemma_div_multiples_vanish(row, h);
    } else {
        lemma_quotient_bound(-y, old_height as int);
        assert(-(row * h) == h * (-row)) by (nonlinear_arith);
        assert(h * (-row) >= 0) by (nonlinear_arith)
            requires
                row <= 0,
                h > 0,
        ;
        vstd::arithmetic::div_mod::lemma_div_multiples_vanish(-row, h);
        if row * h >= 0 {
            assert(row == 0) by (nonlinear_arith)
                requires
                    row <= 0,
                    h > 0,
                    row * h >= 0,
            ;
            assert(0int / h == 0) by (nonlinear_arith)
                requires
                    h > 0,
            ;
        }
    }
}

} // verus!
