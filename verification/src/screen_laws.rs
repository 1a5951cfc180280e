//! What becomes of placements on the screen, said of pixels and cells: which ones a deletion
//! reaches, where scrolling and another cell size take them, where they are drawn.

use crate::decode::OutOfRange;
use crate::grid::{
    cleared_grid, command_step, delete_step_in_range, drawn_chunks, placed_image_ids,
    resize_in_range, resized_grid, scrolled_grid, viewport_cells, GridView, OutcomeView,
};
use crate::laws::{lemma_delete_is_exact, lemma_scrolling_is_exact};
use crate::placement::{delete_in_range, removes, removes_in_range};
use crate::placements::{
    changed_chunks_in_range, drawing_in_range, lemma_filter_contains, touches_changes,
};
use crate::types::{
    CommandView, ImageView, KittyAction, KittyControlData, KittyImageChunk, KittyPlacement,
    SizeInPixels,
};
use crate::viewport::{
    cells_for, cells_in_range, cells_of, chunk_in_range, chunk_of, gone, move_in_range, moved_up,
    rescale_in_range, rescaled, row_in_viewport, touches_lines, touches_lines_in_range,
    truncated_quotient, visible_height,
};
use vstd::prelude::*;

verus! {

// ---------------------------------------------------------------------------------------
// Pixels

/// Whether `x` is one of the `len` numbers from `from` on.
pub open spec fn in_span(x: int, from: int, len: int) -> bool {
    from <= x < from + len
}

/// Whether two spans have a number in common.
pub open spec fn spans_meet(a: int, a_len: int, b: int, b_len: int) -> bool {
    exists|x: int| #[trigger] in_span(x, a, a_len) && in_span(x, b, b_len)
}

/// When two spans meet, told by their ends.
proof fn lemma_spans_meet(a: int, a_len: int, b: int, b_len: int)
    requires
        a_len > 0,
    ensures
        spans_meet(a, a_len, b, b_len) <==> b_len > 0 && a < b + b_len && b < a + a_len,
{
    if b_len > 0 && a < b + b_len && b < a + a_len {
        if a < b {
            assert(in_span(b, a, a_len));
        } else {
            assert(in_span(a, a, a_len));
        }
    }
}

/// Whether all pixels of a placement have coordinates that fit in machine integers.
pub open spec fn on_screen(p: KittyPlacement) -> bool {
    &&& p.pixel_x + p.display_width <= usize::MAX
    &&& p.display_height <= isize::MAX
    &&& p.pixel_y + p.display_height <= isize::MAX
}

/// Whether this holds of all placements of a list.
pub open spec fn all_on_screen(list: Seq<KittyPlacement>) -> bool {
    forall|i: int| 0 <= i < list.len() ==> on_screen(#[trigger] list[i])
}

/// Whether the pixel (`x`, `y`) is one of a placement.
pub open spec fn covers_pixel(p: KittyPlacement, x: int, y: int) -> bool {
    in_span(x, p.pixel_x as int, p.display_width as int) && in_span(
        y,
        p.pixel_y as int,
        p.display_height as int,
    )
}

/// Whether the cells from the pixel `from` on, `extent` pixels in all, share a pixel with a
/// placement that has `len` pixels from `at` on. What has no pixels is reached if it lies
/// strictly between the ends of the other.
pub open spec fn reaches(at: int, len: int, from: int, extent: int) -> bool {
    if len > 0 && extent > 0 {
        spans_meet(at, len, from, extent)
    } else if extent > 0 {
        from < at < from + extent
    } else {
        at < from < at + len
    }
}

// ---------------------------------------------------------------------------------------
// Deletion

/// Whether a command deletes by `kind`, in lower or upper case.
pub open spec fn deletes_by(cmd: CommandView, lower: char, upper: char) -> bool {
    cmd.control.action == KittyAction::Delete && (cmd.control.delete_type == Some(lower)
        || cmd.control.delete_type == Some(upper))
}

/// Whether a command leaves exactly the placements that `hit` is false of, unchanged, as well
/// as `images`, and changes and answers nothing else.
pub open spec fn deletes_exactly(
    grid: GridView,
    images: Map<u32, ImageView>,
    cell_size: Option<SizeInPixels>,
    cmd: CommandView,
    cursor_x: usize,
    cursor_y: usize,
    hit: spec_fn(KittyPlacement) -> bool,
    images_left: Map<u32, ImageView>,
) -> bool {
    let after = command_step(grid, images, cell_size, cmd, cursor_x, cursor_y);
    &&& after.outcome == Ok::<OutcomeView, OutOfRange>(OutcomeView::Done(None))
    &&& after.images == images_left
    &&& after.grid == (GridView { placements: after.grid.placements, ..grid })
    &&& after.grid.placements.len() <= grid.placements.len()
    &&& forall|p: KittyPlacement|
        #![trigger after.grid.placements.contains(p)]
        after.grid.placements.contains(p) <==> grid.placements.contains(p) && !hit(p)
}

/// From what is said of each placement to what is said of all.
proof fn lemma_deletes_exactly(
    grid: GridView,
    images: Map<u32, ImageView>,
    cell_size: Option<SizeInPixels>,
    cmd: CommandView,
    cursor_x: usize,
    cursor_y: usize,
    hit: spec_fn(KittyPlacement) -> bool,
)
    requires
        cmd.control.action == KittyAction::Delete,
        delete_in_range(cmd.control, cell_size),
        forall|i: int|
            0 <= i < grid.placements.len() ==> removes_in_range(
                cmd.control,
                cell_size,
                #[trigger] grid.placements[i],
            ) && removes(cmd.control, cell_size, grid.placements[i]) == hit(grid.placements[i]),
    ensures
        deletes_exactly(
            grid,
            images,
            cell_size,
            cmd,
            cursor_x,
            cursor_y,
            hit,
            command_step(grid, images, cell_size, cmd, cursor_x, cursor_y).images,
        ),
{
    let after = command_step(grid, images, cell_size, cmd, cursor_x, cursor_y);
    assert(delete_step_in_range(grid, cell_size, cmd.control));
    assert forall|p: KittyPlacement|
        #![trigger after.grid.placements.contains(p)]
        after.grid.placements.contains(p) <==> grid.placements.contains(p) && !hit(p) by {
        lemma_delete_is_exact(grid.placements, cmd.control, cell_size, p);
        if grid.placements.contains(p) {
            let i = choose|i: int| 0 <= i < grid.placements.len() && grid.placements[i] == p;
            assert(removes(cmd.control, cell_size, grid.placements[i]) == hit(
                grid.placements[i],
            ));
        }
    }
    let keep = |p: KittyPlacement| !removes(cmd.control, cell_size, p);
    grid.placements.lemma_filter_len(keep);
}

/// `d=x` deletes the placements that have a pixel in a column of cells, be it their first one
/// or not, and no other; it deletes no image.
pub proof fn lemma_delete_by_column(
    grid: GridView,
    images: Map<u32, ImageView>,
    size: SizeInPixels,
    cmd: CommandView,
    column: usize,
    cursor_x: usize,
    cursor_y: usize,
)
    requires
        deletes_by(cmd, 'x', 'X'),
        cmd.control.columns == Some(column),
        column * size.width + size.width <= usize::MAX,
        all_on_screen(grid.placements),
    ensures
        deletes_exactly(
            grid,
            images,
            Some(size),
            cmd,
            cursor_x,
            cursor_y,
            |p: KittyPlacement|
                reaches(
                    p.pixel_x as int,
                    p.display_width as int,
                    column * size.width,
                    size.width as int,
                ),
            images,
        ),
{
    let hit = |p: KittyPlacement|
        reaches(
            p.pixel_x as int,
            p.display_width as int,
            column * size.width,
            size.width as int,
        );
    assert(0 <= column * size.width) by (nonlinear_arith)
        requires
            0 <= column,
            0 <= size.width,
    ;
    assert(size.width == 0 ==> column * size.width == 0) by (nonlinear_arith);
    assert forall|i: int| 0 <= i < grid.placements.len() implies removes_in_range(
        cmd.control,
        Some(size),
        #[trigger] grid.placements[i],
    ) && removes(cmd.control, Some(size), grid.placements[i]) == hit(grid.placements[i]) by {
        let p = grid.placements[i];
        assert(on_screen(p));
        if p.display_width > 0 {
            lemma_spans_meet(
                p.pixel_x as int,
                p.display_width as int,
                column * size.width,
                size.width as int,
            );
        }
    }
    lemma_deletes_exactly(grid, images, Some(size), cmd, cursor_x, cursor_y, hit);
}

/// `d=y` deletes the placements that have a pixel in a row of cells, be it their first one or
/// not, and no other; it deletes no image.
pub proof fn lemma_delete_by_row(
    grid: GridView,
    images: Map<u32, ImageView>,
    size: SizeInPixels,
    cmd: CommandView,
    row: usize,
    cursor_x: usize,
    cursor_y: usize,
)
    requires
        deletes_by(cmd, 'y', 'Y'),
        cmd.control.rows == Some(row),
        row * size.height + size.height <= isize::MAX,
        all_on_screen(grid.placements),
    ensures
        deletes_exactly(
            grid,
            images,
            Some(size),
            cmd,
            cursor_x,
            cursor_y,
            |p: KittyPlacement|
                reaches(
                    p.pixel_y as int,
                    p.display_height as int,
                    row * size.height,
                    size.height as int,
                ),
            images,
        ),
{
    let hit = |p: KittyPlacement|
        reaches(
            p.pixel_y as int,
            p.display_height as int,
            row * size.height,
            size.height as int,
        );
    assert(0 <= row * size.height) by (nonlinear_arith)
        requires
            0 <= row,
            0 <= size.height,
    ;
    assert forall|i: int| 0 <= i < grid.placements.len() implies removes_in_range(
        cmd.control,
        Some(size),
        #[trigger] grid.placements[i],
    ) && removes(cmd.control, Some(size), grid.placements[i]) == hit(grid.placements[i]) by {
        let p = grid.placements[i];
        assert(on_screen(p));
        if p.display_height > 0 {
            lemma_spans_meet(
                p.pixel_y as int,
                p.display_height as int,
                row * size.height,
                size.height as int,
            );
        }
    }
    lemma_deletes_exactly(grid, images, Some(size), cmd, cursor_x, cursor_y, hit);
}

/// `d=c` deletes the placements that cover a pixel, and no other; it deletes no image.
pub proof fn lemma_delete_by_point(
    grid: GridView,
    images: Map<u32, ImageView>,
    cell_size: Option<SizeInPixels>,
    cmd: CommandView,
    x: usize,
    y: usize,
    cursor_x: usize,
    cursor_y: usize,
)
    requires
        deletes_by(cmd, 'c', 'C'),
        cmd.control.display_x == Some(x),
        cmd.control.display_y == Some(y),
        y <= isize::MAX,
        all_on_screen(grid.placements),
    ensures
        deletes_exactly(
            grid,
            images,
            cell_size,
            cmd,
            cursor_x,
            cursor_y,
            |p: KittyPlacement| covers_pixel(p, x as int, y as int),
            images,
        ),
{
    let hit = |p: KittyPlacement| covers_pixel(p, x as int, y as int);
    assert forall|i: int| 0 <= i < grid.placements.len() implies removes_in_range(
        cmd.control,
        cell_size,
        #[trigger] grid.placements[i],
    ) && removes(cmd.control, cell_size, grid.placements[i]) == hit(grid.placements[i]) by {
        assert(on_screen(grid.placements[i]));
    }
    lemma_deletes_exactly(grid, images, cell_size, cmd, cursor_x, cursor_y, hit);
}

/// `d=z` deletes the placements of a z-index, wherever they are, and no other; it deletes no
/// image.
pub proof fn lemma_delete_by_z_index(
    grid: GridView,
    images: Map<u32, ImageView>,
    cell_size: Option<SizeInPixels>,
    cmd: CommandView,
    z_index: i32,
    cursor_x: usize,
    cursor_y: usize,
)
    requires
        deletes_by(cmd, 'z', 'Z'),
        cmd.control.z_index == Some(z_index),
    ensures
        deletes_exactly(
            grid,
            images,
            cell_size,
            cmd,
            cursor_x,
            cursor_y,
            |p: KittyPlacement| p.z_index == z_index,
            images,
        ),
{
    let hit = |p: KittyPlacement| p.z_index == z_index;
    lemma_deletes_exactly(grid, images, cell_size, cmd, cursor_x, cursor_y, hit);
}

/// `d=i` deletes the placements of an image, all of them and no other, and the image.
pub proof fn lemma_delete_by_image(
    grid: GridView,
    images: Map<u32, ImageView>,
    cell_size: Option<SizeInPixels>,
    cmd: CommandView,
    id: u32,
    cursor_x: usize,
    cursor_y: usize,
)
    requires
        deletes_by(cmd, 'i', 'I'),
        cmd.control.image_id == Some(id),
    ensures
        deletes_exactly(
            grid,
            images,
            cell_size,
            cmd,
            cursor_x,
            cursor_y,
            |p: KittyPlacement| p.image_id == id,
            images.remove(id),
        ),
{
    let hit = |p: KittyPlacement| p.image_id == id;
    lemma_deletes_exactly(grid, images, cell_size, cmd, cursor_x, cursor_y, hit);
}

/// `d=p` deletes the one placement of an image that has a placement id; it deletes no image.
pub proof fn lemma_delete_by_placement(
    grid: GridView,
    images: Map<u32, ImageView>,
    cell_size: Option<SizeInPixels>,
    cmd: CommandView,
    image_id: u32,
    placement_id: u32,
    cursor_x: usize,
    cursor_y: usize,
)
    requires
        deletes_by(cmd, 'p', 'P'),
        cmd.control.image_id == Some(image_id),
        cmd.control.placement_id == Some(placement_id),
    ensures
        deletes_exactly(
            grid,
            images,
            cell_size,
            cmd,
            cursor_x,
            cursor_y,
            |p: KittyPlacement| p.image_id == image_id && p.placement_id == placement_id,
            images,
        ),
{
    let hit = |p: KittyPlacement| p.image_id == image_id && p.placement_id == placement_id;
    lemma_deletes_exactly(grid, images, cell_size, cmd, cursor_x, cursor_y, hit);
}

/// `d=a`, and a deletion without a kind, deletes all placements and all images.
pub proof fn lemma_delete_all(
    grid: GridView,
    images: Map<u32, ImageView>,
    cell_size: Option<SizeInPixels>,
    cmd: CommandView,
    cursor_x: usize,
    cursor_y: usize,
)
    requires
        deletes_by(cmd, 'a', 'A') || cmd.control.action == KittyAction::Delete
            && cmd.control.delete_type is None,
    ensures
        deletes_exactly(
            grid,
            images,
            cell_size,
            cmd,
            cursor_x,
            cursor_y,
            |p: KittyPlacement| true,
            Map::empty(),
        ),
{
    lemma_deletes_exactly(
        grid,
        images,
        cell_size,
        cmd,
        cursor_x,
        cursor_y,
        |p: KittyPlacement| true,
    );
}

/// Whether a delete command lacks what its kind needs, or is of no kind that there is.
pub open spec fn lacks_its_target(cmd: CommandView, cell_size: Option<SizeInPixels>) -> bool {
    let c = cmd.control;
    &&& c.action == KittyAction::Delete
    &&& c.delete_type is Some
    &&& {
        ||| deletes_by(cmd, 'i', 'I') && c.image_id is None
        ||| deletes_by(cmd, 'p', 'P') && (c.image_id is None || c.placement_id is None)
        ||| deletes_by(cmd, 'c', 'C') && (c.display_x is None || c.display_y is None)
        ||| deletes_by(cmd, 'x', 'X') && (cell_size is None || c.columns is None)
        ||| deletes_by(cmd, 'y', 'Y') && (cell_size is None || c.rows is None)
        ||| deletes_by(cmd, 'z', 'Z') && c.z_index is None
        ||| !seq!['a', 'A', 'i', 'I', 'p', 'P', 'c', 'C', 'x', 'X', 'y', 'Y', 'z', 'Z'].contains(
            c.delete_type.unwrap(),
        )
    }
}

/// A deletion that lacks what its kind needs deletes nothing.
pub proof fn lemma_delete_without_target(
    grid: GridView,
    images: Map<u32, ImageView>,
    cell_size: Option<SizeInPixels>,
    cmd: CommandView,
    cursor_x: usize,
    cursor_y: usize,
)
    requires
        lacks_its_target(cmd, cell_size),
    ensures
        deletes_exactly(
            grid,
            images,
            cell_size,
            cmd,
            cursor_x,
            cursor_y,
            |p: KittyPlacement| false,
            images,
        ),
{
    let kinds = seq!['a', 'A', 'i', 'I', 'p', 'P', 'c', 'C', 'x', 'X', 'y', 'Y', 'z', 'Z'];
    assert(kinds[0] == 'a' && kinds[1] == 'A' && kinds[2] == 'i' && kinds[3] == 'I' && kinds[4]
        == 'p' && kinds[5] == 'P' && kinds[6] == 'c' && kinds[7] == 'C' && kinds[8] == 'x'
        && kinds[9] == 'X' && kinds[10] == 'y' && kinds[11] == 'Y' && kinds[12] == 'z' && kinds[13]
        == 'Z');
    lemma_deletes_exactly(
        grid,
        images,
        cell_size,
        cmd,
        cursor_x,
        cursor_y,
        |p: KittyPlacement| false,
    );
}

/// When a deletion by point, column or row can be computed, for placements of a height that
/// fits in an `isize`: the ends of the column or row fit, and so does each end of a placement
/// that it has to be held against.
pub proof fn lemma_delete_is_possible(
    control: KittyControlData,
    size: SizeInPixels,
    p: KittyPlacement,
    delete_type: char,
    x: usize,
    y: usize,
)
    requires
        control.delete_type == Some(delete_type),
        control.display_x == Some(x),
        control.display_y == Some(y),
        control.columns == Some(x),
        control.rows == Some(y),
        y <= isize::MAX,
        size.height <= isize::MAX,
        p.display_height <= isize::MAX,
        y * size.height <= isize::MAX,
    ensures
        delete_type == 'c' || delete_type == 'C' ==> {
            &&& delete_in_range(control, Some(size))
            &&& removes_in_range(control, Some(size), p) <==> x < p.pixel_x || p.pixel_x
                + p.display_width <= usize::MAX && (x >= p.pixel_x + p.display_width || y
                < p.pixel_y || p.pixel_y + p.display_height <= isize::MAX)
        },
        delete_type == 'x' || delete_type == 'X' ==> {
            &&& delete_in_range(control, Some(size)) <==> x * size.width + size.width
                <= usize::MAX
            &&& removes_in_range(control, Some(size), p) <==> p.pixel_x >= x * size.width
                + size.width || p.pixel_x + p.display_width <= usize::MAX
        },
        delete_type == 'y' || delete_type == 'Y' ==> {
            &&& delete_in_range(control, Some(size)) <==> y * size.height + size.height
                <= isize::MAX
            &&& removes_in_range(control, Some(size), p) <==> p.pixel_y >= y * size.height
                + size.height || p.pixel_y + p.display_height <= isize::MAX
        },
        !seq!['c', 'C', 'x', 'X', 'y', 'Y'].contains(delete_type) ==> delete_in_range(
            control,
            Some(size),
        ) && removes_in_range(control, Some(size), p),
{
    let kinds = seq!['c', 'C', 'x', 'X', 'y', 'Y'];
    assert(kinds[0] == 'c' && kinds[1] == 'C' && kinds[2] == 'x' && kinds[3] == 'X' && kinds[4]
        == 'y' && kinds[5] == 'Y');
    assert(0 <= x * size.width && 0 <= y * size.height) by (nonlinear_arith)
        requires
            0 <= x,
            0 <= y,
            0 <= size.width,
            0 <= size.height,
    ;
}

// ---------------------------------------------------------------------------------------
// Scrolling

/// Whether `q` is `p`, `by` pixels higher and otherwise the same.
pub open spec fn lifted(p: KittyPlacement, q: KittyPlacement, by: int) -> bool {
    q == (KittyPlacement { pixel_y: q.pixel_y, ..p }) && q.pixel_y == p.pixel_y - by
}

/// Whether placements can be lifted by `by` pixels.
pub open spec fn can_be_lifted(list: Seq<KittyPlacement>, by: int) -> bool {
    forall|i: int|
        0 <= i < list.len() ==> (#[trigger] list[i]).display_height <= isize::MAX
            && list[i].pixel_y - by >= isize::MIN
}

/// Whether a placement, lifted by `by` pixels, still has a pixel below the top.
pub open spec fn stays_below(p: KittyPlacement, by: int) -> bool {
    p.pixel_y - by + p.display_height > 0
}

/// Whether `after` holds what is left of `before`, lifted by `by` pixels, and nothing else.
pub open spec fn lifts_exactly(
    before: Seq<KittyPlacement>,
    after: Seq<KittyPlacement>,
    by: int,
) -> bool {
    &&& forall|p: KittyPlacement| #[trigger]
        before.contains(p) && stays_below(p, by) ==> exists|q: KittyPlacement| #[trigger]
            after.contains(q) && lifted(p, q, by)
    &&& forall|q: KittyPlacement| #[trigger]
        after.contains(q) ==> exists|p: KittyPlacement| #[trigger]
            before.contains(p) && stays_below(p, by) && lifted(p, q, by)
    &&& after.len() <= before.len()
}

/// Scrolling by a line lifts every placement by the height of a line, wherever it is, and
/// keeps exactly those that still have a pixel below the top.
pub proof fn lemma_scroll_by_a_line(grid: GridView, size: SizeInPixels)
    requires
        size.height <= isize::MAX,
        can_be_lifted(grid.placements, size.height as int),
    ensures
        ({
            let after = scrolled_grid(grid, Some(size));
            &&& after == (GridView { placements: after.placements, ..grid })
            &&& lifts_exactly(grid.placements, after.placements, size.height as int)
        }),
{
    let before = grid.placements;
    let after = scrolled_grid(grid, Some(size)).placements;
    let h = size.height as int;
    assert forall|p: KittyPlacement| #[trigger]
        before.contains(p) && stays_below(p, h) implies exists|q: KittyPlacement| #[trigger]
        after.contains(q) && lifted(p, q, h) by {
        let i = choose|i: int| 0 <= i < before.len() && before[i] == p;
        assert(before[i].pixel_y - h >= isize::MIN);
        let q = KittyPlacement { pixel_y: (p.pixel_y - h) as isize, ..p };
        assert(q == moved_up(p, size.height as isize));
        lemma_scrolling_is_exact(before, size, q);
        assert(after.contains(q));
    }
    assert forall|q: KittyPlacement| #[trigger] after.contains(q) implies exists|
        p: KittyPlacement,
    | #[trigger]
        before.contains(p) && stays_below(p, h) && lifted(p, q, h) by {
        lemma_scrolling_is_exact(before, size, q);
        let p = choose|p: KittyPlacement|
            before.contains(p) && q == #[trigger] moved_up(p, size.height as isize);
        let i = choose|i: int| 0 <= i < before.len() && before[i] == p;
        assert(before[i].pixel_y - h >= isize::MIN);
        assert(before.contains(p) && stays_below(p, h) && lifted(p, q, h));
    }
    before.map_values(|p: KittyPlacement| moved_up(p, size.height as isize)).lemma_filter_len(
        |p: KittyPlacement| !gone(p),
    );
}

/// A grid after the screen has scrolled by `n` lines, one after the other.
pub open spec fn scrolled_by(grid: GridView, size: SizeInPixels, n: nat) -> GridView
    decreases n,
{
    if n == 0 {
        grid
    } else {
        scrolled_grid(scrolled_by(grid, size, (n - 1) as nat), Some(size))
    }
}

/// Scrolling by `n` lines lifts every placement by `n` times the height of a line, and keeps
/// exactly those that still have a pixel below the top.
pub proof fn lemma_scroll_by_lines(grid: GridView, size: SizeInPixels, n: nat)
    requires
        n > 0,
        size.height <= isize::MAX,
        can_be_lifted(grid.placements, n * size.height),
    ensures
        ({
            let after = scrolled_by(grid, size, n);
            &&& after == (GridView { placements: after.placements, ..grid })
            &&& lifts_exactly(grid.placements, after.placements, n * size.height)
        }),
    decreases n,
{
    let h = size.height as int;
    let before = grid.placements;
    if n == 1 {
        reveal_with_fuel(scrolled_by, 2);
        assert(n * size.height == h) by (nonlinear_arith)
            requires
                n == 1,
                h == size.height,
        ;
        lemma_scroll_by_a_line(grid, size);
    } else {
        let m = (n - 1) as nat;
        assert(n * size.height == m * size.height + h && m * size.height >= 0)
            by (nonlinear_arith)
            requires
                n == m + 1,
                h == size.height,
                h >= 0,
        ;
        let by = m * size.height;
        assert forall|i: int| 0 <= i < before.len() implies (
        #[trigger] before[i]).display_height <= isize::MAX && before[i].pixel_y - by
            >= isize::MIN by {
            assert(before[i].pixel_y - n * size.height >= isize::MIN);
        }
        lemma_scroll_by_lines(grid, size, m);
        let middle = scrolled_by(grid, size, m);
        assert forall|i: int| 0 <= i < middle.placements.len() implies (
        #[trigger] middle.placements[i]).display_height <= isize::MAX
            && middle.placements[i].pixel_y - h >= isize::MIN by {
            let q = middle.placements[i];
            assert(middle.placements.contains(q));
            let p = choose|p: KittyPlacement| #[trigger]
                before.contains(p) && stays_below(p, by) && lifted(p, q, by);
            let k = choose|k: int| 0 <= k < before.len() && before[k] == p;
            assert(before[k].pixel_y - n * size.height >= isize::MIN);
        }
        lemma_scroll_by_a_line(middle, size);
        let after = scrolled_by(grid, size, n).placements;
        let all = n * size.height;
        assert forall|p: KittyPlacement| #[trigger]
            before.contains(p) && stays_below(p, all) implies exists|q: KittyPlacement| #[trigger]
            after.contains(q) && lifted(p, q, all) by {
            assert(stays_below(p, by));
            let r = choose|r: KittyPlacement| #[trigger]
                middle.placements.contains(r) && lifted(p, r, by);
            assert(stays_below(r, h));
            let q = choose|q: KittyPlacement| #[trigger] after.contains(q) && lifted(r, q, h);
            assert(after.contains(q) && lifted(p, q, all));
        }
        assert forall|q: KittyPlacement| #[trigger] after.contains(q) implies exists|
            p: KittyPlacement,
        | #[trigger]
            before.contains(p) && stays_below(p, all) && lifted(p, q, all) by {
            let r = choose|r: KittyPlacement| #[trigger]
                middle.placements.contains(r) && stays_below(r, h) && lifted(r, q, h);
            let p = choose|p: KittyPlacement| #[trigger]
                before.contains(p) && stays_below(p, by) && lifted(p, r, by);
            assert(before.contains(p) && stays_below(p, all) && lifted(p, q, all));
        }
    }
}

/// A placement can be moved up by a line if and only if both of its ends then fit in machine
/// integers. In cells of unknown size nothing moves.
pub proof fn lemma_scroll_is_possible(p: KittyPlacement, size: SizeInPixels, grid: GridView)
    requires
        size.height <= isize::MAX,
        p.display_height <= isize::MAX,
    ensures
        move_in_range(p, size) <==> isize::MIN <= p.pixel_y - size.height && p.pixel_y
            - size.height + p.display_height <= isize::MAX,
        scrolled_grid(grid, None) == grid,
{
}

// ---------------------------------------------------------------------------------------
// Another cell size

/// Whether the pixel `x` is in the cell `k`, if cells have `extent` pixels.
pub open spec fn begins_in_cell(x: int, k: int, extent: int) -> bool {
    k * extent <= x < k * extent + extent
}

/// The same for pixels above the top, whose cells are counted downwards from zero: the last
/// pixel of a cell counts as its beginning there.
pub open spec fn begins_in_row(y: int, k: int, extent: int) -> bool {
    if y >= 0 {
        begins_in_cell(y, k, extent)
    } else {
        k * extent - extent < y <= k * extent
    }
}

/// The cell of a pixel is what division gives.
proof fn lemma_cell_of(x: int, extent: int)
    requires
        extent > 0,
    ensures
        begins_in_cell(x, x / extent, extent),
{
    vstd::arithmetic::div_mod::lemma_fundamental_div_mod(x, extent);
    assert(extent * (x / extent) == x / extent * extent) by (nonlinear_arith);
}

/// A pixel is in one cell.
proof fn lemma_cell_is_unique(x: int, k: int, m: int, extent: int)
    requires
        extent > 0,
        begins_in_cell(x, k, extent),
        begins_in_cell(x, m, extent),
    ensures
        k == m,
{
    assert(k == m) by (nonlinear_arith)
        requires
            extent > 0,
            k * extent <= x < k * extent + extent,
            m * extent <= x < m * extent + extent,
    ;
}

/// The row of a pixel is what division towards zero gives, and no other.
proof fn lemma_row_of(y: int, extent: int, k: int)
    requires
        extent > 0,
    ensures
        begins_in_row(y, truncated_quotient(y, extent), extent),
        begins_in_row(y, k, extent) ==> k == truncated_quotient(y, extent),
{
    let q = truncated_quotient(y, extent);
    if y >= 0 {
        lemma_cell_of(y, extent);
        if begins_in_row(y, k, extent) {
            lemma_cell_is_unique(y, k, q, extent);
        }
    } else {
        lemma_cell_of(-y, extent);
        let d = (-y) / extent;
        assert(q * extent == -(d * extent)) by (nonlinear_arith)
            requires
                q == -d,
        ;
        if begins_in_row(y, k, extent) {
            assert((-k) * extent == -(k * extent)) by (nonlinear_arith);
            lemma_cell_is_unique(-y, -k, d, extent);
        }
    }
}

/// Whether `q` is `p`, taken from cells of one size to cells of another: it begins at the
/// corner of the cell that it began in, and is otherwise the same.
pub open spec fn moved_with_its_cell(
    p: KittyPlacement,
    q: KittyPlacement,
    old_size: SizeInPixels,
    new_size: SizeInPixels,
) -> bool {
    &&& q == (KittyPlacement { pixel_x: q.pixel_x, pixel_y: q.pixel_y, ..p })
    &&& exists|column: int| #[trigger]
        begins_in_cell(p.pixel_x as int, column, old_size.width as int) && q.pixel_x == column
            * new_size.width
    &&& exists|row: int| #[trigger]
        begins_in_row(p.pixel_y as int, row, old_size.height as int) && q.pixel_y == row
            * new_size.height
}

proof fn lemma_rescaled_moves_with_cell(
    p: KittyPlacement,
    old_size: SizeInPixels,
    new_size: SizeInPixels,
)
    requires
        old_size.width > 0,
        0 < old_size.height <= isize::MAX,
        new_size.height <= isize::MAX,
        rescale_in_range(p, old_size, new_size),
    ensures
        moved_with_its_cell(p, rescaled(p, old_size, new_size), old_size, new_size),
{
    lemma_cell_of(p.pixel_x as int, old_size.width as int);
    lemma_row_of(p.pixel_y as int, old_size.height as int, 0);
    let column = p.pixel_x as int / old_size.width as int;
    let row = truncated_quotient(p.pixel_y as int, old_size.height as int);
    let q = rescaled(p, old_size, new_size);
    assert(begins_in_cell(p.pixel_x as int, column, old_size.width as int) && q.pixel_x == column
        * new_size.width);
    assert(begins_in_row(p.pixel_y as int, row, old_size.height as int) && q.pixel_y == row
        * new_size.height);
}

/// Another cell size takes every placement to the corner of the cell that it began in, and
/// leaves its size on the screen and its ids alone.
pub proof fn lemma_resize_moves_with_cells(
    grid: GridView,
    old_size: SizeInPixels,
    new_size: SizeInPixels,
)
    requires
        grid.previous_cell_size == Some(old_size),
        old_size != new_size,
        old_size.width > 0,
        0 < old_size.height <= isize::MAX,
        new_size.height <= isize::MAX,
        resize_in_range(grid, Some(new_size)),
    ensures
        ({
            let after = resized_grid(grid, Some(new_size));
            &&& after == (GridView {
                placements: after.placements,
                previous_cell_size: Some(new_size),
                ..grid
            })
            &&& after.placements.len() == grid.placements.len()
            &&& forall|i: int|
                0 <= i < grid.placements.len() ==> moved_with_its_cell(
                    grid.placements[i],
                    #[trigger] after.placements[i],
                    old_size,
                    new_size,
                )
        }),
{
    let after = resized_grid(grid, Some(new_size));
    assert forall|i: int| 0 <= i < grid.placements.len() implies moved_with_its_cell(
        grid.placements[i],
        #[trigger] after.placements[i],
        old_size,
        new_size,
    ) by {
        lemma_rescaled_moves_with_cell(grid.placements[i], old_size, new_size);
    }
}

/// The size that a grid was told last is remembered. Unless it and the one before are known and
/// differ, no placement moves.
pub proof fn lemma_resize_without_change(grid: GridView, cell_size: Option<SizeInPixels>)
    requires
        grid.previous_cell_size is None || cell_size is None || grid.previous_cell_size
            == cell_size,
    ensures
        resized_grid(grid, cell_size) == (GridView { previous_cell_size: cell_size, ..grid }),
        resize_in_range(grid, cell_size),
{
}

/// A placement can be taken to cells of another size if the corner of its cell fits in machine
/// integers.
pub proof fn lemma_resize_is_possible(
    p: KittyPlacement,
    old_size: SizeInPixels,
    new_size: SizeInPixels,
    column: int,
    row: int,
)
    requires
        old_size.width > 0,
        0 < old_size.height <= isize::MAX,
        new_size.height <= isize::MAX,
        begins_in_cell(p.pixel_x as int, column, old_size.width as int),
        begins_in_row(p.pixel_y as int, row, old_size.height as int),
    ensures
        rescale_in_range(p, old_size, new_size) <==> 0 <= column * new_size.width <= usize::MAX
            && isize::MIN <= row * new_size.height <= isize::MAX,
{
    lemma_cell_of(p.pixel_x as int, old_size.width as int);
    lemma_cell_is_unique(
        p.pixel_x as int,
        column,
        p.pixel_x as int / old_size.width as int,
        old_size.width as int,
    );
    lemma_row_of(p.pixel_y as int, old_size.height as int, row);
}

/// A placement at the corner of a cell is back where it was once the cell size is.
pub proof fn lemma_resize_there_and_back(
    p: KittyPlacement,
    size: SizeInPixels,
    other: SizeInPixels,
    column: int,
    row: int,
)
    requires
        size.width > 0,
        other.width > 0,
        0 < size.height <= isize::MAX,
        0 < other.height <= isize::MAX,
        p.pixel_x == column * size.width,
        p.pixel_y == row * size.height,
        0 <= column * other.width <= usize::MAX,
        isize::MIN <= row * other.height <= isize::MAX,
    ensures
        rescaled(rescaled(p, size, other), other, size) == p,
{
    let q = rescaled(p, size, other);
    assert(begins_in_cell(p.pixel_x as int, column, size.width as int));
    assert(begins_in_row(p.pixel_y as int, row, size.height as int));
    lemma_resize_is_possible(p, size, other, column, row);
    lemma_cell_of(p.pixel_x as int, size.width as int);
    lemma_cell_is_unique(
        p.pixel_x as int,
        column,
        p.pixel_x as int / size.width as int,
        size.width as int,
    );
    lemma_row_of(p.pixel_y as int, size.height as int, row);
    assert(q.pixel_x == column * other.width && q.pixel_y == row * other.height);
    assert(begins_in_cell(q.pixel_x as int, column, other.width as int));
    assert(begins_in_row(q.pixel_y as int, row, other.height as int));
    lemma_resize_is_possible(q, other, size, column, row);
    lemma_cell_of(q.pixel_x as int, other.width as int);
    lemma_cell_is_unique(
        q.pixel_x as int,
        column,
        q.pixel_x as int / other.width as int,
        other.width as int,
    );
    lemma_row_of(q.pixel_y as int, other.height as int, row);
}

// ---------------------------------------------------------------------------------------
// Redrawing

/// Whether a placement shares a pixel row with `count` lines from `line` on, or ends right
/// above them, or begins right below them.
pub open spec fn touches_rows(
    p: KittyPlacement,
    line: usize,
    count: usize,
    scrollback: usize,
    size: SizeInPixels,
) -> bool {
    spans_meet(
        p.pixel_y as int,
        p.display_height + 1,
        (line + scrollback) * size.height,
        count * size.height + 1,
    )
}

/// Whether the lines from `line` on have pixel rows that fit in machine integers.
pub open spec fn lines_on_screen(
    line: usize,
    count: usize,
    scrollback: usize,
    size: SizeInPixels,
) -> bool {
    &&& line + scrollback <= usize::MAX
    &&& (line + scrollback) * size.height + count * size.height <= isize::MAX
}

/// Whether this holds of all changed lines.
pub open spec fn all_lines_on_screen(
    changes: Map<usize, usize>,
    scrollback: usize,
    size: SizeInPixels,
) -> bool {
    forall|line: usize| #[trigger]
        changes.contains_key(line) ==> lines_on_screen(line, changes[line], scrollback, size)
}

/// Whether a placement touches any of the changed lines.
pub open spec fn touches_changed_rows(
    p: KittyPlacement,
    changes: Map<usize, usize>,
    scrollback: usize,
    size: SizeInPixels,
) -> bool {
    exists|line: usize| #[trigger]
        changes.contains_key(line) && touches_rows(p, line, changes[line], scrollback, size)
}

/// Whether a chunk draws a placement: all of its image, at its size on the screen, at the cell
/// of the pane that it begins in or, where it begins above the pane, on the first line of the
/// pane.
pub open spec fn draws(
    c: KittyImageChunk,
    p: KittyPlacement,
    size: SizeInPixels,
    scrollback: usize,
    x_offset: usize,
    y_offset: usize,
) -> bool {
    &&& c.kitty_image_id == p.image_id
    &&& c.kitty_placement_id == p.placement_id
    &&& c.kitty_image_pixel_x == 0
    &&& c.kitty_image_pixel_y == 0
    &&& c.kitty_image_pixel_width == p.display_width
    &&& c.kitty_image_pixel_height == p.display_height
    &&& c.cell_x >= x_offset
    &&& begins_in_cell(p.pixel_x as int, c.cell_x - x_offset, size.width as int)
    &&& c.cell_y >= y_offset
    &&& if p.pixel_y < scrollback * size.height {
        c.cell_y == y_offset
    } else {
        begins_in_cell(p.pixel_y as int, c.cell_y - y_offset + scrollback, size.height as int)
    }
}

/// Whether the cells that a placement is drawn at have numbers that fit in machine integers.
pub open spec fn drawable(
    p: KittyPlacement,
    size: SizeInPixels,
    scrollback: usize,
    x_offset: usize,
    y_offset: usize,
) -> bool {
    &&& on_screen(p)
    &&& x_offset + p.pixel_x as int / size.width as int <= usize::MAX
    &&& p.pixel_y >= 0 ==> y_offset + p.pixel_y as int / size.height as int <= usize::MAX
        + scrollback
}

/// Whether this holds of all placements of a list.
pub open spec fn all_drawable(
    list: Seq<KittyPlacement>,
    size: SizeInPixels,
    scrollback: usize,
    x_offset: usize,
    y_offset: usize,
) -> bool {
    forall|i: int|
        0 <= i < list.len() ==> drawable(
            #[trigger] list[i],
            size,
            scrollback,
            x_offset,
            y_offset,
        )
}

/// Which lines a placement touches, in pixel rows; it can be computed for those on the screen.
proof fn lemma_touches_rows(
    p: KittyPlacement,
    line: usize,
    count: usize,
    scrollback: usize,
    size: SizeInPixels,
)
    requires
        on_screen(p),
        lines_on_screen(line, count, scrollback, size),
    ensures
        touches_lines_in_range(p, line, count, scrollback, size),
        touches_lines(p, line, count, scrollback, size) <==> touches_rows(
            p,
            line,
            count,
            scrollback,
            size,
        ),
{
    let top = (line + scrollback) * size.height;
    assert(0 <= top && 0 <= count * size.height) by (nonlinear_arith)
        requires
            top == (line + scrollback) * size.height,
            0 <= line + scrollback,
            0 <= count,
            0 <= size.height,
    ;
    lemma_spans_meet(p.pixel_y as int, p.display_height + 1, top, count * size.height + 1);
}

/// Where a placement is drawn.
proof fn lemma_chunk_draws(
    p: KittyPlacement,
    size: SizeInPixels,
    scrollback: usize,
    x_offset: usize,
    y_offset: usize,
)
    requires
        size.width > 0,
        size.height > 0,
        drawable(p, size, scrollback, x_offset, y_offset),
    ensures
        chunk_in_range(p, size, scrollback, x_offset, y_offset),
        draws(
            chunk_of(p, size, scrollback, x_offset, y_offset),
            p,
            size,
            scrollback,
            x_offset,
            y_offset,
        ),
{
    let w = size.width as int;
    let h = size.height as int;
    let x = p.pixel_x as int;
    let y = p.pixel_y as int;
    lemma_cell_of(x, w);
    lemma_cell_of(y, h);
    assert(0 <= x / w <= x) by (nonlinear_arith)
        requires
            x >= 0,
            w > 0,
    ;
    assert(y >= 0 ==> 0 <= y / h <= y) by (nonlinear_arith)
        requires
            h > 0,
    ;
    let line = y / h;
    assert(y < scrollback * h <==> line < scrollback) by (nonlinear_arith)
        requires
            h > 0,
            line * h <= y < line * h + h,
    ;
}

/// What is redrawn, for all placements, changes and panes: each placement that touches a
/// changed line is drawn where it is, and nothing else is; and this can be computed.
pub proof fn lemma_redraw_is_exact(
    grid: GridView,
    size: SizeInPixels,
    changes: Map<usize, usize>,
    scrollback: usize,
    x_offset: usize,
    y_offset: usize,
)
    requires
        size.width > 0,
        size.height > 0,
        all_drawable(grid.placements, size, scrollback, x_offset, y_offset),
        all_lines_on_screen(changes, scrollback, size),
    ensures
        changed_chunks_in_range(
            grid.placements,
            changes,
            scrollback,
            size,
            x_offset,
            y_offset,
        ),
        ({
            let chunks = drawn_chunks(
                grid,
                Some(size),
                changes,
                scrollback,
                x_offset,
                y_offset,
            );
            &&& chunks.len() <= grid.placements.len()
            &&& forall|p: KittyPlacement| #[trigger]
                grid.placements.contains(p) && touches_changed_rows(p, changes, scrollback, size)
                    ==> exists|c: KittyImageChunk| #[trigger]
                    chunks.contains(c) && draws(c, p, size, scrollback, x_offset, y_offset)
            &&& forall|c: KittyImageChunk| #[trigger]
                chunks.contains(c) ==> exists|p: KittyPlacement| #[trigger]
                    grid.placements.contains(p) && touches_changed_rows(
                        p,
                        changes,
                        scrollback,
                        size,
                    ) && draws(c, p, size, scrollback, x_offset, y_offset)
        }),
{
    let list = grid.placements;
    let touched = |p: KittyPlacement| touches_changes(p, changes, scrollback, size);
    let drawn = |p: KittyPlacement| chunk_of(p, size, scrollback, x_offset, y_offset);
    let kept = list.filter(touched);
    let chunks = drawn_chunks(grid, Some(size), changes, scrollback, x_offset, y_offset);
    list.lemma_filter_len(touched);
    assert forall|p: KittyPlacement| on_screen(p) implies (#[trigger] touched(p)
        == touches_changed_rows(p, changes, scrollback, size)) by {
        assert forall|line: usize| #[trigger] changes.contains_key(line) implies touches_lines(
            p,
            line,
            changes[line],
            scrollback,
            size,
        ) == touches_rows(p, line, changes[line], scrollback, size) by {
            lemma_touches_rows(p, line, changes[line], scrollback, size);
        }
    }
    assert forall|i: int| 0 <= i < list.len() implies drawing_in_range(
        #[trigger] list[i],
        changes,
        scrollback,
        size,
        x_offset,
        y_offset,
    ) by {
        let p = list[i];
        assert(drawable(p, size, scrollback, x_offset, y_offset));
        lemma_chunk_draws(p, size, scrollback, x_offset, y_offset);
        assert forall|line: usize| #[trigger]
            changes.contains_key(line) implies touches_lines_in_range(
            p,
            line,
            changes[line],
            scrollback,
            size,
        ) by {
            lemma_touches_rows(p, line, changes[line], scrollback, size);
        }
    }
    assert forall|p: KittyPlacement| #[trigger]
        list.contains(p) && touches_changed_rows(p, changes, scrollback, size) implies exists|
        c: KittyImageChunk,
    | #[trigger]
        chunks.contains(c) && draws(c, p, size, scrollback, x_offset, y_offset) by {
        let i = choose|i: int| 0 <= i < list.len() && list[i] == p;
        assert(drawable(list[i], size, scrollback, x_offset, y_offset));
        assert(touched(p));
        lemma_filter_contains(list, touched, p);
        let k = choose|k: int| 0 <= k < kept.len() && kept[k] == p;
        assert(chunks[k] == drawn(p));
        lemma_chunk_draws(p, size, scrollback, x_offset, y_offset);
        assert(chunks.contains(chunks[k]));
    }
    assert forall|c: KittyImageChunk| #[trigger] chunks.contains(c) implies exists|
        p: KittyPlacement,
    | #[trigger]
        list.contains(p) && touches_changed_rows(p, changes, scrollback, size) && draws(
            c,
            p,
            size,
            scrollback,
            x_offset,
            y_offset,
        ) by {
        let k = choose|k: int| 0 <= k < chunks.len() && chunks[k] == c;
        let p = kept[k];
        assert(kept.contains(p));
        lemma_filter_contains(list, touched, p);
        let i = choose|i: int| 0 <= i < list.len() && list[i] == p;
        assert(drawable(list[i], size, scrollback, x_offset, y_offset));
        assert(touched(p));
        lemma_chunk_draws(p, size, scrollback, x_offset, y_offset);
        assert(list.contains(p) && touches_changed_rows(p, changes, scrollback, size) && draws(
            c,
            p,
            size,
            scrollback,
            x_offset,
            y_offset,
        ));
    }
}

/// Moving a pane moves everything that is drawn in it by as many cells, and changes nothing
/// else of it.
pub proof fn lemma_moving_the_pane_moves_what_is_drawn(
    grid: GridView,
    size: SizeInPixels,
    changes: Map<usize, usize>,
    scrollback: usize,
    x_offset: usize,
    y_offset: usize,
    columns: usize,
    lines: usize,
)
    requires
        size.width > 0,
        size.height > 0,
        x_offset + columns <= usize::MAX,
        y_offset + lines <= usize::MAX,
        all_drawable(
            grid.placements,
            size,
            scrollback,
            (x_offset + columns) as usize,
            (y_offset + lines) as usize,
        ),
        all_lines_on_screen(changes, scrollback, size),
    ensures
        ({
            let before = drawn_chunks(
                grid,
                Some(size),
                changes,
                scrollback,
                x_offset,
                y_offset,
            );
            let after = drawn_chunks(
                grid,
                Some(size),
                changes,
                scrollback,
                (x_offset + columns) as usize,
                (y_offset + lines) as usize,
            );
            &&& after.len() == before.len()
            &&& forall|i: int|
                0 <= i < before.len() ==> #[trigger] after[i] == (KittyImageChunk {
                    cell_x: (before[i].cell_x + columns) as usize,
                    cell_y: (before[i].cell_y + lines) as usize,
                    ..before[i]
                }) && after[i].cell_x == before[i].cell_x + columns && after[i].cell_y
                    == before[i].cell_y + lines
        }),
{
    let list = grid.placements;
    let touched = |p: KittyPlacement| touches_changes(p, changes, scrollback, size);
    let kept = list.filter(touched);
    let x = (x_offset + columns) as usize;
    let y = (y_offset + lines) as usize;
    let before = drawn_chunks(grid, Some(size), changes, scrollback, x_offset, y_offset);
    let after = drawn_chunks(grid, Some(size), changes, scrollback, x, y);
    assert forall|i: int| 0 <= i < before.len() implies #[trigger] after[i] == (KittyImageChunk {
        cell_x: (before[i].cell_x + columns) as usize,
        cell_y: (before[i].cell_y + lines) as usize,
        ..before[i]
    }) && after[i].cell_x == before[i].cell_x + columns && after[i].cell_y == before[i].cell_y
        + lines by {
        let p = kept[i];
        assert(kept.contains(p));
        lemma_filter_contains(list, touched, p);
        let k = choose|k: int| 0 <= k < list.len() && list[k] == p;
        assert(drawable(list[k], size, scrollback, x, y));
        lemma_chunk_draws(p, size, scrollback, x_offset, y_offset);
        lemma_chunk_draws(p, size, scrollback, x, y);
        assert(before[i] == chunk_of(p, size, scrollback, x_offset, y_offset));
        assert(after[i] == chunk_of(p, size, scrollback, x, y));
        lemma_cell_is_unique(
            p.pixel_x as int,
            before[i].cell_x - x_offset,
            after[i].cell_x - x,
            size.width as int,
        );
        if p.pixel_y >= scrollback * size.height {
            lemma_cell_is_unique(
                p.pixel_y as int,
                before[i].cell_y - y_offset + scrollback,
                after[i].cell_y - y + scrollback,
                size.height as int,
            );
        }
    }
}

/// In cells of unknown size nothing is drawn, and no placement is on a cell.
pub proof fn lemma_unknown_cells_show_nothing(
    grid: GridView,
    changes: Map<usize, usize>,
    scrollback: usize,
    x_offset: usize,
    y_offset: usize,
    viewport_height: usize,
)
    ensures
        drawn_chunks(grid, None, changes, scrollback, x_offset, y_offset).len() == 0,
        viewport_cells(grid, None, viewport_height, scrollback).len() == 0,
{
}

// ---------------------------------------------------------------------------------------
// Cell coordinates

/// Whether `n` cells of `extent` pixels are just enough to hold `len` pixels.
pub open spec fn just_holds(n: int, extent: int, len: int) -> bool {
    n * extent - extent < len <= n * extent
}

/// How many cells are just enough is what the rounded-up quotient gives.
proof fn lemma_cells_for(len: int, extent: int)
    requires
        len >= 0,
        extent > 0,
    ensures
        just_holds(cells_for(len, extent), extent, len),
        0 <= cells_for(len, extent) <= len,
{
    let q = (len + extent - 1) / extent;
    lemma_cell_of(len + extent - 1, extent);
    assert(0 <= q <= len) by (nonlinear_arith)
        requires
            len >= 0,
            extent > 0,
            q * extent <= len + extent - 1 < q * extent + extent,
    ;
}

/// Whether the pixel rows of the scrollback, and those of a placement counted from its end, fit
/// in machine integers.
pub open spec fn cells_computable(
    p: KittyPlacement,
    scrollback: usize,
    size: SizeInPixels,
) -> bool {
    &&& on_screen(p)
    &&& 0 < size.height <= isize::MAX
    &&& 0 < size.width
    &&& p.display_width + size.width <= usize::MAX
    &&& scrollback * size.height <= isize::MAX
    &&& p.pixel_y - scrollback * size.height >= isize::MIN
}

/// How many pixel rows of a placement are not above the row `top`.
pub open spec fn rows_below(p: KittyPlacement, top: int) -> int {
    if p.pixel_y >= top {
        p.display_height as int
    } else if p.pixel_y + p.display_height > top {
        p.pixel_y + p.display_height - top
    } else {
        0
    }
}

/// Whether the cells (first line, line behind the last, first column, column behind the last)
/// are those of a placement: they begin at the cell that it begins in or, where it begins above
/// the viewport, on its first line; they are just enough for the pixels that are not above; and
/// they end no later than the viewport does.
pub open spec fn holds_placement(
    cells: (usize, usize, usize, usize),
    p: KittyPlacement,
    viewport_height: usize,
    scrollback: usize,
    size: SizeInPixels,
) -> bool {
    let y = p.pixel_y - scrollback * size.height;
    &&& begins_in_cell(p.pixel_x as int, cells.2 as int, size.width as int)
    &&& just_holds(cells.3 - cells.2, size.width as int, p.display_width as int)
    &&& if y >= 0 {
        begins_in_cell(y, cells.0 as int, size.height as int)
    } else {
        cells.0 == 0
    }
    &&& exists|n: int| #[trigger]
        just_holds(n, size.height as int, rows_below(p, scrollback * size.height)) && cells.1 == (
        if cells.0 + n < viewport_height {
            cells.0 + n
        } else {
            viewport_height as int
        })
}

/// The cells of each placement are those that hold it; and they can be computed.
pub proof fn lemma_cells_hold_placements(
    grid: GridView,
    size: SizeInPixels,
    viewport_height: usize,
    scrollback: usize,
)
    requires
        forall|i: int|
            0 <= i < grid.placements.len() ==> cells_computable(
                #[trigger] grid.placements[i],
                scrollback,
                size,
            ),
    ensures
        viewport_cells(grid, Some(size), viewport_height, scrollback).len()
            == grid.placements.len(),
        forall|i: int|
            0 <= i < grid.placements.len() ==> cells_in_range(
                #[trigger] grid.placements[i],
                scrollback,
                size,
            ),
        forall|i: int|
            0 <= i < grid.placements.len() ==> holds_placement(
                #[trigger] viewport_cells(grid, Some(size), viewport_height, scrollback)[i],
                grid.placements[i],
                viewport_height,
                scrollback,
                size,
            ),
{
    let cells = viewport_cells(grid, Some(size), viewport_height, scrollback);
    assert forall|i: int| 0 <= i < grid.placements.len() implies cells_in_range(
        #[trigger] grid.placements[i],
        scrollback,
        size,
    ) && holds_placement(cells[i], grid.placements[i], viewport_height, scrollback, size) by {
        lemma_cells_hold_placement(grid.placements[i], size, viewport_height, scrollback);
    }
    assert forall|i: int| 0 <= i < grid.placements.len() implies holds_placement(
        #[trigger] cells[i],
        grid.placements[i],
        viewport_height,
        scrollback,
        size,
    ) by {
        assert(cells_in_range(grid.placements[i], scrollback, size));
    }
}

proof fn lemma_cells_hold_placement(
    p: KittyPlacement,
    size: SizeInPixels,
    viewport_height: usize,
    scrollback: usize,
)
    requires
        cells_computable(p, scrollback, size),
    ensures
        cells_in_range(p, scrollback, size),
        holds_placement(
            cells_of(p, viewport_height, scrollback, size),
            p,
            viewport_height,
            scrollback,
            size,
        ),
{
    let w = size.width as int;
    let h = size.height as int;
    let x = p.pixel_x as int;
    assert(0 <= scrollback * size.height) by (nonlinear_arith)
        requires
            0 <= scrollback,
            0 <= size.height,
    ;
    let y = p.pixel_y - scrollback * size.height;
    assert(y == row_in_viewport(p, scrollback, size));
    let below = visible_height(p, scrollback, size);
    lemma_cell_of(x, w);
    lemma_cell_of(y, h);
    lemma_cells_for(p.display_width as int, w);
    lemma_cells_for(below, h);
    assert(0 <= x / w <= x) by (nonlinear_arith)
        requires
            x >= 0,
            w > 0,
    ;
    assert(y >= 0 ==> 0 <= y / h <= y) by (nonlinear_arith)
        requires
            h > 0,
    ;
    assert(y == 0 ==> y / h == 0) by (nonlinear_arith)
        requires
            h > 0,
    ;
    assert(below == rows_below(p, scrollback * size.height));
    assert(just_holds(cells_for(below, h), h, rows_below(p, scrollback * size.height)));
}

/// Clearing removes every placement, gives the image id of each, and leaves the rest alone.
pub proof fn lemma_clear_gives_all_image_ids(grid: GridView)
    ensures
        cleared_grid(grid) == (GridView { placements: Seq::empty(), ..grid }),
        placed_image_ids(grid).len() == grid.placements.len(),
        forall|i: int|
            0 <= i < grid.placements.len() ==> #[trigger] placed_image_ids(grid)[i]
                == grid.placements[i].image_id,
{
}

} // verus!
