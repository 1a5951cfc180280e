//! What single commands do, said of what they carry: which image is stored, where and how large
//! it is shown, what is answered.

use crate::codec::base64_bytes;
use crate::decode::{decoded_image, OutOfRange};
use crate::grid::{
    command_step, counted_on, empty_grid, file_step, image_id_for, placed, placed_in_range,
    with_image, GridView, OutcomeView, RequestView, StepView,
};
use crate::placements::{
    free_placement_id, has_ids, holds_ids, is_free_placement_id, lemma_filter_contains,
};
use crate::reply::ok_response;
use crate::store::{free_id, is_free_id};
use crate::types::{
    CommandView, ImageView, KittyAction, KittyControlData, KittyPlacement, SizeInPixels,
    TransmissionMedium,
};
use vstd::prelude::*;
use vstd::utf8::valid_utf8;

verus! {

// ---------------------------------------------------------------------------------------
// What is shown

/// Whether `extent` is how far an image reaches on one axis: as many pixels as the command
/// says; or else as many cells as it says, if their extent is known; or else as many pixels as
/// the image has.
pub open spec fn is_extent(
    extent: usize,
    pixels: Option<usize>,
    cells: Option<usize>,
    cell_extent: Option<usize>,
    image_extent: usize,
) -> bool {
    &&& pixels is Some ==> extent == pixels.unwrap()
    &&& pixels is None && cells is Some && cell_extent is Some ==> extent == cells.unwrap()
        * cell_extent.unwrap()
    &&& pixels is None && (cells is None || cell_extent is None) ==> extent == image_extent
}

/// Whether a number of cells is in pixels no more than fits in a machine integer, where it
/// counts.
pub open spec fn extent_fits(
    pixels: Option<usize>,
    cells: Option<usize>,
    cell_extent: Option<usize>,
) -> bool {
    pixels is None && cells is Some && cell_extent is Some ==> cells.unwrap()
        * cell_extent.unwrap() <= usize::MAX
}

/// The width of a cell of known size.
pub open spec fn width_of(cell_size: Option<SizeInPixels>) -> Option<usize> {
    match cell_size {
        Some(size) => Some(size.width),
        None => None,
    }
}

/// The height of a cell of known size.
pub open spec fn height_of(cell_size: Option<SizeInPixels>) -> Option<usize> {
    match cell_size {
        Some(size) => Some(size.height),
        None => None,
    }
}

/// Whether a command can show an image: its extents fit, and there is a placement id, given or
/// not yet used for the image, with one behind it.
pub open spec fn can_show(
    grid: GridView,
    image_id: u32,
    control: KittyControlData,
    cell_size: Option<SizeInPixels>,
) -> bool {
    &&& extent_fits(control.display_width, control.columns, width_of(cell_size))
    &&& extent_fits(control.display_height, control.rows, height_of(cell_size))
    &&& control.placement_id is None ==> exists|k: u32|
        grid.next_placement_id <= k < u32::MAX && !#[trigger] uses_placement_id(
            grid.placements,
            image_id,
            k,
        )
}

/// Whether an image has a placement with an id.
pub open spec fn uses_placement_id(list: Seq<KittyPlacement>, image_id: u32, id: u32) -> bool {
    exists|p: KittyPlacement| #[trigger]
        list.contains(p) && p.image_id == image_id && p.placement_id == id
}

/// Whether `p` shows an image of `width` times `height` pixels as a command says: at the cursor,
/// at the size and with the z-index and the id that the command gives, or else at the size of
/// the image, with the z-index 0 and the first id from the count on that the image has no
/// placement of.
pub open spec fn shows(
    p: KittyPlacement,
    grid: GridView,
    image_id: u32,
    width: usize,
    height: usize,
    control: KittyControlData,
    cell_size: Option<SizeInPixels>,
    cursor_x: usize,
    cursor_y: usize,
) -> bool {
    &&& p.image_id == image_id
    &&& p.pixel_x == cursor_x
    &&& p.pixel_y == cursor_y as isize
    &&& is_extent(
        p.display_width,
        control.display_width,
        control.columns,
        width_of(cell_size),
        width,
    )
    &&& is_extent(
        p.display_height,
        control.display_height,
        control.rows,
        height_of(cell_size),
        height,
    )
    &&& control.z_index is Some ==> p.z_index == control.z_index.unwrap()
    &&& control.z_index is None ==> p.z_index == 0
    &&& control.placement_id is Some ==> p.placement_id == control.placement_id.unwrap()
    &&& control.placement_id is None ==> {
        &&& grid.next_placement_id <= p.placement_id
        &&& !uses_placement_id(grid.placements, image_id, p.placement_id)
        &&& forall|k: u32|
            grid.next_placement_id <= k < p.placement_id ==> #[trigger] uses_placement_id(
                grid.placements,
                image_id,
                k,
            )
    }
}

/// Whether `after` is `before` with one more placement, the last one, in place of the one with
/// its ids if there was one, and with a count of placement ids that goes on behind its id if
/// the command gave none.
pub open spec fn adds_placement(
    before: GridView,
    after: GridView,
    control: KittyControlData,
) -> bool {
    let p = after.placements.last();
    &&& after.placements.len() > 0
    &&& after.transmission == before.transmission
    &&& after.previous_cell_size == before.previous_cell_size
    &&& control.placement_id is Some ==> after.next_placement_id == before.next_placement_id
    &&& control.placement_id is None ==> after.next_placement_id == p.placement_id + 1
    &&& forall|q: KittyPlacement|
        #![trigger after.placements.contains(q)]
        after.placements.contains(q) <==> q == p || before.placements.contains(q) && !(q.image_id
            == p.image_id && q.placement_id == p.placement_id)
}

/// The two ways to say that an id is in use.
proof fn lemma_uses_placement_id(list: Seq<KittyPlacement>, image_id: u32, id: u32)
    ensures
        uses_placement_id(list, image_id, id) == holds_ids(list, image_id, id),
{
    if uses_placement_id(list, image_id, id) {
        let p = choose|p: KittyPlacement| #[trigger]
            list.contains(p) && p.image_id == image_id && p.placement_id == id;
        let i = choose|i: int| 0 <= i < list.len() && list[i] == p;
        assert(has_ids(list[i], image_id, id));
    }
    if holds_ids(list, image_id, id) {
        let i = choose|i: int| 0 <= i < list.len() && has_ids(#[trigger] list[i], image_id, id);
        assert(list.contains(list[i]));
    }
}

/// Where there is a placement id that is not in use, there is a first one.
proof fn lemma_first_placement_id(
    list: Seq<KittyPlacement>,
    image_id: u32,
    next: u32,
    id: u32,
)
    requires
        next <= id < u32::MAX,
        !uses_placement_id(list, image_id, id),
    ensures
        free_placement_id(list, image_id, next) is Some,
    decreases id,
{
    lemma_uses_placement_id(list, image_id, id);
    if forall|k: u32| next <= k < id ==> #[trigger] holds_ids(list, image_id, k) {
        assert(is_free_placement_id(list, image_id, next, id));
    } else {
        let k = choose|k: u32| next <= k < id && !#[trigger] holds_ids(list, image_id, k);
        lemma_uses_placement_id(list, image_id, k);
        lemma_first_placement_id(list, image_id, next, k);
    }
}

/// Placing an image shows it as the command says.
proof fn lemma_placed_shows(
    grid: GridView,
    image_id: u32,
    width: usize,
    height: usize,
    control: KittyControlData,
    cell_size: Option<SizeInPixels>,
    cursor_x: usize,
    cursor_y: usize,
)
    requires
        can_show(grid, image_id, control, cell_size),
    ensures
        placed_in_range(grid, image_id, width, height, control, cell_size),
        ({
            let after = placed(
                grid,
                image_id,
                width,
                height,
                control,
                cell_size,
                cursor_x,
                cursor_y,
            );
            &&& adds_placement(grid, after, control)
            &&& after.next_image_id == grid.next_image_id
            &&& shows(
                after.placements.last(),
                grid,
                image_id,
                width,
                height,
                control,
                cell_size,
                cursor_x,
                cursor_y,
            )
        }),
{
    if control.placement_id is None {
        let k = choose|k: u32|
            grid.next_placement_id <= k < u32::MAX && !#[trigger] uses_placement_id(
                grid.placements,
                image_id,
                k,
            );
        lemma_first_placement_id(grid.placements, image_id, grid.next_placement_id, k);
        let id = free_placement_id(grid.placements, image_id, grid.next_placement_id).unwrap();
        lemma_uses_placement_id(grid.placements, image_id, id);
        assert forall|k: u32| grid.next_placement_id <= k < id implies #[trigger] uses_placement_id(
            grid.placements,
            image_id,
            k,
        ) by {
            lemma_uses_placement_id(grid.placements, image_id, k);
            assert(holds_ids(grid.placements, image_id, k));
        }
    }
    assert(control.columns is Some && cell_size is Some ==> 0 <= control.columns.unwrap()
        * cell_size.unwrap().width) by (nonlinear_arith);
    assert(control.rows is Some && cell_size is Some ==> 0 <= control.rows.unwrap()
        * cell_size.unwrap().height) by (nonlinear_arith);
    let after = placed(
        grid,
        image_id,
        width,
        height,
        control,
        cell_size,
        cursor_x,
        cursor_y,
    );
    let p = after.placements.last();
    let keep = |q: KittyPlacement| !has_ids(q, p.image_id, p.placement_id);
    let kept = grid.placements.filter(keep);
    assert(after.placements == kept.push(p));
    assert forall|q: KittyPlacement|
        #![trigger after.placements.contains(q)]
        after.placements.contains(q) <==> q == p || grid.placements.contains(q) && !(q.image_id
            == p.image_id && q.placement_id == p.placement_id) by {
        lemma_filter_contains(grid.placements, keep, q);
        if after.placements.contains(q) && q != p {
            let k = choose|k: int| 0 <= k < after.placements.len() && after.placements[k] == q;
            assert(kept[k] == q);
        }
        if kept.contains(q) {
            let k = choose|k: int| 0 <= k < kept.len() && kept[k] == q;
            assert(after.placements[k] == q);
        }
        assert(after.placements[kept.len() as int] == p);
    }
}

// ---------------------------------------------------------------------------------------
// Answers

/// What is answered for an image: that all is well, unless the command asks for quiet.
pub open spec fn answered(outcome: Result<OutcomeView, OutOfRange>, quiet: u8, id: u32) -> bool {
    &&& quiet == 0 ==> outcome == Ok::<OutcomeView, OutOfRange>(
        OutcomeView::Done(Some(ok_response(id))),
    )
    &&& quiet != 0 ==> outcome == Ok::<OutcomeView, OutOfRange>(OutcomeView::Done(None))
}

/// Whether a command changed and answered nothing.
pub open spec fn did_nothing(
    after: StepView,
    grid: GridView,
    images: Map<u32, ImageView>,
) -> bool {
    &&& after.grid == grid
    &&& after.images == images
    &&& after.outcome == Ok::<OutcomeView, OutOfRange>(OutcomeView::Done(None))
}

/// A query is answered with the id that it gives, or 0, and changes nothing. Animation commands
/// do nothing.
pub proof fn lemma_query_is_answered(
    grid: GridView,
    images: Map<u32, ImageView>,
    cell_size: Option<SizeInPixels>,
    cmd: CommandView,
    cursor_x: usize,
    cursor_y: usize,
)
    ensures
        ({
            let after = command_step(grid, images, cell_size, cmd, cursor_x, cursor_y);
            let action = cmd.control.action;
            &&& action == KittyAction::Query ==> {
                &&& after.grid == grid
                &&& after.images == images
                &&& cmd.control.image_id matches Some(id) ==> answered(
                    after.outcome,
                    cmd.control.quiet,
                    id,
                )
                &&& cmd.control.image_id is None ==> answered(
                    after.outcome,
                    cmd.control.quiet,
                    0,
                )
            }
            &&& action == KittyAction::Frame || action == KittyAction::Animation || action
                == KittyAction::Compose ==> did_nothing(after, grid, images)
        }),
{
}

/// A new grid has no placements and no transmission in progress, gives out ids from `first_id`
/// on and remembers the cell size.
pub proof fn lemma_empty_grid_is_empty(first_id: u32, cell_size: Option<SizeInPixels>)
    ensures
        empty_grid(first_id, cell_size).placements.len() == 0,
        empty_grid(first_id, cell_size).transmission is None,
        empty_grid(first_id, cell_size).next_image_id == first_id,
        empty_grid(first_id, cell_size).next_placement_id == first_id,
        empty_grid(first_id, cell_size).previous_cell_size == cell_size,
{
}

// ---------------------------------------------------------------------------------------
// Placing a stored image

/// A stored image is placed as the command says, at its own size unless the command gives
/// another; the images stay, and it is answered for.
pub proof fn lemma_put_shows_the_stored_image(
    grid: GridView,
    images: Map<u32, ImageView>,
    cell_size: Option<SizeInPixels>,
    cmd: CommandView,
    id: u32,
    cursor_x: usize,
    cursor_y: usize,
)
    requires
        cmd.control.action == KittyAction::Put,
        cmd.control.image_id == Some(id),
        images.contains_key(id),
        can_show(grid, id, cmd.control, cell_size),
    ensures
        ({
            let after = command_step(grid, images, cell_size, cmd, cursor_x, cursor_y);
            &&& after.images == images
            &&& answered(after.outcome, cmd.control.quiet, id)
            &&& adds_placement(grid, after.grid, cmd.control)
            &&& after.grid.next_image_id == grid.next_image_id
            &&& shows(
                after.grid.placements.last(),
                grid,
                id,
                images[id].width,
                images[id].height,
                cmd.control,
                cell_size,
                cursor_x,
                cursor_y,
            )
        }),
{
    lemma_placed_shows(
        grid,
        id,
        images[id].width,
        images[id].height,
        cmd.control,
        cell_size,
        cursor_x,
        cursor_y,
    );
}

/// Without a size and cells, a stored image is placed at exactly its own width and height.
pub proof fn lemma_put_keeps_the_size_of_the_image(
    grid: GridView,
    images: Map<u32, ImageView>,
    cell_size: Option<SizeInPixels>,
    cmd: CommandView,
    id: u32,
    cursor_x: usize,
    cursor_y: usize,
)
    requires
        cmd.control.action == KittyAction::Put,
        cmd.control.image_id == Some(id),
        images.contains_key(id),
        can_show(grid, id, cmd.control, cell_size),
        cmd.control.display_width is None,
        cmd.control.display_height is None,
        cmd.control.columns is None,
        cmd.control.rows is None,
    ensures
        ({
            let after = command_step(grid, images, cell_size, cmd, cursor_x, cursor_y);
            &&& after.grid.placements.last().display_width == images[id].width
            &&& after.grid.placements.last().display_height == images[id].height
        }),
{
    lemma_put_shows_the_stored_image(
        grid,
        images,
        cell_size,
        cmd,
        id,
        cursor_x,
        cursor_y,
    );
}

/// A put without an image id, or with one that no image has, does nothing.
pub proof fn lemma_put_needs_an_image(
    grid: GridView,
    images: Map<u32, ImageView>,
    cell_size: Option<SizeInPixels>,
    cmd: CommandView,
    cursor_x: usize,
    cursor_y: usize,
)
    requires
        cmd.control.action == KittyAction::Put,
        cmd.control.image_id is None || !images.contains_key(cmd.control.image_id.unwrap()),
    ensures
        did_nothing(
            command_step(grid, images, cell_size, cmd, cursor_x, cursor_y),
            grid,
            images,
        ),
{
}

// ---------------------------------------------------------------------------------------
// Transmissions

/// Whether an image can be stored: the command gives its id, or there is one that no image has,
/// not below the count, with one behind it.
pub open spec fn can_store(
    grid: GridView,
    images: Map<u32, ImageView>,
    control: KittyControlData,
) -> bool {
    control.image_id is None ==> exists|k: u32|
        grid.next_image_id <= k < u32::MAX && !#[trigger] images.contains_key(k)
}

/// Whether an image is stored under `id` as a command says: under the id that it gives, or else
/// under the first one from the count on that no image has.
pub open spec fn is_image_id(
    id: u32,
    grid: GridView,
    images: Map<u32, ImageView>,
    control: KittyControlData,
) -> bool {
    &&& control.image_id is Some ==> id == control.image_id.unwrap()
    &&& control.image_id is None ==> {
        &&& grid.next_image_id <= id
        &&& !images.contains_key(id)
        &&& forall|k: u32| grid.next_image_id <= k < id ==> #[trigger] images.contains_key(k)
    }
}

/// Whether an image was stored under an id, and nothing else was.
pub open spec fn stored(
    after: StepView,
    grid: GridView,
    images: Map<u32, ImageView>,
    control: KittyControlData,
    image: ImageView,
    id: u32,
) -> bool {
    &&& is_image_id(id, grid, images, control)
    &&& after.images.contains_key(id)
    &&& after.images[id].id == id
    &&& after.images[id].width == image.width
    &&& after.images[id].height == image.height
    &&& after.images[id].pixels == image.pixels
    &&& after.images.remove(id) == images.remove(id)
    &&& control.image_id is Some ==> after.grid.next_image_id == grid.next_image_id
    &&& control.image_id is None ==> after.grid.next_image_id == id + 1
    &&& answered(after.outcome, control.quiet, id)
}

/// Where there is an id that no image has, there is a first one.
proof fn lemma_first_free_id(images: Map<u32, ImageView>, next: u32, id: u32)
    requires
        next <= id < u32::MAX,
        !images.contains_key(id),
    ensures
        free_id(images, next) is Some,
    decreases id,
{
    if forall|k: u32| next <= k < id ==> #[trigger] images.contains_key(k) {
        assert(is_free_id(images, next, id));
    } else {
        let k = choose|k: u32| next <= k < id && !#[trigger] images.contains_key(k);
        lemma_first_free_id(images, next, k);
    }
}

/// What becomes of an image that was decoded.
proof fn lemma_image_is_stored_and_shown(
    grid: GridView,
    images: Map<u32, ImageView>,
    cell_size: Option<SizeInPixels>,
    control: KittyControlData,
    display: bool,
    cursor_x: usize,
    cursor_y: usize,
    image: ImageView,
)
    requires
        can_store(grid, images, control),
        display ==> forall|id: u32| #[trigger]
            is_image_id(id, grid, images, control) ==> can_show(grid, id, control, cell_size),
    ensures
        stored_and_shown(
            with_image(
                grid,
                images,
                cell_size,
                control,
                display,
                cursor_x,
                cursor_y,
                Ok(Some(image)),
            ),
            grid,
            images,
            cell_size,
            control,
            display,
            cursor_x,
            cursor_y,
            image,
        ),
{
    if control.image_id is None {
        let k = choose|k: u32|
            grid.next_image_id <= k < u32::MAX && !#[trigger] images.contains_key(k);
        lemma_first_free_id(images, grid.next_image_id, k);
    }
    let id = image_id_for(images, grid.next_image_id, control.image_id).unwrap();
    assert(is_image_id(id, grid, images, control));
    let counted = GridView {
        next_image_id: counted_on(grid.next_image_id, control.image_id, id),
        ..grid
    };
    if display {
        assert(can_show(grid, id, control, cell_size));
        assert(can_show(counted, id, control, cell_size));
        lemma_placed_shows(
            counted,
            id,
            image.width,
            image.height,
            control,
            cell_size,
            cursor_x,
            cursor_y,
        );
    }
    let after = with_image(
        grid,
        images,
        cell_size,
        control,
        display,
        cursor_x,
        cursor_y,
        Ok(Some(image)),
    );
    assert(after.images.remove(id) =~= images.remove(id));
    assert(stored(after, grid, images, control, image, id));
}

/// Whether an image was stored and, if it is to be shown, placed as a command says; if not, the
/// placements are as before.
pub open spec fn stored_and_shown(
    after: StepView,
    grid: GridView,
    images: Map<u32, ImageView>,
    cell_size: Option<SizeInPixels>,
    control: KittyControlData,
    display: bool,
    cursor_x: usize,
    cursor_y: usize,
    image: ImageView,
) -> bool {
    exists|id: u32|
        {
            &&& #[trigger] stored(after, grid, images, control, image, id)
            &&& display ==> adds_placement(grid, after.grid, control) && shows(
                after.grid.placements.last(),
                grid,
                id,
                image.width,
                image.height,
                control,
                cell_size,
                cursor_x,
                cursor_y,
            )
            &&& !display ==> after.grid == (GridView {
                next_image_id: after.grid.next_image_id,
                ..grid
            })
        }
}

/// An image that is transmitted in one piece is stored, pixel for pixel, is shown if and only if
/// the action says so, at the cursor and as the command says, and is answered for.
pub proof fn lemma_transmitted_image_is_stored_and_shown(
    grid: GridView,
    images: Map<u32, ImageView>,
    cell_size: Option<SizeInPixels>,
    cmd: CommandView,
    data: Seq<u8>,
    image: ImageView,
    cursor_x: usize,
    cursor_y: usize,
)
    requires
        grid.transmission is None,
        cmd.control.action == KittyAction::Transmit || cmd.control.action
            == KittyAction::TransmitPut,
        !cmd.control.more_data,
        cmd.control.transmission == TransmissionMedium::Direct,
        base64_bytes(cmd.payload) == Some(data),
        decoded_image(cmd.control, data) == Ok::<Option<ImageView>, OutOfRange>(Some(image)),
        can_store(grid, images, cmd.control),
        cmd.control.action == KittyAction::TransmitPut ==> forall|id: u32| #[trigger]
            is_image_id(id, grid, images, cmd.control) ==> can_show(
                grid,
                id,
                cmd.control,
                cell_size,
            ),
    ensures
        stored_and_shown(
            command_step(grid, images, cell_size, cmd, cursor_x, cursor_y),
            grid,
            images,
            cell_size,
            cmd.control,
            cmd.control.action == KittyAction::TransmitPut,
            cursor_x,
            cursor_y,
            image,
        ),
{
    assert((GridView { transmission: None, ..grid }) =~= grid);
    lemma_image_is_stored_and_shown(
        grid,
        images,
        cell_size,
        cmd.control,
        cmd.control.action == KittyAction::TransmitPut,
        cursor_x,
        cursor_y,
        image,
    );
}

/// The same holds of an image from a file, with what the request says.
pub proof fn lemma_file_image_is_stored_and_shown(
    grid: GridView,
    images: Map<u32, ImageView>,
    cell_size: Option<SizeInPixels>,
    request: RequestView,
    data: Seq<u8>,
    image: ImageView,
)
    requires
        decoded_image(request.control, data) == Ok::<Option<ImageView>, OutOfRange>(Some(image)),
        can_store(grid, images, request.control),
        request.display ==> forall|id: u32| #[trigger]
            is_image_id(id, grid, images, request.control) ==> can_show(
                grid,
                id,
                request.control,
                cell_size,
            ),
    ensures
        stored_and_shown(
            file_step(grid, images, cell_size, request, Some(data)),
            grid,
            images,
            cell_size,
            request.control,
            request.display,
            request.cursor_x_pixels,
            request.cursor_y_pixels,
            image,
        ),
{
    lemma_image_is_stored_and_shown(
        grid,
        images,
        cell_size,
        request.control,
        request.display,
        request.cursor_x_pixels,
        request.cursor_y_pixels,
        image,
    );
}

/// A stored image that is placed by a put is shown just as one that is displayed when it is
/// transmitted, by a command with the same keys.
pub proof fn lemma_put_is_like_display(
    grid: GridView,
    images: Map<u32, ImageView>,
    cell_size: Option<SizeInPixels>,
    transmit: CommandView,
    put: CommandView,
    data: Seq<u8>,
    image: ImageView,
    id: u32,
    cursor_x: usize,
    cursor_y: usize,
)
    requires
        grid.transmission is None,
        transmit.control.action == KittyAction::TransmitPut,
        !transmit.control.more_data,
        transmit.control.transmission == TransmissionMedium::Direct,
        transmit.control.image_id == Some(id),
        base64_bytes(transmit.payload) == Some(data),
        decoded_image(transmit.control, data) == Ok::<Option<ImageView>, OutOfRange>(Some(image)),
        put.control == (KittyControlData { action: KittyAction::Put, ..transmit.control }),
        images.contains_key(id),
        images[id].width == image.width,
        images[id].height == image.height,
    ensures
        command_step(grid, images, cell_size, put, cursor_x, cursor_y).grid == command_step(
            grid,
            images,
            cell_size,
            transmit,
            cursor_x,
            cursor_y,
        ).grid,
        command_step(grid, images, cell_size, put, cursor_x, cursor_y).outcome == command_step(
            grid,
            images,
            cell_size,
            transmit,
            cursor_x,
            cursor_y,
        ).outcome,
{
    assert((GridView { transmission: None, ..grid }) =~= grid);
}

/// Whether data gives no image, though its size can be computed.
pub open spec fn gives_no_image(control: KittyControlData, data: Seq<u8>) -> bool {
    decoded_image(control, data) == Ok::<Option<ImageView>, OutOfRange>(None)
}

/// A transmission whose data cannot be had or gives no image is dropped: payload that is no
/// base64, the name of a file that is no text, shared memory, data without an image.
pub proof fn lemma_useless_transmission_is_dropped(
    grid: GridView,
    images: Map<u32, ImageView>,
    cell_size: Option<SizeInPixels>,
    cmd: CommandView,
    cursor_x: usize,
    cursor_y: usize,
)
    requires
        grid.transmission is None,
        cmd.control.action == KittyAction::Transmit || cmd.control.action
            == KittyAction::TransmitPut,
        !cmd.control.more_data,
        ({
            ||| base64_bytes(cmd.payload) is None
            ||| cmd.control.transmission == TransmissionMedium::SharedMemory
            ||| (cmd.control.transmission == TransmissionMedium::File || cmd.control.transmission
                == TransmissionMedium::TempFile) && !valid_utf8(
                base64_bytes(cmd.payload).unwrap(),
            )
            ||| cmd.control.transmission == TransmissionMedium::Direct && gives_no_image(
                cmd.control,
                base64_bytes(cmd.payload).unwrap(),
            )
        }),
    ensures
        did_nothing(
            command_step(grid, images, cell_size, cmd, cursor_x, cursor_y),
            grid,
            images,
        ),
{
    assert((GridView { transmission: None, ..grid }) =~= grid);
}

/// A file that could not be read, or that holds no image, is dropped.
pub proof fn lemma_useless_file_is_dropped(
    grid: GridView,
    images: Map<u32, ImageView>,
    cell_size: Option<SizeInPixels>,
    request: RequestView,
    data: Option<Seq<u8>>,
)
    requires
        data is Some ==> gives_no_image(request.control, data.unwrap()),
    ensures
        did_nothing(file_step(grid, images, cell_size, request, data), grid, images),
{
}

/// A command that says that more data follows is only remembered: its control data if it is the
/// first of a transmission, and its payload behind what came before.
pub proof fn lemma_chunk_is_remembered(
    grid: GridView,
    images: Map<u32, ImageView>,
    cell_size: Option<SizeInPixels>,
    cmd: CommandView,
    cursor_x: usize,
    cursor_y: usize,
)
    requires
        cmd.control.action == KittyAction::Transmit || cmd.control.action
            == KittyAction::TransmitPut,
        cmd.control.more_data,
    ensures
        ({
            let after = command_step(grid, images, cell_size, cmd, cursor_x, cursor_y);
            &&& after.images == images
            &&& after.outcome == Ok::<OutcomeView, OutOfRange>(OutcomeView::Done(None))
            &&& after.grid == (GridView { transmission: after.grid.transmission, ..grid })
            &&& after.grid.transmission is Some
            &&& match grid.transmission {
                None => after.grid.transmission == Some(cmd),
                Some(first) => {
                    &&& after.grid.transmission.unwrap().control == first.control
                    &&& after.grid.transmission.unwrap().payload == first.payload + cmd.payload
                },
            }
        }),
{
}

/// The last chunk of a transmission does what one command with the control data of the first
/// chunk, all the payloads and the action of the last chunk does on a grid without a
/// transmission in progress, wherever the data is; a file request carries the control data of
/// the first chunk.
pub proof fn lemma_last_chunk_completes(
    grid: GridView,
    images: Map<u32, ImageView>,
    cell_size: Option<SizeInPixels>,
    first: CommandView,
    last: CommandView,
    cursor_x: usize,
    cursor_y: usize,
)
    requires
        grid.transmission == Some(first),
        last.control.action == KittyAction::Transmit || last.control.action
            == KittyAction::TransmitPut,
        !last.control.more_data,
    ensures
        ({
            let after = command_step(grid, images, cell_size, last, cursor_x, cursor_y);
            let whole = command_step(
                GridView { transmission: None, ..grid },
                images,
                cell_size,
                CommandView {
                    control: KittyControlData {
                        action: last.control.action,
                        more_data: false,
                        ..first.control
                    },
                    payload: first.payload + last.payload,
                },
                cursor_x,
                cursor_y,
            );
            &&& after.grid == whole.grid
            &&& after.images == whole.images
            &&& after.grid.transmission is None
            &&& match (after.outcome, whole.outcome) {
                (Ok(OutcomeView::ReadFile(a)), Ok(OutcomeView::ReadFile(b))) => {
                    &&& a.control == first.control
                    &&& a == (RequestView { control: a.control, ..b })
                },
                (a, b) => a == b,
            }
        }),
{
    let joined = first.payload + last.payload;
    if let Some(data) = base64_bytes(joined) {
        let control = KittyControlData {
            action: last.control.action,
            more_data: false,
            ..first.control
        };
        assert(decoded_image(first.control, data) == decoded_image(control, data));
    }
    let between = GridView { transmission: None, ..grid };
    assert((GridView { transmission: None, ..between }) =~= between);
}

} // verus!
