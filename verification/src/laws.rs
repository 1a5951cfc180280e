//! What holds of commands, over all grids, images and commands.

use crate::codec::base64_bytes;
use crate::decode::{decoded_image, source_of, OutOfRange};
use crate::grid::{
    between_transmissions, command_step, completed, counted_on, delete_step, delete_step_in_range,
    file_step, ignored, image_id_for, placed, placed_in_range, placement_for, placement_id_for,
    transmits, with_image, with_source, GridView, OutcomeView, RequestView, StepView,
};
use crate::placement::{delete_type_of, removes};
use crate::placements::{
    changed_chunks, distinct_ids, free_placement_id, has_ids, is_free_placement_id,
    lemma_filter_contains, lemma_filter_keeps_distinct, lemma_put_replaces,
    lemma_remaining_distinct, lemma_without_absent, remaining, scrolled, touches_changes,
};
use crate::reply::{ok_response, reply};
use crate::store::{free_id, images_after_delete, is_free_id};
use crate::types::{
    CommandView, ImageView, KittyAction, KittyControlData, KittyPlacement, SizeInPixels,
    TransmissionMedium,
};
use crate::viewport::{gone, moved_up};
use vstd::prelude::*;
use vstd::utf8::{decode_utf8, valid_utf8};

verus! {

/// What a series of commands does, one after the other; what the last one led to counts.
pub open spec fn run_commands(
    grid: GridView,
    images: Map<u32, ImageView>,
    cell_size: Option<SizeInPixels>,
    cmds: Seq<CommandView>,
    cursor_x: usize,
    cursor_y: usize,
) -> StepView
    decreases cmds.len(),
{
    if cmds.len() == 0 {
        ignored(grid, images)
    } else {
        let before = run_commands(
            grid,
            images,
            cell_size,
            cmds.drop_last(),
            cursor_x,
            cursor_y,
        );
        command_step(before.grid, before.images, cell_size, cmds.last(), cursor_x, cursor_y)
    }
}

/// The payloads of some commands, joined.
pub open spec fn joined_payload(cmds: Seq<CommandView>) -> Seq<u8>
    decreases cmds.len(),
{
    if cmds.len() == 0 {
        Seq::empty()
    } else {
        joined_payload(cmds.drop_last()) + cmds.last().payload
    }
}

/// While chunks come in, they are only collected: nothing is stored, shown or answered, and
/// the control data of the first one is kept.
pub proof fn lemma_chunks_are_collected(
    grid: GridView,
    images: Map<u32, ImageView>,
    cell_size: Option<SizeInPixels>,
    chunks: Seq<CommandView>,
    cursor_x: usize,
    cursor_y: usize,
)
    requires
        grid.transmission is None,
        chunks.len() > 0,
        forall|i: int|
            0 <= i < chunks.len() ==> transmits(#[trigger] chunks[i])
                && chunks[i].control.more_data,
    ensures
        run_commands(grid, images, cell_size, chunks, cursor_x, cursor_y) == ignored(
            GridView {
                transmission: Some(
                    CommandView { control: chunks[0].control, payload: joined_payload(chunks) },
                ),
                ..grid
            },
            images,
        ),
    decreases chunks.len(),
{
    let front = chunks.drop_last();
    let last = chunks.last();
    assert(last == chunks[chunks.len() - 1]);
    assert forall|i: int| 0 <= i < front.len() implies transmits(#[trigger] front[i])
        && front[i].control.more_data by {
        assert(front[i] == chunks[i]);
    }
    if chunks.len() == 1 {
        assert(joined_payload(front) == Seq::<u8>::empty());
        assert(joined_payload(chunks) =~= last.payload);
    } else {
        lemma_chunks_are_collected(grid, images, cell_size, front, cursor_x, cursor_y);
        assert(front[0] == chunks[0]);
    }
}

/// An image that is sent directly in chunks is handled as if it had been sent in one piece,
/// with the control data of the first chunk and all the payloads. Whether it is shown is up
/// to the last chunk.
pub proof fn lemma_chunked_image_is_one_image(
    grid: GridView,
    images: Map<u32, ImageView>,
    cell_size: Option<SizeInPixels>,
    chunks: Seq<CommandView>,
    last: CommandView,
    cursor_x: usize,
    cursor_y: usize,
)
    requires
        grid.transmission is None,
        chunks.len() > 0,
        forall|i: int|
            0 <= i < chunks.len() ==> transmits(#[trigger] chunks[i])
                && chunks[i].control.more_data,
        transmits(last),
        !last.control.more_data,
        chunks[0].control.transmission == TransmissionMedium::Direct,
    ensures
        run_commands(grid, images, cell_size, chunks.push(last), cursor_x, cursor_y)
            == command_step(
            grid,
            images,
            cell_size,
            CommandView {
                control: KittyControlData {
                    action: last.control.action,
                    more_data: false,
                    ..chunks[0].control
                },
                payload: joined_payload(chunks) + last.payload,
            },
            cursor_x,
            cursor_y,
        ),
{
    lemma_chunks_are_collected(grid, images, cell_size, chunks, cursor_x, cursor_y);
    assert(chunks.push(last).drop_last() == chunks);
    let first = chunks[0].control;
    let whole = KittyControlData { action: last.control.action, more_data: false, ..first };
    let payload = joined_payload(chunks) + last.payload;
    let display = last.control.action == KittyAction::TransmitPut;
    if let Some(data) = base64_bytes(payload) {
        assert(decoded_image(first, data) == decoded_image(whole, data));
        assert(with_image(
            grid,
            images,
            cell_size,
            first,
            display,
            cursor_x,
            cursor_y,
            decoded_image(first, data),
        ) == with_image(
            grid,
            images,
            cell_size,
            whole,
            display,
            cursor_x,
            cursor_y,
            decoded_image(whole, data),
        ));
    }
    let collected = run_commands(grid, images, cell_size, chunks, cursor_x, cursor_y).grid;
    assert(between_transmissions(collected) =~= grid);
    assert(between_transmissions(grid) =~= grid);
}

/// Whatever commands are run, no two placements have the same ids.
pub proof fn lemma_commands_keep_ids_distinct(
    grid: GridView,
    images: Map<u32, ImageView>,
    cell_size: Option<SizeInPixels>,
    cmds: Seq<CommandView>,
    cursor_x: usize,
    cursor_y: usize,
)
    requires
        distinct_ids(grid.placements),
    ensures
        distinct_ids(
            run_commands(grid, images, cell_size, cmds, cursor_x, cursor_y).grid.placements,
        ),
    decreases cmds.len(),
{
    if cmds.len() > 0 {
        lemma_commands_keep_ids_distinct(
            grid,
            images,
            cell_size,
            cmds.drop_last(),
            cursor_x,
            cursor_y,
        );
        let before = run_commands(
            grid,
            images,
            cell_size,
            cmds.drop_last(),
            cursor_x,
            cursor_y,
        );
        let after = command_step(
            before.grid,
            before.images,
            cell_size,
            cmds.last(),
            cursor_x,
            cursor_y,
        );
        let list = before.grid.placements;
        if after.grid.placements != list {
            if cmds.last().control.action == KittyAction::Delete {
                lemma_remaining_distinct(list, cmds.last().control, cell_size);
            } else {
                lemma_put_replaces(list, after.grid.placements.last());
            }
        }
    }
}

/// The control data that decides about the answer to a command: that of the first chunk, if
/// the command ends a chunked transmission.
pub open spec fn deciding_control(grid: GridView, cmd: CommandView) -> KittyControlData {
    if transmits(cmd) {
        completed(grid, cmd).control
    } else {
        cmd.control
    }
}

/// Every answer says `OK` for an image id, and in quiet mode there is none.
pub proof fn lemma_answers(
    grid: GridView,
    images: Map<u32, ImageView>,
    cell_size: Option<SizeInPixels>,
    cmd: CommandView,
    cursor_x: usize,
    cursor_y: usize,
)
    ensures
        command_step(grid, images, cell_size, cmd, cursor_x, cursor_y).outcome matches Ok(
            OutcomeView::Done(Some(response)),
        ) ==> {
            &&& deciding_control(grid, cmd).quiet == 0
            &&& exists|id: u32| response == #[trigger] ok_response(id)
        },
{
}

/// The same holds of the answer to a file.
pub proof fn lemma_file_answers(
    grid: GridView,
    images: Map<u32, ImageView>,
    cell_size: Option<SizeInPixels>,
    request: RequestView,
    data: Option<Seq<u8>>,
)
    ensures
        file_step(grid, images, cell_size, request, data).outcome matches Ok(
            OutcomeView::Done(Some(response)),
        ) ==> {
            &&& request.control.quiet == 0
            &&& exists|id: u32| response == #[trigger] ok_response(id)
        },
        !(file_step(grid, images, cell_size, request, data).outcome matches Ok(
            OutcomeView::ReadFile(_),
        )),
{
}

/// An image from a file is handled as if its data had been in the command: a command that
/// names a file changes nothing but the transmission in progress, and once the file was read,
/// all is as after a command with that data.
pub proof fn lemma_file_is_like_direct_data(
    grid: GridView,
    images: Map<u32, ImageView>,
    cell_size: Option<SizeInPixels>,
    cmd: CommandView,
    path: Seq<u8>,
    payload: Seq<u8>,
    data: Seq<u8>,
    cursor_x: usize,
    cursor_y: usize,
)
    requires
        grid.transmission is None,
        transmits(cmd),
        !cmd.control.more_data,
        cmd.control.transmission == TransmissionMedium::File || cmd.control.transmission
            == TransmissionMedium::TempFile,
        base64_bytes(cmd.payload) == Some(path),
        valid_utf8(path),
        base64_bytes(payload) == Some(data),
    ensures
        ({
            let asked = command_step(grid, images, cell_size, cmd, cursor_x, cursor_y);
            let direct = CommandView {
                control: KittyControlData {
                    transmission: TransmissionMedium::Direct,
                    ..cmd.control
                },
                payload,
            };
            &&& asked.grid == grid
            &&& asked.images == images
            &&& asked.outcome matches Ok(OutcomeView::ReadFile(request)) && {
                &&& request.path == decode_utf8(path)
                &&& request.delete_after_read == (cmd.control.transmission
                    == TransmissionMedium::TempFile)
                &&& file_step(grid, images, cell_size, request, Some(data)) == command_step(
                    grid,
                    images,
                    cell_size,
                    direct,
                    cursor_x,
                    cursor_y,
                )
            }
        }),
{
    let direct = KittyControlData { transmission: TransmissionMedium::Direct, ..cmd.control };
    assert(between_transmissions(grid) =~= grid);
    assert(decoded_image(direct, data) == decoded_image(cmd.control, data));
}

/// A command that is refused because a number is out of range changes nothing, except that
/// it ends the transmission that it is part of.
pub proof fn lemma_refusal_changes_nothing(
    grid: GridView,
    images: Map<u32, ImageView>,
    cell_size: Option<SizeInPixels>,
    cmd: CommandView,
    cursor_x: usize,
    cursor_y: usize,
)
    ensures
        command_step(grid, images, cell_size, cmd, cursor_x, cursor_y).outcome is Err ==> {
            &&& command_step(grid, images, cell_size, cmd, cursor_x, cursor_y).images == images
            &&& command_step(grid, images, cell_size, cmd, cursor_x, cursor_y).grid == (
            if transmits(cmd) {
                between_transmissions(grid)
            } else {
                grid
            })
        },
{
}

/// Images come from transmissions only and go by deletions only: no other command changes
/// them, a transmission changes at most the image of one id, and a deletion adds none.
pub proof fn lemma_who_changes_images(
    grid: GridView,
    images: Map<u32, ImageView>,
    cell_size: Option<SizeInPixels>,
    cmd: CommandView,
    cursor_x: usize,
    cursor_y: usize,
)
    ensures
        ({
            let after = command_step(
                grid,
                images,
                cell_size,
                cmd,
                cursor_x,
                cursor_y,
            ).images;
            &&& !transmits(cmd) && cmd.control.action != KittyAction::Delete ==> after == images
            &&& transmits(cmd) ==> after == images || exists|image: ImageView|
                after == #[trigger] images.insert(image.id, image)
            &&& cmd.control.action == KittyAction::Delete ==> after.submap_of(images)
        }),
{
    let whole = completed(grid, cmd);
    let after = command_step(grid, images, cell_size, cmd, cursor_x, cursor_y).images;
    if transmits(cmd) && after != images {
        let data = base64_bytes(whole.payload).unwrap();
        let image = decoded_image(whole.control, data).unwrap().unwrap();
        let id = image_id_for(images, grid.next_image_id, whole.control.image_id).unwrap();
        let stored = ImageView { id, ..image };
        assert(after == images.insert(stored.id, stored));
    }
}

/// An image that was decoded is stored under the id of the command or the next available one,
/// and, if it is to be shown, there is exactly one placement with its ids: at the cursor. The
/// placements with other ids stay.
pub proof fn lemma_decoded_image_is_kept(
    grid: GridView,
    images: Map<u32, ImageView>,
    cell_size: Option<SizeInPixels>,
    control: KittyControlData,
    display: bool,
    cursor_x: usize,
    cursor_y: usize,
    image: ImageView,
)
    requires
        distinct_ids(grid.placements),
        image_id_for(images, grid.next_image_id, control.image_id) is Some,
        display ==> placed_in_range(
            grid,
            image_id_for(images, grid.next_image_id, control.image_id).unwrap(),
            image.width,
            image.height,
            control,
            cell_size,
        ),
    ensures
        ({
            let id = image_id_for(images, grid.next_image_id, control.image_id).unwrap();
            let placement_id = placement_id_for(grid, id, control.placement_id).unwrap();
            let shown = placement_for(
                id,
                placement_id,
                image.width,
                image.height,
                control,
                cell_size,
                cursor_x,
                cursor_y,
            );
            let after = with_image(
                grid,
                images,
                cell_size,
                control,
                display,
                cursor_x,
                cursor_y,
                Ok(Some(image)),
            );
            &&& after.images.contains_key(id)
            &&& after.images[id] == (ImageView { id, ..image })
            &&& after.outcome == Ok::<OutcomeView, OutOfRange>(
                OutcomeView::Done(reply(control.quiet, id)),
            )
            &&& distinct_ids(after.grid.placements)
            &&& display ==> after.grid.placements.contains(shown)
            &&& display ==> forall|p: KittyPlacement|
                !has_ids(p, id, placement_id) ==> (#[trigger] after.grid.placements.contains(p)
                    == grid.placements.contains(p))
            &&& !display ==> after.grid.placements == grid.placements
        }),
{
    let id = image_id_for(images, grid.next_image_id, control.image_id).unwrap();
    let placement_id = placement_id_for(grid, id, control.placement_id).unwrap();
    lemma_put_replaces(
        grid.placements,
        placement_for(
            id,
            placement_id,
            image.width,
            image.height,
            control,
            cell_size,
            cursor_x,
            cursor_y,
        ),
    );
}

/// Whether images were kept by the storing of one without an explicit id: every image is as
/// it was, and there is at most one more, under the first id from `next` on that was free. The
/// next id is looked for behind it.
pub open spec fn adds_at_most_one(
    images: Map<u32, ImageView>,
    next: u32,
    after: Map<u32, ImageView>,
    next_after: u32,
) -> bool {
    &&& images.submap_of(after)
    &&& images.dom().finite() ==> after.dom().finite()
    &&& (after == images && next_after == next) || exists|id: u32|
        {
            &&& #[trigger] is_free_id(images, next, id)
            &&& after.dom() == images.dom().insert(id)
            &&& next_after == id + 1
            &&& images.dom().finite() ==> after.len() == images.len() + 1
        }
}

proof fn lemma_insert_adds_one(
    images: Map<u32, ImageView>,
    next: u32,
    id: u32,
    image: ImageView,
)
    requires
        is_free_id(images, next, id),
        id < u32::MAX,
    ensures
        adds_at_most_one(images, next, images.insert(id, image), (id + 1) as u32),
{
    let after = images.insert(id, image);
    assert(after.dom() =~= images.dom().insert(id));
}

/// An image that is stored without an explicit id leaves every earlier image as it was, also
/// those of other grids that share the store: it gets the next available id.
pub proof fn lemma_image_without_id_replaces_none(
    grid: GridView,
    images: Map<u32, ImageView>,
    cell_size: Option<SizeInPixels>,
    cmd: CommandView,
    cursor_x: usize,
    cursor_y: usize,
)
    requires
        transmits(cmd),
        completed(grid, cmd).control.image_id is None,
    ensures
        ({
            let after = command_step(grid, images, cell_size, cmd, cursor_x, cursor_y);
            adds_at_most_one(images, grid.next_image_id, after.images, after.grid.next_image_id)
        }),
{
    let whole = completed(grid, cmd);
    let after = command_step(grid, images, cell_size, cmd, cursor_x, cursor_y);
    let free = free_id(images, grid.next_image_id);
    if let Some(data) = base64_bytes(whole.payload) {
        if let Ok(Some(image)) = decoded_image(whole.control, data) {
            if let Some(id) = free {
                lemma_insert_adds_one(images, grid.next_image_id, id, ImageView { id, ..image });
            }
        }
    }
}

/// The same holds of an image from a file.
pub proof fn lemma_file_without_id_replaces_none(
    grid: GridView,
    images: Map<u32, ImageView>,
    cell_size: Option<SizeInPixels>,
    request: RequestView,
    data: Option<Seq<u8>>,
)
    requires
        request.control.image_id is None,
    ensures
        ({
            let after = file_step(grid, images, cell_size, request, data);
            adds_at_most_one(images, grid.next_image_id, after.images, after.grid.next_image_id)
        }),
{
    let free = free_id(images, grid.next_image_id);
    if let Some(data) = data {
        if let Ok(Some(image)) = decoded_image(request.control, data) {
            if let Some(id) = free {
                lemma_insert_adds_one(images, grid.next_image_id, id, ImageView { id, ..image });
            }
        }
    }
}

/// A placement without an explicit id replaces none: it is added to those that are there, under
/// the first placement id from the count on that its image has no placement of.
pub proof fn lemma_placement_without_id_replaces_none(
    grid: GridView,
    image_id: u32,
    image_width: usize,
    image_height: usize,
    control: KittyControlData,
    cell_size: Option<SizeInPixels>,
    cursor_x: usize,
    cursor_y: usize,
)
    requires
        control.placement_id is None,
        placed_in_range(grid, image_id, image_width, image_height, control, cell_size),
    ensures
        ({
            let after = placed(
                grid,
                image_id,
                image_width,
                image_height,
                control,
                cell_size,
                cursor_x,
                cursor_y,
            );
            let shown = after.placements.last();
            &&& after.placements == grid.placements.push(shown)
            &&& shown.image_id == image_id
            &&& is_free_placement_id(
                grid.placements,
                image_id,
                grid.next_placement_id,
                shown.placement_id,
            )
            &&& after.next_placement_id == shown.placement_id + 1
        }),
{
    lemma_without_absent(
        grid.placements,
        image_id,
        placement_id_for(grid, image_id, None).unwrap(),
    );
}

/// Ids that one grid gives out count up: after one was given out, the next is larger, whatever
/// images and placements there are by then.
pub proof fn lemma_given_ids_count_up(
    images: Map<u32, ImageView>,
    list: Seq<KittyPlacement>,
    image_id: u32,
    next: u32,
    id: u32,
)
    requires
        id < u32::MAX,
    ensures
        free_id(images, counted_on(next, None, id)) matches Some(later) ==> later > id,
        free_placement_id(list, image_id, counted_on(next, None, id)) matches Some(later)
            ==> later > id,
{
}

/// The last chunk of a transmission decides whether the image is shown, and nothing else does:
/// where the data is, what it is, its id and whether there is an answer are up to the first.
pub proof fn lemma_first_and_last_chunk_decide(
    grid: GridView,
    images: Map<u32, ImageView>,
    cell_size: Option<SizeInPixels>,
    last: CommandView,
    cursor_x: usize,
    cursor_y: usize,
    first: CommandView,
)
    requires
        grid.transmission == Some(first),
        transmits(last),
        !last.control.more_data,
    ensures
        command_step(grid, images, cell_size, last, cursor_x, cursor_y) == with_source(
            between_transmissions(grid),
            images,
            cell_size,
            first.control,
            last.control.action == KittyAction::TransmitPut,
            cursor_x,
            cursor_y,
            source_of(first.control.transmission, base64_bytes(first.payload + last.payload)),
        ),
{
}

/// The kinds of deletion that concern images too.
pub open spec fn deletes_images(delete_type: char) -> bool {
    delete_type == 'a' || delete_type == 'A' || delete_type == 'i' || delete_type == 'I'
}

/// A deletion is never answered, leaves the ids and the transmission in progress alone, and
/// leaves the images alone unless it is one of all or by image.
pub proof fn lemma_delete_leaves_the_rest(
    grid: GridView,
    images: Map<u32, ImageView>,
    cell_size: Option<SizeInPixels>,
    control: KittyControlData,
)
    requires
        delete_step_in_range(grid, cell_size, control),
    ensures
        ({
            let after = delete_step(grid, images, cell_size, control);
            &&& after.outcome == Ok::<OutcomeView, OutOfRange>(OutcomeView::Done(None))
            &&& after.grid == (GridView {
                placements: remaining(grid.placements, control, cell_size),
                ..grid
            })
            &&& after.images == images_after_delete(
                images,
                delete_type_of(control),
                control.image_id,
            )
            &&& !deletes_images(delete_type_of(control)) ==> after.images == images
        }),
{
}

/// The kinds of deletion, in lower and upper case.
pub open spec fn delete_letters() -> Seq<(char, char)> {
    seq![('a', 'A'), ('i', 'I'), ('p', 'P'), ('c', 'C'), ('x', 'X'), ('y', 'Y'), ('z', 'Z')]
}

/// A deletion does the same in lower and in upper case.
pub proof fn lemma_delete_ignores_case(
    grid: GridView,
    images: Map<u32, ImageView>,
    cell_size: Option<SizeInPixels>,
    control: KittyControlData,
    i: int,
)
    requires
        0 <= i < delete_letters().len(),
    ensures
        delete_step(
            grid,
            images,
            cell_size,
            KittyControlData { delete_type: Some(delete_letters()[i].0), ..control },
        ) == delete_step(
            grid,
            images,
            cell_size,
            KittyControlData { delete_type: Some(delete_letters()[i].1), ..control },
        ),
{
    let lower = KittyControlData { delete_type: Some(delete_letters()[i].0), ..control };
    let upper = KittyControlData { delete_type: Some(delete_letters()[i].1), ..control };
    let keep_lower = |p: KittyPlacement| !removes(lower, cell_size, p);
    let keep_upper = |p: KittyPlacement| !removes(upper, cell_size, p);
    assert(keep_lower =~= keep_upper);
    assert(delete_step_in_range(grid, cell_size, lower)
        == delete_step_in_range(grid, cell_size, upper));
}

/// What a deletion leaves of the placements: those that it does not concern, all of them.
pub proof fn lemma_delete_is_exact(
    list: Seq<KittyPlacement>,
    control: KittyControlData,
    cell_size: Option<SizeInPixels>,
    p: KittyPlacement,
)
    ensures
        remaining(list, control, cell_size).contains(p) <==> list.contains(p) && !removes(
            control,
            cell_size,
            p,
        ),
{
    lemma_filter_contains(list, |p: KittyPlacement| !removes(control, cell_size, p), p);
}

/// A delete command that does not say what it deletes deletes everything: all placements and
/// all images.
pub proof fn lemma_delete_everything_by_default(
    grid: GridView,
    images: Map<u32, ImageView>,
    cell_size: Option<SizeInPixels>,
    control: KittyControlData,
)
    requires
        control.delete_type is None,
    ensures
        delete_step(grid, images, cell_size, control) == (StepView {
            grid: GridView { placements: Seq::empty(), ..grid },
            images: Map::empty(),
            outcome: Ok(OutcomeView::Done(None)),
        }),
{
    let left = remaining(grid.placements, control, cell_size);
    if left.len() > 0 {
        lemma_delete_is_exact(grid.placements, control, cell_size, left[0]);
        assert(left.contains(left[0]));
    }
    assert(left =~= Seq::empty());
}

/// Deleting an image by its id leaves no placement of it, and keeps the placements and
/// images of other ids.
pub proof fn lemma_deleted_image_is_gone(
    grid: GridView,
    images: Map<u32, ImageView>,
    cell_size: Option<SizeInPixels>,
    control: KittyControlData,
    id: u32,
    p: KittyPlacement,
)
    requires
        control.delete_type == Some('i'),
        control.image_id == Some(id),
    ensures
        ({
            let after = delete_step(grid, images, cell_size, control);
            &&& after.grid.placements.contains(p) <==> grid.placements.contains(p) && p.image_id
                != id
            &&& after.images == images.remove(id)
        }),
{
    lemma_delete_is_exact(grid.placements, control, cell_size, p);
}

/// After scrolling, no placement is left that ends above the first line, and every other one
/// is where it was, a line higher.
pub proof fn lemma_scrolling_is_exact(
    list: Seq<KittyPlacement>,
    cell_size: SizeInPixels,
    p: KittyPlacement,
)
    ensures
        scrolled(list, cell_size).contains(p) <==> !gone(p) && exists|q: KittyPlacement|
            list.contains(q) && p == #[trigger] moved_up(q, cell_size.height as isize),
{
    let up = |q: KittyPlacement| moved_up(q, cell_size.height as isize);
    let moved = list.map_values(up);
    lemma_filter_contains(moved, |p: KittyPlacement| !gone(p), p);
    if moved.contains(p) {
        let i = choose|i: int| 0 <= i < moved.len() && moved[i] == p;
        assert(list.contains(list[i]));
        assert(p == moved_up(list[i], cell_size.height as isize));
    }
    if exists|q: KittyPlacement|
        list.contains(q) && p == #[trigger] moved_up(q, cell_size.height as isize) {
        let q = choose|q: KittyPlacement|
            list.contains(q) && p == #[trigger] moved_up(q, cell_size.height as isize);
        let i = choose|i: int| 0 <= i < list.len() && list[i] == q;
        assert(moved[i] == p);
    }
}

/// A placement is drawn at most once, however many changed regions it touches, and nothing is
/// drawn where nothing changed.
pub proof fn lemma_each_placement_is_drawn_once(
    list: Seq<KittyPlacement>,
    changes: Map<usize, usize>,
    scrollback: usize,
    cell_size: SizeInPixels,
    x_offset: usize,
    y_offset: usize,
)
    requires
        distinct_ids(list),
    ensures
        ({
            let chunks = changed_chunks(
                list,
                changes,
                scrollback,
                cell_size,
                x_offset,
                y_offset,
            );
            &&& forall|i: int, j: int|
                0 <= i < j < chunks.len() ==> !((#[trigger] chunks[i]).kitty_image_id == (
                #[trigger] chunks[j]).kitty_image_id && chunks[i].kitty_placement_id
                    == chunks[j].kitty_placement_id)
            &&& changes == Map::<usize, usize>::empty() ==> chunks.len() == 0
        }),
{
    let touched = |p: KittyPlacement| touches_changes(p, changes, scrollback, cell_size);
    let kept = list.filter(touched);
    let chunks = changed_chunks(list, changes, scrollback, cell_size, x_offset, y_offset);
    lemma_filter_keeps_distinct(list, touched);
    assert forall|i: int, j: int| 0 <= i < j < chunks.len() implies !((
    #[trigger] chunks[i]).kitty_image_id == (#[trigger] chunks[j]).kitty_image_id
        && chunks[i].kitty_placement_id == chunks[j].kitty_placement_id) by {
        assert(!has_ids(kept[j], kept[i].image_id, kept[i].placement_id));
    }
    if changes == Map::<usize, usize>::empty() && chunks.len() > 0 {
        assert(touched(kept[0]));
    }
}

} // verus!
