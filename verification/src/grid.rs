//! Runs commands: keeps the placements of a screen and the transmission in progress.

use crate::codec::base64_bytes;
use crate::decode::{
    decode_image, decode_view, decoded_image, image_source, source_of, ImageSource, OutOfRange,
    SourceView,
};
use crate::placement::{
    compute_extent, delete_fits, delete_in_range, delete_type_of, is_usize, placed_height,
    placed_width, removes_in_range,
};
use crate::placements::{
    cell_list, changed_chunks, changed_chunks_fit, changed_chunks_in_range, compute_cell_list,
    distinct_ids, free_placement_id, image_ids, lemma_put_replaces, lemma_remaining_distinct,
    lemma_rescaled_distinct, lemma_scrolled_distinct, make_changed_chunks,
    next_free_placement_id, remaining, remove_ids, remove_matching, rescale_list,
    rescale_list_fits, rescaled_list, scroll, scroll_fits, scrolled, without,
};
use crate::reply::{make_reply, reply};
use crate::store::{covers, free_id, images_after_delete, KittyImageStore};
use crate::types::{
    opt_bytes_view, CommandView, ImageView, KittyAction, KittyCommand, KittyControlData,
    KittyImage, KittyImageChunk, KittyPlacement, SizeInPixels,
};
use crate::viewport::{cells_in_range, move_in_range, rescale_in_range};
use std::collections::HashMap;
use vstd::prelude::*;

verus! {

/// Main grid for managing kitty graphics
#[derive(Debug, Clone)]
pub struct KittyGrid {
    /// Image placement locations
    placements: Vec<KittyPlacement>,
    /// Current chunked transmission in progress
    current_transmission: Option<KittyCommand>,
    /// Next available image ID (for auto-assignment)
    next_image_id: u32,
    /// Next available placement ID
    next_placement_id: u32,
    /// Previous cell size for detecting changes
    previous_cell_size: Option<SizeInPixels>,
}

/// What a [`KittyGrid`] keeps.
#[verifier::ext_equal]
pub struct GridView {
    /// The placements, the latest last.
    pub placements: Seq<KittyPlacement>,
    /// The control data of the first chunk and the payload so far.
    pub transmission: Option<CommandView>,
    pub next_image_id: u32,
    pub next_placement_id: u32,
    pub previous_cell_size: Option<SizeInPixels>,
}

impl View for KittyGrid {
    type V = GridView;

    closed spec fn view(&self) -> GridView {
        GridView {
            placements: self.placements@,
            transmission: match self.current_transmission {
                Some(transmission) => Some(transmission@),
                None => None,
            },
            next_image_id: self.next_image_id,
            next_placement_id: self.next_placement_id,
            previous_cell_size: self.previous_cell_size,
        }
    }
}

/// An image whose data is in a file: once the file was read, [`KittyGrid::handle_file_data`]
/// takes the request and the data.
#[derive(Debug, Clone)]
pub struct FileRequest {
    pub path: String,
    /// Whether the file is to be deleted after it was read.
    pub delete_after_read: bool,
    pub control: KittyControlData,
    /// Whether the image is to be shown.
    pub display: bool,
    pub cursor_x_pixels: usize,
    pub cursor_y_pixels: usize,
}

/// What a [`FileRequest`] says.
#[verifier::ext_equal]
pub struct RequestView {
    pub path: Seq<char>,
    pub delete_after_read: bool,
    pub control: KittyControlData,
    pub display: bool,
    pub cursor_x_pixels: usize,
    pub cursor_y_pixels: usize,
}

impl View for FileRequest {
    type V = RequestView;

    open spec fn view(&self) -> RequestView {
        RequestView {
            path: self.path@,
            delete_after_read: self.delete_after_read,
            control: self.control,
            display: self.display,
            cursor_x_pixels: self.cursor_x_pixels,
            cursor_y_pixels: self.cursor_y_pixels,
        }
    }
}

/// What a command led to
#[derive(Debug, Clone)]
pub enum CommandOutcome {
    /// It is done; the response, if there is one, goes to the program.
    Done(Option<Vec<u8>>),
    /// It needs the content of a file.
    ReadFile(FileRequest),
}

/// What a [`CommandOutcome`] says.
#[verifier::ext_equal]
pub enum OutcomeView {
    Done(Option<Seq<u8>>),
    ReadFile(RequestView),
}

impl View for CommandOutcome {
    type V = OutcomeView;

    open spec fn view(&self) -> OutcomeView {
        match *self {
            CommandOutcome::Done(response) => OutcomeView::Done(opt_bytes_view(response)),
            CommandOutcome::ReadFile(request) => OutcomeView::ReadFile(request@),
        }
    }
}

/// What the handling of a command leaves: the grid, the images and what it led to.
#[verifier::ext_equal]
pub struct StepView {
    pub grid: GridView,
    pub images: Map<u32, ImageView>,
    pub outcome: Result<OutcomeView, OutOfRange>,
}

/// What a handled command led to.
pub open spec fn outcome_view(outcome: Result<CommandOutcome, OutOfRange>) -> Result<
    OutcomeView,
    OutOfRange,
> {
    match outcome {
        Ok(outcome) => Ok(outcome@),
        Err(e) => Err(e),
    }
}

/// What a handled file led to.
pub open spec fn response_view(response: Result<Option<Vec<u8>>, OutOfRange>) -> Result<
    OutcomeView,
    OutOfRange,
> {
    match response {
        Ok(response) => Ok(OutcomeView::Done(opt_bytes_view(response))),
        Err(e) => Err(e),
    }
}

/// Nothing changes and nothing is answered.
pub open spec fn ignored(grid: GridView, images: Map<u32, ImageView>) -> StepView {
    StepView { grid, images, outcome: Ok(OutcomeView::Done(None)) }
}

/// Nothing changes, for a number is out of range.
pub open spec fn refused(grid: GridView, images: Map<u32, ImageView>) -> StepView {
    StepView { grid, images, outcome: Err(OutOfRange) }
}

// ---------------------------------------------------------------------------------------
// Placing an image

/// The id that a command gives, or else another one.
pub open spec fn id_or(id: Option<u32>, other: u32) -> u32 {
    match id {
        Some(id) => id,
        None => other,
    }
}

/// The id that an image is stored under: the one that the command gives or, where it gives
/// none, the next available one, which no image has.
pub open spec fn image_id_for(
    images: Map<u32, ImageView>,
    next: u32,
    given: Option<u32>,
) -> Option<u32> {
    match given {
        Some(id) => Some(id),
        None => free_id(images, next),
    }
}

/// The id that a placement of an image gets: the one that the command gives or, where it gives
/// none, the next available one, which no placement of the image has.
pub open spec fn placement_id_for(
    grid: GridView,
    image_id: u32,
    given: Option<u32>,
) -> Option<u32> {
    match given {
        Some(id) => Some(id),
        None => free_placement_id(grid.placements, image_id, grid.next_placement_id),
    }
}

/// Where the next available id is looked for, after `id` was given out: behind it, unless the
/// command gave it.
pub open spec fn counted_on(next: u32, given: Option<u32>, id: u32) -> u32 {
    match given {
        Some(_) => next,
        None => (id + 1) as u32,
    }
}

/// A placement at the cursor, of the size that the command says.
pub open spec fn placement_for(
    image_id: u32,
    placement_id: u32,
    image_width: usize,
    image_height: usize,
    control: KittyControlData,
    cell_size: Option<SizeInPixels>,
    cursor_x: usize,
    cursor_y: usize,
) -> KittyPlacement {
    KittyPlacement {
        image_id,
        placement_id,
        pixel_x: cursor_x,
        pixel_y: cursor_y as isize,
        display_width: placed_width(control, cell_size, image_width) as usize,
        display_height: placed_height(control, cell_size, image_height) as usize,
        z_index: match control.z_index {
            Some(z_index) => z_index,
            None => 0,
        },
    }
}

/// The grid after an image was placed: in place of the placement with its ids, if there was
/// one.
pub open spec fn placed(
    grid: GridView,
    image_id: u32,
    image_width: usize,
    image_height: usize,
    control: KittyControlData,
    cell_size: Option<SizeInPixels>,
    cursor_x: usize,
    cursor_y: usize,
) -> GridView {
    let placement_id = placement_id_for(grid, image_id, control.placement_id).unwrap();
    GridView {
        placements: without(grid.placements, image_id, placement_id).push(
            placement_for(
                image_id,
                placement_id,
                image_width,
                image_height,
                control,
                cell_size,
                cursor_x,
                cursor_y,
            ),
        ),
        next_placement_id: counted_on(
            grid.next_placement_id,
            control.placement_id,
            placement_id,
        ),
        ..grid
    }
}

/// Whether [`placed`] can be computed.
pub open spec fn placed_in_range(
    grid: GridView,
    image_id: u32,
    image_width: usize,
    image_height: usize,
    control: KittyControlData,
    cell_size: Option<SizeInPixels>,
) -> bool {
    &&& placement_id_for(grid, image_id, control.placement_id) is Some
    &&& is_usize(placed_width(control, cell_size, image_width))
    &&& is_usize(placed_height(control, cell_size, image_height))
}

// ---------------------------------------------------------------------------------------
// Commands

/// Whether a command transmits an image or a chunk of one.
pub open spec fn transmits(cmd: CommandView) -> bool {
    cmd.control.action == KittyAction::Transmit || cmd.control.action == KittyAction::TransmitPut
}

/// The command that a last chunk completes: the control data of the first chunk and the
/// payloads of all. A command outside a chunked transmission is complete in itself.
pub open spec fn completed(grid: GridView, cmd: CommandView) -> CommandView {
    match grid.transmission {
        Some(first) => CommandView {
            control: first.control,
            payload: first.payload + cmd.payload,
        },
        None => cmd,
    }
}

/// The grid without a transmission in progress.
pub open spec fn between_transmissions(grid: GridView) -> GridView {
    GridView { transmission: None, ..grid }
}

/// What becomes of a decoded image: it is stored under its id, placed if it is to be shown,
/// and answered for. An image that could not be decoded is dropped.
pub open spec fn with_image(
    grid: GridView,
    images: Map<u32, ImageView>,
    cell_size: Option<SizeInPixels>,
    control: KittyControlData,
    display: bool,
    cursor_x: usize,
    cursor_y: usize,
    image: Result<Option<ImageView>, OutOfRange>,
) -> StepView {
    match image {
        Err(_) => refused(grid, images),
        Ok(None) => ignored(grid, images),
        Ok(Some(image)) => match image_id_for(images, grid.next_image_id, control.image_id) {
            None => refused(grid, images),
            Some(id) => if display && !placed_in_range(
                grid,
                id,
                image.width,
                image.height,
                control,
                cell_size,
            ) {
                refused(grid, images)
            } else {
                let counted = GridView {
                    next_image_id: counted_on(grid.next_image_id, control.image_id, id),
                    ..grid
                };
                StepView {
                    grid: if display {
                        placed(
                            counted,
                            id,
                            image.width,
                            image.height,
                            control,
                            cell_size,
                            cursor_x,
                            cursor_y,
                        )
                    } else {
                        counted
                    },
                    images: images.insert(id, ImageView { id, ..image }),
                    outcome: Ok(OutcomeView::Done(reply(control.quiet, id))),
                }
            },
        },
    }
}

/// What becomes of a complete transmission, given where its data is.
pub open spec fn with_source(
    grid: GridView,
    images: Map<u32, ImageView>,
    cell_size: Option<SizeInPixels>,
    control: KittyControlData,
    display: bool,
    cursor_x: usize,
    cursor_y: usize,
    source: SourceView,
) -> StepView {
    match source {
        SourceView::Unavailable => ignored(grid, images),
        SourceView::File { path, delete_after_read } => StepView {
            grid,
            images,
            outcome: Ok(
                OutcomeView::ReadFile(
                    RequestView {
                        path,
                        delete_after_read,
                        control,
                        display,
                        cursor_x_pixels: cursor_x,
                        cursor_y_pixels: cursor_y,
                    },
                ),
            ),
        },
        SourceView::Data(data) => with_image(
            grid,
            images,
            cell_size,
            control,
            display,
            cursor_x,
            cursor_y,
            decoded_image(control, data),
        ),
    }
}

/// A chunk, or a transmission in one piece.
pub open spec fn transmit_step(
    grid: GridView,
    images: Map<u32, ImageView>,
    cell_size: Option<SizeInPixels>,
    cmd: CommandView,
    display: bool,
    cursor_x: usize,
    cursor_y: usize,
) -> StepView {
    let whole = completed(grid, cmd);
    if cmd.control.more_data {
        ignored(GridView { transmission: Some(whole), ..grid }, images)
    } else {
        with_source(
            between_transmissions(grid),
            images,
            cell_size,
            whole.control,
            display,
            cursor_x,
            cursor_y,
            source_of(whole.control.transmission, base64_bytes(whole.payload)),
        )
    }
}

/// An image that was stored is placed.
pub open spec fn put_step(
    grid: GridView,
    images: Map<u32, ImageView>,
    cell_size: Option<SizeInPixels>,
    control: KittyControlData,
    cursor_x: usize,
    cursor_y: usize,
) -> StepView {
    match control.image_id {
        None => ignored(grid, images),
        Some(id) => if !images.contains_key(id) {
            ignored(grid, images)
        } else if !placed_in_range(
            grid,
            id,
            images[id].width,
            images[id].height,
            control,
            cell_size,
        ) {
            refused(grid, images)
        } else {
            StepView {
                grid: placed(
                    grid,
                    id,
                    images[id].width,
                    images[id].height,
                    control,
                    cell_size,
                    cursor_x,
                    cursor_y,
                ),
                images,
                outcome: Ok(OutcomeView::Done(reply(control.quiet, id))),
            }
        },
    }
}

/// Whether it can be computed which placements a delete command removes.
pub open spec fn delete_step_in_range(
    grid: GridView,
    cell_size: Option<SizeInPixels>,
    control: KittyControlData,
) -> bool {
    &&& delete_in_range(control, cell_size)
    &&& forall|i: int|
        0 <= i < grid.placements.len() ==> removes_in_range(
            control,
            cell_size,
            #[trigger] grid.placements[i],
        )
}

/// Placements are deleted, and images if the command concerns them. There is no answer.
pub open spec fn delete_step(
    grid: GridView,
    images: Map<u32, ImageView>,
    cell_size: Option<SizeInPixels>,
    control: KittyControlData,
) -> StepView {
    if delete_step_in_range(grid, cell_size, control) {
        StepView {
            grid: GridView {
                placements: remaining(grid.placements, control, cell_size),
                ..grid
            },
            images: images_after_delete(images, delete_type_of(control), control.image_id),
            outcome: Ok(OutcomeView::Done(None)),
        }
    } else {
        refused(grid, images)
    }
}

/// What a command does.
pub open spec fn command_step(
    grid: GridView,
    images: Map<u32, ImageView>,
    cell_size: Option<SizeInPixels>,
    cmd: CommandView,
    cursor_x: usize,
    cursor_y: usize,
) -> StepView {
    match cmd.control.action {
        KittyAction::Query => StepView {
            grid,
            images,
            outcome: Ok(
                OutcomeView::Done(reply(cmd.control.quiet, id_or(cmd.control.image_id, 0))),
            ),
        },
        KittyAction::Transmit => transmit_step(
            grid,
            images,
            cell_size,
            cmd,
            false,
            cursor_x,
            cursor_y,
        ),
        KittyAction::TransmitPut => transmit_step(
            grid,
            images,
            cell_size,
            cmd,
            true,
            cursor_x,
            cursor_y,
        ),
        KittyAction::Put => put_step(grid, images, cell_size, cmd.control, cursor_x, cursor_y),
        KittyAction::Delete => delete_step(grid, images, cell_size, cmd.control),
        // Animation features not yet implemented
        KittyAction::Frame | KittyAction::Animation | KittyAction::Compose => ignored(
            grid,
            images,
        ),
    }
}

/// What a file that was read, or could not be, does.
pub open spec fn file_step(
    grid: GridView,
    images: Map<u32, ImageView>,
    cell_size: Option<SizeInPixels>,
    request: RequestView,
    data: Option<Seq<u8>>,
) -> StepView {
    with_image(
        grid,
        images,
        cell_size,
        request.control,
        request.display,
        request.cursor_x_pixels,
        request.cursor_y_pixels,
        match data {
            Some(data) => decoded_image(request.control, data),
            None => Ok(None),
        },
    )
}

/// A grid after the screen has scrolled by a line. In cells of unknown size nothing moves.
pub open spec fn scrolled_grid(grid: GridView, cell_size: Option<SizeInPixels>) -> GridView {
    match cell_size {
        Some(size) => GridView { placements: scrolled(grid.placements, size), ..grid },
        None => grid,
    }
}

/// A grid in cells of another size. Nothing moves unless both sizes are known and differ.
pub open spec fn resized_grid(grid: GridView, cell_size: Option<SizeInPixels>) -> GridView {
    GridView {
        placements: match (grid.previous_cell_size, cell_size) {
            (Some(old_size), Some(new_size)) => if old_size != new_size {
                rescaled_list(grid.placements, old_size, new_size)
            } else {
                grid.placements
            },
            _ => grid.placements,
        },
        previous_cell_size: cell_size,
        ..grid
    }
}

/// A grid after its placements were cleared.
pub open spec fn cleared_grid(grid: GridView) -> GridView {
    GridView { placements: Seq::empty(), ..grid }
}

/// The image id of each placement.
pub open spec fn placed_image_ids(grid: GridView) -> Seq<u32> {
    grid.placements.map_values(|p: KittyPlacement| p.image_id)
}

/// What is drawn of the placements that touch changed lines: nothing in cells of unknown size.
pub open spec fn drawn_chunks(
    grid: GridView,
    cell_size: Option<SizeInPixels>,
    changes: Map<usize, usize>,
    scrollback: usize,
    x_offset: usize,
    y_offset: usize,
) -> Seq<KittyImageChunk> {
    match cell_size {
        Some(size) => changed_chunks(
            grid.placements,
            changes,
            scrollback,
            size,
            x_offset,
            y_offset,
        ),
        None => Seq::empty(),
    }
}

/// The cells of the viewport that each placement is on: none in cells of unknown size.
pub open spec fn viewport_cells(
    grid: GridView,
    cell_size: Option<SizeInPixels>,
    viewport_height: usize,
    scrollback: usize,
) -> Seq<(usize, usize, usize, usize)> {
    match cell_size {
        Some(size) => cell_list(grid.placements, viewport_height, scrollback, size),
        None => Seq::empty(),
    }
}

/// Whether there is data for every pixel of every image.
pub open spec fn all_cover(images: Map<u32, ImageView>) -> bool {
    forall|id: u32| #[trigger] images.contains_key(id) ==> covers(images[id])
}

/// A grid without placements, whose ids begin at `first_id`.
pub open spec fn empty_grid(first_id: u32, cell_size: Option<SizeInPixels>) -> GridView {
    GridView {
        placements: Seq::empty(),
        transmission: None,
        next_image_id: first_id,
        next_placement_id: first_id,
        previous_cell_size: cell_size,
    }
}

impl Default for KittyGrid {
    fn default() -> (grid: Self)
        ensures
            grid.wf(),
            grid@ == empty_grid(0, None),
    {
        KittyGrid {
            placements: Vec::new(),
            current_transmission: None,
            next_image_id: 0,
            next_placement_id: 0,
            previous_cell_size: None,
        }
    }
}

impl KittyGrid {
    /// No two placements have the same image id and placement id.
    pub open spec fn wf(&self) -> bool {
        distinct_ids(self@.placements)
    }

    pub fn new(character_cell_size: Option<SizeInPixels>) -> (grid: Self)
        ensures
            grid.wf(),
            grid@ == empty_grid(1, character_cell_size),
    {
        KittyGrid {
            placements: Vec::new(),
            current_transmission: None,
            next_image_id: 1,
            next_placement_id: 1,
            previous_cell_size: character_cell_size,
        }
    }

    /// Handle a parsed kitty graphics command, returns response if needed
    ///
    /// A command whose numbers are out of range is refused: it ends the transmission in
    /// progress, if it is part of one, and changes nothing else.
    pub fn handle_command(
        &mut self,
        store: &mut KittyImageStore,
        character_cell_size: Option<SizeInPixels>,
        cmd: KittyCommand,
        cursor_x_pixels: usize,
        cursor_y_pixels: usize,
    ) -> (outcome: Result<CommandOutcome, OutOfRange>)
        requires
            old(self).wf(),
            old(store).wf(),
        ensures
            final(self).wf(),
            final(store).wf(),
            ({
                let step = command_step(
                    old(self)@,
                    old(store)@,
                    character_cell_size,
                    cmd@,
                    cursor_x_pixels,
                    cursor_y_pixels,
                );
                &&& final(self)@ == step.grid
                &&& final(store)@ == step.images
                &&& outcome_view(outcome) == step.outcome
            }),
            all_cover(old(store)@) ==> all_cover(final(store)@),
    {
        match cmd.control.action {
            KittyAction::Query => Ok(CommandOutcome::Done(self.handle_query(&cmd))),
            KittyAction::Transmit => self.handle_transmit(
                store,
                character_cell_size,
                cmd,
                false,
                cursor_x_pixels,
                cursor_y_pixels,
            ),
            KittyAction::TransmitPut => self.handle_transmit(
                store,
                character_cell_size,
                cmd,
                true,
                cursor_x_pixels,
                cursor_y_pixels,
            ),
            KittyAction::Put => self.handle_put(
                store,
                character_cell_size,
                &cmd,
                cursor_x_pixels,
                cursor_y_pixels,
            ),
            KittyAction::Delete => self.handle_delete(store, character_cell_size, &cmd),
            KittyAction::Frame | KittyAction::Animation | KittyAction::Compose => Ok(
                CommandOutcome::Done(None),
            ),
        }
    }

    /// Responds that kitty graphics are supported.
    fn handle_query(&self, cmd: &KittyCommand) -> (response: Option<Vec<u8>>)
        ensures
            opt_bytes_view(response) == reply(cmd.control.quiet, id_or(cmd.control.image_id, 0)),
    {
        let id: u32 = match cmd.control.image_id {
            Some(id) => id,
            None => 0,
        };
        make_reply(cmd.control.quiet, id)
    }

    fn handle_transmit(
        &mut self,
        store: &mut KittyImageStore,
        character_cell_size: Option<SizeInPixels>,
        cmd: KittyCommand,
        display: bool,
        cursor_x_pixels: usize,
        cursor_y_pixels: usize,
    ) -> (outcome: Result<CommandOutcome, OutOfRange>)
        requires
            old(self).wf(),
            old(store).wf(),
        ensures
            final(self).wf(),
            final(store).wf(),
            ({
                let step = transmit_step(
                    old(self)@,
                    old(store)@,
                    character_cell_size,
                    cmd@,
                    display,
                    cursor_x_pixels,
                    cursor_y_pixels,
                );
                &&& final(self)@ == step.grid
                &&& final(store)@ == step.images
                &&& outcome_view(outcome) == step.outcome
            }),
            all_cover(old(store)@) ==> all_cover(final(store)@),
    {
        if cmd.control.more_data {
            self.accumulate_chunk(cmd);
            Ok(CommandOutcome::Done(None))
        } else {
            let whole = self.finalize_transmission(cmd);
            self.process_complete_transmission(
                store,
                character_cell_size,
                whole,
                display,
                cursor_x_pixels,
                cursor_y_pixels,
            )
        }
    }

    /// Starts a chunked transmission, or appends to the one in progress.
    fn accumulate_chunk(&mut self, cmd: KittyCommand)
        ensures
            final(self)@ == (GridView {
                transmission: Some(completed(old(self)@, cmd@)),
                ..old(self)@
            }),
    {
        let whole = self.finalize_transmission(cmd);
        self.current_transmission = Some(whole);
    }

    /// Ends the transmission in progress with a last chunk.
    fn finalize_transmission(&mut self, cmd: KittyCommand) -> (whole: KittyCommand)
        ensures
            final(self)@ == between_transmissions(old(self)@),
            whole@ == completed(old(self)@, cmd@),
    {
        match self.current_transmission.take() {
            Some(mut transmission) => {
                let ghost before = transmission.payload@;
                transmission.payload.extend_from_slice(cmd.payload.as_slice());
                assert(transmission.payload@ =~= before + cmd.payload@);
                transmission
            },
            None => cmd,
        }
    }

    fn process_complete_transmission(
        &mut self,
        store: &mut KittyImageStore,
        character_cell_size: Option<SizeInPixels>,
        cmd: KittyCommand,
        display: bool,
        cursor_x_pixels: usize,
        cursor_y_pixels: usize,
    ) -> (outcome: Result<CommandOutcome, OutOfRange>)
        requires
            old(self).wf(),
            old(store).wf(),
        ensures
            final(self).wf(),
            final(store).wf(),
            ({
                let step = with_source(
                    old(self)@,
                    old(store)@,
                    character_cell_size,
                    cmd.control,
                    display,
                    cursor_x_pixels,
                    cursor_y_pixels,
                    source_of(cmd.control.transmission, base64_bytes(cmd.payload@)),
                );
                &&& final(self)@ == step.grid
                &&& final(store)@ == step.images
                &&& outcome_view(outcome) == step.outcome
            }),
            all_cover(old(store)@) ==> all_cover(final(store)@),
    {
        match image_source(&cmd) {
            ImageSource::Unavailable => Ok(CommandOutcome::Done(None)),
            ImageSource::File { path, delete_after_read } => Ok(
                CommandOutcome::ReadFile(
                    FileRequest {
                        path,
                        delete_after_read,
                        control: cmd.control,
                        display,
                        cursor_x_pixels,
                        cursor_y_pixels,
                    },
                ),
            ),
            ImageSource::Data(data) => {
                let image = decode_image(&cmd.control, data.as_slice());
                match self.handle_image(
                    store,
                    character_cell_size,
                    &cmd.control,
                    display,
                    cursor_x_pixels,
                    cursor_y_pixels,
                    image,
                ) {
                    Ok(response) => Ok(CommandOutcome::Done(response)),
                    Err(e) => Err(e),
                }
            },
        }
    }

    /// Continues a command that asked for a file with the content of the file, or with
    /// nothing if it could not be read. Returns a response if needed.
    pub fn handle_file_data(
        &mut self,
        store: &mut KittyImageStore,
        character_cell_size: Option<SizeInPixels>,
        request: FileRequest,
        data: Option<Vec<u8>>,
    ) -> (response: Result<Option<Vec<u8>>, OutOfRange>)
        requires
            old(self).wf(),
            old(store).wf(),
        ensures
            final(self).wf(),
            final(store).wf(),
            ({
                let step = file_step(
                    old(self)@,
                    old(store)@,
                    character_cell_size,
                    request@,
                    opt_bytes_view(data),
                );
                &&& final(self)@ == step.grid
                &&& final(store)@ == step.images
                &&& response_view(response) == step.outcome
            }),
            all_cover(old(store)@) ==> all_cover(final(store)@),
    {
        let image = match data {
            Some(data) => decode_image(&request.control, data.as_slice()),
            None => Ok(None),
        };
        self.handle_image(
            store,
            character_cell_size,
            &request.control,
            request.display,
            request.cursor_x_pixels,
            request.cursor_y_pixels,
            image,
        )
    }

    /// Stores a decoded image under its id and places it if it is to be shown. Returns a
    /// response if needed.
    pub fn handle_image(
        &mut self,
        store: &mut KittyImageStore,
        character_cell_size: Option<SizeInPixels>,
        control: &KittyControlData,
        display: bool,
        cursor_x_pixels: usize,
        cursor_y_pixels: usize,
        image: Result<Option<KittyImage>, OutOfRange>,
    ) -> (response: Result<Option<Vec<u8>>, OutOfRange>)
        requires
            old(self).wf(),
            old(store).wf(),
        ensures
            final(self).wf(),
            final(store).wf(),
            ({
                let step = with_image(
                    old(self)@,
                    old(store)@,
                    character_cell_size,
                    *control,
                    display,
                    cursor_x_pixels,
                    cursor_y_pixels,
                    decode_view(image),
                );
                &&& final(self)@ == step.grid
                &&& final(store)@ == step.images
                &&& response_view(response) == step.outcome
            }),
            all_cover(old(store)@) && (image matches Ok(Some(image)) ==> covers(image@))
                ==> all_cover(final(store)@),
    {
        let image = match image {
            Ok(Some(image)) => image,
            Ok(None) => return Ok(None),
            Err(e) => return Err(e),
        };
        let image_id: u32 = match control.image_id {
            Some(id) => id,
            None => match store.next_free_id(self.next_image_id) {
                Some(id) => id,
                None => return Err(OutOfRange),
            },
        };
        if display {
            let placed = self.create_placement(
                image_id,
                image.width,
                image.height,
                control,
                character_cell_size,
                cursor_x_pixels,
                cursor_y_pixels,
            );
            if !placed {
                return Err(OutOfRange);
            }
        }
        if control.image_id.is_none() {
            self.next_image_id = image_id + 1;
        }
        let stored = KittyImage {
            id: image_id,
            width: image.width,
            height: image.height,
            pixel_data: image.pixel_data,
        };
        store.store_image(stored);
        Ok(make_reply(control.quiet, image_id))
    }

    /// Places an image at the cursor. Returns whether all numbers were in range.
    fn create_placement(
        &mut self,
        image_id: u32,
        image_width: usize,
        image_height: usize,
        control: &KittyControlData,
        character_cell_size: Option<SizeInPixels>,
        cursor_x_pixels: usize,
        cursor_y_pixels: usize,
    ) -> (done: bool)
        requires
            old(self).wf(),
        ensures
            final(self).wf(),
            done == placed_in_range(
                old(self)@,
                image_id,
                image_width,
                image_height,
                *control,
                character_cell_size,
            ),
            final(self)@ == (if done {
                placed(
                    old(self)@,
                    image_id,
                    image_width,
                    image_height,
                    *control,
                    character_cell_size,
                    cursor_x_pixels,
                    cursor_y_pixels,
                )
            } else {
                old(self)@
            }),
    {
        let (width, height) = match character_cell_size {
            Some(size) => (Some(size.width), Some(size.height)),
            None => (None, None),
        };
        let display_width: usize = match compute_extent(
            control.display_width,
            control.columns,
            width,
            image_width,
        ) {
            Some(display_width) => display_width,
            None => return false,
        };
        let display_height: usize = match compute_extent(
            control.display_height,
            control.rows,
            height,
            image_height,
        ) {
            Some(display_height) => display_height,
            None => return false,
        };
        let placement_id: u32 = match control.placement_id {
            Some(id) => id,
            None => match next_free_placement_id(
                &self.placements,
                image_id,
                self.next_placement_id,
            ) {
                Some(id) => {
                    self.next_placement_id = id + 1;
                    id
                },
                None => return false,
            },
        };
        // Position is always at cursor position: x= and y= are the offset of a crop of the
        // source image
        let placement = KittyPlacement {
            image_id,
            placement_id,
            pixel_x: cursor_x_pixels,
            pixel_y: cursor_y_pixels as isize,
            display_width,
            display_height,
            z_index: match control.z_index {
                Some(z_index) => z_index,
                None => 0,
            },
        };
        proof {
            lemma_put_replaces(self.placements@, placement);
        }
        self.placements = remove_ids(&self.placements, image_id, placement_id);
        self.placements.push(placement);
        true
    }

    fn handle_put(
        &mut self,
        store: &KittyImageStore,
        character_cell_size: Option<SizeInPixels>,
        cmd: &KittyCommand,
        cursor_x_pixels: usize,
        cursor_y_pixels: usize,
    ) -> (outcome: Result<CommandOutcome, OutOfRange>)
        requires
            old(self).wf(),
            store.wf(),
        ensures
            final(self).wf(),
            ({
                let step = put_step(
                    old(self)@,
                    store@,
                    character_cell_size,
                    cmd.control,
                    cursor_x_pixels,
                    cursor_y_pixels,
                );
                &&& final(self)@ == step.grid
                &&& outcome_view(outcome) == step.outcome
            }),
    {
        let image_id: u32 = match cmd.control.image_id {
            Some(id) => id,
            None => return Ok(CommandOutcome::Done(None)),
        };
        let (width, height) = match store.get_image(image_id) {
            Some(image) => (image.width, image.height),
            None => return Ok(CommandOutcome::Done(None)),
        };
        let placed = self.create_placement(
            image_id,
            width,
            height,
            &cmd.control,
            character_cell_size,
            cursor_x_pixels,
            cursor_y_pixels,
        );
        if !placed {
            return Err(OutOfRange);
        }
        Ok(CommandOutcome::Done(make_reply(cmd.control.quiet, image_id)))
    }

    fn handle_delete(
        &mut self,
        store: &mut KittyImageStore,
        character_cell_size: Option<SizeInPixels>,
        cmd: &KittyCommand,
    ) -> (outcome: Result<CommandOutcome, OutOfRange>)
        requires
            old(self).wf(),
            old(store).wf(),
        ensures
            final(self).wf(),
            final(store).wf(),
            ({
                let step = delete_step(
                    old(self)@,
                    old(store)@,
                    character_cell_size,
                    cmd.control,
                );
                &&& final(self)@ == step.grid
                &&& final(store)@ == step.images
                &&& outcome_view(outcome) == step.outcome
            }),
            all_cover(old(store)@) ==> all_cover(final(store)@),
    {
        if !delete_fits(&cmd.control, character_cell_size) {
            return Err(OutOfRange);
        }
        let kept = match remove_matching(&self.placements, &cmd.control, character_cell_size) {
            Some(kept) => kept,
            None => return Err(OutOfRange),
        };
        proof {
            lemma_remaining_distinct(self.placements@, cmd.control, character_cell_size);
        }
        self.placements = kept;
        // Also delete from image store (for operations that affect stored images)
        let delete_type: char = match cmd.control.delete_type {
            Some(delete_type) => delete_type,
            None => 'a',
        };
        store.delete(delete_type, cmd.control.image_id);
        Ok(CommandOutcome::Done(None))
    }

    /// Get image chunks that intersect with changed viewport regions
    pub fn changed_kitty_chunks_in_viewport(
        &self,
        character_cell_size: Option<SizeInPixels>,
        changed_rects: HashMap<usize, usize>,
        scrollback_size_in_lines: usize,
        _viewport_width_in_cells: usize,
        viewport_x_offset: usize,
        viewport_y_offset: usize,
    ) -> (chunks: Vec<KittyImageChunk>)
        requires
            character_cell_size matches Some(size) ==> changed_chunks_in_range(
                self@.placements,
                changed_rects@,
                scrollback_size_in_lines,
                size,
                viewport_x_offset,
                viewport_y_offset,
            ),
        ensures
            chunks@ == drawn_chunks(
                self@,
                character_cell_size,
                changed_rects@,
                scrollback_size_in_lines,
                viewport_x_offset,
                viewport_y_offset,
            ),
    {
        match character_cell_size {
            Some(size) => make_changed_chunks(
                &self.placements,
                &changed_rects,
                scrollback_size_in_lines,
                size,
                viewport_x_offset,
                viewport_y_offset,
            ),
            None => Vec::new(),
        }
    }

    /// Tests whether [`Self::changed_kitty_chunks_in_viewport`] can be called.
    pub fn changed_kitty_chunks_fit(
        &self,
        character_cell_size: Option<SizeInPixels>,
        changed_rects: &HashMap<usize, usize>,
        scrollback_size_in_lines: usize,
        viewport_x_offset: usize,
        viewport_y_offset: usize,
    ) -> (fit: bool)
        ensures
            fit == (character_cell_size matches Some(size) ==> changed_chunks_in_range(
                self@.placements,
                changed_rects@,
                scrollback_size_in_lines,
                size,
                viewport_x_offset,
                viewport_y_offset,
            )),
    {
        match character_cell_size {
            Some(size) => changed_chunks_fit(
                &self.placements,
                changed_rects,
                scrollback_size_in_lines,
                size,
                viewport_x_offset,
                viewport_y_offset,
            ),
            None => true,
        }
    }

    /// Offset all placements when scrollback changes
    pub fn offset_grid_top(&mut self, character_cell_size: Option<SizeInPixels>)
        requires
            old(self).wf(),
            character_cell_size matches Some(size) ==> forall|i: int|
                0 <= i < old(self)@.placements.len() ==> move_in_range(
                    #[trigger] old(self)@.placements[i],
                    size,
                ),
        ensures
            final(self).wf(),
            final(self)@ == scrolled_grid(old(self)@, character_cell_size),
    {
        if let Some(size) = character_cell_size {
            proof {
                lemma_scrolled_distinct(self.placements@, size);
            }
            self.placements = scroll(&self.placements, size);
        }
    }

    /// Tests whether [`Self::offset_grid_top`] can be called.
    pub fn offset_grid_top_fits(&self, character_cell_size: Option<SizeInPixels>) -> (fits: bool)
        ensures
            fits == (character_cell_size matches Some(size) ==> forall|i: int|
                0 <= i < self@.placements.len() ==> move_in_range(
                    #[trigger] self@.placements[i],
                    size,
                )),
    {
        assert(self@.placements == self.placements@);
        match character_cell_size {
            Some(size) => scroll_fits(&self.placements, size),
            None => true,
        }
    }

    /// Handle cell size changes
    pub fn character_cell_size_possibly_changed(
        &mut self,
        character_cell_size: Option<SizeInPixels>,
    )
        requires
            old(self).wf(),
            resize_in_range(old(self)@, character_cell_size),
        ensures
            final(self).wf(),
            final(self)@ == resized_grid(old(self)@, character_cell_size),
    {
        if let (Some(old_size), Some(new_size)) = (self.previous_cell_size, character_cell_size) {
            if old_size != new_size {
                proof {
                    lemma_rescaled_distinct(self.placements@, old_size, new_size);
                }
                self.placements = rescale_list(&self.placements, old_size, new_size);
            }
        }
        self.previous_cell_size = character_cell_size;
    }

    /// Tests whether [`Self::character_cell_size_possibly_changed`] can be called.
    pub fn character_cell_size_change_fits(
        &self,
        character_cell_size: Option<SizeInPixels>,
    ) -> (fits: bool)
        ensures
            fits == resize_in_range(self@, character_cell_size),
    {
        assert(self@.placements == self.placements@);
        if let (Some(old_size), Some(new_size)) = (self.previous_cell_size, character_cell_size) {
            if old_size != new_size {
                return rescale_list_fits(&self.placements, old_size, new_size);
            }
        }
        true
    }

    /// Clear all placements
    pub fn clear(&mut self) -> (ids: Option<Vec<u32>>)
        ensures
            final(self).wf(),
            final(self)@ == cleared_grid(old(self)@),
            match ids {
                Some(ids) => ids@.len() > 0 && ids@ == placed_image_ids(old(self)@),
                None => old(self)@.placements.len() == 0,
            },
    {
        let ids = image_ids(&self.placements);
        self.placements = Vec::new();
        if ids.is_empty() {
            None
        } else {
            Some(ids)
        }
    }

    /// Get placement coordinates in viewport for rendering
    pub fn placement_cell_coordinates_in_viewport(
        &self,
        character_cell_size: Option<SizeInPixels>,
        viewport_height: usize,
        scrollback_height: usize,
    ) -> (cells: Vec<(usize, usize, usize, usize)>)
        requires
            character_cell_size matches Some(size) ==> forall|i: int|
                0 <= i < self@.placements.len() ==> cells_in_range(
                    #[trigger] self@.placements[i],
                    scrollback_height,
                    size,
                ),
        ensures
            cells@ == viewport_cells(
                self@,
                character_cell_size,
                viewport_height,
                scrollback_height,
            ),
    {
        match character_cell_size {
            Some(size) => match compute_cell_list(
                &self.placements,
                viewport_height,
                scrollback_height,
                size,
            ) {
                Some(cells) => cells,
                None => Vec::new(),
            },
            None => Vec::new(),
        }
    }

    /// Tests whether [`Self::placement_cell_coordinates_in_viewport`] can be called.
    pub fn placement_cell_coordinates_fit(
        &self,
        character_cell_size: Option<SizeInPixels>,
        scrollback_height: usize,
    ) -> (fit: bool)
        ensures
            fit == (character_cell_size matches Some(size) ==> forall|i: int|
                0 <= i < self@.placements.len() ==> cells_in_range(
                    #[trigger] self@.placements[i],
                    scrollback_height,
                    size,
                )),
    {
        assert(self@.placements == self.placements@);
        match character_cell_size {
            Some(size) => compute_cell_list(
                &self.placements,
                0,
                scrollback_height,
                size,
            ).is_some(),
            None => true,
        }
    }
}

/// Whether the placements can be rescaled to cells of another size.
pub open spec fn resize_in_range(grid: GridView, cell_size: Option<SizeInPixels>) -> bool {
    match (grid.previous_cell_size, cell_size) {
        (Some(old_size), Some(new_size)) => old_size != new_size ==> forall|i: int|
            0 <= i < grid.placements.len() ==> rescale_in_range(
                #[trigger] grid.placements[i],
                old_size,
                new_size,
            ),
        _ => true,
    }
}

} // verus!
