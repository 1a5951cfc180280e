//! What is written can be read.

use kitty_graphics::apc::{ApcAdvanceResult, KittyApcParser};
use kitty_graphics::grid::{CommandOutcome, KittyGrid};
use kitty_graphics::reply::make_reply;
use kitty_graphics::store::KittyImageStore;
use kitty_graphics::types::{KittyCommand, KittyImage, SizeInPixels};

const CELL: Option<SizeInPixels> = Some(SizeInPixels { height: 20, width: 10 });

fn commands(text: &[u8]) -> Vec<KittyCommand> {
    let mut parser = KittyApcParser::default();
    let mut commands = Vec::new();
    for byte in text {
        match parser.advance(*byte) {
            ApcAdvanceResult::Continue => {}
            ApcAdvanceResult::Complete(command) => commands.push(command),
            ApcAdvanceResult::NotApc(_) | ApcAdvanceResult::Error => panic!("not a command"),
        }
    }
    assert!(!parser.is_parsing());
    commands
}

fn patterned(id: u32, width: usize, height: usize) -> KittyImage {
    let pixel_data = (0..width * height * 4).map(|i| (i * 7 + i / 256) as u8).collect();
    KittyImage { id, width, height, pixel_data }
}

/// Draws a rectangle of an image into another store; the sequences and the answers.
fn draw(image: KittyImage, rect: (usize, usize, usize, usize)) -> (usize, KittyImageStore, KittyGrid) {
    let id = image.id;
    let mut source = KittyImageStore::default();
    source.store_image(image);
    let (x, y, width, height) = rect;
    assert!(source.serialize_image_fits(id, x, y, width, height));
    let text = source.serialize_image(id, x, y, width, height).unwrap();
    let mut store = KittyImageStore::default();
    let mut grid = KittyGrid::new(CELL);
    let commands = commands(text.as_bytes());
    let count = commands.len();
    for (i, command) in commands.into_iter().enumerate() {
        match grid.handle_command(&mut store, CELL, command, 30, 60) {
            Ok(CommandOutcome::Done(response)) => {
                let expected = if i + 1 == count { make_reply(0, id) } else { None };
                assert_eq!(response, expected);
            }
            _ => panic!("not done"),
        }
    }
    (count, store, grid)
}

#[test]
fn a_small_image_reads_back() {
    let (count, store, grid) = draw(patterned(9, 4, 3), (0, 0, 4, 3));
    assert_eq!(count, 1);
    let image = store.get_image(9).unwrap();
    assert_eq!((image.id, image.width, image.height), (9, 4, 3));
    assert_eq!(image.pixel_data, patterned(9, 4, 3).pixel_data);
    assert_eq!(
        grid.placement_cell_coordinates_in_viewport(CELL, 24, 0),
        vec![(3, 4, 3, 4)]
    );
}

#[test]
fn a_large_image_reads_back() {
    // 100 * 50 * 4 bytes are 26668 characters of base64.
    let (count, store, _) = draw(patterned(10, 100, 50), (0, 0, 100, 50));
    assert_eq!(count, 7);
    let image = store.get_image(10).unwrap();
    assert_eq!((image.width, image.height), (100, 50));
    assert_eq!(image.pixel_data, patterned(10, 100, 50).pixel_data);
}

#[test]
fn a_part_of_an_image_reads_back_clipped() {
    let (_, store, grid) = draw(patterned(11, 5, 4), (3, 2, 40, 60));
    let source = patterned(11, 5, 4);
    let image = store.get_image(11).unwrap();
    assert_eq!((image.width, image.height), (2, 2));
    let mut expected = Vec::new();
    for y in 2..4 {
        expected.extend(&source.pixel_data[(y * 5 + 3) * 4..(y * 5 + 5) * 4]);
    }
    assert_eq!(image.pixel_data, expected);
    // It is shown at the size of the rectangle.
    assert_eq!(
        grid.placement_cell_coordinates_in_viewport(CELL, 24, 0),
        vec![(3, 6, 3, 7)]
    );
}

#[test]
fn an_empty_rectangle_is_drawn_as_nothing() {
    let (count, store, _) = draw(patterned(12, 5, 4), (0, 0, 0, 4));
    assert_eq!(count, 0);
    assert_eq!(store.image_count(), 0);
}

#[test]
fn an_answer_reads_back() {
    let answer = make_reply(0, 4294967295).unwrap();
    assert_eq!(answer, b"\x1b_Gi=4294967295;OK\x1b\\");
    let commands = commands(&answer);
    assert_eq!(commands.len(), 1);
    assert_eq!(commands[0].control.image_id, Some(4294967295));
    assert_eq!(commands[0].payload, b"OK");
    assert_eq!(make_reply(1, 5), None);
}
