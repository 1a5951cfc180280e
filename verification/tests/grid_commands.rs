//! Commands: transmissions, placements, deletions and answers.

use kitty_graphics::control::parse_control_data;
use kitty_graphics::decode::OutOfRange;
use kitty_graphics::grid::{CommandOutcome, FileRequest, KittyGrid};
use kitty_graphics::store::KittyImageStore;
use kitty_graphics::types::{KittyCommand, KittyControlData, KittyImage, SizeInPixels};

const CELL: Option<SizeInPixels> = Some(SizeInPixels { height: 20, width: 10 });

/// One RGBA pixel, (0, 0, 0, 255), in base64.
const BLACK: &str = "AAAA/w==";

fn command(control: &str, payload: &str) -> KittyCommand {
    KittyCommand {
        control: parse_control_data(control.as_bytes()).unwrap(),
        payload: payload.as_bytes().to_vec(),
    }
}

struct Screen {
    grid: KittyGrid,
    store: KittyImageStore,
    cell_size: Option<SizeInPixels>,
}

impl Screen {
    fn new() -> Screen {
        Screen { grid: KittyGrid::new(CELL), store: KittyImageStore::default(), cell_size: CELL }
    }

    fn outcome(&mut self, control: &str, payload: &str, x: usize, y: usize) -> Result<CommandOutcome, OutOfRange> {
        self.grid.handle_command(&mut self.store, self.cell_size, command(control, payload), x, y)
    }

    /// Runs a command that needs no file; the answer as text.
    fn run_at(&mut self, control: &str, payload: &str, x: usize, y: usize) -> Option<String> {
        match self.outcome(control, payload, x, y) {
            Ok(CommandOutcome::Done(response)) => response.map(|r| String::from_utf8(r).unwrap()),
            Ok(CommandOutcome::ReadFile(_)) => panic!("a file is asked for"),
            Err(OutOfRange) => panic!("out of range"),
        }
    }

    fn run(&mut self, control: &str, payload: &str) -> Option<String> {
        self.run_at(control, payload, 0, 0)
    }

    fn file(&mut self, control: &str, payload: &str) -> FileRequest {
        match self.outcome(control, payload, 3, 4) {
            Ok(CommandOutcome::ReadFile(request)) => request,
            _ => panic!("no file is asked for"),
        }
    }

    /// (image id, placement id, width, height, x, y) of each placement, in cells.
    fn placements(&self) -> Vec<(u32, u32, usize, usize, usize, usize)> {
        let everything = std::collections::HashMap::from([(0, 1000)]);
        self.grid
            .changed_kitty_chunks_in_viewport(CELL, everything, 0, 80, 0, 0)
            .iter()
            .map(|c| {
                (
                    c.kitty_image_id,
                    c.kitty_placement_id,
                    c.kitty_image_pixel_width,
                    c.kitty_image_pixel_height,
                    c.cell_x,
                    c.cell_y,
                )
            })
            .collect()
    }

    fn ids(&self) -> Vec<(u32, u32)> {
        self.placements().iter().map(|p| (p.0, p.1)).collect()
    }
}

fn ok(id: u32) -> Option<String> {
    Some(format!("\x1b_Gi={};OK\x1b\\", id))
}

#[test]
fn a_query_is_answered() {
    let mut screen = Screen::new();
    assert_eq!(screen.run("a=q,i=31", ""), ok(31));
    assert_eq!(screen.run("a=q", ""), ok(0));
    assert_eq!(screen.run("a=q,i=4294967295", ""), ok(4294967295));
    assert_eq!(screen.run("a=q,i=31,q=1", ""), None);
    assert_eq!(screen.store.image_count(), 0);
    assert!(screen.placements().is_empty());
}

#[test]
fn animation_commands_do_nothing() {
    let mut screen = Screen::new();
    for action in ["f", "a", "c"] {
        assert_eq!(screen.run(&format!("a={},i=1,s=1,v=1", action), BLACK), None);
    }
    assert_eq!(screen.store.image_count(), 0);
    assert!(screen.placements().is_empty());
}

#[test]
fn a_transmitted_image_is_stored() {
    let mut screen = Screen::new();
    assert_eq!(screen.run("a=t,s=1,v=1,i=5", BLACK), ok(5));
    let image = screen.store.get_image(5).unwrap();
    assert_eq!((image.id, image.width, image.height), (5, 1, 1));
    assert_eq!(image.pixel_data, vec![0, 0, 0, 255]);
    assert!(screen.placements().is_empty());
}

#[test]
fn a_displayed_image_is_stored_and_placed() {
    let mut screen = Screen::new();
    assert_eq!(screen.run_at("a=T,s=1,v=1,i=5", BLACK, 30, 40), ok(5));
    assert_eq!(screen.store.image_count(), 1);
    assert_eq!(screen.placements(), vec![(5, 1, 1, 1, 3, 2)]);
}

#[test]
fn quiet_transmissions_are_not_answered() {
    let mut screen = Screen::new();
    assert_eq!(screen.run("a=T,s=1,v=1,i=5,q=1", BLACK), None);
    assert_eq!(screen.run("a=p,i=5,q=2", ""), None);
    assert_eq!(screen.store.image_count(), 1);
    assert_eq!(screen.ids(), vec![(5, 1), (5, 2)]);
}

#[test]
fn missing_ids_are_counted_up() {
    let mut screen = Screen::new();
    assert_eq!(screen.run("a=t,s=1,v=1", BLACK), ok(1));
    assert_eq!(screen.run("a=T,s=1,v=1", BLACK), ok(2));
    assert_eq!(screen.run("a=t,s=1,v=1,i=9", BLACK), ok(9));
    assert_eq!(screen.run("a=T,s=1,v=1", BLACK), ok(3));
    assert_eq!(screen.ids(), vec![(2, 1), (3, 2)]);
    assert_eq!(screen.store.image_count(), 4);
}

#[test]
fn an_image_without_an_id_replaces_none() {
    let mut screen = Screen::new();
    // (9, 9, 9, 9)
    for id in [1, 2, 4] {
        screen.run(&format!("a=t,s=1,v=1,i={}", id), "CQkJCQ==");
    }
    assert_eq!(screen.run("a=t,s=1,v=1", BLACK), ok(3));
    assert_eq!(screen.run("a=t,s=1,v=1", BLACK), ok(5));
    assert_eq!(screen.store.image_count(), 5);
    for id in [1, 2, 4] {
        assert_eq!(screen.store.get_image(id).unwrap().pixel_data, vec![9, 9, 9, 9]);
    }
    // An id below the count is not given out again.
    screen.run("a=d,d=i,i=1", "");
    assert_eq!(screen.run("a=t,s=1,v=1", BLACK), ok(6));
    // An image from a file gets an available id too.
    screen.run("a=t,s=1,v=1,i=7", "CQkJCQ==");
    let request = screen.file("a=t,s=1,v=1,t=f", "L3RtcC9pbWFnZQ==");
    let response = screen
        .grid
        .handle_file_data(&mut screen.store, CELL, request, Some(vec![0, 0, 0, 255]));
    assert_eq!(response, Ok(Some(b"\x1b_Gi=8;OK\x1b\\".to_vec())));
    assert_eq!(screen.store.get_image(7).unwrap().pixel_data, vec![9, 9, 9, 9]);
}

#[test]
fn grids_that_share_a_store_do_not_share_ids() {
    let mut store = KittyImageStore::default();
    let mut first = KittyGrid::new(CELL);
    let mut second = KittyGrid::new(CELL);
    let mut ids = Vec::new();
    for grid in [&mut first, &mut second] {
        for _ in 0..2 {
            match grid.handle_command(&mut store, CELL, command("a=t,s=1,v=1", BLACK), 0, 0) {
                Ok(CommandOutcome::Done(Some(answer))) => ids.push(String::from_utf8(answer).unwrap()),
                _ => panic!("no answer"),
            }
        }
    }
    assert_eq!(store.image_count(), 4);
    assert_eq!(ids, (1..5).map(|id| ok(id).unwrap()).collect::<Vec<_>>());
}

#[test]
fn no_id_is_left_at_the_end() {
    let mut screen = Screen::new();
    assert_eq!(screen.store.next_free_id(4294967294), Some(4294967294));
    assert_eq!(screen.store.next_free_id(4294967295), None);
    screen.run("a=t,s=1,v=1,i=4294967294", BLACK);
    assert_eq!(screen.store.next_free_id(4294967294), None);
    assert_eq!(screen.store.next_free_id(4294967293), Some(4294967293));
    assert_eq!(screen.store.next_free_id(0), Some(0));
}

#[test]
fn a_placement_without_an_id_replaces_none() {
    let mut screen = Screen::new();
    screen.run("a=t,s=1,v=1,i=5", BLACK);
    screen.run("a=t,s=1,v=1,i=6", BLACK);
    screen.run("a=p,i=5,p=1", "");
    screen.run("a=p,i=5,p=2", "");
    screen.run("a=p,i=6,p=3", "");
    // Placement ids are those of an image.
    assert_eq!(screen.run("a=p,i=5", ""), ok(5));
    assert_eq!(screen.run("a=p,i=6", ""), ok(6));
    assert_eq!(screen.ids(), vec![(5, 1), (5, 2), (6, 3), (5, 3), (6, 4)]);
}

#[test]
fn a_default_grid_counts_from_zero() {
    let mut grid = KittyGrid::default();
    let mut store = KittyImageStore::default();
    let outcome = grid.handle_command(&mut store, None, command("a=T,s=1,v=1", BLACK), 0, 0);
    match outcome {
        Ok(CommandOutcome::Done(Some(response))) => assert_eq!(response, b"\x1b_Gi=0;OK\x1b\\"),
        _ => panic!("no answer"),
    }
    assert!(store.get_image(0).is_some());
}

#[test]
fn data_that_gives_no_image_is_dropped() {
    let mut screen = Screen::new();
    // No size, too little data, no base64, no zlib stream, no PNG file.
    assert_eq!(screen.run("a=T,i=1", BLACK), None);
    assert_eq!(screen.run("a=T,i=1,s=2,v=1", BLACK), None);
    assert_eq!(screen.run("a=T,i=1,s=1,v=1", "!!"), None);
    assert_eq!(screen.run("a=T,i=1,s=1,v=1,o=z", BLACK), None);
    assert_eq!(screen.run("a=T,i=1,f=100", BLACK), None);
    assert_eq!(screen.run("a=T,i=1,s=1,v=1,t=s", BLACK), None);
    assert_eq!(screen.store.image_count(), 0);
    assert!(screen.placements().is_empty());
    // No id was used up.
    assert_eq!(screen.run("a=T,s=1,v=1", BLACK), ok(1));
    assert_eq!(screen.ids(), vec![(1, 1)]);
}

#[test]
fn chunks_make_one_image() {
    let mut screen = Screen::new();
    // 0 1 2 3 4 5 6 7
    let whole = "AAECAwQFBgc=";
    assert_eq!(screen.run("a=T,s=2,v=1,i=6,m=1", &whole[..4]), None);
    assert_eq!(screen.run("m=1", &whole[4..8]), None);
    assert_eq!(screen.store.image_count(), 0);
    assert_eq!(screen.run("m=0", &whole[8..]), ok(6));
    let image = screen.store.get_image(6).unwrap();
    assert_eq!((image.width, image.height), (2, 1));
    assert_eq!(image.pixel_data, vec![0, 1, 2, 3, 4, 5, 6, 7]);
    // As one piece.
    let mut other = Screen::new();
    assert_eq!(other.run("a=T,s=2,v=1,i=6", whole), ok(6));
    assert_eq!(other.store.get_image(6).unwrap().pixel_data, image.pixel_data);
    assert_eq!(other.placements(), screen.placements());
}

#[test]
fn the_first_chunk_says_what_and_the_last_whether_it_is_shown() {
    let mut screen = Screen::new();
    assert_eq!(screen.run("a=T,s=1,v=1,i=6,q=1,m=1", "AAAA"), None);
    // The size, the id and the quiet mode of a later chunk do not count.
    assert_eq!(screen.run("a=t,s=9,v=9,i=7,q=0", "/w=="), None);
    assert!(screen.store.get_image(6).is_some());
    assert!(screen.store.get_image(7).is_none());
    assert!(screen.placements().is_empty());
}

#[test]
fn other_commands_do_not_disturb_a_transmission() {
    let mut screen = Screen::new();
    screen.run("a=t,s=1,v=1,i=6,m=1", "AAAA");
    assert_eq!(screen.run("a=q,i=1", ""), ok(1));
    screen.run("a=d", "");
    screen.run("a=p,i=9", "");
    assert_eq!(screen.run("a=t", "/w=="), ok(6));
}

#[test]
fn a_failed_transmission_is_over() {
    let mut screen = Screen::new();
    screen.run("a=t,s=1,v=1,i=6,m=1", "AAAA");
    assert_eq!(screen.run("m=0", "*"), None);
    assert_eq!(screen.run("a=t,s=1,v=1,i=7", BLACK), ok(7));
    assert_eq!(screen.store.image_count(), 1);
}

#[test]
fn the_size_on_the_screen_is_found_in_turn() {
    let mut screen = Screen::new();
    screen.run("a=t,s=1,v=1,i=5", BLACK);
    // In pixels, before cells, before the size of the image.
    screen.run("a=p,i=5,p=1,w=33,h=44,c=2,r=3", "");
    screen.run("a=p,i=5,p=2,c=2,r=3", "");
    screen.run("a=p,i=5,p=3", "");
    screen.run("a=p,i=5,p=4,w=33,r=3", "");
    assert_eq!(
        screen.placements(),
        vec![
            (5, 1, 33, 44, 0, 0),
            (5, 2, 20, 60, 0, 0),
            (5, 3, 1, 1, 0, 0),
            (5, 4, 33, 60, 0, 0)
        ]
    );
    // Cells of unknown size do not count.
    screen.cell_size = None;
    screen.run("a=p,i=5,p=2,c=2,r=3", "");
    assert_eq!(screen.placements()[3], (5, 2, 1, 1, 0, 0));
}

#[test]
fn a_put_needs_an_image() {
    let mut screen = Screen::new();
    assert_eq!(screen.run("a=p", ""), None);
    assert_eq!(screen.run("a=p,i=5", ""), None);
    assert!(screen.placements().is_empty());
    screen.run("a=t,s=1,v=1,i=5", BLACK);
    assert_eq!(screen.run_at("a=p,i=5", "", 10, 20), ok(5));
    assert_eq!(screen.placements(), vec![(5, 1, 1, 1, 1, 1)]);
    assert_eq!(screen.store.image_count(), 1);
}

#[test]
fn the_crop_offset_does_not_move_a_placement() {
    let mut screen = Screen::new();
    screen.run_at("a=T,s=1,v=1,i=5,x=100,y=200", BLACK, 10, 20);
    assert_eq!(screen.placements(), vec![(5, 1, 1, 1, 1, 1)]);
}

#[test]
fn a_placement_replaces_the_one_with_its_ids() {
    let mut screen = Screen::new();
    screen.run("a=t,s=1,v=1,i=5", BLACK);
    screen.run("a=t,s=1,v=1,i=6", BLACK);
    screen.run_at("a=p,i=5,p=1", "", 0, 0);
    screen.run_at("a=p,i=6,p=1", "", 10, 0);
    screen.run_at("a=p,i=5,p=2", "", 20, 0);
    screen.run_at("a=p,i=5,p=1", "", 30, 0);
    assert_eq!(
        screen.placements(),
        vec![(6, 1, 1, 1, 1, 0), (5, 2, 1, 1, 2, 0), (5, 1, 1, 1, 3, 0)]
    );
}

/// Placements: image 1 at (0, 0) with z 0, image 2 at (50, 40) with z 7, image 2 again at
/// (50, 100) with z -1. Each is 10 x 20 pixels: one cell.
fn three_placements() -> Screen {
    let mut screen = Screen::new();
    screen.run("a=t,s=1,v=1,i=1", BLACK);
    screen.run("a=t,s=1,v=1,i=2", BLACK);
    screen.run_at("a=p,i=1,p=1,c=1,r=1", "", 0, 0);
    screen.run_at("a=p,i=2,p=1,c=1,r=1,z=7", "", 50, 40);
    screen.run_at("a=p,i=2,p=2,c=1,r=1,z=-1", "", 50, 100);
    assert_eq!(screen.ids(), vec![(1, 1), (2, 1), (2, 2)]);
    screen
}

fn after_delete(control: &str) -> (Vec<(u32, u32)>, usize) {
    let mut screen = three_placements();
    assert_eq!(screen.run(control, ""), None);
    (screen.ids(), screen.store.image_count())
}

#[test]
fn deleting_without_a_kind_deletes_everything() {
    assert_eq!(after_delete("a=d"), (vec![], 0));
    assert_eq!(after_delete("a=d,i=1"), (vec![], 0));
}

#[test]
fn deletions_are_exact_and_ignore_case() {
    let all = vec![(1, 1), (2, 1), (2, 2)];
    let cases: Vec<(&str, &str, Vec<(u32, u32)>, usize)> = vec![
        ("a", "", vec![], 0),
        ("i", ",i=2", vec![(1, 1)], 1),
        ("i", ",i=9", all.clone(), 2),
        ("i", "", all.clone(), 2),
        ("p", ",i=2,p=1", vec![(1, 1), (2, 2)], 2),
        ("p", ",i=2", all.clone(), 2),
        ("p", ",p=1", all.clone(), 2),
        // The pixels of a placement: from 50 to 59, from 40 to 59.
        ("c", ",x=50,y=40", vec![(1, 1), (2, 2)], 2),
        ("c", ",x=59,y=59", vec![(1, 1), (2, 2)], 2),
        ("c", ",x=60,y=40", all.clone(), 2),
        ("c", ",x=49,y=40", all.clone(), 2),
        ("c", ",x=50,y=60", all.clone(), 2),
        ("c", ",x=50,y=39", all.clone(), 2),
        ("c", ",x=50", all.clone(), 2),
        ("x", ",c=5", vec![(1, 1)], 2),
        ("x", ",c=4", all.clone(), 2),
        ("x", ",c=6", all.clone(), 2),
        ("x", "", all.clone(), 2),
        ("y", ",r=2", vec![(1, 1), (2, 2)], 2),
        ("y", ",r=1", all.clone(), 2),
        ("y", ",r=3", all.clone(), 2),
        ("y", "", all.clone(), 2),
        ("z", ",z=7", vec![(1, 1), (2, 2)], 2),
        ("z", ",z=0", vec![(2, 1), (2, 2)], 2),
        ("z", ",z=-1", vec![(1, 1), (2, 1)], 2),
        ("z", "", all.clone(), 2),
        ("q", ",i=1,x=0,y=0,c=0,r=0,z=0", all.clone(), 2),
    ];
    for (kind, rest, ids, images) in cases {
        let lower = after_delete(&format!("a=d,d={}{}", kind, rest));
        assert_eq!(lower, (ids, images), "{}{}", kind, rest);
        let upper = after_delete(&format!("a=d,d={}{}", kind.to_uppercase(), rest));
        assert_eq!(upper, lower, "{}{}", kind, rest);
    }
}

#[test]
fn columns_and_rows_need_a_cell_size() {
    let mut screen = three_placements();
    screen.cell_size = None;
    screen.run("a=d,d=x,c=5", "");
    screen.run("a=d,d=y,r=2", "");
    assert_eq!(screen.ids().len(), 3);
}

#[test]
fn a_file_is_asked_for() {
    let mut screen = Screen::new();
    // "/tmp/image"
    let path = "L3RtcC9pbWFnZQ==";
    let request = screen.file("a=T,s=1,v=1,i=8,t=f", path);
    assert_eq!(request.path, "/tmp/image");
    assert!(!request.delete_after_read);
    assert!(request.display);
    assert_eq!((request.cursor_x_pixels, request.cursor_y_pixels), (3, 4));
    assert_eq!(request.control.image_id, Some(8));
    assert_eq!(screen.store.image_count(), 0);
    let response = screen
        .grid
        .handle_file_data(&mut screen.store, CELL, request, Some(vec![9, 8, 7, 6]));
    assert_eq!(response, Ok(Some(b"\x1b_Gi=8;OK\x1b\\".to_vec())));
    assert_eq!(screen.store.get_image(8).unwrap().pixel_data, vec![9, 8, 7, 6]);
    assert_eq!(screen.ids(), vec![(8, 1)]);
}

#[test]
fn a_file_is_like_direct_data() {
    let control = "a=T,f=24,s=1,v=1,i=8,c=3,r=2,z=5";
    let mut direct = Screen::new();
    let expected = direct.run_at(control, "CQgH", 3, 4);
    let mut screen = Screen::new();
    let request = screen.file(&format!("{},t=t", control), "L3RtcC9pbWFnZQ==");
    let response = screen
        .grid
        .handle_file_data(&mut screen.store, CELL, request, Some(vec![9, 8, 7]));
    assert_eq!(response.unwrap().map(|r| String::from_utf8(r).unwrap()), expected);
    assert_eq!(expected, ok(8));
    assert_eq!(screen.placements(), direct.placements());
    assert_eq!(screen.store.get_image(8).unwrap().pixel_data, vec![9, 8, 7, 255]);
    assert_eq!(direct.store.get_image(8).unwrap().pixel_data, vec![9, 8, 7, 255]);
}

#[test]
fn a_temporary_file_is_to_be_deleted() {
    let mut screen = Screen::new();
    let request = screen.file("a=t,s=1,v=1,i=8,t=t,q=1", "L3RtcC9pbWFnZQ==");
    assert!(request.delete_after_read);
    assert!(!request.display);
    let response = screen
        .grid
        .handle_file_data(&mut screen.store, CELL, request, Some(vec![9, 8, 7, 6]));
    assert_eq!(response, Ok(None));
    assert_eq!(screen.store.image_count(), 1);
    assert!(screen.placements().is_empty());
}

#[test]
fn a_file_that_cannot_be_read_gives_no_image() {
    let mut screen = Screen::new();
    let request = screen.file("a=T,s=1,v=1,i=8,t=f", "L3RtcC9pbWFnZQ==");
    let response = screen.grid.handle_file_data(&mut screen.store, CELL, request, None);
    assert_eq!(response, Ok(None));
    assert_eq!(screen.store.image_count(), 0);
    assert!(screen.placements().is_empty());
    // Nor does a path that is no text.
    assert_eq!(screen.run("a=T,s=1,v=1,i=8,t=f", "//8="), None);
}

#[test]
fn a_file_can_be_named_in_chunks() {
    let mut screen = Screen::new();
    assert_eq!(screen.run("a=T,s=1,v=1,i=8,t=f,m=1", "L3RtcC9p"), None);
    let request = screen.file("m=0", "bWFnZQ==");
    assert_eq!(request.path, "/tmp/image");
}

#[test]
fn numbers_out_of_range_change_nothing() {
    let mut screen = three_placements();
    let ids = screen.ids();
    let huge = usize::MAX;
    for control in [
        format!("a=T,s={},v=2,i=5", huge),
        format!("a=p,i=1,c={}", huge),
        format!("a=p,i=1,r={}", huge),
        format!("a=T,s=1,v=1,i=5,c={}", huge),
        format!("a=d,d=x,c={}", huge),
        format!("a=d,d=y,r={}", huge),
    ] {
        assert!(matches!(screen.outcome(&control, BLACK, 0, 0), Err(OutOfRange)), "{}", control);
        assert_eq!(screen.ids(), ids);
        assert_eq!(screen.store.image_count(), 2);
    }
    // A placement that reaches beyond the range.
    screen.run_at(&format!("a=p,i=1,p=9,w={}", huge), "", 70, 0);
    assert!(matches!(screen.outcome("a=d,d=c,x=80,y=0", "", 0, 0), Err(OutOfRange)));
    assert!(matches!(screen.outcome("a=d,d=x,c=8", "", 0, 0), Err(OutOfRange)));
    assert_eq!(screen.run("a=d,d=x,c=5", ""), None);
}

#[test]
fn a_refused_transmission_is_over() {
    let mut screen = Screen::new();
    screen.run(&format!("a=t,s={},v=2,i=6,m=1", usize::MAX), "AAAA");
    assert!(matches!(screen.outcome("m=0", "/w==", 0, 0), Err(OutOfRange)));
    assert_eq!(screen.run("a=t,s=1,v=1,i=7", BLACK), ok(7));
}

#[test]
fn a_decoded_image_is_handled_whatever_it_is() {
    let mut grid = KittyGrid::new(CELL);
    let mut store = KittyImageStore::default();
    let control = KittyControlData { image_id: Some(4), ..KittyControlData::default() };
    let image = KittyImage { id: 0, width: 3, height: 2, pixel_data: vec![1; 24] };
    let done = grid.handle_image(&mut store, CELL, &control, true, 0, 0, Ok(Some(image)));
    assert_eq!(done, Ok(Some(b"\x1b_Gi=4;OK\x1b\\".to_vec())));
    assert_eq!(store.get_image(4).unwrap().id, 4);
    assert_eq!(store.get_image(4).unwrap().width, 3);
    assert_eq!(grid.handle_image(&mut store, CELL, &control, true, 0, 0, Ok(None)), Ok(None));
    assert_eq!(
        grid.handle_image(&mut store, CELL, &control, true, 0, 0, Err(OutOfRange)),
        Err(OutOfRange)
    );
    assert_eq!(store.image_count(), 1);
    assert_eq!(grid.clear(), Some(vec![4]));
}

#[test]
fn clearing_gives_the_image_ids() {
    let mut screen = three_placements();
    assert_eq!(screen.grid.clear(), Some(vec![1, 2, 2]));
    assert!(screen.placements().is_empty());
    assert_eq!(screen.grid.clear(), None);
    // The images stay, so that their ids are not available.
    assert_eq!(screen.store.image_count(), 2);
    assert_eq!(screen.run("a=T,s=1,v=1", BLACK), ok(3));
}
