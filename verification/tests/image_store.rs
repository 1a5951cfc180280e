//! The image store and what it draws.

use kitty_graphics::output::{format_kitty_output, frame_output, Drawing, CHUNK_SIZE};
use kitty_graphics::store::{extract_image_region, region_fits, KittyImageStore};
use kitty_graphics::types::{KittyImage, PixelRect};

/// An image whose pixel (x, y) is (x, y, id, 255).
fn image(id: u32, width: usize, height: usize) -> KittyImage {
    let mut pixel_data = Vec::new();
    for y in 0..height {
        for x in 0..width {
            pixel_data.extend([x as u8, y as u8, id as u8, 255]);
        }
    }
    KittyImage { id, width, height, pixel_data }
}

#[test]
fn a_stored_image_is_found() {
    let mut store = KittyImageStore::default();
    assert_eq!(store.image_count(), 0);
    assert!(store.get_image(1).is_none());
    store.store_image(image(1, 2, 3));
    store.store_image(image(2, 4, 5));
    assert_eq!(store.image_count(), 2);
    let found = store.get_image(1).unwrap();
    assert_eq!((found.id, found.width, found.height), (1, 2, 3));
    assert_eq!(found.pixel_data, image(1, 2, 3).pixel_data);
    store.store_image(image(1, 7, 1));
    assert_eq!(store.image_count(), 2);
    assert_eq!(store.get_image(1).unwrap().width, 7);
    assert_eq!(store.get_image(2).unwrap().width, 4);
}

#[test]
fn images_are_removed() {
    let mut store = KittyImageStore::default();
    store.store_image(image(1, 1, 1));
    store.store_image(image(2, 1, 1));
    store.remove_image(3);
    assert_eq!(store.image_count(), 2);
    store.remove_image(1);
    assert_eq!(store.image_count(), 1);
    assert!(store.get_image(1).is_none());
    assert!(store.get_image(2).is_some());
}

#[test]
fn images_are_deleted_by_kind() {
    for (kind, id, left) in [
        ('a', None, 0),
        ('A', Some(9), 0),
        ('i', Some(1), 1),
        ('I', Some(2), 1),
        ('i', Some(9), 2),
        ('i', None, 2),
        ('p', Some(1), 2),
        ('z', Some(1), 2),
    ] {
        let mut store = KittyImageStore::default();
        store.store_image(image(1, 1, 1));
        store.store_image(image(2, 1, 1));
        store.delete(kind, id);
        assert_eq!(store.image_count(), left, "{} {:?}", kind, id);
    }
}

#[test]
fn a_region_is_a_crop() {
    let source = image(3, 4, 5);
    let region = extract_image_region(&source, 1, 2, 2, 3).unwrap();
    let mut expected = Vec::new();
    for y in 2..5u8 {
        for x in 1..3u8 {
            expected.extend([x, y, 3, 255]);
        }
    }
    assert_eq!(region, expected);
}

#[test]
fn a_region_is_clipped_to_the_image() {
    let source = image(3, 4, 5);
    assert_eq!(
        extract_image_region(&source, 3, 4, 100, 100).unwrap(),
        vec![3, 4, 3, 255]
    );
    assert_eq!(
        extract_image_region(&source, 0, 0, usize::MAX, usize::MAX).unwrap(),
        source.pixel_data
    );
    assert!(extract_image_region(&source, 4, 0, 1, 1).is_none());
    assert!(extract_image_region(&source, 0, 5, 1, 1).is_none());
    assert!(extract_image_region(&source, 0, 0, 0, 5).unwrap().is_empty());
    assert!(extract_image_region(&source, 0, 0, 5, 0).unwrap().is_empty());
}

#[test]
fn rows_without_data_are_left_out() {
    let mut source = image(3, 2, 3);
    source.pixel_data.truncate(2 * 4 + 7);
    // The second row lacks a byte, the third is not there.
    assert_eq!(
        extract_image_region(&source, 0, 0, 2, 3).unwrap(),
        vec![0, 0, 3, 255, 1, 0, 3, 255]
    );
    // The first pixel of the second row is there.
    assert_eq!(
        extract_image_region(&source, 0, 0, 1, 3).unwrap(),
        vec![0, 0, 3, 255, 0, 1, 3, 255]
    );
}

#[test]
fn a_region_beyond_the_range_does_not_fit() {
    let huge = KittyImage { id: 1, width: usize::MAX, height: 2, pixel_data: vec![] };
    assert!(region_fits(&huge, 0, 0, 1, 1));
    assert!(!region_fits(&huge, 0, 0, usize::MAX, 1));
    assert!(!region_fits(&huge, 0, 1, 1, 1));
    assert!(region_fits(&huge, 0, 2, 1, 1));
    assert!(region_fits(&huge, 0, 1, 1, 0));
    assert!(region_fits(&image(1, 4, 4), 1, 1, usize::MAX, usize::MAX));
}

#[test]
fn one_sequence_draws_a_small_image() {
    // Two opaque black pixels.
    let out = format_kitty_output(42, 2, 1, 20, 10, &[0, 0, 0, 255, 0, 0, 0, 255]);
    assert_eq!(
        out,
        "\x1b_Ga=T,f=32,s=2,v=1,w=20,h=10,i=42,m=0;AAAA/wAAAP8=\x1b\\"
    );
}

#[test]
fn no_data_is_drawn_as_nothing() {
    assert_eq!(format_kitty_output(1, 0, 0, 5, 5, &[]), "");
}

#[test]
fn base64_is_padded() {
    assert!(format_kitty_output(1, 1, 1, 1, 1, b"f").contains(";Zg==\x1b"));
    assert!(format_kitty_output(1, 1, 1, 1, 1, b"fo").contains(";Zm8=\x1b"));
    assert!(format_kitty_output(1, 1, 1, 1, 1, b"foo").contains(";Zm9v\x1b"));
    assert!(format_kitty_output(1, 1, 1, 1, 1, &[0xfb, 0xff, 0xfe]).contains(";+//+\x1b"));
}

#[test]
fn long_data_is_split_into_sequences() {
    let drawing = Drawing {
        image_id: 5,
        source_width: 1,
        source_height: 2,
        display_width: 3,
        display_height: 4,
    };
    assert_eq!(CHUNK_SIZE, 4096);
    let a = "A".repeat(4096);
    let b = "B".repeat(4096);
    let first = "\x1b_Ga=T,f=32,s=1,v=2,w=3,h=4,i=5";
    assert_eq!(
        frame_output(&drawing, &a),
        format!("{},m=0;{}\x1b\\", first, a)
    );
    let two = format!("{}{}", a, b);
    assert_eq!(
        frame_output(&drawing, &two),
        format!("{},m=1;{}\x1b\\\x1b_Gm=0;{}\x1b\\", first, a, b)
    );
    let three = format!("{}{}C", a, b);
    assert_eq!(
        frame_output(&drawing, &three),
        format!(
            "{},m=1;{}\x1b\\\x1b_Gm=1;{}\x1b\\\x1b_Gm=0;C\x1b\\",
            first, a, b
        )
    );
}

#[test]
fn an_image_is_serialized_and_cached() {
    let mut store = KittyImageStore::default();
    store.store_image(KittyImage {
        id: 7,
        width: 2,
        height: 1,
        pixel_data: vec![0, 0, 0, 255, 0, 0, 0, 255],
    });
    assert!(store.serialize_image_fits(7, 0, 0, 20, 10));
    let first = store.serialize_image(7, 0, 0, 20, 10).unwrap();
    assert_eq!(
        first,
        "\x1b_Ga=T,f=32,s=2,v=1,w=20,h=10,i=7,m=0;AAAA/wAAAP8=\x1b\\"
    );
    assert_eq!(store.serialize_image(7, 0, 0, 20, 10).unwrap(), first);
    // Another rectangle has its own data.
    assert_eq!(
        store.serialize_image(7, 1, 0, 20, 10).unwrap(),
        "\x1b_Ga=T,f=32,s=1,v=1,w=20,h=10,i=7,m=0;AAAA/w==\x1b\\"
    );
    assert_eq!(store.image_count(), 1);
}

#[test]
fn a_new_image_is_not_drawn_from_the_cache() {
    let mut store = KittyImageStore::default();
    store.store_image(KittyImage { id: 1, width: 1, height: 1, pixel_data: vec![0; 4] });
    let black = store.serialize_image(1, 0, 0, 1, 1).unwrap();
    store.store_image(KittyImage { id: 1, width: 1, height: 1, pixel_data: vec![255; 4] });
    let white = store.serialize_image(1, 0, 0, 1, 1).unwrap();
    assert!(black.contains(";AAAAAA==\x1b"));
    assert!(white.contains(";/////w==\x1b"));
}

#[test]
fn other_images_make_no_difference_to_a_drawing() {
    let mut store = KittyImageStore::default();
    store.store_image(image(1, 3, 3));
    let alone = store.serialize_image(1, 1, 1, 2, 2);
    store.store_image(image(2, 5, 5));
    store.remove_image(9);
    assert_eq!(store.serialize_image(1, 1, 1, 2, 2), alone);
}

#[test]
fn what_is_not_there_is_not_drawn() {
    let mut store = KittyImageStore::default();
    store.store_image(image(1, 3, 3));
    assert!(store.serialize_image_fits(2, 0, 0, 1, 1));
    assert!(store.serialize_image(2, 0, 0, 1, 1).is_none());
    assert!(store.serialize_image(1, 3, 0, 1, 1).is_none());
    assert!(store.serialize_image(1, 0, 3, 1, 1).is_none());
    assert_eq!(store.serialize_image(1, 0, 0, 0, 1).unwrap(), "");
    assert_eq!(store.image_count(), 1);
}

#[test]
fn a_serialization_out_of_range_is_refused_beforehand() {
    let mut store = KittyImageStore::default();
    store.store_image(KittyImage { id: 1, width: usize::MAX, height: 1, pixel_data: vec![0; 8] });
    assert!(!store.serialize_image_fits(1, 0, 0, usize::MAX, 1));
    assert!(store.serialize_image_fits(1, 0, 0, 2, 1));
}

#[test]
fn a_rectangle_is_given_by_height_and_width() {
    let rect = PixelRect::new(1, 2, 3, 4);
    assert_eq!((rect.x, rect.y, rect.height, rect.width), (1, 2, 3, 4));
}
