//! Image data: formats, compression and where the data is.

use kitty_graphics::codec::{base64_fits, Picture};
use kitty_graphics::decode::{
    decode_image, decode_pixels, decode_png, decode_rgb, decode_rgba, image_source, picture_image,
    size_fits, source_from, ImageSource, OutOfRange,
};
use kitty_graphics::types::{
    KittyCommand, KittyControlData, KittyFormat, KittyImage, TransmissionMedium,
};
use std::io::Write;

fn sized(format: KittyFormat, width: usize, height: usize) -> KittyControlData {
    KittyControlData {
        format,
        width: Some(width),
        height: Some(height),
        ..KittyControlData::default()
    }
}

fn zlib(data: &[u8]) -> Vec<u8> {
    let mut encoder = flate2::write::ZlibEncoder::new(Vec::new(), flate2::Compression::default());
    encoder.write_all(data).unwrap();
    encoder.finish().unwrap()
}

fn png(width: u32, height: u32, rgba: Vec<u8>) -> Vec<u8> {
    let image = image::RgbaImage::from_raw(width, height, rgba).unwrap();
    let mut file = std::io::Cursor::new(Vec::new());
    image::DynamicImage::ImageRgba8(image)
        .write_to(&mut file, image::ImageOutputFormat::Png)
        .unwrap();
    file.into_inner()
}

fn decoded(result: Result<Option<KittyImage>, OutOfRange>) -> KittyImage {
    result.unwrap().unwrap()
}

#[test]
fn rgb_gets_an_opaque_alpha() {
    let control = sized(KittyFormat::Rgb24, 2, 1);
    let image = decode_rgb(&[1, 2, 3, 4, 5, 6], &control).unwrap();
    assert_eq!((image.id, image.width, image.height), (0, 2, 1));
    assert_eq!(image.pixel_data, vec![1, 2, 3, 255, 4, 5, 6, 255]);
}

#[test]
fn rgb_keeps_whole_pixels_behind_the_size() {
    let control = sized(KittyFormat::Rgb24, 1, 1);
    let image = decode_rgb(&[1, 2, 3, 4, 5, 6, 7, 8], &control).unwrap();
    assert_eq!((image.width, image.height), (1, 1));
    assert_eq!(image.pixel_data, vec![1, 2, 3, 255, 4, 5, 6, 255]);
}

#[test]
fn rgb_needs_enough_data_and_a_size() {
    let control = sized(KittyFormat::Rgb24, 2, 2);
    assert!(decode_rgb(&[0; 11], &control).is_none());
    assert!(decode_rgb(&[0; 12], &control).is_some());
    assert!(decode_rgb(&[0; 12], &KittyControlData { width: None, ..control.clone() }).is_none());
    assert!(decode_rgb(&[0; 12], &KittyControlData { height: None, ..control }).is_none());
}

#[test]
fn rgba_is_cut_to_the_size() {
    let control = sized(KittyFormat::Rgba32, 1, 2);
    let image = decode_rgba(&[1, 2, 3, 4, 5, 6, 7, 8, 9, 10], &control).unwrap();
    assert_eq!((image.id, image.width, image.height), (0, 1, 2));
    assert_eq!(image.pixel_data, vec![1, 2, 3, 4, 5, 6, 7, 8]);
}

#[test]
fn rgba_needs_enough_data_and_a_size() {
    let control = sized(KittyFormat::Rgba32, 2, 2);
    assert!(decode_rgba(&[0; 15], &control).is_none());
    assert!(decode_rgba(&[0; 16], &control).is_some());
    assert!(decode_rgba(&[0; 16], &KittyControlData { width: None, ..control.clone() }).is_none());
    assert!(decode_rgba(&[0; 16], &KittyControlData { height: None, ..control }).is_none());
}

#[test]
fn an_empty_image_has_no_pixels() {
    let image = decode_rgba(&[], &sized(KittyFormat::Rgba32, 0, 5)).unwrap();
    assert_eq!((image.width, image.height), (0, 5));
    assert!(image.pixel_data.is_empty());
}

#[test]
fn a_png_file_has_its_own_size() {
    let pixels = vec![1, 2, 3, 255, 4, 5, 6, 128, 7, 8, 9, 0, 10, 11, 12, 1, 0, 0, 0, 255, 9, 9, 9, 9];
    let file = png(3, 2, pixels.clone());
    let image = decode_png(&file).unwrap();
    assert_eq!((image.id, image.width, image.height), (0, 3, 2));
    assert_eq!(image.pixel_data, pixels);
    // The control data does not matter.
    let control = sized(KittyFormat::Png, 100, 100);
    assert_eq!(decoded(decode_image(&control, &file)).pixel_data, pixels);
}

#[test]
fn what_is_no_png_file_gives_no_image() {
    assert!(decode_png(b"not a png").is_none());
    assert!(decode_png(&[]).is_none());
    let mut file = png(2, 2, vec![7; 16]);
    file.truncate(file.len() / 2);
    assert!(decode_png(&file).is_none());
}

#[test]
fn a_grey_png_file_becomes_rgba() {
    let grey = image::GrayImage::from_raw(2, 1, vec![10, 200]).unwrap();
    let mut file = std::io::Cursor::new(Vec::new());
    image::DynamicImage::ImageLuma8(grey)
        .write_to(&mut file, image::ImageOutputFormat::Png)
        .unwrap();
    let image = decode_png(&file.into_inner()).unwrap();
    assert_eq!(image.pixel_data, vec![10, 10, 10, 255, 200, 200, 200, 255]);
}

#[test]
fn a_picture_becomes_an_image() {
    let image = picture_image(Some(Picture { width: 1, height: 2, pixels: vec![3; 8] })).unwrap();
    assert_eq!((image.id, image.width, image.height), (0, 1, 2));
    assert_eq!(image.pixel_data, vec![3; 8]);
    assert!(picture_image(None).is_none());
}

#[test]
fn the_format_decides() {
    let data = [1, 2, 3, 4, 5, 6, 7, 8];
    let rgb = decoded(decode_pixels(&sized(KittyFormat::Rgb24, 1, 1), &data));
    assert_eq!(rgb.pixel_data, vec![1, 2, 3, 255, 4, 5, 6, 255]);
    let rgba = decoded(decode_pixels(&sized(KittyFormat::Rgba32, 1, 1), &data));
    assert_eq!(rgba.pixel_data, vec![1, 2, 3, 4]);
    assert!(decode_pixels(&sized(KittyFormat::Png, 1, 1), &data).unwrap().is_none());
}

#[test]
fn compressed_data_is_inflated_first() {
    let data: Vec<u8> = (0..64).collect();
    let mut control = sized(KittyFormat::Rgba32, 4, 4);
    control.compression = Some('z');
    let image = decoded(decode_image(&control, &zlib(&data)));
    assert_eq!(image.pixel_data, data);
    // What is not a zlib stream gives no image.
    assert!(decode_image(&control, &data).unwrap().is_none());
    // Only `z` means compressed.
    control.compression = Some('y');
    assert_eq!(decoded(decode_image(&control, &data)).pixel_data, data);
}

#[test]
fn a_size_out_of_range_is_told_apart() {
    let huge = usize::MAX / 2;
    for format in [KittyFormat::Rgb24, KittyFormat::Rgba32] {
        let control = sized(format, huge, 3);
        assert_eq!(decode_image(&control, &[]).unwrap_err(), OutOfRange);
        assert!(!size_fits(&control, 3));
    }
    assert!(size_fits(&sized(KittyFormat::Rgba32, huge, 0), 4));
    assert!(size_fits(&sized(KittyFormat::Rgba32, usize::MAX / 4, 1), 4));
    assert!(!size_fits(&sized(KittyFormat::Rgba32, usize::MAX / 4 + 1, 1), 4));
    assert!(size_fits(&KittyControlData::default(), 4));
    assert!(decode_image(&sized(KittyFormat::Png, huge, 3), &[]).unwrap().is_none());
}

fn transmission(medium: TransmissionMedium, payload: &[u8]) -> KittyCommand {
    KittyCommand {
        control: KittyControlData { transmission: medium, ..KittyControlData::default() },
        payload: payload.to_vec(),
    }
}

#[test]
fn direct_data_is_base64() {
    match image_source(&transmission(TransmissionMedium::Direct, b"AAECAw==")) {
        ImageSource::Data(data) => assert_eq!(data, vec![0, 1, 2, 3]),
        _ => panic!("expected data"),
    }
    assert!(matches!(
        image_source(&transmission(TransmissionMedium::Direct, b"***")),
        ImageSource::Unavailable
    ));
}

#[test]
fn base64_may_lack_padding_and_nothing_else() {
    for (text, bytes) in [
        ("", Some(b"".to_vec())),
        ("Zg==", Some(b"f".to_vec())),
        ("Zg=", Some(b"f".to_vec())),
        ("Zg", Some(b"f".to_vec())),
        ("Zm8=", Some(b"fo".to_vec())),
        ("Zm8", Some(b"fo".to_vec())),
        ("Zm9v", Some(b"foo".to_vec())),
        ("Zm9vYmFyYg=", Some(b"foobarb".to_vec())),
        ("Zm9vYmE", Some(b"fooba".to_vec())),
        // Too much padding, padding in the middle, or alone.
        ("Zg===", None),
        ("Zm8==", None),
        ("Zm9v=", None),
        ("Zm9v====", None),
        ("Zg==Zg==", None),
        ("Z===", None),
        ("=", None),
        ("====", None),
        // One character is no byte.
        ("Z", None),
        ("Zm9vY", None),
        // Bits behind the last byte.
        ("Zh==", None),
        ("Zm9=", None),
        // Other characters.
        ("Zm 9v", None),
        ("Zm9v\n", None),
        ("Zm-_", None),
        ("Zm9\u{e4}", None),
    ] {
        let source = image_source(&transmission(TransmissionMedium::Direct, text.as_bytes()));
        match (source, bytes) {
            (ImageSource::Data(data), Some(bytes)) => assert_eq!(data, bytes, "{:?}", text),
            (ImageSource::Unavailable, None) => {}
            _ => panic!("{:?}", text),
        }
    }
}

#[test]
fn a_file_is_named_in_base64() {
    // "/tmp/ä"
    let payload = b"L3RtcC/DpA==";
    match image_source(&transmission(TransmissionMedium::File, payload)) {
        ImageSource::File { path, delete_after_read } => {
            assert_eq!(path, "/tmp/ä");
            assert!(!delete_after_read);
        }
        _ => panic!("expected a file"),
    }
    match image_source(&transmission(TransmissionMedium::TempFile, payload)) {
        ImageSource::File { path, delete_after_read } => {
            assert_eq!(path, "/tmp/ä");
            assert!(delete_after_read);
        }
        _ => panic!("expected a file"),
    }
}

#[test]
fn sources_that_cannot_be_had() {
    assert!(matches!(
        source_from(TransmissionMedium::File, Some(vec![0xff, 0xfe])),
        ImageSource::Unavailable
    ));
    assert!(matches!(
        source_from(TransmissionMedium::TempFile, None),
        ImageSource::Unavailable
    ));
    assert!(matches!(
        source_from(TransmissionMedium::SharedMemory, Some(b"name".to_vec())),
        ImageSource::Unavailable
    ));
    assert!(matches!(
        image_source(&transmission(TransmissionMedium::SharedMemory, b"bmFtZQ==")),
        ImageSource::Unavailable
    ));
}

#[test]
fn base64_text_has_to_fit_in_memory() {
    assert!(base64_fits(0));
    assert!(base64_fits(1 << 30));
    let most = isize::MAX as usize / 4 * 3;
    assert!(base64_fits(most));
    assert!(!base64_fits(most + 1));
    assert!(!base64_fits(usize::MAX));
}
