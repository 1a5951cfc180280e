//! Turns the data of a command into an image.

use crate::codec::{
    base64_bytes, base64_decode, lemma_decodes_to, png_decode, png_picture, zlib_bytes, zlib_decode, Picture,
};
use crate::control::utf8_str;
use crate::store::covers;
use crate::types::{
    opt_image_view, ImageView, KittyCommand, KittyControlData, KittyFormat, KittyImage,
    TransmissionMedium,
};
use vstd::prelude::*;
use vstd::slice::slice_subrange;
use vstd::utf8::{decode_utf8, valid_utf8};

verus! {

/// A number that a command leads to does not fit in a machine integer.
#[derive(Debug, Clone, Copy, PartialEq, Eq, Structural)]
pub struct OutOfRange;

/// Whether the size in bytes that the control data announces fits in a `usize`.
pub open spec fn size_in_range(control: KittyControlData, bytes_per_pixel: int) -> bool {
    match (control.width, control.height) {
        (Some(width), Some(height)) => width * height * bytes_per_pixel <= usize::MAX,
        _ => true,
    }
}

/// RGB pixels with an opaque alpha behind each. Bytes behind the last whole pixel are
/// dropped.
pub open spec fn rgba_of_rgb(data: Seq<u8>) -> Seq<u8> {
    Seq::new(
        data.len() / 3 * 4,
        |i: int|
            if i % 4 == 3 {
                255
            } else {
                data[i / 4 * 3 + i % 4]
            },
    )
}

/// The image that RGB data gives: all of its pixels, which must be enough for the size that
/// the control data announces.
pub open spec fn rgb_image(data: Seq<u8>, control: KittyControlData) -> Option<ImageView> {
    match (control.width, control.height) {
        (Some(width), Some(height)) => if data.len() < width * height * 3 {
            None
        } else {
            Some(ImageView { id: 0, width, height, pixels: rgba_of_rgb(data) })
        },
        _ => None,
    }
}

/// The image that RGBA data gives: as many bytes as the size needs that the control data
/// announces.
pub open spec fn rgba_image(data: Seq<u8>, control: KittyControlData) -> Option<ImageView> {
    match (control.width, control.height) {
        (Some(width), Some(height)) => if data.len() < width * height * 4 {
            None
        } else {
            Some(ImageView { id: 0, width, height, pixels: data.take(width * height * 4) })
        },
        _ => None,
    }
}

/// The image that a decoded PNG file gives.
pub open spec fn png_image(picture: Option<(u32, u32, Seq<u8>)>) -> Option<ImageView> {
    match picture {
        Some((width, height, pixels)) => Some(
            ImageView { id: 0, width: width as usize, height: height as usize, pixels },
        ),
        None => None,
    }
}

/// The image that uncompressed data gives in the format that the control data names. An
/// announced size that is out of range is told apart from data that gives no image.
pub open spec fn pixel_image(control: KittyControlData, data: Seq<u8>) -> Result<
    Option<ImageView>,
    OutOfRange,
> {
    match control.format {
        KittyFormat::Png => Ok(png_image(png_picture(data))),
        KittyFormat::Rgb24 => if size_in_range(control, 3) {
            Ok(rgb_image(data, control))
        } else {
            Err(OutOfRange)
        },
        KittyFormat::Rgba32 => if size_in_range(control, 4) {
            Ok(rgba_image(data, control))
        } else {
            Err(OutOfRange)
        },
    }
}

/// The image that data gives, which is inflated first if the control data says so.
pub open spec fn decoded_image(control: KittyControlData, data: Seq<u8>) -> Result<
    Option<ImageView>,
    OutOfRange,
> {
    if control.compression == Some('z') {
        match zlib_bytes(data) {
            Some(data) => pixel_image(control, data),
            None => Ok(None),
        }
    } else {
        pixel_image(control, data)
    }
}

/// What a decoding attempt gives.
pub open spec fn decode_view(image: Result<Option<KittyImage>, OutOfRange>) -> Result<
    Option<ImageView>,
    OutOfRange,
> {
    match image {
        Ok(image) => Ok(opt_image_view(image)),
        Err(e) => Err(e),
    }
}

/// Decodes raw RGB data.
pub fn decode_rgb(data: &[u8], control: &KittyControlData) -> (image: Option<KittyImage>)
    requires
        size_in_range(*control, 3),
    ensures
        opt_image_view(image) == rgb_image(data@, *control),
        image is Some ==> covers(image.unwrap()@),
{
    let width = match control.width {
        Some(width) => width,
        None => return None,
    };
    let height = match control.height {
        Some(height) => height,
        None => return None,
    };
    proof {
        assert(0 <= width * height <= width * height * 3) by (nonlinear_arith)
            requires
                0 <= width,
                0 <= height,
        ;
    }
    if data.len() < width * height * 3 {
        return None;
    }
    // Convert RGB to RGBA
    let pixels: usize = data.len() / 3;
    let mut rgba: Vec<u8> = Vec::new();
    let mut i: usize = 0;
    while i < pixels
        invariant
            i <= pixels,
            pixels == data@.len() / 3,
            data@.len() <= usize::MAX,
            rgba@ == rgba_of_rgb(data@).take(4 * i),
        decreases pixels - i,
    {
        rgba.push(data[3 * i]);  // R
        rgba.push(data[3 * i + 1]);  // G
        rgba.push(data[3 * i + 2]);  // B
        rgba.push(255);  // A
        i += 1;
        assert(rgba@ =~= rgba_of_rgb(data@).take(4 * i));
    }
    assert(rgba@ =~= rgba_of_rgb(data@));
    let image = KittyImage {
        id: 0,  // Will be assigned later
        width,
        height,
        pixel_data: rgba,
    };
    assert(covers(image@));
    Some(image)
}

/// Decodes raw RGBA data.
pub fn decode_rgba(data: &[u8], control: &KittyControlData) -> (image: Option<KittyImage>)
    requires
        size_in_range(*control, 4),
    ensures
        opt_image_view(image) == rgba_image(data@, *control),
        image is Some ==> covers(image.unwrap()@),
{
    let width = match control.width {
        Some(width) => width,
        None => return None,
    };
    let height = match control.height {
        Some(height) => height,
        None => return None,
    };
    proof {
        assert(0 <= width * height <= width * height * 4) by (nonlinear_arith)
            requires
                0 <= width,
                0 <= height,
        ;
    }
    let size: usize = width * height * 4;
    if data.len() < size {
        return None;
    }
    let mut pixel_data: Vec<u8> = Vec::new();
    let pixels = slice_subrange(data, 0, size);
    pixel_data.extend_from_slice(pixels);
    assert(pixel_data@ =~= data@.take(size as int));
    Some(KittyImage { id: 0, width, height, pixel_data })
}

/// The image of a decoded PNG file.
pub fn picture_image(picture: Option<Picture>) -> (image: Option<KittyImage>)
    ensures
        opt_image_view(image) == png_image(
            match picture {
                Some(p) => Some((p.width, p.height, p.pixels@)),
                None => None,
            },
        ),
{
    match picture {
        Some(picture) => Some(
            KittyImage {
                id: 0,  // Will be assigned later
                width: picture.width as usize,
                height: picture.height as usize,
                pixel_data: picture.pixels,
            },
        ),
        None => None,
    }
}

/// Decodes a PNG file.
pub fn decode_png(data: &[u8]) -> (image: Option<KittyImage>)
    ensures
        opt_image_view(image) == png_image(png_picture(data@)),
        image is Some ==> covers(image.unwrap()@),
{
    let picture = png_decode(data);
    proof {
        if picture is Some {
            let p = picture.unwrap();
            assert(p.width * p.height * 4 == 4 * p.width * p.height) by (nonlinear_arith);
        }
    }
    picture_image(picture)
}

/// Whether the size that the control data announces can be computed.
pub fn size_fits(control: &KittyControlData, bytes_per_pixel: usize) -> (fits: bool)
    requires
        bytes_per_pixel > 0,
    ensures
        fits == size_in_range(*control, bytes_per_pixel as int),
{
    match (control.width, control.height) {
        (Some(width), Some(height)) => {
            match width.checked_mul(height) {
                Some(pixels) => pixels.checked_mul(bytes_per_pixel).is_some(),
                None => {
                    assert(width * height <= width * height * bytes_per_pixel) by (nonlinear_arith)
                        requires
                            0 <= width,
                            0 <= height,
                            0 < bytes_per_pixel,
                    ;
                    false
                },
            }
        },
        _ => true,
    }
}

/// Decodes uncompressed data in the format that the control data names.
pub fn decode_pixels(control: &KittyControlData, data: &[u8]) -> (image: Result<
    Option<KittyImage>,
    OutOfRange,
>)
    ensures
        decode_view(image) == pixel_image(*control, data@),
        image matches Ok(Some(image)) ==> covers(image@),
{
    match control.format {
        KittyFormat::Png => Ok(decode_png(data)),
        KittyFormat::Rgb24 => {
            if size_fits(control, 3) {
                Ok(decode_rgb(data, control))
            } else {
                Err(OutOfRange)
            }
        },
        KittyFormat::Rgba32 => {
            if size_fits(control, 4) {
                Ok(decode_rgba(data, control))
            } else {
                Err(OutOfRange)
            }
        },
    }
}

/// Decodes the data of an image: inflates it if the control data says so, then decodes it in
/// the format that the control data names.
pub fn decode_image(control: &KittyControlData, raw_data: &[u8]) -> (image: Result<
    Option<KittyImage>,
    OutOfRange,
>)
    ensures
        decode_view(image) == decoded_image(*control, raw_data@),
        image matches Ok(Some(image)) ==> covers(image@),
{
    match control.compression {
        Some('z') => {
            match zlib_decode(raw_data) {
                Some(data) => decode_pixels(control, data.as_slice()),
                None => Ok(None),
            }
        },
        _ => decode_pixels(control, raw_data),
    }
}

/// Where the data of an image is
#[derive(Debug, Clone)]
pub enum ImageSource {
    /// In the command
    Data(Vec<u8>),
    /// In a file, which is to be deleted after it was read or not
    File { path: String, delete_after_read: bool },
    /// Nowhere that it can be had from
    Unavailable,
}

/// What an [`ImageSource`] says.
#[verifier::ext_equal]
pub enum SourceView {
    Data(Seq<u8>),
    File { path: Seq<char>, delete_after_read: bool },
    Unavailable,
}

impl View for ImageSource {
    type V = SourceView;

    open spec fn view(&self) -> SourceView {
        match *self {
            ImageSource::Data(data) => SourceView::Data(data@),
            ImageSource::File { path, delete_after_read } => SourceView::File {
                path: path@,
                delete_after_read,
            },
            ImageSource::Unavailable => SourceView::Unavailable,
        }
    }
}

/// Where the data of an image is, given what its payload decodes to: the data itself or the
/// path of a file.
pub open spec fn source_of(medium: TransmissionMedium, content: Option<Seq<u8>>) -> SourceView {
    match content {
        None => SourceView::Unavailable,
        Some(content) => match medium {
            TransmissionMedium::Direct => SourceView::Data(content),
            TransmissionMedium::File => if valid_utf8(content) {
                SourceView::File { path: decode_utf8(content), delete_after_read: false }
            } else {
                SourceView::Unavailable
            },
            TransmissionMedium::TempFile => if valid_utf8(content) {
                SourceView::File { path: decode_utf8(content), delete_after_read: true }
            } else {
                SourceView::Unavailable
            },
            // Shared memory not supported yet
            TransmissionMedium::SharedMemory => SourceView::Unavailable,
        },
    }
}

/// Finds the data of an image, given what its payload decodes to.
pub fn source_from(medium: TransmissionMedium, content: Option<Vec<u8>>) -> (source: ImageSource)
    ensures
        source@ == source_of(medium, crate::types::opt_bytes_view(content)),
{
    let content = match content {
        Some(content) => content,
        None => return ImageSource::Unavailable,
    };
    let delete_after_read = match medium {
        TransmissionMedium::Direct => return ImageSource::Data(content),
        TransmissionMedium::File => false,
        TransmissionMedium::TempFile => true,
        TransmissionMedium::SharedMemory => return ImageSource::Unavailable,
    };
    match utf8_str(content.as_slice()) {
        Some(path) => ImageSource::File { path: path.to_owned(), delete_after_read },
        None => ImageSource::Unavailable,
    }
}

/// Finds the data of the image that a command transmits. The payload is in base64.
pub fn image_source(cmd: &KittyCommand) -> (source: ImageSource)
    ensures
        source@ == source_of(cmd.control.transmission, base64_bytes(cmd.payload@)),
{
    let content = base64_decode(cmd.payload.as_slice());
    proof {
        if content is Some {
            lemma_decodes_to(cmd.payload@, content.unwrap()@);
        }
    }
    source_from(cmd.control.transmission, content)
}

} // verus!
