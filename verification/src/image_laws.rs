//! What images are made of, said of single pixels: how data becomes pixels, and which pixels a
//! drawing shows.

use crate::apc::{idle_parser, run};
use crate::codec::{ascii_bytes, base64_text, png_picture, zlib_bytes};
use crate::decode::{decoded_image, OutOfRange};
use crate::grid::{placement_id_for, GridView};
use crate::laws::run_commands;
use crate::output::{kitty_output, Drawing};
use crate::roundtrip::{commands, lemma_drawn_image_is_received};
use crate::store::{
    covers, images_after_delete, lemma_region_is_a_crop, region, region_in_range, row_part,
    row_parts, serialized, smaller,
};
use crate::types::{
    ImageView, KittyControlData, KittyFormat, KittyPlacement, PixelRect, SizeInPixels,
};
use vstd::prelude::*;

verus! {

// ---------------------------------------------------------------------------------------
// Decoding

/// Compressed data is decoded as what it inflates to; what does not inflate gives no image.
/// Anything but `z` means that the data is not compressed.
pub proof fn lemma_compression_is_undone_first(control: KittyControlData, data: Seq<u8>)
    ensures
        ({
            let plain = KittyControlData { compression: None, ..control };
            &&& control.compression != Some('z') ==> decoded_image(control, data) == decoded_image(
                plain,
                data,
            )
            &&& control.compression == Some('z') ==> match zlib_bytes(data) {
                Some(inflated) => decoded_image(control, data) == decoded_image(plain, inflated),
                None => decoded_image(control, data) == Ok::<Option<ImageView>, OutOfRange>(None),
            }
        }),
{
}

/// RGB data of `n` whole pixels gives them all, each with its three bytes and an alpha of 255
/// whatever its colour, if they are enough for the size that was announced, and gives no image
/// if they are not.
pub proof fn lemma_rgb_pixels_are_opaque(
    control: KittyControlData,
    data: Seq<u8>,
    width: usize,
    height: usize,
    n: int,
)
    requires
        control.format == KittyFormat::Rgb24,
        control.compression is None,
        control.width == Some(width),
        control.height == Some(height),
        width * height * 3 <= usize::MAX,
        3 * n <= data.len() < 3 * n + 3,
    ensures
        data.len() < width * height * 3 ==> decoded_image(control, data) == Ok::<
            Option<ImageView>,
            OutOfRange,
        >(None),
        data.len() >= width * height * 3 ==> {
            &&& decoded_image(control, data) matches Ok(Some(image))
            &&& image.id == 0
            &&& image.width == width
            &&& image.height == height
            &&& image.pixels.len() == 4 * n
            &&& forall|k: int|
                #![trigger image.pixels[4 * k]]
                0 <= k < n ==> image.pixels[4 * k] == data[3 * k] && image.pixels[4 * k + 1]
                    == data[3 * k + 1] && image.pixels[4 * k + 2] == data[3 * k + 2]
                    && image.pixels[4 * k + 3] == 255
        },
{
    assert(data.len() / 3 == n);
}

/// RGBA data gives the pixels of the size that was announced, row by row, byte for byte, if it
/// is enough, and no image if it is not. What is behind them is dropped.
pub proof fn lemma_rgba_pixels_are_kept(
    control: KittyControlData,
    data: Seq<u8>,
    width: usize,
    height: usize,
)
    requires
        control.format == KittyFormat::Rgba32,
        control.compression is None,
        control.width == Some(width),
        control.height == Some(height),
        width * height * 4 <= usize::MAX,
    ensures
        data.len() < width * height * 4 ==> decoded_image(control, data) == Ok::<
            Option<ImageView>,
            OutOfRange,
        >(None),
        data.len() >= width * height * 4 ==> {
            &&& decoded_image(control, data) matches Ok(Some(image))
            &&& image.id == 0
            &&& image.width == width
            &&& image.height == height
            &&& image.pixels.len() == width * height * 4
            &&& forall|k: int|
                0 <= k < width * height * 4 ==> #[trigger] image.pixels[k] == data[k]
        },
{
    assert(0 <= width * height * 4) by (nonlinear_arith)
        requires
            0 <= width,
            0 <= height,
    ;
}

/// RGB pixels are the RGBA pixels with the same colours and an alpha of 255.
pub proof fn lemma_rgb_is_opaque_rgba(
    control: KittyControlData,
    rgb: Seq<u8>,
    rgba: Seq<u8>,
    width: usize,
    height: usize,
)
    requires
        control.compression is None,
        control.width == Some(width),
        control.height == Some(height),
        width * height * 4 <= usize::MAX,
        rgb.len() == width * height * 3,
        rgba.len() == width * height * 4,
        forall|k: int|
            #![trigger rgba[4 * k]]
            0 <= k < width * height ==> rgba[4 * k] == rgb[3 * k] && rgba[4 * k + 1] == rgb[3 * k
                + 1] && rgba[4 * k + 2] == rgb[3 * k + 2] && rgba[4 * k + 3] == 255,
    ensures
        decoded_image(KittyControlData { format: KittyFormat::Rgb24, ..control }, rgb)
            == decoded_image(KittyControlData { format: KittyFormat::Rgba32, ..control }, rgba),
{
    let n = width * height;
    assert(0 <= n) by (nonlinear_arith)
        requires
            n == width * height,
            0 <= width,
            0 <= height,
    ;
    let a = KittyControlData { format: KittyFormat::Rgb24, ..control };
    let b = KittyControlData { format: KittyFormat::Rgba32, ..control };
    lemma_rgb_pixels_are_opaque(a, rgb, width, height, n);
    lemma_rgba_pixels_are_kept(b, rgba, width, height);
    let x = decoded_image(a, rgb).unwrap().unwrap();
    let y = decoded_image(b, rgba).unwrap().unwrap();
    assert forall|i: int| 0 <= i < x.pixels.len() implies x.pixels[i] == y.pixels[i] by {
        let k = i / 4;
        assert(x.pixels[4 * k] == rgb[3 * k]);
        assert(rgba[4 * k] == rgb[3 * k]);
        assert(y.pixels[i] == rgba[i]);
    }
    assert(x.pixels =~= y.pixels);
}

/// Raw data without a size gives no image; a size whose bytes cannot be counted is refused, and
/// no other. Neither matters to a PNG file, which gives the picture that it holds.
pub proof fn lemma_size_decides_about_raw_data(control: KittyControlData, data: Seq<u8>)
    requires
        control.compression is None,
    ensures
        control.format != KittyFormat::Png && (control.width is None || control.height is None)
            ==> decoded_image(control, data) == Ok::<Option<ImageView>, OutOfRange>(None),
        decoded_image(control, data) is Err <==> control.width is Some && control.height is Some
            && control.format != KittyFormat::Png && control.width.unwrap()
            * control.height.unwrap() * (if control.format == KittyFormat::Rgb24 {
            3int
        } else {
            4
        }) > usize::MAX,
        control.format == KittyFormat::Png ==> match png_picture(data) {
            Some(picture) => {
                &&& decoded_image(control, data) matches Ok(Some(image))
                &&& image.id == 0
                &&& image.width == picture.0
                &&& image.height == picture.1
                &&& image.pixels == picture.2
            },
            None => decoded_image(control, data) == Ok::<Option<ImageView>, OutOfRange>(None),
        },
{
}

// ---------------------------------------------------------------------------------------
// Deletion

/// Which images a deletion leaves: none for `a`, all but one for `i` with an id, and all for any
/// other kind and for `i` without an id. Case makes no difference.
pub proof fn lemma_images_that_stay(
    images: Map<u32, ImageView>,
    delete_type: char,
    id: Option<u32>,
    k: u32,
)
    ensures
        ({
            let left = images_after_delete(images, delete_type, id);
            let gone = delete_type == 'a' || delete_type == 'A' || (delete_type == 'i'
                || delete_type == 'I') && id == Some(k);
            &&& left.contains_key(k) <==> images.contains_key(k) && !gone
            &&& left.contains_key(k) ==> left[k] == images[k]
        }),
{
}

// ---------------------------------------------------------------------------------------
// Regions

/// Whether `len` is as much of `wanted` as there is behind `from`, out of `all`.
pub open spec fn clipped(len: int, wanted: int, from: int, all: int) -> bool {
    &&& len <= wanted
    &&& from + len <= all
    &&& len == wanted || from + len == all
}

/// There is a region if and only if the rectangle begins within the image.
pub proof fn lemma_region_is_there(image: ImageView, rect: PixelRect)
    ensures
        region(image, rect) is Some <==> rect.x < image.width && rect.y < image.height,
{
}

proof fn lemma_row_parts_join(
    image: ImageView,
    x: int,
    y: int,
    width: int,
    n: nat,
    m: nat,
)
    ensures
        row_parts(image, x, y, width, n + m) == row_parts(image, x, y, width, n) + row_parts(
            image,
            x,
            y + n,
            width,
            m,
        ),
    decreases m,
{
    if m == 0 {
        assert(row_parts(image, x, y, width, n) + row_parts(image, x, y + n, width, 0)
            =~= row_parts(image, x, y, width, n));
    } else {
        let k = (m - 1) as nat;
        lemma_row_parts_join(image, x, y, width, n, k);
        assert((n + m - 1) as nat == n + k);
        assert(row_parts(image, x, y, width, n + m) =~= row_parts(image, x, y, width, n)
            + row_parts(image, x, y + n, width, m));
    }
}

/// A rectangle that is cut into an upper and a lower one, both of which begin within the image,
/// gives the region of the upper one followed by that of the lower one.
pub proof fn lemma_regions_join(image: ImageView, upper: PixelRect, lower: PixelRect)
    requires
        upper.x == lower.x,
        upper.width == lower.width,
        upper.y + upper.height == lower.y,
        upper.height + lower.height <= usize::MAX,
        lower.x < image.width,
        lower.y < image.height,
    ensures
        region(
            image,
            PixelRect { height: (upper.height + lower.height) as usize, ..upper },
        ) == Some(region(image, upper).unwrap() + region(image, lower).unwrap()),
{
    lemma_row_parts_join(
        image,
        upper.x as int,
        upper.y as int,
        smaller(upper.width as int, image.width - upper.x),
        upper.height as nat,
        smaller(lower.height as int, image.height - lower.y) as nat,
    );
}

/// One row of a rectangle gives the bytes of its pixels, from left to right and no further than
/// the image, or nothing if the image lacks data for any of them.
pub proof fn lemma_region_of_one_row(image: ImageView, rect: PixelRect, width: int)
    requires
        rect.height == 1,
        rect.x < image.width,
        rect.y < image.height,
        0 <= width,
        clipped(width, rect.width as int, rect.x as int, image.width as int),
    ensures
        ({
            let start = (rect.y * image.width + rect.x) * 4;
            let row = region(image, rect).unwrap();
            if start + width * 4 <= image.pixels.len() {
                &&& row.len() == width * 4
                &&& forall|j: int| 0 <= j < width * 4 ==> #[trigger] row[j] == image.pixels[start
                    + j]
            } else {
                row.len() == 0
            }
        }),
{
    assert(0 <= rect.y * image.width) by (nonlinear_arith)
        requires
            0 <= rect.y,
            0 <= image.width,
    ;
    reveal_with_fuel(row_parts, 2);
    assert(region(image, rect).unwrap() =~= row_part(
        image,
        rect.y as int,
        rect.x as int,
        width,
    ));
}

/// What of a rectangle is outside the image makes no difference to its region.
pub proof fn lemma_region_is_clipped(
    image: ImageView,
    rect: PixelRect,
    width: usize,
    height: usize,
)
    requires
        rect.x < image.width,
        rect.y < image.height,
        clipped(width as int, rect.width as int, rect.x as int, image.width as int),
        clipped(height as int, rect.height as int, rect.y as int, image.height as int),
    ensures
        region(image, rect) == region(image, PixelRect { width, height, ..rect }),
        region_in_range(image, rect) <==> height == 0 || ((rect.y + height - 1) * image.width
            + rect.x + width) * 4 <= usize::MAX,
{
}

/// What is drawn of a rectangle is its region, whose size is that of what is inside the image,
/// shown at the size of the rectangle.
pub proof fn lemma_region_is_what_is_drawn(
    images: Map<u32, ImageView>,
    image_id: u32,
    rect: PixelRect,
    width: usize,
    height: usize,
)
    requires
        images.contains_key(image_id),
        rect.x < images[image_id].width,
        rect.y < images[image_id].height,
        clipped(width as int, rect.width as int, rect.x as int, images[image_id].width as int),
        clipped(height as int, rect.height as int, rect.y as int, images[image_id].height as int),
    ensures
        serialized(images, image_id, rect) == Some(
            kitty_output(
                Drawing {
                    image_id,
                    source_width: width,
                    source_height: height,
                    display_width: rect.width,
                    display_height: rect.height,
                },
                base64_text(region(images[image_id], rect).unwrap()),
            ),
        ),
{
}

/// Only an image that is there, in a rectangle that begins within it, is drawn.
pub proof fn lemma_what_is_drawn_is_there(
    images: Map<u32, ImageView>,
    image_id: u32,
    rect: PixelRect,
)
    ensures
        serialized(images, image_id, rect) is Some <==> images.contains_key(image_id) && rect.x
            < images[image_id].width && rect.y < images[image_id].height,
{
}

/// Whether `part` is the rectangle of `image`, pixel for pixel.
pub open spec fn shows_part(part: ImageView, image: ImageView, rect: PixelRect) -> bool {
    &&& clipped(part.width as int, rect.width as int, rect.x as int, image.width as int)
    &&& clipped(part.height as int, rect.height as int, rect.y as int, image.height as int)
    &&& part.pixels.len() == part.height * part.width * 4
    &&& forall|row: int, column: int, channel: int|
        #![trigger part.pixels[(row * part.width + column) * 4 + channel]]
        0 <= row < part.height && 0 <= column < part.width && 0 <= channel < 4
            ==> part.pixels[(row * part.width + column) * 4 + channel] == image.pixels[((rect.y
            + row) * image.width + rect.x + column) * 4 + channel]
}

/// Whoever parses and runs what a store writes to draw a rectangle of an image has, under the
/// same id, an image of just the pixels of that rectangle, shown at the cursor at the size of
/// the rectangle, and all other images as before.
pub proof fn lemma_drawing_shows_its_part(
    images: Map<u32, ImageView>,
    rect: PixelRect,
    image_id: u32,
    grid: GridView,
    other_images: Map<u32, ImageView>,
    cell_size: Option<SizeInPixels>,
    cursor_x: usize,
    cursor_y: usize,
)
    requires
        images.contains_key(image_id),
        covers(images[image_id]),
        images[image_id].pixels.len() <= usize::MAX,
        rect.x < images[image_id].width,
        rect.y < images[image_id].height,
        rect.width > 0,
        rect.height > 0,
        grid.transmission is None,
        placement_id_for(grid, image_id, None) is Some,
    ensures
        ({
            let text = serialized(images, image_id, rect).unwrap();
            let after = run_commands(
                grid,
                other_images,
                cell_size,
                commands(run(idle_parser(), ascii_bytes(text)).1),
                cursor_x,
                cursor_y,
            );
            let shown = after.grid.placements.last();
            &&& after.images.contains_key(image_id)
            &&& after.images[image_id].id == image_id
            &&& shows_part(after.images[image_id], images[image_id], rect)
            &&& after.images.remove(image_id) == other_images.remove(image_id)
            &&& shown == (KittyPlacement {
                image_id,
                placement_id: shown.placement_id,
                pixel_x: cursor_x,
                pixel_y: cursor_y as isize,
                display_width: rect.width,
                display_height: rect.height,
                z_index: 0,
            })
        }),
{
    let image = images[image_id];
    lemma_region_is_a_crop(image, rect);
    lemma_drawn_image_is_received(
        images,
        rect,
        image_id,
        grid,
        other_images,
        cell_size,
        cursor_x,
        cursor_y,
    );
    let width = smaller(rect.width as int, image.width - rect.x);
    let height = smaller(rect.height as int, image.height - rect.y);
    let data = region(image, rect).unwrap();
    let part = ImageView {
        id: image_id,
        width: width as usize,
        height: height as usize,
        pixels: data,
    };
    assert forall|row: int, column: int, channel: int|
        #![trigger part.pixels[(row * part.width + column) * 4 + channel]]
        0 <= row < part.height && 0 <= column < part.width && 0 <= channel < 4 implies
        part.pixels[(row * part.width + column) * 4 + channel] == image.pixels[((rect.y + row)
        * image.width + rect.x + column) * 4 + channel] by {
        let j = column * 4 + channel;
        assert((row * width + column) * 4 + channel == row * width * 4 + j) by (nonlinear_arith)
            requires
                j == column * 4 + channel,
        ;
        assert(data[row * width * 4 + j] == image.pixels[((rect.y + row) * image.width + rect.x)
            * 4 + j]);
    }
    let drawing = Drawing {
        image_id,
        source_width: width as usize,
        source_height: height as usize,
        display_width: rect.width,
        display_height: rect.height,
    };
    let after = crate::roundtrip::received(
        grid,
        other_images,
        cell_size,
        drawing,
        data,
        cursor_x,
        cursor_y,
    );
    assert(after.images[image_id] == part);
    assert(after.images.remove(image_id) =~= other_images.remove(image_id));
}

} // verus!
