//! Keeps images, and cuts regions out of them to be drawn.

use crate::codec::{base64_fits, base64_len, base64_text};
use crate::output::{format_kitty_output, kitty_output, Drawing};
use crate::types::{ImageView, KittyImage, PixelRect};
use std::collections::HashMap;
use vstd::prelude::*;
use vstd::slice::slice_subrange;

verus! {

broadcast use vstd::std_specs::hash::group_hash_axioms;

/// The smaller of two numbers.
pub open spec fn smaller(a: int, b: int) -> int {
    if a < b {
        a
    } else {
        b
    }
}

/// `width` pixels of a row, from the column `x` on, or nothing if the image holds no data
/// for all of them.
pub open spec fn row_part(image: ImageView, row: int, x: int, width: int) -> Seq<u8> {
    let start = (row * image.width + x) * 4;
    let end = start + width * 4;
    if end <= image.pixels.len() {
        image.pixels.subrange(start, end)
    } else {
        Seq::empty()
    }
}

/// The parts of `n` rows from `y` on, one after the other.
pub open spec fn row_parts(image: ImageView, x: int, y: int, width: int, n: nat) -> Seq<u8>
    decreases n,
{
    if n == 0 {
        Seq::empty()
    } else {
        row_parts(image, x, y, width, (n - 1) as nat) + row_part(image, y + n - 1, x, width)
    }
}

/// The part of an image that a rectangle covers. A rectangle that begins outside the image
/// covers nothing; one that ends outside covers what lies within.
pub open spec fn region(image: ImageView, rect: PixelRect) -> Option<Seq<u8>> {
    if rect.x >= image.width || rect.y >= image.height {
        None
    } else {
        Some(
            row_parts(
                image,
                rect.x as int,
                rect.y as int,
                smaller(rect.width as int, image.width - rect.x),
                smaller(rect.height as int, image.height - rect.y) as nat,
            ),
        )
    }
}

/// Whether the offset behind the last pixel of a region can be computed.
pub open spec fn region_in_range(image: ImageView, rect: PixelRect) -> bool {
    let width = smaller(rect.width as int, image.width - rect.x);
    let height = smaller(rect.height as int, image.height - rect.y);
    rect.x < image.width && rect.y < image.height && height > 0 ==> ((rect.y + height - 1)
        * image.width + rect.x + width) * 4 <= usize::MAX
}

/// Extract a region from an image as RGBA bytes
pub fn extract_image_region(
    image: &KittyImage,
    x: usize,
    y: usize,
    width: usize,
    height: usize,
) -> (data: Option<Vec<u8>>)
    requires
        region_in_range(image@, PixelRect { x, y, width, height }),
    ensures
        match data {
            Some(data) => region(image@, PixelRect { x, y, width, height }) == Some(data@),
            None => region(image@, PixelRect { x, y, width, height }) is None,
        },
{
    if x >= image.width || y >= image.height {
        return None;
    }
    let actual_width = if width < image.width - x {
        width
    } else {
        image.width - x
    };
    let actual_height = if height < image.height - y {
        height
    } else {
        image.height - y
    };
    let mut data: Vec<u8> = Vec::new();
    let mut i: usize = 0;
    while i < actual_height
        invariant
            i <= actual_height,
            x < image.width,
            y + actual_height <= image.height,
            actual_width <= image.width - x,
            actual_height > 0 ==> ((y + actual_height - 1) * image.width + x + actual_width) * 4
                <= usize::MAX,
            data@ == row_parts(image@, x as int, y as int, actual_width as int, i as nat),
        decreases actual_height - i,
    {
        let row: usize = y + i;
        proof {
            let last = y + actual_height - 1;
            assert(0 <= row * image.width <= last * image.width) by (nonlinear_arith)
                requires
                    0 <= row <= last,
            ;
        }
        let row_start: usize = (row * image.width + x) * 4;
        let row_end: usize = row_start + actual_width * 4;
        if row_end <= image.pixel_data.len() {
            let part = slice_subrange(image.pixel_data.as_slice(), row_start, row_end);
            data.extend_from_slice(part);
            assert(part@ == row_part(image@, row as int, x as int, actual_width as int));
        }
        i += 1;
        assert(data@ =~= row_parts(image@, x as int, y as int, actual_width as int, i as nat));
    }
    Some(data)
}

/// Tests [`region_in_range`].
pub fn region_fits(
    image: &KittyImage,
    x: usize,
    y: usize,
    width: usize,
    height: usize,
) -> (fits: bool)
    ensures
        fits == region_in_range(image@, PixelRect { x, y, width, height }),
{
    if x >= image.width || y >= image.height {
        return true;
    }
    let actual_width = if width < image.width - x {
        width
    } else {
        image.width - x
    };
    let actual_height = if height < image.height - y {
        height
    } else {
        image.height - y
    };
    if actual_height == 0 {
        return true;
    }
    let last: usize = y + (actual_height - 1);
    proof {
        assert(0 <= last * image.width) by (nonlinear_arith)
            requires
                0 <= last,
                0 <= image.width,
        ;
    }
    let rows = match last.checked_mul(image.width) {
        Some(rows) => rows,
        None => return false,
    };
    let pixels = match rows.checked_add(x + actual_width) {
        Some(pixels) => pixels,
        None => return false,
    };
    pixels <= usize::MAX / 4
}

/// A region is not larger than its image.
pub proof fn lemma_row_parts_fit(image: ImageView, x: int, y: int, width: int, n: nat)
    requires
        0 <= x,
        0 <= y,
        0 <= width,
        x + width <= image.width,
    ensures
        row_parts(image, x, y, width, n).len() <= image.pixels.len(),
        n > 0 ==> row_parts(image, x, y, width, n).len() <= ((y + n - 1) * image.width + x + width)
            * 4,
    decreases n,
{
    if n > 0 {
        let m = (n - 1) as nat;
        lemma_row_parts_fit(image, x, y, width, m);
        assert(0 <= (y + m) * image.width) by (nonlinear_arith)
            requires
                0 <= y + m,
                0 <= image.width,
        ;
        assert((y + m) * image.width == (y + m - 1) * image.width + image.width)
            by (nonlinear_arith);
    }
}

/// Regions of one image, by their rectangles
#[derive(Debug, Clone)]
pub struct KittyImageCache {
    entries: Vec<(PixelRect, Vec<u8>)>,
}

impl KittyImageCache {
    /// Whether the cache holds regions of `image` and nothing else, each rectangle once.
    closed spec fn agrees_with(&self, image: ImageView) -> bool {
        &&& forall|i: int|
            0 <= i < self.entries@.len() ==> region(image, (#[trigger] self.entries@[i]).0) == Some(
                self.entries@[i].1@,
            )
        &&& forall|i: int, j: int|
            0 <= i < j < self.entries@.len() ==> (#[trigger] self.entries@[i]).0 != (
            #[trigger] self.entries@[j]).0
    }

    fn new() -> (cache: Self)
        ensures
            forall|image: ImageView| #[trigger] cache.agrees_with(image),
    {
        KittyImageCache { entries: Vec::new() }
    }

    /// Where the region for `rect` stands, or the length if there is none.
    fn find(&self, rect: &PixelRect) -> (at: usize)
        ensures
            at <= self.entries@.len(),
            at < self.entries@.len() ==> self.entries@[at as int].0 == *rect,
            at == self.entries@.len() ==> forall|i: int|
                0 <= i < self.entries@.len() ==> (#[trigger] self.entries@[i]).0 != *rect,
    {
        let mut i: usize = 0;
        while i < self.entries.len() && self.entries[i].0 != *rect
            invariant
                i <= self.entries@.len(),
                forall|j: int| 0 <= j < i ==> (#[trigger] self.entries@[j]).0 != *rect,
            decreases self.entries@.len() - i,
        {
            i += 1;
        }
        i
    }
}

/// Image store for kitty graphics
#[derive(Debug, Clone)]
pub struct KittyImageStore {
    images: HashMap<u32, (KittyImage, KittyImageCache)>,
}

/// The images of a store, by their ids.
impl View for KittyImageStore {
    type V = Map<u32, ImageView>;

    closed spec fn view(&self) -> Map<u32, ImageView> {
        self.images@.map_values(|entry: (KittyImage, KittyImageCache)| entry.0@)
    }
}

/// The sequences that draw a rectangle of an image at the size of the rectangle, if the
/// image is there and the rectangle begins within it.
pub open spec fn serialized(images: Map<u32, ImageView>, image_id: u32, rect: PixelRect) -> Option<
    Seq<char>,
> {
    if !images.contains_key(image_id) {
        None
    } else {
        match region(images[image_id], rect) {
            None => None,
            Some(data) => Some(
                kitty_output(
                    Drawing {
                        image_id,
                        source_width: smaller(
                            rect.width as int,
                            images[image_id].width - rect.x,
                        ) as usize,
                        source_height: smaller(
                            rect.height as int,
                            images[image_id].height - rect.y,
                        ) as usize,
                        display_width: rect.width,
                        display_height: rect.height,
                    },
                    base64_text(data),
                ),
            ),
        }
    }
}

/// Whether a region of an image can be computed and encoded.
pub open spec fn serializable(images: Map<u32, ImageView>, image_id: u32, rect: PixelRect) -> bool {
    images.contains_key(image_id) ==> {
        &&& region_in_range(images[image_id], rect)
        &&& region(images[image_id], rect) matches Some(data) ==> base64_len(data.len())
            <= isize::MAX
    }
}

/// The images that stay when some are deleted: all or one by its id; other kinds of deletion
/// concern placements alone.
pub open spec fn images_after_delete(
    images: Map<u32, ImageView>,
    delete_type: char,
    id: Option<u32>,
) -> Map<u32, ImageView> {
    if delete_type == 'a' || delete_type == 'A' {
        Map::empty()
    } else if (delete_type == 'i' || delete_type == 'I') && id is Some {
        images.remove(id.unwrap())
    } else {
        images
    }
}

/// Whether `id` is the first id from `next` on that no image has.
pub open spec fn is_free_id(images: Map<u32, ImageView>, next: u32, id: u32) -> bool {
    &&& next <= id
    &&& !images.contains_key(id)
    &&& forall|k: u32| next <= k < id ==> #[trigger] images.contains_key(k)
}

/// The first id from `next` on that no image has, if it is below the last of all.
pub open spec fn free_id(images: Map<u32, ImageView>, next: u32) -> Option<u32> {
    if exists|id: u32| id < u32::MAX && is_free_id(images, next, id) {
        Some(choose|id: u32| id < u32::MAX && is_free_id(images, next, id))
    } else {
        None
    }
}

/// There is only one free id that is the first.
pub proof fn lemma_free_id(images: Map<u32, ImageView>, next: u32, id: u32)
    requires
        is_free_id(images, next, id),
        id < u32::MAX,
    ensures
        free_id(images, next) == Some(id),
{
    let found = free_id(images, next).unwrap();
    if found < id {
        assert(images.contains_key(found));
    }
    if id < found {
        assert(images.contains_key(id));
    }
}

impl Default for KittyImageStore {
    fn default() -> (store: Self)
        ensures
            store.wf(),
            store@ == Map::<u32, ImageView>::empty(),
    {
        let store = KittyImageStore { images: HashMap::new() };
        assert(store@ =~= Map::<u32, ImageView>::empty());
        store
    }
}

impl KittyImageStore {
    /// Each image is kept under its own id, with regions of itself only.
    pub closed spec fn wf(&self) -> bool {
        forall|id: u32| #[trigger]
            self.images@.contains_key(id) ==> {
                &&& self.images@[id].0.id == id
                &&& self.images@[id].1.agrees_with(self.images@[id].0@)
            }
    }

    /// A store holds finitely many images.
    pub proof fn lemma_finite(&self)
        ensures
            self@.dom().finite(),
    {
        assert(self@.dom() =~= self.images@.dom());
    }

    /// Store a new image
    pub fn store_image(&mut self, image: KittyImage)
        requires
            old(self).wf(),
        ensures
            final(self).wf(),
            final(self)@ == old(self)@.insert(image.id, image@),
            final(self)@.dom().finite(),
            final(self)@.len() == old(self)@.len() + (if old(self)@.contains_key(image.id) {
                0int
            } else {
                1
            }),
    {
        proof {
            self.lemma_finite();
        }
        let id = image.id;
        self.images.insert(id, (image, KittyImageCache::new()));
        assert(self@ =~= old(self)@.insert(image.id, image@));
    }

    /// Get an image by ID
    pub fn get_image(&self, id: u32) -> (image: Option<&KittyImage>)
        requires
            self.wf(),
        ensures
            match image {
                Some(image) => self@.contains_key(id) && image@ == self@[id] && image.id == id,
                None => !self@.contains_key(id),
            },
    {
        match self.images.get(&id) {
            Some(entry) => Some(&entry.0),
            None => None,
        }
    }

    /// The first id from `next` on that no image has, if it is below the last of all.
    pub fn next_free_id(&self, next: u32) -> (free: Option<u32>)
        requires
            self.wf(),
        ensures
            free == free_id(self@, next),
            free matches Some(id) ==> id < u32::MAX && is_free_id(self@, next, id),
    {
        let mut id: u32 = next;
        while id < u32::MAX
            invariant
                self.wf(),
                next <= id,
                forall|k: u32| next <= k < id ==> #[trigger] self@.contains_key(k),
            decreases u32::MAX - id,
        {
            if self.get_image(id).is_none() {
                proof {
                    lemma_free_id(self@, next, id);
                }
                return Some(id);
            }
            id += 1;
        }
        None
    }

    /// Remove an image
    pub fn remove_image(&mut self, id: u32)
        requires
            old(self).wf(),
        ensures
            final(self).wf(),
            final(self)@ == old(self)@.remove(id),
            final(self)@.dom().finite(),
            final(self)@.len() == old(self)@.len() - (if old(self)@.contains_key(id) {
                1int
            } else {
                0
            }),
    {
        proof {
            self.lemma_finite();
        }
        self.images.remove(&id);
        assert(self@ =~= old(self)@.remove(id));
    }

    /// Delete images based on delete type
    pub fn delete(&mut self, delete_type: char, id: Option<u32>)
        requires
            old(self).wf(),
        ensures
            final(self).wf(),
            final(self)@ == images_after_delete(old(self)@, delete_type, id),
            final(self)@.dom().finite(),
    {
        proof {
            self.lemma_finite();
        }
        match delete_type {
            'a' | 'A' => {
                self.images.clear();
                assert(self@ =~= Map::<u32, ImageView>::empty());
            },
            'i' | 'I' => {
                if let Some(id) = id {
                    self.remove_image(id);
                }
            },
            _ => {},
        }
    }

    /// Serialize an image region to kitty graphics format for output
    /// pixel_x/y: offset within the source image
    /// pixel_width/height: the display dimensions (how large to render)
    pub fn serialize_image(
        &mut self,
        image_id: u32,
        pixel_x: usize,
        pixel_y: usize,
        pixel_width: usize,
        pixel_height: usize,
    ) -> (out: Option<String>)
        requires
            old(self).wf(),
            serializable(
                old(self)@,
                image_id,
                PixelRect { x: pixel_x, y: pixel_y, width: pixel_width, height: pixel_height },
            ),
        ensures
            final(self).wf(),
            final(self)@ == old(self)@,
            match out {
                Some(out) => serialized(
                    old(self)@,
                    image_id,
                    PixelRect { x: pixel_x, y: pixel_y, width: pixel_width, height: pixel_height },
                ) == Some(out@),
                None => serialized(
                    old(self)@,
                    image_id,
                    PixelRect { x: pixel_x, y: pixel_y, width: pixel_width, height: pixel_height },
                ) is None,
            },
    {
        let rect = PixelRect::new(pixel_x, pixel_y, pixel_height, pixel_width);
        let (image, mut cache) = match self.images.remove(&image_id) {
            Some(entry) => entry,
            None => {
                assert(self@ =~= old(self)@);
                return None;
            },
        };
        // Actual source dimensions (may be smaller than display if image is smaller)
        let width_left = image.width.saturating_sub(pixel_x);
        let height_left = image.height.saturating_sub(pixel_y);
        let source_width = if pixel_width < width_left {
            pixel_width
        } else {
            width_left
        };
        let source_height = if pixel_height < height_left {
            pixel_height
        } else {
            height_left
        };
        let at = cache.find(&rect);
        if at == cache.entries.len() {
            let region = extract_image_region(&image, pixel_x, pixel_y, pixel_width, pixel_height);
            if let Some(data) = region {
                cache.entries.push((rect, data));
            }
        }
        let out = if at < cache.entries.len() {
            let data = cache.entries[at].1.as_slice();
            Some(
                format_kitty_output(
                    image_id,
                    source_width,
                    source_height,
                    pixel_width,
                    pixel_height,
                    data,
                ),
            )
        } else {
            None
        };
        self.images.insert(image_id, (image, cache));
        assert(self@ =~= old(self)@);
        out
    }

    /// Tests whether [`KittyImageStore::serialize_image`] can be called.
    pub fn serialize_image_fits(
        &self,
        image_id: u32,
        pixel_x: usize,
        pixel_y: usize,
        pixel_width: usize,
        pixel_height: usize,
    ) -> (fits: bool)
        requires
            self.wf(),
        ensures
            fits == serializable(
                self@,
                image_id,
                PixelRect { x: pixel_x, y: pixel_y, width: pixel_width, height: pixel_height },
            ),
    {
        let image = match self.get_image(image_id) {
            Some(image) => image,
            None => return true,
        };
        if !region_fits(image, pixel_x, pixel_y, pixel_width, pixel_height) {
            return false;
        }
        if pixel_x >= image.width || pixel_y >= image.height {
            return true;
        }
        if base64_fits(image.pixel_data.len()) {
            proof {
                lemma_row_parts_fit(
                    image@,
                    pixel_x as int,
                    pixel_y as int,
                    smaller(pixel_width as int, image.width - pixel_x),
                    smaller(pixel_height as int, image.height - pixel_y) as nat,
                );
            }
            return true;
        }
        match extract_image_region(image, pixel_x, pixel_y, pixel_width, pixel_height) {
            Some(data) => base64_fits(data.len()),
            None => true,
        }
    }

    pub fn image_count(&self) -> (count: usize)
        requires
            self.wf(),
        ensures
            self@.dom().finite(),
            count == self@.len(),
    {
        proof {
            self.lemma_finite();
        }
        assert(self@.dom() =~= self.images@.dom());
        self.images.len()
    }
}

/// Whether there is data for every pixel of an image.
pub open spec fn covers(image: ImageView) -> bool {
    image.width * image.height * 4 <= image.pixels.len()
}

proof fn lemma_row_parts_are_rows(image: ImageView, x: int, y: int, width: int, n: nat)
    requires
        covers(image),
        0 <= x,
        0 <= y,
        0 <= width,
        x + width <= image.width,
        y + n <= image.height,
    ensures
        row_parts(image, x, y, width, n).len() == n * width * 4,
        forall|r: int, j: int|
            #![trigger row_parts(image, x, y, width, n)[r * width * 4 + j]]
            0 <= r < n && 0 <= j < width * 4 ==> row_parts(image, x, y, width, n)[r * width * 4 + j]
                == image.pixels[((y + r) * image.width + x) * 4 + j],
    decreases n,
{
    if n > 0 {
        let m = (n - 1) as nat;
        lemma_row_parts_are_rows(image, x, y, width, m);
        let front = row_parts(image, x, y, width, m);
        let whole = row_parts(image, x, y, width, n);
        let row = y + m;
        let start = (row * image.width + x) * 4;
        assert((row * image.width + x + width) * 4 <= image.pixels.len()) by (nonlinear_arith)
            requires
                x + width <= image.width,
                row + 1 <= image.height,
                image.width * image.height * 4 <= image.pixels.len(),
                0 <= image.width,
        ;
        assert(0 <= row * image.width) by (nonlinear_arith)
            requires
                0 <= row,
                0 <= image.width,
        ;
        let part = row_part(image, row, x, width);
        assert(part == image.pixels.subrange(start, start + width * 4));
        assert(n * width * 4 == m * width * 4 + width * 4) by (nonlinear_arith)
            requires
                n == m + 1,
        ;
        assert forall|r: int, j: int|
            #![trigger whole[r * width * 4 + j]]
            0 <= r < n && 0 <= j < width * 4 implies whole[r * width * 4 + j] == image.pixels[((y
            + r) * image.width + x) * 4 + j] by {
            assert(0 <= r * width * 4) by (nonlinear_arith)
                requires
                    0 <= r,
                    0 <= width,
            ;
            if r < m {
                assert(r * width * 4 + j < m * width * 4) by (nonlinear_arith)
                    requires
                        r + 1 <= m,
                        j < width * 4,
                        0 <= width,
                ;
                assert(whole[r * width * 4 + j] == front[r * width * 4 + j]);
            } else {
                assert(r == m);
                assert(whole[r * width * 4 + j] == part[j]);
            }
        }
    }
}

/// A region of an image that has data for every pixel can always be computed, and is a crop:
/// the rows of the rectangle, clipped to the image, from top to bottom, each from left to
/// right, with four bytes to a pixel.
pub proof fn lemma_region_is_a_crop(image: ImageView, rect: PixelRect)
    requires
        covers(image),
        image.pixels.len() <= usize::MAX,
        rect.x < image.width,
        rect.y < image.height,
    ensures
        region_in_range(image, rect),
        region(image, rect) is Some,
        ({
            let data = region(image, rect).unwrap();
            let width = smaller(rect.width as int, image.width - rect.x);
            let height = smaller(rect.height as int, image.height - rect.y);
            &&& data.len() == height * width * 4
            &&& forall|r: int, j: int|
                #![trigger data[r * width * 4 + j]]
                0 <= r < height && 0 <= j < width * 4 ==> data[r * width * 4 + j] == image.pixels[((
                rect.y + r) * image.width + rect.x) * 4 + j]
        }),
{
    let width = smaller(rect.width as int, image.width - rect.x);
    let height = smaller(rect.height as int, image.height - rect.y);
    lemma_row_parts_are_rows(image, rect.x as int, rect.y as int, width, height as nat);
    if height > 0 {
        let last = rect.y + height - 1;
        assert((last * image.width + rect.x + width) * 4 <= image.width * image.height * 4)
            by (nonlinear_arith)
            requires
                last + 1 <= image.height,
                rect.x + width <= image.width,
        ;
    }
}

/// Any rectangle of an image that has data for every pixel can be drawn, if the image in
/// base64 fits in memory.
pub proof fn lemma_covered_image_is_serializable(
    images: Map<u32, ImageView>,
    image_id: u32,
    rect: PixelRect,
)
    requires
        images.contains_key(image_id) ==> covers(images[image_id]) && base64_len(
            images[image_id].pixels.len(),
        ) <= isize::MAX,
    ensures
        serializable(images, image_id, rect),
{
    if images.contains_key(image_id) {
        let image = images[image_id];
        if rect.x < image.width && rect.y < image.height {
            lemma_region_is_a_crop(image, rect);
            lemma_row_parts_fit(
                image,
                rect.x as int,
                rect.y as int,
                smaller(rect.width as int, image.width - rect.x),
                smaller(rect.height as int, image.height - rect.y) as nat,
            );
        }
    }
}

/// Storing an image makes it the image of its id, whatever was there before, and leaves the
/// images of other ids alone.
pub proof fn lemma_stored_image_is_found(
    images: Map<u32, ImageView>,
    image: ImageView,
    other: u32,
)
    ensures
        images.insert(image.id, image).contains_key(image.id),
        images.insert(image.id, image)[image.id] == image,
        other != image.id ==> images.insert(image.id, image).contains_key(other)
            == images.contains_key(other),
        other != image.id && images.contains_key(other) ==> images.insert(
            image.id,
            image,
        )[other] == images[other],
{
}

/// What is drawn of an image depends on that image alone: images stored or deleted under
/// other ids make no difference.
pub proof fn lemma_drawing_depends_on_its_image(
    images: Map<u32, ImageView>,
    others: Map<u32, ImageView>,
    image_id: u32,
    rect: PixelRect,
)
    requires
        images.contains_key(image_id) == others.contains_key(image_id),
        images.contains_key(image_id) ==> images[image_id] == others[image_id],
    ensures
        serialized(images, image_id, rect) == serialized(others, image_id, rect),
{
}

/// An image that was replaced is never drawn again: what is drawn after an image was stored is
/// what a store draws that holds this image alone, whatever was stored and drawn before.
pub proof fn lemma_replaced_image_is_not_drawn(
    images: Map<u32, ImageView>,
    image: ImageView,
    rect: PixelRect,
)
    ensures
        serialized(images.insert(image.id, image), image.id, rect) == serialized(
            Map::<u32, ImageView>::empty().insert(image.id, image),
            image.id,
            rect,
        ),
        serialized(images.remove(image.id).insert(image.id, image), image.id, rect) == serialized(
            Map::<u32, ImageView>::empty().insert(image.id, image),
            image.id,
            rect,
        ),
{
}

} // verus!
