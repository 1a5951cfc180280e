//! The plain data of the protocol.

use vstd::prelude::*;

verus! {

/// Kitty graphics action types
#[derive(Debug, Clone, Copy, PartialEq, Eq, Structural)]
pub enum KittyAction {
    /// Transmit image data (a=t)
    Transmit,
    /// Transmit and display (a=T) - default
    TransmitPut,
    /// Query terminal support (a=q)
    Query,
    /// Display previously transmitted image (a=p)
    Put,
    /// Delete images (a=d)
    Delete,
    /// Transmit animation frame (a=f)
    Frame,
    /// Control animation (a=a)
    Animation,
    /// Compose frames (a=c)
    Compose,
}

impl Default for KittyAction {
    fn default() -> (action: Self)
        ensures
            action == KittyAction::TransmitPut,
    {
        KittyAction::TransmitPut
    }
}

/// Image data format
#[derive(Debug, Clone, Copy, PartialEq, Eq, Structural)]
pub enum KittyFormat {
    /// Raw RGB (f=24)
    Rgb24,
    /// Raw RGBA (f=32) - default
    Rgba32,
    /// PNG compressed (f=100)
    Png,
}

impl Default for KittyFormat {
    fn default() -> (format: Self)
        ensures
            format == KittyFormat::Rgba32,
    {
        KittyFormat::Rgba32
    }
}

/// Transmission medium
#[derive(Debug, Clone, Copy, PartialEq, Eq, Structural)]
pub enum TransmissionMedium {
    /// Direct data in escape sequence (t=d) - default
    Direct,
    /// Read from file (t=f)
    File,
    /// Read from temp file and delete (t=t)
    TempFile,
    /// Read from shared memory (t=s)
    SharedMemory,
}

impl Default for TransmissionMedium {
    fn default() -> (medium: Self)
        ensures
            medium == TransmissionMedium::Direct,
    {
        TransmissionMedium::Direct
    }
}

/// Parsed control data from a kitty graphics command
#[derive(Debug, Clone)]
pub struct KittyControlData {
    pub action: KittyAction,
    pub format: KittyFormat,
    pub transmission: TransmissionMedium,
    pub image_id: Option<u32>,
    pub image_number: Option<u32>,
    pub placement_id: Option<u32>,
    /// Source image width in pixels (s=)
    pub width: Option<usize>,
    /// Source image height in pixels (v=)
    pub height: Option<usize>,
    /// Data size in bytes (S=)
    pub data_size: Option<usize>,
    /// Data offset (O=)
    pub data_offset: Option<usize>,
    /// More data chunks coming (m=1)
    pub more_data: bool,
    /// Compression type ('z' for zlib)
    pub compression: Option<char>,
    /// Quiet mode (0-2)
    pub quiet: u8,
    /// Display X offset in pixels (x=)
    pub display_x: Option<usize>,
    /// Display Y offset in pixels (y=)
    pub display_y: Option<usize>,
    /// Display width in pixels (w=)
    pub display_width: Option<usize>,
    /// Display height in pixels (h=)
    pub display_height: Option<usize>,
    /// Columns to occupy (c=)
    pub columns: Option<usize>,
    /// Rows to occupy (r=)
    pub rows: Option<usize>,
    /// Z-index for layering (z=)
    pub z_index: Option<i32>,
    /// Delete type for delete action (d=)
    pub delete_type: Option<char>,
    /// Don't move cursor after display (C=1)
    pub cursor_movement: bool,
}

/// The control data of a command that sets no key.
pub open spec fn default_control() -> KittyControlData {
    KittyControlData {
        action: KittyAction::TransmitPut,
        format: KittyFormat::Rgba32,
        transmission: TransmissionMedium::Direct,
        image_id: None,
        image_number: None,
        placement_id: None,
        width: None,
        height: None,
        data_size: None,
        data_offset: None,
        more_data: false,
        compression: None,
        quiet: 0,
        display_x: None,
        display_y: None,
        display_width: None,
        display_height: None,
        columns: None,
        rows: None,
        z_index: None,
        delete_type: None,
        cursor_movement: false,
    }
}

impl Default for KittyControlData {
    fn default() -> (control: Self)
        ensures
            control == default_control(),
    {
        KittyControlData {
            action: KittyAction::TransmitPut,
            format: KittyFormat::Rgba32,
            transmission: TransmissionMedium::Direct,
            image_id: None,
            image_number: None,
            placement_id: None,
            width: None,
            height: None,
            data_size: None,
            data_offset: None,
            more_data: false,
            compression: None,
            quiet: 0,
            display_x: None,
            display_y: None,
            display_width: None,
            display_height: None,
            columns: None,
            rows: None,
            z_index: None,
            delete_type: None,
            cursor_movement: false,
        }
    }
}

/// A parsed kitty graphics command
#[derive(Debug, Clone)]
pub struct KittyCommand {
    pub control: KittyControlData,
    pub payload: Vec<u8>,
}

/// What a [`KittyCommand`] says.
#[verifier::ext_equal]
pub struct CommandView {
    pub control: KittyControlData,
    pub payload: Seq<u8>,
}

impl View for KittyCommand {
    type V = CommandView;

    open spec fn view(&self) -> CommandView {
        CommandView { control: self.control, payload: self.payload@ }
    }
}

/// A decoded kitty image ready for display
#[derive(Debug, Clone)]
pub struct KittyImage {
    pub id: u32,
    pub width: usize,
    pub height: usize,
    /// RGBA format
    pub pixel_data: Vec<u8>,
}

/// What a [`KittyImage`] shows: rows of RGBA pixels, top to bottom.
#[verifier::ext_equal]
pub struct ImageView {
    pub id: u32,
    pub width: usize,
    pub height: usize,
    pub pixels: Seq<u8>,
}

impl View for KittyImage {
    type V = ImageView;

    open spec fn view(&self) -> ImageView {
        ImageView {
            id: self.id,
            width: self.width,
            height: self.height,
            pixels: self.pixel_data@,
        }
    }
}

/// What an optional image shows.
pub open spec fn opt_image_view(image: Option<KittyImage>) -> Option<ImageView> {
    match image {
        Some(image) => Some(image@),
        None => None,
    }
}

/// What an optional byte string holds.
pub open spec fn opt_bytes_view(bytes: Option<Vec<u8>>) -> Option<Seq<u8>> {
    match bytes {
        Some(bytes) => Some(bytes@),
        None => None,
    }
}

/// An image placement (instance of an image at a location)
#[derive(Debug, Clone, Copy, PartialEq, Eq, Structural)]
pub struct KittyPlacement {
    pub image_id: u32,
    pub placement_id: u32,
    pub pixel_x: usize,
    pub pixel_y: isize,
    pub display_width: usize,
    pub display_height: usize,
    pub z_index: i32,
}

/// A size in pixels, of a character cell for one
#[derive(Debug, Clone, Copy, PartialEq, Eq, Structural)]
pub struct SizeInPixels {
    pub height: usize,
    pub width: usize,
}

/// A rectangle of an image
#[derive(Debug, Clone, Copy, PartialEq, Eq, Structural)]
pub struct PixelRect {
    pub x: usize,
    pub y: usize,
    pub width: usize,
    pub height: usize,
}

impl PixelRect {
    pub fn new(x: usize, y: usize, height: usize, width: usize) -> (rect: Self)
        ensures
            rect == (PixelRect { x, y, width, height }),
    {
        PixelRect { x, y, width, height }
    }
}

/// An image to draw, and the cell of the screen to draw it at
#[derive(Debug, Clone, Copy, PartialEq, Eq, Structural)]
pub struct KittyImageChunk {
    pub cell_x: usize,
    pub cell_y: usize,
    pub kitty_image_pixel_x: usize,
    pub kitty_image_pixel_y: usize,
    pub kitty_image_pixel_width: usize,
    pub kitty_image_pixel_height: usize,
    pub kitty_image_id: u32,
    pub kitty_placement_id: u32,
}

} // verus!
