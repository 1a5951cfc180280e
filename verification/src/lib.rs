//! The kitty graphics protocol for a terminal multiplexer: the escape sequences
//! that carry images, the images and where they are shown, and the sequences that
//! draw them again.
//!
//! * [`types`] holds the plain data of the protocol.
//! * [`apc`] finds kitty graphics commands in a stream of terminal bytes.
//! * [`control`] reads the `key=value` list that heads a command, with the numbers of [`text`].
//! * [`codec`] calls the outside crates for base64, zlib and PNG.
//! * [`decode`] turns the data of a command into an image.
//! * [`store`] keeps images and cuts regions out of them.
//! * [`output`] writes a region as escape sequences.
//! * [`placement`] and [`viewport`] hold the geometry of one image on the screen,
//!   [`placements`] that of a list of them.
//! * [`grid`] runs commands and keeps the list of placements; [`reply`] writes its answers.
//! * [`laws`] states what holds of commands and placements, whatever they are;
//!   [`command_laws`], [`screen_laws`], [`image_laws`] and [`text_laws`] say what they do in
//!   terms of images, pixels, cells and characters.
//! * [`roundtrip`] shows that what [`output`] writes, [`apc`] and [`grid`] read back.
//!
//! File access is left to the caller: a command that names a file is answered with a
//! request to read it (see [`grid::CommandOutcome`]).

pub mod types;
pub mod text;
pub mod control;
pub mod apc;
pub mod codec;
pub mod output;
pub mod store;
pub mod decode;
pub mod placement;
pub mod viewport;
pub mod placements;
pub mod reply;
pub mod grid;
pub mod laws;
pub mod roundtrip;
pub mod screen_laws;
pub mod image_laws;
pub mod command_laws;
pub mod text_laws;
