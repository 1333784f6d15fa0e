//! A decoder for the QOI ("Quite OK Image") lossless image format.
//!
//! The decoder turns a stream of variable-length opcodes into a flat RGBA
//! buffer. Every function is specified against a mathematical model of the
//! format: [`model::decode`] says which pixels a byte sequence stands for,
//! and the executable code is proved to produce exactly those.

pub mod color;
pub mod decoder;
pub mod error;
pub mod image;
pub mod lemmas;
pub mod model;
pub mod opcode;
pub mod reader;

pub use color::Color;
pub use decoder::Decoder;
pub use error::DecodeError;
pub use image::{Header, Image};
pub use reader::Reader;
