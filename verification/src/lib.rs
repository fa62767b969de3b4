//! Decoding and rendering of SymbolArt (SAR) files.
//!
//! A SAR file is a four-byte signature followed by a Blowfish-encrypted body
//! that may additionally be PRS-compressed. The decoded body holds a header,
//! a list of layers and a UTF-16 name. Each layer places one sprite of a tiled
//! atlas onto a quadrilateral of the canvas; layers are composited from the
//! last one up, so that the first layer ends up on top.

pub mod canvas;
pub mod decode;
pub mod draw;
pub mod payload;
pub mod resource;
pub mod result;
pub mod sa;
pub mod symbol;

pub use canvas::Canvas;
pub use draw::{RenderColor, SymbolArtDrawer};
pub use payload::{parse, Header, Layer, Layers, Payload};
pub use resource::Resource;
pub use result::SARError;
pub use sa::{Color, Position};
pub use symbol::{Symbol, SymbolGroup, SymbolId};
