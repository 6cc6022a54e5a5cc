//! Palworld-specific decoders for the opaque `RawData` byte blobs the generic GVAS
//! layer can't see into. One module per blob shape. Unlisted paths are deliberately
//! left as opaque bytes.

pub mod character;
pub mod character_container;
pub mod dynamic_item;
pub mod error;
pub mod group;
pub mod item_container;
