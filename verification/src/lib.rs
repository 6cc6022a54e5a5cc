//! Reading and editing Palworld `.sav` files: the save container, the GVAS property
//! format inside it, the game's own `RawData` blobs, and the task-level views
//! (guilds, players, Pals, inventories, migration surveys) built on top of them.
//!
//! Every decoder here either consumes its input exactly or refuses; a region that is
//! not understood is carried through as opaque bytes rather than half-parsed.

pub mod characters;
pub mod container;
pub mod edit;
pub mod guilds;
pub mod gvas;
pub mod inventory;
pub mod migrate;
pub mod rawdata;
pub mod synthetic;
pub mod text;
pub mod world;
