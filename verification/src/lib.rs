//! Reading and writing the `.brz` world archive format and the pending
//! filesystem trees that are written into it, together with the plain data
//! types of Brickadia worlds.
pub mod codec;
pub mod errors;
pub mod le;
pub mod pending;
pub mod pending_size;
pub mod archive;
pub mod archive_wf;
pub mod archive_read;
pub mod archive_tree;
pub mod unpack;
pub mod render;
pub mod patch;
pub mod insert;
pub mod tree_view;
pub mod unsaved;
pub mod bits;
pub mod flat;
pub mod model;
pub mod logic;
pub mod entities;
pub mod brick;
pub mod mps;
pub mod global_data;
pub mod msgpack;
pub mod schema_meta;
pub mod mp_int;
pub mod value;
pub mod value_read;
pub mod value_laws;
pub mod literal;
pub mod components;
pub mod order;

pub use errors::{BrError, BrFsError, BrdbSchemaError, BrdbWorldError, BrzError};
pub mod brz;
pub mod index;
pub mod index_read;
pub mod reader;
