//! An editable, in-memory workspace of game content packs: JSON records
//! indexed by type and id, edited one at a time, and written back to the
//! exact array slot they were read from.

pub mod json;
pub mod text;
pub mod printer;
pub mod entity;
pub mod validation;
pub mod validator;
pub mod keys;
pub mod workspace;
pub mod save;
pub mod loader;
pub mod tree;
pub mod commands;
pub mod laws;
pub mod search;
pub mod numbers;
pub mod tileset;
pub mod palette;
pub mod terrain;
pub mod settings;
