//! Reading, building and writing PARAM.SFO files: the sorted key/value tables
//! that describe a game or an application on PlayStation consoles.
//!
//! A [`ParamSFO`] holds a version and its [`Entries`]: for each [`Key`] one [`Data`], which
//! is a [`Value`] and the room that the file keeps for it.

pub mod bytes;
pub mod codec;
pub mod data;
pub mod entries;
pub mod error;
pub mod key;
pub mod laws;
pub mod layout;
pub mod listing;
pub mod order;
pub mod order_laws;
pub mod read_back;
mod reader;
pub mod reading_laws;
pub mod sfo;
pub mod text;
mod trailing;
pub mod value;
pub mod value_laws;
mod writer;
pub mod writing_laws;

pub use crate::data::Data;
pub use crate::entries::Entries;
pub use crate::error::{Error, FormatError, IoError};
pub use crate::key::Key;
pub use crate::sfo::{ParamSFO, VERSION_1_1};
pub use crate::value::{DataFmt, Value};
