//! An append-only, column-oriented store: typed cells framed into checksummed
//! records, one log per column, rows committed together with an auto-index.
pub mod config;
pub mod data_type;
pub mod le_bytes;
pub mod value;
pub mod cell;
pub mod column;
pub mod auto_index;
pub mod column_frame;
pub mod layout;
pub mod container;
pub mod query;
