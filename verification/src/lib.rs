//! Export of an entity store into columnar batches, one for each cluster of
//! entities that share their attributes.

pub mod arrays;
pub mod batch;
pub mod cell;
pub mod cluster;
pub mod column;
pub mod config;
pub mod diagnostics;
pub mod error;
pub mod names;
pub mod schema;
pub mod serialize;
pub mod state;
pub mod store;
pub mod text;
pub mod types;
pub mod value;

pub use config::ParquetConfig;
pub use diagnostics::{Hope, Report};
pub use error::ParquetError;
pub use serialize::serialize_world;
pub use state::ParquetState;
