//! A webhook daemon's core: launching configured hooks, supervising the
//! spawned process, and serving its status and logs.

pub mod clock;
pub mod command;
pub mod config;
pub mod error;
pub mod file;
pub mod id;
pub mod model;
pub mod range;
pub mod string_map;
pub mod supervisor;

pub use error::ApiError;
