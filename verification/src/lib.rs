pub mod classify;
pub mod config;
pub mod dates;
pub mod extract;
pub mod icsgen;
pub mod pipeline;
pub mod schedule;
pub mod snapshot;
pub mod text;
