//! An in-memory registry of game servers that announce themselves and expire
//! when they stop doing so.

pub mod address;
pub mod admission;
pub mod config;
pub mod identity;
pub mod laws;
pub mod model;
pub mod record;
pub mod registry;
pub mod response;
