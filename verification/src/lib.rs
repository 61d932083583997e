//! Protocol handling and publishing decisions for a local stand-in of the
//! Deye microinverter cloud.

pub mod protocol;
pub mod text;
pub mod stream;
pub mod calendar;
pub mod config;
pub mod mqtt;
