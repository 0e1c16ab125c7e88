//! Parsing of semi-structured application log lines into records.

pub mod text;
pub mod attributes;
pub mod classify;
pub mod timestamp;
pub mod record;
