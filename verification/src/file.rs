//! Parsers for the file formats stored inside the archive.

pub mod exd;
pub mod exl;
pub mod mdl;
pub mod zipatch;
