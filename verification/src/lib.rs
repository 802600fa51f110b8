//! Carries arbitrary bytes as the cell colours of a fumen document.
//!
//! A byte stream is regrouped, bit for bit, into three-bit symbols; each
//! symbol becomes one coloured cell of a page, and a cell that holds no
//! colour of the eight-value alphabet ends the payload.

pub mod bits;
pub mod cell;
pub mod document;
pub mod grid;
pub mod laws;
pub mod packer;
pub mod page;
pub mod unpacker;
