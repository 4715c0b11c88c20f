//! Parser for the nand2tetris hardware description language.
//!
//! A document declares one chip: its name, its `IN` and `OUT` pin lists and,
//! after `PARTS:`, the parts it is built from, each wiring the part's own pins
//! to the chip's. [`parse_hdl`] turns the text into a [`Chip`], or into an
//! [`HDLParseError`] whose description shows where parsing failed and what was
//! expected there.
pub mod text;
pub mod model;
pub mod report;
pub mod grammar;
pub mod parser;
pub mod hdl;
pub mod laws;
pub mod canonical;

pub use hdl::{parse_hdl, parse_io_pins, part, pin, separator};
pub use model::{Chip, HDLParseError, Part, Pin};
