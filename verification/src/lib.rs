//! Extraction of named table and view declaration blocks from a schema
//! description text written in a Ruby-like declarative DSL.
//!
//! The scanner walks the text once, recognises `create_table` and
//! `create_view` declarations, determines each declared name, and captures
//! the exact source span of every declaration with a depth-aware (for
//! `do ... end` blocks) or sentinel-aware (for embedded SQL literals) search
//! for the terminator.  The selector then partitions a list of requested
//! names into the definitions found and the names that match nothing.

pub mod cli;
pub mod emit;
pub mod parser;
pub mod props;
pub mod rescan;
pub mod scan;
pub mod selector;
pub mod text;
