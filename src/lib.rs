//! Command-line argument parsing and lyrics-catalog search decisions for a
//! lyrics lookup tool, with their behaviour stated and proved.

pub mod cli;
pub mod genius;
pub mod lyrics;
pub mod text;
pub mod token;
