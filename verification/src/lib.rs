//! A terminal rainbow: random characters painted in shifting colours.
//!
//! This crate holds the logic of the animation that can be stated and
//! proved: colour mixing, character sets, the parser for generator
//! configuration strings, the frame pacing decisions and the choice of
//! the next character and cell.
pub mod color_gen;
pub mod text;
pub mod config;
pub mod parser;
pub mod frame;
pub mod render;
