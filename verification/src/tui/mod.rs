//! The chat transcript's state and the text layout that the terminal UI draws.
pub mod app;
pub mod input;
pub mod columns;
pub mod markdown;
pub mod math;
pub mod render;
pub mod style;
pub mod table;
pub mod wrap;
