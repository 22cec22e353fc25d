//! A small terminal file viewer: syntax highlighting, diff colouring and
//! line-numbered rendering, with every step specified over character
//! sequences.

pub mod ansi;
pub mod args;
pub mod text;
pub mod highlight;
pub mod language;
pub mod numbers;
pub mod render;
pub mod diff_render;
pub mod dispatch;
pub mod git;
pub mod input;
pub mod simple;
