//! An interactive terminal calculator: a store of named variables and
//! formulas around the `taz` expression evaluator, a line editor driven by
//! key events, and the session loop that composes them.

pub mod application;
pub mod calculator;
pub mod crossterm_tui;
pub mod editor;
pub mod stdio_tui;
pub mod text;
pub mod tui;
