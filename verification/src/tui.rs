//! The terminal capability that the application is written against, and the
//! error type its operations report.

use vstd::prelude::*;

verus! {

/// A failure of the terminal: raw mode could not be toggled, or a read or
/// write on it failed. Carries the reporting crate's message.
#[derive(Debug)]
pub struct TerminalError {
    pub message: String,
}

/// Terminal user interface operations that the application needs: one
/// initialization, a prompt prefix, one line of edited input, and plain
/// text output with or without a following line break.
pub trait Tui {
    fn init(&mut self) -> Result<(), TerminalError>;

    fn get_start_of_line(&self) -> String;

    fn get_expression(&mut self, history: &Vec<String>) -> Result<String, TerminalError>;

    fn display_text(&mut self, text: &String) -> Result<(), TerminalError>;

    fn display_text_with_new_line(&mut self, text: &String) -> Result<(), TerminalError>;
}

} // verus!
