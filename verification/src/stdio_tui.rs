//! A plain standard-input adapter: one line per read, no raw mode, no
//! editing and no history recall. A fallback next to the raw-mode terminal.

use vstd::prelude::*;
use vstd::string::StringExecFns;

use crate::crossterm_tui::term_write;
use crate::text::is_line_break;
use crate::text::lemma_strip_line_breaks_clean;
use crate::text::strip_line_end;
use crate::tui::TerminalError;
use crate::tui::Tui;

verus! {

/// Relies on `std::io::Stdin::read_line`: blocks for one line of input,
/// returned with its trailing newline still attached.
#[verifier::external_body]
fn read_stdin_line() -> (r: Result<String, TerminalError>) {
    let mut line = String::new();
    match std::io::stdin().read_line(&mut line) {
        Ok(_) => Ok(line),
        Err(e) => Err(TerminalError { message: e.to_string() }),
    }
}

/// The adapter over plain standard input and output.
pub struct StdIoTui {
}

impl StdIoTui {
    /// Create the adapter.
    pub fn new() -> (r: StdIoTui) {
        StdIoTui {  }
    }

    /// The prompt prefix as text.
    fn prompt_text(&self) -> (r: String)
        ensures
            r@ == ">>> "@,
    {
        String::from_str(">>> ")
    }

    /// One line read from standard input, returned without its trailing
    /// line break, however the platform wrote it: whatever line came in,
    /// the result never ends in one.
    pub fn read_expression(&self) -> (r: Result<String, TerminalError>)
        ensures
            (r matches Ok(line) ==> (line@.len() > 0 ==> !is_line_break(line@.last()))),
    {
        let raw = read_stdin_line()?;
        let stripped = strip_line_end(raw.as_str());
        proof {
            lemma_strip_line_breaks_clean(raw@);
        }
        Ok(stripped.to_owned())
    }
}

impl Tui for StdIoTui {
    /// Plain streams need no initialization.
    fn init(&mut self) -> Result<(), TerminalError> {
        Ok(())
    }

    /// The prompt prefix written before each input line.
    fn get_start_of_line(&self) -> String {
        self.prompt_text()
    }

    /// One line of input, with its trailing line break removed. The
    /// history is not consulted: plain streams offer no recall.
    fn get_expression(&mut self, history: &Vec<String>) -> Result<String, TerminalError> {
        self.read_expression()
    }

    /// Write text on the current line.
    fn display_text(&mut self, text: &String) -> Result<(), TerminalError> {
        term_write(text.as_str())
    }

    /// Write text and end the line.
    fn display_text_with_new_line(&mut self, text: &String) -> Result<(), TerminalError> {
        term_write(text.as_str())?;
        term_write("\n")
    }
}

} // verus!
