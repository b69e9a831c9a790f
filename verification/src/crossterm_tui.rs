//! The raw-mode terminal adapter: key events come from `crossterm`, every
//! edit is redrawn in place, and the line-editing decisions themselves are
//! taken by [`crate::editor::LineEditor`].

use vstd::prelude::*;
use vstd::string::StrSliceExecFns;
use vstd::string::StringExecFns;

use crossterm::ExecutableCommand;

use crate::editor::editor_run;
use crate::editor::editor_step;
use crate::editor::initial_editor;
use crate::editor::EditorAction;
use crate::editor::EditorModel;
use crate::editor::Key;
use crate::editor::LineEditor;
use crate::tui::TerminalError;
use crate::tui::Tui;

verus! {

/// Relies on `crossterm::terminal::enable_raw_mode`: puts the terminal into
/// raw (unbuffered, non-echoing) input mode.
#[verifier::external_body]
fn term_enable_raw() -> (r: Result<(), TerminalError>) {
    match crossterm::terminal::enable_raw_mode() {
        Ok(()) => Ok(()),
        Err(e) => Err(TerminalError { message: e.to_string() }),
    }
}

/// Relies on `crossterm::terminal::disable_raw_mode`: returns the terminal
/// to cooperative mode.
#[verifier::external_body]
fn term_disable_raw() -> (r: Result<(), TerminalError>) {
    match crossterm::terminal::disable_raw_mode() {
        Ok(()) => Ok(()),
        Err(e) => Err(TerminalError { message: e.to_string() }),
    }
}

/// Relies on `crossterm`'s `ExecutableCommand::execute` with
/// `terminal::Clear(CurrentLine)`: clears the current terminal line.
#[verifier::external_body]
fn term_clear_line() -> (r: Result<(), TerminalError>) {
    match std::io::stdout().execute(
        crossterm::terminal::Clear(crossterm::terminal::ClearType::CurrentLine),
    ) {
        Ok(_) => Ok(()),
        Err(e) => Err(TerminalError { message: e.to_string() }),
    }
}

/// Relies on `crossterm`'s `ExecutableCommand::execute` with
/// `terminal::Clear(All)`: clears the whole screen.
#[verifier::external_body]
fn term_clear_all() -> (r: Result<(), TerminalError>) {
    match std::io::stdout().execute(
        crossterm::terminal::Clear(crossterm::terminal::ClearType::All),
    ) {
        Ok(_) => Ok(()),
        Err(e) => Err(TerminalError { message: e.to_string() }),
    }
}

/// Relies on `crossterm`'s `ExecutableCommand::execute` with
/// `cursor::MoveTo(0, 0)`: homes the terminal cursor.
#[verifier::external_body]
fn term_move_to_origin() -> (r: Result<(), TerminalError>) {
    match std::io::stdout().execute(crossterm::cursor::MoveTo(0, 0)) {
        Ok(_) => Ok(()),
        Err(e) => Err(TerminalError { message: e.to_string() }),
    }
}

/// Relies on `crossterm`'s `ExecutableCommand::execute` with
/// `cursor::MoveToColumn`: puts the terminal cursor at the given column,
/// saturated to the command's 16-bit range.
#[verifier::external_body]
fn term_move_to_column(column: usize) -> (r: Result<(), TerminalError>) {
    let clipped = if column > 65535 {
        65535u16
    } else {
        column as u16
    };
    match std::io::stdout().execute(crossterm::cursor::MoveToColumn(clipped)) {
        Ok(_) => Ok(()),
        Err(e) => Err(TerminalError { message: e.to_string() }),
    }
}

/// Relies on `crossterm`'s `ExecutableCommand::execute` with
/// `cursor::MoveLeft(1)`: moves the terminal cursor one column left.
#[verifier::external_body]
fn term_move_left_one() -> (r: Result<(), TerminalError>) {
    match std::io::stdout().execute(crossterm::cursor::MoveLeft(1)) {
        Ok(_) => Ok(()),
        Err(e) => Err(TerminalError { message: e.to_string() }),
    }
}

/// Relies on `crossterm`'s `ExecutableCommand::execute` with
/// `cursor::MoveRight(1)`: moves the terminal cursor one column right.
#[verifier::external_body]
fn term_move_right_one() -> (r: Result<(), TerminalError>) {
    match std::io::stdout().execute(crossterm::cursor::MoveRight(1)) {
        Ok(_) => Ok(()),
        Err(e) => Err(TerminalError { message: e.to_string() }),
    }
}

/// Relies on `crossterm`'s `ExecutableCommand::execute` with
/// `cursor::MoveToNextLine(1)`: moves the terminal cursor to the start of
/// the next line.
#[verifier::external_body]
fn term_move_to_next_line() -> (r: Result<(), TerminalError>) {
    match std::io::stdout().execute(crossterm::cursor::MoveToNextLine(1)) {
        Ok(_) => Ok(()),
        Err(e) => Err(TerminalError { message: e.to_string() }),
    }
}

/// Relies on `std::io::Write::write_all` and `flush` on standard output:
/// writes the text and flushes it so the user sees it before the next read.
#[verifier::external_body]
pub(crate) fn term_write(text: &str) -> (r: Result<(), TerminalError>) {
    let mut out = std::io::stdout();
    if let Err(e) = std::io::Write::write_all(&mut out, text.as_bytes()) {
        return Err(TerminalError { message: e.to_string() });
    }
    match std::io::Write::flush(&mut out) {
        Ok(()) => Ok(()),
        Err(e) => Err(TerminalError { message: e.to_string() }),
    }
}

/// Relies on `crossterm::event::read`: blocks until the terminal delivers
/// the next event; each key code is carried over variant by variant, and
/// any other event becomes `Key::Other`.
#[verifier::external_body]
fn read_key() -> (r: Result<Key, TerminalError>) {
    match crossterm::event::read() {
        Ok(crossterm::event::Event::Key(event)) => Ok(match event.code {
            crossterm::event::KeyCode::Char(c) => Key::Char(c),
            crossterm::event::KeyCode::Left => Key::Left,
            crossterm::event::KeyCode::Right => Key::Right,
            crossterm::event::KeyCode::Backspace => Key::Backspace,
            crossterm::event::KeyCode::Up => Key::Up,
            crossterm::event::KeyCode::Esc => Key::Escape,
            crossterm::event::KeyCode::Enter => Key::Enter,
            _ => Key::Other,
        }),
        Ok(_) => Ok(Key::Other),
        Err(e) => Err(TerminalError { message: e.to_string() }),
    }
}

/// Appending one key runs it on the state that the earlier keys reached.
proof fn lemma_editor_run_push(m: EditorModel, keys: Seq<Key>, key: Key, history: Seq<Seq<char>>)
    ensures
        editor_run(m, keys.push(key), history) == editor_step(
            editor_run(m, keys, history),
            key,
            history,
        ).0,
    decreases keys.len(),
{
    let ext = keys.push(key);
    assert(ext.len() == keys.len() + 1);
    if keys.len() == 0 {
        assert(ext.first() == key);
        assert(ext.drop_first() =~= Seq::<Key>::empty());
        assert(editor_run(m, ext, history) == editor_run(
            editor_step(m, key, history).0,
            Seq::<Key>::empty(),
            history,
        ));
        assert(editor_run(editor_step(m, key, history).0, Seq::<Key>::empty(), history)
            == editor_step(m, key, history).0);
        assert(editor_run(m, keys, history) == m);
    } else {
        let stepped = editor_step(m, keys.first(), history).0;
        assert(ext.first() == keys.first());
        assert(ext.drop_first() =~= keys.drop_first().push(key));
        assert(editor_run(m, ext, history) == editor_run(
            stepped,
            keys.drop_first().push(key),
            history,
        ));
        lemma_editor_run_push(stepped, keys.drop_first(), key, history);
        assert(editor_run(m, keys, history) == editor_run(stepped, keys.drop_first(), history));
    }
}

/// The terminal adapter over `crossterm`, with its prompt prefix.
pub struct CrosstermTui {
    pub start_of_line: String,
}

impl Default for CrosstermTui {
    /// A fresh adapter with the prompt `>>> `.
    fn default() -> (r: Self)
        ensures
            r.start_of_line@ == ">>> "@,
    {
        CrosstermTui { start_of_line: String::from_str(">>> ") }
    }
}

impl CrosstermTui {
    /// Redraw the current line: clear it, home the column, write prompt and
    /// text, and put the terminal cursor over the edited position.
    fn update_current_line(&self, text: &String, cursor_pos: usize) -> (r: Result<
        (),
        TerminalError,
    >) {
        term_clear_line()?;
        term_move_to_column(0)?;
        term_write(self.start_of_line.as_str())?;
        term_write(text.as_str())?;
        let prompt_len: usize = self.start_of_line.as_str().unicode_len();
        let column = if cursor_pos <= usize::MAX - prompt_len {
            cursor_pos + prompt_len
        } else {
            usize::MAX
        };
        term_move_to_column(column)?;
        Ok(())
    }

    /// The prompt prefix as text.
    fn prompt_text(&self) -> (r: String)
        ensures
            r@ == self.start_of_line@,
    {
        self.start_of_line.clone()
    }

    /// Return the terminal to cooperative mode; call on every exit path of
    /// the owning session.
    pub fn restore(&self) -> (r: Result<(), TerminalError>) {
        term_disable_raw()
    }

    /// Read one edited line: key events drive a [`LineEditor`], each
    /// effectual key is followed by exactly one redraw or cursor move, and
    /// Enter or Escape ends the entry. Whatever comes back is a line that
    /// some key sequence produces from a fresh editor. The loop carries a
    /// step budget only for its termination argument; exhausting it accepts
    /// the line as it stands.
    pub fn read_expression(&self, history: &Vec<String>) -> (r: Result<String, TerminalError>)
        ensures
            (r matches Ok(line) ==> exists|keys: Seq<Key>|
                line@ == editor_run(initial_editor(), keys, history.deep_view()).buffer),
    {
        let mut editor = LineEditor::new();
        let mut fuel: usize = usize::MAX;
        let ghost mut keys: Seq<Key> = Seq::<Key>::empty();
        loop
            invariant
                editor.wf(),
                editor.model() == editor_run(initial_editor(), keys, history.deep_view()),
            decreases fuel,
        {
            if fuel == 0 {
                break ;
            }
            fuel = fuel - 1;
            let key = match read_key() {
                Ok(k) => k,
                Err(e) => {
                    return Err(e);
                },
            };
            proof {
                lemma_editor_run_push(initial_editor(), keys, key, history.deep_view());
            }
            let act = editor.on_key(key, history);
            proof {
                keys = keys.push(key);
            }
            match act {
                EditorAction::Redraw => {
                    let shown = editor.text();
                    self.update_current_line(&shown, editor.cursor())?;
                },
                EditorAction::MoveLeft => {
                    term_move_left_one()?;
                },
                EditorAction::MoveRight => {
                    term_move_right_one()?;
                },
                EditorAction::Accept => {
                    term_move_to_next_line()?;
                    let line = editor.text();
                    proof {
                        assert(line@ == editor_run(
                            initial_editor(),
                            keys,
                            history.deep_view(),
                        ).buffer);
                    }
                    return Ok(line);
                },
                EditorAction::Cancel => {
                    term_move_to_next_line()?;
                    let line = editor.text();
                    proof {
                        assert(line@ == editor_run(
                            initial_editor(),
                            keys,
                            history.deep_view(),
                        ).buffer);
                    }
                    return Ok(line);
                },
                EditorAction::Ignore => {
                },
            }
        }
        let line = editor.text();
        proof {
            assert(line@ == editor_run(initial_editor(), keys, history.deep_view()).buffer);
        }
        Ok(line)
    }
}

impl Tui for CrosstermTui {
    /// Enter raw mode, clear the screen and home the cursor.
    fn init(&mut self) -> Result<(), TerminalError> {
        term_enable_raw()?;
        term_clear_all()?;
        term_move_to_origin()?;
        Ok(())
    }

    /// The prompt prefix written before each input line.
    fn get_start_of_line(&self) -> String {
        self.prompt_text()
    }

    /// One edited line of input.
    fn get_expression(&mut self, history: &Vec<String>) -> Result<String, TerminalError> {
        self.read_expression(history)
    }

    /// Write text on the current line.
    fn display_text(&mut self, text: &String) -> Result<(), TerminalError> {
        term_write(text.as_str())
    }

    /// Write text, then move to the start of the next line.
    fn display_text_with_new_line(&mut self, text: &String) -> Result<(), TerminalError> {
        term_write(text.as_str())?;
        term_move_to_next_line()
    }
}

} // verus!
