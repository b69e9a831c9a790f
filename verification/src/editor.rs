//! The line editor: a state machine that turns a stream of key events into
//! an edited line of text, with cursor movement, in-place insertion and
//! deletion, history recall, and the exit sentinel.

use vstd::prelude::*;

use crate::text::chars_of_str;
use crate::text::chars_to_string;

verus! {

/// One key event handed to the line editor.
#[derive(Clone, Copy, Debug, PartialEq, Eq, Structural)]
pub enum Key {
    Char(char),
    Left,
    Right,
    Backspace,
    Up,
    Escape,
    Enter,
    Other,
}

/// What the terminal should do after one key was applied.
#[derive(Clone, Copy, Debug, PartialEq, Eq, Structural)]
pub enum EditorAction {
    Redraw,
    MoveLeft,
    MoveRight,
    Accept,
    Cancel,
    Ignore,
}

/// The editor's state in specification terms: the text being edited, the
/// cursor offset in characters, and how many history entries were recalled.
pub struct EditorModel {
    pub buffer: Seq<char>,
    pub cursor: int,
    pub recalled: int,
}

/// The literal line that ends the session.
pub open spec fn exit_sentinel() -> Seq<char> {
    "quit"@
}

/// The state of a freshly created editor.
pub open spec fn initial_editor() -> EditorModel {
    EditorModel { buffer: Seq::empty(), cursor: 0, recalled: 0 }
}

/// One transition of the editor: the new state and the terminal action, for
/// one key under a fixed history (newest line last).
pub open spec fn editor_step(m: EditorModel, key: Key, history: Seq<Seq<char>>) -> (
    EditorModel,
    EditorAction,
) {
    match key {
        Key::Char(c) => (
            EditorModel {
                buffer: m.buffer.insert(m.cursor, c),
                cursor: m.cursor + 1,
                recalled: m.recalled,
            },
            EditorAction::Redraw,
        ),
        Key::Left => if m.cursor > 0 {
            (
                EditorModel { buffer: m.buffer, cursor: m.cursor - 1, recalled: m.recalled },
                EditorAction::MoveLeft,
            )
        } else {
            (m, EditorAction::Ignore)
        },
        Key::Right => if m.cursor < m.buffer.len() {
            (
                EditorModel { buffer: m.buffer, cursor: m.cursor + 1, recalled: m.recalled },
                EditorAction::MoveRight,
            )
        } else {
            (m, EditorAction::Ignore)
        },
        Key::Backspace => if m.cursor > 0 {
            (
                EditorModel {
                    buffer: m.buffer.remove(m.cursor - 1),
                    cursor: m.cursor - 1,
                    recalled: m.recalled,
                },
                EditorAction::Redraw,
            )
        } else {
            (m, EditorAction::Ignore)
        },
        Key::Up => if m.recalled < history.len() {
            (
                EditorModel {
                    buffer: history[history.len() - 1 - m.recalled],
                    cursor: history[history.len() - 1 - m.recalled].len() as int,
                    recalled: m.recalled + 1,
                },
                EditorAction::Redraw,
            )
        } else {
            (m, EditorAction::Ignore)
        },
        Key::Escape => (
            EditorModel {
                buffer: exit_sentinel(),
                cursor: exit_sentinel().len() as int,
                recalled: m.recalled,
            },
            EditorAction::Cancel,
        ),
        Key::Enter => (m, EditorAction::Accept),
        Key::Other => (m, EditorAction::Ignore),
    }
}

/// The state after a whole sequence of keys, applied from `m`.
pub open spec fn editor_run(m: EditorModel, keys: Seq<Key>, history: Seq<Seq<char>>) -> EditorModel
    decreases keys.len(),
{
    if keys.len() == 0 {
        m
    } else {
        editor_run(editor_step(m, keys.first(), history).0, keys.drop_first(), history)
    }
}

/// Recall round trip: on a fresh editor, one Up press replaces the buffer
/// with the newest history line, exactly, and puts the cursor at its end.
pub proof fn lemma_up_recalls_last_line(history: Seq<Seq<char>>)
    requires
        history.len() > 0,
    ensures
        editor_step(initial_editor(), Key::Up, history).0.buffer == history.last(),
        editor_step(initial_editor(), Key::Up, history).0.cursor == history.last().len(),
        editor_step(initial_editor(), Key::Up, history).1 == EditorAction::Redraw,
{
    assert(history[history.len() - 1 - 0] == history.last());
}

/// Escape always replaces the buffer with the exit sentinel and ends the
/// entry, whatever the editor held.
pub proof fn lemma_escape_always_exits(m: EditorModel, history: Seq<Seq<char>>)
    ensures
        editor_step(m, Key::Escape, history).0.buffer == exit_sentinel(),
        editor_step(m, Key::Escape, history).1 == EditorAction::Cancel,
{
}

/// Backspace with the cursor at the start changes nothing.
pub proof fn lemma_backspace_at_start_is_no_op(m: EditorModel, history: Seq<Seq<char>>)
    requires
        m.cursor == 0,
    ensures
        (editor_step(m, Key::Backspace, history) == (m, EditorAction::Ignore)),
{
}

/// Up with an empty history changes nothing.
pub proof fn lemma_up_with_empty_history_is_no_op(m: EditorModel, history: Seq<Seq<char>>)
    requires
        0 <= m.recalled,
        history.len() == 0,
    ensures
        (editor_step(m, Key::Up, history) == (m, EditorAction::Ignore)),
{
}

/// The editor over one line of input.
pub struct LineEditor {
    buffer: Vec<char>,
    cursor: usize,
    recalled: usize,
}

impl LineEditor {
    /// The editor's state in specification terms.
    pub closed spec fn model(&self) -> EditorModel {
        EditorModel {
            buffer: self.buffer@,
            cursor: self.cursor as int,
            recalled: self.recalled as int,
        }
    }

    /// The cursor always sits inside or just after the buffer.
    pub open spec fn wf(&self) -> bool {
        0 <= self.model().cursor <= self.model().buffer.len()
    }

    /// A fresh editor: empty buffer, cursor at the start, nothing recalled.
    pub fn new() -> (r: LineEditor)
        ensures
            r.wf(),
            r.model() == initial_editor(),
    {
        let r = LineEditor { buffer: Vec::new(), cursor: 0, recalled: 0 };
        proof {
            assert(r.model().buffer =~= initial_editor().buffer);
        }
        r
    }

    /// Apply one key event, following [`editor_step`].
    pub fn on_key(&mut self, key: Key, history: &Vec<String>) -> (act: EditorAction)
        requires
            old(self).wf(),
        ensures
            final(self).wf(),
            (final(self).model(), act) == editor_step(old(self).model(), key, history.deep_view()),
    {
        match key {
            Key::Char(c) => {
                self.buffer.insert(self.cursor, c);
                let grown = self.buffer.len();
                proof {
                    assert(self.cursor < grown);
                }
                self.cursor = self.cursor + 1;
                EditorAction::Redraw
            },
            Key::Left => {
                if self.cursor > 0 {
                    self.cursor = self.cursor - 1;
                    EditorAction::MoveLeft
                } else {
                    EditorAction::Ignore
                }
            },
            Key::Right => {
                if self.cursor < self.buffer.len() {
                    self.cursor = self.cursor + 1;
                    EditorAction::MoveRight
                } else {
                    EditorAction::Ignore
                }
            },
            Key::Backspace => {
                if self.cursor > 0 {
                    self.cursor = self.cursor - 1;
                    self.buffer.remove(self.cursor);
                    EditorAction::Redraw
                } else {
                    EditorAction::Ignore
                }
            },
            Key::Up => {
                if self.recalled < history.len() {
                    let idx = history.len() - 1 - self.recalled;
                    proof {
                        assert(history.deep_view()[idx as int] == history@[idx as int]@);
                    }
                    self.buffer = chars_of_str(history[idx].as_str());
                    self.cursor = self.buffer.len();
                    self.recalled = self.recalled + 1;
                    EditorAction::Redraw
                } else {
                    EditorAction::Ignore
                }
            },
            Key::Escape => {
                self.buffer = chars_of_str("quit");
                self.cursor = self.buffer.len();
                EditorAction::Cancel
            },
            Key::Enter => EditorAction::Accept,
            Key::Other => EditorAction::Ignore,
        }
    }

    /// The edited text as a string.
    pub fn text(&self) -> (r: String)
        ensures
            r@ == self.model().buffer,
    {
        chars_to_string(&self.buffer)
    }

    /// The cursor offset, in characters.
    pub fn cursor(&self) -> (r: usize)
        ensures
            r == self.model().cursor,
    {
        self.cursor
    }
}

} // verus!
