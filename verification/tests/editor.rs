use tazui::editor::EditorAction;
use tazui::editor::Key;
use tazui::editor::LineEditor;

#[test]
fn test_insert_and_move_left_edits_in_place() {
    let mut editor = LineEditor::new();
    let history: Vec<String> = Vec::new();

    assert_eq!(editor.on_key(Key::Char('a'), &history), EditorAction::Redraw);
    assert_eq!(editor.on_key(Key::Char('b'), &history), EditorAction::Redraw);
    assert_eq!(editor.on_key(Key::Char('c'), &history), EditorAction::Redraw);
    assert_eq!(editor.on_key(Key::Left, &history), EditorAction::MoveLeft);
    assert_eq!(editor.on_key(Key::Left, &history), EditorAction::MoveLeft);
    assert_eq!(editor.on_key(Key::Char('x'), &history), EditorAction::Redraw);

    assert_eq!(editor.text(), String::from("axbc"));
    assert_eq!(editor.cursor(), 2);
}

#[test]
fn test_backspace_at_start_is_no_op() {
    let mut editor = LineEditor::new();
    let history: Vec<String> = Vec::new();

    assert_eq!(editor.on_key(Key::Backspace, &history), EditorAction::Ignore);
    assert_eq!(editor.text(), String::from(""));
    assert_eq!(editor.cursor(), 0);

    editor.on_key(Key::Char('a'), &history);
    editor.on_key(Key::Left, &history);
    assert_eq!(editor.on_key(Key::Backspace, &history), EditorAction::Ignore);
    assert_eq!(editor.text(), String::from("a"));
    assert_eq!(editor.cursor(), 0);
}

#[test]
fn test_backspace_removes_before_cursor() {
    let mut editor = LineEditor::new();
    let history: Vec<String> = Vec::new();

    editor.on_key(Key::Char('a'), &history);
    editor.on_key(Key::Char('b'), &history);
    editor.on_key(Key::Char('c'), &history);
    editor.on_key(Key::Left, &history);
    assert_eq!(editor.on_key(Key::Backspace, &history), EditorAction::Redraw);

    assert_eq!(editor.text(), String::from("ac"));
    assert_eq!(editor.cursor(), 1);
}

#[test]
fn test_up_with_empty_history_is_no_op() {
    let mut editor = LineEditor::new();
    let history: Vec<String> = Vec::new();

    assert_eq!(editor.on_key(Key::Up, &history), EditorAction::Ignore);
    assert_eq!(editor.text(), String::from(""));
    assert_eq!(editor.cursor(), 0);
}

#[test]
fn test_up_recalls_previous_lines_newest_first() {
    let mut editor = LineEditor::new();
    let history: Vec<String> = vec![String::from("first"), String::from("second")];

    assert_eq!(editor.on_key(Key::Up, &history), EditorAction::Redraw);
    assert_eq!(editor.text(), String::from("second"));
    assert_eq!(editor.cursor(), 6);

    assert_eq!(editor.on_key(Key::Up, &history), EditorAction::Redraw);
    assert_eq!(editor.text(), String::from("first"));
    assert_eq!(editor.cursor(), 5);

    assert_eq!(editor.on_key(Key::Up, &history), EditorAction::Ignore);
    assert_eq!(editor.text(), String::from("first"));
}

#[test]
fn test_up_round_trip_reproduces_accepted_line() {
    let mut editor = LineEditor::new();
    let history: Vec<String> = vec![String::from("t = 3.0 + 1.0")];

    assert_eq!(editor.on_key(Key::Up, &history), EditorAction::Redraw);
    assert_eq!(editor.text(), String::from("t = 3.0 + 1.0"));
    assert_eq!(editor.cursor(), String::from("t = 3.0 + 1.0").chars().count());
}

#[test]
fn test_escape_yields_exit_sentinel() {
    let mut editor = LineEditor::new();
    let history: Vec<String> = Vec::new();

    editor.on_key(Key::Char('x'), &history);
    editor.on_key(Key::Char('y'), &history);
    assert_eq!(editor.on_key(Key::Escape, &history), EditorAction::Cancel);
    assert_eq!(editor.text(), String::from("quit"));
}

#[test]
fn test_right_at_end_is_no_op() {
    let mut editor = LineEditor::new();
    let history: Vec<String> = Vec::new();

    editor.on_key(Key::Char('a'), &history);
    assert_eq!(editor.on_key(Key::Right, &history), EditorAction::Ignore);
    editor.on_key(Key::Left, &history);
    assert_eq!(editor.on_key(Key::Right, &history), EditorAction::MoveRight);
    assert_eq!(editor.cursor(), 1);
}

#[test]
fn test_enter_accepts_buffer_as_is() {
    let mut editor = LineEditor::new();
    let history: Vec<String> = Vec::new();

    editor.on_key(Key::Char(' '), &history);
    editor.on_key(Key::Char('a'), &history);
    assert_eq!(editor.on_key(Key::Enter, &history), EditorAction::Accept);
    assert_eq!(editor.text(), String::from(" a"));
}

#[test]
fn test_other_keys_are_ignored() {
    let mut editor = LineEditor::new();
    let history: Vec<String> = vec![String::from("x")];

    editor.on_key(Key::Char('a'), &history);
    assert_eq!(editor.on_key(Key::Other, &history), EditorAction::Ignore);
    assert_eq!(editor.text(), String::from("a"));
    assert_eq!(editor.cursor(), 1);
}

#[test]
fn test_strip_line_end_removes_trailing_breaks() {
    assert_eq!(tazui::text::strip_line_end("4 + 4\n"), "4 + 4");
    assert_eq!(tazui::text::strip_line_end("4 + 4\r\n"), "4 + 4");
    assert_eq!(tazui::text::strip_line_end("no break"), "no break");
    assert_eq!(tazui::text::strip_line_end("\n"), "");
    assert_eq!(tazui::text::strip_line_end("a\nb\n"), "a\nb");
}
