use std::cell::RefCell;
use std::rc::Rc;

use tazui::application::Application;
use tazui::tui::TerminalError;
use tazui::tui::Tui;

/// A scripted terminal: serves prepared input lines in order, then the exit
/// sentinel, and records everything displayed with a line break.
struct ScriptedTui {
    script: Vec<String>,
    next: usize,
    shown: Rc<RefCell<Vec<String>>>,
}

impl ScriptedTui {
    fn new(script: Vec<String>, shown: Rc<RefCell<Vec<String>>>) -> ScriptedTui {
        ScriptedTui { script, next: 0, shown }
    }
}

impl Tui for ScriptedTui {
    fn init(&mut self) -> Result<(), TerminalError> {
        Ok(())
    }

    fn get_start_of_line(&self) -> String {
        String::from(">>> ")
    }

    fn get_expression(&mut self, _history: &Vec<String>) -> Result<String, TerminalError> {
        if self.next < self.script.len() {
            let line = self.script[self.next].clone();
            self.next += 1;
            Ok(line)
        } else {
            Ok(String::from("quit"))
        }
    }

    fn display_text(&mut self, _text: &String) -> Result<(), TerminalError> {
        Ok(())
    }

    fn display_text_with_new_line(&mut self, text: &String) -> Result<(), TerminalError> {
        self.shown.borrow_mut().push(text.clone());
        Ok(())
    }
}

fn shown_value(line: &String, prefix: &str) -> f64 {
    assert!(line.starts_with(prefix));
    line[prefix.len()..].parse().unwrap()
}

#[test]
fn test_session_processes_lines_until_exit() {
    let shown: Rc<RefCell<Vec<String>>> = Rc::new(RefCell::new(Vec::new()));
    let script: Vec<String> = vec![
        String::from("t = 3.0 + 1.0"),
        String::from("s := cos(t)^2 + sin(t)^2"),
        String::from("2.0 * s + 1.0"),
        String::from(""),
        String::from("= 1"),
    ];
    let tui = ScriptedTui::new(script, Rc::clone(&shown));

    let mut app = Application::new(tui);
    assert!(app.init().is_ok());
    assert!(app.run().is_ok());

    let lines = shown.borrow();
    assert_eq!(lines.len(), 5);
    assert_eq!(lines[0], String::from("Tazui Calculator"));
    assert_eq!(lines[1], String::from("t = 4"));
    assert!((shown_value(&lines[2], "s = ") - 1.0).abs() < 1e-2);
    assert!((shown_value(&lines[3], "last = ") - 3.0).abs() < 1e-2);
    assert_eq!(
        lines[4],
        String::from("The expression is erroned, please enter a name for variable or expression")
    );
}

#[test]
fn test_session_with_no_input_only_shows_banner() {
    let shown: Rc<RefCell<Vec<String>>> = Rc::new(RefCell::new(Vec::new()));
    let tui = ScriptedTui::new(Vec::new(), Rc::clone(&shown));

    let mut app = Application::new(tui);
    assert!(app.init().is_ok());
    assert!(app.run().is_ok());

    assert_eq!(shown.borrow().len(), 1);
}
