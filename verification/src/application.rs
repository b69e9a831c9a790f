//! The session that composes the pieces: it prompts through a terminal
//! capability, feeds each edited line to the calculator, prints the outcome
//! and keeps the accepted lines as history, until the exit sentinel.

use vstd::prelude::*;
use vstd::string::StringExecFns;

use crate::calculator::store_process;
use crate::calculator::CalcError;
use crate::calculator::Calculator;
use crate::calculator::ProcessStep;
use crate::editor::exit_sentinel;
use crate::tui::TerminalError;
use crate::tui::Tui;

verus! {

/// The session's state in specification terms: the calculator's two
/// namespaces and the history of accepted lines, oldest first.
pub struct SessionState {
    pub vars: Seq<(Seq<char>, Seq<char>)>,
    pub formulas: Seq<(Seq<char>, Seq<char>)>,
    pub history: Seq<Seq<char>>,
}

/// A fresh session: everything empty.
pub open spec fn initial_session() -> SessionState {
    SessionState { vars: Seq::empty(), formulas: Seq::empty(), history: Seq::empty() }
}

/// What processing one line does to a session: on success the calculator
/// moves and the line joins the history; on any error nothing changes.
pub open spec fn session_step(s: SessionState, line: Seq<char>) -> SessionState {
    match store_process(s.vars, s.formulas, line) {
        ProcessStep::Done { vars, formulas, name: _, value: _ } => SessionState {
            vars,
            formulas,
            history: s.history.push(line),
        },
        _ => s,
    }
}

/// The session after a whole sequence of processed lines.
pub open spec fn session_run(s: SessionState, lines: Seq<Seq<char>>) -> SessionState
    decreases lines.len(),
{
    if lines.len() == 0 {
        s
    } else {
        session_run(session_step(s, lines.first()), lines.drop_first())
    }
}

/// A line the driver hands to the store: non-empty and not the exit
/// sentinel — the sentinel ends the session unprocessed, empty lines are
/// skipped.
pub open spec fn processable(line: Seq<char>) -> bool {
    line.len() > 0 && line != exit_sentinel()
}

/// Whether `after` is what some sequence of processed lines, every one of
/// them processable, makes of `before`.
pub open spec fn session_reached(before: SessionState, after: SessionState) -> bool {
    exists|lines: Seq<Seq<char>>|
        (forall|i: int| 0 <= i < lines.len() ==> processable(#[trigger] lines[i])) && after
            == session_run(before, lines)
}

/// Appending one line runs it on the session that the earlier lines reached.
proof fn lemma_session_run_push(s: SessionState, lines: Seq<Seq<char>>, line: Seq<char>)
    ensures
        session_run(s, lines.push(line)) == session_step(session_run(s, lines), line),
    decreases lines.len(),
{
    let ext = lines.push(line);
    assert(ext.len() == lines.len() + 1);
    if lines.len() == 0 {
        assert(ext.first() == line);
        assert(ext.drop_first() =~= Seq::<Seq<char>>::empty());
        assert(session_run(s, ext) == session_run(session_step(s, line), Seq::<Seq<char>>::empty()));
    } else {
        let stepped = session_step(s, lines.first());
        assert(ext.first() == lines.first());
        assert(ext.drop_first() =~= lines.drop_first().push(line));
        assert(session_run(s, ext) == session_run(stepped, lines.drop_first().push(line)));
        lemma_session_run_push(stepped, lines.drop_first(), line);
        assert(session_run(s, lines) == session_run(stepped, lines.drop_first()));
    }
}

/// The calculator application: a terminal capability, the store, and the
/// history of accepted input lines.
pub struct Application<TuiApp: Tui> {
    tui: TuiApp,
    calculator: Calculator,
    history: Vec<String>,
}

impl<TuiApp: Tui> Application<TuiApp> {
    /// The session's state in specification terms.
    pub closed spec fn session(&self) -> SessionState {
        SessionState {
            vars: self.calculator.vars_seq(),
            formulas: self.calculator.formulas_seq(),
            history: self.history.deep_view(),
        }
    }

    /// The calculator's namespaces keep their names distinct.
    pub closed spec fn wf(&self) -> bool {
        self.calculator.wf()
    }

    /// Create an application around the given terminal capability, with an
    /// empty calculator and empty history.
    pub fn new(tui_app: TuiApp) -> (r: Self)
        ensures
            r.wf(),
            r.session() == initial_session(),
    {
        let r = Application {
            tui: tui_app,
            calculator: Calculator::new(),
            history: Vec::with_capacity(5),
        };
        proof {
            assert(r.session().history =~= Seq::<Seq<char>>::empty());
        }
        r
    }

    /// Initialize the terminal and write the banner; the session's state is
    /// untouched.
    pub fn init(&mut self) -> (r: Result<(), TerminalError>)
        requires
            old(self).wf(),
        ensures
            final(self).wf(),
            final(self).session() == old(self).session(),
    {
        self.tui.init()?;
        self.tui.display_text_with_new_line(&String::from_str("Tazui Calculator"))?;
        Ok(())
    }

    /// Run the session: prompt, read one edited line, stop on the exit
    /// sentinel, skip empty lines, process anything else, print the bound
    /// name with its value or the error message, and keep accepted lines as
    /// history. Whatever happened, the final session is what some sequence
    /// of processed lines makes of the starting one, every line of it
    /// non-empty and none of them the exit sentinel: the sentinel and empty
    /// lines never reach the store or the history. The loop carries a step
    /// budget only for its termination argument.
    pub fn run(&mut self) -> (r: Result<(), TerminalError>)
        requires
            old(self).wf(),
        ensures
            final(self).wf(),
            session_reached(old(self).session(), final(self).session()),
    {
        let mut fuel: usize = usize::MAX;
        let ghost mut trace: Seq<Seq<char>> = Seq::<Seq<char>>::empty();
        loop
            invariant
                self.wf(),
                self.session() == session_run(old(self).session(), trace),
                forall|i: int| 0 <= i < trace.len() ==> processable(#[trigger] trace[i]),
            decreases fuel,
        {
            if fuel == 0 {
                break ;
            }
            fuel = fuel - 1;
            let prompt = self.tui.get_start_of_line();
            match self.tui.display_text(&prompt) {
                Ok(_) => {
                },
                Err(e) => {
                    proof {
                        assert(session_reached(old(self).session(), self.session())) by {
                            assert(self.session() == session_run(old(self).session(), trace));
                        }
                    }
                    return Err(e);
                },
            }
            let expression = match self.tui.get_expression(&self.history) {
                Ok(line) => line,
                Err(e) => {
                    proof {
                        assert(session_reached(old(self).session(), self.session())) by {
                            assert(self.session() == session_run(old(self).session(), trace));
                        }
                    }
                    return Err(e);
                },
            };
            if expression.eq(&String::from_str("quit")) {
                proof {
                    assert(expression@ == exit_sentinel());
                }
                break ;
            }
            if expression.as_str().is_empty() {
                continue ;
            }
            proof {
                lemma_session_run_push(old(self).session(), trace, expression@);
            }
            let ghost line: Seq<char> = expression@;
            let ghost pre = session_run(old(self).session(), trace);
            let shown = match self.calculator.process(&expression) {
                Ok((bound, value)) => {
                    let ghost pre_hist = self.history.deep_view();
                    self.history.push(expression);
                    proof {
                        assert(self.history.deep_view() =~= pre_hist.push(line));
                        assert(processable(line));
                        let ghost earlier = trace;
                        trace = trace.push(line);
                        assert forall|i: int| 0 <= i < trace.len() implies processable(
                            #[trigger] trace[i],
                        ) by {
                            if i < earlier.len() {
                                assert(trace[i] == earlier[i]);
                            } else {
                                assert(trace[i] == line);
                            }
                        }
                        assert(self.session() == session_step(pre, line));
                    }
                    bound.concat(" = ").concat(value.as_str())
                },
                Err(error) => error.message(),
            };
            match self.tui.display_text_with_new_line(&shown) {
                Ok(_) => {
                },
                Err(e) => {
                    proof {
                        assert(session_reached(old(self).session(), self.session())) by {
                            assert(self.session() == session_run(old(self).session(), trace));
                        }
                    }
                    return Err(e);
                },
            }
        }
        proof {
            assert(session_reached(old(self).session(), self.session())) by {
                assert(self.session() == session_run(old(self).session(), trace));
            }
        }
        Ok(())
    }
}

} // verus!
