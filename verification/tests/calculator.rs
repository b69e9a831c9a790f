use tazui::calculator::CalcError;
use tazui::calculator::Calculator;

fn relative_error(value: f64, reference: f64) -> f64 {
    if reference == 0.0 {
        return value.abs();
    } else {
        return (value - reference).abs() / reference.abs();
    }
}

fn value_of(text: &String) -> f64 {
    text.parse().unwrap()
}

#[test]
fn test_calculator_new() {
    let calc: Calculator = Calculator::new();
    assert_eq!(calc.variable_count(), 0);
    assert_eq!(calc.formula_count(), 0);
}

#[test]
fn test_calculator_process_raw_expression() {
    let mut calc: Calculator = Calculator::new();
    let expression: String = String::from("cos(5.0)^2 + sin(5.0)^2");

    match calc.process(&expression) {
        Ok((name, value)) => {
            assert_eq!(name, String::from("last"));
            assert!(relative_error(value_of(&value), 1.0) < 1e-2);
        }
        Err(_) => assert!(false),
    }

    assert_eq!(calc.variable_count(), 1);
}

#[test]
fn test_calculator_process_definition_of_variable() {
    let mut calc: Calculator = Calculator::new();
    let expression: String = String::from("t = cos(5.0)^2 + sin(5.0)^2");

    match calc.process(&expression) {
        Ok((name, value)) => {
            assert_eq!(name, String::from("t"));
            assert!(relative_error(value_of(&value), 1.0) < 1e-2);
        }
        Err(_) => assert!(false),
    }

    assert_eq!(calc.variable_count(), 1);
    assert_eq!(calc.formula_count(), 0);
}

#[test]
fn test_calculator_process_definition_of_expression() {
    let mut calc: Calculator = Calculator::new();
    let expression: String = String::from("t := cos(5.0)^2 + sin(5.0)^2");

    match calc.process(&expression) {
        Ok((name, value)) => {
            assert_eq!(name, String::from("t"));
            assert!(relative_error(value_of(&value), 1.0) < 1e-2);
        }
        Err(_) => assert!(false),
    }

    assert_eq!(calc.variable_count(), 1);
    assert_eq!(calc.formula_count(), 1);
}

#[test]
fn test_calculator_process_raw_expression_with_variable() {
    let mut calc: Calculator = Calculator::new();
    calc.set_variable(String::from("t"), 5.0f64.to_string());

    let expression: String = String::from("cos(t)^2 + sin(t)^2");

    match calc.process(&expression) {
        Ok((name, value)) => {
            assert_eq!(name, String::from("last"));
            assert!(relative_error(value_of(&value), 1.0) < 1e-2);
        }
        Err(_) => assert!(false),
    }

    assert_eq!(calc.variable_count(), 2);
}

#[test]
fn test_calculator_process_raw_expression_with_expression() {
    let mut calc: Calculator = Calculator::new();
    calc.set_variable(String::from("t"), 5.0f64.to_string());
    calc.set_formula(String::from("s"), String::from("cos(t)^2 + sin(t)^2"));

    let expression: String = String::from("2.0 * s + 1.0");

    match calc.process(&expression) {
        Ok((name, value)) => {
            assert_eq!(name, String::from("last"));
            assert!(relative_error(value_of(&value), 3.0) < 1e-2);
        }
        Err(_) => assert!(false),
    }

    assert_eq!(calc.variable_count(), 3);
    assert_eq!(calc.formula_count(), 1);
}

#[test]
fn test_calculator_several_process() {
    let mut calc: Calculator = Calculator::new();
    let mut expression: String = String::from("t = 3.0 + 1.0");

    match calc.process(&expression) {
        Ok((name, value)) => {
            assert_eq!(name, String::from("t"));
            assert!(relative_error(value_of(&value), 4.0) < 1e-2);
        }
        Err(_) => assert!(false),
    }

    assert_eq!(calc.variable_count(), 1);
    assert_eq!(calc.formula_count(), 0);

    expression = String::from("s := cos(t)^2 + sin(t)^2");

    match calc.process(&expression) {
        Ok((name, value)) => {
            assert_eq!(name, String::from("s"));
            assert!(relative_error(value_of(&value), 1.0) < 1e-2);
        }
        Err(_) => assert!(false),
    }

    assert_eq!(calc.variable_count(), 2);
    assert_eq!(calc.formula_count(), 1);

    expression = String::from("2.0 * s + 1.0");

    match calc.process(&expression) {
        Ok((name, value)) => {
            assert_eq!(name, String::from("last"));
            assert!(relative_error(value_of(&value), 3.0) < 1e-2);
        }
        Err(_) => assert!(false),
    }

    assert_eq!(calc.variable_count(), 3);
    assert_eq!(calc.formula_count(), 1);
}

#[test]
fn test_repeated_bare_expression_keeps_one_slot() {
    let mut calc: Calculator = Calculator::new();
    let expression: String = String::from("2.0 + 2.0");

    match calc.process(&expression) {
        Ok((name, value)) => {
            assert_eq!(name, String::from("last"));
            assert!(relative_error(value_of(&value), 4.0) < 1e-2);
        }
        Err(_) => assert!(false),
    }
    assert_eq!(calc.variable_count(), 1);

    match calc.process(&expression) {
        Ok((name, value)) => {
            assert_eq!(name, String::from("last"));
            assert!(relative_error(value_of(&value), 4.0) < 1e-2);
        }
        Err(_) => assert!(false),
    }
    assert_eq!(calc.variable_count(), 1);
}

#[test]
fn test_missing_name_before_equal() {
    let mut calc: Calculator = Calculator::new();
    let expression: String = String::from("= 1");

    match calc.process(&expression) {
        Ok(_) => assert!(false),
        Err(error) => {
            assert!(matches!(error, CalcError::MalformedAssignment { formula: false }));
            assert_eq!(
                error.message(),
                String::from(
                    "The expression is erroned, please enter a name for variable or expression"
                )
            );
        }
    }

    assert_eq!(calc.variable_count(), 0);
    assert_eq!(calc.formula_count(), 0);
}

#[test]
fn test_missing_name_before_formula_equal() {
    let mut calc: Calculator = Calculator::new();
    let expression: String = String::from(":=  1");

    match calc.process(&expression) {
        Ok(_) => assert!(false),
        Err(error) => {
            assert!(matches!(error, CalcError::MalformedAssignment { formula: true }));
            assert_eq!(
                error.message(),
                String::from("The expression is erroned, please enter name for expression")
            );
        }
    }

    assert_eq!(calc.variable_count(), 0);
    assert_eq!(calc.formula_count(), 0);
}

#[test]
fn test_unknown_identifier_reports_evaluation_error() {
    let mut calc: Calculator = Calculator::new();
    let expression: String = String::from("unknown_name + 1");

    match calc.process(&expression) {
        Ok(_) => assert!(false),
        Err(error) => match error {
            CalcError::Evaluation(message) => assert!(!message.is_empty()),
            CalcError::MalformedAssignment { .. } => assert!(false),
        },
    }

    assert_eq!(calc.variable_count(), 0);
}

#[test]
fn test_blank_expression_reports_evaluation_error() {
    let mut calc: Calculator = Calculator::new();
    let expression: String = String::from("   ");

    match calc.process(&expression) {
        Ok(_) => assert!(false),
        Err(error) => assert!(matches!(error, CalcError::Evaluation(_))),
    }

    assert_eq!(calc.variable_count(), 0);
}

#[test]
fn test_exact_sum_value_text() {
    let mut calc: Calculator = Calculator::new();
    let expression: String = String::from("t = 3.0 + 1.0");

    match calc.process(&expression) {
        Ok((name, value)) => {
            assert_eq!(name, String::from("t"));
            assert_eq!(value, String::from("4"));
        }
        Err(_) => assert!(false),
    }
}

#[test]
fn test_failed_definition_mutates_nothing() {
    let mut calc: Calculator = Calculator::new();
    let good: String = String::from("t = 2.0");
    assert!(calc.process(&good).is_ok());
    assert_eq!(calc.variable_count(), 1);

    let bad: String = String::from("u = nope + 1");
    assert!(calc.process(&bad).is_err());
    assert_eq!(calc.variable_count(), 1);
    assert_eq!(calc.formula_count(), 0);
}

#[test]
fn test_variable_redefinition_overwrites() {
    let mut calc: Calculator = Calculator::new();
    assert!(calc.process(&String::from("t = 1.0")).is_ok());
    assert_eq!(calc.variable_count(), 1);

    match calc.process(&String::from("t = 2.0")) {
        Ok((name, value)) => {
            assert_eq!(name, String::from("t"));
            assert_eq!(value, String::from("2"));
        }
        Err(_) => assert!(false),
    }
    assert_eq!(calc.variable_count(), 1);
}

#[test]
fn test_formula_redefinition_keeps_one_entry() {
    let mut calc: Calculator = Calculator::new();
    assert!(calc.process(&String::from("f := 1.0 + 1.0")).is_ok());
    assert!(calc.process(&String::from("f := 2.0 + 2.0")).is_ok());
    assert_eq!(calc.formula_count(), 1);
    assert_eq!(calc.variable_count(), 1);

    match calc.process(&String::from("f + 0.0")) {
        Ok((name, value)) => {
            assert_eq!(name, String::from("last"));
            assert!(relative_error(value_of(&value), 4.0) < 1e-2);
        }
        Err(_) => assert!(false),
    }
}

#[test]
fn test_error_messages() {
    let malformed_variable = CalcError::MalformedAssignment { formula: false };
    assert_eq!(
        malformed_variable.message(),
        String::from("The expression is erroned, please enter a name for variable or expression")
    );

    let malformed_formula = CalcError::MalformedAssignment { formula: true };
    assert_eq!(
        malformed_formula.message(),
        String::from("The expression is erroned, please enter name for expression")
    );

    let evaluation = CalcError::Evaluation(String::from("some message"));
    assert_eq!(evaluation.message(), String::from("some message"));
}
