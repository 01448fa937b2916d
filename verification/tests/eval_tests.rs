use rlox::error::{ErrorReport, RuntimeError};
use rlox::interpreter::{run, Interpreter};

fn run_ok(source: &str) -> Vec<String> {
    let mut interpreter = Interpreter::new();
    run(&mut interpreter, source).unwrap();
    interpreter.output
}

fn run_err(source: &str) -> ErrorReport {
    let mut interpreter = Interpreter::new();
    run(&mut interpreter, source).unwrap_err()
}

#[test]
fn var_and_print() {
    assert_eq!(run_ok("var x = 3; print x + 1;"), vec!["4"]);
}

#[test]
fn string_concatenation() {
    assert_eq!(run_ok(r#"print "a" + "b";"#), vec!["ab"]);
}

#[test]
fn adding_number_and_string_is_a_type_mismatch() {
    let err = run_err(r#"print 1 + "a";"#);
    match err {
        ErrorReport::Runtime(RuntimeError::TypeMismatch { op, .. }) => assert_eq!(op, "+"),
        _ => panic!("expected a runtime type mismatch"),
    }
}

#[test]
fn division_by_zero_gives_infinity() {
    assert_eq!(run_ok("print 1 / 0;"), vec!["inf"]);
    assert_eq!(run_ok("print -1 / 0;"), vec!["-inf"]);
    assert_eq!(run_ok("print 0 / 0;"), vec!["NaN"]);
}

#[test]
fn truthiness_falsy_values() {
    assert_eq!(
        run_ok(r#"print !nil; print !false; print !0; print !"";"#),
        vec!["true", "true", "true", "true"]
    );
}

#[test]
fn truthiness_truthy_values() {
    assert_eq!(
        run_ok(r#"print !1; print !"x"; print !true;"#),
        vec!["false", "false", "false"]
    );
}

#[test]
fn arithmetic_renders_decimals() {
    assert_eq!(run_ok("print 2.5 * 2;"), vec!["5"]);
    assert_eq!(run_ok("print 45.67;"), vec!["45.67"]);
    assert_eq!(run_ok("print 1 - 2;"), vec!["-1"]);
    assert_eq!(run_ok("print 0.1 + 0.2;"), vec!["0.3"]);
    assert_eq!(run_ok("print 7 / 2;"), vec!["3.5"]);
}

#[test]
fn overflowing_product_saturates_to_infinity() {
    assert_eq!(
        run_ok("print 9999999999999 * 9999999999999;"),
        vec!["inf"]
    );
}

#[test]
fn comparisons() {
    assert_eq!(
        run_ok("print 1 < 2; print 2 <= 2; print 1 > 2; print 2 >= 3;"),
        vec!["true", "true", "false", "false"]
    );
}

#[test]
fn equality_on_numbers_and_strings() {
    assert_eq!(
        run_ok(r#"print 1 == 1; print 1 != 1; print "a" == "a"; print "a" != "b";"#),
        vec!["true", "false", "true", "true"]
    );
}

#[test]
fn cross_type_equality_is_a_type_mismatch() {
    let err = run_err(r#"print 1 == "a";"#);
    assert!(matches!(
        err,
        ErrorReport::Runtime(RuntimeError::TypeMismatch { .. })
    ));
    let err = run_err("print true == true;");
    assert!(matches!(
        err,
        ErrorReport::Runtime(RuntimeError::TypeMismatch { .. })
    ));
}

#[test]
fn unary_minus_needs_a_number() {
    let err = run_err(r#"print -"a";"#);
    assert!(matches!(
        err,
        ErrorReport::Runtime(RuntimeError::TypeMismatchUnary { .. })
    ));
}

#[test]
fn undefined_variable_read() {
    let err = run_err("print x;");
    match err {
        ErrorReport::Runtime(RuntimeError::UndefinedVariable { name }) => assert_eq!(name, "x"),
        _ => panic!("expected an undefined-variable error"),
    }
}

#[test]
fn assignment_to_undeclared_name_fails() {
    let err = run_err("x = 1;");
    assert!(matches!(
        err,
        ErrorReport::Runtime(RuntimeError::UndefinedVariable { .. })
    ));
}

#[test]
fn assignment_yields_its_value_and_rebinds() {
    assert_eq!(
        run_ok("var x = 1; var y = 0; y = x = 5; print y; print x;"),
        vec!["5", "5"]
    );
}

#[test]
fn redeclaration_overwrites() {
    assert_eq!(run_ok("var x = 1; var x = 2; print x;"), vec!["2"]);
}

#[test]
fn var_without_initializer_is_nil() {
    assert_eq!(run_ok("var x; print x;"), vec!["nil"]);
}

#[test]
fn runtime_error_stops_later_statements() {
    let mut interpreter = Interpreter::new();
    let result = run(&mut interpreter, "print 1; print y; print 2;");
    assert!(result.is_err());
    assert_eq!(interpreter.output, vec!["1"]);
}

#[test]
fn environment_persists_across_runs() {
    let mut interpreter = Interpreter::new();
    run(&mut interpreter, "var x = 41;").unwrap();
    run(&mut interpreter, "print x + 1;").unwrap();
    assert_eq!(interpreter.output, vec!["42"]);
}

#[test]
fn parse_error_report_has_both_messages() {
    let err = run_err("+ ;\n* ;");
    match &err {
        ErrorReport::ParseErrors(errs) => assert_eq!(errs.len(), 2),
        _ => panic!("expected parse errors"),
    }
    assert_eq!(
        err.message(),
        "Expected expression at line 1\nExpected expression at line 2"
    );
}

#[test]
fn scan_error_report_lists_each_error() {
    let err = run_err("@ $");
    match &err {
        ErrorReport::ScanErrors(errs) => assert_eq!(errs.len(), 2),
        _ => panic!("expected scan errors"),
    }
    assert_eq!(
        err.message(),
        "Unexpected character at line 1: @\nUnexpected character at line 1: $\n"
    );
}

#[test]
fn runtime_error_messages() {
    assert_eq!(run_err("print y;").message(), "Undefined variable: y");
    assert_eq!(
        run_err(r#"print 1 + "a";"#).message(),
        "'+' can not operate on number and string"
    );
    assert_eq!(
        run_err(r#"print -"a";"#).message(),
        "'-' can not operate on string"
    );
}

#[test]
fn comments_are_ignored() {
    assert_eq!(run_ok("// nothing here\nprint 1;"), vec!["1"]);
}

#[test]
fn grouping_changes_evaluation_order() {
    assert_eq!(run_ok("print (1 + 2) * 3; print 1 + 2 * 3;"), vec!["9", "7"]);
}
