use perfectionist::rule_index::DefaultState;
use perfectionist::rules::overly_long_function::{body_interior, Config, OverlyLongFunction, DEFAULT_MAX_LINES, SPLIT_HELP};
use perfectionist::rules::{measured_fn, FnFacts, FnShape};
use perfectionist::source::Span;

fn facts(name: &str, shape: FnShape, in_test_code: bool) -> FnFacts {
    FnFacts { shape, name: name.to_owned(), span: Span { lo: 3, hi: 9 }, generated: false, in_test_code }
}

/// A body of `lines` lines of code between its braces.
fn body(lines: usize) -> String {
    let mut body = String::from("{\n");
    for index in 0..lines {
        body.push_str(&format!("    let value_{index} = {index};\n"));
    }
    body.push('}');
    body
}

fn flagged(pass: &OverlyLongFunction, name: &str, in_test_code: bool) -> bool {
    let function = measured_fn(facts(name, FnShape::Item, in_test_code), pass.config.exempt_tests);
    pass.check_fn(function, Some(body(DEFAULT_MAX_LINES + 1))).is_some()
}

#[test]
fn overly_long_function_test_code_is_measured_by_default() {
    let pass = OverlyLongFunction::new(Config::default());
    assert!(flagged(&pass, "production", false));
    assert!(flagged(&pass, "cfg_test_helper", true));
    assert!(flagged(&pass, "test_function", true));
}

#[test]
fn overly_long_function_exempt_tests_leaves_test_code_alone() {
    let pass = OverlyLongFunction::new(Config { max_lines: DEFAULT_MAX_LINES, exempt_tests: true });
    assert!(flagged(&pass, "production", false));
    assert!(!flagged(&pass, "cfg_test_helper", true));
    assert!(!flagged(&pass, "test_function", true));
}

#[test]
fn the_message_counts_the_lines_between_the_braces() {
    let pass = OverlyLongFunction::new(Config { max_lines: 0, exempt_tests: false });
    let function = measured_fn(facts("work", FnShape::Item, false), false);
    let report = pass.check_fn(function, Some("{\n    work();\n}".to_owned())).unwrap();
    assert_eq!(report.message, "function `work` has 1 line of code, above the limit of 0");
    assert_eq!(report.span, Span { lo: 3, hi: 9 });
    assert_eq!(report.helps, vec![SPLIT_HELP]);
    let method = measured_fn(facts("load", FnShape::Method, false), false);
    let report = pass.check_fn(method, Some(body(3))).unwrap();
    assert_eq!(report.message, "method `load` has 3 lines of code, above the limit of 0");
    // An empty body has nothing to count.
    let empty = measured_fn(facts("empty", FnShape::Item, false), false);
    assert!(pass.check_fn(empty, Some("{}".to_owned())).is_none());
}

#[test]
fn a_body_at_the_limit_is_not_flagged() {
    let pass = OverlyLongFunction::new(Config::default());
    let at = measured_fn(facts("at", FnShape::Item, false), false);
    assert!(pass.check_fn(at, Some(body(DEFAULT_MAX_LINES))).is_none());
}

#[test]
fn generated_functions_and_closures_are_not_measured() {
    let generated = FnFacts { generated: true, ..facts("made", FnShape::Item, false) };
    assert!(measured_fn(generated, false).is_none());
    assert!(measured_fn(facts("closure", FnShape::Closure, false), false).is_none());
    let pass = OverlyLongFunction::new(Config { max_lines: 0, exempt_tests: false });
    assert!(pass.check_fn(None, Some(body(5))).is_none());
    // Without the body's source there is nothing to count.
    assert!(pass.check_fn(measured_fn(facts("work", FnShape::Item, false), false), None).is_none());
}

#[test]
fn only_the_outer_braces_are_dropped() {
    assert_eq!(body_interior("{ a }"), " a ");
    assert_eq!(body_interior("{}"), "");
    assert_eq!(body_interior("{"), "{");
    assert_eq!(body_interior("x"), "x");
    assert_eq!(body_interior("{ a"), "{ a");
    assert_eq!(OverlyLongFunction::default_state(), DefaultState::Active);
}
