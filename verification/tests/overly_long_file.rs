use perfectionist::code_lines::count_code_lines;
use perfectionist::rule_index::DefaultState;
use perfectionist::rules::overly_long_file::{inner, Config, Module, OverlyLongFile, DEFAULT_MAX_LINES, SPLIT_HELP};
use perfectionist::source::Span;

const ZERO_THRESHOLD: &str = r#"// edition:2024
#![feature(register_tool)]
#![register_tool(perfectionist)]
#![allow(dead_code, unused, reason = "ui fixture")]

// Bad: this file has 10 lines of code, above the limit of 0 — the 3
// attribute lines above and the items below; its comments and blank
// lines are free.

/// A documented function; the doc comment is not code.
fn work(value: u32) -> u32 {
    value
}

/* A block comment
   spanning lines. */
mod inline {
    // An inline module belongs to this file.
    pub fn inner() {}
}

fn main() {}
"#;

const AT_THE_LIMIT: &str = r#"// edition:2024
#![feature(register_tool)]
#![register_tool(perfectionist)]
#![allow(dead_code, unused, reason = "ui fixture")]

// Not flagged: this file has 5 lines of code, exactly the limit of 5 —
// the 3 attribute lines above and the 2 below. A file is flagged only
// above the limit, never at it.

fn work() {}

fn main() {}
"#;

fn file(name: &str, source: &str, in_test_code: bool) -> Module {
    Module {
        is_crate_root: name == "lib.rs",
        inner_span: Span { lo: 40, hi: 40 + source.len() as u32 },
        inline: false,
        in_test_code,
        source: Some(source.to_owned()),
        file_name: name.to_owned(),
    }
}

/// Over 500 lines of code.
fn big() -> String {
    let mut source = String::new();
    for index in 0..501 {
        source.push_str(&format!("const C{index}: u32 = {index};\n"));
    }
    source
}

#[test]
fn zero_threshold_reports_the_file_count() {
    let pass = OverlyLongFile::new(Config { max_lines: 0, exempt_tests: false });
    let module = file("fixture.rs", ZERO_THRESHOLD, false);
    let report = pass.check_mod(&module).expect("the file is flagged");
    assert_eq!(report.message, "file `fixture.rs` has 10 lines of code, above the limit of 0");
    assert_eq!(report.span, Span { lo: 40, hi: 40 });
    assert_eq!(report.helps, vec![SPLIT_HELP]);
    // The inline module is part of this file, not one of its own.
    let inline = Module { inline: true, ..file("fixture.rs", ZERO_THRESHOLD, false) };
    assert!(pass.check_mod(&inline).is_none());
}

#[test]
fn a_file_at_the_limit_is_not_flagged() {
    let pass = OverlyLongFile::new(Config { max_lines: 5, exempt_tests: false });
    assert_eq!(count_code_lines(AT_THE_LIMIT), 5);
    assert!(pass.check_mod(&file("fixture.rs", AT_THE_LIMIT, false)).is_none());
    let one_less = OverlyLongFile::new(Config { max_lines: 4, exempt_tests: false });
    assert!(one_less.check_mod(&file("fixture.rs", AT_THE_LIMIT, false)).is_some());
}

fn crate_files() -> Vec<Module> {
    let root = "mod big;\n#[cfg(test)]\nmod tests;\npub fn nothing() {}\n";
    vec![
        file("lib.rs", root, false),
        file("big.rs", &big(), false),
        file("tests.rs", &big(), true),
        file("it.rs", &big(), true),
        file("bench.rs", &big(), true),
    ]
}

fn flagged(pass: &OverlyLongFile) -> Vec<String> {
    crate_files()
        .iter()
        .filter_map(|module| pass.check_mod(module))
        .map(|report| report.message)
        .collect()
}

#[test]
fn out_of_line_modules_are_measured_and_test_files_count_by_default() {
    let pass = OverlyLongFile::new(Config::default());
    assert_eq!(DEFAULT_MAX_LINES, 500);
    let messages = flagged(&pass);
    for name in ["big.rs", "tests.rs", "it.rs", "bench.rs"] {
        let expected = format!("file `{name}` has 501 lines of code, above the limit of 500");
        assert!(messages.contains(&expected), "{messages:?}");
    }
    assert!(!messages.iter().any(|message| message.contains("lib.rs` has")));
}

#[test]
fn exempt_tests_leaves_test_files_alone() {
    let pass = OverlyLongFile::new(Config { max_lines: DEFAULT_MAX_LINES, exempt_tests: true });
    let messages = flagged(&pass);
    assert_eq!(messages, vec!["file `big.rs` has 501 lines of code, above the limit of 500".to_owned()]);
}

#[test]
fn a_file_the_source_map_lacks_is_not_measured() {
    let pass = OverlyLongFile::new(Config { max_lines: 0, exempt_tests: false });
    let module = Module { source: None, ..file("big.rs", "fn a() {}\n", false) };
    assert!(pass.check_mod(&module).is_none());
}

#[test]
fn the_anchor_is_the_start_of_the_file() {
    let module = file("big.rs", "fn a() {}\n", false);
    assert_eq!(inner(&module), Span { lo: 40, hi: 40 });
    assert_eq!(OverlyLongFile::default_state(), DefaultState::Active);
}
