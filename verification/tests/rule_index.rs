use perfectionist::rule_index::{is_registered_lint, register_rule, registered_lints, resolved_state, DefaultState, LINT_COUNT};

#[test]
fn the_lint_names_are_strictly_ascending() {
    let names = registered_lints();
    assert_eq!(names.len(), LINT_COUNT);
    for pair in names.windows(2) {
        assert!(pair[0] < pair[1], "{} then {}", pair[0], pair[1]);
    }
}

#[test]
fn every_listed_lint_is_registered() {
    for name in registered_lints() {
        assert!(is_registered_lint(name), "{name}");
    }
    assert!(is_registered_lint("allow_attributes"));
    assert!(is_registered_lint("wildcard_imports"));
    assert!(is_registered_lint("unordered_derives"));
    assert!(is_registered_lint("too_many_struct_fields"));
    assert!(is_registered_lint("unordered_struct_fields"));
}

#[test]
fn an_unknown_or_qualified_name_is_not_registered() {
    assert!(!is_registered_lint(""));
    assert!(!is_registered_lint("allow_attribute"));
    assert!(!is_registered_lint("perfectionist::bare_url"));
    assert!(!is_registered_lint("Bare_url"));
    assert!(!is_registered_lint("zzz"));
    assert!(!is_registered_lint("aaa"));
}

#[test]
fn a_rule_always_declares_its_lint_and_installs_its_pass_only_when_active() {
    let active = register_rule(DefaultState::Active);
    assert!(active.lint && active.pass);
    let inactive = register_rule(DefaultState::Inactive);
    assert!(inactive.lint && !inactive.pass);
}

fn list(names: &[&str]) -> Vec<String> {
    names.iter().map(|name| (*name).to_owned()).collect()
}

#[test]
fn the_global_table_overrides_a_rule_default() {
    let none: Vec<String> = Vec::new();
    // Disabling a default-on rule skips its pass.
    let state = resolved_state("impure_macro_arguments", DefaultState::Active, &none, &list(&["impure_macro_arguments"]));
    assert_eq!(state, DefaultState::Inactive);
    assert!(!register_rule(state).pass);
    assert!(register_rule(state).lint);
    // Enabling a default-off rule installs it.
    let state = resolved_state("exhaustive_error_enums", DefaultState::Inactive, &list(&["exhaustive_error_enums"]), &none);
    assert_eq!(state, DefaultState::Active);
    // A rule neither list names keeps its default.
    assert_eq!(resolved_state("bare_url", DefaultState::Active, &list(&["bare_email"]), &list(&["bare_issue_reference"])), DefaultState::Active);
    assert_eq!(resolved_state("bare_url", DefaultState::Inactive, &none, &none), DefaultState::Inactive);
    // Disabling wins over enabling.
    assert_eq!(resolved_state("bare_url", DefaultState::Inactive, &list(&["bare_url"]), &list(&["bare_url"])), DefaultState::Inactive);
}
