use perfectionist::rule_index::DefaultState;
use perfectionist::rules::too_many_struct_fields::{
    field_count, Config, StructItem, TooManyStructFields, VariantShape, DEFAULT_MAX_FIELDS, GROUP_HELP,
};
use perfectionist::source::Span;

fn item(name: &str, shape: VariantShape, in_test_code: bool) -> StructItem {
    StructItem {
        name: name.to_owned(),
        shape,
        generated: false,
        in_test_code,
        def_span: Span { lo: 0, hi: 10 },
    }
}

fn eleven(name: &str, in_test_code: bool) -> StructItem {
    item(name, VariantShape::Struct(11), in_test_code)
}

#[test]
fn zero_threshold_reports_every_field_count() {
    let pass = TooManyStructFields::new(Config { max_fields: 0, exempt_tests: false });
    let one = pass.check_item(&item("One", VariantShape::Struct(1), false)).unwrap();
    assert_eq!(one.message, "struct `One` has 1 field, above the limit of 0");
    let pair = pass.check_item(&item("Pair", VariantShape::Tuple(2), false)).unwrap();
    assert_eq!(pair.message, "struct `Pair` has 2 fields, above the limit of 0");
    assert_eq!(pair.helps, vec![GROUP_HELP]);
    assert_eq!(pair.span, Span { lo: 0, hi: 10 });
    // A unit struct has no fields to count.
    assert!(pass.check_item(&item("Unit", VariantShape::Unit, false)).is_none());
    assert_eq!(field_count(&VariantShape::Unit), 0);
}

#[test]
fn too_many_struct_fields_test_code_is_measured_by_default() {
    let pass = TooManyStructFields::new(Config::default());
    assert_eq!(DEFAULT_MAX_FIELDS, 10);
    for name in ["Production", "CfgTestFixture", "InTest"] {
        let report = pass.check_item(&eleven(name, name != "Production")).unwrap();
        assert_eq!(report.message, format!("struct `{name}` has 11 fields, above the limit of 10"));
    }
}

#[test]
fn too_many_struct_fields_exempt_tests_leaves_test_code_alone() {
    let pass = TooManyStructFields::new(Config { max_fields: DEFAULT_MAX_FIELDS, exempt_tests: true });
    assert!(pass.check_item(&eleven("Production", false)).is_some());
    assert!(pass.check_item(&eleven("CfgTestFixture", true)).is_none());
    assert!(pass.check_item(&eleven("InTest", true)).is_none());
}

#[test]
fn a_test_target_is_measured_by_default() {
    let pass = TooManyStructFields::new(Config::default());
    assert!(pass.check_item(&eleven("InTarget", true)).is_some());
}

#[test]
fn too_many_struct_fields_exempt_tests_leaves_a_test_target_alone() {
    let pass = TooManyStructFields::new(Config { max_fields: DEFAULT_MAX_FIELDS, exempt_tests: true });
    assert!(pass.check_item(&eleven("InTarget", true)).is_none());
}

#[test]
fn a_struct_at_the_limit_or_generated_is_not_flagged() {
    let pass = TooManyStructFields::new(Config::default());
    assert!(pass.check_item(&item("Ten", VariantShape::Struct(10), false)).is_none());
    let generated = StructItem { generated: true, ..eleven("Made", false) };
    assert!(pass.check_item(&generated).is_none());
    assert_eq!(TooManyStructFields::default_state(), DefaultState::Active);
}
