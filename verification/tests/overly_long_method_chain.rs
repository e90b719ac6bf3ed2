use perfectionist::rule_index::DefaultState;
use perfectionist::rules::overly_long_method_chain::{
    ChainExpr, Config, OverlyLongMethodChain, SpineLink, CUT_HELP, DEFAULT_MAX_CALLS, NAMING_HELP,
};
use perfectionist::source::Span;

/// A spine read from a chain written head first, the way the source
/// reads bottom up: each name is a method call, `?` and `.await` stand
/// for a desugared step, and anything else ends the spine.
struct Spine {
    links: Vec<SpineLink>,
    next_id: u64,
}

impl Spine {
    fn new(first_id: u64) -> Self {
        Spine { links: Vec::new(), next_id: first_id }
    }

    fn call(mut self, name: &str) -> Self {
        self.links.push(SpineLink::Call { id: self.next_id, name: name.to_owned(), generated: false });
        self.next_id += 1;
        self
    }

    fn generated_call(mut self, name: &str) -> Self {
        self.links.push(SpineLink::Call { id: self.next_id, name: name.to_owned(), generated: true });
        self.next_id += 1;
        self
    }

    fn desugared(mut self) -> Self {
        self.links.push(SpineLink::Desugared);
        self
    }

    fn end(mut self) -> Vec<SpineLink> {
        self.links.push(SpineLink::Other);
        self.links
    }
}

/// The chain whose head is the first link.
fn chain(spine: Vec<SpineLink>, in_test_code: bool) -> ChainExpr {
    let id = match &spine[0] {
        SpineLink::Call { id, .. } => *id,
        _ => 0,
    };
    ChainExpr { id, is_method_call: true, generated: false, spine, in_test_code, span: Span { lo: 0, hi: 1 } }
}

fn count_reported(pass: &mut OverlyLongMethodChain, expr: &ChainExpr) -> Option<String> {
    pass.check_expr(expr).map(|report| report.message)
}

fn six_calls(first_id: u64) -> Vec<SpineLink> {
    // names.iter().filter(..).map(..).rev().collect().join(", ")
    Spine::new(first_id)
        .call("join")
        .call("collect")
        .call("rev")
        .call("map")
        .call("filter")
        .call("iter")
        .end()
}

#[test]
fn default_limit_flags_a_chain_above_five_calls() {
    let mut pass = OverlyLongMethodChain::new(Config::default());
    assert_eq!(DEFAULT_MAX_CALLS, 5);
    let report = pass.check_expr(&chain(six_calls(100), false)).expect("six calls are flagged");
    assert_eq!(report.message, "method chain has 6 distinct calls, above the limit of 5");
    assert_eq!(report.helps, vec![NAMING_HELP, CUT_HELP]);
    assert!(report.note.is_none());

    // A run of one method is one call: `arg` and `status`.
    let builder = Spine::new(200).call("status").call("arg").call("arg").call("arg").call("arg").call("arg").end();
    assert!(pass.check_expr(&chain(builder, false)).is_none());

    // Five calls is the limit, not above it.
    let five = Spine::new(300).call("sum").call("take").call("map").call("filter").call("iter").end();
    assert!(pass.check_expr(&chain(five, false)).is_none());

    // `.await` and `?` neither count nor break the chain.
    let through_await = Spine::new(400)
        .call("count")
        .call("map")
        .call("filter")
        .call("map")
        .call("lines")
        .desugared()
        .call("load")
        .end();
    assert_eq!(
        count_reported(&mut pass, &chain(through_await, false)).as_deref(),
        Some("method chain has 6 distinct calls, above the limit of 5"),
    );
    let through_try = Spine::new(500)
        .call("count")
        .call("filter")
        .call("chars")
        .call("to_string")
        .desugared()
        .call("parse")
        .call("trim")
        .end();
    assert!(pass.check_expr(&chain(through_try, false)).is_some());

    // Calls from an expansion end the spine.
    let from_macro = Spine::new(600).generated_call("sum").generated_call("rev").end();
    assert!(pass.check_expr(&chain(from_macro, false)).is_none());
    let over_macro = Spine::new(700)
        .call("unwrap_or")
        .call("max")
        .call("rev")
        .call("filter")
        .call("map")
        .generated_call("copied")
        .generated_call("iter")
        .end();
    assert!(pass.check_expr(&chain(over_macro, false)).is_none());
}

#[test]
fn zero_threshold_reports_every_chain_length() {
    let mut pass = OverlyLongMethodChain::new(Config { max_calls: 0, exempt_tests: false });
    let cases: Vec<(Vec<SpineLink>, &str)> = vec![
        (Spine::new(10).call("len").end(), "method chain has 1 distinct call, above the limit of 0"),
        (Spine::new(20).call("sum").call("copied").call("iter").end(), "method chain has 3 distinct calls, above the limit of 0"),
        (Spine::new(30).call("count").call("iter").end(), "method chain has 2 distinct calls, above the limit of 0"),
        (Spine::new(40).call("len").call("trim").desugared().end(), "method chain has 2 distinct calls, above the limit of 0"),
        (
            Spine::new(50).call("status").call("arg").call("arg").call("arg").call("arg").end(),
            "method chain has 2 distinct calls, above the limit of 0",
        ),
    ];
    for (spine, expected) in cases {
        assert_eq!(count_reported(&mut pass, &chain(spine, false)).as_deref(), Some(expected));
    }
    // A closure's chain is its own: `rows.iter().map(..).count()` and,
    // inside, `row.len()`.
    let outer = Spine::new(60).call("count").call("map").call("iter").end();
    let inner = Spine::new(70).call("len").end();
    assert!(count_reported(&mut pass, &chain(outer, false)).unwrap().starts_with("method chain has 3 "));
    assert!(count_reported(&mut pass, &chain(inner, false)).unwrap().starts_with("method chain has 1 "));
}

#[test]
fn a_chain_is_measured_once_from_its_head() {
    let mut pass = OverlyLongMethodChain::new(Config { max_calls: 0, exempt_tests: false });
    let spine = six_calls(1);
    assert!(pass.check_expr(&chain(spine.clone(), false)).is_some());
    // Each receiver is a method call too, but already counted.
    for start in 1..6 {
        let tail: Vec<SpineLink> = spine[start..].to_vec();
        assert!(pass.check_expr(&chain(tail, false)).is_none());
    }
}

#[test]
fn not_a_method_call_or_generated_is_not_measured() {
    let mut pass = OverlyLongMethodChain::new(Config { max_calls: 0, exempt_tests: false });
    let mut expr = chain(six_calls(1), false);
    expr.is_method_call = false;
    assert!(pass.check_expr(&expr).is_none());
    expr.is_method_call = true;
    expr.generated = true;
    assert!(pass.check_expr(&expr).is_none());
    // Neither marked anything counted.
    expr.generated = false;
    assert!(pass.check_expr(&expr).is_some());
}

#[test]
fn overly_long_method_chain_test_code_is_measured_by_default() {
    let mut pass = OverlyLongMethodChain::new(Config::default());
    assert!(pass.check_expr(&chain(six_calls(1), false)).is_some());
    assert!(pass.check_expr(&chain(six_calls(101), true)).is_some());
    assert!(pass.check_expr(&chain(six_calls(201), true)).is_some());
}

#[test]
fn overly_long_method_chain_exempt_tests_leaves_test_code_alone() {
    let mut pass = OverlyLongMethodChain::new(Config { max_calls: DEFAULT_MAX_CALLS, exempt_tests: true });
    assert!(pass.check_expr(&chain(six_calls(1), false)).is_some());
    assert!(pass.check_expr(&chain(six_calls(101), true)).is_none());
    assert!(pass.check_expr(&chain(six_calls(201), true)).is_none());
}

/// The `#[test]` function's own chain, `items.iter().copied().map(..)
/// .filter(..).rev().sum()`: six calls, measured like production code.
#[test]
fn test_function() {
    let mut pass = OverlyLongMethodChain::new(Config::default());
    let spine = Spine::new(1).call("sum").call("rev").call("filter").call("map").call("copied").call("iter").end();
    let report = pass.check_expr(&chain(spine, true)).expect("test code is measured");
    assert_eq!(report.message, "method chain has 6 distinct calls, above the limit of 5");
}

#[test]
fn the_rule_is_off_until_enabled() {
    assert_eq!(OverlyLongMethodChain::default_state(), DefaultState::Inactive);
}
