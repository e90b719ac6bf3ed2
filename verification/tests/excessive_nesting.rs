use perfectionist::rule_index::DefaultState;
use perfectionist::rules::excessive_nesting::emit::{
    path, shape_hint, ARM_GUARD_HINT, BLOCK_HINT, CONTINUE_HINT, EXTRACTION_HELP, FLATTEN_HELP, IF_LET_HINT,
    LET_ELSE_HINT, MERGE_HINT,
};
use perfectionist::rules::excessive_nesting::{deepest as deepest_of, Config, Construct, Deepest, ExcessiveNesting, NestNode, DEFAULT_MAX_DEPTH};
use perfectionist::rules::{measured_fn, FnFacts, FnShape};
use perfectionist::source::Span;

const IF: Construct = Construct::If { binds: false, has_else: false };
const IF_ELSE: Construct = Construct::If { binds: false, has_else: true };
const IF_LET: Construct = Construct::If { binds: true, has_else: false };

fn deepest(path: Vec<Construct>) -> Deepest {
    Deepest { path, span: Span { lo: 50, hi: 60 } }
}

fn report(name: &str, path: Vec<Construct>) -> Option<(String, String, Vec<&'static str>)> {
    let pass = ExcessiveNesting::new(Config { max_depth: 0, exempt_tests: false });
    let facts = FnFacts { shape: FnShape::Item, name: name.to_owned(), span: Span { lo: 1, hi: 2 }, generated: false, in_test_code: false };
    pass.check_fn(measured_fn(facts, false), Some(deepest(path))).map(|d| {
        let (span, note) = d.note.expect("a note");
        assert_eq!(span, Span { lo: 50, hi: 60 });
        assert_eq!(d.span, Span { lo: 1, hi: 2 });
        (d.message, note, d.helps)
    })
}

#[test]
fn zero_threshold_states_each_depth() {
    assert!(report("flat", vec![]).is_none());
    let (message, note, helps) = report("one_if", vec![IF]).unwrap();
    assert_eq!(message, "function `one_if` nests 1 level deep, above the limit of 0");
    assert_eq!(note, "the deepest path is `if`");
    assert_eq!(helps, vec![FLATTEN_HELP, EXTRACTION_HELP]);

    let (message, note, helps) = report("nested_if", vec![IF, IF]).unwrap();
    assert_eq!(message, "function `nested_if` nests 2 levels deep, above the limit of 0");
    assert_eq!(note, "the deepest path is `if` -> `if`");
    assert_eq!(helps, vec![MERGE_HINT, EXTRACTION_HELP]);

    let (_, note, helps) = report("if_let_chain", vec![IF_LET]).unwrap();
    assert_eq!(note, "the deepest path is `if let`");
    assert_eq!(helps[0], IF_LET_HINT);

    let (_, _, helps) = report("if_in_if_with_else", vec![IF_ELSE, IF]).unwrap();
    assert_eq!(helps[0], FLATTEN_HELP);

    let (_, note, helps) = report("if_in_arm", vec![Construct::Match, IF]).unwrap();
    assert_eq!(note, "the deepest path is `match` -> `if`");
    assert_eq!(helps[0], ARM_GUARD_HINT);

    // An `if` in an arm guard always has an `else`.
    let (_, _, helps) = report("if_in_arm_guard", vec![Construct::Match, IF_ELSE]).unwrap();
    assert_eq!(helps[0], FLATTEN_HELP);

    let (_, note, helps) = report("for_loop", vec![Construct::For, IF]).unwrap();
    assert_eq!(note, "the deepest path is `for` -> `if`");
    assert_eq!(helps[0], CONTINUE_HINT);

    let (_, _, helps) = report("scoped_block", vec![Construct::Block]).unwrap();
    assert_eq!(helps[0], BLOCK_HINT);

    let (_, _, helps) = report("let_else", vec![Construct::LetElse]).unwrap();
    assert_eq!(helps[0], LET_ELSE_HINT);

    let (_, note, _) = report("closure", vec![Construct::Closure, IF_ELSE]).unwrap();
    assert_eq!(note, "the deepest path is closure -> `if`");
}

#[test]
fn a_nesting_at_the_limit_is_not_flagged() {
    let pass = ExcessiveNesting::new(Config::default());
    assert_eq!(DEFAULT_MAX_DEPTH, 3);
    let facts = || FnFacts { shape: FnShape::Method, name: "deep".to_owned(), span: Span { lo: 1, hi: 2 }, generated: false, in_test_code: false };
    assert!(pass.check_fn(measured_fn(facts(), false), Some(deepest(vec![IF, IF, IF]))).is_none());
    let d = pass.check_fn(measured_fn(facts(), false), Some(deepest(vec![Construct::Loop, IF, IF, IF]))).unwrap();
    assert_eq!(d.message, "method `deep` nests 4 levels deep, above the limit of 3");
    assert!(pass.check_fn(None, Some(deepest(vec![IF, IF, IF, IF]))).is_none());
    assert!(pass.check_fn(measured_fn(facts(), false), None).is_none());
    assert_eq!(ExcessiveNesting::default_state(), DefaultState::Active);
}

#[test]
fn the_path_reads_outermost_first() {
    assert_eq!(path(&deepest(vec![Construct::While, Construct::Match, IF_LET])), "`while` -> `match` -> `if let`");
    assert_eq!(path(&deepest(vec![])), "");
    assert_eq!(shape_hint(&deepest(vec![])), None);
    assert_eq!(shape_hint(&deepest(vec![IF])), None);
}

fn node(construct: Construct, lo: u32, parent: Option<usize>) -> NestNode {
    NestNode { construct, span: Span { lo, hi: lo + 1 }, parent }
}

#[test]
fn the_deepest_point_is_the_first_one_nothing_is_below() {
    assert!(deepest_of(&[]).is_none());
    // `match` { arm => { if .. {} } }, then a later `for` { if .. {} }.
    let nodes = vec![
        node(Construct::Match, 10, None),
        node(IF, 20, Some(0)),
        node(Construct::For, 30, None),
        node(IF, 40, Some(2)),
    ];
    let found = deepest_of(&nodes).unwrap();
    assert_eq!(found.path, vec![Construct::Match, IF]);
    assert_eq!(found.span, Span { lo: 20, hi: 21 });
    // A deeper one later wins.
    let mut deeper = nodes;
    deeper.push(node(Construct::Loop, 50, Some(3)));
    let found = deepest_of(&deeper).unwrap();
    assert_eq!(found.path, vec![Construct::For, IF, Construct::Loop]);
    assert_eq!(found.span, Span { lo: 50, hi: 51 });
    // Siblings are not nested in one another.
    let flat = vec![node(IF, 1, None), node(IF, 2, None), node(IF, 3, None)];
    assert_eq!(deepest_of(&flat).unwrap().path, vec![IF]);
    assert_eq!(deepest_of(&flat).unwrap().span, Span { lo: 1, hi: 2 });
}
