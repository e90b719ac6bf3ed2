use perfectionist::rules::unordered_struct_fields::early::{SourceStruct, Sources};
use perfectionist::rules::unordered_struct_fields::fixes::{
    gap_spans, plain_comment, replacements, separator, FIX_HELP, FIX_LABEL, MESSAGE,
};
use perfectionist::rules::unordered_struct_fields::safety::{
    builtin_derives, eligible, safe_drop, LocalImpl, TyGraph, TyNode, DEPTH_LIMIT,
};
use perfectionist::rules::unordered_struct_fields::{field_order, in_place, CONFIG_KEY};
use perfectionist::source::Span;

fn names(list: &[&str]) -> Vec<String> {
    list.iter().map(|name| (*name).to_owned()).collect()
}

#[test]
fn fields_sort_by_name_case_sensitively() {
    assert_eq!(field_order(&names(&["zebra", "alpha", "mid"])), vec![1, 2, 0]);
    // Upper case sorts before lower case, as `str` orders them.
    assert_eq!(field_order(&names(&["beta", "Alpha", "alpha"])), vec![1, 2, 0]);
    assert_eq!(field_order(&names(&["ab", "a", "abc"])), vec![1, 0, 2]);
    assert_eq!(field_order(&names(&[])), Vec::<usize>::new());
}

#[test]
fn fields_with_the_same_name_keep_their_order() {
    assert_eq!(field_order(&names(&["b", "a", "b", "a"])), vec![1, 3, 0, 2]);
}

#[test]
fn sorted_fields_stay_in_place() {
    let order = field_order(&names(&["alpha", "beta", "gamma"]));
    assert!(in_place(&order));
    assert!(!in_place(&field_order(&names(&["beta", "alpha"]))));
    // Sorting a sorted result moves nothing: the fix is idempotent.
    let fields = names(&["zebra", "mid", "alpha"]);
    let order = field_order(&fields);
    let fixed: Vec<String> = order.iter().map(|index| fields[*index].clone()).collect();
    assert!(in_place(&field_order(&fixed)));
}

#[test]
fn gaps_lie_between_neighbouring_fields() {
    let fields = [Span { lo: 10, hi: 20 }, Span { lo: 22, hi: 30 }, Span { lo: 35, hi: 40 }];
    assert_eq!(gap_spans(&fields), vec![Span { lo: 20, hi: 22 }, Span { lo: 30, hi: 35 }]);
    assert!(gap_spans(&fields[..1]).is_empty());
    assert!(gap_spans(&[]).is_empty());
}

#[test]
fn a_separator_is_one_comma_in_white_space() {
    assert!(separator(","));
    assert!(separator(" ,\n    "));
    assert!(!separator(""));
    assert!(!separator(",,"));
    assert!(!separator(", // note\n"));
}

#[test]
fn only_plain_comments_block_the_edit() {
    assert!(plain_comment("struct A { a: u8, // note\n b: u8 }"));
    assert!(plain_comment("struct A { /* note */ a: u8 }"));
    assert!(plain_comment("struct A { //// four slashes\n a: u8 }"));
    assert!(plain_comment("struct A { /**/ a: u8 }"));
    assert!(plain_comment("struct A { /*** three stars */ a: u8 }"));
    assert!(plain_comment("//"));
    assert!(!plain_comment("struct A {\n    /// doc\n    a: u8,\n}"));
    assert!(!plain_comment("struct A { /** doc */ a: u8 }"));
    assert!(!plain_comment("//! inner doc"));
    assert!(!plain_comment("/*! inner doc */"));
    assert!(!plain_comment("struct A { a: &'static str = \"// not a comment\" }"));
}

#[test]
fn the_edit_puts_each_field_in_its_sorted_place() {
    let fields = [Span { lo: 0, hi: 8 }, Span { lo: 10, hi: 18 }];
    let snippets = vec![Some("zebra: u".to_owned()), Some("alpha: u".to_owned())];
    let gaps = vec![Some(", ".to_owned())];
    let item = Some("zebra: u, alpha: u".to_owned());
    let parts = replacements(&item, &fields, &snippets, &gaps, &[1, 0]).expect("an edit");
    assert_eq!(
        parts,
        vec![(fields[0], "alpha: u".to_owned()), (fields[1], "zebra: u".to_owned())],
    );
}

#[test]
fn the_edit_is_withheld_when_anything_is_unsure() {
    let fields = [Span { lo: 0, hi: 8 }, Span { lo: 10, hi: 18 }];
    let snippets = vec![Some("zebra: u".to_owned()), Some("alpha: u".to_owned())];
    let gaps = vec![Some(", ".to_owned())];
    let item = Some("zebra: u, alpha: u".to_owned());
    // No source for the struct.
    assert!(replacements(&None, &fields, &snippets, &gaps, &[1, 0]).is_none());
    // A plain comment in the struct.
    let commented = Some("zebra: u, /* x */ alpha: u".to_owned());
    assert!(replacements(&commented, &fields, &snippets, &gaps, &[1, 0]).is_none());
    // A field whose text is missing.
    let missing = vec![Some("zebra: u".to_owned()), None];
    assert!(replacements(&item, &fields, &missing, &gaps, &[1, 0]).is_none());
    // A gap holding more than a comma.
    let odd = vec![Some(", x ".to_owned())];
    assert!(replacements(&item, &fields, &snippets, &odd, &[1, 0]).is_none());
    let unknown = vec![None];
    assert!(replacements(&item, &fields, &snippets, &unknown, &[1, 0]).is_none());
}

#[test]
fn the_rule_speaks_in_its_own_words() {
    assert_eq!(MESSAGE, "named struct fields are not in alphabetical order");
    assert_eq!(FIX_LABEL, "reorder the fields");
    assert_eq!(FIX_HELP, "reorder the fields while preserving their associated comments");
    assert_eq!(CONFIG_KEY, "perfectionist::unordered_struct_fields");
}

fn adt(id: u64, has_dtor: bool, fields: Vec<usize>) -> TyNode {
    TyNode::Adt { id, has_dtor, is_union: false, fields }
}

fn drop_safe(nodes: Vec<TyNode>) -> bool {
    let mut visiting = Vec::new();
    let safe = safe_drop(&TyGraph { nodes }, 0, &mut visiting);
    assert!(visiting.is_empty());
    safe
}

#[test]
fn drop_safety_follows_what_a_type_owns() {
    assert!(drop_safe(vec![TyNode::Trivial]));
    assert!(drop_safe(vec![TyNode::Text]));
    assert!(!drop_safe(vec![TyNode::Other]));
    assert!(drop_safe(vec![TyNode::Tuple(vec![1, 2]), TyNode::Trivial, TyNode::Text]));
    assert!(!drop_safe(vec![TyNode::Tuple(vec![1, 2]), TyNode::Trivial, TyNode::Other]));
    assert!(drop_safe(vec![TyNode::Array(1), TyNode::Text]));
    assert!(!drop_safe(vec![adt(1, true, vec![])]));
    assert!(!drop_safe(vec![TyNode::Adt { id: 1, has_dtor: false, is_union: true, fields: vec![] }]));
    assert!(!drop_safe(vec![adt(1, false, vec![1]), adt(2, true, vec![])]));
    // A custom allocator is not trusted; nor is an unknown element.
    assert!(drop_safe(vec![TyNode::Owning { element: Some(1), global_allocator: true }, TyNode::Text]));
    assert!(!drop_safe(vec![TyNode::Owning { element: Some(1), global_allocator: false }, TyNode::Text]));
    assert!(!drop_safe(vec![TyNode::Owning { element: None, global_allocator: true }]));
    // A type out of the graph is not trusted.
    assert!(!drop_safe(vec![adt(1, false, vec![7])]));
}

#[test]
fn a_recursive_type_is_settled_by_the_outer_check() {
    // `struct List { next: Option<Box<List>> }`
    assert!(drop_safe(vec![
        adt(1, false, vec![1]),
        adt(2, false, vec![2]),
        TyNode::Owning { element: Some(0), global_allocator: true },
    ]));
}

#[test]
fn a_type_nested_past_the_limit_is_not_trusted() {
    let deep = |depth: usize| -> Vec<TyNode> {
        let mut nodes: Vec<TyNode> = (0..depth).map(|i| adt(i as u64, false, vec![i + 1])).collect();
        nodes.push(TyNode::Trivial);
        nodes
    };
    assert!(drop_safe(deep(DEPTH_LIMIT - 1)));
    assert!(!drop_safe(deep(DEPTH_LIMIT)));
}

#[test]
fn built_in_derives_are_read_off_the_impls() {
    let impls = vec![
        LocalImpl { trait_name: "Debug".to_owned(), is_builtin_derived: true, self_adt: Some(1) },
        LocalImpl { trait_name: "Clone".to_owned(), is_builtin_derived: false, self_adt: Some(1) },
        LocalImpl { trait_name: "Copy".to_owned(), is_builtin_derived: true, self_adt: None },
        LocalImpl { trait_name: "Copy".to_owned(), is_builtin_derived: true, self_adt: Some(2) },
    ];
    let derives = builtin_derives(&impls);
    let found: Vec<(u64, &str)> =
        derives.iter().map(|derive| (derive.adt, derive.trait_name.as_str())).collect();
    assert_eq!(found, vec![(1, "Debug"), (2, "Copy")]);
}

#[test]
fn copy_and_clone_need_a_copy_type() {
    let graph = TyGraph { nodes: vec![adt(1, false, vec![1]), TyNode::Trivial] };
    let impls = vec![
        LocalImpl { trait_name: "Clone".to_owned(), is_builtin_derived: true, self_adt: Some(1) },
        LocalImpl { trait_name: "Debug".to_owned(), is_builtin_derived: true, self_adt: Some(1) },
    ];
    let derives = builtin_derives(&impls);
    let source = SourceStruct { fields: vec![], derives: names(&["Clone"]) };
    assert!(!eligible(&graph, 0, false, &source, &derives));
    assert!(eligible(&graph, 0, true, &source, &derives));
    let debug = SourceStruct { fields: vec![], derives: names(&["Debug"]) };
    assert!(eligible(&graph, 0, false, &debug, &derives));
    // A derive the compiler did not build in.
    let copy = SourceStruct { fields: vec![], derives: names(&["Copy"]) };
    assert!(!eligible(&graph, 0, true, &copy, &derives));
    // Not an ADT at all.
    let tuple = TyGraph { nodes: vec![TyNode::Tuple(vec![])] };
    assert!(!eligible(&tuple, 0, false, &debug, &derives));
}

#[test]
fn a_record_reads_back_what_was_written_last() {
    let mut sources = Sources::new();
    assert!(sources.get((1, 2)).is_none());
    sources.insert((1, 2), SourceStruct { fields: vec![Span { lo: 1, hi: 2 }], derives: vec![] });
    sources.insert((3, 4), SourceStruct { fields: vec![], derives: names(&["Debug"]) });
    sources.insert((1, 2), SourceStruct { fields: vec![Span { lo: 5, hi: 6 }], derives: vec![] });
    assert_eq!(sources.get((1, 2)).unwrap().fields, vec![Span { lo: 5, hi: 6 }]);
    assert_eq!(sources.get((3, 4)).unwrap().derives, names(&["Debug"]));
    assert!(sources.get((2, 1)).is_none());
}

#[test]
fn a_path_at_or_past_the_limit_is_not_trusted_and_is_kept() {
    let graph = TyGraph { nodes: vec![TyNode::Trivial, TyNode::Text] };
    let mut at_limit: Vec<usize> = vec![1; DEPTH_LIMIT];
    assert!(!safe_drop(&graph, 0, &mut at_limit));
    assert_eq!(at_limit, vec![1; DEPTH_LIMIT]);
    let mut past: Vec<usize> = vec![1; DEPTH_LIMIT + 3];
    assert!(!safe_drop(&graph, 0, &mut past));
    assert_eq!(past.len(), DEPTH_LIMIT + 3);
    // A type already on a shorter path is settled by the outer check.
    let mut on_path: Vec<usize> = vec![0];
    assert!(safe_drop(&TyGraph { nodes: vec![TyNode::Other] }, 0, &mut on_path));
    assert_eq!(on_path, vec![0]);
}
