use perfectionist::derive_list::DeriveEntry;
use perfectionist::rule_index::{register_rule, DefaultState};
use perfectionist::rules::unordered_struct_fields::early::{
    key, Attribute, Collector, FieldDecl, Sources, StructDecl,
};
use perfectionist::rules::unordered_struct_fields::fixes::{emit, gap_spans};
use perfectionist::rules::unordered_struct_fields::safety::{LocalImpl, TyGraph, TyNode};
use perfectionist::rules::unordered_struct_fields::{FieldOrdering, NamedStruct};
use perfectionist::source::Span;

/// The span of the first `needle` in `source`.
fn span_of(source: &str, needle: &str) -> Span {
    let lo = source.find(needle).unwrap_or_else(|| panic!("`{needle}` in `{source}`"));
    Span { lo: lo as u32, hi: (lo + needle.len()) as u32 }
}

fn text_at(source: &str, span: Span) -> Option<String> {
    source.get(span.lo as usize..span.hi as usize).map(str::to_owned)
}

/// One field as written: its name, its declaration, and the doc
/// comment above it, if any.
struct Field<'a> {
    name: &'a str,
    decl: &'a str,
    doc: Option<&'a str>,
}

/// One struct under test: its name, source, derives and the type
/// graph of its type, whose node 0 is the struct.
struct Case<'a> {
    name: &'a str,
    source: String,
    fields: Vec<Field<'a>>,
    derives: Vec<&'a str>,
    is_copy: bool,
    graph: Vec<TyNode>,
}

const ADT: u64 = 1;

fn strukt(fields: Vec<usize>) -> TyNode {
    TyNode::Adt { id: ADT, has_dtor: false, is_union: false, fields }
}

fn decl(case: &Case, source: &str) -> StructDecl {
    let mut attrs = Vec::new();
    let mut derive_lists = Vec::new();
    if !case.derives.is_empty() {
        attrs.push(Attribute {
            span: span_of(source, "#[derive"),
            is_doc_comment: false,
            name: Some("derive".to_owned()),
        });
        derive_lists.push(Some(
            case.derives
                .iter()
                .map(|name| DeriveEntry {
                    name: (*name).to_owned(),
                    span: span_of(source, name),
                    is_unqualified: true,
                })
                .collect(),
        ));
    }
    StructDecl {
        ident_span: span_of(source, case.name),
        generated: false,
        attrs,
        fields: case
            .fields
            .iter()
            .map(|field| FieldDecl {
                span: span_of(source, field.decl),
                attrs: field
                    .doc
                    .map(|doc| {
                        vec![Attribute {
                            span: span_of(source, doc),
                            is_doc_comment: true,
                            name: None,
                        }]
                    })
                    .unwrap_or_default(),
                is_placeholder: false,
                has_default: false,
                type_has_macro: false,
                generated: false,
            })
            .collect(),
        derive_lists,
    }
}

fn impls(case: &Case) -> Vec<LocalImpl> {
    case.derives
        .iter()
        .map(|name| LocalImpl {
            trait_name: (*name).to_owned(),
            is_builtin_derived: true,
            self_adt: Some(ADT),
        })
        .collect()
}

/// Run both passes over `source` and, where the struct is flagged,
/// return the source with the offered edit applied (`None` for no
/// edit).
fn run(case: &Case, source: &str) -> Option<Option<String>> {
    let decl = decl(case, source);
    let mut sources = Sources::new();
    if let Some(record) = Collector.check_item(&decl) {
        sources.insert(key(decl.ident_span), record);
    }
    let mut pass = FieldOrdering::new();
    pass.check_crate(&impls(case));
    let item = NamedStruct {
        span: Span { lo: 0, hi: source.len() as u32 },
        ident_span: decl.ident_span,
        generated: false,
        field_names: case.fields.iter().map(|field| field.name.to_owned()).collect(),
        ty: 0,
        is_copy: case.is_copy,
    };
    let graph = TyGraph { nodes: case.graph.clone() };
    let flagged = pass.check_item(&item, &graph, &sources)?;
    let snippets: Vec<Option<String>> =
        flagged.fields.iter().map(|span| text_at(source, *span)).collect();
    let gaps: Vec<Option<String>> =
        gap_spans(&flagged.fields).iter().map(|span| text_at(source, *span)).collect();
    let report = emit(
        flagged.span,
        &flagged.fields,
        &flagged.order,
        &text_at(source, flagged.span),
        &snippets,
        &gaps,
    );
    Some(report.parts.map(|mut parts| {
        parts.sort_by_key(|(span, _)| std::cmp::Reverse(span.lo));
        let mut fixed = source.to_owned();
        for (span, text) in parts {
            fixed.replace_range(span.lo as usize..span.hi as usize, &text);
        }
        fixed
    }))
}

fn assert_fixed(case: &Case, expected: &str) {
    let fixed = run(case, &case.source)
        .expect("the struct is flagged")
        .expect("the struct gets an edit");
    assert!(fixed.contains(expected), "{fixed}");
    // Fixing again finds nothing to do.
    let settled = Case {
        name: case.name,
        source: fixed.clone(),
        fields: reordered(case),
        derives: case.derives.clone(),
        is_copy: case.is_copy,
        graph: case.graph.clone(),
    };
    assert!(run(&settled, &fixed).is_none(), "{fixed}");
}

/// The fields sorted by name, as they stand after the edit.
fn reordered<'a>(case: &Case<'a>) -> Vec<Field<'a>> {
    let mut fields: Vec<Field<'a>> = case
        .fields
        .iter()
        .map(|field| Field { name: field.name, decl: field.decl, doc: field.doc })
        .collect();
    fields.sort_by_key(|field| field.name);
    fields
}

fn field<'a>(name: &'a str, decl: &'a str) -> Field<'a> {
    Field { name, decl, doc: None }
}

fn pair<'a>(name: &'a str, source: &str, zebra: &'a str, alpha: &'a str) -> Case<'a> {
    Case {
        name,
        source: source.to_owned(),
        fields: vec![field("zebra", zebra), field("alpha", alpha)],
        derives: vec![],
        is_copy: false,
        graph: vec![],
    }
}

#[test]
fn safe_fields_are_fixed_and_the_result_is_idempotent() {
    let mut strings = pair(
        "Strings",
        "struct Strings { zebra: String, alpha: String }",
        "zebra: String",
        "alpha: String",
    );
    strings.graph = vec![strukt(vec![1, 1]), TyNode::Text];
    assert_fixed(&strings, "struct Strings { alpha: String, zebra: String }");

    let mut containers = pair(
        "Containers",
        "struct Containers { zebra: Vec<Option<String>>, alpha: Box<Result<String, u32>> }",
        "zebra: Vec<Option<String>>",
        "alpha: Box<Result<String, u32>>",
    );
    containers.graph = vec![
        strukt(vec![1, 4]),
        TyNode::Owning { element: Some(2), global_allocator: true },
        TyNode::Adt { id: 2, has_dtor: false, is_union: false, fields: vec![3] },
        TyNode::Text,
        TyNode::Owning { element: Some(5), global_allocator: true },
        TyNode::Adt { id: 3, has_dtor: false, is_union: false, fields: vec![3, 6] },
        TyNode::Trivial,
    ];
    assert_fixed(
        &containers,
        "struct Containers { alpha: Box<Result<String, u32>>, zebra: Vec<Option<String>> }",
    );

    let mut printable = pair(
        "Printable",
        "#[derive(Debug)]\nstruct Printable { zebra: String, alpha: String }",
        "zebra: String",
        "alpha: String",
    );
    printable.derives = vec!["Debug"];
    printable.graph = vec![strukt(vec![1, 1]), TyNode::Text];
    assert_fixed(&printable, "struct Printable { alpha: String, zebra: String }");

    let mut copied = pair(
        "Copied",
        "#[derive(Clone, Copy, Debug)]\nstruct Copied { zebra: u32, alpha: u32 }",
        "zebra: u32",
        "alpha: u32",
    );
    copied.derives = vec!["Clone", "Copy", "Debug"];
    copied.is_copy = true;
    copied.graph = vec![strukt(vec![1, 1]), TyNode::Trivial];
    assert_fixed(&copied, "struct Copied { alpha: u32, zebra: u32 }");

    let mut borrowed = pair(
        "Borrowed",
        "struct Borrowed<'view, Value> { zebra: &'view Value, alpha: u32 }",
        "zebra: &'view Value",
        "alpha: u32",
    );
    borrowed.graph = vec![strukt(vec![1, 1]), TyNode::Trivial];
    assert_fixed(
        &borrowed,
        "struct Borrowed<'view, Value> { alpha: u32, zebra: &'view Value }",
    );

    let documented = Case {
        name: "Documented",
        source: "struct Documented {\n    /// Last in the alphabet.\n    zebra: String,\n    /// First in the alphabet.\n    alpha: String,\n}".to_owned(),
        fields: vec![
            Field { name: "zebra", decl: "zebra: String", doc: Some("/// Last in the alphabet.") },
            Field { name: "alpha", decl: "alpha: String", doc: Some("/// First in the alphabet.") },
        ],
        derives: vec![],
        is_copy: false,
        graph: vec![strukt(vec![1, 1]), TyNode::Text],
    };
    assert_fixed(
        &documented,
        "/// First in the alphabet.\n    alpha: String,\n    /// Last in the alphabet.\n    zebra: String",
    );

    let mut raw = Case {
        name: "Raw",
        source: "struct Raw { zebra: u32, r#type: u32 }".to_owned(),
        fields: vec![field("zebra", "zebra: u32"), field("type", "r#type: u32")],
        derives: vec![],
        is_copy: false,
        graph: vec![],
    };
    raw.graph = vec![strukt(vec![1, 1]), TyNode::Trivial];
    assert_fixed(&raw, "struct Raw { r#type: u32, zebra: u32 }");
}

/// A drop-observable type: an ADT with its own `Drop`.
fn resource() -> TyNode {
    TyNode::Adt { id: 9, has_dtor: true, is_union: false, fields: vec![] }
}

#[test]
fn order_sensitive_declarations_are_untouched() {
    let mut cases = Vec::new();

    let mut guarded = pair(
        "Guarded",
        "struct Guarded { zebra: Resource, alpha: Resource }",
        "zebra: Resource",
        "alpha: Resource",
    );
    guarded.graph = vec![strukt(vec![1, 1]), resource()];
    cases.push(guarded);

    let mut transitive = pair(
        "Transitive",
        "struct Transitive { zebra: Option<Box<Resource>>, alpha: String }",
        "zebra: Option<Box<Resource>>",
        "alpha: String",
    );
    transitive.graph = vec![
        strukt(vec![1, 4]),
        TyNode::Adt { id: 2, has_dtor: false, is_union: false, fields: vec![2] },
        TyNode::Owning { element: Some(3), global_allocator: true },
        resource(),
        TyNode::Text,
    ];
    cases.push(transitive);

    let mut shared = pair(
        "Shared",
        "struct Shared { zebra: Option<std::sync::Arc<Resource>>, alpha: String }",
        "zebra: Option<std::sync::Arc<Resource>>",
        "alpha: String",
    );
    shared.graph = vec![
        strukt(vec![1, 3]),
        TyNode::Adt { id: 2, has_dtor: false, is_union: false, fields: vec![2] },
        TyNode::Adt { id: 4, has_dtor: true, is_union: false, fields: vec![] },
        TyNode::Text,
    ];
    cases.push(shared);

    let mut owned = pair(
        "Owned",
        "struct Owned<Value> { zebra: Value, alpha: u32 }",
        "zebra: Value",
        "alpha: u32",
    );
    owned.graph = vec![strukt(vec![1, 2]), TyNode::Other, TyNode::Trivial];
    cases.push(owned);

    let mut dynamic = pair(
        "Dynamic",
        "struct Dynamic { zebra: Box<dyn core::fmt::Debug>, alpha: u32 }",
        "zebra: Box<dyn core::fmt::Debug>",
        "alpha: u32",
    );
    dynamic.graph = vec![
        strukt(vec![1, 3]),
        TyNode::Owning { element: Some(2), global_allocator: true },
        TyNode::Other,
        TyNode::Trivial,
    ];
    cases.push(dynamic);

    let mut cloned = pair(
        "Cloned",
        "#[derive(Clone)]\nstruct Cloned { zebra: String, alpha: String }",
        "zebra: String",
        "alpha: String",
    );
    cloned.derives = vec!["Clone"];
    cloned.graph = vec![strukt(vec![1, 1]), TyNode::Text];
    cases.push(cloned);

    let mut drop_itself = pair(
        "DropItself",
        "struct DropItself { zebra: String, alpha: String }",
        "zebra: String",
        "alpha: String",
    );
    drop_itself.graph = vec![
        TyNode::Adt { id: ADT, has_dtor: true, is_union: false, fields: vec![1, 1] },
        TyNode::Text,
    ];
    cases.push(drop_itself);

    for case in &cases {
        assert!(run(case, &case.source).is_none(), "{}", case.source);
    }

    // What the early pass refuses to record: `repr`, `cfg` on a field,
    // derives it cannot reason about, expansions, macros in types.
    let foreign_source = "#[repr(C)]\nstruct Foreign { zebra: u32, alpha: u32 }";
    let mut foreign = decl(
        &pair("Foreign", foreign_source, "zebra: u32", "alpha: u32"),
        foreign_source,
    );
    foreign.attrs.push(Attribute {
        span: span_of(foreign_source, "#[repr(C)]"),
        is_doc_comment: false,
        name: Some("repr".to_owned()),
    });
    assert!(Collector.check_item(&foreign).is_none());

    let conditional_source =
        "struct Conditional { zebra: u32, #[cfg(any())] hidden: u32, alpha: u32 }";
    let mut conditional = decl(
        &pair("Conditional", conditional_source, "zebra: u32", "alpha: u32"),
        conditional_source,
    );
    conditional.fields.insert(
        1,
        FieldDecl {
            span: span_of(conditional_source, "hidden: u32"),
            attrs: vec![Attribute {
                span: span_of(conditional_source, "#[cfg(any())]"),
                is_doc_comment: false,
                name: Some("cfg".to_owned()),
            }],
            is_placeholder: false,
            has_default: false,
            type_has_macro: false,
            generated: false,
        },
    );
    assert!(Collector.check_item(&conditional).is_none());

    for derive in ["Default", "PartialEq"] {
        let source = format!("#[derive({derive})]\nstruct Refused {{ zebra: u32, alpha: u32 }}");
        let mut case = pair("Refused", &source, "zebra: u32", "alpha: u32");
        case.derives = vec![derive];
        assert!(Collector.check_item(&decl(&case, &source)).is_none());
    }

    let generated_source = "struct Generated { zebra: u32, alpha: u32 }";
    let mut generated = decl(
        &pair("Generated", generated_source, "zebra: u32", "alpha: u32"),
        generated_source,
    );
    generated.generated = true;
    assert!(Collector.check_item(&generated).is_none());

    let location_source = "struct LocationDependent { zebra: [u8; line!() as usize], alpha: u32 }";
    let mut location = decl(
        &pair("LocationDependent", location_source, "zebra: [u8; line!() as usize]", "alpha: u32"),
        location_source,
    );
    location.fields[0].type_has_macro = true;
    assert!(Collector.check_item(&location).is_none());
}

#[test]
fn opt_out_preserves_unsorted_fields() {
    let state = FieldOrdering::default_state();
    assert_eq!(state, DefaultState::Inactive);
    let registration = register_rule(state);
    assert!(registration.lint);
    assert!(!registration.pass);
}

#[test]
fn procedural_attributes_and_disguised_derives_are_excluded() {
    // `#[derive(Debug)]` naming a procedural macro: no built-in impl.
    let mut impostor = pair(
        "Impostor",
        "#[derive(Debug)]\nstruct Impostor { zebra: u32, alpha: u32 }",
        "zebra: u32",
        "alpha: u32",
    );
    impostor.derives = vec!["Debug"];
    impostor.graph = vec![strukt(vec![1, 1]), TyNode::Trivial];
    let decl_impostor = decl(&impostor, &impostor.source);
    let mut sources = Sources::new();
    sources.insert(
        key(decl_impostor.ident_span),
        Collector.check_item(&decl_impostor).expect("recorded before expansion"),
    );
    let pass = FieldOrdering::new();
    let item = NamedStruct {
        span: Span { lo: 0, hi: impostor.source.len() as u32 },
        ident_span: decl_impostor.ident_span,
        generated: false,
        field_names: vec!["zebra".to_owned(), "alpha".to_owned()],
        ty: 0,
        is_copy: false,
    };
    assert!(pass
        .check_item(&item, &TyGraph { nodes: impostor.graph.clone() }, &sources)
        .is_none());

    // A qualified derive path is not read as the built-in one.
    let positional_source = "#[derive(macros::From)]\nstruct Positional { zebra: u32, alpha: u32 }";
    let mut positional = decl(
        &pair("Positional", positional_source, "zebra: u32", "alpha: u32"),
        positional_source,
    );
    positional.attrs.push(Attribute {
        span: span_of(positional_source, "#[derive"),
        is_doc_comment: false,
        name: Some("derive".to_owned()),
    });
    positional.derive_lists.push(Some(vec![DeriveEntry {
        name: "From".to_owned(),
        span: span_of(positional_source, "macros::From"),
        is_unqualified: false,
    }]));
    assert!(Collector.check_item(&positional).is_none());

    // An attribute macro, whose path is not a single name.
    let object_source = "#[macros::object]\nstruct Object { zebra: u32, alpha: u32 }";
    let mut object = decl(&pair("Object", object_source, "zebra: u32", "alpha: u32"), object_source);
    object.attrs.push(Attribute {
        span: span_of(object_source, "#[macros::object]"),
        is_doc_comment: false,
        name: None,
    });
    assert!(Collector.check_item(&object).is_none());

    // A helper attribute on a field.
    let serialized_source = "struct Serialized { zebra: u32, #[serde(default)] alpha: u32 }";
    let mut serialized = decl(
        &pair("Serialized", serialized_source, "zebra: u32", "alpha: u32"),
        serialized_source,
    );
    serialized.fields[1].attrs.push(Attribute {
        span: span_of(serialized_source, "#[serde(default)]"),
        is_doc_comment: false,
        name: Some("serde".to_owned()),
    });
    assert!(Collector.check_item(&serialized).is_none());

    // The same final segment derived twice.
    let composite_source = "#[derive(Debug, macros::Debug)]\nstruct Composite { zebra: u32, alpha: u32 }";
    let mut composite = decl(
        &pair("Composite", composite_source, "zebra: u32", "alpha: u32"),
        composite_source,
    );
    composite.attrs.push(Attribute {
        span: span_of(composite_source, "#[derive"),
        is_doc_comment: false,
        name: Some("derive".to_owned()),
    });
    composite.derive_lists.push(Some(vec![
        DeriveEntry {
            name: "Debug".to_owned(),
            span: span_of(composite_source, "Debug"),
            is_unqualified: true,
        },
        DeriveEntry {
            name: "Debug".to_owned(),
            span: span_of(composite_source, "macros::Debug"),
            is_unqualified: false,
        },
    ]));
    assert!(Collector.check_item(&composite).is_none());
}

#[test]
fn ambiguous_comments_are_diagnosed_without_automatic_edits() {
    let source = "struct Commented {\n    zebra: u32,\n    // A grouping boundary whose ownership is ambiguous.\n    alpha: u32,\n}\n";
    let mut commented = pair("Commented", source, "zebra: u32", "alpha: u32");
    commented.graph = vec![strukt(vec![1, 1]), TyNode::Trivial];
    let outcome = run(&commented, source).expect("the struct is flagged");
    assert!(outcome.is_none());
}
