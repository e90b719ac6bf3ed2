//! The rules, one module each.
use crate::source::Span;
use crate::text::{chars_of, string_of};
use vstd::prelude::*;

pub mod excessive_nesting;
pub mod named_prelude_imports;
pub mod overly_long_file;
pub mod overly_long_function;
pub mod overly_long_method_chain;
pub mod too_many_struct_fields;
pub mod unordered_struct_fields;

verus! {

broadcast use vstd::string::group_string_axioms;

/// One diagnostic a rule emits: where it points, what it says, an
/// optional note at a span of its own, and its help lines.
pub struct Diagnostic {
    pub span: Span,
    pub message: String,
    pub note: Option<(Span, String)>,
    pub helps: Vec<&'static str>,
}

/// What a function is, as the size rules see it.
#[derive(Clone, Copy, Debug, PartialEq, Eq, Structural)]
pub enum FnShape {
    /// A free function.
    Item,
    /// A method or an associated function.
    Method,
    /// A closure, whose lines belong to the function it sits in.
    Closure,
}

/// What a pass knows of a function before it decides to measure it.
pub struct FnFacts {
    pub shape: FnShape,
    pub name: String,
    /// The signature span.
    pub span: Span,
    /// Whether the function comes from a macro expansion.
    pub generated: bool,
    /// Whether the function is test code: in a `#[cfg(test)]` module, a
    /// `#[test]` function, or in an integration-test or benchmark target.
    pub in_test_code: bool,
}

/// The label a function of this shape goes by in a message.
pub open spec fn shape_label(shape: FnShape) -> Seq<char> {
    match shape {
        FnShape::Method => "method"@,
        _ => "function"@,
    }
}

/// Whether a function is measured: a function or method written rather
/// than generated, and not test code where test code is exempt.
pub open spec fn is_measured_fn(facts: FnFacts, exempt_tests: bool) -> bool {
    &&& !(facts.shape is Closure)
    &&& !facts.generated
    &&& !(exempt_tests && facts.in_test_code)
}

/// The function as the size rules measure it, or `None` where it is not
/// measured (see [`is_measured_fn`]).
pub fn measured_fn(facts: FnFacts, exempt_tests: bool) -> (function: Option<MeasuredFn>)
    ensures
        function is Some <==> is_measured_fn(facts, exempt_tests),
        function matches Some(f) ==> {
            &&& f.kind_label@ == shape_label(facts.shape)
            &&& f.name == facts.name
            &&& f.span == facts.span
        },
{
    if facts.generated || (exempt_tests && facts.in_test_code) {
        return None;
    }
    let label = match facts.shape {
        FnShape::Item => "function",
        FnShape::Method => "method",
        FnShape::Closure => {
            return None;
        },
    };
    proof {
        reveal_strlit("function");
        reveal_strlit("method");
    }
    Some(MeasuredFn { kind_label: string_of(chars_of(label).as_slice()), name: facts.name, span: facts.span })
}

/// A function the size rules measure: one written rather than
/// generated, and not exempt test code.
pub struct MeasuredFn {
    /// What the function is called in a message: `function`, `method`.
    pub kind_label: String,
    /// Its name.
    pub name: String,
    /// Its signature span, where the diagnostic points.
    pub span: Span,
}

/// Where test code is exempt, no test function is measured, whatever
/// its shape; and a function's shape, free function or method, does not
/// change whether it is measured.
pub proof fn lemma_exempt_test_code_is_never_measured(facts: FnFacts, exempt_tests: bool)
    ensures
        exempt_tests && facts.in_test_code ==> !is_measured_fn(facts, exempt_tests),
        is_measured_fn(facts, exempt_tests) ==> !facts.generated && !(exempt_tests && facts.in_test_code),
        !(facts.shape is Closure) ==> is_measured_fn(FnFacts { shape: FnShape::Item, ..facts }, exempt_tests)
            == is_measured_fn(FnFacts { shape: FnShape::Method, ..facts }, exempt_tests),
{
}

} // verus!
