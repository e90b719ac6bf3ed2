//! The index of every rule this plugin ships, and what it takes to
//! register one.
use crate::text::{chars_of, compare_chars, lemma_lex_total, lemma_lex_transitive, lex_lt, Order};
use vstd::prelude::*;

verus! {

/// Whether a rule's pass installs when `dylint.toml` says nothing
/// about the rule either way.
#[derive(Clone, Copy, Debug, PartialEq, Eq, Structural)]
pub enum DefaultState {
    Active,
    Inactive,
}

/// What registering one rule does: its lint declaration always, its
/// pass where the rule resolves to active.
#[derive(Clone, Copy, Debug, PartialEq, Eq, Structural)]
pub struct Registration {
    pub lint: bool,
    pub pass: bool,
}

/// Register one rule, given the state `dylint.toml` and the rule's
/// default resolved it to: the lint is always declared, and the pass is
/// installed only for an active rule.
pub fn register_rule(resolved: DefaultState) -> (registration: Registration)
    ensures
        registration.lint,
        registration.pass == (resolved == DefaultState::Active),
{
    match resolved {
        DefaultState::Active => Registration { lint: true, pass: true },
        DefaultState::Inactive => Registration { lint: true, pass: false },
    }
}


/// Whether `name` is one of `names`.
pub open spec fn names_rule(names: Seq<String>, name: Seq<char>) -> bool {
    exists|i: int| 0 <= i < names.len() && (#[trigger] names[i])@ == name
}

/// The state a rule resolves to: inactive where the `[perfectionist]`
/// table's `disable` list names it, else active where its `enable` list
/// does, else the rule's own default.
pub open spec fn spec_resolved_state(
    name: Seq<char>,
    default: DefaultState,
    enable: Seq<String>,
    disable: Seq<String>,
) -> DefaultState {
    if names_rule(disable, name) {
        DefaultState::Inactive
    } else if names_rule(enable, name) {
        DefaultState::Active
    } else {
        default
    }
}

/// Whether `name` is one of `names`.
fn lists_rule(names: &[String], name: &str) -> (found: bool)
    ensures
        found == names_rule(names@, name@),
{
    let wanted = chars_of(name);
    let mut i: usize = 0;
    while i < names.len()
        invariant
            i <= names@.len(),
            wanted@ == name@,
            forall|k: int| 0 <= k < i ==> (#[trigger] names@[k])@ != name@,
        decreases names@.len() - i,
    {
        let candidate = chars_of(names[i].as_str());
        if let Order::Equal = compare_chars(candidate.as_slice(), wanted.as_slice()) {
            return true;
        }
        i = i + 1;
    }
    false
}

/// The state the rule `name` resolves to, given its default and the
/// `enable` and `disable` lists of the `[perfectionist]` table (see
/// [`spec_resolved_state`]).
pub fn resolved_state(name: &str, default: DefaultState, enable: &[String], disable: &[String]) -> (state: DefaultState)
    ensures
        state == spec_resolved_state(name@, default, enable@, disable@),
{
    if lists_rule(disable, name) {
        DefaultState::Inactive
    } else if lists_rule(enable, name) {
        DefaultState::Active
    } else {
        default
    }
}

/// How many lints the plugin registers.
pub const LINT_COUNT: usize = 45;

/// Every lint this plugin registers, unqualified (the name after the
/// `perfectionist::` prefix), in ascending order.
pub open spec fn lint_names() -> Seq<Seq<char>> {
    seq![
        "allow_attributes"@,
        "allow_attributes_without_reason"@,
        "arbitrary_source_item_ordering"@,
        "avoidable_string_escapes"@,
        "bare_email"@,
        "bare_identifier_reference"@,
        "bare_issue_reference"@,
        "bare_url"@,
        "clap_help_markdown"@,
        "core_instead_of_std"@,
        "excessive_cognitive_complexity"@,
        "excessive_inline_tests"@,
        "excessive_nesting"@,
        "exhaustive_error_enums"@,
        "import_granularity_mismatch"@,
        "import_grouping_mismatch"@,
        "impure_macro_arguments"@,
        "lint_attribute_trailing_comment"@,
        "macro_trailing_comma"@,
        "named_prelude_imports"@,
        "needless_borrowed_parameters"@,
        "overly_long_file"@,
        "overly_long_function"@,
        "overly_long_method_chain"@,
        "overly_long_print_macro"@,
        "redundant_derive_more_forward_template"@,
        "single_letter_closure_param"@,
        "single_letter_const_generic"@,
        "single_letter_const_item"@,
        "single_letter_function_param"@,
        "single_letter_generic"@,
        "single_letter_let_binding"@,
        "single_letter_static_item"@,
        "thiserror_usage"@,
        "too_many_local_bindings"@,
        "too_many_struct_fields"@,
        "uncombined_self_import"@,
        "unicode_ellipsis_in_comments"@,
        "unicode_ellipsis_in_docs"@,
        "unicode_ellipsis_in_panic_messages"@,
        "unknown_perfectionist_lints"@,
        "unordered_derives"@,
        "unordered_struct_fields"@,
        "unpinned_repo_ref"@,
        "wildcard_imports"@,
    ]
}

/// Whether every name comes before every later one.
pub open spec fn ascending(names: Seq<Seq<char>>) -> bool {
    forall|i: int, j: int| 0 <= i < j < names.len() ==> lex_lt(#[trigger] names[i], #[trigger] names[j])
}

/// The lint names, unqualified, in ascending order (see [`lint_names`]).
pub fn registered_lints() -> (names: Vec<&'static str>)
    ensures
        names@.len() == lint_names().len(),
        forall|i: int| 0 <= i < names@.len() ==> (#[trigger] names@[i])@ == lint_names()[i],
{
    let mut names: Vec<&'static str> = Vec::new();
    names.push("allow_attributes");
    names.push("allow_attributes_without_reason");
    names.push("arbitrary_source_item_ordering");
    names.push("avoidable_string_escapes");
    names.push("bare_email");
    names.push("bare_identifier_reference");
    names.push("bare_issue_reference");
    names.push("bare_url");
    names.push("clap_help_markdown");
    names.push("core_instead_of_std");
    names.push("excessive_cognitive_complexity");
    names.push("excessive_inline_tests");
    names.push("excessive_nesting");
    names.push("exhaustive_error_enums");
    names.push("import_granularity_mismatch");
    names.push("import_grouping_mismatch");
    names.push("impure_macro_arguments");
    names.push("lint_attribute_trailing_comment");
    names.push("macro_trailing_comma");
    names.push("named_prelude_imports");
    names.push("needless_borrowed_parameters");
    names.push("overly_long_file");
    names.push("overly_long_function");
    names.push("overly_long_method_chain");
    names.push("overly_long_print_macro");
    names.push("redundant_derive_more_forward_template");
    names.push("single_letter_closure_param");
    names.push("single_letter_const_generic");
    names.push("single_letter_const_item");
    names.push("single_letter_function_param");
    names.push("single_letter_generic");
    names.push("single_letter_let_binding");
    names.push("single_letter_static_item");
    names.push("thiserror_usage");
    names.push("too_many_local_bindings");
    names.push("too_many_struct_fields");
    names.push("uncombined_self_import");
    names.push("unicode_ellipsis_in_comments");
    names.push("unicode_ellipsis_in_docs");
    names.push("unicode_ellipsis_in_panic_messages");
    names.push("unknown_perfectionist_lints");
    names.push("unordered_derives");
    names.push("unordered_struct_fields");
    names.push("unpinned_repo_ref");
    names.push("wildcard_imports");
    names
}

/// `a` comes before `b` where they first differ, at `k`.
proof fn lemma_lt_at(a: Seq<char>, b: Seq<char>, k: int)
    requires
        0 <= k < a.len(),
        k < b.len(),
        a.take(k) == b.take(k),
        a[k] < b[k],
    ensures
        lex_lt(a, b),
{
}

/// A proper prefix comes first.
proof fn lemma_lt_prefix(a: Seq<char>, b: Seq<char>)
    requires
        a.len() < b.len(),
        a == b.take(a.len() as int),
    ensures
        lex_lt(a, b),
{
    assert(a.take(a.len() as int) =~= a);
}

/// Each name comes before the next.
proof fn lemma_neighbours_ascend()
    ensures
        forall|i: int| 0 <= i < lint_names().len() - 1 ==> lex_lt(#[trigger] lint_names()[i], lint_names()[i + 1]),
{
    reveal_strlit("allow_attributes");
    reveal_strlit("allow_attributes_without_reason");
    reveal_strlit("arbitrary_source_item_ordering");
    reveal_strlit("avoidable_string_escapes");
    reveal_strlit("bare_email");
    reveal_strlit("bare_identifier_reference");
    reveal_strlit("bare_issue_reference");
    reveal_strlit("bare_url");
    reveal_strlit("clap_help_markdown");
    reveal_strlit("core_instead_of_std");
    reveal_strlit("excessive_cognitive_complexity");
    reveal_strlit("excessive_inline_tests");
    reveal_strlit("excessive_nesting");
    reveal_strlit("exhaustive_error_enums");
    reveal_strlit("import_granularity_mismatch");
    reveal_strlit("import_grouping_mismatch");
    reveal_strlit("impure_macro_arguments");
    reveal_strlit("lint_attribute_trailing_comment");
    reveal_strlit("macro_trailing_comma");
    reveal_strlit("named_prelude_imports");
    reveal_strlit("needless_borrowed_parameters");
    reveal_strlit("overly_long_file");
    reveal_strlit("overly_long_function");
    reveal_strlit("overly_long_method_chain");
    reveal_strlit("overly_long_print_macro");
    reveal_strlit("redundant_derive_more_forward_template");
    reveal_strlit("single_letter_closure_param");
    reveal_strlit("single_letter_const_generic");
    reveal_strlit("single_letter_const_item");
    reveal_strlit("single_letter_function_param");
    reveal_strlit("single_letter_generic");
    reveal_strlit("single_letter_let_binding");
    reveal_strlit("single_letter_static_item");
    reveal_strlit("thiserror_usage");
    reveal_strlit("too_many_local_bindings");
    reveal_strlit("too_many_struct_fields");
    reveal_strlit("uncombined_self_import");
    reveal_strlit("unicode_ellipsis_in_comments");
    reveal_strlit("unicode_ellipsis_in_docs");
    reveal_strlit("unicode_ellipsis_in_panic_messages");
    reveal_strlit("unknown_perfectionist_lints");
    reveal_strlit("unordered_derives");
    reveal_strlit("unordered_struct_fields");
    reveal_strlit("unpinned_repo_ref");
    reveal_strlit("wildcard_imports");
    assert("allow_attributes"@ =~= "allow_attributes_without_reason"@.take(16));
    lemma_lt_prefix("allow_attributes"@, "allow_attributes_without_reason"@);
    assert("allow_attributes_without_reason"@.take(1) =~= "arbitrary_source_item_ordering"@.take(1));
    lemma_lt_at("allow_attributes_without_reason"@, "arbitrary_source_item_ordering"@, 1);
    assert("arbitrary_source_item_ordering"@.take(1) =~= "avoidable_string_escapes"@.take(1));
    lemma_lt_at("arbitrary_source_item_ordering"@, "avoidable_string_escapes"@, 1);
    assert("avoidable_string_escapes"@.take(0) =~= "bare_email"@.take(0));
    lemma_lt_at("avoidable_string_escapes"@, "bare_email"@, 0);
    assert("bare_email"@.take(5) =~= "bare_identifier_reference"@.take(5));
    lemma_lt_at("bare_email"@, "bare_identifier_reference"@, 5);
    assert("bare_identifier_reference"@.take(6) =~= "bare_issue_reference"@.take(6));
    lemma_lt_at("bare_identifier_reference"@, "bare_issue_reference"@, 6);
    assert("bare_issue_reference"@.take(5) =~= "bare_url"@.take(5));
    lemma_lt_at("bare_issue_reference"@, "bare_url"@, 5);
    assert("bare_url"@.take(0) =~= "clap_help_markdown"@.take(0));
    lemma_lt_at("bare_url"@, "clap_help_markdown"@, 0);
    assert("clap_help_markdown"@.take(1) =~= "core_instead_of_std"@.take(1));
    lemma_lt_at("clap_help_markdown"@, "core_instead_of_std"@, 1);
    assert("core_instead_of_std"@.take(0) =~= "excessive_cognitive_complexity"@.take(0));
    lemma_lt_at("core_instead_of_std"@, "excessive_cognitive_complexity"@, 0);
    assert("excessive_cognitive_complexity"@.take(10) =~= "excessive_inline_tests"@.take(10));
    lemma_lt_at("excessive_cognitive_complexity"@, "excessive_inline_tests"@, 10);
    assert("excessive_inline_tests"@.take(10) =~= "excessive_nesting"@.take(10));
    lemma_lt_at("excessive_inline_tests"@, "excessive_nesting"@, 10);
    assert("excessive_nesting"@.take(2) =~= "exhaustive_error_enums"@.take(2));
    lemma_lt_at("excessive_nesting"@, "exhaustive_error_enums"@, 2);
    assert("exhaustive_error_enums"@.take(0) =~= "import_granularity_mismatch"@.take(0));
    lemma_lt_at("exhaustive_error_enums"@, "import_granularity_mismatch"@, 0);
    assert("import_granularity_mismatch"@.take(9) =~= "import_grouping_mismatch"@.take(9));
    lemma_lt_at("import_granularity_mismatch"@, "import_grouping_mismatch"@, 9);
    assert("import_grouping_mismatch"@.take(3) =~= "impure_macro_arguments"@.take(3));
    lemma_lt_at("import_grouping_mismatch"@, "impure_macro_arguments"@, 3);
    assert("impure_macro_arguments"@.take(0) =~= "lint_attribute_trailing_comment"@.take(0));
    lemma_lt_at("impure_macro_arguments"@, "lint_attribute_trailing_comment"@, 0);
    assert("lint_attribute_trailing_comment"@.take(0) =~= "macro_trailing_comma"@.take(0));
    lemma_lt_at("lint_attribute_trailing_comment"@, "macro_trailing_comma"@, 0);
    assert("macro_trailing_comma"@.take(0) =~= "named_prelude_imports"@.take(0));
    lemma_lt_at("macro_trailing_comma"@, "named_prelude_imports"@, 0);
    assert("named_prelude_imports"@.take(1) =~= "needless_borrowed_parameters"@.take(1));
    lemma_lt_at("named_prelude_imports"@, "needless_borrowed_parameters"@, 1);
    assert("needless_borrowed_parameters"@.take(0) =~= "overly_long_file"@.take(0));
    lemma_lt_at("needless_borrowed_parameters"@, "overly_long_file"@, 0);
    assert("overly_long_file"@.take(13) =~= "overly_long_function"@.take(13));
    lemma_lt_at("overly_long_file"@, "overly_long_function"@, 13);
    assert("overly_long_function"@.take(12) =~= "overly_long_method_chain"@.take(12));
    lemma_lt_at("overly_long_function"@, "overly_long_method_chain"@, 12);
    assert("overly_long_method_chain"@.take(12) =~= "overly_long_print_macro"@.take(12));
    lemma_lt_at("overly_long_method_chain"@, "overly_long_print_macro"@, 12);
    assert("overly_long_print_macro"@.take(0) =~= "redundant_derive_more_forward_template"@.take(0));
    lemma_lt_at("overly_long_print_macro"@, "redundant_derive_more_forward_template"@, 0);
    assert("redundant_derive_more_forward_template"@.take(0) =~= "single_letter_closure_param"@.take(0));
    lemma_lt_at("redundant_derive_more_forward_template"@, "single_letter_closure_param"@, 0);
    assert("single_letter_closure_param"@.take(15) =~= "single_letter_const_generic"@.take(15));
    lemma_lt_at("single_letter_closure_param"@, "single_letter_const_generic"@, 15);
    assert("single_letter_const_generic"@.take(20) =~= "single_letter_const_item"@.take(20));
    lemma_lt_at("single_letter_const_generic"@, "single_letter_const_item"@, 20);
    assert("single_letter_const_item"@.take(14) =~= "single_letter_function_param"@.take(14));
    lemma_lt_at("single_letter_const_item"@, "single_letter_function_param"@, 14);
    assert("single_letter_function_param"@.take(14) =~= "single_letter_generic"@.take(14));
    lemma_lt_at("single_letter_function_param"@, "single_letter_generic"@, 14);
    assert("single_letter_generic"@.take(14) =~= "single_letter_let_binding"@.take(14));
    lemma_lt_at("single_letter_generic"@, "single_letter_let_binding"@, 14);
    assert("single_letter_let_binding"@.take(14) =~= "single_letter_static_item"@.take(14));
    lemma_lt_at("single_letter_let_binding"@, "single_letter_static_item"@, 14);
    assert("single_letter_static_item"@.take(0) =~= "thiserror_usage"@.take(0));
    lemma_lt_at("single_letter_static_item"@, "thiserror_usage"@, 0);
    assert("thiserror_usage"@.take(1) =~= "too_many_local_bindings"@.take(1));
    lemma_lt_at("thiserror_usage"@, "too_many_local_bindings"@, 1);
    assert("too_many_local_bindings"@.take(9) =~= "too_many_struct_fields"@.take(9));
    lemma_lt_at("too_many_local_bindings"@, "too_many_struct_fields"@, 9);
    assert("too_many_struct_fields"@.take(0) =~= "uncombined_self_import"@.take(0));
    lemma_lt_at("too_many_struct_fields"@, "uncombined_self_import"@, 0);
    assert("uncombined_self_import"@.take(2) =~= "unicode_ellipsis_in_comments"@.take(2));
    lemma_lt_at("uncombined_self_import"@, "unicode_ellipsis_in_comments"@, 2);
    assert("unicode_ellipsis_in_comments"@.take(20) =~= "unicode_ellipsis_in_docs"@.take(20));
    lemma_lt_at("unicode_ellipsis_in_comments"@, "unicode_ellipsis_in_docs"@, 20);
    assert("unicode_ellipsis_in_docs"@.take(20) =~= "unicode_ellipsis_in_panic_messages"@.take(20));
    lemma_lt_at("unicode_ellipsis_in_docs"@, "unicode_ellipsis_in_panic_messages"@, 20);
    assert("unicode_ellipsis_in_panic_messages"@.take(2) =~= "unknown_perfectionist_lints"@.take(2));
    lemma_lt_at("unicode_ellipsis_in_panic_messages"@, "unknown_perfectionist_lints"@, 2);
    assert("unknown_perfectionist_lints"@.take(2) =~= "unordered_derives"@.take(2));
    lemma_lt_at("unknown_perfectionist_lints"@, "unordered_derives"@, 2);
    assert("unordered_derives"@.take(10) =~= "unordered_struct_fields"@.take(10));
    lemma_lt_at("unordered_derives"@, "unordered_struct_fields"@, 10);
    assert("unordered_struct_fields"@.take(2) =~= "unpinned_repo_ref"@.take(2));
    lemma_lt_at("unordered_struct_fields"@, "unpinned_repo_ref"@, 2);
    assert("unpinned_repo_ref"@.take(0) =~= "wildcard_imports"@.take(0));
    lemma_lt_at("unpinned_repo_ref"@, "wildcard_imports"@, 0);
    let s = lint_names();
    assert forall|i: int| 0 <= i < s.len() - 1 implies lex_lt(#[trigger] s[i], s[i + 1]) by {
    }
}

/// Where each of a list's names comes before the next, each comes
/// before every later one.
proof fn lemma_chain_ascends(names: Seq<Seq<char>>, i: int, j: int)
    requires
        forall|k: int| 0 <= k < names.len() - 1 ==> lex_lt(#[trigger] names[k], names[k + 1]),
        0 <= i < j < names.len(),
    ensures
        lex_lt(names[i], names[j]),
    decreases j - i,
{
    if i + 1 < j {
        lemma_chain_ascends(names, i + 1, j);
        lemma_lex_transitive(names[i], names[i + 1], names[j]);
    }
}

/// The lint names are in strictly ascending order, so no name occurs
/// twice and a binary search finds any of them.
pub proof fn lemma_lint_names_ascending()
    ensures
        ascending(lint_names()),
{
    lemma_neighbours_ascend();
    assert forall|i: int, j: int| 0 <= i < j < lint_names().len() implies lex_lt(
        #[trigger] lint_names()[i],
        #[trigger] lint_names()[j],
    ) by {
        lemma_chain_ascends(lint_names(), i, j);
    }
}

/// Whether `name`, with the `perfectionist::` prefix already stripped,
/// is a lint this plugin registers. A binary search over the ascending
/// names.
pub fn is_registered_lint(name: &str) -> (registered: bool)
    ensures
        registered == lint_names().contains(name@),
{
    let names = registered_lints();
    let wanted = chars_of(name);
    proof {
        lemma_lint_names_ascending();
    }
    let ghost s = lint_names();
    let mut lo: usize = 0;
    let mut hi: usize = names.len();
    while lo < hi
        invariant
            s == lint_names(),
            ascending(s),
            names@.len() == s.len(),
            forall|i: int| 0 <= i < names@.len() ==> (#[trigger] names@[i])@ == s[i],
            wanted@ == name@,
            lo <= hi <= s.len(),
            forall|i: int| 0 <= i < lo ==> lex_lt(#[trigger] s[i], name@),
            forall|i: int| hi <= i < s.len() ==> lex_lt(name@, #[trigger] s[i]),
        decreases hi - lo,
    {
        let mid = lo + (hi - lo) / 2;
        let probe = chars_of(names[mid]);
        assert(probe@ == s[mid as int]);
        match compare_chars(probe.as_slice(), wanted.as_slice()) {
            Order::Equal => {
                assert(s[mid as int] == name@);
                return true;
            },
            Order::Less => {
                proof {
                    assert forall|i: int| 0 <= i <= mid implies lex_lt(#[trigger] s[i], name@) by {
                        if i < mid {
                            lemma_lex_transitive(s[i], s[mid as int], name@);
                        }
                    }
                }
                lo = mid + 1;
            },
            Order::Greater => {
                proof {
                    lemma_lex_total(s[mid as int], name@);
                    assert forall|i: int| mid <= i < s.len() implies lex_lt(name@, #[trigger] s[i]) by {
                        if mid < i {
                            lemma_lex_transitive(name@, s[mid as int], s[i]);
                        }
                    }
                }
                hi = mid;
            },
        }
    }
    proof {
        assert forall|i: int| 0 <= i < s.len() implies #[trigger] s[i] != name@ by {
            lemma_lex_total(s[i], name@);
        }
    }
    false
}

} // verus!
