//! `perfectionist::too_many_struct_fields` — flag a struct with more
//! fields than the configured maximum.
//!
//! Named and tuple structs are measured; a unit struct has no fields.
//! A struct produced by a macro expansion is not measured.
use crate::rule_index::DefaultState;
use crate::rules::Diagnostic;
use crate::source::Span;
use crate::text::{chars_of, decimal, extend_str, push_decimal, string_of};
use vstd::prelude::*;

verus! {

/// The rule's table in `dylint.toml`.
pub const CONFIG_KEY: &'static str = "perfectionist::too_many_struct_fields";

broadcast use vstd::string::group_string_axioms;

/// A struct whose constructor still fits in one look.
pub const DEFAULT_MAX_FIELDS: usize = 10;

/// What a struct with too many fields is told to do.
pub const GROUP_HELP: &'static str = "group related fields into a struct of their own, or split the type by the concerns its fields serve";

/// The rule's configuration.
pub struct Config {
    /// The most fields a struct may have without being flagged.
    pub max_fields: usize,
    /// Whether test code is left alone.
    pub exempt_tests: bool,
}

impl Config {
    /// `max_fields = 10`, and test code is measured.
    pub fn default() -> (config: Config)
        ensures
            config.max_fields == DEFAULT_MAX_FIELDS,
            !config.exempt_tests,
    {
        Config { max_fields: DEFAULT_MAX_FIELDS, exempt_tests: false }
    }
}

/// The shape of a struct's fields.
pub enum VariantShape {
    /// Named fields, this many.
    Struct(usize),
    /// Positional fields, this many.
    Tuple(usize),
    /// No fields.
    Unit,
}

/// What the pass knows of one struct item.
pub struct StructItem {
    pub name: String,
    pub shape: VariantShape,
    /// Whether the item comes from a macro expansion.
    pub generated: bool,
    /// Whether the item is test code.
    pub in_test_code: bool,
    /// The struct's header, `struct Name`.
    pub def_span: Span,
}

/// The `too_many_struct_fields` pass.
pub struct TooManyStructFields {
    pub config: Config,
}

/// The number of fields of a struct of this shape.
pub open spec fn spec_field_count(shape: VariantShape) -> nat {
    match shape {
        VariantShape::Struct(n) => n as nat,
        VariantShape::Tuple(n) => n as nat,
        VariantShape::Unit => 0,
    }
}

/// The noun for `count` fields.
pub open spec fn fields_noun(count: nat) -> Seq<char> {
    if count == 1 {
        "field"@
    } else {
        "fields"@
    }
}

/// The message for a struct of `count` fields against a limit of `max`.
pub open spec fn struct_message(name: Seq<char>, count: nat, max: nat) -> Seq<char> {
    "struct `"@ + name + "` has "@ + decimal(count) + " "@ + fields_noun(count)
        + ", above the limit of "@ + decimal(max)
}

/// Whether the struct is reported.
pub open spec fn is_reported(config: Config, item: StructItem) -> bool {
    &&& spec_field_count(item.shape) > config.max_fields
    &&& !item.generated
    &&& !(config.exempt_tests && item.in_test_code)
}

/// The number of fields of a struct of this shape. A unit struct has
/// none, so it falls out at the threshold like any other struct.
pub fn field_count(shape: &VariantShape) -> (count: usize)
    ensures
        count == spec_field_count(*shape),
{
    match shape {
        VariantShape::Struct(n) => *n,
        VariantShape::Tuple(n) => *n,
        VariantShape::Unit => 0,
    }
}

impl TooManyStructFields {
    /// A pass with the given configuration.
    pub fn new(config: Config) -> (pass: TooManyStructFields)
        ensures
            pass.config == config,
    {
        TooManyStructFields { config }
    }

    /// Active by default.
    pub fn default_state() -> (state: DefaultState)
        ensures
            state == DefaultState::Active,
    {
        DefaultState::Active
    }

    /// The diagnostic for one struct: when it has more fields than the
    /// limit, was written rather than generated, and is not exempt test
    /// code.
    pub fn check_item(&self, item: &StructItem) -> (report: Option<Diagnostic>)
        ensures
            report is Some <==> is_reported(self.config, *item),
            report matches Some(d) ==> {
                &&& d.span == item.def_span
                &&& d.message@ == struct_message(
                    item.name@,
                    spec_field_count(item.shape),
                    self.config.max_fields as nat,
                )
                &&& d.note is None
                &&& d.helps@.len() == 1 && d.helps@[0]@ == GROUP_HELP@
            },
    {
        let count = field_count(&item.shape);
        if count <= self.config.max_fields || item.generated {
            return None;
        }
        if self.config.exempt_tests && item.in_test_code {
            return None;
        }
        let max = self.config.max_fields;
        let mut message = chars_of("struct `");
        extend_str(&mut message, item.name.as_str());
        extend_str(&mut message, "` has ");
        push_decimal(&mut message, count);
        extend_str(&mut message, " ");
        if count == 1 {
            extend_str(&mut message, "field");
        } else {
            extend_str(&mut message, "fields");
        }
        extend_str(&mut message, ", above the limit of ");
        push_decimal(&mut message, max);
        let mut helps: Vec<&'static str> = Vec::new();
        helps.push(GROUP_HELP);
        Some(
            Diagnostic {
                span: item.def_span,
                message: string_of(message.as_slice()),
                note: None,
                helps,
            },
        )
    }
}

/// A struct's field count is how many fields it declares, named or
/// positional alike: a tuple struct of `n` fields counts `n`, as a named
/// struct of `n` fields does, so the two are reported alike.
pub proof fn lemma_tuple_counts_like_named(n: usize, config: Config, item: StructItem)
    ensures
        spec_field_count(VariantShape::Tuple(n)) == n,
        spec_field_count(VariantShape::Struct(n)) == n,
        spec_field_count(VariantShape::Unit) == 0,
        is_reported(config, StructItem { shape: VariantShape::Tuple(n), ..item }) == is_reported(
            config,
            StructItem { shape: VariantShape::Struct(n), ..item },
        ),
        is_reported(config, StructItem { shape: VariantShape::Tuple(n), ..item }) <==> (n
            > config.max_fields && !item.generated && !(config.exempt_tests && item.in_test_code)),
{
}

} // verus!
