//! `perfectionist::unordered_struct_fields` — put a named struct's
//! fields in alphabetical order, where the reordering cannot change
//! what the program does.
//!
//! Two passes share the work. Before expansion, [`early::Collector`]
//! records each struct as written whose attributes, fields and derives
//! leave it safe to reorder. After type checking, [`FieldOrdering`]
//! checks the recorded structs' types ([`safety`]), sorts the field
//! names case-sensitively, and flags a struct whose fields are not in
//! that order; [`fixes`] then builds the edit.
use crate::rule_index::DefaultState;
use crate::source::Span;
use crate::text::{chars_of, compare_chars, lemma_lex_total, lemma_lex_transitive, lex_lt, Order};
use early::{key, SourceStruct, Sources};
use safety::{
    builtin_derives, derives_builtin, eligible, is_derive_record, spec_eligible, BuiltinDerive,
    LocalImpl, TyGraph,
};
use vstd::prelude::*;

pub mod early;
pub mod fixes;
pub mod safety;

verus! {

broadcast use vstd::string::group_string_axioms;

/// The rule's table in `dylint.toml`, which takes no keys.
pub const CONFIG_KEY: &'static str = "perfectionist::unordered_struct_fields";

/// What the late pass knows of one struct with named fields.
pub struct NamedStruct {
    /// The whole item.
    pub span: Span,
    /// The struct's name, which keys what the early pass recorded.
    pub ident_span: Span,
    /// Whether the item comes from a macro expansion, local or external.
    pub generated: bool,
    /// The field names, in declaration order.
    pub field_names: Vec<String>,
    /// The struct's type, by its index in the type graph.
    pub ty: usize,
    /// Whether the compiler proves the type `Copy`.
    pub is_copy: bool,
}

/// A struct whose fields are out of order: the item, the extents of its
/// fields as written, and the order that sorts them (`order[i]` is the
/// field that belongs in place `i`).
pub struct Misordered {
    pub span: Span,
    pub fields: Vec<Span>,
    pub order: Vec<usize>,
}

/// The late pass, with the built-in derives of the crate.
pub struct FieldOrdering {
    pub derives: Vec<BuiltinDerive>,
}

/// The texts of some names.
pub open spec fn name_views(names: Seq<String>) -> Seq<Seq<char>> {
    names.map_values(|s: String| s@)
}

/// Whether field `a` goes before field `b`: its name is lower, or the
/// names are the same and `a` was declared first.
pub open spec fn goes_before(names: Seq<Seq<char>>, a: int, b: int) -> bool {
    lex_lt(names[a], names[b]) || (names[a] == names[b] && a < b)
}

/// Whether `order` lists every field once, sorted by name, fields of the
/// same name kept in declaration order.
pub open spec fn is_field_order(names: Seq<Seq<char>>, order: Seq<usize>) -> bool {
    &&& order.len() == names.len()
    &&& forall|i: int| 0 <= i < order.len() ==> #[trigger] order[i] < names.len()
    &&& forall|i: int, j: int|
        0 <= i < j < order.len() ==> goes_before(names, #[trigger] order[i] as int, #[trigger] order[j] as int)
}

/// Whether the names are already in order: none comes after a lower one.
pub open spec fn names_sorted(names: Seq<Seq<char>>) -> bool {
    forall|i: int, j: int| 0 <= i < j < names.len() ==> !lex_lt(#[trigger] names[j], #[trigger] names[i])
}

/// Whether `order` leaves every field where it is.
pub open spec fn is_identity(order: Seq<usize>) -> bool {
    forall|i: int| 0 <= i < order.len() ==> #[trigger] order[i] == i
}

/// Whether one built-in derive record in the crate names `adt` and `name`.
pub open spec fn records(impls: Seq<LocalImpl>, adt: u64, name: Seq<char>) -> bool {
    exists|i: int|
        0 <= i < impls.len() && is_derive_record(#[trigger] impls[i]) && impls[i].self_adt == Some(adt)
            && impls[i].trait_name@ == name
}

/// Whether the pass flags a struct: it was written rather than
/// generated, the early pass recorded it with as many fields, its type
/// is eligible for reordering, and its field names are out of order.
pub open spec fn is_flagged(
    derives: Seq<BuiltinDerive>,
    item: NamedStruct,
    graph: Seq<safety::TyNode>,
    sources: Map<(u32, u32), SourceStruct>,
) -> bool {
    let k = (item.ident_span.lo, item.ident_span.hi);
    &&& !item.generated
    &&& sources.contains_key(k)
    &&& item.field_names@.len() == sources[k].fields@.len()
    &&& spec_eligible(graph, item.ty as int, item.is_copy, sources[k], derives)
    &&& !names_sorted(name_views(item.field_names@))
}

/// `goes_before` orders the fields strictly: never both ways, never a
/// field before itself, and one of two distinct fields first.
proof fn lemma_goes_before_strict(names: Seq<Seq<char>>, a: int, b: int)
    ensures
        !(goes_before(names, a, b) && goes_before(names, b, a)),
        !goes_before(names, a, a),
        a != b ==> goes_before(names, a, b) || goes_before(names, b, a),
{
    lemma_lex_total(names[a], names[b]);
    lemma_lex_total(names[a], names[a]);
}

/// A field that goes after `m`'s place goes after everything `m` goes
/// before.
proof fn lemma_goes_before_chain(names: Seq<Seq<char>>, m: int, a: int, b: int)
    requires
        lex_lt(names[m], names[a]),
        goes_before(names, a, b),
    ensures
        lex_lt(names[m], names[b]),
{
    if lex_lt(names[a], names[b]) {
        lemma_lex_transitive(names[m], names[a], names[b]);
    }
}

/// The order that sorts fields with these names: by name, case-sensitive
/// (the order of `str`), fields of the same name kept in declaration
/// order.
pub fn field_order(names: &[String]) -> (order: Vec<usize>)
    ensures
        is_field_order(name_views(names@), order@),
{
    let ghost nv = name_views(names@);
    let mut order: Vec<usize> = Vec::new();
    let mut m: usize = 0;
    while m < names.len()
        invariant
            nv == name_views(names@),
            nv.len() == names@.len(),
            m <= names@.len(),
            order@.len() == m,
            forall|i: int| 0 <= i < order@.len() ==> #[trigger] order@[i] < m,
            forall|i: int, j: int|
                0 <= i < j < order@.len() ==> goes_before(nv, #[trigger] order@[i] as int, #[trigger] order@[j] as int),
        decreases names@.len() - m,
    {
        let name = chars_of(names[m].as_str());
        assert(name@ == nv[m as int]);
        // The first place whose field has a higher name than field `m`.
        let mut p: usize = 0;
        let mut found = false;
        while p < order.len() && !found
            invariant
                nv == name_views(names@),
                nv.len() == names@.len(),
                m < names@.len(),
                name@ == nv[m as int],
                p <= order@.len(),
                forall|i: int| 0 <= i < order@.len() ==> #[trigger] order@[i] < m,
                forall|k: int| 0 <= k < p ==> !lex_lt(nv[m as int], #[trigger] nv[order@[k] as int]),
                found ==> p < order@.len() && lex_lt(nv[m as int], nv[order@[p as int] as int]),
            decreases order@.len() - p, if found { 0int } else { 1int },
        {
            let other = chars_of(names[order[p]].as_str());
            assert(other@ == nv[order@[p as int] as int]);
            match compare_chars(name.as_slice(), other.as_slice()) {
                Order::Less => {
                    found = true;
                },
                _ => {
                    p = p + 1;
                },
            }
        }
        let ghost old_order = order@;
        order.insert(p, m);
        proof {
            let new = order@;
            assert(new =~= old_order.insert(p as int, m));
            assert forall|i: int, j: int| 0 <= i < j < new.len() implies goes_before(
                nv,
                #[trigger] new[i] as int,
                #[trigger] new[j] as int,
            ) by {
                if j < p {
                    assert(new[i] == old_order[i] && new[j] == old_order[j]);
                } else if j == p {
                    assert(new[i] == old_order[i]);
                    assert(!lex_lt(nv[m as int], nv[old_order[i] as int]));
                    lemma_lex_total(nv[m as int], nv[old_order[i] as int]);
                } else if i == p {
                    assert(new[j] == old_order[j - 1]);
                    if p < j - 1 {
                        lemma_goes_before_chain(nv, m as int, old_order[p as int] as int, old_order[j - 1] as int);
                    }
                } else if i < p {
                    assert(new[i] == old_order[i] && new[j] == old_order[j - 1]);
                } else {
                    assert(new[i] == old_order[i - 1] && new[j] == old_order[j - 1]);
                }
            }
        }
        m = m + 1;
    }
    order
}

/// Whether `order` leaves every field where it is.
pub fn in_place(order: &[usize]) -> (same: bool)
    ensures
        same == is_identity(order@),
{
    let mut i: usize = 0;
    while i < order.len()
        invariant
            i <= order@.len(),
            forall|k: int| 0 <= k < i ==> #[trigger] order@[k] == k,
        decreases order@.len() - i,
    {
        if order[i] != i {
            return false;
        }
        i = i + 1;
    }
    true
}

/// In a strictly increasing sequence of places below `n`, each place is
/// at least its position.
proof fn lemma_increasing_at_least(order: Seq<usize>, i: int)
    requires
        0 <= i < order.len(),
        forall|a: int, b: int| 0 <= a < b < order.len() ==> #[trigger] order[a] < #[trigger] order[b],
    ensures
        order[i] >= i,
    decreases i,
{
    if i > 0 {
        lemma_increasing_at_least(order, i - 1);
        assert(order[i - 1] < order[i]);
    }
}

/// In a strictly increasing sequence of places below its length, each
/// place is at most its position.
proof fn lemma_increasing_at_most(order: Seq<usize>, i: int)
    requires
        0 <= i < order.len(),
        forall|a: int| 0 <= a < order.len() ==> #[trigger] order[a] < order.len(),
        forall|a: int, b: int| 0 <= a < b < order.len() ==> #[trigger] order[a] < #[trigger] order[b],
    ensures
        order[i] <= i,
    decreases order.len() - i,
{
    if i < order.len() - 1 {
        lemma_increasing_at_most(order, i + 1);
        assert(order[i] < order[i + 1]);
    }
}

/// The sorting order leaves every field in place exactly when the names
/// are already in order: a struct is flagged just when some field name
/// is lower than one declared before it.
pub proof fn lemma_in_place_iff_sorted(names: Seq<Seq<char>>, order: Seq<usize>)
    requires
        is_field_order(names, order),
    ensures
        is_identity(order) <==> names_sorted(names),
{
    if is_identity(order) {
        assert forall|i: int, j: int| 0 <= i < j < names.len() implies !lex_lt(
            #[trigger] names[j],
            #[trigger] names[i],
        ) by {
            assert(order[i] == i && order[j] == j);
            assert(goes_before(names, i, j));
            lemma_lex_total(names[i], names[j]);
            lemma_lex_total(names[i], names[i]);
        }
    }
    if names_sorted(names) {
        assert forall|a: int, b: int| 0 <= a < b < order.len() implies #[trigger] order[a]
            < #[trigger] order[b] by {
            let x = order[a] as int;
            let y = order[b] as int;
            assert(goes_before(names, x, y));
            lemma_goes_before_strict(names, x, y);
            if y < x {
                assert(!lex_lt(names[x], names[y]));
                lemma_lex_total(names[x], names[y]);
                assert(goes_before(names, y, x));
            }
        }
        assert forall|i: int| 0 <= i < order.len() implies #[trigger] order[i] == i by {
            lemma_increasing_at_least(order, i);
            lemma_increasing_at_most(order, i);
        }
    }
}

/// The names as the fields stand once put in `order`.
pub open spec fn reordered(names: Seq<Seq<char>>, order: Seq<usize>) -> Seq<Seq<char>> {
    Seq::new(order.len(), |i: int| names[order[i] as int])
}

/// The fix settles the struct: once its fields are put in the sorting
/// order, their names are in order, so the pass leaves the struct alone
/// on the next run and sorting it again moves nothing.
pub proof fn lemma_reordered_is_sorted(names: Seq<Seq<char>>, order: Seq<usize>, again: Seq<usize>)
    requires
        is_field_order(names, order),
        is_field_order(reordered(names, order), again),
    ensures
        names_sorted(reordered(names, order)),
        is_identity(again),
{
    let r = reordered(names, order);
    assert forall|i: int, j: int| 0 <= i < j < r.len() implies !lex_lt(#[trigger] r[j], #[trigger] r[i]) by {
        let x = order[i] as int;
        let y = order[j] as int;
        assert(goes_before(names, x, y));
        lemma_lex_total(names[x], names[y]);
        lemma_lex_total(names[x], names[x]);
    }
    lemma_in_place_iff_sorted(r, again);
}

/// The fix is idempotent: a struct the pass flagged, once each field
/// `i` holds what field `order[i]` held (the order the report carries),
/// has its field names in order, so it is not flagged again (the check
/// answers `None` for it), whatever was recorded for it and whatever its
/// type.
pub proof fn lemma_fixed_struct_is_not_flagged(
    derives: Seq<BuiltinDerive>,
    flagged: NamedStruct,
    order: Seq<usize>,
    fixed: NamedStruct,
    graph: Seq<safety::TyNode>,
    sources: Map<(u32, u32), SourceStruct>,
)
    requires
        is_field_order(name_views(flagged.field_names@), order),
        name_views(fixed.field_names@) == reordered(name_views(flagged.field_names@), order),
    ensures
        names_sorted(name_views(fixed.field_names@)),
        !is_flagged(derives, fixed, graph, sources),
{
    let names = name_views(flagged.field_names@);
    let r = reordered(names, order);
    assert forall|i: int, j: int| 0 <= i < j < r.len() implies !lex_lt(#[trigger] r[j], #[trigger] r[i]) by {
        let x = order[i] as int;
        let y = order[j] as int;
        assert(goes_before(names, x, y));
        lemma_lex_total(names[x], names[y]);
        lemma_lex_total(names[x], names[x]);
    }
}

/// The extents of a recorded struct's fields, copied out.
fn copy_spans(spans: &Vec<Span>) -> (copy: Vec<Span>)
    ensures
        copy@ == spans@,
{
    let mut copy: Vec<Span> = Vec::new();
    let mut i: usize = 0;
    while i < spans.len()
        invariant
            i <= spans@.len(),
            copy@ == spans@.take(i as int),
        decreases spans@.len() - i,
    {
        copy.push(spans[i]);
        i = i + 1;
        assert(copy@ =~= spans@.take(i as int));
    }
    assert(spans@.take(spans@.len() as int) =~= spans@);
    copy
}

impl FieldOrdering {
    /// A pass that knows of no derive yet.
    pub fn new() -> (pass: FieldOrdering)
        ensures
            pass.derives@.len() == 0,
    {
        FieldOrdering { derives: Vec::new() }
    }

    /// Inactive unless `dylint.toml` enables it.
    pub fn default_state() -> (state: DefaultState)
        ensures
            state == DefaultState::Inactive,
    {
        DefaultState::Inactive
    }

    /// Learn the crate's built-in derives from its trait impls.
    pub fn check_crate(&mut self, impls: &[LocalImpl])
        ensures
            forall|adt: u64, name: Seq<char>|
                #[trigger] derives_builtin(final(self).derives@, adt, name) <==> records(impls@, adt, name),
    {
        self.derives = builtin_derives(impls);
    }

    /// The struct, when its fields are out of order and it may be
    /// reordered (see [`is_flagged`]), with the order that sorts it.
    pub fn check_item(&self, item: &NamedStruct, graph: &TyGraph, sources: &Sources) -> (flagged:
        Option<Misordered>)
        ensures
            flagged is Some <==> is_flagged(self.derives@, *item, graph.nodes@, sources@),
            flagged matches Some(f) ==> {
                &&& f.span == item.span
                &&& f.fields@ == sources@[(item.ident_span.lo, item.ident_span.hi)].fields@
                &&& is_field_order(name_views(item.field_names@), f.order@)
                &&& !is_identity(f.order@)
            },
    {
        if item.generated {
            return None;
        }
        let source = match sources.get(key(item.ident_span)) {
            Some(source) => source,
            None => {
                return None;
            },
        };
        if item.field_names.len() != source.fields.len() || !eligible(
            graph,
            item.ty,
            item.is_copy,
            source,
            self.derives.as_slice(),
        ) {
            return None;
        }
        let order = field_order(item.field_names.as_slice());
        proof {
            lemma_in_place_iff_sorted(name_views(item.field_names@), order@);
        }
        if in_place(order.as_slice()) {
            return None;
        }
        Some(Misordered { span: item.span, fields: copy_spans(&source.fields), order })
    }
}

} // verus!
