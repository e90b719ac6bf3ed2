//! What the pre-expansion pass records of each struct as written: the
//! source extent of every field, and its derives, for the structs whose
//! declaration can safely be reordered at all.
use crate::derive_list::DeriveEntry;
use crate::source::Span;
use crate::text::{chars_of, same_chars, string_of};
use vstd::prelude::*;

verus! {

broadcast use vstd::string::group_string_axioms;

/// One attribute on an item or a field.
pub struct Attribute {
    pub span: Span,
    /// Whether it is a doc comment (`///`, `/** */`).
    pub is_doc_comment: bool,
    /// Its name, when its path is a single identifier.
    pub name: Option<String>,
}

/// One named field as written.
pub struct FieldDecl {
    pub span: Span,
    pub attrs: Vec<Attribute>,
    /// Whether the field is a macro placeholder.
    pub is_placeholder: bool,
    /// Whether the field has a default value.
    pub has_default: bool,
    /// Whether the field's type contains a macro call.
    pub type_has_macro: bool,
    /// Whether the field comes from a macro expansion.
    pub generated: bool,
}

/// One struct with named fields, as written.
pub struct StructDecl {
    /// The span of the struct's name, which keys what is recorded.
    pub ident_span: Span,
    /// Whether the item comes from a macro expansion.
    pub generated: bool,
    pub attrs: Vec<Attribute>,
    pub fields: Vec<FieldDecl>,
    /// The entries of each `derive(...)` list on the item,
    /// `cfg_attr`-gated ones included; `None` for a malformed list.
    pub derive_lists: Vec<Option<Vec<DeriveEntry>>>,
}

/// What is recorded of a struct: each field's extent, its attributes
/// included, and the derives.
pub struct SourceStruct {
    pub fields: Vec<Span>,
    pub derives: Vec<String>,
}

/// The pre-expansion pass.
pub struct Collector;

/// Whether an attribute of this name leaves a declaration's meaning
/// independent of its field order.
pub open spec fn is_inert_name(name: Seq<char>) -> bool {
    name == "doc"@ || name == "allow"@ || name == "warn"@ || name == "deny"@ || name == "forbid"@
        || name == "expect"@ || name == "deprecated"@ || name == "must_use"@
}

/// Whether the attribute is inert, or a `derive` where one is allowed.
pub open spec fn is_safe_attribute(attr: Attribute, derives: bool) -> bool {
    attr.is_doc_comment || match attr.name {
        Some(name) => is_inert_name(name@) || (derives && name@ == "derive"@),
        None => false,
    }
}

/// Whether every attribute is safe.
pub open spec fn all_safe(attrs: Seq<Attribute>, derives: bool) -> bool {
    forall|i: int| 0 <= i < attrs.len() ==> is_safe_attribute(#[trigger] attrs[i], derives)
}

/// Whether a field keeps its struct out of the rule.
pub open spec fn is_unsafe_field(field: FieldDecl) -> bool {
    field.is_placeholder || field.has_default || field.type_has_macro || field.generated
        || !all_safe(field.attrs@, false)
}

/// Whether a derive entry is one the rule can reason about: an
/// unqualified `Debug`, `Copy` or `Clone`.
pub open spec fn is_known_derive(entry: DeriveEntry) -> bool {
    entry.is_unqualified && (entry.name@ == "Debug"@ || entry.name@ == "Copy"@ || entry.name@
        == "Clone"@)
}

/// The entries of the lists, in order; meaningful when every list is
/// well formed.
pub open spec fn flat_entries(lists: Seq<Option<Vec<DeriveEntry>>>) -> Seq<DeriveEntry>
    decreases lists.len(),
{
    if lists.len() == 0 {
        Seq::empty()
    } else {
        flat_entries(lists.drop_last()) + match lists.last() {
            Some(entries) => entries@,
            None => Seq::empty(),
        }
    }
}

/// Whether the derives are all well formed, known, and not repeated.
pub open spec fn derives_are_safe(lists: Seq<Option<Vec<DeriveEntry>>>) -> bool {
    let flat = flat_entries(lists);
    &&& forall|i: int| 0 <= i < lists.len() ==> (#[trigger] lists[i]) is Some
    &&& forall|i: int| 0 <= i < flat.len() ==> is_known_derive(#[trigger] flat[i])
    &&& forall|i: int, j: int| 0 <= i < j < flat.len() ==> (#[trigger] flat[i]).name@ != (#[trigger] flat[j]).name@
}

/// The lowest start among the field's span and its attributes' spans.
pub open spec fn extent_lo(lo: u32, attrs: Seq<Attribute>) -> u32
    decreases attrs.len(),
{
    if attrs.len() == 0 {
        lo
    } else {
        let below = extent_lo(lo, attrs.drop_last());
        let attr = attrs.last().span.lo;
        if attr < below {
            attr
        } else {
            below
        }
    }
}

/// A field's extent: its span, reaching back over its attributes.
pub open spec fn spec_extent(field: FieldDecl) -> Span {
    Span { lo: extent_lo(field.span.lo, field.attrs@), hi: field.span.hi }
}

/// Whether the struct is recorded at all.
pub open spec fn is_recordable(item: StructDecl) -> bool {
    &&& !item.generated
    &&& all_safe(item.attrs@, true)
    &&& forall|i: int| 0 <= i < item.fields@.len() ==> !is_unsafe_field(#[trigger] item.fields@[i])
    &&& derives_are_safe(item.derive_lists@)
}

/// Whether `name` spells `word`.
fn spells(name: &String, word: &str) -> (same: bool)
    ensures
        same == (name@ == word@),
{
    let a = chars_of(name.as_str());
    let b = chars_of(word);
    same_chars(a.as_slice(), b.as_slice())
}

/// Whether every attribute is a doc comment or one of the attributes
/// that leave the declaration's meaning independent of its field order,
/// or, where `derives` is set, a `derive`.
pub fn safe_attributes(attrs: &[Attribute], derives: bool) -> (safe: bool)
    ensures
        safe == all_safe(attrs@, derives),
{
    let mut i: usize = 0;
    while i < attrs.len()
        invariant
            i <= attrs@.len(),
            forall|k: int| 0 <= k < i ==> is_safe_attribute(#[trigger] attrs@[k], derives),
        decreases attrs@.len() - i,
    {
        let attr = &attrs[i];
        let ok = attr.is_doc_comment || match &attr.name {
            Some(name) => spells(name, "doc") || spells(name, "allow") || spells(name, "warn")
                || spells(name, "deny") || spells(name, "forbid") || spells(name, "expect")
                || spells(name, "deprecated") || spells(name, "must_use") || (derives && spells(
                name,
                "derive",
            )),
            None => false,
        };
        if !ok {
            return false;
        }
        i = i + 1;
    }
    true
}

/// The key a struct is recorded under: the bounds of its name's span.
pub fn key(span: Span) -> (k: (u32, u32))
    ensures
        k == (span.lo, span.hi),
{
    (span.lo, span.hi)
}

/// The derives on a struct, when every one of them is a well-formed,
/// unqualified `Debug`, `Copy` or `Clone` derived once; `None` otherwise.
pub fn safe_derives(lists: &[Option<Vec<DeriveEntry>>]) -> (derives: Option<Vec<String>>)
    ensures
        derives is Some <==> derives_are_safe(lists@),
        derives matches Some(names) ==> names@.len() == flat_entries(lists@).len() && forall|i: int|
            0 <= i < names@.len() ==> (#[trigger] names@[i])@ == flat_entries(lists@)[i].name@,
{
    let mut derives: Vec<String> = Vec::new();
    let mut i: usize = 0;
    while i < lists.len()
        invariant
            i <= lists@.len(),
            derives_are_safe(lists@.take(i as int)),
            derives@.len() == flat_entries(lists@.take(i as int)).len(),
            forall|k: int| 0 <= k < derives@.len() ==> (#[trigger] derives@[k])@ == flat_entries(
                lists@.take(i as int),
            )[k].name@,
        decreases lists@.len() - i,
    {
        let ghost prefix = lists@.take(i as int);
        let ghost next = lists@.take(i + 1);
        proof {
            assert(next.drop_last() =~= prefix);
        }
        let entries = match &lists[i] {
            Some(entries) => entries,
            None => {
                proof {
                    assert(!derives_are_safe(lists@)) by {
                        assert(lists@[i as int] is None);
                    }
                }
                return None;
            },
        };
        proof {
            assert(flat_entries(next) == flat_entries(prefix) + entries@);
        }
        let mut j: usize = 0;
        while j < entries.len()
            invariant
                i < lists@.len(),
                j <= entries@.len(),
                lists@[i as int] == Some(*entries),
                next == lists@.take(i + 1),
                flat_entries(next) == flat_entries(prefix) + entries@,
                derives@.len() == flat_entries(prefix).len() + j,
                forall|k: int| 0 <= k < derives@.len() ==> (#[trigger] derives@[k])@ == flat_entries(
                    next,
                )[k].name@,
                forall|k: int| 0 <= k < derives@.len() ==> is_known_derive(#[trigger] flat_entries(next)[k]),
                forall|k: int, l: int| 0 <= k < l < derives@.len() ==> (#[trigger] flat_entries(next)[k]).name@
                    != (#[trigger] flat_entries(next)[l]).name@,
            decreases entries@.len() - j,
        {
            let entry = &entries[j];
            let ghost at = flat_entries(prefix).len() + j;
            let known = entry.is_unqualified && (spells(&entry.name, "Debug") || spells(
                &entry.name,
                "Copy",
            ) || spells(&entry.name, "Clone"));
            let mut seen = false;
            let mut k: usize = 0;
            while k < derives.len()
                invariant
                    k <= derives@.len(),
                    !seen ==> forall|m: int| 0 <= m < k ==> (#[trigger] derives@[m])@ != entry.name@,
                    seen ==> exists|m: int| 0 <= m < derives@.len() && (#[trigger] derives@[m])@ == entry.name@,
                decreases derives@.len() - k,
            {
                if derives[k] == entry.name {
                    seen = true;
                }
                k = k + 1;
            }
            if !known || seen {
                proof {
                    assert(flat_entries(next)[at] == *entry);
                    lemma_flat_prefix(lists@, i + 1);
                    if !known {
                        assert(!is_known_derive(flat_entries(lists@)[at]));
                    } else {
                        let m = choose|m: int| 0 <= m < derives@.len() && (#[trigger] derives@[m])@ == entry.name@;
                        assert(flat_entries(lists@)[m] == flat_entries(next)[m]);
                        assert(flat_entries(lists@)[at] == flat_entries(next)[at]);
                    }
                }
                return None;
            }
            let ghost before = derives@;
            derives.push(entry.name.clone());
            proof {
                assert(flat_entries(next)[at] == entries@[j as int]);
                assert forall|k: int, l: int| 0 <= k < l < derives@.len() implies (#[trigger] flat_entries(next)[k]).name@
                    != (#[trigger] flat_entries(next)[l]).name@ by {
                    if l == at {
                        assert(derives@[k] == before[k]);
                        assert(before[k]@ != entry.name@);
                    }
                }
            }
            j = j + 1;
        }
        proof {
            assert(derives_are_safe(next)) by {
                assert forall|m: int| 0 <= m < next.len() implies (#[trigger] next[m]) is Some by {
                    if m < i {
                        assert(next[m] == prefix[m]);
                    }
                }
            }
        }
        i = i + 1;
    }
    assert(lists@.take(lists@.len() as int) =~= lists@);
    Some(derives)
}

/// A prefix's entries are a prefix of the whole's entries.
proof fn lemma_flat_prefix(lists: Seq<Option<Vec<DeriveEntry>>>, n: int)
    requires
        0 <= n <= lists.len(),
    ensures
        flat_entries(lists.take(n)).len() <= flat_entries(lists).len(),
        forall|k: int| 0 <= k < flat_entries(lists.take(n)).len() ==> #[trigger] flat_entries(lists)[k]
            == flat_entries(lists.take(n))[k],
    decreases lists.len() - n,
{
    if n < lists.len() {
        lemma_flat_prefix(lists, n + 1);
        let t = lists.take(n + 1);
        assert(t.drop_last() =~= lists.take(n));
    } else {
        assert(lists.take(n) =~= lists);
    }
}

/// A field's extent: its span, reaching back over its attributes.
pub fn extent(field: &FieldDecl) -> (span: Span)
    ensures
        span == spec_extent(*field),
{
    let mut lo = field.span.lo;
    let mut i: usize = 0;
    while i < field.attrs.len()
        invariant
            i <= field.attrs@.len(),
            lo == extent_lo(field.span.lo, field.attrs@.take(i as int)),
        decreases field.attrs@.len() - i,
    {
        proof {
            let t = field.attrs@.take(i + 1);
            assert(t.drop_last() =~= field.attrs@.take(i as int));
        }
        let attr = field.attrs[i].span.lo;
        if attr < lo {
            lo = attr;
        }
        i = i + 1;
    }
    assert(field.attrs@.take(field.attrs@.len() as int) =~= field.attrs@);
    Span { lo, hi: field.span.hi }
}

impl Collector {
    /// What to record of a struct, when it is one whose declaration can
    /// safely be reordered: written rather than generated, with no
    /// attribute but inert ones and derives, no field that is a
    /// placeholder, has a default, holds a macro in its type, comes from
    /// an expansion or carries a non-inert attribute, and only known
    /// derives.
    pub fn check_item(&self, item: &StructDecl) -> (recorded: Option<SourceStruct>)
        ensures
            recorded is Some <==> is_recordable(*item),
            recorded matches Some(source) ==> {
                &&& source.fields@.len() == item.fields@.len()
                &&& forall|i: int|
                    0 <= i < item.fields@.len() ==> #[trigger] source.fields@[i] == spec_extent(
                        item.fields@[i],
                    )
                &&& source.derives@.len() == flat_entries(item.derive_lists@).len()
                &&& forall|i: int|
                    0 <= i < source.derives@.len() ==> (#[trigger] source.derives@[i])@
                        == flat_entries(item.derive_lists@)[i].name@
            },
    {
        if item.generated || !safe_attributes(item.attrs.as_slice(), true) {
            return None;
        }
        let mut i: usize = 0;
        while i < item.fields.len()
            invariant
                i <= item.fields@.len(),
                forall|k: int| 0 <= k < i ==> !is_unsafe_field(#[trigger] item.fields@[k]),
            decreases item.fields@.len() - i,
        {
            let field = &item.fields[i];
            if field.is_placeholder || field.has_default || field.type_has_macro || field.generated
                || !safe_attributes(field.attrs.as_slice(), false) {
                return None;
            }
            i = i + 1;
        }
        let derives = match safe_derives(item.derive_lists.as_slice()) {
            Some(derives) => derives,
            None => {
                return None;
            },
        };
        let mut fields: Vec<Span> = Vec::new();
        let mut j: usize = 0;
        while j < item.fields.len()
            invariant
                j <= item.fields@.len(),
                fields@.len() == j,
                forall|k: int| 0 <= k < j ==> #[trigger] fields@[k] == spec_extent(item.fields@[k]),
            decreases item.fields@.len() - j,
        {
            fields.push(extent(&item.fields[j]));
            j = j + 1;
        }
        Some(SourceStruct { fields, derives })
    }
}


/// What the pre-expansion pass recorded, by the position of each
/// struct's name (see [`key`]); at most one record per position.
pub struct Sources {
    entries: Vec<((u32, u32), SourceStruct)>,
}

/// Whether no key occurs twice among `entries`.
pub open spec fn keys_distinct(entries: Seq<((u32, u32), SourceStruct)>) -> bool {
    forall|i: int, j: int|
        0 <= i < j < entries.len() ==> (#[trigger] entries[i]).0 != (#[trigger] entries[j]).0
}

/// The record kept under `k`, read off `entries`.
pub open spec fn entries_map(entries: Seq<((u32, u32), SourceStruct)>) -> Map<(u32, u32), SourceStruct> {
    Map::new(
        |k: (u32, u32)| exists|i: int| 0 <= i < entries.len() && (#[trigger] entries[i]).0 == k,
        |k: (u32, u32)| entries[choose|i: int| 0 <= i < entries.len() && (#[trigger] entries[i]).0 == k].1,
    )
}

impl View for Sources {
    type V = Map<(u32, u32), SourceStruct>;

    closed spec fn view(&self) -> Map<(u32, u32), SourceStruct> {
        entries_map(self.entries@)
    }
}

impl Sources {
    /// The well-formedness of the table: no key twice.
    #[verifier::type_invariant]
    closed spec fn wf(&self) -> bool {
        keys_distinct(self.entries@)
    }

    /// An empty table.
    pub fn new() -> (sources: Sources)
        ensures
            sources@ == Map::<(u32, u32), SourceStruct>::empty(),
    {
        let sources = Sources { entries: Vec::new() };
        assert(sources@ =~= Map::<(u32, u32), SourceStruct>::empty());
        sources
    }

    /// Record `source` under `k`, in place of what was there.
    pub fn insert(&mut self, k: (u32, u32), source: SourceStruct)
        ensures
            final(self)@ == old(self)@.insert(k, source),
    {
        proof {
            use_type_invariant(&*self);
        }
        let mut entries: Vec<((u32, u32), SourceStruct)> = Vec::new();
        std::mem::swap(&mut entries, &mut self.entries);
        let ghost before = entries@;
        let mut i: usize = 0;
        while i < entries.len()
            invariant
                entries@ == before,
                keys_distinct(before),
                old(self)@ == entries_map(before),
                i <= before.len(),
                forall|j: int| 0 <= j < i ==> (#[trigger] before[j]).0 != k,
            decreases before.len() - i,
        {
            if entries[i].0.0 == k.0 && entries[i].0.1 == k.1 {
                entries.set(i, (k, source));
                proof {
                    let after = entries@;
                    assert forall|a: int, b: int| 0 <= a < b < after.len() implies (#[trigger] after[a]).0
                        != (#[trigger] after[b]).0 by {
                        assert(before[a].0 != before[b].0);
                    }
                    assert forall|q: (u32, u32)| #[trigger] entries_map(after).contains_key(q)
                        == old(self)@.insert(k, source).contains_key(q) by {
                        if exists|j: int| 0 <= j < before.len() && (#[trigger] before[j]).0 == q {
                            let j = choose|j: int| 0 <= j < before.len() && (#[trigger] before[j]).0 == q;
                            assert(after[j].0 == q);
                        }
                        if exists|j: int| 0 <= j < after.len() && (#[trigger] after[j]).0 == q {
                            let j = choose|j: int| 0 <= j < after.len() && (#[trigger] after[j]).0 == q;
                            assert(before[j].0 == q);
                        }
                        assert(after[i as int].0 == k);
                    }
                    assert forall|q: (u32, u32)| #[trigger] entries_map(after).contains_key(q)
                        implies entries_map(after)[q] == old(self)@.insert(k, source)[q] by {
                        let j = choose|j: int| 0 <= j < after.len() && (#[trigger] after[j]).0 == q;
                        if q == k {
                            assert(after[i as int].0 == k);
                            assert(j == i);
                        } else {
                            assert(before[j].0 == q);
                            let j0 = choose|j0: int| 0 <= j0 < before.len() && (#[trigger] before[j0]).0 == q;
                            assert(j0 == j);
                        }
                    }
                    assert(entries_map(after) =~= old(self)@.insert(k, source));
                }
                self.entries = entries;
                return;
            }
            i = i + 1;
        }
        entries.push((k, source));
        proof {
            let after = entries@;
            assert forall|a: int, b: int| 0 <= a < b < after.len() implies (#[trigger] after[a]).0
                != (#[trigger] after[b]).0 by {
                if b < before.len() {
                    assert(before[a].0 != before[b].0);
                } else {
                    assert(before[a].0 != k);
                }
            }
            assert forall|q: (u32, u32)| #[trigger] entries_map(after).contains_key(q)
                == old(self)@.insert(k, source).contains_key(q) by {
                if exists|j: int| 0 <= j < before.len() && (#[trigger] before[j]).0 == q {
                    let j = choose|j: int| 0 <= j < before.len() && (#[trigger] before[j]).0 == q;
                    assert(after[j].0 == q);
                }
                if exists|j: int| 0 <= j < after.len() && (#[trigger] after[j]).0 == q {
                    let j = choose|j: int| 0 <= j < after.len() && (#[trigger] after[j]).0 == q;
                    if j < before.len() {
                        assert(before[j].0 == q);
                    }
                }
                assert(after[before.len() as int].0 == k);
            }
            assert forall|q: (u32, u32)| #[trigger] entries_map(after).contains_key(q)
                implies entries_map(after)[q] == old(self)@.insert(k, source)[q] by {
                let j = choose|j: int| 0 <= j < after.len() && (#[trigger] after[j]).0 == q;
                if q == k {
                    assert(after[before.len() as int].0 == k);
                    assert(j == before.len());
                } else {
                    assert(j < before.len());
                    assert(before[j].0 == q);
                    let j0 = choose|j0: int| 0 <= j0 < before.len() && (#[trigger] before[j0]).0 == q;
                    assert(j0 == j);
                }
            }
            assert(entries_map(after) =~= old(self)@.insert(k, source));
        }
        self.entries = entries;
    }

    /// The record under `k`, if there is one.
    pub fn get(&self, k: (u32, u32)) -> (found: Option<&SourceStruct>)
        ensures
            match found {
                Some(source) => self@.contains_key(k) && *source == self@[k],
                None => !self@.contains_key(k),
            },
    {
        proof {
            use_type_invariant(self);
        }
        let mut i: usize = 0;
        while i < self.entries.len()
            invariant
                i <= self.entries@.len(),
                keys_distinct(self.entries@),
                forall|j: int| 0 <= j < i ==> (#[trigger] self.entries@[j]).0 != k,
            decreases self.entries@.len() - i,
        {
            if self.entries[i].0.0 == k.0 && self.entries[i].0.1 == k.1 {
                proof {
                    let e = self.entries@;
                    assert(e[i as int].0 == k);
                    let j = choose|j: int| 0 <= j < e.len() && (#[trigger] e[j]).0 == k;
                    assert(j == i);
                }
                return Some(&self.entries[i].1);
            }
            i = i + 1;
        }
        None
    }
}

} // verus!
