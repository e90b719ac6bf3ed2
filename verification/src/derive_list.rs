//! Reading the trait names out of `#[derive(...)]` lists.
//!
//! Matching is by a derive's final path segment, which catches
//! `some_crate::Trait`, a plain `Trait` imported from it, and a
//! same-name re-export.
use crate::source::Span;
use vstd::prelude::*;

verus! {

/// One entry of a `derive(...)` list.
pub struct DeriveEntry {
    /// The final segment of the derived trait's path.
    pub name: String,
    /// The entry's source, its whole path.
    pub span: Span,
    /// Whether the derive is a single identifier rather than a
    /// qualified path.
    pub is_unqualified: bool,
}

/// One attribute call read off a node, a `cfg_attr`-gated one
/// included: the attribute's name, and, when it is a `derive`, its
/// entries (`None` for a list with an entry that is not a path).
pub struct AttributeCall {
    pub name: String,
    pub derives: Option<Vec<DeriveEntry>>,
}

/// Whether `entries` derive `name`.
pub open spec fn lists(entries: Seq<DeriveEntry>, name: Seq<char>) -> bool {
    exists|j: int| 0 <= j < entries.len() && (#[trigger] entries[j]).name@ == name
}

/// Whether the call is a well-formed `derive` of `name`.
pub open spec fn call_derives(call: AttributeCall, name: Seq<char>) -> bool {
    call.name@ == "derive"@ && match call.derives {
        Some(entries) => lists(entries@, name),
        None => false,
    }
}

/// Whether `name` is among the final segments derived by `calls`.
pub open spec fn is_derived(calls: Seq<AttributeCall>, name: Seq<char>) -> bool {
    exists|i: int| 0 <= i < calls.len() && #[trigger] call_derives(calls[i], name)
}

/// Whether `name` is one of `names`.
pub open spec fn has_name(names: Seq<String>, name: Seq<char>) -> bool {
    exists|i: int| 0 <= i < names.len() && (#[trigger] names[i])@ == name
}

/// Whether `name` is one of `names`.
fn holds(names: &Vec<String>, name: &String) -> (found: bool)
    ensures
        found == has_name(names@, name@),
{
    let mut i: usize = 0;
    while i < names.len()
        invariant
            i <= names@.len(),
            forall|k: int| 0 <= k < i ==> (#[trigger] names@[k])@ != name@,
        decreases names@.len() - i,
    {
        if names[i] == *name {
            return true;
        }
        i = i + 1;
    }
    false
}

/// The final path segment of every derive on a node, each once: a
/// malformed list contributes nothing.
pub fn derive_names(calls: &[AttributeCall]) -> (names: Vec<String>)
    ensures
        forall|n: Seq<char>| #[trigger] is_derived(calls@, n) <==> has_name(names@, n),
        forall|k: int, l: int| 0 <= k < l < names@.len() ==> (#[trigger] names@[k])@ != (#[trigger] names@[l])@,
{
    let mut names: Vec<String> = Vec::new();
    let mut i: usize = 0;
    let derive = crate::text::string_of(crate::text::chars_of("derive").as_slice());
    while i < calls.len()
        invariant
            i <= calls@.len(),
            derive@ == "derive"@,
            forall|n: Seq<char>|
                #[trigger] is_derived(calls@.take(i as int), n) <==> has_name(names@, n),
            forall|k: int, l: int| 0 <= k < l < names@.len() ==> (#[trigger] names@[k])@ != (#[trigger] names@[l])@,
        decreases calls@.len() - i,
    {
        let ghost before = names@;
        if calls[i].name == derive {
            match &calls[i].derives {
                Some(entries) => {
                    let mut j: usize = 0;
                    assert(entries@.take(0) =~= Seq::<DeriveEntry>::empty());
                    while j < entries.len()
                        invariant
                            j <= entries@.len(),
                            forall|n: Seq<char>|
                                #[trigger] has_name(names@, n) <==> (has_name(before, n) || lists(
                                    entries@.take(j as int),
                                    n,
                                )),
                            forall|k: int, l: int| 0 <= k < l < names@.len() ==> (#[trigger] names@[k])@ != (#[trigger] names@[l])@,
                        decreases entries@.len() - j,
                    {
                        assert(names@.len() >= 0);
                        let ghost prev = names@;
                        if !holds(&names, &entries[j].name) {
                            names.push(entries[j].name.clone());
                        }
                        proof {
                            let t = entries@.take(j + 1);
                            assert forall|n: Seq<char>| #[trigger] lists(t, n) <==> (lists(entries@.take(j as int), n) || entries@[j as int].name@ == n) by {
                                if lists(t, n) {
                                    let m = choose|m: int| 0 <= m < t.len() && (#[trigger] t[m]).name@ == n;
                                    if m < j {
                                        assert(entries@.take(j as int)[m] == t[m]);
                                    }
                                }
                                if lists(entries@.take(j as int), n) {
                                    let m = choose|m: int| 0 <= m < j && (#[trigger] entries@.take(j as int)[m]).name@ == n;
                                    assert(t[m] == entries@.take(j as int)[m]);
                                }
                                if entries@[j as int].name@ == n {
                                    assert(t[j as int] == entries@[j as int]);
                                }
                            }
                            assert forall|n: Seq<char>| #[trigger] has_name(names@, n) <==> (has_name(prev, n)
                                || entries@[j as int].name@ == n) by {
                                if has_name(prev, n) {
                                    let k = choose|k: int| 0 <= k < prev.len() && (#[trigger] prev[k])@ == n;
                                    assert(names@[k] == prev[k]);
                                }
                                if entries@[j as int].name@ == n && names@.len() > prev.len() {
                                    assert(names@[prev.len() as int]@ == n);
                                }
                                if has_name(names@, n) {
                                    let k = choose|k: int| 0 <= k < names@.len() && (#[trigger] names@[k])@ == n;
                                    if k < prev.len() {
                                        assert(names@[k] == prev[k]);
                                    }
                                }
                            }
                        }
                        j = j + 1;
                    }
                    assert(entries@.take(entries@.len() as int) =~= entries@);
                },
                None => {},
            }
        }
        proof {
            let t = calls@.take(i + 1);
            assert(t.drop_last() =~= calls@.take(i as int));
            assert forall|n: Seq<char>| #[trigger] is_derived(t, n) <==> (is_derived(calls@.take(i as int), n)
                || call_derives(calls@[i as int], n)) by {
                if is_derived(t, n) {
                    let a = choose|a: int| 0 <= a < t.len() && #[trigger] call_derives(t[a], n);
                    if a < i {
                        assert(calls@.take(i as int)[a] == t[a]);
                    }
                }
                if is_derived(calls@.take(i as int), n) {
                    let a = choose|a: int| 0 <= a < i && #[trigger] call_derives(calls@.take(i as int)[a], n);
                    assert(t[a] == calls@.take(i as int)[a]);
                }
                if call_derives(calls@[i as int], n) {
                    assert(t[i as int] == calls@[i as int]);
                }
            }
        }
        i = i + 1;
    }
    assert(calls@.take(calls@.len() as int) =~= calls@);
    names
}


/// One entry of a `derive(...)` list as the attribute parser reads it:
/// its span, and its path's segments where the entry is a path.
pub struct ListEntry {
    pub span: Span,
    pub path: Option<Vec<String>>,
}

/// Whether a list entry names a derive: it is a path of one segment or
/// more.
pub open spec fn names_derive(entry: ListEntry) -> bool {
    entry.path matches Some(segments) && segments@.len() > 0
}

/// Whether `out` reads `entry`: its final segment, its span, and
/// whether the path is that one segment alone.
pub open spec fn reads(out: DeriveEntry, entry: ListEntry) -> bool {
    &&& out.name@ == entry.path->0@.last()@
    &&& out.span == entry.span
    &&& out.is_unqualified == (entry.path->0@.len() == 1)
}

/// Every entry of a `derive(...)` list, given the list as parsed
/// (`None` where the argument tokens are not a list). `None` when an
/// entry is not a path: `derive` accepts paths only, so such a list is
/// malformed, and neither naming nor rewriting an entry that could not
/// be read is meaningful.
pub fn derive_entries(list: &Option<Vec<ListEntry>>) -> (entries: Option<Vec<DeriveEntry>>)
    ensures
        entries is Some <==> (list matches Some(items) && forall|i: int|
            0 <= i < items@.len() ==> names_derive(#[trigger] items@[i])),
        entries matches Some(out) ==> {
            &&& out@.len() == list->0@.len()
            &&& forall|i: int| 0 <= i < out@.len() ==> reads(#[trigger] out@[i], list->0@[i])
        },
{
    let items = match list {
        Some(items) => items,
        None => {
            return None;
        },
    };
    let mut out: Vec<DeriveEntry> = Vec::new();
    let mut i: usize = 0;
    while i < items.len()
        invariant
            list is Some,
            list->0@ == items@,
            i <= items@.len(),
            out@.len() == i,
            forall|k: int| 0 <= k < i ==> names_derive(#[trigger] items@[k]),
            forall|k: int| 0 <= k < i ==> reads(#[trigger] out@[k], items@[k]),
        decreases items@.len() - i,
    {
        let entry = &items[i];
        let segments = match &entry.path {
            Some(segments) => segments,
            None => {
                assert(!names_derive(items@[i as int]));
                return None;
            },
        };
        if segments.len() == 0 {
            assert(!names_derive(items@[i as int]));
            return None;
        }
        let last = segments.len() - 1;
        out.push(
            DeriveEntry {
                name: segments[last].clone(),
                span: entry.span,
                is_unqualified: segments.len() == 1,
            },
        );
        i = i + 1;
    }
    Some(out)
}

} // verus!
