//! Which structs can have their declaration reordered without changing
//! what the program does: only built-in `Debug`, and `Copy`/`Clone` on a
//! type the compiler proves `Copy`, and nothing whose drop order could
//! be observed.
use super::early::SourceStruct;
use crate::text::{chars_of, same_chars};
use vstd::prelude::*;

verus! {

broadcast use vstd::string::group_string_axioms;

/// How deep the drop check goes before it gives up.
pub const DEPTH_LIMIT: usize = 64;

/// One type in the graph the drop check walks; other types are named
/// by their index in the graph.
#[derive(Clone, Debug)]
pub enum TyNode {
    /// A type with no destructor of its own: `bool`, `char`, numbers,
    /// `!`, references, raw pointers, function items and pointers.
    Trivial,
    Tuple(Vec<usize>),
    Array(usize),
    /// `String`.
    Text,
    /// `Box` or `Vec`: its element type, and whether every further type
    /// argument is the global allocator.
    Owning { element: Option<usize>, global_allocator: bool },
    /// Any other ADT: its handle, whether it implements `Drop`, whether
    /// it is a union, and the types of all its fields.
    Adt { id: u64, has_dtor: bool, is_union: bool, fields: Vec<usize> },
    /// Any other type.
    Other,
}

/// The types a drop check may reach, by index.
pub struct TyGraph {
    pub nodes: Vec<TyNode>,
}

/// A built-in derive of a trait on one of the crate's ADTs.
pub struct BuiltinDerive {
    pub adt: u64,
    pub trait_name: String,
}

/// One trait impl in the crate, as the compiler lists it.
pub struct LocalImpl {
    pub trait_name: String,
    /// Whether the impl was written by a built-in derive.
    pub is_builtin_derived: bool,
    /// The ADT the impl is for, when its self type is one.
    pub self_adt: Option<u64>,
}

/// How many more types a drop check may go down through a path this
/// long before it stops trusting what it finds.
pub open spec fn depth_left(len: nat) -> nat {
    if len >= DEPTH_LIMIT {
        0
    } else {
        (DEPTH_LIMIT - len) as nat
    }
}

/// Whether dropping a value of type `ty` runs no code the program could
/// observe the order of, reaching `ty` by way of the types on `path`.
/// A type already on the path is settled by the outer check; one found
/// deeper than the limit is not trusted.
pub open spec fn safe(graph: Seq<TyNode>, ty: int, path: Seq<int>) -> bool
    decreases depth_left(path.len()), 0int,
{
    if path.len() >= DEPTH_LIMIT {
        false
    } else if path.contains(ty) {
        true
    } else if ty < 0 || ty >= graph.len() {
        false
    } else {
        let inner = path.push(ty);
        match graph[ty] {
            TyNode::Trivial => true,
            TyNode::Tuple(types) => all_safe(graph, types@.map_values(|t: usize| t as int), inner),
            TyNode::Array(element) => all_safe(graph, seq![element as int], inner),
            TyNode::Text => true,
            TyNode::Owning { element, global_allocator } => match element {
                Some(e) => all_safe(graph, seq![e as int], inner) && global_allocator,
                None => false,
            },
            TyNode::Adt { has_dtor, is_union, fields, .. } => !has_dtor && !is_union && all_safe(
                graph,
                fields@.map_values(|t: usize| t as int),
                inner,
            ),
            TyNode::Other => false,
        }
    }
}

/// Whether every type of `types` is safe by way of `path`.
pub open spec fn all_safe(graph: Seq<TyNode>, types: Seq<int>, path: Seq<int>) -> bool
    decreases depth_left(path.len()), types.len(),
{
    if types.len() == 0 {
        true
    } else {
        all_safe(graph, types.drop_last(), path) && safe(graph, types.last(), path)
    }
}

/// The views of a path.
pub open spec fn ints(path: Seq<usize>) -> Seq<int> {
    path.map_values(|t: usize| t as int)
}

/// Whether `path` holds `ty`.
fn on_path(path: &Vec<usize>, ty: usize) -> (found: bool)
    ensures
        found == ints(path@).contains(ty as int),
{
    let mut i: usize = 0;
    while i < path.len()
        invariant
            i <= path@.len(),
            forall|k: int| 0 <= k < i ==> path@[k] != ty,
        decreases path@.len() - i,
    {
        if path[i] == ty {
            assert(ints(path@)[i as int] == ty as int);
            return true;
        }
        i = i + 1;
    }
    assert forall|k: int| 0 <= k < path@.len() implies #[trigger] ints(path@)[k] != ty as int by {
        assert(path@[k] != ty);
    }
    false
}

/// Whether dropping a value of type `ty` runs no code whose order the
/// program could observe: no destructor of its own or of anything it
/// owns, reading `String`, `Box` and `Vec` (with the global allocator)
/// as safe owners. `visiting` is the way down, kept as it was.
pub fn safe_drop(graph: &TyGraph, ty: usize, visiting: &mut Vec<usize>) -> (is_safe: bool)
    ensures
        is_safe == safe(graph.nodes@, ty as int, ints(old(visiting)@)),
        final(visiting)@ == old(visiting)@,
    decreases depth_left(old(visiting)@.len()), 0int,
{
    if visiting.len() >= DEPTH_LIMIT {
        return false;
    }
    if on_path(visiting, ty) {
        return true;
    }
    if ty >= graph.nodes.len() {
        return false;
    }
    let ghost outer = old(visiting)@;
    visiting.push(ty);
    proof {
        assert(ints(visiting@) =~= ints(outer).push(ty as int));
    }
    let result = match &graph.nodes[ty] {
        TyNode::Trivial => true,
        TyNode::Tuple(types) => all_safe_drop(graph, types.as_slice(), visiting),
        TyNode::Array(element) => {
            let one = [*element];
            proof {
                assert(one@.map_values(|t: usize| t as int) =~= seq![*element as int]);
            }
            all_safe_drop(graph, &one, visiting)
        },
        TyNode::Text => true,
        TyNode::Owning { element, global_allocator } => match element {
            Some(e) => {
                let one = [*e];
                proof {
                    assert(one@.map_values(|t: usize| t as int) =~= seq![*e as int]);
                }
                all_safe_drop(graph, &one, visiting) && *global_allocator
            },
            None => false,
        },
        TyNode::Adt { has_dtor, is_union, fields, .. } => !*has_dtor && !*is_union
            && all_safe_drop(graph, fields.as_slice(), visiting),
        TyNode::Other => false,
    };
    visiting.pop();
    proof {
        assert(visiting@ =~= outer);
    }
    result
}

/// Whether every type of `types` is safe to drop by way of `visiting`,
/// which is kept as it was.
pub fn all_safe_drop(graph: &TyGraph, types: &[usize], visiting: &mut Vec<usize>) -> (is_safe: bool)
    ensures
        is_safe == all_safe(graph.nodes@, ints(types@), ints(old(visiting)@)),
        final(visiting)@ == old(visiting)@,
    decreases depth_left(old(visiting)@.len()), types@.len(),
{
    let n = types.len();
    let mut i: usize = 0;
    assert(ints(types@).take(0) =~= Seq::<int>::empty());
    while i < n
        invariant
            n == types@.len(),
            i <= n,
            visiting@ == old(visiting)@,
            all_safe(graph.nodes@, ints(types@).take(i as int), ints(visiting@)),
        decreases n - i,
    {
        proof {
            let t = ints(types@).take(i + 1);
            assert(t.drop_last() =~= ints(types@).take(i as int));
        }
        if !safe_drop(graph, types[i], visiting) {
            proof {
                if all_safe(graph.nodes@, ints(types@), ints(visiting@)) {
                    lemma_all_safe_prefix(graph.nodes@, ints(types@), ints(visiting@), i + 1);
                }
            }
            return false;
        }
        i = i + 1;
    }
    assert(ints(types@).take(n as int) =~= ints(types@));
    true
}

/// A prefix of an all-safe list is all safe.
proof fn lemma_all_safe_prefix(graph: Seq<TyNode>, types: Seq<int>, path: Seq<int>, n: int)
    requires
        0 <= n <= types.len(),
        all_safe(graph, types, path),
    ensures
        all_safe(graph, types.take(n), path),
    decreases types.len() - n,
{
    if n < types.len() {
        assert(types.drop_last().len() == types.len() - 1);
        lemma_all_safe_prefix(graph, types.drop_last(), path, n);
        assert(types.drop_last().take(n) =~= types.take(n));
    } else {
        assert(types.take(n) =~= types);
    }
}

/// Whether the crate has a built-in derive of `name` on `adt`.
pub open spec fn derives_builtin(derives: Seq<BuiltinDerive>, adt: u64, name: Seq<char>) -> bool {
    exists|i: int| 0 <= i < derives.len() && (#[trigger] derives[i]).adt == adt && derives[i].trait_name@ == name
}

/// Whether one impl is a built-in derive on an ADT.
pub open spec fn is_derive_record(imp: LocalImpl) -> bool {
    imp.is_builtin_derived && imp.self_adt is Some
}

/// The built-in derives of the crate: for every trait impl a built-in
/// derive wrote for one of the crate's ADTs, that ADT and the trait.
pub fn builtin_derives(impls: &[LocalImpl]) -> (derives: Vec<BuiltinDerive>)
    ensures
        forall|adt: u64, name: Seq<char>|
            #[trigger] derives_builtin(derives@, adt, name) <==> exists|i: int|
                0 <= i < impls@.len() && is_derive_record(#[trigger] impls@[i])
                    && impls@[i].self_adt == Some(adt) && impls@[i].trait_name@ == name,
{
    let mut derives: Vec<BuiltinDerive> = Vec::new();
    let mut i: usize = 0;
    while i < impls.len()
        invariant
            i <= impls@.len(),
            forall|adt: u64, name: Seq<char>|
                #[trigger] derives_builtin(derives@, adt, name) <==> exists|k: int|
                    0 <= k < i && is_derive_record(#[trigger] impls@[k])
                        && impls@[k].self_adt == Some(adt) && impls@[k].trait_name@ == name,
        decreases impls@.len() - i,
    {
        let ghost before = derives@;
        let imp = &impls[i];
        if imp.is_builtin_derived {
            match imp.self_adt {
                Some(adt) => {
                    derives.push(BuiltinDerive { adt, trait_name: imp.trait_name.clone() });
                },
                None => {},
            }
        }
        proof {
            assert forall|adt: u64, name: Seq<char>|
                #[trigger] derives_builtin(derives@, adt, name) <==> (derives_builtin(before, adt, name) || (
                is_derive_record(impls@[i as int]) && impls@[i as int].self_adt == Some(adt)
                    && impls@[i as int].trait_name@ == name)) by {
                if derives_builtin(before, adt, name) {
                    let k = choose|k: int| 0 <= k < before.len() && (#[trigger] before[k]).adt == adt && before[k].trait_name@ == name;
                    assert(derives@[k] == before[k]);
                }
                if derives_builtin(derives@, adt, name) {
                    let k = choose|k: int| 0 <= k < derives@.len() && (#[trigger] derives@[k]).adt == adt && derives@[k].trait_name@ == name;
                    if k < before.len() {
                        assert(derives@[k] == before[k]);
                    }
                }
                if is_derive_record(impls@[i as int]) && impls@[i as int].self_adt == Some(adt)
                    && impls@[i as int].trait_name@ == name {
                    assert(derives@[before.len() as int].adt == adt);
                }
            }
        }
        i = i + 1;
    }
    derives
}

/// Whether a derive name is `Copy` or `Clone`.
pub open spec fn is_copy_or_clone(name: Seq<char>) -> bool {
    name == "Copy"@ || name == "Clone"@
}

/// The ADT a graph node is, when it is one.
pub open spec fn adt_of(graph: Seq<TyNode>, ty: int) -> Option<u64> {
    if 0 <= ty < graph.len() {
        match graph[ty] {
            TyNode::Adt { id, .. } => Some(id),
            _ => None,
        }
    } else {
        None
    }
}

/// Whether a struct can have its declaration reordered: it is an ADT,
/// every derive the source names is one the compiler built in, a `Copy`
/// or `Clone` derive only on a type proven `Copy`, and dropping it runs
/// no observable code.
pub open spec fn spec_eligible(
    graph: Seq<TyNode>,
    ty: int,
    is_copy: bool,
    source: SourceStruct,
    derives: Seq<BuiltinDerive>,
) -> bool {
    &&& adt_of(graph, ty) is Some
    &&& forall|i: int|
        0 <= i < source.derives@.len() ==> derives_builtin(
            derives,
            adt_of(graph, ty)->0,
            (#[trigger] source.derives@[i])@,
        )
    &&& (exists|i: int| 0 <= i < source.derives@.len() && is_copy_or_clone((#[trigger] source.derives@[i])@)) ==> is_copy
    &&& safe(graph, ty, Seq::empty())
}

/// Whether some built-in derive of `name` is on `adt`.
fn has_builtin(derives: &[BuiltinDerive], adt: u64, name: &String) -> (found: bool)
    ensures
        found == derives_builtin(derives@, adt, name@),
{
    let mut i: usize = 0;
    while i < derives.len()
        invariant
            i <= derives@.len(),
            forall|k: int| 0 <= k < i ==> !((#[trigger] derives@[k]).adt == adt && derives@[k].trait_name@ == name@),
        decreases derives@.len() - i,
    {
        if derives[i].adt == adt && derives[i].trait_name == *name {
            return true;
        }
        i = i + 1;
    }
    false
}

/// Whether the struct of type `ty` can have its declaration reordered
/// (see [`spec_eligible`]).
pub fn eligible(
    graph: &TyGraph,
    ty: usize,
    is_copy: bool,
    source: &SourceStruct,
    derives: &[BuiltinDerive],
) -> (ok: bool)
    ensures
        ok == spec_eligible(graph.nodes@, ty as int, is_copy, *source, derives@),
{
    if ty >= graph.nodes.len() {
        return false;
    }
    let adt = match &graph.nodes[ty] {
        TyNode::Adt { id, .. } => *id,
        _ => {
            return false;
        },
    };
    let mut copy_like = false;
    let mut i: usize = 0;
    while i < source.derives.len()
        invariant
            i <= source.derives@.len(),
            adt_of(graph.nodes@, ty as int) == Some(adt),
            forall|k: int| 0 <= k < i ==> derives_builtin(derives@, adt, (#[trigger] source.derives@[k])@),
            copy_like == exists|k: int| 0 <= k < i && is_copy_or_clone((#[trigger] source.derives@[k])@),
        decreases source.derives@.len() - i,
    {
        let name = &source.derives[i];
        if !has_builtin(derives, adt, name) {
            return false;
        }
        let copy_chars = chars_of("Copy");
        let clone_chars = chars_of("Clone");
        let name_chars = chars_of(name.as_str());
        if same_chars(name_chars.as_slice(), copy_chars.as_slice()) || same_chars(
            name_chars.as_slice(),
            clone_chars.as_slice(),
        ) {
            copy_like = true;
        }
        i = i + 1;
    }
    if copy_like && !is_copy {
        return false;
    }
    let mut visiting: Vec<usize> = Vec::new();
    assert(ints(visiting@) =~= Seq::<int>::empty());
    safe_drop(graph, ty, &mut visiting)
}

/// An array is as safe to drop as its element: dropping it drops each
/// element, so the check answers for an array what it answers for its
/// element type one level further down.
pub proof fn lemma_array_is_its_element(graph: Seq<TyNode>, ty: int, path: Seq<int>, element: usize)
    requires
        0 <= ty < graph.len(),
        graph[ty] == TyNode::Array(element),
        path.len() < DEPTH_LIMIT,
        !path.contains(ty),
    ensures
        safe(graph, ty, path) == safe(graph, element as int, path.push(ty)),
{
    let one = seq![element as int];
    assert(one.drop_last() =~= Seq::<int>::empty());
    assert(all_safe(graph, one.drop_last(), path.push(ty)));
}

/// An array of a type with a destructor of its own is never safe to
/// drop in another order.
pub proof fn lemma_array_of_destructor_is_unsafe(graph: Seq<TyNode>, ty: int, element: usize)
    requires
        0 <= ty < graph.len(),
        graph[ty] == TyNode::Array(element),
        element < graph.len(),
        element != ty,
        graph[element as int] matches TyNode::Adt { has_dtor, .. } && has_dtor,
    ensures
        !safe(graph, ty, Seq::empty()),
{
    let path = Seq::<int>::empty();
    lemma_array_is_its_element(graph, ty, path, element);
    let inner = path.push(ty);
    assert(inner.len() == 1 && inner[0] == ty);
    assert(!inner.contains(element as int));
}

} // verus!
