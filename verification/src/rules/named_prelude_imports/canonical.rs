//! Resolving the canonical module a cherry-picked prelude item actually
//! lives in.
//!
//! A prelude is a module of re-exports, so the path a `use` writes says
//! nothing about where the item is declared. The canonical path is
//! built from the item's *definition* path, which bypasses every
//! re-export on the way and lands on the declaring module. A definition
//! path is not always one the importer may write: its crate need not be
//! linked here, a `::`-rooted import has to keep its root, and a
//! macro's definition path need not be the path it answers to.
use crate::text::{
    chars_of, extend_chars, extend_str, join, join_parts, lemma_split_nonempty, path_sep,
    split_path, split_sep, string_of, views,
};
use vstd::prelude::*;

verus! {

broadcast use vstd::string::group_string_axioms;

/// Where a cherry-picked name actually lives.
pub struct Canonical {
    /// The item's canonical path (`crate::thing::A`). `None` when no
    /// single path reproduces the import: the name did not resolve, its
    /// definition path has an unnameable component, it binds items in
    /// more than one module at once, or it is a macro.
    pub path: Option<String>,
    /// Whether the canonical path can be promised to resolve from the
    /// importing site: every component of every resolved namespace is
    /// `pub` up to the crate root, and the path is rooted in a crate
    /// the rewritten `use` already names.
    pub nameable: bool,
}

/// How the `use` being rewritten reaches its crate.
pub struct WrittenRoot<'a> {
    /// Its first segment, which says which crate the importer is known
    /// to have linked. `None` for a path with no segment before the item.
    pub name: Option<&'a str>,
    /// Whether a leading `::` pinned that segment to the extern prelude.
    pub rooted: bool,
}

/// The crate a definition lives in.
pub enum DefCrate {
    /// The crate being compiled, reached as `crate`.
    Local,
    /// Another crate, by its name.
    Named(String),
}

/// What the compiler knows about the item one namespace of a `use`
/// resolved to.
pub struct Definition {
    /// Whether the item is a macro.
    pub is_macro: bool,
    /// The crate the item is defined in.
    pub krate: DefCrate,
    /// Each component of the item's definition path, rendered as an
    /// identifier (`r#type` for a keyword); `None` for a component with
    /// no name (an `impl`, a closure, ...).
    pub components: Vec<Option<String>>,
    /// Whether the item, then each enclosing module up to the crate
    /// root, is `pub`.
    pub visibilities: Vec<bool>,
}

/// The first segment of a path.
pub open spec fn first_segment(path: Seq<char>) -> Seq<char> {
    split_sep(path)[0]
}

/// The path with a leading `::` put back when the rewritten `use` was
/// `::`-rooted, except for a path into the local crate.
pub open spec fn rooted_as_written(canonical: Seq<char>, rooted: bool) -> Seq<char> {
    if rooted && first_segment(canonical) != "crate"@ {
        path_sep() + canonical
    } else {
        canonical
    }
}

/// Whether the path's crate is one the importer can name: the local
/// crate, or the crate the rewritten `use` already names.
pub open spec fn spec_crate_is_linked(canonical: Seq<char>, written_root: Option<Seq<char>>) -> bool {
    let root = first_segment(canonical);
    root == "crate"@ || written_root == Some(root)
}

/// The name a definition's crate is written as.
pub open spec fn crate_segment(krate: DefCrate) -> Seq<char> {
    match krate {
        DefCrate::Local => "crate"@,
        DefCrate::Named(name) => name@,
    }
}

/// Whether every component of the definition path has a name.
pub open spec fn all_named(components: Seq<Option<String>>) -> bool {
    forall|i: int| 0 <= i < components.len() ==> (#[trigger] components[i]) is Some
}

/// The names of the definition path's components.
pub open spec fn component_names(components: Seq<Option<String>>) -> Seq<Seq<char>> {
    components.map_values(|c: Option<String>| c.unwrap()@)
}

/// The canonical `use`-able path of a definition: its crate, then each
/// named component of its definition path; `None` when a component has
/// no name.
pub open spec fn spec_use_path(def: Definition) -> Option<Seq<char>> {
    if all_named(def.components@) {
        Some(join(seq![crate_segment(def.krate)] + component_names(def.components@), path_sep()))
    } else {
        None
    }
}

/// Whether the definition and every enclosing module is `pub`.
pub open spec fn spec_all_public(def: Definition) -> bool {
    forall|i: int| 0 <= i < def.visibilities@.len() ==> #[trigger] def.visibilities@[i]
}

/// Whether the name resolved to a macro in some namespace.
pub open spec fn any_macro(defs: Seq<Definition>) -> bool {
    exists|i: int| 0 <= i < defs.len() && #[trigger] defs[i].is_macro
}

/// Whether `path` is the canonical path of some resolved namespace.
pub open spec fn reaches(defs: Seq<Definition>, path: Seq<char>) -> bool {
    exists|i: int| 0 <= i < defs.len() && #[trigger] spec_use_path(defs[i]) == Some(path)
}

/// Whether every resolved namespace with a canonical path agrees on
/// `path`, and at least one has it.
pub open spec fn single_path(defs: Seq<Definition>, path: Seq<char>) -> bool {
    &&& reaches(defs, path)
    &&& forall|i: int|
        0 <= i < defs.len() && (#[trigger] spec_use_path(defs[i])) is Some ==> spec_use_path(defs[i])
            == Some(path)
}

/// Whether some single path reproduces the import.
pub open spec fn has_single_path(defs: Seq<Definition>) -> bool {
    !any_macro(defs) && exists|path: Seq<char>| single_path(defs, path)
}

/// The canonical path every namespace agrees on.
pub open spec fn the_single_path(defs: Seq<Definition>) -> Seq<char> {
    choose|path: Seq<char>| single_path(defs, path)
}

/// Whether every resolved definition is public all the way up.
pub open spec fn every_public(defs: Seq<Definition>) -> bool {
    forall|i: int| 0 <= i < defs.len() ==> spec_all_public(#[trigger] defs[i])
}

/// The view of a `WrittenRoot`'s name.
pub open spec fn root_name(written: WrittenRoot) -> Option<Seq<char>> {
    match written.name {
        Some(name) => Some(name@),
        None => None,
    }
}

/// The first segment of `path`.
fn first_segment_of(path: &[char]) -> (first: Vec<char>)
    ensures
        first@ == first_segment(path@),
{
    let parts = split_path(path);
    proof {
        lemma_split_nonempty(path@);
        assert(views(parts@)[0] == parts@[0]@);
    }
    let mut first: Vec<char> = Vec::new();
    extend_chars(&mut first, parts[0].as_slice());
    first
}

/// Whether `chars` spell the keyword `crate`.
fn is_crate_keyword(chars: &[char]) -> (is: bool)
    ensures
        is == (chars@ == "crate"@),
{
    proof {
        reveal_strlit("crate");
    }
    let is = chars.len() == 5 && chars[0] == 'c' && chars[1] == 'r' && chars[2] == 'a'
        && chars[3] == 't' && chars[4] == 'e';
    if is {
        assert(chars@ =~= "crate"@);
    }
    is
}

/// Put back the leading `::` when the path being rewritten carried one.
/// `use ::dep::prelude::Item;` names the extern crate `dep` whatever else
/// is in scope; the local crate is exempt, since `::crate` is not a path.
pub fn root_as_written(canonical: &str, rooted: bool) -> (written: String)
    ensures
        written@ == rooted_as_written(canonical@, rooted),
{
    let chars = chars_of(canonical);
    let first = first_segment_of(chars.as_slice());
    if rooted && !is_crate_keyword(first.as_slice()) {
        let mut out = chars_of("::");
        proof {
            reveal_strlit("::");
        }
        extend_chars(&mut out, chars.as_slice());
        string_of(out.as_slice())
    } else {
        string_of(chars.as_slice())
    }
}

/// Whether `canonical`'s crate root is one the importer can name: the
/// local crate, which `crate::` always reaches, or the very crate the
/// rewritten `use` already spells, which is therefore linked here.
pub fn crate_is_linked(canonical: &str, written_root: Option<&str>) -> (linked: bool)
    ensures
        linked == spec_crate_is_linked(
            canonical@,
            match written_root {
                Some(r) => Some(r@),
                None => None,
            },
        ),
{
    let chars = chars_of(canonical);
    let root = first_segment_of(chars.as_slice());
    if is_crate_keyword(root.as_slice()) {
        return true;
    }
    match written_root {
        Some(written) => {
            let written_chars = chars_of(written);
            crate::text::same_chars(root.as_slice(), written_chars.as_slice())
        },
        None => false,
    }
}

/// The canonical `use`-able path of a definition: the crate (`crate`
/// for the local crate, else the crate's name) followed by each named
/// component of its definition path. `None` if any component has no
/// nameable identifier.
pub fn use_path(def: &Definition) -> (path: Option<String>)
    ensures
        match path {
            Some(p) => spec_use_path(*def) == Some(p@),
            None => spec_use_path(*def) is None,
        },
{
    let mut segments: Vec<Vec<char>> = Vec::new();
    match &def.krate {
        DefCrate::Local => {
            segments.push(chars_of("crate"));
        },
        DefCrate::Named(name) => {
            segments.push(chars_of(name.as_str()));
        },
    }
    let n = def.components.len();
    let mut i: usize = 0;
    while i < n
        invariant
            n == def.components@.len(),
            i <= n,
            forall|k: int| 0 <= k < i ==> (#[trigger] def.components@[k]) is Some,
            views(segments@) == seq![crate_segment(def.krate)] + component_names(
                def.components@.take(i as int),
            ),
        decreases n - i,
    {
        match &def.components[i] {
            Some(name) => {
                let ghost before = segments@;
                segments.push(chars_of(name.as_str()));
                proof {
                    assert(views(segments@) =~= views(before) + seq![name@]);
                    assert(component_names(def.components@.take(i + 1)) =~= component_names(
                        def.components@.take(i as int),
                    ) + seq![name@]);
                }
            },
            None => {
                return None;
            },
        }
        i = i + 1;
    }
    assert(def.components@.take(n as int) =~= def.components@);
    let sep = chars_of("::");
    proof {
        reveal_strlit("::");
        assert(sep@ =~= path_sep());
    }
    let joined = join_parts(segments.as_slice(), sep.as_slice());
    Some(string_of(joined.as_slice()))
}

/// Whether the definition and every enclosing module up to the crate
/// root is `pub`, so the canonical path is nameable from any importer.
pub fn all_public(def: &Definition) -> (public: bool)
    ensures
        public == spec_all_public(*def),
{
    let mut i: usize = 0;
    while i < def.visibilities.len()
        invariant
            i <= def.visibilities@.len(),
            forall|k: int| 0 <= k < i ==> #[trigger] def.visibilities@[k],
        decreases def.visibilities@.len() - i,
    {
        if !def.visibilities[i] {
            return false;
        }
        i = i + 1;
    }
    true
}

/// What `resolve` answers for `defs` reached through a `use` whose
/// first segment is `name` and which is `::`-rooted when `rooted`.
pub open spec fn resolution(
    defs: Seq<Definition>,
    name: Option<Seq<char>>,
    rooted: bool,
    canonical: Canonical,
) -> bool {
    &&& has_single_path(defs) ==> {
        &&& canonical.path matches Some(p) && p@ == rooted_as_written(the_single_path(defs), rooted)
        &&& canonical.nameable == (spec_crate_is_linked(the_single_path(defs), name) && every_public(
            defs,
        ))
    }
    &&& !has_single_path(defs) ==> canonical.path is None && !canonical.nameable
}

/// Resolve the canonical path for the namespaces one `use` path binds.
///
/// A macro withholds the path. Otherwise the path is offered when every
/// resolved namespace with a canonical path agrees on one; it is
/// `nameable` when its crate is linked here and every definition is
/// public all the way up.
pub fn resolve(defs: &[Definition], written: WrittenRoot) -> (canonical: Canonical)
    ensures
        resolution(defs@, root_name(written), written.rooted, canonical),
{
    let n = defs.len();
    let mut i: usize = 0;
    while i < n
        invariant
            n == defs@.len(),
            i <= n,
            forall|k: int| 0 <= k < i ==> !(#[trigger] defs@[k]).is_macro,
        decreases n - i,
    {
        if defs[i].is_macro {
            return Canonical { path: None, nameable: false };
        }
        i = i + 1;
    }
    let mut found: Option<String> = None;
    let mut public = true;
    let mut j: usize = 0;
    while j < n
        invariant
            n == defs@.len(),
            j <= n,
            !any_macro(defs@),
            public == (forall|k: int| 0 <= k < j ==> spec_all_public(#[trigger] defs@[k])),
            match found {
                Some(p) => {
                    &&& reaches(defs@, p@)
                    &&& forall|k: int|
                        0 <= k < j && (#[trigger] spec_use_path(defs@[k])) is Some ==> spec_use_path(
                            defs@[k],
                        ) == Some(p@)
                },
                None => forall|k: int| 0 <= k < j ==> (#[trigger] spec_use_path(defs@[k])) is None,
            },
        decreases n - j,
    {
        if !all_public(&defs[j]) {
            public = false;
        }
        match use_path(&defs[j]) {
            Some(p) => {
                match &found {
                    Some(q) => {
                        let pc = chars_of(p.as_str());
                        let qc = chars_of(q.as_str());
                        if !crate::text::same_chars(pc.as_slice(), qc.as_slice()) {
                            proof {
                                assert forall|path: Seq<char>| !single_path(defs@, path) by {
                                    if single_path(defs@, path) {
                                        assert(spec_use_path(defs@[j as int]) is Some);
                                        let w = choose|k: int|
                                            0 <= k < defs@.len() && #[trigger] spec_use_path(
                                                defs@[k],
                                            ) == Some(q@);
                                        assert(spec_use_path(defs@[w]) is Some);
                                    }
                                }
                            }
                            return Canonical { path: None, nameable: false };
                        }
                    },
                    None => {
                        found = Some(p);
                    },
                }
            },
            None => {},
        }
        j = j + 1;
    }
    match found {
        Some(p) => {
            proof {
                assert(single_path(defs@, p@));
                let c = the_single_path(defs@);
                assert(single_path(defs@, c));
                let w = choose|k: int| 0 <= k < defs@.len() && #[trigger] spec_use_path(defs@[k]) == Some(c);
                assert(spec_use_path(defs@[w]) is Some);
                assert(c == p@);
            }
            let linked = crate_is_linked(p.as_str(), written.name);
            Canonical {
                path: Some(root_as_written(p.as_str(), written.rooted)),
                nameable: linked && public,
            }
        },
        None => {
            proof {
                assert forall|path: Seq<char>| !single_path(defs@, path) by {
                    if single_path(defs@, path) {
                        let w = choose|k: int| 0 <= k < defs@.len() && #[trigger] spec_use_path(defs@[k]) == Some(path);
                        assert(spec_use_path(defs@[w]) is Some);
                    }
                }
            }
            Canonical { path: None, nameable: false }
        },
    }
}

} // verus!
