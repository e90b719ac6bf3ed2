//! `perfectionist::named_prelude_imports` — flag cherry-picked named
//! imports from a `prelude` module (`use serde::prelude::Serialize;`),
//! leaving the glob form (`use serde::prelude::*;`) alone.
use crate::source::Span;
use vstd::prelude::*;

pub mod canonical;
pub mod statement;

use crate::text::{
    chars_of, extend_chars, extend_str, join, join_parts, path_sep, same_chars, split_path,
    split_sep, string_of, views,
};
use canonical::{resolution, resolve, Canonical, Definition, WrittenRoot};
use statement::{
    can_rewrite, fix_applicability, fix_label, is_self_entry, rename_suffix, replaced_span,
    replacement_text, spec_is_self_entry, spec_rename_suffix, spec_written_path, written_path,
    Fix, Leaf, Statement,
};

verus! {

/// The rule's table in `dylint.toml`.
pub const CONFIG_KEY: &'static str = "perfectionist::named_prelude_imports";

/// The one diagnostic the rule emits, once per cherry-picked name.
pub const MESSAGE: &'static str = "named item cherry-picked from a prelude module";

/// The help for a cherry-pick no mechanical rewrite is offered for.
pub const HELP: &'static str = "import this item from its canonical module, or glob-import the prelude with `use ...::prelude::*;`";

/// An identifier: its name, and how it renders in source (`r#type` for
/// a keyword).
pub struct Ident {
    pub name: String,
    pub rendered: String,
}

/// One segment of a lowered `use` path.
pub struct PathSegment {
    pub ident: Ident,
    /// The synthetic root segment a leading `::` lowers to.
    pub is_root: bool,
}

/// What one lowered `use` item imports.
pub enum UseKind {
    /// A single name, bound as the given identifier.
    Single(Ident),
    /// A glob, `path::*`.
    Glob,
    /// The head of a brace list, which imports nothing itself.
    ListStem,
}

/// The source text of a `use` item's spans, where the source map has it.
pub struct Snippets {
    /// The whole item, from its visibility to its `;`.
    pub item: Option<String>,
    /// The item's path.
    pub path: Option<String>,
    /// The item's visibility, empty for a private `use`.
    pub vis: Option<String>,
}

/// One lowered `use` item, as the compiler hands it to the pass.
pub struct UseItem {
    /// The caller's handle for the item.
    pub owner: u64,
    /// The item's span.
    pub span: Span,
    /// Whether the item comes from a macro expansion.
    pub generated: bool,
    pub kind: UseKind,
    /// The path's segments.
    pub segments: Vec<PathSegment>,
    /// The path's written span.
    pub path_span: Span,
    pub snippets: Snippets,
    /// What each namespace the path binds resolved to.
    pub resolutions: Vec<Definition>,
}

/// How far a suggested rewrite can be trusted.
#[derive(Clone, Copy, Debug, PartialEq, Eq, Structural)]
pub enum Applicability {
    MachineApplicable,
    MaybeIncorrect,
}

/// A rewrite onto a path every importer can name is mechanical; any
/// other needs a human's eye.
pub open spec fn spec_applicability(nameable: bool) -> Applicability {
    if nameable {
        Applicability::MachineApplicable
    } else {
        Applicability::MaybeIncorrect
    }
}

/// A rewrite onto a canonical path every importer can name is
/// mechanical; one onto a path that is private somewhere up to the
/// crate root needs a human's eye.
pub fn applicability(nameable: bool) -> (applicability: Applicability)
    ensures
        applicability == spec_applicability(nameable),
{
    if nameable {
        Applicability::MachineApplicable
    } else {
        Applicability::MaybeIncorrect
    }
}

broadcast use vstd::string::group_string_axioms;

/// The rule's configuration, as `dylint.toml` gives it.
pub struct Config {
    /// The segment names treated as preludes. Defaults to `["prelude"]`.
    pub prelude_segment_names: Vec<String>,
    /// Prelude paths exempted from the rule, each up to and including
    /// its prelude segment (`crate::prelude`, `::serde::prelude`).
    pub allowed_paths: Vec<String>,
}

impl Config {
    /// The shipped defaults: `prelude` is the only prelude segment, and
    /// no prelude is exempt.
    pub fn default() -> (config: Config)
        ensures
            config.prelude_segment_names@.len() == 1,
            config.prelude_segment_names@[0]@ == "prelude"@,
            config.allowed_paths@.len() == 0,
    {
        let mut names: Vec<String> = Vec::new();
        names.push(string_of(chars_of("prelude").as_slice()));
        Config { prelude_segment_names: names, allowed_paths: Vec::new() }
    }
}

/// The configuration with every allowed path in its absolute form.
pub struct Resolved {
    pub prelude_segment_names: Vec<String>,
    pub allowed_paths: Vec<String>,
}

/// Whether `name` is one of the configured prelude segment names.
pub open spec fn is_prelude_name(names: Seq<String>, name: Seq<char>) -> bool {
    exists|i: int| 0 <= i < names.len() && (#[trigger] names[i])@ == name
}

/// Whether `key` is one of the allowed prelude paths.
pub open spec fn is_allowed(allowed: Seq<String>, key: Seq<char>) -> bool {
    exists|i: int| 0 <= i < allowed.len() && (#[trigger] allowed[i])@ == key
}

/// Whether a path's first segment already anchors it: a leading `::`,
/// or `crate`, `self` or `super`.
pub open spec fn is_anchored(path: Seq<char>) -> bool {
    let first = split_sep(path)[0];
    first.len() == 0 || first == "crate"@ || first == "self"@ || first == "super"@
}

/// The absolute form of a module path: anchored paths are kept, and a
/// path that starts at a crate name is rooted at the extern prelude.
pub open spec fn spec_canonical_key(path: Seq<char>) -> Seq<char> {
    if is_anchored(path) {
        path
    } else {
        path_sep() + path
    }
}

/// The names of the segments, the synthetic root dropped.
pub open spec fn named_segments(segments: Seq<PathSegment>) -> Seq<Seq<char>>
    decreases segments.len(),
{
    if segments.len() == 0 {
        Seq::empty()
    } else {
        let before = named_segments(segments.drop_last());
        if segments.last().is_root {
            before
        } else {
            before.push(segments.last().ident.name@)
        }
    }
}

/// The first index below `end` whose segment is a prelude segment.
pub open spec fn first_prelude_below(names: Seq<String>, segments: Seq<PathSegment>, end: int) -> Option<int>
    decreases end,
{
    if end <= 0 {
        None
    } else {
        match first_prelude_below(names, segments, end - 1) {
            Some(p) => Some(p),
            None => if is_prelude_name(names, segments[end - 1].ident.name@) {
                Some(end - 1)
            } else {
                None
            },
        }
    }
}

/// The prelude segment a leaf's path cherry-picks from: one that sits
/// before the last segment, which is the imported item itself.
pub open spec fn prelude_index(names: Seq<String>, segments: Seq<PathSegment>) -> Option<int> {
    if segments.len() == 0 {
        None
    } else {
        first_prelude_below(names, segments, segments.len() - 1)
    }
}

/// The key the allow list is matched against: the absolute module path
/// up to and including the prelude segment.
pub open spec fn prelude_key(segments: Seq<PathSegment>, index: int) -> Seq<char> {
    spec_canonical_key(join(named_segments(segments.take(index + 1)), path_sep()))
}

/// The first segment that is not the synthetic root.
pub open spec fn first_name(segments: Seq<PathSegment>) -> Option<Seq<char>>
    decreases segments.len(),
{
    if segments.len() == 0 {
        None
    } else if !segments[0].is_root {
        Some(segments[0].ident.name@)
    } else {
        first_name(segments.skip(1))
    }
}

/// Whether the path starts with the synthetic root of a leading `::`.
pub open spec fn is_rooted(segments: Seq<PathSegment>) -> bool {
    segments.len() > 0 && segments[0].is_root
}

/// What `cherry_pick` answers: nothing when the path cherry-picks from no
/// prelude or from an allowed one, and the resolved canonical path
/// otherwise.
pub open spec fn cherry_pick_result(
    config: Resolved,
    segments: Seq<PathSegment>,
    defs: Seq<Definition>,
    result: Option<Canonical>,
) -> bool {
    match prelude_index(config.prelude_segment_names@, segments) {
        None => result is None,
        Some(index) => if is_allowed(config.allowed_paths@, prelude_key(segments, index)) {
            result is None
        } else {
            result matches Some(canonical) && resolution(
                defs,
                first_name(segments),
                is_rooted(segments),
                canonical,
            )
        },
    }
}

/// The path a leaf is written as: a glob gains its `::*`.
pub open spec fn leaf_written(item: UseItem) -> Seq<char> {
    let written = spec_written_path(item.segments@);
    if item.kind is Glob && written.len() > 0 {
        written + path_sep() + seq!['*']
    } else {
        written
    }
}

/// The rename suffix a leaf carries.
pub open spec fn leaf_rename(item: UseItem) -> Seq<char> {
    match item.kind {
        UseKind::Single(binding) => spec_rename_suffix(item.segments@, binding),
        _ => Seq::empty(),
    }
}

/// Whether `leaf` is what the pass reads out of `item`.
pub open spec fn is_leaf_of(config: Resolved, item: UseItem, leaf: Leaf) -> bool {
    &&& leaf.owner == item.owner
    &&& leaf.path_span == item.path_span
    &&& leaf.written@ == leaf_written(item)
    &&& leaf.rename@ == leaf_rename(item)
    &&& leaf.is_self == (item.snippets.path matches Some(source) && spec_is_self_entry(source@))
    &&& if item.kind is Single {
        cherry_pick_result(config, item.segments@, item.resolutions@, leaf.flagged)
    } else {
        leaf.flagged is None
    }
}

/// A statement's leaves that cherry-pick from a prelude, in order.
pub open spec fn flagged_leaves(leaves: Seq<Leaf>) -> Seq<Leaf>
    decreases leaves.len(),
{
    if leaves.len() == 0 {
        Seq::empty()
    } else {
        let before = flagged_leaves(leaves.drop_last());
        if leaves.last().flagged is Some {
            before.push(leaves.last())
        } else {
            before
        }
    }
}

/// Whether `fix` is the rewrite of `statement`.
pub open spec fn is_rewrite_of(statement: Statement, fix: Option<Fix>) -> bool {
    &&& fix is Some <==> can_rewrite(statement)
    &&& fix matches Some(f) ==> {
        &&& f.span == replaced_span(statement)
        &&& f.replacement@ == replacement_text(statement)
        &&& f.applicability == fix_applicability(statement)
        &&& f.label@ == fix_label(statement.braced)
    }
}

/// One diagnostic of the rule, for one cherry-picked leaf.
pub struct Emission {
    /// The leaf's owner handle.
    pub owner: u64,
    /// Where the diagnostic points: the leaf's path.
    pub path_span: Span,
    /// The rewrite it carries; the fallback help when `None`.
    pub fix: Option<Fix>,
}

/// Whether `emissions` are what a statement emits once walked past: one
/// per cherry-pick, in order, the first carrying the statement's rewrite
/// and the rest the fallback help.
pub open spec fn emits_for(statement: Option<Statement>, emissions: Seq<Emission>) -> bool {
    match statement {
        None => emissions.len() == 0,
        Some(statement) => {
            let flagged = flagged_leaves(statement.leaves@);
            &&& emissions.len() == flagged.len()
            &&& forall|k: int|
                0 <= k < flagged.len() ==> (#[trigger] emissions[k]).owner == flagged[k].owner
                    && emissions[k].path_span == flagged[k].path_span
            &&& forall|k: int| 1 <= k < flagged.len() ==> (#[trigger] emissions[k]).fix is None
            &&& flagged.len() > 0 ==> is_rewrite_of(statement, emissions[0].fix)
        },
    }
}

/// The `named_prelude_imports` pass: the configuration, and the `use`
/// statement being walked, held until the pass reaches an item outside
/// it.
pub struct NamedPreludeImports {
    pub config: Resolved,
    pub statement: Option<Statement>,
}

/// Whether `b` is the whole of `a`, in one piece.
fn same_text(a: &str, b: &str) -> (same: bool)
    ensures
        same == (a@ == b@),
{
    let ac = chars_of(a);
    let bc = chars_of(b);
    same_chars(ac.as_slice(), bc.as_slice())
}

/// Whether `first` spells one of the anchoring keywords.
fn anchors(first: &[char]) -> (anchored: bool)
    ensures
        anchored == (first@.len() == 0 || first@ == "crate"@ || first@ == "self"@ || first@
            == "super"@),
{
    let crate_kw = chars_of("crate");
    let self_kw = chars_of("self");
    let super_kw = chars_of("super");
    first.len() == 0 || same_chars(first, crate_kw.as_slice()) || same_chars(
        first,
        self_kw.as_slice(),
    ) || same_chars(first, super_kw.as_slice())
}

/// The absolute form of a module path (see [`spec_canonical_key`]).
pub fn canonical_key(path: &str) -> (key: String)
    ensures
        key@ == spec_canonical_key(path@),
{
    let chars = chars_of(path);
    let parts = split_path(chars.as_slice());
    proof {
        crate::text::lemma_split_nonempty(path@);
        assert(views(parts@)[0] == parts@[0]@);
    }
    if anchors(parts[0].as_slice()) {
        string_of(chars.as_slice())
    } else {
        let mut out = chars_of("::");
        proof {
            reveal_strlit("::");
        }
        extend_chars(&mut out, chars.as_slice());
        string_of(out.as_slice())
    }
}

/// The names of `segments`, the synthetic root dropped, joined with `::`.
pub fn join_path_segments(segments: &[PathSegment]) -> (joined: String)
    ensures
        joined@ == join(named_segments(segments@), path_sep()),
{
    let mut names: Vec<Vec<char>> = Vec::new();
    let mut i: usize = 0;
    while i < segments.len()
        invariant
            i <= segments@.len(),
            views(names@) == named_segments(segments@.take(i as int)),
        decreases segments@.len() - i,
    {
        let ghost before = names@;
        if !segments[i].is_root {
            names.push(chars_of(segments[i].ident.name.as_str()));
            proof {
                assert(views(names@) =~= views(before).push(segments@[i as int].ident.name@));
            }
        }
        proof {
            let t = segments@.take(i + 1);
            assert(t.drop_last() =~= segments@.take(i as int));
            assert(t.last() == segments@[i as int]);
        }
        i = i + 1;
    }
    assert(segments@.take(segments@.len() as int) =~= segments@);
    let sep = chars_of("::");
    proof {
        reveal_strlit("::");
        assert(sep@ =~= path_sep());
    }
    string_of(join_parts(names.as_slice(), sep.as_slice()).as_slice())
}

/// Whether `name` is one of `names`.
fn contains_text(names: &Vec<String>, name: &str) -> (found: bool)
    ensures
        found == (exists|i: int| 0 <= i < names@.len() && (#[trigger] names@[i])@ == name@),
{
    let mut i: usize = 0;
    while i < names.len()
        invariant
            i <= names@.len(),
            forall|k: int| 0 <= k < i ==> (#[trigger] names@[k])@ != name@,
        decreases names@.len() - i,
    {
        if same_text(names[i].as_str(), name) {
            return true;
        }
        i = i + 1;
    }
    false
}

impl Resolved {
    /// The configuration with its allowed paths in absolute form.
    pub fn from_config(config: Config) -> (resolved: Resolved)
        ensures
            resolved.prelude_segment_names == config.prelude_segment_names,
            resolved.allowed_paths@.len() == config.allowed_paths@.len(),
            forall|i: int|
                0 <= i < config.allowed_paths@.len() ==> (#[trigger] resolved.allowed_paths@[i])@
                    == spec_canonical_key(config.allowed_paths@[i]@),
    {
        let mut allowed: Vec<String> = Vec::new();
        let mut i: usize = 0;
        while i < config.allowed_paths.len()
            invariant
                i <= config.allowed_paths@.len(),
                allowed@.len() == i,
                forall|k: int|
                    0 <= k < i ==> (#[trigger] allowed@[k])@ == spec_canonical_key(
                        config.allowed_paths@[k]@,
                    ),
            decreases config.allowed_paths@.len() - i,
        {
            allowed.push(canonical_key(config.allowed_paths[i].as_str()));
            i = i + 1;
        }
        Resolved { prelude_segment_names: config.prelude_segment_names, allowed_paths: allowed }
    }
}

/// Whether an allowed path ends in a prelude segment, which it has to:
/// it names the path up to and including the prelude.
pub open spec fn ends_in_prelude(names: Seq<String>, path: Seq<char>) -> bool {
    is_prelude_name(names, split_sep(path).last())
}

/// The first `allowed_paths` entry that does not end in a prelude
/// segment, if any; such an entry would silently match nothing.
pub fn misconfigured_allowed_path(config: &Config) -> (bad: Option<usize>)
    ensures
        match bad {
            Some(i) => {
                &&& i < config.allowed_paths@.len()
                &&& !ends_in_prelude(config.prelude_segment_names@, config.allowed_paths@[i as int]@)
                &&& forall|k: int|
                    0 <= k < i ==> ends_in_prelude(
                        config.prelude_segment_names@,
                        #[trigger] config.allowed_paths@[k]@,
                    )
            },
            None => forall|k: int|
                0 <= k < config.allowed_paths@.len() ==> ends_in_prelude(
                    config.prelude_segment_names@,
                    #[trigger] config.allowed_paths@[k]@,
                ),
        },
{
    let mut i: usize = 0;
    while i < config.allowed_paths.len()
        invariant
            i <= config.allowed_paths@.len(),
            forall|k: int|
                0 <= k < i ==> ends_in_prelude(
                    config.prelude_segment_names@,
                    #[trigger] config.allowed_paths@[k]@,
                ),
        decreases config.allowed_paths@.len() - i,
    {
        let chars = chars_of(config.allowed_paths[i].as_str());
        let parts = split_path(chars.as_slice());
        proof {
            crate::text::lemma_split_nonempty(chars@);
            assert(views(parts@).last() == parts@[parts@.len() - 1]@);
        }
        let last = string_of(parts[parts.len() - 1].as_slice());
        if !contains_text(&config.prelude_segment_names, last.as_str()) {
            return Some(i);
        }
        i = i + 1;
    }
    None
}

impl NamedPreludeImports {
    /// A pass with nothing walked yet.
    pub fn new(config: Config) -> (pass: NamedPreludeImports)
        ensures
            pass.statement is None,
            pass.config.prelude_segment_names == config.prelude_segment_names,
            pass.config.allowed_paths@.len() == config.allowed_paths@.len(),
            forall|i: int|
                0 <= i < config.allowed_paths@.len() ==> (#[trigger] pass.config.allowed_paths@[i])@
                    == spec_canonical_key(config.allowed_paths@[i]@),
    {
        NamedPreludeImports { config: Resolved::from_config(config), statement: None }
    }

    /// Where a leaf's item canonically lives, when the leaf cherry-picks
    /// it out of a prelude; `None` when the path names no prelude before
    /// its last segment, or names one the configuration exempts.
    pub fn cherry_pick(&self, segments: &[PathSegment], res: &[Definition]) -> (picked: Option<Canonical>)
        ensures
            cherry_pick_result(self.config, segments@, res@, picked),
    {
        let n = segments.len();
        if n == 0 {
            return None;
        }
        let item_split = n - 1;
        let mut index: usize = 0;
        while index < item_split && !contains_text(
            &self.config.prelude_segment_names,
            segments[index].ident.name.as_str(),
        )
            invariant
                n == segments@.len(),
                item_split == n - 1,
                index <= item_split,
                first_prelude_below(self.config.prelude_segment_names@, segments@, index as int) is None,
            decreases item_split - index,
        {
            index = index + 1;
        }
        if index == item_split {
            return None;
        }
        proof {
            assert(first_prelude_below(self.config.prelude_segment_names@, segments@, index + 1) == Some(index as int));
            lemma_first_prelude_stays(self.config.prelude_segment_names@, segments@, index + 1, item_split as int);
        }
        let mut head: Vec<PathSegment> = Vec::new();
        let mut k: usize = 0;
        while k <= index
            invariant
                index < n,
                n == segments@.len(),
                k <= index + 1,
                head@ == segments@.take(k as int),
            decreases index + 1 - k,
        {
            head.push(copy_segment(&segments[k]));
            k = k + 1;
            assert(head@ =~= segments@.take(k as int));
        }
        let joined = join_path_segments(head.as_slice());
        let key = canonical_key(joined.as_str());
        if contains_text(&self.config.allowed_paths, key.as_str()) {
            return None;
        }
        let rooted = segments[0].is_root;
        let mut first: usize = 0;
        proof {
            assert(segments@.skip(0) =~= segments@);
        }
        while first < n && segments[first].is_root
            invariant
                n == segments@.len(),
                first <= n,
                first_name(segments@) == first_name(segments@.skip(first as int)),
            decreases n - first,
        {
            assert(segments@.skip(first as int).skip(1) =~= segments@.skip(first + 1));
            first = first + 1;
        }
        let name: Option<&str> = if first < n {
            Some(segments[first].ident.name.as_str())
        } else {
            assert(segments@.skip(first as int).len() == 0);
            None
        };
        Some(resolve(res, WrittenRoot { name, rooted }))
    }

    /// Read one lowered `use` item as a leaf of the statement being
    /// walked. `None` for a `ListStem`, which is the statement's head
    /// rather than anything it imports.
    pub fn leaf(&self, item: &UseItem) -> (leaf: Option<Leaf>)
        ensures
            match leaf {
                Some(leaf) => !(item.kind is ListStem) && is_leaf_of(self.config, *item, leaf),
                None => item.kind is ListStem,
            },
    {
        let rename = match &item.kind {
            UseKind::Single(binding) => rename_suffix(item.segments.as_slice(), binding),
            UseKind::Glob => string_of(Vec::<char>::new().as_slice()),
            UseKind::ListStem => {
                return None;
            },
        };
        let written = written_path(item.segments.as_slice());
        let written = if matches!(item.kind, UseKind::Glob) && !written.as_str().is_empty() {
            let mut chars = chars_of(written.as_str());
            extend_str(&mut chars, "::*");
            proof {
                reveal_strlit("::*");
                assert("::*"@ =~= path_sep() + seq!['*']);
            }
            string_of(chars.as_slice())
        } else {
            written
        };
        let is_self = match &item.snippets.path {
            Some(source) => is_self_entry(source.as_str()),
            None => false,
        };
        let flagged = match &item.kind {
            UseKind::Single(_) => self.cherry_pick(item.segments.as_slice(), item.resolutions.as_slice()),
            _ => None,
        };
        let leaf = Leaf {
            owner: item.owner,
            path_span: item.path_span,
            written,
            rename,
            is_self,
            flagged,
        };
        assert(leaf.written@ == leaf_written(*item));
        assert(leaf.rename@ == leaf_rename(*item));
        assert(leaf.is_self == (item.snippets.path matches Some(source) && spec_is_self_entry(source@)));
        Some(leaf)
    }

    /// Emit for the statement just walked past, if any of its leaves
    /// cherry-picked from a prelude. Only one rewrite is offered per
    /// statement: it replaces the statement's whole use tree, so it rides
    /// the first cherry-pick and the rest carry the fallback help.
    pub fn flush(&mut self) -> (emissions: Vec<Emission>)
        ensures
            final(self).statement is None,
            final(self).config == old(self).config,
            emits_for(old(self).statement, emissions@),
    {
        let statement = match self.statement.take() {
            Some(statement) => statement,
            None => {
                return Vec::new();
            },
        };
        let n = statement.leaves.len();
        let mut emissions: Vec<Emission> = Vec::new();
        let mut i: usize = 0;
        while i < n
            invariant
                n == statement.leaves@.len(),
                i <= n,
                ({
                    let flagged = flagged_leaves(statement.leaves@.take(i as int));
                    &&& emissions@.len() == flagged.len()
                    &&& forall|k: int|
                        0 <= k < flagged.len() ==> (#[trigger] emissions@[k]).owner
                            == flagged[k].owner && emissions@[k].path_span == flagged[k].path_span
                    &&& forall|k: int| 1 <= k < flagged.len() ==> (#[trigger] emissions@[k]).fix is None
                    &&& flagged.len() > 0 ==> is_rewrite_of(statement, emissions@[0].fix)
                }),
            decreases n - i,
        {
            let leaf = &statement.leaves[i];
            proof {
                let t = statement.leaves@.take(i + 1);
                assert(t.drop_last() =~= statement.leaves@.take(i as int));
                assert(t.last() == statement.leaves@[i as int]);
            }
            if leaf.flagged.is_some() {
                let fix = if emissions.len() == 0 {
                    statement.rewrite()
                } else {
                    None
                };
                emissions.push(Emission { owner: leaf.owner, path_span: leaf.path_span, fix });
            }
            i = i + 1;
        }
        assert(statement.leaves@.take(n as int) =~= statement.leaves@);
        emissions
    }

    /// Walk one lowered `use` item. A statement's leaves are lowered
    /// nested inside its head item's span, so an item that head does not
    /// contain opens the next statement, and the one before it is
    /// emitted for. An item from a macro expansion closes the statement
    /// too, and is not read.
    pub fn check_item(&mut self, item: UseItem) -> (emissions: Vec<Emission>)
        ensures
            final(self).config == old(self).config,
            item.generated ==> final(self).statement is None && emits_for(old(self).statement, emissions@),
            !item.generated ==> ({
                let continues = old(self).statement matches Some(s) && s.span.spec_contains(item.span);
                let grown = final(self).statement->0;
                &&& final(self).statement is Some
                &&& continues ==> emissions@.len() == 0 && grown.span == old(self).statement->0.span
                    && grown.path_span == old(self).statement->0.path_span
                    && grown.braced == old(self).statement->0.braced
                    && grown.snippets == old(self).statement->0.snippets
                &&& !continues ==> emits_for(old(self).statement, emissions@)
                    && grown.span == item.span && grown.path_span == item.path_span
                    && grown.braced == (item.kind is ListStem)
                    && grown.snippets == item.snippets
                &&& item.kind is ListStem ==> grown.leaves@ == (if continues {
                    old(self).statement->0.leaves@
                } else {
                    Seq::empty()
                })
                &&& !(item.kind is ListStem) ==> {
                    &&& grown.leaves@.len() == (if continues {
                        old(self).statement->0.leaves@.len()
                    } else {
                        0
                    }) + 1
                    &&& continues ==> grown.leaves@.drop_last() == old(self).statement->0.leaves@
                    &&& is_leaf_of(final(self).config, item, grown.leaves@.last())
                }
            }),
    {
        if item.generated {
            return self.flush();
        }
        let leaf = self.leaf(&item);
        let continues = match &self.statement {
            Some(statement) => statement.span.contains(&item.span),
            None => false,
        };
        let mut emissions: Vec<Emission> = Vec::new();
        if !continues {
            emissions = self.flush();
            self.statement = Some(Statement::new(&item));
        }
        match (&mut self.statement, leaf) {
            (Some(statement), Some(leaf)) => {
                statement.leaves.push(leaf);
            },
            _ => {},
        }
        emissions
    }

    /// Emit for the last statement once the crate has been walked.
    pub fn check_crate_post(&mut self) -> (emissions: Vec<Emission>)
        ensures
            final(self).statement is None,
            emits_for(old(self).statement, emissions@),
    {
        self.flush()
    }
}

/// The first prelude segment found below one end is found below any
/// later end.
proof fn lemma_first_prelude_stays(names: Seq<String>, segments: Seq<PathSegment>, from: int, to: int)
    requires
        from <= to,
        first_prelude_below(names, segments, from) is Some,
    ensures
        first_prelude_below(names, segments, to) == first_prelude_below(names, segments, from),
    decreases to - from,
{
    if from < to {
        lemma_first_prelude_stays(names, segments, from, to - 1);
    }
}

/// A copy of a path segment.
fn copy_segment(segment: &PathSegment) -> (copy: PathSegment)
    ensures
        copy == *segment,
{
    PathSegment {
        ident: Ident { name: segment.ident.name.clone(), rendered: segment.ident.rendered.clone() },
        is_root: segment.is_root,
    }
}

/// A rewrite keeps the statement's visibility: the replacement for a
/// brace list starts with the visibility as written, a space and `use `
/// (just `use ` for a private statement) and ends with the `;`, so a
/// `pub use` re-export stays one.
pub proof fn lemma_rewrite_keeps_visibility(statement: Statement, fix: Option<Fix>)
    requires
        is_rewrite_of(statement, fix),
        fix is Some,
        statement.braced,
    ensures
        statement.snippets.vis is Some,
        ({
            let vis = statement.snippets.vis->0@;
            let text = fix->0.replacement@;
            &&& vis.len() > 0 ==> text.len() >= vis.len() + 5 && text.take(vis.len() as int) == vis
                && text.subrange(vis.len() as int, vis.len() + 5int) == " use "@
            &&& vis.len() == 0 ==> text.len() >= 4 && text.take(4) == "use "@
            &&& text.len() > 0 && text.last() == ';'
        }),
{
    reveal_strlit("use ");
    reveal_strlit(" use ");
    let vis = statement.snippets.vis->0@;
    let text = fix->0.replacement@;
    let tree = statement::rendered_tree(statement::rewrite_entries(statement));
    assert(text == statement::vis_prefix(vis) + "use "@ + tree + seq![';']);
    if vis.len() > 0 {
        assert(text.take(vis.len() as int) =~= vis);
        assert(text.subrange(vis.len() as int, vis.len() + 5int) =~= " use "@);
    } else {
        assert(text.take(4) =~= "use "@);
    }
}

} // verus!
