//! The `use` statement currently being walked, and the rewrite that
//! re-points its cherry-picked leaves at their canonical modules.
use crate::text::{
    chars_of, lemma_join_cut, lemma_join_split, extend_chars, extend_str, join, join_parts, join_range, lemma_split_nonempty,
    path_sep, same_chars, split_path, split_sep, string_of, views,
};
use super::canonical::Canonical;
use super::{spec_applicability, applicability, Applicability, Ident, PathSegment, Snippets, UseItem, UseKind};
use crate::source::Span;
use crate::text::{trim, trim_bounds};
use vstd::prelude::*;

verus! {

broadcast use vstd::string::group_string_axioms;

/// The views of `(path, rename suffix)` pairs.
pub open spec fn pair_views(entries: Seq<(&str, &str)>) -> Seq<(Seq<char>, Seq<char>)> {
    entries.map_values(|e: (&str, &str)| (e.0@, e.1@))
}

/// The segments of each entry's path.
pub open spec fn entry_paths(entries: Seq<(Seq<char>, Seq<char>)>) -> Seq<Seq<Seq<char>>> {
    entries.map_values(|e: (Seq<char>, Seq<char>)| split_sep(e.0))
}

/// How many leading segments a path of `len` segments can give up while
/// keeping its own last one.
pub open spec fn keep_last(len: nat) -> nat {
    if len == 0 {
        0
    } else {
        (len - 1) as nat
    }
}

/// The longest prefix every path can give up: the least `keep_last`
/// over the paths, `0` when there are none.
pub open spec fn tail_limit(paths: Seq<Seq<Seq<char>>>) -> nat
    decreases paths.len(),
{
    if paths.len() == 0 {
        0
    } else if paths.len() == 1 {
        keep_last(paths[0].len())
    } else {
        let below = tail_limit(paths.drop_last());
        let last = keep_last(paths.last().len());
        if below <= last {
            below
        } else {
            last
        }
    }
}

/// Whether every path has the same segment at index `k` as the first.
pub open spec fn agree_at(paths: Seq<Seq<Seq<char>>>, k: int) -> bool {
    forall|i: int| 0 <= i < paths.len() ==> #[trigger] paths[i][k] == paths[0][k]
}

/// The number of leading segments, up to `limit`, every path shares.
pub open spec fn common_prefix_len(paths: Seq<Seq<Seq<char>>>, limit: nat) -> nat
    decreases limit,
{
    if limit == 0 {
        0
    } else {
        let below = common_prefix_len(paths, (limit - 1) as nat);
        if below == limit - 1 && agree_at(paths, limit - 1) {
            limit
        } else {
            below
        }
    }
}

/// The number of leading segments folded out of the entries' paths.
pub open spec fn shared_segments(entries: Seq<(Seq<char>, Seq<char>)>) -> nat {
    let paths = entry_paths(entries);
    common_prefix_len(paths, tail_limit(paths))
}

/// What is left of entry `i` once the shared prefix is folded out: the
/// rest of its path, then its rename suffix.
pub open spec fn entry_tail(entries: Seq<(Seq<char>, Seq<char>)>, i: int) -> Seq<char> {
    join(entry_paths(entries)[i].skip(shared_segments(entries) as int), path_sep()) + entries[i].1
}

/// The separator between entries inside braces.
pub open spec fn list_sep() -> Seq<char> {
    seq![',', ' ']
}

/// One `use` tree for `entries`: the segments every path shares written
/// once, then the entries' tails — bare for a lone entry, in braces and
/// in written order for several.
pub open spec fn rendered_tree(entries: Seq<(Seq<char>, Seq<char>)>) -> Seq<char> {
    let shared = shared_segments(entries) as int;
    let tails = Seq::new(entries.len(), |i: int| entry_tail(entries, i));
    let body = if entries.len() == 1 {
        tails[0]
    } else {
        seq!['{'] + join(tails, list_sep()) + seq!['}']
    };
    if shared == 0 {
        body
    } else {
        join(entry_paths(entries)[0].take(shared), path_sep()) + path_sep() + body
    }
}

/// The nested views of a list of split paths.
pub open spec fn deep_views(v: Seq<Vec<Vec<char>>>) -> Seq<Seq<Seq<char>>> {
    v.map_values(|x: Vec<Vec<char>>| views(x@))
}

proof fn lemma_common_prefix_len(paths: Seq<Seq<Seq<char>>>, limit: nat, k: nat)
    requires
        k <= limit,
        forall|j: int| 0 <= j < k ==> agree_at(paths, j),
        k == limit || !agree_at(paths, k as int),
    ensures
        common_prefix_len(paths, limit) == k,
    decreases limit,
{
    if limit == 0 {
    } else if k == limit {
        lemma_common_prefix_len_full(paths, limit);
    } else {
        lemma_common_prefix_len(paths, (limit - 1) as nat, k);
    }
}

proof fn lemma_common_prefix_len_full(paths: Seq<Seq<Seq<char>>>, limit: nat)
    requires
        forall|j: int| 0 <= j < limit ==> agree_at(paths, j),
    ensures
        common_prefix_len(paths, limit) == limit,
    decreases limit,
{
    if limit > 0 {
        lemma_common_prefix_len_full(paths, (limit - 1) as nat);
    }
}

/// Whether every path agrees with the first at segment `k`.
fn all_agree(paths: &Vec<Vec<Vec<char>>>, k: usize) -> (agree: bool)
    requires
        forall|i: int| 0 <= i < paths@.len() ==> k < #[trigger] paths@[i]@.len(),
        paths@.len() >= 1,
    ensures
        agree == agree_at(deep_views(paths@), k as int),
{
    let mut i: usize = 1;
    while i < paths.len()
        invariant
            1 <= i <= paths@.len(),
            forall|j: int| 0 <= j < paths@.len() ==> k < #[trigger] paths@[j]@.len(),
            forall|j: int| 0 <= j < i ==> #[trigger] deep_views(paths@)[j][k as int] == deep_views(paths@)[0][k as int],
        decreases paths@.len() - i,
    {
        if !same_chars(paths[i][k].as_slice(), paths[0][k].as_slice()) {
            proof {
                assert(deep_views(paths@)[i as int] == views(paths@[i as int]@));
                assert(deep_views(paths@)[0] == views(paths@[0]@));
                assert(deep_views(paths@)[i as int][k as int] != deep_views(paths@)[0][k as int]);
            }
            return false;
        }
        proof {
            assert(deep_views(paths@)[i as int] == views(paths@[i as int]@));
            assert(deep_views(paths@)[0] == views(paths@[0]@));
        }
        i = i + 1;
    }
    true
}

/// Render `entries` — each a `(path, rename suffix)` pair — as one
/// `use` tree, factoring out the segments every path shares.
///
/// Every entry keeps at least its own last segment, so the shared
/// prefix never swallows a whole path (the kept segment is empty text
/// only for a path that ends in `::`), and entries stay in written
/// order.
pub fn render_tree(entries: &[(&str, &str)]) -> (tree: String)
    ensures
        tree@ == rendered_tree(pair_views(entries@)),
{
    let n = entries.len();
    let ghost ev = pair_views(entries@);
    let ghost paths_spec = entry_paths(ev);
    let mut paths: Vec<Vec<Vec<char>>> = Vec::new();
    let mut i: usize = 0;
    while i < n
        invariant
            n == entries@.len(),
            i <= n,
            ev == pair_views(entries@),
            paths_spec == entry_paths(ev),
            deep_views(paths@) == paths_spec.take(i as int),
        decreases n - i,
    {
        let path = entries[i].0;
        let chars = chars_of(path);
        let parts = split_path(chars.as_slice());
        let ghost before = paths@;
        paths.push(parts);
        proof {
            assert(deep_views(paths@) =~= deep_views(before) + seq![views(parts@)]);
            assert(paths_spec.take(i + 1) =~= paths_spec.take(i as int) + seq![paths_spec[i as int]]);
        }
        i = i + 1;
    }
    proof {
        assert(paths_spec.take(n as int) =~= paths_spec);
        assert forall|j: int| 0 <= j < n implies #[trigger] paths@[j]@.len() >= 1 by {
            lemma_split_nonempty(ev[j].0);
            assert(deep_views(paths@)[j] == views(paths@[j]@));
        }
    }
    let mut limit: usize = 0;
    if n > 0 {
        limit = paths[0].len() - 1;
        let mut j: usize = 1;
        proof {
            assert(paths_spec.take(1) =~= seq![paths_spec[0]]);
            assert(deep_views(paths@)[0] == views(paths@[0]@));
        }
        while j < n
            invariant
                n == paths@.len(),
                1 <= j <= n,
                deep_views(paths@) == paths_spec,
                forall|k: int| 0 <= k < n ==> #[trigger] paths@[k]@.len() >= 1,
                limit as nat == tail_limit(paths_spec.take(j as int)),
            decreases n - j,
        {
            let len = paths[j].len() - 1;
            proof {
                let t = paths_spec.take(j + 1);
                assert(t.drop_last() =~= paths_spec.take(j as int));
                assert(deep_views(paths@)[j as int] == views(paths@[j as int]@));
                assert(t.last().len() == paths@[j as int]@.len());
            }
            if len < limit {
                limit = len;
            }
            j = j + 1;
        }
        assert(paths_spec.take(n as int) =~= paths_spec);
    }
    proof {
        assert forall|k: int| 0 <= k < n implies limit < #[trigger] paths@[k]@.len() by {
            lemma_tail_limit_bound(paths_spec, k);
            assert(deep_views(paths@)[k] == views(paths@[k]@));
        }
    }
    let mut shared: usize = 0;
    while shared < limit && all_agree(&paths, shared)
        invariant
            n == paths@.len(),
            n >= 1 || limit == 0,
            shared <= limit,
            deep_views(paths@) == paths_spec,
            forall|k: int| 0 <= k < n ==> limit < #[trigger] paths@[k]@.len(),
            forall|j: int| 0 <= j < shared ==> agree_at(paths_spec, j),
        decreases limit - shared,
    {
        shared = shared + 1;
    }
    proof {
        lemma_common_prefix_len(paths_spec, limit as nat, shared as nat);
    }
    let ghost sh = shared as int;
    let mut tails: Vec<Vec<char>> = Vec::new();
    let mut t: usize = 0;
    while t < n
        invariant
            n == paths@.len(),
            n == entries@.len(),
            shared <= limit,
            sh == shared,
            ev == pair_views(entries@),
            sh == shared_segments(ev),
            deep_views(paths@) == paths_spec,
            paths_spec == entry_paths(ev),
            forall|k: int| 0 <= k < n ==> limit < #[trigger] paths@[k]@.len(),
            t <= n,
            tails@.len() == t,
            forall|k: int| 0 <= k < t ==> #[trigger] tails@[k]@ == entry_tail(ev, k),
        decreases n - t,
    {
        let sep = chars_of("::");
        let mut tail = join_range(paths[t].as_slice(), shared, paths[t].len(), sep.as_slice());
        proof {
            reveal_strlit("::");
            assert(sep@ =~= path_sep());
            assert(deep_views(paths@)[t as int] == views(paths@[t as int]@));
            assert(views(paths@[t as int]@).subrange(sh, paths@[t as int]@.len() as int)
                =~= paths_spec[t as int].skip(sh));
        }
        let rename = entries[t].1;
        extend_str(&mut tail, rename);
        tails.push(tail);
        t = t + 1;
    }
    let ghost tails_spec = Seq::new(n as nat, |k: int| entry_tail(ev, k));
    proof {
        assert(views(tails@) =~= tails_spec);
    }
    let mut body: Vec<char>;
    if n == 1 {
        body = Vec::new();
        extend_chars(&mut body, tails[0].as_slice());
    } else {
        body = chars_of("{");
        let comma = chars_of(", ");
        let inner = join_parts(tails.as_slice(), comma.as_slice());
        extend_chars(&mut body, inner.as_slice());
        extend_str(&mut body, "}");
        proof {
            reveal_strlit("{");
            reveal_strlit("}");
            reveal_strlit(", ");
            assert(comma@ =~= list_sep());
        }
    }
    if shared == 0 {
        return string_of(body.as_slice());
    }
    let sep = chars_of("::");
    let mut out = join_range(paths[0].as_slice(), 0, shared, sep.as_slice());
    extend_chars(&mut out, sep.as_slice());
    extend_chars(&mut out, body.as_slice());
    proof {
        reveal_strlit("::");
        assert(sep@ =~= path_sep());
        assert(deep_views(paths@)[0] == views(paths@[0]@));
        assert(views(paths@[0]@).subrange(0, sh) =~= paths_spec[0].take(sh));
    }
    string_of(out.as_slice())
}

/// The shared prefix is no longer than the limit and every path agrees
/// on each of its segments.
proof fn lemma_common_prefix_len_sound(paths: Seq<Seq<Seq<char>>>, limit: nat)
    ensures
        common_prefix_len(paths, limit) <= limit,
        forall|j: int| 0 <= j < common_prefix_len(paths, limit) ==> agree_at(paths, j),
    decreases limit,
{
    if limit > 0 {
        lemma_common_prefix_len_sound(paths, (limit - 1) as nat);
    }
}

/// Folding the shared prefix out of a `use` tree loses no entry: every
/// entry keeps at least its own last segment (empty text only for a
/// path that ends in `::`), and the prefix written
/// once, a `::`, and the entry's tail (before its rename) spell the
/// entry's written path again.
pub proof fn lemma_tree_spells_every_path(entries: Seq<(Seq<char>, Seq<char>)>, i: int)
    requires
        0 <= i < entries.len(),
    ensures
        shared_segments(entries) < entry_paths(entries)[i].len(),
        shared_segments(entries) == 0 ==> join(
            entry_paths(entries)[i].skip(0),
            path_sep(),
        ) == entries[i].0,
        shared_segments(entries) > 0 ==> join(
            entry_paths(entries)[0].take(shared_segments(entries) as int),
            path_sep(),
        ) + path_sep() + join(
            entry_paths(entries)[i].skip(shared_segments(entries) as int),
            path_sep(),
        ) == entries[i].0,
{
    let paths = entry_paths(entries);
    let limit = tail_limit(paths);
    let shared = shared_segments(entries) as int;
    assert forall|j: int| 0 <= j < paths.len() implies #[trigger] paths[j].len() >= 1 by {
        lemma_split_nonempty(entries[j].0);
    }
    lemma_tail_limit_bound(paths, i);
    lemma_tail_limit_bound(paths, 0);
    lemma_common_prefix_len_sound(paths, limit);
    lemma_join_split(entries[i].0);
    if shared == 0 {
        assert(paths[i].skip(0) =~= paths[i]);
    } else {
        assert(paths[i].take(shared) =~= paths[0].take(shared)) by {
            assert forall|j: int| 0 <= j < shared implies paths[i].take(shared)[j] == paths[0].take(
                shared,
            )[j] by {
                assert(agree_at(paths, j));
                assert(paths[i][j] == paths[0][j]);
            }
        }
        lemma_join_cut(paths[i], shared, path_sep());
    }
}

/// No path is shorter than the prefix limit plus its own last segment.
proof fn lemma_tail_limit_bound(paths: Seq<Seq<Seq<char>>>, k: int)
    requires
        0 <= k < paths.len(),
        forall|j: int| 0 <= j < paths.len() ==> #[trigger] paths[j].len() >= 1,
    ensures
        tail_limit(paths) < paths[k].len(),
    decreases paths.len(),
{
    if paths.len() == 1 {
    } else if k == paths.len() - 1 {
    } else {
        lemma_tail_limit_bound(paths.drop_last(), k);
    }
}

/// One leaf of a `use` statement — a single named import or a glob.
pub struct Leaf {
    /// The caller's handle for the leaf item: the diagnostic's owner.
    pub owner: u64,
    /// The leaf's written path span — where the diagnostic points.
    pub path_span: Span,
    /// The leaf's path as written (`crate::prelude::A`, `crate::prelude::*`).
    pub written: String,
    /// The `as` rename's suffix (`" as Alias"`), empty when not renamed.
    pub rename: String,
    /// A `self` entry (`use foo::prelude::{self, A}`), which binds the
    /// name in every namespace once the tree is rebuilt around a
    /// different prefix, so a statement holding one is never rewritten.
    pub is_self: bool,
    /// Set when this leaf cherry-picks a named item out of a prelude.
    pub flagged: Option<Canonical>,
}

/// The `use` statement being walked: the span a rewrite replaces, plus
/// every leaf seen so far.
pub struct Statement {
    /// The head item's span: the whole `pub use ...;`. It contains every
    /// leaf's span, and it is what a brace list's rewrite replaces.
    pub span: Span,
    /// The head's written path span; what a single import's rewrite
    /// replaces.
    pub path_span: Span,
    /// Whether the head is a brace list.
    pub braced: bool,
    /// The source text of the head's spans.
    pub snippets: Snippets,
    pub leaves: Vec<Leaf>,
}

/// One offered rewrite: what to replace, with what, and under which
/// heading the diagnostic presents it.
pub struct Fix {
    pub span: Span,
    pub replacement: String,
    pub applicability: Applicability,
    pub label: &'static str,
}

/// The path a leaf contributes to the rebuilt tree: its canonical path
/// when it is a flagged cherry-pick, its written path otherwise.
pub open spec fn entry_path(leaf: Leaf) -> Option<Seq<char>> {
    match leaf.flagged {
        Some(canonical) => match canonical.path {
            Some(path) => Some(path@),
            None => None,
        },
        None => Some(leaf.written@),
    }
}

/// The `(path, rename suffix)` pairs the rebuilt tree is rendered from.
/// Outside a brace list the replaced span stops before the `as` rename,
/// so no rename is rendered.
pub open spec fn rewrite_entries(statement: Statement) -> Seq<(Seq<char>, Seq<char>)> {
    Seq::new(
        statement.leaves@.len(),
        |i: int|
            (
                entry_path(statement.leaves@[i]).unwrap(),
                if statement.braced {
                    statement.leaves@[i].rename@
                } else {
                    Seq::empty()
                },
            ),
    )
}

/// The span a rewrite replaces: the whole statement for a brace list,
/// the path for a single import.
pub open spec fn replaced_span(statement: Statement) -> Span {
    if statement.braced {
        statement.span
    } else {
        statement.path_span
    }
}

/// The source text of the replaced span.
pub open spec fn replaced_snippet(statement: Statement) -> Option<String> {
    if statement.braced {
        statement.snippets.item
    } else {
        statement.snippets.path
    }
}

/// Whether a statement can be rewritten mechanically: no leaf is a
/// `self` entry or failed to render, every cherry-pick has a canonical
/// path, the source text the rewrite needs is there, and a single
/// import's replaced span holds exactly its written path.
pub open spec fn can_rewrite(statement: Statement) -> bool {
    let leaves = statement.leaves@;
    &&& forall|i: int|
        0 <= i < leaves.len() ==> !(#[trigger] leaves[i]).is_self && leaves[i].written@.len() > 0
    &&& forall|i: int| 0 <= i < leaves.len() ==> (#[trigger] entry_path(leaves[i])) is Some
    &&& if statement.braced {
        statement.snippets.vis is Some
    } else {
        &&& leaves.len() >= 1
        &&& statement.snippets.path matches Some(path) && path@ == leaves[0].written@
    }
    &&& replaced_snippet(statement) is Some
}

/// The visibility as it leads a re-rendered statement.
pub open spec fn vis_prefix(vis: Seq<char>) -> Seq<char> {
    if vis.len() == 0 {
        vis
    } else {
        vis + seq![' ']
    }
}

/// What the rewrite puts in the replaced span.
pub open spec fn replacement_text(statement: Statement) -> Seq<char> {
    let tree = rendered_tree(rewrite_entries(statement));
    if statement.braced {
        vis_prefix(statement.snippets.vis.unwrap()@) + "use "@ + tree + seq![';']
    } else {
        tree
    }
}

/// Whether `s` holds a `//` or a `/*`.
pub open spec fn opens_comment(s: Seq<char>) -> bool {
    exists|k: int| 0 <= k < s.len() - 1 && #[trigger] s[k] == '/' && (s[k + 1] == '/' || s[k + 1] == '*')
}

/// Whether every cherry-pick's canonical path is nameable from here.
pub open spec fn all_nameable(statement: Statement) -> bool {
    forall|i: int|
        0 <= i < statement.leaves@.len() ==> match (#[trigger] statement.leaves@[i]).flagged {
            Some(canonical) => canonical.nameable,
            None => true,
        }
}

/// A rewrite is machine-applicable when every canonical path is
/// nameable and no comment sits inside the replaced span.
pub open spec fn fix_applicability(statement: Statement) -> Applicability {
    spec_applicability(
        all_nameable(statement) && !opens_comment(replaced_snippet(statement).unwrap()@),
    )
}

/// The heading the rewrite is offered under.
pub open spec fn fix_label(braced: bool) -> Seq<char> {
    if braced {
        "import each item from its canonical module"@
    } else {
        "import the item from its canonical module"@
    }
}

/// The step `written_path` takes for the segment at `index`.
pub open spec fn written_step(rendered: Seq<char>, index: int, segment: PathSegment) -> Seq<char> {
    if segment.is_root {
        if index == 0 {
            rendered + path_sep()
        } else {
            rendered
        }
    } else {
        let joined = if rendered.len() > 0 && !(rendered.len() >= 2 && rendered.subrange(
            rendered.len() - 2,
            rendered.len() as int,
        ) == path_sep()) {
            rendered + path_sep()
        } else {
            rendered
        };
        joined + segment.ident.rendered@
    }
}

/// A `use` path's first `k` segments as they were written.
pub open spec fn written_prefix(segments: Seq<PathSegment>, k: nat) -> Seq<char>
    decreases k,
{
    if k == 0 {
        Seq::empty()
    } else {
        written_step(written_prefix(segments, (k - 1) as nat), k - 1, segments[k - 1])
    }
}

/// A `use` path as it was written.
pub open spec fn spec_written_path(segments: Seq<PathSegment>) -> Seq<char> {
    written_prefix(segments, segments.len())
}

/// The rendered names of a path's segments, root segments left out.
pub open spec fn rendered_names(segments: Seq<PathSegment>) -> Seq<Seq<char>>
    decreases segments.len(),
{
    if segments.len() == 0 {
        Seq::empty()
    } else {
        let before = rendered_names(segments.drop_last());
        if segments.last().is_root {
            before
        } else {
            before.push(segments.last().ident.rendered@)
        }
    }
}

/// `::` where the path starts with a root segment, else nothing.
pub open spec fn root_marker(segments: Seq<PathSegment>) -> Seq<char> {
    if segments.len() > 0 && segments[0].is_root {
        path_sep()
    } else {
        Seq::empty()
    }
}

/// Whether every named segment renders as an identifier does: not
/// empty, and not ending in `:`.
pub open spec fn renders_as_identifiers(segments: Seq<PathSegment>) -> bool {
    forall|i: int|
        0 <= i < segments.len() && !segments[i].is_root ==> (#[trigger] segments[i]).ident.rendered@.len()
            > 0 && segments[i].ident.rendered@.last() != ':'
}

/// A text joined from parts ends with the last part.
proof fn lemma_join_ends_with_last(parts: Seq<Seq<char>>, sep: Seq<char>)
    requires
        parts.len() > 0,
        parts.last().len() > 0,
    ensures
        join(parts, sep).len() > 0,
        join(parts, sep).last() == parts.last().last(),
{
    if parts.len() >= 2 {
        let j = join(parts, sep);
        assert(j == join(parts.drop_last(), sep) + sep + parts.last());
    }
}

/// For identifier names, the written path is the direct one: `::` where
/// the path was rooted, then the names joined with `::`; a root segment
/// anywhere but first leaves no trace.
pub proof fn lemma_written_path_joins_names(segments: Seq<PathSegment>, k: nat)
    requires
        k <= segments.len(),
        renders_as_identifiers(segments),
    ensures
        written_prefix(segments, k) == root_marker(segments.take(k as int)) + join(
            rendered_names(segments.take(k as int)),
            path_sep(),
        ),
    decreases k,
{
    let t = segments.take(k as int);
    if k == 0 {
        assert(rendered_names(t) =~= Seq::<Seq<char>>::empty());
        assert(root_marker(t) =~= Seq::<char>::empty());
    } else {
        let k1 = (k - 1) as nat;
        lemma_written_path_joins_names(segments, k1);
        let t1 = segments.take(k1 as int);
        assert(t.drop_last() =~= t1);
        assert(t.last() == segments[k - 1]);
        let seg = segments[k - 1];
        let r = written_prefix(segments, k1);
        let names = rendered_names(t1);
        if k1 > 0 {
            assert(t[0] == t1[0]);
        }
        if seg.is_root {
            assert(rendered_names(t) == names);
            if k1 == 0 {
                assert(names =~= Seq::<Seq<char>>::empty());
                assert(root_marker(t1) =~= Seq::<char>::empty());
                assert(written_prefix(segments, k) =~= path_sep());
                assert(root_marker(t) + join(rendered_names(t), path_sep()) =~= path_sep());
            }
        } else {
            let x = seg.ident.rendered@;
            assert(rendered_names(t) == names.push(x));
            if names.len() == 0 {
                assert(join(names.push(x), path_sep()) == x) by {
                    assert(names.push(x).len() == 1);
                }
                if root_marker(t1).len() == 0 {
                    assert(r =~= Seq::<char>::empty());
                    assert(written_prefix(segments, k) =~= x);
                } else {
                    assert(r =~= path_sep());
                    assert(r.subrange(r.len() - 2, r.len() as int) =~= path_sep());
                }
                assert(root_marker(t) == root_marker(t1));
            } else {
                // The text so far ends with a name, so a separator goes in.
                let ln = names.last();
                assert(exists|i: int| 0 <= i < k1 && !segments[i].is_root && segments[i].ident.rendered@ == ln) by {
                    lemma_names_come_from_segments(t1);
                }
                let i = choose|i: int| 0 <= i < k1 && !segments[i].is_root && segments[i].ident.rendered@ == ln;
                assert(!segments[i].is_root);
                lemma_join_ends_with_last(names, path_sep());
                let j = join(names, path_sep());
                assert(r == root_marker(t1) + j);
                assert(r.last() == j.last());
                assert(r.len() > 0);
                if r.len() >= 2 && r.subrange(r.len() - 2, r.len() as int) == path_sep() {
                    assert(r.subrange(r.len() - 2, r.len() as int)[1] == r.last());
                }
                assert(names.push(x).drop_last() =~= names);
                assert(join(names.push(x), path_sep()) == join(names, path_sep()) + path_sep() + x);
                assert(root_marker(t) == root_marker(t1));
                assert(written_prefix(segments, k) =~= root_marker(t) + join(rendered_names(t), path_sep()));
            }
        }
    }
}

/// The last rendered name comes from a named segment.
proof fn lemma_names_come_from_segments(segments: Seq<PathSegment>)
    requires
        rendered_names(segments).len() > 0,
    ensures
        exists|i: int|
            0 <= i < segments.len() && !segments[i].is_root && segments[i].ident.rendered@
                == rendered_names(segments).last(),
    decreases segments.len(),
{
    let before = segments.drop_last();
    if segments.last().is_root {
        lemma_names_come_from_segments(before);
        let i = choose|i: int|
            0 <= i < before.len() && !before[i].is_root && before[i].ident.rendered@
                == rendered_names(before).last();
        assert(segments[i] == before[i]);
    } else {
        assert(segments[segments.len() - 1] == segments.last());
    }
}

/// The `" as Alias"` suffix a leaf needs: empty when the binding is the
/// path's last segment under its own name.
pub open spec fn spec_rename_suffix(segments: Seq<PathSegment>, binding: Ident) -> Seq<char> {
    if segments.len() > 0 && segments.last().ident.name@ == binding.name@ {
        Seq::empty()
    } else {
        " as "@ + binding.rendered@
    }
}

/// What follows the last `::` of `s`, found scanning from the right
/// the way `str::rsplit("::")` does; all of `s` when it has none.
pub open spec fn after_last_sep(s: Seq<char>) -> Seq<char>
    decreases s.len(),
{
    if s.len() < 2 {
        s
    } else if s[s.len() - 2] == ':' && s[s.len() - 1] == ':' {
        Seq::empty()
    } else {
        after_last_sep(s.drop_last()).push(s.last())
    }
}

/// Whether a written `use` entry names the enclosing module itself.
pub open spec fn spec_is_self_entry(written: Seq<char>) -> bool {
    trim(after_last_sep(written)) == "self"@
}

/// A `use` path's segments as they were written
/// (`crate`, `prelude`, `A` → `crate::prelude::A`). A leading `::`
/// shows up as a root segment and is rendered back as the `::` it was;
/// each name is written the way its identifier renders (`r#type`).
pub fn written_path(segments: &[PathSegment]) -> (written: String)
    ensures
        written@ == spec_written_path(segments@),
        renders_as_identifiers(segments@) ==> written@ == root_marker(segments@) + join(
            rendered_names(segments@),
            path_sep(),
        ),
{
    proof {
        if renders_as_identifiers(segments@) {
            lemma_written_path_joins_names(segments@, segments@.len());
            assert(segments@.take(segments@.len() as int) =~= segments@);
        }
    }
    let mut rendered: Vec<char> = Vec::new();
    let mut index: usize = 0;
    while index < segments.len()
        invariant
            index <= segments@.len(),
            rendered@ == written_prefix(segments@, index as nat),
        decreases segments@.len() - index,
    {
        let segment = &segments[index];
        if segment.is_root {
            if index == 0 {
                extend_str(&mut rendered, "::");
                proof {
                    reveal_strlit("::");
                }
            }
        } else {
            let n = rendered.len();
            if n > 0 && !(n >= 2 && rendered[n - 2] == ':' && rendered[n - 1] == ':') {
                extend_str(&mut rendered, "::");
                proof {
                    reveal_strlit("::");
                    let r = written_prefix(segments@, index as nat);
                    if n >= 2 {
                        assert(r.subrange(n - 2, n as int) == path_sep() ==> r[n - 2] == ':' && r[n
                            - 1] == ':');
                    }
                }
            } else {
                proof {
                    let r = written_prefix(segments@, index as nat);
                    if n >= 2 && rendered@[n - 2] == ':' && rendered@[n - 1] == ':' {
                        assert(r.subrange(n - 2, n as int) =~= path_sep());
                    }
                }
            }
            extend_str(&mut rendered, segment.ident.rendered.as_str());
        }
        index = index + 1;
    }
    string_of(rendered.as_slice())
}

/// The `" as Alias"` suffix a leaf needs, or the empty string when the
/// binding is just the path's last segment under its own name.
pub fn rename_suffix(segments: &[PathSegment], binding: &Ident) -> (suffix: String)
    ensures
        suffix@ == spec_rename_suffix(segments@, *binding),
{
    let n = segments.len();
    if n > 0 && segments[n - 1].ident.name == binding.name {
        proof {
            assert(segments@.last() == segments@[n - 1]);
        }
        return string_of(Vec::<char>::new().as_slice());
    }
    let mut out = chars_of(" as ");
    extend_str(&mut out, binding.rendered.as_str());
    string_of(out.as_slice())
}

/// Whether a written `use` entry names the enclosing module itself —
/// the `self` of `use foo::{self, Bar}` or of `use foo::self;`.
pub fn is_self_entry(written: &str) -> (is_self: bool)
    ensures
        is_self == spec_is_self_entry(written@),
{
    let chars = chars_of(written);
    let n = chars.len();
    // Scan from the right for the last `::`.
    let mut k: usize = n;
    proof {
        assert(chars@.take(n as int) =~= chars@);
        assert(chars@.subrange(n as int, n as int) =~= Seq::<char>::empty());
        assert(after_last_sep(chars@) =~= after_last_sep(chars@.take(n as int)) + chars@.subrange(
            n as int,
            n as int,
        ));
    }
    while k >= 2 && !(chars[k - 2] == ':' && chars[k - 1] == ':')
        invariant
            n == chars@.len(),
            k <= n,
            after_last_sep(chars@) == after_last_sep(chars@.take(k as int)) + chars@.subrange(
                k as int,
                n as int,
            ),
        decreases k,
    {
        proof {
            let t = chars@.take(k as int);
            assert(t.drop_last() =~= chars@.take(k - 1));
            assert(t.last() == chars@[k - 1]);
            assert(chars@.subrange(k - 1, n as int) =~= seq![chars@[k - 1]] + chars@.subrange(
                k as int,
                n as int,
            ));
        }
        k = k - 1;
    }
    proof {
        let t = chars@.take(k as int);
        if k >= 2 {
            assert(after_last_sep(t) =~= Seq::<char>::empty());
        } else {
            assert(after_last_sep(t) == t);
        }
    }
    let from: usize = if k >= 2 { k } else { 0 };
    proof {
        if k < 2 {
            assert(chars@.take(k as int) + chars@.subrange(k as int, n as int) =~= chars@.subrange(0, n as int));
        } else {
            assert(Seq::<char>::empty() + chars@.subrange(k as int, n as int) =~= chars@.subrange(k as int, n as int));
        }
    }
    assert(after_last_sep(chars@) == chars@.subrange(from as int, n as int));
    let mut last: Vec<char> = Vec::new();
    let mut i: usize = from;
    while i < n
        invariant
            from <= i <= n,
            n == chars@.len(),
            last@ == chars@.subrange(from as int, i as int),
        decreases n - i,
    {
        last.push(chars[i]);
        i = i + 1;
        assert(last@ =~= chars@.subrange(from as int, i as int));
    }
    assert(last@ == after_last_sep(written@));
    let (a, b) = trim_bounds(last.as_slice());
    proof {
        reveal_strlit("self");
    }
    let is_self = b - a == 4 && last[a] == 's' && last[a + 1] == 'e' && last[a + 2] == 'l'
        && last[a + 3] == 'f';
    proof {
        let t = last@.subrange(a as int, b as int);
        assert(trim(last@) == t);
        assert(trim(after_last_sep(written@)) == t);
        if is_self {
            assert(t =~= "self"@);
        } else if t == "self"@ {
            assert(t.len() == 4);
            assert(t[0] == 's' && t[1] == 'e' && t[2] == 'l' && t[3] == 'f');
            assert(false);
        }
        assert(is_self == (t == "self"@));
    }
    is_self
}

impl Statement {
    /// Start accumulating the statement headed by `item` — the outer
    /// `use` item, which for a brace list is the `ListStem` whose spans
    /// cover every leaf.
    pub fn new(item: &UseItem) -> (statement: Statement)
        ensures
            statement.span == item.span,
            statement.path_span == item.path_span,
            statement.braced == (item.kind is ListStem),
            statement.snippets == item.snippets,
            statement.leaves@.len() == 0,
    {
        Statement {
            span: item.span,
            path_span: item.path_span,
            braced: matches!(item.kind, UseKind::ListStem),
            snippets: copy_snippets(&item.snippets),
            leaves: Vec::new(),
        }
    }

    /// The rewrite that re-points the statement's cherry-picks at their
    /// canonical modules, or `None` when it cannot be rewritten
    /// mechanically.
    pub fn rewrite(&self) -> (fix: Option<Fix>)
        ensures
            fix is Some <==> can_rewrite(*self),
            fix matches Some(f) ==> {
                &&& f.span == replaced_span(*self)
                &&& f.replacement@ == replacement_text(*self)
                &&& f.applicability == fix_applicability(*self)
                &&& f.label@ == fix_label(self.braced)
            },
    {
        let n = self.leaves.len();
        let mut i: usize = 0;
        while i < n
            invariant
                n == self.leaves@.len(),
                i <= n,
                forall|k: int|
                    0 <= k < i ==> !(#[trigger] self.leaves@[k]).is_self
                        && self.leaves@[k].written@.len() > 0,
            decreases n - i,
        {
            let leaf = &self.leaves[i];
            if leaf.is_self || leaf.written.as_str().is_empty() {
                return None;
            }
            i = i + 1;
        }
        proof {
            reveal_strlit("");
        }
        let mut entries: Vec<(&str, &str)> = Vec::new();
        let mut j: usize = 0;
        while j < n
            invariant
                n == self.leaves@.len(),
                j <= n,
                ""@ == Seq::<char>::empty(),
                entries@.len() == j,
                forall|k: int| 0 <= k < j ==> (#[trigger] entry_path(self.leaves@[k])) is Some,
                forall|k: int|
                    0 <= k < j ==> #[trigger] pair_views(entries@)[k] == rewrite_entries(*self)[k],
            decreases n - j,
        {
            let leaf = &self.leaves[j];
            let path: &str = match &leaf.flagged {
                Some(canonical) => match &canonical.path {
                    Some(path) => path.as_str(),
                    None => {
                        proof {
                            assert(entry_path(self.leaves@[j as int]) is None);
                        }
                        return None;
                    },
                },
                None => leaf.written.as_str(),
            };
            let rename: &str = if self.braced {
                leaf.rename.as_str()
            } else {
                ""
            };
            let ghost before = entries@;
            entries.push((path, rename));
            proof {
                assert(entry_path(self.leaves@[j as int]) == Some(path@));
                assert(rewrite_entries(*self)[j as int] == (path@, rename@));
                assert(pair_views(entries@)[j as int] == (path@, rename@));
                assert forall|k: int| 0 <= k < j + 1 implies #[trigger] pair_views(entries@)[k]
                    == rewrite_entries(*self)[k] by {
                    if k < j {
                        assert(entries@[k] == before[k]);
                        assert(pair_views(before)[k] == rewrite_entries(*self)[k]);
                        assert(pair_views(entries@)[k] == pair_views(before)[k]);
                    }
                }
            }
            j = j + 1;
        }
        proof {
            assert(pair_views(entries@) =~= rewrite_entries(*self));
        }
        let tree = render_tree(entries.as_slice());
        let (span, replacement, snippet): (Span, String, &String) = if self.braced {
            let vis = match &self.snippets.vis {
                Some(vis) => vis,
                None => {
                    return None;
                },
            };
            let snippet = match &self.snippets.item {
                Some(snippet) => snippet,
                None => {
                    return None;
                },
            };
            let mut text: Vec<char> = chars_of(vis.as_str());
            if !vis.as_str().is_empty() {
                extend_str(&mut text, " ");
            }
            extend_str(&mut text, "use ");
            extend_str(&mut text, tree.as_str());
            extend_str(&mut text, ";");
            proof {
                reveal_strlit(" ");
                reveal_strlit(";");
            }
            (self.span, string_of(text.as_slice()), snippet)
        } else {
            if n == 0 {
                return None;
            }
            let snippet = match &self.snippets.path {
                Some(snippet) => snippet,
                None => {
                    return None;
                },
            };
            if *snippet != self.leaves[0].written {
                return None;
            }
            (self.path_span, tree, snippet)
        };
        let mut nameable = true;
        let mut k: usize = 0;
        while k < n
            invariant
                n == self.leaves@.len(),
                k <= n,
                nameable == (forall|m: int|
                    0 <= m < k ==> match (#[trigger] self.leaves@[m]).flagged {
                        Some(canonical) => canonical.nameable,
                        None => true,
                    }),
            decreases n - k,
        {
            match &self.leaves[k].flagged {
                Some(canonical) => {
                    if !canonical.nameable {
                        nameable = false;
                    }
                },
                None => {},
            }
            k = k + 1;
        }
        let commented = opens_comment_in(snippet.as_str());
        let label = if self.braced {
            "import each item from its canonical module"
        } else {
            "import the item from its canonical module"
        };
        Some(
            Fix {
                span,
                replacement,
                applicability: applicability(nameable && !commented),
                label,
            },
        )
    }
}

/// A copy of the snippets.
fn copy_snippets(snippets: &Snippets) -> (copy: Snippets)
    ensures
        copy == *snippets,
{
    Snippets {
        item: copy_text(&snippets.item),
        path: copy_text(&snippets.path),
        vis: copy_text(&snippets.vis),
    }
}

/// A copy of an optional text.
fn copy_text(text: &Option<String>) -> (copy: Option<String>)
    ensures
        copy == *text,
{
    match text {
        Some(text) => Some(text.clone()),
        None => None,
    }
}

/// Whether `s` holds a `//` or a `/*`.
fn opens_comment_in(s: &str) -> (opens: bool)
    ensures
        opens == opens_comment(s@),
{
    let chars = chars_of(s);
    let n = chars.len();
    let mut k: usize = 0;
    while n > 0 && k < n - 1
        invariant
            n == chars@.len(),
            chars@ == s@,
            forall|m: int|
                0 <= m < k && m < n - 1 ==> !(#[trigger] chars@[m] == '/' && (chars@[m + 1] == '/'
                    || chars@[m + 1] == '*')),
        decreases n - k,
    {
        if chars[k] == '/' && (chars[k + 1] == '/' || chars[k + 1] == '*') {
            assert(chars@[k as int] == '/' && (chars@[k + 1] == '/' || chars@[k + 1] == '*'));
            assert(0 <= k < chars@.len() - 1);
            assert(opens_comment(chars@));
            assert(chars@ == s@);
            return true;
        }
        k = k + 1;
    }
    false
}

} // verus!
