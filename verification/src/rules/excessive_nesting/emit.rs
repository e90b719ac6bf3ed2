//! Shaping the diagnostic for one over-nested body.
//!
//! The note names the constructs on the way down, so the reader can see
//! which level to attack rather than only where the bottom is. The helps
//! then offer both directions: flattening the shape that is actually
//! there, and extraction with the test that tells a real extraction
//! from a relocation.
use super::{Construct, Deepest};
use crate::rules::{Diagnostic, MeasuredFn};
use crate::text::{chars_of, decimal, extend_str, join, push_decimal, string_of, views};
use vstd::prelude::*;

verus! {

broadcast use vstd::string::group_string_axioms;

/// Extraction is a first-class answer to deep nesting; this states the
/// property that separates one from nesting moved into an argument list.
pub const EXTRACTION_HELP: &'static str = "or extract the inner levels — name the new function for what it does, not where it came from; if it needs most of this function's locals as parameters, the nesting moved rather than went away";

/// The fallback when the deepest point is not a shape [`shape_hint`]
/// recognises.
pub const FLATTEN_HELP: &'static str = "return early with a guard clause or `let ... else` so the rest of the body stops being nested";

/// The hint for an `if let` at the bottom.
pub const IF_LET_HINT: &'static str = "an `if let` here: `let ... else` binds the same pattern and leaves early, so the rest of the block stops being nested";

/// The hint for the `else` body of a `let ... else` at the bottom.
pub const LET_ELSE_HINT: &'static str = "the `else` body of a `let ... else` is the level here: it has to diverge, so keep it to the `return`, `break`, or `continue` that leaves";

/// The hint for a free-standing block at the bottom.
pub const BLOCK_HINT: &'static str = "a free-standing block is a level: drop the braces where they only scope a temporary, or give the block a name of its own";

/// The hint for an `else`-less `if` inside a `match` arm.
pub const ARM_GUARD_HINT: &'static str = "an `if` inside a `match` arm: an arm guard folds the condition into the pattern and removes this level";

/// The hint for an `else`-less `if` inside a loop.
pub const CONTINUE_HINT: &'static str = "an `if` inside a loop: `continue` on the opposite condition removes this level and unindents the body";

/// The hint for an `else`-less `if` directly inside another.
pub const MERGE_HINT: &'static str = "an `if` directly inside an `if`: `&&` combines the two conditions";

/// What a construct is called on the path to the deepest point.
pub open spec fn spec_label(construct: Construct) -> Seq<char> {
    match construct {
        Construct::If { binds: false, .. } => "`if`"@,
        Construct::If { binds: true, .. } => "`if let`"@,
        Construct::Match => "`match`"@,
        Construct::For => "`for`"@,
        Construct::While => "`while`"@,
        Construct::Loop => "`loop`"@,
        Construct::Closure => "closure"@,
        Construct::Block => "block"@,
        Construct::LetElse => "`let ... else`"@,
    }
}

impl Construct {
    /// What the construct is called on the path to the deepest point.
    pub fn label(&self) -> (label: &'static str)
        ensures
            label@ == spec_label(*self),
    {
        match self {
            Construct::If { binds: false, .. } => "`if`",
            Construct::If { binds: true, .. } => "`if let`",
            Construct::Match => "`match`",
            Construct::For => "`for`",
            Construct::While => "`while`",
            Construct::Loop => "`loop`",
            Construct::Closure => "closure",
            Construct::Block => "block",
            Construct::LetElse => "`let ... else`",
        }
    }
}

/// The separator between constructs on the path.
pub open spec fn arrow() -> Seq<char> {
    " -> "@
}

/// The way down to the deepest point, outermost construct first.
pub open spec fn spec_path(deepest: Deepest) -> Seq<char> {
    join(deepest.path@.map_values(|c: Construct| spec_label(c)), arrow())
}

/// A transform that removes a level from the shape at the bottom, when
/// the path shows for sure that it applies.
pub open spec fn spec_shape_hint(path: Seq<Construct>) -> Option<Seq<char>> {
    if path.len() == 0 {
        None
    } else {
        let innermost = path.last();
        match innermost {
            Construct::If { binds: true, .. } => Some(IF_LET_HINT@),
            Construct::LetElse => Some(LET_ELSE_HINT@),
            Construct::Block => Some(BLOCK_HINT@),
            Construct::If { has_else: false, .. } => if path.len() < 2 {
                None
            } else {
                match path[path.len() - 2] {
                    Construct::Match => Some(ARM_GUARD_HINT@),
                    Construct::For | Construct::While | Construct::Loop => Some(CONTINUE_HINT@),
                    Construct::If { has_else: false, .. } => Some(MERGE_HINT@),
                    _ => None,
                }
            },
            _ => None,
        }
    }
}

/// The noun for `depth` levels.
pub open spec fn levels_noun(depth: nat) -> Seq<char> {
    if depth == 1 {
        "level"@
    } else {
        "levels"@
    }
}

/// The message for a body `depth` levels deep against a limit of `max`.
pub open spec fn nesting_message(kind: Seq<char>, name: Seq<char>, depth: nat, max: nat) -> Seq<
    char,
> {
    kind + " `"@ + name + "` nests "@ + decimal(depth) + " "@ + levels_noun(depth)
        + " deep, above the limit of "@ + decimal(max)
}

/// Whether `d` is the diagnostic for `function` nesting to `deepest`
/// against a limit of `max`.
pub open spec fn nesting_diagnostic(function: MeasuredFn, deepest: Deepest, max: nat, d: Diagnostic) -> bool {
    &&& d.span == function.span
    &&& d.message@ == nesting_message(
        function.kind_label@,
        function.name@,
        deepest.path@.len(),
        max,
    )
    &&& d.note matches Some((span, note)) && span == deepest.span && note@ == "the deepest path is "@
        + spec_path(deepest)
    &&& d.helps@.len() == 2
    &&& d.helps@[0]@ == match spec_shape_hint(deepest.path@) {
        Some(hint) => hint,
        None => FLATTEN_HELP@,
    }
    &&& d.helps@[1]@ == EXTRACTION_HELP@
}

/// The diagnostic for one over-nested body.
pub fn emit(function: &MeasuredFn, deepest: &Deepest, max: usize) -> (d: Diagnostic)
    ensures
        nesting_diagnostic(*function, *deepest, max as nat, d),
{
    let depth = deepest.depth();
    let mut message = chars_of(function.kind_label.as_str());
    extend_str(&mut message, " `");
    extend_str(&mut message, function.name.as_str());
    extend_str(&mut message, "` nests ");
    push_decimal(&mut message, depth);
    extend_str(&mut message, " ");
    if depth == 1 {
        extend_str(&mut message, "level");
    } else {
        extend_str(&mut message, "levels");
    }
    extend_str(&mut message, " deep, above the limit of ");
    push_decimal(&mut message, max);
    let mut note = chars_of("the deepest path is ");
    let way = path(deepest);
    extend_str(&mut note, way.as_str());
    let mut helps: Vec<&'static str> = Vec::new();
    match shape_hint(deepest) {
        Some(hint) => helps.push(hint),
        None => helps.push(FLATTEN_HELP),
    }
    helps.push(EXTRACTION_HELP);
    Diagnostic {
        span: function.span,
        message: string_of(message.as_slice()),
        note: Some((deepest.span, string_of(note.as_slice()))),
        helps,
    }
}

/// The way down to the deepest point, outermost construct first.
pub fn path(deepest: &Deepest) -> (way: String)
    ensures
        way@ == spec_path(*deepest),
{
    let mut labels: Vec<Vec<char>> = Vec::new();
    let mut i: usize = 0;
    while i < deepest.path.len()
        invariant
            i <= deepest.path@.len(),
            views(labels@) == deepest.path@.take(i as int).map_values(|c: Construct| spec_label(c)),
        decreases deepest.path@.len() - i,
    {
        let ghost before = labels@;
        labels.push(chars_of(deepest.path[i].label()));
        proof {
            assert(views(labels@) =~= views(before).push(spec_label(deepest.path@[i as int])));
            assert(deepest.path@.take(i + 1).map_values(|c: Construct| spec_label(c))
                =~= deepest.path@.take(i as int).map_values(|c: Construct| spec_label(c)).push(
                spec_label(deepest.path@[i as int]),
            ));
        }
        i = i + 1;
    }
    assert(deepest.path@.take(deepest.path@.len() as int) =~= deepest.path@);
    let sep = chars_of(" -> ");
    string_of(crate::text::join_parts(labels.as_slice(), sep.as_slice()).as_slice())
}

/// A transform that removes a level from the shape at the bottom, when
/// the walk recorded enough about it to be sure the transform applies.
/// Each of these flattens in place, so none trades a level for an
/// argument list; `None` leaves the general guard-clause advice.
pub fn shape_hint(deepest: &Deepest) -> (hint: Option<&'static str>)
    ensures
        match hint {
            Some(h) => spec_shape_hint(deepest.path@) == Some(h@),
            None => spec_shape_hint(deepest.path@) is None,
        },
{
    let depth = deepest.depth();
    if depth == 0 {
        return None;
    }
    let innermost = deepest.path[depth - 1];
    match innermost {
        Construct::If { binds: true, .. } => {
            return Some(IF_LET_HINT);
        },
        Construct::LetElse => {
            return Some(LET_ELSE_HINT);
        },
        Construct::Block => {
            return Some(BLOCK_HINT);
        },
        _ => {},
    }
    match innermost {
        Construct::If { has_else: false, .. } => {},
        _ => {
            return None;
        },
    }
    if depth < 2 {
        return None;
    }
    let parent = deepest.path[depth - 2];
    match parent {
        Construct::Match => Some(ARM_GUARD_HINT),
        Construct::For | Construct::While | Construct::Loop => Some(CONTINUE_HINT),
        Construct::If { has_else: false, .. } => Some(MERGE_HINT),
        _ => None,
    }
}

} // verus!
