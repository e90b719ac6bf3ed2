//! The edit that reorders a struct's fields, when it can be made
//! without losing anything: the struct holds no plain comment (one that
//! would not travel with a field), every field's text is at hand, and
//! only a comma and white space lie between one field and the next.
use crate::code_lines::{lexed, token_start, tokenize, LexKind, LexToken};
use crate::source::Span;
use crate::text::{chars_of, trim, trim_bounds};
use vstd::prelude::*;

verus! {

broadcast use vstd::string::group_string_axioms;

/// What the rule says of a struct whose fields are out of order.
pub const MESSAGE: &'static str = "named struct fields are not in alphabetical order";

/// The label of the machine-applicable edit.
pub const FIX_LABEL: &'static str = "reorder the fields";

/// The help given when no edit can be offered.
pub const FIX_HELP: &'static str = "reorder the fields while preserving their associated comments";

/// One report of a struct whose fields are out of order.
pub struct Reorder {
    /// The struct item.
    pub span: Span,
    /// The edit, labelled [`FIX_LABEL`] and machine-applicable: each
    /// field's extent and the text that replaces it; or `None`, and the
    /// report carries [`FIX_HELP`] instead.
    pub parts: Option<Vec<(Span, String)>>,
}

/// Whether a comment token spanning `bytes[start..end]` is a doc
/// comment, the kind that attaches to what follows it: `//!` and `///`
/// (not `////`), `/*!` and `/**` (not `/***` nor `/**/`).
pub open spec fn is_doc(bytes: Seq<u8>, start: int, end: int, kind: LexKind) -> bool {
    &&& start + 2 < end
    &&& match kind {
        LexKind::LineComment => bytes[start + 2] == 33u8 || (bytes[start + 2] == 47u8 && (start + 3
            >= end || bytes[start + 3] != 47u8)),
        LexKind::BlockComment { .. } => bytes[start + 2] == 33u8 || (bytes[start + 2] == 42u8 && (
        start + 3 >= end || (bytes[start + 3] != 42u8 && bytes[start + 3] != 47u8))),
        _ => false,
    }
}

/// Whether token `i` of `tokens`, read over `bytes`, is a plain comment.
pub open spec fn plain_comment_at(bytes: Seq<u8>, tokens: Seq<LexToken>, i: int) -> bool {
    let start = token_start(bytes.len() as int, tokens, i);
    let end = token_start(bytes.len() as int, tokens, i + 1);
    &&& (tokens[i].kind is LineComment || tokens[i].kind is BlockComment)
    &&& !is_doc(bytes, start, end, tokens[i].kind)
}

/// Whether `source` holds a comment that is not a doc comment.
pub open spec fn has_plain_comment(source: Seq<char>) -> bool {
    let bytes = vstd::utf8::encode_utf8(source);
    let tokens = lexed(source);
    exists|i: int| 0 <= i < tokens.len() && #[trigger] plain_comment_at(bytes, tokens, i)
}

/// Whether the text between two fields is a comma in white space.
pub open spec fn is_separator(gap: Seq<char>) -> bool {
    trim(gap) == ","@
}

/// Whether a gap's text is at hand and is a separator.
pub open spec fn gap_ok(gap: Option<String>) -> bool {
    gap matches Some(text) && is_separator(text@)
}

/// The stretch of source between one field and the next, as a span
/// taken from the end of the first to the start of the second.
pub open spec fn spec_gap(a: Span, b: Span) -> Span {
    if a.hi <= b.lo {
        Span { lo: a.hi, hi: b.lo }
    } else {
        Span { lo: b.lo, hi: a.hi }
    }
}

/// Whether the edit can be made: the struct's text is at hand and holds
/// no plain comment, every field's text is at hand, and each gap is a
/// separator.
pub open spec fn can_rewrite(
    item: Option<String>,
    snippets: Seq<Option<String>>,
    gaps: Seq<Option<String>>,
) -> bool {
    &&& item matches Some(text) && !has_plain_comment(text@)
    &&& forall|i: int| 0 <= i < snippets.len() ==> (#[trigger] snippets[i]) is Some
    &&& forall|i: int|
        0 <= i < gaps.len() ==> gap_ok(#[trigger] gaps[i])
}

/// The spans between adjacent fields, one fewer than the fields.
pub fn gap_spans(fields: &[Span]) -> (gaps: Vec<Span>)
    ensures
        gaps@.len() == if fields@.len() == 0 {
            0
        } else {
            fields@.len() - 1
        },
        forall|i: int| 0 <= i < gaps@.len() ==> #[trigger] gaps@[i] == spec_gap(fields@[i], fields@[i + 1]),
{
    let mut gaps: Vec<Span> = Vec::new();
    let mut i: usize = 1;
    while i < fields.len()
        invariant
            1 <= i,
            fields@.len() == 0 ==> i == 1,
            fields@.len() > 0 ==> i <= fields@.len(),
            gaps@.len() == i - 1,
            forall|k: int| 0 <= k < gaps@.len() ==> #[trigger] gaps@[k] == spec_gap(fields@[k], fields@[k + 1]),
        decreases fields@.len() - i,
    {
        let a = fields[i - 1];
        let b = fields[i];
        let gap = if a.hi <= b.lo {
            Span { lo: a.hi, hi: b.lo }
        } else {
            Span { lo: b.lo, hi: a.hi }
        };
        gaps.push(gap);
        i = i + 1;
    }
    gaps
}

/// Whether the comment token `kind` over `bytes[start..end]` is a doc
/// comment (see [`is_doc`]).
fn doc_comment(bytes: &[u8], start: usize, end: usize, kind: LexKind) -> (doc: bool)
    requires
        start <= end <= bytes@.len(),
    ensures
        doc == is_doc(bytes@, start as int, end as int, kind),
{
    if end - start <= 2 {
        return false;
    }
    let third = bytes[start + 2];
    let fourth: Option<u8> = if end - start > 3 {
        Some(bytes[start + 3])
    } else {
        None
    };
    match kind {
        LexKind::LineComment => third == 33u8 || (third == 47u8 && match fourth {
            Some(b) => b != 47u8,
            None => true,
        }),
        LexKind::BlockComment { .. } => third == 33u8 || (third == 42u8 && match fourth {
            Some(b) => b != 42u8 && b != 47u8,
            None => true,
        }),
        _ => false,
    }
}

/// Whether `source` holds a comment that is not a doc comment, as the
/// lexer cuts it.
pub fn plain_comment(source: &str) -> (found: bool)
    ensures
        found == has_plain_comment(source@),
{
    let tokens = tokenize(source);
    let bytes = source.as_bytes();
    let ghost b = bytes@;
    let blen = bytes.len();
    let n = tokens.len();
    let mut pos: usize = 0;
    let mut i: usize = 0;
    while i < n
        invariant
            b == bytes@,
            b == vstd::utf8::encode_utf8(source@),
            tokens@ == lexed(source@),
            blen == b.len(),
            n == tokens@.len(),
            i <= n,
            pos == token_start(blen as int, tokens@, i as int),
            pos <= blen,
            forall|k: int| 0 <= k < i ==> !#[trigger] plain_comment_at(b, tokens@, k),
        decreases n - i,
    {
        let len = tokens[i].len;
        let end: usize = if len <= blen - pos {
            pos + len
        } else {
            blen
        };
        assert(token_start(blen as int, tokens@, i + 1) == end);
        let kind = tokens[i].kind;
        let comment = match kind {
            LexKind::LineComment => true,
            LexKind::BlockComment { .. } => true,
            _ => false,
        };
        if comment && !doc_comment(bytes, pos, end, kind) {
            assert(plain_comment_at(b, tokens@, i as int));
            return true;
        }
        pos = end;
        i = i + 1;
    }
    false
}

/// Whether `gap` is a comma in white space.
pub fn separator(gap: &str) -> (ok: bool)
    ensures
        ok == is_separator(gap@),
{
    let chars = chars_of(gap);
    let (start, end) = trim_bounds(chars.as_slice());
    proof {
        reveal_strlit(",");
        assert(","@.len() == 1 && ","@[0] == ',');
    }
    let ok = end - start == 1 && chars[start] == ',';
    proof {
        let t = chars@.subrange(start as int, end as int);
        if ok {
            assert(t =~= ","@);
        } else if t == ","@ {
            assert(t[0] == chars@[start as int]);
        }
    }
    ok
}

/// The edit that puts the fields in `order`: field `i`'s extent takes
/// the text of field `order[i]`; or `None` where the edit cannot be
/// made safely (see [`can_rewrite`]).
pub fn replacements(
    item: &Option<String>,
    fields: &[Span],
    snippets: &[Option<String>],
    gaps: &[Option<String>],
    order: &[usize],
) -> (parts: Option<Vec<(Span, String)>>)
    requires
        snippets@.len() == fields@.len(),
        order@.len() == fields@.len(),
        forall|i: int| 0 <= i < order@.len() ==> #[trigger] order@[i] < fields@.len(),
    ensures
        parts is Some <==> can_rewrite(*item, snippets@, gaps@),
        parts matches Some(p) ==> {
            &&& p@.len() == fields@.len()
            &&& forall|i: int|
                0 <= i < p@.len() ==> (#[trigger] p@[i]).0 == fields@[i] && p@[i].1@
                    == snippets@[order@[i] as int]->0@
        },
{
    match item {
        Some(text) => {
            if plain_comment(text.as_str()) {
                return None;
            }
        },
        None => {
            return None;
        },
    }
    let mut i: usize = 0;
    while i < snippets.len()
        invariant
            i <= snippets@.len(),
            forall|k: int| 0 <= k < i ==> (#[trigger] snippets@[k]) is Some,
        decreases snippets@.len() - i,
    {
        if snippets[i].is_none() {
            return None;
        }
        i = i + 1;
    }
    let mut g: usize = 0;
    while g < gaps.len()
        invariant
            g <= gaps@.len(),
            forall|k: int| 0 <= k < g ==> gap_ok(#[trigger] gaps@[k]),
        decreases gaps@.len() - g,
    {
        match &gaps[g] {
            Some(gap) => {
                if !separator(gap.as_str()) {
                    return None;
                }
            },
            None => {
                return None;
            },
        }
        g = g + 1;
    }
    let mut parts: Vec<(Span, String)> = Vec::new();
    let mut j: usize = 0;
    while j < fields.len()
        invariant
            j <= fields@.len(),
            snippets@.len() == fields@.len(),
            order@.len() == fields@.len(),
            forall|i: int| 0 <= i < order@.len() ==> #[trigger] order@[i] < fields@.len(),
            forall|k: int| 0 <= k < snippets@.len() ==> (#[trigger] snippets@[k]) is Some,
            parts@.len() == j,
            forall|k: int|
                0 <= k < j ==> (#[trigger] parts@[k]).0 == fields@[k] && parts@[k].1@
                    == snippets@[order@[k] as int]->0@,
        decreases fields@.len() - j,
    {
        let from = order[j];
        let text = match &snippets[from] {
            Some(text) => text.clone(),
            None => {
                return None;
            },
        };
        parts.push((fields[j], text));
        j = j + 1;
    }
    Some(parts)
}

/// The report for a struct at `span` whose field extents are `fields`,
/// to be put in `order`: with the edit where [`replacements`] gives one,
/// else with the help. `item`, `snippets` and `gaps` are the source
/// texts of the struct, of each field, and of each gap (see
/// [`gap_spans`]), where the source map has them.
pub fn emit(
    span: Span,
    fields: &[Span],
    order: &[usize],
    item: &Option<String>,
    snippets: &[Option<String>],
    gaps: &[Option<String>],
) -> (report: Reorder)
    requires
        snippets@.len() == fields@.len(),
        order@.len() == fields@.len(),
        forall|i: int| 0 <= i < order@.len() ==> #[trigger] order@[i] < fields@.len(),
    ensures
        report.span == span,
        report.parts is Some <==> can_rewrite(*item, snippets@, gaps@),
        report.parts matches Some(p) ==> {
            &&& p@.len() == fields@.len()
            &&& forall|i: int|
                0 <= i < p@.len() ==> (#[trigger] p@[i]).0 == fields@[i] && p@[i].1@
                    == snippets@[order@[i] as int]->0@
        },
{
    Reorder { span, parts: replacements(item, fields, snippets, gaps, order) }
}

} // verus!
