//! Counting the lines of code in a piece of Rust source.
//!
//! A line counts when it holds anything other than white space and
//! comments, so blank lines, comment-only lines, doc comments, and the
//! lines a block comment spans are free, while a string literal counts
//! every line it spans and a `//` inside a string is still code. What is
//! a comment and what is a string is the lexer's call: the source is cut
//! into tokens by `rustc_lexer`, and the lines each code token touches
//! are the lines of code.
use vstd::prelude::*;

verus! {

/// What the line count needs to know of a token's kind.
#[derive(Clone, Copy, Debug, PartialEq, Eq, Structural)]
pub enum LexKind {
    /// A `//` comment, doc comments included.
    LineComment,
    /// A `/* */` comment, doc comments included.
    BlockComment { terminated: bool },
    /// A run of white space.
    Whitespace,
    /// Any other token: code.
    Code,
}

/// One token of the source: its kind and its length in bytes.
#[derive(Clone, Copy, Debug, PartialEq, Eq, Structural)]
pub struct LexToken {
    pub kind: LexKind,
    pub len: usize,
}

/// The tokens `rustc_lexer::tokenize` cuts `source` into, in order.
pub uninterp spec fn lexed(source: Seq<char>) -> Seq<LexToken>;

/// The tokens of `source`, each read as its kind and byte length.
///
/// Calls `rustc_lexer::tokenize`, which cuts the source into consecutive
/// tokens, each `len` bytes long; a line comment, a block comment and a
/// run of white space keep their kind, and every other kind reads as
/// `Code`. The contract names the result (`lexed`) and states nothing
/// more of it: not that the lengths add up to the source's, nor where
/// comments fall.
#[verifier::external_body]
pub(crate) fn tokenize(source: &str) -> (tokens: Vec<LexToken>)
    ensures
        tokens@ == lexed(source@),
{
    rustc_lexer::tokenize(source).map(|token| LexToken {
        kind: match token.kind {
            rustc_lexer::TokenKind::LineComment => LexKind::LineComment,
            rustc_lexer::TokenKind::BlockComment { terminated } => LexKind::BlockComment { terminated },
            rustc_lexer::TokenKind::Whitespace => LexKind::Whitespace,
            _ => LexKind::Code,
        },
        len: token.len,
    }).collect()
}

/// The number of newline bytes before position `p`.
pub open spec fn newlines_before(bytes: Seq<u8>, p: int) -> nat
    decreases p,
{
    if p <= 0 {
        0
    } else {
        newlines_before(bytes, p - 1) + (if p - 1 < bytes.len() && bytes[p - 1] == 10 {
            1nat
        } else {
            0nat
        })
    }
}

/// Where token `i` starts: the lengths before it added up, never past
/// the end of the source.
pub open spec fn token_start(len: int, tokens: Seq<LexToken>, i: int) -> int
    decreases i,
{
    if i <= 0 {
        0
    } else {
        let end = token_start(len, tokens, i - 1) + tokens[i - 1].len;
        if end <= len {
            end
        } else {
            len
        }
    }
}

/// Whether token `i` is code and touches line `line`.
pub open spec fn covers(bytes: Seq<u8>, tokens: Seq<LexToken>, i: int, line: int) -> bool {
    let start = token_start(bytes.len() as int, tokens, i);
    let end = token_start(bytes.len() as int, tokens, i + 1);
    &&& tokens[i].kind is Code
    &&& start < end
    &&& newlines_before(bytes, start) <= line <= newlines_before(bytes, end - 1)
}

/// Whether some code token touches line `line`.
pub open spec fn line_has_code(bytes: Seq<u8>, tokens: Seq<LexToken>, line: int) -> bool {
    exists|i: int| 0 <= i < tokens.len() && #[trigger] covers(bytes, tokens, i, line)
}

/// The number of lines below `line` that hold code.
pub open spec fn code_lines_below(bytes: Seq<u8>, tokens: Seq<LexToken>, line: int) -> nat
    decreases line,
{
    if line <= 0 {
        0
    } else {
        code_lines_below(bytes, tokens, line - 1) + (if line_has_code(bytes, tokens, line - 1) {
            1nat
        } else {
            0nat
        })
    }
}

/// The number of lines of code: the lines, of all those the source
/// spans, that some code token touches.
pub open spec fn code_line_count(bytes: Seq<u8>, tokens: Seq<LexToken>) -> nat {
    code_lines_below(bytes, tokens, newlines_before(bytes, bytes.len() as int) + 1int)
}

proof fn lemma_newlines_bounded(bytes: Seq<u8>, p: int)
    ensures
        p >= 0 ==> newlines_before(bytes, p) <= p,
    decreases p,
{
    if p > 0 {
        lemma_newlines_bounded(bytes, p - 1);
    }
}

proof fn lemma_newlines_monotone(bytes: Seq<u8>, p: int, q: int)
    requires
        p <= q,
    ensures
        newlines_before(bytes, p) <= newlines_before(bytes, q),
    decreases q - p,
{
    if p < q {
        lemma_newlines_monotone(bytes, p, q - 1);
    }
}

proof fn lemma_start_bounded(len: int, tokens: Seq<LexToken>, i: int)
    requires
        len >= 0,
    ensures
        0 <= token_start(len, tokens, i) <= len,
    decreases i,
{
    if i > 0 {
        lemma_start_bounded(len, tokens, i - 1);
    }
}

/// The number of lines of code in `bytes`, cut into `tokens`: the
/// lines, of all those the source spans, that a token other than white
/// space and comments touches.
pub fn count_code_lines_in(bytes: &[u8], tokens: &[LexToken]) -> (count: usize)
    ensures
        count == code_line_count(bytes@, tokens@),
{
    let blen = bytes.len();
    let ghost b = bytes@;
    // Every newline, so every line the source spans.
    let mut total: usize = 0;
    let mut p: usize = 0;
    while p < blen
        invariant
            blen == b.len(),
            b == bytes@,
            p <= blen,
            total == newlines_before(b, p as int),
        decreases blen - p,
    {
        proof {
            lemma_newlines_bounded(b, p as int);
        }
        if bytes[p] == 10 {
            total = total + 1;
        }
        p = p + 1;
    }
    // `marks[line]` for the lines before the last; `tail` for the last.
    let mut marks: Vec<bool> = Vec::new();
    let mut m: usize = 0;
    while m < total
        invariant
            m <= total,
            marks@.len() == m,
            forall|k: int| 0 <= k < m ==> !(#[trigger] marks@[k]),
        decreases total - m,
    {
        marks.push(false);
        m = m + 1;
    }
    let mut tail = false;
    let n = tokens.len();
    let mut pos: usize = 0;
    let mut line: usize = 0;
    let mut i: usize = 0;
    while i < n
        invariant
            blen == b.len(),
            b == bytes@,
            n == tokens@.len(),
            i <= n,
            total == newlines_before(b, blen as int),
            marks@.len() == total,
            pos == token_start(blen as int, tokens@, i as int),
            pos <= blen,
            line == newlines_before(b, pos as int),
            tail ==> total < blen,
            forall|l: int|
                0 <= l < total ==> (#[trigger] marks@[l] <==> line_has_code(
                    b,
                    tokens@.take(i as int),
                    l,
                )),
            tail <==> line_has_code(b, tokens@.take(i as int), total as int),
        decreases n - i,
    {
        let len = tokens[i].len;
        let end: usize = if len <= blen - pos {
            pos + len
        } else {
            blen
        };
        let start_line = line;
        // Walk the token's bytes, counting the newlines among them.
        let mut q: usize = pos;
        let mut at: usize = line;
        while q < end
            invariant
                blen == b.len(),
                b == bytes@,
                pos <= q <= end <= blen,
                at == newlines_before(b, q as int),
            decreases end - q,
        {
            proof {
                lemma_newlines_bounded(b, q as int);
            }
            if bytes[q] == 10 {
                at = at + 1;
            }
            q = q + 1;
        }
        proof {
            lemma_newlines_monotone(b, pos as int, end as int);
            lemma_newlines_monotone(b, end as int, blen as int);
            assert(token_start(blen as int, tokens@, i + 1) == end);
        }
        let ghost old_marks = marks@;
        let ghost old_tail = tail;
        let code = matches!(tokens[i].kind, LexKind::Code);
        if code && end > pos {
            let end_line: usize = if bytes[end - 1] == 10 {
                at - 1
            } else {
                at
            };
            proof {
                assert(end_line == newlines_before(b, end - 1));
                lemma_newlines_monotone(b, pos as int, end - 1);
                lemma_newlines_monotone(b, end - 1, blen as int);
                lemma_newlines_bounded(b, end - 1);
            }
            let mut l: usize = start_line;
            while l <= end_line
                invariant
                    start_line <= l <= end_line + 1,
                    end_line == newlines_before(b, end - 1),
                    end_line <= total,
                    end_line < blen,
                    marks@.len() == total,
                    tail ==> total < blen,
                    forall|k: int|
                        0 <= k < total ==> (#[trigger] marks@[k] <==> (old_marks[k] || (start_line
                            <= k < l))),
                    tail <==> (old_tail || (start_line <= total < l)),
                decreases end_line + 1 - l,
            {
                if l < total {
                    marks.set(l, true);
                } else {
                    tail = true;
                }
                l = l + 1;
            }
            assert(forall|k: int|
                0 <= k < total ==> (#[trigger] marks@[k] <==> (old_marks[k] || (start_line <= k
                    <= newlines_before(b, end - 1)))));
            assert(tail <==> (old_tail || (start_line <= total <= newlines_before(b, end - 1))));
        }
        assert(forall|k: int|
            0 <= k < total ==> (#[trigger] marks@[k] <==> (old_marks[k] || (code && end > pos
                && start_line <= k <= newlines_before(b, end - 1)))));
        assert(tail <==> (old_tail || (code && end > pos && start_line <= total <= newlines_before(
            b,
            end - 1,
        ))));
        proof {
            let before = tokens@.take(i as int);
            let after = tokens@.take(i + 1);
            assert forall|j: int, ln: int| 0 <= j < i implies #[trigger] covers(b, after, j, ln)
                == covers(b, before, j, ln) by {
                lemma_start_prefix(blen as int, tokens@, i + 1, j);
                lemma_start_prefix(blen as int, tokens@, i + 1, j + 1);
                lemma_start_prefix(blen as int, tokens@, i as int, j);
                lemma_start_prefix(blen as int, tokens@, i as int, j + 1);
            }
            lemma_start_prefix(blen as int, tokens@, i + 1, i as int);
            lemma_start_prefix(blen as int, tokens@, i + 1, i + 1);
            assert forall|ln: int| 0 <= ln <= total implies line_has_code(b, after, ln) == (
            line_has_code(b, before, ln) || covers(b, after, i as int, ln)) by {
                if line_has_code(b, after, ln) {
                    let j = choose|j: int| 0 <= j < after.len() && #[trigger] covers(b, after, j, ln);
                    if j < i {
                        assert(covers(b, before, j, ln));
                    }
                }
                if line_has_code(b, before, ln) {
                    let j = choose|j: int| 0 <= j < before.len() && #[trigger] covers(b, before, j, ln);
                    assert(covers(b, after, j, ln));
                }
            }
            assert(after[i as int] == tokens@[i as int]);
            let marked = code && end > pos;
            assert forall|ln: int| 0 <= ln <= total implies covers(b, after, i as int, ln) == (
            marked && start_line <= ln <= newlines_before(b, end - 1)) by {}
            assert forall|l: int| 0 <= l < total implies (#[trigger] marks@[l] <==> line_has_code(
                b,
                after,
                l,
            )) by {
                assert(old_marks[l] == line_has_code(b, before, l));
            }
            assert(tail <==> line_has_code(b, after, total as int));
        }
        pos = end;
        line = at;
        i = i + 1;
    }
    assert(tokens@.take(n as int) =~= tokens@);
    // Count the marked lines.
    let mut count: usize = 0;
    let mut k: usize = 0;
    while k < total
        invariant
            k <= total,
            marks@.len() == total,
            count <= k,
            count == code_lines_below(b, tokens@, k as int),
            forall|l: int| 0 <= l < total ==> (#[trigger] marks@[l] <==> line_has_code(b, tokens@, l)),
        decreases total - k,
    {
        if marks[k] {
            count = count + 1;
        }
        k = k + 1;
    }
    if tail {
        count = count + 1;
    }
    count
}

/// Starting positions depend only on the tokens before.
proof fn lemma_start_prefix(len: int, tokens: Seq<LexToken>, cut: int, i: int)
    requires
        0 <= i <= cut <= tokens.len(),
    ensures
        token_start(len, tokens.take(cut), i) == token_start(len, tokens, i),
    decreases i,
{
    if i > 0 {
        lemma_start_prefix(len, tokens, cut, i - 1);
        assert(tokens.take(cut)[i - 1] == tokens[i - 1]);
    }
}

/// The number of lines of code in a piece of source text.
pub open spec fn source_line_count(source: Seq<char>) -> nat {
    code_line_count(vstd::utf8::encode_utf8(source), lexed(source))
}

/// The number of lines of code in `source`: the lines that hold
/// anything other than white space and comments.
pub fn count_code_lines(source: &str) -> (count: usize)
    ensures
        count == source_line_count(source@),
{
    let tokens = tokenize(source);
    count_code_lines_in(source.as_bytes(), tokens.as_slice())
}

} // verus!
