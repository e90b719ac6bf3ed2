//! Character-level text helpers the rules share: converting between
//! `str` and characters, splitting a path at `::`, and joining parts.
use vstd::prelude::*;

verus! {

broadcast use vstd::string::group_string_axioms;

/// The separator between the segments of a Rust path.
pub open spec fn path_sep() -> Seq<char> {
    seq![':', ':']
}

/// Whether `s` starts with the path separator `::`.
pub open spec fn starts_with_sep(s: Seq<char>) -> bool {
    s.len() >= 2 && s[0] == ':' && s[1] == ':'
}

/// `s` split at every `::`, scanning left to right the way
/// `str::split("::")` does: a separator is taken as soon as it starts.
/// There is always at least one part.
pub open spec fn split_sep(s: Seq<char>) -> Seq<Seq<char>>
    decreases s.len(),
{
    if s.len() == 0 {
        seq![Seq::<char>::empty()]
    } else if starts_with_sep(s) {
        seq![Seq::<char>::empty()] + split_sep(s.skip(2))
    } else {
        let rest = split_sep(s.skip(1));
        rest.update(0, seq![s[0]] + rest[0])
    }
}

/// `parts` joined with `sep` between each neighbouring pair.
pub open spec fn join(parts: Seq<Seq<char>>, sep: Seq<char>) -> Seq<char>
    decreases parts.len(),
{
    if parts.len() == 0 {
        Seq::empty()
    } else if parts.len() == 1 {
        parts[0]
    } else {
        join(parts.drop_last(), sep) + sep + parts.last()
    }
}

/// The views of a sequence of character vectors.
pub open spec fn views(v: Seq<Vec<char>>) -> Seq<Seq<char>> {
    v.map_values(|x: Vec<char>| x@)
}

/// `parts` with `head` put in front of its first part.
pub open spec fn prefix_first(head: Seq<char>, parts: Seq<Seq<char>>) -> Seq<Seq<char>> {
    parts.update(0, head + parts[0])
}

pub proof fn lemma_split_nonempty(s: Seq<char>)
    ensures
        split_sep(s).len() >= 1,
    decreases s.len(),
{
    if s.len() == 0 {
    } else if starts_with_sep(s) {
        lemma_split_nonempty(s.skip(2));
    } else {
        lemma_split_nonempty(s.skip(1));
    }
}

/// Prepending a part to a non-empty list puts it and a separator in
/// front of the joined text.
pub proof fn lemma_join_prepend(a: Seq<char>, rest: Seq<Seq<char>>, sep: Seq<char>)
    requires
        rest.len() >= 1,
    ensures
        join(seq![a] + rest, sep) == a + sep + join(rest, sep),
    decreases rest.len(),
{
    let all = seq![a] + rest;
    if rest.len() == 1 {
        assert(all.drop_last() =~= seq![a]);
        assert(join(seq![a], sep) == a);
        assert(all.last() == rest[0]);
        assert(join(all, sep) =~= a + sep + rest[0]);
    } else {
        assert(all.drop_last() =~= seq![a] + rest.drop_last());
        lemma_join_prepend(a, rest.drop_last(), sep);
        assert(all.last() == rest.last());
        assert(join(all, sep) =~= a + sep + join(rest, sep));
    }
}

/// Growing the first part of a list grows the front of the joined text.
pub proof fn lemma_join_prefix_first(head: Seq<char>, parts: Seq<Seq<char>>, sep: Seq<char>)
    requires
        parts.len() >= 1,
    ensures
        join(prefix_first(head, parts), sep) == head + join(parts, sep),
    decreases parts.len(),
{
    let p = prefix_first(head, parts);
    if parts.len() == 1 {
        assert(join(p, sep) =~= head + join(parts, sep));
    } else {
        assert(p.drop_last() =~= prefix_first(head, parts.drop_last()));
        lemma_join_prefix_first(head, parts.drop_last(), sep);
        assert(join(p, sep) =~= head + join(parts, sep));
    }
}

/// Joining the parts of a split with `::` gives back the text.
pub proof fn lemma_join_split(s: Seq<char>)
    ensures
        join(split_sep(s), path_sep()) == s,
    decreases s.len(),
{
    if s.len() == 0 {
    } else if starts_with_sep(s) {
        lemma_join_split(s.skip(2));
        lemma_split_nonempty(s.skip(2));
        lemma_join_prepend(Seq::empty(), split_sep(s.skip(2)), path_sep());
        assert(s =~= path_sep() + s.skip(2));
    } else {
        lemma_join_split(s.skip(1));
        lemma_split_nonempty(s.skip(1));
        lemma_join_prefix_first(seq![s[0]], split_sep(s.skip(1)), path_sep());
        assert(s =~= seq![s[0]] + s.skip(1));
    }
}

/// Cutting a list in two and joining each half, with a separator
/// between them, is joining the whole list.
pub proof fn lemma_join_cut(parts: Seq<Seq<char>>, k: int, sep: Seq<char>)
    requires
        0 < k < parts.len(),
    ensures
        join(parts.take(k), sep) + sep + join(parts.skip(k), sep) == join(parts, sep),
    decreases parts.len(),
{
    if k == parts.len() - 1 {
        assert(parts.take(k) =~= parts.drop_last());
        assert(parts.skip(k) =~= seq![parts.last()]);
    } else {
        lemma_join_cut(parts.drop_last(), k, sep);
        assert(parts.drop_last().take(k) =~= parts.take(k));
        assert(parts.skip(k).drop_last() =~= parts.drop_last().skip(k));
        assert(parts.skip(k).last() == parts.last());
        assert(join(parts.take(k), sep) + sep + join(parts.skip(k), sep) =~= join(parts, sep));
    }
}

/// The characters of `s`, in order.
pub fn chars_of(s: &str) -> (out: Vec<char>)
    ensures
        out@ == s@,
{
    let mut out: Vec<char> = Vec::new();
    for c in it: s.chars()
        invariant
            it.seq() == s@,
            out@ == it.seq().take(it.index() as int),
    {
        out.push(c);
    }
    assert(out@ == s@);
    out
}

/// Append `c` to `s`.
///
/// Calls `String::push` (std), which appends one character; the
/// contract claims the string afterwards holds what it held, then `c`.
#[verifier::external_body]
fn push_char(s: &mut String, c: char)
    ensures
        final(s)@ == old(s)@.push(c),
{
    s.push(c);
}

/// The string made of `chars`, in order.
pub fn string_of(chars: &[char]) -> (s: String)
    ensures
        s@ == chars@,
{
    let mut s = String::new();
    let mut i: usize = 0;
    while i < chars.len()
        invariant
            i <= chars@.len(),
            s@ == chars@.take(i as int),
        decreases chars@.len() - i,
    {
        push_char(&mut s, chars[i]);
        i = i + 1;
        assert(s@ =~= chars@.take(i as int));
    }
    assert(chars@.take(chars@.len() as int) =~= chars@);
    s
}

/// Append all of `more` to `out`.
pub fn extend_chars(out: &mut Vec<char>, more: &[char])
    ensures
        final(out)@ == old(out)@ + more@,
{
    let mut i: usize = 0;
    while i < more.len()
        invariant
            i <= more@.len(),
            out@ == old(out)@ + more@.take(i as int),
        decreases more@.len() - i,
    {
        out.push(more[i]);
        i = i + 1;
        assert(more@.take(i as int) =~= more@.take(i - 1) + seq![more@[i - 1]]);
    }
    assert(more@.take(more@.len() as int) =~= more@);
}

/// Append the characters of `more` to `out`.
pub fn extend_str(out: &mut Vec<char>, more: &str)
    ensures
        final(out)@ == old(out)@ + more@,
{
    let chars = chars_of(more);
    extend_chars(out, chars.as_slice());
}

/// `s` split at every `::` (see [`split_sep`]).
pub fn split_path(s: &[char]) -> (parts: Vec<Vec<char>>)
    ensures
        views(parts@) == split_sep(s@),
{
    let n = s.len();
    let mut done: Vec<Vec<char>> = Vec::new();
    let mut cur: Vec<char> = Vec::new();
    let mut i: usize = 0;
    proof {
        assert(s@.skip(0) =~= s@);
        lemma_split_nonempty(s@);
        assert(prefix_first(Seq::empty(), split_sep(s@)) =~= split_sep(s@));
        assert(views(done@) + split_sep(s@) =~= split_sep(s@));
    }
    while i < n
        invariant
            n == s@.len(),
            i <= n,
            views(done@) + prefix_first(cur@, split_sep(s@.skip(i as int))) == split_sep(s@),
        decreases n - i,
    {
        let ghost rest = s@.skip(i as int);
        proof {
            lemma_split_nonempty(rest);
        }
        if i + 1 < n && s[i] == ':' && s[i + 1] == ':' {
            proof {
                assert(starts_with_sep(rest));
                assert(rest.skip(2) =~= s@.skip(i + 2));
                lemma_split_nonempty(rest.skip(2));
                assert(prefix_first(cur@, split_sep(rest)) =~= seq![cur@] + split_sep(rest.skip(2)));
                assert(prefix_first(Seq::empty(), split_sep(rest.skip(2))) =~= split_sep(rest.skip(2)));
            }
            let ghost old_done = done@;
            let finished = cur;
            done.push(finished);
            cur = Vec::new();
            i = i + 2;
            proof {
                assert(views(done@) =~= views(old_done) + seq![finished@]);
                assert(views(done@) + prefix_first(cur@, split_sep(s@.skip(i as int))) =~= split_sep(s@));
            }
        } else {
            proof {
                assert(!starts_with_sep(rest));
                assert(rest.skip(1) =~= s@.skip(i + 1));
                lemma_split_nonempty(rest.skip(1));
                let r = split_sep(rest.skip(1));
                assert(rest[0] == s@[i as int]);
                assert(split_sep(rest) == r.update(0, seq![rest[0]] + r[0]));
                assert(cur@ + (seq![rest[0]] + r[0]) =~= cur@.push(s@[i as int]) + r[0]);
                assert(prefix_first(cur@, split_sep(rest)) =~= prefix_first(cur@.push(s@[i as int]), r));
            }
            cur.push(s[i]);
            i = i + 1;
        }
    }
    proof {
        assert(s@.skip(n as int) =~= Seq::<char>::empty());
    }
    let ghost old_done = done@;
    let last = cur;
    done.push(last);
    proof {
        assert(views(done@) =~= views(old_done) + seq![last@]);
        assert(prefix_first(last@, split_sep(Seq::<char>::empty())) =~= seq![last@]);
    }
    done
}

/// `parts[from..to]` joined with `sep` (see [`join`]).
pub fn join_range(parts: &[Vec<char>], from: usize, to: usize, sep: &[char]) -> (out: Vec<char>)
    requires
        from <= to <= parts@.len(),
    ensures
        out@ == join(views(parts@).subrange(from as int, to as int), sep@),
{
    let ghost whole = views(parts@).subrange(from as int, to as int);
    if from == to {
        return Vec::new();
    }
    let mut out: Vec<char> = Vec::new();
    extend_chars(&mut out, parts[from].as_slice());
    let mut i: usize = from + 1;
    proof {
        assert(whole.take(1) =~= seq![parts@[from as int]@]);
    }
    while i < to
        invariant
            to <= parts@.len(),
            from < i <= to,
            whole == views(parts@).subrange(from as int, to as int),
            out@ == join(whole.take(i - from), sep@),
        decreases to - i,
    {
        extend_chars(&mut out, sep);
        extend_chars(&mut out, parts[i].as_slice());
        proof {
            let t = whole.take(i + 1 - from);
            assert(t.drop_last() =~= whole.take(i - from));
            assert(t.last() == parts@[i as int]@);
        }
        i = i + 1;
    }
    assert(whole.take(to - from) =~= whole);
    out
}

/// `parts` joined with `sep` (see [`join`]).
pub fn join_parts(parts: &[Vec<char>], sep: &[char]) -> (out: Vec<char>)
    ensures
        out@ == join(views(parts@), sep@),
{
    let out = join_range(parts, 0, parts.len(), sep);
    assert(views(parts@).subrange(0, parts@.len() as int) =~= views(parts@));
    out
}

/// Whether two character vectors hold the same characters.
pub fn same_chars(a: &[char], b: &[char]) -> (same: bool)
    ensures
        same == (a@ == b@),
{
    if a.len() != b.len() {
        return false;
    }
    let mut i: usize = 0;
    while i < a.len()
        invariant
            a@.len() == b@.len(),
            i <= a@.len(),
            forall|j: int| 0 <= j < i ==> a@[j] == b@[j],
        decreases a@.len() - i,
    {
        if a[i] != b[i] {
            return false;
        }
        i = i + 1;
    }
    assert(a@ =~= b@);
    true
}

/// Whether `c` has the Unicode `White_Space` property, which is what
/// `char::is_whitespace` (and so `str::trim`) tests.
pub open spec fn is_white_space(c: char) -> bool {
    ('\u{9}' <= c && c <= '\u{d}') || c == ' ' || c == '\u{85}' || c == '\u{a0}' || c
        == '\u{1680}' || ('\u{2000}' <= c && c <= '\u{200a}') || c == '\u{2028}' || c
        == '\u{2029}' || c == '\u{202f}' || c == '\u{205f}' || c == '\u{3000}'
}

/// `s` without its leading white space.
pub open spec fn trim_start(s: Seq<char>) -> Seq<char>
    decreases s.len(),
{
    if s.len() > 0 && is_white_space(s[0]) {
        trim_start(s.skip(1))
    } else {
        s
    }
}

/// `s` without its trailing white space.
pub open spec fn trim_end(s: Seq<char>) -> Seq<char>
    decreases s.len(),
{
    if s.len() > 0 && is_white_space(s.last()) {
        trim_end(s.drop_last())
    } else {
        s
    }
}

/// `s` without white space at either end, as `str::trim` gives it.
pub open spec fn trim(s: Seq<char>) -> Seq<char> {
    trim_end(trim_start(s))
}

/// Whether `c` is white space (see [`is_white_space`]).
pub fn white_space(c: char) -> (ws: bool)
    ensures
        ws == is_white_space(c),
{
    ('\u{9}' <= c && c <= '\u{d}') || c == ' ' || c == '\u{85}' || c == '\u{a0}' || c
        == '\u{1680}' || ('\u{2000}' <= c && c <= '\u{200a}') || c == '\u{2028}' || c
        == '\u{2029}' || c == '\u{202f}' || c == '\u{205f}' || c == '\u{3000}'
}

/// The bounds of `s` once white space is trimmed from both ends.
pub fn trim_bounds(s: &[char]) -> (bounds: (usize, usize))
    ensures
        bounds.0 <= bounds.1 <= s@.len(),
        trim(s@) == s@.subrange(bounds.0 as int, bounds.1 as int),
{
    let n = s.len();
    let mut start: usize = 0;
    assert(s@.skip(0) =~= s@);
    while start < n && white_space(s[start])
        invariant
            n == s@.len(),
            start <= n,
            trim_start(s@) == trim_start(s@.skip(start as int)),
        decreases n - start,
    {
        assert(s@.skip(start as int).skip(1) =~= s@.skip(start + 1));
        start = start + 1;
    }
    let mut end: usize = n;
    assert(s@.skip(start as int) =~= s@.subrange(start as int, n as int));
    while end > start && white_space(s[end - 1])
        invariant
            n == s@.len(),
            start <= end <= n,
            trim_start(s@) == s@.subrange(start as int, n as int),
            trim(s@) == trim_end(s@.subrange(start as int, end as int)),
        decreases end - start,
    {
        assert(s@.subrange(start as int, end as int).drop_last() =~= s@.subrange(
            start as int,
            end - 1,
        ));
        end = end - 1;
    }
    (start, end)
}

/// The decimal digit for `d`.
pub open spec fn digit(d: nat) -> char {
    if d == 0 {
        '0'
    } else if d == 1 {
        '1'
    } else if d == 2 {
        '2'
    } else if d == 3 {
        '3'
    } else if d == 4 {
        '4'
    } else if d == 5 {
        '5'
    } else if d == 6 {
        '6'
    } else if d == 7 {
        '7'
    } else if d == 8 {
        '8'
    } else {
        '9'
    }
}

/// `n` written in decimal, as `{}` formats it.
pub open spec fn decimal(n: nat) -> Seq<char>
    decreases n,
{
    if n < 10 {
        seq![digit(n)]
    } else {
        decimal(n / 10).push(digit(n % 10))
    }
}

/// The decimal digit for `d`, which is below ten.
fn digit_char(d: usize) -> (c: char)
    requires
        d < 10,
    ensures
        c == digit(d as nat),
{
    if d == 0 {
        '0'
    } else if d == 1 {
        '1'
    } else if d == 2 {
        '2'
    } else if d == 3 {
        '3'
    } else if d == 4 {
        '4'
    } else if d == 5 {
        '5'
    } else if d == 6 {
        '6'
    } else if d == 7 {
        '7'
    } else if d == 8 {
        '8'
    } else {
        '9'
    }
}

/// Append `n` in decimal to `out`.
pub fn push_decimal(out: &mut Vec<char>, n: usize)
    ensures
        final(out)@ == old(out)@ + decimal(n as nat),
    decreases n,
{
    if n >= 10 {
        push_decimal(out, n / 10);
    }
    out.push(digit_char(n % 10));
    assert(final(out)@ =~= old(out)@ + decimal(n as nat)) by {
        if n >= 10 {
            assert(decimal(n as nat) == decimal((n / 10) as nat).push(digit((n % 10) as nat)));
        }
    }
}

/// How one text compares with another, by characters from the left
/// (the order `str` has: byte order, which is character order).
#[derive(Clone, Copy, Debug, PartialEq, Eq, Structural)]
pub enum Order {
    Less,
    Equal,
    Greater,
}

/// Whether `a` comes before `b`: at the first place they differ, `a`'s
/// character is the lower, or `a` is a proper prefix of `b`.
pub open spec fn lex_lt(a: Seq<char>, b: Seq<char>) -> bool {
    exists|k: int|
        0 <= k <= a.len() && k <= b.len() && #[trigger] a.take(k) == b.take(k) && ((k == a.len()
            && k < b.len()) || (k < a.len() && k < b.len() && a[k] < b[k]))
}

/// How `a` compares with `b`.
pub open spec fn spec_compare(a: Seq<char>, b: Seq<char>) -> Order {
    if a == b {
        Order::Equal
    } else if lex_lt(a, b) {
        Order::Less
    } else {
        Order::Greater
    }
}

/// Two distinct texts are ordered one way or the other, and never both.
pub proof fn lemma_lex_total(a: Seq<char>, b: Seq<char>)
    ensures
        a != b ==> (lex_lt(a, b) || lex_lt(b, a)),
        !(lex_lt(a, b) && lex_lt(b, a)),
        !lex_lt(a, a),
{
    let n = if a.len() <= b.len() { a.len() } else { b.len() };
    // The first place they differ.
    if a != b {
        lemma_first_difference(a, b, 0);
        let k = first_difference(a, b, 0);
        assert(a.take(k) =~= b.take(k));
        if k < a.len() && k < b.len() {
            assert(a[k] != b[k]);
            if a[k] < b[k] {
                assert(lex_lt(a, b));
            } else {
                assert(b[k] < a[k]);
                assert(b.take(k) == a.take(k));
                assert(lex_lt(b, a));
            }
        } else if k == a.len() && k < b.len() {
            assert(lex_lt(a, b));
        } else if k == b.len() && k < a.len() {
            assert(b.take(k) == a.take(k));
            assert(lex_lt(b, a));
        } else {
            assert(a =~= b) by {
                assert(a.take(k) =~= a);
                assert(b.take(k) =~= b);
            }
        }
    }
    if lex_lt(a, b) && lex_lt(b, a) {
        let k1 = choose|k: int|
            0 <= k <= a.len() && k <= b.len() && #[trigger] a.take(k) == b.take(k) && ((k == a.len()
                && k < b.len()) || (k < a.len() && k < b.len() && a[k] < b[k]));
        let k2 = choose|k: int|
            0 <= k <= b.len() && k <= a.len() && #[trigger] b.take(k) == a.take(k) && ((k == b.len()
                && k < a.len()) || (k < b.len() && k < a.len() && b[k] < a[k]));
        lemma_take_agree(a, b, k1, k2);
    }
    if lex_lt(a, a) {
        let k = choose|k: int|
            0 <= k <= a.len() && k <= a.len() && #[trigger] a.take(k) == a.take(k) && ((k == a.len()
                && k < a.len()) || (k < a.len() && k < a.len() && a[k] < a[k]));
    }
}

/// Where two prefixes agree, the shorter one agrees too.
proof fn lemma_take_agree(a: Seq<char>, b: Seq<char>, k1: int, k2: int)
    requires
        0 <= k1 <= a.len(),
        k1 <= b.len(),
        0 <= k2 <= a.len(),
        k2 <= b.len(),
        a.take(k1) == b.take(k1),
        a.take(k2) == b.take(k2),
    ensures
        forall|j: int| 0 <= j < k1 ==> a[j] == b[j],
        forall|j: int| 0 <= j < k2 ==> a[j] == b[j],
{
    assert forall|j: int| 0 <= j < k1 implies a[j] == b[j] by {
        assert(a.take(k1)[j] == a[j]);
        assert(b.take(k1)[j] == b[j]);
    }
    assert forall|j: int| 0 <= j < k2 implies a[j] == b[j] by {
        assert(a.take(k2)[j] == a[j]);
        assert(b.take(k2)[j] == b[j]);
    }
}

/// The first index, from `from` on, where `a` and `b` differ or one ends.
spec fn first_difference(a: Seq<char>, b: Seq<char>, from: int) -> int
    decreases a.len() - from,
{
    if from >= a.len() || from >= b.len() || a[from] != b[from] {
        from
    } else {
        first_difference(a, b, from + 1)
    }
}

proof fn lemma_first_difference(a: Seq<char>, b: Seq<char>, from: int)
    requires
        0 <= from <= a.len(),
        from <= b.len(),
        forall|j: int| 0 <= j < from ==> a[j] == b[j],
    ensures
        from <= first_difference(a, b, from) <= a.len(),
        first_difference(a, b, from) <= b.len(),
        forall|j: int| 0 <= j < first_difference(a, b, from) ==> a[j] == b[j],
        first_difference(a, b, from) < a.len() && first_difference(a, b, from) < b.len() ==> a[first_difference(a, b, from)]
            != b[first_difference(a, b, from)],
    decreases a.len() - from,
{
    if !(from >= a.len() || from >= b.len() || a[from] != b[from]) {
        lemma_first_difference(a, b, from + 1);
    }
}

/// The order is transitive.
pub proof fn lemma_lex_transitive(a: Seq<char>, b: Seq<char>, c: Seq<char>)
    requires
        lex_lt(a, b),
        lex_lt(b, c),
    ensures
        lex_lt(a, c),
{
    let k1 = choose|k: int|
        0 <= k <= a.len() && k <= b.len() && #[trigger] a.take(k) == b.take(k) && ((k == a.len() && k
            < b.len()) || (k < a.len() && k < b.len() && a[k] < b[k]));
    let k2 = choose|k: int|
        0 <= k <= b.len() && k <= c.len() && #[trigger] b.take(k) == c.take(k) && ((k == b.len() && k
            < c.len()) || (k < b.len() && k < c.len() && b[k] < c[k]));
    let k = if k1 <= k2 { k1 } else { k2 };
    assert forall|j: int| 0 <= j < k implies a[j] == c[j] by {
        assert(a.take(k1)[j] == b.take(k1)[j]);
        assert(b.take(k2)[j] == c.take(k2)[j]);
    }
    assert(a.take(k) =~= c.take(k));
    if k1 < k2 {
        if k1 < a.len() {
            assert(b.take(k2)[k1] == c.take(k2)[k1]);
        }
    } else if k2 < k1 {
        assert(a.take(k1)[k2] == b.take(k1)[k2]);
    }
}

/// How `a` compares with `b`.
pub fn compare_chars(a: &[char], b: &[char]) -> (order: Order)
    ensures
        order == spec_compare(a@, b@),
{
    let n = if a.len() <= b.len() {
        a.len()
    } else {
        b.len()
    };
    let mut k: usize = 0;
    while k < n && a[k] == b[k]
        invariant
            n <= a@.len(),
            n <= b@.len(),
            n == a@.len() || n == b@.len(),
            k <= n,
            forall|j: int| 0 <= j < k ==> a@[j] == b@[j],
        decreases n - k,
    {
        k = k + 1;
    }
    proof {
        assert(a@.take(k as int) =~= b@.take(k as int));
        lemma_lex_total(a@, b@);
    }
    if k < n {
        if a[k] < b[k] {
            assert(lex_lt(a@, b@));
            Order::Less
        } else {
            proof {
                assert(a@[k as int] != b@[k as int]);
                assert(b@[k as int] < a@[k as int]);
                assert(b@.take(k as int) == a@.take(k as int));
                assert(lex_lt(b@, a@));
            }
            Order::Greater
        }
    } else if a.len() == b.len() {
        assert(a@ =~= b@);
        Order::Equal
    } else if a.len() < b.len() {
        assert(a@.take(k as int) =~= a@);
        assert(lex_lt(a@, b@));
        Order::Less
    } else {
        proof {
            assert(b@.take(k as int) == a@.take(k as int));
            assert(lex_lt(b@, a@));
        }
        Order::Greater
    }
}

} // verus!
