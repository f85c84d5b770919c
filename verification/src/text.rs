//! Line-level text handling: splitting raw file content into non-blank text
//! lines, joining a chunk's lines into one request string, and the truncated
//! preview shown for a chunk.

use crate::segment::str_views;
use vstd::prelude::*;
use vstd::string::*;

verus! {

/// The characters with the Unicode `White_Space` property: what `str::trim`
/// removes, so a line of nothing but these is blank.
pub open spec fn is_ws_char(c: char) -> bool {
    ('\u{0009}' <= c && c <= '\u{000D}') || c == ' ' || c == '\u{0085}' || c == '\u{00A0}'
        || c == '\u{1680}' || ('\u{2000}' <= c && c <= '\u{200A}') || c == '\u{2028}' || c
        == '\u{2029}' || c == '\u{202F}' || c == '\u{205F}' || c == '\u{3000}'
}

/// A line with no visible content.
pub open spec fn spec_is_blank(l: Seq<char>) -> bool {
    forall|i: int| 0 <= i < l.len() ==> is_ws_char(#[trigger] l[i])
}

/// A newline-terminated segment with its trailing carriage return stripped,
/// as when the source file uses CRLF line endings.
pub open spec fn spec_strip_cr(l: Seq<char>) -> Seq<char> {
    if l.len() > 0 && l.last() == '\r' {
        l.drop_last()
    } else {
        l
    }
}

/// `s` split at every newline; the separators belong to no segment, and the
/// result always holds at least one (possibly empty) segment.
pub open spec fn spec_split_newlines(s: Seq<char>) -> Seq<Seq<char>>
    decreases s.len(),
{
    if s.len() == 0 {
        seq![Seq::<char>::empty()]
    } else if s[0] == '\n' {
        seq![Seq::<char>::empty()] + spec_split_newlines(s.drop_first())
    } else {
        let rest = spec_split_newlines(s.drop_first());
        seq![seq![s[0]] + rest[0]] + rest.drop_first()
    }
}

/// `l` if it has visible content, nothing otherwise.
pub open spec fn spec_keep_line(l: Seq<char>) -> Seq<Seq<char>> {
    if spec_is_blank(l) {
        Seq::empty()
    } else {
        seq![l]
    }
}

/// Segment `i` as it is kept: a segment that a newline terminated loses one
/// trailing carriage return; the final, unterminated segment is kept
/// verbatim.
pub open spec fn spec_line_at(segs: Seq<Seq<char>>, i: int) -> Seq<char> {
    if i < segs.len() - 1 {
        spec_strip_cr(segs[i])
    } else {
        segs[i]
    }
}

/// The segments of `s` as they are kept, before the blank filter.
pub open spec fn spec_stripped_segments(s: Seq<char>) -> Seq<Seq<char>> {
    Seq::new(spec_split_newlines(s).len(), |i: int| spec_line_at(spec_split_newlines(s), i))
}

/// The text lines of raw file content: split at newlines, carriage returns
/// before those newlines stripped, whitespace-only lines dropped.
pub open spec fn spec_text_lines(s: Seq<char>) -> Seq<Seq<char>> {
    spec_stripped_segments(s).filter(|l: Seq<char>| !spec_is_blank(l))
}

/// The text lines of the yet unscanned tail of the content.
pub open spec fn spec_tail_lines(s: Seq<char>, start: int) -> Seq<Seq<char>> {
    spec_text_lines(s.skip(start))
}

proof fn lemma_split_len_pos(s: Seq<char>)
    ensures
        spec_split_newlines(s).len() >= 1,
    decreases s.len(),
{
    if s.len() > 0 {
        lemma_split_len_pos(s.drop_first());
    }
}

/// Splitting a newline-free sequence yields that sequence alone.
proof fn lemma_split_no_newline(a: Seq<char>)
    requires
        forall|k: int| 0 <= k < a.len() ==> a[k] != '\n',
    ensures
        spec_split_newlines(a) == seq![a],
    decreases a.len(),
{
    if a.len() > 0 {
        lemma_split_no_newline(a.drop_first());
        let rest = spec_split_newlines(a.drop_first());
        assert(seq![a[0]] + rest[0] =~= a);
        assert(rest.drop_first() =~= Seq::<Seq<char>>::empty());
        assert(spec_split_newlines(a) =~= seq![a]);
    } else {
        assert(a =~= Seq::<char>::empty());
        assert(spec_split_newlines(a) =~= seq![a]);
    }
}

/// A newline-free prefix extends the first segment of whatever follows.
proof fn lemma_split_prefix(a: Seq<char>, b: Seq<char>)
    requires
        forall|k: int| 0 <= k < a.len() ==> a[k] != '\n',
    ensures
        spec_split_newlines(a + b) == seq![a + spec_split_newlines(b)[0]]
            + spec_split_newlines(b).drop_first(),
    decreases a.len(),
{
    lemma_split_len_pos(b);
    if a.len() == 0 {
        assert(a + b =~= b);
        assert(a + spec_split_newlines(b)[0] =~= spec_split_newlines(b)[0]);
        assert(seq![spec_split_newlines(b)[0]] + spec_split_newlines(b).drop_first()
            =~= spec_split_newlines(b));
    } else {
        let s = a + b;
        assert(s[0] == a[0]);
        assert(s.len() > 0 && s[0] != '\n');
        assert(s.drop_first() =~= a.drop_first() + b);
        lemma_split_prefix(a.drop_first(), b);
        let rest = spec_split_newlines(a.drop_first() + b);
        let sb = spec_split_newlines(b);
        assert(rest == seq![a.drop_first() + sb[0]] + sb.drop_first());
        assert(rest[0] == a.drop_first() + sb[0]);
        assert(seq![s[0]] + rest[0] =~= a + sb[0]);
        assert(rest.drop_first() =~= sb.drop_first());
        assert(spec_split_newlines(s) =~= seq![a + sb[0]] + sb.drop_first());
    }
}

/// Scanning past a newline at `i` peels one whole segment off the tail.
proof fn lemma_tail_lines_step(s: Seq<char>, start: int, i: int)
    requires
        0 <= start <= i < s.len(),
        s[i] == '\n',
        forall|k: int| start <= k < i ==> s[k] != '\n',
    ensures
        spec_tail_lines(s, start) == spec_keep_line(spec_strip_cr(s.subrange(start, i)))
            + spec_tail_lines(s, i + 1),
{
    let line = s.subrange(start, i);
    let after = s.skip(i + 1);
    let b = seq!['\n'] + after;
    assert(s.skip(start) =~= line + b);
    assert forall|k: int| 0 <= k < line.len() implies line[k] != '\n' by {
        assert(line[k] == s[start + k]);
    }
    lemma_split_prefix(line, b);
    assert(b[0] == '\n');
    assert(b.drop_first() =~= after);
    lemma_split_len_pos(after);
    let sa = spec_split_newlines(after);
    assert(spec_split_newlines(b) =~= seq![Seq::<char>::empty()] + sa);
    assert(spec_split_newlines(b)[0] =~= Seq::<char>::empty());
    assert(line + spec_split_newlines(b)[0] =~= line);
    assert(spec_split_newlines(b).drop_first() =~= sa);
    assert(spec_split_newlines(s.skip(start)) == seq![line] + sa);
    let keep = |l: Seq<char>| !spec_is_blank(l);
    assert(spec_stripped_segments(s.skip(start)) =~= seq![spec_strip_cr(line)]
        + spec_stripped_segments(s.skip(i + 1)));
    Seq::filter_distributes_over_add(
        seq![spec_strip_cr(line)],
        spec_stripped_segments(s.skip(i + 1)),
        keep,
    );
    lemma_filter_singleton(spec_strip_cr(line), keep);
    assert(seq![spec_strip_cr(line)].filter(keep) =~= spec_keep_line(spec_strip_cr(line)));
}

/// Filtering a single line keeps it exactly when the predicate holds.
proof fn lemma_filter_singleton(l: Seq<char>, keep: spec_fn(Seq<char>) -> bool)
    ensures
        seq![l].filter(keep) == if keep(l) {
            seq![l]
        } else {
            Seq::<Seq<char>>::empty()
        },
{
    reveal_with_fuel(Seq::filter, 3);
    assert(seq![l].drop_last() =~= Seq::<Seq<char>>::empty());
    assert(seq![l].last() == l);
    if keep(l) {
        assert(seq![l].filter(keep) =~= seq![l]);
    } else {
        assert(seq![l].filter(keep) =~= Seq::<Seq<char>>::empty());
    }
}

/// A newline-free tail is at most one more line, kept verbatim: with no
/// newline after it, a trailing carriage return belongs to the line.
proof fn lemma_tail_lines_last(s: Seq<char>, start: int)
    requires
        0 <= start <= s.len(),
        forall|k: int| start <= k < s.len() ==> s[k] != '\n',
    ensures
        spec_tail_lines(s, start) == spec_keep_line(s.subrange(start, s.len() as int)),
{
    let line = s.subrange(start, s.len() as int);
    assert(s.skip(start) =~= line);
    assert forall|k: int| 0 <= k < line.len() implies line[k] != '\n' by {
        assert(line[k] == s[start + k]);
    }
    lemma_split_no_newline(line);
    let keep = |l: Seq<char>| !spec_is_blank(l);
    assert(spec_stripped_segments(line) =~= seq![line]);
    lemma_filter_singleton(line, keep);
    assert(seq![line].filter(keep) =~= spec_keep_line(line));
}

/// Whether two string slices hold the same characters.
pub fn str_eq(a: &str, b: &str) -> (r: bool)
    ensures
        r == (a@ == b@),
{
    let na = a.unicode_len();
    let nb = b.unicode_len();
    if na != nb {
        return false;
    }
    let mut i: usize = 0;
    while i < na
        invariant
            i <= na,
            na == a@.len(),
            na == b@.len(),
            forall|k: int| 0 <= k < i ==> a@[k] == b@[k],
        decreases na - i,
    {
        if a.get_char(i) != b.get_char(i) {
            return false;
        }
        i = i + 1;
    }
    proof {
        assert(a@ =~= b@);
    }
    true
}

/// Whether `c` counts as whitespace for the blank-line check.
fn is_ws(c: char) -> (r: bool)
    ensures
        r == is_ws_char(c),
{
    ('\u{0009}' <= c && c <= '\u{000D}') || c == ' ' || c == '\u{0085}' || c == '\u{00A0}'
        || c == '\u{1680}' || ('\u{2000}' <= c && c <= '\u{200A}') || c == '\u{2028}' || c
        == '\u{2029}' || c == '\u{202F}' || c == '\u{205F}' || c == '\u{3000}'
}

/// Whether `l` holds no visible content.
pub fn is_blank_str(l: &str) -> (r: bool)
    ensures
        r == spec_is_blank(l@),
{
    let n = l.unicode_len();
    let mut i: usize = 0;
    while i < n
        invariant
            i <= n,
            n == l@.len(),
            forall|k: int| 0 <= k < i ==> is_ws_char(#[trigger] l@[k]),
        decreases n - i,
    {
        if !is_ws(l.get_char(i)) {
            return false;
        }
        i = i + 1;
    }
    true
}

/// Splits raw file content into its non-blank text lines, in order: segments
/// between newlines, trailing carriage returns stripped, whitespace-only
/// segments dropped.
pub fn non_blank_lines(content: &str) -> (lines: Vec<String>)
    ensures
        str_views(lines@) == spec_text_lines(content@),
{
    let n = content.unicode_len();
    let mut lines: Vec<String> = Vec::new();
    let mut start: usize = 0;
    let mut i: usize = 0;
    proof {
        assert(content@.skip(0) =~= content@);
        assert(str_views(lines@) =~= Seq::<Seq<char>>::empty());
    }
    while i < n
        invariant
            start <= i <= n,
            n == content@.len(),
            forall|k: int| start <= k < i ==> content@[k] != '\n',
            spec_text_lines(content@) == str_views(lines@) + spec_tail_lines(
                content@,
                start as int,
            ),
        decreases n - i,
    {
        if content.get_char(i) == '\n' {
            proof {
                lemma_tail_lines_step(content@, start as int, i as int);
            }
            push_kept_line(&mut lines, content, start, i);
            start = i + 1;
        }
        i = i + 1;
    }
    proof {
        lemma_tail_lines_last(content@, start as int);
    }
    let last = content.substring_char(start, n);
    push_if_visible(&mut lines, last);
    lines
}

/// Finalizes a newline-terminated segment `content[start..end]`: strips a
/// trailing carriage return and keeps the line unless it is blank.
fn push_kept_line(lines: &mut Vec<String>, content: &str, start: usize, end: usize)
    requires
        start <= end <= content@.len(),
    ensures
        str_views(final(lines)@) == str_views(old(lines)@) + spec_keep_line(
            spec_strip_cr(content@.subrange(start as int, end as int)),
        ),
{
    let mut piece = content.substring_char(start, end);
    let plen = piece.unicode_len();
    if plen > 0 && piece.get_char(plen - 1) == '\r' {
        piece = piece.substring_char(0, plen - 1);
        proof {
            assert(piece@ =~= spec_strip_cr(content@.subrange(start as int, end as int)));
        }
    } else {
        proof {
            assert(piece@ =~= spec_strip_cr(content@.subrange(start as int, end as int)));
        }
    }
    push_if_visible(lines, piece);
}

/// Keeps `piece` as a line unless it is blank.
fn push_if_visible(lines: &mut Vec<String>, piece: &str)
    ensures
        str_views(final(lines)@) == str_views(old(lines)@) + spec_keep_line(piece@),
{
    if !is_blank_str(piece) {
        lines.push(String::from_str(piece));
        proof {
            assert(str_views(lines@) =~= str_views(old(lines)@) + seq![piece@]);
        }
    } else {
        proof {
            assert(str_views(lines@) + spec_keep_line(piece@) =~= str_views(lines@));
        }
    }
}

/// A chunk's lines joined into one request string, with a single space
/// between consecutive lines.
pub open spec fn spec_join_lines(lines: Seq<Seq<char>>) -> Seq<char>
    decreases lines.len(),
{
    if lines.len() == 0 {
        Seq::empty()
    } else {
        lines[0] + spec_join_rest(lines.drop_first())
    }
}

/// The remaining lines of a join, each preceded by the separating space.
pub open spec fn spec_join_rest(lines: Seq<Seq<char>>) -> Seq<char>
    decreases lines.len(),
{
    if lines.len() == 0 {
        Seq::empty()
    } else {
        seq![' '] + lines[0] + spec_join_rest(lines.drop_first())
    }
}

/// Joins `lines` with single spaces.
pub fn join_lines(lines: &Vec<String>) -> (r: String)
    ensures
        r@ == spec_join_lines(str_views(lines@)),
{
    let ghost vs = str_views(lines@);
    let n = lines.len();
    let mut r = String::new();
    if n == 0 {
        return r;
    }
    r.append(lines[0].as_str());
    let mut i: usize = 1;
    proof {
        assert(vs.drop_first() =~= vs.skip(1));
        assert(Seq::<char>::empty() + vs[0] =~= vs[0]);
        assert(r@ + spec_join_rest(vs.skip(1)) =~= vs[0] + spec_join_rest(vs.drop_first()));
    }
    while i < n
        invariant
            1 <= i <= n,
            n == lines@.len(),
            vs == str_views(lines@),
            spec_join_lines(vs) == r@ + spec_join_rest(vs.skip(i as int)),
        decreases n - i,
    {
        let ghost r0 = r@;
        r.append(" ");
        r.append(lines[i].as_str());
        proof {
            reveal_strlit(" ");
            assert(" "@ =~= seq![' ']);
            assert(vs.skip(i as int)[0] == vs[i as int]);
            assert(vs.skip(i as int).drop_first() =~= vs.skip(i + 1));
            assert(r0 + (seq![' '] + vs[i as int] + spec_join_rest(vs.skip(i + 1))) =~= r@
                + spec_join_rest(vs.skip(i + 1)));
        }
        i = i + 1;
    }
    proof {
        assert(vs.skip(n as int) =~= Seq::<Seq<char>>::empty());
        assert(r@ + spec_join_rest(vs.skip(n as int)) =~= r@);
    }
    r
}

/// How many characters of a chunk's text are shown in progress and error
/// messages.
pub const PREVIEW_CHARS: usize = 60;

/// The head of `s` shown in progress and error messages: at most
/// `PREVIEW_CHARS` characters.
pub open spec fn spec_preview(s: Seq<char>) -> Seq<char> {
    if s.len() <= PREVIEW_CHARS {
        s
    } else {
        s.take(PREVIEW_CHARS as int)
    }
}

/// The truncated preview of `s`.
pub fn preview_of(s: &str) -> (r: String)
    ensures
        r@ == spec_preview(s@),
{
    let n = s.unicode_len();
    if n <= PREVIEW_CHARS {
        String::from_str(s)
    } else {
        let head = s.substring_char(0, PREVIEW_CHARS);
        proof {
            assert(head@ =~= s@.take(PREVIEW_CHARS as int));
        }
        String::from_str(head)
    }
}

} // verus!
