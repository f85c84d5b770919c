//! Per-chunk file names and their ordering.
//!
//! A chunk's audio is stored as `tmp_<run timestamp>_chunk<index>.flac`, with
//! the index zero-padded to six digits.  The padding is load-bearing: a
//! lexical sort of the names reproduces chunk emission order, which is what
//! the assembler relies on to concatenate the audio in the right order.

use vstd::prelude::*;
use vstd::string::*;

verus! {

/// The decimal digit character for `d` (`d < 10`).
pub open spec fn digit_char(d: nat) -> char {
    if d == 0 {
        '0'
    } else if d == 1 {
        '1'
    } else if d == 2 {
        '2'
    } else if d == 3 {
        '3'
    } else if d == 4 {
        '4'
    } else if d == 5 {
        '5'
    } else if d == 6 {
        '6'
    } else if d == 7 {
        '7'
    } else if d == 8 {
        '8'
    } else {
        '9'
    }
}

/// The decimal digits of `n`, zero-padded to exactly `width` characters, most
/// significant digit first.
pub open spec fn spec_padded(n: nat, width: nat) -> Seq<char>
    decreases width,
{
    if width == 0 {
        Seq::empty()
    } else {
        spec_padded(n / 10, (width - 1) as nat) + seq![digit_char(n % 10)]
    }
}

/// The decimal digits of `n` without padding.
pub open spec fn spec_decimal(n: nat) -> Seq<char>
    decreases n,
{
    if n < 10 {
        seq![digit_char(n)]
    } else {
        spec_decimal(n / 10) + seq![digit_char(n % 10)]
    }
}

/// Strict lexicographic order on character sequences, by code point.
pub open spec fn lex_lt(a: Seq<char>, b: Seq<char>) -> bool
    decreases a.len(), b.len(),
{
    if b.len() == 0 {
        false
    } else if a.len() == 0 {
        true
    } else if a[0] < b[0] {
        true
    } else if a[0] == b[0] {
        lex_lt(a.drop_first(), b.drop_first())
    } else {
        false
    }
}

/// Reflexive lexicographic order.
pub open spec fn lex_le(a: Seq<char>, b: Seq<char>) -> bool {
    lex_lt(a, b) || a == b
}

/// The name of the temporary audio file for chunk `index` of the run stamped
/// `ts`.
pub open spec fn spec_chunk_file_name(ts: Seq<char>, index: nat) -> Seq<char> {
    "tmp_"@ + ts + "_chunk"@ + spec_padded(index, 6) + ".flac"@
}

/// Ten to the `w`-th power.
pub open spec fn pow10(w: nat) -> nat
    decreases w,
{
    if w == 0 {
        1
    } else {
        10 * pow10((w - 1) as nat)
    }
}

/// Zero-padding to `width` always yields exactly `width` characters.
pub proof fn lemma_padded_len(n: nat, width: nat)
    ensures
        spec_padded(n, width).len() == width,
    decreases width,
{
    if width > 0 {
        lemma_padded_len(n / 10, (width - 1) as nat);
    }
}

/// A shared prefix never decides the lexicographic order.
proof fn lemma_lex_lt_prefix(p: Seq<char>, x: Seq<char>, y: Seq<char>)
    requires
        lex_lt(x, y),
    ensures
        lex_lt(p + x, p + y),
    decreases p.len(),
{
    if p.len() == 0 {
        assert(p + x =~= x);
        assert(p + y =~= y);
    } else {
        lemma_lex_lt_prefix(p.drop_first(), x, y);
        assert((p + x).drop_first() =~= p.drop_first() + x);
        assert((p + y).drop_first() =~= p.drop_first() + y);
        assert((p + x)[0] == (p + y)[0]);
    }
}

/// Appending anything after two equally long, lexicographically ordered
/// sequences keeps them ordered: the order is decided before the suffixes.
proof fn lemma_lex_lt_append(x: Seq<char>, y: Seq<char>, s1: Seq<char>, s2: Seq<char>)
    requires
        lex_lt(x, y),
        x.len() == y.len(),
    ensures
        lex_lt(x + s1, y + s2),
    decreases x.len(),
{
    assert(x.len() > 0);
    assert((x + s1)[0] == x[0]);
    assert((y + s2)[0] == y[0]);
    if x[0] == y[0] {
        lemma_lex_lt_append(x.drop_first(), y.drop_first(), s1, s2);
        assert((x + s1).drop_first() =~= x.drop_first() + s1);
        assert((y + s2).drop_first() =~= y.drop_first() + s2);
    }
}

/// Digit characters order as the digits they stand for.
proof fn lemma_digit_char_lt(d1: nat, d2: nat)
    requires
        d1 < d2 < 10,
    ensures
        digit_char(d1) < digit_char(d2),
{
}

/// Zero-padded decimals of a fixed width sort lexically into numeric order.
pub proof fn lemma_padded_lt(i: nat, j: nat, width: nat)
    requires
        i < j,
        j < pow10(width),
    ensures
        lex_lt(spec_padded(i, width), spec_padded(j, width)),
    decreases width,
{
    if width == 0 {
        assert(false);
    } else {
        let w1 = (width - 1) as nat;
        let qi = i / 10;
        let ri = i % 10;
        let qj = j / 10;
        let rj = j % 10;
        vstd::arithmetic::div_mod::lemma_fundamental_div_mod(i as int, 10);
        vstd::arithmetic::div_mod::lemma_fundamental_div_mod(j as int, 10);
        vstd::arithmetic::div_mod::lemma_multiply_divide_lt(j as int, 10, pow10(w1) as int);
        lemma_padded_len(qi, w1);
        lemma_padded_len(qj, w1);
        if qi == qj {
            assert(ri < rj);
            lemma_digit_char_lt(ri, rj);
            assert(lex_lt(seq![digit_char(ri)], seq![digit_char(rj)]));
            lemma_lex_lt_prefix(spec_padded(qi, w1), seq![digit_char(ri)], seq![digit_char(rj)]);
            assert(spec_padded(qj, w1) + seq![digit_char(rj)] == spec_padded(qi, w1) + seq![
                digit_char(rj),
            ]);
        } else {
            assert(qi < qj);
            lemma_padded_lt(qi, qj, w1);
            lemma_lex_lt_append(
                spec_padded(qi, w1),
                spec_padded(qj, w1),
                seq![digit_char(ri)],
                seq![digit_char(rj)],
            );
        }
    }
}

/// For one run timestamp, the per-chunk file names sort lexically into chunk
/// index order: the name of an earlier chunk is lexically smaller.
pub proof fn lemma_chunk_names_ordered(ts: Seq<char>, i: nat, j: nat)
    requires
        i < j <= 999999,
    ensures
        lex_lt(spec_chunk_file_name(ts, i), spec_chunk_file_name(ts, j)),
{
    assert(pow10(0) == 1);
    assert(pow10(1) == 10);
    assert(pow10(2) == 100);
    assert(pow10(3) == 1000);
    assert(pow10(4) == 10000);
    assert(pow10(5) == 100000);
    assert(pow10(6) == 1000000);
    lemma_padded_lt(i, j, 6);
    lemma_padded_len(i, 6);
    lemma_padded_len(j, 6);
    lemma_lex_lt_append(spec_padded(i, 6), spec_padded(j, 6), ".flac"@, ".flac"@);
    let p = "tmp_"@ + ts + "_chunk"@;
    lemma_lex_lt_prefix(p, spec_padded(i, 6) + ".flac"@, spec_padded(j, 6) + ".flac"@);
    assert(spec_chunk_file_name(ts, i) =~= p + (spec_padded(i, 6) + ".flac"@));
    assert(spec_chunk_file_name(ts, j) =~= p + (spec_padded(j, 6) + ".flac"@));
}

/// The lexicographic order is transitive.
pub proof fn lemma_lex_lt_trans(a: Seq<char>, b: Seq<char>, c: Seq<char>)
    requires
        lex_lt(a, b),
        lex_lt(b, c),
    ensures
        lex_lt(a, c),
    decreases a.len(),
{
    assert(b.len() > 0);
    assert(c.len() > 0);
    if a.len() > 0 {
        if a[0] == b[0] && b[0] == c[0] {
            lemma_lex_lt_trans(a.drop_first(), b.drop_first(), c.drop_first());
        }
    }
}

/// The lexicographic order is total: of two sequences, either they are equal
/// or one is strictly smaller.
pub proof fn lemma_lex_trichotomy(a: Seq<char>, b: Seq<char>)
    ensures
        lex_lt(a, b) || lex_lt(b, a) || a == b,
    decreases a.len(),
{
    if a.len() == 0 {
        if b.len() == 0 {
            assert(a =~= b);
        }
    } else if b.len() > 0 {
        if a[0] == b[0] {
            lemma_lex_trichotomy(a.drop_first(), b.drop_first());
            if a.drop_first() == b.drop_first() {
                assert(a.drop_first().len() == b.drop_first().len());
                assert(a.len() == b.len());
                assert forall|k: int| 0 <= k < a.len() implies a[k] == b[k] by {
                    if k > 0 {
                        assert(a.drop_first()[k - 1] == a[k]);
                        assert(b.drop_first()[k - 1] == b[k]);
                    }
                }
                assert(a =~= b);
            }
        }
    }
}

/// A shared prefix of `i` characters leaves the lexicographic comparison to
/// the suffixes.
proof fn lemma_lex_lt_common_prefix(a: Seq<char>, b: Seq<char>, i: int)
    requires
        0 <= i <= a.len(),
        i <= b.len(),
        forall|k: int| 0 <= k < i ==> a[k] == b[k],
    ensures
        lex_lt(a, b) == lex_lt(a.skip(i), b.skip(i)),
    decreases i,
{
    if i == 0 {
        assert(a.skip(0) =~= a);
        assert(b.skip(0) =~= b);
    } else {
        assert(a[0] == b[0]);
        lemma_lex_lt_common_prefix(a.drop_first(), b.drop_first(), i - 1);
        assert(a.drop_first().skip(i - 1) =~= a.skip(i));
        assert(b.drop_first().skip(i - 1) =~= b.skip(i));
    }
}

/// Compares two string slices in lexicographic character order.
pub fn str_lex_lt(a: &str, b: &str) -> (r: bool)
    ensures
        r == lex_lt(a@, b@),
{
    let na = a.unicode_len();
    let nb = b.unicode_len();
    let m = if na < nb {
        na
    } else {
        nb
    };
    let mut i: usize = 0;
    while i < m
        invariant
            i <= m,
            m == if na < nb {
                na
            } else {
                nb
            },
            na == a@.len(),
            nb == b@.len(),
            forall|k: int| 0 <= k < i ==> a@[k] == b@[k],
        decreases m - i,
    {
        let ca = a.get_char(i);
        let cb = b.get_char(i);
        if ca != cb {
            proof {
                lemma_lex_lt_common_prefix(a@, b@, i as int);
                assert(a@.skip(i as int)[0] == a@[i as int]);
                assert(b@.skip(i as int)[0] == b@[i as int]);
            }
            return ca < cb;
        }
        i = i + 1;
    }
    proof {
        lemma_lex_lt_common_prefix(a@, b@, m as int);
        if na < nb {
            assert(a@.skip(m as int) =~= Seq::<char>::empty());
            assert(b@.skip(m as int).len() > 0);
        } else if na == nb {
            assert(b@.skip(m as int) =~= Seq::<char>::empty());
        } else {
            assert(b@.skip(m as int) =~= Seq::<char>::empty());
        }
    }
    na < nb
}

/// Whether `prefix` begins `s`.
pub fn str_starts_with(s: &str, prefix: &str) -> (r: bool)
    ensures
        r == prefix@.is_prefix_of(s@),
{
    let np = prefix.unicode_len();
    let ns = s.unicode_len();
    if np > ns {
        return false;
    }
    let mut i: usize = 0;
    while i < np
        invariant
            i <= np <= ns,
            np == prefix@.len(),
            ns == s@.len(),
            forall|k: int| 0 <= k < i ==> s@[k] == prefix@[k],
        decreases np - i,
    {
        if s.get_char(i) != prefix.get_char(i) {
            assert(!prefix@.is_prefix_of(s@));
            return false;
        }
        i = i + 1;
    }
    proof {
        assert(prefix@ =~= s@.subrange(0, np as int));
    }
    true
}

/// Whether `suffix` ends `s`.
pub fn str_ends_with(s: &str, suffix: &str) -> (r: bool)
    ensures
        r == suffix@.is_suffix_of(s@),
{
    let np = suffix.unicode_len();
    let ns = s.unicode_len();
    if np > ns {
        return false;
    }
    let off = ns - np;
    let mut i: usize = 0;
    while i < np
        invariant
            i <= np <= ns,
            off == ns - np,
            np == suffix@.len(),
            ns == s@.len(),
            forall|k: int| 0 <= k < i ==> s@[off + k] == suffix@[k],
        decreases np - i,
    {
        if s.get_char(off + i) != suffix.get_char(i) {
            assert(!suffix@.is_suffix_of(s@));
            return false;
        }
        i = i + 1;
    }
    proof {
        assert(suffix@ =~= s@.subrange(off as int, ns as int));
    }
    true
}

/// A name that looks like a per-chunk audio file left by this pipeline:
/// the temporary prefix and the audio extension.  The underscore is part of
/// the prefix, so an assembled output whose base name merely starts with
/// `tmp` is never mistaken for a chunk.
pub open spec fn spec_is_chunk_artifact_name(n: Seq<char>) -> bool {
    "tmp_"@.is_prefix_of(n) && ".flac"@.is_suffix_of(n)
}

/// A name that carries the temporary prefix; such files are removed by the
/// cleanup pass after a successful assembly.
pub open spec fn spec_is_tmp_name(n: Seq<char>) -> bool {
    "tmp_"@.is_prefix_of(n)
}

/// Whether `name` matches the per-chunk audio file pattern.
pub fn is_chunk_artifact_name(name: &str) -> (r: bool)
    ensures
        r == spec_is_chunk_artifact_name(name@),
{
    str_starts_with(name, "tmp_") && str_ends_with(name, ".flac")
}

/// Whether `name` carries the temporary prefix.
pub fn is_tmp_name(name: &str) -> (r: bool)
    ensures
        r == spec_is_tmp_name(name@),
{
    str_starts_with(name, "tmp_")
}

/// Every name the pipeline writes for a chunk matches the artifact pattern
/// that the assembler scans for.
pub proof fn lemma_chunk_name_is_artifact(ts: Seq<char>, index: nat)
    ensures
        spec_is_chunk_artifact_name(spec_chunk_file_name(ts, index)),
        spec_is_tmp_name(spec_chunk_file_name(ts, index)),
{
    reveal_strlit("tmp_");
    reveal_strlit(".flac");
    reveal_strlit("_chunk");
    let n = spec_chunk_file_name(ts, index);
    lemma_padded_len(index, 6);
    assert("tmp_"@ =~= n.subrange(0, 4));
    assert(".flac"@ =~= n.subrange(n.len() - 5, n.len() as int));
}

/// A one-character string slice holding the digit for `d`.
fn digit_str(d: usize) -> (r: &'static str)
    requires
        d < 10,
    ensures
        r@ =~= seq![digit_char(d as nat)],
{
    proof {
        reveal_strlit("0");
        reveal_strlit("1");
        reveal_strlit("2");
        reveal_strlit("3");
        reveal_strlit("4");
        reveal_strlit("5");
        reveal_strlit("6");
        reveal_strlit("7");
        reveal_strlit("8");
        reveal_strlit("9");
    }
    match d {
        0 => "0",
        1 => "1",
        2 => "2",
        3 => "3",
        4 => "4",
        5 => "5",
        6 => "6",
        7 => "7",
        8 => "8",
        _ => "9",
    }
}

/// Appends the decimal digits of `n`, zero-padded to `width` characters, to
/// `out`.
pub fn push_padded(out: &mut String, n: usize, width: usize)
    ensures
        final(out)@ == old(out)@ + spec_padded(n as nat, width as nat),
    decreases width,
{
    if width == 0 {
        proof {
            assert(old(out)@ + spec_padded(n as nat, 0) =~= old(out)@);
        }
    } else {
        push_padded(out, n / 10, width - 1);
        out.append(digit_str(n % 10));
        proof {
            assert(old(out)@ + (spec_padded((n / 10) as nat, (width - 1) as nat) + seq![
                digit_char((n % 10) as nat),
            ]) =~= (old(out)@ + spec_padded((n / 10) as nat, (width - 1) as nat)) + seq![
                digit_char((n % 10) as nat),
            ]);
        }
    }
}

/// Appends the decimal digits of `n`, without padding, to `out`.
pub fn push_decimal(out: &mut String, n: usize)
    ensures
        final(out)@ == old(out)@ + spec_decimal(n as nat),
    decreases n,
{
    if n < 10 {
        out.append(digit_str(n));
    } else {
        push_decimal(out, n / 10);
        out.append(digit_str(n % 10));
        proof {
            assert(old(out)@ + (spec_decimal((n / 10) as nat) + seq![digit_char((n % 10) as nat)])
                =~= (old(out)@ + spec_decimal((n / 10) as nat)) + seq![
                digit_char((n % 10) as nat),
            ]);
        }
    }
}

/// The decimal digits of `n` as a string.
pub fn decimal_string(n: usize) -> (r: String)
    ensures
        r@ == spec_decimal(n as nat),
{
    let mut r = String::new();
    push_decimal(&mut r, n);
    proof {
        assert(Seq::<char>::empty() + spec_decimal(n as nat) =~= spec_decimal(n as nat));
    }
    r
}

/// Builds the temporary audio file name for chunk `index` of the run stamped
/// `ts`.
pub fn chunk_file_name(ts: &str, index: usize) -> (r: String)
    ensures
        r@ == spec_chunk_file_name(ts@, index as nat),
{
    let mut r = String::from_str("tmp_");
    r.append(ts);
    r.append("_chunk");
    push_padded(&mut r, index, 6);
    r.append(".flac");
    proof {
        assert(r@ =~= spec_chunk_file_name(ts@, index as nat));
    }
    r
}

} // verus!
