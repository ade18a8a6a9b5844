//! Character-level text operations used throughout the conversion.
use vstd::prelude::*;

use vstd::utf8::{
    decode_utf8, encode_utf8, encode_utf8_decode_utf8, encode_utf8_valid_utf8, is_char_boundary,
    is_char_boundary_iff_not_is_continuation_byte, is_char_boundary_start_end_of_seq, valid_utf8,
    valid_utf8_split,
};

use crate::outside::push_char;

verus! {

// ---------------------------------------------------------------------------
// Specifications
// ---------------------------------------------------------------------------

/// `n` copies of `c`.
pub open spec fn repeat_char(c: char, n: nat) -> Seq<char> {
    Seq::new(n, |i: int| c)
}

/// `n` copies of the sequence `s`.
pub open spec fn repeat_seq(s: Seq<char>, n: nat) -> Seq<char>
    decreases n,
{
    if n == 0 {
        Seq::empty()
    } else {
        repeat_seq(s, (n - 1) as nat) + s
    }
}

/// Every character of `s` equal to `from` replaced by `to`.
pub open spec fn replace_char(s: Seq<char>, from: char, to: char) -> Seq<char> {
    Seq::new(s.len(), |i: int| if s[i] == from { to } else { s[i] })
}

/// `s` split at every `sep`: the pieces between separators, always at least one.
pub open spec fn split_raw(s: Seq<char>, sep: char) -> Seq<Seq<char>>
    decreases s.len(),
{
    if s.len() == 0 {
        seq![Seq::<char>::empty()]
    } else {
        let p = split_raw(s.drop_last(), sep);
        if s.last() == sep {
            p.push(Seq::<char>::empty())
        } else {
            p.update(p.len() - 1, p.last().push(s.last()))
        }
    }
}

/// `s` without one trailing carriage return.
pub open spec fn strip_cr(s: Seq<char>) -> Seq<char> {
    if s.len() > 0 && s.last() == '\r' {
        s.drop_last()
    } else {
        s
    }
}

/// The lines of `s` as `str::lines` yields them: split at `\n`, each line
/// that was ended by `\n` loses one trailing `\r`, and a final empty piece
/// (after a trailing `\n`, or of an empty text) is not a line.
pub open spec fn lines(s: Seq<char>) -> Seq<Seq<char>> {
    let p = split_raw(s, '\n');
    let init = p.drop_last().map_values(|l: Seq<char>| strip_cr(l));
    if p.last().len() == 0 {
        init
    } else {
        init.push(p.last())
    }
}

/// The pieces joined with `sep` between neighbours.
pub open spec fn join(pieces: Seq<Seq<char>>, sep: Seq<char>) -> Seq<char>
    decreases pieces.len(),
{
    if pieces.len() == 0 {
        Seq::empty()
    } else if pieces.len() == 1 {
        pieces[0]
    } else {
        join(pieces.drop_last(), sep) + sep + pieces.last()
    }
}

/// A line as `indent` emits it: two spaces in front unless it is empty.
pub open spec fn indent_line(l: Seq<char>) -> Seq<char> {
    if l.len() == 0 {
        l
    } else {
        seq![' ', ' '] + l
    }
}

/// The lines of `body`, each non-empty one indented by two spaces, joined by
/// line feeds.
pub open spec fn indent_spec(body: Seq<char>) -> Seq<char> {
    join(lines(body).map_values(|l: Seq<char>| indent_line(l)), seq!['\n'])
}

/// The state of the backtick scan after `s`: the longest run so far and the
/// run that ends at the last character.
pub open spec fn backtick_runs(s: Seq<char>) -> (nat, nat)
    decreases s.len(),
{
    if s.len() == 0 {
        (0, 0)
    } else {
        let (m, cur) = backtick_runs(s.drop_last());
        if s.last() == '`' {
            (if m >= cur + 1 { m } else { (cur + 1) as nat }, (cur + 1) as nat)
        } else {
            (m, 0)
        }
    }
}

/// The length of the longest run of consecutive backticks in `s`.
pub open spec fn max_backtick_run(s: Seq<char>) -> nat {
    backtick_runs(s).0
}

/// `needle` occurs in `s` at position `i`.
pub open spec fn occurs_at(s: Seq<char>, needle: Seq<char>, i: int) -> bool {
    0 <= i && i + needle.len() <= s.len() && s.subrange(i, i + needle.len()) == needle
}

/// `needle` occurs somewhere in `s`.
pub open spec fn contains_seq(s: Seq<char>, needle: Seq<char>) -> bool {
    exists|i: int| occurs_at(s, needle, i)
}

/// `s` begins with `p`.
pub open spec fn starts_with(s: Seq<char>, p: Seq<char>) -> bool {
    p.len() <= s.len() && s.take(p.len() as int) == p
}

/// `s` ends with `p`.
pub open spec fn ends_with(s: Seq<char>, p: Seq<char>) -> bool {
    p.len() <= s.len() && s.skip(s.len() - p.len()) == p
}

/// The characters that `char::is_whitespace` accepts (Unicode `White_Space`).
pub open spec fn is_whitespace(c: char) -> bool {
    ||| c == '\t' || c == '\n' || c == '\x0B' || c == '\x0C' || c == '\r' || c == ' '
    ||| c == '\u{85}' || c == '\u{A0}' || c == '\u{1680}'
    ||| ('\u{2000}' <= c && c <= '\u{200A}')
    ||| c == '\u{2028}' || c == '\u{2029}' || c == '\u{202F}' || c == '\u{205F}'
    ||| c == '\u{3000}'
}

/// `s` without trailing whitespace.
pub open spec fn trim_end(s: Seq<char>) -> Seq<char>
    decreases s.len(),
{
    if s.len() > 0 && is_whitespace(s.last()) {
        trim_end(s.drop_last())
    } else {
        s
    }
}

/// `s` without leading whitespace.
pub open spec fn trim_start(s: Seq<char>) -> Seq<char>
    decreases s.len(),
{
    if s.len() > 0 && is_whitespace(s[0]) {
        trim_start(s.drop_first())
    } else {
        s
    }
}

/// `s` without leading and trailing whitespace.
pub open spec fn trim(s: Seq<char>) -> Seq<char> {
    trim_end(trim_start(s))
}

/// `s` without leading and trailing occurrences of `c`.
pub open spec fn trim_matches(s: Seq<char>, c: char) -> Seq<char>
    decreases s.len(),
{
    if s.len() > 0 && s[0] == c {
        trim_matches(s.drop_first(), c)
    } else if s.len() > 0 && s.last() == c {
        trim_matches(s.drop_last(), c)
    } else {
        s
    }
}

/// The part of the text `s` between the byte offsets `lo` and `hi`, where
/// those offsets lie on character boundaries in order within the text.
pub open spec fn str_slice(s: Seq<char>, lo: int, hi: int) -> Option<Seq<char>> {
    let b = encode_utf8(s);
    if 0 <= lo <= hi <= b.len() && is_char_boundary(b, lo) && is_char_boundary(b, hi) {
        Some(decode_utf8(b.subrange(lo, hi)))
    } else {
        None
    }
}

/// The index of the first `c` in `s`, if any.
pub open spec fn find_char(s: Seq<char>, c: char) -> Option<int>
    decreases s.len(),
{
    if s.len() == 0 {
        None
    } else {
        match find_char(s.drop_last(), c) {
            Some(i) => Some(i),
            None => if s.last() == c {
                Some(s.len() - 1)
            } else {
                None
            },
        }
    }
}

/// `a` comes before `b` in lexicographic order of their characters.
pub open spec fn lex_less(a: Seq<char>, b: Seq<char>) -> bool
    decreases a.len(),
{
    if b.len() == 0 {
        false
    } else if a.len() == 0 {
        true
    } else if a[0] != b[0] {
        (a[0] as u32) < (b[0] as u32)
    } else {
        lex_less(a.drop_first(), b.drop_first())
    }
}

/// No text comes before itself.
pub proof fn lemma_lex_less_irreflexive(a: Seq<char>)
    ensures
        !lex_less(a, a),
    decreases a.len(),
{
    if a.len() > 0 {
        lemma_lex_less_irreflexive(a.drop_first());
    }
}

// ---------------------------------------------------------------------------
// Lemmas
// ---------------------------------------------------------------------------

proof fn lemma_split_raw_nonempty(s: Seq<char>, sep: char)
    ensures
        split_raw(s, sep).len() >= 1,
    decreases s.len(),
{
    if s.len() > 0 {
        lemma_split_raw_nonempty(s.drop_last(), sep);
    }
}

/// The longest backtick run bounds the run that ends at the end of `s`.
pub proof fn lemma_backtick_runs_bound(s: Seq<char>)
    ensures
        backtick_runs(s).1 <= backtick_runs(s).0,
        backtick_runs(s).0 <= s.len(),
    decreases s.len(),
{
    if s.len() > 0 {
        lemma_backtick_runs_bound(s.drop_last());
    }
}

/// A run of `k` backticks that ends at position `e` (exclusive) of `s` is no
/// longer than the longest run.
proof fn lemma_backtick_run_within(s: Seq<char>, k: nat, e: int)
    requires
        k <= e <= s.len(),
        forall|j: int| e - k <= j < e ==> s[j] == '`',
    ensures
        k <= backtick_runs(s.take(e)).1,
        k <= max_backtick_run(s),
    decreases k,
{
    lemma_backtick_runs_bound(s.take(e));
    if k > 0 {
        let t = s.take(e);
        assert(t.drop_last() == s.take(e - 1));
        lemma_backtick_run_within(s, (k - 1) as nat, e - 1);
    }
    lemma_backtick_prefix_monotone(s, e);
}

/// The longest run of a prefix is no longer than that of the whole text.
proof fn lemma_backtick_prefix_monotone(s: Seq<char>, e: int)
    requires
        0 <= e <= s.len(),
    ensures
        backtick_runs(s.take(e)).0 <= backtick_runs(s).0,
    decreases s.len() - e,
{
    if e < s.len() {
        lemma_backtick_prefix_monotone(s, e + 1);
        assert(s.take(e + 1).drop_last() == s.take(e));
    } else {
        assert(s.take(e) == s);
    }
}

/// The run of backticks that ends at the end of `s` is there, and so is a run
/// as long as the longest.
proof fn lemma_backtick_runs_occur(s: Seq<char>)
    ensures
        backtick_runs(s).1 <= s.len(),
        forall|j: int| s.len() - backtick_runs(s).1 <= j < s.len() ==> s[j] == '`',
        contains_seq(s, repeat_char('`', backtick_runs(s).0)),
    decreases s.len(),
{
    let z = repeat_char('`', backtick_runs(s).0);
    if s.len() == 0 {
        assert(s.subrange(0, 0) == z);
        assert(occurs_at(s, z, 0));
    } else {
        let init = s.drop_last();
        lemma_backtick_runs_occur(init);
        let (m, cur) = backtick_runs(init);
        let old_run = repeat_char('`', m);
        let i = choose|i: int| occurs_at(init, old_run, i);
        assert(s.subrange(i, i + m) == init.subrange(i, i + m));
        if s.last() == '`' && m < cur + 1 {
            let k = s.len() - (cur + 1);
            assert forall|j: int| 0 <= j < cur + 1 implies s.subrange(k, k + cur + 1)[j] == z[j] by {
                if k + j < s.len() - 1 {
                    assert(s[k + j] == init[k + j]);
                }
            }
            assert(s.subrange(k, k + cur + 1) == z);
            assert(occurs_at(s, z, k));
        } else {
            assert(occurs_at(s, z, i));
        }
        if s.last() == '`' {
            assert forall|j: int| s.len() - backtick_runs(s).1 <= j < s.len() implies s[j] == '`' by {
                if j < s.len() - 1 {
                    assert(s[j] == init[j]);
                }
            }
        }
    }
}

/// The longest run of backticks that `max_backtick_run` reports occurs in the
/// text (and, by `lemma_longer_fence_absent`, no longer one does).
pub proof fn lemma_longest_run_occurs(s: Seq<char>)
    ensures
        contains_seq(s, repeat_char('`', max_backtick_run(s))),
{
    lemma_backtick_runs_occur(s);
}

/// A fence longer than the longest run of backticks never occurs in the text:
/// this is why code and raw blocks use `max_backtick_run + 1` backticks.
pub proof fn lemma_longer_fence_absent(s: Seq<char>, k: nat)
    requires
        k > max_backtick_run(s),
    ensures
        !contains_seq(s, repeat_char('`', k)),
{
    if contains_seq(s, repeat_char('`', k)) {
        let i = choose|i: int| occurs_at(s, repeat_char('`', k), i);
        assert forall|j: int| i + k - k <= j < i + k implies s[j] == '`' by {
            assert(s.subrange(i, i + k)[j - i] == repeat_char('`', k)[j - i]);
        }
        lemma_backtick_run_within(s, k, i + k);
    }
}

/// Splitting text extended by a piece without the separator extends the
/// last piece.
proof fn lemma_split_raw_extend(s: Seq<char>, t: Seq<char>, sep: char)
    requires
        !t.contains(sep),
    ensures
        split_raw(s + t, sep) == split_raw(s, sep).update(
            split_raw(s, sep).len() - 1,
            split_raw(s, sep).last() + t,
        ),
    decreases t.len(),
{
    lemma_split_raw_nonempty(s, sep);
    if t.len() == 0 {
        assert(s + t == s);
        assert(split_raw(s, sep).last() + t == split_raw(s, sep).last());
        assert(split_raw(s, sep).update(split_raw(s, sep).len() - 1, split_raw(s, sep).last())
            == split_raw(s, sep));
    } else {
        let t0 = t.drop_last();
        assert(!t0.contains(sep)) by {
            assert forall|j: int| 0 <= j < t0.len() implies t0[j] != sep by {
                assert(t0[j] == t[j]);
            }
        }
        lemma_split_raw_extend(s, t0, sep);
        assert((s + t).drop_last() == s + t0);
        assert((s + t).last() == t.last());
        assert(t.last() != sep) by {
            assert(t[t.len() - 1] == t.last());
        }
        lemma_split_raw_nonempty(s + t0, sep);
        assert(split_raw(s, sep).last() + t0 + seq![t.last()] == split_raw(s, sep).last() + t);
        assert((split_raw(s, sep).last() + t0).push(t.last()) == split_raw(s, sep).last() + t);
    }
}

/// Splitting pieces joined by the separator, none of which holds it, gives
/// the pieces back.
proof fn lemma_split_raw_join(ps: Seq<Seq<char>>, sep: char)
    requires
        ps.len() > 0,
        forall|k: int| 0 <= k < ps.len() ==> !(#[trigger] ps[k]).contains(sep),
    ensures
        split_raw(join(ps, seq![sep]), sep) == ps,
    decreases ps.len(),
{
    let e = Seq::<char>::empty();
    assert(split_raw(e, sep) == seq![e]);
    if ps.len() == 1 {
        assert(!ps[0].contains(sep));
        lemma_split_raw_extend(e, ps[0], sep);
        assert(e + ps[0] == ps[0]);
        assert(seq![e].update(0, e + ps[0]) == ps);
    } else {
        let init = ps.drop_last();
        assert forall|k: int| 0 <= k < init.len() implies !(#[trigger] init[k]).contains(sep) by {
            assert(init[k] == ps[k]);
        }
        lemma_split_raw_join(init, sep);
        let a = join(init, seq![sep]) + seq![sep];
        assert(a.drop_last() == join(init, seq![sep]));
        assert(split_raw(a, sep) == init.push(e));
        assert(!ps[ps.len() - 1].contains(sep));
        lemma_split_raw_extend(a, ps.last(), sep);
        assert(e + ps.last() == ps.last());
        assert(init.push(e).update(init.len() as int, ps.last()) == ps);
    }
}

/// Indenting keeps the number of lines, unless the text ends in an empty
/// line (which, once its line feed follows the last indented line, is no
/// line of the result).
pub proof fn lemma_indent_keeps_line_count(body: Seq<char>)
    requires
        lines(body).len() == 0 || lines(body).last().len() > 0,
    ensures
        lines(indent_spec(body)).len() == lines(body).len(),
{
    let ls = lines(body);
    let ps = ls.map_values(|l: Seq<char>| indent_line(l));
    if ls.len() == 0 {
        assert(indent_spec(body) == Seq::<char>::empty());
        assert(split_raw(Seq::<char>::empty(), '\n') == seq![Seq::<char>::empty()]);
    } else {
        lemma_lines_no_line_feed(body);
        assert forall|k: int| 0 <= k < ps.len() implies !(#[trigger] ps[k]).contains('\n') by {
            assert(!ls[k].contains('\n'));
            assert forall|j: int| 0 <= j < ps[k].len() implies ps[k][j] != '\n' by {
                if ls[k].len() > 0 {
                    if j >= 2 {
                        assert(ps[k][j] == ls[k][j - 2]);
                    }
                }
            }
        }
        lemma_split_raw_join(ps, '\n');
        assert(ps.last().len() > 0);
    }
}

/// The pieces of a split never hold the separator.
pub proof fn lemma_split_raw_no_sep(s: Seq<char>, sep: char)
    ensures
        forall|i: int| 0 <= i < split_raw(s, sep).len() ==> !(#[trigger] split_raw(s, sep)[i]).contains(sep),
    decreases s.len(),
{
    if s.len() > 0 {
        lemma_split_raw_nonempty(s.drop_last(), sep);
        lemma_split_raw_no_sep(s.drop_last(), sep);
        let p = split_raw(s.drop_last(), sep);
        if s.last() != sep {
            let q = p.update(p.len() - 1, p.last().push(s.last()));
            assert forall|i: int| 0 <= i < q.len() implies !(#[trigger] q[i]).contains(sep) by {
                if i == p.len() - 1 {
                    assert(!p[i].contains(sep));
                    assert forall|j: int| 0 <= j < q[i].len() implies q[i][j] != sep by {
                        if j < p[i].len() {
                            assert(q[i][j] == p[i][j]);
                        }
                    }
                } else {
                    assert(q[i] == p[i]);
                }
            }
        } else {
            let q = p.push(Seq::<char>::empty());
            assert forall|i: int| 0 <= i < q.len() implies !(#[trigger] q[i]).contains(sep) by {
                if i < p.len() {
                    assert(q[i] == p[i]);
                }
            }
        }
    }
}

/// The lines of a text hold no line feed.
pub proof fn lemma_lines_no_line_feed(s: Seq<char>)
    ensures
        forall|i: int| 0 <= i < lines(s).len() ==> !(#[trigger] lines(s)[i]).contains('\n'),
{
    let p = split_raw(s, '\n');
    lemma_split_raw_nonempty(s, '\n');
    lemma_split_raw_no_sep(s, '\n');
    assert forall|i: int| 0 <= i < lines(s).len() implies !(#[trigger] lines(s)[i]).contains('\n') by {
        if i < p.len() - 1 {
            assert(lines(s)[i] == strip_cr(p[i]));
            assert(!p[i].contains('\n'));
            assert forall|j: int| 0 <= j < strip_cr(p[i]).len() implies strip_cr(p[i])[j] != '\n' by {
                assert(strip_cr(p[i])[j] == p[i][j]);
            }
        } else {
            assert(lines(s)[i] == p.last());
            assert(!p[p.len() - 1].contains('\n'));
        }
    }
}

/// `trim_end` keeps a prefix of the text that is empty or ends in a character
/// other than whitespace.
pub proof fn lemma_trim_end_shape(s: Seq<char>)
    ensures
        trim_end(s).len() <= s.len(),
        trim_end(s) == s.take(trim_end(s).len() as int),
        trim_end(s).len() == 0 || !is_whitespace(trim_end(s).last()),
    decreases s.len(),
{
    if s.len() > 0 && is_whitespace(s.last()) {
        lemma_trim_end_shape(s.drop_last());
        assert(s.drop_last().take(trim_end(s).len() as int) == s.take(trim_end(s).len() as int));
    } else {
        assert(s.take(s.len() as int) == s);
    }
}

/// `trim_start` keeps a suffix of the text that is empty or begins with a
/// character other than whitespace.
pub proof fn lemma_trim_start_shape(s: Seq<char>)
    ensures
        trim_start(s).len() <= s.len(),
        trim_start(s) == s.skip(s.len() - trim_start(s).len()),
        trim_start(s).len() == 0 || !is_whitespace(trim_start(s)[0]),
    decreases s.len(),
{
    if s.len() > 0 && is_whitespace(s[0]) {
        lemma_trim_start_shape(s.drop_first());
        assert(s.drop_first().skip(s.len() - 1 - trim_start(s).len()) == s.skip(
            s.len() - trim_start(s).len(),
        ));
    } else {
        assert(s.skip(0) == s);
    }
}

/// Trimmed text is a contiguous part of the text that neither begins nor ends
/// with whitespace.
pub proof fn lemma_trim_shape(s: Seq<char>)
    ensures
        trim(s).len() == 0 || (!is_whitespace(trim(s)[0]) && !is_whitespace(trim(s).last())),
        exists|i: int| occurs_at(s, trim(s), i),
{
    let a = trim_start(s);
    lemma_trim_start_shape(s);
    lemma_trim_end_shape(a);
    let t = trim(s);
    if t.len() > 0 {
        assert(t[0] == a[0]);
    }
    let i = s.len() - a.len();
    assert(s.subrange(i, i + t.len()) == t);
    assert(occurs_at(s, t, i));
}

/// Replacing characters other than backticks by characters other than
/// backticks leaves every run of backticks as it was.
pub proof fn lemma_replace_keeps_backtick_runs(s: Seq<char>, from: char, to: char)
    requires
        from != '`',
        to != '`',
    ensures
        backtick_runs(replace_char(s, from, to)) == backtick_runs(s),
    decreases s.len(),
{
    if s.len() > 0 {
        assert(replace_char(s, from, to).drop_last() == replace_char(s.drop_last(), from, to));
        lemma_replace_keeps_backtick_runs(s.drop_last(), from, to);
    }
}

// ---------------------------------------------------------------------------
// Executable operations
// ---------------------------------------------------------------------------

/// The characters of `s`, in order.
pub fn chars_of(s: &str) -> (v: Vec<char>)
    ensures
        v@ == s@,
{
    let mut v: Vec<char> = Vec::new();
    for c in it: s.chars()
        invariant
            v@ == it.seq().take(it.index() as int),
            it.seq() == s@,
    {
        v.push(c);
    }
    v
}

/// Appends all of `s` to `buf`.
pub fn push_all(buf: &mut Vec<char>, s: &[char])
    ensures
        final(buf)@ == old(buf)@ + s@,
{
    let ghost start = buf@;
    for i in 0..s.len()
        invariant
            buf@ == start + s@.take(i as int),
    {
        buf.push(s[i]);
        assert(s@.take(i + 1) == s@.take(i as int).push(s@[i as int]));
    }
    assert(s@.take(s.len() as int) == s@);
}

/// Appends the characters of `s` to `buf`.
pub fn push_str(buf: &mut Vec<char>, s: &str)
    ensures
        final(buf)@ == old(buf)@ + s@,
{
    let v = chars_of(s);
    push_all(buf, v.as_slice());
}

/// `n` copies of `c`.
pub fn repeat(c: char, n: usize) -> (r: Vec<char>)
    ensures
        r@ == repeat_char(c, n as nat),
{
    let mut r: Vec<char> = Vec::new();
    for i in 0..n
        invariant
            r@ == repeat_char(c, i as nat),
    {
        r.push(c);
        assert(r@ == repeat_char(c, (i + 1) as nat));
    }
    r
}

/// Every `from` in `s` replaced by `to`.
pub fn replace(s: &[char], from: char, to: char) -> (r: Vec<char>)
    ensures
        r@ == replace_char(s@, from, to),
{
    let mut r: Vec<char> = Vec::new();
    for i in 0..s.len()
        invariant
            r@ == replace_char(s@.take(i as int), from, to),
    {
        let c = if s[i] == from {
            to
        } else {
            s[i]
        };
        r.push(c);
        assert(r@ == replace_char(s@.take(i + 1), from, to));
    }
    assert(s@.take(s.len() as int) == s@);
    r
}

/// Whether `s` contains `c`.
pub fn contains_char(s: &[char], c: char) -> (b: bool)
    ensures
        b == s@.contains(c),
{
    for i in 0..s.len()
        invariant
            forall|j: int| 0 <= j < i ==> s@[j] != c,
    {
        if s[i] == c {
            return true;
        }
    }
    false
}

/// Whether `a` and `b` hold the same characters.
pub fn eq_chars(a: &[char], b: &[char]) -> (r: bool)
    ensures
        r == (a@ == b@),
{
    if a.len() != b.len() {
        return false;
    }
    for i in 0..a.len()
        invariant
            a.len() == b.len(),
            forall|j: int| 0 <= j < i ==> a@[j] == b@[j],
    {
        if a[i] != b[i] {
            return false;
        }
    }
    assert(a@ == b@);
    true
}

/// Whether `s` holds the same characters as the text `t`.
pub fn eq_str(s: &[char], t: &str) -> (r: bool)
    ensures
        r == (s@ == t@),
{
    let v = chars_of(t);
    eq_chars(s, v.as_slice())
}

/// Whether `s` begins with `p`.
pub fn has_prefix(s: &[char], p: &[char]) -> (r: bool)
    ensures
        r == starts_with(s@, p@),
{
    if p.len() > s.len() {
        return false;
    }
    for i in 0..p.len()
        invariant
            p.len() <= s.len(),
            forall|j: int| 0 <= j < i ==> s@[j] == p@[j],
    {
        if s[i] != p[i] {
            assert(s@.take(p.len() as int)[i as int] != p@[i as int]);
            return false;
        }
    }
    assert(s@.take(p.len() as int) == p@);
    true
}

/// Whether `s` ends with `p`.
pub fn has_suffix(s: &[char], p: &[char]) -> (r: bool)
    ensures
        r == ends_with(s@, p@),
{
    if p.len() > s.len() {
        return false;
    }
    let off = s.len() - p.len();
    for i in 0..p.len()
        invariant
            p.len() <= s.len(),
            off == s.len() - p.len(),
            forall|j: int| 0 <= j < i ==> s@[off + j] == p@[j],
    {
        if s[off + i] != p[i] {
            assert(s@.skip(off as int)[i as int] != p@[i as int]);
            return false;
        }
    }
    assert(s@.skip(off as int) == p@);
    true
}

/// Whether `needle` occurs in `s`.
pub fn contains_chars(s: &[char], needle: &[char]) -> (r: bool)
    ensures
        r == contains_seq(s@, needle@),
{
    if needle.len() > s.len() {
        return false;
    }
    if needle.len() == 0 {
        assert(s@.subrange(0, 0) =~= needle@);
        assert(occurs_at(s@, needle@, 0));
        return true;
    }
    let last = s.len() - needle.len();
    let mut i: usize = 0;
    while i <= last
        invariant
            needle.len() <= s.len(),
            needle.len() > 0,
            last == s.len() - needle.len(),
            i <= last + 1,
            forall|k: int| 0 <= k < i ==> !occurs_at(s@, needle@, k),
        decreases last + 1 - i,
    {
        let mut ok = true;
        let mut j: usize = 0;
        while j < needle.len()
            invariant
                needle.len() <= s.len(),
                i <= last,
                last == s.len() - needle.len(),
                j <= needle.len(),
                ok ==> forall|m: int| 0 <= m < j ==> s@[i + m] == needle@[m],
                !ok ==> !occurs_at(s@, needle@, i as int),
            decreases needle.len() - j,
        {
            if ok && s[i + j] != needle[j] {
                ok = false;
                assert(s@.subrange(i as int, i + needle.len())[j as int] != needle@[j as int]);
            }
            j = j + 1;
        }
        if ok {
            assert(s@.subrange(i as int, i + needle.len()) == needle@);
            assert(occurs_at(s@, needle@, i as int));
            return true;
        }
        i = i + 1;
    }
    assert forall|k: int| !occurs_at(s@, needle@, k) by {
        if occurs_at(s@, needle@, k) {
            assert(k <= last);
        }
    }
    false
}

/// The length of the longest run of consecutive backticks in `text`.
pub fn max_consecutive_backticks(text: &[char]) -> (n: usize)
    ensures
        n == max_backtick_run(text@),
{
    let mut max: usize = 0;
    let mut current: usize = 0;
    for i in 0..text.len()
        invariant
            (max as nat, current as nat) == backtick_runs(text@.take(i as int)),
            max <= i,
    {
        proof {
            lemma_backtick_runs_bound(text@.take(i as int));
        }
        assert(text@.take(i + 1).drop_last() == text@.take(i as int));
        if text[i] == '`' {
            current = current + 1;
            if current > max {
                max = current;
            }
        } else {
            current = 0;
        }
    }
    assert(text@.take(text.len() as int) == text@);
    max
}

/// The lines of `s`, as `str::lines` yields them.
pub fn split_lines(s: &[char]) -> (r: Vec<Vec<char>>)
    ensures
        r@.map_values(|l: Vec<char>| l@) == lines(s@),
{
    let mut out: Vec<Vec<char>> = Vec::new();
    let mut cur: Vec<char> = Vec::new();
    for i in 0..s.len()
        invariant
            ({
                let p = split_raw(s@.take(i as int), '\n');
                &&& out@.map_values(|l: Vec<char>| l@) == p.drop_last().map_values(
                    |l: Seq<char>| strip_cr(l),
                )
                &&& cur@ == p.last()
            }),
    {
        let ghost t = s@.take(i + 1);
        assert(t.drop_last() == s@.take(i as int));
        proof {
            lemma_split_raw_nonempty(s@.take(i as int), '\n');
        }
        let ghost p0 = split_raw(s@.take(i as int), '\n');
        let ghost old_out = out@.map_values(|l: Vec<char>| l@);
        if s[i] == '\n' {
            let mut line = cur;
            if line.len() > 0 && line[line.len() - 1] == '\r' {
                line.pop();
            }
            assert(line@ == strip_cr(p0.last()));
            out.push(line);
            cur = Vec::new();
            let ghost p = split_raw(t, '\n');
            assert(p == p0.push(Seq::<char>::empty()));
            assert(p.drop_last() == p0);
            assert(p0 == p0.drop_last().push(p0.last()));
            assert(out@.map_values(|l: Vec<char>| l@) == old_out.push(strip_cr(p0.last())));
            assert(out@.map_values(|l: Vec<char>| l@) == p.drop_last().map_values(
                |l: Seq<char>| strip_cr(l),
            ));
        } else {
            cur.push(s[i]);
            let ghost p = split_raw(t, '\n');
            assert(p.drop_last() == p0.drop_last());
        }
    }
    assert(s@.take(s.len() as int) == s@);
    proof {
        lemma_split_raw_nonempty(s@, '\n');
    }
    if cur.len() > 0 {
        let ghost before = out@.map_values(|l: Vec<char>| l@);
        out.push(cur);
        assert(out@.map_values(|l: Vec<char>| l@) == before.push(split_raw(s@, '\n').last()));
    }
    out
}

/// The lines of `body`, each non-empty one indented by two spaces, joined by
/// line feeds.
pub fn indent(body: &[char]) -> (out: Vec<char>)
    ensures
        out@ == indent_spec(body@),
{
    let ls = split_lines(body);
    let ghost ind = lines(body@).map_values(|l: Seq<char>| indent_line(l));
    let mut out: Vec<char> = Vec::new();
    for i in 0..ls.len()
        invariant
            ls@.map_values(|l: Vec<char>| l@) == lines(body@),
            ind == lines(body@).map_values(|l: Seq<char>| indent_line(l)),
            out@ == join(ind.take(i as int), seq!['\n']),
    {
        let ghost prev = ind.take(i as int);
        if i > 0 {
            out.push('\n');
        }
        let line = &ls[i];
        if line.len() > 0 {
            out.push(' ');
            out.push(' ');
        }
        push_all(&mut out, line.as_slice());
        proof {
            let next = ind.take(i + 1);
            assert(next.drop_last() == prev);
            assert(ls@.map_values(|l: Vec<char>| l@)[i as int] == ls@[i as int]@);
            assert(next.last() == indent_line(ls@[i as int]@));
            if i > 0 {
                assert(out@ == join(prev, seq!['\n']) + seq!['\n'] + next.last());
            } else {
                assert(out@ == next.last());
            }
        }
    }
    assert(ind.take(ls.len() as int) == ind);
    out
}

/// `s` without leading and trailing occurrences of `c`.
pub fn trim_char(s: &[char], c: char) -> (r: Vec<char>)
    ensures
        r@ == trim_matches(s@, c),
{
    let mut lo: usize = 0;
    let mut hi: usize = s.len();
    assert(s@.subrange(0, s.len() as int) == s@);
    while lo < hi && s[lo] == c
        invariant
            lo <= hi <= s.len(),
            hi == s.len(),
            trim_matches(s@, c) == trim_matches(s@.subrange(lo as int, hi as int), c),
        decreases hi - lo,
    {
        assert(s@.subrange(lo as int, hi as int).drop_first() == s@.subrange(lo + 1, hi as int));
        lo = lo + 1;
    }
    while lo < hi && s[hi - 1] == c
        invariant
            lo <= hi <= s.len(),
            lo < hi ==> s@[lo as int] != c,
            trim_matches(s@, c) == trim_matches(s@.subrange(lo as int, hi as int), c),
        decreases hi - lo,
    {
        assert(s@.subrange(lo as int, hi as int).drop_last() == s@.subrange(lo as int, hi - 1));
        hi = hi - 1;
    }
    let mut r: Vec<char> = Vec::new();
    for i in lo..hi
        invariant
            lo <= hi <= s.len(),
            r@ == s@.subrange(lo as int, i as int),
    {
        r.push(s[i]);
        assert(s@.subrange(lo as int, i + 1) == s@.subrange(lo as int, i as int).push(s@[i as int]));
    }
    r
}

/// `s` without trailing whitespace.
pub fn trim_end_ws(s: &[char]) -> (r: Vec<char>)
    ensures
        r@ == trim_end(s@),
{
    let mut hi: usize = s.len();
    assert(s@.take(s.len() as int) == s@);
    while hi > 0 && is_ws(s[hi - 1])
        invariant
            hi <= s.len(),
            trim_end(s@) == trim_end(s@.take(hi as int)),
        decreases hi,
    {
        assert(s@.take(hi as int).drop_last() == s@.take(hi - 1));
        hi = hi - 1;
    }
    let mut r: Vec<char> = Vec::new();
    for i in 0..hi
        invariant
            hi <= s.len(),
            r@ == s@.take(i as int),
    {
        r.push(s[i]);
        assert(s@.take(i + 1) == s@.take(i as int).push(s@[i as int]));
    }
    r
}

/// `s` without leading and trailing whitespace.
pub fn trim_ws(s: &[char]) -> (r: Vec<char>)
    ensures
        r@ == trim(s@),
{
    let mut lo: usize = 0;
    assert(s@.skip(0) == s@);
    while lo < s.len() && is_ws(s[lo])
        invariant
            lo <= s.len(),
            trim_start(s@) == trim_start(s@.skip(lo as int)),
        decreases s.len() - lo,
    {
        assert(s@.skip(lo as int).drop_first() == s@.skip(lo + 1));
        lo = lo + 1;
    }
    let mut rest: Vec<char> = Vec::new();
    for i in lo..s.len()
        invariant
            lo <= s.len(),
            rest@ == s@.subrange(lo as int, i as int),
    {
        rest.push(s[i]);
        assert(s@.subrange(lo as int, i + 1) == s@.subrange(lo as int, i as int).push(s@[i as int]));
    }
    assert(rest@ == s@.skip(lo as int));
    assert(trim_start(rest@) == rest@);
    trim_end_ws(rest.as_slice())
}

/// Whether `c` is whitespace in the sense of `char::is_whitespace`.
pub fn is_ws(c: char) -> (b: bool)
    ensures
        b == is_whitespace(c),
{
    c == '\t' || c == '\n' || c == '\x0B' || c == '\x0C' || c == '\r' || c == ' ' || c
        == '\u{85}' || c == '\u{A0}' || c == '\u{1680}' || ('\u{2000}' <= c && c <= '\u{200A}')
        || c == '\u{2028}' || c == '\u{2029}' || c == '\u{202F}' || c == '\u{205F}' || c
        == '\u{3000}'
}

/// The index of the first `c` in `s`, if any.
pub fn find(s: &[char], c: char) -> (r: Option<usize>)
    ensures
        match r {
            Some(i) => find_char(s@, c) == Some(i as int),
            None => find_char(s@, c) is None,
        },
{
    let mut i: usize = 0;
    while i < s.len()
        invariant
            i <= s.len(),
            find_char(s@.take(i as int), c) is None,
        decreases s.len() - i,
    {
        assert(s@.take(i + 1).drop_last() == s@.take(i as int));
        if s[i] == c {
            proof {
                lemma_find_char_prefix(s@, c, i as int);
            }
            return Some(i);
        }
        i = i + 1;
    }
    assert(s@.take(s.len() as int) == s@);
    None
}

/// Finding in a text whose prefix holds no match gives the first match after it.
pub(crate) proof fn lemma_find_char_prefix(s: Seq<char>, c: char, i: int)
    requires
        0 <= i < s.len(),
        find_char(s.take(i), c) is None,
        s[i] == c,
    ensures
        find_char(s, c) == Some(i),
    decreases s.len() - i,
{
    if i == s.len() - 1 {
        assert(s.drop_last() == s.take(i));
    } else {
        assert(s.drop_last().take(i) == s.take(i));
        lemma_find_char_prefix(s.drop_last(), c, i);
        assert(s.drop_last().take(i) == s.take(i));
    }
}

/// The pieces of `s` between the separators `sep`, as `str::split` yields
/// them for a character pattern.
pub fn split_char(s: &[char], sep: char) -> (r: Vec<Vec<char>>)
    ensures
        r@.map_values(|l: Vec<char>| l@) == split_raw(s@, sep),
{
    let mut out: Vec<Vec<char>> = Vec::new();
    let mut cur: Vec<char> = Vec::new();
    for i in 0..s.len()
        invariant
            ({
                let p = split_raw(s@.take(i as int), sep);
                &&& out@.map_values(|l: Vec<char>| l@) == p.drop_last()
                &&& cur@ == p.last()
            }),
    {
        let ghost t = s@.take(i + 1);
        assert(t.drop_last() == s@.take(i as int));
        proof {
            lemma_split_raw_nonempty(s@.take(i as int), sep);
        }
        let ghost p0 = split_raw(s@.take(i as int), sep);
        let ghost old_out = out@.map_values(|l: Vec<char>| l@);
        if s[i] == sep {
            out.push(cur);
            cur = Vec::new();
            let ghost p = split_raw(t, sep);
            assert(p == p0.push(Seq::<char>::empty()));
            assert(p0 == p0.drop_last().push(p0.last()));
            assert(out@.map_values(|l: Vec<char>| l@) == old_out.push(p0.last()));
        } else {
            cur.push(s[i]);
            let ghost p = split_raw(t, sep);
            assert(p.drop_last() == p0.drop_last());
        }
    }
    assert(s@.take(s.len() as int) == s@);
    proof {
        lemma_split_raw_nonempty(s@, sep);
    }
    let ghost before = out@.map_values(|l: Vec<char>| l@);
    out.push(cur);
    assert(out@.map_values(|l: Vec<char>| l@) == before.push(split_raw(s@, sep).last()));
    assert(split_raw(s@, sep) == split_raw(s@, sep).drop_last().push(split_raw(s@, sep).last()));
    out
}

/// The characters `s[lo..hi]`.
pub fn slice_chars(s: &[char], lo: usize, hi: usize) -> (r: Vec<char>)
    requires
        lo <= hi <= s.len(),
    ensures
        r@ == s@.subrange(lo as int, hi as int),
{
    let mut r: Vec<char> = Vec::new();
    for i in lo..hi
        invariant
            lo <= hi <= s.len(),
            r@ == s@.subrange(lo as int, i as int),
    {
        r.push(s[i]);
        assert(s@.subrange(lo as int, i + 1) == s@.subrange(lo as int, i as int).push(s@[i as int]));
    }
    r
}

/// A `String` made of the given characters, appended one by one.
pub fn string_of(v: &[char]) -> (s: String)
    ensures
        s@ == v@,
{
    let mut s = String::new();
    for i in 0..v.len()
        invariant
            s@ == v@.take(i as int),
    {
        push_char(&mut s, v[i]);
        assert(v@.take(i + 1) == v@.take(i as int).push(v@[i as int]));
    }
    assert(v@.take(v.len() as int) == v@);
    s
}

/// A character boundary of a text is one of the part of the text that starts
/// at an earlier boundary.
proof fn lemma_boundary_in_suffix(b: Seq<u8>, lo: int, hi: int)
    requires
        valid_utf8(b),
        0 <= lo <= hi <= b.len(),
        is_char_boundary(b, lo),
        is_char_boundary(b, hi),
    ensures
        is_char_boundary(b.subrange(lo, b.len() as int), hi - lo),
{
    let rest = b.subrange(lo, b.len() as int);
    valid_utf8_split(b, lo);
    if hi == b.len() {
        is_char_boundary_start_end_of_seq(rest);
    } else {
        is_char_boundary_iff_not_is_continuation_byte(b, hi);
        is_char_boundary_iff_not_is_continuation_byte(rest, hi - lo);
        assert(rest[hi - lo] == b[hi]);
    }
}

/// The part of `s` between byte offsets `lo` and `hi`; see `str_slice`.
pub fn slice_str(s: &str, lo: usize, hi: usize) -> (r: Option<Vec<char>>)
    ensures
        match r {
            Some(v) => str_slice(s@, lo as int, hi as int) == Some(v@),
            None => str_slice(s@, lo as int, hi as int) is None,
        },
{
    let n = s.as_bytes().len();
    if !(lo <= hi && hi <= n) || !s.is_char_boundary(lo) || !s.is_char_boundary(hi) {
        return None;
    }
    proof {
        encode_utf8_valid_utf8(s@);
        lemma_boundary_in_suffix(encode_utf8(s@), lo as int, hi as int);
    }
    let (_, rest) = s.split_at(lo);
    let (part, _) = rest.split_at(hi - lo);
    proof {
        encode_utf8_decode_utf8(part@);
        assert(encode_utf8(part@) =~= encode_utf8(s@).subrange(lo as int, hi as int));
    }
    Some(chars_of(part))
}

} // verus!
