//! The passes that turn the documentation's Markdown files, doc comments and
//! group descriptions into Typst: choosing the conversion options, tidying the
//! output, and putting rewritten doc comments back into their source files.
use std::ops::Range;

use vstd::prelude::*;
use vstd::utf8::{
    encode_utf8, encode_utf8_decode_utf8, encode_utf8_valid_utf8, is_char_boundary_start_end_of_seq,
};

use crate::convert::parsed_conv;
use crate::md::{convert_parsed, gives_string, path_of, ConvertError, Metadata, Node, Options};
use crate::parse::{docs_markdown, parse_markdown};
use crate::outside::{format_width, formatted_typst};
use crate::text::{
    chars_of, contains_chars, contains_seq, is_whitespace, join, lemma_lines_no_line_feed,
    lemma_trim_end_shape, lines, push_all, push_str, repeat, repeat_char, slice_str, split_lines,
    starts_with, str_slice, string_of, trim_end, trim_end_ws,
};

verus! {

// ---------------------------------------------------------------------------
// Markdown files
// ---------------------------------------------------------------------------

/// Whether a docs file keeps the depth of its headings: the pages of the
/// library and export reference do; all others lose one level.
pub open spec fn keeps_heading_depth(path: Option<Seq<char>>) -> bool {
    match path {
        Some(p) => contains_seq(p, "reference/library"@) || contains_seq(p, "reference/export"@),
        None => false,
    }
}

/// The heading offset for a docs file at `path` below the docs root.
pub open spec fn file_heading_offset(path: Option<Seq<char>>) -> int {
    if keeps_heading_depth(path) {
        0
    } else {
        -1
    }
}

/// The lines, each without trailing whitespace and ended by a line feed.
pub open spec fn trimmed_lines(ls: Seq<Seq<char>>) -> Seq<char>
    decreases ls.len(),
{
    if ls.len() == 0 {
        Seq::empty()
    } else {
        trimmed_lines(ls.drop_last()) + trim_end(ls.last()) + "\n"@
    }
}

/// The characters of an optional path.
pub open spec fn path_view(path: Option<&str>) -> Option<Seq<char>> {
    match path {
        Some(p) => Some(p@),
        None => None,
    }
}

/// What a Markdown file of the docs converts to, given the top-level nodes
/// it parses into: the converted document with trailing whitespace removed
/// from every line and every line ended.
pub open spec fn doc_file_conv(
    source: Seq<char>,
    front_matter: Option<Metadata>,
    nodes: Seq<Node>,
    path: Option<Seq<char>>,
) -> Result<Seq<char>, ConvertError> {
    match parsed_conv(source, front_matter, nodes, path, file_heading_offset(path)) {
        Err(e) => Err(e),
        Ok(t) => Ok(trimmed_lines(lines(t))),
    }
}

/// Text whose every line ends with a line feed, with no whitespace right
/// before it.
pub open spec fn lines_tidy(t: Seq<char>) -> bool {
    &&& t.len() == 0 || t.last() == '\n'
    &&& forall|i: int|
        0 < i < t.len() && #[trigger] t[i] == '\n' ==> t[i - 1] == '\n' || !is_whitespace(t[i - 1])
}

proof fn lemma_trimmed_lines_tidy(ls: Seq<Seq<char>>)
    requires
        forall|i: int| 0 <= i < ls.len() ==> !(#[trigger] ls[i]).contains('\n'),
    ensures
        lines_tidy(trimmed_lines(ls)),
    decreases ls.len(),
{
    reveal_strlit("\n");
    if ls.len() > 0 {
        let init = ls.drop_last();
        assert forall|i: int| 0 <= i < init.len() implies !(#[trigger] init[i]).contains('\n') by {
            assert(init[i] == ls[i]);
        }
        lemma_trimmed_lines_tidy(init);
        let prev = trimmed_lines(init);
        let last = ls.last();
        let te = trim_end(last);
        lemma_trim_end_shape(last);
        assert(!ls[ls.len() - 1].contains('\n'));
        let t = trimmed_lines(ls);
        assert(t == prev + te + "\n"@);
        assert forall|i: int| 0 < i < t.len() && #[trigger] t[i] == '\n' implies t[i - 1] == '\n'
            || !is_whitespace(t[i - 1]) by {
            if i < prev.len() {
                assert(t[i] == prev[i] && t[i - 1] == prev[i - 1]);
            } else if i < prev.len() + te.len() {
                assert(t[i] == te[i - prev.len()]);
                assert(te[i - prev.len()] == last[i - prev.len()]);
            } else if te.len() > 0 {
                assert(t[i - 1] == te.last());
            } else {
                assert(t[i - 1] == prev.last());
            }
        }
    }
}

/// The pages of the library and export reference keep the depth of their
/// headings: a docs file whose path mentions `reference/library` or
/// `reference/export` converts as its document does with no heading offset;
/// every other docs file converts with its headings one level up.
pub proof fn lemma_doc_file_heading_depth(
    source: Seq<char>,
    front_matter: Option<Metadata>,
    nodes: Seq<Node>,
    path: Seq<char>,
)
    ensures
        (contains_seq(path, "reference/library"@) || contains_seq(path, "reference/export"@))
            ==> doc_file_conv(source, front_matter, nodes, Some(path)) == match parsed_conv(
            source,
            front_matter,
            nodes,
            Some(path),
            0,
        ) {
            Ok(t) => Ok(trimmed_lines(lines(t))),
            Err(e) => Err(e),
        },
        !contains_seq(path, "reference/library"@) && !contains_seq(path, "reference/export"@)
            ==> doc_file_conv(source, front_matter, nodes, Some(path)) == match parsed_conv(
            source,
            front_matter,
            nodes,
            Some(path),
            -1,
        ) {
            Ok(t) => Ok(trimmed_lines(lines(t))),
            Err(e) => Err(e),
        },
{
}

/// Every line of a converted docs file ends with a line feed, with no
/// whitespace right before it.
pub proof fn lemma_doc_file_tidy(
    source: Seq<char>,
    front_matter: Option<Metadata>,
    nodes: Seq<Node>,
    path: Option<Seq<char>>,
)
    ensures
        doc_file_conv(source, front_matter, nodes, path) matches Ok(t) ==> lines_tidy(t),
{
    if let Ok(t) = parsed_conv(source, front_matter, nodes, path, file_heading_offset(path)) {
        lemma_lines_no_line_feed(t);
        lemma_trimmed_lines_tidy(lines(t));
    }
}

/// Converts a Markdown file of the docs, at `path` below the docs root (where
/// it lies below it), whose text is `string` and whose front matter, if it
/// begins with any, reads as `front_matter`; see `doc_file_conv`.
pub fn doc_file_passes(
    string: &str,
    front_matter: Option<Metadata>,
    path: Option<&str>,
) -> (r: Result<
    String,
    ConvertError,
>)
    ensures
        match docs_markdown(string@) {
            None => r == Err::<String, ConvertError>(ConvertError::UnparsableMarkdown),
            Some(ns) => gives_string(r, doc_file_conv(string@, front_matter, ns, path_view(path))),
        },
{
    let nodes = match parse_markdown(string) {
        None => return Err(ConvertError::UnparsableMarkdown),
        Some(n) => n,
    };
    let ghost nv = nodes@;
    let ghost fm = front_matter;
    let keeps = match path {
        Some(p) => {
            let pc = chars_of(p);
            let library = chars_of("reference/library");
            let export = chars_of("reference/export");
            contains_chars(pc.as_slice(), library.as_slice()) || contains_chars(
                pc.as_slice(),
                export.as_slice(),
            )
        },
        None => false,
    };
    let heading_offset: isize = if keeps {
        0
    } else {
        -1
    };
    let opt = Options { path, heading_offset };
    let processed = match convert_parsed(string, nodes, front_matter, &opt) {
        Err(e) => {
            assert(gives_string(Err(e), doc_file_conv(string@, fm, nv, path_of(&opt))));
            return Err(e);
        },
        Ok(p) => p,
    };
    let out = trim_lines_exec(chars_of(processed.as_str()).as_slice());
    let r = Ok(string_of(out.as_slice()));
    assert(gives_string(r, doc_file_conv(string@, fm, nv, path_of(&opt))));
    r
}

/// Each line of `s` without trailing whitespace and ended by a line feed.
pub fn trim_lines_exec(s: &[char]) -> (r: Vec<char>)
    ensures
        r@ == trimmed_lines(lines(s@)),
{
    let ls = split_lines(s);
    let ghost lv = lines(s@);
    let mut out: Vec<char> = Vec::new();
    for i in 0..ls.len()
        invariant
            ls@.map_values(|l: Vec<char>| l@) == lv,
            lv == lines(s@),
            out@ == trimmed_lines(lv.take(i as int)),
    {
        let t = trim_end_ws(ls[i].as_slice());
        push_all(&mut out, t.as_slice());
        out.push('\n');
        assert(lv.take(i + 1).drop_last() == lv.take(i as int));
        assert(ls@.map_values(|l: Vec<char>| l@)[i as int] == ls@[i as int]@);
        assert(out@ == trimmed_lines(lv.take(i as int)) + trim_end(lv[i as int]) + "\n"@) by {
            reveal_strlit("\n");
        }
    }
    assert(lv.take(ls.len() as int) == lv);
    out
}

// ---------------------------------------------------------------------------
// Doc comments
// ---------------------------------------------------------------------------

/// What the text of a doc comment converts to, given the top-level nodes it
/// parses into: the converted Markdown, formatted by the Typst formatter, its text
/// wrapped, to lines of at most `width` characters.
pub open spec fn doc_comment_conv(
    source: Seq<char>,
    front_matter: Option<Metadata>,
    nodes: Seq<Node>,
    width: nat,
) -> Result<Seq<char>, ConvertError> {
    match parsed_conv(source, front_matter, nodes, None, 0) {
        Err(e) => Err(e),
        Ok(t) => match formatted_typst(t, width, true) {
            None => Err(ConvertError::UnformattableMarkup),
            Some(f) => Ok(f),
        },
    }
}

/// Converts the text `string` of a doc comment, whose front matter, if it
/// begins with any, reads as `front_matter`, and formats it to lines of at most `width` characters; see
/// `doc_comment_conv`.
pub fn doc_comment_passes(
    string: &str,
    front_matter: Option<Metadata>,
    width: usize,
) -> (r: Result<
    String,
    ConvertError,
>)
    ensures
        match docs_markdown(string@) {
            None => r == Err::<String, ConvertError>(ConvertError::UnparsableMarkdown),
            Some(ns) => gives_string(r, doc_comment_conv(string@, front_matter, ns, width as nat)),
        },
{
    let nodes = match parse_markdown(string) {
        None => return Err(ConvertError::UnparsableMarkdown),
        Some(n) => n,
    };
    let ghost nv = nodes@;
    let ghost fm = front_matter;
    let opt = Options { path: None, heading_offset: 0 };
    let converted = match convert_parsed(string, nodes, front_matter, &opt) {
        Err(e) => {
            assert(gives_string(Err(e), doc_comment_conv(string@, fm, nv, width as nat)));
            return Err(e);
        },
        Ok(c) => c,
    };
    let r = match format_width(converted.as_str(), width, true) {
        None => Err(ConvertError::UnformattableMarkup),
        Some(f) => Ok(f),
    };
    assert(gives_string(r, doc_comment_conv(string@, fm, nv, width as nat)));
    r
}

/// The number of spaces at the end of `s`.
pub open spec fn trailing_spaces(s: Seq<char>) -> nat
    decreases s.len(),
{
    if s.len() > 0 && s.last() == ' ' {
        1 + trailing_spaces(s.drop_last())
    } else {
        0
    }
}

/// The indentation of the doc comment that starts at the byte offset
/// `start`: the spaces right before it.
pub open spec fn comment_indent(source: Seq<char>, start: int) -> Option<nat> {
    match str_slice(source, 0, start) {
        None => None,
        Some(before) => Some(trailing_spaces(before)),
    }
}

/// The width left for the text of a doc comment that starts at `start`: 80
/// columns less its indentation and the four columns of `/// `.
pub open spec fn comment_width(source: Seq<char>, start: int) -> Option<nat> {
    match comment_indent(source, start) {
        Some(indent) => if indent + 4 <= 80 {
            Some((80 - indent - 4) as nat)
        } else {
            None
        },
        None => None,
    }
}

/// A line of a rewritten doc comment.
pub open spec fn comment_line(l: Seq<char>, indent: nat) -> Seq<char> {
    let t = trim_end(l);
    repeat_char(' ', indent) + "///"@ + if t.len() == 0 {
        Seq::empty()
    } else {
        " "@ + t
    }
}

/// A rewritten doc comment: each line of `text` as a `///` line.
pub open spec fn comment_block(text: Seq<char>, indent: nat) -> Seq<char> {
    join(lines(text).map_values(|l: Seq<char>| comment_line(l, indent)), "\n"@)
}

/// Every line of a rewritten doc comment begins with the indentation and
/// `///`, holds no line feed and ends in something other than whitespace;
/// there is one such line for each line of the text.
pub proof fn lemma_comment_block_lines(text: Seq<char>, indent: nat)
    ensures
        exists|ls: Seq<Seq<char>>|
            #![trigger join(ls, "\n"@)]
            comment_block(text, indent) == join(ls, "\n"@) && ls.len() == lines(text).len() && forall|k: int|
                0 <= k < ls.len() ==> starts_with(
                    #[trigger] ls[k],
                    repeat_char(' ', indent) + "///"@,
                ) && !ls[k].contains('\n') && !is_whitespace(ls[k].last()),
{
    reveal_strlit("///");
    reveal_strlit(" ");
    let ls = lines(text).map_values(|l: Seq<char>| comment_line(l, indent));
    lemma_lines_no_line_feed(text);
    assert forall|k: int| 0 <= k < ls.len() implies starts_with(
        #[trigger] ls[k],
        repeat_char(' ', indent) + "///"@,
    ) && !ls[k].contains('\n') && !is_whitespace(ls[k].last()) by {
        let l = lines(text)[k];
        let t = trim_end(l);
        lemma_trim_end_shape(l);
        let head = repeat_char(' ', indent) + "///"@;
        let tail = if t.len() == 0 {
            Seq::<char>::empty()
        } else {
            " "@ + t
        };
        assert(ls[k] == head + tail);
        assert(ls[k].take(head.len() as int) == head);
        assert(!l.contains('\n'));
        assert forall|j: int| 0 <= j < ls[k].len() implies ls[k][j] != '\n' by {
            if j >= head.len() + 1 {
                assert(ls[k][j] == t[j - head.len() - 1]);
                assert(t[j - head.len() - 1] == l[j - head.len() - 1]);
            }
        }
        if t.len() == 0 {
            assert(ls[k].last() == '/');
        } else {
            assert(ls[k].last() == t.last());
        }
    }
    assert(comment_block(text, indent) == join(ls, "\n"@));
}

/// The source rewritten up to the `k`th doc comment, and the offset where
/// the source continues.
pub open spec fn splice_prefix(source: Seq<char>, comments: Seq<(Range<usize>, Seq<char>)>, k: int) -> Option<
    (Seq<char>, int),
>
    decreases k,
{
    if k <= 0 || k > comments.len() {
        Some((Seq::empty(), 0))
    } else {
        match splice_prefix(source, comments, k - 1) {
            None => None,
            Some((out, cursor)) => {
                let range = comments[k - 1].0;
                let text = comments[k - 1].1;
                match comment_indent(source, range.start as int) {
                    None => None,
                    Some(indent) => if indent > range.start {
                        None
                    } else {
                        match str_slice(source, cursor, range.start - indent) {
                            None => None,
                            Some(piece) => Some(
                                (out + piece + comment_block(text, indent), range.end as int),
                            ),
                        }
                    },
                }
            },
        }
    }
}

/// The source with each doc comment replaced by its rewritten text, where the
/// comments' ranges lie on character boundaries in order.
pub open spec fn spliced(source: Seq<char>, comments: Seq<(Range<usize>, Seq<char>)>) -> Option<
    Seq<char>,
> {
    match splice_prefix(source, comments, comments.len() as int) {
        None => None,
        Some((out, cursor)) => match str_slice(source, cursor, encode_utf8(source).len() as int) {
            None => None,
            Some(rest) => Some(out + rest),
        },
    }
}

/// Putting no doc comments in place gives the source back unchanged.
pub proof fn lemma_splice_nothing(source: Seq<char>)
    ensures
        spliced(source, Seq::empty()) == Some(source),
{
    let b = encode_utf8(source);
    encode_utf8_valid_utf8(source);
    is_char_boundary_start_end_of_seq(b);
    encode_utf8_decode_utf8(source);
    assert(b.subrange(0, b.len() as int) == b);
}

/// Once a prefix of the comments cannot be put in place, no longer prefix can.
pub proof fn lemma_splice_failure(
    source: Seq<char>,
    comments: Seq<(Range<usize>, Seq<char>)>,
    k: int,
    n: int,
)
    requires
        1 <= k <= n <= comments.len(),
        splice_prefix(source, comments, k) is None,
    ensures
        splice_prefix(source, comments, n) is None,
    decreases n - k,
{
    if n > k {
        lemma_splice_failure(source, comments, k, n - 1);
    }
}

/// The comments with their texts as character sequences.
pub open spec fn comments_view(comments: Seq<(Range<usize>, String)>) -> Seq<(Range<usize>, Seq<char>)> {
    comments.map_values(|c: (Range<usize>, String)| (c.0, c.1@))
}

/// The number of spaces at the end of `s`.
fn count_trailing_spaces(s: &[char]) -> (n: usize)
    ensures
        n == trailing_spaces(s@),
{
    let mut n: usize = 0;
    let mut hi: usize = s.len();
    assert(s@.take(hi as int) == s@);
    while hi > 0 && s[hi - 1] == ' '
        invariant
            hi <= s.len(),
            n + hi == s.len(),
            trailing_spaces(s@) == n + trailing_spaces(s@.take(hi as int)),
        decreases hi,
    {
        assert(s@.take(hi as int).drop_last() == s@.take(hi - 1));
        hi = hi - 1;
        n = n + 1;
    }
    n
}

/// The indentation of the doc comment that starts at `start`; see
/// `comment_indent`.
pub fn doc_comment_indent(source: &str, start: usize) -> (r: Option<usize>)
    ensures
        match r {
            Some(n) => comment_indent(source@, start as int) == Some(n as nat),
            None => comment_indent(source@, start as int) is None,
        },
{
    match slice_str(source, 0, start) {
        None => None,
        Some(before) => Some(count_trailing_spaces(before.as_slice())),
    }
}

/// The width left for the text of the doc comment that starts at `start`,
/// which lies on a character boundary and is indented by at most 76 spaces:
/// 80 columns less the indentation and the four columns of `/// `; see
/// `comment_width`.
pub fn doc_comment_width(source: &str, start: usize) -> (r: usize)
    requires
        comment_indent(source@, start as int) matches Some(k) && k <= 76,
    ensures
        comment_width(source@, start as int) == Some(r as nat),
        comment_indent(source@, start as int) == Some((76 - r) as nat),
{
    match doc_comment_indent(source, start) {
        None => 0,
        Some(indent) => 80 - indent - 4,
    }
}

/// Appends a rewritten doc comment; see `comment_block`.
fn push_comment_block(buf: &mut Vec<char>, text: &str, indent: usize)
    ensures
        final(buf)@ == old(buf)@ + comment_block(text@, indent as nat),
{
    let tc = chars_of(text);
    let ls = split_lines(tc.as_slice());
    let ghost lv = lines(text@).map_values(|l: Seq<char>| comment_line(l, indent as nat));
    let ghost start = buf@;
    let indent_str = repeat(' ', indent);
    for i in 0..ls.len()
        invariant
            ls@.map_values(|l: Vec<char>| l@) == lines(text@),
            lv == lines(text@).map_values(|l: Seq<char>| comment_line(l, indent as nat)),
            indent_str@ == repeat_char(' ', indent as nat),
            buf@ == start + join(lv.take(i as int), "\n"@),
    {
        let ghost prev = buf@;
        if i != 0 {
            push_str(buf, "\n");
        }
        push_all(buf, indent_str.as_slice());
        push_str(buf, "///");
        let t = trim_end_ws(ls[i].as_slice());
        if t.len() > 0 {
            push_str(buf, " ");
            push_all(buf, t.as_slice());
        }
        proof {
            assert(ls@.map_values(|l: Vec<char>| l@)[i as int] == ls@[i as int]@);
            assert(lv[i as int] == comment_line(ls@[i as int]@, indent as nat));
            assert(lv.take(i + 1).drop_last() == lv.take(i as int));
            if i != 0 {
                assert(buf@ == prev + "\n"@ + lv[i as int]);
            } else {
                assert(buf@ == prev + lv[i as int]);
            }
        }
    }
    assert(lv.take(ls.len() as int) == lv);
}

/// The source `source` with each doc comment (its byte range and its
/// rewritten text) put in place of the original one; see `spliced`.
pub fn splice_doc_comments(source: &str, comments: &Vec<(Range<usize>, String)>) -> (r: Option<
    String,
>)
    ensures
        match spliced(source@, comments_view(comments@)) {
            Some(t) => r matches Some(s) && s@ == t,
            None => r is None,
        },
{
    let ghost cv = comments_view(comments@);
    let mut out: Vec<char> = Vec::new();
    let mut cursor: usize = 0;
    for k in 0..comments.len()
        invariant
            cv == comments_view(comments@),
            splice_prefix(source@, cv, k as int) == Some((out@, cursor as int)),
    {
        let start = comments[k].0.start;
        let end = comments[k].0.end;
        let ghost entry = cv[k as int];
        assert(entry == (comments@[k as int].0, comments@[k as int].1@));
        let indent = match doc_comment_indent(source, start) {
            None => {
                proof {
                    lemma_splice_failure(source@, cv, k + 1, cv.len() as int);
                }
                return None;
            },
            Some(i) => i,
        };
        if indent > start {
            proof {
                lemma_splice_failure(source@, cv, k + 1, cv.len() as int);
            }
            return None;
        }
        let piece = match slice_str(source, cursor, start - indent) {
            None => {
                proof {
                    lemma_splice_failure(source@, cv, k + 1, cv.len() as int);
                }
                return None;
            },
            Some(p) => p,
        };
        push_all(&mut out, piece.as_slice());
        push_comment_block(&mut out, comments[k].1.as_str(), indent);
        cursor = end;
    }
    assert(cv.len() == comments.len());
    let total = source.as_bytes().len();
    let rest = match slice_str(source, cursor, total) {
        None => return None,
        Some(r) => r,
    };
    push_all(&mut out, rest.as_slice());
    Some(string_of(out.as_slice()))
}

// ---------------------------------------------------------------------------
// Groups
// ---------------------------------------------------------------------------

/// The groups of the reference, each as a comment line with its name followed
/// by its converted description and an empty line.
pub open spec fn groups_markup(groups: Seq<(Seq<char>, Seq<char>)>) -> Seq<char>
    decreases groups.len(),
{
    if groups.len() == 0 {
        Seq::empty()
    } else {
        groups_markup(groups.drop_last()) + "// "@ + groups.last().0 + "\n"@ + groups.last().1
            + "\n"@ + "\n"@
    }
}

/// The groups of the reference (name and converted description) as one Typst
/// file; see `groups_markup`.
pub fn render_groups(groups: &Vec<(String, String)>) -> (r: String)
    ensures
        r@ == groups_markup(groups@.map_values(|g: (String, String)| (g.0@, g.1@))),
{
    let ghost gv = groups@.map_values(|g: (String, String)| (g.0@, g.1@));
    let mut out: Vec<char> = Vec::new();
    for i in 0..groups.len()
        invariant
            gv == groups@.map_values(|g: (String, String)| (g.0@, g.1@)),
            out@ == groups_markup(gv.take(i as int)),
    {
        push_str(&mut out, "// ");
        push_str(&mut out, groups[i].0.as_str());
        push_str(&mut out, "\n");
        push_str(&mut out, groups[i].1.as_str());
        push_str(&mut out, "\n");
        push_str(&mut out, "\n");
        assert(gv.take(i + 1).drop_last() == gv.take(i as int));
        assert(gv[i as int] == (groups@[i as int].0@, groups@[i as int].1@));
    }
    assert(gv.take(groups.len() as int) == gv);
    string_of(out.as_slice())
}

} // verus!
