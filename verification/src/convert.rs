//! What each node of a document converts to: the specification of the
//! conversion, and the conversion itself.
use vstd::prelude::*;
use vstd::utf8::{
    char_is_scalar, char_u32_cast, decode_utf8, encode_scalar, encode_utf8, encode_utf8_decode_utf8,
    encode_utf8_first_scalar, encode_utf8_valid_utf8, has_width_1_encoding, is_char_boundary,
    last_continuation_byte, leading_byte_width_1, leading_byte_width_2, leading_byte_width_3,
    leading_byte_width_4, second_last_continuation_byte, third_last_continuation_byte,
};

use crate::md::{
    labelled, ConvertError, Document, Import, Imports, JsxAttribute, JsxValue, Metadata, Node,
    NodeKind, Position,
};
use crate::outside::{
    debug_quoted, heading_matches_of,
    regex_captures_of, regex_split_of,
};
use crate::paths::{component_count, without_extension};
use crate::text::{
    contains_seq, ends_with, find_char, indent_spec, join, lemma_find_char_prefix,
    lemma_lines_no_line_feed,
    lemma_longer_fence_absent, lemma_replace_keeps_backtick_runs, lines, max_backtick_run,
    repeat_char, repeat_seq, replace_char, split_raw, starts_with, str_slice, trim_matches,
};

verus! {

// ---------------------------------------------------------------------------
// The context of a conversion
// ---------------------------------------------------------------------------

/// What the conversion of a node may consult besides the node: the source
/// text, the file's path, the heading offset, and the link and footnote
/// definitions of the document, in document order.
pub struct Ctx {
    pub source: Seq<char>,
    pub path: Option<Seq<char>>,
    pub heading_offset: int,
    pub links: Seq<(Seq<char>, Seq<char>)>,
    pub footnotes: Seq<(Seq<char>, Seq<Node>)>,
}

/// The result of converting a node or a sequence of nodes: the markup and the
/// components it needs, or why it cannot be converted.
pub type Conv = Result<(Seq<char>, Imports), ConvertError>;

/// The URL that the last definition of `id` gives (later definitions replace
/// earlier ones).
pub open spec fn lookup_link(defs: Seq<(Seq<char>, Seq<char>)>, id: Seq<char>) -> Option<Seq<char>>
    decreases defs.len(),
{
    if defs.len() == 0 {
        None
    } else if defs.last().0 == id {
        Some(defs.last().1)
    } else {
        lookup_link(defs.drop_last(), id)
    }
}

/// The content that the last definition of the footnote `id` gives.
pub open spec fn lookup_footnote(defs: Seq<(Seq<char>, Seq<Node>)>, id: Seq<char>) -> Option<
    Seq<Node>,
>
    decreases defs.len(),
{
    if defs.len() == 0 {
        None
    } else if defs.last().0 == id {
        Some(defs.last().1)
    } else {
        lookup_footnote(defs.drop_last(), id)
    }
}

/// Whether the file's path mentions the changelog.
pub open spec fn in_changelog(c: Ctx) -> bool {
    match c.path {
        Some(p) => contains_seq(p, "changelog"@),
        None => false,
    }
}

/// `Some(s)` where the optional string holds `s`.
pub open spec fn opt_view(o: Option<String>) -> Option<Seq<char>> {
    match o {
        Some(s) => Some(s@),
        None => None,
    }
}

// ---------------------------------------------------------------------------
// Leaves
// ---------------------------------------------------------------------------

/// Markdown text as Typst text: whitespace becomes a space, and the characters
/// that Typst markup gives a meaning are escaped with a backslash.
pub open spec fn escape_char(c: char) -> Seq<char> {
    if c == ' ' || c == '\t' || c == '\n' || c == '\x0B' || c == '\x0C' || c == '\r' {
        seq![' ']
    } else if c == '\\' || c == '[' || c == ']' || c == '~' || c == '*' || c == '_' || c == '`'
        || c == '$' || c == '@' || c == '#' {
        seq!['\\', c]
    } else {
        seq![c]
    }
}

/// `escape_char` applied to every character of `s`.
pub open spec fn escape_text(s: Seq<char>) -> Seq<char>
    decreases s.len(),
{
    if s.len() == 0 {
        Seq::empty()
    } else {
        escape_text(s.drop_last()) + escape_char(s.last())
    }
}

/// The number of backticks that delimit inline code `v`.
pub open spec fn inline_code_fence(v: Seq<char>) -> nat {
    let consecutive = max_backtick_run(v);
    if consecutive == 0 {
        1
    } else if consecutive + 1 >= 3 {
        consecutive + 1
    } else {
        3
    }
}

/// Inline code as Typst raw text.
pub open spec fn inline_code_markup(v: Seq<char>) -> Seq<char> {
    let count = inline_code_fence(v);
    let delim = repeat_char('`', count);
    let sep1 = if starts_with(v, "`"@) || count >= 3 { " "@ } else { Seq::empty() };
    let sep2 = if ends_with(v, "`"@) { " "@ } else { Seq::empty() };
    delim + sep1 + replace_char(v, '\n', ' ') + sep2 + delim
}

/// What inline code converts to: the raw text, unless its longest run of
/// backticks is too long to count one more.
pub open spec fn inline_code_conv(v: Seq<char>) -> Conv {
    if max_backtick_run(v) >= usize::MAX {
        Err(ConvertError::BacktickRunTooLong)
    } else {
        Ok((inline_code_markup(v), Imports::none()))
    }
}

/// A call of the Typst function `func` with a content block holding `body`,
/// indented.
pub open spec fn call_blocky_markup(func: Seq<char>, body: Seq<char>) -> Seq<char> {
    "#"@ + func + "[\n"@ + indent_spec(body) + "\n]"@
}

/// An image as a call of `docs-figure`.
pub open spec fn image_markup(url: Seq<char>, alt: Seq<char>) -> Seq<char> {
    "#docs-figure(\n  \""@ + url + "\",\n  alt: \""@ + alt + "\",\n)"@
}

/// What an image converts to.
pub open spec fn image_conv(url: Seq<char>, alt: Seq<char>) -> Conv {
    if url.contains('"') {
        Err(ConvertError::QuoteInImageUrl)
    } else if alt.contains('"') {
        Err(ConvertError::QuoteInImageAlt)
    } else if alt.len() == 0 {
        Err(ConvertError::EmptyImageAlt)
    } else {
        Ok((image_markup(url, alt), Imports::single(Import::DocsFigure)))
    }
}

// ---------------------------------------------------------------------------
// Links
// ---------------------------------------------------------------------------

/// The pattern of a link to a GitHub user's page.
pub open spec fn github_url_pattern() -> Seq<char> {
    "^https://github.com/([\\w0-9\\-]+)$"@
}

/// The pattern of the text of a link to a GitHub user's page.
pub open spec fn github_text_pattern() -> Seq<char> {
    "^\\\\@([\\w0-9\\-]+)$"@
}

/// The pattern of a reference to a pull request.
pub open spec fn pull_request_pattern() -> Seq<char> {
    "^(\\w+/\\w+)?#(\\d+)$"@
}

/// The pattern that separates the parts of a link target.
pub open spec fn target_separator_pattern() -> Seq<char> {
    "/#?"@
}

/// The pattern of a heading line: its text, then optionally an explicit
/// label `{\#label}` (the `#` comes escaped out of the text conversion).
pub open spec fn heading_pattern() -> Seq<char> {
    "(?m)^\\s*(.*?)\\s*(\\{\\s*\\\\#(\\S*)\\s*\\})?\\s*$"@
}

/// The group `i` of a match, where it took part.
pub open spec fn group(groups: Seq<Option<Seq<char>>>, i: int) -> Option<Seq<char>> {
    if 0 <= i < groups.len() {
        groups[i]
    } else {
        None
    }
}

/// One of the categories whose pages live under `reference`.
pub open spec fn is_reference_category(p: Seq<char>) -> bool {
    p == "context"@ || p == "styling"@ || p == "syntax"@ || p == "scripting"@ || p == "bundle"@
        || p == "svg"@ || p == "png"@
}

/// The parts of a link target, rearranged to the layout of the Typst docs.
pub open spec fn rearrange_parts(parts: Seq<Seq<char>>) -> Seq<Seq<char>> {
    if parts.len() >= 1 && is_reference_category(parts[0]) {
        seq!["reference"@] + parts
    } else if parts.len() >= 2 && parts[0] == "category"@ && parts[1] == "math"@ {
        parts.drop_first()
    } else if parts.len() >= 3 && parts[0] == "category"@ && ((parts[1] == "symbols"@ && (
    parts[2] == "sym"@ || parts[2] == "emoji"@)) || (parts[1] == "foundations"@ && (parts[2]
        == "calc"@ || parts[2] == "std"@ || parts[2] == "sys"@))) {
        parts.skip(2)
    } else if parts.len() >= 1 && parts[0] == "category"@ {
        parts.update(0, "reference"@)
    } else {
        parts
    }
}

/// The destination a link target resolves to.
pub open spec fn destination(parts: Seq<Seq<char>>) -> Seq<char> {
    let dest = join(rearrange_parts(parts), ":"@);
    if ends_with(dest, ":constructor"@) {
        dest.take(dest.len() - 12) + ".constructor"@
    } else {
        dest
    }
}

/// A reference to `dest`, with the link text `body` unless that text is just
/// the destination in backticks.
pub open spec fn reference_markup(dest: Seq<char>, body: Seq<char>) -> Seq<char> {
    if body == "`"@ + dest + "`"@ {
        "@"@ + dest
    } else {
        "@"@ + dest + "["@ + body + "]"@
    }
}

/// What a link to a target in the docs converts to.
pub open spec fn resolve_link_conv(target: Seq<char>, body: Seq<char>) -> Result<
    Seq<char>,
    ConvertError,
> {
    match regex_split_of(target_separator_pattern(), target) {
        None => Err(ConvertError::InvalidPattern),
        Some(parts) => Ok(reference_markup(destination(parts), body)),
    }
}

/// What a link with the URL `url` and the converted text `body` converts to.
pub open spec fn link_conv(url: Seq<char>, body: Seq<char>) -> Result<Seq<char>, ConvertError> {
    match regex_captures_of(github_url_pattern(), url) {
        None => Err(ConvertError::InvalidPattern),
        Some(Some(caps1)) => match group(caps1, 1) {
            None => Err(ConvertError::InvalidPattern),
            Some(user) => match regex_captures_of(github_text_pattern(), body) {
                None => Err(ConvertError::InvalidPattern),
                Some(None) => Err(ConvertError::GithubLinkText),
                Some(Some(caps2)) => match group(caps2, 1) {
                    None => Err(ConvertError::InvalidPattern),
                    Some(named) => if user == named {
                        Ok("#gh("@ + debug_quoted(user) + ")"@)
                    } else {
                        Err(ConvertError::GithubUserMismatch)
                    },
                },
            },
        },
        Some(None) => if starts_with(url, "http"@) {
            Ok("#link("@ + debug_quoted(url) + ")["@ + body + "]"@)
        } else if url.len() > 0 && url[0] == '$' {
            resolve_link_conv(url.drop_first(), body)
        } else {
            Err(ConvertError::BadLink)
        },
    }
}

/// What a link reference `identifier` with the converted text `body` converts
/// to.
pub open spec fn link_ref_conv(c: Ctx, identifier: Seq<char>, body: Seq<char>) -> Result<
    Seq<char>,
    ConvertError,
> {
    match lookup_link(c.links, identifier) {
        Some(url) => Ok("#link("@ + debug_quoted(url) + ")["@ + body + "]"@),
        None => match regex_captures_of(pull_request_pattern(), identifier) {
            None => Err(ConvertError::InvalidPattern),
            Some(Some(caps)) => match group(caps, 2) {
                None => Err(ConvertError::InvalidPattern),
                Some(nr) => match group(caps, 1) {
                    Some(repo) => Ok("#pr("@ + nr + ", repo: "@ + debug_quoted(repo) + ")"@),
                    None => Ok("#pr("@ + nr + ")"@),
                },
            },
            Some(None) => resolve_link_conv(trim_matches(identifier, '`'), body),
        },
    }
}

// ---------------------------------------------------------------------------
// Headings, JSX elements, lists
// ---------------------------------------------------------------------------

/// A match of the heading pattern: its byte range, its text (first group)
/// and its explicit label (third group), where they took part.
pub type HeadingMatch = (int, int, Option<Seq<char>>, Option<Seq<char>>);

/// The heading text up to the end of the `k`th match, with each match
/// replaced by its text followed by its label (see `labelled`), and the byte
/// offset where the heading text continues.
pub open spec fn labels_prefix(text: Seq<char>, ms: Seq<HeadingMatch>, k: int) -> Option<
    (Seq<char>, int),
>
    decreases k,
{
    if k <= 0 || k > ms.len() {
        Some((Seq::empty(), 0))
    } else {
        match labels_prefix(text, ms, k - 1) {
            None => None,
            Some((out, cursor)) => {
                let m = ms[k - 1];
                match (str_slice(text, cursor, m.0), m.2) {
                    (Some(piece), Some(body)) => Some((out + piece + labelled(body, m.3), m.1)),
                    _ => None,
                }
            },
        }
    }
}

/// The heading text with every match replaced by its text followed by its
/// label: the explicit `{#label}` where there is one, the kebab-case form of
/// the text otherwise. `None` where a match lies out of place or lacks its
/// text.
pub open spec fn labels_replaced(text: Seq<char>, ms: Seq<HeadingMatch>) -> Option<Seq<char>> {
    match labels_prefix(text, ms, ms.len() as int) {
        None => None,
        Some((out, cursor)) => match str_slice(text, cursor, encode_utf8(text).len() as int) {
            None => None,
            Some(rest) => Some(out + rest),
        },
    }
}

/// The heading of depth `depth` (already offset) with the converted text
/// `body`: `=` signs, a space, and the text with its label.
pub open spec fn heading_conv(c: Ctx, depth: int, body: Seq<char>) -> Result<Seq<char>, ConvertError> {
    match heading_matches_of(heading_pattern(), body) {
        None => Err(ConvertError::InvalidPattern),
        Some(ms) => match labels_replaced(body, ms) {
            None => Err(ConvertError::InvalidPattern),
            Some(patched) => if patched.contains('\n') {
                Err(ConvertError::MultilineHeading)
            } else if in_changelog(c) && patched == "Contributors <contributors>"@ {
                Ok(Seq::empty())
            } else {
                Ok(repeat_char('=', depth as nat) + " "@ + patched)
            },
        },
    }
}

/// Whether the attributes are exactly `class="info-box"`.
pub open spec fn is_info_box(attrs: Seq<JsxAttribute>) -> bool {
    attrs.len() == 1 && match attrs[0] {
        JsxAttribute::Property { name, value } => name@ == "class"@ && match value {
            Some(JsxValue::Literal(lit)) => lit@ == "info-box"@,
            _ => false,
        },
        _ => false,
    }
}

/// What a flow JSX element converts to, given its converted content.
pub open spec fn jsx_flow_conv(
    name: Option<Seq<char>>,
    attrs: Seq<JsxAttribute>,
    body: Seq<char>,
    used: Imports,
) -> Conv {
    if name == Some("contributors"@) {
        Ok((Seq::empty(), used))
    } else if name == Some("div"@) {
        if is_info_box(attrs) {
            Ok((call_blocky_markup("info"@, body), used.with(Import::Info)))
        } else {
            Err(ConvertError::UnsupportedDiv)
        }
    } else if name == Some("details"@) {
        Ok((call_blocky_markup("details"@, body), used.with(Import::Details)))
    } else if name == Some("summary"@) {
        Ok((call_blocky_markup("summary"@, body), used))
    } else {
        Err(ConvertError::UnsupportedFlowElement)
    }
}

/// What a text JSX element converts to, given its converted content.
pub open spec fn jsx_text_conv(name: Option<Seq<char>>, body: Seq<char>, used: Imports) -> Conv {
    if name == Some("sup"@) {
        Ok(("#super["@ + body + "]"@, used))
    } else if name == Some("kbd"@) {
        Ok(("#kbd["@ + body + "]"@, used.with(Import::Kbd)))
    } else {
        Err(ConvertError::UnsupportedTextElement)
    }
}

/// The marker of a list item's first line.
pub open spec fn list_head(ordered: bool) -> Seq<char> {
    if ordered {
        "+ "@
    } else {
        "- "@
    }
}

/// The lines of a list item: the first after the marker, the others indented
/// by two spaces, each ended by a line feed.
pub open spec fn item_lines(ls: Seq<Seq<char>>, head: Seq<char>) -> Seq<char>
    decreases ls.len(),
{
    if ls.len() == 0 {
        Seq::empty()
    } else {
        item_lines(ls.drop_last(), head) + (if ls.len() == 1 {
            head
        } else {
            "  "@
        }) + ls.last() + "\n"@
    }
}

/// The separator after the `i`th block: one line feed before a list that
/// starts on the next line and after a heading, a blank line otherwise.
pub open spec fn separator_after(nodes: Seq<Node>, i: int) -> Seq<char> {
    if i + 1 < nodes.len() && nodes[i + 1].kind is List && nodes[i].position is Some
        && nodes[i + 1].position is Some && nodes[i].position->0.end_line + 1
        == nodes[i + 1].position->0.start_line {
        "\n"@
    } else if nodes[i].kind is Heading {
        "\n"@
    } else {
        "\n\n"@
    }
}

// ---------------------------------------------------------------------------
// Code blocks
// ---------------------------------------------------------------------------

/// The index of the first `b` in `bytes` at or after `from`.
pub open spec fn find_byte(bytes: Seq<u8>, from: int, b: u8) -> Option<int>
    decreases bytes.len() - from,
{
    if from < 0 || from >= bytes.len() {
        None
    } else if bytes[from] == b {
        Some(from)
    } else {
        find_byte(bytes, from + 1, b)
    }
}

/// A found byte lies at or after the start and is the byte looked for.
pub proof fn lemma_find_byte(bytes: Seq<u8>, from: int, b: u8)
    ensures
        find_byte(bytes, from, b) matches Some(i) ==> from <= i < bytes.len() && bytes[i] == b,
    decreases bytes.len() - from,
{
    if 0 <= from < bytes.len() && bytes[from] != b {
        lemma_find_byte(bytes, from + 1, b);
    }
}

/// The title of a code block, quoted in the source text after the byte
/// offset `offset`: the text between the first two double quotes from there,
/// where the offset and the quotes lie on character boundaries (a double
/// quote always does in UTF-8).
pub open spec fn quoted_title(source: Seq<char>, offset: int) -> Option<Seq<char>> {
    let bytes = encode_utf8(source);
    if !is_char_boundary(bytes, offset) {
        None
    } else {
        match find_byte(bytes, offset, 0x22) {
            None => None,
            Some(q1) => match find_byte(bytes, q1 + 1, 0x22) {
                None => None,
                Some(q2) => if is_char_boundary(bytes, q1 + 1) && is_char_boundary(
                    bytes.subrange(q1 + 1, bytes.len() as int),
                    q2 - (q1 + 1),
                ) {
                    Some(decode_utf8(bytes.subrange(q1 + 1, q2)))
                } else {
                    None
                },
            },
        }
    }
}

/// The settings a code block's language string gives.
pub enum CodeSettings {
    /// A plain raw block with this language tag.
    Plain(Seq<char>),
    /// An example with an optional title, a single-page flag and a zoom.
    Example { title: Option<Seq<char>>, single: bool, zoom: Option<Seq<Seq<char>>> },
}

/// What the language string of a code block says, given the source text and
/// the block's position. A quoted title is looked up from the block's start
/// offset, capped at the number of characters of the source and taken as a
/// byte offset (the count of the characters taken from the start, one per
/// character).
pub open spec fn code_settings(
    source: Seq<char>,
    lang: Option<Seq<char>>,
    position: Option<Position>,
) -> Result<CodeSettings, ConvertError> {
    match lang {
        None => Ok(CodeSettings::Plain(Seq::empty())),
        Some(l) => match find_char(l, ':') {
            Some(i) if i + 1 < l.len() => {
                let before = l.take(i);
                let after = l.skip(i + 1);
                if before != "example"@ && before != "preview"@ {
                    Err(ConvertError::UnknownCodeBlockKind)
                } else if after[0] == '"' {
                    match position {
                        None => Err(ConvertError::MissingCodeBlockTitle),
                        Some(p) => {
                            let offset = if p.start_offset <= source.len() {
                                p.start_offset as int
                            } else {
                                source.len() as int
                            };
                            match quoted_title(source, offset) {
                                None => Err(ConvertError::MissingCodeBlockTitle),
                                Some(t) => Ok(
                                    CodeSettings::Example { title: Some(t), single: false, zoom: None },
                                ),
                            }
                        },
                    }
                } else if after == "single"@ {
                    Ok(CodeSettings::Example { title: None, single: true, zoom: None })
                } else {
                    let parts = split_raw(after, ',');
                    if parts.len() < 4 {
                        Err(ConvertError::IncompleteZoom)
                    } else {
                        Ok(
                            CodeSettings::Example {
                                title: None,
                                single: false,
                                zoom: Some(parts.take(4)),
                            },
                        )
                    }
                }
            },
            _ => Ok(CodeSettings::Plain(l)),
        },
    }
}

/// A raw block holding `value`, fenced by more backticks than `value` holds in
/// a row (at least three).
pub open spec fn raw_block(tag: Seq<char>, value: Seq<char>) -> Seq<char> {
    let n = if max_backtick_run(value) + 1 >= 3 {
        max_backtick_run(value) + 1
    } else {
        3
    };
    let delim = repeat_char('`', n as nat);
    delim + tag + "\n"@ + value + "\n"@ + delim
}

/// The zoom argument of an example.
pub open spec fn zoom_line(z: Seq<Seq<char>>) -> Seq<char> {
    "  zoom: ("@ + z[0] + "pt, "@ + z[1] + "pt, "@ + z[2] + "pt, "@ + z[3] + "pt),\n"@
}

/// What a code block converts to.
pub open spec fn code_block_conv(
    source: Seq<char>,
    value: Seq<char>,
    lang: Option<Seq<char>>,
    position: Option<Position>,
) -> Conv {
    match code_settings(source, lang, position) {
        Err(e) => Err(e),
        Ok(_) if max_backtick_run(value) >= usize::MAX => Err(ConvertError::BacktickRunTooLong),
        Ok(CodeSettings::Plain(tag)) => Ok((raw_block(tag, value), Imports::none())),
        Ok(CodeSettings::Example { title, single, zoom }) => {
            let raw = raw_block(Seq::empty(), value);
            let t = match title {
                Some(t) => "  title: "@ + debug_quoted(t) + ",\n"@,
                None => Seq::empty(),
            };
            let s = if single {
                "  single: true,\n"@
            } else {
                Seq::empty()
            };
            let z = match zoom {
                Some(z) => zoom_line(z),
                None => Seq::empty(),
            };
            Ok(
                (
                    "#example(\n"@ + t + s + z + indent_spec(raw) + "\n"@ + ")"@,
                    Imports::single(Import::Example),
                ),
            )
        },
    }
}

// ---------------------------------------------------------------------------
// The recursive conversion
// ---------------------------------------------------------------------------

/// The first `n` inline nodes of `s` converted and concatenated.
#[verifier::opaque]
pub open spec fn inlines_prefix(c: Ctx, s: Seq<Node>, n: int, fuel: nat) -> Conv
    decreases fuel, s, n,
{
    if n <= 0 || n > s.len() {
        Ok((Seq::empty(), Imports::none()))
    } else {
        match inlines_prefix(c, s, n - 1, fuel) {
            Err(e) => Err(e),
            Ok((a, u1)) => match inline_conv(c, s[n - 1], fuel) {
                Err(e) => Err(e),
                Ok((b, u2)) => Ok((a + b, u1.union(u2))),
            },
        }
    }
}

/// Inline nodes converted and concatenated.
#[verifier::opaque]
pub open spec fn inlines_conv(c: Ctx, s: Seq<Node>, fuel: nat) -> Conv
    decreases fuel, s, s.len() + 1,
{
    inlines_prefix(c, s, s.len() as int, fuel)
}

/// What a node in text position converts to. `fuel` bounds how deep
/// footnotes expand inside one another.
#[verifier::opaque]
pub open spec fn inline_conv(c: Ctx, n: Node, fuel: nat) -> Conv
    decreases fuel, n, 0int,
{
    match n.kind {
        NodeKind::JsxText { name, children } => match inlines_conv(c, children@, fuel) {
            Err(e) => Err(e),
            Ok((body, u)) => jsx_text_conv(opt_view(name), body, u),
        },
        NodeKind::Strong { children } => match inlines_conv(c, children@, fuel) {
            Err(e) => Err(e),
            Ok((body, u)) => if body.contains('*') {
                Err(ConvertError::StarInStrong)
            } else {
                Ok(("*"@ + body + "*"@, u))
            },
        },
        NodeKind::Emphasis { children } => match inlines_conv(c, children@, fuel) {
            Err(e) => Err(e),
            Ok((body, u)) => if body.contains('_') {
                Err(ConvertError::UnderscoreInEmphasis)
            } else {
                Ok(("_"@ + body + "_"@, u))
            },
        },
        NodeKind::Text { value } => Ok((escape_text(value@), Imports::none())),
        NodeKind::InlineCode { value } => inline_code_conv(value@),
        NodeKind::Link { url, title, children } => if title is Some {
            Err(ConvertError::LinkTitle)
        } else {
            match inlines_conv(c, children@, fuel) {
                Err(e) => Err(e),
                Ok((body, u)) => match link_conv(url@, body) {
                    Err(e) => Err(e),
                    Ok(t) => Ok((t, u)),
                },
            }
        },
        NodeKind::LinkReference { identifier, children } => match inlines_conv(c, children@, fuel) {
            Err(e) => Err(e),
            Ok((body, u)) => match link_ref_conv(c, identifier@, body) {
                Err(e) => Err(e),
                Ok(t) => Ok((t, u)),
            },
        },
        NodeKind::FootnoteReference { identifier } => match lookup_footnote(c.footnotes, identifier@) {
            None => Err(ConvertError::MissingFootnote),
            Some(nodes) => if fuel == 0 {
                Err(ConvertError::FootnoteCycle)
            } else {
                match flow_conv(c, nodes, (fuel - 1) as nat) {
                    Err(e) => Err(e),
                    Ok((t, u)) => Ok((" #footnote["@ + t + "]"@, u)),
                }
            },
        },
        NodeKind::Image { url, alt } => image_conv(url@, alt@),
        NodeKind::Break => Ok(("\\\n"@, Imports::none())),
        _ => Err(ConvertError::UnsupportedInlineNode),
    }
}

/// The first `n` blocks of `s` converted: the markup so far, the separator
/// that comes before the next non-empty block, and the components used.
#[verifier::opaque]
pub open spec fn flow_prefix(c: Ctx, s: Seq<Node>, n: int, fuel: nat) -> Result<
    (Seq<char>, Seq<char>, Imports),
    ConvertError,
>
    decreases fuel, s, n,
{
    if n <= 0 || n > s.len() {
        Ok((Seq::empty(), Seq::empty(), Imports::none()))
    } else {
        match flow_prefix(c, s, n - 1, fuel) {
            Err(e) => Err(e),
            Ok((buf, sep, u1)) => match flow_node_conv(c, s[n - 1], fuel) {
                Err(e) => Err(e),
                Ok((t, u2)) => if t.len() == 0 {
                    Ok((buf, sep, u1.union(u2)))
                } else {
                    Ok((buf + sep + t, separator_after(s, n - 1), u1.union(u2)))
                },
            },
        }
    }
}

/// Blocks converted and joined: blocks that convert to nothing are left out.
#[verifier::opaque]
pub open spec fn flow_conv(c: Ctx, s: Seq<Node>, fuel: nat) -> Conv
    decreases fuel, s, s.len() + 1,
{
    match flow_prefix(c, s, s.len() as int, fuel) {
        Err(e) => Err(e),
        Ok((buf, _sep, u)) => Ok((buf, u)),
    }
}

/// Whether every node of `s` is a list item.
pub open spec fn all_list_items(s: Seq<Node>) -> bool {
    forall|i: int| 0 <= i < s.len() ==> (#[trigger] s[i]).kind is ListItem
}

/// The first `n` items of a list converted, each line ended by a line feed.
#[verifier::opaque]
pub open spec fn items_prefix(
    c: Ctx,
    ordered: bool,
    spread: bool,
    items: Seq<Node>,
    n: int,
    fuel: nat,
) -> Conv
    decreases fuel, items, n,
{
    if n <= 0 || n > items.len() {
        Ok((Seq::empty(), Imports::none()))
    } else {
        match items_prefix(c, ordered, spread, items, n - 1, fuel) {
            Err(e) => Err(e),
            Ok((buf, u1)) => {
                let buf2 = if n - 1 > 0 && spread {
                    buf + "\n"@
                } else {
                    buf
                };
                match items[n - 1].kind {
                    NodeKind::ListItem { children } => match flow_conv(c, children@, fuel) {
                        Err(e) => Err(e),
                        Ok((t, u2)) => Ok(
                            (buf2 + item_lines(lines(t), list_head(ordered)), u1.union(u2)),
                        ),
                    },
                    _ => Err(ConvertError::NotAListItem),
                }
            },
        }
    }
}

/// The first error that the shape of a table's rows gives, if any: a child
/// that is not a row, or a row child that is not a cell.
pub open spec fn table_shape_error(rows: Seq<Node>, n: int) -> Option<ConvertError>
    decreases n,
{
    if n <= 0 || n > rows.len() {
        None
    } else {
        match table_shape_error(rows, n - 1) {
            Some(e) => Some(e),
            None => match rows[n - 1].kind {
                NodeKind::TableRow { children } => if (forall|j: int|
                    0 <= j < children@.len() ==> (#[trigger] children@[j]).kind is TableCell) {
                    None
                } else {
                    Some(ConvertError::NotATableCell)
                },
                _ => Some(ConvertError::NotATableRow),
            },
        }
    }
}

/// The first `n` cells of a row, each converted between `open` and `close`.
#[verifier::opaque]
pub open spec fn cells_prefix(
    c: Ctx,
    cells: Seq<Node>,
    n: int,
    open: Seq<char>,
    close: Seq<char>,
    fuel: nat,
) -> Conv
    decreases fuel, cells, n,
{
    if n <= 0 || n > cells.len() {
        Ok((Seq::empty(), Imports::none()))
    } else {
        match cells_prefix(c, cells, n - 1, open, close, fuel) {
            Err(e) => Err(e),
            Ok((buf, u1)) => match cells[n - 1].kind {
                NodeKind::TableCell { children } => match inlines_conv(c, children@, fuel) {
                    Err(e) => Err(e),
                    Ok((t, u2)) => Ok((buf + open + t + close, u1.union(u2))),
                },
                _ => Err(ConvertError::NotATableCell),
            },
        }
    }
}

/// A row's cells, each converted between `open` and `close`.
#[verifier::opaque]
pub open spec fn row_conv(c: Ctx, row: Node, open: Seq<char>, close: Seq<char>, fuel: nat) -> Conv
    decreases fuel, row, 0int,
{
    match row.kind {
        NodeKind::TableRow { children } => cells_prefix(
            c,
            children@,
            children@.len() as int,
            open,
            close,
            fuel,
        ),
        _ => Err(ConvertError::NotATableRow),
    }
}

/// The first `n` rows of a table converted: the header (the first row, its
/// cells in brackets) and the body (each further row after a line feed, its
/// cells on lines of their own).
#[verifier::opaque]
pub open spec fn table_rows_prefix(c: Ctx, rows: Seq<Node>, n: int, fuel: nat) -> Result<
    (Seq<char>, Seq<char>, Imports),
    ConvertError,
>
    decreases fuel, rows, n,
{
    if n <= 0 || n > rows.len() {
        Ok((Seq::empty(), Seq::empty(), Imports::none()))
    } else {
        match table_rows_prefix(c, rows, n - 1, fuel) {
            Err(e) => Err(e),
            Ok((header, body, u1)) => if n == 1 {
                match row_conv(c, rows[0], "["@, "]"@, fuel) {
                    Err(e) => Err(e),
                    Ok((t, u2)) => Ok((t, body, u1.union(u2))),
                }
            } else {
                match row_conv(c, rows[n - 1], "  ["@, "],\n"@, fuel) {
                    Err(e) => Err(e),
                    Ok((t, u2)) => Ok((header, body + "\n"@ + t, u1.union(u2))),
                }
            },
        }
    }
}

/// What a list converts to: its items' lines, without the final line feed.
#[verifier::opaque]
pub open spec fn list_conv(
    c: Ctx,
    ordered: bool,
    spread: bool,
    start: Option<u32>,
    items: Seq<Node>,
    fuel: nat,
) -> Conv
    decreases fuel, items, items.len() + 1,
{
    if start matches Some(s) && s != 1 {
        Err(ConvertError::ListStart)
    } else if !all_list_items(items) {
        Err(ConvertError::NotAListItem)
    } else {
        match items_prefix(c, ordered, spread, items, items.len() as int, fuel) {
            Err(e) => Err(e),
            Ok((buf, u)) => if buf.len() > 0 && buf.last() == '\n' {
                Ok((buf.drop_last(), u))
            } else {
                Err(ConvertError::EmptyList)
            },
        }
    }
}

/// What a table converts to: a `docs-table` with the first row as header.
#[verifier::opaque]
pub open spec fn table_conv(c: Ctx, rows: Seq<Node>, fuel: nat) -> Conv
    decreases fuel, rows, rows.len() + 2,
{
    match table_shape_error(rows, rows.len() as int) {
        Some(e) => Err(e),
        None => if rows.len() == 0 {
            Err(ConvertError::EmptyTable)
        } else {
            table_markup_conv(c, rows, fuel)
        },
    }
}

/// The `docs-table` of a table with at least one row.
#[verifier::opaque]
pub open spec fn table_markup_conv(c: Ctx, rows: Seq<Node>, fuel: nat) -> Conv
    decreases fuel, rows, rows.len() + 1,
{
    if rows.len() == 0 {
        Err(ConvertError::EmptyTable)
    } else {
        match table_rows_prefix(c, rows, rows.len() as int, fuel) {
            Err(e) => Err(e),
            Ok((header, body, u)) => Ok(
                (
                    "#docs-table(\n  table.header"@ + header + ",\n"@ + body + ")"@,
                    u.with(Import::DocsTable),
                ),
            ),
        }
    }
}

/// What a node in flow position converts to.
#[verifier::opaque]
pub open spec fn flow_node_conv(c: Ctx, b: Node, fuel: nat) -> Conv
    decreases fuel, b, 0int,
{
    match b.kind {
        NodeKind::JsxFlow { name, attributes, children } => match flow_conv(c, children@, fuel) {
            Err(e) => Err(e),
            Ok((body, u)) => jsx_flow_conv(opt_view(name), attributes@, body, u),
        },
        NodeKind::Heading { depth, children } => {
            let d = depth + c.heading_offset;
            if d < 1 {
                Ok((Seq::empty(), Imports::none()))
            } else {
                match inlines_conv(c, children@, fuel) {
                    Err(e) => Err(e),
                    Ok((body, u)) => match heading_conv(c, d, body) {
                        Err(e) => Err(e),
                        Ok(t) => Ok((t, u)),
                    },
                }
            }
        },
        NodeKind::Code { value, lang } => code_block_conv(c.source, value@, opt_view(lang), b.position),
        NodeKind::ThematicBreak => Ok(("#divider()"@, Imports::none())),
        NodeKind::Blockquote { children } => match flow_conv(c, children@, fuel) {
            Err(e) => Err(e),
            Ok((body, u)) => Ok((call_blocky_markup("quote(block: true)"@, body), u)),
        },
        NodeKind::List { ordered, spread, start, children } => list_conv(
            c,
            ordered,
            spread,
            start,
            children@,
            fuel,
        ),
        NodeKind::Table { children } => table_conv(c, children@, fuel),
        NodeKind::Paragraph { children } => inlines_conv(c, children@, fuel),
        NodeKind::Definition { .. } => Ok((Seq::empty(), Imports::none())),
        NodeKind::FootnoteDefinition { .. } => Ok((Seq::empty(), Imports::none())),
        _ => Err(ConvertError::UnsupportedFlowNode),
    }
}

// ---------------------------------------------------------------------------
// Documents
// ---------------------------------------------------------------------------

/// The link definitions (identifier, URL) among `s`, in order.
pub open spec fn link_defs_of(s: Seq<Node>) -> Seq<(Seq<char>, Seq<char>)>
    decreases s.len(),
{
    if s.len() == 0 {
        Seq::empty()
    } else {
        let p = link_defs_of(s.drop_last());
        match s.last().kind {
            NodeKind::Definition { identifier, url } => p.push((identifier@, url@)),
            _ => p,
        }
    }
}

/// The footnote definitions (identifier, content) among `s`, in order.
pub open spec fn footnote_defs_of(s: Seq<Node>) -> Seq<(Seq<char>, Seq<Node>)>
    decreases s.len(),
{
    if s.len() == 0 {
        Seq::empty()
    } else {
        let p = footnote_defs_of(s.drop_last());
        match s.last().kind {
            NodeKind::FootnoteDefinition { identifier, children } => p.push(
                (identifier@, children@),
            ),
            _ => p,
        }
    }
}

/// The context in which the top-level nodes `children` of a document with the
/// source text `source` are converted.
pub open spec fn document_ctx(
    source: Seq<char>,
    path: Option<Seq<char>>,
    heading_offset: int,
    children: Seq<Node>,
) -> Ctx {
    Ctx {
        source,
        path,
        heading_offset,
        links: link_defs_of(children),
        footnotes: footnote_defs_of(children),
    }
}

/// The content of the first heading of depth one among `s`.
pub open spec fn first_title_heading(s: Seq<Node>) -> Option<Seq<Node>>
    decreases s.len(),
{
    if s.len() == 0 {
        None
    } else {
        match s[0].kind {
            NodeKind::Heading { depth, children } => if depth == 1 {
                Some(children@)
            } else {
                first_title_heading(s.drop_first())
            },
            _ => first_title_heading(s.drop_first()),
        }
    }
}

/// A document's metadata: its title and description, where it has front
/// matter. A title missing from the front matter is taken from the first
/// heading of depth one, converted, if there is one.
pub enum MetaInfo {
    Absent,
    Present { title: Option<Seq<char>>, description: Option<Seq<char>> },
}

/// The metadata of a document and the components its title needs.
pub open spec fn metadata_conv(c: Ctx, front_matter: Option<Metadata>, children: Seq<Node>, fuel: nat) -> Result<
    (MetaInfo, Imports),
    ConvertError,
> {
    match front_matter {
        None => Ok((MetaInfo::Absent, Imports::none())),
        Some(m) => {
            let description = opt_view(m.description);
            match opt_view(m.title) {
                Some(t) => Ok((MetaInfo::Present { title: Some(t), description }, Imports::none())),
                None => match first_title_heading(children) {
                    None => Ok((MetaInfo::Present { title: None, description }, Imports::none())),
                    Some(h) => match inlines_conv(c, h, fuel) {
                        Err(e) => Err(e),
                        Ok((t, u)) => Ok((MetaInfo::Present { title: Some(t), description }, u)),
                    },
                },
            }
        },
    }
}

/// The lines of the `docs-chapter` call that the metadata gives.
pub open spec fn title_line(meta: MetaInfo) -> Seq<char> {
    match meta {
        MetaInfo::Present { title: Some(t), .. } => "  title: "@ + debug_quoted(t) + ",\n"@,
        _ => Seq::empty(),
    }
}

/// The description line of the `docs-chapter` call that the metadata gives.
pub open spec fn description_line(meta: MetaInfo) -> Seq<char> {
    match meta {
        MetaInfo::Present { description: Some(d), .. } => "  description: "@ + debug_quoted(
            replace_char(d, '\n', ' '),
        ) + ",\n"@,
        _ => Seq::empty(),
    }
}

/// The preamble of a converted document: the imports and the `docs-chapter`
/// call for a docs page, a plain import for the changelog, nothing without a
/// path.
pub open spec fn preamble(path: Option<Seq<char>>, meta: MetaInfo, used: Imports) -> Seq<char> {
    match path {
        None => Seq::empty(),
        Some(p) => if contains_seq(p, "changelog"@) {
            "#import \"utils.typ\": *\n"@ + "\n"@
        } else {
            let imports = used.with(Import::DocsChapter);
            "#import \""@ + repeat_seq("../"@, component_count(p)) + "components/index.typ\": "@
                + join(imports.names(), ", "@) + "\n"@ + "\n"@ + "#show: docs-chapter.with(\n"@
                + title_line(meta) + "  route: \"/"@ + without_extension(p) + "\",\n"@
                + description_line(meta) + ")\n"@ + "\n"@
        },
    }
}

/// What a document converts to, given its front matter and its top-level
/// nodes after it: its preamble followed by its converted flow content.
/// Footnotes may expand inside one another as deep as there are footnote
/// definitions; deeper, some footnote would expand inside itself.
pub open spec fn document_parts_conv(
    source: Seq<char>,
    front_matter: Option<Metadata>,
    children: Seq<Node>,
    path: Option<Seq<char>>,
    heading_offset: int,
) -> Result<Seq<char>, ConvertError> {
    let c = document_ctx(source, path, heading_offset, children);
    let fuel = footnote_defs_of(children).len();
    match metadata_conv(c, front_matter, children, fuel) {
        Err(e) => Err(e),
        Ok((meta, u0)) => match flow_conv(c, children, fuel) {
            Err(e) => Err(e),
            Ok((flow, u1)) => Ok(preamble(path, meta, u0.union(u1)) + flow),
        },
    }
}

/// What a parsed document converts to; see `document_parts_conv`.
pub open spec fn document_conv(
    source: Seq<char>,
    doc: Document,
    path: Option<Seq<char>>,
    heading_offset: int,
) -> Result<Seq<char>, ConvertError> {
    document_parts_conv(source, doc.front_matter, doc.children@, path, heading_offset)
}

/// Whether the parsed nodes begin with front matter.
pub open spec fn has_front_matter(nodes: Seq<Node>) -> bool {
    nodes.len() > 0 && nodes[0].kind is Yaml
}

/// The text of the front matter that begins the parsed nodes, if any.
pub open spec fn front_matter_text(nodes: Seq<Node>) -> Option<Seq<char>> {
    if nodes.len() > 0 {
        match nodes[0].kind {
            NodeKind::Yaml { value } => Some(value@),
            _ => None,
        }
    } else {
        None
    }
}

/// What Markdown text converts to, given the top-level nodes it parses into:
/// with `front_matter` as the reading of the front matter node that may begin
/// them, a document of the nodes that follow that node.
pub open spec fn parsed_conv(
    source: Seq<char>,
    front_matter: Option<Metadata>,
    nodes: Seq<Node>,
    path: Option<Seq<char>>,
    heading_offset: int,
) -> Result<Seq<char>, ConvertError> {
    if has_front_matter(nodes) {
        document_parts_conv(source, front_matter, nodes.drop_first(), path, heading_offset)
    } else {
        document_parts_conv(source, None, nodes, path, heading_offset)
    }
}

// ---------------------------------------------------------------------------
// Laws
// ---------------------------------------------------------------------------

/// A raw block is its content between two equal fences of at least three
/// backticks, and the content never holds such a fence: the content cannot
/// end the block early.
pub proof fn lemma_raw_block_fenced(tag: Seq<char>, value: Seq<char>)
    ensures
        exists|n: nat|
            #![trigger repeat_char('`', n)]
            n >= 3 && raw_block(tag, value) == repeat_char('`', n) + tag + "\n"@ + value + "\n"@
                + repeat_char('`', n) && !contains_seq(value, repeat_char('`', n)),
{
    let n: nat = if max_backtick_run(value) + 1 >= 3 {
        (max_backtick_run(value) + 1) as nat
    } else {
        3
    };
    lemma_longer_fence_absent(value, n);
    assert(raw_block(tag, value) == repeat_char('`', n) + tag + "\n"@ + value + "\n"@ + repeat_char(
        '`',
        n,
    ));
}

/// Inline code is its content (line feeds turned into spaces) between two
/// equal runs of backticks that the content never holds: the content cannot
/// end the raw text early.
pub proof fn lemma_inline_code_fenced(v: Seq<char>)
    ensures
        inline_code_fence(v) >= 1,
        exists|pre: Seq<char>, post: Seq<char>|
            inline_code_markup(v) == repeat_char('`', inline_code_fence(v)) + pre + replace_char(
                v,
                '\n',
                ' ',
            ) + post + repeat_char('`', inline_code_fence(v)) && pre.len() <= 1 && post.len() <= 1
                && !pre.contains('`') && !post.contains('`'),
        !contains_seq(replace_char(v, '\n', ' '), repeat_char('`', inline_code_fence(v))),
{
    reveal_strlit(" ");
    let n = inline_code_fence(v);
    lemma_replace_keeps_backtick_runs(v, '\n', ' ');
    lemma_longer_fence_absent(replace_char(v, '\n', ' '), n);
    let pre = if starts_with(v, "`"@) || n >= 3 {
        " "@
    } else {
        Seq::empty()
    };
    let post = if ends_with(v, "`"@) {
        " "@
    } else {
        Seq::empty()
    };
    assert(inline_code_markup(v) == repeat_char('`', n) + pre + replace_char(v, '\n', ' ') + post
        + repeat_char('`', n));
    assert(!pre.contains('`'));
    assert(!post.contains('`'));
}

/// Whitespace turned into spaces, as text conversion does.
pub open spec fn spaced(s: Seq<char>) -> Seq<char> {
    Seq::new(
        s.len(),
        |i: int|
            if escape_char(s[i]) == seq![' '] {
                ' '
            } else {
                s[i]
            },
    )
}

/// Typst text read back: a backslash followed by a character stands for that
/// character.
pub open spec fn unescape(t: Seq<char>) -> Seq<char>
    decreases t.len(),
{
    if t.len() == 0 {
        Seq::empty()
    } else if t[0] == '\\' && t.len() >= 2 {
        seq![t[1]] + unescape(t.skip(2))
    } else {
        seq![t[0]] + unescape(t.drop_first())
    }
}

proof fn lemma_escape_text_concat(a: Seq<char>, b: Seq<char>)
    ensures
        escape_text(a + b) == escape_text(a) + escape_text(b),
    decreases b.len(),
{
    if b.len() > 0 {
        assert((a + b).drop_last() == a + b.drop_last());
        lemma_escape_text_concat(a, b.drop_last());
    } else {
        assert(a + b == a);
    }
}

/// Converted text reads back as the text it came from, with its whitespace turned
/// into spaces, and it holds no line feed: every character that Typst markup
/// gives a meaning comes out escaped, and nothing else does.
pub proof fn lemma_escape_text_round_trip(s: Seq<char>)
    ensures
        unescape(escape_text(s)) == spaced(s),
        !escape_text(s).contains('\n'),
    decreases s.len(),
{
    if s.len() > 0 {
        let rest = s.drop_first();
        lemma_escape_text_concat(seq![s[0]], rest);
        assert(seq![s[0]] + rest == s);
        assert(seq![s[0]].drop_last() == Seq::<char>::empty());
        assert(escape_text(Seq::<char>::empty()) == Seq::<char>::empty());
        assert(escape_text(seq![s[0]]) == Seq::<char>::empty() + escape_char(s[0]));
        assert(escape_text(seq![s[0]]) == escape_char(s[0]));
        lemma_escape_text_round_trip(rest);
        let e = escape_char(s[0]);
        let t = escape_text(s);
        assert(t == e + escape_text(rest));
        if e.len() == 2 {
            assert(t.skip(2) == escape_text(rest));
        } else {
            assert(t.drop_first() == escape_text(rest));
        }
        assert(spaced(s) == seq![spaced(s)[0]] + spaced(rest));
        assert forall|i: int| 0 <= i < t.len() implies t[i] != '\n' by {
            if i >= e.len() {
                assert(t[i] == escape_text(rest)[i - e.len()]);
            }
        }
    }
}

/// A link definition is read back by its identifier: the last definition
/// added wins, and the lookups of other identifiers stay as they were.
pub proof fn lemma_link_definition_read_back(
    defs: Seq<(Seq<char>, Seq<char>)>,
    id: Seq<char>,
    url: Seq<char>,
    other: Seq<char>,
)
    ensures
        lookup_link(defs.push((id, url)), id) == Some(url),
        other != id ==> lookup_link(defs.push((id, url)), other) == lookup_link(defs, other),
{
    assert(defs.push((id, url)).drop_last() == defs);
}

/// A footnote definition is read back by its identifier: the last definition
/// added wins, and the lookups of other identifiers stay as they were.
pub proof fn lemma_footnote_definition_read_back(
    defs: Seq<(Seq<char>, Seq<Node>)>,
    id: Seq<char>,
    content: Seq<Node>,
    other: Seq<char>,
)
    ensures
        lookup_footnote(defs.push((id, content)), id) == Some(content),
        other != id ==> lookup_footnote(defs.push((id, content)), other) == lookup_footnote(
            defs,
            other,
        ),
{
    assert(defs.push((id, content)).drop_last() == defs);
}

/// A converted heading is a single line.
pub proof fn lemma_heading_one_line(c: Ctx, depth: int, body: Seq<char>)
    ensures
        heading_conv(c, depth, body) matches Ok(t) ==> !t.contains('\n'),
{
    reveal_strlit(" ");
    if let Some(patched) = match heading_matches_of(heading_pattern(), body) {
        Some(ms) => labels_replaced(body, ms),
        None => None,
    } {
        if !patched.contains('\n') && !(in_changelog(c) && patched == "Contributors <contributors>"@) {
            let t = repeat_char('=', depth as nat) + " "@ + patched;
            assert forall|i: int| 0 <= i < t.len() implies t[i] != '\n' by {
                if i > depth as nat {
                    assert(t[i] == patched[i - depth as nat - 1]);
                }
            }
        }
    }
}

/// A heading of depth `depth` becomes a Typst heading of depth `depth` plus
/// the context's heading offset: that many `=` signs and a space. A heading
/// that the offset takes to depth zero or less is left out.
pub proof fn lemma_heading_level(c: Ctx, b: Node, fuel: nat)
    ensures
        b.kind is Heading ==> ({
            let d = b.kind->Heading_depth + c.heading_offset;
            flow_node_conv(c, b, fuel) matches Ok((t, _)) ==> {
                &&& d < 1 ==> t.len() == 0
                &&& t.len() > 0 ==> d >= 1 && t.len() > d && t.take(d) == repeat_char('=', d as nat)
                    && t[d] == ' '
            }
        }),
{
    reveal_strlit(" ");
    lemma_flow_node_conv_unfold(c, b, fuel);
    if let NodeKind::Heading { depth, children } = b.kind {
        if let Ok((t, _)) = flow_node_conv(c, b, fuel) {
            let d = depth + c.heading_offset;
            if t.len() > 0 {
                let body = inlines_conv(c, children@, fuel)->Ok_0.0;
                let patched = labels_replaced(body, heading_matches_of(heading_pattern(), body)->0)->0;
                assert(t == repeat_char('=', d as nat) + " "@ + patched);
                assert(t.take(d) =~= repeat_char('=', d as nat));
            }
        }
    }
}

/// Every line of `b` is ended by a line feed and is empty or begins with the
/// list marker `head` or with two spaces.
pub open spec fn marked_lines(b: Seq<char>, head: Seq<char>) -> bool {
    &&& b.len() == 0 || b.last() == '\n'
    &&& forall|i: int|
        #![trigger b.skip(i)]
        0 <= i < b.len() && (i == 0 || b[i - 1] == '\n') ==> b[i] == '\n' || starts_with(b.skip(i), head)
            || starts_with(b.skip(i), "  "@)
}

proof fn lemma_starts_with_extend(a: Seq<char>, b: Seq<char>, i: int, p: Seq<char>)
    requires
        0 <= i <= a.len(),
        starts_with(a.skip(i), p),
    ensures
        starts_with((a + b).skip(i), p),
{
    assert((a + b).skip(i).take(p.len() as int) == a.skip(i).take(p.len() as int));
}

proof fn lemma_marked_concat(a: Seq<char>, b: Seq<char>, head: Seq<char>)
    requires
        marked_lines(a, head),
        marked_lines(b, head),
    ensures
        marked_lines(a + b, head),
{
    let ab = a + b;
    assert forall|i: int|
        #![trigger ab.skip(i)]
        0 <= i < ab.len() && (i == 0 || ab[i - 1] == '\n') implies ab[i] == '\n' || starts_with(
        ab.skip(i),
        head,
    ) || starts_with(ab.skip(i), "  "@) by {
        if i < a.len() {
            assert(ab[i] == a[i]);
            if i > 0 {
                assert(ab[i - 1] == a[i - 1]);
            }
            assert(a[i] == '\n' || starts_with(a.skip(i), head) || starts_with(a.skip(i), "  "@));
            if starts_with(a.skip(i), head) {
                lemma_starts_with_extend(a, b, i, head);
            }
            if starts_with(a.skip(i), "  "@) {
                lemma_starts_with_extend(a, b, i, "  "@);
            }
        } else {
            let j = i - a.len();
            assert(ab[i] == b[j]);
            if j > 0 {
                assert(ab[i - 1] == b[j - 1]);
            }
            assert(ab.skip(i) == b.skip(j));
            assert(b[j] == '\n' || starts_with(b.skip(j), head) || starts_with(b.skip(j), "  "@));
        }
    }
    if b.len() > 0 {
        assert(ab.last() == b.last());
    } else {
        assert(ab == a);
    }
}

proof fn lemma_marked_line(h: Seq<char>, l: Seq<char>, head: Seq<char>)
    requires
        h == head || h == "  "@,
        h.len() > 0,
        !h.contains('\n'),
        !l.contains('\n'),
    ensures
        marked_lines(h + l + "\n"@, head),
{
    reveal_strlit("\n");
    let b = h + l + "\n"@;
    assert forall|i: int|
        #![trigger b.skip(i)]
        0 <= i < b.len() && (i == 0 || b[i - 1] == '\n') implies b[i] == '\n' || starts_with(
        b.skip(i),
        head,
    ) || starts_with(b.skip(i), "  "@) by {
        if i == 0 {
            assert(b.skip(0).take(h.len() as int) == h);
        } else if i - 1 < h.len() {
            assert(b[i - 1] == h[i - 1]);
        } else {
            assert(b[i - 1] == l[i - 1 - h.len()]);
        }
    }
}

proof fn lemma_item_lines_marked(ls: Seq<Seq<char>>, head: Seq<char>)
    requires
        forall|k: int| 0 <= k < ls.len() ==> !(#[trigger] ls[k]).contains('\n'),
        head.len() > 0,
        !head.contains('\n'),
    ensures
        marked_lines(item_lines(ls, head), head),
    decreases ls.len(),
{
    if ls.len() > 0 {
        let init = ls.drop_last();
        assert forall|k: int| 0 <= k < init.len() implies !(#[trigger] init[k]).contains('\n') by {
            assert(init[k] == ls[k]);
        }
        lemma_item_lines_marked(init, head);
        let h = if ls.len() == 1 {
            head
        } else {
            "  "@
        };
        reveal_strlit("  ");
        assert(!"  "@.contains('\n'));
        assert(!ls[ls.len() - 1].contains('\n'));
        lemma_marked_line(h, ls.last(), head);
        lemma_marked_concat(item_lines(init, head), h + ls.last() + "\n"@, head);
        assert(item_lines(ls, head) == item_lines(init, head) + (h + ls.last() + "\n"@));
    } else {
        assert(item_lines(ls, head) == Seq::<char>::empty());
    }
}

proof fn lemma_items_prefix_marked(c: Ctx, ordered: bool, spread: bool, items: Seq<Node>, n: int, fuel: nat)
    ensures
        items_prefix(c, ordered, spread, items, n, fuel) matches Ok((buf, _)) ==> marked_lines(
            buf,
            list_head(ordered),
        ),
    decreases n,
{
    reveal_strlit("- ");
    reveal_strlit("+ ");
    reveal_strlit("\n");
    let head = list_head(ordered);
    assert(!head.contains('\n'));
    lemma_items_prefix_unfold(c, ordered, spread, items, n, fuel);
    if 0 < n <= items.len() {
        lemma_items_prefix_marked(c, ordered, spread, items, n - 1, fuel);
        if let Ok((buf, _)) = items_prefix(c, ordered, spread, items, n - 1, fuel) {
            let buf2 = if n - 1 > 0 && spread {
                buf + "\n"@
            } else {
                buf
            };
            if n - 1 > 0 && spread {
                let nl = "\n"@;
                assert forall|i: int|
                    #![trigger nl.skip(i)]
                    0 <= i < nl.len() && (i == 0 || nl[i - 1] == '\n') implies nl[i] == '\n'
                    || starts_with(nl.skip(i), head) || starts_with(nl.skip(i), "  "@) by {}
                lemma_marked_concat(buf, nl, head);
            }
            if let NodeKind::ListItem { children } = items[n - 1].kind {
                if let Ok((t, _)) = flow_conv(c, children@, fuel) {
                    lemma_lines_no_line_feed(t);
                    lemma_item_lines_marked(lines(t), head);
                    lemma_marked_concat(buf2, item_lines(lines(t), head), head);
                }
            }
        }
    } else {
        assert(marked_lines(Seq::<char>::empty(), head));
    }
}

/// Every line of a converted list begins with the list marker (`- ` or
/// `+ `), or with two spaces where it continues an item, or is empty.
pub proof fn lemma_list_lines_marked(
    c: Ctx,
    ordered: bool,
    spread: bool,
    start: Option<u32>,
    items: Seq<Node>,
    fuel: nat,
)
    ensures
        list_conv(c, ordered, spread, start, items, fuel) matches Ok((t, _)) ==> forall|i: int|
            #![trigger t.skip(i)]
            0 <= i < t.len() && (i == 0 || t[i - 1] == '\n') ==> t[i] == '\n' || starts_with(
                t.skip(i),
                list_head(ordered),
            ) || starts_with(t.skip(i), "  "@),
{
    reveal_strlit("- ");
    reveal_strlit("+ ");
    reveal_strlit("  ");
    lemma_list_conv_unfold(c, ordered, spread, start, items, fuel);
    lemma_items_prefix_marked(c, ordered, spread, items, items.len() as int, fuel);
    if let Ok((t, _)) = list_conv(c, ordered, spread, start, items, fuel) {
        let buf = items_prefix(c, ordered, spread, items, items.len() as int, fuel)->Ok_0.0;
        let head = list_head(ordered);
        assert(t == buf.drop_last());
        assert forall|i: int|
            #![trigger t.skip(i)]
            0 <= i < t.len() && (i == 0 || t[i - 1] == '\n') implies t[i] == '\n' || starts_with(
            t.skip(i),
            head,
        ) || starts_with(t.skip(i), "  "@) by {
            assert(buf[i] == t[i]);
            if i > 0 {
                assert(buf[i - 1] == t[i - 1]);
            }
            assert(buf[i] == '\n' || starts_with(buf.skip(i), head) || starts_with(buf.skip(i), "  "@));
            if starts_with(buf.skip(i), head) || starts_with(buf.skip(i), "  "@) {
                let p = if starts_with(buf.skip(i), head) {
                    head
                } else {
                    "  "@
                };
                assert(buf.skip(i)[1] == p[1]);
                assert(buf[i + 1] == ' ');
                assert(i + 2 <= t.len());
                assert(t.skip(i).take(2) == buf.skip(i).take(2));
            }
        }
    }
}

/// The import line of a converted docs page at `p`, importing `imports`.
pub open spec fn import_line(p: Seq<char>, imports: Imports) -> Seq<char> {
    "#import \""@ + repeat_seq("../"@, component_count(p)) + "components/index.typ\": "@ + join(
        imports.names(),
        ", "@,
    ) + "\n"@
}

/// A converted docs page (other than the changelog) begins with a line that
/// imports `docs-chapter` and exactly the components that the conversions of
/// its title and its body use.
pub proof fn lemma_page_imports(
    source: Seq<char>,
    front_matter: Option<Metadata>,
    children: Seq<Node>,
    p: Seq<char>,
    heading_offset: int,
)
    ensures
        !contains_seq(p, "changelog"@) && document_parts_conv(
            source,
            front_matter,
            children,
            Some(p),
            heading_offset,
        ) is Ok ==> {
            let c = document_ctx(source, Some(p), heading_offset, children);
            let fuel = footnote_defs_of(children).len();
            let used = metadata_conv(c, front_matter, children, fuel)->Ok_0.1.union(
                flow_conv(c, children, fuel)->Ok_0.1,
            );
            let imports = used.with(Import::DocsChapter);
            &&& starts_with(
                document_parts_conv(source, front_matter, children, Some(p), heading_offset)->Ok_0,
                import_line(p, imports),
            )
            &&& imports.docs_chapter
            &&& used.within(imports)
        },
{
    let c = document_ctx(source, Some(p), heading_offset, children);
    let fuel = footnote_defs_of(children).len();
    if !contains_seq(p, "changelog"@) {
        if let Ok((meta, u0)) = metadata_conv(c, front_matter, children, fuel) {
            if let Ok((flow, u1)) = flow_conv(c, children, fuel) {
                let imports = u0.union(u1).with(Import::DocsChapter);
                let line = import_line(p, imports);
                let pre = preamble(Some(p), meta, u0.union(u1));
                let rest = "\n"@ + "#show: docs-chapter.with(\n"@ + title_line(meta) + "  route: \"/"@
                    + without_extension(p) + "\",\n"@ + description_line(meta) + ")\n"@ + "\n"@;
                assert(pre == line + rest);
                let t = pre + flow;
                assert(t.take(line.len() as int) == line);
            }
        }
    }
}

// ---------------------------------------------------------------------------
// Components that converted markup calls are imported
// ---------------------------------------------------------------------------

/// Where converted markup begins with a call of a component, that component
/// is among the imports recorded for it.
pub open spec fn calls_imported(t: Seq<char>, u: Imports) -> bool {
    &&& starts_with(t, "#info["@) ==> u.info
    &&& starts_with(t, "#details["@) ==> u.details
    &&& starts_with(t, "#docs-table("@) ==> u.docs_table
    &&& starts_with(t, "#example("@) ==> u.example
    &&& starts_with(t, "#kbd["@) ==> u.kbd
    &&& starts_with(t, "#docs-figure("@) ==> u.docs_figure
}

/// `t` already decides whether text that begins with it begins with `x`:
/// it is as long as `x`, or differs from `x` within its length.
pub open spec fn decides(t: Seq<char>, x: Seq<char>) -> bool {
    t.len() >= x.len() || exists|i: int| 0 <= i < t.len() && i < x.len() && t[i] != x[i]
}

/// `t` decides every component call (or is empty).
pub open spec fn settled(t: Seq<char>) -> bool {
    t.len() == 0 || {
        &&& decides(t, "#info["@)
        &&& decides(t, "#details["@)
        &&& decides(t, "#docs-table("@)
        &&& decides(t, "#example("@)
        &&& decides(t, "#kbd["@)
        &&& decides(t, "#docs-figure("@)
    }
}

/// Text that begins with `lit`, which differs from `x` at `i`, does not begin
/// with `x`, and decides it.
proof fn lemma_differs_at(t: Seq<char>, lit: Seq<char>, x: Seq<char>, i: int)
    requires
        starts_with(t, lit),
        0 <= i < lit.len(),
        i < x.len(),
        lit[i] != x[i],
    ensures
        !starts_with(t, x),
        decides(t, x),
{
    assert(t[i] == lit[i]) by {
        assert(t.take(lit.len() as int)[i] == t[i]);
    }
    if starts_with(t, x) {
        assert(t.take(x.len() as int)[i] == t[i]);
    }
}

/// Text that begins with `x` decides it.
proof fn lemma_begins_with(t: Seq<char>, x: Seq<char>)
    requires
        starts_with(t, x),
    ensures
        decides(t, x),
{
}

/// Text that does not begin with `#` calls no component and decides every
/// call.
proof fn lemma_no_call(t: Seq<char>)
    requires
        t.len() > 0,
        t[0] != '#',
    ensures
        settled(t),
        forall|u: Imports| calls_imported(t, u),
{
    reveal_strlit("#info[");
    reveal_strlit("#details[");
    reveal_strlit("#docs-table(");
    reveal_strlit("#example(");
    reveal_strlit("#kbd[");
    reveal_strlit("#docs-figure(");
    let one = seq![t[0]];
    assert(t.take(1) =~= one);
    assert(starts_with(t, one));
    lemma_differs_at(t, one, "#info["@, 0);
    lemma_differs_at(t, one, "#details["@, 0);
    lemma_differs_at(t, one, "#docs-table("@, 0);
    lemma_differs_at(t, one, "#example("@, 0);
    lemma_differs_at(t, one, "#kbd["@, 0);
    lemma_differs_at(t, one, "#docs-figure("@, 0);
}

/// Whether text that begins with a non-empty `a` that decides `x` begins with
/// `x` is decided by `a`.
proof fn lemma_decided_concat(a: Seq<char>, b: Seq<char>, x: Seq<char>)
    requires
        a.len() > 0,
        decides(a, x),
    ensures
        starts_with(a + b, x) == starts_with(a, x),
        decides(a + b, x),
{
    if a.len() >= x.len() {
        assert((a + b).take(x.len() as int) == a.take(x.len() as int));
    } else {
        let i = choose|i: int| 0 <= i < a.len() && i < x.len() && a[i] != x[i];
        assert((a + b)[i] == a[i]);
        if starts_with(a + b, x) {
            assert((a + b).take(x.len() as int)[i] == (a + b)[i]);
        }
    }
}

/// Text that begins with a non-empty settled `a` calls what `a` calls.
proof fn lemma_settled_concat(a: Seq<char>, b: Seq<char>, ua: Imports, ub: Imports)
    requires
        a.len() > 0,
        settled(a),
        calls_imported(a, ua),
    ensures
        settled(a + b),
        calls_imported(a + b, ua.union(ub)),
{
    lemma_decided_concat(a, b, "#info["@);
    lemma_decided_concat(a, b, "#details["@);
    lemma_decided_concat(a, b, "#docs-table("@);
    lemma_decided_concat(a, b, "#example("@);
    lemma_decided_concat(a, b, "#kbd["@);
    lemma_decided_concat(a, b, "#docs-figure("@);
}

/// A text begins with a literal it is built from.
proof fn lemma_starts_concat(lit: Seq<char>, rest: Seq<char>)
    ensures
        starts_with(lit + rest, lit),
{
    assert((lit + rest).take(lit.len() as int) =~= lit);
}

/// Markup that begins with a call whose name starts with none of the letters
/// of the components' names (`#super[`, `#gh(`, `#link(`, `#pr(`,
/// `#summary[`, `#quote(`) calls no component.
proof fn lemma_other_call(t: Seq<char>, lit: Seq<char>)
    requires
        starts_with(t, lit),
        lit.len() >= 2,
        lit[1] != 'i' && lit[1] != 'd' && lit[1] != 'e' && lit[1] != 'k',
    ensures
        settled(t),
        forall|u: Imports| calls_imported(t, u),
{
    reveal_strlit("#info[");
    reveal_strlit("#details[");
    reveal_strlit("#docs-table(");
    reveal_strlit("#example(");
    reveal_strlit("#kbd[");
    reveal_strlit("#docs-figure(");
    lemma_differs_at(t, lit, "#info["@, 1);
    lemma_differs_at(t, lit, "#details["@, 1);
    lemma_differs_at(t, lit, "#docs-table("@, 1);
    lemma_differs_at(t, lit, "#example("@, 1);
    lemma_differs_at(t, lit, "#kbd["@, 1);
    lemma_differs_at(t, lit, "#docs-figure("@, 1);
}

/// What markup that begins with one of the component calls (or with
/// `#divider()`) calls: that component alone.
proof fn lemma_component_call(t: Seq<char>, lit: Seq<char>)
    requires
        starts_with(t, lit),
        lit == "#info["@ || lit == "#details["@ || lit == "#docs-table("@ || lit == "#example("@
            || lit == "#kbd["@ || lit == "#docs-figure("@ || lit == "#divider()"@,
    ensures
        settled(t),
        starts_with(t, "#info["@) <==> lit == "#info["@,
        starts_with(t, "#details["@) <==> lit == "#details["@,
        starts_with(t, "#docs-table("@) <==> lit == "#docs-table("@,
        starts_with(t, "#example("@) <==> lit == "#example("@,
        starts_with(t, "#kbd["@) <==> lit == "#kbd["@,
        starts_with(t, "#docs-figure("@) <==> lit == "#docs-figure("@,
        "#details["@ != "#example("@,
{
    reveal_strlit("#info[");
    reveal_strlit("#details[");
    reveal_strlit("#docs-table(");
    reveal_strlit("#example(");
    reveal_strlit("#kbd[");
    reveal_strlit("#docs-figure(");
    reveal_strlit("#divider()");
    let i = "#info["@;
    let d = "#details["@;
    let tb = "#docs-table("@;
    let e = "#example("@;
    let k = "#kbd["@;
    let f = "#docs-figure("@;
    assert(d[1] != e[1]);
    if lit == i {
        lemma_begins_with(t, i);
        lemma_differs_at(t, lit, d, 1);
        lemma_differs_at(t, lit, tb, 1);
        lemma_differs_at(t, lit, e, 1);
        lemma_differs_at(t, lit, k, 1);
        lemma_differs_at(t, lit, f, 1);
    } else if lit == d {
        lemma_begins_with(t, d);
        lemma_differs_at(t, lit, i, 1);
        lemma_differs_at(t, lit, tb, 2);
        lemma_differs_at(t, lit, e, 1);
        lemma_differs_at(t, lit, k, 1);
        lemma_differs_at(t, lit, f, 2);
    } else if lit == tb {
        lemma_begins_with(t, tb);
        lemma_differs_at(t, lit, i, 1);
        lemma_differs_at(t, lit, d, 2);
        lemma_differs_at(t, lit, e, 1);
        lemma_differs_at(t, lit, k, 1);
        lemma_differs_at(t, lit, f, 6);
    } else if lit == e {
        lemma_begins_with(t, e);
        lemma_differs_at(t, lit, i, 1);
        lemma_differs_at(t, lit, d, 1);
        lemma_differs_at(t, lit, tb, 1);
        lemma_differs_at(t, lit, k, 1);
        lemma_differs_at(t, lit, f, 1);
    } else if lit == k {
        lemma_begins_with(t, k);
        lemma_differs_at(t, lit, i, 1);
        lemma_differs_at(t, lit, d, 1);
        lemma_differs_at(t, lit, tb, 1);
        lemma_differs_at(t, lit, e, 1);
        lemma_differs_at(t, lit, f, 1);
    } else if lit == f {
        lemma_begins_with(t, f);
        lemma_differs_at(t, lit, i, 1);
        lemma_differs_at(t, lit, d, 2);
        lemma_differs_at(t, lit, tb, 6);
        lemma_differs_at(t, lit, e, 1);
        lemma_differs_at(t, lit, k, 1);
    } else {
        lemma_differs_at(t, lit, i, 1);
        lemma_differs_at(t, lit, d, 2);
        lemma_differs_at(t, lit, tb, 2);
        lemma_differs_at(t, lit, e, 1);
        lemma_differs_at(t, lit, k, 1);
        lemma_differs_at(t, lit, f, 2);
    }
}

/// Converted text never begins with `#`.
proof fn lemma_escape_text_first(s: Seq<char>)
    ensures
        escape_text(s).len() == 0 <==> s.len() == 0,
        s.len() > 0 ==> escape_text(s)[0] != '#',
{
    if s.len() > 0 {
        lemma_escape_text_concat(seq![s[0]], s.drop_first());
        assert(seq![s[0]] + s.drop_first() == s);
        assert(seq![s[0]].drop_last() == Seq::<char>::empty());
        assert(escape_text(Seq::<char>::empty()) == Seq::<char>::empty());
        assert(escape_text(seq![s[0]]) == Seq::<char>::empty() + escape_char(s[0]));
        assert(escape_text(s)[0] == escape_char(s[0])[0]);
    } else {
        assert(escape_text(s) == Seq::<char>::empty());
    }
}

/// Every component that a converted text node calls is imported, and its
/// markup decides every component call.
pub proof fn lemma_inline_calls_imported(c: Ctx, n: Node, fuel: nat)
    ensures
        inline_conv(c, n, fuel) matches Ok((t, u)) ==> settled(t) && calls_imported(t, u),
{
    reveal_strlit("#info[");
    reveal_strlit("#details[");
    reveal_strlit("#docs-table(");
    reveal_strlit("#example(");
    reveal_strlit("#super[");
    reveal_strlit("#kbd[");
    reveal_strlit("#gh(");
    reveal_strlit("#link(");
    reveal_strlit("#pr(");
    reveal_strlit("#docs-figure(");
    reveal_strlit("*");
    reveal_strlit("_");
    reveal_strlit("@");
    reveal_strlit(" #footnote[");
    reveal_strlit("\\\n");
    lemma_inline_conv_unfold(c, n, fuel);
    if let Ok((t, u)) = inline_conv(c, n, fuel) {
        match n.kind {
            NodeKind::JsxText { name, children } => {
                let (body, used) = inlines_conv(c, children@, fuel)->Ok_0;
                if opt_view(name) == Some("sup"@) {
                    lemma_starts_concat("#super["@, body + "]"@);
                    assert(t == "#super["@ + (body + "]"@));
                    lemma_other_call(t, "#super["@);
                } else {
                    lemma_starts_concat("#kbd["@, body + "]"@);
                    assert(t == "#kbd["@ + (body + "]"@));
                    lemma_component_call(t, "#kbd["@);
                }
            },
            NodeKind::Strong { .. } => {
                lemma_no_call(t);
            },
            NodeKind::Emphasis { .. } => {
                lemma_no_call(t);
            },
            NodeKind::Text { value } => {
                lemma_escape_text_first(value@);
                if t.len() > 0 {
                    lemma_no_call(t);
                }
            },
            NodeKind::InlineCode { value } => {
                lemma_inline_code_fenced(value@);
                assert(t[0] == '`');
                lemma_no_call(t);
            },
            NodeKind::Link { url, children, .. } => {
                let body = inlines_conv(c, children@, fuel)->Ok_0.0;
                lemma_link_starts(url@, body);
                if t[0] == '#' {
                    if starts_with(t, "#gh("@) {
                        lemma_other_call(t, "#gh("@);
                    } else {
                        lemma_other_call(t, "#link("@);
                    }
                } else {
                    lemma_no_call(t);
                }
            },
            NodeKind::LinkReference { identifier, children } => {
                let body = inlines_conv(c, children@, fuel)->Ok_0.0;
                lemma_link_ref_starts(c, identifier@, body);
                if t[0] == '#' {
                    if starts_with(t, "#pr("@) {
                        lemma_other_call(t, "#pr("@);
                    } else {
                        lemma_other_call(t, "#link("@);
                    }
                } else {
                    lemma_no_call(t);
                }
            },
            NodeKind::FootnoteReference { .. } => {
                assert(t[0] == ' ');
                lemma_no_call(t);
            },
            NodeKind::Image { url, alt } => {
                let head = "#docs-figure(\n  \""@;
                let rest = url@ + "\",\n  alt: \""@ + alt@ + "\",\n)"@;
                reveal_strlit("#docs-figure(\n  \"");
                assert(head.take(13) =~= "#docs-figure("@);
                assert(t =~= head + rest);
                assert((head + rest).take(13) =~= head.take(13));
                lemma_component_call(t, "#docs-figure("@);
            },
            NodeKind::Break => {
                lemma_no_call(t);
            },
            _ => {},
        }
    }
}

/// Converted inline nodes, concatenated, call only components they import,
/// and their markup decides every component call.
pub proof fn lemma_inlines_calls_imported(c: Ctx, s: Seq<Node>, n: int, fuel: nat)
    ensures
        inlines_prefix(c, s, n, fuel) matches Ok((t, u)) ==> settled(t) && calls_imported(t, u),
    decreases n,
{
    reveal_strlit("#info[");
    reveal_strlit("#details[");
    reveal_strlit("#docs-table(");
    reveal_strlit("#example(");
    reveal_strlit("#kbd[");
    reveal_strlit("#docs-figure(");
    lemma_inlines_prefix_unfold(c, s, n, fuel);
    if n > 0 && n <= s.len() {
        lemma_inlines_calls_imported(c, s, n - 1, fuel);
        lemma_inline_calls_imported(c, s[n - 1], fuel);
        if let Ok((a, ua)) = inlines_prefix(c, s, n - 1, fuel) {
            if let Ok((b, ub)) = inline_conv(c, s[n - 1], fuel) {
                if a.len() > 0 {
                    lemma_settled_concat(a, b, ua, ub);
                } else {
                    assert(a + b =~= b);
                }
            }
        }
    }
}

/// In converted inline nodes, every node whose markup begins with a call of a
/// component has that component among the imports of the whole run.
pub proof fn lemma_inlines_each_call_imported(c: Ctx, s: Seq<Node>, n: int, k: int, fuel: nat)
    requires
        0 <= k < n <= s.len(),
    ensures
        inlines_prefix(c, s, n, fuel) matches Ok((_, u)) ==> inline_conv(c, s[k], fuel) matches Ok(
            (tk, uk),
        ) && uk.within(u) && calls_imported(tk, u),
    decreases n,
{
    lemma_inlines_prefix_unfold(c, s, n, fuel);
    lemma_inline_calls_imported(c, s[k], fuel);
    if k < n - 1 {
        lemma_inlines_each_call_imported(c, s, n - 1, k, fuel);
    }
}

/// A call of `func` with a content block begins with `#`, `func` and `[`.
proof fn lemma_blocky_starts(func: Seq<char>, body: Seq<char>)
    ensures
        starts_with(call_blocky_markup(func, body), "#"@ + func + "["@),
{
    reveal_strlit("[\n");
    reveal_strlit("[");
    let t = call_blocky_markup(func, body);
    let x = "#"@ + func + "["@;
    assert(t =~= ("#"@ + func + "[\n"@) + (indent_spec(body) + "\n]"@));
    assert(t.take(x.len() as int) =~= x);
}

/// Every component that the markup of a converted block begins with a call of
/// is among the imports recorded for that block.
pub proof fn lemma_flow_node_calls_imported(c: Ctx, b: Node, fuel: nat)
    ensures
        flow_node_conv(c, b, fuel) matches Ok((t, u)) ==> calls_imported(t, u),
{
    reveal_strlit("#info[");
    reveal_strlit("#details[");
    reveal_strlit("#docs-table(");
    reveal_strlit("#example(");
    reveal_strlit("#kbd[");
    reveal_strlit("#docs-figure(");
    reveal_strlit("#");
    reveal_strlit("[");
    reveal_strlit("info");
    reveal_strlit("details");
    reveal_strlit("summary");
    reveal_strlit("contributors");
    reveal_strlit("div");
    reveal_strlit("quote(block: true)");
    reveal_strlit("#divider()");
    reveal_strlit(" ");
    lemma_flow_node_conv_unfold(c, b, fuel);
    if let Ok((t, u)) = flow_node_conv(c, b, fuel) {
        match b.kind {
            NodeKind::JsxFlow { name, attributes, children } => {
                let (body, used) = flow_conv(c, children@, fuel)->Ok_0;
                let nm = opt_view(name);
                if nm == Some("div"@) {
                    lemma_blocky_starts("info"@, body);
                    assert("div"@.len() != "contributors"@.len());
                    assert(t == call_blocky_markup("info"@, body));
                    assert("#"@ + "info"@ + "["@ =~= "#info["@);
                    lemma_component_call(t, "#info["@);
                } else if nm == Some("details"@) {
                    lemma_blocky_starts("details"@, body);
                    assert(t == call_blocky_markup("details"@, body));
                    assert("#"@ + "details"@ + "["@ =~= "#details["@);
                    lemma_component_call(t, "#details["@);
                } else if nm == Some("summary"@) {
                    lemma_blocky_starts("summary"@, body);
                    let lit = "#"@ + "summary"@ + "["@;
                    assert(t == call_blocky_markup("summary"@, body));
                    assert(lit[1] == 's');
                    lemma_other_call(t, lit);
                } else {
                    assert(t.len() == 0);
                }
            },
            NodeKind::Heading { depth, children } => {
                if t.len() > 0 {
                    let d = depth + c.heading_offset;
                    let body = inlines_conv(c, children@, fuel)->Ok_0.0;
                    assert(heading_conv(c, d, body) == Ok::<Seq<char>, ConvertError>(t));
                    assert(t[0] == '=');
                    lemma_no_call(t);
                }
            },
            NodeKind::ThematicBreak => {
                assert(t.take(t.len() as int) =~= t);
                lemma_component_call(t, "#divider()"@);
            },
            NodeKind::Blockquote { children } => {
                let body = flow_conv(c, children@, fuel)->Ok_0.0;
                lemma_blocky_starts("quote(block: true)"@, body);
                let lit = "#"@ + "quote(block: true)"@ + "["@;
                assert(t == call_blocky_markup("quote(block: true)"@, body));
                assert(lit[1] == 'q');
                lemma_other_call(t, lit);
            },
            NodeKind::List { ordered, spread, start, children } => {
                lemma_list_lines_marked(c, ordered, spread, start, children@, fuel);
                reveal_strlit("- ");
                reveal_strlit("+ ");
                reveal_strlit("  ");
                if t.len() > 0 {
                    assert(t.skip(0) == t);
                    if starts_with(t, list_head(ordered)) {
                        assert(t[0] == list_head(ordered)[0]);
                    } else if starts_with(t, "  "@) {
                        assert(t[0] == "  "@[0]);
                    }
                    lemma_no_call(t);
                }
            },
            NodeKind::Paragraph { children } => {
                lemma_inlines_conv_unfold(c, children@, fuel);
                lemma_inlines_calls_imported(c, children@, children@.len() as int, fuel);
            },
            NodeKind::Code { value, lang } => {
                match code_settings(c.source, opt_view(lang), b.position) {
                    Ok(CodeSettings::Plain(tag)) => {
                        assert(t == raw_block(tag, value@));
                        assert(t[0] == '`');
                        lemma_no_call(t);
                    },
                    Ok(CodeSettings::Example { title, single, zoom }) => {
                        let head = "#example(\n"@;
                        reveal_strlit("#example(\n");
                        assert(head.take(9) =~= "#example("@);
                        assert(t.take(9) =~= head.take(9));
                        lemma_component_call(t, "#example("@);
                        assert(u == Imports::single(Import::Example));
                        assert(u.example);
                    },
                    _ => {},
                }
            },
            NodeKind::Table { children } => {
                lemma_table_conv_unfold(c, children@, fuel);
                lemma_table_markup_conv_unfold(c, children@, fuel);
                let head = "#docs-table(\n  table.header"@;
                reveal_strlit("#docs-table(\n  table.header");
                assert(head.take(12) =~= "#docs-table("@);
                assert(t.take(12) =~= head.take(12));
                lemma_component_call(t, "#docs-table("@);
            },
            _ => {},
        }
    }
}

/// The components a run of blocks uses include those of each of its blocks.
pub proof fn lemma_flow_uses_each_block(c: Ctx, s: Seq<Node>, n: int, k: int, fuel: nat)
    requires
        0 <= k < n <= s.len(),
    ensures
        flow_prefix(c, s, n, fuel) matches Ok((_, _, u)) ==> flow_node_conv(c, s[k], fuel) matches Ok(
            (_, uk),
        ) && uk.within(u),
    decreases n,
{
    lemma_flow_prefix_unfold(c, s, n, fuel);
    if k < n - 1 {
        lemma_flow_uses_each_block(c, s, n - 1, k, fuel);
    }
}

/// On a converted docs page (other than the changelog), every top-level block
/// whose markup begins with a call of a component has that component in the
/// import line the page begins with.
pub proof fn lemma_page_imports_block_calls(
    source: Seq<char>,
    front_matter: Option<Metadata>,
    children: Seq<Node>,
    p: Seq<char>,
    heading_offset: int,
    k: int,
)
    requires
        0 <= k < children.len(),
        !contains_seq(p, "changelog"@),
        document_parts_conv(source, front_matter, children, Some(p), heading_offset) is Ok,
    ensures
        ({
            let c = document_ctx(source, Some(p), heading_offset, children);
            let fuel = footnote_defs_of(children).len();
            let used = metadata_conv(c, front_matter, children, fuel)->Ok_0.1.union(
                flow_conv(c, children, fuel)->Ok_0.1,
            );
            let imports = used.with(Import::DocsChapter);
            &&& starts_with(
                document_parts_conv(source, front_matter, children, Some(p), heading_offset)->Ok_0,
                import_line(p, imports),
            )
            &&& flow_node_conv(c, children[k], fuel) is Ok
            &&& calls_imported(flow_node_conv(c, children[k], fuel)->Ok_0.0, imports)
        }),
{
    let c = document_ctx(source, Some(p), heading_offset, children);
    let fuel = footnote_defs_of(children).len();
    lemma_page_imports(source, front_matter, children, p, heading_offset);
    lemma_flow_conv_unfold(c, children, fuel);
    lemma_flow_uses_each_block(c, children, children.len() as int, k, fuel);
    lemma_flow_node_calls_imported(c, children[k], fuel);
}

/// A converted link begins with `#gh(`, `#link(` or something other than `#`.
proof fn lemma_link_starts(url: Seq<char>, body: Seq<char>)
    ensures
        link_conv(url, body) matches Ok(t) ==> t.len() > 0 && (t[0] != '#' || starts_with(t, "#gh("@)
            || starts_with(t, "#link("@)),
{
    reveal_strlit("#gh(");
    reveal_strlit("#link(");
    reveal_strlit("@");
    if let Ok(t) = link_conv(url, body) {
        if t[0] == '#' {
            if starts_with(url, "http"@) && regex_captures_of(github_url_pattern(), url) == Some(None::<Seq<Option<Seq<char>>>>) {
                lemma_starts_concat("#link("@, debug_quoted(url) + ")["@ + body + "]"@);
                assert(t == "#link("@ + (debug_quoted(url) + ")["@ + body + "]"@));
            } else if let Some(Some(caps)) = regex_captures_of(github_url_pattern(), url) {
                let user = group(caps, 1)->0;
                lemma_starts_concat("#gh("@, debug_quoted(user) + ")"@);
                assert(t == "#gh("@ + (debug_quoted(user) + ")"@));
            }
        }
    }
}

/// A converted link reference begins with `#pr(`, `#link(` or something other
/// than `#`.
proof fn lemma_link_ref_starts(c: Ctx, identifier: Seq<char>, body: Seq<char>)
    ensures
        link_ref_conv(c, identifier, body) matches Ok(t) ==> t.len() > 0 && (t[0] != '#' || starts_with(
            t,
            "#pr("@,
        ) || starts_with(t, "#link("@)),
{
    reveal_strlit("#pr(");
    reveal_strlit("#link(");
    reveal_strlit("@");
    if let Ok(t) = link_ref_conv(c, identifier, body) {
        match lookup_link(c.links, identifier) {
            Some(url) => {
                lemma_starts_concat("#link("@, debug_quoted(url) + ")["@ + body + "]"@);
                assert(t == "#link("@ + (debug_quoted(url) + ")["@ + body + "]"@));
            },
            None => {
                if let Some(Some(caps)) = regex_captures_of(pull_request_pattern(), identifier) {
                    let nr = group(caps, 2)->0;
                    match group(caps, 1) {
                        Some(repo) => {
                            lemma_starts_concat("#pr("@, nr + ", repo: "@ + debug_quoted(repo) + ")"@);
                            assert(t == "#pr("@ + (nr + ", repo: "@ + debug_quoted(repo) + ")"@));
                        },
                        None => {
                            lemma_starts_concat("#pr("@, nr + ")"@);
                            assert(t == "#pr("@ + (nr + ")"@));
                        },
                    }
                }
            },
        }
    }
}

// ---------------------------------------------------------------------------
// A code block's title is quoted after its own start
// ---------------------------------------------------------------------------

/// The UTF-8 encoding of a concatenation is the concatenation of the
/// encodings.
proof fn lemma_encode_concat(a: Seq<char>, b: Seq<char>)
    ensures
        encode_utf8(a + b) == encode_utf8(a) + encode_utf8(b),
    decreases a.len(),
{
    if a.len() == 0 {
        assert(a + b =~= b);
        assert(encode_utf8(a) + encode_utf8(b) =~= encode_utf8(b));
    } else {
        assert((a + b).drop_first() =~= a.drop_first() + b);
        assert((a + b)[0] == a[0]);
        lemma_encode_concat(a.drop_first(), b);
        assert(encode_utf8(a + b) =~= encode_utf8(a) + encode_utf8(b));
    }
}

/// Where the encoding of a prefix ends, a character begins.
proof fn lemma_encode_boundary(a: Seq<char>, b: Seq<char>)
    ensures
        is_char_boundary(encode_utf8(a + b), encode_utf8(a).len() as int),
    decreases a.len(),
{
    let bytes = encode_utf8(a + b);
    encode_utf8_valid_utf8(a + b);
    if a.len() > 0 {
        encode_utf8_first_scalar(a + b);
        assert((a + b)[0] == a[0]);
        assert((a + b).drop_first() =~= a.drop_first() + b);
        lemma_encode_concat(a, b);
        lemma_encode_concat(a.drop_first(), b);
        let first = encode_scalar(a[0] as u32);
        assert(bytes.subrange(first.len() as int, bytes.len() as int) =~= encode_utf8(
            a.drop_first() + b,
        ));
        lemma_encode_boundary(a.drop_first(), b);
    }
}

/// No byte of the encoding of a scalar other than a double quote is the byte
/// of a double quote.
proof fn lemma_scalar_no_quote_byte(s: u32)
    by (bit_vector)
    requires
        s != 0x22u32,
    ensures
        has_width_1_encoding(s) ==> leading_byte_width_1(s) != 0x22u8,
        leading_byte_width_2(s) != 0x22u8,
        leading_byte_width_3(s) != 0x22u8,
        leading_byte_width_4(s) != 0x22u8,
        last_continuation_byte(s) != 0x22u8,
        second_last_continuation_byte(s) != 0x22u8,
        third_last_continuation_byte(s) != 0x22u8,
{
}

/// Text without a double quote encodes to bytes without one.
proof fn lemma_encode_no_quote(a: Seq<char>)
    requires
        !a.contains('"'),
    ensures
        forall|i: int| 0 <= i < encode_utf8(a).len() ==> encode_utf8(a)[i] != 0x22u8,
    decreases a.len(),
{
    if a.len() > 0 {
        assert(a[0] != '"');
        let s = a[0] as u32;
        char_is_scalar(a[0]);
        if s == 0x22u32 {
            char_u32_cast(a[0], s);
            char_u32_cast('"', 0x22u32);
        }
        lemma_scalar_no_quote_byte(s);
        let es = encode_scalar(s);
        assert forall|i: int| 0 <= i < es.len() implies es[i] != 0x22u8 by {
        }
        assert(!a.drop_first().contains('"')) by {
            if a.drop_first().contains('"') {
                let j = choose|j: int| 0 <= j < a.drop_first().len() && a.drop_first()[j] == '"';
                assert(a[j + 1] == '"');
            }
        }
        lemma_encode_no_quote(a.drop_first());
        let er = encode_utf8(a.drop_first());
        assert(encode_utf8(a) == es + er);
        assert forall|i: int| 0 <= i < encode_utf8(a).len() implies encode_utf8(a)[i] != 0x22u8 by {
            if i < es.len() {
                assert(encode_utf8(a)[i] == es[i]);
            } else {
                assert(encode_utf8(a)[i] == er[i - es.len()]);
            }
        }
    }
}

/// A byte found from `from` is the first one at or after it.
proof fn lemma_find_byte_first(bytes: Seq<u8>, from: int, j: int, b: u8)
    requires
        0 <= from <= j < bytes.len(),
        bytes[j] == b,
        forall|k: int| from <= k < j ==> bytes[k] != b,
    ensures
        find_byte(bytes, from, b) == Some(j),
    decreases j - from,
{
    if from < j {
        lemma_find_byte_first(bytes, from + 1, j, b);
    }
}

/// The title of a titled example is the text between the first two double
/// quotes at or after the start of that code block in the source: for a
/// block whose language string is `example:"…"` (or `preview:"…"`) and that
/// starts after `before`, the title is `title` whatever `before` holds, where
/// the source goes on from the block's start with text without a double quote
/// and then `title` in double quotes. The block's start offset counts the
/// bytes of `before` and is no larger than the number of characters of the
/// source (a larger offset is cut down to that number).
pub proof fn lemma_code_title_from_own_offset(
    before: Seq<char>,
    lead: Seq<char>,
    title: Seq<char>,
    rest: Seq<char>,
    kind: Seq<char>,
    quoted: Seq<char>,
    p: Position,
)
    requires
        !lead.contains('"'),
        !title.contains('"'),
        kind == "example"@ || kind == "preview"@,
        quoted.len() > 0,
        quoted[0] == '"',
        p.start_offset == encode_utf8(before).len(),
        p.start_offset <= (before + lead + "\""@ + title + "\""@ + rest).len(),
    ensures
        code_settings(
            before + lead + "\""@ + title + "\""@ + rest,
            Some(kind + ":"@ + quoted),
            Some(p),
        ) == Ok::<CodeSettings, ConvertError>(
            CodeSettings::Example { title: Some(title), single: false, zoom: None },
        ),
{
    reveal_strlit("\"");
    reveal_strlit(":");
    reveal_strlit("example");
    reveal_strlit("preview");
    let q = "\""@;
    let source = before + lead + q + title + q + rest;
    // The language string: the kind, then the quoted title.
    let l = kind + ":"@ + quoted;
    let i = kind.len() as int;
    assert(l.take(i) =~= kind);
    assert(l[i] == ':');
    assert(find_char(l.take(i), ':') is None) by {
        let k = l.take(i);
        assert(k.drop_last().drop_last().drop_last().drop_last().drop_last().drop_last().drop_last()
            =~= Seq::<char>::empty());
        reveal_with_fuel(find_char, 8);
    }
    lemma_find_char_prefix(l, ':', i);
    assert(l.skip(i + 1) =~= quoted);
    // The bytes of the source, piece by piece.
    let eb = encode_utf8(before);
    let el = encode_utf8(lead);
    let eq = encode_utf8(q);
    let et = encode_utf8(title);
    let er = encode_utf8(rest);
    assert(eq =~= seq![0x22u8]) by {
        assert(q.drop_first() =~= Seq::<char>::empty());
        assert(encode_utf8(q.drop_first()) =~= Seq::<u8>::empty());
        assert(q[0] as u32 == 0x22u32);
        assert(leading_byte_width_1(0x22u32) == 0x22u8) by (bit_vector);
        assert(encode_scalar(0x22u32) =~= seq![0x22u8]);
    }
    lemma_encode_concat(before, lead);
    lemma_encode_concat(before + lead, q);
    lemma_encode_concat(before + lead + q, title);
    lemma_encode_concat(before + lead + q + title, q);
    lemma_encode_concat(before + lead + q + title + q, rest);
    let bytes = encode_utf8(source);
    assert(bytes =~= eb + el + eq + et + eq + er);
    let offset = p.start_offset as int;
    let q1: int = eb.len() as int + el.len() as int;
    let q2: int = q1 + 1 + et.len();
    // The block's start is a character boundary.
    assert(source =~= before + (lead + q + title + q + rest));
    lemma_encode_boundary(before, lead + q + title + q + rest);
    // The first double quote after it ends `lead`, the next ends `title`.
    lemma_encode_no_quote(lead);
    lemma_encode_no_quote(title);
    assert forall|k: int| offset <= k < q1 implies bytes[k] != 0x22u8 by {
        assert(bytes[k] == el[k - eb.len()]);
    }
    assert(bytes[q1] == 0x22u8);
    lemma_find_byte_first(bytes, offset, q1, 0x22u8);
    assert forall|k: int| q1 + 1 <= k < q2 implies bytes[k] != 0x22u8 by {
        assert(bytes[k] == et[k - q1 - 1]);
    }
    assert(bytes[q2] == 0x22u8);
    lemma_find_byte_first(bytes, q1 + 1, q2, 0x22u8);
    // Both ends of the title are character boundaries.
    assert(source =~= (before + lead + q) + (title + q + rest));
    lemma_encode_boundary(before + lead + q, title + q + rest);
    lemma_encode_concat(title, q + rest);
    lemma_encode_concat(q, rest);
    assert(bytes.subrange(q1 + 1, bytes.len() as int) =~= encode_utf8(title + (q + rest)));
    assert(title + q + rest =~= title + (q + rest));
    lemma_encode_boundary(title, q + rest);
    // The bytes between the quotes decode to the title.
    assert(bytes.subrange(q1 + 1, q2) =~= et);
    encode_utf8_decode_utf8(title);
}

// ---------------------------------------------------------------------------
// Errors stop a conversion
// ---------------------------------------------------------------------------

/// Once a prefix of inline nodes fails, every longer prefix fails the same way.
pub proof fn lemma_inlines_error(c: Ctx, s: Seq<Node>, k: int, n: int, fuel: nat)
    requires
        1 <= k <= n <= s.len(),
        inlines_prefix(c, s, k, fuel) is Err,
    ensures
        inlines_prefix(c, s, n, fuel) == inlines_prefix(c, s, k, fuel),
    decreases n - k,
{
    reveal(inlines_prefix);
    if n > k {
        lemma_inlines_error(c, s, k, n - 1, fuel);
    }
}

/// Once a prefix of blocks fails, every longer prefix fails the same way.
pub proof fn lemma_flow_error(c: Ctx, s: Seq<Node>, k: int, n: int, fuel: nat)
    requires
        1 <= k <= n <= s.len(),
        flow_prefix(c, s, k, fuel) is Err,
    ensures
        flow_prefix(c, s, n, fuel) == flow_prefix(c, s, k, fuel),
    decreases n - k,
{
    reveal(flow_prefix);
    if n > k {
        lemma_flow_error(c, s, k, n - 1, fuel);
    }
}

/// Once a prefix of list items fails, every longer prefix fails the same way.
pub proof fn lemma_items_error(
    c: Ctx,
    ordered: bool,
    spread: bool,
    s: Seq<Node>,
    k: int,
    n: int,
    fuel: nat,
)
    requires
        1 <= k <= n <= s.len(),
        items_prefix(c, ordered, spread, s, k, fuel) is Err,
    ensures
        items_prefix(c, ordered, spread, s, n, fuel) == items_prefix(c, ordered, spread, s, k, fuel),
    decreases n - k,
{
    reveal(items_prefix);
    if n > k {
        lemma_items_error(c, ordered, spread, s, k, n - 1, fuel);
    }
}

/// Once a prefix of cells fails, every longer prefix fails the same way.
pub proof fn lemma_cells_error(
    c: Ctx,
    s: Seq<Node>,
    k: int,
    n: int,
    open: Seq<char>,
    close: Seq<char>,
    fuel: nat,
)
    requires
        1 <= k <= n <= s.len(),
        cells_prefix(c, s, k, open, close, fuel) is Err,
    ensures
        cells_prefix(c, s, n, open, close, fuel) == cells_prefix(c, s, k, open, close, fuel),
    decreases n - k,
{
    reveal(cells_prefix);
    if n > k {
        lemma_cells_error(c, s, k, n - 1, open, close, fuel);
    }
}

/// Once a prefix of a table's rows fails, every longer prefix fails the same
/// way.
pub proof fn lemma_table_rows_error(c: Ctx, s: Seq<Node>, k: int, n: int, fuel: nat)
    requires
        1 <= k <= n <= s.len(),
        table_rows_prefix(c, s, k, fuel) is Err,
    ensures
        table_rows_prefix(c, s, n, fuel) == table_rows_prefix(c, s, k, fuel),
    decreases n - k,
{
    reveal(table_rows_prefix);
    if n > k {
        lemma_table_rows_error(c, s, k, n - 1, fuel);
    }
}

/// Once a prefix of a table's rows has a shape error, the whole table has it.
pub proof fn lemma_table_shape_error(s: Seq<Node>, k: int, n: int)
    requires
        1 <= k <= n <= s.len(),
        table_shape_error(s, k) is Some,
    ensures
        table_shape_error(s, n) == table_shape_error(s, k),
    decreases n - k,
{
    if n > k {
        lemma_table_shape_error(s, k, n - 1);
    }
}

// ---------------------------------------------------------------------------
// Unfolding the conversion
// ---------------------------------------------------------------------------
//
// The opaque functions of the conversion call one another, so they form one
// recursive group; revealing one of them alone does not give its definition
// here, and each unfolding reveals the whole group.

/// `inlines_prefix` unfolded once.
pub proof fn lemma_inlines_prefix_unfold(c: Ctx, s: Seq<Node>, n: int, fuel: nat)
    ensures
        inlines_prefix(c, s, n, fuel) == ({
        if n <= 0 || n > s.len() {
            Ok((Seq::empty(), Imports::none()))
        } else {
            match inlines_prefix(c, s, n - 1, fuel) {
                Err(e) => Err(e),
                Ok((a, u1)) => match inline_conv(c, s[n - 1], fuel) {
                    Err(e) => Err(e),
                    Ok((b, u2)) => Ok((a + b, u1.union(u2))),
                },
            }
        }
        }),
{
    reveal(inlines_prefix);
    reveal(inlines_conv);
    reveal(inline_conv);
    reveal(flow_prefix);
    reveal(flow_conv);
    reveal(items_prefix);
    reveal(cells_prefix);
    reveal(row_conv);
    reveal(table_rows_prefix);
    reveal(list_conv);
    reveal(table_conv);
    reveal(table_markup_conv);
    reveal(flow_node_conv);
}

/// `inlines_conv` unfolded once.
pub proof fn lemma_inlines_conv_unfold(c: Ctx, s: Seq<Node>, fuel: nat)
    ensures
        inlines_conv(c, s, fuel) == ({
        inlines_prefix(c, s, s.len() as int, fuel)
        }),
{
    reveal(inlines_prefix);
    reveal(inlines_conv);
    reveal(inline_conv);
    reveal(flow_prefix);
    reveal(flow_conv);
    reveal(items_prefix);
    reveal(cells_prefix);
    reveal(row_conv);
    reveal(table_rows_prefix);
    reveal(list_conv);
    reveal(table_conv);
    reveal(table_markup_conv);
    reveal(flow_node_conv);
}

/// `inline_conv` unfolded once.
pub proof fn lemma_inline_conv_unfold(c: Ctx, n: Node, fuel: nat)
    ensures
        inline_conv(c, n, fuel) == ({
        match n.kind {
            NodeKind::JsxText { name, children } => match inlines_conv(c, children@, fuel) {
                Err(e) => Err(e),
                Ok((body, u)) => jsx_text_conv(opt_view(name), body, u),
            },
            NodeKind::Strong { children } => match inlines_conv(c, children@, fuel) {
                Err(e) => Err(e),
                Ok((body, u)) => if body.contains('*') {
                    Err(ConvertError::StarInStrong)
                } else {
                    Ok(("*"@ + body + "*"@, u))
                },
            },
            NodeKind::Emphasis { children } => match inlines_conv(c, children@, fuel) {
                Err(e) => Err(e),
                Ok((body, u)) => if body.contains('_') {
                    Err(ConvertError::UnderscoreInEmphasis)
                } else {
                    Ok(("_"@ + body + "_"@, u))
                },
            },
            NodeKind::Text { value } => Ok((escape_text(value@), Imports::none())),
            NodeKind::InlineCode { value } => inline_code_conv(value@),
            NodeKind::Link { url, title, children } => if title is Some {
                Err(ConvertError::LinkTitle)
            } else {
                match inlines_conv(c, children@, fuel) {
                    Err(e) => Err(e),
                    Ok((body, u)) => match link_conv(url@, body) {
                        Err(e) => Err(e),
                        Ok(t) => Ok((t, u)),
                    },
                }
            },
            NodeKind::LinkReference { identifier, children } => match inlines_conv(c, children@, fuel) {
                Err(e) => Err(e),
                Ok((body, u)) => match link_ref_conv(c, identifier@, body) {
                    Err(e) => Err(e),
                    Ok(t) => Ok((t, u)),
                },
            },
            NodeKind::FootnoteReference { identifier } => match lookup_footnote(c.footnotes, identifier@) {
                None => Err(ConvertError::MissingFootnote),
                Some(nodes) => if fuel == 0 {
                    Err(ConvertError::FootnoteCycle)
                } else {
                    match flow_conv(c, nodes, (fuel - 1) as nat) {
                        Err(e) => Err(e),
                        Ok((t, u)) => Ok((" #footnote["@ + t + "]"@, u)),
                    }
                },
            },
            NodeKind::Image { url, alt } => image_conv(url@, alt@),
            NodeKind::Break => Ok(("\\\n"@, Imports::none())),
            _ => Err(ConvertError::UnsupportedInlineNode),
        }
        }),
{
    reveal(inlines_prefix);
    reveal(inlines_conv);
    reveal(inline_conv);
    reveal(flow_prefix);
    reveal(flow_conv);
    reveal(items_prefix);
    reveal(cells_prefix);
    reveal(row_conv);
    reveal(table_rows_prefix);
    reveal(list_conv);
    reveal(table_conv);
    reveal(table_markup_conv);
    reveal(flow_node_conv);
}

/// `flow_prefix` unfolded once.
pub proof fn lemma_flow_prefix_unfold(c: Ctx, s: Seq<Node>, n: int, fuel: nat)
    ensures
        flow_prefix(c, s, n, fuel) == ({
        if n <= 0 || n > s.len() {
            Ok((Seq::empty(), Seq::empty(), Imports::none()))
        } else {
            match flow_prefix(c, s, n - 1, fuel) {
                Err(e) => Err(e),
                Ok((buf, sep, u1)) => match flow_node_conv(c, s[n - 1], fuel) {
                    Err(e) => Err(e),
                    Ok((t, u2)) => if t.len() == 0 {
                        Ok((buf, sep, u1.union(u2)))
                    } else {
                        Ok((buf + sep + t, separator_after(s, n - 1), u1.union(u2)))
                    },
                },
            }
        }
        }),
{
    reveal(inlines_prefix);
    reveal(inlines_conv);
    reveal(inline_conv);
    reveal(flow_prefix);
    reveal(flow_conv);
    reveal(items_prefix);
    reveal(cells_prefix);
    reveal(row_conv);
    reveal(table_rows_prefix);
    reveal(list_conv);
    reveal(table_conv);
    reveal(table_markup_conv);
    reveal(flow_node_conv);
}

/// `flow_conv` unfolded once.
pub proof fn lemma_flow_conv_unfold(c: Ctx, s: Seq<Node>, fuel: nat)
    ensures
        flow_conv(c, s, fuel) == ({
        match flow_prefix(c, s, s.len() as int, fuel) {
            Err(e) => Err(e),
            Ok((buf, _sep, u)) => Ok((buf, u)),
        }
        }),
{
    reveal(inlines_prefix);
    reveal(inlines_conv);
    reveal(inline_conv);
    reveal(flow_prefix);
    reveal(flow_conv);
    reveal(items_prefix);
    reveal(cells_prefix);
    reveal(row_conv);
    reveal(table_rows_prefix);
    reveal(list_conv);
    reveal(table_conv);
    reveal(table_markup_conv);
    reveal(flow_node_conv);
}

/// `items_prefix` unfolded once.
pub proof fn lemma_items_prefix_unfold(c: Ctx, ordered: bool, spread: bool, items: Seq<Node>, n: int, fuel: nat)
    ensures
        items_prefix(c, ordered, spread, items, n, fuel) == ({
        if n <= 0 || n > items.len() {
            Ok((Seq::empty(), Imports::none()))
        } else {
            match items_prefix(c, ordered, spread, items, n - 1, fuel) {
                Err(e) => Err(e),
                Ok((buf, u1)) => {
                    let buf2 = if n - 1 > 0 && spread {
                        buf + "\n"@
                    } else {
                        buf
                    };
                    match items[n - 1].kind {
                        NodeKind::ListItem { children } => match flow_conv(c, children@, fuel) {
                            Err(e) => Err(e),
                            Ok((t, u2)) => Ok(
                                (buf2 + item_lines(lines(t), list_head(ordered)), u1.union(u2)),
                            ),
                        },
                        _ => Err(ConvertError::NotAListItem),
                    }
                },
            }
        }
        }),
{
    reveal(inlines_prefix);
    reveal(inlines_conv);
    reveal(inline_conv);
    reveal(flow_prefix);
    reveal(flow_conv);
    reveal(items_prefix);
    reveal(cells_prefix);
    reveal(row_conv);
    reveal(table_rows_prefix);
    reveal(list_conv);
    reveal(table_conv);
    reveal(table_markup_conv);
    reveal(flow_node_conv);
}

/// `cells_prefix` unfolded once.
pub proof fn lemma_cells_prefix_unfold(c: Ctx, cells: Seq<Node>, n: int, open: Seq<char>, close: Seq<char>, fuel: nat)
    ensures
        cells_prefix(c, cells, n, open, close, fuel) == ({
        if n <= 0 || n > cells.len() {
            Ok((Seq::empty(), Imports::none()))
        } else {
            match cells_prefix(c, cells, n - 1, open, close, fuel) {
                Err(e) => Err(e),
                Ok((buf, u1)) => match cells[n - 1].kind {
                    NodeKind::TableCell { children } => match inlines_conv(c, children@, fuel) {
                        Err(e) => Err(e),
                        Ok((t, u2)) => Ok((buf + open + t + close, u1.union(u2))),
                    },
                    _ => Err(ConvertError::NotATableCell),
                },
            }
        }
        }),
{
    reveal(inlines_prefix);
    reveal(inlines_conv);
    reveal(inline_conv);
    reveal(flow_prefix);
    reveal(flow_conv);
    reveal(items_prefix);
    reveal(cells_prefix);
    reveal(row_conv);
    reveal(table_rows_prefix);
    reveal(list_conv);
    reveal(table_conv);
    reveal(table_markup_conv);
    reveal(flow_node_conv);
}

/// `row_conv` unfolded once.
pub proof fn lemma_row_conv_unfold(c: Ctx, row: Node, open: Seq<char>, close: Seq<char>, fuel: nat)
    ensures
        row_conv(c, row, open, close, fuel) == ({
        match row.kind {
            NodeKind::TableRow { children } => cells_prefix(
                c,
                children@,
                children@.len() as int,
                open,
                close,
                fuel,
            ),
            _ => Err(ConvertError::NotATableRow),
        }
        }),
{
    reveal(inlines_prefix);
    reveal(inlines_conv);
    reveal(inline_conv);
    reveal(flow_prefix);
    reveal(flow_conv);
    reveal(items_prefix);
    reveal(cells_prefix);
    reveal(row_conv);
    reveal(table_rows_prefix);
    reveal(list_conv);
    reveal(table_conv);
    reveal(table_markup_conv);
    reveal(flow_node_conv);
}

/// `table_rows_prefix` unfolded once.
pub proof fn lemma_table_rows_prefix_unfold(c: Ctx, rows: Seq<Node>, n: int, fuel: nat)
    ensures
        table_rows_prefix(c, rows, n, fuel) == ({
        if n <= 0 || n > rows.len() {
            Ok((Seq::empty(), Seq::empty(), Imports::none()))
        } else {
            match table_rows_prefix(c, rows, n - 1, fuel) {
                Err(e) => Err(e),
                Ok((header, body, u1)) => if n == 1 {
                    match row_conv(c, rows[0], "["@, "]"@, fuel) {
                        Err(e) => Err(e),
                        Ok((t, u2)) => Ok((t, body, u1.union(u2))),
                    }
                } else {
                    match row_conv(c, rows[n - 1], "  ["@, "],\n"@, fuel) {
                        Err(e) => Err(e),
                        Ok((t, u2)) => Ok((header, body + "\n"@ + t, u1.union(u2))),
                    }
                },
            }
        }
        }),
{
    reveal(inlines_prefix);
    reveal(inlines_conv);
    reveal(inline_conv);
    reveal(flow_prefix);
    reveal(flow_conv);
    reveal(items_prefix);
    reveal(cells_prefix);
    reveal(row_conv);
    reveal(table_rows_prefix);
    reveal(list_conv);
    reveal(table_conv);
    reveal(table_markup_conv);
    reveal(flow_node_conv);
}

/// `list_conv` unfolded once.
pub proof fn lemma_list_conv_unfold(c: Ctx, ordered: bool, spread: bool, start: Option<u32>, items: Seq<Node>, fuel: nat)
    ensures
        list_conv(c, ordered, spread, start, items, fuel) == ({
        if start matches Some(s) && s != 1 {
            Err(ConvertError::ListStart)
        } else if !all_list_items(items) {
            Err(ConvertError::NotAListItem)
        } else {
            match items_prefix(c, ordered, spread, items, items.len() as int, fuel) {
                Err(e) => Err(e),
                Ok((buf, u)) => if buf.len() > 0 && buf.last() == '\n' {
                    Ok((buf.drop_last(), u))
                } else {
                    Err(ConvertError::EmptyList)
                },
            }
        }
        }),
{
    reveal(inlines_prefix);
    reveal(inlines_conv);
    reveal(inline_conv);
    reveal(flow_prefix);
    reveal(flow_conv);
    reveal(items_prefix);
    reveal(cells_prefix);
    reveal(row_conv);
    reveal(table_rows_prefix);
    reveal(list_conv);
    reveal(table_conv);
    reveal(table_markup_conv);
    reveal(flow_node_conv);
}

/// `table_conv` unfolded once.
pub proof fn lemma_table_conv_unfold(c: Ctx, rows: Seq<Node>, fuel: nat)
    ensures
        table_conv(c, rows, fuel) == ({
        match table_shape_error(rows, rows.len() as int) {
            Some(e) => Err(e),
            None => if rows.len() == 0 {
                Err(ConvertError::EmptyTable)
            } else {
                table_markup_conv(c, rows, fuel)
            },
        }
        }),
{
    reveal(inlines_prefix);
    reveal(inlines_conv);
    reveal(inline_conv);
    reveal(flow_prefix);
    reveal(flow_conv);
    reveal(items_prefix);
    reveal(cells_prefix);
    reveal(row_conv);
    reveal(table_rows_prefix);
    reveal(list_conv);
    reveal(table_conv);
    reveal(table_markup_conv);
    reveal(flow_node_conv);
}

/// `table_markup_conv` unfolded once.
pub proof fn lemma_table_markup_conv_unfold(c: Ctx, rows: Seq<Node>, fuel: nat)
    ensures
        table_markup_conv(c, rows, fuel) == ({
        if rows.len() == 0 {
            Err(ConvertError::EmptyTable)
        } else {
            match table_rows_prefix(c, rows, rows.len() as int, fuel) {
                Err(e) => Err(e),
                Ok((header, body, u)) => Ok(
                    (
                        "#docs-table(\n  table.header"@ + header + ",\n"@ + body + ")"@,
                        u.with(Import::DocsTable),
                    ),
                ),
            }
        }
        }),
{
    reveal(inlines_prefix);
    reveal(inlines_conv);
    reveal(inline_conv);
    reveal(flow_prefix);
    reveal(flow_conv);
    reveal(items_prefix);
    reveal(cells_prefix);
    reveal(row_conv);
    reveal(table_rows_prefix);
    reveal(list_conv);
    reveal(table_conv);
    reveal(table_markup_conv);
    reveal(flow_node_conv);
}

/// `flow_node_conv` unfolded once.
pub proof fn lemma_flow_node_conv_unfold(c: Ctx, b: Node, fuel: nat)
    ensures
        flow_node_conv(c, b, fuel) == ({
        match b.kind {
            NodeKind::JsxFlow { name, attributes, children } => match flow_conv(c, children@, fuel) {
                Err(e) => Err(e),
                Ok((body, u)) => jsx_flow_conv(opt_view(name), attributes@, body, u),
            },
            NodeKind::Heading { depth, children } => {
                let d = depth + c.heading_offset;
                if d < 1 {
                    Ok((Seq::empty(), Imports::none()))
                } else {
                    match inlines_conv(c, children@, fuel) {
                        Err(e) => Err(e),
                        Ok((body, u)) => match heading_conv(c, d, body) {
                            Err(e) => Err(e),
                            Ok(t) => Ok((t, u)),
                        },
                    }
                }
            },
            NodeKind::Code { value, lang } => code_block_conv(c.source, value@, opt_view(lang), b.position),
            NodeKind::ThematicBreak => Ok(("#divider()"@, Imports::none())),
            NodeKind::Blockquote { children } => match flow_conv(c, children@, fuel) {
                Err(e) => Err(e),
                Ok((body, u)) => Ok((call_blocky_markup("quote(block: true)"@, body), u)),
            },
            NodeKind::List { ordered, spread, start, children } => list_conv(
                c,
                ordered,
                spread,
                start,
                children@,
                fuel,
            ),
            NodeKind::Table { children } => table_conv(c, children@, fuel),
            NodeKind::Paragraph { children } => inlines_conv(c, children@, fuel),
            NodeKind::Definition { .. } => Ok((Seq::empty(), Imports::none())),
            NodeKind::FootnoteDefinition { .. } => Ok((Seq::empty(), Imports::none())),
            _ => Err(ConvertError::UnsupportedFlowNode),
        }
        }),
{
    reveal(inlines_prefix);
    reveal(inlines_conv);
    reveal(inline_conv);
    reveal(flow_prefix);
    reveal(flow_conv);
    reveal(items_prefix);
    reveal(cells_prefix);
    reveal(row_conv);
    reveal(table_rows_prefix);
    reveal(list_conv);
    reveal(table_conv);
    reveal(table_markup_conv);
    reveal(flow_node_conv);
}

} // verus!
