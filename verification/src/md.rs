//! Conversion of a parsed Markdown document into Typst markup.
use vstd::prelude::*;

use vstd::utf8::{encode_utf8, encode_utf8_decode_utf8, is_char_boundary};

use crate::convert::{
    all_list_items, call_blocky_markup, cells_prefix, code_block_conv, code_settings, destination,
    document_conv, document_ctx, escape_char, escape_text, find_byte, first_title_heading,
    flow_conv, flow_node_conv, flow_prefix, footnote_defs_of, front_matter_text, group,
    has_front_matter, heading_conv, image_conv, image_markup, in_changelog, inline_code_conv, inline_code_fence,
    inline_code_markup, inline_conv, inlines_conv, inlines_prefix, is_info_box, item_lines,
    heading_pattern, items_prefix, labels_prefix, labels_replaced, lemma_cells_error, lemma_cells_prefix_unfold,
    lemma_find_byte, lemma_flow_conv_unfold, lemma_flow_error, lemma_flow_node_conv_unfold,
    lemma_flow_prefix_unfold, lemma_inline_conv_unfold, lemma_inlines_conv_unfold,
    lemma_inlines_error, lemma_inlines_prefix_unfold, lemma_items_error, lemma_items_prefix_unfold,
    lemma_list_conv_unfold, lemma_row_conv_unfold, lemma_table_conv_unfold,
    lemma_table_markup_conv_unfold, lemma_table_rows_error, lemma_table_rows_prefix_unfold,
    lemma_table_shape_error, link_conv, link_defs_of, link_ref_conv, list_conv, list_head,
    lookup_footnote, lookup_link, parsed_conv, metadata_conv, opt_view, preamble, quoted_title,
    raw_block, rearrange_parts, resolve_link_conv, row_conv, separator_after, table_conv,
    table_markup_conv, table_rows_prefix, table_shape_error, zoom_line, CodeSettings, Conv, Ctx,
    HeadingMatch, MetaInfo,
};
use crate::parse::{docs_markdown, parse_markdown};
use crate::paths::{path_depth, strip_extension};
use crate::outside::{
    debug_quoted, debug_str, heading_label_matches, heading_matches_of, kebab_case,
    match_views, optional_texts, regex_captures, regex_split,
    texts, to_kebab_case,
};
use crate::text::{
    chars_of, contains_chars, eq_str, find, has_prefix, has_suffix, indent, indent_spec, join,
    lemma_lex_less_irreflexive, lex_less, lines, max_backtick_run, max_consecutive_backticks,
    push_all, push_str, repeat, repeat_seq, replace, slice_chars, slice_str, split_char,
    split_lines, string_of, trim_char,
};

verus! {

// ---------------------------------------------------------------------------
// The document
// ---------------------------------------------------------------------------

/// Where a block stands in the source text: its first line, the byte offset
/// of its first character, and its last line.
#[derive(Clone, Copy, Debug, PartialEq, Eq)]
pub struct Position {
    pub start_line: usize,
    pub start_offset: usize,
    pub end_line: usize,
}

/// The value of a JSX attribute.
#[derive(Debug)]
pub enum JsxValue {
    Expression,
    Literal(String),
}

/// A JSX attribute: a spread expression or a named property.
#[derive(Debug)]
pub enum JsxAttribute {
    Expression,
    Property { name: String, value: Option<JsxValue> },
}

/// A node of a parsed Markdown document, with its place in the source.
#[derive(Debug)]
pub struct Node {
    pub kind: NodeKind,
    pub position: Option<Position>,
}

/// The kinds of nodes that the conversion knows, and one for all others.
#[derive(Debug)]
pub enum NodeKind {
    /// A JSX element in flow position.
    JsxFlow { name: Option<String>, attributes: Vec<JsxAttribute>, children: Vec<Node> },
    Heading { depth: u8, children: Vec<Node> },
    Code { value: String, lang: Option<String> },
    ThematicBreak,
    Blockquote { children: Vec<Node> },
    List { ordered: bool, spread: bool, start: Option<u32>, children: Vec<Node> },
    ListItem { children: Vec<Node> },
    Table { children: Vec<Node> },
    TableRow { children: Vec<Node> },
    TableCell { children: Vec<Node> },
    Paragraph { children: Vec<Node> },
    Definition { identifier: String, url: String },
    FootnoteDefinition { identifier: String, children: Vec<Node> },
    /// A JSX element in text position.
    JsxText { name: Option<String>, children: Vec<Node> },
    Strong { children: Vec<Node> },
    Emphasis { children: Vec<Node> },
    Text { value: String },
    InlineCode { value: String },
    Link { url: String, title: Option<String>, children: Vec<Node> },
    LinkReference { identifier: String, children: Vec<Node> },
    FootnoteReference { identifier: String },
    Image { url: String, alt: String },
    Break,
    /// YAML front matter.
    Yaml { value: String },
    /// Any other kind of node; it has no conversion.
    Other { name: String },
}

/// Front matter metadata.
#[derive(Debug)]
pub struct Metadata {
    pub title: Option<String>,
    pub description: Option<String>,
}

/// A parsed document: its front matter, if it has any, and the flow content
/// that follows it.
#[derive(Debug)]
pub struct Document {
    pub front_matter: Option<Metadata>,
    pub children: Vec<Node>,
}

/// How a document is converted: the path of its file below the docs root
/// (which decides the preamble), and the amount added to heading depths.
pub struct Options<'a> {
    pub path: Option<&'a str>,
    pub heading_offset: isize,
}

impl<'a> Default for Options<'a> {
    fn default() -> (o: Self)
        ensures
            o.path is None,
            o.heading_offset == 0,
    {
        Options { path: None, heading_offset: 0 }
    }
}

/// Why a document cannot be converted.
#[derive(Clone, Copy, Debug, PartialEq, Eq)]
pub enum ConvertError {
    /// A node that has no conversion in flow position.
    UnsupportedFlowNode,
    /// A node that has no conversion in text position.
    UnsupportedInlineNode,
    /// A list child that is not a list item.
    NotAListItem,
    /// A table child that is not a row.
    NotATableRow,
    /// A table row child that is not a cell.
    NotATableCell,
    /// A `div` element that is not an info box.
    UnsupportedDiv,
    /// A flow JSX element other than `contributors`, `div`, `details`, `summary`.
    UnsupportedFlowElement,
    /// A text JSX element other than `sup` and `kbd`.
    UnsupportedTextElement,
    /// A heading whose converted text spans several lines.
    MultilineHeading,
    /// A code block language `kind:rest` whose kind is not `example` or `preview`.
    UnknownCodeBlockKind,
    /// A quoted code block title that cannot be found in the source.
    MissingCodeBlockTitle,
    /// A code block zoom with fewer than four comma-separated parts.
    IncompleteZoom,
    /// An ordered list that does not start at one.
    ListStart,
    /// A list that produces no lines.
    EmptyList,
    /// A table without rows.
    EmptyTable,
    /// Strong text whose content contains `*`.
    StarInStrong,
    /// Emphasized text whose content contains `_`.
    UnderscoreInEmphasis,
    /// A link with a title.
    LinkTitle,
    /// A link to a GitHub user whose text is not `@user`.
    GithubLinkText,
    /// A link to a GitHub user whose text names another user.
    GithubUserMismatch,
    /// A link that is neither to the web nor to a `$` target.
    BadLink,
    /// A footnote reference without a definition.
    MissingFootnote,
    /// A footnote whose expansion reaches itself again.
    FootnoteCycle,
    /// An image whose URL contains a double quote.
    QuoteInImageUrl,
    /// An image whose alternative text contains a double quote.
    QuoteInImageAlt,
    /// An image without alternative text.
    EmptyImageAlt,
    /// A regular expression that the engine rejects, or a match whose text
    /// lies out of place or lacks a group that the conversion reads.
    InvalidPattern,
    /// Code whose longest run of backticks is too long to count one more.
    BacktickRunTooLong,
    /// Markdown text that the Markdown parser rejects.
    UnparsableMarkdown,
    /// Markup that the Typst formatter cannot parse.
    UnformattableMarkup,
}

// ---------------------------------------------------------------------------
// Imports
// ---------------------------------------------------------------------------

/// A component that the converted document imports.
#[derive(Clone, Copy, Debug, PartialEq, Eq)]
pub enum Import {
    Details,
    DocsChapter,
    DocsFigure,
    DocsTable,
    Example,
    Info,
    Kbd,
}

/// The set of components a document imports.
#[derive(Clone, Copy, Debug, PartialEq, Eq)]
pub struct Imports {
    pub details: bool,
    pub docs_chapter: bool,
    pub docs_figure: bool,
    pub docs_table: bool,
    pub example: bool,
    pub info: bool,
    pub kbd: bool,
}

impl Imports {
    /// No imports.
    pub open spec fn none() -> Imports {
        Imports {
            details: false,
            docs_chapter: false,
            docs_figure: false,
            docs_table: false,
            example: false,
            info: false,
            kbd: false,
        }
    }

    /// Every import of either set.
    pub open spec fn union(self, o: Imports) -> Imports {
        Imports {
            details: self.details || o.details,
            docs_chapter: self.docs_chapter || o.docs_chapter,
            docs_figure: self.docs_figure || o.docs_figure,
            docs_table: self.docs_table || o.docs_table,
            example: self.example || o.example,
            info: self.info || o.info,
            kbd: self.kbd || o.kbd,
        }
    }

    /// The set with `i` added.
    pub open spec fn with(self, i: Import) -> Imports {
        match i {
            Import::Details => Imports { details: true, ..self },
            Import::DocsChapter => Imports { docs_chapter: true, ..self },
            Import::DocsFigure => Imports { docs_figure: true, ..self },
            Import::DocsTable => Imports { docs_table: true, ..self },
            Import::Example => Imports { example: true, ..self },
            Import::Info => Imports { info: true, ..self },
            Import::Kbd => Imports { kbd: true, ..self },
        }
    }

    /// The set holding just `i`.
    pub open spec fn single(i: Import) -> Imports {
        Imports::none().with(i)
    }

    /// Every set includes `self`.
    pub open spec fn within(self, o: Imports) -> bool {
        &&& self.details ==> o.details
        &&& self.docs_chapter ==> o.docs_chapter
        &&& self.docs_figure ==> o.docs_figure
        &&& self.docs_table ==> o.docs_table
        &&& self.example ==> o.example
        &&& self.info ==> o.info
        &&& self.kbd ==> o.kbd
    }

    /// The names of the imports in lexicographic order.
    pub open spec fn names(self) -> Seq<Seq<char>> {
        let s0 = Seq::<Seq<char>>::empty();
        let s1 = if self.details { s0.push("details"@) } else { s0 };
        let s2 = if self.docs_chapter { s1.push("docs-chapter"@) } else { s1 };
        let s3 = if self.docs_figure { s2.push("docs-figure"@) } else { s2 };
        let s4 = if self.docs_table { s3.push("docs-table"@) } else { s3 };
        let s5 = if self.example { s4.push("example"@) } else { s4 };
        let s6 = if self.info { s5.push("info"@) } else { s5 };
        if self.kbd { s6.push("kbd"@) } else { s6 }
    }

    /// No imports.
    pub fn new() -> (r: Imports)
        ensures
            r == Imports::none(),
    {
        Imports {
            details: false,
            docs_chapter: false,
            docs_figure: false,
            docs_table: false,
            example: false,
            info: false,
            kbd: false,
        }
    }

    /// Adds `i`.
    pub fn insert(&mut self, i: Import)
        ensures
            *final(self) == old(self).with(i),
    {
        match i {
            Import::Details => self.details = true,
            Import::DocsChapter => self.docs_chapter = true,
            Import::DocsFigure => self.docs_figure = true,
            Import::DocsTable => self.docs_table = true,
            Import::Example => self.example = true,
            Import::Info => self.info = true,
            Import::Kbd => self.kbd = true,
        }
    }

    /// The names of the imports joined by `", "`, in lexicographic order.
    pub fn joined_names(&self) -> (r: Vec<char>)
        ensures
            r@ == join(self.names(), ", "@),
    {
        let mut names: Vec<&str> = Vec::new();
        if self.details {
            names.push("details");
        }
        if self.docs_chapter {
            names.push("docs-chapter");
        }
        if self.docs_figure {
            names.push("docs-figure");
        }
        if self.docs_table {
            names.push("docs-table");
        }
        if self.example {
            names.push("example");
        }
        if self.info {
            names.push("info");
        }
        if self.kbd {
            names.push("kbd");
        }
        assert(names@.map_values(|s: &str| s@) == self.names());
        join_strs(&names, ", ")
    }
}

/// The names of all components, in lexicographic order.
pub open spec fn component_names() -> Seq<Seq<char>> {
    seq!["details"@, "docs-chapter"@, "docs-figure"@, "docs-table"@, "example"@, "info"@, "kbd"@]
}

/// `names` picks, in order, the component names at the increasing positions
/// `at`, all below `bound`.
pub open spec fn picks(names: Seq<Seq<char>>, at: Seq<int>, bound: int) -> bool {
    &&& names.len() == at.len()
    &&& forall|k: int| 0 <= k < at.len() ==> 0 <= #[trigger] at[k] < bound && names[k] == component_names()[at[k]]
    &&& forall|k: int, l: int| 0 <= k < l < at.len() ==> #[trigger] at[k] < #[trigger] at[l]
}

proof fn lemma_picks_push(names: Seq<Seq<char>>, at: Seq<int>, bound: int, m: int)
    requires
        picks(names, at, bound),
        0 <= bound <= m < 7,
    ensures
        picks(names.push(component_names()[m]), at.push(m), m + 1),
{
    let at2 = at.push(m);
    let names2 = names.push(component_names()[m]);
    assert(component_names().len() == 7);
    assert forall|k: int| 0 <= k < at2.len() implies 0 <= #[trigger] at2[k] < m + 1 && names2[k]
        == component_names()[at2[k]] by {
        if k < at.len() {
            assert(at2[k] == at[k] && names2[k] == names[k]);
            assert(0 <= at[k] < bound && names[k] == component_names()[at[k]]);
        } else {
            assert(k == at.len());
            assert(at2[k] == m);
            assert(names2[k] == component_names()[m]);
        }
    }
    assert forall|k: int, l: int| 0 <= k < l < at2.len() implies #[trigger] at2[k] < #[trigger] at2[l] by {
        if l == at.len() {
            assert(at2[k] == at[k]);
        } else {
            assert(at2[k] == at[k] && at2[l] == at[l]);
        }
    }
}

/// The import list names each component at most once, in lexicographic
/// order.
pub proof fn lemma_import_names_sorted(imports: Imports)
    ensures
        forall|i: int, j: int|
            0 <= i < j < imports.names().len() ==> lex_less(
                #[trigger] imports.names()[i],
                #[trigger] imports.names()[j],
            ) && imports.names()[i] != imports.names()[j],
{
    reveal_strlit("details");
    reveal_strlit("docs-chapter");
    reveal_strlit("docs-figure");
    reveal_strlit("docs-table");
    reveal_strlit("example");
    reveal_strlit("info");
    reveal_strlit("kbd");
    let all = component_names();
    assert forall|a: int, b: int| 0 <= a < b < 7 implies lex_less(
        #[trigger] all[a],
        #[trigger] all[b],
    ) by {
        reveal_with_fuel(lex_less, 7);
    }
    let ghost mut names = Seq::<Seq<char>>::empty();
    let ghost mut at = Seq::<int>::empty();
    let ghost mut bound: int = 0;
    if imports.details {
        lemma_picks_push(names, at, bound, 0);
        names = names.push(all[0]);
        at = at.push(0);
        bound = 1;
    }
    if imports.docs_chapter {
        lemma_picks_push(names, at, bound, 1);
        names = names.push(all[1]);
        at = at.push(1);
        bound = 2;
    }
    if imports.docs_figure {
        lemma_picks_push(names, at, bound, 2);
        names = names.push(all[2]);
        at = at.push(2);
        bound = 3;
    }
    if imports.docs_table {
        lemma_picks_push(names, at, bound, 3);
        names = names.push(all[3]);
        at = at.push(3);
        bound = 4;
    }
    if imports.example {
        lemma_picks_push(names, at, bound, 4);
        names = names.push(all[4]);
        at = at.push(4);
        bound = 5;
    }
    if imports.info {
        lemma_picks_push(names, at, bound, 5);
        names = names.push(all[5]);
        at = at.push(5);
        bound = 6;
    }
    if imports.kbd {
        lemma_picks_push(names, at, bound, 6);
        names = names.push(all[6]);
        at = at.push(6);
        bound = 7;
    }
    assert(names == imports.names());
    assert forall|i: int, j: int| 0 <= i < j < names.len() implies lex_less(
        #[trigger] names[i],
        #[trigger] names[j],
    ) && names[i] != names[j] by {
        assert(at[i] < at[j]);
        assert(lex_less(all[at[i]], all[at[j]]));
        if names[i] == names[j] {
            lemma_lex_less_irreflexive(names[i]);
        }
    }
}

/// The pieces joined with `sep` between neighbours.
pub fn join_strs(pieces: &Vec<&str>, sep: &str) -> (r: Vec<char>)
    ensures
        r@ == join(pieces@.map_values(|s: &str| s@), sep@),
{
    let ghost views = pieces@.map_values(|s: &str| s@);
    let mut r: Vec<char> = Vec::new();
    for i in 0..pieces.len()
        invariant
            views == pieces@.map_values(|s: &str| s@),
            r@ == join(views.take(i as int), sep@),
    {
        if i > 0 {
            push_str(&mut r, sep);
        }
        push_str(&mut r, pieces[i]);
        assert(views.take(i + 1).drop_last() == views.take(i as int));
    }
    assert(views.take(pieces.len() as int) == views);
    r
}

/// The pieces joined with `sep` between neighbours.
pub fn join_vecs(pieces: &Vec<Vec<char>>, sep: &str) -> (r: Vec<char>)
    ensures
        r@ == join(pieces@.map_values(|s: Vec<char>| s@), sep@),
{
    let ghost views = pieces@.map_values(|s: Vec<char>| s@);
    let mut r: Vec<char> = Vec::new();
    for i in 0..pieces.len()
        invariant
            views == pieces@.map_values(|s: Vec<char>| s@),
            r@ == join(views.take(i as int), sep@),
    {
        if i > 0 {
            push_str(&mut r, sep);
        }
        push_all(&mut r, pieces[i].as_slice());
        assert(views.take(i + 1).drop_last() == views.take(i as int));
    }
    assert(views.take(pieces.len() as int) == views);
    r
}

/// A heading's text followed by its label: `body <label>`, where the label is
/// the given id, or the kebab-case form of `body` when there is none.
pub open spec fn labelled(body: Seq<char>, id: Option<Seq<char>>) -> Seq<char> {
    let label = match id {
        Some(i) => i,
        None => kebab_case(body),
    };
    body + " <"@ + label + ">"@
}

/// A heading's text followed by its label; see `labelled`.
pub fn heading_with_label(body: &str, id: Option<&str>) -> (r: String)
    ensures
        r@ == labelled(
            body@,
            match id {
                Some(i) => Some(i@),
                None => None,
            },
        ),
{
    let mut out: Vec<char> = chars_of(body);
    push_str(&mut out, " <");
    match id {
        Some(i) => push_str(&mut out, i),
        None => {
            let k = to_kebab_case(body);
            push_str(&mut out, k.as_str());
        },
    }
    push_str(&mut out, ">");
    string_of(out.as_slice())
}

// ---------------------------------------------------------------------------
// The conversion context
// ---------------------------------------------------------------------------

/// What the conversion of a node may consult besides the node itself.
pub struct Context<'a> {
    /// The source text of the document.
    pub string: &'a str,
    pub opt: &'a Options<'a>,
    /// The link definitions (identifier, URL) of the document, in order.
    pub link_defs: Vec<(&'a str, &'a str)>,
    /// The footnote definitions (identifier, content) of the document, in order.
    pub footnote_defs: Vec<(&'a str, &'a Vec<Node>)>,
}

impl<'a> Context<'a> {
    /// The context as the specification sees it.
    pub open spec fn ctx(&self) -> Ctx {
        Ctx {
            source: self.string@,
            path: match self.opt.path {
                Some(p) => Some(p@),
                None => None,
            },
            heading_offset: self.opt.heading_offset as int,
            links: self.link_defs@.map_values(|d: (&'a str, &'a str)| (d.0@, d.1@)),
            footnotes: self.footnote_defs@.map_values(|d: (&'a str, &'a Vec<Node>)| (d.0@, d.1@)),
        }
    }
}

/// `res` is what `expect` says, and the imports grew by what it used.
pub open spec fn produced(
    res: Result<Vec<char>, ConvertError>,
    before: Imports,
    after: Imports,
    expect: Conv,
) -> bool {
    match expect {
        Ok((t, u)) => res matches Ok(r) && r@ == t && after == before.union(u),
        Err(e) => res == Err::<Vec<char>, ConvertError>(e),
    }
}

/// `res` is what `expect` says.
pub open spec fn gives(res: Result<Vec<char>, ConvertError>, expect: Result<Seq<char>, ConvertError>) -> bool {
    match expect {
        Ok(t) => res matches Ok(r) && r@ == t,
        Err(e) => res == Err::<Vec<char>, ConvertError>(e),
    }
}

/// The URL that the last definition of `id` gives.
pub fn find_link<'a>(defs: &Vec<(&'a str, &'a str)>, id: &[char]) -> (r: Option<&'a str>)
    ensures
        match r {
            Some(u) => lookup_link(defs@.map_values(|d: (&'a str, &'a str)| (d.0@, d.1@)), id@)
                == Some(u@),
            None => lookup_link(defs@.map_values(|d: (&'a str, &'a str)| (d.0@, d.1@)), id@) is None,
        },
{
    let ghost all = defs@.map_values(|d: (&'a str, &'a str)| (d.0@, d.1@));
    let mut i = defs.len();
    assert(all.take(i as int) == all);
    while i > 0
        invariant
            i <= defs.len(),
            all == defs@.map_values(|d: (&'a str, &'a str)| (d.0@, d.1@)),
            lookup_link(all, id@) == lookup_link(all.take(i as int), id@),
        decreases i,
    {
        let (key, url) = defs[i - 1];
        assert(all.take(i as int).drop_last() == all.take(i - 1));
        if eq_str(id, key) {
            return Some(url);
        }
        i = i - 1;
    }
    None
}

/// The content that the last definition of the footnote `id` gives.
pub fn find_footnote<'a>(defs: &Vec<(&'a str, &'a Vec<Node>)>, id: &[char]) -> (r: Option<
    &'a Vec<Node>,
>)
    ensures
        match r {
            Some(n) => lookup_footnote(
                defs@.map_values(|d: (&'a str, &'a Vec<Node>)| (d.0@, d.1@)),
                id@,
            ) == Some(n@),
            None => lookup_footnote(
                defs@.map_values(|d: (&'a str, &'a Vec<Node>)| (d.0@, d.1@)),
                id@,
            ) is None,
        },
{
    let ghost all = defs@.map_values(|d: (&'a str, &'a Vec<Node>)| (d.0@, d.1@));
    let mut i = defs.len();
    assert(all.take(i as int) == all);
    while i > 0
        invariant
            i <= defs.len(),
            all == defs@.map_values(|d: (&'a str, &'a Vec<Node>)| (d.0@, d.1@)),
            lookup_footnote(all, id@) == lookup_footnote(all.take(i as int), id@),
        decreases i,
    {
        let (key, nodes) = defs[i - 1];
        assert(all.take(i as int).drop_last() == all.take(i - 1));
        if eq_str(id, key) {
            return Some(nodes);
        }
        i = i - 1;
    }
    None
}

// ---------------------------------------------------------------------------
// Leaves
// ---------------------------------------------------------------------------

/// Markdown text as Typst text; see `escape_text`.
pub fn convert_text(text: &str) -> (r: Vec<char>)
    ensures
        r@ == escape_text(text@),
{
    let cs = chars_of(text);
    let mut buf: Vec<char> = Vec::new();
    for i in 0..cs.len()
        invariant
            cs@ == text@,
            buf@ == escape_text(cs@.take(i as int)),
    {
        let c = cs[i];
        if c == ' ' || c == '\t' || c == '\n' || c == '\x0B' || c == '\x0C' || c == '\r' {
            buf.push(' ');
        } else if c == '\\' || c == '[' || c == ']' || c == '~' || c == '*' || c == '_' || c
            == '`' || c == '$' || c == '@' || c == '#' {
            buf.push('\\');
            buf.push(c);
        } else {
            buf.push(c);
        }
        assert(cs@.take(i + 1).drop_last() == cs@.take(i as int));
        assert(buf@ == escape_text(cs@.take(i as int)) + escape_char(c));
    }
    assert(cs@.take(cs.len() as int) == cs@);
    buf
}

/// Inline code as Typst raw text; see `inline_code_conv`.
pub fn convert_inline_code(value: &str) -> (r: Result<Vec<char>, ConvertError>)
    ensures
        produced(r, Imports::none(), Imports::none(), inline_code_conv(value@)),
{
    let v = chars_of(value);
    let consecutive = max_consecutive_backticks(v.as_slice());
    if consecutive == usize::MAX {
        return Err(ConvertError::BacktickRunTooLong);
    }
    let count: usize = if consecutive == 0 {
        1
    } else if consecutive + 1 >= 3 {
        consecutive + 1
    } else {
        3
    };
    let delim = repeat('`', count);
    let mut buf: Vec<char> = Vec::new();
    push_all(&mut buf, delim.as_slice());
    let backtick = chars_of("`");
    if has_prefix(v.as_slice(), backtick.as_slice()) || count >= 3 {
        push_str(&mut buf, " ");
    }
    let replaced = replace(v.as_slice(), '\n', ' ');
    push_all(&mut buf, replaced.as_slice());
    if has_suffix(v.as_slice(), backtick.as_slice()) {
        push_str(&mut buf, " ");
    }
    push_all(&mut buf, delim.as_slice());
    assert(count == inline_code_fence(value@));
    assert(buf@ == inline_code_markup(value@));
    assert(Imports::none().union(Imports::none()) == Imports::none());
    Ok(buf)
}

/// A call of the Typst function `func` with `body` as an indented content
/// block.
pub fn call_blocky(func: &str, body: &[char]) -> (r: Vec<char>)
    ensures
        r@ == call_blocky_markup(func@, body@),
{
    let mut buf: Vec<char> = Vec::new();
    push_str(&mut buf, "#");
    push_str(&mut buf, func);
    push_str(&mut buf, "[\n");
    let ind = indent(body);
    push_all(&mut buf, ind.as_slice());
    push_str(&mut buf, "\n]");
    buf
}

/// Why an image cannot be converted, if it cannot: a double quote in its
/// URL or its alternative text, or no alternative text; see `image_conv`.
pub fn image_error(url: &str, alt: &str) -> (r: Option<ConvertError>)
    ensures
        match image_conv(url@, alt@) {
            Err(e) => r == Some(e),
            Ok(_) => r is None,
        },
{
    let u = chars_of(url);
    let a = chars_of(alt);
    if contains_chars_one(u.as_slice(), '"') {
        Some(ConvertError::QuoteInImageUrl)
    } else if contains_chars_one(a.as_slice(), '"') {
        Some(ConvertError::QuoteInImageAlt)
    } else if a.len() == 0 {
        Some(ConvertError::EmptyImageAlt)
    } else {
        None
    }
}

/// An image as a call of `docs-figure`, which imports that component; the
/// image has alternative text and neither it nor the URL holds a double
/// quote.
pub fn convert_image(url: &str, alt: &str, imports: &mut Imports) -> (r: Vec<char>)
    requires
        !url@.contains('"'),
        !alt@.contains('"'),
        alt@.len() > 0,
    ensures
        r@ == image_markup(url@, alt@),
        *final(imports) == old(imports).with(Import::DocsFigure),
{
    let u = chars_of(url);
    let a = chars_of(alt);
    imports.insert(Import::DocsFigure);
    let mut buf: Vec<char> = Vec::new();
    push_str(&mut buf, "#docs-figure(\n  \"");
    push_all(&mut buf, u.as_slice());
    push_str(&mut buf, "\",\n  alt: \"");
    push_all(&mut buf, a.as_slice());
    push_str(&mut buf, "\",\n)");
    buf
}

/// Whether `s` contains `c`.
pub fn contains_chars_one(s: &[char], c: char) -> (b: bool)
    ensures
        b == s@.contains(c),
{
    crate::text::contains_char(s, c)
}

// ---------------------------------------------------------------------------
// Links
// ---------------------------------------------------------------------------

/// The characters of each string.
pub fn chars_of_all(v: &Vec<String>) -> (r: Vec<Vec<char>>)
    ensures
        r@.map_values(|c: Vec<char>| c@) == texts(v@),
{
    let mut r: Vec<Vec<char>> = Vec::new();
    for i in 0..v.len()
        invariant
            r@.map_values(|c: Vec<char>| c@) == texts(v@.take(i as int)),
    {
        r.push(chars_of(v[i].as_str()));
        assert(texts(v@.take(i + 1)) == texts(v@.take(i as int)).push(v@[i as int]@));
        assert(r@.map_values(|c: Vec<char>| c@) == texts(v@.take(i + 1)));
    }
    assert(v@.take(v.len() as int) == v@);
    r
}

/// Whether `p` is one of the categories whose pages live under `reference`.
fn is_reference_category_exec(p: &[char]) -> (b: bool)
    ensures
        b == crate::convert::is_reference_category(p@),
{
    eq_str(p, "context") || eq_str(p, "styling") || eq_str(p, "syntax") || eq_str(p, "scripting")
        || eq_str(p, "bundle") || eq_str(p, "svg") || eq_str(p, "png")
}

/// The parts of a link target rearranged to the layout of the docs; see
/// `rearrange_parts`.
pub fn rearrange(parts: Vec<Vec<char>>) -> (r: Vec<Vec<char>>)
    ensures
        r@.map_values(|c: Vec<char>| c@) == rearrange_parts(parts@.map_values(|c: Vec<char>| c@)),
{
    let ghost v = parts@.map_values(|c: Vec<char>| c@);
    let n = parts.len();
    if n >= 1 && is_reference_category_exec(parts[0].as_slice()) {
        let mut r: Vec<Vec<char>> = Vec::new();
        r.push(chars_of("reference"));
        let mut rest = parts;
        r.append(&mut rest);
        assert(r@.map_values(|c: Vec<char>| c@) == seq!["reference"@] + v);
        return r;
    }
    if n >= 2 && eq_str(parts[0].as_slice(), "category") && eq_str(parts[1].as_slice(), "math") {
        let mut r = parts;
        r.remove(0);
        assert(r@.map_values(|c: Vec<char>| c@) == v.drop_first());
        return r;
    }
    if n >= 3 && eq_str(parts[0].as_slice(), "category") && ((eq_str(parts[1].as_slice(), "symbols")
        && (eq_str(parts[2].as_slice(), "sym") || eq_str(parts[2].as_slice(), "emoji"))) || (
    eq_str(parts[1].as_slice(), "foundations") && (eq_str(parts[2].as_slice(), "calc") || eq_str(
        parts[2].as_slice(),
        "std",
    ) || eq_str(parts[2].as_slice(), "sys")))) {
        let mut r = parts;
        r.remove(0);
        r.remove(0);
        assert(r@.map_values(|c: Vec<char>| c@) == v.skip(2));
        return r;
    }
    if n >= 1 && eq_str(parts[0].as_slice(), "category") {
        let mut r = parts;
        r.set(0, chars_of("reference"));
        assert(r@.map_values(|c: Vec<char>| c@) == v.update(0, "reference"@));
        return r;
    }
    parts
}

/// A link to a target in the docs; see `resolve_link_conv`.
pub fn resolve_link(target: &str, body: &[char]) -> (r: Result<Vec<char>, ConvertError>)
    ensures
        gives(r, resolve_link_conv(target@, body@)),
{
    let parts = match regex_split("/#?", target) {
        None => return Err(ConvertError::InvalidPattern),
        Some(p) => p,
    };
    let pieces = chars_of_all(&parts);
    let rearranged = rearrange(pieces);
    let mut dest = join_vecs(&rearranged, ":");
    let suffix = chars_of(":constructor");
    proof {
        reveal_strlit(":constructor");
    }
    if has_suffix(dest.as_slice(), suffix.as_slice()) {
        let ghost whole = dest@;
        dest.truncate(dest.len() - 12);
        assert(dest@ == whole.take(whole.len() - 12));
        push_str(&mut dest, ".constructor");
    }
    let ghost d = dest@;
    assert(d == destination(texts(parts@)));
    let mut quoted: Vec<char> = Vec::new();
    quoted.push('`');
    push_all(&mut quoted, dest.as_slice());
    quoted.push('`');
    let mut out: Vec<char> = Vec::new();
    out.push('@');
    push_all(&mut out, dest.as_slice());
    if crate::text::eq_chars(body, quoted.as_slice()) {
        assert(out@ == "@"@ + d) by {
            reveal_strlit("@");
        }
        assert(quoted@ == "`"@ + d + "`"@) by {
            reveal_strlit("`");
        }
    } else {
        out.push('[');
        push_all(&mut out, body);
        out.push(']');
        assert(out@ == "@"@ + d + "["@ + body@ + "]"@) by {
            reveal_strlit("@");
            reveal_strlit("[");
            reveal_strlit("]");
        }
        assert(quoted@ == "`"@ + d + "`"@) by {
            reveal_strlit("`");
        }
    }
    Ok(out)
}

/// The group `i` of a match, where it took part.
fn group_exec(groups: &Vec<Option<String>>, i: usize) -> (r: Option<Vec<char>>)
    ensures
        match r {
            Some(g) => group(optional_texts(groups@), i as int) == Some(g@),
            None => group(optional_texts(groups@), i as int) is None,
        },
{
    if i < groups.len() {
        match &groups[i] {
            Some(g) => Some(chars_of(g.as_str())),
            None => None,
        }
    } else {
        None
    }
}

/// A link with the URL `url` and the converted text `body`; see `link_conv`.
pub fn convert_link_target(url: &str, body: &[char]) -> (r: Result<Vec<char>, ConvertError>)
    ensures
        gives(r, link_conv(url@, body@)),
{
    let caps1 = match regex_captures("^https://github.com/([\\w0-9\\-]+)$", url) {
        None => return Err(ConvertError::InvalidPattern),
        Some(c) => c,
    };
    if let Some(caps1) = caps1 {
        let user = match group_exec(&caps1, 1) {
            None => return Err(ConvertError::InvalidPattern),
            Some(u) => u,
        };
        let body_str = string_of(body);
        let caps2 = match regex_captures("^\\\\@([\\w0-9\\-]+)$", body_str.as_str()) {
            None => return Err(ConvertError::InvalidPattern),
            Some(None) => return Err(ConvertError::GithubLinkText),
            Some(Some(c)) => c,
        };
        let named = match group_exec(&caps2, 1) {
            None => return Err(ConvertError::InvalidPattern),
            Some(n) => n,
        };
        if !crate::text::eq_chars(user.as_slice(), named.as_slice()) {
            return Err(ConvertError::GithubUserMismatch);
        }
        let user_str = string_of(user.as_slice());
        let quoted = debug_str(user_str.as_str());
        let mut out: Vec<char> = Vec::new();
        push_str(&mut out, "#gh(");
        push_str(&mut out, quoted.as_str());
        push_str(&mut out, ")");
        return Ok(out);
    }
    let u = chars_of(url);
    let http = chars_of("http");
    if has_prefix(u.as_slice(), http.as_slice()) {
        let quoted = debug_str(url);
        let mut out: Vec<char> = Vec::new();
        push_str(&mut out, "#link(");
        push_str(&mut out, quoted.as_str());
        push_str(&mut out, ")[");
        push_all(&mut out, body);
        push_str(&mut out, "]");
        return Ok(out);
    }
    if u.len() > 0 && u[0] == '$' {
        let mut rest: Vec<char> = Vec::new();
        for i in 1..u.len()
            invariant
                rest@ == u@.subrange(1, i as int),
        {
            rest.push(u[i]);
            assert(u@.subrange(1, i + 1) == u@.subrange(1, i as int).push(u@[i as int]));
        }
        assert(rest@ == url@.drop_first());
        let target = string_of(rest.as_slice());
        return resolve_link(target.as_str(), body);
    }
    Err(ConvertError::BadLink)
}

/// A link reference `identifier` with the converted text `body`; see
/// `link_ref_conv`.
pub fn convert_link_ref_target(ctx: &Context, identifier: &str, body: &[char]) -> (r: Result<
    Vec<char>,
    ConvertError,
>)
    ensures
        gives(r, link_ref_conv(ctx.ctx(), identifier@, body@)),
{
    let id = chars_of(identifier);
    if let Some(url) = find_link(&ctx.link_defs, id.as_slice()) {
        let quoted = debug_str(url);
        let mut out: Vec<char> = Vec::new();
        push_str(&mut out, "#link(");
        push_str(&mut out, quoted.as_str());
        push_str(&mut out, ")[");
        push_all(&mut out, body);
        push_str(&mut out, "]");
        return Ok(out);
    }
    let caps = match regex_captures("^(\\w+/\\w+)?#(\\d+)$", identifier) {
        None => return Err(ConvertError::InvalidPattern),
        Some(c) => c,
    };
    if let Some(caps) = caps {
        let nr = match group_exec(&caps, 2) {
            None => return Err(ConvertError::InvalidPattern),
            Some(n) => n,
        };
        let mut out: Vec<char> = Vec::new();
        push_str(&mut out, "#pr(");
        push_all(&mut out, nr.as_slice());
        match group_exec(&caps, 1) {
            Some(repo) => {
                let repo_str = string_of(repo.as_slice());
                let quoted = debug_str(repo_str.as_str());
                push_str(&mut out, ", repo: ");
                push_str(&mut out, quoted.as_str());
                push_str(&mut out, ")");
            },
            None => {
                push_str(&mut out, ")");
            },
        }
        return Ok(out);
    }
    let trimmed = trim_char(id.as_slice(), '`');
    let target = string_of(trimmed.as_slice());
    resolve_link(target.as_str(), body)
}

// ---------------------------------------------------------------------------
// Code blocks
// ---------------------------------------------------------------------------

/// The index of the first `b` in `bytes` at or after `from`.
pub fn find_byte_from(bytes: &[u8], from: usize, b: u8) -> (r: Option<usize>)
    ensures
        match r {
            Some(i) => find_byte(bytes@, from as int, b) == Some(i as int),
            None => find_byte(bytes@, from as int, b) is None,
        },
{
    let mut i = from;
    while i < bytes.len()
        invariant
            from <= i,
            find_byte(bytes@, from as int, b) == find_byte(bytes@, i as int, b),
        decreases bytes.len() - i,
    {
        if bytes[i] == b {
            return Some(i);
        }
        i = i + 1;
    }
    None
}

/// The title of a code block; see `quoted_title`.
pub fn code_title(source: &str, start_offset: usize) -> (r: Option<Vec<char>>)
    ensures
        ({
            let offset = if start_offset <= source@.len() {
                start_offset as int
            } else {
                source@.len() as int
            };
            match r {
                Some(t) => quoted_title(source@, offset) == Some(t@),
                None => quoted_title(source@, offset) is None,
            }
        }),
{
    let nchars = chars_of(source).len();
    let offset = if start_offset <= nchars {
        start_offset
    } else {
        nchars
    };
    if !source.is_char_boundary(offset) {
        return None;
    }
    let bytes = source.as_bytes();
    let q1 = match find_byte_from(bytes, offset, 0x22) {
        None => return None,
        Some(q) => q,
    };
    proof {
        lemma_find_byte(bytes@, offset as int, 0x22);
    }
    assert(q1 < bytes.len());
    let q2 = match find_byte_from(bytes, q1 + 1, 0x22) {
        None => return None,
        Some(q) => q,
    };
    proof {
        lemma_find_byte(bytes@, q1 + 1, 0x22);
    }
    if !source.is_char_boundary(q1 + 1) {
        return None;
    }
    let (_, rest) = source.split_at(q1 + 1);
    if !rest.is_char_boundary(q2 - (q1 + 1)) {
        return None;
    }
    let (title, _) = rest.split_at(q2 - (q1 + 1));
    proof {
        encode_utf8_decode_utf8(title@);
        assert(encode_utf8(title@) =~= encode_utf8(source@).subrange(q1 + 1, q2 as int));
    }
    Some(chars_of(title))
}

/// A raw block holding `value`; see `raw_block`.
pub fn raw_block_exec(tag: &[char], value: &[char]) -> (r: Result<Vec<char>, ConvertError>)
    ensures
        match r {
            Ok(t) => max_backtick_run(value@) < usize::MAX && t@ == raw_block(tag@, value@),
            Err(e) => max_backtick_run(value@) >= usize::MAX && e == ConvertError::BacktickRunTooLong,
        },
{
    let consecutive = max_consecutive_backticks(value);
    if consecutive == usize::MAX {
        return Err(ConvertError::BacktickRunTooLong);
    }
    let n: usize = if consecutive + 1 >= 3 {
        consecutive + 1
    } else {
        3
    };
    let delim = repeat('`', n);
    let mut buf: Vec<char> = Vec::new();
    push_all(&mut buf, delim.as_slice());
    push_all(&mut buf, tag);
    push_str(&mut buf, "\n");
    push_all(&mut buf, value);
    push_str(&mut buf, "\n");
    push_all(&mut buf, delim.as_slice());
    Ok(buf)
}

/// The characters of an optional text.
pub open spec fn opt_chars(o: Option<Vec<char>>) -> Option<Seq<char>> {
    match o {
        Some(v) => Some(v@),
        None => None,
    }
}

/// The characters of an optional list of texts.
pub open spec fn opt_parts(o: Option<Vec<Vec<char>>>) -> Option<Seq<Seq<char>>> {
    match o {
        Some(v) => Some(v@.map_values(|p: Vec<char>| p@)),
        None => None,
    }
}

/// A code block; see `code_block_conv`.
pub fn convert_code_block(
    ctx: &Context,
    value: &str,
    lang: &Option<String>,
    position: Option<Position>,
    imports: &mut Imports,
) -> (r: Result<Vec<char>, ConvertError>)
    ensures
        produced(
            r,
            *old(imports),
            *final(imports),
            code_block_conv(ctx.string@, value@, opt_view(*lang), position),
        ),
{
    let ghost settings = code_settings(ctx.string@, opt_view(*lang), position);
    let mut title: Option<Vec<char>> = None;
    let mut single = false;
    let mut zoom: Option<Vec<Vec<char>>> = None;
    let mut tag: Vec<char> = Vec::new();
    let mut example = false;
    match lang {
        None => {},
        Some(l) => {
            let lc = chars_of(l.as_str());
            let colon = find(lc.as_slice(), ':');
            let i: usize = match colon {
                Some(i) => i,
                None => lc.len(),
            };
            if i < lc.len() && i + 1 < lc.len() {
                let before = slice_chars(lc.as_slice(), 0, i);
                let after = slice_chars(lc.as_slice(), i + 1, lc.len());
                assert(before@ == lc@.take(i as int));
                assert(after@ == lc@.skip(i + 1));
                if !(eq_str(before.as_slice(), "example") || eq_str(before.as_slice(), "preview")) {
                    return Err(ConvertError::UnknownCodeBlockKind);
                }
                example = true;
                if after[0] == '"' {
                    match position {
                        None => return Err(ConvertError::MissingCodeBlockTitle),
                        Some(p) => match code_title(ctx.string, p.start_offset) {
                            None => return Err(ConvertError::MissingCodeBlockTitle),
                            Some(t) => {
                                title = Some(t);
                            },
                        },
                    }
                } else if eq_str(after.as_slice(), "single") {
                    single = true;
                } else {
                    let parts = split_char(after.as_slice(), ',');
                    if parts.len() < 4 {
                        return Err(ConvertError::IncompleteZoom);
                    }
                    let mut z: Vec<Vec<char>> = Vec::new();
                    for k in 0..4usize
                        invariant
                            parts.len() >= 4,
                            z@.map_values(|v: Vec<char>| v@) == parts@.map_values(
                                |v: Vec<char>| v@,
                            ).take(k as int),
                    {
                        z.push(slice_chars(parts[k].as_slice(), 0, parts[k].len()));
                        assert(parts[k as int]@.subrange(0, parts[k as int]@.len() as int)
                            == parts[k as int]@);
                        assert(parts@.map_values(|v: Vec<char>| v@).take(k + 1) == parts@.map_values(
                            |v: Vec<char>| v@,
                        ).take(k as int).push(parts[k as int]@));
                    }
                    zoom = Some(z);
                }
            } else {
                tag = lc;
            }
        },
    }
    proof {
        if example {
            assert(tag@ == Seq::<char>::empty());
            assert(settings == Ok::<CodeSettings, ConvertError>(
                CodeSettings::Example { title: opt_chars(title), single, zoom: opt_parts(zoom) },
            ));
        } else {
            assert(settings == Ok::<CodeSettings, ConvertError>(CodeSettings::Plain(tag@)));
        }
    }
    let v = chars_of(value);
    let raw = match raw_block_exec(tag.as_slice(), v.as_slice()) {
        Err(e) => return Err(e),
        Ok(raw) => raw,
    };
    if !example {
        return Ok(raw);
    }
    imports.insert(Import::Example);
    let ghost t_line = match opt_chars(title) {
        Some(t) => "  title: "@ + debug_quoted(t) + ",\n"@,
        None => Seq::<char>::empty(),
    };
    let ghost s_line = if single {
        "  single: true,\n"@
    } else {
        Seq::<char>::empty()
    };
    let ghost z_line = match opt_parts(zoom) {
        Some(z) => zoom_line(z),
        None => Seq::<char>::empty(),
    };
    let mut buf: Vec<char> = Vec::new();
    push_str(&mut buf, "#example(\n");
    match title {
        Some(t) => {
            let ts = string_of(t.as_slice());
            let quoted = debug_str(ts.as_str());
            push_str(&mut buf, "  title: ");
            push_str(&mut buf, quoted.as_str());
            push_str(&mut buf, ",\n");
        },
        None => {},
    }
    assert(buf@ == "#example(\n"@ + t_line);
    if single {
        push_str(&mut buf, "  single: true,\n");
    }
    assert(buf@ == "#example(\n"@ + t_line + s_line);
    match zoom {
        Some(z) => {
            let ghost zv = z@.map_values(|p: Vec<char>| p@);
            assert(zv[0] == z[0]@ && zv[1] == z[1]@ && zv[2] == z[2]@ && zv[3] == z[3]@);
            push_str(&mut buf, "  zoom: (");
            push_all(&mut buf, z[0].as_slice());
            push_str(&mut buf, "pt, ");
            push_all(&mut buf, z[1].as_slice());
            push_str(&mut buf, "pt, ");
            push_all(&mut buf, z[2].as_slice());
            push_str(&mut buf, "pt, ");
            push_all(&mut buf, z[3].as_slice());
            push_str(&mut buf, "pt),\n");
        },
        None => {},
    }
    assert(buf@ == "#example(\n"@ + t_line + s_line + z_line);
    let ind = indent(raw.as_slice());
    push_all(&mut buf, ind.as_slice());
    push_str(&mut buf, "\n)");
    assert(buf@ == "#example(\n"@ + t_line + s_line + z_line + indent_spec(raw@) + "\n"@ + ")"@) by {
        reveal_strlit("\n)");
        reveal_strlit("\n");
        reveal_strlit(")");
    }
    Ok(buf)
}

// ---------------------------------------------------------------------------
// Headings
// ---------------------------------------------------------------------------

/// Whether the file's path mentions the changelog.
fn path_in_changelog(ctx: &Context) -> (b: bool)
    ensures
        b == in_changelog(ctx.ctx()),
{
    match ctx.opt.path {
        Some(p) => {
            let pc = chars_of(p);
            let needle = chars_of("changelog");
            contains_chars(pc.as_slice(), needle.as_slice())
        },
        None => false,
    }
}

/// A heading of depth `depth` with the converted text `body`; see
/// `heading_conv`.
pub fn heading_markup(ctx: &Context, depth: usize, body: &[char]) -> (r: Result<
    Vec<char>,
    ConvertError,
>)
    ensures
        gives(r, heading_conv(ctx.ctx(), depth as int, body@)),
{
    let body_str = string_of(body);
    let patched = match label_headings(body_str.as_str()) {
        None => return Err(ConvertError::InvalidPattern),
        Some(p) => p,
    };
    let p = patched;
    if contains_chars_one(p.as_slice(), '\n') {
        return Err(ConvertError::MultilineHeading);
    }
    if path_in_changelog(ctx) && eq_str(p.as_slice(), "Contributors <contributors>") {
        return Ok(Vec::new());
    }
    let mut buf = repeat('=', depth);
    push_str(&mut buf, " ");
    push_all(&mut buf, p.as_slice());
    Ok(buf)
}

/// Once a prefix of the matches cannot be replaced, no longer prefix can.
proof fn lemma_labels_failure(text: Seq<char>, ms: Seq<HeadingMatch>, k: int, n: int)
    requires
        1 <= k <= n <= ms.len(),
        labels_prefix(text, ms, k) is None,
    ensures
        labels_prefix(text, ms, n) is None,
    decreases n - k,
{
    if n > k {
        lemma_labels_failure(text, ms, k, n - 1);
    }
}

/// The heading text with each match of the heading pattern replaced by its
/// text and label; see `labels_replaced`.
pub fn label_headings(text: &str) -> (r: Option<Vec<char>>)
    ensures
        match heading_matches_of(heading_pattern(), text@) {
            None => r is None,
            Some(ms) => match labels_replaced(text@, ms) {
                None => r is None,
                Some(t) => r matches Some(v) && v@ == t,
            },
        },
{
    let ms = match heading_label_matches(
        "(?m)^\\s*(.*?)\\s*(\\{\\s*\\\\#(\\S*)\\s*\\})?\\s*$",
        text,
    ) {
        None => return None,
        Some(ms) => ms,
    };
    let ghost mv = match_views(ms@);
    let mut out: Vec<char> = Vec::new();
    let mut cursor: usize = 0;
    for k in 0..ms.len()
        invariant
            mv == match_views(ms@),
            heading_matches_of(heading_pattern(), text@) == Some(mv),
            labels_prefix(text@, mv, k as int) == Some((out@, cursor as int)),
    {
        let start = ms[k].0;
        let end = ms[k].1;
        assert(mv[k as int].0 == start && mv[k as int].1 == end);
        let piece = match slice_str(text, cursor, start) {
            None => {
                proof {
                    assert(labels_prefix(text@, mv, k + 1) is None);
                    lemma_labels_failure(text@, mv, k + 1, mv.len() as int);
                }
                return None;
            },
            Some(p) => p,
        };
        assert(mv[k as int].2 == match ms[k as int].2 {
            Some(s) => Some(s@),
            None => None::<Seq<char>>,
        });
        assert(mv[k as int].3 == match ms[k as int].3 {
            Some(s) => Some(s@),
            None => None::<Seq<char>>,
        });
        let labelled_text = match &ms[k].2 {
            None => {
                proof {
                    assert(labels_prefix(text@, mv, k + 1) is None);
                    lemma_labels_failure(text@, mv, k + 1, mv.len() as int);
                }
                return None;
            },
            Some(body) => {
                let id = match &ms[k].3 {
                    Some(i) => Some(i.as_str()),
                    None => None,
                };
                heading_with_label(body.as_str(), id)
            },
        };
        push_all(&mut out, piece.as_slice());
        push_str(&mut out, labelled_text.as_str());
        cursor = end;
    }
    let total = text.as_bytes().len();
    let rest = match slice_str(text, cursor, total) {
        None => return None,
        Some(r) => r,
    };
    push_all(&mut out, rest.as_slice());
    Some(out)
}

// ---------------------------------------------------------------------------
// The recursive conversion
// ---------------------------------------------------------------------------

/// Inline nodes converted and concatenated; see `inlines_conv`.
pub fn convert_inlines(ctx: &Context, nodes: &Vec<Node>, imports: &mut Imports, fuel: usize) -> (r:
    Result<Vec<char>, ConvertError>)
    ensures
        produced(r, *old(imports), *final(imports), inlines_conv(ctx.ctx(), nodes@, fuel as nat)),
    decreases fuel, nodes@, nodes@.len() + 1,
{
    let ghost c = ctx.ctx();
    let ghost start = *imports;
    let mut buf: Vec<char> = Vec::new();
    proof {
        lemma_inlines_conv_unfold(c, nodes@, fuel as nat);
        lemma_inlines_prefix_unfold(c, nodes@, 0, fuel as nat);
    }
    for i in 0..nodes.len()
        invariant
            c == ctx.ctx(),
            inlines_prefix(c, nodes@, i as int, fuel as nat) matches Ok((t, u)) && buf@ == t
                && *imports == start.union(u),
    {
        proof {
            lemma_inlines_prefix_unfold(c, nodes@, i + 1, fuel as nat);
        }
        let ghost before = *imports;
        match convert_inline_node(ctx, &nodes[i], imports, fuel) {
            Ok(t) => {
                push_all(&mut buf, t.as_slice());
            },
            Err(e) => {
                proof {
                    lemma_inlines_error(c, nodes@, i + 1, nodes@.len() as int, fuel as nat);
                    lemma_inlines_conv_unfold(c, nodes@, fuel as nat);
                }
                return Err(e);
            },
        }
    }
    Ok(buf)
}

/// An inline node converted; see `inline_conv`.
pub fn convert_inline_node(ctx: &Context, node: &Node, imports: &mut Imports, fuel: usize) -> (r:
    Result<Vec<char>, ConvertError>)
    ensures
        produced(r, *old(imports), *final(imports), inline_conv(ctx.ctx(), *node, fuel as nat)),
    decreases fuel, node, 0int,
{
    proof {
        lemma_inline_conv_unfold(ctx.ctx(), *node, fuel as nat);
    }
    match &node.kind {
        NodeKind::JsxText { name, children } => {
            let body = match convert_inlines(ctx, children, imports, fuel) {
                Err(e) => return Err(e),
                Ok(b) => b,
            };
            let is_sup = match name {
                Some(n) => eq_str(chars_of(n.as_str()).as_slice(), "sup"),
                None => false,
            };
            let is_kbd = match name {
                Some(n) => eq_str(chars_of(n.as_str()).as_slice(), "kbd"),
                None => false,
            };
            if is_sup {
                let mut buf: Vec<char> = Vec::new();
                push_str(&mut buf, "#super[");
                push_all(&mut buf, body.as_slice());
                push_str(&mut buf, "]");
                Ok(buf)
            } else if is_kbd {
                imports.insert(Import::Kbd);
                let mut buf: Vec<char> = Vec::new();
                push_str(&mut buf, "#kbd[");
                push_all(&mut buf, body.as_slice());
                push_str(&mut buf, "]");
                Ok(buf)
            } else {
                Err(ConvertError::UnsupportedTextElement)
            }
        },
        NodeKind::Strong { children } => {
            let body = match convert_inlines(ctx, children, imports, fuel) {
                Err(e) => return Err(e),
                Ok(b) => b,
            };
            if contains_chars_one(body.as_slice(), '*') {
                return Err(ConvertError::StarInStrong);
            }
            let mut buf: Vec<char> = Vec::new();
            push_str(&mut buf, "*");
            push_all(&mut buf, body.as_slice());
            push_str(&mut buf, "*");
            Ok(buf)
        },
        NodeKind::Emphasis { children } => {
            let body = match convert_inlines(ctx, children, imports, fuel) {
                Err(e) => return Err(e),
                Ok(b) => b,
            };
            if contains_chars_one(body.as_slice(), '_') {
                return Err(ConvertError::UnderscoreInEmphasis);
            }
            let mut buf: Vec<char> = Vec::new();
            push_str(&mut buf, "_");
            push_all(&mut buf, body.as_slice());
            push_str(&mut buf, "_");
            Ok(buf)
        },
        NodeKind::Text { value } => Ok(convert_text(value.as_str())),
        NodeKind::InlineCode { value } => convert_inline_code(value.as_str()),
        NodeKind::Link { url, title, children } => {
            if title.is_some() {
                return Err(ConvertError::LinkTitle);
            }
            let body = match convert_inlines(ctx, children, imports, fuel) {
                Err(e) => return Err(e),
                Ok(b) => b,
            };
            convert_link_target(url.as_str(), body.as_slice())
        },
        NodeKind::LinkReference { identifier, children } => {
            let body = match convert_inlines(ctx, children, imports, fuel) {
                Err(e) => return Err(e),
                Ok(b) => b,
            };
            convert_link_ref_target(ctx, identifier.as_str(), body.as_slice())
        },
        NodeKind::FootnoteReference { identifier } => {
            let id = chars_of(identifier.as_str());
            let nodes = match find_footnote(&ctx.footnote_defs, id.as_slice()) {
                None => return Err(ConvertError::MissingFootnote),
                Some(n) => n,
            };
            if fuel == 0 {
                return Err(ConvertError::FootnoteCycle);
            }
            let body = match convert_flow(ctx, nodes, imports, fuel - 1) {
                Err(e) => return Err(e),
                Ok(b) => b,
            };
            let mut buf: Vec<char> = Vec::new();
            push_str(&mut buf, " #footnote[");
            push_all(&mut buf, body.as_slice());
            push_str(&mut buf, "]");
            Ok(buf)
        },
        NodeKind::Image { url, alt } => match image_error(url.as_str(), alt.as_str()) {
            Some(e) => Err(e),
            None => {
                let ghost before = *imports;
                let t = convert_image(url.as_str(), alt.as_str(), imports);
                assert(*imports == before.union(Imports::single(Import::DocsFigure)));
                Ok(t)
            },
        },
        NodeKind::Break => {
            let mut buf: Vec<char> = Vec::new();
            push_str(&mut buf, "\\\n");
            Ok(buf)
        },
        _ => Err(ConvertError::UnsupportedInlineNode),
    }
}

/// The separator after the `i`th block; see `separator_after`.
fn separator(nodes: &Vec<Node>, i: usize) -> (r: Vec<char>)
    requires
        i < nodes.len(),
    ensures
        r@ == separator_after(nodes@, i as int),
{
    let next_is_list_below = if i + 1 < nodes.len() {
        match (&nodes[i + 1].kind, nodes[i].position, nodes[i + 1].position) {
            (NodeKind::List { .. }, Some(cur), Some(next)) => next.start_line > 0
                && cur.end_line == next.start_line - 1,
            _ => false,
        }
    } else {
        false
    };
    if next_is_list_below {
        return chars_of("\n");
    }
    match &nodes[i].kind {
        NodeKind::Heading { .. } => chars_of("\n"),
        _ => chars_of("\n\n"),
    }
}

/// Blocks converted and joined; see `flow_conv`.
#[verifier::rlimit(40)]
pub fn convert_flow(ctx: &Context, nodes: &Vec<Node>, imports: &mut Imports, fuel: usize) -> (r:
    Result<Vec<char>, ConvertError>)
    ensures
        produced(r, *old(imports), *final(imports), flow_conv(ctx.ctx(), nodes@, fuel as nat)),
    decreases fuel, nodes@, nodes@.len() + 1,
{
    let ghost c = ctx.ctx();
    let ghost start = *imports;
    let mut buf: Vec<char> = Vec::new();
    let mut sep: Vec<char> = Vec::new();
    proof {
        lemma_flow_conv_unfold(c, nodes@, fuel as nat);
        lemma_flow_prefix_unfold(c, nodes@, 0, fuel as nat);
    }
    for i in 0..nodes.len()
        invariant
            c == ctx.ctx(),
            flow_prefix(c, nodes@, i as int, fuel as nat) matches Ok((t, s, u)) && buf@ == t
                && sep@ == s && *imports == start.union(u),
    {
        proof {
            lemma_flow_prefix_unfold(c, nodes@, i + 1, fuel as nat);
        }
        match convert_flow_node(ctx, &nodes[i], imports, fuel) {
            Ok(t) => {
                if t.len() > 0 {
                    push_all(&mut buf, sep.as_slice());
                    push_all(&mut buf, t.as_slice());
                    sep = separator(nodes, i);
                }
            },
            Err(e) => {
                proof {
                    lemma_flow_error(c, nodes@, i + 1, nodes@.len() as int, fuel as nat);
                    lemma_flow_conv_unfold(c, nodes@, fuel as nat);
                }
                return Err(e);
            },
        }
    }
    Ok(buf)
}

/// The lines of a list item's text appended to `buf`; see `item_lines`.
fn push_item_lines(buf: &mut Vec<char>, text: &[char], head: &str)
    ensures
        final(buf)@ == old(buf)@ + item_lines(lines(text@), head@),
{
    let ls = split_lines(text);
    let ghost lv = lines(text@);
    let ghost start = buf@;
    for j in 0..ls.len()
        invariant
            ls@.map_values(|l: Vec<char>| l@) == lv,
            lv == lines(text@),
            buf@ == start + item_lines(lv.take(j as int), head@),
    {
        if j == 0 {
            push_str(buf, head);
        } else {
            push_str(buf, "  ");
        }
        push_all(buf, ls[j].as_slice());
        push_str(buf, "\n");
        assert(lv.take(j + 1).drop_last() == lv.take(j as int));
        assert(ls@.map_values(|l: Vec<char>| l@)[j as int] == ls@[j as int]@);
    }
    assert(lv.take(ls.len() as int) == lv);
}

/// A list converted; see `list_conv`.
pub fn convert_list(
    ctx: &Context,
    ordered: bool,
    spread: bool,
    start: Option<u32>,
    items: &Vec<Node>,
    imports: &mut Imports,
    fuel: usize,
) -> (r: Result<Vec<char>, ConvertError>)
    ensures
        produced(
            r,
            *old(imports),
            *final(imports),
            list_conv(ctx.ctx(), ordered, spread, start, items@, fuel as nat),
        ),
    decreases fuel, items@, items@.len() + 1,
{
    let ghost c = ctx.ctx();
    proof {
        lemma_list_conv_unfold(c, ordered, spread, start, items@, fuel as nat);
    }
    if let Some(s) = start {
        if s != 1 {
            return Err(ConvertError::ListStart);
        }
    }
    for i in 0..items.len()
        invariant
            c == ctx.ctx(),
            !(start matches Some(s) && s != 1),
            forall|j: int| 0 <= j < i ==> (#[trigger] items@[j]).kind is ListItem,
    {
        match &items[i].kind {
            NodeKind::ListItem { .. } => {},
            _ => {
                assert(!(items@[i as int].kind is ListItem));
                proof {
                    lemma_list_conv_unfold(c, ordered, spread, start, items@, fuel as nat);
                }
                return Err(ConvertError::NotAListItem);
            },
        }
    }
    assert(all_list_items(items@));
    let head = if ordered {
        "+ "
    } else {
        "- "
    };
    assert(head@ == list_head(ordered));
    let ghost base = *imports;
    let mut buf: Vec<char> = Vec::new();
    proof {
        lemma_items_prefix_unfold(c, ordered, spread, items@, 0, fuel as nat);
    }
    for i in 0..items.len()
        invariant
            c == ctx.ctx(),
            head@ == list_head(ordered),
            !(start matches Some(s) && s != 1),
            all_list_items(items@),
            items_prefix(c, ordered, spread, items@, i as int, fuel as nat) matches Ok((t, u))
                && buf@ == t && *imports == base.union(u),
    {
        proof {
            lemma_items_prefix_unfold(c, ordered, spread, items@, i + 1, fuel as nat);
        }
        if i > 0 && spread {
            push_str(&mut buf, "\n");
        }
        match &items[i].kind {
            NodeKind::ListItem { children } => {
                match convert_flow(ctx, children, imports, fuel) {
                    Ok(t) => {
                        push_item_lines(&mut buf, t.as_slice(), head);
                    },
                    Err(e) => {
                        proof {
                            lemma_items_error(
                                c,
                                ordered,
                                spread,
                                items@,
                                i + 1,
                                items@.len() as int,
                                fuel as nat,
                            );
                            lemma_list_conv_unfold(c, ordered, spread, start, items@, fuel as nat);
                        }
                        return Err(e);
                    },
                }
            },
            _ => {
                proof {
                    lemma_items_error(
                        c,
                        ordered,
                        spread,
                        items@,
                        i + 1,
                        items@.len() as int,
                        fuel as nat,
                    );
                    lemma_list_conv_unfold(c, ordered, spread, start, items@, fuel as nat);
                }
                return Err(ConvertError::NotAListItem);
            },
        }
    }
    if buf.len() > 0 && buf[buf.len() - 1] == '\n' {
        buf.pop();
        Ok(buf)
    } else {
        Err(ConvertError::EmptyList)
    }
}

/// The cells of a row, each converted between `open` and `close`.
pub fn convert_cells(
    ctx: &Context,
    cells: &Vec<Node>,
    open: &str,
    close: &str,
    imports: &mut Imports,
    fuel: usize,
) -> (r: Result<Vec<char>, ConvertError>)
    ensures
        produced(
            r,
            *old(imports),
            *final(imports),
            cells_prefix(ctx.ctx(), cells@, cells@.len() as int, open@, close@, fuel as nat),
        ),
    decreases fuel, cells@, cells@.len() + 1,
{
    let ghost c = ctx.ctx();
    let ghost base = *imports;
    let mut buf: Vec<char> = Vec::new();
    proof {
        lemma_cells_prefix_unfold(c, cells@, 0, open@, close@, fuel as nat);
    }
    for i in 0..cells.len()
        invariant
            c == ctx.ctx(),
            cells_prefix(c, cells@, i as int, open@, close@, fuel as nat) matches Ok((t, u))
                && buf@ == t && *imports == base.union(u),
    {
        proof {
            lemma_cells_prefix_unfold(c, cells@, i + 1, open@, close@, fuel as nat);
        }
        match &cells[i].kind {
            NodeKind::TableCell { children } => {
                match convert_inlines(ctx, children, imports, fuel) {
                    Ok(t) => {
                        push_str(&mut buf, open);
                        push_all(&mut buf, t.as_slice());
                        push_str(&mut buf, close);
                    },
                    Err(e) => {
                        proof {
                            lemma_cells_error(
                                c,
                                cells@,
                                i + 1,
                                cells@.len() as int,
                                open@,
                                close@,
                                fuel as nat,
                            );
                        }
                        return Err(e);
                    },
                }
            },
            _ => {
                proof {
                    lemma_cells_error(
                        c,
                        cells@,
                        i + 1,
                        cells@.len() as int,
                        open@,
                        close@,
                        fuel as nat,
                    );
                }
                return Err(ConvertError::NotATableCell);
            },
        }
    }
    Ok(buf)
}

/// A table row's cells, each converted between `open` and `close`; see
/// `row_conv`.
pub fn convert_row(
    ctx: &Context,
    row: &Node,
    open: &str,
    close: &str,
    imports: &mut Imports,
    fuel: usize,
) -> (r: Result<Vec<char>, ConvertError>)
    ensures
        produced(r, *old(imports), *final(imports), row_conv(ctx.ctx(), *row, open@, close@, fuel as nat)),
    decreases fuel, row, 0int,
{
    proof {
        lemma_row_conv_unfold(ctx.ctx(), *row, open@, close@, fuel as nat);
    }
    match &row.kind {
        NodeKind::TableRow { children } => convert_cells(ctx, children, open, close, imports, fuel),
        _ => Err(ConvertError::NotATableRow),
    }
}

/// Whether every node is a table cell.
fn all_cells(nodes: &Vec<Node>) -> (b: bool)
    ensures
        b == (forall|k: int| 0 <= k < nodes@.len() ==> (#[trigger] nodes@[k]).kind is TableCell),
{
    for j in 0..nodes.len()
        invariant
            forall|k: int| 0 <= k < j ==> (#[trigger] nodes@[k]).kind is TableCell,
    {
        match &nodes[j].kind {
            NodeKind::TableCell { .. } => {},
            _ => {
                assert(!(nodes@[j as int].kind is TableCell));
                return false;
            },
        }
    }
    true
}

/// The first error that the shape of a table's rows gives, if any; see
/// `table_shape_error`.
fn check_table_shape(rows: &Vec<Node>) -> (r: Option<ConvertError>)
    ensures
        r == table_shape_error(rows@, rows@.len() as int),
{
    for i in 0..rows.len()
        invariant
            table_shape_error(rows@, i as int) is None,
    {
        match &rows[i].kind {
            NodeKind::TableRow { children } => {
                if !all_cells(children) {
                    assert(table_shape_error(rows@, i + 1) == Some(ConvertError::NotATableCell));
                    proof {
                        lemma_table_shape_error(rows@, i + 1, rows@.len() as int);
                    }
                    return Some(ConvertError::NotATableCell);
                }
                assert(table_shape_error(rows@, i + 1) is None);
            },
            _ => {
                assert(table_shape_error(rows@, i + 1) == Some(ConvertError::NotATableRow));
                proof {
                    lemma_table_shape_error(rows@, i + 1, rows@.len() as int);
                }
                return Some(ConvertError::NotATableRow);
            },
        }
    }
    None
}

/// The header and body rows of a table; see `table_rows_prefix`.
#[verifier::rlimit(40)]
fn convert_table_rows(ctx: &Context, rows: &Vec<Node>, imports: &mut Imports, fuel: usize) -> (r:
    Result<(Vec<char>, Vec<char>), ConvertError>)
    ensures
        match table_rows_prefix(ctx.ctx(), rows@, rows@.len() as int, fuel as nat) {
            Ok((h, b, u)) => r matches Ok((hr, br)) && hr@ == h && br@ == b && *final(imports)
                == old(imports).union(u),
            Err(e) => r == Err::<(Vec<char>, Vec<char>), ConvertError>(e),
        },
    decreases fuel, rows@, rows@.len(),
{
    let ghost c = ctx.ctx();
    let ghost base = *imports;
    let mut header: Vec<char> = Vec::new();
    let mut body: Vec<char> = Vec::new();
    proof {
        lemma_table_rows_prefix_unfold(c, rows@, 0, fuel as nat);
    }
    for i in 0..rows.len()
        invariant
            c == ctx.ctx(),
            table_rows_prefix(c, rows@, i as int, fuel as nat) matches Ok((h, b, u)) && header@
                == h && body@ == b && *imports == base.union(u),
    {
        proof {
            lemma_table_rows_prefix_unfold(c, rows@, i + 1, fuel as nat);
        }
        let r = if i == 0 {
            convert_row(ctx, &rows[i], "[", "]", imports, fuel)
        } else {
            convert_row(ctx, &rows[i], "  [", "],\n", imports, fuel)
        };
        match r {
            Ok(t) => {
                if i == 0 {
                    header = t;
                } else {
                    push_str(&mut body, "\n");
                    push_all(&mut body, t.as_slice());
                }
            },
            Err(e) => {
                proof {
                    lemma_table_rows_error(c, rows@, i + 1, rows@.len() as int, fuel as nat);
                }
                return Err(e);
            },
        }
    }
    Ok((header, body))
}

/// A table converted; see `table_conv`.
pub fn convert_table(ctx: &Context, rows: &Vec<Node>, imports: &mut Imports, fuel: usize) -> (r:
    Result<Vec<char>, ConvertError>)
    ensures
        produced(r, *old(imports), *final(imports), table_conv(ctx.ctx(), rows@, fuel as nat)),
    decreases fuel, rows@, rows@.len() + 2,
{
    proof {
        lemma_table_conv_unfold(ctx.ctx(), rows@, fuel as nat);
    }
    if let Some(e) = check_table_shape(rows) {
        return Err(e);
    }
    if rows.len() == 0 {
        return Err(ConvertError::EmptyTable);
    }
    convert_table_markup(ctx, rows, imports, fuel)
}

/// The `docs-table` of a table with at least one row; see
/// `table_markup_conv`.
fn convert_table_markup(ctx: &Context, rows: &Vec<Node>, imports: &mut Imports, fuel: usize) -> (r:
    Result<Vec<char>, ConvertError>)
    ensures
        produced(r, *old(imports), *final(imports), table_markup_conv(ctx.ctx(), rows@, fuel as nat)),
    decreases fuel, rows@, rows@.len() + 1,
{
    proof {
        lemma_table_markup_conv_unfold(ctx.ctx(), rows@, fuel as nat);
    }
    if rows.len() == 0 {
        return Err(ConvertError::EmptyTable);
    }
    let (header, body) = match convert_table_rows(ctx, rows, imports, fuel) {
        Err(e) => return Err(e),
        Ok(p) => p,
    };
    imports.insert(Import::DocsTable);
    let mut buf: Vec<char> = Vec::new();
    push_str(&mut buf, "#docs-table(\n  table.header");
    push_all(&mut buf, header.as_slice());
    push_str(&mut buf, ",\n");
    push_all(&mut buf, body.as_slice());
    push_str(&mut buf, ")");
    Ok(buf)
}

/// Whether the attributes are exactly `class="info-box"`; see `is_info_box`.
fn is_info_box_exec(attrs: &Vec<JsxAttribute>) -> (b: bool)
    ensures
        b == is_info_box(attrs@),
{
    if attrs.len() != 1 {
        return false;
    }
    match &attrs[0] {
        JsxAttribute::Property { name, value } => {
            if !eq_str(chars_of(name.as_str()).as_slice(), "class") {
                return false;
            }
            match value {
                Some(JsxValue::Literal(lit)) => eq_str(chars_of(lit.as_str()).as_slice(), "info-box"),
                _ => false,
            }
        },
        _ => false,
    }
}

/// Whether the optional name is `n`.
fn name_is(name: &Option<String>, n: &str) -> (b: bool)
    ensures
        b == (opt_view(*name) == Some(n@)),
{
    match name {
        Some(s) => eq_str(chars_of(s.as_str()).as_slice(), n),
        None => false,
    }
}

/// A node in flow position converted; see `flow_node_conv`.
pub fn convert_flow_node(ctx: &Context, node: &Node, imports: &mut Imports, fuel: usize) -> (r:
    Result<Vec<char>, ConvertError>)
    ensures
        produced(r, *old(imports), *final(imports), flow_node_conv(ctx.ctx(), *node, fuel as nat)),
    decreases fuel, node, 0int,
{
    proof {
        lemma_flow_node_conv_unfold(ctx.ctx(), *node, fuel as nat);
    }
    match &node.kind {
        NodeKind::JsxFlow { name, attributes, children } => {
            let body = match convert_flow(ctx, children, imports, fuel) {
                Err(e) => return Err(e),
                Ok(b) => b,
            };
            if name_is(name, "contributors") {
                Ok(Vec::new())
            } else if name_is(name, "div") {
                if is_info_box_exec(attributes) {
                    imports.insert(Import::Info);
                    Ok(call_blocky("info", body.as_slice()))
                } else {
                    Err(ConvertError::UnsupportedDiv)
                }
            } else if name_is(name, "details") {
                imports.insert(Import::Details);
                Ok(call_blocky("details", body.as_slice()))
            } else if name_is(name, "summary") {
                Ok(call_blocky("summary", body.as_slice()))
            } else {
                Err(ConvertError::UnsupportedFlowElement)
            }
        },
        NodeKind::Heading { depth, children } => {
            let d: i128 = *depth as i128 + ctx.opt.heading_offset as i128;
            if d < 1 {
                return Ok(Vec::new());
            }
            let body = match convert_inlines(ctx, children, imports, fuel) {
                Err(e) => return Err(e),
                Ok(b) => b,
            };
            heading_markup(ctx, d as usize, body.as_slice())
        },
        NodeKind::Code { value, lang } => convert_code_block(
            ctx,
            value.as_str(),
            lang,
            node.position,
            imports,
        ),
        NodeKind::ThematicBreak => Ok(chars_of("#divider()")),
        NodeKind::Blockquote { children } => {
            let body = match convert_flow(ctx, children, imports, fuel) {
                Err(e) => return Err(e),
                Ok(b) => b,
            };
            Ok(call_blocky("quote(block: true)", body.as_slice()))
        },
        NodeKind::List { ordered, spread, start, children } => convert_list(
            ctx,
            *ordered,
            *spread,
            *start,
            children,
            imports,
            fuel,
        ),
        NodeKind::Table { children } => convert_table(ctx, children, imports, fuel),
        NodeKind::Paragraph { children } => convert_inlines(ctx, children, imports, fuel),
        NodeKind::Definition { .. } => Ok(Vec::new()),
        NodeKind::FootnoteDefinition { .. } => Ok(Vec::new()),
        _ => Err(ConvertError::UnsupportedFlowNode),
    }
}

// ---------------------------------------------------------------------------
// Documents
// ---------------------------------------------------------------------------

/// The link definitions among `nodes`, in order; see `link_defs_of`.
pub fn collect_link_defs<'a>(nodes: &'a Vec<Node>) -> (r: Vec<(&'a str, &'a str)>)
    ensures
        r@.map_values(|d: (&'a str, &'a str)| (d.0@, d.1@)) == link_defs_of(nodes@),
{
    let mut r: Vec<(&'a str, &'a str)> = Vec::new();
    for i in 0..nodes.len()
        invariant
            r@.map_values(|d: (&'a str, &'a str)| (d.0@, d.1@)) == link_defs_of(
                nodes@.take(i as int),
            ),
    {
        assert(nodes@.take(i + 1).drop_last() == nodes@.take(i as int));
        let ghost before = r@.map_values(|d: (&'a str, &'a str)| (d.0@, d.1@));
        match &nodes[i].kind {
            NodeKind::Definition { identifier, url } => {
                r.push((identifier.as_str(), url.as_str()));
                assert(r@.map_values(|d: (&'a str, &'a str)| (d.0@, d.1@)) == before.push(
                    (identifier@, url@),
                ));
            },
            _ => {},
        }
    }
    assert(nodes@.take(nodes.len() as int) == nodes@);
    r
}

/// The footnote definitions among `nodes`, in order; see `footnote_defs_of`.
pub fn collect_footnote_defs<'a>(nodes: &'a Vec<Node>) -> (r: Vec<(&'a str, &'a Vec<Node>)>)
    ensures
        r@.map_values(|d: (&'a str, &'a Vec<Node>)| (d.0@, d.1@)) == footnote_defs_of(nodes@),
{
    let mut r: Vec<(&'a str, &'a Vec<Node>)> = Vec::new();
    for i in 0..nodes.len()
        invariant
            r@.map_values(|d: (&'a str, &'a Vec<Node>)| (d.0@, d.1@)) == footnote_defs_of(
                nodes@.take(i as int),
            ),
    {
        assert(nodes@.take(i + 1).drop_last() == nodes@.take(i as int));
        let ghost before = r@.map_values(|d: (&'a str, &'a Vec<Node>)| (d.0@, d.1@));
        match &nodes[i].kind {
            NodeKind::FootnoteDefinition { identifier, children } => {
                r.push((identifier.as_str(), children));
                assert(r@.map_values(|d: (&'a str, &'a Vec<Node>)| (d.0@, d.1@)) == before.push(
                    (identifier@, children@),
                ));
            },
            _ => {},
        }
    }
    assert(nodes@.take(nodes.len() as int) == nodes@);
    r
}

/// The content of the first heading of depth one; see `first_title_heading`.
pub fn find_title_heading(nodes: &Vec<Node>) -> (r: Option<&Vec<Node>>)
    ensures
        match r {
            Some(h) => first_title_heading(nodes@) == Some(h@),
            None => first_title_heading(nodes@) is None,
        },
{
    assert(nodes@.skip(0) == nodes@);
    for i in 0..nodes.len()
        invariant
            first_title_heading(nodes@) == first_title_heading(nodes@.skip(i as int)),
    {
        assert(nodes@.skip(i as int).drop_first() == nodes@.skip(i + 1));
        assert(nodes@.skip(i as int)[0] == nodes@[i as int]);
        match &nodes[i].kind {
            NodeKind::Heading { depth, children } => {
                if *depth == 1 {
                    return Some(children);
                }
            },
            _ => {},
        }
    }
    assert(nodes@.skip(nodes.len() as int).len() == 0);
    None
}

/// The optional path of the options, as text.
pub open spec fn path_of(opt: &Options) -> Option<Seq<char>> {
    match opt.path {
        Some(p) => Some(p@),
        None => None,
    }
}

/// The preamble of a converted document; see `preamble`.
fn convert_preamble(path: Option<&str>, meta: &Option<(Option<Vec<char>>, Option<Vec<char>>)>, imports: Imports) -> (r: Vec<char>)
    ensures
        r@ == preamble(
            match path {
                Some(p) => Some(p@),
                None => None,
            },
            meta_info(*meta),
            imports,
        ),
{
    let p = match path {
        None => return Vec::new(),
        Some(p) => p,
    };
    let pc = chars_of(p);
    let changelog = chars_of("changelog");
    let mut buf: Vec<char> = Vec::new();
    if contains_chars(pc.as_slice(), changelog.as_slice()) {
        push_str(&mut buf, "#import \"utils.typ\": *\n");
        push_str(&mut buf, "\n");
        return buf;
    }
    let mut imports = imports;
    imports.insert(Import::DocsChapter);
    let depth = path_depth(p);
    push_str(&mut buf, "#import \"");
    let ghost before = buf@;
    for k in 0..depth
        invariant
            buf@ == before + repeat_seq("../"@, k as nat),
    {
        push_str(&mut buf, "../");
    }
    push_str(&mut buf, "components/index.typ\": ");
    let names = imports.joined_names();
    push_all(&mut buf, names.as_slice());
    push_str(&mut buf, "\n");
    push_str(&mut buf, "\n");
    push_str(&mut buf, "#show: docs-chapter.with(\n");
    match meta {
        Some((Some(t), _)) => {
            let ts = string_of(t.as_slice());
            let quoted = debug_str(ts.as_str());
            push_str(&mut buf, "  title: ");
            push_str(&mut buf, quoted.as_str());
            push_str(&mut buf, ",\n");
        },
        _ => {},
    }
    let route = strip_extension(p);
    push_str(&mut buf, "  route: \"/");
    push_str(&mut buf, route.as_str());
    push_str(&mut buf, "\",\n");
    match meta {
        Some((_, Some(d))) => {
            let flat = replace(d.as_slice(), '\n', ' ');
            let ds = string_of(flat.as_slice());
            let quoted = debug_str(ds.as_str());
            push_str(&mut buf, "  description: ");
            push_str(&mut buf, quoted.as_str());
            push_str(&mut buf, ",\n");
        },
        _ => {},
    }
    push_str(&mut buf, ")\n");
    push_str(&mut buf, "\n");
    buf
}

/// The metadata as the specification sees it.
pub open spec fn meta_info(meta: Option<(Option<Vec<char>>, Option<Vec<char>>)>) -> MetaInfo {
    match meta {
        None => MetaInfo::Absent,
        Some((t, d)) => MetaInfo::Present { title: opt_chars(t), description: opt_chars(d) },
    }
}

/// Converts a Markdown document, whose source text is `string`, given its
/// front matter and the nodes after it, to Typst markup; see `document_conv`.
pub fn convert_document(string: &str, doc: &Document, opt: &Options) -> (r: Result<
    String,
    ConvertError,
>)
    ensures
        match document_conv(string@, *doc, path_of(opt), opt.heading_offset as int) {
            Ok(t) => r matches Ok(s) && s@ == t,
            Err(e) => r == Err::<String, ConvertError>(e),
        },
{
    let links = collect_link_defs(&doc.children);
    let footnotes = collect_footnote_defs(&doc.children);
    let fuel = footnotes.len();
    let ctx = Context { string, opt, link_defs: links, footnote_defs: footnotes };
    let ghost c = document_ctx(string@, path_of(opt), opt.heading_offset as int, doc.children@);
    assert(ctx.ctx() == c);
    let mut imports = Imports::new();
    let mut meta: Option<(Option<Vec<char>>, Option<Vec<char>>)> = None;
    match &doc.front_matter {
        None => {},
        Some(m) => {
            let description = match &m.description {
                Some(d) => Some(chars_of(d.as_str())),
                None => None,
            };
            let title = match &m.title {
                Some(t) => Some(chars_of(t.as_str())),
                None => match find_title_heading(&doc.children) {
                    None => None,
                    Some(h) => match convert_inlines(&ctx, h, &mut imports, fuel) {
                        Err(e) => return Err(e),
                        Ok(t) => Some(t),
                    },
                },
            };
            meta = Some((title, description));
        },
    }
    let ghost md = metadata_conv(c, doc.front_matter, doc.children@, fuel as nat);
    assert(md matches Ok((mi, u0)) && mi == meta_info(meta) && imports == Imports::none().union(u0));
    let flow = match convert_flow(&ctx, &doc.children, &mut imports, fuel) {
        Err(e) => return Err(e),
        Ok(f) => f,
    };
    let mut out = convert_preamble(opt.path, &meta, imports);
    push_all(&mut out, flow.as_slice());
    Ok(string_of(out.as_slice()))
}


/// `res` is what `expect` says.
pub open spec fn gives_string(res: Result<String, ConvertError>, expect: Result<Seq<char>, ConvertError>) -> bool {
    match expect {
        Ok(t) => res matches Ok(s) && s@ == t,
        Err(e) => res == Err::<String, ConvertError>(e),
    }
}

/// Converts Markdown text, parsed into the top-level nodes `nodes`, to Typst
/// markup, where `front_matter` is the reading of the front matter that may
/// begin it; see `parsed_conv`.
pub fn convert_parsed(
    string: &str,
    nodes: Vec<Node>,
    front_matter: Option<Metadata>,
    opt: &Options,
) -> (r: Result<String, ConvertError>)
    ensures
        gives_string(r, parsed_conv(string@, front_matter, nodes@, path_of(opt), opt.heading_offset as int)),
{
    let mut nodes = nodes;
    let ghost all = nodes@;
    let starts = nodes.len() > 0 && match nodes[0].kind {
        NodeKind::Yaml { .. } => true,
        _ => false,
    };
    assert(starts == has_front_matter(all));
    let doc = if starts {
        nodes.remove(0);
        assert(nodes@ == all.drop_first());
        Document { front_matter, children: nodes }
    } else {
        Document { front_matter: None, children: nodes }
    };
    convert_document(string, &doc, opt)
}

/// Converts Markdown text to Typst markup, where `front_matter` is the reading
/// of the front matter that may begin it: the text is parsed in the
/// documentation's dialect (see `docs_markdown`), and its nodes converted as
/// `parsed_conv` says.
pub fn convert_md_to_typ(
    string: &str,
    front_matter: Option<Metadata>,
    opt: &Options,
) -> (r: Result<String, ConvertError>)
    ensures
        match docs_markdown(string@) {
            None => r == Err::<String, ConvertError>(ConvertError::UnparsableMarkdown),
            Some(ns) => gives_string(
                r,
                parsed_conv(string@, front_matter, ns, path_of(opt), opt.heading_offset as int),
            ),
        },
{
    let nodes = match parse_markdown(string) {
        None => return Err(ConvertError::UnparsableMarkdown),
        Some(n) => n,
    };
    convert_parsed(string, nodes, front_matter, opt)
}

/// The text of the front matter that the top-level nodes begin with, if any;
/// see `front_matter_text`.
pub fn front_matter_of(nodes: &Vec<Node>) -> (r: Option<String>)
    ensures
        match front_matter_text(nodes@) {
            None => r is None,
            Some(t) => r matches Some(s) && s@ == t,
        },
{
    if nodes.len() == 0 {
        return None;
    }
    match &nodes[0].kind {
        NodeKind::Yaml { value } => Some(value.clone()),
        _ => None,
    }
}

/// The text of the front matter that Markdown text begins with, if it parses
/// (see `docs_markdown`) and does begin with any.
pub fn front_matter_source(string: &str) -> (r: Option<String>)
    ensures
        match docs_markdown(string@) {
            None => r is None,
            Some(ns) => match front_matter_text(ns) {
                None => r is None,
                Some(t) => r matches Some(s) && s@ == t,
            },
        },
{
    match parse_markdown(string) {
        None => None,
        Some(nodes) => front_matter_of(&nodes),
    }
}

} // verus!
