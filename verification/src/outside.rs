//! The calls into std and into outside crates whose behaviour is taken on
//! trust. Each function here makes one call, or tells the variants of an
//! outside type apart; its contract is what the called function's
//! documentation or source shows, or a name for its result where that result
//! would take pages to describe.
use markdown::mdast::Node as MdastTree;
use markdown::mdast::{AttributeContent, AttributeValue};
use markdown::Constructs;

use crate::md::{JsxAttribute, JsxValue, NodeKind, Position};
use crate::parse::MarkdownDialect;
use vstd::prelude::*;

verus! {

/// What `format!("{:?}", s)` gives for a string: the string in double quotes
/// with the escapes of `str`'s `Debug` implementation.
pub uninterp spec fn debug_quoted(s: Seq<char>) -> Seq<char>;

/// What `heck::ToKebabCase::to_kebab_case` gives for a string.
pub uninterp spec fn kebab_case(s: Seq<char>) -> Seq<char>;

/// What `regex::Regex::new(pattern)` followed by `captures(text)` gives: `None`
/// when the pattern does not compile; otherwise the groups of the leftmost
/// match, if there is one, each present where it took part in the match.
pub uninterp spec fn regex_captures_of(pattern: Seq<char>, text: Seq<char>) -> Option<
    Option<Seq<Option<Seq<char>>>>,
>;

/// What `regex::Regex::new(pattern)` followed by `split(text)` gives: `None`
/// when the pattern does not compile; otherwise the pieces of `text` between
/// the matches.
pub uninterp spec fn regex_split_of(pattern: Seq<char>, text: Seq<char>) -> Option<Seq<Seq<char>>>;

/// The matches that `regex::Regex::captures_iter` finds in `text` for
/// `pattern`, in order: the byte range of each match, and its first and
/// third groups where they took part. `None` when `regex::Regex::new` rejects
/// the pattern.
pub uninterp spec fn heading_matches_of(pattern: Seq<char>, text: Seq<char>) -> Option<
    Seq<(int, int, Option<Seq<char>>, Option<Seq<char>>)>,
>;

/// The top-level nodes that `markdown::to_mdast` parses `source` into, with
/// the constructs that `dialect` switches on, each node turned field for
/// field into a `Node` (a kind without a conversion keeps its `Debug` form).
/// `None` when the parser reports an error.
pub uninterp spec fn markdown_nodes(source: Seq<char>, dialect: MarkdownDialect) -> Option<
    Seq<crate::md::Node>,
>;

/// What `typstyle_core` renders for `markup` with a line width of `width`,
/// wrapping text where `wrap` holds: `None` when it reports an error (the
/// markup does not parse).
pub uninterp spec fn formatted_typst(markup: Seq<char>, width: nat, wrap: bool) -> Option<
    Seq<char>,
>;

/// The views of a list of optional strings.
pub open spec fn optional_texts(v: Seq<Option<String>>) -> Seq<Option<Seq<char>>> {
    v.map_values(|o: Option<String>| match o {
        Some(s) => Some(s@),
        None => None,
    })
}

/// The views of a list of strings.
pub open spec fn texts(v: Seq<String>) -> Seq<Seq<char>> {
    v.map_values(|s: String| s@)
}

/// `String::push`: appends one character.
#[verifier::external_body]
pub(crate) fn push_char(s: &mut String, c: char)
    ensures
        final(s)@ == old(s)@.push(c),
{
    s.push(c)
}


/// `format!("{:?}", s)`: the `Debug` form of a string, named by `debug_quoted`.
#[verifier::external_body]
pub(crate) fn debug_str(s: &str) -> (r: String)
    ensures
        r@ == debug_quoted(s@),
{
    format!("{:?}", s)
}

/// `heck::ToKebabCase::to_kebab_case`, named by `kebab_case`.
#[verifier::external_body]
pub(crate) fn to_kebab_case(s: &str) -> (r: String)
    ensures
        r@ == kebab_case(s@),
{
    heck::ToKebabCase::to_kebab_case(s)
}

/// `regex::Regex::new` and `regex::Regex::captures`, named by
/// `regex_captures_of`; each group is handed out as an owned string.
#[verifier::external_body]
pub(crate) fn regex_captures(pattern: &str, text: &str) -> (r: Option<Option<Vec<Option<String>>>>)
    ensures
        match r {
            None => regex_captures_of(pattern@, text@) is None,
            Some(None) => regex_captures_of(pattern@, text@) == Some(
                None::<Seq<Option<Seq<char>>>>,
            ),
            Some(Some(groups)) => regex_captures_of(pattern@, text@) == Some(
                Some(optional_texts(groups@)),
            ),
        },
{
    let re = regex::Regex::new(pattern).ok()?;
    Some(
        re.captures(text).map(
            |caps| caps.iter().map(|m| m.map(|m| m.as_str().to_string())).collect(),
        ),
    )
}

/// `regex::Regex::new` and `regex::Regex::split`, named by `regex_split_of`;
/// each piece is handed out as an owned string.
#[verifier::external_body]
pub(crate) fn regex_split(pattern: &str, text: &str) -> (r: Option<Vec<String>>)
    ensures
        match r {
            None => regex_split_of(pattern@, text@) is None,
            Some(pieces) => regex_split_of(pattern@, text@) == Some(texts(pieces@)),
        },
{
    let re = regex::Regex::new(pattern).ok()?;
    Some(re.split(text).map(|piece| piece.to_string()).collect())
}

/// The matches of a heading as the specification sees them.
pub open spec fn match_views(v: Seq<(usize, usize, Option<String>, Option<String>)>) -> Seq<
    (int, int, Option<Seq<char>>, Option<Seq<char>>),
> {
    v.map_values(
        |m: (usize, usize, Option<String>, Option<String>)|
            (
                m.0 as int,
                m.1 as int,
                match m.2 {
                    Some(s) => Some(s@),
                    None => None,
                },
                match m.3 {
                    Some(s) => Some(s@),
                    None => None,
                },
            ),
    )
}

/// `regex::Regex::new` and `regex::Regex::captures_iter`, named by
/// `heading_matches_of`: each match's byte range and its first and third
/// groups, handed out as owned strings.
#[verifier::external_body]
pub(crate) fn heading_label_matches(pattern: &str, text: &str) -> (r: Option<
    Vec<(usize, usize, Option<String>, Option<String>)>,
>)
    ensures
        match r {
            None => heading_matches_of(pattern@, text@) is None,
            Some(ms) => heading_matches_of(pattern@, text@) == Some(match_views(ms@)),
        },
{
    let re = regex::Regex::new(pattern).ok()?;
    let owned = |g: Option<regex::Match>| g.map(|m| m.as_str().to_string());
    Some(re.captures_iter(text).map(|c| {
        let m = c.get_match();
        (m.start(), m.end(), owned(c.get(1)), owned(c.get(3)))
    }).collect())
}

/// `typstyle_core::Typstyle::format_text` and `render`, with a maximal line
/// width of `width` and text wrapping as `wrap` says; named by
/// `formatted_typst`.
#[verifier::external_body]
pub(crate) fn format_width(markup: &str, width: usize, wrap: bool) -> (r: Option<String>)
    ensures
        match r {
            None => formatted_typst(markup@, width as nat, wrap) is None,
            Some(s) => formatted_typst(markup@, width as nat, wrap) == Some(s@),
        },
{
    let config = typstyle_core::Config::new().with_width(width).with_wrap_text(wrap);
    typstyle_core::Typstyle::new(config).format_text(markup).render().ok()
}

#[verifier::external_type_specification]
#[verifier::external_body]
pub struct ExMdastTree(MdastTree);

#[verifier::external_type_specification]
#[verifier::external_body]
pub struct ExMdastAttribute(AttributeContent);

#[verifier::external_type_specification]
#[verifier::external_body]
pub struct ExConstructs(Constructs);

/// `markdown::to_mdast` with the constructs of `dialect`, the children of the
/// root it parses `source` into turned into `Node`s; named by
/// `markdown_nodes`.
#[verifier::external_body]
pub(crate) fn md_parse(source: &str, dialect: &MarkdownDialect) -> (r: Option<Vec<crate::md::Node>>)
    ensures
        match r {
            Some(n) => markdown_nodes(source@, *dialect) == Some(n@),
            None => markdown_nodes(source@, *dialect) is None,
        },
{
    let options = markdown::ParseOptions { constructs: md_constructs(dialect), ..Default::default() };
    match markdown::to_mdast(source, &options) {
        Ok(MdastTree::Root(root)) => Some(md_nodes(&root.children)),
        _ => None,
    }
}

/// The `markdown::Constructs` that a dialect switches on, flag for flag;
/// the others keep `markdown`'s defaults.
#[verifier::external_body]
fn md_constructs(d: &MarkdownDialect) -> Constructs {
    Constructs {
        autolink: d.autolink, block_quote: d.block_quote, frontmatter: d.frontmatter,
        gfm_autolink_literal: d.gfm_autolink_literal, gfm_table: d.gfm_table,
        gfm_footnote_definition: d.gfm_footnote_definition,
        gfm_label_start_footnote: d.gfm_label_start_footnote,
        hard_break_trailing: d.hard_break_trailing, heading_setext: d.heading_setext,
        math_flow: d.math_flow, math_text: d.math_text, html_flow: d.html_flow,
        html_text: d.html_text, mdx_jsx_flow: d.mdx_jsx_flow, mdx_jsx_text: d.mdx_jsx_text,
        ..Default::default()
    }
}

/// Tree nodes turned into `Node`s, in order.
#[verifier::external_body]
fn md_nodes(v: &Vec<MdastTree>) -> Vec<crate::md::Node> {
    v.iter().map(md_node).collect()
}

/// A tree node turned into a `Node`: its kind, and its start line and offset
/// and end line.
#[verifier::external_body]
fn md_node(n: &MdastTree) -> crate::md::Node {
    let position = n.position().map(
        |p| Position { start_line: p.start.line, start_offset: p.start.offset, end_line: p.end.line },
    );
    let kind = md_block_kind(n).or_else(|| md_list_kind(n)).or_else(|| md_definition_kind(n))
        .or_else(|| md_text_kind(n)).or_else(|| md_reference_kind(n))
        .unwrap_or_else(|| NodeKind::Other { name: format!("{n:?}") });
    crate::md::Node { kind, position }
}

/// Tells block variants of a tree node apart, their fields moved over.
#[verifier::external_body]
fn md_block_kind(n: &MdastTree) -> Option<NodeKind> {
    Some(match n {
        MdastTree::Heading(h) => NodeKind::Heading { depth: h.depth, children: md_nodes(&h.children) },
        MdastTree::Code(c) => NodeKind::Code { value: c.value.clone(), lang: c.lang.clone() },
        MdastTree::ThematicBreak(_) => NodeKind::ThematicBreak,
        MdastTree::Blockquote(b) => NodeKind::Blockquote { children: md_nodes(&b.children) },
        MdastTree::Paragraph(p) => NodeKind::Paragraph { children: md_nodes(&p.children) },
        MdastTree::Yaml(y) => NodeKind::Yaml { value: y.value.clone() },
        _ => return None,
    })
}

/// Tells list and table variants of a tree node apart, their fields moved
/// over.
#[verifier::external_body]
fn md_list_kind(n: &MdastTree) -> Option<NodeKind> {
    Some(match n {
        MdastTree::List(l) => NodeKind::List {
            ordered: l.ordered, spread: l.spread, start: l.start, children: md_nodes(&l.children),
        },
        MdastTree::ListItem(i) => NodeKind::ListItem { children: md_nodes(&i.children) },
        MdastTree::Table(t) => NodeKind::Table { children: md_nodes(&t.children) },
        MdastTree::TableRow(r) => NodeKind::TableRow { children: md_nodes(&r.children) },
        MdastTree::TableCell(c) => NodeKind::TableCell { children: md_nodes(&c.children) },
        _ => return None,
    })
}

/// Tells definition and JSX variants of a tree node apart, their fields
/// moved over.
#[verifier::external_body]
fn md_definition_kind(n: &MdastTree) -> Option<NodeKind> {
    Some(match n {
        MdastTree::Definition(d) => NodeKind::Definition { identifier: d.identifier.clone(), url: d.url.clone() },
        MdastTree::FootnoteDefinition(d) => NodeKind::FootnoteDefinition {
            identifier: d.identifier.clone(), children: md_nodes(&d.children),
        },
        MdastTree::MdxJsxFlowElement(e) => NodeKind::JsxFlow {
            name: e.name.clone(),
            attributes: e.attributes.iter().map(md_jsx_attribute).collect(),
            children: md_nodes(&e.children),
        },
        MdastTree::MdxJsxTextElement(e) => NodeKind::JsxText { name: e.name.clone(), children: md_nodes(&e.children) },
        _ => return None,
    })
}

/// Tells text variants of a tree node apart, their fields moved over.
#[verifier::external_body]
fn md_text_kind(n: &MdastTree) -> Option<NodeKind> {
    Some(match n {
        MdastTree::Strong(s) => NodeKind::Strong { children: md_nodes(&s.children) },
        MdastTree::Emphasis(e) => NodeKind::Emphasis { children: md_nodes(&e.children) },
        MdastTree::Text(t) => NodeKind::Text { value: t.value.clone() },
        MdastTree::InlineCode(c) => NodeKind::InlineCode { value: c.value.clone() },
        MdastTree::Break(_) => NodeKind::Break,
        _ => return None,
    })
}

/// Tells link, reference and image variants of a tree node apart, their
/// fields moved over.
#[verifier::external_body]
fn md_reference_kind(n: &MdastTree) -> Option<NodeKind> {
    Some(match n {
        MdastTree::Link(l) => NodeKind::Link { url: l.url.clone(), title: l.title.clone(), children: md_nodes(&l.children) },
        MdastTree::LinkReference(l) => NodeKind::LinkReference {
            identifier: l.identifier.clone(), children: md_nodes(&l.children),
        },
        MdastTree::FootnoteReference(f) => NodeKind::FootnoteReference { identifier: f.identifier.clone() },
        MdastTree::Image(i) => NodeKind::Image { url: i.url.clone(), alt: i.alt.clone() },
        _ => return None,
    })
}

/// A JSX attribute of a tree node as a `JsxAttribute`, variant for variant,
/// its name and literal value moved over.
#[verifier::external_body]
fn md_jsx_attribute(a: &AttributeContent) -> JsxAttribute {
    match a {
        AttributeContent::Expression(_) => JsxAttribute::Expression,
        AttributeContent::Property(p) => JsxAttribute::Property {
            name: p.name.clone(),
            value: p.value.as_ref().map(|v| match v {
                AttributeValue::Expression(_) => JsxValue::Expression,
                AttributeValue::Literal(l) => JsxValue::Literal(l.clone()),
            }),
        },
    }
}

} // verus!
