//! Parsing Markdown with the `markdown` crate, in the dialect of the
//! documentation.
use vstd::prelude::*;

use crate::md::Node;
use crate::outside::{markdown_nodes, md_parse};

verus! {

/// The Markdown constructs a parse recognizes (the others keep the
/// `markdown` crate's defaults).
#[derive(Clone, Copy, Debug, PartialEq, Eq)]
pub struct MarkdownDialect {
    pub autolink: bool,
    pub block_quote: bool,
    pub frontmatter: bool,
    pub gfm_autolink_literal: bool,
    pub gfm_footnote_definition: bool,
    pub gfm_label_start_footnote: bool,
    pub gfm_table: bool,
    pub hard_break_trailing: bool,
    pub heading_setext: bool,
    pub math_flow: bool,
    pub math_text: bool,
    pub html_flow: bool,
    pub html_text: bool,
    pub mdx_jsx_flow: bool,
    pub mdx_jsx_text: bool,
}

/// The dialect of the documentation: GFM tables, footnotes and autolinks,
/// math, YAML front matter and MDX JSX elements; no HTML, no setext headings
/// and no trailing-space hard breaks.
pub open spec fn docs_dialect_spec() -> MarkdownDialect {
    MarkdownDialect {
        autolink: true,
        block_quote: true,
        frontmatter: true,
        gfm_autolink_literal: true,
        gfm_footnote_definition: true,
        gfm_label_start_footnote: true,
        gfm_table: true,
        hard_break_trailing: false,
        heading_setext: false,
        math_flow: true,
        math_text: true,
        html_flow: false,
        html_text: false,
        mdx_jsx_flow: true,
        mdx_jsx_text: true,
    }
}

/// The top-level nodes of Markdown text in the documentation's dialect.
pub open spec fn docs_markdown(source: Seq<char>) -> Option<Seq<Node>> {
    markdown_nodes(source, docs_dialect_spec())
}

/// The dialect of the documentation; see `docs_dialect_spec`.
pub fn docs_dialect() -> (d: MarkdownDialect)
    ensures
        d == docs_dialect_spec(),
{
    MarkdownDialect {
        autolink: true,
        block_quote: true,
        frontmatter: true,
        gfm_autolink_literal: true,
        gfm_footnote_definition: true,
        gfm_label_start_footnote: true,
        gfm_table: true,
        hard_break_trailing: false,
        heading_setext: false,
        math_flow: true,
        math_text: true,
        html_flow: false,
        html_text: false,
        mdx_jsx_flow: true,
        mdx_jsx_text: true,
    }
}

/// The top-level nodes of Markdown text in the documentation's dialect:
/// `None` where the parser rejects it.
pub fn parse_markdown(source: &str) -> (r: Option<Vec<Node>>)
    ensures
        match docs_markdown(source@) {
            Some(ns) => r matches Some(v) && v@ == ns,
            None => r is None,
        },
{
    let dialect = docs_dialect();
    md_parse(source, &dialect)
}

} // verus!
