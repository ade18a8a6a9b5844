use typst_docs_convert::md::{
    convert_document, ConvertError, Document, JsxAttribute, JsxValue, Metadata, Node, NodeKind,
    Options, Position,
};

fn node(kind: NodeKind) -> Node {
    Node { kind, position: None }
}

fn at(kind: NodeKind, start_line: usize, end_line: usize) -> Node {
    Node { kind, position: Some(Position { start_line, start_offset: 0, end_line }) }
}

fn text(s: &str) -> Node {
    node(NodeKind::Text { value: s.to_string() })
}

fn para(children: Vec<Node>) -> Node {
    node(NodeKind::Paragraph { children })
}

fn heading(depth: u8, children: Vec<Node>) -> Node {
    node(NodeKind::Heading { depth, children })
}

fn item(children: Vec<Node>) -> Node {
    node(NodeKind::ListItem { children })
}

fn list(ordered: bool, spread: bool, start: Option<u32>, children: Vec<Node>) -> Node {
    node(NodeKind::List { ordered, spread, start, children })
}

fn cell(s: &str) -> Node {
    node(NodeKind::TableCell { children: vec![text(s)] })
}

fn row(cells: Vec<Node>) -> Node {
    node(NodeKind::TableRow { children: cells })
}

fn code(value: &str, lang: Option<&str>) -> Node {
    node(NodeKind::Code { value: value.to_string(), lang: lang.map(|l| l.to_string()) })
}

fn link(url: &str, children: Vec<Node>) -> Node {
    node(NodeKind::Link { url: url.to_string(), title: None, children })
}

fn link_ref(identifier: &str, children: Vec<Node>) -> Node {
    node(NodeKind::LinkReference { identifier: identifier.to_string(), children })
}

fn definition(identifier: &str, url: &str) -> Node {
    node(NodeKind::Definition { identifier: identifier.to_string(), url: url.to_string() })
}

fn footnote_ref(identifier: &str) -> Node {
    node(NodeKind::FootnoteReference { identifier: identifier.to_string() })
}

fn footnote_def(identifier: &str, children: Vec<Node>) -> Node {
    node(NodeKind::FootnoteDefinition { identifier: identifier.to_string(), children })
}

fn inline_code(value: &str) -> Node {
    node(NodeKind::InlineCode { value: value.to_string() })
}

fn jsx_flow(name: &str, attributes: Vec<JsxAttribute>, children: Vec<Node>) -> Node {
    node(NodeKind::JsxFlow { name: Some(name.to_string()), attributes, children })
}

fn jsx_text(name: &str, children: Vec<Node>) -> Node {
    node(NodeKind::JsxText { name: Some(name.to_string()), children })
}

fn image(url: &str, alt: &str) -> Node {
    node(NodeKind::Image { url: url.to_string(), alt: alt.to_string() })
}

fn doc(children: Vec<Node>) -> Document {
    Document { front_matter: None, children }
}

fn convert(children: Vec<Node>) -> Result<String, ConvertError> {
    convert_document("", &doc(children), &Options::default())
}

fn convert_one(n: Node) -> Result<String, ConvertError> {
    convert(vec![n])
}

fn ok(s: &str) -> Result<String, ConvertError> {
    Ok(s.to_string())
}

#[test]
fn default_options_have_no_path_and_no_offset() {
    let o = Options::default();
    assert!(o.path.is_none());
    assert_eq!(o.heading_offset, 0);
}

#[test]
fn paragraphs_are_separated_by_blank_lines() {
    let r = convert(vec![para(vec![text("one")]), para(vec![text("two")])]);
    assert_eq!(r, ok("one\n\ntwo"));
}

#[test]
fn empty_document_converts_to_nothing() {
    assert_eq!(convert(vec![]), ok(""));
}

#[test]
fn heading_takes_kebab_case_label_and_one_line_break() {
    let r = convert(vec![heading(1, vec![text("Hello World")]), para(vec![text("Body")])]);
    assert_eq!(r, ok("= Hello World <hello-world>\nBody"));
}

#[test]
fn heading_takes_explicit_label() {
    let r = convert_one(heading(2, vec![text("Hello World {#custom}")]));
    assert_eq!(r, ok("== Hello World <custom>"));
}

#[test]
fn negative_offset_drops_top_level_headings() {
    let opt = Options { path: None, heading_offset: -1 };
    let d = doc(vec![heading(1, vec![text("Top")]), heading(2, vec![text("Sub")])]);
    assert_eq!(convert_document("", &d, &opt), ok("= Sub <sub>"));
}

#[test]
fn multiline_heading_is_refused() {
    let r = convert_one(heading(2, vec![text("a"), node(NodeKind::Break), text("b")]));
    assert_eq!(r, Err(ConvertError::MultilineHeading));
}

#[test]
fn changelog_drops_contributors_heading() {
    let opt = Options { path: Some("changelog/0.1.0.md"), heading_offset: -1 };
    let d = doc(vec![heading(2, vec![text("Contributors")]), para(vec![text("Thanks")])]);
    assert_eq!(
        convert_document("", &d, &opt),
        ok("#import \"utils.typ\": *\n\nThanks")
    );
}

#[test]
fn text_escapes_markup_characters() {
    let r = convert_one(para(vec![text("a*b_c #d $e @f [g] ~h `i \\j")]));
    assert_eq!(r, ok("a\\*b\\_c \\#d \\$e \\@f \\[g\\] \\~h \\`i \\\\j"));
}

#[test]
fn text_turns_whitespace_into_spaces() {
    let r = convert_one(para(vec![text("a\tb\nc\rd")]));
    assert_eq!(r, ok("a b c d"));
}

#[test]
fn strong_and_emphasis() {
    let r = convert_one(para(vec![
        node(NodeKind::Strong { children: vec![text("bold")] }),
        text(" and "),
        node(NodeKind::Emphasis { children: vec![text("it")] }),
    ]));
    assert_eq!(r, ok("*bold* and _it_"));
}

#[test]
fn star_in_strong_is_refused() {
    let r = convert_one(para(vec![node(NodeKind::Strong { children: vec![text("a*b")] })]));
    assert_eq!(r, Err(ConvertError::StarInStrong));
}

#[test]
fn underscore_in_emphasis_is_refused() {
    let r = convert_one(para(vec![node(NodeKind::Emphasis { children: vec![text("a_b")] })]));
    assert_eq!(r, Err(ConvertError::UnderscoreInEmphasis));
}

#[test]
fn inline_code_plain() {
    assert_eq!(convert_one(para(vec![inline_code("x")])), ok("`x`"));
}

#[test]
fn inline_code_with_backtick_uses_three() {
    assert_eq!(convert_one(para(vec![inline_code("a`b")])), ok("``` a`b```"));
}

#[test]
fn inline_code_framed_by_backticks_gets_spaces() {
    assert_eq!(convert_one(para(vec![inline_code("`x`")])), ok("``` `x` ```"));
}

#[test]
fn inline_code_long_run_uses_one_more() {
    assert_eq!(convert_one(para(vec![inline_code("a````b")])), ok("````` a````b`````"));
}

#[test]
fn inline_code_line_feed_becomes_space() {
    assert_eq!(convert_one(para(vec![inline_code("a\nb")])), ok("`a b`"));
}

#[test]
fn web_link() {
    let r = convert_one(para(vec![link("https://typst.app", vec![text("Typst")])]));
    assert_eq!(r, ok("#link(\"https://typst.app\")[Typst]"));
}

#[test]
fn github_user_link() {
    let r = convert_one(para(vec![link(
        "https://github.com/laurmaedje",
        vec![text("@laurmaedje")],
    )]));
    assert_eq!(r, ok("#gh(\"laurmaedje\")"));
}

#[test]
fn github_link_naming_another_user_is_refused() {
    let r = convert_one(para(vec![link("https://github.com/laurmaedje", vec![text("@other")])]));
    assert_eq!(r, Err(ConvertError::GithubUserMismatch));
}

#[test]
fn github_link_without_handle_text_is_refused() {
    let r = convert_one(para(vec![link("https://github.com/laurmaedje", vec![text("Laurenz")])]));
    assert_eq!(r, Err(ConvertError::GithubLinkText));
}

#[test]
fn docs_link_with_text() {
    let r = convert_one(para(vec![link("$reference/text/text", vec![inline_code("text")])]));
    assert_eq!(r, ok("@reference:text:text[`text`]"));
}

#[test]
fn docs_link_whose_text_is_its_destination() {
    let r = convert_one(para(vec![link("$category/math/frac", vec![inline_code("math:frac")])]));
    assert_eq!(r, ok("@math:frac"));
}

#[test]
fn docs_link_to_constructor() {
    let r = convert_one(para(vec![link(
        "$reference/foundations/str/#constructor",
        vec![text("constructor")],
    )]));
    assert_eq!(r, ok("@reference:foundations:str.constructor[constructor]"));
}

#[test]
fn docs_link_to_category() {
    let r = convert_one(para(vec![link("$category/text", vec![text("Text")])]));
    assert_eq!(r, ok("@reference:text[Text]"));
}

#[test]
fn docs_link_to_reference_section() {
    let r = convert_one(para(vec![link("$styling/#set-rules", vec![text("set")])]));
    assert_eq!(r, ok("@reference:styling:set-rules[set]"));
}

#[test]
fn docs_link_to_symbols_module() {
    let r = convert_one(para(vec![link("$category/symbols/sym", vec![text("sym")])]));
    assert_eq!(r, ok("@sym[sym]"));
}

#[test]
fn docs_link_to_foundations_module() {
    let r = convert_one(para(vec![link("$category/foundations/calc/abs", vec![text("abs")])]));
    assert_eq!(r, ok("@calc:abs[abs]"));
}

#[test]
fn bad_link_is_refused() {
    let r = convert_one(para(vec![link("foo", vec![text("x")])]));
    assert_eq!(r, Err(ConvertError::BadLink));
}

#[test]
fn link_with_title_is_refused() {
    let n = node(NodeKind::Link {
        url: "https://typst.app".to_string(),
        title: Some("t".to_string()),
        children: vec![text("x")],
    });
    assert_eq!(convert_one(para(vec![n])), Err(ConvertError::LinkTitle));
}

#[test]
fn link_reference_to_definition() {
    let r = convert(vec![
        para(vec![link_ref("typst", vec![text("Typst")])]),
        definition("typst", "https://typst.app"),
    ]);
    assert_eq!(r, ok("#link(\"https://typst.app\")[Typst]"));
}

#[test]
fn last_link_definition_wins() {
    let r = convert(vec![
        definition("typst", "https://a.example"),
        para(vec![link_ref("typst", vec![text("T")])]),
        definition("typst", "https://b.example"),
    ]);
    assert_eq!(r, ok("#link(\"https://b.example\")[T]"));
}

#[test]
fn pull_request_reference() {
    let r = convert_one(para(vec![link_ref("#123", vec![text("#123")])]));
    assert_eq!(r, ok("#pr(123)"));
}

#[test]
fn pull_request_reference_in_other_repository() {
    let r = convert_one(para(vec![link_ref("typst/typst#5", vec![text("x")])]));
    assert_eq!(r, ok("#pr(5, repo: \"typst/typst\")"));
}

#[test]
fn link_reference_resolves_target_without_backticks() {
    let r = convert_one(para(vec![link_ref("`reference/text`", vec![inline_code("reference/text")])]));
    assert_eq!(r, ok("@reference:text[`reference/text`]"));
}

#[test]
fn footnote_expands_in_place() {
    let r = convert(vec![
        para(vec![text("See"), footnote_ref("1")]),
        footnote_def("1", vec![para(vec![text("Note")])]),
    ]);
    assert_eq!(r, ok("See #footnote[Note]"));
}

#[test]
fn missing_footnote_is_refused() {
    let r = convert_one(para(vec![text("See"), footnote_ref("1")]));
    assert_eq!(r, Err(ConvertError::MissingFootnote));
}

#[test]
fn footnote_that_reaches_itself_is_refused() {
    let r = convert(vec![
        para(vec![footnote_ref("a")]),
        footnote_def("a", vec![para(vec![footnote_ref("b")])]),
        footnote_def("b", vec![para(vec![footnote_ref("a")])]),
    ]);
    assert_eq!(r, Err(ConvertError::FootnoteCycle));
}

#[test]
fn nested_footnotes_expand() {
    let r = convert(vec![
        para(vec![footnote_ref("a")]),
        footnote_def("a", vec![para(vec![text("A"), footnote_ref("b")])]),
        footnote_def("b", vec![para(vec![text("B")])]),
    ]);
    assert_eq!(r, ok(" #footnote[A #footnote[B]]"));
}

#[test]
fn image_becomes_docs_figure() {
    let r = convert_one(para(vec![image("x.png", "A plot")]));
    assert_eq!(r, ok("#docs-figure(\n  \"x.png\",\n  alt: \"A plot\",\n)"));
}

#[test]
fn image_errors() {
    assert_eq!(convert_one(para(vec![image("x\".png", "A")])), Err(ConvertError::QuoteInImageUrl));
    assert_eq!(convert_one(para(vec![image("x.png", "A\"")])), Err(ConvertError::QuoteInImageAlt));
    assert_eq!(convert_one(para(vec![image("x.png", "")])), Err(ConvertError::EmptyImageAlt));
}

#[test]
fn hard_break() {
    let r = convert_one(para(vec![text("a"), node(NodeKind::Break), text("b")]));
    assert_eq!(r, ok("a\\\nb"));
}

#[test]
fn inline_elements() {
    assert_eq!(convert_one(para(vec![jsx_text("sup", vec![text("2")])])), ok("#super[2]"));
    assert_eq!(convert_one(para(vec![jsx_text("kbd", vec![text("Ctrl")])])), ok("#kbd[Ctrl]"));
    assert_eq!(
        convert_one(para(vec![jsx_text("span", vec![text("x")])])),
        Err(ConvertError::UnsupportedTextElement)
    );
}

#[test]
fn details_with_summary() {
    let r = convert_one(jsx_flow(
        "details",
        vec![],
        vec![jsx_flow("summary", vec![], vec![para(vec![text("More")])]), para(vec![text("Hidden")])],
    ));
    assert_eq!(r, ok("#details[\n  #summary[\n    More\n  ]\n\n  Hidden\n]"));
}

#[test]
fn info_box() {
    let attrs = vec![JsxAttribute::Property {
        name: "class".to_string(),
        value: Some(JsxValue::Literal("info-box".to_string())),
    }];
    let r = convert_one(jsx_flow("div", attrs, vec![para(vec![text("Note")])]));
    assert_eq!(r, ok("#info[\n  Note\n]"));
}

#[test]
fn other_div_is_refused() {
    let attrs = vec![JsxAttribute::Property {
        name: "class".to_string(),
        value: Some(JsxValue::Literal("other".to_string())),
    }];
    let r = convert_one(jsx_flow("div", attrs, vec![para(vec![text("Note")])]));
    assert_eq!(r, Err(ConvertError::UnsupportedDiv));
}

#[test]
fn contributors_element_is_left_out() {
    let r = convert(vec![
        jsx_flow("contributors", vec![], vec![]),
        para(vec![text("After")]),
    ]);
    assert_eq!(r, ok("After"));
}

#[test]
fn unknown_flow_element_is_refused() {
    let r = convert_one(jsx_flow("aside", vec![], vec![]));
    assert_eq!(r, Err(ConvertError::UnsupportedFlowElement));
}

#[test]
fn blockquote_and_divider() {
    let r = convert(vec![
        node(NodeKind::Blockquote { children: vec![para(vec![text("Q")])] }),
        node(NodeKind::ThematicBreak),
    ]);
    assert_eq!(r, ok("#quote(block: true)[\n  Q\n]\n\n#divider()"));
}

#[test]
fn bullet_list() {
    let r = convert_one(list(false, false, None, vec![
        item(vec![para(vec![text("a")])]),
        item(vec![para(vec![text("b")])]),
    ]));
    assert_eq!(r, ok("- a\n- b"));
}

#[test]
fn numbered_list() {
    let r = convert_one(list(true, false, Some(1), vec![
        item(vec![para(vec![text("a")])]),
        item(vec![para(vec![text("b")])]),
    ]));
    assert_eq!(r, ok("+ a\n+ b"));
}

#[test]
fn spread_list() {
    let r = convert_one(list(false, true, None, vec![
        item(vec![para(vec![text("a")])]),
        item(vec![para(vec![text("b")])]),
    ]));
    assert_eq!(r, ok("- a\n\n- b"));
}

#[test]
fn list_item_with_several_blocks() {
    let r = convert_one(list(false, false, None, vec![item(vec![
        para(vec![text("a")]),
        para(vec![text("b")]),
    ])]));
    assert_eq!(r, ok("- a\n  \n  b"));
}

#[test]
fn list_errors() {
    let items = || vec![item(vec![para(vec![text("a")])])];
    assert_eq!(convert_one(list(true, false, Some(2), items())), Err(ConvertError::ListStart));
    assert_eq!(
        convert_one(list(false, false, None, vec![para(vec![text("a")])])),
        Err(ConvertError::NotAListItem)
    );
    assert_eq!(convert_one(list(false, false, None, vec![])), Err(ConvertError::EmptyList));
    assert_eq!(convert_one(list(false, false, None, vec![item(vec![])])), Err(ConvertError::EmptyList));
}

#[test]
fn list_right_after_paragraph_follows_on_next_line() {
    let p = at(NodeKind::Paragraph { children: vec![text("p")] }, 1, 1);
    let l = at(
        NodeKind::List {
            ordered: false,
            spread: false,
            start: None,
            children: vec![item(vec![para(vec![text("a")])])],
        },
        2,
        2,
    );
    assert_eq!(convert(vec![p, l]), ok("p\n- a"));
}

#[test]
fn list_after_blank_line_is_a_new_paragraph() {
    let p = at(NodeKind::Paragraph { children: vec![text("p")] }, 1, 1);
    let l = at(
        NodeKind::List {
            ordered: false,
            spread: false,
            start: None,
            children: vec![item(vec![para(vec![text("a")])])],
        },
        3,
        3,
    );
    assert_eq!(convert(vec![p, l]), ok("p\n\n- a"));
}

#[test]
fn table_with_header() {
    let r = convert_one(node(NodeKind::Table {
        children: vec![row(vec![cell("A"), cell("B")]), row(vec![cell("1"), cell("2")])],
    }));
    assert_eq!(r, ok("#docs-table(\n  table.header[A][B],\n\n  [1],\n  [2],\n)"));
}

#[test]
fn table_errors() {
    assert_eq!(convert_one(node(NodeKind::Table { children: vec![] })), Err(ConvertError::EmptyTable));
    assert_eq!(
        convert_one(node(NodeKind::Table { children: vec![cell("A")] })),
        Err(ConvertError::NotATableRow)
    );
    assert_eq!(
        convert_one(node(NodeKind::Table { children: vec![row(vec![text("A")])] })),
        Err(ConvertError::NotATableCell)
    );
}

#[test]
fn code_block_with_language() {
    assert_eq!(convert_one(code("let x = 1;", Some("rust"))), ok("```rust\nlet x = 1;\n```"));
    assert_eq!(convert_one(code("let x = 1;", None)), ok("```\nlet x = 1;\n```"));
}

#[test]
fn code_block_fence_outgrows_content() {
    assert_eq!(convert_one(code("a```b", None)), ok("````\na```b\n````"));
}

#[test]
fn single_example() {
    let r = convert_one(code("let x = 1;", Some("example:single")));
    assert_eq!(r, ok("#example(\n  single: true,\n  ```\n  let x = 1;\n  ```\n)"));
}

#[test]
fn zoomed_example() {
    let r = convert_one(code("x", Some("preview:1,2,3,4")));
    assert_eq!(r, ok("#example(\n  zoom: (1pt, 2pt, 3pt, 4pt),\n  ```\n  x\n  ```\n)"));
}

#[test]
fn titled_example() {
    let source = "```example:\"My Title\"\nx\n```";
    let c = at(
        NodeKind::Code { value: "x".to_string(), lang: Some("example:\"My Title\"".to_string()) },
        1,
        3,
    );
    let r = convert_document(source, &doc(vec![c]), &Options::default());
    assert_eq!(r, ok("#example(\n  title: \"My Title\",\n  ```\n  x\n  ```\n)"));
}

#[test]
fn code_block_errors() {
    assert_eq!(convert_one(code("x", Some("foo:bar"))), Err(ConvertError::UnknownCodeBlockKind));
    assert_eq!(convert_one(code("x", Some("example:1,2"))), Err(ConvertError::IncompleteZoom));
    let source = "```example:\"Open";
    let c = at(
        NodeKind::Code { value: "x".to_string(), lang: Some("example:\"Open".to_string()) },
        1,
        1,
    );
    assert_eq!(
        convert_document(source, &doc(vec![c]), &Options::default()),
        Err(ConvertError::MissingCodeBlockTitle)
    );
}

#[test]
fn language_with_empty_setting_is_a_tag() {
    assert_eq!(convert_one(code("x", Some("rust:"))), ok("```rust:\nx\n```"));
}

#[test]
fn unsupported_nodes_are_refused() {
    assert_eq!(
        convert_one(node(NodeKind::Other { name: "html".to_string() })),
        Err(ConvertError::UnsupportedFlowNode)
    );
    assert_eq!(
        convert_one(para(vec![node(NodeKind::Other { name: "html".to_string() })])),
        Err(ConvertError::UnsupportedInlineNode)
    );
}

#[test]
fn docs_page_preamble() {
    let d = Document {
        front_matter: Some(Metadata {
            title: Some("Foo".to_string()),
            description: Some("A\nB".to_string()),
        }),
        children: vec![para(vec![text("Body")])],
    };
    let opt = Options { path: Some("reference/foo.md"), heading_offset: -1 };
    assert_eq!(
        convert_document("", &d, &opt),
        ok("#import \"../../components/index.typ\": docs-chapter\n\n#show: docs-chapter.with(\n  title: \"Foo\",\n  route: \"/reference/foo\",\n  description: \"A B\",\n)\n\nBody")
    );
}

#[test]
fn preamble_imports_what_the_page_uses() {
    let d = doc(vec![node(NodeKind::Table { children: vec![row(vec![cell("A")])] })]);
    let opt = Options { path: Some("guides/tables.md"), heading_offset: -1 };
    assert_eq!(
        convert_document("", &d, &opt),
        ok("#import \"../../components/index.typ\": docs-chapter, docs-table\n\n#show: docs-chapter.with(\n  route: \"/guides/tables\",\n)\n\n#docs-table(\n  table.header[A],\n)")
    );
}

#[test]
fn title_comes_from_first_heading() {
    let d = Document {
        front_matter: Some(Metadata { title: None, description: None }),
        children: vec![heading(1, vec![text("Guide")]), para(vec![text("Text")])],
    };
    let opt = Options { path: Some("guide.md"), heading_offset: -1 };
    assert_eq!(
        convert_document("", &d, &opt),
        ok("#import \"../components/index.typ\": docs-chapter\n\n#show: docs-chapter.with(\n  title: \"Guide\",\n  route: \"/guide\",\n)\n\nText")
    );
}

#[test]
fn without_path_there_is_no_preamble() {
    let d = Document {
        front_matter: Some(Metadata { title: Some("T".to_string()), description: None }),
        children: vec![para(vec![text("Text")])],
    };
    assert_eq!(convert_document("", &d, &Options::default()), ok("Text"));
}

#[test]
fn last_footnote_definition_wins() {
    let r = convert(vec![
        footnote_def("1", vec![para(vec![text("Old")])]),
        para(vec![text("See"), footnote_ref("1")]),
        footnote_def("1", vec![para(vec![text("New")])]),
    ]);
    assert_eq!(r, ok("See #footnote[New]"));
}

#[test]
fn every_list_line_starts_with_a_marker_or_indentation() {
    let r = convert_one(list(true, true, None, vec![
        item(vec![para(vec![text("a")]), para(vec![text("b")])]),
        item(vec![para(vec![text("c")])]),
    ]))
    .unwrap();
    assert_eq!(r, "+ a\n  \n  b\n\n+ c");
    for line in r.lines() {
        assert!(line.is_empty() || line.starts_with("+ ") || line.starts_with("  "));
    }
}
