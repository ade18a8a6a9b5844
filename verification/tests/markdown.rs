use typst_docs_convert::text::indent;
use typst_docs_convert::md::{convert_md_to_typ, front_matter_source, ConvertError, Metadata, Options};

fn convert(source: &str) -> Result<String, ConvertError> {
    convert_md_to_typ(source, None, &Options::default())
}

fn ok(s: &str) -> Result<String, ConvertError> {
    Ok(s.to_string())
}

#[test]
fn markdown_paragraphs_and_emphasis() {
    assert_eq!(convert("Some *emphasis* and **strong**.\n\nNext."), ok("Some _emphasis_ and *strong*.\n\nNext."));
}

#[test]
fn markdown_heading_with_label() {
    assert_eq!(convert("## Hello World {#custom}\nText"), ok("== Hello World <custom>\nText"));
    assert_eq!(convert("# Hello World"), ok("= Hello World <hello-world>"));
}

#[test]
fn markdown_list_and_code() {
    assert_eq!(convert("- a\n- b"), ok("- a\n- b"));
    assert_eq!(convert("1. a\n2. b"), ok("+ a\n+ b"));
    assert_eq!(convert("```rust\nlet x = 1;\n```"), ok("```rust\nlet x = 1;\n```"));
}

#[test]
fn markdown_links_and_footnotes() {
    assert_eq!(convert("[Typst](https://typst.app)"), ok("#link(\"https://typst.app\")[Typst]"));
    assert_eq!(convert("Text[^1]\n\n[^1]: Note"), ok("Text #footnote[Note]"));
    assert_eq!(convert("See [it][typst].\n\n[typst]: https://typst.app"), ok("See #link(\"https://typst.app\")[it]."));
}

#[test]
fn markdown_table() {
    assert_eq!(
        convert("| A | B |\n|---|---|\n| 1 | 2 |"),
        ok("#docs-table(\n  table.header[A][B],\n\n  [1],\n  [2],\n)")
    );
}

#[test]
fn markdown_inline_element() {
    assert_eq!(convert("Press <kbd>Ctrl</kbd>."), ok("Press #kbd[Ctrl]."));
}

#[test]
fn markdown_that_does_not_parse_is_refused() {
    assert_eq!(convert("<a b=c>x</a>"), Err(ConvertError::UnparsableMarkdown));
}

#[test]
fn front_matter_is_found_and_read() {
    let source = "---\ntitle: From YAML\n---\n\n# Heading\n\nBody";
    assert_eq!(front_matter_source(source), Some("title: From YAML".to_string()));
    assert_eq!(front_matter_source("# No front matter"), None);
    let meta = Metadata { title: Some("Given".to_string()), description: Some("D".to_string()) };
    let opt = Options { path: Some("guide.md"), heading_offset: -1 };
    assert_eq!(
        convert_md_to_typ(source, Some(meta), &opt),
        ok("#import \"../components/index.typ\": docs-chapter\n\n#show: docs-chapter.with(\n  title: \"Given\",\n  route: \"/guide\",\n  description: \"D\",\n)\n\nBody")
    );
}

#[test]
fn front_matter_reading_without_front_matter_is_ignored() {
    let meta = Metadata { title: Some("Given".to_string()), description: None };
    let opt = Options { path: Some("guide.md"), heading_offset: -1 };
    assert_eq!(
        convert_md_to_typ("Body", Some(meta), &opt),
        ok("#import \"../components/index.typ\": docs-chapter\n\n#show: docs-chapter.with(\n  route: \"/guide\",\n)\n\nBody")
    );
}

#[test]
fn indent_keeps_line_count() {
    let r: String = indent(&"a\nb".chars().collect::<Vec<_>>()).iter().collect();
    assert_eq!(r.lines().count(), 2);
}

#[test]
fn image_page_imports_the_figure() {
    let opt = Options { path: Some("guides/cats.md"), heading_offset: -1 };
    assert_eq!(
        convert_md_to_typ("![A cat](cat.png)", None, &opt),
        ok("#import \"../../components/index.typ\": docs-chapter, docs-figure\n\n#show: docs-chapter.with(\n  route: \"/guides/cats\",\n)\n\n#docs-figure(\n  \"cat.png\",\n  alt: \"A cat\",\n)")
    );
}

#[test]
fn plain_text_without_path() {
    assert_eq!(convert("Hello *world*"), ok("Hello _world_"));
}

#[test]
fn changelog_gets_the_utils_import() {
    let opt = Options { path: Some("changelog/0.1.md"), heading_offset: 0 };
    assert_eq!(convert_md_to_typ("Hi", None, &opt), ok("#import \"utils.typ\": *\n\nHi"));
}

#[test]
fn missing_title_comes_from_the_first_heading() {
    let source = "---\ndescription: Hi\n---\n\n# Intro\n\nText";
    let meta = Metadata { title: None, description: Some("Hi".to_string()) };
    let opt = Options { path: Some("guide.md"), heading_offset: -1 };
    assert_eq!(
        convert_md_to_typ(source, Some(meta), &opt),
        ok("#import \"../components/index.typ\": docs-chapter\n\n#show: docs-chapter.with(\n  title: \"Intro\",\n  route: \"/guide\",\n  description: \"Hi\",\n)\n\nText")
    );
}
