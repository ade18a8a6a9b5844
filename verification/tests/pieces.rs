use typst_docs_convert::md::{
    call_blocky, convert_image, image_error, label_headings, convert_inline_code, convert_link_target, convert_text, code_title,
    heading_with_label, resolve_link, ConvertError, Import, Imports,
};
use typst_docs_convert::text::{indent, max_consecutive_backticks, split_lines, string_of, trim_ws};

fn chars(s: &str) -> Vec<char> {
    s.chars().collect()
}

fn st(v: &[char]) -> String {
    v.iter().collect()
}

#[test]
fn backtick_runs_are_counted() {
    assert_eq!(max_consecutive_backticks(&chars("a``b```c`")), 3);
    assert_eq!(max_consecutive_backticks(&chars("plain")), 0);
    assert_eq!(max_consecutive_backticks(&chars("")), 0);
}

#[test]
fn indent_leaves_empty_lines_alone() {
    assert_eq!(st(&indent(&chars("a\n\nb"))), "  a\n\n  b");
    assert_eq!(st(&indent(&chars("a\nb\n"))), "  a\n  b");
    assert_eq!(st(&indent(&chars(""))), "");
}

#[test]
fn lines_split_like_str_lines() {
    let ls: Vec<String> = split_lines(&chars("a\r\nb\n\nc\n")).iter().map(|l| st(l)).collect();
    assert_eq!(ls, vec!["a", "b", "", "c"]);
    assert!(split_lines(&chars("")).is_empty());
}

#[test]
fn trimming_drops_surrounding_whitespace() {
    assert_eq!(st(&trim_ws(&chars("  a b \n"))), "a b");
    assert_eq!(st(&trim_ws(&chars(" \t "))), "");
}

#[test]
fn string_of_keeps_characters() {
    assert_eq!(string_of(&chars("héllo")), "héllo");
}

#[test]
fn converted_text_reads_back() {
    // Removing the escaping backslashes gives the text back, with whitespace as spaces.
    let converted = st(&convert_text("a*b \\ c\nd"));
    assert_eq!(converted, "a\\*b \\\\ c d");
    let mut back = String::new();
    let mut it = converted.chars();
    while let Some(c) = it.next() {
        if c == '\\' {
            back.push(it.next().unwrap());
        } else {
            back.push(c);
        }
    }
    assert_eq!(back, "a*b \\ c d");
    assert!(!converted.contains('\n'));
}

#[test]
fn inline_code_fence_is_longer_than_any_run() {
    let r = st(&convert_inline_code("x``y").unwrap());
    assert_eq!(r, "``` x``y```");
    assert!(!"x``y".contains("```"));
}

#[test]
fn blocky_call_indents_body() {
    assert_eq!(st(&call_blocky("info", &chars("a\n\nb"))), "#info[\n  a\n\n  b\n]");
}

#[test]
fn image_records_its_import() {
    let mut imports = Imports::new();
    assert_eq!(image_error("x.png", "Alt"), None);
    let r = convert_image("x.png", "Alt", &mut imports);
    assert_eq!(st(&r), "#docs-figure(\n  \"x.png\",\n  alt: \"Alt\",\n)");
    assert!(imports.docs_figure);
    assert_eq!(image_error("x.png", ""), Some(ConvertError::EmptyImageAlt));
    assert_eq!(image_error("x\".png", "A"), Some(ConvertError::QuoteInImageUrl));
    assert_eq!(image_error("x.png", "A\""), Some(ConvertError::QuoteInImageAlt));
}

#[test]
fn import_names_are_sorted_and_unique() {
    let mut imports = Imports::new();
    imports.insert(Import::Kbd);
    imports.insert(Import::Details);
    imports.insert(Import::DocsTable);
    imports.insert(Import::Kbd);
    assert_eq!(st(&imports.joined_names()), "details, docs-table, kbd");
    assert_eq!(st(&Imports::new().joined_names()), "");
}

#[test]
fn heading_label_defaults_to_kebab_case() {
    assert_eq!(heading_with_label("Hello World", None), "Hello World <hello-world>");
    assert_eq!(heading_with_label("Hello World", Some("custom")), "Hello World <custom>");
}

#[test]
fn resolve_link_targets() {
    let r = |t: &str, b: &str| resolve_link(t, &chars(b)).map(|v| st(&v));
    assert_eq!(r("reference/text/text", "x"), Ok("@reference:text:text[x]".to_string()));
    assert_eq!(r("category/math/frac", "`math:frac`"), Ok("@math:frac".to_string()));
    assert_eq!(r("context/#ctx", "x"), Ok("@reference:context:ctx[x]".to_string()));
    assert_eq!(r("category/symbols/emoji", "e"), Ok("@emoji[e]".to_string()));
    assert_eq!(r("category/foundations/std", "s"), Ok("@std[s]".to_string()));
    assert_eq!(r("category/layout", "l"), Ok("@reference:layout[l]".to_string()));
}

#[test]
fn link_targets() {
    let r = |u: &str, b: &str| convert_link_target(u, &chars(b)).map(|v| st(&v));
    assert_eq!(r("https://github.com/a-b", "\\@a-b"), Ok("#gh(\"a-b\")".to_string()));
    assert_eq!(r("http://x.org", "X"), Ok("#link(\"http://x.org\")[X]".to_string()));
    assert_eq!(r("$svg", "svg"), Ok("@reference:svg[svg]".to_string()));
    assert_eq!(r("mailto:x", "m"), Err(ConvertError::BadLink));
}

#[test]
fn code_title_is_the_first_quoted_text() {
    let src = "```example:\"A title\"\nx\n```";
    assert_eq!(code_title(src, 0).map(|t| st(&t)), Some("A title".to_string()));
    assert_eq!(code_title("no quotes", 0), None);
    assert_eq!(code_title(src, 1000).map(|t| st(&t)), None);
}

#[test]
fn heading_lines_get_labels() {
    assert_eq!(label_headings("Hello World {\\#custom}").map(|v| st(&v)), Some("Hello World <custom>".to_string()));
    assert_eq!(label_headings("  Spaced Out  ").map(|v| st(&v)), Some("Spaced Out <spaced-out>".to_string()));
    assert_eq!(label_headings("A\nB").map(|v| st(&v)), Some("A <a>\nB <b>".to_string()));
}

#[test]
fn longest_backtick_run_occurs() {
    let text = "a``b```c`";
    let n = max_consecutive_backticks(&chars(text));
    assert!(text.contains(&"`".repeat(n)));
    assert!(!text.contains(&"`".repeat(n + 1)));
}
