use typst_docs_convert::md::{ConvertError, Metadata};
use typst_docs_convert::passes::{
    doc_comment_indent, doc_comment_passes, doc_comment_width, doc_file_passes, render_groups,
    splice_doc_comments, trim_lines_exec,
};

fn chars(s: &str) -> Vec<char> {
    s.chars().collect()
}

#[test]
fn docs_file_lines_are_trimmed_and_ended() {
    assert_eq!(doc_file_passes("## A\nb ", None, None), Ok("= A <a>\nb\n".to_string()));
}

#[test]
fn library_reference_keeps_heading_depth() {
    let r = doc_file_passes("# Title", None, Some("reference/library/text.md")).unwrap();
    assert!(r.ends_with("\n\n= Title <title>\n"));
    assert!(r.starts_with("#import \"../../../components/index.typ\": docs-chapter\n"));
    assert!(r.contains("  route: \"/reference/library/text\",\n"));
}

#[test]
fn other_pages_lose_one_heading_level() {
    let r = doc_file_passes("# Title\n\n## Part", None, Some("guides/intro.md")).unwrap();
    assert!(r.ends_with(")\n\n= Part <part>\n"));
    assert!(!r.contains("Title"));
}

#[test]
fn docs_file_front_matter_gives_title() {
    let meta = Metadata { title: Some("Intro".to_string()), description: None };
    let r = doc_file_passes("---\ntitle: x\n---\n\nText", Some(meta), Some("guides/intro.md"));
    assert_eq!(
        r,
        Ok("#import \"../../components/index.typ\": docs-chapter\n\n#show: docs-chapter.with(\n  title: \"Intro\",\n  route: \"/guides/intro\",\n)\n\nText\n".to_string())
    );
}

#[test]
fn docs_file_errors_pass_through() {
    assert_eq!(doc_file_passes("$$\nx\n$$", None, None), Err(ConvertError::UnsupportedFlowNode));
}

#[test]
fn trimming_every_line() {
    let r: String = trim_lines_exec(&chars("a  \n\tb\t\r\n\nc")).iter().collect();
    assert_eq!(r, "a\n\tb\n\nc\n");
}

#[test]
fn doc_comment_is_formatted_to_width() {
    let words = "one two three four five six seven eight nine ten eleven twelve";
    let r = doc_comment_passes(words, None, 20).unwrap();
    assert_ne!(r, words);
    assert!(r.lines().count() > 1);
    for line in r.lines() {
        assert!(line.chars().count() <= 20, "line too long: {line:?}");
    }
    let joined: Vec<&str> = r.split_whitespace().collect();
    let expected: Vec<&str> = words.split_whitespace().collect();
    assert_eq!(joined, expected);
}

#[test]
fn doc_comment_conversion_errors_pass_through() {
    assert_eq!(doc_comment_passes("a $x$ b", None, 40), Err(ConvertError::UnsupportedInlineNode));
}

#[test]
fn comment_indentation_and_width() {
    let src = "fn f() {}\n    /// Doc.\n";
    assert_eq!(doc_comment_indent(src, 14), Some(4));
    assert_eq!(doc_comment_width(src, 14), 72);
    assert_eq!(doc_comment_indent(src, 1000), None);
    let deep = format!("{}/// x", " ".repeat(77));
    assert_eq!(doc_comment_indent(&deep, 77), Some(77));
    let widest = format!("{}/// x", " ".repeat(76));
    assert_eq!(doc_comment_width(&widest, 76), 0);
}

#[test]
fn doc_comments_are_put_back_in_place() {
    let src = "    /// Old.\n    fn f() {}\n";
    let comments = vec![(4..12, "New line one\n\nsecond  ".to_string())];
    assert_eq!(
        splice_doc_comments(src, &comments),
        Some("    /// New line one\n    ///\n    /// second\n    fn f() {}\n".to_string())
    );
}

#[test]
fn several_doc_comments_keep_the_text_between() {
    let src = "/// A\nstruct A;\n/// B\nstruct B;\n";
    let comments = vec![(0..5, "First".to_string()), (16..21, "Second".to_string())];
    assert_eq!(
        splice_doc_comments(src, &comments),
        Some("/// First\nstruct A;\n/// Second\nstruct B;\n".to_string())
    );
}

#[test]
fn no_doc_comments_leave_the_source_alone() {
    let src = "fn ä() {}\n";
    assert_eq!(splice_doc_comments(src, &vec![]), Some(src.to_string()));
}

#[test]
fn doc_comment_ranges_out_of_place_are_refused() {
    let src = "/// ä\n";
    assert_eq!(splice_doc_comments(src, &vec![(0..100, "x".to_string())]), None);
    assert_eq!(splice_doc_comments(src, &vec![(5..7, "x".to_string())]), None);
}

#[test]
fn groups_become_one_file() {
    let groups = vec![
        ("calc".to_string(), "Calculations.".to_string()),
        ("sys".to_string(), "System.".to_string()),
    ];
    assert_eq!(render_groups(&groups), "// calc\nCalculations.\n\n// sys\nSystem.\n\n");
    assert_eq!(render_groups(&vec![]), "");
}
