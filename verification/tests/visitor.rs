use std::ops::Range;

use typst_docs_convert::visitor::{documentation, is_definition, Attribute, DocsVisitor, FnInput};

fn attr(ident: &str, span: Range<usize>, value: Option<&str>) -> Attribute {
    Attribute {
        ident: Some(ident.to_string()),
        span,
        str_value: value.map(|v| v.to_string()),
    }
}

fn doc(span: Range<usize>, value: &str) -> Attribute {
    attr("doc", span, Some(value))
}

fn marker(name: &str, span: Range<usize>) -> Attribute {
    attr(name, span, None)
}

fn entries(v: DocsVisitor) -> Vec<(Range<usize>, String)> {
    v.finish()
}

#[test]
fn new_visitor_finds_nothing() {
    assert!(DocsVisitor::new().finish().is_empty());
}

#[test]
fn doc_comments_merge_into_one_range() {
    let mut v = DocsVisitor::new();
    v.process_docs(&vec![doc(10..20, " First"), marker("func", 21..28), doc(29..44, " Second")]);
    assert_eq!(entries(v), vec![(10..44, "First\nSecond".to_string())]);
}

#[test]
fn attributes_without_doc_comments_add_nothing() {
    let mut v = DocsVisitor::new();
    v.process_docs(&vec![marker("func", 0..7)]);
    assert!(entries(v).is_empty());
}

#[test]
fn documentation_is_trimmed_and_loses_one_leading_space() {
    let attrs = vec![doc(0..5, "  Indented"), doc(6..9, ""), doc(10..20, "Tail  ")];
    assert_eq!(documentation(&attrs), "Indented\n\nTail");
    let nested = vec![doc(0..5, " a"), doc(6..9, "  b")];
    assert_eq!(documentation(&nested), "a\n b");
    let padded = vec![doc(0..5, " "), doc(6..9, "   x   ")];
    assert_eq!(documentation(&padded), "x");
}

#[test]
fn definitions_are_marked() {
    assert!(is_definition(&vec![marker("elem", 0..7)]));
    assert!(is_definition(&vec![doc(0..5, "x"), marker("ty", 6..11)]));
    assert!(!is_definition(&vec![doc(0..5, "x"), marker("derive", 6..20)]));
}

#[test]
fn struct_definition_with_fields() {
    let mut v = DocsVisitor::new();
    let attrs = vec![doc(0..10, " A struct."), marker("elem", 11..18)];
    let fields = vec![vec![doc(30..40, " A field.")], vec![], vec![doc(50..60, " Another.")]];
    v.visit_item_struct(&attrs, &fields);
    assert_eq!(
        entries(v),
        vec![
            (0..10, "A struct.".to_string()),
            (30..40, "A field.".to_string()),
            (50..60, "Another.".to_string()),
        ]
    );
}

#[test]
fn items_that_are_no_definitions_are_skipped() {
    let mut v = DocsVisitor::new();
    v.visit_item_struct(&vec![doc(0..10, " Plain.")], &vec![vec![doc(30..40, " Field.")]]);
    v.visit_item_enum(&vec![doc(0..10, " Plain.")]);
    v.visit_item_fn(&vec![doc(0..10, " Plain.")], &vec![]);
    assert!(entries(v).is_empty());
}

#[test]
fn function_definition_with_parameters() {
    let mut v = DocsVisitor::new();
    let attrs = vec![doc(0..10, " Adds."), marker("func", 11..18)];
    let inputs = vec![
        FnInput::Receiver,
        FnInput::Typed(vec![doc(40..50, " Left.")]),
        FnInput::Typed(vec![]),
    ];
    v.visit_impl_item_fn(&attrs, &inputs);
    assert_eq!(entries(v), vec![(0..10, "Adds.".to_string()), (40..50, "Left.".to_string())]);
}

#[test]
fn enum_and_bare_type_definitions() {
    let mut v = DocsVisitor::new();
    v.visit_item_enum(&vec![doc(0..8, " Enum."), marker("ty", 9..14)]);
    v.visit_item(Some(&vec![doc(20..28, " Type."), marker("ty", 29..34)]));
    v.visit_item(None);
    assert_eq!(entries(v), vec![(0..8, "Enum.".to_string()), (20..28, "Type.".to_string())]);
}

#[test]
fn doc_range_covers_attributes_in_any_order() {
    let mut v = DocsVisitor::new();
    v.process_docs(&vec![doc(30..40, " Later"), doc(10..20, " Earlier")]);
    assert_eq!(entries(v), vec![(10..40, "Later\nEarlier".to_string())]);
}
