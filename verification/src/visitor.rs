//! Finding the doc comments of definitions in Rust source: for each definition
//! item (marked `#[ty]`, `#[elem]` or `#[func]`), the byte range that its doc
//! comments cover and their text.
use std::ops::Range;

use vstd::prelude::*;

use crate::convert::opt_view;
use crate::text::{
    chars_of, eq_str, is_whitespace, lemma_trim_shape, push_all, string_of, trim, trim_ws,
};

verus! {

/// An attribute as the doc comment search sees it.
pub struct Attribute {
    /// The attribute's path, where it is a single identifier.
    pub ident: Option<String>,
    /// The byte range that the attribute covers in the source.
    pub span: Range<usize>,
    /// The attribute's value, where it has the form `path = "literal"`.
    pub str_value: Option<String>,
}

/// A parameter of a function: `self` in some form, or a typed parameter with
/// its attributes.
pub enum FnInput {
    Receiver,
    Typed(Vec<Attribute>),
}

/// The doc comments found so far: for each, the byte range it covers and its
/// text.
pub struct DocsVisitor(Vec<(Range<usize>, String)>);

/// The doc comments as ranges and texts.
pub open spec fn entries_view(v: Seq<(Range<usize>, String)>) -> Seq<(Range<usize>, Seq<char>)> {
    v.map_values(|e: (Range<usize>, String)| (e.0, e.1@))
}

impl View for DocsVisitor {
    type V = Seq<(Range<usize>, Seq<char>)>;

    closed spec fn view(&self) -> Seq<(Range<usize>, Seq<char>)> {
        entries_view(self.0@)
    }
}

/// Whether the attribute's path is the identifier `name`.
pub open spec fn has_ident(a: Attribute, name: Seq<char>) -> bool {
    opt_view(a.ident) == Some(name)
}

/// Whether the attribute is a doc comment.
pub open spec fn is_doc(a: Attribute) -> bool {
    has_ident(a, "doc"@)
}

/// Whether the attributes mark a definition: one of them is `ty`, `elem` or
/// `func`.
pub open spec fn marks_definition(attrs: Seq<Attribute>) -> bool {
    exists|i: int|
        0 <= i < attrs.len() && (has_ident(#[trigger] attrs[i], "ty"@) || has_ident(
            attrs[i],
            "elem"@,
        ) || has_ident(attrs[i], "func"@))
}

/// The smallest byte range that covers every doc attribute, if there is one.
pub open spec fn doc_span(attrs: Seq<Attribute>) -> Option<(usize, usize)>
    decreases attrs.len(),
{
    if attrs.len() == 0 {
        None
    } else {
        let prev = doc_span(attrs.drop_last());
        let a = attrs.last();
        if !is_doc(a) {
            prev
        } else {
            match prev {
                None => Some((a.span.start, a.span.end)),
                Some((s, e)) => Some(
                    (
                        if a.span.start < s {
                            a.span.start
                        } else {
                            s
                        },
                        if a.span.end > e {
                            a.span.end
                        } else {
                            e
                        },
                    ),
                ),
            }
        }
    }
}

/// A line of documentation without the one space that usually follows `///`.
pub open spec fn doc_line(v: Seq<char>) -> Seq<char> {
    if v.len() > 0 && v[0] == ' ' {
        v.drop_first()
    } else {
        v
    }
}

/// The lines of the doc comment attributes among `attrs`, each ended by a line
/// feed.
pub open spec fn doc_lines(attrs: Seq<Attribute>) -> Seq<char>
    decreases attrs.len(),
{
    if attrs.len() == 0 {
        Seq::empty()
    } else {
        let prev = doc_lines(attrs.drop_last());
        let a = attrs.last();
        match a.str_value {
            Some(v) => if is_doc(a) {
                prev + doc_line(v@) + "\n"@
            } else {
                prev
            },
            None => prev,
        }
    }
}

/// The documentation that the attributes hold, without surrounding
/// whitespace.
pub open spec fn documentation_text(attrs: Seq<Attribute>) -> Seq<char> {
    trim(doc_lines(attrs))
}

/// What the doc comments among `attrs` add: their range and text, if there
/// are any.
pub open spec fn docs_entry(attrs: Seq<Attribute>) -> Seq<(Range<usize>, Seq<char>)> {
    match doc_span(attrs) {
        None => Seq::empty(),
        Some((s, e)) => seq![(Range { start: s, end: e }, documentation_text(attrs))],
    }
}

/// What the doc comments of every attribute list in `lists` add, in order.
pub open spec fn docs_entries(lists: Seq<Vec<Attribute>>) -> Seq<(Range<usize>, Seq<char>)>
    decreases lists.len(),
{
    if lists.len() == 0 {
        Seq::empty()
    } else {
        docs_entries(lists.drop_last()) + docs_entry(lists.last()@)
    }
}

/// What the doc comments of the typed parameters add, in order.
pub open spec fn input_entries(inputs: Seq<FnInput>) -> Seq<(Range<usize>, Seq<char>)>
    decreases inputs.len(),
{
    if inputs.len() == 0 {
        Seq::empty()
    } else {
        input_entries(inputs.drop_last()) + match inputs.last() {
            FnInput::Receiver => Seq::empty(),
            FnInput::Typed(attrs) => docs_entry(attrs@),
        }
    }
}

/// The range recorded for a list of attributes covers every doc comment among
/// them, begins where one of them begins and ends where one of them ends; there
/// is a range exactly when there is a doc comment.
pub proof fn lemma_doc_span_covers(attrs: Seq<Attribute>)
    ensures
        doc_span(attrs) is None <==> forall|i: int| 0 <= i < attrs.len() ==> !is_doc(#[trigger] attrs[i]),
        doc_span(attrs) matches Some((s, e)) ==> {
            &&& forall|i: int|
                0 <= i < attrs.len() && is_doc(#[trigger] attrs[i]) ==> s <= attrs[i].span.start
                    && attrs[i].span.end <= e
            &&& exists|i: int| 0 <= i < attrs.len() && is_doc(#[trigger] attrs[i]) && attrs[i].span.start == s
            &&& exists|i: int| 0 <= i < attrs.len() && is_doc(#[trigger] attrs[i]) && attrs[i].span.end == e
        },
    decreases attrs.len(),
{
    if attrs.len() > 0 {
        let init = attrs.drop_last();
        lemma_doc_span_covers(init);
        let n = attrs.len() - 1;
        assert forall|i: int| 0 <= i < n implies #[trigger] attrs[i] == init[i] by {}
        if let Some((s, e)) = doc_span(attrs) {
            if let Some((s0, e0)) = doc_span(init) {
                let i0 = choose|i: int| 0 <= i < init.len() && is_doc(#[trigger] init[i]) && init[i].span.start == s0;
                let j0 = choose|i: int| 0 <= i < init.len() && is_doc(#[trigger] init[i]) && init[i].span.end == e0;
                assert(attrs[i0] == init[i0] && attrs[j0] == init[j0]);
                if is_doc(attrs[n]) {
                    if attrs[n].span.start < s0 {
                        assert(attrs[n].span.start == s);
                    } else {
                        assert(attrs[i0].span.start == s);
                    }
                    if attrs[n].span.end > e0 {
                        assert(attrs[n].span.end == e);
                    } else {
                        assert(attrs[j0].span.end == e);
                    }
                }
            } else {
                assert(is_doc(attrs[n]));
            }
        }
    }
}

/// The documentation of a definition neither begins nor ends with whitespace.
pub proof fn lemma_documentation_trimmed(attrs: Seq<Attribute>)
    ensures
        documentation_text(attrs).len() == 0 || (!is_whitespace(documentation_text(attrs)[0])
            && !is_whitespace(documentation_text(attrs).last())),
{
    lemma_trim_shape(doc_lines(attrs));
}

/// The doc comments of a function's parameters are recorded in parameter
/// order: those of the first parameters, then those of the others.
pub proof fn lemma_parameter_order(first: Seq<FnInput>, rest: Seq<FnInput>)
    ensures
        input_entries(first + rest) == input_entries(first) + input_entries(rest),
    decreases rest.len(),
{
    if rest.len() == 0 {
        assert(first + rest == first);
        assert(input_entries(first) + Seq::<(Range<usize>, Seq<char>)>::empty() == input_entries(first));
    } else {
        lemma_parameter_order(first, rest.drop_last());
        assert((first + rest).drop_last() == first + rest.drop_last());
        assert((first + rest).last() == rest.last());
    }
}

/// The doc comments of the `i`th parameter stand right after those of the
/// parameters before it and right before those of the parameters after it.
pub proof fn lemma_parameter_entries_in_place(inputs: Seq<FnInput>, i: int)
    requires
        0 <= i < inputs.len(),
    ensures
        input_entries(inputs) == input_entries(inputs.take(i)) + match inputs[i] {
            FnInput::Receiver => Seq::empty(),
            FnInput::Typed(attrs) => docs_entry(attrs@),
        } + input_entries(inputs.skip(i + 1)),
{
    let one = seq![inputs[i]];
    lemma_parameter_order(inputs.take(i), one);
    lemma_parameter_order(inputs.take(i) + one, inputs.skip(i + 1));
    assert(inputs.take(i) + one + inputs.skip(i + 1) == inputs);
    assert(one.drop_last() == Seq::<FnInput>::empty());
    assert(input_entries(Seq::<FnInput>::empty()) == Seq::<(Range<usize>, Seq<char>)>::empty());
}

/// The doc comments of a struct's fields are recorded in field order: those
/// of the first fields, then those of the others.
pub proof fn lemma_field_order(first: Seq<Vec<Attribute>>, rest: Seq<Vec<Attribute>>)
    ensures
        docs_entries(first + rest) == docs_entries(first) + docs_entries(rest),
    decreases rest.len(),
{
    if rest.len() == 0 {
        assert(first + rest == first);
        assert(docs_entries(first) + Seq::<(Range<usize>, Seq<char>)>::empty() == docs_entries(first));
    } else {
        lemma_field_order(first, rest.drop_last());
        assert((first + rest).drop_last() == first + rest.drop_last());
        assert((first + rest).last() == rest.last());
    }
}

/// Whether the attribute's path is the identifier `name`.
fn ident_is(a: &Attribute, name: &str) -> (b: bool)
    ensures
        b == has_ident(*a, name@),
{
    match &a.ident {
        Some(i) => eq_str(chars_of(i.as_str()).as_slice(), name),
        None => false,
    }
}

/// Whether the attributes mark a definition; see `marks_definition`.
pub fn is_definition(attrs: &Vec<Attribute>) -> (b: bool)
    ensures
        b == marks_definition(attrs@),
{
    for i in 0..attrs.len()
        invariant
            forall|j: int|
                0 <= j < i ==> !(has_ident(#[trigger] attrs@[j], "ty"@) || has_ident(
                    attrs@[j],
                    "elem"@,
                ) || has_ident(attrs@[j], "func"@)),
    {
        if ident_is(&attrs[i], "ty") || ident_is(&attrs[i], "elem") || ident_is(&attrs[i], "func") {
            return true;
        }
    }
    false
}

/// The documentation that the attributes hold; see `documentation_text`.
pub fn documentation(attrs: &Vec<Attribute>) -> (r: String)
    ensures
        r@ == documentation_text(attrs@),
{
    let mut doc: Vec<char> = Vec::new();
    for i in 0..attrs.len()
        invariant
            doc@ == doc_lines(attrs@.take(i as int)),
    {
        assert(attrs@.take(i + 1).drop_last() == attrs@.take(i as int));
        let a = &attrs[i];
        match &a.str_value {
            Some(v) => {
                if ident_is(a, "doc") {
                    let full = chars_of(v.as_str());
                    if full.len() > 0 && full[0] == ' ' {
                        let mut k: usize = 1;
                        let ghost before = doc@;
                        while k < full.len()
                            invariant
                                1 <= k <= full.len(),
                                full@.len() > 0,
                                doc@ == before + full@.subrange(1, k as int),
                            decreases full.len() - k,
                        {
                            doc.push(full[k]);
                            assert(full@.subrange(1, k + 1) == full@.subrange(1, k as int).push(
                                full@[k as int],
                            ));
                            k = k + 1;
                        }
                        assert(full@.subrange(1, full.len() as int) == full@.drop_first());
                    } else {
                        push_all(&mut doc, full.as_slice());
                    }
                    doc.push('\n');
                    assert(doc_line(v@) + "\n"@ == doc_line(v@).push('\n')) by {
                        reveal_strlit("\n");
                    }
                }
            },
            None => {},
        }
    }
    assert(attrs@.take(attrs.len() as int) == attrs@);
    let trimmed = trim_ws(doc.as_slice());
    string_of(trimmed.as_slice())
}

impl DocsVisitor {
    /// A visitor that has found nothing yet.
    pub fn new() -> (v: Self)
        ensures
            v@ == Seq::<(Range<usize>, Seq<char>)>::empty(),
    {
        DocsVisitor(Vec::new())
    }

    /// The doc comments found, in the order they were found.
    pub fn finish(self) -> (r: Vec<(Range<usize>, String)>)
        ensures
            entries_view(r@) == self@,
    {
        self.0
    }

    /// Records the doc comments among `attrs`, if there are any.
    pub fn process_docs(&mut self, attrs: &Vec<Attribute>)
        ensures
            final(self)@ == old(self)@ + docs_entry(attrs@),
    {
        let mut span: Option<(usize, usize)> = None;
        for i in 0..attrs.len()
            invariant
                span == doc_span(attrs@.take(i as int)),
        {
            assert(attrs@.take(i + 1).drop_last() == attrs@.take(i as int));
            let a = &attrs[i];
            if ident_is(a, "doc") {
                let start = a.span.start;
                let end = a.span.end;
                span = match span {
                    None => Some((start, end)),
                    Some((s, e)) => Some(
                        (
                            if start < s {
                                start
                            } else {
                                s
                            },
                            if end > e {
                                end
                            } else {
                                e
                            },
                        ),
                    ),
                };
            }
        }
        assert(attrs@.take(attrs.len() as int) == attrs@);
        let (start, end) = match span {
            None => {
                assert(docs_entry(attrs@) == Seq::<(Range<usize>, Seq<char>)>::empty());
                assert(old(self)@ + docs_entry(attrs@) == old(self)@);
                return ;
            },
            Some(r) => r,
        };
        let text = documentation(attrs);
        let ghost before = self.0@;
        self.0.push((Range { start, end }, text));
        assert(entries_view(self.0@) == entries_view(before).push((Range { start, end }, text@)));
    }

    /// Records the doc comments of a function that is a definition, and those
    /// of its typed parameters.
    pub fn process_func(&mut self, attrs: &Vec<Attribute>, inputs: &Vec<FnInput>)
        ensures
            final(self)@ == if marks_definition(attrs@) {
                old(self)@ + docs_entry(attrs@) + input_entries(inputs@)
            } else {
                old(self)@
            },
    {
        if is_definition(attrs) {
            self.process_docs(attrs);
            let ghost base = self@;
            for i in 0..inputs.len()
                invariant
                    self@ == base + input_entries(inputs@.take(i as int)),
            {
                assert(inputs@.take(i + 1).drop_last() == inputs@.take(i as int));
                match &inputs[i] {
                    FnInput::Receiver => {
                        assert(self@ == base + input_entries(inputs@.take(i + 1)));
                    },
                    FnInput::Typed(a) => {
                        self.process_docs(a);
                        assert(self@ == base + input_entries(inputs@.take(i + 1)));
                    },
                }
            }
            assert(inputs@.take(inputs.len() as int) == inputs@);
        }
    }

    /// A struct: records its doc comments and those of its fields, where it is
    /// a definition.
    pub fn visit_item_struct(&mut self, attrs: &Vec<Attribute>, fields: &Vec<Vec<Attribute>>)
        ensures
            final(self)@ == if marks_definition(attrs@) {
                old(self)@ + docs_entry(attrs@) + docs_entries(fields@)
            } else {
                old(self)@
            },
    {
        if is_definition(attrs) {
            self.process_docs(attrs);
            let ghost base = self@;
            for i in 0..fields.len()
                invariant
                    self@ == base + docs_entries(fields@.take(i as int)),
            {
                assert(fields@.take(i + 1).drop_last() == fields@.take(i as int));
                self.process_docs(&fields[i]);
            }
            assert(fields@.take(fields.len() as int) == fields@);
        }
    }

    /// An enum: records its doc comments, where it is a definition.
    pub fn visit_item_enum(&mut self, attrs: &Vec<Attribute>)
        ensures
            final(self)@ == if marks_definition(attrs@) {
                old(self)@ + docs_entry(attrs@)
            } else {
                old(self)@
            },
    {
        if is_definition(attrs) {
            self.process_docs(attrs);
        }
    }

    /// A free function; see `process_func`.
    pub fn visit_item_fn(&mut self, attrs: &Vec<Attribute>, inputs: &Vec<FnInput>)
        ensures
            final(self)@ == if marks_definition(attrs@) {
                old(self)@ + docs_entry(attrs@) + input_entries(inputs@)
            } else {
                old(self)@
            },
    {
        self.process_func(attrs, inputs);
    }

    /// A function in an impl block; see `process_func`.
    pub fn visit_impl_item_fn(&mut self, attrs: &Vec<Attribute>, inputs: &Vec<FnInput>)
        ensures
            final(self)@ == if marks_definition(attrs@) {
                old(self)@ + docs_entry(attrs@) + input_entries(inputs@)
            } else {
                old(self)@
            },
    {
        self.process_func(attrs, inputs);
    }

    /// An item that the parser kept as raw tokens: where they form a bare
    /// `type Name;` item (whose attributes are given), records its doc
    /// comments if it is a definition.
    pub fn visit_item(&mut self, bare_type: Option<&Vec<Attribute>>)
        ensures
            final(self)@ == match bare_type {
                Some(attrs) => if marks_definition(attrs@) {
                    old(self)@ + docs_entry(attrs@)
                } else {
                    old(self)@
                },
                None => old(self)@,
            },
    {
        if let Some(attrs) = bare_type {
            if is_definition(attrs) {
                self.process_docs(attrs);
            }
        }
    }
}

} // verus!
